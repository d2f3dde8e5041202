# ra2m_sim

Kernel of Ra2m, a hardware architecture simulator in which hardware
processes are asynchronous tasks and simulated time is driven by a
scheduler.

The crate is written in Verus. `src/` holds the verified kernel: every
function there carries a contract proved by Verus, and the laws of the
library (what an operation undoes, what a lookup gives back after an
insertion, what a setting leaves unchanged) stand there as proof functions.

- `uint`, `wordseq`: fixed width unsigned integers built of 64-bit words.
- `containers`: grow-only vectors, pre-allocated stores, sparse vectors.
- `protocol`: addresses and routing tables, memory bus, DMA and network
  payloads with their request/response checks.
- `port`: packets and their delays, port vectors, session dispatch.
- `scheduler`, `delay`, `time`, `event`: the scheduler's decisions and the
  process accounting, process delays, timing modes, named events.
- `module`, `path`: module properties and ids, the module hierarchy, port
  lookups and the application of log and trace settings by path patterns.
- `output`: log filters and the parsing of log and trace settings.
- `types`, `naming`, `text`, `table`: spans, cycles, handling histories,
  indexed names, text helpers and trace table decoding.

`app/` is the unverified runtime around it: physical units (floating
point), the tokio-driven simulation loop, named events, ports over
channels, output files and simulation setup. The decisions that can be written over plain
values (scheduling, bindings, packet checks and ordering, settings) are calls
of the kernel; waiting, locking, channels, floating point and files stay
here.

`tests/` runs the kernel on concrete values.
