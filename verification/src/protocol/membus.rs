//! Memory bus protocol: reads and writes in an addressable space, at a
//! physical or virtual address, contiguous or strided, with the handling
//! history of each access.

use vstd::prelude::*;
use crate::containers::preallocatedstore::PreAllocatedStore;
use crate::protocol::{Mode, Traceable};
use crate::protocol::addr::{Addr, AddrRangeError, Data, Pattern, SubRangeAddr};
use crate::scheduler::Tick;
use crate::types::history::{Handler, History};
use vstd::string::StringExecFns;

verus! {

/// Inline data bytes of an access (a cache line).
pub const STATIC_DATA_SIZE: usize = 32;

/// Inline entries of the crossbar return stack.
pub const STATIC_XBAR_SIZE: usize = 16;

/// Access command.
#[derive(Debug, Clone, Copy, PartialEq, Eq, Structural)]
pub enum Command {
    Read,
    Write,
    AddrRange,
}

impl Default for Command {
    fn default() -> (r: Self)
        ensures
            r == Command::Read,
    {
        Command::Read
    }
}

impl Command {
    /// The command as traced: `read`, `write` or `addrrange`.
    pub fn to_traceable(&self) -> (r: Traceable)
        ensures
            r matches Traceable::Text(s) && s@ == match *self {
                Command::Read => "read"@,
                Command::Write => "write"@,
                Command::AddrRange => "addrrange"@,
            },
    {
        match self {
            Command::Read => Traceable::Text(String::from_str("read")),
            Command::Write => Traceable::Text(String::from_str("write")),
            Command::AddrRange => Traceable::Text(String::from_str("addrrange")),
        }
    }
}

/// Why a memory access failed.
#[derive(Debug)]
pub enum MemBusError {
    /// A request came back as a response.
    ReqAsResp,
    /// A response was sent as a request.
    RespAsReq,
    /// The target does not support the command.
    Cmd(Command),
    /// The target does not support the pattern.
    Pattern(Pattern),
    /// The target does not support the subrange address.
    SubRange(SubRangeAddr),
    /// The routing table refused the access.
    AddrRange(AddrRangeError),
    /// A foreign function failed, with its message.
    Ffi(String),
}

/// A copy of a routing table.
fn copy_table(t: &Vec<(usize, (usize, usize))>) -> (r: Vec<(usize, (usize, usize))>)
    ensures
        r@ == t@,
{
    let mut r: Vec<(usize, (usize, usize))> = Vec::new();
    let mut i: usize = 0;
    while i < t.len()
        invariant
            0 <= i <= t.len(),
            r@ == t@.take(i as int),
        decreases t.len() - i,
    {
        r.push(t[i]);
        proof {
            assert(r@ =~= t@.take(i + 1));
        }
        i = i + 1;
    }
    proof {
        assert(t@.take(i as int) =~= t@);
    }
    r
}

/// Two routing errors say the same: same variant, same values, and the
/// same table entries.
pub open spec fn same_range_error(a: AddrRangeError, b: AddrRangeError) -> bool {
    match (a, b) {
        (
            AddrRangeError::CrossRange { access: a1, range: r1 },
            AddrRangeError::CrossRange { access: a2, range: r2 },
        ) => a1 == a2 && r1@ == r2@,
        _ => a == b,
    }
}

/// Two memory access errors say the same.
pub open spec fn same_error(a: MemBusError, b: MemBusError) -> bool {
    match (a, b) {
        (MemBusError::AddrRange(x), MemBusError::AddrRange(y)) => same_range_error(x, y),
        _ => a == b,
    }
}

/// A copy of a routing error.
fn copy_range_error(e: &AddrRangeError) -> (r: AddrRangeError)
    ensures
        same_range_error(r, *e),
{
    match e {
        AddrRangeError::Overlap { target, overlap } => {
            let t: (usize, Data) = (target.0, target.1);
            let o: (usize, Data) = (overlap.0, overlap.1);
            AddrRangeError::Overlap { target: t, overlap: o }
        },
        AddrRangeError::CrossRange { access, range } => AddrRangeError::CrossRange {
            access: *access,
            range: copy_table(range),
        },
        AddrRangeError::Unmapped { addr, len } => AddrRangeError::Unmapped { addr: *addr, len: *len },
    }
}

impl MemBusError {
    /// A copy of the error.
    pub fn duplicate(&self) -> (r: Self)
        ensures
            same_error(r, *self),
    {
        match self {
            MemBusError::ReqAsResp => MemBusError::ReqAsResp,
            MemBusError::RespAsReq => MemBusError::RespAsReq,
            MemBusError::Cmd(c) => MemBusError::Cmd(*c),
            MemBusError::Pattern(p) => MemBusError::Pattern(*p),
            MemBusError::SubRange(s) => MemBusError::SubRange(*s),
            MemBusError::AddrRange(e) => MemBusError::AddrRange(copy_range_error(e)),
            MemBusError::Ffi(s) => MemBusError::Ffi(s.clone()),
        }
    }
}

/// The subrange address of an access: its physical address, if it has one.
pub open spec fn subrange_of(addr: Addr) -> SubRangeAddr {
    match addr {
        Addr::Phys(paddr) => SubRangeAddr::Phys(paddr),
        Addr::PhysVirt(paddr, _) => SubRangeAddr::Phys(paddr),
        _ => SubRangeAddr::Unset(),
    }
}

/// A memory access: command, address and pattern, the data, and the
/// handling history from the requester to the target and back.
#[derive(Debug)]
pub struct MemBus {
    mode: Mode<MemBusError>,
    cmd: Command,
    addr: Addr,
    subrange_addr: SubRangeAddr,
    pattern: Pattern,
    data: PreAllocatedStore<u8, STATIC_DATA_SIZE>,
    trace: History<()>,
    /// Ports crossed through crossbars, used as a stack to route the
    /// response back to the requester.
    xbar_port: PreAllocatedStore<usize, STATIC_XBAR_SIZE>,
}

impl MemBus {
    pub closed spec fn spec_mode(&self) -> Mode<MemBusError> {
        self.mode
    }

    pub closed spec fn spec_cmd(&self) -> Command {
        self.cmd
    }

    pub closed spec fn spec_addr(&self) -> Addr {
        self.addr
    }

    pub closed spec fn spec_subrange_addr(&self) -> SubRangeAddr {
        self.subrange_addr
    }

    pub closed spec fn spec_pattern(&self) -> Pattern {
        self.pattern
    }

    /// The data bytes.
    pub closed spec fn spec_data(&self) -> Seq<u8> {
        self.data@
    }

    /// The handlings, in order.
    pub closed spec fn spec_trace(&self) -> Seq<Handler<()>> {
        self.trace@
    }

    /// The crossbar return stack.
    pub closed spec fn spec_xbar_port(&self) -> Seq<usize> {
        self.xbar_port@
    }

    pub closed spec fn wf(&self) -> bool {
        &&& self.data.wf()
        &&& self.trace.wf()
        &&& self.xbar_port.wf()
    }

    /// Set the subrange address from the address: its physical address, if
    /// it has one.
    pub fn update_subrange(&mut self)
        ensures
            final(self).spec_subrange_addr() == subrange_of(old(self).spec_addr()),
            final(self).spec_addr() == old(self).spec_addr(),
            final(self).spec_cmd() == old(self).spec_cmd(),
            final(self).spec_pattern() == old(self).spec_pattern(),
            final(self).spec_mode() == old(self).spec_mode(),
            final(self).spec_data() == old(self).spec_data(),
            final(self).spec_trace() == old(self).spec_trace(),
            final(self).spec_xbar_port() == old(self).spec_xbar_port(),
            final(self).wf() == old(self).wf(),
    {
        self.subrange_addr = match self.addr {
            Addr::Phys(paddr) => SubRangeAddr::Phys(paddr),
            Addr::PhysVirt(paddr, _vaddr) => SubRangeAddr::Phys(paddr),
            _ => SubRangeAddr::Unset(),
        };
    }

    /// A request from module `from_uid` at `cur_tick`, carrying `data` if
    /// given; the issuer is its first handling.
    pub fn new(
        from_uid: usize,
        cmd: Command,
        addr: Addr,
        pattern: Pattern,
        data: Option<&[u8]>,
        cur_tick: Tick,
    ) -> (r: Self)
        ensures
            r.wf(),
            r.spec_mode() is Request,
            r.spec_cmd() == cmd,
            r.spec_addr() == addr,
            r.spec_subrange_addr() == subrange_of(addr),
            r.spec_pattern() == pattern,
            r.spec_data() == match data {
                Some(d) => d@,
                None => Seq::<u8>::empty(),
            },
            r.spec_trace() == seq![Handler::<()>::Base { tick: cur_tick, uid: from_uid }],
            r.spec_xbar_port() == Seq::<usize>::empty(),
    {
        let mut membus = MemBus {
            mode: Mode::Request,
            cmd,
            addr,
            subrange_addr: SubRangeAddr::Unset(),
            pattern,
            data: PreAllocatedStore::Static(0, [0u8; STATIC_DATA_SIZE]),
            trace: History::new(),
            xbar_port: PreAllocatedStore::Static(0, [0usize; STATIC_XBAR_SIZE]),
        };
        proof {
            assert(membus.data@ =~= Seq::<u8>::empty());
            assert(membus.xbar_port@ =~= Seq::<usize>::empty());
        }
        membus.update_subrange();
        if let Some(d) = data {
            let _n = d.len();
            membus.data.extend_from_slice(d);
            proof {
                assert(membus.data@ =~= d@);
            }
        }
        membus.wrap_up(from_uid, cur_tick);
        proof {
            assert(membus.trace@ =~= seq![Handler::<()>::Base { tick: cur_tick, uid: from_uid }]);
        }
        membus
    }

    /// Record a handling.
    pub fn append_handler(&mut self, handler: Handler<()>)
        requires
            old(self).wf(),
            old(self).spec_trace().len() < usize::MAX,
        ensures
            final(self).wf(),
            final(self).spec_trace() == old(self).spec_trace().push(handler),
            final(self).spec_mode() == old(self).spec_mode(),
            final(self).spec_cmd() == old(self).spec_cmd(),
            final(self).spec_addr() == old(self).spec_addr(),
            final(self).spec_subrange_addr() == old(self).spec_subrange_addr(),
            final(self).spec_pattern() == old(self).spec_pattern(),
            final(self).spec_data() == old(self).spec_data(),
            final(self).spec_xbar_port() == old(self).spec_xbar_port(),
    {
        self.trace.push(handler);
    }

    /// Record a plain handling by module `uid` at `cur_tick`.
    pub fn wrap_up(&mut self, uid: usize, cur_tick: Tick)
        requires
            old(self).wf(),
            old(self).spec_trace().len() < usize::MAX,
        ensures
            final(self).wf(),
            final(self).spec_trace() == old(self).spec_trace().push(
                Handler::Base { tick: cur_tick, uid },
            ),
            final(self).spec_mode() == old(self).spec_mode(),
            final(self).spec_cmd() == old(self).spec_cmd(),
            final(self).spec_addr() == old(self).spec_addr(),
            final(self).spec_subrange_addr() == old(self).spec_subrange_addr(),
            final(self).spec_pattern() == old(self).spec_pattern(),
            final(self).spec_data() == old(self).spec_data(),
            final(self).spec_xbar_port() == old(self).spec_xbar_port(),
    {
        self.append_handler(Handler::base(uid, cur_tick));
    }

    /// Check a received response: a request, or a failed access, is
    /// refused.
    pub fn rx_check(&self) -> (r: Result<(), MemBusError>)
        ensures
            match self.spec_mode() {
                Mode::Request => r matches Err(x) && x is ReqAsResp,
                Mode::Response => r is Ok,
                Mode::Error(e) => r matches Err(x) && same_error(x, e),
            },
    {
        match &self.mode {
            Mode::Request => Err(MemBusError::ReqAsResp),
            Mode::Response => Ok(()),
            Mode::Error(e) => Err(e.duplicate()),
        }
    }

    /// Check a request before sending it: a response, or a failed access, is
    /// refused.
    pub fn tx_check(&self) -> (r: Result<(), MemBusError>)
        ensures
            match self.spec_mode() {
                Mode::Response => r matches Err(x) && x is RespAsReq,
                Mode::Request => r is Ok,
                Mode::Error(e) => r matches Err(x) && same_error(x, e),
            },
    {
        match &self.mode {
            Mode::Response => Err(MemBusError::RespAsReq),
            Mode::Request => Ok(()),
            Mode::Error(e) => Err(e.duplicate()),
        }
    }

    pub fn mode(&self) -> (r: &Mode<MemBusError>)
        ensures
            *r == self.spec_mode(),
    {
        &self.mode
    }

    pub fn set_mode(&mut self, mode: Mode<MemBusError>)
        ensures
            final(self).spec_mode() == mode,
            final(self).spec_cmd() == old(self).spec_cmd(),
            final(self).spec_addr() == old(self).spec_addr(),
            final(self).spec_subrange_addr() == old(self).spec_subrange_addr(),
            final(self).spec_pattern() == old(self).spec_pattern(),
            final(self).spec_data() == old(self).spec_data(),
            final(self).spec_trace() == old(self).spec_trace(),
            final(self).spec_xbar_port() == old(self).spec_xbar_port(),
            final(self).wf() == old(self).wf(),
    {
        self.mode = mode;
    }

    pub fn cmd(&self) -> (r: Command)
        ensures
            r == self.spec_cmd(),
    {
        self.cmd
    }

    pub fn addr(&self) -> (r: Addr)
        ensures
            r == self.spec_addr(),
    {
        self.addr
    }

    pub fn subrange_addr(&self) -> (r: SubRangeAddr)
        ensures
            r == self.spec_subrange_addr(),
    {
        self.subrange_addr
    }

    pub fn pattern(&self) -> (r: Pattern)
        ensures
            r == self.spec_pattern(),
    {
        self.pattern
    }

    /// The data bytes.
    pub fn data(&self) -> (r: &[u8])
        requires
            self.wf(),
        ensures
            r@ == self.spec_data(),
    {
        self.data.as_slice()
    }

    /// The handlings, in order.
    pub fn trace(&self) -> (r: &History<()>)
        ensures
            r@ == self.spec_trace(),
            self.wf() ==> r.wf(),
    {
        &self.trace
    }

    /// Push the port that a crossbar received the request from.
    pub fn push_xbar_port(&mut self, port: usize)
        requires
            old(self).wf(),
            old(self).spec_xbar_port().len() < usize::MAX,
        ensures
            final(self).wf(),
            final(self).spec_xbar_port() == old(self).spec_xbar_port().push(port),
            final(self).spec_mode() == old(self).spec_mode(),
            final(self).spec_cmd() == old(self).spec_cmd(),
            final(self).spec_addr() == old(self).spec_addr(),
            final(self).spec_subrange_addr() == old(self).spec_subrange_addr(),
            final(self).spec_pattern() == old(self).spec_pattern(),
            final(self).spec_data() == old(self).spec_data(),
            final(self).spec_trace() == old(self).spec_trace(),
    {
        self.xbar_port.push(port);
    }

    /// Pop the port that a crossbar sends the response back to.
    pub fn pop_xbar_port(&mut self) -> (r: Option<usize>)
        requires
            old(self).wf(),
        ensures
            final(self).wf(),
            old(self).spec_xbar_port().len() == 0 ==> r is None && final(self).spec_xbar_port()
                == old(self).spec_xbar_port(),
            old(self).spec_xbar_port().len() > 0 ==> r == Some(old(self).spec_xbar_port().last())
                && final(self).spec_xbar_port() == old(self).spec_xbar_port().drop_last(),
            final(self).spec_mode() == old(self).spec_mode(),
            final(self).spec_cmd() == old(self).spec_cmd(),
            final(self).spec_addr() == old(self).spec_addr(),
            final(self).spec_subrange_addr() == old(self).spec_subrange_addr(),
            final(self).spec_pattern() == old(self).spec_pattern(),
            final(self).spec_data() == old(self).spec_data(),
            final(self).spec_trace() == old(self).spec_trace(),
    {
        self.xbar_port.pop()
    }

    /// The address range setup of a port, as requests from module
    /// `from_uid` at `cur_tick`: one `AddrRange` request per range, then one
    /// with an unset address that ends the setup.
    pub fn addr_range_requests(from_uid: usize, ranges: &Vec<Addr>, cur_tick: Tick) -> (r: Vec<MemBus>)
        requires
            forall|i: int| 0 <= i < ranges@.len() ==> #[trigger] ranges@[i] is Range,
        ensures
            r@.len() == ranges@.len() + 1,
            forall|i: int|
                0 <= i < r@.len() ==> (#[trigger] r@[i]).wf() && r@[i].spec_cmd() == Command::AddrRange
                    && r@[i].spec_mode() is Request && r@[i].spec_pattern() == Pattern::Unset()
                    && r@[i].spec_data() == Seq::<u8>::empty() && r@[i].spec_trace() == seq![
                    Handler::<()>::Base { tick: cur_tick, uid: from_uid },
                ],
            forall|i: int| 0 <= i < ranges@.len() ==> (#[trigger] r@[i]).spec_addr() == ranges@[i],
            r@[ranges@.len() as int].spec_addr() == Addr::Unset(),
    {
        let mut reqs: Vec<MemBus> = Vec::new();
        let mut i: usize = 0;
        while i < ranges.len()
            invariant
                0 <= i <= ranges@.len(),
                reqs@.len() == i,
                forall|k: int|
                    0 <= k < i ==> (#[trigger] reqs@[k]).wf() && reqs@[k].spec_cmd() == Command::AddrRange
                        && reqs@[k].spec_mode() is Request && reqs@[k].spec_pattern() == Pattern::Unset()
                        && reqs@[k].spec_data() == Seq::<u8>::empty() && reqs@[k].spec_trace() == seq![
                        Handler::<()>::Base { tick: cur_tick, uid: from_uid },
                    ] && reqs@[k].spec_addr() == ranges@[k],
            decreases ranges.len() - i,
        {
            reqs.push(MemBus::new(from_uid, Command::AddrRange, ranges[i], Pattern::Unset(), None, cur_tick));
            i = i + 1;
        }
        reqs.push(MemBus::new(from_uid, Command::AddrRange, Addr::Unset(), Pattern::Unset(), None, cur_tick));
        reqs
    }

    /// For a port that takes no address range: whether a received setup
    /// request ends the setup (its address is not a range; range requests
    /// are dropped).
    pub fn ends_addr_range_setup(&self) -> (r: bool)
        requires
            self.spec_cmd() == Command::AddrRange,
        ensures
            r == !(self.spec_addr() is Range),
    {
        match self.addr {
            Addr::Range(_, _) => false,
            _ => true,
        }
    }

    /// The data bytes, out of the access.
    pub fn into_data(self) -> (r: Vec<u8>)
        requires
            self.wf(),
        ensures
            r@ == self.spec_data(),
    {
        self.data.into_vec()
    }
}

} // verus!
