//! Module hierarchy.
//!
//! Modules are nested in areas; a module path is made of the names of its
//! enclosing modules separated by `::`. Log and trace settings reach the
//! modules whose path matches a pattern: one regular expression per path
//! segment, the last one being `*` to also reach every module below.
//!
//! An area holds its whole sub-hierarchy: node 0 is the area itself, and a
//! child always comes after its parent.

use vstd::prelude::*;
use crate::output::log::{Args as LogArgs, LogFilter, Verbosity, filter_of};
use crate::output::trace::{Args as TraceArgs, Kind, KIND_COUNT, trace_flags_after, law_trace_settings_idempotent};
use crate::path::{split_path, split_sep, path_key, last_segment, child_path, is_wildcard};

verus! {

/// Whether `pattern` is a valid regular expression (`regex::Regex::new`
/// succeeds on it).
pub uninterp spec fn regex_compiles(pattern: Seq<char>) -> bool;

/// Whether the regular expression `pattern` matches somewhere in `text`
/// (`regex::Regex::is_match`).
pub uninterp spec fn regex_finds(pattern: Seq<char>, text: Seq<char>) -> bool;

/// Search `text` for the regular expression `pattern`; `None` when the
/// pattern is not a valid regular expression.
///
/// Calls `regex::Regex::new` and `regex::Regex::is_match`. The contract
/// claims that the pattern compiles or not whatever the text, that the
/// search result is a function of the pattern and the text, and that `.*`
/// compiles and matches every text (it matches the empty string at the
/// start); the regular expression language itself is not stated.
#[verifier::external_body]
fn regex_search(pattern: &str, text: &str) -> (r: Option<bool>)
    ensures
        regex_compiles(pattern@) ==> r == Some(regex_finds(pattern@, text@)),
        !regex_compiles(pattern@) ==> r is None,
        pattern@ == seq!['.', '*'] ==> r == Some(true),
{
    match regex::Regex::new(pattern) {
        Ok(re) => Some(re.is_match(text)),
        Err(_) => None,
    }
}

/// A path segment that is not a valid regular expression.
#[derive(Debug, Clone)]
pub struct InvalidPattern(pub String);

/// Errors of area port lookups.
#[derive(Debug)]
pub enum AreaError {
    /// The area path, and a `module::port` string that is not two segments.
    InDepth(String, String),
    /// The area path, and a module name that the area does not hold.
    NoModule(String, String),
}

/// How a hierarchy search ends once every path segment is matched.
#[derive(Debug, Clone, Copy, PartialEq, Eq, Structural)]
pub enum ImrMode {
    /// The modules reached by the last segment.
    ExactMatch,
    /// The modules reached by the last segment and everything below them.
    Wildcard,
    /// The given modules and everything below them.
    WrapUp,
}

/// Issues ids (of modules, of packets): each id once, counting up from 0;
/// the ids issued so far are exactly those below `issued()`.
#[derive(Debug)]
pub struct UidGen {
    next: usize,
}

impl UidGen {
    /// Number of ids issued so far.
    pub closed spec fn issued(&self) -> nat {
        self.next as nat
    }

    /// A generator that has issued no id.
    pub fn new() -> (r: Self)
        ensures
            r.issued() == 0,
    {
        UidGen { next: 0 }
    }

    /// Number of ids issued so far.
    pub fn count(&self) -> (r: usize)
        ensures
            r == self.issued(),
    {
        self.next
    }

    /// Issue the next id: greater than every id issued before.
    pub fn issue(&mut self) -> (r: usize)
        requires
            old(self).issued() < usize::MAX,
        ensures
            r == old(self).issued(),
            final(self).issued() == old(self).issued() + 1,
    {
        let r = self.next;
        self.next = self.next + 1;
        r
    }
}

/// The properties of a child module that override those of its area.
#[derive(Debug, Clone, Copy)]
pub struct PropertiesOverride {
    clock_domain: Option<usize>,
}

impl PropertiesOverride {
    pub closed spec fn spec_clock_domain(&self) -> Option<usize> {
        self.clock_domain
    }

    /// Override the clock domain (its frequency in hertz) when given.
    pub fn new(clock_domain: Option<usize>) -> (r: Self)
        ensures
            r.spec_clock_domain() == clock_domain,
    {
        PropertiesOverride { clock_domain }
    }

    /// The overriding clock domain frequency, in hertz, if any.
    pub fn clock_domain(&self) -> (r: Option<usize>)
        ensures
            r == self.spec_clock_domain(),
    {
        self.clock_domain
    }
}

impl Default for PropertiesOverride {
    fn default() -> (r: Self)
        ensures
            r.spec_clock_domain() is None,
    {
        PropertiesOverride { clock_domain: None }
    }
}

/// Common module properties.
#[derive(Debug)]
pub struct Properties {
    uid: usize,
    path: String,
    clock_hz: usize,
    log_filter: LogFilter,
    hw_trace: [bool; KIND_COUNT],
}

impl Properties {
    pub closed spec fn spec_uid(&self) -> usize {
        self.uid
    }

    pub closed spec fn spec_path(&self) -> Seq<char> {
        self.path@
    }

    /// The frequency of the module's clock domain, in hertz.
    pub closed spec fn spec_clock_hz(&self) -> usize {
        self.clock_hz
    }

    pub closed spec fn spec_log_filter(&self) -> Seq<Verbosity> {
        self.log_filter@
    }

    pub closed spec fn spec_hw_trace(&self) -> Seq<bool> {
        self.hw_trace@
    }

    /// Properties of the module at `path` in the clock domain of frequency
    /// `clock_hz`, with the next id of `uids`: logging from `Info` on and
    /// every trace kind off.
    pub fn new(path: String, clock_hz: usize, uids: &mut UidGen) -> (r: Self)
        requires
            old(uids).issued() < usize::MAX,
        ensures
            r.spec_uid() == old(uids).issued(),
            final(uids).issued() == old(uids).issued() + 1,
            r.spec_path() == path@,
            r.spec_clock_hz() == clock_hz,
            r.spec_log_filter() == Seq::new(6, |i: int| Verbosity::Info),
            r.spec_hw_trace() == seq![false, false],
    {
        let log_filter = LogFilter::new(Verbosity::Info);
        let hw_trace = [false, false];
        proof {
            assert(log_filter@ =~= Seq::new(6, |i: int| Verbosity::Info));
            assert(hw_trace@ =~= seq![false, false]);
        }
        let uid = uids.issue();
        Properties { uid, path, clock_hz, log_filter, hw_trace }
    }

    pub fn uid(&self) -> (r: &usize)
        ensures
            *r == self.spec_uid(),
    {
        &self.uid
    }

    pub fn path(&self) -> (r: &String)
        ensures
            r@ == self.spec_path(),
    {
        &self.path
    }

    /// The frequency of the module's clock domain, in hertz.
    pub fn clock_domain(&self) -> (r: usize)
        ensures
            r == self.spec_clock_hz(),
    {
        self.clock_hz
    }

    pub fn log_filter(&self) -> (r: &LogFilter)
        ensures
            r@ == self.spec_log_filter(),
    {
        &self.log_filter
    }

    /// Turn each listed trace kind on or off, in order.
    pub fn update_trace(&mut self, kind_val: &Vec<(Kind, bool)>)
        ensures
            final(self).spec_hw_trace() == trace_flags_after(old(self).spec_hw_trace(), kind_val@),
            final(self).spec_uid() == old(self).spec_uid(),
            final(self).spec_clock_hz() == old(self).spec_clock_hz(),
            final(self).spec_path() == old(self).spec_path(),
            final(self).spec_log_filter() == old(self).spec_log_filter(),
    {
        let mut q: usize = 0;
        proof {
            assert(kind_val@.take(0) =~= Seq::<(Kind, bool)>::empty());
        }
        while q < kind_val.len()
            invariant
                0 <= q <= kind_val.len(),
                self.hw_trace@ == trace_flags_after(old(self).hw_trace@, kind_val@.take(q as int)),
                self.uid == old(self).uid,
                self.clock_hz == old(self).clock_hz,
                self.path == old(self).path,
                self.log_filter == old(self).log_filter,
            decreases kind_val.len() - q,
        {
            let (kind, val) = kind_val[q];
            let i = kind.as_index();
            self.hw_trace[i] = val;
            proof {
                assert(kind_val@.take(q + 1).drop_last() =~= kind_val@.take(q as int));
                assert(self.hw_trace@ =~= trace_flags_after(old(self).hw_trace@, kind_val@.take(q as int)).update(i as int, val));
            }
            q = q + 1;
        }
        proof {
            assert(kind_val@.take(q as int) =~= kind_val@);
        }
    }

    /// Take over the levels of `filter`.
    pub fn set_log_filter(&mut self, filter: &LogFilter)
        ensures
            final(self).spec_log_filter() == filter@,
            final(self).spec_hw_trace() == old(self).spec_hw_trace(),
            final(self).spec_uid() == old(self).spec_uid(),
            final(self).spec_clock_hz() == old(self).spec_clock_hz(),
            final(self).spec_path() == old(self).spec_path(),
    {
        self.log_filter.replace(filter);
    }

    /// Whether the trace of `kind` is on.
    pub fn hw_trace_on(&self, kind: Kind) -> (r: bool)
        ensures
            r == self.spec_hw_trace()[kind.index() as int],
    {
        self.hw_trace[kind.as_index()]
    }
}

/// The path of a module, as a string slice.
fn path_of(props: &Properties) -> (r: &str)
    ensures
        r@ == props.spec_path(),
{
    props.path.as_str()
}

/// A module of the hierarchy.
struct Node {
    props: Properties,
    is_area: bool,
    children: Vec<(String, usize)>,
    port_map: Vec<(String, (String, String))>,
}

/// Children (name, node) whose name matches `pat`, in order.
pub open spec fn matching(children: Seq<(Seq<char>, usize)>, pat: Seq<char>) -> Seq<usize>
    decreases children.len(),
{
    if children.len() == 0 {
        Seq::empty()
    } else if regex_finds(pat, children.last().0) {
        matching(children.drop_last(), pat).push(children.last().1)
    } else {
        matching(children.drop_last(), pat)
    }
}

/// The value of the first entry named `key`, as a map lookup by name gives it.
pub open spec fn entry_of<V>(entries: Seq<(Seq<char>, V)>, key: Seq<char>) -> Option<V>
    decreases entries.len(),
{
    if entries.len() == 0 {
        None
    } else if entries[0].0 == key {
        Some(entries[0].1)
    } else {
        entry_of(entries.skip(1), key)
    }
}

/// The entries after inserting `value` under `key`: the first entry named
/// `key` takes the new value; without one, the entry comes last.
pub open spec fn with_entry<V>(entries: Seq<(Seq<char>, V)>, key: Seq<char>, value: V) -> Seq<
    (Seq<char>, V),
>
    decreases entries.len(),
{
    if entries.len() == 0 {
        seq![(key, value)]
    } else if entries[0].0 == key {
        seq![(key, value)] + entries.skip(1)
    } else {
        seq![entries[0]] + with_entry(entries.skip(1), key, value)
    }
}

/// Inserting an entry is replacing the first one of that name, or pushing.
proof fn lemma_with_entry<V>(entries: Seq<(Seq<char>, V)>, key: Seq<char>, value: V, k: int)
    requires
        0 <= k <= entries.len(),
        forall|i: int| 0 <= i < k ==> #[trigger] entries[i].0 != key,
        k < entries.len() ==> entries[k].0 == key,
    ensures
        with_entry(entries, key, value) == if k < entries.len() {
            entries.update(k, (key, value))
        } else {
            entries.push((key, value))
        },
    decreases entries.len(),
{
    if entries.len() == 0 {
        assert(seq![(key, value)] =~= entries.push((key, value)));
    } else if k == 0 {
        assert(seq![(key, value)] + entries.skip(1) =~= entries.update(0, (key, value)));
    } else {
        let rest = entries.skip(1);
        assert forall|i: int| 0 <= i < k - 1 implies #[trigger] rest[i].0 != key by {
            assert(rest[i] == entries[i + 1]);
        }
        lemma_with_entry(rest, key, value, k - 1);
        if k < entries.len() {
            assert(seq![entries[0]] + rest.update(k - 1, (key, value)) =~= entries.update(
                k,
                (key, value),
            ));
        } else {
            assert(seq![entries[0]] + rest.push((key, value)) =~= entries.push((key, value)));
        }
    }
}

/// The lookup of the first entry of a name skips the entries before it.
proof fn lemma_entry_of<V>(entries: Seq<(Seq<char>, V)>, key: Seq<char>, k: int)
    requires
        0 <= k <= entries.len(),
        forall|i: int| 0 <= i < k ==> #[trigger] entries[i].0 != key,
    ensures
        entry_of(entries, key) == entry_of(entries.skip(k), key),
    decreases k,
{
    if k > 0 {
        let rest = entries.skip(1);
        assert forall|i: int| 0 <= i < k - 1 implies #[trigger] rest[i].0 != key by {
            assert(rest[i] == entries[i + 1]);
        }
        lemma_entry_of(rest, key, k - 1);
        assert(rest.skip(k - 1) =~= entries.skip(k));
    } else {
        assert(entries.skip(0) =~= entries);
    }
}

/// A lookup right after an insertion finds the inserted value, and the
/// insertion leaves every other name as it was.
pub proof fn law_lookup_after_insert<V>(
    entries: Seq<(Seq<char>, V)>,
    key: Seq<char>,
    value: V,
    other: Seq<char>,
)
    ensures
        entry_of(with_entry(entries, key, value), key) == Some(value),
        other != key ==> entry_of(with_entry(entries, key, value), other) == entry_of(
            entries,
            other,
        ),
    decreases entries.len(),
{
    if entries.len() == 0 {
        let w = with_entry(entries, key, value);
        assert(w.skip(1) =~= Seq::<(Seq<char>, V)>::empty());
        assert(w[0] == (key, value));
        assert(entry_of(w.skip(1), other) == None::<V>);
    } else if entries[0].0 == key {
        let w = with_entry(entries, key, value);
        assert(w.skip(1) =~= entries.skip(1));
        assert(w[0] == (key, value));
        if other != key {
            assert(entry_of(w, other) == entry_of(w.skip(1), other));
        }
    } else {
        let w = with_entry(entries, key, value);
        law_lookup_after_insert(entries.skip(1), key, value, other);
        assert(w.skip(1) =~= with_entry(entries.skip(1), key, value));
        assert(w[0] == entries[0]);
        if other != key && entries[0].0 != other {
            assert(entry_of(w, other) == entry_of(w.skip(1), other));
        }
    }
}

/// Child entries with their node moved by `offset`.
pub open spec fn shift(children: Seq<(Seq<char>, usize)>, offset: int) -> Seq<(Seq<char>, usize)> {
    children.map_values(|c: (Seq<char>, usize)| (c.0, (c.1 + offset) as usize))
}

/// Position of the first entry named `key`, or the number of entries.
fn position_of<V>(entries: &Vec<(String, V)>, key: &String) -> (k: usize)
    ensures
        k <= entries@.len(),
        forall|i: int| 0 <= i < k ==> #[trigger] entries@[i].0@ != key@,
        k < entries@.len() ==> entries@[k as int].0@ == key@,
{
    let mut k: usize = 0;
    while k < entries.len()
        invariant
            k <= entries@.len(),
            forall|i: int| 0 <= i < k ==> #[trigger] entries@[i].0@ != key@,
        decreases entries.len() - k,
    {
        if entries[k].0 == *key {
            return k;
        }
        k = k + 1;
    }
    k
}

/// Child entries with their node moved by `offset`.
fn shift_children(children: &Vec<(String, usize)>, offset: usize) -> (r: Vec<(String, usize)>)
    requires
        forall|k: int| 0 <= k < children@.len() ==> #[trigger] children@[k].1 + offset <= usize::MAX,
    ensures
        r@.map_values(|c: (String, usize)| (c.0@, c.1)) == shift(
            children@.map_values(|c: (String, usize)| (c.0@, c.1)),
            offset as int,
        ),
{
    let mut r: Vec<(String, usize)> = Vec::new();
    let mut k: usize = 0;
    let ghost src = children@.map_values(|c: (String, usize)| (c.0@, c.1));
    while k < children.len()
        invariant
            k <= children@.len(),
            src == children@.map_values(|c: (String, usize)| (c.0@, c.1)),
            forall|i: int| 0 <= i < children@.len() ==> #[trigger] children@[i].1 + offset <= usize::MAX,
            r@.map_values(|c: (String, usize)| (c.0@, c.1)) == shift(src.take(k as int), offset as int),
        decreases children.len() - k,
    {
        let name = children[k].0.clone();
        let idx = children[k].1 + offset;
        let ghost before = r@;
        r.push((name, idx));
        proof {
            assert(shift(src.take(k + 1), offset as int) =~= shift(src.take(k as int), offset as int).push(
                (children@[k as int].0@, idx),
            ));
            assert(r@.map_values(|c: (String, usize)| (c.0@, c.1)) =~= before.map_values(
                |c: (String, usize)| (c.0@, c.1),
            ).push((name@, idx)));
        }
        k = k + 1;
    }
    proof {
        assert(src.take(k as int) =~= src);
    }
    r
}

/// The path segments of a setting and how its search ends: a last segment
/// `*` is dropped and makes the search reach everything below.
pub open spec fn search_of(path: Seq<char>) -> (Seq<Seq<char>>, ImrMode) {
    let segs = split_sep(path);
    if segs.last() == seq!['*'] {
        (segs.drop_last(), ImrMode::Wildcard)
    } else {
        (segs, ImrMode::ExactMatch)
    }
}

/// Every segment of the search for `path` is a valid regular expression.
pub open spec fn search_valid(path: Seq<char>) -> bool {
    forall|i: int| 0 <= i < search_of(path).0.len() ==> regex_compiles(#[trigger] search_of(path).0[i])
}

/// A resolved port matches its target.
pub open spec fn same_target(x: Option<(usize, String)>, t: Option<(int, Seq<char>)>) -> bool {
    match t {
        Some(t) => x matches Some(y) && y.0 == t.0 && y.1@ == t.1,
        None => x is None,
    }
}

/// An area and every module below it.
pub struct Area {
    nodes: Vec<Node>,
}

impl Area {
    /// Number of modules in the hierarchy, the area itself included.
    pub closed spec fn node_count(&self) -> nat {
        self.nodes@.len()
    }

    pub closed spec fn node_path(&self, n: int) -> Seq<char> {
        self.nodes@[n].props.path@
    }

    pub closed spec fn node_uid(&self, n: int) -> usize {
        self.nodes@[n].props.uid
    }

    /// The clock domain frequency of node `n`, in hertz.
    pub closed spec fn node_clock(&self, n: int) -> usize {
        self.nodes@[n].props.clock_hz
    }

    /// Whether node `n` is an area (as opposed to a leaf module).
    pub closed spec fn node_is_area(&self, n: int) -> bool {
        self.nodes@[n].is_area
    }

    /// The children of node `n`: (name, node).
    pub closed spec fn node_children(&self, n: int) -> Seq<(Seq<char>, usize)> {
        self.nodes@[n].children@.map_values(|c: (String, usize)| (c.0@, c.1))
    }

    /// The log levels of node `n`, by category index.
    pub closed spec fn node_filter(&self, n: int) -> Seq<Verbosity> {
        self.nodes@[n].props.log_filter@
    }

    /// The trace flags of node `n`, by kind index.
    pub closed spec fn node_trace(&self, n: int) -> Seq<bool> {
        self.nodes@[n].props.hw_trace@
    }

    /// The exposed ports of node `n`: (name, (module, port)).
    pub closed spec fn node_ports(&self, n: int) -> Seq<(Seq<char>, (Seq<char>, Seq<char>))> {
        self.nodes@[n].port_map@.map_values(
            |p: (String, (String, String))| (p.0@, (p.1.0@, p.1.1@)),
        )
    }

    /// The hierarchy is not empty and inner modules come after the module
    /// that holds them.
    pub closed spec fn wf(&self) -> bool {
        &&& self.nodes@.len() > 0
        &&& forall|n: int, k: int|
            0 <= n < self.nodes@.len() && 0 <= k < self.nodes@[n].children@.len() ==> n
                < #[trigger] self.nodes@[n].children@[k].1 < self.nodes@.len()
    }

    /// What a well formed hierarchy guarantees: the area itself is node 0,
    /// and every inner module comes after the module that holds it.
    pub proof fn lemma_wf(&self)
        requires
            self.wf(),
        ensures
            self.node_count() > 0,
            forall|n: int, k: int|
                0 <= n < self.node_count() && 0 <= k < self.node_children(n).len() ==> n
                    < #[trigger] self.node_children(n)[k].1 < self.node_count(),
    {
        assert forall|n: int, k: int|
            0 <= n < self.node_count() && 0 <= k < self.node_children(n).len() implies n
                < #[trigger] self.node_children(n)[k].1 < self.node_count() by {
            assert(self.node_children(n)[k].1 == self.nodes@[n].children@[k].1);
        }
    }

    /// Two hierarchies of the same size whose modules below node 0 are
    /// alike, inner modules and exposed ports included.
    spec fn agree_below(a: Area, b: Area) -> bool {
        &&& a.node_count() == b.node_count()
        &&& forall|j: int|
            #![trigger a.node_children(j)]
            0 < j < a.node_count() ==> (a.node_is_area(j) == b.node_is_area(j) && a.node_children(j)
                == b.node_children(j) && a.node_ports(j) == b.node_ports(j))
    }

    /// Two hierarchies that agree below node 0 resolve the ports of the
    /// modules below it alike.
    proof fn lemma_port_target_below(a: Area, b: Area, n: int, x: Seq<char>)
        requires
            Area::agree_below(a, b),
            0 < n,
        ensures
            a.port_target(n, x) == b.port_target(n, x),
        decreases a.node_count() - n,
    {
        if 0 <= n < a.node_count() {
            assert(a.node_children(n) == b.node_children(n));
            if a.node_is_area(n) {
                match entry_of(a.node_ports(n), x) {
                    None => {},
                    Some(t) => match entry_of(a.node_children(n), t.0) {
                        None => {},
                        Some(m) => if n < m < a.node_count() {
                            Area::lemma_port_target_below(a, b, m as int, t.1);
                        },
                    },
                }
            }
        }
    }

    /// The inner modules of node `n`, in order.
    pub open spec fn child_nodes(&self, n: int) -> Seq<usize> {
        self.node_children(n).map_values(|c: (Seq<char>, usize)| c.1)
    }

    /// Whether node `n` has no inner module.
    pub open spec fn is_leaf_node(&self, n: int) -> bool {
        !self.node_is_area(n) || self.node_children(n).len() == 0
    }

    /// The inner modules of node `n` whose name matches `pat`; none for a leaf
    /// module.
    pub open spec fn match_children(&self, n: int, pat: Seq<char>) -> Seq<usize> {
        if self.node_is_area(n) {
            matching(self.node_children(n), pat)
        } else {
            Seq::empty()
        }
    }

    /// The given modules and everything below them, each followed by its
    /// inner modules, within `fuel` levels.
    pub open spec fn wrap(&self, ms: Seq<usize>, fuel: nat) -> Seq<usize>
        decreases fuel, ms.len(),
    {
        if ms.len() == 0 {
            Seq::empty()
        } else if fuel == 0 {
            ms
        } else {
            let m = ms.last() as int;
            self.wrap(ms.drop_last(), fuel) + seq![ms.last()] + if self.is_leaf_node(m) {
                Seq::empty()
            } else {
                self.wrap(self.child_nodes(m), (fuel - 1) as nat)
            }
        }
    }

    /// The modules reached from `ms` by the path segments `segs`, in order.
    pub open spec fn reached(&self, ms: Seq<usize>, segs: Seq<Seq<char>>, mode: ImrMode, fuel: nat) -> Seq<
        usize,
    >
        decreases segs.len(), ms.len(),
    {
        if segs.len() == 0 {
            if mode == ImrMode::ExactMatch {
                ms
            } else {
                self.wrap(ms, fuel)
            }
        } else if ms.len() == 0 {
            Seq::empty()
        } else {
            self.reached(ms.drop_last(), segs, mode, fuel) + self.reached(
                self.match_children(ms.last() as int, segs[0]),
                segs.drop_first(),
                mode,
                fuel,
            )
        }
    }

    /// Node `n` of this hierarchy and node `m` of `other` are the same module
    /// (inner modules aside).
    pub open spec fn same_module(&self, n: int, other: Area, m: int) -> bool {
        &&& self.same_place(n, other, m)
        &&& self.node_filter(n) == other.node_filter(m)
        &&& self.node_trace(n) == other.node_trace(m)
        &&& self.node_ports(n) == other.node_ports(m)
    }

    /// Node `n` of this hierarchy and node `m` of `other` have the same path,
    /// id and kind.
    pub open spec fn same_place(&self, n: int, other: Area, m: int) -> bool {
        &&& self.node_path(n) == other.node_path(m)
        &&& self.node_uid(n) == other.node_uid(m)
        &&& self.node_clock(n) == other.node_clock(m)
        &&& self.node_is_area(n) == other.node_is_area(m)
    }

    /// The module and port that port `name` of node `n` leads to: a leaf
    /// module owns its ports, an area forwards an exposed port to the inner
    /// module it names.
    pub open spec fn port_target(&self, n: int, name: Seq<char>) -> Option<(int, Seq<char>)>
        decreases self.node_count() - n,
    {
        if !(0 <= n < self.node_count()) {
            None
        } else if !self.node_is_area(n) {
            Some((n, name))
        } else {
            match entry_of(self.node_ports(n), name) {
                None => None,
                Some(t) => match entry_of(self.node_children(n), t.0) {
                    None => None,
                    Some(m) => if n < m < self.node_count() {
                        self.port_target(m as int, t.1)
                    } else {
                        None
                    },
                },
            }
        }
    }

    /// The inner module named by the first segment of a `module::port`
    /// string.
    pub open spec fn port_string_module(&self, s: Seq<char>) -> Option<usize> {
        entry_of(self.node_children(0), split_sep(s)[0])
    }

    /// A `module::port` string is two segments, and its module is an inner
    /// module of the area.
    pub open spec fn port_found(&self, s: Seq<char>) -> bool {
        split_sep(s).len() == 2 && self.port_string_module(s) is Some
    }

    /// The module and port that a found `module::port` string leads to.
    pub open spec fn port_string_target(&self, s: Seq<char>) -> Option<(int, Seq<char>)> {
        self.port_target(self.port_string_module(s)->0 as int, split_sep(s)[1])
    }

    /// How a `module::port` string that is not found is refused: not two
    /// segments, or no such module.
    pub open spec fn refusal(&self, s: Seq<char>, e: AreaError) -> bool {
        if split_sep(s).len() != 2 {
            e matches AreaError::InDepth(p, m) && p@ == self.node_path(0) && m@ == s
        } else {
            e matches AreaError::NoModule(p, m) && p@ == self.node_path(0) && m@ == split_sep(s)[0]
        }
    }

    /// The modules that a setting for `path` reaches from the area.
    pub open spec fn targets(&self, path: Seq<char>) -> Seq<usize> {
        self.reached(seq![0usize], search_of(path).0, search_of(path).1, self.node_count())
    }

    /// Node `offset + j` of this hierarchy is node `j` of `other`, its inner
    /// modules moved by `offset`.
    pub open spec fn holds_shifted(&self, other: Area, offset: int, j: int) -> bool {
        &&& self.same_module(offset + j, other, j)
        &&& self.node_children(offset + j) == shift(other.node_children(j), offset)
    }

    /// An area with the given properties and no inner module.
    pub fn new(props: Properties) -> (r: Self)
        ensures
            r.wf(),
            r.node_count() == 1,
            r.node_is_area(0),
            r.node_children(0) == Seq::<(Seq<char>, usize)>::empty(),
            r.node_path(0) == props.spec_path(),
            r.node_uid(0) == props.spec_uid(),
            r.node_clock(0) == props.spec_clock_hz(),
            r.node_filter(0) == props.spec_log_filter(),
            r.node_trace(0) == props.spec_hw_trace(),
    {
        let mut nodes: Vec<Node> = Vec::new();
        nodes.push(Node { props, is_area: true, children: Vec::new(), port_map: Vec::new() });
        let r = Area { nodes };
        proof {
            assert(r.node_children(0) =~= Seq::<(Seq<char>, usize)>::empty());
        }
        r
    }

    /// A module without inner modules.
    pub fn leaf(props: Properties) -> (r: Self)
        ensures
            r.wf(),
            r.node_count() == 1,
            !r.node_is_area(0),
            r.node_children(0) == Seq::<(Seq<char>, usize)>::empty(),
            r.node_path(0) == props.spec_path(),
            r.node_uid(0) == props.spec_uid(),
            r.node_clock(0) == props.spec_clock_hz(),
            r.node_filter(0) == props.spec_log_filter(),
            r.node_trace(0) == props.spec_hw_trace(),
    {
        let mut nodes: Vec<Node> = Vec::new();
        nodes.push(Node { props, is_area: false, children: Vec::new(), port_map: Vec::new() });
        let r = Area { nodes };
        proof {
            assert(r.node_children(0) =~= Seq::<(Seq<char>, usize)>::empty());
        }
        r
    }

    /// Insert `module` (an area with everything below it, or a leaf module)
    /// in this area, under the last segment of its path; an inner module of
    /// that name is replaced.
    pub fn insert_module(&mut self, module: Area)
        requires
            old(self).wf(),
            module.wf(),
            old(self).node_is_area(0),
            last_segment(module.node_path(0)) is Some,
            old(self).node_count() + module.node_count() <= usize::MAX,
        ensures
            final(self).wf(),
            final(self).node_count() == old(self).node_count() + module.node_count(),
            final(self).node_children(0) == with_entry(
                old(self).node_children(0),
                last_segment(module.node_path(0))->0,
                old(self).node_count() as usize,
            ),
            forall|n: int|
                0 <= n < old(self).node_count() ==> #[trigger] final(self).same_module(n, *old(self), n),
            forall|n: int|
                0 < n < old(self).node_count() ==> #[trigger] final(self).node_children(n) == old(
                    self,
                ).node_children(n),
            forall|j: int|
                0 <= j < module.node_count() ==> #[trigger] final(self).holds_shifted(
                    module,
                    old(self).node_count() as int,
                    j,
                ),
    {
        let key = match path_key(self::path_of(&module.nodes[0].props)) {
            Some(k) => k,
            None => {
                proof {
                    assert(false);
                }
                String::new()
            },
        };
        let offset = self.nodes.len();
        let ghost old_self = *self;
        let ghost sub = module;
        let mut rest = module.nodes;
        let total = rest.len();
        let mut j: usize = 0;
        proof {
            assert(rest@.skip(0) =~= rest@);
        }
        while j < total
            invariant
                sub.wf(),
                total == sub.nodes@.len(),
                0 <= j <= total,
                rest@ == sub.nodes@.skip(j as int),
                offset == old_self.nodes@.len(),
                offset + total <= usize::MAX,
                self.nodes@.len() == offset + j,
                forall|n: int| 0 <= n < offset ==> self.nodes@[n] == old_self.nodes@[n],
                forall|jj: int| 0 <= jj < j ==> #[trigger] self.holds_shifted(sub, offset as int, jj),
            decreases total - j,
        {
            let ghost before = self.nodes@;
            let ghost before_self = *self;
            proof {
                assert(rest@[0] == sub.nodes@[j as int]);
                assert forall|k: int| 0 <= k < rest@[0].children@.len() implies #[trigger] rest@[0].children@[k].1
                    + offset <= usize::MAX by {
                    assert(sub.nodes@[j as int].children@[k].1 < total);
                }
            }
            let node = rest.remove(0);
            let children = shift_children(&node.children, offset);
            self.nodes.push(
                Node { props: node.props, is_area: node.is_area, children, port_map: node.port_map },
            );
            proof {
                assert(rest@ =~= sub.nodes@.skip(j + 1));
                assert forall|jj: int| 0 <= jj < j + 1 implies #[trigger] self.holds_shifted(
                    sub,
                    offset as int,
                    jj,
                ) by {
                    if jj < j {
                        assert(before_self.holds_shifted(sub, offset as int, jj));
                        assert(self.nodes@[offset + jj] == before[offset + jj]);
                    } else {
                        assert(self.nodes@[offset + jj].props == sub.nodes@[jj].props);
                        assert(self.nodes@[offset + jj].port_map == sub.nodes@[jj].port_map);
                        assert(self.nodes@[offset + jj].is_area == sub.nodes@[jj].is_area);
                    }
                }
            }
            j = j + 1;
        }
        let ghost mid = self.nodes@;
        let ghost mid_self = *self;
        let pos = position_of(&self.nodes[0].children, &key);
        let ghost ch0 = old_self.node_children(0);
        proof {
            assert(mid[0] == old_self.nodes@[0]);
            assert forall|i: int| 0 <= i < pos implies #[trigger] ch0[i].0 != key@ by {
                assert(ch0[i].0 == mid[0].children@[i].0@);
            }
            lemma_with_entry(ch0, key@, offset, pos as int);
        }
        if pos < self.nodes[0].children.len() {
            self.nodes[0].children.set(pos, (key, offset));
        } else {
            self.nodes[0].children.push((key, offset));
        }
        proof {
            assert(self.node_children(0) =~= with_entry(ch0, key@, offset));
            assert forall|n: int| 0 < n < offset implies #[trigger] self.node_children(n)
                == old_self.node_children(n) by {
                assert(self.nodes@[n] == mid[n]);
            }
            assert forall|n: int| 0 <= n < offset implies #[trigger] self.same_module(n, old_self, n) by {
                assert(self.nodes@[n].props == mid[n].props);
            }
            assert forall|jj: int| 0 <= jj < total implies #[trigger] self.holds_shifted(
                sub,
                offset as int,
                jj,
            ) by {
                assert(mid_self.holds_shifted(sub, offset as int, jj));
                assert(self.nodes@[offset + jj] == mid[offset + jj]);
            }
            assert forall|n: int, k: int|
                0 <= n < self.nodes@.len() && 0 <= k < self.nodes@[n].children@.len() implies n
                < #[trigger] self.nodes@[n].children@[k].1 < self.nodes@.len() by {
                if n == 0 {
                    if k == pos {
                    } else {
                        assert(self.node_children(0)[k] == ch0[k] || k == ch0.len());
                    }
                } else if n < offset {
                    assert(self.nodes@[n] == old_self.nodes@[n]);
                } else {
                    let jj = n - offset;
                    assert(self.holds_shifted(sub, offset as int, jj));
                    assert(self.node_children(n).len() == self.nodes@[n].children@.len());
                    assert(sub.node_children(jj).len() == sub.nodes@[jj].children@.len());
                    assert(self.node_children(n)[k] == shift(sub.node_children(jj), offset as int)[k]);
                    assert(self.node_children(n)[k].1 == self.nodes@[n].children@[k].1);
                    assert(sub.node_children(jj)[k].1 == sub.nodes@[jj].children@[k].1);
                    assert(jj < sub.nodes@[jj].children@[k].1 < total);
                }
            }
        }
    }

    /// Properties of a module named `name` inside this area: its path
    /// extends the area's, its clock domain is the area's unless
    /// `props_ovrd` overrides it, and its id is the next one of `uids`.
    pub fn child_properties(&self, name: &str, props_ovrd: PropertiesOverride, uids: &mut UidGen) -> (r: Properties)
        requires
            self.wf(),
            old(uids).issued() < usize::MAX,
        ensures
            r.spec_uid() == old(uids).issued(),
            final(uids).issued() == old(uids).issued() + 1,
            r.spec_path() == self.node_path(0) + seq![':', ':'] + name@,
            r.spec_clock_hz() == match props_ovrd.spec_clock_domain() {
                Some(c) => c,
                None => self.node_clock(0),
            },
            r.spec_log_filter() == Seq::new(6, |i: int| Verbosity::Info),
            r.spec_hw_trace() == seq![false, false],
    {
        let path = child_path(self.nodes[0].props.path.as_str(), name);
        let clock_hz = match props_ovrd.clock_domain() {
            Some(c) => c,
            None => self.nodes[0].props.clock_hz,
        };
        Properties::new(path, clock_hz, uids)
    }

    /// Number of modules in the hierarchy, the area itself included.
    pub fn node_total(&self) -> (r: usize)
        ensures
            r == self.node_count(),
    {
        self.nodes.len()
    }

    /// Unique id of module `n`.
    pub fn uid(&self, n: usize) -> (r: usize)
        requires
            n < self.node_count(),
        ensures
            r == self.node_uid(n as int),
    {
        self.nodes[n].props.uid
    }

    /// Path of module `n`.
    pub fn path(&self, n: usize) -> (r: &String)
        requires
            n < self.node_count(),
        ensures
            r@ == self.node_path(n as int),
    {
        &self.nodes[n].props.path
    }

    /// Log filter of module `n`.
    pub fn log_filter(&self, n: usize) -> (r: &LogFilter)
        requires
            n < self.node_count(),
        ensures
            r@ == self.node_filter(n as int),
    {
        &self.nodes[n].props.log_filter
    }

    /// Whether module `n` traces `kind`.
    pub fn hw_trace_on(&self, n: usize, kind: Kind) -> (r: bool)
        requires
            n < self.node_count(),
        ensures
            r == self.node_trace(n as int)[kind.index() as int],
    {
        self.nodes[n].props.hw_trace_on(kind)
    }

    /// Whether module `n` has no inner module.
    pub fn is_leaf(&self, n: usize) -> (r: bool)
        requires
            n < self.node_count(),
        ensures
            r == self.is_leaf_node(n as int),
    {
        !self.nodes[n].is_area || self.nodes[n].children.len() == 0
    }

    /// The inner modules of module `n` whose name matches the regular
    /// expression `pat`. A leaf module has none; an area refuses an invalid
    /// pattern.
    pub fn inner_match(&self, n: usize, pat: &str) -> (r: Result<Vec<usize>, InvalidPattern>)
        requires
            self.wf(),
            n < self.node_count(),
        ensures
            r matches Ok(v) ==> v@ == self.match_children(n as int, pat@),
            r is Err <==> self.node_is_area(n as int) && !regex_compiles(pat@),
            r matches Ok(v) ==> forall|i: int| 0 <= i < v@.len() ==> n < #[trigger] v@[i] < self.node_count(),
            pat@ == seq!['.', '*'] && self.node_is_area(n as int) ==> (r matches Ok(v) && v@
                == self.child_nodes(n as int)),
    {
        let mut res: Vec<usize> = Vec::new();
        if !self.nodes[n].is_area {
            return Ok(res);
        }
        if regex_search(pat, "").is_none() {
            return Err(InvalidPattern(String::from_str(pat)));
        }
        let children = &self.nodes[n].children;
        let ghost ch = self.node_children(n as int);
        let mut k: usize = 0;
        while k < children.len()
            invariant
                self.wf(),
                n < self.node_count(),
                regex_compiles(pat@),
                children == &self.nodes@[n as int].children,
                ch == self.node_children(n as int),
                0 <= k <= children.len(),
                res@ == matching(ch.take(k as int), pat@),
                pat@ == seq!['.', '*'] ==> res@ == ch.take(k as int).map_values(
                    |c: (Seq<char>, usize)| c.1,
                ),
                forall|i: int| 0 <= i < res@.len() ==> n < #[trigger] res@[i] < self.node_count(),
            decreases children.len() - k,
        {
            let found = regex_search(pat, children[k].0.as_str());
            proof {
                assert(ch.take(k + 1).drop_last() =~= ch.take(k as int));
                assert(ch[k as int] == (children@[k as int].0@, children@[k as int].1));
                assert(n < children@[k as int].1);
                assert(ch.take(k + 1).map_values(|c: (Seq<char>, usize)| c.1) =~= ch.take(
                    k as int,
                ).map_values(|c: (Seq<char>, usize)| c.1).push(children@[k as int].1));
            }
            if found == Some(true) {
                res.push(children[k].1);
            }
            k = k + 1;
        }
        proof {
            assert(ch.take(k as int) =~= ch);
        }
        Ok(res)
    }

    /// The given modules and everything below them, within `fuel` levels.
    fn wrap_up(&self, ms: Vec<usize>, fuel: usize) -> (r: Vec<usize>)
        requires
            self.wf(),
            forall|i: int| 0 <= i < ms@.len() ==> #[trigger] ms@[i] < self.node_count(),
        ensures
            r@ == self.wrap(ms@, fuel as nat),
            forall|i: int| 0 <= i < r@.len() ==> #[trigger] r@[i] < self.node_count(),
        decreases fuel,
    {
        if fuel == 0 {
            if ms.len() == 0 {
                return Vec::new();
            }
            return ms;
        }
        let mut acc: Vec<usize> = Vec::new();
        let mut i: usize = 0;
        proof {
            assert(ms@.take(0) =~= Seq::<usize>::empty());
        }
        while i < ms.len()
            invariant
                self.wf(),
                fuel > 0,
                forall|j: int| 0 <= j < ms@.len() ==> #[trigger] ms@[j] < self.node_count(),
                0 <= i <= ms.len(),
                acc@ == self.wrap(ms@.take(i as int), fuel as nat),
                forall|j: int| 0 <= j < acc@.len() ==> #[trigger] acc@[j] < self.node_count(),
            decreases ms.len() - i,
        {
            let m = ms[i];
            let ghost before = acc@;
            proof {
                assert(ms@.take(i + 1).drop_last() =~= ms@.take(i as int));
                assert(ms@.take(i + 1).last() == m);
            }
            acc.push(m);
            if !self.is_leaf(m) {
                let all = ".*";
                proof {
                    reveal_strlit(".*");
                    assert(all@ =~= seq!['.', '*']);
                }
                let next_m = match self.inner_match(m, all) {
                    Ok(v) => v,
                    Err(_) => {
                        proof {
                            assert(false);
                        }
                        Vec::new()
                    },
                };
                let mut sub = self.wrap_up(next_m, fuel - 1);
                let ghost sub_v = sub@;
                acc.append(&mut sub);
                proof {
                    assert(acc@ =~= before + seq![m] + sub_v);
                }
            } else {
                proof {
                    assert(acc@ =~= before + seq![m] + Seq::<usize>::empty());
                }
            }
            i = i + 1;
        }
        proof {
            assert(ms@.take(i as int) =~= ms@);
        }
        acc
    }

    /// The modules reached from `modules` by the path segments of
    /// `path_seg` from index `from` on.
    fn reach_from(
        &self,
        modules: Vec<usize>,
        path_seg: &Vec<String>,
        from: usize,
        mode: ImrMode,
        fuel: usize,
    ) -> (r: Result<Vec<usize>, InvalidPattern>)
        requires
            self.wf(),
            from <= path_seg.len(),
            forall|i: int| 0 <= i < modules@.len() ==> #[trigger] modules@[i] < self.node_count(),
        ensures
            r matches Ok(v) ==> v@ == self.reached(
                modules@,
                path_seg@.skip(from as int).map_values(|s: String| s@),
                mode,
                fuel as nat,
            ),
            r is Err ==> exists|i: int|
                from <= i < path_seg@.len() && !regex_compiles(#[trigger] path_seg@[i]@),
            (forall|i: int| from <= i < path_seg@.len() ==> regex_compiles(#[trigger] path_seg@[i]@))
                ==> r is Ok,
            r matches Ok(v) ==> forall|i: int| 0 <= i < v@.len() ==> #[trigger] v@[i] < self.node_count(),
        decreases path_seg.len() - from,
    {
        let ghost segs = path_seg@.skip(from as int).map_values(|s: String| s@);
        if from == path_seg.len() {
            proof {
                assert(segs.len() == 0);
            }
            return match mode {
                ImrMode::ExactMatch => Ok(modules),
                _ => Ok(self.wrap_up(modules, fuel)),
            };
        }
        let mut acc: Vec<usize> = Vec::new();
        let mut i: usize = 0;
        let cur_seg = path_seg[from].as_str();
        proof {
            assert(modules@.take(0) =~= Seq::<usize>::empty());
            assert(segs[0] == path_seg@[from as int]@);
            assert(segs.drop_first() =~= path_seg@.skip(from + 1).map_values(|s: String| s@));
        }
        while i < modules.len()
            invariant
                self.wf(),
                from < path_seg.len(),
                segs == path_seg@.skip(from as int).map_values(|s: String| s@),
                segs.len() > 0,
                cur_seg@ == segs[0],
                segs.drop_first() == path_seg@.skip(from + 1).map_values(|s: String| s@),
                forall|j: int| 0 <= j < modules@.len() ==> #[trigger] modules@[j] < self.node_count(),
                0 <= i <= modules.len(),
                acc@ == self.reached(modules@.take(i as int), segs, mode, fuel as nat),
                forall|j: int| 0 <= j < acc@.len() ==> #[trigger] acc@[j] < self.node_count(),
            decreases modules.len() - i,
        {
            let m = modules[i];
            proof {
                assert(modules@.take(i + 1).drop_last() =~= modules@.take(i as int));
                assert(modules@.take(i + 1).last() == m);
            }
            let next_m = match self.inner_match(m, cur_seg) {
                Ok(v) => v,
                Err(e) => {
                    return Err(e);
                },
            };
            let mut sub = self.reach_from(next_m, path_seg, from + 1, mode, fuel)?;
            acc.append(&mut sub);
            i = i + 1;
        }
        proof {
            assert(modules@.take(i as int) =~= modules@);
        }
        Ok(acc)
    }

    /// Expose port `port` of inner module `module` as port `name` of the
    /// area; an exposed port of that name is replaced.
    pub fn expose_port(&mut self, name: String, module: String, port: String)
        requires
            old(self).wf(),
        ensures
            final(self).wf(),
            final(self).node_count() == old(self).node_count(),
            final(self).node_ports(0) == with_entry(old(self).node_ports(0), name@, (module@, port@)),
            forall|n: int|
                0 <= n < old(self).node_count() ==> #[trigger] final(self).same_place(n, *old(self), n)
                    && final(self).node_filter(n) == old(self).node_filter(n) && final(self).node_trace(n)
                    == old(self).node_trace(n) && final(self).node_children(n) == old(self).node_children(n),
            forall|n: int|
                0 < n < old(self).node_count() ==> #[trigger] final(self).node_ports(n) == old(
                    self,
                ).node_ports(n),
            old(self).node_is_area(0) ==> final(self).port_target(0, name@) == match entry_of(
                old(self).node_children(0),
                module@,
            ) {
                Some(m) => if 0 < m < old(self).node_count() {
                    old(self).port_target(m as int, port@)
                } else {
                    None
                },
                None => None,
            },
            forall|other: Seq<char>|
                other != name@ ==> #[trigger] final(self).port_target(0, other) == old(self).port_target(
                    0,
                    other,
                ),
    {
        let ghost old_self = *self;
        let ghost p0 = old_self.node_ports(0);
        let pos = position_of(&self.nodes[0].port_map, &name);
        proof {
            assert forall|i: int| 0 <= i < pos implies #[trigger] p0[i].0 != name@ by {
                assert(p0[i].0 == old_self.nodes@[0].port_map@[i].0@);
            }
            lemma_with_entry(p0, name@, (module@, port@), pos as int);
        }
        let ghost target = (name@, (module@, port@));
        if pos < self.nodes[0].port_map.len() {
            self.nodes[0].port_map.set(pos, (name, (module, port)));
        } else {
            self.nodes[0].port_map.push((name, (module, port)));
        }
        proof {
            assert(self.node_ports(0) =~= with_entry(p0, target.0, target.1));
            assert forall|n: int| 0 < n < old_self.node_count() implies #[trigger] self.node_ports(n)
                == old_self.node_ports(n) by {
                assert(self.nodes@[n] == old_self.nodes@[n]);
            }
            assert forall|n: int| 0 <= n < old_self.node_count() implies #[trigger] self.same_place(
                n,
                old_self,
                n,
            ) && self.node_filter(n) == old_self.node_filter(n) && self.node_trace(n)
                == old_self.node_trace(n) && self.node_children(n) == old_self.node_children(n) by {
                if n > 0 {
                    assert(self.nodes@[n] == old_self.nodes@[n]);
                }
            }
            assert forall|n: int, k: int|
                0 <= n < self.nodes@.len() && 0 <= k < self.nodes@[n].children@.len() implies n
                < #[trigger] self.nodes@[n].children@[k].1 < self.nodes@.len() by {
                assert(self.nodes@[n].children == old_self.nodes@[n].children);
            }
            // Port resolution: the new name leads where the module's port
            // leads, other names are unaffected
            let new_self = *self;
            assert forall|j: int|
                #![trigger new_self.node_children(j)]
                0 < j < new_self.node_count() implies (new_self.node_is_area(j)
                == old_self.node_is_area(j) && new_self.node_children(j)
                == old_self.node_children(j) && new_self.node_ports(j) == old_self.node_ports(j)) by {
                assert(new_self.same_place(j, old_self, j));
            }
            assert(Area::agree_below(new_self, old_self));
            assert(new_self.same_place(0, old_self, 0));
            assert(new_self.node_children(0) == old_self.node_children(0));
            law_lookup_after_insert(p0, name@, (module@, port@), name@);
            if old_self.node_is_area(0) {
                match entry_of(old_self.node_children(0), module@) {
                    Some(m) => if 0 < m < old_self.node_count() {
                        Area::lemma_port_target_below(new_self, old_self, m as int, port@);
                    },
                    None => {},
                }
            }
            assert forall|other: Seq<char>| other != name@ implies #[trigger] new_self.port_target(0, other)
                == old_self.port_target(0, other) by {
                law_lookup_after_insert(p0, name@, (module@, port@), other);
                match entry_of(p0, other) {
                    Some(t) => match entry_of(old_self.node_children(0), t.0) {
                        Some(m) => if 0 < m < old_self.node_count() {
                            Area::lemma_port_target_below(new_self, old_self, m as int, t.1);
                        },
                        None => {},
                    },
                    None => {},
                }
            }
        }
    }

    /// The node of the inner module of node `n` named `name`.
    fn child_index(&self, n: usize, name: &String) -> (r: Option<usize>)
        requires
            self.wf(),
            n < self.node_count(),
        ensures
            r == entry_of(self.node_children(n as int), name@),
            r matches Some(m) ==> n < m < self.node_count(),
    {
        let children = &self.nodes[n].children;
        let ghost ch = self.node_children(n as int);
        let k = position_of(children, name);
        proof {
            assert forall|i: int| 0 <= i < k implies #[trigger] ch[i].0 != name@ by {
                assert(ch[i].0 == children@[i].0@);
            }
            lemma_entry_of(ch, name@, k as int);
        }
        if k < children.len() {
            proof {
                assert(ch.skip(k as int)[0] == ch[k as int]);
            }
            Some(children[k].1)
        } else {
            proof {
                assert(ch.skip(k as int) =~= Seq::<(Seq<char>, usize)>::empty());
            }
            None
        }
    }

    /// The (module, port) exposed as port `name` of node `n`.
    fn port_entry(&self, n: usize, name: &String) -> (r: Option<(String, String)>)
        requires
            n < self.node_count(),
        ensures
            match entry_of(self.node_ports(n as int), name@) {
                Some(t) => r matches Some(x) && x.0@ == t.0 && x.1@ == t.1,
                None => r is None,
            },
    {
        let ports = &self.nodes[n].port_map;
        let ghost ps = self.node_ports(n as int);
        let k = position_of(ports, name);
        proof {
            assert forall|i: int| 0 <= i < k implies #[trigger] ps[i].0 != name@ by {
                assert(ps[i].0 == ports@[i].0@);
            }
            lemma_entry_of(ps, name@, k as int);
        }
        if k < ports.len() {
            proof {
                assert(ps.skip(k as int)[0] == ps[k as int]);
            }
            Some((ports[k].1.0.clone(), ports[k].1.1.clone()))
        } else {
            proof {
                assert(ps.skip(k as int) =~= Seq::<(Seq<char>, (Seq<char>, Seq<char>))>::empty());
            }
            None
        }
    }

    /// The module and port that port `name` of module `n` leads to; `None`
    /// when an area does not expose it.
    pub fn port(&self, n: usize, name: &str) -> (r: Option<(usize, String)>)
        requires
            self.wf(),
            n < self.node_count(),
        ensures
            match self.port_target(n as int, name@) {
                Some(t) => r matches Some(x) && x.0 == t.0 && x.1@ == t.1,
                None => r is None,
            },
        decreases self.node_count() - n,
    {
        let key = String::from_str(name);
        if !self.nodes[n].is_area {
            return Some((n, key));
        }
        match self.port_entry(n, &key) {
            None => None,
            Some((module, port)) => match self.child_index(n, &module) {
                None => None,
                Some(m) => self.port(m, port.as_str()),
            },
        }
    }

    /// Resolve a `module::port` string against the inner modules of the
    /// area.
    pub fn get_port_from_str(&self, mod_port: &str) -> (r: Result<Option<(usize, String)>, AreaError>)
        requires
            self.wf(),
        ensures
            self.port_found(mod_port@) <==> r is Ok,
            r matches Err(e) ==> self.refusal(mod_port@, e),
            r matches Ok(x) ==> same_target(x, self.port_string_target(mod_port@)),
    {
        let split = split_path(mod_port);
        let ghost segs = split@.map_values(|x: String| x@);
        if split.len() != 2 {
            return Err(AreaError::InDepth(self.nodes[0].props.path.clone(), String::from_str(mod_port)));
        }
        proof {
            assert(segs[0] == split@[0]@);
            assert(segs[1] == split@[1]@);
        }
        match self.child_index(0, &split[0]) {
            Some(m) => Ok(self.port(m, split[1].as_str())),
            None => Err(AreaError::NoModule(self.nodes[0].props.path.clone(), split[0].clone())),
        }
    }

    /// Resolve the two ports that binding `from` to `to` connects (both
    /// `module::port` strings); the first one that is not found is refused.
    pub fn inner_bind(&self, from: &str, to: &str) -> (r: Result<
        (Option<(usize, String)>, Option<(usize, String)>),
        AreaError,
    >)
        requires
            self.wf(),
        ensures
            r is Ok <==> self.port_found(from@) && self.port_found(to@),
            !self.port_found(from@) ==> (r matches Err(e) && self.refusal(from@, e)),
            self.port_found(from@) && !self.port_found(to@) ==> (r matches Err(e) && self.refusal(
                to@,
                e,
            )),
            r matches Ok(p) ==> same_target(p.0, self.port_string_target(from@)) && same_target(
                p.1,
                self.port_string_target(to@),
            ),
    {
        let from_port = self.get_port_from_str(from)?;
        let to_port = self.get_port_from_str(to)?;
        Ok((from_port, to_port))
    }

    /// The modules that a setting for `path` reaches; a segment that is not
    /// a valid regular expression is refused.
    fn search(&self, path: &str) -> (r: Result<Vec<usize>, InvalidPattern>)
        requires
            self.wf(),
        ensures
            r matches Ok(v) ==> v@ == self.targets(path@),
            r matches Ok(v) ==> forall|i: int| 0 <= i < v@.len() ==> #[trigger] v@[i] < self.node_count(),
            search_valid(path@) ==> r is Ok,
            r is Err ==> !search_valid(path@),
    {
        let mut segs = split_path(path);
        let ghost all = split_sep(path@);
        proof {
            assert(all.len() >= 1);
        }
        let last = segs.len() - 1;
        let mode = if is_wildcard(segs[last].as_str()) {
            segs.pop();
            ImrMode::Wildcard
        } else {
            ImrMode::ExactMatch
        };
        proof {
            assert(segs@.map_values(|x: String| x@) =~= search_of(path@).0);
            assert(mode == search_of(path@).1);
        }
        let mut start: Vec<usize> = Vec::new();
        start.push(0);
        proof {
            assert(start@ =~= seq![0usize]);
        }
        let r = self.inner_match_recurse(start, &segs, mode);
        proof {
            let sv = search_of(path@).0;
            if search_valid(path@) {
                assert forall|i: int| 0 <= i < segs@.len() implies regex_compiles(#[trigger] segs@[i]@) by {
                    assert(sv[i] == segs@[i]@);
                }
            }
            if r is Err {
                let i = choose|i: int| 0 <= i < segs@.len() && !regex_compiles(#[trigger] segs@[i]@);
                assert(sv[i] == segs@[i]@);
            }
        }
        r
    }

    /// Apply a log setting: every module that its path reaches takes the
    /// filter that it describes. Returns how many modules were reached.
    #[verifier::spinoff_prover]
    pub fn apply_log_arg(&mut self, arg: &LogArgs) -> (r: Result<usize, InvalidPattern>)
        requires
            old(self).wf(),
        ensures
            final(self).wf(),
            final(self).node_count() == old(self).node_count(),
            search_valid(arg.spec_path()) ==> r is Ok,
            r is Err ==> !search_valid(arg.spec_path()) && *final(self) == *old(self),
            r matches Ok(c) ==> c == old(self).targets(arg.spec_path()).len(),
            r is Ok ==> forall|n: usize|
                n < old(self).node_count() ==> #[trigger] final(self).node_filter(n as int) == if old(
                    self,
                ).targets(arg.spec_path()).contains(n) {
                    filter_of(arg.spec_dflt_verb(), arg.spec_cat_verb())
                } else {
                    old(self).node_filter(n as int)
                },
            forall|n: int|
                0 <= n < old(self).node_count() ==> #[trigger] final(self).same_place(n, *old(self), n)
                    && final(self).node_trace(n) == old(self).node_trace(n) && final(self).node_ports(n)
                    == old(self).node_ports(n) && final(self).node_children(n) == old(
                    self,
                ).node_children(n),
    {
        let filter = arg.filter();
        let targets = match self.search(arg.path().as_str()) {
            Ok(v) => v,
            Err(e) => {
                return Err(e);
            },
        };
        let ghost old_self = *self;
        proof {
            assert(old_self == *old(self));
        }
        let ghost tg = targets@;
        let ghost f = filter@;
        let mut i: usize = 0;
        while i < targets.len()
            invariant
                old_self.wf(),
                tg == targets@,
                f == filter@,
                forall|j: int| 0 <= j < tg.len() ==> #[trigger] tg[j] < old_self.node_count(),
                0 <= i <= tg.len(),
                self.nodes@.len() == old_self.nodes@.len(),
                forall|n: int| 0 <= n < old_self.nodes@.len() ==> {
                    &&& #[trigger] self.nodes@[n].children == old_self.nodes@[n].children
                    &&& self.nodes@[n].is_area == old_self.nodes@[n].is_area
                    &&& self.nodes@[n].port_map == old_self.nodes@[n].port_map
                    &&& self.nodes@[n].props.spec_uid() == old_self.nodes@[n].props.spec_uid()
                    &&& self.nodes@[n].props.spec_clock_hz() == old_self.nodes@[n].props.spec_clock_hz()
                    &&& self.nodes@[n].props.spec_path() == old_self.nodes@[n].props.spec_path()
                    &&& self.nodes@[n].props.spec_hw_trace() == old_self.nodes@[n].props.spec_hw_trace()
                },
                forall|n: usize| n < old_self.nodes@.len() ==> #[trigger] self.nodes@[n as int].props.log_filter@
                    == if tg.take(i as int).contains(n) {
                    f
                } else {
                    old_self.nodes@[n as int].props.log_filter@
                },
            decreases tg.len() - i,
        {
            let t = targets[i];
            let ghost before = self.nodes@;
            self.nodes[t].props.set_log_filter(&filter);
            proof {
                assert(tg.take(i + 1) =~= tg.take(i as int).push(t));
                assert forall|n: usize| (#[trigger] tg.take(i + 1).contains(n) <==> (tg.take(
                    i as int,
                ).contains(n) || n == t)) by {
                    if n == t {
                        assert(tg.take(i + 1)[i as int] == t);
                    }
                    if tg.take(i + 1).contains(n) {
                        let k = choose|k: int| 0 <= k < tg.take(i + 1).len() && #[trigger] tg.take(i + 1)[k] == n;
                        if k < i {
                            assert(tg.take(i as int)[k] == n);
                        }
                    }
                    if tg.take(i as int).contains(n) {
                        let k = choose|k: int| 0 <= k < tg.take(i as int).len() && #[trigger] tg.take(i as int)[k] == n;
                        assert(tg.take(i + 1)[k] == n);
                    }
                }
                assert forall|n: usize| n < old_self.nodes@.len() implies #[trigger] self.nodes@[n as int].props.log_filter@
                    == if tg.take(i + 1).contains(n) {
                    f
                } else {
                    old_self.nodes@[n as int].props.log_filter@
                } by {
                    if n != t {
                        assert(self.nodes@[n as int] == before[n as int]);
                        assert(before[n as int].props.log_filter@ == if tg.take(i as int).contains(n) {
                            f
                        } else {
                            old_self.nodes@[n as int].props.log_filter@
                        });
                    } else {
                        assert(tg.take(i + 1).contains(n));
                    }
                }
                assert forall|n: int| 0 <= n < old_self.nodes@.len() implies {
                    &&& #[trigger] self.nodes@[n].children == old_self.nodes@[n].children
                    &&& self.nodes@[n].is_area == old_self.nodes@[n].is_area
                    &&& self.nodes@[n].port_map == old_self.nodes@[n].port_map
                    &&& self.nodes@[n].props.spec_uid() == old_self.nodes@[n].props.spec_uid()
                    &&& self.nodes@[n].props.spec_clock_hz() == old_self.nodes@[n].props.spec_clock_hz()
                    &&& self.nodes@[n].props.spec_path() == old_self.nodes@[n].props.spec_path()
                    &&& self.nodes@[n].props.spec_hw_trace() == old_self.nodes@[n].props.spec_hw_trace()
                } by {
                    assert(before[n].children == old_self.nodes@[n].children);
                    if n != t {
                        assert(self.nodes@[n] == before[n]);
                    } else {
                        assert(self.nodes@[n].children == before[n].children);
                        assert(self.nodes@[n].is_area == before[n].is_area);
                        assert(self.nodes@[n].port_map == before[n].port_map);
                    }
                }
            }
            i = i + 1;
        }
        proof {
            assert(tg.take(i as int) =~= tg);
            assert forall|n: int, k: int|
                0 <= n < self.nodes@.len() && 0 <= k < self.nodes@[n].children@.len() implies n
                < #[trigger] self.nodes@[n].children@[k].1 < self.nodes@.len() by {
                assert(self.nodes@[n].children == old_self.nodes@[n].children);
            }
            assert forall|n: usize| n < old_self.node_count() implies #[trigger] self.node_filter(n as int)
                == if tg.contains(n) {
                filter_of(arg.spec_dflt_verb(), arg.spec_cat_verb())
            } else {
                old_self.node_filter(n as int)
            } by {
                assert(self.nodes@[n as int].props.log_filter@ == if tg.take(i as int).contains(n) {
                    f
                } else {
                    old_self.nodes@[n as int].props.log_filter@
                });
            }
            assert forall|n: int| 0 <= n < old_self.node_count() implies #[trigger] self.same_place(
                n,
                old_self,
                n,
            ) && self.node_trace(n) == old_self.node_trace(n) && self.node_ports(n)
                == old_self.node_ports(n) && self.node_children(n) == old_self.node_children(n) by {
                assert(self.nodes@[n].children == old_self.nodes@[n].children);
                assert(self.nodes@[n].props.spec_hw_trace() == old_self.nodes@[n].props.spec_hw_trace());
                assert(self.nodes@[n].props.spec_path() == old_self.nodes@[n].props.spec_path());
                assert(self.nodes@[n].props.spec_uid() == old_self.nodes@[n].props.spec_uid());
                assert(self.nodes@[n].props.spec_clock_hz() == old_self.nodes@[n].props.spec_clock_hz());
            }
        }
        Ok(targets.len())
    }

    /// Apply a trace setting: every module that its path reaches turns each
    /// listed kind on or off, in order. Returns how many modules were
    /// reached.
    #[verifier::spinoff_prover]
    pub fn apply_trace_arg(&mut self, arg: &TraceArgs) -> (r: Result<usize, InvalidPattern>)
        requires
            old(self).wf(),
        ensures
            final(self).wf(),
            final(self).node_count() == old(self).node_count(),
            search_valid(arg.spec_path()) ==> r is Ok,
            r is Err ==> !search_valid(arg.spec_path()) && *final(self) == *old(self),
            r matches Ok(c) ==> c == old(self).targets(arg.spec_path()).len(),
            r is Ok ==> forall|n: usize|
                n < old(self).node_count() ==> #[trigger] final(self).node_trace(n as int) == if old(
                    self,
                ).targets(arg.spec_path()).contains(n) {
                    trace_flags_after(old(self).node_trace(n as int), arg.spec_kind_val())
                } else {
                    old(self).node_trace(n as int)
                },
            forall|n: int|
                0 <= n < old(self).node_count() ==> #[trigger] final(self).same_place(n, *old(self), n)
                    && final(self).node_filter(n) == old(self).node_filter(n) && final(self).node_ports(n)
                    == old(self).node_ports(n) && final(self).node_children(n) == old(
                    self,
                ).node_children(n),
    {
        let kind_val = arg.kind_val();
        let targets = match self.search(arg.path().as_str()) {
            Ok(v) => v,
            Err(e) => {
                return Err(e);
            },
        };
        let ghost old_self = *self;
        proof {
            assert(old_self == *old(self));
        }
        let ghost tg = targets@;
        let ghost kv = kind_val@;
        let mut i: usize = 0;
        while i < targets.len()
            invariant
                old_self.wf(),
                tg == targets@,
                kv == kind_val@,
                forall|j: int| 0 <= j < tg.len() ==> #[trigger] tg[j] < old_self.node_count(),
                0 <= i <= tg.len(),
                self.nodes@.len() == old_self.nodes@.len(),
                forall|n: int| 0 <= n < old_self.nodes@.len() ==> {
                    &&& #[trigger] self.nodes@[n].children == old_self.nodes@[n].children
                    &&& self.nodes@[n].is_area == old_self.nodes@[n].is_area
                    &&& self.nodes@[n].port_map == old_self.nodes@[n].port_map
                    &&& self.nodes@[n].props.spec_uid() == old_self.nodes@[n].props.spec_uid()
                    &&& self.nodes@[n].props.spec_clock_hz() == old_self.nodes@[n].props.spec_clock_hz()
                    &&& self.nodes@[n].props.spec_path() == old_self.nodes@[n].props.spec_path()
                    &&& self.nodes@[n].props.spec_log_filter()
                        == old_self.nodes@[n].props.spec_log_filter()
                },
                forall|n: usize| n < old_self.nodes@.len() ==> #[trigger] self.nodes@[n as int].props.hw_trace@
                    == if tg.take(i as int).contains(n) {
                    trace_flags_after(old_self.nodes@[n as int].props.hw_trace@, kv)
                } else {
                    old_self.nodes@[n as int].props.hw_trace@
                },
            decreases tg.len() - i,
        {
            let t = targets[i];
            let ghost before = self.nodes@;
            self.nodes[t].props.update_trace(kind_val);
            proof {
                assert(tg.take(i + 1) =~= tg.take(i as int).push(t));
                assert forall|n: usize| (#[trigger] tg.take(i + 1).contains(n) <==> (tg.take(
                    i as int,
                ).contains(n) || n == t)) by {
                    if n == t {
                        assert(tg.take(i + 1)[i as int] == t);
                    }
                    if tg.take(i + 1).contains(n) {
                        let k = choose|k: int| 0 <= k < tg.take(i + 1).len() && #[trigger] tg.take(i + 1)[k] == n;
                        if k < i {
                            assert(tg.take(i as int)[k] == n);
                        }
                    }
                    if tg.take(i as int).contains(n) {
                        let k = choose|k: int| 0 <= k < tg.take(i as int).len() && #[trigger] tg.take(i as int)[k] == n;
                        assert(tg.take(i + 1)[k] == n);
                    }
                }
                assert forall|n: usize| n < old_self.nodes@.len() implies #[trigger] self.nodes@[n as int].props.hw_trace@
                    == if tg.take(i + 1).contains(n) {
                    trace_flags_after(old_self.nodes@[n as int].props.hw_trace@, kv)
                } else {
                    old_self.nodes@[n as int].props.hw_trace@
                } by {
                    assert(before[n as int].props.hw_trace@ == if tg.take(i as int).contains(n) {
                        trace_flags_after(old_self.nodes@[n as int].props.hw_trace@, kv)
                    } else {
                        old_self.nodes@[n as int].props.hw_trace@
                    });
                    if n != t {
                        assert(self.nodes@[n as int] == before[n as int]);
                    } else {
                        assert(tg.take(i + 1).contains(n));
                        law_trace_settings_idempotent(old_self.nodes@[n as int].props.hw_trace@, kv);
                    }
                }
                assert forall|n: int| 0 <= n < old_self.nodes@.len() implies {
                    &&& #[trigger] self.nodes@[n].children == old_self.nodes@[n].children
                    &&& self.nodes@[n].is_area == old_self.nodes@[n].is_area
                    &&& self.nodes@[n].port_map == old_self.nodes@[n].port_map
                    &&& self.nodes@[n].props.spec_uid() == old_self.nodes@[n].props.spec_uid()
                    &&& self.nodes@[n].props.spec_clock_hz() == old_self.nodes@[n].props.spec_clock_hz()
                    &&& self.nodes@[n].props.spec_path() == old_self.nodes@[n].props.spec_path()
                    &&& self.nodes@[n].props.spec_log_filter()
                        == old_self.nodes@[n].props.spec_log_filter()
                } by {
                    assert(before[n].children == old_self.nodes@[n].children);
                    if n != t {
                        assert(self.nodes@[n] == before[n]);
                    } else {
                        assert(self.nodes@[n].children == before[n].children);
                        assert(self.nodes@[n].is_area == before[n].is_area);
                        assert(self.nodes@[n].port_map == before[n].port_map);
                    }
                }
            }
            i = i + 1;
        }
        proof {
            assert(tg.take(i as int) =~= tg);
            assert forall|n: int, k: int|
                0 <= n < self.nodes@.len() && 0 <= k < self.nodes@[n].children@.len() implies n
                < #[trigger] self.nodes@[n].children@[k].1 < self.nodes@.len() by {
                assert(self.nodes@[n].children == old_self.nodes@[n].children);
            }
            assert forall|n: usize| n < old_self.node_count() implies #[trigger] self.node_trace(n as int)
                == if tg.contains(n) {
                trace_flags_after(old_self.node_trace(n as int), kv)
            } else {
                old_self.node_trace(n as int)
            } by {
                assert(self.nodes@[n as int].props.hw_trace@ == if tg.take(i as int).contains(n) {
                    trace_flags_after(old_self.nodes@[n as int].props.hw_trace@, kv)
                } else {
                    old_self.nodes@[n as int].props.hw_trace@
                });
            }
            assert forall|n: int| 0 <= n < old_self.node_count() implies #[trigger] self.same_place(
                n,
                old_self,
                n,
            ) && self.node_filter(n) == old_self.node_filter(n) && self.node_ports(n)
                == old_self.node_ports(n) && self.node_children(n) == old_self.node_children(n) by {
                assert(self.nodes@[n].children == old_self.nodes@[n].children);
            }
        }
        Ok(targets.len())
    }

    /// Recurse in the hierarchy and return the modules reached from
    /// `modules` by the path segments; an invalid segment is refused.
    pub fn inner_match_recurse(&self, modules: Vec<usize>, path_seg: &Vec<String>, mode: ImrMode) -> (r: Result<
        Vec<usize>,
        InvalidPattern,
    >)
        requires
            self.wf(),
            forall|i: int| 0 <= i < modules@.len() ==> #[trigger] modules@[i] < self.node_count(),
        ensures
            r matches Ok(v) ==> v@ == self.reached(
                modules@,
                path_seg@.map_values(|s: String| s@),
                mode,
                self.node_count(),
            ),
            r is Err ==> exists|i: int|
                0 <= i < path_seg@.len() && !regex_compiles(#[trigger] path_seg@[i]@),
            (forall|i: int| 0 <= i < path_seg@.len() ==> regex_compiles(#[trigger] path_seg@[i]@))
                ==> r is Ok,
            r matches Ok(v) ==> forall|i: int| 0 <= i < v@.len() ==> #[trigger] v@[i] < self.node_count(),
    {
        proof {
            assert(path_seg@.skip(0) =~= path_seg@);
        }
        self.reach_from(modules, path_seg, 0, mode, self.nodes.len())
    }
}

} // verus!
