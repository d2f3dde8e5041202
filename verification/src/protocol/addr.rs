//! Address utilities: addresses in physical and virtual space, access
//! patterns, and a routing table from address ranges to ports.

use vstd::prelude::*;
use crate::protocol::Traceable;

verus! {

/// An amount of data, in bytes.
#[derive(Debug, Clone, Copy, PartialEq, Eq, Structural)]
pub enum Data {
    Byte(usize),
}

impl Data {
    /// Number of bytes.
    pub open spec fn spec_bytes(self) -> nat {
        match self {
            Data::Byte(b) => b as nat,
        }
    }

    /// Number of bytes.
    pub fn into_byte(self) -> (r: usize)
        ensures
            r == self.spec_bytes(),
    {
        match self {
            Data::Byte(b) => b,
        }
    }

    /// `self` repeated `rhs` times.
    pub fn mul_usize(self, rhs: usize) -> (r: Data)
        requires
            self.spec_bytes() * rhs <= usize::MAX,
        ensures
            r.spec_bytes() == self.spec_bytes() * rhs,
    {
        let lhs_b = self.into_byte();
        Data::Byte(lhs_b * rhs)
    }
}

/// Address in the available address space: physical, virtual, both (an
/// access that crosses space boundary), or a range of physical addresses.
#[derive(Debug, Clone, Copy, PartialEq, Eq, Structural)]
pub enum Addr {
    Unset(),
    Phys(usize),
    Virt(usize),
    PhysVirt(usize, usize),
    Range(usize, Data),
}

impl Default for Addr {
    fn default() -> (r: Self)
        ensures
            r == Addr::Unset(),
    {
        Addr::Unset()
    }
}

impl Addr {
    /// The physical address, if the address has one.
    pub fn as_phys(&self) -> (r: Option<usize>)
        ensures
            r == (match *self {
                Addr::Phys(p) => Some(p),
                Addr::PhysVirt(p, _) => Some(p),
                _ => None,
            }),
    {
        match self {
            Self::Phys(p) => Some(*p),
            Self::PhysVirt(p, _) => Some(*p),
            _ => None,
        }
    }

    /// The virtual address, if the address has one.
    pub fn as_virt(&self) -> (r: Option<usize>)
        ensures
            r == (match *self {
                Addr::Virt(v) => Some(v),
                Addr::PhysVirt(_, v) => Some(v),
                _ => None,
            }),
    {
        match self {
            Self::Virt(v) => Some(*v),
            Self::PhysVirt(_, v) => Some(*v),
            _ => None,
        }
    }

    /// Whether every address of `self` can be moved by `offset`.
    pub open spec fn offset_fits(self, offset: usize) -> bool {
        match self {
            Addr::Phys(p) => p + offset <= usize::MAX,
            Addr::Virt(v) => v + offset <= usize::MAX,
            Addr::PhysVirt(p, v) => p + offset <= usize::MAX && v + offset <= usize::MAX,
            Addr::Range(b, _) => b + offset <= usize::MAX,
            Addr::Unset() => true,
        }
    }

    /// The address moved by `offset`; an unset address stays unset.
    pub fn with_offset(&self, offset: usize) -> (r: Self)
        requires
            self.offset_fits(offset),
        ensures
            r == (match *self {
                Addr::Phys(p) => Addr::Phys((p + offset) as usize),
                Addr::Virt(v) => Addr::Virt((v + offset) as usize),
                Addr::PhysVirt(p, v) => Addr::PhysVirt((p + offset) as usize, (v + offset) as usize),
                Addr::Range(b, range) => Addr::Range((b + offset) as usize, range),
                Addr::Unset() => Addr::Unset(),
            }),
    {
        match *self {
            Self::Phys(p) => Self::Phys(p + offset),
            Self::Virt(v) => Self::Virt(v + offset),
            Self::PhysVirt(p, v) => Self::PhysVirt(p + offset, v + offset),
            Self::Range(b, range) => Self::Range(b + offset, range),
            _ => Self::Unset(),
        }
    }

    /// The trace value of the address.
    pub fn to_traceable(&self) -> (r: Traceable)
        ensures
            match *self {
                Addr::Unset() => r == Traceable::Scalar(0),
                Addr::Phys(p) => r == Traceable::Scalar(p as u64),
                Addr::Virt(v) => r == Traceable::Scalar(v as u64),
                Addr::PhysVirt(p, v) => (r matches Traceable::Array(items) && items@ == seq![
                    p as u64,
                    v as u64,
                ]),
                Addr::Range(a, s) => (r matches Traceable::Array(items) && items@ == seq![
                    a as u64,
                    s.spec_bytes() as u64,
                ]),
            },
    {
        match self {
            Addr::Unset() => Traceable::Scalar(0),
            Addr::Phys(phys) => Traceable::Scalar(*phys as u64),
            Addr::Virt(virt) => Traceable::Scalar(*virt as u64),
            Addr::PhysVirt(phys, virt) => {
                let v = vec![*phys as u64, *virt as u64];
                Traceable::Array(v)
            },
            Addr::Range(addr, size) => {
                let v = vec![*addr as u64, size.into_byte() as u64];
                Traceable::Array(v)
            },
        }
    }
}

/// Address in a subrange: only physical addresses.
#[derive(Debug, Clone, Copy, PartialEq, Eq, Structural)]
pub enum SubRangeAddr {
    Unset(),
    Phys(usize),
}

impl Default for SubRangeAddr {
    fn default() -> (r: Self)
        ensures
            r == SubRangeAddr::Unset(),
    {
        SubRangeAddr::Unset()
    }
}

/// Access pattern: a contiguous chunk, or `iter` chunks of `size` bytes
/// every `stride` bytes.
#[derive(Debug, Clone, Copy, PartialEq, Eq, Structural)]
pub enum Pattern {
    Unset(),
    Simple(Data),
    Stride(Data, Data, usize),
}

impl Default for Pattern {
    fn default() -> (r: Self)
        ensures
            r == Pattern::Unset(),
    {
        Pattern::Unset()
    }
}

impl Pattern {
    /// The size of the access.
    pub fn len(&self) -> (r: Data)
        requires
            !(*self is Unset),
            *self matches Pattern::Stride(size, _, iter) ==> size.spec_bytes() * iter <= usize::MAX,
        ensures
            r.spec_bytes() == (match *self {
                Pattern::Simple(d) => d.spec_bytes(),
                Pattern::Stride(size, _, iter) => size.spec_bytes() * (iter as nat),
                Pattern::Unset() => 0,
            }),
    {
        match self {
            Self::Simple(d) => *d,
            Self::Stride(size, _, iter) => size.mul_usize(*iter),
            Self::Unset() => Data::Byte(0),
        }
    }

    /// The range viewed by the access; for a contiguous access it is its size.
    pub fn range(&self) -> (r: Data)
        requires
            !(*self is Unset),
            *self matches Pattern::Stride(_, stride, iter) ==> stride.spec_bytes() * iter
                <= usize::MAX,
        ensures
            r.spec_bytes() == (match *self {
                Pattern::Simple(d) => d.spec_bytes(),
                Pattern::Stride(_, stride, iter) => stride.spec_bytes() * (iter as nat),
                Pattern::Unset() => 0,
            }),
    {
        match self {
            Self::Simple(d) => *d,
            Self::Stride(_, stride, iter) => stride.mul_usize(*iter),
            Self::Unset() => Data::Byte(0),
        }
    }
}

/// Errors of address range accesses.
#[derive(Debug)]
pub enum AddrRangeError {
    /// The target range (offset, size) overlaps the mapped range `overlap`.
    Overlap { target: (usize, Data), overlap: (usize, Data) },
    /// The access (offset, size) does not fit in the range that holds its
    /// offset; `range` is the whole routing table.
    CrossRange { access: (usize, Data), range: Vec<(usize, (usize, usize))> },
    /// No range holds the address.
    Unmapped { addr: usize, len: Data },
}

/// Outcome of a lookup in a routing table.
pub enum FindOutcome {
    /// The range offset and its port.
    Found(usize, usize),
    CrossRange,
    Unmapped,
}

/// Routing table entries, (range offset, (range size, port id)), have
/// strictly increasing offsets.
pub open spec fn keys_sorted(s: Seq<(usize, (usize, usize))>) -> bool {
    forall|i: int, j: int| 0 <= i < j < s.len() ==> s[i].0 < s[j].0
}

/// Entry `i` is the last one whose offset is at most `a`.
pub open spec fn is_floor(s: Seq<(usize, (usize, usize))>, i: int, a: usize) -> bool {
    &&& 0 <= i < s.len()
    &&& s[i].0 <= a
    &&& (i + 1 == s.len() || s[i + 1].0 > a)
}

/// The last entry whose offset is at most `a`, if any.
pub open spec fn floor_of(s: Seq<(usize, (usize, usize))>, a: usize) -> Option<int> {
    if exists|i: int| is_floor(s, i, a) {
        Some(choose|i: int| is_floor(s, i, a))
    } else {
        None
    }
}

/// What a lookup of `l` bytes at `a` finds.
pub open spec fn find_outcome(s: Seq<(usize, (usize, usize))>, a: usize, l: nat) -> FindOutcome {
    match floor_of(s, a) {
        None => FindOutcome::Unmapped,
        Some(i) => if s[i].0 + s[i].1.0 < a + l {
            FindOutcome::CrossRange
        } else {
            FindOutcome::Found(s[i].0, s[i].1.1)
        },
    }
}

/// A mapped entry and the new range of `n` bytes at `a` meet: the entry's
/// range holds `a`, or the new range holds the entry's offset.
pub open spec fn meets(e: (usize, (usize, usize)), a: usize, n: nat) -> bool {
    ||| e.0 <= a && a < e.0 + e.1.0
    ||| a <= e.0 && e.0 < a + n
}

/// The first entry, by offset, that a new range of `n` bytes at `a` meets.
pub open spec fn first_overlap(s: Seq<(usize, (usize, usize))>, a: usize, n: nat) -> Option<int>
    decreases s.len(),
{
    if s.len() == 0 {
        None
    } else {
        match first_overlap(s.drop_last(), a, n) {
            Some(i) => Some(i),
            None => if meets(s.last(), a, n) {
                Some(s.len() - 1)
            } else {
                None
            },
        }
    }
}

/// The mapped ranges do not overlap: each ends at or before the offset of
/// the next one.
pub open spec fn ranges_disjoint(s: Seq<(usize, (usize, usize))>) -> bool {
    forall|i: int, j: int| 0 <= i < j < s.len() ==> s[i].0 + s[i].1.0 <= s[j].0
}

/// What the first overlap is: an entry that meets the range, after none
/// that does; no overlap means that no entry meets it.
pub proof fn lemma_first_overlap(s: Seq<(usize, (usize, usize))>, a: usize, n: nat)
    ensures
        first_overlap(s, a, n) matches Some(i) ==> 0 <= i < s.len() && meets(s[i], a, n)
            && forall|j: int| 0 <= j < i ==> !meets(#[trigger] s[j], a, n),
        first_overlap(s, a, n) is None ==> forall|j: int| 0 <= j < s.len() ==> !meets(#[trigger] s[j], a, n),
    decreases s.len(),
{
    if s.len() > 0 {
        let d = s.drop_last();
        lemma_first_overlap(d, a, n);
        assert forall|j: int| 0 <= j < d.len() implies d[j] == s[j] by {}
    }
}

/// The first overlap found in a prefix is the first overlap of the table.
proof fn lemma_first_overlap_prefix(s: Seq<(usize, (usize, usize))>, a: usize, n: nat, k: int)
    requires
        0 <= k <= s.len(),
        first_overlap(s.take(k), a, n) is Some,
    ensures
        first_overlap(s, a, n) == first_overlap(s.take(k), a, n),
    decreases s.len(),
{
    if k < s.len() {
        let d = s.drop_last();
        assert(d.take(k) =~= s.take(k));
        lemma_first_overlap_prefix(d, a, n, k);
    } else {
        assert(s.take(k) =~= s);
    }
}

/// The table with the entry `(a, e)` set, at its place in offset order.
pub open spec fn inserted(s: Seq<(usize, (usize, usize))>, a: usize, e: (usize, usize)) -> Seq<
    (usize, (usize, usize)),
> {
    match floor_of(s, a) {
        Some(i) => if s[i].0 == a {
            s.update(i, (a, e))
        } else {
            s.insert(i + 1, (a, e))
        },
        None => s.insert(0, (a, e)),
    }
}

/// The end of the range that holds `a`, if any, fits in `usize`.
pub open spec fn floor_end_fits(s: Seq<(usize, (usize, usize))>, a: usize) -> bool {
    floor_of(s, a) matches Some(i) ==> s[i].0 + s[i].1.0 <= usize::MAX
}

/// In a sorted table, at most one entry is the floor of an address.
pub proof fn lemma_floor_unique(s: Seq<(usize, (usize, usize))>, a: usize, i: int)
    requires
        keys_sorted(s),
        is_floor(s, i, a),
    ensures
        floor_of(s, a) == Some(i),
{
    let j = choose|j: int| is_floor(s, j, a);
    if j < i {
        assert(s[j + 1].0 <= s[i].0);
    }
    if i < j {
        assert(s[i + 1].0 <= s[j].0);
    }
}

/// Setting an entry keeps the table sorted and makes the entry the floor of
/// its own offset.
pub proof fn lemma_inserted(s: Seq<(usize, (usize, usize))>, a: usize, e: (usize, usize)) -> (k: int)
    requires
        keys_sorted(s),
    ensures
        keys_sorted(inserted(s, a, e)),
        0 <= k < inserted(s, a, e).len(),
        inserted(s, a, e)[k] == (a, e),
        is_floor(inserted(s, a, e), k, a),
{
    let n = inserted(s, a, e);
    match floor_of(s, a) {
        Some(f) => {
            assert(is_floor(s, f, a));
            if s[f].0 == a {
                assert(n == s.update(f, (a, e)));
                f
            } else {
                assert(n == s.insert(f + 1, (a, e)));
                assert forall|i: int, j: int| 0 <= i < j < n.len() implies n[i].0 < n[j].0 by {
                    if j == f + 1 {
                        assert(s[i].0 <= s[f].0);
                    } else if i == f + 1 {
                        assert(n[j] == s[j - 1]);
                        assert(s[f + 1].0 <= s[j - 1].0);
                    } else if i < f + 1 && j > f + 1 {
                        assert(n[j] == s[j - 1]);
                        assert(n[i] == s[i]);
                    } else if j < f + 1 {
                        assert(n[j] == s[j]);
                    } else {
                        assert(n[j] == s[j - 1]);
                        assert(n[i] == s[i - 1]);
                    }
                }
                if f + 2 < n.len() {
                    assert(n[f + 2] == s[f + 1]);
                }
                f + 1
            }
        },
        None => {
            assert(n == s.insert(0, (a, e)));
            if s.len() > 0 {
                assert(!is_floor(s, 0, a));
                if s[0].0 <= a {
                    // the last entry at or below `a` would be a floor
                    assert(exists|i: int| is_floor(s, i, a)) by {
                        lemma_some_floor(s, a, 0);
                    }
                }
                assert(n[1] == s[0]);
            }
            assert forall|i: int, j: int| 0 <= i < j < n.len() implies n[i].0 < n[j].0 by {
                assert(n[j] == s[j - 1]);
                if i == 0 {
                    assert(s[0].0 <= s[j - 1].0);
                } else {
                    assert(n[i] == s[i - 1]);
                }
            }
            0
        },
    }
}

/// An entry at or below `a` means that `a` has a floor.
pub proof fn lemma_some_floor(s: Seq<(usize, (usize, usize))>, a: usize, i: int)
    requires
        0 <= i < s.len(),
        s[i].0 <= a,
    ensures
        exists|j: int| is_floor(s, j, a),
    decreases s.len() - i,
{
    if i + 1 == s.len() || s[i + 1].0 > a {
        assert(is_floor(s, i, a));
    } else {
        lemma_some_floor(s, a, i + 1);
    }
}

/// Mapping a range that meets no mapped one keeps the ranges disjoint.
pub proof fn lemma_inserted_disjoint(s: Seq<(usize, (usize, usize))>, a: usize, e: (usize, usize))
    requires
        keys_sorted(s),
        ranges_disjoint(s),
        first_overlap(s, a, e.0 as nat) is None,
    ensures
        ranges_disjoint(inserted(s, a, e)),
{
    lemma_first_overlap(s, a, e.0 as nat);
    let n = inserted(s, a, e);
    match floor_of(s, a) {
        Some(f) => {
            assert(is_floor(s, f, a));
            assert(!meets(s[f], a, e.0 as nat));
            if s[f].0 == a {
                assert(n == s.update(f, (a, e)));
                assert forall|i: int, j: int| 0 <= i < j < n.len() implies n[i].0 + n[i].1.0 <= n[j].0 by {
                    if i == f {
                        assert(!meets(s[j], a, e.0 as nat));
                    }
                    if j == f {
                        assert(s[i].0 + s[i].1.0 <= s[f].0);
                    }
                }
            } else {
                assert(n == s.insert(f + 1, (a, e)));
                assert forall|i: int, j: int| 0 <= i < j < n.len() implies n[i].0 + n[i].1.0 <= n[j].0 by {
                    if j == f + 1 {
                        if i < f {
                            assert(s[i].0 + s[i].1.0 <= s[f].0);
                        }
                    } else if i == f + 1 {
                        assert(n[j] == s[j - 1]);
                        assert(s[f + 1].0 <= s[j - 1].0);
                        assert(!meets(s[f + 1], a, e.0 as nat));
                    } else if i < f + 1 && j > f + 1 {
                        assert(n[j] == s[j - 1]);
                        assert(n[i] == s[i]);
                    } else if j < f + 1 {
                        assert(n[j] == s[j]);
                    } else {
                        assert(n[j] == s[j - 1]);
                        assert(n[i] == s[i - 1]);
                    }
                }
            }
        },
        None => {
            assert(n == s.insert(0, (a, e)));
            if s.len() > 0 {
                if s[0].0 <= a {
                    lemma_some_floor(s, a, 0);
                }
                assert(!meets(s[0], a, e.0 as nat));
            }
            assert forall|i: int, j: int| 0 <= i < j < n.len() implies n[i].0 + n[i].1.0 <= n[j].0 by {
                assert(n[j] == s[j - 1]);
                if i == 0 {
                    assert(s[0].0 <= s[j - 1].0);
                } else {
                    assert(n[i] == s[i - 1]);
                }
            }
        },
    }
}

/// A range that was just mapped serves every access at its offset that fits
/// in it.
pub proof fn law_find_after_insert(
    s: Seq<(usize, (usize, usize))>,
    a: usize,
    size: usize,
    port: usize,
    l: nat,
)
    requires
        keys_sorted(s),
        first_overlap(s, a, size as nat) is None,
        l <= size,
    ensures
        find_outcome(inserted(s, a, (size, port)), a, l) == FindOutcome::Found(a, port),
{
    let k = lemma_inserted(s, a, (size, port));
    lemma_floor_unique(inserted(s, a, (size, port)), a, k);
}

/// A copy of routing table entries.
fn copy_entries(v: &Vec<(usize, (usize, usize))>) -> (r: Vec<(usize, (usize, usize))>)
    ensures
        r@ == v@,
{
    let mut r: Vec<(usize, (usize, usize))> = Vec::new();
    let mut i: usize = 0;
    while i < v.len()
        invariant
            0 <= i <= v.len(),
            r@ == v@.take(i as int),
        decreases v.len() - i,
    {
        r.push(v[i]);
        proof {
            assert(r@ =~= v@.take((i + 1) as int));
        }
        i = i + 1;
    }
    proof {
        assert(v@.take(i as int) =~= v@);
    }
    r
}

/// A routing table from address ranges to ports.
#[derive(Debug)]
pub struct AddrRangeMap {
    /// Entries (range offset, (range size, port id)), by increasing offset.
    ar_map: Vec<(usize, (usize, usize))>,
}

impl AddrRangeMap {
    /// The entries, by increasing offset.
    pub closed spec fn view(&self) -> Seq<(usize, (usize, usize))> {
        self.ar_map@
    }

    /// Offsets are strictly increasing and the mapped ranges are pairwise
    /// disjoint.
    pub open spec fn wf(&self) -> bool {
        keys_sorted(self@) && ranges_disjoint(self@)
    }

    /// An empty table.
    pub fn new() -> (r: Self)
        ensures
            r.wf(),
            r@ == Seq::<(usize, (usize, usize))>::empty(),
    {
        AddrRangeMap { ar_map: Vec::new() }
    }

    /// Index of the last entry whose offset is at most `a`.
    fn floor_index(&self, a: usize) -> (r: Option<usize>)
        requires
            self.wf(),
        ensures
            r matches Some(i) ==> floor_of(self@, a) == Some(i as int) && is_floor(self@, i as int, a),
            r is None ==> floor_of(self@, a) is None && (self@.len() == 0 || self@[0].0 > a),
    {
        let mut i: usize = 0;
        while i < self.ar_map.len() && self.ar_map[i].0 <= a
            invariant
                0 <= i <= self.ar_map.len(),
                forall|k: int| 0 <= k < i ==> self.ar_map@[k].0 <= a,
            decreases self.ar_map.len() - i,
        {
            i = i + 1;
        }
        if i == 0 {
            proof {
                if exists|j: int| is_floor(self@, j, a) {
                    let j = choose|j: int| is_floor(self@, j, a);
                    assert(self@[0].0 <= self@[j].0);
                }
            }
            None
        } else {
            proof {
                lemma_floor_unique(self@, a, (i - 1) as int);
            }
            Some(i - 1)
        }
    }

    /// The first entry that a new range of `n` bytes at `a` meets.
    fn first_overlap_index(&self, a: usize, n: usize) -> (r: Option<usize>)
        ensures
            r matches Some(i) ==> first_overlap(self@, a, n as nat) == Some(i as int),
            r is None ==> first_overlap(self@, a, n as nat) is None,
    {
        let mut i: usize = 0;
        while i < self.ar_map.len()
            invariant
                0 <= i <= self.ar_map.len(),
                first_overlap(self@.take(i as int), a, n as nat) is None,
            decreases self.ar_map.len() - i,
        {
            let (o, (sz, _)) = self.ar_map[i];
            let m = (o <= a && a - o < sz) || (a <= o && o - a < n);
            proof {
                assert(self@.take(i + 1).drop_last() =~= self@.take(i as int));
                assert(self@.take(i + 1).last() == self@[i as int]);
            }
            if m {
                proof {
                    lemma_first_overlap_prefix(self@, a, n as nat, i + 1);
                }
                return Some(i);
            }
            i = i + 1;
        }
        proof {
            assert(self@.take(i as int) =~= self@);
        }
        None
    }

    /// Map `size` bytes from `addr_offset` to `port_id`, unless the new range
    /// meets a mapped one: then the first such range is reported and the
    /// table is left unchanged.
    pub fn insert_range(&mut self, addr_offset: usize, size: Data, port_id: usize) -> (r: Result<
        (),
        AddrRangeError,
    >)
        requires
            old(self).wf(),
        ensures
            final(self).wf(),
            match first_overlap(old(self)@, addr_offset, size.spec_bytes()) {
                Some(i) => r == Err::<(), AddrRangeError>(
                    AddrRangeError::Overlap {
                        target: (addr_offset, size),
                        overlap: (old(self)@[i].0, Data::Byte(old(self)@[i].1.0)),
                    },
                ) && final(self)@ == old(self)@,
                None => r == Ok::<(), AddrRangeError>(()) && final(self)@ == inserted(
                    old(self)@,
                    addr_offset,
                    (size.spec_bytes() as usize, port_id),
                ),
            },
    {
        let n = size.into_byte();
        // Check for overlapping
        if let Some(i) = self.first_overlap_index(addr_offset, n) {
            proof {
                lemma_first_overlap(self@, addr_offset, n as nat);
            }
            let (ar_ofst, (ar_size, _)) = self.ar_map[i];
            return Err(
                AddrRangeError::Overlap {
                    target: (addr_offset, size),
                    overlap: (ar_ofst, Data::Byte(ar_size)),
                },
            );
        }
        let entry = (addr_offset, (n, port_id));
        let ghost s = self.ar_map@;
        proof {
            lemma_inserted(s, addr_offset, (n, port_id));
            lemma_inserted_disjoint(s, addr_offset, (n, port_id));
        }
        let floor = self.floor_index(addr_offset);
        match floor {
            Some(f) => {
                assert(is_floor(s, f as int, addr_offset));
                assert(f < self.ar_map.len());
                if self.ar_map[f].0 == addr_offset {
                    self.ar_map.set(f, entry);
                } else {
                    self.ar_map.insert(f + 1, entry);
                }
            },
            None => {
                self.ar_map.insert(0, entry);
            },
        }
        Ok(())
    }

    /// The range offset and port that serve an access of `size` bytes at
    /// `addr_offset`.
    pub fn find_port(&self, addr_offset: usize, size: Data) -> (r: Result<
        (usize, usize),
        AddrRangeError,
    >)
        requires
            self.wf(),
            floor_end_fits(self@, addr_offset),
            floor_of(self@, addr_offset) is Some ==> addr_offset + size.spec_bytes() <= usize::MAX,
        ensures
            match find_outcome(self@, addr_offset, size.spec_bytes()) {
                FindOutcome::Found(o, p) => r == Ok::<(usize, usize), AddrRangeError>((o, p)),
                FindOutcome::CrossRange => (r matches Err(AddrRangeError::CrossRange {
                    access,
                    range,
                }) && access == (addr_offset, size) && range@ == self@),
                FindOutcome::Unmapped => r == Err::<(usize, usize), AddrRangeError>(
                    AddrRangeError::Unmapped { addr: addr_offset, len: size },
                ),
            },
    {
        match self.floor_index(addr_offset) {
            Some(f) => {
                let (ar_ofst, (ar_size, port_id)) = self.ar_map[f];
                if ar_ofst + ar_size < addr_offset + size.into_byte() {
                    Err(
                        AddrRangeError::CrossRange {
                            access: (addr_offset, size),
                            range: copy_entries(&self.ar_map),
                        },
                    )
                } else {
                    Ok((ar_ofst, port_id))
                }
            },
            None => Err(AddrRangeError::Unmapped { addr: addr_offset, len: size }),
        }
    }
}

impl Default for AddrRangeMap {
    fn default() -> (r: Self)
        ensures
            r.wf(),
            r@ == Seq::<(usize, (usize, usize))>::empty(),
    {
        Self::new()
    }
}

} // verus!
