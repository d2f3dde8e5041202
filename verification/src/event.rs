//! Named simulation events: each name gets a number the first time it is
//! used, and the events notified during the current tick are recorded.

use vstd::prelude::*;
use crate::text::same_text;

verus! {

/// The index of the first occurrence of `name` in `names`, if any.
pub open spec fn index_of_name(names: Seq<Seq<char>>, name: Seq<char>) -> Option<int>
    decreases names.len(),
{
    if names.len() == 0 {
        None
    } else {
        match index_of_name(names.drop_last(), name) {
            Some(i) => Some(i),
            None => if names.last() == name {
                Some(names.len() - 1)
            } else {
                None
            },
        }
    }
}

/// The event names, numbered in the order they were first used, and for
/// each event whether it was notified during the current tick.
#[derive(Debug)]
pub struct EventKeeper {
    names: Vec<String>,
    triggered: Vec<bool>,
}

impl EventKeeper {
    /// The names of the events, by number.
    pub closed spec fn spec_names(&self) -> Seq<Seq<char>> {
        self.names@.map_values(|n: String| n@)
    }

    /// Whether each event was notified during the current tick, by number.
    pub closed spec fn spec_triggered(&self) -> Seq<bool> {
        self.triggered@
    }

    /// Every event has a notification flag.
    pub closed spec fn wf(&self) -> bool {
        self.names@.len() == self.triggered@.len()
    }

    /// No event yet.
    pub fn new() -> (r: Self)
        ensures
            r.wf(),
            r.spec_names() == Seq::<Seq<char>>::empty(),
            r.spec_triggered() == Seq::<bool>::empty(),
    {
        let r = EventKeeper { names: Vec::new(), triggered: Vec::new() };
        proof {
            assert(r.spec_names() =~= Seq::<Seq<char>>::empty());
        }
        r
    }

    /// Number of events named so far; each has a flag.
    pub fn len(&self) -> (r: usize)
        requires
            self.wf(),
        ensures
            r == self.spec_names().len(),
            r == self.spec_triggered().len(),
    {
        self.names.len()
    }

    /// The number of the event named `name`, numbering it (not notified)
    /// when it is new.
    pub fn event_id(&mut self, name: &str) -> (r: usize)
        requires
            old(self).wf(),
        ensures
            final(self).wf(),
            match index_of_name(old(self).spec_names(), name@) {
                Some(i) => r == i && final(self).spec_names() == old(self).spec_names()
                    && final(self).spec_triggered() == old(self).spec_triggered(),
                None => r == old(self).spec_names().len() && final(self).spec_names()
                    == old(self).spec_names().push(name@) && final(self).spec_triggered()
                    == old(self).spec_triggered().push(false),
            },
    {
        let ghost names = self.spec_names();
        let mut i: usize = 0;
        while i < self.names.len()
            invariant
                0 <= i <= self.names@.len(),
                self.wf(),
                names == self.names@.map_values(|n: String| n@),
                index_of_name(names.take(i as int), name@) is None,
            decreases self.names.len() - i,
        {
            proof {
                assert(names.take(i + 1).drop_last() =~= names.take(i as int));
                assert(names.take(i + 1).last() == self.names@[i as int]@);
            }
            if same_text(self.names[i].as_str(), name) {
                proof {
                    lemma_index_of_prefix(names, name@, i + 1);
                }
                return i;
            }
            i = i + 1;
        }
        proof {
            assert(names.take(i as int) =~= names);
        }
        self.names.push(String::from_str(name));
        self.triggered.push(false);
        proof {
            assert(self.names@.map_values(|n: String| n@) =~= names.push(name@));
        }
        i
    }

    /// The name of event `id`, if it exists.
    pub fn event_name(&self, id: usize) -> (r: Option<String>)
        ensures
            id < self.spec_names().len() ==> (r matches Some(n) && n@ == self.spec_names()[id as int]),
            id >= self.spec_names().len() ==> r is None,
    {
        if id < self.names.len() {
            Some(self.names[id].clone())
        } else {
            None
        }
    }

    /// Record that event `id` was notified during the current tick.
    pub fn trigger(&mut self, id: usize)
        requires
            old(self).wf(),
        ensures
            final(self).wf(),
            final(self).spec_names() == old(self).spec_names(),
            id < old(self).spec_triggered().len() ==> final(self).spec_triggered() == old(
                self,
            ).spec_triggered().update(id as int, true),
            id >= old(self).spec_triggered().len() ==> final(self).spec_triggered() == old(
                self,
            ).spec_triggered(),
    {
        if id < self.triggered.len() {
            self.triggered.set(id, true);
        }
    }

    /// Forget the notifications of the previous tick.
    pub fn clear_triggered(&mut self)
        requires
            old(self).wf(),
        ensures
            final(self).wf(),
            final(self).spec_names() == old(self).spec_names(),
            final(self).spec_triggered() == Seq::new(old(self).spec_triggered().len(), |i: int| false),
    {
        let n = self.triggered.len();
        let mut flags: Vec<bool> = Vec::new();
        let mut i: usize = 0;
        while i < n
            invariant
                0 <= i <= n,
                flags@ == Seq::new(i as nat, |k: int| false),
            decreases n - i,
        {
            flags.push(false);
            proof {
                assert(flags@ =~= Seq::new((i + 1) as nat, |k: int| false));
            }
            i = i + 1;
        }
        self.triggered = flags;
    }

    /// Whether event `id` was notified during the current tick.
    pub fn is_triggered(&self, id: usize) -> (r: bool)
        ensures
            r == (id < self.spec_triggered().len() && self.spec_triggered()[id as int]),
    {
        id < self.triggered.len() && self.triggered[id]
    }
}

/// The first occurrence found in a prefix is the first occurrence.
proof fn lemma_index_of_prefix(names: Seq<Seq<char>>, name: Seq<char>, k: int)
    requires
        0 <= k <= names.len(),
        index_of_name(names.take(k), name) is Some,
    ensures
        index_of_name(names, name) == index_of_name(names.take(k), name),
    decreases names.len(),
{
    if k < names.len() {
        let d = names.drop_last();
        assert(d.take(k) =~= names.take(k));
        lemma_index_of_prefix(d, name, k);
    } else {
        assert(names.take(k) =~= names);
    }
}

} // verus!
