//! The simulator variable snapshot: the most recently polled complete set of
//! variable values, keyed by variable name.
use crate::text::str_eq;
use crate::value::SimValue;
use vstd::prelude::*;

verus! {

/// The map denoted by an entry list: later entries win.
pub open spec fn entries_map(s: Seq<(String, SimValue)>) -> Map<Seq<char>, SimValue>
    decreases s.len(),
{
    if s.len() == 0 {
        Map::empty()
    } else {
        entries_map(s.drop_last()).insert(s.last().0@, s.last().1)
    }
}

/// No two entries share a key.
pub open spec fn unique_keys(s: Seq<(String, SimValue)>) -> bool {
    forall|i: int, j: int| 0 <= i < j < s.len() ==> (#[trigger] s[i].0@) != (#[trigger] s[j].0@)
}

/// A key is in the entry map exactly when some entry carries it.
pub proof fn lemma_entries_map_contains(s: Seq<(String, SimValue)>, key: Seq<char>)
    ensures
        entries_map(s).contains_key(key) <==> exists|i: int|
            0 <= i < s.len() && (#[trigger] s[i].0@) == key,
    decreases s.len(),
{
    if s.len() > 0 {
        lemma_entries_map_contains(s.drop_last(), key);
        if entries_map(s).contains_key(key) {
            if s.last().0@ == key {
                assert(s[s.len() - 1].0@ == key);
            } else {
                let i = choose|i: int|
                    0 <= i < s.drop_last().len() && (#[trigger] s.drop_last()[i].0@) == key;
                assert(s[i].0@ == key);
            }
        }
        if exists|i: int| 0 <= i < s.len() && (#[trigger] s[i].0@) == key {
            let i = choose|i: int| 0 <= i < s.len() && (#[trigger] s[i].0@) == key;
            if i < s.len() - 1 {
                assert(s.drop_last()[i].0@ == key);
            }
        }
    }
}

/// Under unique keys, the entry map sends each entry's key to its value.
pub proof fn lemma_entries_map_at(s: Seq<(String, SimValue)>, i: int)
    requires
        unique_keys(s),
        0 <= i < s.len(),
    ensures
        entries_map(s).contains_key(s[i].0@),
        entries_map(s)[s[i].0@] == s[i].1,
    decreases s.len(),
{
    if i < s.len() - 1 {
        assert(unique_keys(s.drop_last()));
        assert(s.drop_last()[i] == s[i]);
        lemma_entries_map_at(s.drop_last(), i);
        assert(s[i].0@ != s.last().0@);
    }
}

/// Updating an entry in place updates its key in the entry map.
proof fn lemma_entries_map_update(s: Seq<(String, SimValue)>, i: int, e: (String, SimValue))
    requires
        unique_keys(s),
        0 <= i < s.len(),
        e.0@ == s[i].0@,
    ensures
        entries_map(s.update(i, e)) =~= entries_map(s).insert(e.0@, e.1),
    decreases s.len(),
{
    let t = s.update(i, e);
    if i == s.len() - 1 {
        assert(t.drop_last() =~= s.drop_last());
        assert(t.last() == e);
    } else {
        assert(t.drop_last() =~= s.drop_last().update(i, e));
        assert(t.last() == s.last());
        assert(unique_keys(s.drop_last()));
        assert(s.drop_last()[i] == s[i]);
        lemma_entries_map_update(s.drop_last(), i, e);
        assert(s[i].0@ != s.last().0@);
        assert(entries_map(t) =~= entries_map(s).insert(e.0@, e.1));
    }
}

/// The most recently polled complete set of simulator variable values.
/// Keys are unique; the snapshot is replaced wholesale on each successful
/// poll, never merged incrementally across sources.
#[derive(Debug)]
pub struct Snapshot {
    pub entries: Vec<(String, SimValue)>,
}

impl View for Snapshot {
    type V = Map<Seq<char>, SimValue>;

    open spec fn view(&self) -> Map<Seq<char>, SimValue> {
        entries_map(self.entries@)
    }
}

impl Snapshot {
    /// Keys are pairwise distinct.
    pub open spec fn wf(self) -> bool {
        unique_keys(self.entries@)
    }

    /// The empty snapshot.
    pub fn new() -> (r: Snapshot)
        ensures
            r.wf(),
            r@ == Map::<Seq<char>, SimValue>::empty(),
    {
        Snapshot { entries: Vec::new() }
    }

    /// How many variables the snapshot holds.
    pub fn len(&self) -> (r: usize)
        requires
            self.wf(),
        ensures
            r == self@.dom().len(),
    {
        proof {
            lemma_entries_map_len(self.entries@);
        }
        self.entries.len()
    }

    /// The value of a variable, if the snapshot holds it.
    #[verifier::loop_isolation(false)]
    pub fn lookup(&self, name: &str) -> (r: Option<SimValue>)
        requires
            self.wf(),
        ensures
            r == if self@.contains_key(name@) {
                Some(self@[name@])
            } else {
                None::<SimValue>
            },
    {
        let mut i: usize = 0;
        while i < self.entries.len()
            invariant
                i <= self.entries@.len(),
                forall|j: int| 0 <= j < i ==> (#[trigger] self.entries@[j].0@) != name@,
            decreases self.entries@.len() - i,
        {
            let e = &self.entries[i];
            if str_eq(e.0.as_str(), name) {
                proof {
                    lemma_entries_map_at(self.entries@, i as int);
                }
                return Some(e.1);
            }
            i += 1;
        }
        proof {
            lemma_entries_map_contains(self.entries@, name@);
        }
        None
    }

    /// Sets one variable, inserting or replacing its entry.
    #[verifier::loop_isolation(false)]
    pub fn set(&mut self, name: &str, value: SimValue)
        requires
            old(self).wf(),
        ensures
            final(self).wf(),
            final(self)@ == old(self)@.insert(name@, value),
    {
        let mut i: usize = 0;
        while i < self.entries.len()
            invariant
                self == old(self),
                i <= self.entries@.len(),
                forall|j: int| 0 <= j < i ==> (#[trigger] self.entries@[j].0@) != name@,
            decreases self.entries@.len() - i,
        {
            let e = &self.entries[i];
            if str_eq(e.0.as_str(), name) {
                let entry = (name.to_owned(), value);
                proof {
                    lemma_entries_map_update(self.entries@, i as int, entry);
                }
                self.entries[i] = entry;
                proof {
                    assert(final(self)@ =~= old(self)@.insert(name@, value));
                }
                return ;
            }
            i += 1;
        }
        self.entries.push((name.to_owned(), value));
        proof {
            assert(self.entries@.drop_last() =~= old(self).entries@);
        }
    }

    /// Removes every variable.
    pub fn clear(&mut self)
        ensures
            final(self).wf(),
            final(self)@ == Map::<Seq<char>, SimValue>::empty(),
    {
        self.entries.clear();
    }

    /// The entries, for enumeration.
    pub fn pairs(&self) -> (r: &Vec<(String, SimValue)>)
        ensures
            r == &self.entries,
            entries_map(r@) == self@,
    {
        &self.entries
    }

    /// A copy of the snapshot with the same contents.
    #[verifier::loop_isolation(false)]
    pub fn duplicate(&self) -> (r: Snapshot)
        requires
            self.wf(),
        ensures
            r.wf(),
            r@ == self@,
    {
        let mut entries: Vec<(String, SimValue)> = Vec::new();
        let mut i: usize = 0;
        while i < self.entries.len()
            invariant
                i <= self.entries@.len(),
                entries@.len() == i,
                forall|j: int| 0 <= j < i ==> #[trigger] entries@[j].0@ == self.entries@[j].0@
                    && entries@[j].1 == self.entries@[j].1,
            decreases self.entries@.len() - i,
        {
            let e = &self.entries[i];
            entries.push((e.0.clone(), e.1));
            i += 1;
        }
        let r = Snapshot { entries };
        proof {
            lemma_entries_map_congruence(r.entries@, self.entries@);
        }
        r
    }
}

/// Entry lists with pairwise equal key views and values denote the same map.
proof fn lemma_entries_map_congruence(a: Seq<(String, SimValue)>, b: Seq<(String, SimValue)>)
    requires
        a.len() == b.len(),
        forall|j: int| 0 <= j < a.len() ==> #[trigger] a[j].0@ == b[j].0@ && a[j].1 == b[j].1,
    ensures
        entries_map(a) =~= entries_map(b),
        unique_keys(b) ==> unique_keys(a),
    decreases a.len(),
{
    if a.len() > 0 {
        assert(forall|j: int| 0 <= j < a.len() - 1 ==> #[trigger] a.drop_last()[j].0@
            == b.drop_last()[j].0@ && a.drop_last()[j].1 == b.drop_last()[j].1);
        lemma_entries_map_congruence(a.drop_last(), b.drop_last());
        assert(a.last().0@ == b.last().0@ && a.last().1 == b.last().1);
    }
}

/// Under unique keys, the entry map has exactly one key per entry.
proof fn lemma_entries_map_len(s: Seq<(String, SimValue)>)
    requires
        unique_keys(s),
    ensures
        entries_map(s).dom().finite(),
        entries_map(s).dom().len() == s.len(),
    decreases s.len(),
{
    if s.len() > 0 {
        assert(unique_keys(s.drop_last()));
        lemma_entries_map_len(s.drop_last());
        lemma_entries_map_contains(s.drop_last(), s.last().0@);
        assert(!entries_map(s.drop_last()).contains_key(s.last().0@));
        vstd::set::axiom_set_insert_len(entries_map(s.drop_last()).dom(), s.last().0@);
        assert(entries_map(s).dom() =~= entries_map(s.drop_last()).dom().insert(s.last().0@));
    }
}

} // verus!
