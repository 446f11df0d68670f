//! A name-to-text table: the shell's variables and its aliases.

use vstd::prelude::*;
use crate::text::{same_chars, string_of};

verus! {

/// The mapping that a list of entries stands for: a later entry for a name
/// replaces an earlier one.
pub open spec fn map_of(entries: Seq<(Seq<char>, Seq<char>)>) -> Map<Seq<char>, Seq<char>>
    decreases entries.len(),
{
    if entries.len() == 0 {
        Map::empty()
    } else {
        let last = entries.last();
        map_of(entries.drop_last()).insert(last.0, last.1)
    }
}

/// The view of a vector of entries.
pub open spec fn entries_view(v: Seq<(Vec<char>, Vec<char>)>) -> Seq<(Seq<char>, Seq<char>)> {
    v.map_values(|e: (Vec<char>, Vec<char>)| (e.0@, e.1@))
}

/// Once the entries past index `i` hold no entry for `k`, the mapping of `k`
/// is decided by the first `i` entries.
proof fn lemma_map_of_prefix(entries: Seq<(Seq<char>, Seq<char>)>, i: int, k: Seq<char>)
    requires
        0 <= i <= entries.len(),
        forall|j: int| i <= j < entries.len() ==> entries[j].0 != k,
    ensures
        map_of(entries).contains_key(k) == map_of(entries.take(i)).contains_key(k),
        map_of(entries).contains_key(k) ==> map_of(entries)[k] == map_of(entries.take(i))[k],
    decreases entries.len(),
{
    if entries.len() > i {
        lemma_map_of_prefix(entries.drop_last(), i, k);
        assert(entries.drop_last().take(i) =~= entries.take(i));
    } else {
        assert(entries.take(i) =~= entries);
    }
}

/// The table grew by adding entries, which leaves its earlier states on record.
pub open spec fn grew_from(after: Table, before: Table) -> bool {
    &&& after.size() >= before.size()
    &&& forall|n: nat| n <= before.size() ==> after.at_size(n) == before.at_size(n)
}

/// A table from names to text values.
pub struct Table {
    entries: Vec<(Vec<char>, Vec<char>)>,
}

impl View for Table {
    type V = Map<Seq<char>, Seq<char>>;

    closed spec fn view(&self) -> Map<Seq<char>, Seq<char>> {
        map_of(entries_view(self.entries@))
    }
}

impl Table {
    /// Number of entries held; a rollback point for `truncate`.
    pub closed spec fn size(&self) -> nat {
        self.entries@.len()
    }

    /// The table as it stood when it held its first `n` entries.
    pub closed spec fn at_size(&self, n: nat) -> Map<Seq<char>, Seq<char>> {
        map_of(entries_view(self.entries@.take(n as int)))
    }

    /// The table at its own size is the table itself.
    pub proof fn lemma_at_own_size(&self)
        ensures
            self.at_size(self.size()) == self@,
    {
        assert(self.entries@.take(self.entries@.len() as int) =~= self.entries@);
    }

    /// An empty table.
    pub fn new() -> (r: Table)
        ensures
            r@ == Map::<Seq<char>, Seq<char>>::empty(),
            r.size() == 0,
    {
        let r = Table { entries: Vec::new() };
        assert(entries_view(r.entries@) =~= Seq::empty());
        r
    }

    /// The value bound to `name`, if any.
    pub fn lookup(&self, name: &Vec<char>) -> (r: Option<Vec<char>>)
        ensures
            match r {
                Some(v) => self@.contains_key(name@) && self@[name@] == v@,
                None => !self@.contains_key(name@),
            },
    {
        let ghost ev = entries_view(self.entries@);
        let mut i: usize = self.entries.len();
        while i > 0
            invariant
                i <= self.entries@.len(),
                ev == entries_view(self.entries@),
                forall|j: int| i <= j < ev.len() ==> ev[j].0 != name@,
            decreases i,
        {
            let e = &self.entries[i - 1];
            if same_chars(&e.0, name) {
                proof {
                    lemma_map_of_prefix(ev, i as int, name@);
                    assert(ev.take(i as int).drop_last() =~= ev.take(i - 1));
                }
                return Some(e.1.clone());
            }
            i -= 1;
        }
        proof {
            lemma_map_of_prefix(ev, 0, name@);
            assert(ev.take(0) =~= Seq::empty());
        }
        None
    }

    /// The value bound to `name`, as a string.
    pub fn get(&self, name: &str) -> (r: Option<String>)
        ensures
            match r {
                Some(v) => self@.contains_key(name@) && self@[name@] == v@,
                None => !self@.contains_key(name@),
            },
    {
        let key = crate::text::chars_of(name);
        match self.lookup(&key) {
            Some(v) => Some(string_of(&v)),
            None => None,
        }
    }

    /// Binds `name` to `value`, replacing an earlier binding.
    pub fn bind(&mut self, name: Vec<char>, value: Vec<char>)
        ensures
            final(self)@ == old(self)@.insert(name@, value@),
            final(self).size() == old(self).size() + 1,
            final(self).at_size(old(self).size()) == old(self)@,
            forall|n: nat| n <= old(self).size() ==> final(self).at_size(n) == old(self).at_size(n),
    {
        let ghost before = self.entries@;
        self.entries.push((name, value));
        proof {
            let ev = entries_view(self.entries@);
            assert(ev.drop_last() =~= entries_view(before));
            assert forall|n: nat| n <= before.len() implies self.at_size(n) == old(self).at_size(n) by {
                assert(self.entries@.take(n as int) =~= before.take(n as int));
            }
            assert(before.take(before.len() as int) =~= before);
        }
    }

    /// Binds `name` to `value`, given as strings.
    pub fn set(&mut self, name: &str, value: &str)
        ensures
            final(self)@ == old(self)@.insert(name@, value@),
    {
        let n = crate::text::chars_of(name);
        let v = crate::text::chars_of(value);
        self.bind(n, v);
    }

    /// Drops every entry past the first `n`, which brings the table back to
    /// the state it had at that size.
    pub fn truncate(&mut self, n: usize)
        requires
            n <= old(self).size(),
        ensures
            final(self)@ == old(self).at_size(n as nat),
            final(self).size() == n,
            forall|m: nat| m <= n ==> final(self).at_size(m) == old(self).at_size(m),
    {
        let ghost before = self.entries@;
        self.entries.truncate(n);
        proof {
            assert(self.entries@ =~= before.take(n as int));
            assert forall|m: nat| m <= n implies self.at_size(m) == old(self).at_size(m) by {
                assert(self.entries@.take(m as int) =~= before.take(m as int));
            }
        }
    }

    /// Number of entries held.
    pub fn len(&self) -> (r: usize)
        ensures
            r == self.size(),
    {
        self.entries.len()
    }
}

} // verus!
