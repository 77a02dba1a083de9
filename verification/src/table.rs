//! The define table: an ordered association list from macro names to
//! replacement text. Lookup takes the first entry with the key; a new
//! definition for a present key overwrites that entry in place, so a name
//! never appears twice and the latest definition wins.

use vstd::prelude::*;
use crate::text::str_eq_str;

verus! {

/// The view of a pair of strings.
pub open spec fn pair_view(p: (String, String)) -> (Seq<char>, Seq<char>) {
    (p.0@, p.1@)
}

/// The view of a sequence of string pairs.
pub open spec fn seq_pair_view(v: Seq<(String, String)>) -> Seq<(Seq<char>, Seq<char>)> {
    v.map_values(|p: (String, String)| pair_view(p))
}

/// The first index at or after `i` whose key is `n`, or `-1`.
pub open spec fn key_ix(s: Seq<(Seq<char>, Seq<char>)>, n: Seq<char>, i: int) -> int
    decreases s.len() - i,
{
    if i < 0 || i >= s.len() {
        -1
    } else if s[i].0 == n {
        i
    } else {
        key_ix(s, n, i + 1)
    }
}

/// Whether some entry has key `n`.
pub open spec fn tbl_contains(s: Seq<(Seq<char>, Seq<char>)>, n: Seq<char>) -> bool {
    key_ix(s, n, 0) != -1
}

/// The value of the first entry with key `n`.
pub open spec fn tbl_get(s: Seq<(Seq<char>, Seq<char>)>, n: Seq<char>) -> Seq<char> {
    s[key_ix(s, n, 0)].1
}

/// The table after binding `n` to `v`: the first entry with key `n` is
/// overwritten, or a new entry is appended.
pub open spec fn tbl_insert(
    s: Seq<(Seq<char>, Seq<char>)>,
    n: Seq<char>,
    v: Seq<char>,
) -> Seq<(Seq<char>, Seq<char>)> {
    if tbl_contains(s, n) {
        s.update(key_ix(s, n, 0), (n, v))
    } else {
        s.push((n, v))
    }
}

/// The table after unbinding `n`: the first entry with key `n` is removed,
/// and a table without the key is unchanged.
pub open spec fn tbl_remove(s: Seq<(Seq<char>, Seq<char>)>, n: Seq<char>) -> Seq<
    (Seq<char>, Seq<char>),
> {
    if tbl_contains(s, n) {
        s.remove(key_ix(s, n, 0))
    } else {
        s
    }
}

/// A found index lies at or after `i`, within the table, and names `n`.
pub proof fn lemma_key_ix_bounds(s: Seq<(Seq<char>, Seq<char>)>, n: Seq<char>, i: int)
    requires
        0 <= i,
    ensures
        key_ix(s, n, i) == -1 || (i <= key_ix(s, n, i) < s.len() && s[key_ix(s, n, i)].0 == n),
    decreases s.len() - i,
{
    if i < s.len() && s[i].0 != n {
        lemma_key_ix_bounds(s, n, i + 1);
    }
}

/// An ordered macro-definition table.
#[derive(Debug, Clone)]
pub struct StrTable {
    pub entries: Vec<(String, String)>,
}

impl StrTable {
    /// The table's view: its entries in order, as character sequences.
    pub open spec fn pairs(self) -> Seq<(Seq<char>, Seq<char>)> {
        seq_pair_view(self.entries@)
    }

    /// An empty table.
    pub fn new() -> (r: Self)
        ensures
            r.pairs() == Seq::<(Seq<char>, Seq<char>)>::empty(),
    {
        let r = StrTable { entries: Vec::new() };
        proof {
            assert(r.pairs() =~= Seq::<(Seq<char>, Seq<char>)>::empty());
        }
        r
    }

    /// The index of the first entry with the given key, if any.
    pub fn find_key(&self, name: &str) -> (r: Option<usize>)
        ensures
            match r {
                Some(j) => key_ix(self.pairs(), name@, 0) == j,
                None => key_ix(self.pairs(), name@, 0) == -1,
            },
    {
        let mut i: usize = 0;
        while i < self.entries.len()
            invariant
                i <= self.entries@.len(),
                key_ix(self.pairs(), name@, 0) == key_ix(self.pairs(), name@, i as int),
            decreases self.entries@.len() - i,
        {
            if str_eq_str(self.entries[i].0.as_str(), name) {
                return Some(i);
            }
            i = i + 1;
        }
        None
    }

    /// Whether the table binds the given name.
    pub fn contains_key(&self, name: &str) -> (r: bool)
        ensures
            r == tbl_contains(self.pairs(), name@),
    {
        match self.find_key(name) {
            Some(_) => true,
            None => false,
        }
    }

    /// Binds a name, overwriting an existing entry or appending a new one.
    pub fn insert_pair(&mut self, name: String, value: String)
        ensures
            final(self).pairs() == tbl_insert(old(self).pairs(), name@, value@),
    {
        proof {
            lemma_key_ix_bounds(self.pairs(), name@, 0);
        }
        match self.find_key(name.as_str()) {
            Some(ix) => {
                let _prior = self.entries.remove(ix);
                self.entries.insert(ix, (name, value));
                proof {
                    assert(self.pairs() =~= tbl_insert(old(self).pairs(), name@, value@));
                }
            },
            None => {
                self.entries.push((name, value));
                proof {
                    assert(self.pairs() =~= tbl_insert(old(self).pairs(), name@, value@));
                }
            },
        }
    }

    /// Unbinds a name; a table without the name is left unchanged.
    pub fn remove_key(&mut self, name: &str)
        ensures
            final(self).pairs() == tbl_remove(old(self).pairs(), name@),
    {
        proof {
            lemma_key_ix_bounds(self.pairs(), name@, 0);
        }
        match self.find_key(name) {
            Some(ix) => {
                let _prior = self.entries.remove(ix);
                proof {
                    assert(self.pairs() =~= tbl_remove(old(self).pairs(), name@));
                }
            },
            None => {},
        }
    }
}

} // verus!
