//! A source set: a flat, read-only collection of named files. It is built
//! once, as a list of name/text pairs; a name given twice keeps its latest
//! text, as with repeated map insertion.

use vstd::prelude::*;
use crate::table::{pair_view, seq_pair_view};
use crate::text::str_eq_str;

verus! {

/// The index of the last entry with key `n`, or `-1`.
pub open spec fn last_ix(s: Seq<(Seq<char>, Seq<char>)>, n: Seq<char>) -> int
    decreases s.len(),
{
    if s.len() == 0 {
        -1
    } else if s[s.len() - 1].0 == n {
        s.len() - 1
    } else {
        last_ix(s.drop_last(), n)
    }
}

/// The pairs read as a map, later entries overwriting earlier ones.
pub open spec fn pairs_map(s: Seq<(Seq<char>, Seq<char>)>) -> Map<Seq<char>, Seq<char>>
    decreases s.len(),
{
    if s.len() == 0 {
        Map::empty()
    } else {
        pairs_map(s.drop_last()).insert(s[s.len() - 1].0, s[s.len() - 1].1)
    }
}

/// The map holds a key exactly when some entry names it, and maps it to the
/// last such entry's value.
pub proof fn lemma_pairs_map(s: Seq<(Seq<char>, Seq<char>)>, n: Seq<char>)
    ensures
        pairs_map(s).contains_key(n) <==> last_ix(s, n) != -1,
        last_ix(s, n) != -1 ==> 0 <= last_ix(s, n) < s.len() && s[last_ix(s, n)].0 == n
            && pairs_map(s)[n] == s[last_ix(s, n)].1,
    decreases s.len(),
{
    if s.len() > 0 && s[s.len() - 1].0 != n {
        lemma_pairs_map(s.drop_last(), n);
    }
}

/// Entries at or past `i` never name `n`, so the last entry naming `n` lies
/// in the prefix before `i`.
pub proof fn lemma_last_ix_prefix(s: Seq<(Seq<char>, Seq<char>)>, n: Seq<char>, i: int)
    requires
        0 <= i <= s.len(),
        forall|j: int| i <= j < s.len() ==> (#[trigger] s[j]).0 != n,
    ensures
        last_ix(s, n) == last_ix(s.take(i), n),
    decreases s.len(),
{
    if i == s.len() {
        assert(s.take(i) =~= s);
    } else {
        assert(s[s.len() - 1].0 != n);
        assert(forall|j: int| i <= j < s.drop_last().len() ==> (#[trigger] s.drop_last()[j]).0
            != n);
        lemma_last_ix_prefix(s.drop_last(), n, i);
        assert(s.drop_last().take(i) =~= s.take(i));
    }
}

/// A read-only set of named source files.
#[derive(Debug, Clone)]
pub struct CodeSource {
    pub files: Vec<(String, String)>,
}

impl CodeSource {
    /// The file entries, in the order given.
    pub open spec fn files_view(self) -> Seq<(Seq<char>, Seq<char>)> {
        seq_pair_view(self.files@)
    }

    /// The files as a map from name to text, last entry winning.
    pub open spec fn files_map(self) -> Map<Seq<char>, Seq<char>> {
        pairs_map(self.files_view())
    }

    /// Builds a source set from name/text pairs; a repeated name keeps the
    /// latest text.
    pub fn new(sources: Vec<(String, String)>) -> (r: Self)
        ensures
            r.files_view() == seq_pair_view(sources@),
            r.files_map() == pairs_map(seq_pair_view(sources@)),
    {
        CodeSource { files: sources }
    }

    /// The text of the named file, when the set holds it.
    pub fn lookup(&self, name: &str) -> (r: Option<&String>)
        ensures
            match r {
                Some(t) => self.files_map().contains_key(name@) && t@ == self.files_map()[name@],
                None => !self.files_map().contains_key(name@),
            },
    {
        let ghost views = self.files_view();
        let mut i: usize = self.files.len();
        while i > 0
            invariant
                i <= self.files@.len(),
                views == self.files_view(),
                forall|j: int| i <= j < views.len() ==> (#[trigger] views[j]).0 != name@,
            decreases i,
        {
            i = i - 1;
            if str_eq_str(self.files[i].0.as_str(), name) {
                proof {
                    lemma_last_ix_prefix(views, name@, i + 1);
                    assert(views.take(i + 1)[i as int].0 == name@);
                    assert(last_ix(views.take(i + 1), name@) == i);
                    lemma_pairs_map(views, name@);
                }
                return Some(&self.files[i].1);
            }
        }
        proof {
            lemma_last_ix_prefix(views, name@, 0);
            assert(views.take(0) =~= Seq::<(Seq<char>, Seq<char>)>::empty());
            lemma_pairs_map(views, name@);
        }
        None
    }

    /// The text of the named file, which the set must hold.
    pub fn get_source(&self, name: String) -> (r: &String)
        requires
            self.files_map().contains_key(name@),
        ensures
            r@ == self.files_map()[name@],
    {
        match self.lookup(name.as_str()) {
            Some(t) => t,
            None => unreached(),
        }
    }
}

} // verus!
