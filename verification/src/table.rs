//! The symbol table produced by a successful validation: a mapping from
//! case-normalized identifier names to type descriptors.

use vstd::prelude::*;

use crate::text::str_eq;

verus! {

/// The views of a sequence of name/descriptor entries.
pub open spec fn pairs_of(entries: Seq<(String, String)>) -> Seq<(Seq<char>, Seq<char>)> {
    entries.map_values(|e: (String, String)| (e.0@, e.1@))
}

/// The mapping described by a sequence of entries; a later entry for the same
/// name would win, though a well-formed table never holds one.
pub open spec fn entries_map(s: Seq<(Seq<char>, Seq<char>)>) -> Map<Seq<char>, Seq<char>>
    decreases s.len(),
{
    if s.len() == 0 {
        Map::empty()
    } else {
        entries_map(s.drop_last()).insert(s.last().0, s.last().1)
    }
}

/// No two entries declare the same name.
pub open spec fn keys_distinct(s: Seq<(Seq<char>, Seq<char>)>) -> bool {
    forall|i: int, j: int| 0 <= i < j < s.len() ==> (#[trigger] s[i]).0 != (#[trigger] s[j]).0
}

/// Whether some entry declares the name `k`.
pub open spec fn has_key(s: Seq<(Seq<char>, Seq<char>)>, k: Seq<char>) -> bool {
    exists|i: int| 0 <= i < s.len() && (#[trigger] s[i]).0 == k
}

pub proof fn lemma_entries_map_contains(s: Seq<(Seq<char>, Seq<char>)>, k: Seq<char>)
    ensures
        entries_map(s).contains_key(k) <==> has_key(s, k),
    decreases s.len(),
{
    if s.len() > 0 {
        lemma_entries_map_contains(s.drop_last(), k);
        if has_key(s.drop_last(), k) {
            let i = choose|i: int| 0 <= i < s.drop_last().len() && (#[trigger] s.drop_last()[i]).0
                == k;
            assert((s[i]).0 == k);
        }
        if has_key(s, k) && s.last().0 != k {
            let i = choose|i: int| 0 <= i < s.len() && (#[trigger] s[i]).0 == k;
            assert((s.drop_last()[i]).0 == k);
        }
    }
}

pub proof fn lemma_entries_map_value(s: Seq<(Seq<char>, Seq<char>)>, i: int)
    requires
        keys_distinct(s),
        0 <= i < s.len(),
    ensures
        entries_map(s).contains_key(s[i].0),
        entries_map(s)[s[i].0] == s[i].1,
    decreases s.len(),
{
    if i == s.len() - 1 {
        assert(s.last() == s[i]);
    } else {
        assert(s.drop_last()[i] == s[i]);
        lemma_entries_map_value(s.drop_last(), i);
        assert(s.last().0 != s[i].0);
    }
}

/// A complete, consistent symbol table: every declared name with its resolved
/// type descriptor, each name present exactly once.
#[derive(Debug, Clone, PartialEq, Eq)]
pub struct SymbolTable {
    entries: Vec<(String, String)>,
}

impl View for SymbolTable {
    type V = Map<Seq<char>, Seq<char>>;

    open spec fn view(&self) -> Map<Seq<char>, Seq<char>> {
        entries_map(self.pairs())
    }
}

impl SymbolTable {
    /// The table's entries in the order they were bound.
    pub closed spec fn pairs(&self) -> Seq<(Seq<char>, Seq<char>)> {
        pairs_of(self.entries@)
    }

    /// Every name is declared at most once.
    pub open spec fn wf(&self) -> bool {
        keys_distinct(self.pairs())
    }

    pub(crate) fn from_entries(entries: Vec<(String, String)>) -> (t: SymbolTable)
        ensures
            t.pairs() == pairs_of(entries@),
    {
        SymbolTable { entries }
    }

    /// The number of declared names.
    pub fn len(&self) -> (n: usize)
        ensures
            n as nat == self.pairs().len(),
    {
        self.entries.len()
    }

    /// The type descriptor bound to the (case-normalized) name, if the name
    /// was declared.
    pub fn get(&self, name: &str) -> (r: Option<&String>)
        requires
            self.wf(),
        ensures
            match r {
                Some(d) => self@.contains_key(name@) && d@ == self@[name@],
                None => !self@.contains_key(name@),
            },
    {
        let n = self.entries.len();
        for i in 0..n
            invariant
                n == self.entries@.len(),
                self.wf(),
                forall|j: int| 0 <= j < i ==> (#[trigger] self.pairs()[j]).0 != name@,
        {
            if str_eq(self.entries[i].0.as_str(), name) {
                proof {
                    lemma_entries_map_value(self.pairs(), i as int);
                }
                return Some(&self.entries[i].1);
            }
        }
        proof {
            lemma_entries_map_contains(self.pairs(), name@);
        }
        None
    }

    /// All entries, as name/descriptor pairs in binding order.
    pub fn entries(&self) -> (r: &Vec<(String, String)>)
        ensures
            pairs_of(r@) == self.pairs(),
    {
        &self.entries
    }
}

} // verus!
