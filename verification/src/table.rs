//! The series table: an insertion-ordered mapping from series name to the
//! entries accumulated for that series.
//!
//! The table is a vector of pairs with unique keys, read through a `Map`
//! view from name to entry models.  It is created empty for one file parse,
//! populated entry by entry, sorted once at the end of parsing, and then
//! handed to the caller as a read-only snapshot.

use vstd::prelude::*;

use crate::entry::{entry_models, Entry, EntryModel};
use crate::sort::{sort_entries, spec_sort_entries};

verus! {

/// The mapping that an association list denotes: later pairs win, though
/// with unique keys every pair is visible.
pub open spec fn assoc_view(s: Seq<(String, Vec<Entry>)>) -> Map<Seq<char>, Seq<EntryModel>>
    decreases s.len(),
{
    if s.len() == 0 {
        Map::empty()
    } else {
        assoc_view(s.drop_last()).insert(s.last().0@, entry_models(s.last().1@))
    }
}

/// No two pairs share a key.
pub open spec fn keys_unique(s: Seq<(String, Vec<Entry>)>) -> bool {
    forall|i: int, j: int| 0 <= i < j < s.len() ==> s[i].0@ != s[j].0@
}

proof fn lemma_assoc_dom(s: Seq<(String, Vec<Entry>)>)
    ensures
        forall|k: Seq<char>| #[trigger]
            assoc_view(s).dom().contains(k) <==> (exists|i: int|
                0 <= i < s.len() && s[i].0@ == k),
    decreases s.len(),
{
    if s.len() > 0 {
        lemma_assoc_dom(s.drop_last());
        assert forall|k: Seq<char>| #[trigger]
            assoc_view(s).dom().contains(k) <==> (exists|i: int|
                0 <= i < s.len() && s[i].0@ == k) by {
            assert(assoc_view(s) == assoc_view(s.drop_last()).insert(
                s.last().0@,
                entry_models(s.last().1@),
            ));
            if assoc_view(s).dom().contains(k) {
                if k == s.last().0@ {
                    assert(s[s.len() - 1].0@ == k);
                } else {
                    assert(assoc_view(s.drop_last()).dom().contains(k));
                    let i = choose|i: int| 0 <= i < s.drop_last().len() && s.drop_last()[i].0@ == k;
                    assert(s.drop_last()[i] == s[i]);
                    assert(s[i].0@ == k);
                }
            }
            if exists|i: int| 0 <= i < s.len() && s[i].0@ == k {
                let i = choose|i: int| 0 <= i < s.len() && s[i].0@ == k;
                if i == s.len() - 1 {
                    assert(k == s.last().0@);
                    assert(assoc_view(s).dom().contains(k));
                } else {
                    assert(s.drop_last()[i] == s[i]);
                    assert(s.drop_last()[i].0@ == k);
                    assert(assoc_view(s.drop_last()).dom().contains(k));
                    assert(assoc_view(s).dom().contains(k));
                }
            }
        }
    }
}

proof fn lemma_assoc_index(s: Seq<(String, Vec<Entry>)>, i: int)
    requires
        keys_unique(s),
        0 <= i < s.len(),
    ensures
        assoc_view(s).dom().contains(s[i].0@),
        assoc_view(s)[s[i].0@] == entry_models(s[i].1@),
    decreases s.len(),
{
    if i == s.len() - 1 {
    } else {
        assert(keys_unique(s.drop_last()));
        assert(s.drop_last()[i] == s[i]);
        lemma_assoc_index(s.drop_last(), i);
        assert(s[i].0@ != s.last().0@);
    }
}

proof fn lemma_assoc_update(s: Seq<(String, Vec<Entry>)>, i: int, p: (String, Vec<Entry>))
    requires
        keys_unique(s),
        0 <= i < s.len(),
        p.0@ == s[i].0@,
    ensures
        assoc_view(s.update(i, p)) == assoc_view(s).insert(p.0@, entry_models(p.1@)),
        keys_unique(s.update(i, p)),
    decreases s.len(),
{
    let t = s.update(i, p);
    assert(keys_unique(t));
    if i == s.len() - 1 {
        assert(t.drop_last() =~= s.drop_last());
        assert(t.last() == p);
        assert(assoc_view(t) =~= assoc_view(s).insert(p.0@, entry_models(p.1@)));
    } else {
        assert(keys_unique(s.drop_last()));
        assert(s.drop_last()[i] == s[i]);
        lemma_assoc_update(s.drop_last(), i, p);
        assert(t.drop_last() =~= s.drop_last().update(i, p));
        assert(t.last() == s.last());
        assert(s[i].0@ != s.last().0@);
        assert(assoc_view(t) == assoc_view(s.drop_last()).insert(
            p.0@,
            entry_models(p.1@),
        ).insert(s.last().0@, entry_models(s.last().1@)));
        assert(assoc_view(t) =~= assoc_view(s).insert(p.0@, entry_models(p.1@)));
    }
}

proof fn lemma_assoc_finite(s: Seq<(String, Vec<Entry>)>)
    requires
        keys_unique(s),
    ensures
        assoc_view(s).dom().finite(),
        assoc_view(s).dom().len() == s.len(),
    decreases s.len(),
{
    if s.len() > 0 {
        assert(keys_unique(s.drop_last()));
        lemma_assoc_finite(s.drop_last());
        lemma_assoc_dom(s.drop_last());
        assert(!assoc_view(s.drop_last()).dom().contains(s.last().0@)) by {
            if assoc_view(s.drop_last()).dom().contains(s.last().0@) {
                let i = choose|i: int|
                    0 <= i < s.drop_last().len() && s.drop_last()[i].0@ == s.last().0@;
                assert(s[i].0@ == s[s.len() - 1].0@);
            }
        }
    }
}

/// A mapping from series name to the ordered entries of that series.
pub struct SeriesTable {
    pairs: Vec<(String, Vec<Entry>)>,
}

impl View for SeriesTable {
    type V = Map<Seq<char>, Seq<EntryModel>>;

    closed spec fn view(&self) -> Map<Seq<char>, Seq<EntryModel>> {
        assoc_view(self.pairs@)
    }
}

impl SeriesTable {
    /// Well-formedness: no two series share a name.  Every table built by
    /// this library is well-formed; methods keep it so.
    pub closed spec fn wf(&self) -> bool {
        keys_unique(self.pairs@)
    }

    /// The empty table.
    pub fn new() -> (r: SeriesTable)
        ensures
            r@ == Map::<Seq<char>, Seq<EntryModel>>::empty(),
            r.wf(),
    {
        SeriesTable { pairs: Vec::new() }
    }

    fn find_idx(&self, name: &String) -> (r: Option<usize>)
        requires
            self.wf(),
        ensures
            r is Some <==> self@.dom().contains(name@),
            r matches Some(i) ==> i < self.pairs@.len() && self.pairs@[i as int].0@ == name@,
    {
        proof {
            lemma_assoc_dom(self.pairs@);
        }
        let mut i: usize = 0;
        while i < self.pairs.len()
            invariant
                i <= self.pairs@.len(),
                forall|j: int| 0 <= j < i ==> self.pairs@[j].0@ != name@,
            decreases self.pairs@.len() - i,
        {
            if self.pairs[i].0 == *name {
                proof {
                    lemma_assoc_dom(self.pairs@);
                    assert(self.pairs@[i as int].0@ == name@);
                    assert(exists|j: int|
                        0 <= j < self.pairs@.len() && self.pairs@[j].0@ == name@) by {
                        assert(self.pairs@[i as int].0@ == name@);
                    }
                    assert(assoc_view(self.pairs@).dom().contains(name@));
                }
                return Some(i);
            }
            i = i + 1;
        }
        None
    }

    /// Whether `name` already names a series.
    pub fn contains(&self, name: &String) -> (r: bool)
        requires
            self.wf(),
        ensures
            r == self@.dom().contains(name@),
    {
        self.find_idx(name).is_some()
    }

    /// Makes sure a series named `name` exists, empty if it is new; an
    /// existing series is left as it is.
    pub fn ensure_series(&mut self, name: &String)
        requires
            old(self).wf(),
        ensures
            final(self).wf(),
            final(self)@ == if old(self)@.dom().contains(name@) {
                old(self)@
            } else {
                old(self)@.insert(name@, Seq::<EntryModel>::empty())
            },
    {
        if self.find_idx(name).is_none() {
            proof {
                lemma_assoc_dom(self.pairs@);
            }
            let ghost before = self.pairs@;
            self.pairs.push((name.clone(), Vec::new()));
            proof {
                assert(self.pairs@.drop_last() =~= before);
                assert(keys_unique(self.pairs@)) by {
                    assert(forall|i: int|
                        0 <= i < before.len() ==> #[trigger] before[i].0@ != name@);
                }
                assert(entry_models(self.pairs@.last().1@) =~= Seq::<EntryModel>::empty());
            }
        }
    }

    /// Appends `e` to the series named `name`, which must exist.
    pub fn append(&mut self, name: &String, e: Entry)
        requires
            old(self).wf(),
            old(self)@.dom().contains(name@),
        ensures
            final(self).wf(),
            final(self)@ == old(self)@.insert(name@, old(self)@[name@].push(e@)),
    {
        let ghost s0 = self.pairs@;
        let idx = match self.find_idx(name) {
            Some(i) => i,
            None => {
                proof {
                    assert(false);
                }
                0
            },
        };
        proof {
            lemma_assoc_index(s0, idx as int);
        }
        let mut pair = self.pairs.remove(idx);
        pair.1.push(e);
        self.pairs.insert(idx, pair);
        proof {
            assert(self.pairs@ =~= s0.update(idx as int, self.pairs@[idx as int]));
            assert(self.pairs@[idx as int].0@ == name@);
            assert(entry_models(self.pairs@[idx as int].1@) =~= entry_models(s0[idx as int].1@)
                .push(e@));
            lemma_assoc_update(s0, idx as int, self.pairs@[idx as int]);
        }
    }

    /// Sorts every series stably by ascending timestamp.
    pub fn sort_all(&mut self)
        requires
            old(self).wf(),
        ensures
            final(self).wf(),
            final(self)@.dom() == old(self)@.dom(),
            forall|k: Seq<char>| #[trigger]
                old(self)@.dom().contains(k) ==> final(self)@[k] == spec_sort_entries(
                    old(self)@[k],
                ),
    {
        let ghost s0 = self.pairs@;
        let mut i: usize = 0;
        while i < self.pairs.len()
            invariant
                i <= self.pairs@.len(),
                self.pairs@.len() == s0.len(),
                keys_unique(s0),
                forall|j: int| 0 <= j < s0.len() ==> #[trigger] self.pairs@[j].0@ == s0[j].0@,
                forall|j: int|
                    0 <= j < i ==> #[trigger] entry_models(self.pairs@[j].1@)
                        == spec_sort_entries(entry_models(s0[j].1@)),
                forall|j: int|
                    i <= j < s0.len() ==> #[trigger] entry_models(self.pairs@[j].1@)
                        == entry_models(s0[j].1@),
            decreases self.pairs@.len() - i,
        {
            let ghost sv = self.pairs@;
            let mut pair = self.pairs.remove(i);
            sort_entries(&mut pair.1);
            self.pairs.insert(i, pair);
            proof {
                assert(self.pairs@ =~= sv.update(i as int, self.pairs@[i as int]));
            }
            i = i + 1;
        }
        proof {
            assert(keys_unique(self.pairs@));
            lemma_assoc_dom(s0);
            lemma_assoc_dom(self.pairs@);
            assert forall|k: Seq<char>|
                assoc_view(self.pairs@).dom().contains(k) <==> assoc_view(s0).dom().contains(
                    k,
                ) by {
                if assoc_view(self.pairs@).dom().contains(k) {
                    let j = choose|j: int|
                        0 <= j < self.pairs@.len() && self.pairs@[j].0@ == k;
                    assert(s0[j].0@ == k);
                    assert(assoc_view(s0).dom().contains(k));
                }
                if assoc_view(s0).dom().contains(k) {
                    let j = choose|j: int| 0 <= j < s0.len() && s0[j].0@ == k;
                    assert(self.pairs@[j].0@ == k);
                    assert(assoc_view(self.pairs@).dom().contains(k));
                }
            }
            assert(assoc_view(self.pairs@).dom() =~= assoc_view(s0).dom());
            assert forall|k: Seq<char>| #[trigger] assoc_view(s0).dom().contains(k) implies
                assoc_view(self.pairs@)[k] == spec_sort_entries(assoc_view(s0)[k]) by {
                let j = choose|j: int| 0 <= j < s0.len() && s0[j].0@ == k;
                lemma_assoc_index(s0, j);
                lemma_assoc_index(self.pairs@, j);
            }
        }
    }

    /// The entries of the series named `name`, if it exists.
    pub fn get(&self, name: &String) -> (r: Option<&Vec<Entry>>)
        requires
            self.wf(),
        ensures
            r is Some <==> self@.dom().contains(name@),
            r matches Some(v) ==> entry_models(v@) == self@[name@],
    {
        match self.find_idx(name) {
            Some(i) => {
                proof {
                    lemma_assoc_index(self.pairs@, i as int);
                }
                Some(&self.pairs[i].1)
            },
            None => None,
        }
    }

    /// How many series the table holds.
    pub fn series_count(&self) -> (r: usize)
        requires
            self.wf(),
        ensures
            r as nat == self@.dom().len(),
    {
        proof {
            lemma_assoc_finite(self.pairs@);
        }
        self.pairs.len()
    }

    /// The names of all series, in insertion order, each exactly once.
    pub fn series_names(&self) -> (r: Vec<String>)
        requires
            self.wf(),
        ensures
            r@.len() as nat == self@.dom().len(),
            forall|i: int| 0 <= i < r@.len() ==> self@.dom().contains(#[trigger] r@[i]@),
            forall|i: int, j: int| 0 <= i < j < r@.len() ==> r@[i]@ != r@[j]@,
            forall|k: Seq<char>| #[trigger]
                self@.dom().contains(k) ==> exists|i: int| 0 <= i < r@.len() && r@[i]@ == k,
    {
        proof {
            lemma_assoc_finite(self.pairs@);
            lemma_assoc_dom(self.pairs@);
        }
        let mut out: Vec<String> = Vec::new();
        let mut i: usize = 0;
        while i < self.pairs.len()
            invariant
                i <= self.pairs@.len(),
                out@.len() == i,
                forall|j: int| 0 <= j < i ==> #[trigger] out@[j]@ == self.pairs@[j].0@,
                keys_unique(self.pairs@),
            decreases self.pairs@.len() - i,
        {
            out.push(self.pairs[i].0.clone());
            i = i + 1;
        }
        proof {
            assert forall|j: int| 0 <= j < out@.len() implies self@.dom().contains(
                #[trigger] out@[j]@,
            ) by {
                lemma_assoc_index(self.pairs@, j);
            }
            assert forall|k: Seq<char>| #[trigger] self@.dom().contains(k) implies exists|i: int|
                0 <= i < out@.len() && out@[i]@ == k by {
                let j = choose|j: int| 0 <= j < self.pairs@.len() && self.pairs@[j].0@ == k;
                assert(out@[j]@ == k);
            }
        }
        out
    }
}

} // verus!
