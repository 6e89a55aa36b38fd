//! The file table of multi-file mode: a mapping from file identifier to
//! that file's series table.
//!
//! Re-parsing a file under the same identifier fully replaces its prior
//! table; nothing of the earlier parse survives.

use vstd::prelude::*;

use crate::entry::EntryModel;
use crate::table::SeriesTable;

verus! {

/// The mapping that the pair list denotes.
pub open spec fn file_assoc_view(s: Seq<(String, SeriesTable)>) -> Map<
    Seq<char>,
    Map<Seq<char>, Seq<EntryModel>>,
>
    decreases s.len(),
{
    if s.len() == 0 {
        Map::empty()
    } else {
        file_assoc_view(s.drop_last()).insert(s.last().0@, s.last().1@)
    }
}

/// No two pairs share a file identifier.
pub open spec fn file_keys_unique(s: Seq<(String, SeriesTable)>) -> bool {
    forall|i: int, j: int| 0 <= i < j < s.len() ==> s[i].0@ != s[j].0@
}

proof fn lemma_file_assoc_dom(s: Seq<(String, SeriesTable)>)
    ensures
        forall|k: Seq<char>| #[trigger]
            file_assoc_view(s).dom().contains(k) <==> (exists|i: int|
                0 <= i < s.len() && s[i].0@ == k),
    decreases s.len(),
{
    if s.len() > 0 {
        lemma_file_assoc_dom(s.drop_last());
        assert forall|k: Seq<char>| #[trigger]
            file_assoc_view(s).dom().contains(k) <==> (exists|i: int|
                0 <= i < s.len() && s[i].0@ == k) by {
            assert(file_assoc_view(s) == file_assoc_view(s.drop_last()).insert(
                s.last().0@,
                s.last().1@,
            ));
            if file_assoc_view(s).dom().contains(k) {
                if k == s.last().0@ {
                    assert(s[s.len() - 1].0@ == k);
                } else {
                    assert(file_assoc_view(s.drop_last()).dom().contains(k));
                    let i = choose|i: int| 0 <= i < s.drop_last().len() && s.drop_last()[i].0@ == k;
                    assert(s.drop_last()[i] == s[i]);
                    assert(s[i].0@ == k);
                }
            }
            if exists|i: int| 0 <= i < s.len() && s[i].0@ == k {
                let i = choose|i: int| 0 <= i < s.len() && s[i].0@ == k;
                if i == s.len() - 1 {
                    assert(k == s.last().0@);
                    assert(file_assoc_view(s).dom().contains(k));
                } else {
                    assert(s.drop_last()[i] == s[i]);
                    assert(s.drop_last()[i].0@ == k);
                    assert(file_assoc_view(s.drop_last()).dom().contains(k));
                    assert(file_assoc_view(s).dom().contains(k));
                }
            }
        }
    }
}

proof fn lemma_file_assoc_index(s: Seq<(String, SeriesTable)>, i: int)
    requires
        file_keys_unique(s),
        0 <= i < s.len(),
    ensures
        file_assoc_view(s).dom().contains(s[i].0@),
        file_assoc_view(s)[s[i].0@] == s[i].1@,
    decreases s.len(),
{
    if i == s.len() - 1 {
    } else {
        assert(file_keys_unique(s.drop_last()));
        assert(s.drop_last()[i] == s[i]);
        lemma_file_assoc_index(s.drop_last(), i);
        assert(s[i].0@ != s.last().0@);
    }
}

proof fn lemma_file_assoc_update(s: Seq<(String, SeriesTable)>, i: int, p: (String, SeriesTable))
    requires
        file_keys_unique(s),
        0 <= i < s.len(),
        p.0@ == s[i].0@,
    ensures
        file_assoc_view(s.update(i, p)) == file_assoc_view(s).insert(p.0@, p.1@),
        file_keys_unique(s.update(i, p)),
    decreases s.len(),
{
    let t = s.update(i, p);
    assert(file_keys_unique(t));
    if i == s.len() - 1 {
        assert(t.drop_last() =~= s.drop_last());
        assert(t.last() == p);
        assert(file_assoc_view(t) =~= file_assoc_view(s).insert(p.0@, p.1@));
    } else {
        assert(file_keys_unique(s.drop_last()));
        assert(s.drop_last()[i] == s[i]);
        lemma_file_assoc_update(s.drop_last(), i, p);
        assert(t.drop_last() =~= s.drop_last().update(i, p));
        assert(t.last() == s.last());
        assert(s[i].0@ != s.last().0@);
        assert(file_assoc_view(t) == file_assoc_view(s.drop_last()).insert(p.0@, p.1@).insert(
            s.last().0@,
            s.last().1@,
        ));
        assert(file_assoc_view(t) =~= file_assoc_view(s).insert(p.0@, p.1@));
    }
}

/// A mapping from file identifier to that file's series table.
pub struct FileTable {
    pairs: Vec<(String, SeriesTable)>,
}

impl View for FileTable {
    type V = Map<Seq<char>, Map<Seq<char>, Seq<EntryModel>>>;

    closed spec fn view(&self) -> Map<Seq<char>, Map<Seq<char>, Seq<EntryModel>>> {
        file_assoc_view(self.pairs@)
    }
}

impl FileTable {
    /// Well-formedness: identifiers are unique and every held table is
    /// itself well-formed.
    pub closed spec fn wf(&self) -> bool {
        file_keys_unique(self.pairs@) && (forall|i: int|
            0 <= i < self.pairs@.len() ==> (#[trigger] self.pairs@[i].1).wf())
    }

    /// The empty file table.
    pub fn new() -> (r: FileTable)
        ensures
            r@ == Map::<Seq<char>, Map<Seq<char>, Seq<EntryModel>>>::empty(),
            r.wf(),
    {
        FileTable { pairs: Vec::new() }
    }

    fn find_idx(&self, file_id: &String) -> (r: Option<usize>)
        requires
            self.wf(),
        ensures
            r is Some <==> self@.dom().contains(file_id@),
            r matches Some(i) ==> i < self.pairs@.len() && self.pairs@[i as int].0@ == file_id@,
    {
        proof {
            lemma_file_assoc_dom(self.pairs@);
        }
        let mut i: usize = 0;
        while i < self.pairs.len()
            invariant
                i <= self.pairs@.len(),
                forall|j: int| 0 <= j < i ==> self.pairs@[j].0@ != file_id@,
            decreases self.pairs@.len() - i,
        {
            if self.pairs[i].0 == *file_id {
                proof {
                    lemma_file_assoc_dom(self.pairs@);
                    assert(self.pairs@[i as int].0@ == file_id@);
                    assert(exists|j: int|
                        0 <= j < self.pairs@.len() && self.pairs@[j].0@ == file_id@) by {
                        assert(self.pairs@[i as int].0@ == file_id@);
                    }
                    assert(file_assoc_view(self.pairs@).dom().contains(file_id@));
                }
                return Some(i);
            }
            i = i + 1;
        }
        None
    }

    /// Stores `table` under `file_id`, fully replacing whatever table that
    /// identifier held before.
    pub fn insert(&mut self, file_id: &String, table: SeriesTable)
        requires
            old(self).wf(),
            table.wf(),
        ensures
            final(self).wf(),
            final(self)@ == old(self)@.insert(file_id@, table@),
    {
        let ghost s0 = self.pairs@;
        let ghost tv = table@;
        match self.find_idx(file_id) {
            Some(i) => {
                proof {
                    lemma_file_assoc_update(s0, i as int, (self.pairs@[i as int].0, table));
                }
                let old_pair = self.pairs.remove(i);
                self.pairs.insert(i, (old_pair.0, table));
                proof {
                    assert(self.pairs@ =~= s0.update(i as int, self.pairs@[i as int]));
                    assert(self.pairs@[i as int].0@ == file_id@);
                    assert(self.pairs@[i as int].1@ == tv);
                    lemma_file_assoc_update(s0, i as int, self.pairs@[i as int]);
                }
            },
            None => {
                proof {
                    lemma_file_assoc_dom(s0);
                }
                self.pairs.push((file_id.clone(), table));
                proof {
                    assert(self.pairs@.drop_last() =~= s0);
                    assert(file_keys_unique(self.pairs@)) by {
                        assert(forall|i: int|
                            0 <= i < s0.len() ==> #[trigger] s0[i].0@ != file_id@);
                    }
                }
            },
        }
    }

    /// The series table stored under `file_id`, if any.
    pub fn get(&self, file_id: &String) -> (r: Option<&SeriesTable>)
        requires
            self.wf(),
        ensures
            r is Some <==> self@.dom().contains(file_id@),
            r matches Some(t) ==> t@ == self@[file_id@] && t.wf(),
    {
        match self.find_idx(file_id) {
            Some(i) => {
                proof {
                    lemma_file_assoc_index(self.pairs@, i as int);
                }
                Some(&self.pairs[i].1)
            },
            None => None,
        }
    }

    /// The identifiers of all stored files, in insertion order, each
    /// exactly once.
    pub fn file_ids(&self) -> (r: Vec<String>)
        requires
            self.wf(),
        ensures
            forall|i: int| 0 <= i < r@.len() ==> self@.dom().contains(#[trigger] r@[i]@),
            forall|i: int, j: int| 0 <= i < j < r@.len() ==> r@[i]@ != r@[j]@,
            forall|k: Seq<char>| #[trigger]
                self@.dom().contains(k) ==> exists|i: int| 0 <= i < r@.len() && r@[i]@ == k,
    {
        proof {
            lemma_file_assoc_dom(self.pairs@);
        }
        let mut out: Vec<String> = Vec::new();
        let mut i: usize = 0;
        while i < self.pairs.len()
            invariant
                i <= self.pairs@.len(),
                out@.len() == i,
                forall|j: int| 0 <= j < i ==> #[trigger] out@[j]@ == self.pairs@[j].0@,
                file_keys_unique(self.pairs@),
            decreases self.pairs@.len() - i,
        {
            out.push(self.pairs[i].0.clone());
            i = i + 1;
        }
        proof {
            assert forall|j: int| 0 <= j < out@.len() implies self@.dom().contains(
                #[trigger] out@[j]@,
            ) by {
                lemma_file_assoc_index(self.pairs@, j);
            }
            assert forall|k: Seq<char>| #[trigger] self@.dom().contains(k) implies exists|i: int|
                0 <= i < out@.len() && out@[i]@ == k by {
                let j = choose|j: int| 0 <= j < self.pairs@.len() && self.pairs@[j].0@ == k;
                assert(out@[j]@ == k);
            }
        }
        out
    }
}

} // verus!
