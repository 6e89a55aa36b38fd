//! Stable sorting of one series by ascending timestamp.
//!
//! The sort is an insertion sort whose specification,
//! [`spec_sort_entries`], is stable by construction: a newly inserted entry
//! goes after every entry whose timestamp is less than or equal to its own,
//! so entries with equal timestamps keep their original relative order.

use vstd::prelude::*;

use crate::entry::{entry_models, Entry, EntryModel};

verus! {

/// The entries of `s` are in ascending timestamp order.
pub open spec fn sorted_by_ts(s: Seq<EntryModel>) -> bool {
    forall|i: int, j: int| 0 <= i <= j < s.len() ==> s[i].timestamp <= s[j].timestamp
}

/// `e` inserted into `s` after every entry whose timestamp is at most
/// `e.timestamp`.
pub open spec fn spec_insert_entry(s: Seq<EntryModel>, e: EntryModel) -> Seq<EntryModel>
    decreases s.len(),
{
    if s.len() == 0 {
        seq![e]
    } else if s.last().timestamp <= e.timestamp {
        s.push(e)
    } else {
        spec_insert_entry(s.drop_last(), e).push(s.last())
    }
}

/// `s` stably sorted by ascending timestamp.
pub open spec fn spec_sort_entries(s: Seq<EntryModel>) -> Seq<EntryModel>
    decreases s.len(),
{
    if s.len() == 0 {
        Seq::empty()
    } else {
        spec_insert_entry(spec_sort_entries(s.drop_last()), s.last())
    }
}

proof fn lemma_insert_entry_elems(s: Seq<EntryModel>, e: EntryModel)
    ensures
        spec_insert_entry(s, e).len() == s.len() + 1,
        forall|i: int|
            0 <= i < spec_insert_entry(s, e).len() ==> (spec_insert_entry(s, e)[i] == e
                || s.contains(spec_insert_entry(s, e)[i])),
    decreases s.len(),
{
    if s.len() == 0 {
    } else if s.last().timestamp <= e.timestamp {
    } else {
        lemma_insert_entry_elems(s.drop_last(), e);
        assert forall|i: int| 0 <= i < spec_insert_entry(s, e).len() implies (spec_insert_entry(
            s,
            e,
        )[i] == e || s.contains(spec_insert_entry(s, e)[i])) by {
            let t = spec_insert_entry(s.drop_last(), e).push(s.last());
            if i == t.len() - 1 {
                assert(s.contains(s.last()));
            } else {
                if spec_insert_entry(s.drop_last(), e)[i] != e {
                    let j = choose|j: int|
                        0 <= j < s.drop_last().len() && s.drop_last()[j] == spec_insert_entry(
                            s.drop_last(),
                            e,
                        )[i];
                    assert(s[j] == spec_insert_entry(s, e)[i]);
                }
            }
        }
    }
}

/// Inserting into a sorted sequence keeps it sorted.
proof fn lemma_insert_entry_sorted(s: Seq<EntryModel>, e: EntryModel)
    requires
        sorted_by_ts(s),
    ensures
        sorted_by_ts(spec_insert_entry(s, e)),
    decreases s.len(),
{
    if s.len() == 0 {
    } else if s.last().timestamp <= e.timestamp {
        assert forall|i: int, j: int|
            0 <= i <= j < s.push(e).len() implies s.push(e)[i].timestamp
            <= s.push(e)[j].timestamp by {
            if j == s.len() && i < j {
                assert(s[i].timestamp <= s.last().timestamp);
            }
        }
    } else {
        assert(sorted_by_ts(s.drop_last()));
        lemma_insert_entry_sorted(s.drop_last(), e);
        lemma_insert_entry_elems(s.drop_last(), e);
        let t = spec_insert_entry(s.drop_last(), e);
        assert forall|i: int| 0 <= i < t.len() implies t[i].timestamp
            <= s.last().timestamp by {
            if t[i] != e {
                let j = choose|j: int|
                    0 <= j < s.drop_last().len() && s.drop_last()[j] == t[i];
                assert(s[j].timestamp <= s.last().timestamp);
            }
        }
        assert forall|i: int, j: int|
            0 <= i <= j < t.push(s.last()).len() implies t.push(s.last())[i].timestamp <= t.push(
            s.last(),
        )[j].timestamp by {}
    }
}

/// The stable sort of any sequence is sorted and keeps its length.
pub proof fn lemma_sort_entries_sorted(s: Seq<EntryModel>)
    ensures
        sorted_by_ts(spec_sort_entries(s)),
        spec_sort_entries(s).len() == s.len(),
    decreases s.len(),
{
    if s.len() > 0 {
        lemma_sort_entries_sorted(s.drop_last());
        lemma_insert_entry_sorted(spec_sort_entries(s.drop_last()), s.last());
        lemma_insert_entry_elems(spec_sort_entries(s.drop_last()), s.last());
    }
}

/// Where the insertion lands: when everything from position `k` on is
/// strictly later than `e` and position `k - 1` (if any) is not,
/// [`spec_insert_entry`] splices `e` in at position `k`.
proof fn lemma_insert_entry_at(s: Seq<EntryModel>, e: EntryModel, k: int)
    requires
        0 <= k <= s.len(),
        forall|j: int| k <= j < s.len() ==> s[j].timestamp > e.timestamp,
        k > 0 ==> s[k - 1].timestamp <= e.timestamp,
    ensures
        spec_insert_entry(s, e) == s.take(k) + seq![e] + s.skip(k),
    decreases s.len(),
{
    if k == s.len() {
        if s.len() == 0 {
            assert(spec_insert_entry(s, e) =~= s.take(k) + seq![e] + s.skip(k));
        } else {
            assert(s.last().timestamp <= e.timestamp);
            assert(spec_insert_entry(s, e) =~= s.take(k) + seq![e] + s.skip(k));
        }
    } else {
        assert(s.last().timestamp > e.timestamp);
        lemma_insert_entry_at(s.drop_last(), e, k);
        assert(spec_insert_entry(s, e) =~= s.take(k) + seq![e] + s.skip(k));
    }
}

proof fn lemma_models_concat(a: Seq<Entry>, b: Seq<Entry>)
    ensures
        entry_models(a + b) =~= entry_models(a) + entry_models(b),
{
}

proof fn lemma_models_subrange(s: Seq<Entry>, a: int, b: int)
    requires
        0 <= a <= b <= s.len(),
    ensures
        entry_models(s.subrange(a, b)) =~= entry_models(s).subrange(a, b),
{
}

/// Sorts `v` stably by ascending timestamp.
pub fn sort_entries(v: &mut Vec<Entry>)
    ensures
        entry_models(final(v)@) == spec_sort_entries(entry_models(old(v)@)),
        sorted_by_ts(entry_models(final(v)@)),
{
    let ghost orig = entry_models(old(v)@);
    if v.len() <= 1 {
        proof {
            if v@.len() == 0 {
                assert(entry_models(v@) =~= spec_sort_entries(orig));
            } else {
                assert(orig.drop_last().len() == 0);
                assert(orig.drop_last() =~= Seq::<EntryModel>::empty());
                assert(spec_sort_entries(orig) == spec_insert_entry(
                    spec_sort_entries(orig.drop_last()),
                    orig.last(),
                ));
                assert(entry_models(v@) =~= spec_sort_entries(orig));
            }
            lemma_sort_entries_sorted(orig);
        }
        return ;
    }
    proof {
        assert(orig.take(1).drop_last() =~= Seq::<EntryModel>::empty());
        assert(orig.take(1).last() == orig[0]);
        assert(spec_sort_entries(Seq::<EntryModel>::empty()) == Seq::<EntryModel>::empty());
        assert(spec_insert_entry(Seq::<EntryModel>::empty(), orig[0]) =~= seq![orig[0]]);
        assert(spec_sort_entries(orig.take(1)) == spec_insert_entry(
            spec_sort_entries(orig.take(1).drop_last()),
            orig.take(1).last(),
        ));
        assert(spec_sort_entries(orig.take(1)) =~= seq![orig[0]]);
        assert(entry_models(v@) =~= spec_sort_entries(orig.take(1)) + orig.skip(1));
    }
    let mut i: usize = 1;
    while i < v.len()
        invariant
            1 <= i <= v@.len(),
            v@.len() == old(v)@.len(),
            entry_models(v@) =~= spec_sort_entries(orig.take(i as int)) + orig.skip(i as int),
            orig == entry_models(old(v)@),
        decreases v@.len() - i,
    {
        proof {
            lemma_sort_entries_sorted(orig.take(i as int));
        }
        let ghost sorted_part = spec_sort_entries(orig.take(i as int));
        let ghost pv = v@;
        let e = v.remove(i);
        proof {
            assert(e@ == entry_models(pv)[i as int]);
            assert(e@ == orig[i as int]) by {
                assert((sorted_part + orig.skip(i as int))[i as int] == orig.skip(i as int)[0]);
            }
            assert(v@ == pv.subrange(0, i as int) + pv.subrange(i + 1, pv.len() as int));
            lemma_models_concat(
                pv.subrange(0, i as int),
                pv.subrange(i + 1, pv.len() as int),
            );
            lemma_models_subrange(pv, 0, i as int);
            lemma_models_subrange(pv, i + 1, pv.len() as int);
            assert(entry_models(pv).subrange(0, i as int) =~= sorted_part);
            assert(entry_models(pv).subrange(i + 1, pv.len() as int) =~= orig.skip(i + 1));
            assert(entry_models(v@) =~= sorted_part + orig.skip(i + 1));
        }
        let mut k: usize = i;
        while k > 0 && v[k - 1].timestamp > e.timestamp
            invariant
                0 <= k <= i,
                i < old(v)@.len(),
                v@.len() == old(v)@.len() - 1,
                entry_models(v@) =~= sorted_part + orig.skip(i + 1),
                sorted_part.len() == i,
                forall|j: int| k <= j < i ==> sorted_part[j].timestamp > e@.timestamp,
            decreases k,
        {
            proof {
                assert(v@[k - 1]@ == entry_models(v@)[k - 1]);
                assert(entry_models(v@)[k - 1] == sorted_part[k - 1]);
            }
            k = k - 1;
        }
        proof {
            if k > 0 {
                assert(v@[k - 1]@ == entry_models(v@)[k - 1]);
                assert(sorted_part[k - 1].timestamp <= e@.timestamp);
            }
            lemma_insert_entry_at(sorted_part, e@, k as int);
        }
        let ghost before_insert = v@;
        v.insert(k, e);
        proof {
            assert(v@ == before_insert.insert(k as int, e));
            assert(v@ =~= before_insert.subrange(0, k as int) + seq![e] + before_insert.subrange(
                k as int,
                before_insert.len() as int,
            ));
            lemma_models_concat(
                before_insert.subrange(0, k as int) + seq![e],
                before_insert.subrange(k as int, before_insert.len() as int),
            );
            lemma_models_concat(before_insert.subrange(0, k as int), seq![e]);
            lemma_models_subrange(before_insert, 0, k as int);
            lemma_models_subrange(before_insert, k as int, before_insert.len() as int);
            assert(entry_models(seq![e]) =~= seq![e@]);
            assert(entry_models(before_insert).subrange(0, k as int) =~= sorted_part.take(
                k as int,
            ));
            assert(entry_models(before_insert).subrange(k as int, before_insert.len() as int)
                =~= sorted_part.skip(k as int) + orig.skip(i + 1));
            assert(orig.take(i + 1).drop_last() =~= orig.take(i as int));
            assert(orig.take(i + 1).last() == orig[i as int]);
            assert(spec_sort_entries(orig.take(i + 1)) == spec_insert_entry(sorted_part, e@));
            assert(entry_models(v@) =~= (sorted_part.take(k as int) + seq![e@] + sorted_part.skip(
                k as int,
            )) + orig.skip(i + 1));
            assert(entry_models(v@) =~= spec_sort_entries(orig.take(i + 1)) + orig.skip(i + 1));
        }
        i = i + 1;
    }
    proof {
        assert(orig.take(i as int) =~= orig);
        assert(orig.skip(i as int) =~= Seq::<EntryModel>::empty());
        assert(entry_models(v@) =~= spec_sort_entries(orig));
        lemma_sort_entries_sorted(orig);
    }
}

} // verus!
