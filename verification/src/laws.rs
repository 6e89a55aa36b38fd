//! Laws of the parsing core, stated and proved over its specification.

use vstd::prelude::*;

use crate::entry::EntryModel;
use crate::parser::{
    spec_accumulate, spec_apply_entries, spec_apply_line, spec_init_series, spec_parse_file,
    spec_parse_line,
};
use crate::sort::{lemma_sort_entries_sorted, sorted_by_ts, spec_sort_entries};
use crate::tokenizer::has_field;

verus! {

/// Parsing the same lines twice yields series whose entry sequences are
/// identical element for element: the result is a function of the lines,
/// the fallback name and the current-year text alone.
pub proof fn lemma_parse_idempotent(
    t1: Map<Seq<char>, Seq<EntryModel>>,
    t2: Map<Seq<char>, Seq<EntryModel>>,
    lines: Seq<Seq<char>>,
    fallback: Seq<char>,
    year: Seq<char>,
)
    requires
        t1 == spec_parse_file(lines, fallback, year),
        t2 == spec_parse_file(lines, fallback, year),
    ensures
        t1.dom() == t2.dom(),
        forall|k: Seq<char>| #[trigger] t1.dom().contains(k) ==> t1[k] == t2[k],
        forall|k: Seq<char>, i: int|
            t1.dom().contains(k) && 0 <= i < t1[k].len() ==> t1[k][i] == t2[k][i],
{
}

/// In every series of a parse result, adjacent entries are in ascending
/// timestamp order.
pub proof fn lemma_result_ordered(lines: Seq<Seq<char>>, fallback: Seq<char>, year: Seq<char>)
    ensures
        forall|k: Seq<char>| #[trigger]
            spec_parse_file(lines, fallback, year).dom().contains(k) ==> sorted_by_ts(
                spec_parse_file(lines, fallback, year)[k],
            ),
{
    let t = spec_parse_file(lines, fallback, year);
    assert forall|k: Seq<char>| #[trigger] t.dom().contains(k) implies sorted_by_ts(t[k]) by {
        if !(lines.len() == 0 || !has_field(lines[0], 0)) {
            let names = crate::header::spec_resolve(
                crate::header::spec_fields(lines[0]),
                fallback,
            );
            let m0 = spec_init_series(Map::empty(), names, 0);
            let m1 = spec_accumulate(m0, names, lines, year, 1);
            assert(t[k] == spec_sort_entries(m1[k]));
            lemma_sort_entries_sorted(m1[k]);
        }
    }
}

/// The entries among `es` (from position `j` on) that belong to the column
/// name `k`, in column order.
pub open spec fn entries_for(
    names: Seq<Seq<char>>,
    es: Seq<EntryModel>,
    k: Seq<char>,
    j: int,
) -> Seq<EntryModel>
    decreases es.len() - j,
{
    if j < 0 || j >= es.len() || j >= names.len() {
        Seq::empty()
    } else if names[j] == k {
        seq![es[j]] + entries_for(names, es, k, j + 1)
    } else {
        entries_for(names, es, k, j + 1)
    }
}

proof fn lemma_apply_entries_dom(
    m: Map<Seq<char>, Seq<EntryModel>>,
    names: Seq<Seq<char>>,
    es: Seq<EntryModel>,
    j: int,
)
    requires
        forall|l: int| 0 <= l < names.len() ==> m.dom().contains(#[trigger] names[l]),
        0 <= j,
    ensures
        spec_apply_entries(m, names, es, j).dom() == m.dom(),
    decreases es.len() - j,
{
    if j >= es.len() || j >= names.len() {
    } else {
        let m2 = m.insert(names[j], m[names[j]].push(es[j]));
        assert(m2.dom() =~= m.dom());
        lemma_apply_entries_dom(m2, names, es, j + 1);
    }
}

proof fn lemma_apply_entries_delta(
    m: Map<Seq<char>, Seq<EntryModel>>,
    names: Seq<Seq<char>>,
    es: Seq<EntryModel>,
    j: int,
    k: Seq<char>,
)
    requires
        forall|l: int| 0 <= l < names.len() ==> m.dom().contains(#[trigger] names[l]),
        m.dom().contains(k),
        0 <= j,
    ensures
        spec_apply_entries(m, names, es, j).dom() == m.dom(),
        spec_apply_entries(m, names, es, j)[k] == m[k] + entries_for(names, es, k, j),
    decreases es.len() - j,
{
    if j >= es.len() || j >= names.len() {
        assert(m[k] + entries_for(names, es, k, j) =~= m[k]);
    } else {
        let m2 = m.insert(names[j], m[names[j]].push(es[j]));
        assert(m2.dom() =~= m.dom());
        lemma_apply_entries_delta(m2, names, es, j + 1, k);
        if names[j] == k {
            assert(m2[k] == m[k].push(es[j]));
            assert(m2[k] + entries_for(names, es, k, j + 1) =~= m[k] + (seq![es[j]]
                + entries_for(names, es, k, j + 1)));
        } else {
            assert(m2[k] == m[k]);
        }
    }
}

/// A data line is atomic.  A failed line (timestamp or any value failing)
/// leaves the table exactly as it was: none of the entries gathered before
/// the failure survive.  A successful line appends to each series exactly
/// the entries of the columns carrying its name, in column order, and
/// touches no other series.
pub proof fn lemma_line_atomic(
    m: Map<Seq<char>, Seq<EntryModel>>,
    names: Seq<Seq<char>>,
    line: Seq<char>,
    year: Seq<char>,
)
    requires
        forall|l: int| 0 <= l < names.len() ==> m.dom().contains(#[trigger] names[l]),
    ensures
        spec_parse_line(line, year).1 ==> spec_apply_line(m, names, line, year) == m,
        spec_apply_line(m, names, line, year).dom() == m.dom(),
        !spec_parse_line(line, year).1 ==> forall|k: Seq<char>| #[trigger]
            m.dom().contains(k) ==> spec_apply_line(m, names, line, year)[k] == m[k]
                + entries_for(names, spec_parse_line(line, year).0, k, 0),
{
    let pl = spec_parse_line(line, year);
    if !pl.1 {
        assert forall|k: Seq<char>| #[trigger] m.dom().contains(k) implies spec_apply_line(
            m,
            names,
            line,
            year,
        )[k] == m[k] + entries_for(names, pl.0, k, 0) by {
            lemma_apply_entries_delta(m, names, pl.0, 0, k);
        }
        lemma_apply_entries_dom(m, names, pl.0, 0);
    }
}

} // verus!
