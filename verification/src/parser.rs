//! The row assembler and the whole-file parse.
//!
//! The first line of a file is resolved into series names; every further
//! line is parsed into one timestamp and one value per column.  A line
//! whose timestamp or any of whose values fails to parse contributes
//! nothing — line failures are line-scoped and never abort the file.
//! Surplus value columns beyond the header's are dropped.  At the end every
//! series is sorted stably by ascending timestamp.

use vstd::prelude::*;

use crate::entry::{entry_models, Entry, EntryModel};
use crate::header::{parse_header_line, resolve_names, spec_fields, spec_resolve, str_models};
use crate::number::{parse_value, spec_value_of};
use crate::sort::{sorted_by_ts, spec_sort_entries};
use crate::table::SeriesTable;
use crate::timestamp::{current_year_string, parse_timestamp, spec_timestamp_of};
use crate::tokenizer::{has_field, next_field, next_field_at};

verus! {

/// The entries that the value fields of `line` from position `cursor` on
/// contribute under timestamp `ts`, and whether a value failed.  The first
/// failure ends the scan; entries gathered before it are reported along
/// with the failure flag, and the caller discards them as a unit.
pub open spec fn spec_values_from(line: Seq<char>, cursor: int, ts: u64) -> (Seq<EntryModel>, bool)
    decreases line.len() + 1 - cursor,
    via spec_values_from_dec
{
    if !has_field(line, cursor) {
        (Seq::empty(), false)
    } else {
        let fc = next_field_at(line, cursor);
        match spec_value_of(fc.0) {
            Some(v) => {
                let rest = spec_values_from(line, fc.1, ts);
                (seq![EntryModel { timestamp: ts, value: v }] + rest.0, rest.1)
            },
            None => (Seq::empty(), true),
        }
    }
}

#[via_fn]
proof fn spec_values_from_dec(line: Seq<char>, cursor: int, ts: u64) {
    if has_field(line, cursor) {
        crate::tokenizer::lemma_field_end_bounds(line, cursor);
    }
}

/// What one data line yields, `year` being the current calendar year's
/// text: the entries of its value fields under the line's single
/// timestamp, and whether the line failed.  A failed line contributes
/// nothing to a table.
pub open spec fn spec_parse_line(line: Seq<char>, year: Seq<char>) -> (Seq<EntryModel>, bool) {
    if !has_field(line, 0) {
        (Seq::<EntryModel>::empty(), true)
    } else {
        let fc = next_field_at(line, 0);
        match spec_timestamp_of(fc.0, year) {
            Some(ms) => spec_values_from(line, fc.1, ms as u64),
            None => (Seq::<EntryModel>::empty(), true),
        }
    }
}

/// Parses one data line: the timestamp from field 0, then one value per
/// remaining field, left to right.  Returns the entries gathered and the
/// line's failure flag; on failure the caller must discard the entries,
/// keeping lines atomic.
pub fn parse_line(line: &str, year: &str) -> (r: (Vec<Entry>, bool))
    requires
        line@.len() < usize::MAX,
    ensures
        entry_models(r.0@) == spec_parse_line(line@, year@).0,
        r.1 == spec_parse_line(line@, year@).1,
{
    let mut entries: Vec<Entry> = Vec::new();
    let first = match next_field(line, 0) {
        Ok(fc) => fc,
        Err(_) => {
            proof {
                assert(entry_models(entries@) =~= spec_parse_line(line@, year@).0);
            }
            return (entries, true);
        },
    };
    let ts = match parse_timestamp(first.0.as_str(), year) {
        Ok(ts) => ts,
        Err(_) => {
            proof {
                assert(entry_models(entries@) =~= spec_parse_line(line@, year@).0);
            }
            return (entries, true);
        },
    };
    let ghost start = first.1 as int;
    let mut cursor = first.1;
    loop
        invariant
            line@.len() < usize::MAX,
            start <= cursor <= line@.len() + 1,
            spec_parse_line(line@, year@) == spec_values_from(line@, start, ts),
            spec_values_from(line@, start, ts).0 == entry_models(entries@) + spec_values_from(
                line@,
                cursor as int,
                ts,
            ).0,
            spec_values_from(line@, start, ts).1 == spec_values_from(line@, cursor as int, ts).1,
        ensures
            entry_models(entries@) == spec_values_from(line@, start, ts).0,
            false == spec_values_from(line@, start, ts).1,
        decreases line@.len() + 1 - cursor,
    {
        if cursor > line.unicode_len() {
            proof {
                assert(!has_field(line@, cursor as int));
                assert(entry_models(entries@) + spec_values_from(line@, cursor as int, ts).0
                    =~= entry_models(entries@));
            }
            break;
        }
        match next_field(line, cursor) {
            Ok((field, next)) => {
                match parse_value(field.as_str()) {
                    Ok(v) => {
                        let ghost vv = v@;
                        let ghost before = entries@;
                        entries.push(Entry { timestamp: ts, value: v });
                        proof {
                            assert(vv == spec_value_of(next_field_at(line@, cursor as int).0)->0);
                            assert(entry_models(entries@) =~= entry_models(before).push(
                                EntryModel { timestamp: ts, value: vv },
                            ));
                            let rest = spec_values_from(line@, next as int, ts);
                            assert(spec_values_from(line@, cursor as int, ts).0 == seq![
                                EntryModel { timestamp: ts, value: vv },
                            ] + rest.0);
                            assert(entry_models(before) + spec_values_from(
                                line@,
                                cursor as int,
                                ts,
                            ).0 =~= entry_models(entries@) + rest.0);
                        }
                        cursor = next;
                    },
                    Err(_) => {
                        proof {
                            assert(spec_values_from(line@, cursor as int, ts).1 == true);
                            assert(entry_models(entries@) + spec_values_from(
                                line@,
                                cursor as int,
                                ts,
                            ).0 =~= entry_models(entries@));
                        }
                        return (entries, true);
                    },
                }
            },
            Err(_) => {
                proof {
                    assert(!has_field(line@, cursor as int));
                    assert(entry_models(entries@) + spec_values_from(line@, cursor as int, ts).0
                        =~= entry_models(entries@));
                }
                break;
            },
        }
    }
    (entries, false)
}

/// `m` with each of `es[j]` (from `j` on) appended to the series named
/// `names[j]`; entries beyond the named columns are dropped.
pub open spec fn spec_apply_entries(
    m: Map<Seq<char>, Seq<EntryModel>>,
    names: Seq<Seq<char>>,
    es: Seq<EntryModel>,
    j: int,
) -> Map<Seq<char>, Seq<EntryModel>>
    decreases es.len() - j,
{
    if j < 0 || j >= es.len() || j >= names.len() {
        m
    } else {
        spec_apply_entries(m.insert(names[j], m[names[j]].push(es[j])), names, es, j + 1)
    }
}

/// `m` after one data line: unchanged when the line failed, otherwise with
/// the line's entries appended column by column.
pub open spec fn spec_apply_line(
    m: Map<Seq<char>, Seq<EntryModel>>,
    names: Seq<Seq<char>>,
    line: Seq<char>,
    year: Seq<char>,
) -> Map<Seq<char>, Seq<EntryModel>> {
    let pl = spec_parse_line(line, year);
    if pl.1 {
        m
    } else {
        spec_apply_entries(m, names, pl.0, 0)
    }
}

/// `m` after all data lines of `lines` from index `i` on.
pub open spec fn spec_accumulate(
    m: Map<Seq<char>, Seq<EntryModel>>,
    names: Seq<Seq<char>>,
    lines: Seq<Seq<char>>,
    year: Seq<char>,
    i: int,
) -> Map<Seq<char>, Seq<EntryModel>>
    decreases lines.len() - i,
{
    if i < 0 || i >= lines.len() {
        m
    } else {
        spec_accumulate(spec_apply_line(m, names, lines[i], year), names, lines, year, i + 1)
    }
}

/// `m` with an empty series added for each of `names[j]` on.
pub open spec fn spec_init_series(
    m: Map<Seq<char>, Seq<EntryModel>>,
    names: Seq<Seq<char>>,
    j: int,
) -> Map<Seq<char>, Seq<EntryModel>>
    decreases names.len() - j,
{
    if j < 0 || j >= names.len() {
        m
    } else {
        spec_init_series(m.insert(names[j], Seq::empty()), names, j + 1)
    }
}

/// The table that one file's lines yield under fallback name `fallback`
/// and current-year text `year`: empty when there is no header line or the
/// header cannot be split; otherwise one series per resolved column name
/// (duplicates merging), filled line by line and finally sorted stably by
/// ascending timestamp.
pub open spec fn spec_parse_file(lines: Seq<Seq<char>>, fallback: Seq<char>, year: Seq<char>) -> Map<
    Seq<char>,
    Seq<EntryModel>,
> {
    if lines.len() == 0 || !has_field(lines[0], 0) {
        Map::empty()
    } else {
        let names = spec_resolve(spec_fields(lines[0]), fallback);
        let m0 = spec_init_series(Map::empty(), names, 0);
        let m1 = spec_accumulate(m0, names, lines, year, 1);
        Map::new(|k: Seq<char>| m1.dom().contains(k), |k: Seq<char>| spec_sort_entries(m1[k]))
    }
}

/// Parses one file's lines into `file_entries` under the given fallback
/// name and current-year text.  Whatever `file_entries` held before is
/// replaced by the file's own table, every series of which is sorted by
/// ascending timestamp.
pub fn parse_file_with_year(
    lines: &Vec<String>,
    fallback_name: &str,
    year: &str,
    file_entries: &mut SeriesTable,
)
    requires
        forall|i: int| 0 <= i < lines@.len() ==> (#[trigger] lines@[i]@).len() < usize::MAX,
    ensures
        final(file_entries).wf(),
        final(file_entries)@ == spec_parse_file(str_models(lines@), fallback_name@, year@),
        forall|k: Seq<char>| #[trigger]
            final(file_entries)@.dom().contains(k) ==> sorted_by_ts(final(file_entries)@[k]),
{
    *file_entries = SeriesTable::new();
    let ghost lm = str_models(lines@);
    if lines.len() == 0 {
        proof {
            assert(file_entries@ =~= spec_parse_file(lm, fallback_name@, year@));
        }
        return ;
    }
    let mut names_raw: Vec<String> = Vec::new();
    if parse_header_line(lines[0].as_str(), &mut names_raw).is_err() {
        proof {
            assert(!has_field(lm[0], 0));
            assert(file_entries@ =~= spec_parse_file(lm, fallback_name@, year@));
        }
        return ;
    }
    let names = resolve_names(&names_raw, fallback_name);
    let ghost nm = str_models(names@);
    proof {
        assert(str_models(names_raw@) =~= spec_fields(lm[0]));
        assert(nm == spec_resolve(spec_fields(lm[0]), fallback_name@));
    }
    let ghost m0_target = spec_init_series(Map::<Seq<char>, Seq<EntryModel>>::empty(), nm, 0);
    let mut j: usize = 0;
    while j < names.len()
        invariant
            j <= names@.len(),
            nm == str_models(names@),
            file_entries.wf(),
            m0_target == spec_init_series(file_entries@, nm, j as int),
            m0_target == spec_init_series(Map::<Seq<char>, Seq<EntryModel>>::empty(), nm, 0),
            forall|k: Seq<char>| #[trigger]
                file_entries@.dom().contains(k) ==> file_entries@[k] == Seq::<
                    EntryModel,
                >::empty(),
            forall|l: int|
                0 <= l < j ==> file_entries@.dom().contains(#[trigger] nm[l]),
        decreases names@.len() - j,
    {
        let ghost before = file_entries@;
        file_entries.ensure_series(&names[j]);
        proof {
            assert(nm[j as int] == names@[j as int]@);
            if before.dom().contains(nm[j as int]) {
                assert(before.insert(nm[j as int], Seq::<EntryModel>::empty()) =~= before);
            }
            assert(file_entries@ == before.insert(nm[j as int], Seq::<EntryModel>::empty()));
            assert(spec_init_series(before, nm, j as int) == spec_init_series(
                file_entries@,
                nm,
                j + 1,
            ));
        }
        j = j + 1;
    }
    proof {
        assert(spec_init_series(file_entries@, nm, names@.len() as int) == file_entries@);
        assert(file_entries@ == m0_target);
    }
    let ghost m1_target = spec_accumulate(m0_target, nm, lm, year@, 1);
    let mut i: usize = 1;
    while i < lines.len()
        invariant
            1 <= i <= lines@.len(),
            lm == str_models(lines@),
            nm == str_models(names@),
            forall|l: int| 0 <= l < lines@.len() ==> (#[trigger] lines@[l]@).len() < usize::MAX,
            file_entries.wf(),
            m1_target == spec_accumulate(file_entries@, nm, lm, year@, i as int),
            forall|l: int|
                0 <= l < nm.len() ==> file_entries@.dom().contains(#[trigger] nm[l]),
        decreases lines@.len() - i,
    {
        let parsed = parse_line(lines[i].as_str(), year);
        let ghost mline = file_entries@;
        if !parsed.1 {
            let entries = parsed.0;
            let ghost es = entry_models(entries@);
            let mut j2: usize = 0;
            while j2 < entries.len() && j2 < names.len()
                invariant
                    j2 <= entries@.len(),
                    nm == str_models(names@),
                    es == entry_models(entries@),
                    file_entries.wf(),
                    spec_apply_entries(mline, nm, es, 0) == spec_apply_entries(
                        file_entries@,
                        nm,
                        es,
                        j2 as int,
                    ),
                    forall|l: int|
                        0 <= l < nm.len() ==> file_entries@.dom().contains(#[trigger] nm[l]),
                decreases entries@.len() - j2,
            {
                let ghost before = file_entries@;
                file_entries.append(&names[j2], entries[j2].clone());
                proof {
                    assert(nm[j2 as int] == names@[j2 as int]@);
                    assert(es[j2 as int] == entries@[j2 as int]@);
                    assert(file_entries@ == before.insert(
                        nm[j2 as int],
                        before[nm[j2 as int]].push(es[j2 as int]),
                    ));
                }
                j2 = j2 + 1;
            }
            proof {
                assert(spec_apply_entries(file_entries@, nm, es, j2 as int) == file_entries@);
                assert(file_entries@ == spec_apply_entries(mline, nm, es, 0));
                assert(spec_parse_line(lm[i as int], year@).0 == es && spec_parse_line(
                    lm[i as int],
                    year@,
                ).1 == false);
                assert(file_entries@ == spec_apply_line(mline, nm, lm[i as int], year@));
            }
        } else {
            proof {
                assert(file_entries@ == spec_apply_line(mline, nm, lm[i as int], year@));
            }
        }
        i = i + 1;
    }
    proof {
        assert(spec_accumulate(file_entries@, nm, lm, year@, lines@.len() as int)
            == file_entries@);
        assert(file_entries@ == m1_target);
    }
    let ghost m1 = file_entries@;
    file_entries.sort_all();
    proof {
        let target = spec_parse_file(lm, fallback_name@, year@);
        assert(target == Map::new(
            |k: Seq<char>| m1_target.dom().contains(k),
            |k: Seq<char>| spec_sort_entries(m1_target[k]),
        ));
        assert(file_entries@ =~= target) by {
            assert(file_entries@.dom() == m1.dom());
            assert(target.dom() =~= m1.dom());
            assert forall|k: Seq<char>| #[trigger] file_entries@.dom().contains(k) implies
                file_entries@[k] == target[k] by {
                assert(file_entries@[k] == spec_sort_entries(m1[k]));
            }
        }
        crate::sort::lemma_sort_entries_sorted(Seq::<EntryModel>::empty());
        assert forall|k: Seq<char>| #[trigger] file_entries@.dom().contains(k) implies
            sorted_by_ts(file_entries@[k]) by {
            assert(file_entries@[k] == spec_sort_entries(m1[k]));
            crate::sort::lemma_sort_entries_sorted(m1[k]);
        }
    }
}

/// Parses one file's lines into `file_entries`, taking the current
/// calendar year from the machine's clock for the last-resort date retry.
/// Whatever the clock said, the result is the file's own table under some
/// current-year text, every series sorted by ascending timestamp.
pub fn parse_file(lines: &Vec<String>, fallback_name: &str, file_entries: &mut SeriesTable)
    requires
        forall|i: int| 0 <= i < lines@.len() ==> (#[trigger] lines@[i]@).len() < usize::MAX,
    ensures
        final(file_entries).wf(),
        exists|year: Seq<char>|
            final(file_entries)@ == spec_parse_file(str_models(lines@), fallback_name@, year),
        forall|k: Seq<char>| #[trigger]
            final(file_entries)@.dom().contains(k) ==> sorted_by_ts(final(file_entries)@[k]),
{
    let year = current_year_string();
    parse_file_with_year(lines, fallback_name, year.as_str(), file_entries);
    proof {
        let y = year@;
        assert(file_entries@ == spec_parse_file(str_models(lines@), fallback_name@, y));
    }
}

} // verus!
