//! The header resolver, and the fallback name taken from a file's name.
//!
//! The first line of a file names the columns.  Its first field belongs to
//! the timestamp column and never becomes a series name; every further
//! field names one data column, an empty name being replaced by the file's
//! fallback name.  Resolved names need not be unique: columns that resolve
//! to the same name later accumulate into the same series, in column order.

use vstd::prelude::*;

use crate::errors::ParseError;
use crate::text::{scan_for, scan_pos};
use crate::tokenizer::{has_field, next_field, next_field_at};

verus! {

/// The views of a sequence of strings, element for element.
pub open spec fn str_models(s: Seq<String>) -> Seq<Seq<char>> {
    s.map_values(|x: String| x@)
}

/// All fields of `line` from position `cursor` on, in order.
pub open spec fn spec_fields_from(line: Seq<char>, cursor: int) -> Seq<Seq<char>>
    decreases line.len() + 1 - cursor,
    via spec_fields_from_dec
{
    if !has_field(line, cursor) {
        Seq::empty()
    } else {
        seq![next_field_at(line, cursor).0] + spec_fields_from(line, next_field_at(line, cursor).1)
    }
}

#[via_fn]
proof fn spec_fields_from_dec(line: Seq<char>, cursor: int) {
    if has_field(line, cursor) {
        crate::tokenizer::lemma_field_end_bounds(line, cursor);
    }
}

/// All fields of `line`: one per separator, plus one.
pub open spec fn spec_fields(line: Seq<char>) -> Seq<Seq<char>> {
    spec_fields_from(line, 0)
}

/// The series names resolved from the raw header fields `names` and the
/// file's fallback name: the first field is dropped as the timestamp
/// column, and every empty remaining field is replaced by the fallback.
pub open spec fn spec_resolve(names: Seq<Seq<char>>, fallback: Seq<char>) -> Seq<Seq<char>> {
    if names.len() == 0 {
        Seq::empty()
    } else {
        names.drop_first().map_values(
            |n: Seq<char>|
                if n.len() == 0 {
                    fallback
                } else {
                    n
                },
        )
    }
}

/// Splits the file's first line into raw column names and appends them to
/// `names`.  Fails, appending nothing, exactly when the line holds no field
/// at all (the empty line).
pub fn parse_header_line(line: &str, names: &mut Vec<String>) -> (r: Result<bool, ParseError>)
    requires
        line@.len() < usize::MAX,
    ensures
        r is Ok <==> has_field(line@, 0),
        r is Ok ==> str_models(final(names)@) == str_models(old(names)@) + spec_fields(line@),
        r is Err ==> final(names)@ == old(names)@ && r->Err_0 is HeaderUnparseable,
{
    let mut cursor: usize = 0;
    let mut first = true;
    loop
        invariant
            line@.len() < usize::MAX,
            cursor <= line@.len() + 1,
            first ==> cursor == 0 && names@ == old(names)@,
            !first ==> str_models(old(names)@) + spec_fields(line@) == str_models(names@)
                + spec_fields_from(line@, cursor as int),
            !first ==> has_field(line@, 0),
        ensures
            has_field(line@, 0) <==> !first,
            !first ==> str_models(old(names)@) + spec_fields(line@) == str_models(names@),
            first ==> names@ == old(names)@,
        decreases line@.len() + 1 - cursor,
    {
        if cursor > line.unicode_len() {
            proof {
                assert(spec_fields_from(line@, cursor as int) == Seq::<Seq<char>>::empty());
                if !first {
                    assert(str_models(old(names)@) + spec_fields(line@) =~= str_models(names@));
                }
            }
            break;
        }
        match next_field(line, cursor) {
            Ok((field, next)) => {
                proof {
                    assert(spec_fields_from(line@, cursor as int) == seq![
                        next_field_at(line@, cursor as int).0,
                    ] + spec_fields_from(line@, next_field_at(line@, cursor as int).1));
                }
                let ghost before = names@;
                names.push(field);
                proof {
                    assert(str_models(names@) =~= str_models(before) + seq![
                        next_field_at(line@, cursor as int).0,
                    ]);
                    assert(str_models(old(names)@) + spec_fields(line@) =~= str_models(names@)
                        + spec_fields_from(line@, next as int));
                }
                cursor = next;
                first = false;
            },
            Err(_) => {
                proof {
                    assert(spec_fields_from(line@, cursor as int) == Seq::<Seq<char>>::empty());
                    if !first {
                        assert(str_models(old(names)@) + spec_fields(line@) =~= str_models(
                            names@,
                        ));
                    }
                }
                break;
            },
        }
    }
    if first {
        Err(ParseError::HeaderUnparseable)
    } else {
        Ok(true)
    }
}

/// Resolves raw header fields into the series names of the data columns,
/// replacing each empty name by `fallback` and dropping the first field.
pub fn resolve_names(names: &Vec<String>, fallback: &str) -> (r: Vec<String>)
    ensures
        str_models(r@) == spec_resolve(str_models(names@), fallback@),
{
    let mut out: Vec<String> = Vec::new();
    if names.len() == 0 {
        proof {
            assert(str_models(out@) =~= spec_resolve(str_models(names@), fallback@));
        }
        return out;
    }
    let mut i: usize = 1;
    while i < names.len()
        invariant
            1 <= i <= names@.len(),
            str_models(out@) =~= spec_resolve(str_models(names@), fallback@).take(i - 1),
        decreases names@.len() - i,
    {
        let ghost before = out@;
        let name = &names[i];
        if name.unicode_len() == 0 {
            out.push(String::from_str(fallback));
        } else {
            out.push(name.clone());
        }
        proof {
            let resolved = spec_resolve(str_models(names@), fallback@);
            assert(str_models(names@).drop_first()[i - 1] == str_models(names@)[i as int]);
            assert(resolved[i - 1] == (if names@[i as int]@.len() == 0 {
                fallback@
            } else {
                names@[i as int]@
            }));
            assert(str_models(out@) =~= str_models(before).push(resolved[i - 1]));
            assert(str_models(out@) =~= resolved.take(i as int));
        }
        i = i + 1;
    }
    proof {
        assert(spec_resolve(str_models(names@), fallback@).take(i - 1) =~= spec_resolve(
            str_models(names@),
            fallback@,
        ));
        assert(str_models(out@) == spec_resolve(str_models(names@), fallback@));
    }
    out
}

/// The fallback series name taken from a file's base name: the text before
/// the first `.` or `_`, or the whole name if neither occurs.
pub open spec fn spec_fallback_name(file_name: Seq<char>) -> Seq<char> {
    file_name.take(scan_for(file_name, 0, file_name.len() as int, '.', '_'))
}

/// Derives the fallback series name from a file's base name by truncating
/// it at the first `.` or `_`.
pub fn extract_fallback_name(file_name: &str) -> (r: String)
    ensures
        r@ == spec_fallback_name(file_name@),
{
    let n = file_name.unicode_len();
    let cut = scan_pos(file_name, 0, n, '.', '_');
    proof {
        assert(file_name@.subrange(0, cut as int) =~= spec_fallback_name(file_name@));
    }
    String::from_str(file_name.substring_char(0, cut))
}

} // verus!
