//! Splitting one text line into raw fields.
//!
//! Fields are delimited by a single fixed separator character (a comma).
//! One optional layer of quoting is recognized: a field whose text both
//! begins and ends with a double quote has that pair stripped; nothing else
//! is unescaped.  A line holds one field per separator plus one, so a line
//! ending in a separator ends in an empty field, while a fully empty line
//! holds no field at all.

use vstd::prelude::*;

use crate::errors::ParseError;

verus! {

/// The field separator.
pub open spec fn separator() -> char {
    ','
}

/// The quote character of the single recognized quoting convention.
pub open spec fn quote() -> char {
    '"'
}

/// The index of the separator that ends the field starting at `cursor`, or
/// the line length when no separator follows.
pub open spec fn field_end(line: Seq<char>, cursor: int) -> int
    decreases line.len() - cursor,
{
    if cursor < 0 {
        0
    } else if cursor >= line.len() {
        line.len() as int
    } else if line[cursor] == separator() {
        cursor
    } else {
        field_end(line, cursor + 1)
    }
}

/// `raw` with one wrapping pair of quotes stripped, when both are present.
pub open spec fn unquote(raw: Seq<char>) -> Seq<char> {
    if raw.len() >= 2 && raw[0] == quote() && raw.last() == quote() {
        raw.subrange(1, raw.len() - 1)
    } else {
        raw
    }
}

/// Whether a field starts at `cursor`: either some character remains, or the
/// line ends at `cursor` with a separator just before it (the final, empty
/// field of a line that ends in a separator).
pub open spec fn has_field(line: Seq<char>, cursor: int) -> bool {
    0 <= cursor && (cursor < line.len() || (cursor == line.len() && cursor > 0 && line[cursor
        - 1] == separator()))
}

/// The field starting at `cursor` (quotes stripped) and the cursor just past
/// its trailing separator.  Meaningful only when `has_field` holds.
pub open spec fn next_field_at(line: Seq<char>, cursor: int) -> (Seq<char>, int) {
    let end = field_end(line, cursor);
    (unquote(line.subrange(cursor, end)), end + 1)
}

/// Characterization of [`field_end`]: it stays within the line, nothing
/// before it is a separator, and it points at a separator unless the line
/// is exhausted.
pub proof fn lemma_field_end_bounds(line: Seq<char>, cursor: int)
    requires
        0 <= cursor <= line.len(),
    ensures
        cursor <= field_end(line, cursor) <= line.len(),
        forall|i: int| cursor <= i < field_end(line, cursor) ==> line[i] != separator(),
        field_end(line, cursor) < line.len() ==> line[field_end(line, cursor)] == separator(),
    decreases line.len() - cursor,
{
    if cursor < line.len() && line[cursor] != separator() {
        lemma_field_end_bounds(line, cursor + 1);
    }
}

/// The next raw field of `line` from position `cursor`, and the position
/// just past its trailing separator.  Fails when no field remains (the line
/// is exhausted at `cursor`), which also covers the fully empty line.
pub fn next_field(line: &str, cursor: usize) -> (r: Result<(String, usize), ParseError>)
    requires
        cursor <= line@.len(),
        line@.len() < usize::MAX,
    ensures
        r is Ok <==> has_field(line@, cursor as int),
        r is Err ==> r->Err_0 is EmptyField,
        r matches Ok((field, next)) ==> ({
            &&& field@ == next_field_at(line@, cursor as int).0
            &&& next as int == next_field_at(line@, cursor as int).1
            &&& cursor < next <= line@.len() + 1
        }),
{
    let len = line.unicode_len();
    if cursor >= len {
        if cursor > 0 && cursor == len && line.get_char(cursor - 1) == ',' {
            // the final, empty field of a line that ends in a separator
            proof {
                assert(field_end(line@, cursor as int) == cursor as int);
                assert(line@.subrange(cursor as int, cursor as int) =~= Seq::<char>::empty());
            }
            return Ok((String::new(), cursor + 1));
        }
        return Err(ParseError::EmptyField);
    }
    let mut end: usize = cursor;
    while end < len && line.get_char(end) != ','
        invariant
            cursor <= end <= len,
            len == line@.len(),
            forall|i: int| cursor <= i < end ==> line@[i] != separator(),
        decreases len - end,
    {
        end = end + 1;
    }
    proof {
        lemma_field_end_bounds(line@, cursor as int);
        assert(field_end(line@, cursor as int) == end as int) by {
            if field_end(line@, cursor as int) < end {
                assert(line@[field_end(line@, cursor as int)] == separator());
            }
            if end < len {
                assert(line@[end as int] == separator());
            }
        }
    }
    let raw_len = end - cursor;
    let stripped = raw_len >= 2 && line.get_char(cursor) == '"' && line.get_char(end - 1) == '"';
    let field = if stripped {
        line.substring_char(cursor + 1, end - 1)
    } else {
        line.substring_char(cursor, end)
    };
    proof {
        let raw = line@.subrange(cursor as int, end as int);
        if stripped {
            assert(raw[0] == quote() && raw.last() == quote());
            assert(line@.subrange(cursor + 1, end - 1) =~= raw.subrange(1, raw.len() - 1));
        } else {
            assert(!(raw.len() >= 2 && raw[0] == quote() && raw.last() == quote()));
        }
    }
    Ok((String::from_str(field), end + 1))
}

} // verus!
