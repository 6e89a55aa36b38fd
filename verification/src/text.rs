//! Character classes and whitespace trimming over character sequences.

use vstd::prelude::*;

verus! {

/// The whitespace characters that trimming removes.
pub open spec fn is_ws(c: char) -> bool {
    c == ' ' || c == '\t' || c == '\r' || c == '\n'
}

/// An ASCII decimal digit.
pub open spec fn is_digit(c: char) -> bool {
    '0' <= c && c <= '9'
}

/// `s` with leading whitespace removed.
pub open spec fn trim_front(s: Seq<char>) -> Seq<char>
    decreases s.len(),
{
    if s.len() > 0 && is_ws(s[0]) {
        trim_front(s.drop_first())
    } else {
        s
    }
}

/// `s` with trailing whitespace removed.
pub open spec fn trim_back(s: Seq<char>) -> Seq<char>
    decreases s.len(),
{
    if s.len() > 0 && is_ws(s.last()) {
        trim_back(s.drop_last())
    } else {
        s
    }
}

/// `s` with surrounding whitespace removed.
pub open spec fn trim(s: Seq<char>) -> Seq<char> {
    trim_back(trim_front(s))
}

proof fn lemma_trim_front_skip(s: Seq<char>, k: int)
    requires
        0 <= k <= s.len(),
        forall|i: int| 0 <= i < k ==> is_ws(s[i]),
        k == s.len() || !is_ws(s[k]),
    ensures
        trim_front(s) == s.skip(k),
    decreases k,
{
    if k == 0 {
        assert(s.skip(0) == s);
    } else {
        assert(is_ws(s[0]));
        lemma_trim_front_skip(s.drop_first(), k - 1);
        assert(s.drop_first().skip(k - 1) == s.skip(k));
    }
}

proof fn lemma_trim_back_take(s: Seq<char>, k: int)
    requires
        0 <= k <= s.len(),
        forall|i: int| k <= i < s.len() ==> is_ws(s[i]),
        k == 0 || !is_ws(s[k - 1]),
    ensures
        trim_back(s) == s.take(k),
    decreases s.len() - k,
{
    if k == s.len() {
        assert(s.take(k) == s);
    } else {
        assert(is_ws(s.last()));
        lemma_trim_back_take(s.drop_last(), k);
        assert(s.drop_last().take(k) == s.take(k));
    }
}

/// The first position in `[from, to)` holding `c1` or `c2`, or `to` if none
/// does.
pub open spec fn scan_for(s: Seq<char>, from: int, to: int, c1: char, c2: char) -> int
    decreases to - from,
{
    if !(0 <= from <= to <= s.len()) {
        to
    } else if from == to {
        to
    } else if s[from] == c1 || s[from] == c2 {
        from
    } else {
        scan_for(s, from + 1, to, c1, c2)
    }
}

/// Characterization of [`scan_for`]: it stays within the range, nothing
/// before it matches, and it points at a match unless the range is
/// exhausted.
pub proof fn lemma_scan_for_bounds(s: Seq<char>, from: int, to: int, c1: char, c2: char)
    requires
        0 <= from <= to <= s.len(),
    ensures
        from <= scan_for(s, from, to, c1, c2) <= to,
        forall|i: int|
            from <= i < scan_for(s, from, to, c1, c2) ==> s[i] != c1 && s[i] != c2,
        scan_for(s, from, to, c1, c2) < to ==> (s[scan_for(s, from, to, c1, c2)] == c1 || s[
            scan_for(s, from, to, c1, c2)
        ] == c2),
    decreases to - from,
{
    if from < to && s[from] != c1 && s[from] != c2 {
        lemma_scan_for_bounds(s, from + 1, to, c1, c2);
    }
}

/// The first position in `[from, to)` of `s` holding `c1` or `c2`, or `to`
/// if none does.
pub fn scan_pos(s: &str, from: usize, to: usize, c1: char, c2: char) -> (r: usize)
    requires
        from <= to <= s@.len(),
    ensures
        r as int == scan_for(s@, from as int, to as int, c1, c2),
        from <= r <= to,
{
    let mut i = from;
    while i < to && s.get_char(i) != c1 && s.get_char(i) != c2
        invariant
            from <= i <= to,
            to <= s@.len(),
            forall|j: int| from <= j < i ==> s@[j] != c1 && s@[j] != c2,
        decreases to - i,
    {
        i = i + 1;
    }
    proof {
        lemma_scan_for_bounds(s@, from as int, to as int, c1, c2);
        let sc = scan_for(s@, from as int, to as int, c1, c2);
        if sc < i {
            assert(s@[sc] == c1 || s@[sc] == c2);
        }
        if i < sc {
            assert(s@[i as int] == c1 || s@[i as int] == c2);
        }
    }
    i
}

/// Whether `c` is one of the whitespace characters that trimming removes.
pub fn ws_char(c: char) -> (r: bool)
    ensures
        r == is_ws(c),
{
    c == ' ' || c == '\t' || c == '\r' || c == '\n'
}

/// A copy of `s` with surrounding whitespace removed.
pub fn trimmed(s: &str) -> (r: String)
    ensures
        r@ == trim(s@),
{
    let len = s.unicode_len();
    let mut start: usize = 0;
    while start < len && ws_char(s.get_char(start))
        invariant
            0 <= start <= len,
            len == s@.len(),
            forall|i: int| 0 <= i < start ==> is_ws(s@[i]),
        decreases len - start,
    {
        start = start + 1;
    }
    let mut end: usize = len;
    while end > start && ws_char(s.get_char(end - 1))
        invariant
            start <= end <= len,
            len == s@.len(),
            forall|i: int| 0 <= i < start ==> is_ws(s@[i]),
            forall|i: int| end <= i < len ==> is_ws(s@[i]),
        decreases end,
    {
        end = end - 1;
    }
    proof {
        lemma_trim_front_skip(s@, start as int);
        let t = s@.skip(start as int);
        lemma_trim_back_take(t, end - start);
        assert(t.take(end - start) == s@.subrange(start as int, end as int));
    }
    String::from_str(s.substring_char(start, end))
}

} // verus!
