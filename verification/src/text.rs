//! Text primitives of the filter grammar: splitting at separators, prefix
//! tests and the order in which paths are kept.
//!
//! Every function is specified over the characters of its arguments.

use vstd::prelude::*;
use vstd::string::*;

verus! {

/// Index of the first occurrence of `c` in `s`, or `s.len()` if there is none.
pub open spec fn first_position(s: Seq<char>, c: char) -> int
    decreases s.len(),
{
    if s.len() == 0 {
        0
    } else if s[0] == c {
        0
    } else {
        1 + first_position(s.drop_first(), c)
    }
}

/// Index of the last occurrence of `c` in `s`, or `-1` if there is none.
pub open spec fn last_position(s: Seq<char>, c: char) -> int
    decreases s.len(),
{
    if s.len() == 0 {
        -1
    } else if s.last() == c {
        s.len() - 1
    } else {
        last_position(s.drop_last(), c)
    }
}

/// The pieces of `s` between occurrences of `sep`. There is always at least
/// one piece; pieces may be empty.
pub open spec fn split_on(s: Seq<char>, sep: char) -> Seq<Seq<char>>
    decreases s.len(),
{
    let i = first_position(s, sep);
    if 0 <= i < s.len() {
        seq![s.subrange(0, i)] + split_on(s.subrange(i + 1, s.len() as int), sep)
    } else {
        seq![s]
    }
}

/// Whether a `::` starts at index `j` of `s`.
pub open spec fn separator_at(s: Seq<char>, j: int) -> bool {
    0 <= j && j + 1 < s.len() && s[j] == ':' && s[j + 1] == ':'
}

/// Index of the first `::` in `s`, or `s.len()` if there is none.
pub open spec fn first_path_separator(s: Seq<char>) -> int
    decreases s.len(),
{
    if s.len() < 2 {
        s.len() as int
    } else if s[0] == ':' && s[1] == ':' {
        0
    } else {
        1 + first_path_separator(s.drop_first())
    }
}

/// The segments of a namespace path: the pieces of `s` between successive
/// `::`, found from the left.
pub open spec fn path_segments(s: Seq<char>) -> Seq<Seq<char>>
    decreases s.len(),
{
    let i = first_path_separator(s);
    if 0 <= i && i + 2 <= s.len() {
        seq![s.subrange(0, i)] + path_segments(s.subrange(i + 2, s.len() as int))
    } else {
        seq![s]
    }
}

/// Dictionary order on texts, character by character; a proper prefix comes
/// before its extensions.
pub open spec fn lex_lt(a: Seq<char>, b: Seq<char>) -> bool
    decreases a.len(),
{
    if b.len() == 0 {
        false
    } else if a.len() == 0 {
        true
    } else if a[0] != b[0] {
        a[0] < b[0]
    } else {
        lex_lt(a.drop_first(), b.drop_first())
    }
}

/// Whether `s` is strictly increasing in dictionary order.
pub open spec fn strictly_sorted(s: Seq<Seq<char>>) -> bool {
    forall|i: int, j: int| 0 <= i < j < s.len() ==> lex_lt(#[trigger] s[i], #[trigger] s[j])
}

/// The first position lies in or just behind the text, holds `c` where it
/// lies in it, and no index before it holds `c`.
pub proof fn lemma_first_position(s: Seq<char>, c: char)
    ensures
        0 <= first_position(s, c) <= s.len(),
        first_position(s, c) < s.len() ==> s[first_position(s, c)] == c,
        forall|j: int| 0 <= j < first_position(s, c) ==> s[j] != c,
    decreases s.len(),
{
    if s.len() > 0 && s[0] != c {
        let t = s.drop_first();
        lemma_first_position(t, c);
        assert forall|j: int| 0 <= j < first_position(s, c) implies s[j] != c by {
            if j > 0 {
                assert(s[j] == t[j - 1]);
            }
        }
    }
}

/// The first position is the only index that holds `c` and has no `c` before it.
pub proof fn lemma_first_position_is(s: Seq<char>, c: char, i: int)
    requires
        0 <= i <= s.len(),
        i < s.len() ==> s[i] == c,
        forall|j: int| 0 <= j < i ==> s[j] != c,
    ensures
        first_position(s, c) == i,
{
    lemma_first_position(s, c);
}

/// The last position lies in or just before the text, holds `c` where it
/// lies in it, and no index behind it holds `c`.
pub proof fn lemma_last_position(s: Seq<char>, c: char)
    ensures
        -1 <= last_position(s, c) < s.len(),
        last_position(s, c) >= 0 ==> s[last_position(s, c)] == c,
        forall|j: int| last_position(s, c) < j < s.len() ==> s[j] != c,
    decreases s.len(),
{
    if s.len() > 0 && s.last() != c {
        let t = s.drop_last();
        lemma_last_position(t, c);
        assert forall|j: int| last_position(s, c) < j < s.len() implies s[j] != c by {
            if j < s.len() - 1 {
                assert(s[j] == t[j]);
            }
        }
    }
}

/// The last position is the only index that holds `c` and has no `c` after it.
pub proof fn lemma_last_position_is(s: Seq<char>, c: char, i: int)
    requires
        -1 <= i < s.len(),
        i >= 0 ==> s[i] == c,
        forall|j: int| i < j < s.len() ==> s[j] != c,
    ensures
        last_position(s, c) == i,
{
    lemma_last_position(s, c);
}

/// The first separator lies in the text, or there is none and its index is
/// the length of the text; no separator starts before it.
pub proof fn lemma_first_path_separator(s: Seq<char>)
    ensures
        0 <= first_path_separator(s) <= s.len(),
        first_path_separator(s) + 2 <= s.len() ==> separator_at(s, first_path_separator(s)),
        first_path_separator(s) + 2 > s.len() ==> first_path_separator(s) == s.len(),
        forall|j: int| 0 <= j < first_path_separator(s) ==> !separator_at(s, j),
    decreases s.len(),
{
    if s.len() >= 2 && !(s[0] == ':' && s[1] == ':') {
        let t = s.drop_first();
        lemma_first_path_separator(t);
        assert forall|j: int| 0 <= j < first_path_separator(s) implies !separator_at(s, j) by {
            if j > 0 && j + 1 < s.len() {
                assert(s[j] == t[j - 1]);
                assert(s[j + 1] == t[j]);
                assert(!separator_at(t, j - 1));
            }
        }
        if first_path_separator(s) + 2 <= s.len() {
            let i = first_path_separator(t);
            assert(s[i + 1] == t[i]);
            assert(s[i + 2] == t[i + 1]);
        }
    }
}

/// The first separator is the only place that holds `::` with none starting before it.
pub proof fn lemma_first_path_separator_is(s: Seq<char>, i: int)
    requires
        0 <= i <= s.len(),
        i < s.len() ==> separator_at(s, i),
        forall|j: int| 0 <= j < i ==> !separator_at(s, j),
    ensures
        first_path_separator(s) == i,
{
    lemma_first_path_separator(s);
}

/// No text comes before itself.
pub proof fn lemma_lex_lt_irreflexive(a: Seq<char>)
    ensures
        !lex_lt(a, a),
    decreases a.len(),
{
    if a.len() > 0 {
        lemma_lex_lt_irreflexive(a.drop_first());
    }
}

/// What comes before a text comes before what that text comes before.
pub proof fn lemma_lex_lt_transitive(a: Seq<char>, b: Seq<char>, c: Seq<char>)
    requires
        lex_lt(a, b),
        lex_lt(b, c),
    ensures
        lex_lt(a, c),
    decreases a.len(),
{
    if a.len() > 0 && a[0] == b[0] && b[0] == c[0] {
        lemma_lex_lt_transitive(a.drop_first(), b.drop_first(), c.drop_first());
    }
}

/// Of two different texts one comes before the other.
pub proof fn lemma_lex_lt_total(a: Seq<char>, b: Seq<char>)
    ensures
        lex_lt(a, b) || lex_lt(b, a) || a == b,
    decreases a.len(),
{
    if a.len() > 0 && b.len() > 0 && a[0] == b[0] {
        lemma_lex_lt_total(a.drop_first(), b.drop_first());
        if a.drop_first() == b.drop_first() {
            assert(a =~= seq![a[0]] + a.drop_first());
            assert(b =~= seq![b[0]] + b.drop_first());
        }
    } else if a.len() == 0 && b.len() == 0 {
        assert(a =~= b);
    }
}

/// Whether two texts hold the same characters.
pub fn same_text(a: &str, b: &str) -> (r: bool)
    ensures
        r == (a@ == b@),
{
    let n = a.unicode_len();
    if n != b.unicode_len() {
        return false;
    }
    let mut i: usize = 0;
    while i < n
        invariant
            0 <= i <= n,
            n == a@.len(),
            n == b@.len(),
            forall|j: int| 0 <= j < i ==> a@[j] == b@[j],
        decreases n - i,
    {
        if a.get_char(i) != b.get_char(i) {
            return false;
        }
        i += 1;
    }
    assert(a@ =~= b@);
    true
}

/// Plain textual prefix test: whether `s` begins with the characters of
/// `prefix`. No notion of path segments is involved.
pub fn starts_with(s: &str, prefix: &str) -> (r: bool)
    ensures
        r == prefix@.is_prefix_of(s@),
{
    let n = prefix.unicode_len();
    if n > s.unicode_len() {
        return false;
    }
    let mut i: usize = 0;
    while i < n
        invariant
            0 <= i <= n,
            n == prefix@.len(),
            n <= s@.len(),
            forall|j: int| 0 <= j < i ==> s@[j] == prefix@[j],
        decreases n - i,
    {
        if s.get_char(i) != prefix.get_char(i) {
            return false;
        }
        i += 1;
    }
    assert(prefix@ =~= s@.subrange(0, n as int));
    true
}

/// Whether `a` comes strictly before `b` in dictionary order.
pub fn text_lt(a: &str, b: &str) -> (r: bool)
    ensures
        r == lex_lt(a@, b@),
{
    let n = a.unicode_len();
    let m = b.unicode_len();
    let mut i: usize = 0;
    assert(a@.skip(0) =~= a@ && b@.skip(0) =~= b@);
    while i < n && i < m
        invariant
            0 <= i <= n,
            i <= m,
            n == a@.len(),
            m == b@.len(),
            lex_lt(a@, b@) == lex_lt(a@.skip(i as int), b@.skip(i as int)),
        decreases n - i,
    {
        let x = a.get_char(i);
        let y = b.get_char(i);
        proof {
            let sa = a@.skip(i as int);
            let sb = b@.skip(i as int);
            assert(sa[0] == x && sb[0] == y);
            assert(sa.drop_first() =~= a@.skip(i + 1));
            assert(sb.drop_first() =~= b@.skip(i + 1));
        }
        if x != y {
            return x < y;
        }
        i += 1;
    }
    proof {
        assert(a@.skip(i as int).len() == n - i);
        assert(b@.skip(i as int).len() == m - i);
    }
    i < m
}

/// Splits `s` at every occurrence of `sep`.
pub fn split(s: &str, sep: char) -> (pieces: Vec<String>)
    ensures
        pieces.deep_view() == split_on(s@, sep),
{
    let n = s.unicode_len();
    let mut pieces: Vec<String> = Vec::new();
    let mut start: usize = 0;
    let mut i: usize = 0;
    assert(s@.subrange(0, n as int) =~= s@);
    assert(pieces.deep_view() + split_on(s@, sep) =~= split_on(s@, sep));
    while i < n
        invariant
            0 <= start <= i <= n,
            n == s@.len(),
            split_on(s@, sep) == pieces.deep_view() + split_on(s@.subrange(start as int, n as int), sep),
            forall|j: int| start <= j < i ==> s@[j] != sep,
        decreases n - i,
    {
        if s.get_char(i) == sep {
            let piece = String::from_str(s.substring_char(start, i));
            proof {
                let rest = s@.subrange(start as int, n as int);
                lemma_first_position_is(rest, sep, i - start);
                assert(rest.subrange(0, i - start) =~= s@.subrange(start as int, i as int));
                assert(rest.subrange(i - start + 1, rest.len() as int) =~= s@.subrange(
                    i + 1,
                    n as int,
                ));
                assert(pieces.deep_view().push(piece@) + split_on(s@.subrange(i + 1, n as int), sep)
                    =~= pieces.deep_view() + split_on(rest, sep));
            }
            let ghost before = pieces.deep_view();
            pieces.push(piece);
            assert(pieces.deep_view() =~= before.push(piece@));
            start = i + 1;
        }
        i += 1;
    }
    let piece = String::from_str(s.substring_char(start, n));
    proof {
        let rest = s@.subrange(start as int, n as int);
        lemma_first_position_is(rest, sep, n - start);
        assert(split_on(rest, sep) =~= seq![rest]);
        assert(pieces.deep_view().push(piece@) =~= pieces.deep_view() + split_on(rest, sep));
    }
    let ghost before = pieces.deep_view();
    pieces.push(piece);
    assert(pieces.deep_view() =~= before.push(piece@));
    pieces
}

/// Splits a namespace path into its segments, at every `::`.
pub fn split_path(s: &str) -> (segments: Vec<String>)
    ensures
        segments.deep_view() == path_segments(s@),
{
    let n = s.unicode_len();
    let mut segments: Vec<String> = Vec::new();
    let mut start: usize = 0;
    let mut i: usize = 0;
    assert(s@.subrange(0, n as int) =~= s@);
    assert(segments.deep_view() + path_segments(s@) =~= path_segments(s@));
    while i < n
        invariant
            0 <= start <= i <= n + 1,
            start <= n,
            n == s@.len(),
            path_segments(s@) == segments.deep_view() + path_segments(
                s@.subrange(start as int, n as int),
            ),
            forall|j: int| start <= j < i ==> !separator_at(s@, j),
        decreases n + 1 - i,
    {
        if i + 1 < n && s.get_char(i) == ':' && s.get_char(i + 1) == ':' {
            let segment = String::from_str(s.substring_char(start, i));
            proof {
                let rest = s@.subrange(start as int, n as int);
                assert forall|j: int| 0 <= j < i - start implies !separator_at(rest, j) by {
                    assert(!separator_at(s@, start + j));
                }
                assert(separator_at(rest, i - start));
                lemma_first_path_separator_is(rest, i - start);
                assert(rest.subrange(0, i - start) =~= s@.subrange(start as int, i as int));
                assert(rest.subrange(i - start + 2, rest.len() as int) =~= s@.subrange(
                    i + 2,
                    n as int,
                ));
                assert(segments.deep_view().push(segment@) + path_segments(
                    s@.subrange(i + 2, n as int),
                ) =~= segments.deep_view() + path_segments(rest));
            }
            let ghost before = segments.deep_view();
            segments.push(segment);
            assert(segments.deep_view() =~= before.push(segment@));
            start = i + 2;
            i += 2;
        } else {
            i += 1;
        }
    }
    let segment = String::from_str(s.substring_char(start, n));
    proof {
        let rest = s@.subrange(start as int, n as int);
        assert forall|j: int| 0 <= j < n - start implies !separator_at(rest, j) by {
            assert(!separator_at(s@, start + j));
        }
        lemma_first_path_separator_is(rest, n - start);
        assert(path_segments(rest) =~= seq![rest]);
        assert(segments.deep_view().push(segment@) =~= segments.deep_view() + path_segments(rest));
    }
    let ghost before = segments.deep_view();
    segments.push(segment);
    assert(segments.deep_view() =~= before.push(segment@));
    segments
}

/// Splits `s` at its last occurrence of `sep`, if it has one, into what
/// stands before and what stands after.
pub fn split_last(s: &str, sep: char) -> (r: Option<(String, String)>)
    ensures
        match r {
            Some((left, right)) => {
                let i = last_position(s@, sep);
                &&& i >= 0
                &&& left@ == s@.subrange(0, i)
                &&& right@ == s@.subrange(i + 1, s@.len() as int)
            },
            None => last_position(s@, sep) < 0,
        },
{
    let n = s.unicode_len();
    let mut i: usize = n;
    while i > 0
        invariant
            0 <= i <= n,
            n == s@.len(),
            forall|j: int| i <= j < n ==> s@[j] != sep,
        decreases i,
    {
        i -= 1;
        if s.get_char(i) == sep {
            proof {
                lemma_last_position_is(s@, sep, i as int);
            }
            let left = String::from_str(s.substring_char(0, i));
            let right = String::from_str(s.substring_char(i + 1, n));
            return Some((left, right));
        }
    }
    proof {
        lemma_last_position_is(s@, sep, -1);
    }
    None
}

} // verus!
