//! Character-level helpers for strings: cutting a text at a separator, and
//! replacing every occurrence of a pattern.

use vstd::prelude::*;
use vstd::string::*;

verus! {

/// Length of the longest prefix of `s` that is free of `sep`.
pub open spec fn piece_len(s: Seq<char>, sep: char) -> nat
    decreases s.len(),
{
    if s.len() == 0 || s[0] == sep {
        0
    } else {
        1 + piece_len(s.skip(1), sep)
    }
}

/// The pieces of `s` between occurrences of `sep`, in order.
///
/// There is always at least one piece; a separator at either end, or two
/// in a row, give an empty piece.
pub open spec fn split_spec(s: Seq<char>, sep: char) -> Seq<Seq<char>>
    decreases s.len(),
{
    let n = piece_len(s, sep) as int;
    if n >= s.len() {
        seq![s]
    } else {
        seq![s.take(n)] + split_spec(s.skip(n + 1), sep)
    }
}

/// `sep` does not occur in `s`.
pub open spec fn free_of(s: Seq<char>, sep: char) -> bool {
    forall|i: int| 0 <= i < s.len() ==> s[i] != sep
}

/// The pieces joined again, with `sep` between neighbours.
pub open spec fn join_spec(pieces: Seq<Seq<char>>, sep: char) -> Seq<char>
    decreases pieces.len(),
{
    if pieces.len() == 0 {
        Seq::empty()
    } else if pieces.len() == 1 {
        pieces[0]
    } else {
        pieces[0] + seq![sep] + join_spec(pieces.skip(1), sep)
    }
}

/// The first piece ends within the text, holds no separator, and is
/// followed by one unless the text ends there.
pub proof fn lemma_piece_len_bounds(s: Seq<char>, sep: char)
    ensures
        piece_len(s, sep) <= s.len(),
        free_of(s.take(piece_len(s, sep) as int), sep),
        piece_len(s, sep) < s.len() ==> s[piece_len(s, sep) as int] == sep,
    decreases s.len(),
{
    if s.len() == 0 || s[0] == sep {
    } else {
        let rest = s.skip(1);
        lemma_piece_len_bounds(rest, sep);
        let n = piece_len(rest, sep) as int;
        let first = s.take(n + 1);
        assert forall|i: int| 0 <= i < first.len() implies first[i] != sep by {
            if i > 0 {
                assert(rest.take(n)[i - 1] == s[i]);
            }
        }
    }
}

/// A prefix free of `sep` that is followed by `sep`, or by the end of the
/// text, is the first piece.
pub proof fn lemma_piece_len_is(s: Seq<char>, sep: char, n: int)
    requires
        0 <= n <= s.len(),
        free_of(s.take(n), sep),
        n < s.len() ==> s[n] == sep,
    ensures
        piece_len(s, sep) == n,
    decreases s.len(),
{
    if n == 0 {
    } else {
        assert(s.take(n)[0] == s[0]);
        let rest = s.skip(1);
        let first = rest.take(n - 1);
        assert forall|i: int| 0 <= i < first.len() implies first[i] != sep by {
            assert(s.take(n)[i + 1] == rest[i]);
        }
        lemma_piece_len_is(rest, sep, n - 1);
    }
}

/// Every piece is free of the separator.
pub open spec fn pieces_free_of(pieces: Seq<Seq<char>>, sep: char) -> bool {
    forall|k: int| 0 <= k < pieces.len() ==> free_of(#[trigger] pieces[k], sep)
}

/// Cutting a text gives at least one piece, no piece holds the separator,
/// and the pieces joined by the separator are the text again.
pub proof fn lemma_split_then_join(s: Seq<char>, sep: char)
    ensures
        split_spec(s, sep).len() >= 1,
        pieces_free_of(split_spec(s, sep), sep),
        join_spec(split_spec(s, sep), sep) == s,
    decreases s.len(),
{
    let n = piece_len(s, sep) as int;
    lemma_piece_len_bounds(s, sep);
    if n >= s.len() {
        assert(s.take(n) == s);
    } else {
        let rest = s.skip(n + 1);
        lemma_split_then_join(rest, sep);
        let pieces = split_spec(s, sep);
        let later = split_spec(rest, sep);
        assert(pieces.skip(1) == later);
    }
}

/// Pieces that are free of the separator come back when their joining is cut.
pub proof fn lemma_join_then_split(pieces: Seq<Seq<char>>, sep: char)
    requires
        pieces.len() >= 1,
        pieces_free_of(pieces, sep),
    ensures
        split_spec(join_spec(pieces, sep), sep) == pieces,
    decreases pieces.len(),
{
    let s = join_spec(pieces, sep);
    let first = pieces[0];
    if pieces.len() == 1 {
        lemma_piece_len_is(s, sep, first.len() as int);
    } else {
        let later = pieces.skip(1);
        lemma_join_then_split(later, sep);
        let rest = join_spec(later, sep);
        assert(s.take(first.len() as int) == first);
        lemma_piece_len_is(s, sep, first.len() as int);
        assert(s.skip(first.len() as int + 1) == rest);
    }
}

/// Copies the characters of `text` into a vector.
pub fn chars_of(text: &str) -> (chars: Vec<char>)
    ensures
        chars@ == text@,
{
    let mut chars: Vec<char> = Vec::new();
    for c in it: text.chars()
        invariant
            it.seq() == text@,
            chars@ == it.seq().take(it.index() as int),
    {
        chars.push(c);
    }
    chars
}

/// Cuts `text` at every occurrence of `sep`.
pub fn split<'a>(text: &'a str, sep: char) -> (pieces: Vec<&'a str>)
    ensures
        pieces.deep_view() == split_spec(text@, sep),
{
    let chars = chars_of(text);
    let n = chars.len();
    let mut pieces: Vec<&'a str> = Vec::new();
    let mut start: usize = 0;
    let mut i: usize = 0;
    assert(text@.skip(0) == text@);
    while i < n
        invariant
            chars@ == text@,
            n == chars@.len(),
            start <= i <= n,
            free_of(text@.subrange(start as int, i as int), sep),
            pieces.deep_view() + split_spec(text@.skip(start as int), sep) == split_spec(
                text@,
                sep,
            ),
        decreases n - i,
    {
        if chars[i] == sep {
            pieces.push(text.substring_char(start, i));
            proof {
                let tail = text@.skip(start as int);
                let len = i - start;
                assert(tail.take(len) == text@.subrange(start as int, i as int));
                lemma_piece_len_is(tail, sep, len);
                assert(tail.skip(len + 1) == text@.skip(i + 1));
            }
            start = i + 1;
        }
        i += 1;
    }
    pieces.push(text.substring_char(start, n));
    proof {
        lemma_piece_len_is(text@.skip(start as int), sep, n - start);
    }
    pieces
}

/// `pattern` stands in `s` at position `i`.
pub open spec fn matches_at(s: Seq<char>, i: int, pattern: Seq<char>) -> bool {
    0 <= i && i + pattern.len() <= s.len() && s.subrange(i, i + pattern.len()) == pattern
}

/// A pattern that is not empty occurs somewhere in `s`.
pub open spec fn occurs_in(s: Seq<char>, pattern: Seq<char>) -> bool {
    pattern.len() > 0 && exists|i: int| matches_at(s, i, pattern)
}

/// `s` with every occurrence of `from` replaced by `to`. Occurrences are
/// found from the left and do not overlap; what was put in is not searched
/// again. An empty pattern occurs nowhere.
pub open spec fn replace_spec(s: Seq<char>, from: Seq<char>, to: Seq<char>) -> Seq<char>
    decreases s.len(),
{
    if from.len() == 0 || s.len() < from.len() {
        s
    } else if matches_at(s, 0, from) {
        to + replace_spec(s.skip(from.len() as int), from, to)
    } else {
        seq![s[0]] + replace_spec(s.skip(1), from, to)
    }
}

/// Replacing a pattern that does not occur changes nothing.
pub proof fn lemma_replace_absent(s: Seq<char>, from: Seq<char>, to: Seq<char>)
    requires
        !occurs_in(s, from),
    ensures
        replace_spec(s, from, to) == s,
    decreases s.len(),
{
    if from.len() == 0 || s.len() < from.len() {
    } else {
        let rest = s.skip(1);
        assert forall|i: int| !matches_at(rest, i, from) by {
            if matches_at(rest, i, from) {
                assert(rest.subrange(i, i + from.len()) == s.subrange(i + 1, i + 1 + from.len()));
                assert(matches_at(s, i + 1, from));
            }
        }
        lemma_replace_absent(rest, from, to);
    }
}

/// No character stands in both `a` and `b`.
pub open spec fn share_no_char(a: Seq<char>, b: Seq<char>) -> bool {
    forall|i: int, j: int| 0 <= i < a.len() && 0 <= j < b.len() ==> a[i] != b[j]
}

/// A start of the result that holds nothing of what is put in was the start
/// of the text already.
proof fn lemma_replace_keeps_start(
    s: Seq<char>,
    from: Seq<char>,
    to: Seq<char>,
    start: Seq<char>,
)
    requires
        to.len() > 0,
        share_no_char(to, start),
        start.is_prefix_of(replace_spec(s, from, to)),
    ensures
        start.is_prefix_of(s),
    decreases start.len(),
{
    let result = replace_spec(s, from, to);
    if start.len() == 0 || from.len() == 0 || s.len() < from.len() {
    } else if matches_at(s, 0, from) {
        assert(start[0] == result[0]);
    } else {
        let rest = replace_spec(s.skip(1), from, to);
        assert(start.skip(1).is_prefix_of(rest));
        lemma_replace_keeps_start(s.skip(1), from, to, start.skip(1));
        assert forall|k: int| 0 <= k < start.len() implies start[k] == s[k] by {
            if k > 0 {
                assert(start.skip(1)[k - 1] == s.skip(1)[k - 1]);
            }
        }
    }
}

/// Where `key` stands in the result and shares no character with what was
/// put in, it stood in the text, and it is not the pattern.
proof fn lemma_replace_occurrence(
    s: Seq<char>,
    from: Seq<char>,
    to: Seq<char>,
    key: Seq<char>,
    i: int,
) -> (j: int)
    requires
        to.len() > 0,
        key.len() > 0,
        share_no_char(to, key),
        matches_at(replace_spec(s, from, to), i, key),
    ensures
        matches_at(s, j, key),
        key != from,
    decreases s.len(),
{
    let result = replace_spec(s, from, to);
    let n = key.len() as int;
    if from.len() == 0 || s.len() < from.len() {
        i
    } else if matches_at(s, 0, from) {
        let m = from.len() as int;
        let rest = replace_spec(s.skip(m), from, to);
        if i < to.len() {
            assert(key[0] == to[i]);
        }
        assert(rest.subrange(i - to.len(), i - to.len() + n) == result.subrange(i, i + n));
        let j = lemma_replace_occurrence(s.skip(m), from, to, key, i - to.len());
        assert(s.skip(m).subrange(j, j + n) == s.subrange(j + m, j + m + n));
        j + m
    } else if i > 0 {
        let rest = replace_spec(s.skip(1), from, to);
        assert(rest.subrange(i - 1, i - 1 + n) == result.subrange(i, i + n));
        let j = lemma_replace_occurrence(s.skip(1), from, to, key, i - 1);
        assert(s.skip(1).subrange(j, j + n) == s.subrange(j + 1, j + 1 + n));
        j + 1
    } else {
        lemma_replace_keeps_start(s, from, to, key);
        0
    }
}

/// Replacing leaves no occurrence of the pattern and makes no occurrence of
/// any other text, as far as these share no character with what is put in.
pub proof fn lemma_replace_occurrences(
    s: Seq<char>,
    from: Seq<char>,
    to: Seq<char>,
    key: Seq<char>,
)
    requires
        to.len() > 0,
        share_no_char(to, key),
    ensures
        occurs_in(replace_spec(s, from, to), key) ==> occurs_in(s, key) && key != from,
{
    let result = replace_spec(s, from, to);
    if occurs_in(result, key) {
        let i = choose|i: int| matches_at(result, i, key);
        let j = lemma_replace_occurrence(s, from, to, key, i);
    }
}

/// Whether `pattern` stands in `text` at position `i`.
fn is_match_at(text: &Vec<char>, i: usize, pattern: &Vec<char>) -> (found: bool)
    requires
        i + pattern@.len() <= text@.len(),
    ensures
        found == matches_at(text@, i as int, pattern@),
{
    let n = text.len();
    let m = pattern.len();
    let mut k: usize = 0;
    while k < m
        invariant
            m == pattern@.len(),
            n == text@.len(),
            i + m <= n,
            k <= m,
            forall|j: int| 0 <= j < k ==> text@[i + j] == pattern@[j],
        decreases m - k,
    {
        if text[i + k] != pattern[k] {
            return false;
        }
        k += 1;
    }
    assert(text@.subrange(i as int, i + m) == pattern@);
    true
}

/// Replaces every occurrence of `from` in `text` by `to`.
pub fn replace_all(text: &str, from: &str, to: &str) -> (out: String)
    ensures
        out@ == replace_spec(text@, from@, to@),
{
    let chars = chars_of(text);
    let pattern = chars_of(from);
    let n = chars.len();
    let m = pattern.len();
    let mut out = String::new();
    if m == 0 || n < m {
        out.append(text);
        return out;
    }
    // The characters from `start` up to `i` are kept as they are, and have
    // not been written yet.
    let mut start: usize = 0;
    let mut i: usize = 0;
    assert(text@.skip(0) == text@);
    while i <= n - m
        invariant
            chars@ == text@,
            pattern@ == from@,
            n == chars@.len(),
            m == pattern@.len(),
            0 < m <= n,
            start <= i <= n,
            out@ + text@.subrange(start as int, i as int) + replace_spec(
                text@.skip(i as int),
                from@,
                to@,
            ) == replace_spec(text@, from@, to@),
        decreases n - i,
    {
        let ghost tail = text@.skip(i as int);
        assert(tail.subrange(0, m as int) == text@.subrange(i as int, i + m));
        if is_match_at(&chars, i, &pattern) {
            out.append(text.substring_char(start, i));
            out.append(to);
            assert(tail.skip(m as int) == text@.skip(i + m));
            i += m;
            start = i;
        } else {
            assert(tail.skip(1) == text@.skip(i + 1));
            i += 1;
        }
    }
    out.append(text.substring_char(start, n));
    assert(text@.subrange(start as int, i as int) + text@.skip(i as int) == text@.subrange(
        start as int,
        n as int,
    ));
    out
}

} // verus!
