//! Character-level text primitives.
//!
//! Every record grammar of the crate is stated over `Seq<char>`, the view of a
//! string. The functions here cut, trim, compare, read and render such
//! sequences; each is proved equal to the specification function beside it.

use vstd::prelude::*;
use vstd::slice::{slice_subrange, slice_to_vec};

use crate::bytes::{find_in, lemma_find_in, lemma_find_in_is, occurs_at};

verus! {

/// `String::push` appends the character to the end of the string.
pub assume_specification[ String::push ](s: &mut String, c: char)
    ensures
        final(s)@ == old(s)@.push(c),
;

/// The characters of a string.
pub fn chars_of(s: &str) -> (r: Vec<char>)
    ensures
        r@ == s@,
{
    let mut out: Vec<char> = Vec::new();
    for c in it: s.chars()
        invariant
            it.seq() == s@,
            out@ == s@.take(it.index()),
    {
        proof {
            assert(s@.take(it.index() + 1) =~= s@.take(it.index()).push(c));
        }
        out.push(c);
    }
    assert(s@.take(s@.len() as int) =~= s@);
    out
}

/// The string made of the given characters.
pub fn string_of(s: &[char]) -> (r: String)
    ensures
        r@ == s@,
{
    let mut out = String::new();
    let mut i: usize = 0;
    while i < s.len()
        invariant
            i <= s.len(),
            out@ == s@.take(i as int),
        decreases s.len() - i,
    {
        assert(s@.take(i + 1) =~= s@.take(i as int).push(s@[i as int]));
        out.push(s[i]);
        i = i + 1;
    }
    assert(s@.take(s@.len() as int) =~= s@);
    out
}

/// Whether two character sequences are equal.
pub fn chars_eq(a: &[char], b: &[char]) -> (r: bool)
    ensures
        r == (a@ == b@),
{
    if a.len() != b.len() {
        return false;
    }
    let mut i: usize = 0;
    while i < a.len()
        invariant
            i <= a.len(),
            a@.len() == b@.len(),
            forall|j: int| 0 <= j < i ==> a@[j] == b@[j],
        decreases a.len() - i,
    {
        if a[i] != b[i] {
            return false;
        }
        i = i + 1;
    }
    assert(a@ =~= b@);
    true
}

/// Whether a character sequence is the given string.
pub fn text_eq(a: &[char], b: &str) -> (r: bool)
    ensures
        r == (a@ == b@),
{
    let b = chars_of(b);
    chars_eq(a, b.as_slice())
}

/// Whether two strings are equal.
pub fn str_eq(a: &str, b: &str) -> (r: bool)
    ensures
        r == (a@ == b@),
{
    let a = chars_of(a);
    text_eq(a.as_slice(), b)
}

/// Whether two byte sequences are equal.
pub fn bytes_eq(a: &[u8], b: &[u8]) -> (r: bool)
    ensures
        r == (a@ == b@),
{
    if a.len() != b.len() {
        return false;
    }
    let mut i: usize = 0;
    while i < a.len()
        invariant
            i <= a.len(),
            a@.len() == b@.len(),
            forall|j: int| 0 <= j < i ==> a@[j] == b@[j],
        decreases a.len() - i,
    {
        if a[i] != b[i] {
            return false;
        }
        i = i + 1;
    }
    assert(a@ =~= b@);
    true
}

/// The view of an optional string.
pub open spec fn opt_view(o: Option<String>) -> Option<Seq<char>> {
    match o {
        Some(s) => Some(s@),
        None => None,
    }
}

/// The views of a sequence of character vectors.
pub open spec fn pieces(v: Seq<Vec<char>>) -> Seq<Seq<char>> {
    v.map_values(|x: Vec<char>| x@)
}

/// The views of a sequence of strings.
pub open spec fn texts(v: Seq<String>) -> Seq<Seq<char>> {
    v.map_values(|x: String| x@)
}

/// The views of a sequence of byte vectors.
pub open spec fn blobs(v: Seq<Vec<u8>>) -> Seq<Seq<u8>> {
    v.map_values(|x: Vec<u8>| x@)
}

// ---------------------------------------------------------------------------
// Character classes
// ---------------------------------------------------------------------------

/// The Unicode `White_Space` property.
pub open spec fn white_space(c: char) -> bool {
    let n = c as u32;
    ||| 0x09 <= n <= 0x0d
    ||| n == 0x20
    ||| n == 0x85
    ||| n == 0xa0
    ||| n == 0x1680
    ||| 0x2000 <= n <= 0x200a
    ||| n == 0x2028
    ||| n == 0x2029
    ||| n == 0x202f
    ||| n == 0x205f
    ||| n == 0x3000
}

/// Whether `c` has the Unicode `White_Space` property.
pub fn is_whitespace(c: char) -> (r: bool)
    ensures
        r == white_space(c),
{
    let n = c as u32;
    (0x09 <= n && n <= 0x0d) || n == 0x20 || n == 0x85 || n == 0xa0 || n == 0x1680 || (0x2000 <= n
        && n <= 0x200a) || n == 0x2028 || n == 0x2029 || n == 0x202f || n == 0x205f || n == 0x3000
}

/// An ASCII decimal digit.
pub open spec fn digit(c: char) -> bool {
    '0' <= c && c <= '9'
}

/// An ASCII letter.
pub open spec fn alphabetic(c: char) -> bool {
    ('a' <= c && c <= 'z') || ('A' <= c && c <= 'Z')
}

/// An ASCII letter or decimal digit.
pub open spec fn alphanumeric(c: char) -> bool {
    alphabetic(c) || digit(c)
}

/// Whether `c` is an ASCII decimal digit.
pub fn is_digit(c: char) -> (r: bool)
    ensures
        r == digit(c),
{
    '0' <= c && c <= '9'
}

/// Whether `c` is an ASCII letter.
pub fn is_alphabetic(c: char) -> (r: bool)
    ensures
        r == alphabetic(c),
{
    ('a' <= c && c <= 'z') || ('A' <= c && c <= 'Z')
}

/// Whether `c` is an ASCII letter or decimal digit.
pub fn is_alphanumeric(c: char) -> (r: bool)
    ensures
        r == alphanumeric(c),
{
    is_alphabetic(c) || is_digit(c)
}

// ---------------------------------------------------------------------------
// ASCII case
// ---------------------------------------------------------------------------

/// The ASCII lowercase form of a character; other characters are unchanged.
pub open spec fn lower_char(c: char) -> char {
    if 'A' <= c && c <= 'Z' {
        ((c as u8) + 32) as u8 as char
    } else {
        c
    }
}

/// The text with every ASCII letter in lowercase.
pub open spec fn lowered(s: Seq<char>) -> Seq<char> {
    s.map_values(|c: char| lower_char(c))
}

/// The ASCII lowercase form of a character.
pub fn to_lower_char(c: char) -> (r: char)
    ensures
        r == lower_char(c),
{
    if 'A' <= c && c <= 'Z' {
        (c as u8 + 32) as char
    } else {
        c
    }
}

/// The text with every ASCII letter in lowercase.
pub fn to_lower(s: &[char]) -> (r: Vec<char>)
    ensures
        r@ == lowered(s@),
{
    let mut out: Vec<char> = Vec::new();
    let mut i: usize = 0;
    while i < s.len()
        invariant
            i <= s.len(),
            out@.len() == i,
            forall|j: int| 0 <= j < i ==> out@[j] == lower_char(s@[j]),
        decreases s.len() - i,
    {
        out.push(to_lower_char(s[i]));
        i = i + 1;
    }
    assert(out@ =~= lowered(s@));
    out
}

/// Whether the two texts are equal up to ASCII case.
pub open spec fn same_ignoring_case(a: Seq<char>, b: Seq<char>) -> bool {
    lowered(a) == lowered(b)
}

/// Whether a character sequence equals a string up to ASCII case.
pub fn eq_ignore_case(a: &[char], b: &str) -> (r: bool)
    ensures
        r == same_ignoring_case(a@, b@),
{
    let b = chars_of(b);
    let x = to_lower(a);
    let y = to_lower(b.as_slice());
    chars_eq(x.as_slice(), y.as_slice())
}

// ---------------------------------------------------------------------------
// Trimming
// ---------------------------------------------------------------------------

/// The text without its leading white space.
pub open spec fn trimmed_start(s: Seq<char>) -> Seq<char>
    decreases s.len(),
{
    if s.len() > 0 && white_space(s[0]) {
        trimmed_start(s.drop_first())
    } else {
        s
    }
}

/// The text without its trailing white space.
pub open spec fn trimmed_end(s: Seq<char>) -> Seq<char>
    decreases s.len(),
{
    if s.len() > 0 && white_space(s.last()) {
        trimmed_end(s.drop_last())
    } else {
        s
    }
}

/// The text without its leading and trailing white space.
pub open spec fn trimmed(s: Seq<char>) -> Seq<char> {
    trimmed_end(trimmed_start(s))
}

/// The text without its trailing dots.
pub open spec fn without_trailing_dots(s: Seq<char>) -> Seq<char>
    decreases s.len(),
{
    if s.len() > 0 && s.last() == '.' {
        without_trailing_dots(s.drop_last())
    } else {
        s
    }
}

/// The text without its leading and trailing white space.
pub fn trim(s: &[char]) -> (r: &[char])
    ensures
        r@ == trimmed(s@),
{
    let mut i: usize = 0;
    assert(s@.skip(0) =~= s@);
    while i < s.len() && is_whitespace(s[i])
        invariant
            i <= s.len(),
            trimmed_start(s@) == trimmed_start(s@.skip(i as int)),
        decreases s.len() - i,
    {
        assert(s@.skip(i as int).drop_first() =~= s@.skip(i + 1));
        i = i + 1;
    }
    let ghost t = s@.skip(i as int);
    let mut n: usize = s.len();
    assert(s@.subrange(i as int, n as int) =~= t);
    while n > i && is_whitespace(s[n - 1])
        invariant
            i <= n <= s.len(),
            trimmed_end(t) == trimmed_end(s@.subrange(i as int, n as int)),
        decreases n,
    {
        assert(s@.subrange(i as int, n as int).drop_last() =~= s@.subrange(i as int, n - 1));
        n = n - 1;
    }
    slice_subrange(s, i, n)
}

/// The text without its trailing dots.
pub fn trim_trailing_dots(s: &[char]) -> (r: &[char])
    ensures
        r@ == without_trailing_dots(s@),
{
    let mut n: usize = s.len();
    assert(s@.take(n as int) =~= s@);
    while n > 0 && s[n - 1] == '.'
        invariant
            n <= s.len(),
            without_trailing_dots(s@) == without_trailing_dots(s@.take(n as int)),
        decreases n,
    {
        assert(s@.take(n as int).drop_last() =~= s@.take(n - 1));
        n = n - 1;
    }
    slice_subrange(s, 0, n)
}

// ---------------------------------------------------------------------------
// Searching and splitting
// ---------------------------------------------------------------------------

/// The index of the first occurrence of `c`.
pub open spec fn find(s: Seq<char>, c: char) -> Option<int>
    decreases s.len(),
{
    if s.len() == 0 {
        None
    } else if s[0] == c {
        Some(0int)
    } else {
        match find(s.drop_first(), c) {
            Some(i) => Some(i + 1),
            None => None,
        }
    }
}

/// The index of the last occurrence of `c`.
pub open spec fn rfind(s: Seq<char>, c: char) -> Option<int>
    decreases s.len(),
{
    if s.len() == 0 {
        None
    } else if s.last() == c {
        Some(s.len() - 1)
    } else {
        rfind(s.drop_last(), c)
    }
}

/// The parts before and after the first occurrence of `c`.
pub open spec fn cut(s: Seq<char>, c: char) -> Option<(Seq<char>, Seq<char>)> {
    match find(s, c) {
        Some(i) => Some((s.take(i), s.skip(i + 1))),
        None => None,
    }
}

/// The parts before and after the last occurrence of `c`.
pub open spec fn rcut(s: Seq<char>, c: char) -> Option<(Seq<char>, Seq<char>)> {
    match rfind(s, c) {
        Some(i) => Some((s.take(i), s.skip(i + 1))),
        None => None,
    }
}

/// What `find` returns: the first index that holds `c`, if any does.
pub proof fn lemma_find(s: Seq<char>, c: char)
    ensures
        find(s, c) matches Some(i) ==> 0 <= i < s.len() && s[i] == c && (forall|j: int|
            0 <= j < i ==> s[j] != c),
        find(s, c) is None ==> forall|j: int| 0 <= j < s.len() ==> s[j] != c,
    decreases s.len(),
{
    if s.len() > 0 && s[0] != c {
        let t = s.drop_first();
        lemma_find(t, c);
        assert forall|j: int| 1 <= j < s.len() implies s[j] == t[j - 1] by {}
    }
}

/// An index that holds `c` and is preceded by no other is what `find` returns.
pub proof fn lemma_find_is(s: Seq<char>, c: char, i: int)
    requires
        0 <= i < s.len(),
        s[i] == c,
        forall|j: int| 0 <= j < i ==> s[j] != c,
    ensures
        find(s, c) == Some(i),
{
    lemma_find(s, c);
}

/// A text without `c` has no first occurrence of it.
pub proof fn lemma_find_none(s: Seq<char>, c: char)
    requires
        forall|j: int| 0 <= j < s.len() ==> s[j] != c,
    ensures
        find(s, c) is None,
{
    lemma_find(s, c);
}

/// What `rfind` returns: the last index that holds `c`, if any does.
pub proof fn lemma_rfind(s: Seq<char>, c: char)
    ensures
        rfind(s, c) matches Some(i) ==> 0 <= i < s.len() && s[i] == c && (forall|j: int|
            i < j < s.len() ==> s[j] != c),
        rfind(s, c) is None ==> forall|j: int| 0 <= j < s.len() ==> s[j] != c,
    decreases s.len(),
{
    if s.len() > 0 && s.last() != c {
        lemma_rfind(s.drop_last(), c);
        assert forall|j: int| 0 <= j < s.len() - 1 implies s[j] == s.drop_last()[j] by {}
    }
}

/// The index of the first occurrence of `c`.
pub fn find_char(s: &[char], c: char) -> (r: Option<usize>)
    ensures
        r is Some <==> find(s@, c) is Some,
        r matches Some(i) ==> i < s@.len() && find(s@, c) == Some(i as int),
{
    let mut i: usize = 0;
    while i < s.len()
        invariant
            i <= s.len(),
            forall|j: int| 0 <= j < i ==> s@[j] != c,
        decreases s.len() - i,
    {
        if s[i] == c {
            proof {
                lemma_find_is(s@, c, i as int);
            }
            return Some(i);
        }
        i = i + 1;
    }
    proof {
        lemma_find_none(s@, c);
    }
    None
}

/// The parts before and after the first occurrence of `c`.
pub fn split_once(s: &[char], c: char) -> (r: Option<(&[char], &[char])>)
    ensures
        match (r, cut(s@, c)) {
            (Some((a, b)), Some((x, y))) => a@ == x && b@ == y,
            (None, None) => true,
            _ => false,
        },
{
    let n = s.len();
    match find_char(s, c) {
        Some(i) => Some((slice_subrange(s, 0, i), slice_subrange(s, i + 1, n))),
        None => None,
    }
}

/// The parts before and after the last occurrence of `c`.
pub fn rsplit_once(s: &[char], c: char) -> (r: Option<(&[char], &[char])>)
    ensures
        match (r, rcut(s@, c)) {
            (Some((a, b)), Some((x, y))) => a@ == x && b@ == y,
            (None, None) => true,
            _ => false,
        },
{
    let mut n: usize = s.len();
    while n > 0
        invariant
            n <= s.len(),
            forall|j: int| n <= j < s@.len() ==> s@[j] != c,
        decreases n,
    {
        if s[n - 1] == c {
            proof {
                lemma_rfind(s@, c);
            }
            return Some((slice_subrange(s, 0, n - 1), slice_subrange(s, n, s.len())));
        }
        n = n - 1;
    }
    proof {
        lemma_rfind(s@, c);
    }
    None
}

/// The pieces between the occurrences of `c`; a text without `c` is one piece.
pub open spec fn splits(s: Seq<char>, c: char) -> Seq<Seq<char>>
    decreases s.len(),
{
    match find(s, c) {
        Some(i) => {
            if 0 <= i < s.len() {
                seq![s.take(i)] + splits(s.skip(i + 1), c)
            } else {
                seq![s]
            }
        },
        None => seq![s],
    }
}

/// The pieces of `s` when its first occurrence of `c` is at `i`.
pub proof fn lemma_splits_step(s: Seq<char>, c: char, i: int)
    requires
        0 <= i < s.len(),
        s[i] == c,
        forall|j: int| 0 <= j < i ==> s[j] != c,
    ensures
        splits(s, c) == seq![s.take(i)] + splits(s.skip(i + 1), c),
{
    lemma_find_is(s, c, i);
}

/// A text always has at least one piece, and no piece contains the separator.
pub proof fn lemma_splits(s: Seq<char>, c: char)
    ensures
        splits(s, c).len() >= 1,
        forall|k: int, j: int|
            0 <= k < splits(s, c).len() && 0 <= j < splits(s, c)[k].len()
                ==> #[trigger] splits(s, c)[k][j] != c,
    decreases s.len(),
{
    lemma_find(s, c);
    match find(s, c) {
        Some(i) => {
            let rest = splits(s.skip(i + 1), c);
            lemma_splits(s.skip(i + 1), c);
            assert forall|k: int, j: int|
                0 <= k < splits(s, c).len() && 0 <= j < splits(s, c)[k].len() implies #[trigger] splits(
                s,
                c,
            )[k][j] != c by {
                if k > 0 {
                    assert(splits(s, c)[k] == rest[k - 1]);
                    assert(rest[k - 1][j] != c);
                }
            }
        },
        None => {},
    }
}

/// The pieces between the occurrences of `c`.
pub fn split(s: &[char], c: char) -> (r: Vec<Vec<char>>)
    ensures
        pieces(r@) == splits(s@, c),
{
    let mut out: Vec<Vec<char>> = Vec::new();
    let mut start: usize = 0;
    let mut i: usize = 0;
    assert(s@.skip(0) =~= s@);
    assert(pieces(out@) + splits(s@, c) =~= splits(s@, c));
    while i < s.len()
        invariant
            start <= i <= s.len(),
            forall|j: int| start <= j < i ==> s@[j] != c,
            pieces(out@) + splits(s@.skip(start as int), c) == splits(s@, c),
        decreases s.len() - i,
    {
        if s[i] == c {
            let ghost t = s@.skip(start as int);
            let ghost before = out@;
            let piece = slice_to_vec(slice_subrange(s, start, i));
            proof {
                lemma_splits_step(t, c, i - start);
                assert(t.take(i - start) =~= piece@);
                assert(t.skip(i - start + 1) =~= s@.skip(i + 1));
                assert(pieces(before.push(piece)) =~= pieces(before).push(piece@));
                assert(pieces(before) + (seq![piece@] + splits(s@.skip(i + 1), c)) =~= pieces(
                    before,
                ).push(piece@) + splits(s@.skip(i + 1), c));
            }
            out.push(piece);
            start = i + 1;
        }
        i = i + 1;
    }
    let ghost before = out@;
    let last = slice_to_vec(slice_subrange(s, start, s.len()));
    proof {
        lemma_find_none(s@.skip(start as int), c);
        assert(last@ =~= s@.skip(start as int));
        assert(pieces(before.push(last)) =~= pieces(before) + seq![last@]);
    }
    out.push(last);
    out
}

/// Where two `c` first stand side by side.
pub fn find_double(s: &[char], c: char) -> (r: Option<usize>)
    ensures
        match (r, find_in(s@, seq![c, c])) {
            (Some(i), Some(j)) => i == j && i + 2 <= s@.len(),
            (None, None) => true,
            _ => false,
        },
{
    let n = s.len();
    let ghost pair = seq![c, c];
    let mut i: usize = 0;
    while i < n && i + 1 < n
        invariant
            n == s@.len(),
            i <= n,
            pair == seq![c, c],
            forall|j: int| 0 <= j < i ==> !occurs_at(s@, pair, j),
        decreases n - i,
    {
        assert(s@.subrange(i as int, i + 2) =~= seq![s@[i as int], s@[i + 1]]);
        if s[i] == c && s[i + 1] == c {
            proof {
                assert(occurs_at(s@, pair, i as int));
                lemma_find_in_is(s@, pair, i as int);
            }
            return Some(i);
        }
        proof {
            assert(!occurs_at(s@, pair, i as int)) by {
                if occurs_at(s@, pair, i as int) {
                    assert(seq![s@[i as int], s@[i + 1]][0] == pair[0]);
                    assert(seq![s@[i as int], s@[i + 1]][1] == pair[1]);
                }
            }
        }
        i = i + 1;
    }
    proof {
        lemma_find_in(s@, pair);
        assert(find_in(s@, pair) is None) by {
            if find_in(s@, pair) is Some {
                assert(occurs_at(s@, pair, find_in(s@, pair)->0));
            }
        }
    }
    None
}

/// The length of the leading run of characters that are not white space.
pub open spec fn word_len(s: Seq<char>) -> nat
    decreases s.len(),
{
    if s.len() > 0 && !white_space(s[0]) {
        1 + word_len(s.drop_first())
    } else {
        0
    }
}

proof fn lemma_word_len(s: Seq<char>)
    ensures
        word_len(s) <= s.len(),
        s.len() > 0 && !white_space(s[0]) ==> word_len(s) > 0,
    decreases s.len(),
{
    if s.len() > 0 && !white_space(s[0]) {
        lemma_word_len(s.drop_first());
    }
}

proof fn lemma_trimmed_start_len(s: Seq<char>)
    ensures
        trimmed_start(s).len() <= s.len(),
        trimmed_start(s).len() > 0 ==> !white_space(trimmed_start(s)[0]),
    decreases s.len(),
{
    if s.len() > 0 && white_space(s[0]) {
        lemma_trimmed_start_len(s.drop_first());
    }
}

/// The words of a text: its maximal runs of characters that are not white space.
pub open spec fn words(s: Seq<char>) -> Seq<Seq<char>>
    decreases s.len(),
    via words_decreases
{
    let t = trimmed_start(s);
    if t.len() == 0 {
        Seq::empty()
    } else {
        seq![t.take(word_len(t) as int)] + words(t.skip(word_len(t) as int))
    }
}

#[via_fn]
proof fn words_decreases(s: Seq<char>) {
    lemma_trimmed_start_len(s);
    let t = trimmed_start(s);
    lemma_word_len(t);
}

/// The words of a text.
pub fn split_words(s: &[char]) -> (r: Vec<Vec<char>>)
    ensures
        pieces(r@) == words(s@),
{
    let mut out: Vec<Vec<char>> = Vec::new();
    let mut i: usize = 0;
    assert(s@.skip(0) =~= s@);
    assert(pieces(out@) + words(s@) =~= words(s@));
    while i < s.len()
        invariant
            i <= s.len(),
            pieces(out@) + words(s@.skip(i as int)) == words(s@),
        decreases s.len() - i,
    {
        let ghost t = s@.skip(i as int);
        if is_whitespace(s[i]) {
            assert(t.drop_first() =~= s@.skip(i + 1));
            i = i + 1;
        } else {
            let start = i;
            while i < s.len() && !is_whitespace(s[i])
                invariant
                    start <= i <= s.len(),
                    t == s@.skip(start as int),
                    word_len(t) == (i - start) + word_len(s@.skip(i as int)),
                    i == start ==> i < s.len() && !white_space(s@[i as int]),
                decreases s.len() - i,
            {
                assert(s@.skip(i as int).drop_first() =~= s@.skip(i + 1));
                i = i + 1;
            }
            let word = slice_to_vec(slice_subrange(s, start, i));
            let ghost before = out@;
            proof {
                assert(trimmed_start(t) == t);
                assert(word_len(s@.skip(i as int)) == 0);
                assert(t.take(i - start) =~= word@);
                assert(t.skip(i - start) =~= s@.skip(i as int));
                assert(pieces(before.push(word)) =~= pieces(before).push(word@));
                assert(pieces(before) + (seq![word@] + words(s@.skip(i as int))) =~= pieces(
                    before,
                ).push(word@) + words(s@.skip(i as int)));
            }
            out.push(word);
        }
    }
    assert(words(s@.skip(s@.len() as int)) =~= Seq::empty());
    assert(pieces(out@) =~= words(s@));
    out
}

/// A line without the carriage return before its line feed.
pub open spec fn without_cr(s: Seq<char>) -> Seq<char> {
    if s.len() > 0 && s.last() == '\r' {
        s.drop_last()
    } else {
        s
    }
}

/// The lines of a text: each ends at a line feed, which is dropped together
/// with a carriage return before it. Text after the last line feed is a line of
/// its own when it is not empty.
pub open spec fn lines_of(s: Seq<char>) -> Seq<Seq<char>>
    decreases s.len(),
{
    if s.len() == 0 {
        Seq::empty()
    } else {
        match find(s, '\n') {
            Some(i) => {
                if 0 <= i < s.len() {
                    seq![without_cr(s.take(i))] + lines_of(s.skip(i + 1))
                } else {
                    seq![s]
                }
            },
            None => seq![s],
        }
    }
}

/// The lines of a text.
pub fn lines(s: &[char]) -> (r: Vec<Vec<char>>)
    ensures
        pieces(r@) == lines_of(s@),
{
    let mut out: Vec<Vec<char>> = Vec::new();
    let mut start: usize = 0;
    let mut i: usize = 0;
    assert(s@.skip(0) =~= s@);
    assert(pieces(out@) + lines_of(s@) =~= lines_of(s@));
    while i < s.len()
        invariant
            start <= i <= s.len(),
            forall|j: int| start <= j < i ==> s@[j] != '\n',
            pieces(out@) + lines_of(s@.skip(start as int)) == lines_of(s@),
        decreases s.len() - i,
    {
        if s[i] == '\n' {
            let ghost t = s@.skip(start as int);
            let ghost before = out@;
            let end = if i > start && s[i - 1] == '\r' {
                i - 1
            } else {
                i
            };
            let piece = slice_to_vec(slice_subrange(s, start, end));
            proof {
                lemma_find_is(t, '\n', i - start);
                assert(t.take(i - start) =~= s@.subrange(start as int, i as int));
                assert(without_cr(t.take(i - start)) =~= piece@);
                assert(t.skip(i - start + 1) =~= s@.skip(i + 1));
                assert(pieces(before.push(piece)) =~= pieces(before).push(piece@));
                assert(pieces(before) + (seq![piece@] + lines_of(s@.skip(i + 1))) =~= pieces(
                    before,
                ).push(piece@) + lines_of(s@.skip(i + 1)));
            }
            out.push(piece);
            start = i + 1;
        }
        i = i + 1;
    }
    let ghost before = out@;
    if start < s.len() {
        let last = slice_to_vec(slice_subrange(s, start, s.len()));
        proof {
            lemma_find_none(s@.skip(start as int), '\n');
            assert(last@ =~= s@.skip(start as int));
            assert(pieces(before.push(last)) =~= pieces(before) + seq![last@]);
        }
        out.push(last);
    } else {
        assert(lines_of(s@.skip(start as int)) =~= Seq::empty());
        assert(pieces(out@) =~= lines_of(s@));
    }
    out
}

// ---------------------------------------------------------------------------
// Joining
// ---------------------------------------------------------------------------

/// The pieces in order, with `sep` between each two.
pub open spec fn joined<A>(parts: Seq<Seq<A>>, sep: Seq<A>) -> Seq<A>
    decreases parts.len(),
{
    if parts.len() == 0 {
        Seq::empty()
    } else if parts.len() == 1 {
        parts[0]
    } else {
        joined(parts.drop_last(), sep) + sep + parts.last()
    }
}

/// Append a slice of characters.
pub fn push_all(out: &mut Vec<char>, s: &[char])
    ensures
        final(out)@ == old(out)@ + s@,
{
    let mut i: usize = 0;
    while i < s.len()
        invariant
            i <= s.len(),
            out@ == old(out)@ + s@.take(i as int),
        decreases s.len() - i,
    {
        assert(s@.take(i + 1) =~= s@.take(i as int).push(s@[i as int]));
        out.push(s[i]);
        assert(out@ =~= old(out)@ + s@.take(i + 1));
        i = i + 1;
    }
    assert(s@.take(s@.len() as int) =~= s@);
}

/// Append the characters of a string.
pub fn push_str(out: &mut Vec<char>, s: &str)
    ensures
        final(out)@ == old(out)@ + s@,
{
    let c = chars_of(s);
    push_all(out, c.as_slice());
}

/// Append a slice of bytes.
pub fn push_bytes(out: &mut Vec<u8>, s: &[u8])
    ensures
        final(out)@ == old(out)@ + s@,
{
    let mut i: usize = 0;
    while i < s.len()
        invariant
            i <= s.len(),
            out@ == old(out)@ + s@.take(i as int),
        decreases s.len() - i,
    {
        assert(s@.take(i + 1) =~= s@.take(i as int).push(s@[i as int]));
        out.push(s[i]);
        assert(out@ =~= old(out)@ + s@.take(i + 1));
        i = i + 1;
    }
    assert(s@.take(s@.len() as int) =~= s@);
}

/// The pieces in order, with `sep` between each two.
pub fn join(parts: &Vec<Vec<char>>, sep: &[char]) -> (r: Vec<char>)
    ensures
        r@ == joined(pieces(parts@), sep@),
{
    let mut out: Vec<char> = Vec::new();
    let mut i: usize = 0;
    let ghost all = pieces(parts@);
    while i < parts.len()
        invariant
            i <= parts.len(),
            all == pieces(parts@),
            out@ == joined(all.take(i as int), sep@),
        decreases parts.len() - i,
    {
        proof {
            assert(all.take(i + 1).drop_last() =~= all.take(i as int));
            assert(all.take(i + 1).last() == parts@[i as int]@);
        }
        if i > 0 {
            push_all(&mut out, sep);
        }
        push_all(&mut out, parts[i].as_slice());
        assert(i == 0 ==> out@ =~= parts@[0]@);
        i = i + 1;
    }
    assert(all.take(all.len() as int) =~= all);
    out
}

/// The concatenation of three strings.
pub fn concat3(a: &str, b: &str, c: &str) -> (r: String)
    ensures
        r@ == a@ + b@ + c@,
{
    let mut out = a.to_string();
    out.append(b);
    out.append(c);
    out
}

// ---------------------------------------------------------------------------
// Numbers
// ---------------------------------------------------------------------------

/// The value of a decimal digit.
pub open spec fn digit_value(c: char) -> nat {
    (c as u32 - '0' as u32) as nat
}

/// Whether every character is a decimal digit.
pub open spec fn all_digits(s: Seq<char>) -> bool {
    forall|i: int| 0 <= i < s.len() ==> digit(#[trigger] s[i])
}

/// The number that a sequence of decimal digits denotes.
pub open spec fn decimal_value(s: Seq<char>) -> nat
    decreases s.len(),
{
    if s.len() == 0 {
        0
    } else {
        decimal_value(s.drop_last()) * 10 + digit_value(s.last())
    }
}

/// A text without one leading plus sign.
pub open spec fn without_plus(s: Seq<char>) -> Seq<char> {
    if s.len() > 0 && s[0] == '+' {
        s.skip(1)
    } else {
        s
    }
}

/// Reading an unsigned number of at most `max`: an optional plus sign, then one
/// or more decimal digits and nothing else.
pub open spec fn number(s: Seq<char>, max: nat) -> Option<nat> {
    let d = without_plus(s);
    if d.len() > 0 && all_digits(d) && decimal_value(d) <= max {
        Some(decimal_value(d))
    } else {
        None
    }
}

proof fn lemma_decimal_value_prefix(s: Seq<char>, i: int)
    requires
        0 <= i <= s.len(),
    ensures
        decimal_value(s.take(i)) <= decimal_value(s),
    decreases s.len() - i,
{
    if i == s.len() {
        assert(s.take(i) =~= s);
    } else {
        lemma_decimal_value_prefix(s, i + 1);
        assert(s.take(i + 1).drop_last() =~= s.take(i));
    }
}

/// Read an unsigned number of at most `max`.
pub fn parse_number(s: &[char], max: u64) -> (r: Option<u64>)
    ensures
        match (r, number(s@, max as nat)) {
            (Some(x), Some(y)) => x == y,
            (None, None) => true,
            _ => false,
        },
{
    let mut i: usize = if s.len() > 0 && s[0] == '+' {
        1
    } else {
        0
    };
    let ghost d = without_plus(s@);
    let start = i;
    assert(d =~= s@.skip(start as int));
    if s.len() == start {
        return None;
    }
    let mut acc: u128 = 0;
    while i < s.len()
        invariant
            start <= i <= s.len(),
            d == s@.skip(start as int),
            forall|j: int| 0 <= j < i - start ==> digit(#[trigger] d[j]),
            acc == decimal_value(d.take(i - start)),
            acc <= max,
            number(s@, max as nat) is Some ==> all_digits(d) && decimal_value(d) <= max,
        decreases s.len() - i,
    {
        let c = s[i];
        if !is_digit(c) {
            assert(!digit(d[i - start]));
            return None;
        }
        proof {
            assert(d.take(i - start + 1).drop_last() =~= d.take(i - start));
            lemma_decimal_value_prefix(d, i - start + 1);
        }
        acc = acc * 10 + (c as u32 - '0' as u32) as u128;
        if acc > max as u128 {
            return None;
        }
        i = i + 1;
    }
    assert(d.take(d.len() as int) =~= d);
    Some(acc as u64)
}

/// The character of a decimal digit value.
pub open spec fn digit_char(d: nat) -> char {
    ('0' as u32 + d) as char
}

/// The decimal rendering of a number, without leading zeros.
pub open spec fn decimal(n: nat) -> Seq<char>
    decreases n,
{
    if n < 10 {
        seq![digit_char(n)]
    } else {
        decimal(n / 10).push(digit_char(n % 10))
    }
}

/// The decimal rendering of a number.
pub fn to_decimal(n: u64) -> (r: Vec<char>)
    ensures
        r@ == decimal(n as nat),
    decreases n,
{
    let mut out: Vec<char> = if n < 10 {
        Vec::new()
    } else {
        to_decimal(n / 10)
    };
    out.push((48 + (n % 10) as u8) as char);
    assert(n < 10 ==> out@ =~= seq![digit_char(n as nat)]);
    out
}

/// A decimal rendering is made of digits and denotes the number.
pub proof fn lemma_decimal(n: nat)
    ensures
        decimal(n).len() > 0,
        all_digits(decimal(n)),
        decimal_value(decimal(n)) == n,
    decreases n,
{
    if n < 10 {
        let s = seq![digit_char(n)];
        assert(s.drop_last() =~= Seq::empty());
        assert(decimal_value(s.drop_last()) == 0);
    } else {
        lemma_decimal(n / 10);
        assert(decimal(n).drop_last() =~= decimal(n / 10));
        assert forall|i: int| 0 <= i < decimal(n).len() implies digit(#[trigger] decimal(n)[i]) by {
            if i < decimal(n).len() - 1 {
                assert(decimal(n)[i] == decimal(n / 10)[i]);
            }
        }
    }
}

/// Reading back a decimal rendering gives the number.
pub proof fn lemma_number_of_decimal(n: nat, max: nat)
    requires
        n <= max,
    ensures
        number(decimal(n), max) == Some(n),
{
    lemma_decimal(n);
    assert(digit(decimal(n)[0]));
}

/// The lowercase hexadecimal digit of a value below sixteen.
pub open spec fn hex_char(d: nat) -> char {
    if d < 10 {
        ('0' as u32 + d) as char
    } else {
        ('a' as u32 + (d - 10)) as char
    }
}

/// The uppercase hexadecimal digit of a value below sixteen.
pub open spec fn upper_hex_char(d: nat) -> char {
    if d < 10 {
        ('0' as u32 + d) as char
    } else {
        ('A' as u32 + (d - 10)) as char
    }
}

/// The lowercase hexadecimal digit of a value below sixteen.
pub fn to_hex_char(d: u8) -> (r: char)
    requires
        d < 16,
    ensures
        r == hex_char(d as nat),
{
    if d < 10 {
        (48 + d) as char
    } else {
        (87 + d) as char
    }
}

/// The uppercase hexadecimal digit of a value below sixteen.
pub fn to_upper_hex_char(d: u8) -> (r: char)
    requires
        d < 16,
    ensures
        r == upper_hex_char(d as nat),
{
    if d < 10 {
        (48 + d) as char
    } else {
        (55 + d) as char
    }
}

/// Two lowercase hexadecimal digits per byte.
pub open spec fn hex(bytes: Seq<u8>) -> Seq<char>
    decreases bytes.len(),
{
    if bytes.len() == 0 {
        Seq::empty()
    } else {
        hex(bytes.drop_last()).push(hex_char((bytes.last() / 16) as nat)).push(
            hex_char((bytes.last() % 16) as nat),
        )
    }
}

/// Two lowercase hexadecimal digits per byte.
pub fn to_hex(bytes: &[u8]) -> (r: Vec<char>)
    ensures
        r@ == hex(bytes@),
{
    let mut out: Vec<char> = Vec::new();
    let mut i: usize = 0;
    while i < bytes.len()
        invariant
            i <= bytes.len(),
            out@ == hex(bytes@.take(i as int)),
        decreases bytes.len() - i,
    {
        assert(bytes@.take(i + 1).drop_last() =~= bytes@.take(i as int));
        out.push(to_hex_char(bytes[i] / 16));
        out.push(to_hex_char(bytes[i] % 16));
        i = i + 1;
    }
    assert(bytes@.take(bytes@.len() as int) =~= bytes@);
    out
}

/// A character that prints as a mark in ASCII.
pub open spec fn graphic(c: char) -> bool {
    0x21 <= c as u32 <= 0x7e
}

/// Whether every character prints as a mark in ASCII.
pub open spec fn all_graphic(s: Seq<char>) -> bool {
    forall|i: int| 0 <= i < s.len() ==> graphic(#[trigger] s[i])
}

/// Hexadecimal digits are two for each byte, and marks.
pub proof fn lemma_hex(bytes: Seq<u8>)
    ensures
        hex(bytes).len() == 2 * bytes.len(),
        all_graphic(hex(bytes)),
    decreases bytes.len(),
{
    if bytes.len() > 0 {
        lemma_hex(bytes.drop_last());
    }
}

/// Hexadecimal digits determine the bytes.
pub proof fn lemma_hex_is_injective(a: Seq<u8>, b: Seq<u8>)
    requires
        hex(a) == hex(b),
    ensures
        a == b,
    decreases a.len(),
{
    lemma_hex(a);
    lemma_hex(b);
    if a.len() > 0 {
        let ha = hex(a);
        let hb = hex(b);
        let n = ha.len() as int;
        assert(ha[n - 2] == hex_char((a.last() / 16) as nat));
        assert(hb[n - 2] == hex_char((b.last() / 16) as nat));
        assert(ha[n - 1] == hex_char((a.last() % 16) as nat));
        assert(hb[n - 1] == hex_char((b.last() % 16) as nat));
        assert(hex(a.drop_last()) =~= ha.take(n - 2));
        assert(hex(b.drop_last()) =~= hb.take(n - 2));
        lemma_hex_is_injective(a.drop_last(), b.drop_last());
        assert(a.last() == b.last());
        assert(a =~= a.drop_last().push(a.last()));
        assert(b =~= b.drop_last().push(b.last()));
    } else {
        assert(a =~= b);
    }
}

/// The lines of a text that ends a line come before the lines of what follows it.
pub proof fn lemma_lines_of_append(a: Seq<char>, b: Seq<char>)
    requires
        a.len() == 0 || a.last() == '\n',
    ensures
        lines_of(a + b) == lines_of(a) + lines_of(b),
    decreases a.len(),
{
    if a.len() == 0 {
        assert(a + b =~= b);
        assert(lines_of(a) + lines_of(b) =~= lines_of(b));
    } else {
        lemma_find(a, '\n');
        assert(a[a.len() - 1] == '\n');
        let i = find(a, '\n')->0;
        lemma_find_is(a + b, '\n', i);
        assert((a + b).take(i) =~= a.take(i));
        assert((a + b).skip(i + 1) =~= a.skip(i + 1) + b);
        let rest = a.skip(i + 1);
        if rest.len() > 0 {
            assert(rest.last() == a.last());
        }
        lemma_lines_of_append(rest, b);
        assert(seq![without_cr(a.take(i))] + (lines_of(rest) + lines_of(b)) =~= (seq![
            without_cr(a.take(i)),
        ] + lines_of(rest)) + lines_of(b));
    }
}

/// A line that is ended is that one line.
pub proof fn lemma_lines_of_one(line: Seq<char>)
    requires
        forall|i: int| 0 <= i < line.len() ==> #[trigger] line[i] != '\n',
        line.len() > 0 ==> line.last() != '\r',
    ensures
        lines_of(line.push('\n')) == seq![line],
{
    let ended = line.push('\n');
    let n = line.len() as int;
    lemma_find_is(ended, '\n', n);
    assert(ended.take(n) =~= line);
    assert(ended.skip(n + 1) =~= Seq::empty());
    assert(lines_of(ended.skip(n + 1)) =~= Seq::<Seq<char>>::empty());
    assert(seq![line] + Seq::<Seq<char>>::empty() =~= seq![line]);
}

// ---------------------------------------------------------------------------
// Trimming and case
// ---------------------------------------------------------------------------

/// Lowering a letter leaves it neither white space nor a dot, and other characters as
/// they are.
pub proof fn lemma_lower_char(c: char)
    ensures
        white_space(lower_char(c)) == white_space(c),
        (lower_char(c) == '.') == (c == '.'),
{
}

/// Trimming and lowering can be exchanged.
pub proof fn lemma_trimmed_lowered(s: Seq<char>)
    ensures
        trimmed(lowered(s)) == lowered(trimmed(s)),
{
    lemma_trimmed_start_lowered(s);
    lemma_trimmed_end_lowered(trimmed_start(s));
}

proof fn lemma_trimmed_start_lowered(s: Seq<char>)
    ensures
        trimmed_start(lowered(s)) == lowered(trimmed_start(s)),
    decreases s.len(),
{
    if s.len() > 0 {
        lemma_lower_char(s[0]);
        assert(lowered(s).drop_first() =~= lowered(s.drop_first()));
        lemma_trimmed_start_lowered(s.drop_first());
    }
}

proof fn lemma_trimmed_end_lowered(s: Seq<char>)
    ensures
        trimmed_end(lowered(s)) == lowered(trimmed_end(s)),
    decreases s.len(),
{
    if s.len() > 0 {
        lemma_lower_char(s.last());
        assert(lowered(s).drop_last() =~= lowered(s.drop_last()));
        lemma_trimmed_end_lowered(s.drop_last());
    }
}

/// Dropping trailing dots and lowering can be exchanged.
pub proof fn lemma_without_trailing_dots_lowered(s: Seq<char>)
    ensures
        without_trailing_dots(lowered(s)) == lowered(without_trailing_dots(s)),
    decreases s.len(),
{
    if s.len() > 0 {
        lemma_lower_char(s.last());
        assert(lowered(s).drop_last() =~= lowered(s.drop_last()));
        lemma_without_trailing_dots_lowered(s.drop_last());
    }
}

/// A character behind a text is behind its trimmed start too, where something of the
/// text is left or the character is no white space.
pub proof fn lemma_trimmed_start_push(s: Seq<char>, c: char)
    ensures
        trimmed_start(s.push(c)) == if trimmed_start(s).len() == 0 && white_space(c) {
            Seq::empty()
        } else {
            trimmed_start(s).push(c)
        },
    decreases s.len(),
{
    if s.len() == 0 {
        assert(s.push(c).drop_first() =~= Seq::empty());
        reveal_with_fuel(trimmed_start, 2);
        assert(s.push(c) =~= trimmed_start(s).push(c));
    } else {
        assert(s.push(c)[0] == s[0]);
        if white_space(s[0]) {
            assert(s.push(c).drop_first() =~= s.drop_first().push(c));
            lemma_trimmed_start_push(s.drop_first(), c);
        }
    }
}

/// What is left of a text without its leading white space ends as the text does.
pub proof fn lemma_trimmed_start_last(s: Seq<char>)
    ensures
        trimmed_start(s).len() > 0 ==> trimmed_start(s).last() == s.last(),
    decreases s.len(),
{
    if s.len() > 0 && white_space(s[0]) {
        lemma_trimmed_start_last(s.drop_first());
    }
}

/// A text of which trimming leaves nothing is white space.
pub proof fn lemma_trimmed_blank(s: Seq<char>)
    requires
        trimmed(s).len() == 0,
    ensures
        trimmed_start(s).len() == 0,
{
    lemma_trimmed_start_len(s);
    lemma_trimmed_end_keeps(trimmed_start(s));
}

proof fn lemma_trimmed_end_keeps(s: Seq<char>)
    ensures
        s.len() > 0 && !white_space(s[0]) ==> trimmed_end(s).len() > 0,
    decreases s.len(),
{
    if s.len() > 1 {
        lemma_trimmed_end_keeps(s.drop_last());
    }
}

/// White space at the end of a text is trimmed.
pub proof fn lemma_trimmed_push(s: Seq<char>, c: char)
    requires
        white_space(c),
    ensures
        trimmed(s.push(c)) == trimmed(s),
{
    lemma_trimmed_start_push(s, c);
    let t = trimmed_start(s);
    if t.len() > 0 {
        assert(t.push(c).drop_last() =~= t);
    } else {
        assert(t =~= Seq::empty());
    }
}

} // verus!
