//! What the text and byte primitives do, each in terms of its input and its result.

use vstd::prelude::*;

use crate::text::{
    alphabetic, alphanumeric, cut, decimal, decimal_value, digit, find, hex, hex_char, joined,
    lemma_decimal, lemma_find, lemma_find_is, lemma_hex, lemma_rfind, lemma_splits_step, lines_of,
    lowered, number, rcut, rfind, splits, trimmed, trimmed_end, trimmed_start, upper_hex_char,
    white_space, without_trailing_dots, word_len, words,
};

verus! {

/// Lowering makes each of the letters A to Z the small one, and leaves every other character
/// as it is.
pub proof fn law_lowering_is_by_letter(s: Seq<char>, i: int)
    requires
        0 <= i < s.len(),
    ensures
        lowered(s).len() == s.len(),
        'A' <= s[i] <= 'Z' ==> lowered(s)[i] as u32 == s[i] as u32 + 32,
        !('A' <= s[i] <= 'Z') ==> lowered(s)[i] == s[i],
{
    let c = s[i];
    if 'A' <= c <= 'Z' {
        let n = c as u8;
        assert(n as u32 == c as u32);
        assert(((n + 32) as u8) as char as u32 == n + 32);
    }
}

/// Whether every character is white space.
pub open spec fn blank(s: Seq<char>) -> bool {
    forall|i: int| 0 <= i < s.len() ==> white_space(#[trigger] s[i])
}

/// Trimming takes away white space alone, all there is at either end: the text is what is
/// left with white space around it, and what is left neither starts nor ends with any.
pub proof fn law_trimming_takes_white_space(s: Seq<char>) -> (ends: (Seq<char>, Seq<char>))
    ensures
        blank(ends.0),
        blank(ends.1),
        s == ends.0 + trimmed(s) + ends.1,
        trimmed(s).len() > 0 ==> !white_space(trimmed(s)[0]) && !white_space(trimmed(s).last()),
{
    let lead = lemma_lead(s);
    let t = trimmed_start(s);
    let tail = lemma_tail(t);
    assert(s =~= lead + trimmed(s) + tail);
    (lead, tail)
}

proof fn lemma_lead(s: Seq<char>) -> (lead: Seq<char>)
    ensures
        blank(lead),
        s == lead + trimmed_start(s),
        trimmed_start(s).len() > 0 ==> !white_space(trimmed_start(s)[0]),
    decreases s.len(),
{
    if s.len() > 0 && white_space(s[0]) {
        let more = lemma_lead(s.drop_first());
        let lead = seq![s[0]] + more;
        let rest = s.drop_first();
        assert(s =~= seq![s[0]] + rest);
        assert(seq![s[0]] + (more + trimmed_start(rest)) =~= lead + trimmed_start(rest));
        lead
    } else {
        assert(s =~= Seq::<char>::empty() + trimmed_start(s));
        Seq::empty()
    }
}

proof fn lemma_tail(s: Seq<char>) -> (tail: Seq<char>)
    ensures
        blank(tail),
        s == trimmed_end(s) + tail,
        trimmed_end(s).len() > 0 ==> !white_space(trimmed_end(s).last()) && trimmed_end(s)[0]
            == s[0],
    decreases s.len(),
{
    if s.len() > 0 && white_space(s.last()) {
        let less = lemma_tail(s.drop_last());
        let tail = less.push(s.last());
        let rest = s.drop_last();
        assert(s =~= rest.push(s.last()));
        assert((trimmed_end(rest) + less).push(s.last()) =~= trimmed_end(rest) + tail);
        tail
    } else {
        assert(s =~= trimmed_end(s) + Seq::<char>::empty());
        Seq::empty()
    }
}

/// Only dots are taken from the end of a name, and all of them.
pub proof fn law_only_trailing_dots_go(s: Seq<char>)
    ensures
        ({
            let t = without_trailing_dots(s);
            &&& t.len() <= s.len()
            &&& t == s.take(t.len() as int)
            &&& forall|i: int| t.len() <= i < s.len() ==> s[i] == '.'
            &&& t.len() > 0 ==> t.last() != '.'
        }),
    decreases s.len(),
{
    if s.len() > 0 && s.last() == '.' {
        law_only_trailing_dots_go(s.drop_last());
        let t = without_trailing_dots(s);
        assert(s.drop_last().take(t.len() as int) =~= s.take(t.len() as int));
        assert forall|i: int| t.len() <= i < s.len() implies s[i] == '.' by {
            if i < s.len() - 1 {
                assert(s.drop_last()[i] == s[i]);
            }
        }
    } else {
        assert(s.take(s.len() as int) =~= s);
    }
}

/// A text is cut at the first occurrence of a character, or at the last one, into what is
/// before it and what is after it.
pub proof fn law_cut_is_at_the_first_or_last(a: Seq<char>, c: char, b: Seq<char>)
    ensures
        (forall|i: int| 0 <= i < a.len() ==> a[i] != c) ==> cut(a + seq![c] + b, c) == Some((a, b)),
        (forall|i: int| 0 <= i < b.len() ==> b[i] != c) ==> rcut(a + seq![c] + b, c) == Some(
            (a, b),
        ),
        (forall|i: int| 0 <= i < a.len() ==> a[i] != c) ==> cut(a, c) is None && rcut(a, c) is None,
{
    let s = a + seq![c] + b;
    let n = a.len() as int;
    assert(s[n] == c);
    assert(s.take(n) =~= a);
    assert(s.skip(n + 1) =~= b);
    lemma_find(s, c);
    lemma_rfind(s, c);
    lemma_find(a, c);
    lemma_rfind(a, c);
    if forall|i: int| 0 <= i < a.len() ==> a[i] != c {
        assert forall|i: int| 0 <= i < n implies s[i] != c by {
            assert(s[i] == a[i]);
        }
        lemma_find_is(s, c, n);
    }
    if forall|i: int| 0 <= i < b.len() ==> b[i] != c {
        assert forall|i: int| n < i < s.len() implies s[i] != c by {
            assert(s[i] == b[i - n - 1]);
        }
        assert(rfind(s, c) == Some(n));
    }
}

/// Splitting gives the pieces between the separators: a text without one is one piece, and a
/// separator puts the pieces of what is before it before those of what is after it.
pub proof fn law_pieces_stand_between_separators(a: Seq<char>, c: char, b: Seq<char>)
    ensures
        (forall|i: int| 0 <= i < a.len() ==> a[i] != c) ==> splits(a, c) == seq![a],
        splits(a + seq![c] + b, c) == splits(a, c) + splits(b, c),
    decreases a.len(),
{
    let s = a + seq![c] + b;
    lemma_find(a, c);
    match find(a, c) {
        Some(i) => {
            let rest = a.skip(i + 1);
            law_pieces_stand_between_separators(rest, c, b);
            assert(s[i] == a[i]);
            assert forall|j: int| 0 <= j < i implies s[j] != c by {
                assert(s[j] == a[j]);
            }
            lemma_splits_step(s, c, i);
            assert(s.take(i) =~= a.take(i));
            assert(s.skip(i + 1) =~= rest + seq![c] + b);
            assert(seq![a.take(i)] + (splits(rest, c) + splits(b, c)) =~= (seq![a.take(i)]
                + splits(rest, c)) + splits(b, c));
        },
        None => {
            let n = a.len() as int;
            assert(s[n] == c);
            assert forall|j: int| 0 <= j < n implies s[j] != c by {
                assert(s[j] == a[j]);
            }
            lemma_splits_step(s, c, n);
            assert(s.take(n) =~= a);
            assert(s.skip(n + 1) =~= b);
        },
    }
}

/// The words of a text are what stands between its white space: a text without any is one
/// word, blank text has none, and the words before white space come before those after it.
pub proof fn law_words_stand_between_white_space(a: Seq<char>, c: char, b: Seq<char>)
    requires
        white_space(c),
    ensures
        blank(a) ==> words(a) == Seq::<Seq<char>>::empty(),
        a.len() > 0 && (forall|i: int| 0 <= i < a.len() ==> !white_space(#[trigger] a[i])) ==> words(
            a,
        ) == seq![a],
        words(a + seq![c] + b) == words(a) + words(b),
    decreases a.len(),
{
    let s = a + seq![c] + b;
    if a.len() == 0 {
        assert(s[0] == c);
        assert(s.drop_first() =~= b);
        assert(words(a) =~= Seq::<Seq<char>>::empty());
        assert(words(s) == words(b)) by {
            assert(trimmed_start(s) == trimmed_start(b));
        }
        assert(Seq::<Seq<char>>::empty() + words(b) =~= words(b));
    } else if white_space(a[0]) {
        let t = a.drop_first();
        law_words_stand_between_white_space(t, c, b);
        assert(s[0] == a[0]);
        assert(s.drop_first() =~= t + seq![c] + b);
        assert(trimmed_start(s) == trimmed_start(t + seq![c] + b));
        assert(trimmed_start(a) == trimmed_start(t));
        if blank(a) {
            assert forall|i: int| 0 <= i < t.len() implies white_space(#[trigger] t[i]) by {
                assert(t[i] == a[i + 1]);
            }
        }
        assert(words(a) == words(t));
        assert(words(s) == words(t + seq![c] + b));
    } else {
        let n = word_len(a) as int;
        lemma_run(a);
        lemma_run(s);
        let m = word_len(s) as int;
        assert(s[0] == a[0]);
        assert(s[a.len() as int] == c);
        if n < m {
            assert(white_space(s[n])) by {
                if n < a.len() {
                    assert(s[n] == a[n]);
                }
            }
        }
        if m < n {
            assert(s[m] == a[m]);
        }
        assert(m == n);
        assert(s.take(n) =~= a.take(n));
        assert(trimmed_start(a) == a);
        assert(trimmed_start(s) == s);
        let rest = a.skip(n);
        assert(s.skip(n) =~= rest + seq![c] + b);
        law_words_stand_between_white_space(rest, c, b);
        assert(words(a) == seq![a.take(n)] + words(rest));
        assert(words(s) == seq![s.take(n)] + words(s.skip(n)));
        assert(seq![a.take(n)] + (words(rest) + words(b)) =~= (seq![a.take(n)] + words(rest))
            + words(b));
        assert(!white_space(a[0]));
        if forall|i: int| 0 <= i < a.len() ==> !white_space(#[trigger] a[i]) {
            assert(n == a.len());
            assert(a.take(n) =~= a);
            assert(rest =~= Seq::empty());
            assert(words(rest) =~= Seq::<Seq<char>>::empty());
            assert(seq![a] + Seq::<Seq<char>>::empty() =~= seq![a]);
        }
    }
}

proof fn lemma_run(s: Seq<char>)
    ensures
        word_len(s) <= s.len(),
        forall|i: int| 0 <= i < word_len(s) ==> !white_space(#[trigger] s[i]),
        word_len(s) < s.len() ==> white_space(s[word_len(s) as int]),
        s.len() > 0 && !white_space(s[0]) ==> word_len(s) > 0,
    decreases s.len(),
{
    if s.len() > 0 && !white_space(s[0]) {
        let t = s.drop_first();
        lemma_run(t);
        assert forall|i: int| 0 <= i < word_len(s) implies !white_space(#[trigger] s[i]) by {
            if i > 0 {
                assert(s[i] == t[i - 1]);
            }
        }
    }
}

/// The lines of a text end at line feeds, a carriage return before one going with it; what
/// comes after the last line feed is a line as it is, unless there is nothing.
pub proof fn law_lines_end_at_line_feeds(line: Seq<char>, rest: Seq<char>)
    requires
        forall|i: int| 0 <= i < line.len() ==> line[i] != '\n',
    ensures
        lines_of(line + seq!['\r', '\n'] + rest) == seq![line] + lines_of(rest),
        line.len() == 0 || line.last() != '\r' ==> lines_of(line + seq!['\n'] + rest) == seq![line]
            + lines_of(rest),
        line.len() > 0 ==> lines_of(line) == seq![line],
        lines_of(Seq::empty()) == Seq::<Seq<char>>::empty(),
{
    let a = line + seq!['\r', '\n'] + rest;
    let n = line.len() as int;
    assert(a[n + 1] == '\n');
    assert forall|j: int| 0 <= j < n + 1 implies a[j] != '\n' by {
        if j < n {
            assert(a[j] == line[j]);
        } else {
            assert(a[j] == '\r');
        }
    }
    lemma_find_is(a, '\n', n + 1);
    assert(a.take(n + 1) =~= line.push('\r'));
    assert(line.push('\r').drop_last() =~= line);
    assert(a.skip(n + 2) =~= rest);
    let b = line + seq!['\n'] + rest;
    assert(b[n] == '\n');
    assert forall|j: int| 0 <= j < n implies b[j] != '\n' by {
        assert(b[j] == line[j]);
    }
    lemma_find_is(b, '\n', n);
    assert(b.take(n) =~= line);
    assert(b.skip(n + 1) =~= rest);
    lemma_find(line, '\n');
}

/// A number reads back from its digits exactly where it is not beyond the bound, with a plus
/// sign before them or not; an empty text and one with anything else in it are no number.
pub proof fn law_number_reads_its_digits(n: nat, max: nat, other: Seq<char>, i: int)
    ensures
        n <= max ==> number(decimal(n), max) == Some(n) && number(
            seq!['+'] + decimal(n),
            max,
        ) == Some(n),
        n > max ==> number(decimal(n), max) is None && number(seq!['+'] + decimal(n), max) is None,
        number(Seq::empty(), max) is None,
        number(seq!['+'], max) is None,
        0 < i < other.len() && !digit(other[i]) ==> number(other, max) is None,
        other.len() > 0 && !digit(other[0]) && other[0] != '+' ==> number(other, max) is None,
{
    lemma_decimal(n);
    let d = decimal(n);
    assert(digit(d[0]));
    assert((seq!['+'] + d).skip(1) =~= d);
    assert(seq!['+'].skip(1) =~= Seq::<char>::empty());
    if 0 < i < other.len() && !digit(other[i]) && other[0] == '+' {
        assert(other.skip(1)[i - 1] == other[i]);
    }
}

/// A number is written without a zero before it.
pub proof fn law_number_is_written_without_leading_zeros(n: nat)
    ensures
        n < 10 ==> decimal(n).len() == 1,
        n > 0 ==> decimal(n)[0] != '0',
        decimal_value(decimal(n)) == n,
    decreases n,
{
    lemma_decimal(n);
    if n >= 10 {
        law_number_is_written_without_leading_zeros(n / 10);
        lemma_decimal(n / 10);
        assert(decimal(n)[0] == decimal(n / 10)[0]);
    }
}

/// The value of a hexadecimal digit.
pub open spec fn hex_value(c: char) -> int {
    if '0' <= c <= '9' {
        c as u32 - '0' as u32
    } else {
        c as u32 - 'a' as u32 + 10
    }
}

/// Hexadecimal writes each byte as two of the digits 0 to 9 and a to f, the higher one first.
pub proof fn law_hex_writes_two_digits_a_byte(bytes: Seq<u8>, i: int)
    requires
        0 <= i < bytes.len(),
    ensures
        hex(bytes).len() == 2 * bytes.len(),
        ({
            let high = hex(bytes)[2 * i];
            let low = hex(bytes)[2 * i + 1];
            &&& '0' <= high <= '9' || 'a' <= high <= 'f'
            &&& '0' <= low <= '9' || 'a' <= low <= 'f'
            &&& bytes[i] == 16 * hex_value(high) + hex_value(low)
        }),
    decreases bytes.len(),
{
    lemma_hex(bytes);
    lemma_hex(bytes.drop_last());
    if i < bytes.len() - 1 {
        law_hex_writes_two_digits_a_byte(bytes.drop_last(), i);
        assert(hex(bytes)[2 * i] == hex(bytes.drop_last())[2 * i]);
        assert(hex(bytes)[2 * i + 1] == hex(bytes.drop_last())[2 * i + 1]);
    } else {
        let b = bytes.last();
        assert(hex(bytes)[2 * i] == hex_char((b / 16) as nat));
        assert(hex(bytes)[2 * i + 1] == hex_char((b % 16) as nat));
    }
}

/// Joining puts the separator between each two parts and nowhere else.
pub proof fn law_joining_puts_the_separator_between<A>(
    parts: Seq<Seq<A>>,
    part: Seq<A>,
    sep: Seq<A>,
)
    ensures
        joined(Seq::<Seq<A>>::empty(), sep) == Seq::<A>::empty(),
        joined(seq![part], sep) == part,
        parts.len() > 0 ==> joined(parts.push(part), sep) == joined(parts, sep) + sep + part,
{
    assert(parts.push(part).drop_last() =~= parts);
}

/// White space, digits, letters and hexadecimal digits are the characters that Unicode and
/// ASCII say they are.
pub proof fn law_character_classes(c: char, d: nat)
    requires
        d < 16,
    ensures
        white_space(c) <==> c == '\t' || c == '\n' || c as u32 == 0x0b || c as u32 == 0x0c || c
            == '\r' || c == ' ' || c as u32 == 0x85 || c as u32 == 0xa0 || c as u32 == 0x1680 || (
        0x2000 <= c as u32 && c as u32 <= 0x200a) || c as u32 == 0x2028 || c as u32 == 0x2029 || c
            as u32 == 0x202f || c as u32 == 0x205f || c as u32 == 0x3000,
        digit(c) <==> '0' <= c <= '9',
        alphabetic(c) <==> 'a' <= c <= 'z' || 'A' <= c <= 'Z',
        alphanumeric(c) <==> 'a' <= c <= 'z' || 'A' <= c <= 'Z' || '0' <= c <= '9',
        hex_value(hex_char(d)) == d,
        d < 10 ==> upper_hex_char(d) as u32 == '0' as u32 + d,
        d >= 10 ==> upper_hex_char(d) as u32 == 'A' as u32 + d - 10,
{
}

} // verus!
