//! What the macros of a domain-spec expand to.

use vstd::prelude::*;
use vstd::utf8::encode_utf8;

use crate::ip::{ipv4_text, IpAddr};
use crate::network::spf::macro_expand::{
    delimiter, digit_run, dotted, expanded, letter_value, macro_text, nibbles,
    percent_encoded, split_any, MacroContextView,
};
use crate::text::{
    all_digits, decimal, digit, hex_char, joined, lemma_decimal, lemma_find, lemma_find_is,
    lower_char, number, upper_hex_char,
};
use crate::text_laws::{hex_value, law_number_reads_its_digits};

verus! {

/// Text put before what an expansion gives, if it gives anything.
pub open spec fn put_before(text: Seq<char>, r: Result<Seq<char>, Seq<char>>) -> Result<
    Seq<char>,
    Seq<char>,
> {
    match r {
        Ok(more) => Ok(text + more),
        Err(reason) => Err(reason),
    }
}

/// An expansion goes through a domain-spec from the left: `%%` stands for a percent sign,
/// `%_` for a space, `%-` for an encoded space, a macro in braces for its text, and any other
/// character but the percent sign for itself. A percent sign before anything else, or a
/// brace without its end, is malformed.
pub proof fn law_expansion_goes_from_the_left(
    c: char,
    rest: Seq<char>,
    body: Seq<char>,
    ctx: MacroContextView,
)
    requires
        forall|i: int| 0 <= i < body.len() ==> body[i] != '}',
    ensures
        expanded(Seq::empty(), ctx) == Ok::<_, Seq<char>>(Seq::<char>::empty()),
        c != '%' ==> expanded(seq![c] + rest, ctx) == put_before(seq![c], expanded(rest, ctx)),
        expanded(seq!['%', '%'] + rest, ctx) == put_before(seq!['%'], expanded(rest, ctx)),
        expanded(seq!['%', '_'] + rest, ctx) == put_before(seq![' '], expanded(rest, ctx)),
        expanded(seq!['%', '-'] + rest, ctx) == put_before(
            seq!['%', '2', '0'],
            expanded(rest, ctx),
        ),
        expanded(seq!['%', '{'] + body + seq!['}'] + rest, ctx) == match macro_text(body, ctx) {
            Ok(text) => put_before(text, expanded(rest, ctx)),
            Err(reason) => Err(reason),
        },
        expanded(seq!['%', '{'] + body, ctx) is Err,
        c != '%' && c != '_' && c != '-' && c != '{' ==> expanded(seq!['%', c] + rest, ctx) is Err,
        expanded(seq!['%'], ctx) is Err,
{
    reveal_strlit("%20");
    assert("%20"@ =~= seq!['%', '2', '0']);
    assert((seq![c] + rest).skip(1) =~= rest);
    assert((seq!['%', '%'] + rest).skip(2) =~= rest);
    assert((seq!['%', '_'] + rest).skip(2) =~= rest);
    assert((seq!['%', '-'] + rest).skip(2) =~= rest);
    let whole = seq!['%', '{'] + body + seq!['}'] + rest;
    let n = body.len() as int;
    let inner = whole.skip(2);
    assert(inner =~= body + seq!['}'] + rest);
    assert(inner[n] == '}');
    assert forall|i: int| 0 <= i < n implies inner[i] != '}' by {
        assert(inner[i] == body[i]);
    }
    lemma_find_is(inner, '}', n);
    assert(inner.take(n) =~= body);
    assert(whole.skip(n + 3) =~= rest);
    let open = seq!['%', '{'] + body;
    assert(open.skip(2) =~= body);
    lemma_find(body, '}');
}

/// What a macro letter stands for: the sender, its local part and its domain, the current
/// domain, the HELO name, the client's address in dotted form, the reverse zone of its
/// family, and the name of the client, which is not looked up.
pub open spec fn stands_for_letter(letter: char, ctx: MacroContextView, value: Seq<char>) -> bool {
    ||| letter == 's' && value == ctx.sender_local + seq!['@'] + ctx.sender_domain
    ||| letter == 'l' && value == ctx.sender_local
    ||| letter == 'o' && value == ctx.sender_domain
    ||| letter == 'd' && value == ctx.domain
    ||| letter == 'h' && value == ctx.helo
    ||| letter == 'i' && value == dotted(ctx.ip)
    ||| letter == 'v' && ctx.ip is V4 && value == "in-addr"@
    ||| letter == 'v' && ctx.ip is V6 && value == "ip6"@
    ||| letter == 'p' && value == "unknown"@
}

/// A macro of a small letter alone is the letter's value, and one of a capital letter that
/// value percent-encoded. Other letters, and no letter, are malformed.
pub proof fn law_letter_alone_is_its_value(letter: char, ctx: MacroContextView, value: Seq<char>)
    ensures
        stands_for_letter(letter, ctx, value) ==> macro_text(seq![letter], ctx) == Ok::<
            _,
            Seq<char>,
        >(value),
        'A' <= letter <= 'Z' && stands_for_letter(lower_char(letter), ctx, value) ==> macro_text(
            seq![letter],
            ctx,
        ) == Ok::<_, Seq<char>>(percent_encoded(encode_utf8(value))),
        (forall|v: Seq<char>| !stands_for_letter(lower_char(letter), ctx, v)) ==> macro_text(
            seq![letter],
            ctx,
        ) is Err,
        macro_text(Seq::empty(), ctx) is Err,
{
    reveal_strlit("@");
    assert("@"@ =~= seq!['@']);
    let body = seq![letter];
    let rest = body.skip(1);
    assert(rest =~= Seq::<char>::empty());
    assert(digit_run(rest) == 0);
    assert(rest.skip(0) =~= Seq::<char>::empty());
    lemma_split_joined(value, seq!['.']);
    if letter_value(lower_char(letter), ctx) is Some {
        assert(stands_for_letter(
            lower_char(letter),
            ctx,
            letter_value(lower_char(letter), ctx)->0,
        ));
    }
}

/// Whether a character separates the parts of a value: one of `.`, `-`, `+`, `,`, `/`, `_` and
/// `=`.
pub open spec fn separates(c: char) -> bool {
    match c {
        '.' | '-' | '+' | ',' | '/' | '_' | '=' => true,
        _ => false,
    }
}

/// A macro with a count keeps that many of the parts of its value, from the right, and one
/// with `r` takes them in reverse; the parts stand between the delimiters that it names, or
/// between dots, and are joined with dots.
pub proof fn law_transformers_take_parts(
    letter: char,
    count: nat,
    reverse: bool,
    delims: Seq<char>,
    ctx: MacroContextView,
    value: Seq<char>,
)
    requires
        stands_for_letter(letter, ctx, value),
        forall|i: int| 0 <= i < delims.len() ==> separates(#[trigger] delims[i]),
        count <= usize::MAX,
    ensures
        ({
            let marks = if reverse {
                seq!['r']
            } else {
                Seq::<char>::empty()
            };
            let split = split_any(
                value,
                if delims.len() == 0 {
                    seq!['.']
                } else {
                    delims
                },
            );
            let parts = if reverse {
                Seq::new(split.len(), |i: int| split[split.len() - 1 - i])
            } else {
                split
            };
            let kept = if count < parts.len() {
                parts.subrange(parts.len() - count, parts.len() as int)
            } else {
                parts
            };
            &&& macro_text(seq![letter] + marks + delims, ctx) == Ok::<_, Seq<char>>(
                joined(parts, seq!['.']),
            )
            &&& macro_text(seq![letter] + decimal(count) + marks + delims, ctx) == Ok::<
                _,
                Seq<char>,
            >(joined(kept, seq!['.']))
        }),
{
    reveal_strlit("@");
    assert("@"@ =~= seq!['@']);
    let marks = if reverse {
        seq!['r']
    } else {
        Seq::<char>::empty()
    };
    let tail = marks + delims;
    let split = split_any(
        value,
        if delims.len() == 0 {
            seq!['.']
        } else {
            delims
        },
    );
    assert(split.reverse() =~= Seq::new(split.len(), |i: int| split[split.len() - 1 - i]));
    if delims.len() > 0 {
        assert(delimiter(delims[0]));
    }
    assert(tail.len() > 0 ==> !digit(tail[0])) by {
        if tail.len() > 0 {
            if reverse {
                assert(tail[0] == 'r');
            } else {
                assert(tail[0] == delims[0]);
            }
        }
    }
    if reverse {
        assert(tail.skip(1) =~= delims);
    } else {
        assert(tail =~= delims);
        assert(tail.len() > 0 ==> tail[0] != 'r' && tail[0] != 'R');
    }
    let a = seq![letter] + marks + delims;
    assert(a.skip(1) =~= tail);
    assert(digit_run(tail) == 0);
    assert(tail.skip(0) =~= tail);
    let b = seq![letter] + decimal(count) + marks + delims;
    assert(b.skip(1) =~= decimal(count) + tail);
    lemma_decimal(count);
    lemma_run_of_digits(decimal(count), tail);
    law_number_reads_its_digits(count, usize::MAX as nat, Seq::empty(), 0);
    let n = decimal(count).len() as int;
    assert((decimal(count) + tail).take(n) =~= decimal(count));
    assert((decimal(count) + tail).skip(n) =~= tail);
    let parts = if reverse {
        split.reverse()
    } else {
        split
    };
    if count < parts.len() {
        assert(parts.skip(parts.len() - count) =~= parts.subrange(
            parts.len() - count,
            parts.len() as int,
        ));
    }
}

/// A macro with anything but delimiters behind its letter, count and `r` is malformed.
pub proof fn law_other_delimiters_are_malformed(
    letter: char,
    tail: Seq<char>,
    i: int,
    ctx: MacroContextView,
)
    requires
        0 <= i < tail.len(),
        !separates(tail[i]),
        !digit(tail[0]),
        i == 0 ==> tail[0] != 'r' && tail[0] != 'R',
    ensures
        macro_text(seq![letter] + tail, ctx) is Err,
{
    let body = seq![letter] + tail;
    assert(body.skip(1) =~= tail);
    assert(digit_run(tail) == 0);
    assert(tail.skip(0) =~= tail);
    if i > 0 {
        assert(tail.skip(1)[i - 1] == tail[i]);
    }
}

/// The parts of a value stand between its delimiters: a value without one is one part, and a
/// delimiter puts the parts of what is before it before those of what is after it.
pub proof fn law_parts_stand_between_delimiters(
    a: Seq<char>,
    c: char,
    b: Seq<char>,
    delims: Seq<char>,
)
    requires
        delims.contains(c),
    ensures
        (forall|i: int| 0 <= i < a.len() ==> !delims.contains(#[trigger] a[i])) ==> split_any(
            a,
            delims,
        ) == seq![a],
        split_any(a + seq![c] + b, delims) == split_any(a, delims) + split_any(b, delims),
{
    if forall|i: int| 0 <= i < a.len() ==> !delims.contains(#[trigger] a[i]) {
        lemma_one_part(a, delims);
    }
    lemma_parts_apart(a, c, b, delims);
}

proof fn lemma_parts_apart(a: Seq<char>, c: char, b: Seq<char>, delims: Seq<char>)
    requires
        delims.contains(c),
    ensures
        split_any(a + seq![c] + b, delims) == split_any(a, delims) + split_any(b, delims),
        split_any(b, delims).len() > 0,
    decreases b.len(),
{
    let s = a + seq![c] + b;
    let left = split_any(a, delims);
    if b.len() == 0 {
        assert(s.drop_last() =~= a);
        assert(s.last() == c);
        assert(left.push(Seq::empty()) =~= left + seq![Seq::<char>::empty()]);
    } else {
        lemma_parts_apart(a, c, b.drop_last(), delims);
        assert(s.drop_last() =~= a + seq![c] + b.drop_last());
        assert(s.last() == b.last());
        let right = split_any(b.drop_last(), delims);
        assert((left + right).last() == right.last());
        assert((left + right).drop_last() =~= left + right.drop_last());
        assert(split_any(s, delims) =~= left + split_any(b, delims));
    }
}

proof fn lemma_one_part(a: Seq<char>, delims: Seq<char>)
    requires
        forall|i: int| 0 <= i < a.len() ==> !delims.contains(#[trigger] a[i]),
    ensures
        split_any(a, delims) == seq![a],
    decreases a.len(),
{
    if a.len() > 0 {
        let front = a.drop_last();
        assert forall|i: int| 0 <= i < front.len() implies !delims.contains(#[trigger] front[i]) by {
            assert(front[i] == a[i]);
        }
        lemma_one_part(front, delims);
        assert(!delims.contains(a[a.len() - 1]));
        assert(front.push(a.last()) =~= a);
        assert(seq![front].drop_last().push(a) =~= seq![a]);
    } else {
        assert(a =~= Seq::empty());
    }
}

/// Splitting at one character and joining with it gives the text back.
proof fn lemma_split_joined(s: Seq<char>, sep: Seq<char>)
    requires
        sep.len() == 1,
    ensures
        split_any(s, sep).len() > 0,
        joined(split_any(s, sep), sep) == s,
    decreases s.len(),
{
    if s.len() == 0 {
        assert(s =~= Seq::empty());
    } else {
        let front = s.drop_last();
        lemma_split_joined(front, sep);
        let before = split_any(front, sep);
        let all = split_any(s, sep);
        if sep.contains(s.last()) {
            assert(sep[0] == s.last());
            assert(all.drop_last() =~= before);
            assert(joined(all, sep) =~= front + sep + Seq::<char>::empty());
            assert(s =~= front + sep);
        } else {
            let last = before.last().push(s.last());
            assert(all.drop_last() =~= before.drop_last());
            if before.len() == 1 {
                assert(s =~= last);
            } else {
                assert(joined(all, sep) =~= (joined(before.drop_last(), sep) + sep
                    + before.last()).push(s.last()));
                assert(s =~= front.push(s.last()));
            }
        }
    }
}

proof fn lemma_run_of_digits(digits: Seq<char>, tail: Seq<char>)
    requires
        all_digits(digits),
        tail.len() > 0 ==> !digit(tail[0]),
    ensures
        digit_run(digits + tail) == digits.len(),
    decreases digits.len(),
{
    let s = digits + tail;
    if digits.len() > 0 {
        let rest = digits.drop_first();
        assert(s[0] == digits[0]);
        assert(digit(digits[0]));
        assert forall|i: int| 0 <= i < rest.len() implies digit(#[trigger] rest[i]) by {
            assert(rest[i] == digits[i + 1]);
        }
        assert(s.drop_first() =~= rest + tail);
        lemma_run_of_digits(rest, tail);
    } else {
        assert(s =~= tail);
    }
}

/// The number that hexadecimal digits denote, one digit to a part.
pub open spec fn denoted(parts: Seq<Seq<char>>) -> int
    decreases parts.len(),
{
    if parts.len() == 0 {
        0
    } else {
        16 * denoted(parts.drop_last()) + hex_value(parts.last()[0])
    }
}

/// The client's address in dotted form is its text for IPv4, and for IPv6 the thirty-two
/// digits of the address, the highest first, with dots between them.
pub proof fn law_dotted_address_is_its_digits(ip: IpAddr)
    ensures
        match ip {
            IpAddr::V4(v4) => dotted(ip) == ipv4_text(v4.bits),
            IpAddr::V6(v6) => exists|parts: Seq<Seq<char>>|
                parts.len() == 32 && (forall|i: int|
                    0 <= i < 32 ==> (#[trigger] parts[i]).len() == 1) && #[trigger] denoted(parts)
                    == v6.bits && dotted(ip) == joined(parts, seq!['.']),
        },
{
    if let IpAddr::V6(v6) = ip {
        lemma_nibbles(v6.bits, 32);
        let parts = nibbles(v6.bits, 32);
        assert(v6.bits < 0x1_0000_0000_0000_0000_0000_0000_0000_0000int);
        lemma_power();
        assert(denoted(parts) == v6.bits);
    }
}

/// Sixteen to a power.
pub open spec fn sixteens(n: nat) -> nat
    decreases n,
{
    if n == 0 {
        1
    } else {
        16 * sixteens((n - 1) as nat)
    }
}

proof fn lemma_power()
    ensures
        sixteens(32) == 0x1_0000_0000_0000_0000_0000_0000_0000_0000int,
{
    reveal_with_fuel(sixteens, 33);
}

proof fn lemma_nibbles(bits: u128, n: nat)
    ensures
        nibbles(bits, n).len() == n,
        forall|i: int| 0 <= i < n ==> (#[trigger] nibbles(bits, n)[i]).len() == 1,
        bits < sixteens(n) ==> denoted(nibbles(bits, n)) == bits,
    decreases n,
{
    if n > 0 {
        lemma_nibbles(bits / 16, (n - 1) as nat);
        let before = nibbles(bits / 16, (n - 1) as nat);
        let all = nibbles(bits, n);
        assert(all.drop_last() =~= before);
        let d = (bits % 16) as nat;
        assert(all.last() == seq![hex_char(d)]);
        assert(hex_value(hex_char(d)) == d);
    }
}

/// Percent-encoding leaves letters, digits and the marks `-`, `.`, `_` and `~`, and writes
/// any other byte as a percent sign and two hexadecimal digits.
pub proof fn law_percent_encoding_is_by_byte(bytes: Seq<u8>, b: u8)
    ensures
        percent_encoded(Seq::empty()) == Seq::<char>::empty(),
        ({
            let c = b as char;
            let kept = 'a' <= c <= 'z' || 'A' <= c <= 'Z' || '0' <= c <= '9' || c == '-' || c == '.'
                || c == '_' || c == '~';
            percent_encoded(bytes.push(b)) == percent_encoded(bytes) + if kept {
                seq![c]
            } else {
                seq!['%', upper_hex_char((b / 16) as nat), upper_hex_char((b % 16) as nat)]
            }
        }),
{
    assert(bytes.push(b).drop_last() =~= bytes);
    let before = percent_encoded(bytes);
    assert(before.push(b as char) =~= before + seq![b as char]);
}

} // verus!
