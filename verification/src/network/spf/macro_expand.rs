//! SPF macro expansion (RFC 7208 §7). Domain-specs in `a`, `mx`, `include`,
//! `exists`, `redirect` and `ptr` may embed macros like `%{i}`, `%{s}`, `%{d2r}`;
//! they are expanded against the current evaluation context just before the DNS
//! lookup the mechanism performs.
//!
//! The validated-PTR macro `%{p}` is not resolved (RFC 7208 §7.3 explicitly
//! discourages it and permits the literal fallback `unknown`); that fallback is
//! used rather than the expensive, easily spoofed PTR validation.

use vstd::prelude::*;
use vstd::slice::{slice_subrange, slice_to_vec};
use vstd::utf8::encode_utf8;

use crate::ip::{ipv4_text, IpAddr};
use crate::network::error::NetworkError;
use crate::network::spf::record::spf_error;
use crate::text::{
    chars_of, concat3, digit, find, find_char, hex_char, is_digit, join, joined, lower_char, number,
    parse_number, pieces, push_all, push_str, string_of, to_hex_char, to_lower_char,
    to_upper_hex_char, upper_hex_char,
};

verus! {

/// The values a macro can reference during one `check_host` evaluation.
pub struct MacroContext<'a> {
    /// The connecting client IP (`%{i}`, `%{v}`).
    pub ip: IpAddr,
    /// Local-part of the `MAIL FROM` sender (`%{l}`).
    pub sender_local: &'a str,
    /// Domain of the `MAIL FROM` sender (`%{o}`).
    pub sender_domain: &'a str,
    /// The HELO/EHLO domain (`%{h}`).
    pub helo: &'a str,
    /// The domain currently being evaluated (`%{d}`).
    pub domain: &'a str,
}

/// What a [`MacroContext`] holds.
pub struct MacroContextView {
    pub ip: IpAddr,
    pub sender_local: Seq<char>,
    pub sender_domain: Seq<char>,
    pub helo: Seq<char>,
    pub domain: Seq<char>,
}

impl<'a> View for MacroContext<'a> {
    type V = MacroContextView;

    open spec fn view(&self) -> MacroContextView {
        MacroContextView {
            ip: self.ip,
            sender_local: self.sender_local@,
            sender_domain: self.sender_domain@,
            helo: self.helo@,
            domain: self.domain@,
        }
    }
}

// ---------------------------------------------------------------------------
// Values
// ---------------------------------------------------------------------------

/// The nibbles of an IPv6 address, the first being the highest.
pub open spec fn nibbles(bits: u128, n: nat) -> Seq<Seq<char>>
    decreases n,
{
    if n == 0 {
        Seq::empty()
    } else {
        nibbles(bits / 16, (n - 1) as nat).push(seq![hex_char((bits % 16) as nat)])
    }
}

/// The `%{i}` form of an address: an IPv4 address as dotted quad, an IPv6 address
/// as 32 dot-joined nibbles (RFC 7208 §7.3).
pub open spec fn dotted(ip: IpAddr) -> Seq<char> {
    match ip {
        IpAddr::V4(v4) => ipv4_text(v4.bits),
        IpAddr::V6(v6) => joined(nibbles(v6.bits, 32), seq!['.']),
    }
}

/// The expansion value for a (lowercased) macro letter. `c`, `r` and `t` are
/// exp-string-only macros, never valid in a domain-spec.
pub open spec fn letter_value(letter: char, ctx: MacroContextView) -> Option<Seq<char>> {
    if letter == 's' {
        Some(ctx.sender_local + "@"@ + ctx.sender_domain)
    } else if letter == 'l' {
        Some(ctx.sender_local)
    } else if letter == 'o' {
        Some(ctx.sender_domain)
    } else if letter == 'd' {
        Some(ctx.domain)
    } else if letter == 'h' {
        Some(ctx.helo)
    } else if letter == 'i' {
        Some(dotted(ctx.ip))
    } else if letter == 'v' {
        Some(
            if ctx.ip is V4 {
                "in-addr"@
            } else {
                "ip6"@
            },
        )
    } else if letter == 'p' {
        Some("unknown"@)
    } else {
        None
    }
}

/// The nibbles of an IPv6 address.
fn write_nibbles(bits: u128, n: u32) -> (r: Vec<Vec<char>>)
    ensures
        pieces(r@) == nibbles(bits, n as nat),
    decreases n,
{
    if n == 0 {
        let out: Vec<Vec<char>> = Vec::new();
        assert(pieces(out@) =~= nibbles(bits, 0));
        return out;
    }
    let mut out = write_nibbles(bits / 16, n - 1);
    let mut one: Vec<char> = Vec::new();
    one.push(to_hex_char((bits % 16) as u8));
    let ghost before = out@;
    proof {
        assert(one@ =~= seq![hex_char((bits % 16) as nat)]);
        assert(pieces(before.push(one)) =~= pieces(before).push(one@));
    }
    out.push(one);
    out
}

/// The `%{i}` form of an address.
fn ip_dotted(ip: IpAddr) -> (r: Vec<char>)
    ensures
        r@ == dotted(ip),
{
    match ip {
        IpAddr::V4(v4) => {
            let text = v4.to_string();
            chars_of(text.as_str())
        },
        IpAddr::V6(v6) => {
            let parts = write_nibbles(v6.bits, 32);
            let sep: [char; 1] = ['.'];
            assert(sep@ =~= seq!['.']);
            join(&parts, &sep)
        },
    }
}

/// The expansion value for a (lowercased) macro letter.
fn macro_value(letter: char, ctx: &MacroContext) -> (r: Option<Vec<char>>)
    ensures
        match (r, letter_value(letter, ctx@)) {
            (Some(x), Some(y)) => x@ == y,
            (None, None) => true,
            _ => false,
        },
{
    match letter {
        's' => {
            let mut out = chars_of(ctx.sender_local);
            push_str(&mut out, "@");
            push_str(&mut out, ctx.sender_domain);
            Some(out)
        },
        'l' => Some(chars_of(ctx.sender_local)),
        'o' => Some(chars_of(ctx.sender_domain)),
        'd' => Some(chars_of(ctx.domain)),
        'h' => Some(chars_of(ctx.helo)),
        'i' => Some(ip_dotted(ctx.ip)),
        'v' => match ctx.ip {
            IpAddr::V4(_) => Some(chars_of("in-addr")),
            IpAddr::V6(_) => Some(chars_of("ip6")),
        },
        'p' => Some(chars_of("unknown")),
        _ => None,
    }
}

// ---------------------------------------------------------------------------
// Transformers
// ---------------------------------------------------------------------------

/// A delimiter allowed in the macro transformer section (RFC 7208 §7.1).
pub open spec fn delimiter(c: char) -> bool {
    c == '.' || c == '-' || c == '+' || c == ',' || c == '/' || c == '_' || c == '='
}

/// Whether every character is a delimiter.
pub open spec fn all_delimiters(s: Seq<char>) -> bool {
    forall|i: int| 0 <= i < s.len() ==> delimiter(#[trigger] s[i])
}

/// The number of decimal digits that a text begins with.
pub open spec fn digit_run(s: Seq<char>) -> nat
    decreases s.len(),
{
    if s.len() > 0 && digit(s[0]) {
        1 + digit_run(s.drop_first())
    } else {
        0
    }
}

/// The pieces between the occurrences of any of the delimiters.
pub open spec fn split_any(s: Seq<char>, delims: Seq<char>) -> Seq<Seq<char>>
    decreases s.len(),
{
    if s.len() == 0 {
        seq![Seq::empty()]
    } else {
        let before = split_any(s.drop_last(), delims);
        if delims.contains(s.last()) {
            before.push(Seq::empty())
        } else {
            before.drop_last().push(before.last().push(s.last()))
        }
    }
}

/// The parts of a macro value after the transformer: split at the delimiters (a
/// dot where there are none), reversed where asked, then only the `keep` right-most
/// ones where that is fewer.
pub open spec fn transformed(
    value: Seq<char>,
    delims: Seq<char>,
    reverse: bool,
    keep: Option<nat>,
) -> Seq<Seq<char>> {
    let parts = split_any(
        value,
        if delims.len() == 0 {
            seq!['.']
        } else {
            delims
        },
    );
    let parts = if reverse {
        parts.reverse()
    } else {
        parts
    };
    if keep is Some && keep->0 < parts.len() {
        parts.skip(parts.len() - keep->0)
    } else {
        parts
    }
}

/// An RFC 3986 "unreserved" byte.
pub open spec fn unreserved(b: u8) -> bool {
    (0x30 <= b <= 0x39) || (0x41 <= b <= 0x5a) || (0x61 <= b <= 0x7a) || b == 0x2d || b == 0x2e || b
        == 0x5f || b == 0x7e
}

/// Bytes as text, each one that is not unreserved percent-encoded.
pub open spec fn percent_encoded(bytes: Seq<u8>) -> Seq<char>
    decreases bytes.len(),
{
    if bytes.len() == 0 {
        Seq::empty()
    } else {
        let before = percent_encoded(bytes.drop_last());
        let b = bytes.last();
        if unreserved(b) {
            before.push(b as char)
        } else {
            before + seq![
                '%',
                upper_hex_char((b / 16) as nat),
                upper_hex_char((b % 16) as nat),
            ]
        }
    }
}

/// The expansion of the body of a `%{...}` macro, which is
/// `<letter><digits?><r?><delimiters?>`, or what is wrong with it. An uppercase
/// letter asks for the value percent-encoded.
pub open spec fn macro_text(body: Seq<char>, ctx: MacroContextView) -> Result<
    Seq<char>,
    Seq<char>,
> {
    let letter = body[0];
    let rest = body.skip(1);
    let digits = digit_run(rest) as int;
    let keep = number(rest.take(digits), usize::MAX as nat);
    let tail = rest.skip(digits);
    let reverse = tail.len() > 0 && (tail[0] == 'r' || tail[0] == 'R');
    let delims = if reverse {
        tail.skip(1)
    } else {
        tail
    };
    let value = letter_value(lower_char(letter), ctx);
    if body.len() == 0 {
        Err("empty macro `%{}`"@)
    } else if digits > 0 && keep is None {
        Err("bad macro digit count"@)
    } else if !all_delimiters(delims) {
        Err("invalid macro transformer delimiters"@)
    } else if value is None {
        Err("unknown macro letter `"@ + seq![letter] + "`"@)
    } else {
        let parts = transformed(
            value->0,
            delims,
            reverse,
            if digits > 0 {
                keep
            } else {
                None
            },
        );
        let text = joined(parts, seq!['.']);
        if 'A' <= letter && letter <= 'Z' {
            Ok(percent_encoded(encode_utf8(text)))
        } else {
            Ok(text)
        }
    }
}

/// A prefix put before the text of a result.
pub open spec fn after(prefix: Seq<char>, r: Result<Seq<char>, Seq<char>>) -> Result<
    Seq<char>,
    Seq<char>,
> {
    match r {
        Ok(text) => Ok(prefix + text),
        Err(reason) => Err(reason),
    }
}

/// The expansion of all macros in a domain-spec, or what is wrong with the first
/// bad one: `%%` is a percent sign, `%_` a space, `%-` is `%20`, and `%{...}` a
/// macro.
pub open spec fn expanded(spec: Seq<char>, ctx: MacroContextView) -> Result<Seq<char>, Seq<char>>
    decreases spec.len(),
{
    if spec.len() == 0 {
        Ok(Seq::empty())
    } else if spec[0] != '%' {
        after(seq![spec[0]], expanded(spec.skip(1), ctx))
    } else if spec.len() > 1 && spec[1] == '%' {
        after(seq!['%'], expanded(spec.skip(2), ctx))
    } else if spec.len() > 1 && spec[1] == '_' {
        after(seq![' '], expanded(spec.skip(2), ctx))
    } else if spec.len() > 1 && spec[1] == '-' {
        after("%20"@, expanded(spec.skip(2), ctx))
    } else if spec.len() > 1 && spec[1] == '{' {
        match find(spec.skip(2), '}') {
            None => Err("unterminated macro `%{`"@),
            Some(n) => match macro_text(spec.skip(2).take(n), ctx) {
                Err(reason) => Err(reason),
                Ok(text) => if 0 <= n && n + 3 <= spec.len() {
                    after(text, expanded(spec.skip(n + 3), ctx))
                } else {
                    Ok(text)
                },
            },
        }
    } else {
        Err("invalid macro escape (expected %%, %_, %-, or %{...})"@)
    }
}

fn err(reason: &str) -> (r: NetworkError)
    ensures
        r@ == spf_error(reason@),
{
    NetworkError::record("SPF", reason)
}

/// Whether a character is among some others.
fn among(c: char, set: &[char]) -> (r: bool)
    ensures
        r == set@.contains(c),
{
    let mut i: usize = 0;
    while i < set.len()
        invariant
            i <= set@.len(),
            forall|j: int| 0 <= j < i ==> set@[j] != c,
        decreases set.len() - i,
    {
        if set[i] == c {
            return true;
        }
        i = i + 1;
    }
    false
}

/// Whether every character is a delimiter.
fn are_delimiters(s: &[char]) -> (r: bool)
    ensures
        r == all_delimiters(s@),
{
    let mut i: usize = 0;
    while i < s.len()
        invariant
            i <= s@.len(),
            forall|j: int| 0 <= j < i ==> delimiter(#[trigger] s@[j]),
        decreases s.len() - i,
    {
        let c = s[i];
        if !(c == '.' || c == '-' || c == '+' || c == ',' || c == '/' || c == '_' || c == '=') {
            assert(!delimiter(s@[i as int]));
            return false;
        }
        i = i + 1;
    }
    true
}

/// The pieces between the occurrences of any of the delimiters.
fn split_at_any(s: &[char], delims: &[char]) -> (r: Vec<Vec<char>>)
    ensures
        pieces(r@) == split_any(s@, delims@),
{
    let mut out: Vec<Vec<char>> = Vec::new();
    let first: Vec<char> = Vec::new();
    out.push(first);
    let mut i: usize = 0;
    assert(first@ =~= Seq::empty());
    assert(pieces(out@) =~= seq![Seq::<char>::empty()]);
    while i < s.len()
        invariant
            i <= s@.len(),
            out@.len() > 0,
            pieces(out@) == split_any(s@.take(i as int), delims@),
        decreases s.len() - i,
    {
        proof {
            assert(s@.take(i + 1).drop_last() =~= s@.take(i as int));
            assert(s@.take(i + 1).last() == s@[i as int]);
        }
        let ghost before = out@;
        if among(s[i], delims) {
            let empty: Vec<char> = Vec::new();
            proof {
                assert(empty@ =~= Seq::empty());
                assert(pieces(before.push(empty)) =~= pieces(before).push(empty@));
            }
            out.push(empty);
        } else {
            let mut last = out.pop().unwrap();
            let ghost start = last@;
            last.push(s[i]);
            proof {
                assert(pieces(before).last() == start);
                assert(out@ =~= before.drop_last());
                assert(pieces(before.drop_last().push(last)) =~= pieces(before).drop_last().push(
                    last@,
                ));
            }
            out.push(last);
        }
        i = i + 1;
    }
    assert(s@.take(s@.len() as int) =~= s@);
    out
}

/// The pieces in the opposite order.
fn reversed(parts: &Vec<Vec<char>>) -> (r: Vec<Vec<char>>)
    ensures
        pieces(r@) == pieces(parts@).reverse(),
{
    let ghost all = pieces(parts@);
    let mut out: Vec<Vec<char>> = Vec::new();
    let mut n: usize = parts.len();
    while n > 0
        invariant
            n <= parts@.len(),
            all == pieces(parts@),
            pieces(out@) == all.reverse().take(all.len() - n),
        decreases n,
    {
        let part = slice_to_vec(parts[n - 1].as_slice());
        let ghost before = out@;
        proof {
            assert(pieces(before.push(part)) =~= pieces(before).push(part@));
            assert(all.reverse().take(all.len() - n + 1) =~= all.reverse().take(
                all.len() - n,
            ).push(all.reverse()[all.len() - n]));
        }
        out.push(part);
        n = n - 1;
    }
    assert(pieces(out@) =~= all.reverse());
    out
}

/// Apply a transformer to a macro value.
fn transform(value: &[char], delims: &[char], reverse: bool, keep: Option<usize>) -> (r: Vec<
    Vec<char>,
>)
    ensures
        pieces(r@) == transformed(
            value@,
            delims@,
            reverse,
            match keep {
                Some(n) => Some(n as nat),
                None => None,
            },
        ),
{
    let dot: [char; 1] = ['.'];
    assert(dot@ =~= seq!['.']);
    let mut parts = if delims.len() == 0 {
        split_at_any(value, &dot)
    } else {
        split_at_any(value, delims)
    };
    if reverse {
        parts = reversed(&parts);
    }
    if let Some(n) = keep {
        let len = parts.len();
        assert(pieces(parts@).len() == len);
        if n < len {
            let ghost all = parts@;
            let tail = parts.split_off(len - n);
            assert(pieces(tail@) =~= pieces(all).skip(len - n));
            return tail;
        }
    }
    parts
}

/// Percent-encode all but the RFC 3986 "unreserved" set (for uppercase macros).
fn url_escape(s: &str) -> (r: Vec<char>)
    ensures
        r@ == percent_encoded(encode_utf8(s@)),
{
    let bytes = s.as_bytes();
    let mut out: Vec<char> = Vec::new();
    let mut i: usize = 0;
    while i < bytes.len()
        invariant
            i <= bytes@.len(),
            out@ == percent_encoded(bytes@.take(i as int)),
        decreases bytes.len() - i,
    {
        assert(bytes@.take(i + 1).drop_last() =~= bytes@.take(i as int));
        let b = bytes[i];
        if (0x30 <= b && b <= 0x39) || (0x41 <= b && b <= 0x5a) || (0x61 <= b && b <= 0x7a) || b
            == 0x2d || b == 0x2e || b == 0x5f || b == 0x7e {
            out.push(b as char);
        } else {
            let ghost before = out@;
            out.push('%');
            out.push(to_upper_hex_char(b / 16));
            out.push(to_upper_hex_char(b % 16));
            assert(out@ =~= before + seq![
                '%',
                upper_hex_char((b / 16) as nat),
                upper_hex_char((b % 16) as nat),
            ]);
        }
        i = i + 1;
    }
    assert(bytes@.take(bytes@.len() as int) =~= bytes@);
    out
}

/// Expand the body of a single `%{...}` macro: `<letter><digits?><r?><delims?>`.
fn expand_one(body: &[char], ctx: &MacroContext) -> (r: Result<Vec<char>, NetworkError>)
    ensures
        match (r, macro_text(body@, ctx@)) {
            (Ok(x), Ok(y)) => x@ == y,
            (Err(e), Err(reason)) => e@ == spf_error(reason),
            _ => false,
        },
{
    let n = body.len();
    if n == 0 {
        return Err(err("empty macro `%{}`"));
    }
    let letter = body[0];
    let ghost rest = body@.skip(1);
    // Optional digit count (keep the N right-most parts).
    let mut d: usize = 1;
    assert(rest.skip(0) =~= rest);
    while d < n && is_digit(body[d])
        invariant
            1 <= d <= n,
            n == body@.len(),
            rest == body@.skip(1),
            digit_run(rest) == (d - 1) + digit_run(rest.skip(d - 1)),
        decreases n - d,
    {
        assert(rest.skip(d - 1).drop_first() =~= rest.skip(d as int));
        d = d + 1;
    }
    assert(digit_run(rest) == d - 1);
    let digits = slice_subrange(body, 1, d);
    assert(digits@ =~= rest.take(d - 1));
    let keep: Option<usize> = if d == 1 {
        None
    } else {
        match parse_number(digits, usize::MAX as u64) {
            Some(k) => Some(k as usize),
            None => {
                return Err(err("bad macro digit count"));
            },
        }
    };
    // Optional reverse flag.
    let ghost tail = rest.skip(d - 1);
    assert(tail =~= body@.skip(d as int));
    let reverse = d < n && (body[d] == 'r' || body[d] == 'R');
    let delims = if reverse {
        slice_subrange(body, d + 1, n)
    } else {
        slice_subrange(body, d, n)
    };
    assert(reverse ==> delims@ =~= tail.skip(1));
    assert(!reverse ==> delims@ =~= tail);
    // Remaining characters are the delimiter set; they must all be valid.
    if !are_delimiters(delims) {
        return Err(err("invalid macro transformer delimiters"));
    }
    let uppercase = 'A' <= letter && letter <= 'Z';
    let value = match macro_value(to_lower_char(letter), ctx) {
        Some(value) => value,
        None => {
            let mut name: Vec<char> = Vec::new();
            name.push(letter);
            assert(name@ =~= seq![letter]);
            let name = string_of(name.as_slice());
            let reason = concat3("unknown macro letter `", name.as_str(), "`");
            return Err(err(reason.as_str()));
        },
    };
    let parts = transform(value.as_slice(), delims, reverse, keep);
    let dot: [char; 1] = ['.'];
    assert(dot@ =~= seq!['.']);
    let text = join(&parts, &dot);
    if uppercase {
        let text = string_of(text.as_slice());
        Ok(url_escape(text.as_str()))
    } else {
        Ok(text)
    }
}

/// Expand all macros in `spec`. Returns the literal string ready for a DNS query.
///
/// # Errors
/// [`NetworkError::Record`] on a malformed macro (unterminated `%{`, unknown macro
/// letter, or a bad transformer); the evaluator maps this to `PermError`.
pub fn expand(spec: &str, ctx: &MacroContext) -> (r: Result<String, NetworkError>)
    ensures
        match (r, expanded(spec@, ctx@)) {
            (Ok(x), Ok(y)) => x@ == y,
            (Err(e), Err(reason)) => e@ == spf_error(reason),
            _ => false,
        },
{
    let chars = chars_of(spec);
    let s = chars.as_slice();
    let n = s.len();
    let ghost all = spec@;
    let mut out: Vec<char> = Vec::new();
    let mut i: usize = 0;
    proof {
        assert(all.skip(0) =~= all);
        lemma_after_nothing(expanded(all, ctx@));
        assert(out@ =~= Seq::empty());
    }
    while i < n
        invariant
            i <= n,
            n == s@.len(),
            s@ == all,
            all == spec@,
            expanded(all, ctx@) == after(out@, expanded(all.skip(i as int), ctx@)),
        decreases n - i,
    {
        let ghost t = all.skip(i as int);
        let ghost so_far = out@;
        let c = s[i];
        if c != '%' {
            proof {
                assert(t.skip(1) =~= all.skip(i + 1));
                lemma_after(so_far, seq![c], expanded(t.skip(1), ctx@));
                assert(so_far + seq![c] =~= so_far.push(c));
            }
            out.push(c);
            i = i + 1;
        } else if i + 1 < n && s[i + 1] == '%' {
            proof {
                assert(t.skip(2) =~= all.skip(i + 2));
                lemma_after(so_far, seq!['%'], expanded(t.skip(2), ctx@));
                assert(so_far + seq!['%'] =~= so_far.push('%'));
            }
            out.push('%');
            i = i + 2;
        } else if i + 1 < n && s[i + 1] == '_' {
            proof {
                assert(t.skip(2) =~= all.skip(i + 2));
                lemma_after(so_far, seq![' '], expanded(t.skip(2), ctx@));
                assert(so_far + seq![' '] =~= so_far.push(' '));
            }
            out.push(' ');
            i = i + 2;
        } else if i + 1 < n && s[i + 1] == '-' {
            proof {
                assert(t.skip(2) =~= all.skip(i + 2));
                lemma_after(so_far, "%20"@, expanded(t.skip(2), ctx@));
            }
            push_str(&mut out, "%20");
            i = i + 2;
        } else if i + 1 < n && s[i + 1] == '{' {
            let rest = slice_subrange(s, i + 2, n);
            assert(rest@ =~= t.skip(2));
            match find_char(rest, '}') {
                None => {
                    return Err(err("unterminated macro `%{`"));
                },
                Some(k) => {
                    let body = slice_subrange(rest, 0, k);
                    assert(body@ =~= t.skip(2).take(k as int));
                    match expand_one(body, ctx) {
                        Ok(text) => {
                            proof {
                                assert(t.skip(k + 3) =~= all.skip(i + k + 3));
                                lemma_after(so_far, text@, expanded(t.skip(k + 3), ctx@));
                            }
                            push_all(&mut out, text.as_slice());
                            i = i + k + 3;
                        },
                        Err(e) => {
                            return Err(e);
                        },
                    }
                },
            }
        } else {
            return Err(err("invalid macro escape (expected %%, %_, %-, or %{...})"));
        }
    }
    proof {
        assert(all.skip(n as int) =~= Seq::empty());
        assert(out@ + Seq::<char>::empty() =~= out@);
    }
    Ok(string_of(out.as_slice()))
}

proof fn lemma_after_nothing(r: Result<Seq<char>, Seq<char>>)
    ensures
        after(Seq::empty(), r) == r,
{
    if let Ok(text) = r {
        assert(Seq::<char>::empty() + text =~= text);
    }
}

proof fn lemma_after(a: Seq<char>, b: Seq<char>, r: Result<Seq<char>, Seq<char>>)
    ensures
        after(a, after(b, r)) == after(a + b, r),
{
    if let Ok(text) = r {
        assert(a + (b + text) =~= a + b + text);
    }
}

/// A domain-spec without percent signs stands for itself.
pub proof fn law_plain_text_is_its_own_expansion(spec: Seq<char>, ctx: MacroContextView)
    requires
        forall|i: int| 0 <= i < spec.len() ==> spec[i] != '%',
    ensures
        expanded(spec, ctx) == Ok::<Seq<char>, Seq<char>>(spec),
    decreases spec.len(),
{
    if spec.len() > 0 {
        law_plain_text_is_its_own_expansion(spec.skip(1), ctx);
        assert(seq![spec[0]] + spec.skip(1) =~= spec);
    } else {
        assert(spec =~= Seq::empty());
    }
}

} // verus!
