//! DKIM canonicalization (RFC 6376 §3.4): the `simple` and `relaxed` algorithms
//! for both the header and the body. Canonicalization is byte-exact, so it
//! operates on raw bytes.

use vstd::prelude::*;
use vstd::slice::{slice_subrange, slice_to_vec};
use vstd::utf8::encode_utf8;

use crate::bytes::{
    find_in, lemma_find_in, lemma_find_in_is, lemma_split_on, occurs_at, split_bytes, split_on,
};
use crate::text::{
    blobs, chars_of, cut, eq_ignore_case, joined, lowered, push_bytes, same_ignoring_case,
    split_once, string_of, to_lower, trim, trimmed,
};

verus! {

/// Header canonicalization algorithm (the first half of a `c=` tag).
#[derive(Debug, Clone, Copy, PartialEq, Eq, Structural)]
pub enum HeaderCanon {
    /// `simple`: header fields used verbatim.
    Simple,
    /// `relaxed`: lowercase name, unfold, compress WSP, strip trailing WSP.
    Relaxed,
}

/// Body canonicalization algorithm (the second half of a `c=` tag).
#[derive(Debug, Clone, Copy, PartialEq, Eq, Structural)]
pub enum BodyCanon {
    /// `simple`: reduce trailing empty lines to a single CRLF.
    Simple,
    /// `relaxed`: per-line WSP normalization and trailing-empty-line removal.
    Relaxed,
}

/// The two algorithms that a `c=` tag value names: `header/body`, where a
/// missing body half is `simple` and a half that is not `relaxed` (in any case)
/// is `simple`; an absent tag is `simple/simple`.
pub open spec fn canon_of(c: Option<Seq<char>>) -> (HeaderCanon, BodyCanon) {
    let (h, b) = match c {
        None => ("simple"@, "simple"@),
        Some(c) => match cut(c, '/') {
            Some((h, b)) => (h, b),
            None => (c, "simple"@),
        },
    };
    (
        if same_ignoring_case(h, "relaxed"@) {
            HeaderCanon::Relaxed
        } else {
            HeaderCanon::Simple
        },
        if same_ignoring_case(b, "relaxed"@) {
            BodyCanon::Relaxed
        } else {
            BodyCanon::Simple
        },
    )
}

/// Parse a `c=` tag value (e.g. `relaxed/relaxed`, `relaxed`, or absent) into the
/// header and body algorithms. Per RFC 6376 §3.5 the default is `simple/simple`,
/// and a bare `relaxed` means `relaxed/simple`.
pub fn parse_canon(c: Option<&str>) -> (r: (HeaderCanon, BodyCanon))
    ensures
        r == canon_of(
            match c {
                Some(c) => Some(c@),
                None => None,
            },
        ),
{
    proof {
        lemma_simple_is_not_relaxed();
    }
    let c = match c {
        Some(c) => chars_of(c),
        None => {
            return (HeaderCanon::Simple, BodyCanon::Simple);
        },
    };
    let (header, body) = match split_once(c.as_slice(), '/') {
        Some((h, b)) => (eq_ignore_case(h, "relaxed"), eq_ignore_case(b, "relaxed")),
        None => (eq_ignore_case(c.as_slice(), "relaxed"), false),
    };
    (
        if header {
            HeaderCanon::Relaxed
        } else {
            HeaderCanon::Simple
        },
        if body {
            BodyCanon::Relaxed
        } else {
            BodyCanon::Simple
        },
    )
}

proof fn lemma_simple_is_not_relaxed()
    ensures
        !same_ignoring_case("simple"@, "relaxed"@),
{
    reveal_strlit("simple");
    reveal_strlit("relaxed");
    assert(lowered("simple"@).len() == 6);
    assert(lowered("relaxed"@).len() == 7);
}

// ---------------------------------------------------------------------------
// White space
// ---------------------------------------------------------------------------

/// A space or a horizontal tab.
pub open spec fn wsp(b: u8) -> bool {
    b == 0x20 || b == 0x09
}

/// The words of a byte sequence: its maximal runs of bytes other than WSP.
pub open spec fn wsp_words(s: Seq<u8>) -> Seq<Seq<u8>>
    decreases s.len(),
{
    if s.len() == 0 {
        Seq::empty()
    } else {
        let before = wsp_words(s.drop_last());
        if wsp(s.last()) {
            before
        } else if s.len() > 1 && !wsp(s[s.len() - 2]) {
            before.drop_last().push(before.last().push(s.last()))
        } else {
            before.push(seq![s.last()])
        }
    }
}

/// A single space.
pub open spec fn space() -> Seq<u8> {
    seq![0x20u8]
}

/// Carriage return, line feed.
pub open spec fn crlf() -> Seq<u8> {
    seq![0x0du8, 0x0au8]
}

/// The bytes without carriage returns and line feeds.
pub open spec fn unfolded(s: Seq<u8>) -> Seq<u8>
    decreases s.len(),
{
    if s.len() == 0 {
        Seq::empty()
    } else if s.last() == 0x0d || s.last() == 0x0a {
        unfolded(s.drop_last())
    } else {
        unfolded(s.drop_last()).push(s.last())
    }
}

/// A relaxed header value: unfolded, its words with one space between each two.
pub open spec fn relaxed_value(raw: Seq<u8>) -> Seq<u8> {
    joined(wsp_words(unfolded(raw)), space())
}

/// A relaxed body line: its words with one space between each two, after one
/// space where the line begins with WSP; a line without words is empty.
pub open spec fn relaxed_line(line: Seq<u8>) -> Seq<u8> {
    let words = wsp_words(line);
    if words.len() == 0 {
        Seq::empty()
    } else if wsp(line[0]) {
        space() + joined(words, space())
    } else {
        joined(words, space())
    }
}

proof fn lemma_joined_grow(words: Seq<Seq<u8>>, b: u8)
    requires
        words.len() > 0,
    ensures
        joined(words.drop_last().push(words.last().push(b)), space()) == joined(
            words,
            space(),
        ).push(b),
{
    let grown = words.drop_last().push(words.last().push(b));
    assert(grown.drop_last() =~= words.drop_last());
    assert(joined(grown, space()) =~= joined(words, space()).push(b));
}

proof fn lemma_joined_push(words: Seq<Seq<u8>>, w: Seq<u8>)
    ensures
        joined(words.push(w), space()) == if words.len() == 0 {
            w
        } else {
            joined(words, space()) + space() + w
        },
{
    assert(words.push(w).drop_last() =~= words);
}

/// Unfold, reduce every WSP run to a single space, and strip leading and
/// trailing WSP.
fn relax_value(raw: &[u8]) -> (r: Vec<u8>)
    ensures
        r@ == relaxed_value(raw@),
{
    let mut out: Vec<u8> = Vec::new();
    let mut in_wsp = false;
    let mut i: usize = 0;
    while i < raw.len()
        invariant
            i <= raw.len(),
            ({
                let u = unfolded(raw@.take(i as int));
                let words = wsp_words(u);
                &&& out@ == joined(words, space())
                &&& (out@.len() > 0 <==> words.len() > 0)
                &&& in_wsp == (u.len() > 0 && wsp(u.last()))
                &&& (u.len() > 0 && !in_wsp ==> words.len() > 0)
            }),
        decreases raw.len() - i,
    {
        let b = raw[i];
        let ghost u = unfolded(raw@.take(i as int));
        let ghost words = wsp_words(u);
        proof {
            assert(raw@.take(i + 1).drop_last() =~= raw@.take(i as int));
            assert(raw@.take(i + 1).last() == b);
        }
        if b == 0x0d || b == 0x0a {
        } else if b == 0x20 || b == 0x09 {
            assert(u.push(b).drop_last() =~= u);
            in_wsp = true;
        } else {
            proof {
                assert(u.push(b).drop_last() =~= u);
                if u.len() > 0 && !in_wsp {
                    assert(u.push(b)[u.push(b).len() - 2] == u.last());
                    lemma_joined_grow(words, b);
                } else {
                    if u.len() > 0 {
                        assert(u.push(b)[u.push(b).len() - 2] == u.last());
                    }
                    lemma_joined_push(words, seq![b]);
                }
            }
            if in_wsp && out.len() > 0 {
                out.push(0x20);
            }
            in_wsp = false;
            out.push(b);
            assert(out@ =~= joined(wsp_words(u.push(b)), space()));
        }
        i = i + 1;
    }
    assert(raw@.take(raw@.len() as int) =~= raw@);
    out
}

/// Compress internal WSP runs to a single space and strip trailing WSP.
fn relax_line(line: &[u8]) -> (r: Vec<u8>)
    ensures
        r@ == relaxed_line(line@),
{
    let mut out: Vec<u8> = Vec::new();
    let mut in_wsp = false;
    let mut i: usize = 0;
    while i < line.len()
        invariant
            i <= line.len(),
            ({
                let s = line@.take(i as int);
                let words = wsp_words(s);
                &&& out@ == relaxed_line(s)
                &&& in_wsp == (s.len() > 0 && wsp(s.last()))
                &&& (s.len() > 0 && !in_wsp ==> words.len() > 0)
                &&& (words.len() == 0 && s.len() > 0 ==> wsp(s[0]))
            }),
        decreases line.len() - i,
    {
        let b = line[i];
        let ghost s = line@.take(i as int);
        let ghost words = wsp_words(s);
        proof {
            assert(line@.take(i + 1) =~= s.push(b));
            assert(s.push(b).drop_last() =~= s);
            if s.len() > 0 {
                assert(s.push(b)[s.push(b).len() - 2] == s.last());
            }
        }
        if b == 0x20 || b == 0x09 {
            in_wsp = true;
        } else {
            proof {
                if s.len() > 0 && !in_wsp {
                    lemma_joined_grow(words, b);
                } else {
                    lemma_joined_push(words, seq![b]);
                }
            }
            if in_wsp {
                out.push(0x20);
                in_wsp = false;
            }
            out.push(b);
            assert(out@ =~= relaxed_line(s.push(b)));
        }
        i = i + 1;
    }
    assert(line@.take(line@.len() as int) =~= line@);
    out
}

// ---------------------------------------------------------------------------
// Header
// ---------------------------------------------------------------------------

/// The canonical form of a header field: `name:value`, verbatim (`simple`), or
/// with a trimmed lowercase name and a relaxed value (`relaxed`), ended by CRLF
/// where `with_crlf` is set.
pub open spec fn canonical_header(
    name: Seq<char>,
    raw_value: Seq<u8>,
    canon: HeaderCanon,
    with_crlf: bool,
) -> Seq<u8> {
    let field = match canon {
        HeaderCanon::Simple => encode_utf8(name).push(0x3a) + raw_value,
        HeaderCanon::Relaxed => encode_utf8(lowered(trimmed(name))).push(0x3a) + relaxed_value(
            raw_value,
        ),
    };
    if with_crlf {
        field + crlf()
    } else {
        field
    }
}

/// Canonicalize one header field for inclusion in the signed-header hash.
///
/// `name` is the raw field name (as it appeared) and `raw_value` is everything
/// after the `:` up to (but not including) the field's terminating CRLF,
/// including any folding CRLFs. The returned bytes include the terminating CRLF
/// unless `with_crlf` is false (used for the DKIM-Signature field itself, which
/// is hashed without its trailing CRLF: RFC 6376 §3.7).
pub fn canonicalize_header(name: &str, raw_value: &[u8], canon: HeaderCanon, with_crlf: bool) -> (r:
    Vec<u8>)
    ensures
        r@ == canonical_header(name@, raw_value@, canon, with_crlf),
{
    let mut out: Vec<u8> = Vec::new();
    match canon {
        HeaderCanon::Simple => {
            push_bytes(&mut out, name.as_bytes());
            out.push(0x3a);
            push_bytes(&mut out, raw_value);
            assert(out@ =~= encode_utf8(name@).push(0x3a) + raw_value@);
        },
        HeaderCanon::Relaxed => {
            let chars = chars_of(name);
            let low = to_lower(trim(chars.as_slice()));
            let low = string_of(low.as_slice());
            push_bytes(&mut out, low.as_str().as_bytes());
            out.push(0x3a);
            let value = relax_value(raw_value);
            push_bytes(&mut out, value.as_slice());
            assert(out@ =~= encode_utf8(lowered(trimmed(name@))).push(0x3a) + relaxed_value(
                raw_value@,
            ));
        },
    }
    if with_crlf {
        let ghost field = out@;
        out.push(0x0d);
        out.push(0x0a);
        assert(out@ =~= field + crlf());
    }
    out
}

// ---------------------------------------------------------------------------
// Body
// ---------------------------------------------------------------------------

/// Whether the bytes end in CRLF.
pub open spec fn ends_in_crlf(s: Seq<u8>) -> bool {
    s.len() >= 2 && s[s.len() - 2] == 0x0d && s[s.len() - 1] == 0x0a
}

/// The bytes without any CRLF at their end.
pub open spec fn without_trailing_crlfs(s: Seq<u8>) -> Seq<u8>
    decreases s.len(),
{
    if ends_in_crlf(s) {
        without_trailing_crlfs(s.take(s.len() - 2))
    } else {
        s
    }
}

/// The lines of a body: what stands between its CRLFs, the last piece counting
/// only where it is not empty.
pub open spec fn body_lines(body: Seq<u8>) -> Seq<Seq<u8>> {
    let parts = split_on(body, crlf());
    if parts.last().len() == 0 {
        parts.drop_last()
    } else {
        parts
    }
}

/// The lines without the empty ones at their end.
pub open spec fn without_trailing_empty(lines: Seq<Seq<u8>>) -> Seq<Seq<u8>>
    decreases lines.len(),
{
    if lines.len() > 0 && lines.last().len() == 0 {
        without_trailing_empty(lines.drop_last())
    } else {
        lines
    }
}

/// Each line followed by CRLF.
pub open spec fn terminated(lines: Seq<Seq<u8>>) -> Seq<u8>
    decreases lines.len(),
{
    if lines.len() == 0 {
        Seq::empty()
    } else {
        terminated(lines.drop_last()) + lines.last() + crlf()
    }
}

/// The canonical form of a message body (RFC 6376 §3.4.3, §3.4.4).
pub open spec fn canonical_body(body: Seq<u8>, canon: BodyCanon) -> Seq<u8> {
    match canon {
        BodyCanon::Simple => without_trailing_crlfs(body) + crlf(),
        BodyCanon::Relaxed => terminated(
            without_trailing_empty(body_lines(body).map_values(|l: Seq<u8>| relaxed_line(l))),
        ),
    }
}

/// Canonicalize the message body and return the bytes to hash (before any `l=`
/// truncation, which the caller applies).
pub fn canonicalize_body(body: &[u8], canon: BodyCanon) -> (r: Vec<u8>)
    ensures
        r@ == canonical_body(body@, canon),
{
    match canon {
        BodyCanon::Simple => simple_body(body),
        BodyCanon::Relaxed => relaxed_body(body),
    }
}

/// `simple` body: reduce a run of trailing CRLFs to one; if the body does not end
/// in CRLF, add one; an empty body becomes a single CRLF.
fn simple_body(body: &[u8]) -> (r: Vec<u8>)
    ensures
        r@ == canonical_body(body@, BodyCanon::Simple),
{
    let mut end: usize = body.len();
    assert(body@.take(end as int) =~= body@);
    while end >= 2 && body[end - 2] == 0x0d && body[end - 1] == 0x0a
        invariant
            end <= body.len(),
            without_trailing_crlfs(body@) == without_trailing_crlfs(body@.take(end as int)),
        decreases end,
    {
        assert(body@.take(end as int).take(end - 2) =~= body@.take(end - 2));
        end = end - 2;
    }
    let ghost kept = body@.take(end as int);
    assert(!ends_in_crlf(kept));
    let mut out = slice_to_vec(slice_subrange(body, 0, end));
    out.push(0x0d);
    out.push(0x0a);
    assert(out@ =~= kept + crlf());
    out
}

/// `relaxed` body: per line, compress internal WSP runs to one space and strip
/// trailing WSP; drop trailing empty lines; a non-empty result ends in CRLF; an
/// empty result is zero-length.
fn relaxed_body(body: &[u8]) -> (r: Vec<u8>)
    ensures
        r@ == canonical_body(body@, BodyCanon::Relaxed),
{
    let parts = split_bytes(body, &[0x0d, 0x0a]);
    assert(seq![0x0du8, 0x0au8] =~= crlf());
    let ghost lines = body_lines(body@);
    let ghost relaxed = lines.map_values(|l: Seq<u8>| relaxed_line(l));
    proof {
        lemma_split_on(body@, crlf());
        assert(blobs(parts@).len() == parts@.len());
        assert(blobs(parts@).last() == parts@.last()@);
    }
    let count: usize = if parts[parts.len() - 1].len() == 0 {
        parts.len() - 1
    } else {
        parts.len()
    };
    assert(blobs(parts@).take(count as int) =~= lines);
    let mut done: Vec<Vec<u8>> = Vec::new();
    let mut i: usize = 0;
    while i < count
        invariant
            i <= count <= parts.len(),
            lines == blobs(parts@).take(count as int),
            relaxed == lines.map_values(|l: Seq<u8>| relaxed_line(l)),
            blobs(done@) == relaxed.take(i as int),
        decreases count - i,
    {
        let ghost before = done@;
        let line = relax_line(parts[i].as_slice());
        proof {
            assert(lines[i as int] == parts@[i as int]@);
            assert(blobs(before.push(line)) =~= blobs(before).push(line@));
            assert(relaxed.take(i + 1) =~= relaxed.take(i as int).push(relaxed[i as int]));
        }
        done.push(line);
        i = i + 1;
    }
    assert(relaxed.take(count as int) =~= relaxed);
    let mut kept: usize = done.len();
    assert(blobs(done@).take(kept as int) =~= relaxed);
    while kept > 0 && done[kept - 1].len() == 0
        invariant
            kept <= done.len(),
            without_trailing_empty(relaxed) == without_trailing_empty(
                blobs(done@).take(kept as int),
            ),
        decreases kept,
    {
        proof {
            let t = blobs(done@).take(kept as int);
            assert(t.last() == done@[kept - 1]@);
            assert(t.drop_last() =~= blobs(done@).take(kept - 1));
        }
        kept = kept - 1;
    }
    let ghost last = blobs(done@).take(kept as int);
    proof {
        if kept > 0 {
            assert(last.last() == done@[kept - 1]@);
        }
        assert(without_trailing_empty(relaxed) == last);
    }
    let mut out: Vec<u8> = Vec::new();
    let mut j: usize = 0;
    while j < kept
        invariant
            j <= kept <= done.len(),
            last == blobs(done@).take(kept as int),
            out@ == terminated(last.take(j as int)),
        decreases kept - j,
    {
        proof {
            assert(last.take(j + 1).drop_last() =~= last.take(j as int));
            assert(last.take(j + 1).last() == done@[j as int]@);
        }
        push_bytes(&mut out, done[j].as_slice());
        let ghost so_far = out@;
        out.push(0x0d);
        out.push(0x0a);
        assert(out@ =~= so_far + crlf());
        j = j + 1;
    }
    assert(last.take(kept as int) =~= last);
    out
}

// ---------------------------------------------------------------------------
// Laws
// ---------------------------------------------------------------------------

/// A `simple` body ends in exactly one CRLF: it ends in CRLF, and what stands
/// before that does not.
pub proof fn law_simple_body_ends_in_one_crlf(body: Seq<u8>)
    ensures
        ({
            let r = canonical_body(body, BodyCanon::Simple);
            ends_in_crlf(r) && !ends_in_crlf(r.take(r.len() - 2))
        }),
    decreases body.len(),
{
    lemma_stripped(body);
    let r = canonical_body(body, BodyCanon::Simple);
    assert(r.take(r.len() - 2) =~= without_trailing_crlfs(body));
}

/// A `relaxed` body is zero-length, or it ends in CRLF and has a last line that is
/// not empty.
pub proof fn law_relaxed_body_is_empty_or_ends_in_crlf(body: Seq<u8>)
    ensures
        ({
            let r = canonical_body(body, BodyCanon::Relaxed);
            r.len() == 0 || (ends_in_crlf(r) && r.len() > 2)
        }),
{
    let lines = body_lines(body).map_values(|l: Seq<u8>| relaxed_line(l));
    lemma_last_not_empty(lines);
    let kept = without_trailing_empty(lines);
    if kept.len() > 0 {
        assert(terminated(kept) == terminated(kept.drop_last()) + kept.last() + crlf());
    }
}

/// Blank lines at the end of a body do not count in its `simple` form.
pub proof fn law_simple_body_ignores_trailing_blank_lines(body: Seq<u8>)
    ensures
        canonical_body(body + crlf(), BodyCanon::Simple) == canonical_body(body, BodyCanon::Simple),
{
    assert((body + crlf()).take(body.len() as int) =~= body);
}

/// Canonicalizing a `simple` body twice is canonicalizing it once.
pub proof fn law_simple_body_idempotent(body: Seq<u8>)
    ensures
        canonical_body(canonical_body(body, BodyCanon::Simple), BodyCanon::Simple)
            == canonical_body(body, BodyCanon::Simple),
{
    let stripped = without_trailing_crlfs(body);
    lemma_stripped(body);
    assert((stripped + crlf()).take(stripped.len() as int) =~= stripped);
    assert(without_trailing_crlfs(stripped) == stripped);
}

/// Canonicalizing a `relaxed` body twice is canonicalizing it once.
pub proof fn law_relaxed_body_idempotent(body: Seq<u8>)
    ensures
        canonical_body(canonical_body(body, BodyCanon::Relaxed), BodyCanon::Relaxed)
            == canonical_body(body, BodyCanon::Relaxed),
{
    let f = |l: Seq<u8>| relaxed_line(l);
    let lines = body_lines(body);
    let relaxed = lines.map_values(f);
    let kept = without_trailing_empty(relaxed);
    lemma_pieces_crlf_free(body);
    lemma_split_on(body, crlf());
    lemma_trailing_empty(relaxed);
    assert forall|i: int| 0 <= i < kept.len() implies crlf_free(#[trigger] kept[i]) && relaxed_line(
        kept[i],
    ) == kept[i] by {
        assert(kept[i] == relaxed_line(lines[i]));
        assert(lines[i] == split_on(body, crlf())[i]);
        lemma_relaxed_line_crlf_free(lines[i]);
        lemma_relaxed_line_idempotent(lines[i]);
    }
    lemma_split_terminated(kept);
    assert(body_lines(terminated(kept)) =~= kept);
    assert(kept.map_values(f) =~= kept);
    lemma_last_not_empty(relaxed);
}

/// The case of a field name, and white space around it, do not count in its
/// `relaxed` form.
pub proof fn law_relaxed_header_name_ignores_case(
    a: Seq<char>,
    b: Seq<char>,
    raw_value: Seq<u8>,
    with_crlf: bool,
)
    requires
        same_ignoring_case(trimmed(a), trimmed(b)),
    ensures
        canonical_header(a, raw_value, HeaderCanon::Relaxed, with_crlf) == canonical_header(
            b,
            raw_value,
            HeaderCanon::Relaxed,
            with_crlf,
        ),
{
}

/// Where a header value is folded does not count in its `relaxed` form.
pub proof fn law_relaxed_header_ignores_folding(
    name: Seq<char>,
    a: Seq<u8>,
    b: Seq<u8>,
    with_crlf: bool,
)
    ensures
        canonical_header(name, a + crlf() + b, HeaderCanon::Relaxed, with_crlf)
            == canonical_header(name, a + b, HeaderCanon::Relaxed, with_crlf),
{
    lemma_unfolded_append(a, crlf());
    lemma_unfolded_append(a + crlf(), b);
    lemma_unfolded_append(a, b);
    assert(crlf().drop_last().drop_last() =~= Seq::empty());
    assert(unfolded(crlf()) =~= Seq::empty()) by {
        reveal_with_fuel(unfolded, 3);
    }
    assert(unfolded(a) + Seq::<u8>::empty() =~= unfolded(a));
}

/// White space at the end of a body line does not count in its `relaxed` form.
pub proof fn law_relaxed_line_ignores_trailing_white_space(line: Seq<u8>, b: u8)
    requires
        wsp(b),
    ensures
        relaxed_line(line.push(b)) == relaxed_line(line),
{
    assert(line.push(b).drop_last() =~= line);
}

/// Blank lines at the end of a body do not count in its `relaxed` form, and neither does
/// whether its last line is ended.
pub proof fn law_relaxed_body_ignores_trailing_blank_lines(body: Seq<u8>)
    ensures
        canonical_body(body + crlf(), BodyCanon::Relaxed) == canonical_body(
            body,
            BodyCanon::Relaxed,
        ),
{
    let f = |l: Seq<u8>| relaxed_line(l);
    let parts = split_on(body, crlf());
    lemma_split_on(body, crlf());
    lemma_split_on_ended(body);
    assert(body_lines(body + crlf()) =~= parts);
    let all = parts.map_values(f);
    if parts.last().len() == 0 {
        assert(wsp_words(parts.last()) =~= Seq::empty());
        assert(all.last() =~= Seq::empty());
        assert(all.drop_last() =~= parts.drop_last().map_values(f));
    }
}

proof fn lemma_unfolded_append(a: Seq<u8>, b: Seq<u8>)
    ensures
        unfolded(a + b) == unfolded(a) + unfolded(b),
    decreases b.len(),
{
    if b.len() == 0 {
        assert(a + b =~= a);
        assert(unfolded(a) + unfolded(b) =~= unfolded(a));
    } else {
        assert((a + b).drop_last() =~= a + b.drop_last());
        lemma_unfolded_append(a, b.drop_last());
        assert(unfolded(a + b) =~= unfolded(a) + unfolded(b));
    }
}

/// Whether no carriage return stands right before a line feed.
pub open spec fn crlf_free(s: Seq<u8>) -> bool {
    forall|j: int| 0 <= j && j + 1 < s.len() && #[trigger] s[j] == 0x0d ==> s[j + 1] != 0x0a
}

proof fn lemma_crlf_free(s: Seq<u8>)
    ensures
        crlf_free(s) <==> forall|j: int| !occurs_at(s, crlf(), j),
{
    if crlf_free(s) {
        assert forall|j: int| !occurs_at(s, crlf(), j) by {
            if 0 <= j && j + 2 <= s.len() {
                assert(s.subrange(j, j + 2)[0] == s[j]);
                assert(s.subrange(j, j + 2)[1] == s[j + 1]);
            }
        }
    } else {
        let j = choose|j: int|
            0 <= j && j + 1 < s.len() && #[trigger] s[j] == 0x0d && s[j + 1] == 0x0a;
        assert(s.subrange(j, j + 2) =~= crlf());
        assert(occurs_at(s, crlf(), j));
    }
}

/// No piece between the CRLFs of a body contains one.
proof fn lemma_pieces_crlf_free(s: Seq<u8>)
    ensures
        forall|i: int|
            0 <= i < split_on(s, crlf()).len() ==> crlf_free(#[trigger] split_on(s, crlf())[i]),
    decreases s.len(),
{
    lemma_find_in(s, crlf());
    match find_in(s, crlf()) {
        Some(n) => {
            let rest = s.skip(n + 2);
            lemma_pieces_crlf_free(rest);
            assert forall|i: int| 0 <= i < split_on(s, crlf()).len() implies crlf_free(
                #[trigger] split_on(s, crlf())[i],
            ) by {
                if i == 0 {
                    let first = s.take(n);
                    assert forall|j: int| 0 <= j && j + 1 < first.len() && #[trigger] first[j]
                        == 0x0d implies first[j + 1] != 0x0a by {
                        assert(!occurs_at(s, crlf(), j));
                        if first[j + 1] == 0x0a {
                            assert(s.subrange(j, j + 2) =~= crlf());
                        }
                    }
                } else {
                    assert(split_on(s, crlf())[i] == split_on(rest, crlf())[i - 1]);
                }
            }
        },
        None => {
            lemma_crlf_free(s);
        },
    }
}

/// A CRLF and a line behind it add that line as one piece.
pub proof fn lemma_split_on_line(s: Seq<u8>, line: Seq<u8>)
    requires
        crlf_free(line),
    ensures
        split_on(s + crlf() + line, crlf()) == split_on(s, crlf()).push(line),
    decreases s.len(),
{
    let e = s + crlf() + line;
    lemma_find_in(s, crlf());
    match find_in(s, crlf()) {
        Some(i) => {
            let rest = s.skip(i + 2);
            assert(e.subrange(i, i + 2) =~= s.subrange(i, i + 2));
            assert forall|j: int| 0 <= j < i implies !occurs_at(e, crlf(), j) by {
                assert(e.subrange(j, j + 2) =~= s.subrange(j, j + 2));
                assert(!occurs_at(s, crlf(), j));
            }
            lemma_find_in_is(e, crlf(), i);
            assert(e.take(i) =~= s.take(i));
            assert(e.skip(i + 2) =~= rest + crlf() + line);
            lemma_split_on_line(rest, line);
            assert(seq![s.take(i)] + split_on(rest, crlf()).push(line) =~= (seq![s.take(i)]
                + split_on(rest, crlf())).push(line));
        },
        None => {
            let n = s.len() as int;
            assert(e.subrange(n, n + 2) =~= crlf());
            assert forall|j: int| 0 <= j < n implies !occurs_at(e, crlf(), j) by {
                if j + 2 <= n {
                    assert(e.subrange(j, j + 2) =~= s.subrange(j, j + 2));
                    assert(!occurs_at(s, crlf(), j));
                } else {
                    assert(e.subrange(j, j + 2)[1] == e[n]);
                }
            }
            lemma_find_in_is(e, crlf(), n);
            assert(e.take(n) =~= s);
            assert(e.skip(n + 2) =~= line);
            lemma_one_line(line);
            assert(seq![s] + seq![line] =~= seq![s].push(line));
        },
    }
}

/// A line is one piece.
pub proof fn lemma_one_line(line: Seq<u8>)
    requires
        crlf_free(line),
    ensures
        split_on(line, crlf()) == seq![line],
{
    lemma_crlf_free(line);
    lemma_find_in(line, crlf());
}

/// A CRLF at the end adds one empty piece.
proof fn lemma_split_on_ended(s: Seq<u8>)
    ensures
        split_on(s + crlf(), crlf()) == split_on(s, crlf()).push(Seq::empty()),
{
    lemma_split_on_line(s, Seq::empty());
    assert(s + crlf() + Seq::empty() =~= s + crlf());
}

/// Terminated lines split into those lines again, with an empty piece at the end.
pub proof fn lemma_split_terminated(lines: Seq<Seq<u8>>)
    requires
        forall|i: int| 0 <= i < lines.len() ==> crlf_free(#[trigger] lines[i]),
    ensures
        split_on(terminated(lines), crlf()) == lines.push(Seq::empty()),
    decreases lines.len(),
{
    if lines.len() == 0 {
        lemma_one_line(Seq::empty());
        assert(seq![Seq::<u8>::empty()] =~= lines.push(Seq::empty()));
    } else {
        let front = lines.drop_last();
        let last = lines.last();
        assert(crlf_free(lines[lines.len() - 1]));
        assert forall|i: int| 0 <= i < front.len() implies crlf_free(#[trigger] front[i]) by {
            assert(front[i] == lines[i]);
        }
        lemma_split_terminated(front);
        let before = terminated(front) + last;
        if front.len() == 0 {
            assert(before =~= last);
            lemma_one_line(last);
            assert(seq![last] =~= lines);
        } else {
            let text = terminated(front.drop_last()) + front.last();
            lemma_split_on_ended(text);
            assert(split_on(text, crlf()).push(Seq::empty()).drop_last() =~= split_on(text, crlf()));
            assert(front.push(Seq::empty()).drop_last() =~= front);
            lemma_split_on_line(text, last);
            assert(front.push(last) =~= lines);
        }
        assert(split_on(before, crlf()) == lines);
        lemma_split_on_ended(before);
    }
}

/// The words of a line: none is empty, none holds white space or, where the line holds
/// none, a CRLF, and the last one goes on where the line does not end in white space.
proof fn lemma_words(s: Seq<u8>)
    ensures
        forall|i: int| 0 <= i < wsp_words(s).len() ==> word(#[trigger] wsp_words(s)[i]),
        crlf_free(s) ==> forall|i: int|
            0 <= i < wsp_words(s).len() ==> crlf_free(#[trigger] wsp_words(s)[i]),
        s.len() > 0 && !wsp(s.last()) ==> wsp_words(s).len() > 0 && wsp_words(s).last().last()
            == s.last(),
    decreases s.len(),
{
    if s.len() > 0 {
        let front = s.drop_last();
        let before = wsp_words(front);
        let b = s.last();
        lemma_words(front);
        if crlf_free(s) {
            assert forall|j: int| 0 <= j && j + 1 < front.len() && #[trigger] front[j]
                == 0x0d implies front[j + 1] != 0x0a by {
                assert(s[j] == 0x0d);
            }
        }
        let words = wsp_words(s);
        if !wsp(b) {
            let grows = s.len() > 1 && !wsp(s[s.len() - 2]);
            if grows {
                assert(front.last() == s[s.len() - 2]);
            }
            assert forall|i: int| 0 <= i < words.len() implies word(#[trigger] words[i]) by {
                if i < words.len() - 1 {
                    assert(words[i] == before[i]);
                } else if grows {
                    assert(word(before[before.len() - 1]));
                }
            }
            if crlf_free(s) {
                assert forall|i: int| 0 <= i < words.len() implies crlf_free(
                    #[trigger] words[i],
                ) by {
                    if i < words.len() - 1 {
                        assert(words[i] == before[i]);
                    } else if grows {
                        let w = before[before.len() - 1];
                        assert(crlf_free(w));
                        assert(words[i] == w.push(b));
                        assert forall|j: int| 0 <= j && j + 1 < w.push(b).len()
                            && #[trigger] w.push(b)[j] == 0x0d implies w.push(b)[j + 1] != 0x0a by {
                            if j + 1 < w.len() {
                                assert(w[j] == 0x0d);
                            } else {
                                assert(s[s.len() - 2] == 0x0d);
                            }
                        }
                    }
                }
            }
        }
    }
}

/// Whether the bytes are a word: some, and no white space among them.
spec fn word(w: Seq<u8>) -> bool {
    w.len() > 0 && forall|j: int| 0 <= j < w.len() ==> !wsp(#[trigger] w[j])
}

/// A word behind white space, or at the start, is the last word.
proof fn lemma_words_push(s: Seq<u8>, w: Seq<u8>)
    requires
        s.len() == 0 || wsp(s.last()),
        word(w),
    ensures
        wsp_words(s + w) == wsp_words(s).push(w),
    decreases w.len(),
{
    let all = s + w;
    let front = w.drop_last();
    assert(all.drop_last() =~= s + front);
    assert(!wsp(w[w.len() - 1]));
    if w.len() == 1 {
        assert(s + front =~= s);
        if s.len() > 0 {
            assert(all[all.len() - 2] == s.last());
        }
        assert(seq![w.last()] =~= w);
    } else {
        assert(all[all.len() - 2] == w[w.len() - 2]);
        assert forall|j: int| 0 <= j < front.len() implies !wsp(#[trigger] front[j]) by {
            assert(front[j] == w[j]);
        }
        lemma_words_push(s, front);
        assert(wsp_words(s).push(front).drop_last() =~= wsp_words(s));
        assert(front.push(w.last()) =~= w);
    }
}

/// Words with one space between each two have those words, also behind a space.
proof fn lemma_words_of_joined(words: Seq<Seq<u8>>, lead: Seq<u8>)
    requires
        forall|i: int| 0 <= i < words.len() ==> word(#[trigger] words[i]),
        lead.len() == 0 || lead == space(),
    ensures
        wsp_words(lead + joined(words, space())) == words,
    decreases words.len(),
{
    if words.len() == 0 {
        assert(lead + joined(words, space()) =~= lead);
        reveal_with_fuel(wsp_words, 2);
        if lead.len() > 0 {
            assert(lead.last() == 0x20);
            assert(lead.drop_last() =~= Seq::empty());
        }
        assert(wsp_words(lead) =~= words);
    } else {
        let front = words.drop_last();
        let last = words.last();
        assert(word(words[words.len() - 1]));
        assert forall|i: int| 0 <= i < front.len() implies word(#[trigger] front[i]) by {
            assert(front[i] == words[i]);
        }
        lemma_words_of_joined(front, lead);
        if words.len() == 1 {
            assert(lead + joined(front, space()) =~= lead);
            lemma_words_push(lead, last);
        } else {
            let start = lead + joined(front, space()) + space();
            assert(start.drop_last() =~= lead + joined(front, space()));
            lemma_words_push(start, last);
            assert(start + last =~= lead + joined(words, space()));
        }
        assert(front.push(last) =~= words);
    }
}

/// Relaxing a line twice is relaxing it once.
proof fn lemma_relaxed_line_idempotent(line: Seq<u8>)
    ensures
        relaxed_line(relaxed_line(line)) == relaxed_line(line),
{
    let words = wsp_words(line);
    lemma_words(line);
    if words.len() > 0 {
        let text = joined(words, space());
        lemma_joined_first(words);
        lemma_words_of_joined(words, space());
        lemma_words_of_joined(words, Seq::empty());
        assert(Seq::empty() + text =~= text);
    }
}

/// What words joined by spaces begin with: the first word.
proof fn lemma_joined_first(words: Seq<Seq<u8>>)
    requires
        words.len() > 0,
        forall|i: int| 0 <= i < words.len() ==> word(#[trigger] words[i]),
    ensures
        joined(words, space()).len() > 0,
        !wsp(joined(words, space())[0]),
    decreases words.len(),
{
    assert(word(words[0]));
    if words.len() > 1 {
        let front = words.drop_last();
        assert forall|i: int| 0 <= i < front.len() implies word(#[trigger] front[i]) by {
            assert(front[i] == words[i]);
        }
        lemma_joined_first(front);
    } else {
        assert(!wsp(words[0][0]));
    }
}

/// Words without a CRLF, with one space between each two, hold none.
proof fn lemma_joined_crlf_free(words: Seq<Seq<u8>>)
    requires
        forall|i: int| 0 <= i < words.len() ==> crlf_free(#[trigger] words[i]),
    ensures
        crlf_free(joined(words, space())),
    decreases words.len(),
{
    if words.len() == 1 {
        assert(crlf_free(words[0]));
    } else if words.len() > 1 {
        let front = words.drop_last();
        assert forall|i: int| 0 <= i < front.len() implies crlf_free(#[trigger] front[i]) by {
            assert(front[i] == words[i]);
        }
        lemma_joined_crlf_free(front);
        assert(crlf_free(words[words.len() - 1]));
        lemma_crlf_free_apart(joined(front, space()), words.last());
    }
}

/// Two texts without a CRLF hold none with a space between them.
proof fn lemma_crlf_free_apart(a: Seq<u8>, b: Seq<u8>)
    requires
        crlf_free(a),
        crlf_free(b),
    ensures
        crlf_free(a + space() + b),
{
    let all = a + space() + b;
    let n = a.len() as int;
    assert forall|j: int| 0 <= j && j + 1 < all.len() && #[trigger] all[j] == 0x0d implies all[j + 1]
        != 0x0a by {
        if j + 1 < n {
            assert(a[j] == 0x0d);
        } else if j > n {
            assert(b[j - n - 1] == 0x0d);
        }
    }
}

/// A relaxed line holds no CRLF where the line holds none.
proof fn lemma_relaxed_line_crlf_free(line: Seq<u8>)
    requires
        crlf_free(line),
    ensures
        crlf_free(relaxed_line(line)),
{
    let words = wsp_words(line);
    lemma_words(line);
    lemma_joined_crlf_free(words);
    lemma_crlf_free_apart(Seq::empty(), joined(words, space()));
    assert(Seq::empty() + space() + joined(words, space()) =~= space() + joined(words, space()));
}

/// The lines without the empty ones at their end are the first ones.
proof fn lemma_trailing_empty(lines: Seq<Seq<u8>>)
    ensures
        without_trailing_empty(lines).len() <= lines.len(),
        forall|i: int|
            0 <= i < without_trailing_empty(lines).len()
                ==> #[trigger] without_trailing_empty(lines)[i] == lines[i],
    decreases lines.len(),
{
    if lines.len() > 0 && lines.last().len() == 0 {
        lemma_trailing_empty(lines.drop_last());
    }
}

proof fn lemma_stripped(s: Seq<u8>)
    ensures
        !ends_in_crlf(without_trailing_crlfs(s)),
    decreases s.len(),
{
    if ends_in_crlf(s) {
        lemma_stripped(s.take(s.len() - 2));
    }
}

proof fn lemma_last_not_empty(lines: Seq<Seq<u8>>)
    ensures
        without_trailing_empty(lines).len() > 0 ==> without_trailing_empty(lines).last().len() > 0,
    decreases lines.len(),
{
    if lines.len() > 0 && lines.last().len() == 0 {
        lemma_last_not_empty(lines.drop_last());
    }
}

} // verus!
