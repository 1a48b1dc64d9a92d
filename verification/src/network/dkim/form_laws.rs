//! What canonicalization makes of a header value and of a body, and what the tags of a
//! signature say.

use vstd::prelude::*;
use vstd::utf8::encode_utf8;

use crate::bytes::utf8_lossy;
use crate::network::base64::base64_decoded;
use crate::network::dkim::canonicalize::{
    body_lines, canon_of, canonical_body, crlf, crlf_free, ends_in_crlf, lemma_split_terminated,
    relaxed_line, relaxed_value, space, terminated, unfolded, without_trailing_crlfs, wsp,
    wsp_words, BodyCanon, HeaderCanon,
};
use crate::network::dkim::signature::{
    b_stripped, header_names, without_white_space, Algorithm, DkimSignature,
};
use crate::network::dns::txt::{tag, tag_map};
use crate::text::{joined, lowered, number, splits, trimmed, white_space};
use crate::text_laws::{law_cut_is_at_the_first_or_last, law_pieces_stand_between_separators};

verus! {

// ---------------------------------------------------------------------------
// Words
// ---------------------------------------------------------------------------

proof fn lemma_words_apart(a: Seq<u8>, c: u8, b: Seq<u8>)
    requires
        wsp(c),
    ensures
        wsp_words(a + seq![c] + b) == wsp_words(a) + wsp_words(b),
        b.len() > 0 && !wsp(b.last()) ==> wsp_words(b).len() > 0,
    decreases b.len(),
{
    let s = a + seq![c] + b;
    let left = wsp_words(a);
    if b.len() == 0 {
        assert(s.drop_last() =~= a);
        assert(s.last() == c);
        assert(left + wsp_words(b) =~= left);
    } else {
        let front = b.drop_last();
        lemma_words_apart(a, c, front);
        assert(s.drop_last() =~= a + seq![c] + front);
        assert(s.last() == b.last());
        let right = wsp_words(front);
        if !wsp(b.last()) {
            if b.len() > 1 {
                assert(s[s.len() - 2] == b[b.len() - 2]);
                assert(front.last() == b[b.len() - 2]);
                if !wsp(front.last()) {
                    assert((left + right).last() == right.last());
                    assert((left + right).drop_last() =~= left + right.drop_last());
                }
            } else {
                assert(s[s.len() - 2] == c);
                assert(front =~= Seq::empty());
            }
            assert(wsp_words(s) =~= left + wsp_words(b));
        }
    }
}

proof fn lemma_one_word(w: Seq<u8>)
    requires
        w.len() > 0,
        forall|i: int| 0 <= i < w.len() ==> !wsp(#[trigger] w[i]),
    ensures
        wsp_words(w) == seq![w],
    decreases w.len(),
{
    let front = w.drop_last();
    assert(!wsp(w[w.len() - 1]));
    if w.len() == 1 {
        assert(front =~= Seq::empty());
        assert(wsp_words(front) =~= Seq::<Seq<u8>>::empty());
        assert(seq![w.last()] =~= w);
        assert(Seq::<Seq<u8>>::empty().push(w) =~= seq![w]);
    } else {
        assert forall|i: int| 0 <= i < front.len() implies !wsp(#[trigger] front[i]) by {
            assert(front[i] == w[i]);
        }
        lemma_one_word(front);
        assert(!wsp(w[w.len() - 2]));
        assert(front.push(w.last()) =~= w);
        assert(seq![front].drop_last().push(w) =~= seq![w]);
    }
}

proof fn lemma_words_are_not_empty(s: Seq<u8>)
    ensures
        forall|i: int| 0 <= i < wsp_words(s).len() ==> (#[trigger] wsp_words(s)[i]).len() > 0
            && !wsp(wsp_words(s)[i][0]),
        s.len() > 0 && !wsp(s.last()) ==> wsp_words(s).len() > 0,
    decreases s.len(),
{
    if s.len() > 0 {
        let front = s.drop_last();
        lemma_words_are_not_empty(front);
        let before = wsp_words(front);
        let all = wsp_words(s);
        if !wsp(s.last()) {
            let grows = s.len() > 1 && !wsp(s[s.len() - 2]);
            if grows {
                assert(front.last() == s[s.len() - 2]);
                assert(before[before.len() - 1].len() > 0 && !wsp(before[before.len() - 1][0]));
            }
            assert forall|i: int| 0 <= i < all.len() implies (#[trigger] all[i]).len() > 0 && !wsp(
                all[i][0],
            ) by {
                if i < all.len() - 1 {
                    assert(all[i] == before[i]);
                }
            }
        }
    }
}

proof fn lemma_joined_words(words: Seq<Seq<u8>>)
    requires
        forall|i: int| 0 <= i < words.len() ==> (#[trigger] words[i]).len() > 0 && !wsp(words[i][0]),
    ensures
        words.len() > 0 ==> joined(words, space()).len() > 0 && !wsp(joined(words, space())[0]),
        words.len() == 0 ==> joined(words, space()).len() == 0,
    decreases words.len(),
{
    if words.len() > 0 {
        assert(words[0].len() > 0);
        if words.len() > 1 {
            let front = words.drop_last();
            assert forall|i: int| 0 <= i < front.len() implies (#[trigger] front[i]).len() > 0
                && !wsp(front[i][0]) by {
                assert(front[i] == words[i]);
            }
            lemma_joined_words(front);
            assert(joined(words, space())[0] == joined(front, space())[0]);
        }
    }
}

proof fn lemma_joined_apart(a: Seq<Seq<u8>>, b: Seq<Seq<u8>>)
    requires
        a.len() > 0,
        b.len() > 0,
    ensures
        joined(a + b, space()) == joined(a, space()) + space() + joined(b, space()),
    decreases b.len(),
{
    assert((a + b).drop_last() =~= a + b.drop_last());
    if b.len() > 1 {
        lemma_joined_apart(a, b.drop_last());
        assert(joined(a + b, space()) =~= joined(a, space()) + space() + joined(b, space()));
    } else {
        assert(a + b.drop_last() =~= a);
    }
}

/// The joined words of a text that white space takes apart.
proof fn lemma_joined_words_apart(a: Seq<u8>, c: u8, b: Seq<u8>)
    requires
        wsp(c),
    ensures
        ({
            let ja = joined(wsp_words(a), space());
            let jb = joined(wsp_words(b), space());
            joined(wsp_words(a + seq![c] + b), space()) == if ja.len() == 0 {
                jb
            } else if jb.len() == 0 {
                ja
            } else {
                ja + seq![0x20u8] + jb
            }
        }),
        joined(wsp_words(a), space()).len() == 0 <==> wsp_words(a).len() == 0,
        joined(wsp_words(b), space()).len() == 0 <==> wsp_words(b).len() == 0,
{
    lemma_words_apart(a, c, b);
    lemma_words_are_not_empty(a);
    lemma_words_are_not_empty(b);
    let wa = wsp_words(a);
    let wb = wsp_words(b);
    lemma_joined_words(wa);
    lemma_joined_words(wb);
    if wa.len() == 0 {
        assert(wa + wb =~= wb);
    } else if wb.len() == 0 {
        assert(wa + wb =~= wa);
    } else {
        lemma_joined_apart(wa, wb);
    }
}

// ---------------------------------------------------------------------------
// Header values
// ---------------------------------------------------------------------------

/// A relaxed header value is its words with one space between each two: bytes without white
/// space stay as they are, carriage returns and line feeds go, and white space between two
/// texts becomes one space where both have a word, and nothing otherwise.
pub proof fn law_relaxed_value_has_single_spaces(a: Seq<u8>, b: Seq<u8>, w: Seq<u8>, c: u8)
    requires
        forall|i: int|
            0 <= i < w.len() ==> !wsp(#[trigger] w[i]) && w[i] != 0x0d && w[i] != 0x0a,
    ensures
        relaxed_value(w) == w,
        c == 0x20 || c == 0x09 ==> relaxed_value(a + seq![c] + b) == if relaxed_value(a).len()
            == 0 {
            relaxed_value(b)
        } else if relaxed_value(b).len() == 0 {
            relaxed_value(a)
        } else {
            relaxed_value(a) + seq![0x20u8] + relaxed_value(b)
        },
        c == 0x0d || c == 0x0a ==> relaxed_value(a + seq![c] + b) == relaxed_value(a + b),
{
    lemma_unfolded_word(w);
    if w.len() > 0 {
        lemma_one_word(w);
    } else {
        assert(w =~= Seq::empty());
        assert(wsp_words(w) =~= Seq::<Seq<u8>>::empty());
    }
    lemma_unfolded_apart(a, c, b);
    if c == 0x20 || c == 0x09 {
        lemma_joined_words_apart(unfolded(a), c, unfolded(b));
    }
}

proof fn lemma_unfolded_word(w: Seq<u8>)
    requires
        forall|i: int| 0 <= i < w.len() ==> #[trigger] w[i] != 0x0d && w[i] != 0x0a,
    ensures
        unfolded(w) == w,
    decreases w.len(),
{
    if w.len() > 0 {
        let front = w.drop_last();
        assert forall|i: int| 0 <= i < front.len() implies #[trigger] front[i] != 0x0d && front[i]
            != 0x0a by {
            assert(front[i] == w[i]);
        }
        lemma_unfolded_word(front);
        assert(w[w.len() - 1] != 0x0d && w[w.len() - 1] != 0x0a);
        assert(front.push(w.last()) =~= w);
    } else {
        assert(w =~= Seq::empty());
    }
}

proof fn lemma_unfolded_both(a: Seq<u8>, b: Seq<u8>)
    ensures
        unfolded(a + b) == unfolded(a) + unfolded(b),
    decreases b.len(),
{
    if b.len() == 0 {
        assert(a + b =~= a);
        assert(unfolded(a) + unfolded(b) =~= unfolded(a));
    } else {
        lemma_unfolded_both(a, b.drop_last());
        assert((a + b).drop_last() =~= a + b.drop_last());
        assert((a + b).last() == b.last());
        assert(unfolded(a + b) =~= unfolded(a) + unfolded(b));
    }
}

proof fn lemma_unfolded_apart(a: Seq<u8>, c: u8, b: Seq<u8>)
    ensures
        c != 0x0d && c != 0x0a ==> unfolded(a + seq![c] + b) == unfolded(a) + seq![c] + unfolded(b),
        c == 0x0d || c == 0x0a ==> unfolded(a + seq![c] + b) == unfolded(a + b),
{
    lemma_unfolded_both(a, seq![c]);
    lemma_unfolded_both(a + seq![c], b);
    lemma_unfolded_both(a, b);
    assert(seq![c].drop_last() =~= Seq::empty());
    assert(unfolded(Seq::<u8>::empty()) =~= Seq::<u8>::empty());
    if c == 0x0d || c == 0x0a {
        assert(unfolded(seq![c]) =~= Seq::<u8>::empty());
        assert(unfolded(a) + Seq::<u8>::empty() =~= unfolded(a));
    } else {
        assert(unfolded(seq![c]) =~= seq![c]);
    }
}

// ---------------------------------------------------------------------------
// Bodies
// ---------------------------------------------------------------------------

/// A relaxed body line keeps what is no white space, has one space for white space between
/// two words and for white space before the first, and none at its end.
pub proof fn law_relaxed_line_has_single_spaces(a: Seq<u8>, b: Seq<u8>, w: Seq<u8>, c: u8)
    requires
        forall|i: int| 0 <= i < w.len() ==> !wsp(#[trigger] w[i]),
        c == 0x20 || c == 0x09,
    ensures
        relaxed_line(w) == w,
        ({
            let rb = relaxed_line(b);
            let behind = if rb.len() == 0 || rb[0] == 0x20 {
                rb
            } else {
                seq![0x20u8] + rb
            };
            &&& relaxed_line(seq![c] + b) == behind
            &&& relaxed_line(a).len() > 0 ==> relaxed_line(a + seq![c] + b) == relaxed_line(a)
                + behind
        }),
{
    if w.len() > 0 {
        lemma_one_word(w);
    } else {
        assert(w =~= Seq::empty());
    }
    let ja = joined(wsp_words(a), space());
    let jb = joined(wsp_words(b), space());
    let none = Seq::<u8>::empty();
    lemma_joined_words_apart(a, c, b);
    lemma_joined_words_apart(none, c, b);
    assert(none + seq![c] + b =~= seq![c] + b);
    assert(wsp_words(none) =~= Seq::<Seq<u8>>::empty());
    lemma_words_are_not_empty(a);
    lemma_words_are_not_empty(b);
    lemma_joined_words(wsp_words(a));
    lemma_joined_words(wsp_words(b));
    lemma_words_apart(none, c, b);
    lemma_words_apart(a, c, b);
    let rb = relaxed_line(b);
    let behind = if rb.len() == 0 || rb[0] == 0x20 {
        rb
    } else {
        seq![0x20u8] + rb
    };
    assert((seq![c] + b)[0] == c);
    if wsp_words(b).len() > 0 {
        assert(b.len() > 0);
        assert(behind =~= space() + jb);
        assert(wsp_words(seq![c] + b).len() > 0);
        assert(relaxed_line(seq![c] + b) =~= space() + jb);
    } else {
        assert(wsp_words(seq![c] + b).len() == 0);
    }
    if relaxed_line(a).len() > 0 {
        assert(wsp_words(a).len() > 0);
        assert(a.len() > 0);
        assert((a + seq![c] + b)[0] == a[0]);
        assert(wsp_words(a + seq![c] + b).len() > 0);
        if wsp_words(b).len() > 0 {
            assert(ja + seq![0x20u8] + jb =~= ja + behind);
            if wsp(a[0]) {
                assert(relaxed_line(a + seq![c] + b) =~= space() + (ja + behind));
                assert(space() + (ja + behind) =~= relaxed_line(a) + behind);
            } else {
                assert(relaxed_line(a + seq![c] + b) =~= relaxed_line(a) + behind);
            }
        } else {
            assert(behind =~= none);
            assert(relaxed_line(a) + none =~= relaxed_line(a));
        }
    }
}

/// A relaxed body is its lines, each relaxed and ended by a CRLF, up to the last that is not
/// blank; a body without such a line is nothing.
pub proof fn law_relaxed_body_is_by_line(lines: Seq<Seq<u8>>)
    requires
        forall|i: int| 0 <= i < lines.len() ==> crlf_free(#[trigger] lines[i]),
    ensures
        lines.len() > 0 && relaxed_line(lines.last()).len() > 0 ==> canonical_body(
            terminated(lines),
            BodyCanon::Relaxed,
        ) == terminated(Seq::new(lines.len(), |i: int| relaxed_line(lines[i]))),
        canonical_body(Seq::empty(), BodyCanon::Relaxed) == Seq::<u8>::empty(),
{
    let f = |l: Seq<u8>| relaxed_line(l);
    lemma_split_terminated(lines);
    assert(body_lines(terminated(lines)) =~= lines);
    assert(lines.map_values(f) =~= Seq::new(lines.len(), |i: int| relaxed_line(lines[i])));
    let none = Seq::<Seq<u8>>::empty();
    lemma_split_terminated(none);
    assert(terminated(none) =~= Seq::<u8>::empty());
    assert(body_lines(Seq::<u8>::empty()) =~= none);
    assert(none.map_values(f) =~= none);
}

/// A simple body is the body as it is, up to the CRLFs at its end, and one CRLF; an empty
/// body is one CRLF.
pub proof fn law_simple_body_is_kept(body: Seq<u8>)
    requires
        body.len() < 2 || body[body.len() - 2] != 0x0d || body[body.len() - 1] != 0x0a,
    ensures
        canonical_body(body, BodyCanon::Simple) == body + seq![0x0du8, 0x0au8],
        canonical_body(body + seq![0x0du8, 0x0au8], BodyCanon::Simple) == body + seq![
            0x0du8,
            0x0au8,
        ],
{
    assert(!ends_in_crlf(body));
    let ended = body + crlf();
    assert(ended.take(ended.len() - 2) =~= body);
    assert(ends_in_crlf(ended));
    assert(without_trailing_crlfs(body) == body);
    assert(without_trailing_crlfs(ended) == without_trailing_crlfs(body));
}

/// The `c=` tag names the header's algorithm and, after a slash, the body's; `relaxed`, in
/// any case, is relaxed and anything else, or nothing, is simple.
pub proof fn law_canon_tag_names_two_algorithms(header: Seq<char>, body: Seq<char>)
    requires
        forall|i: int| 0 <= i < header.len() ==> header[i] != '/',
    ensures
        canon_of(None) == (HeaderCanon::Simple, BodyCanon::Simple),
        ({
            let h = if lowered(header) == lowered("relaxed"@) {
                HeaderCanon::Relaxed
            } else {
                HeaderCanon::Simple
            };
            let b = if lowered(body) == lowered("relaxed"@) {
                BodyCanon::Relaxed
            } else {
                BodyCanon::Simple
            };
            &&& canon_of(Some(header)) == (h, BodyCanon::Simple)
            &&& canon_of(Some(header + seq!['/'] + body)) == (h, b)
        }),
{
    reveal_strlit("simple");
    reveal_strlit("relaxed");
    assert(lowered("simple"@).len() == 6);
    assert(lowered("relaxed"@).len() == 7);
    law_cut_is_at_the_first_or_last(header, '/', body);
}

// ---------------------------------------------------------------------------
// Tags
// ---------------------------------------------------------------------------

/// A signature is read from its tags exactly where each of them that it needs is there and
/// reads: the version is 1 if it is given, the algorithm is a known one in any case, the
/// signature and the body hash are base64 once white space is taken out, and there are a
/// domain, a selector, a list of header names and, where they are given, a number for the
/// length and one for the expiry.
pub proof fn law_signature_is_read_from_its_tags(raw: Seq<u8>)
    ensures
        ({
            let tags = tag_map(utf8_lossy(raw));
            let has = |name: Seq<char>| tag(tags, name) is Some;
            let value = |name: Seq<char>| tag(tags, name)->0;
            let rsa = lowered(value("a"@)) == "rsa-sha256"@;
            let ed = lowered(value("a"@)) == "ed25519-sha256"@;
            let b = base64_decoded(encode_utf8(without_white_space(value("b"@))));
            let bh = base64_decoded(encode_utf8(without_white_space(value("bh"@))));
            let names = header_names(splits(value("h"@), ':'));
            let l = number(value("l"@), usize::MAX as nat);
            let x = number(value("x"@), u64::MAX as nat);
            &&& DkimSignature::parsed(raw) is Ok <==> (has("v"@) ==> value("v"@) == "1"@) && has(
                "a"@,
            ) && (rsa || ed) && has("b"@) && b is Ok && has("bh"@) && bh is Ok && has("d"@) && has(
                "s"@,
            ) && has("h"@) && names.len() > 0 && (has("l"@) ==> l is Some) && (has("x"@)
                ==> x is Some)
            &&& DkimSignature::parsed(raw) matches Ok(sig) ==> {
                &&& sig.algorithm == if rsa {
                    Algorithm::RsaSha256
                } else {
                    Algorithm::Ed25519Sha256
                }
                &&& sig.signature == b->Ok_0
                &&& sig.body_hash == bh->Ok_0
                &&& (sig.header_canon, sig.body_canon) == canon_of(tag(tags, "c"@))
                &&& sig.domain == value("d"@)
                &&& sig.selector == value("s"@)
                &&& sig.signed_headers == names
                &&& sig.body_length == if has("l"@) {
                    l
                } else {
                    None
                }
                &&& sig.expiration == if has("x"@) {
                    x
                } else {
                    None
                }
                &&& sig.b_stripped_value == b_stripped(raw)
            }
        }),
{
    reveal_strlit("rsa-sha256");
    reveal_strlit("ed25519-sha256");
    assert("rsa-sha256"@.len() != "ed25519-sha256"@.len());
}

/// The names of an `h=` list stand between its colons, trimmed and lowercased; an empty one
/// is left out.
pub proof fn law_header_names_stand_between_colons(name: Seq<char>, a: Seq<char>, b: Seq<char>)
    requires
        forall|i: int| 0 <= i < name.len() ==> name[i] != ':',
    ensures
        header_names(splits(name, ':')) == if trimmed(name).len() == 0 {
            Seq::<Seq<char>>::empty()
        } else {
            seq![lowered(trimmed(name))]
        },
        header_names(splits(a + seq![':'] + b, ':')) == header_names(splits(a, ':')) + header_names(
            splits(b, ':'),
        ),
{
    law_pieces_stand_between_separators(name, ':', b);
    law_pieces_stand_between_separators(a, ':', b);
    lemma_names_apart(splits(a, ':'), splits(b, ':'));
    assert(seq![name].drop_last() =~= Seq::<Seq<char>>::empty());
    assert(header_names(Seq::<Seq<char>>::empty()) =~= Seq::<Seq<char>>::empty());
    assert(lowered(trimmed(name)).len() == trimmed(name).len());
    assert(Seq::<Seq<char>>::empty().push(lowered(trimmed(name))) =~= seq![lowered(trimmed(name))]);
}

proof fn lemma_names_apart(a: Seq<Seq<char>>, b: Seq<Seq<char>>)
    ensures
        header_names(a + b) == header_names(a) + header_names(b),
    decreases b.len(),
{
    if b.len() == 0 {
        assert(a + b =~= a);
        assert(header_names(a) + header_names(b) =~= header_names(a));
    } else {
        lemma_names_apart(a, b.drop_last());
        assert((a + b).drop_last() =~= a + b.drop_last());
        assert((a + b).last() == b.last());
        assert(header_names(a + b) =~= header_names(a) + header_names(b));
    }
}

/// Taking out white space leaves every other character, in order.
pub proof fn law_white_space_is_taken_out(s: Seq<char>, c: char)
    ensures
        without_white_space(Seq::empty()) == Seq::<char>::empty(),
        white_space(c) ==> without_white_space(s.push(c)) == without_white_space(s),
        !white_space(c) ==> without_white_space(s.push(c)) == without_white_space(s).push(c),
{
    assert(s.push(c).drop_last() =~= s);
}

} // verus!
