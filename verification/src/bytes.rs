//! Byte-sequence primitives: searching, splitting and joining, and the two
//! conversions between bytes and text.

use vstd::prelude::*;
use vstd::slice::{slice_subrange, slice_to_vec};
use vstd::utf8::{decode_utf8, valid_utf8};

use crate::text::{blobs, joined, push_bytes};

verus! {

// ---------------------------------------------------------------------------
// Searching and splitting
// ---------------------------------------------------------------------------

/// CRLF CRLF: the blank line between a header section and what follows it.
pub open spec fn blank_line() -> Seq<u8> {
    seq![0x0du8, 0x0au8, 0x0du8, 0x0au8]
}

/// The index of the first occurrence of `needle`.
pub open spec fn find_in<A>(hay: Seq<A>, needle: Seq<A>) -> Option<int>
    decreases hay.len(),
{
    if hay.len() < needle.len() || hay.len() == 0 {
        None
    } else if hay.take(needle.len() as int) == needle {
        Some(0int)
    } else {
        match find_in(hay.drop_first(), needle) {
            Some(i) => Some(i + 1),
            None => None,
        }
    }
}

/// Whether `needle` stands in `hay` at index `i`.
pub open spec fn occurs_at<A>(hay: Seq<A>, needle: Seq<A>, i: int) -> bool {
    0 <= i && i + needle.len() <= hay.len() && hay.subrange(i, i + needle.len()) == needle
}

/// What `find_in` returns: the first index at which `needle` stands, if it
/// stands at any.
pub proof fn lemma_find_in<A>(hay: Seq<A>, needle: Seq<A>)
    requires
        needle.len() > 0,
    ensures
        find_in(hay, needle) matches Some(i) ==> occurs_at(hay, needle, i) && (forall|j: int|
            0 <= j < i ==> !occurs_at(hay, needle, j)),
        find_in(hay, needle) is None ==> forall|j: int| !occurs_at(hay, needle, j),
    decreases hay.len(),
{
    let n = needle.len() as int;
    if hay.len() >= needle.len() {
        assert(hay.take(n) == hay.subrange(0, n));
        if hay.take(n) != needle {
            let t = hay.drop_first();
            lemma_find_in(t, needle);
            assert forall|j: int| 1 <= j implies occurs_at(hay, needle, j) == occurs_at(
                t,
                needle,
                j - 1,
            ) by {
                if j + n <= hay.len() {
                    assert(hay.subrange(j, j + n) =~= t.subrange(j - 1, j - 1 + n));
                }
            }
            assert(!occurs_at(hay, needle, 0));
            match find_in(t, needle) {
                Some(i) => {
                    assert(occurs_at(hay, needle, i + 1));
                    assert forall|j: int| 0 <= j < i + 1 implies !occurs_at(hay, needle, j) by {
                        if j > 0 {
                            assert(!occurs_at(t, needle, j - 1));
                        }
                    }
                },
                None => {
                    assert forall|j: int| !occurs_at(hay, needle, j) by {
                        if j > 0 {
                            assert(!occurs_at(t, needle, j - 1));
                        }
                    }
                },
            }
        }
    }
}

/// An index at which `needle` stands, and before which it does not, is what
/// `find_in` returns.
pub proof fn lemma_find_in_is<A>(hay: Seq<A>, needle: Seq<A>, i: int)
    requires
        needle.len() > 0,
        occurs_at(hay, needle, i),
        forall|j: int| 0 <= j < i ==> !occurs_at(hay, needle, j),
    ensures
        find_in(hay, needle) == Some(i),
{
    lemma_find_in(hay, needle);
}

/// The pieces between the occurrences of `sep`; a sequence without `sep` is one
/// piece.
pub open spec fn split_on<A>(s: Seq<A>, sep: Seq<A>) -> Seq<Seq<A>>
    decreases s.len(),
{
    match find_in(s, sep) {
        Some(i) => {
            if 0 <= i && i + sep.len() <= s.len() && sep.len() > 0 {
                seq![s.take(i)] + split_on(s.skip(i + sep.len()), sep)
            } else {
                seq![s]
            }
        },
        None => seq![s],
    }
}

/// Splitting always gives at least one piece, and joining the pieces with the
/// separator gives the sequence back.
pub proof fn lemma_split_on<A>(s: Seq<A>, sep: Seq<A>)
    requires
        sep.len() > 0,
    ensures
        split_on(s, sep).len() >= 1,
        joined_front(split_on(s, sep), sep) == s,
    decreases s.len(),
{
    lemma_find_in(s, sep);
    match find_in(s, sep) {
        Some(i) => {
            let rest = s.skip(i + sep.len());
            lemma_split_on(rest, sep);
            let all = split_on(s, sep);
            assert(all.drop_first() =~= split_on(rest, sep));
            assert(s =~= s.take(i) + s.subrange(i, i + sep.len()) + rest);
        },
        None => {},
    }
}

/// The pieces in order, with `sep` between each two, read from the front.
pub open spec fn joined_front<A>(parts: Seq<Seq<A>>, sep: Seq<A>) -> Seq<A>
    decreases parts.len(),
{
    if parts.len() == 0 {
        Seq::empty()
    } else if parts.len() == 1 {
        parts[0]
    } else {
        parts[0] + sep + joined_front(parts.drop_first(), sep)
    }
}

/// Whether `needle` stands in `hay` at index `i`.
fn stands_at(hay: &[u8], needle: &[u8], i: usize) -> (r: bool)
    requires
        i + needle@.len() <= hay@.len(),
    ensures
        r == occurs_at(hay@, needle@, i as int),
{
    let n = hay.len();
    let mut j: usize = 0;
    while j < needle.len()
        invariant
            j <= needle.len(),
            n == hay@.len(),
            i + needle@.len() <= n,
            forall|k: int| 0 <= k < j ==> hay@[i + k] == needle@[k],
        decreases needle.len() - j,
    {
        if hay[i + j] != needle[j] {
            assert(hay@.subrange(i as int, i + needle@.len())[j as int] != needle@[j as int]);
            return false;
        }
        j = j + 1;
    }
    assert(hay@.subrange(i as int, i + needle@.len()) =~= needle@);
    true
}

/// The index of the first occurrence of `needle`.
pub fn find_subslice(hay: &[u8], needle: &[u8]) -> (r: Option<usize>)
    requires
        needle@.len() > 0,
    ensures
        match (r, find_in(hay@, needle@)) {
            (Some(i), Some(j)) => i == j && i + needle@.len() <= hay@.len(),
            (None, None) => true,
            _ => false,
        },
{
    let n = hay.len();
    let m = needle.len();
    if n < m {
        return None;
    }
    let mut i: usize = 0;
    while i <= n - m
        invariant
            n == hay@.len(),
            0 < m <= n,
            m == needle@.len(),
            i <= n - m + 1,
            forall|j: int| 0 <= j < i ==> !occurs_at(hay@, needle@, j),
        decreases n - i,
    {
        if stands_at(hay, needle, i) {
            proof {
                lemma_find_in_is(hay@, needle@, i as int);
            }
            return Some(i);
        }
        i = i + 1;
    }
    proof {
        lemma_find_in(hay@, needle@);
    }
    None
}

/// The pieces between the occurrences of `sep`.
pub fn split_bytes(s: &[u8], sep: &[u8]) -> (r: Vec<Vec<u8>>)
    requires
        sep@.len() > 0,
    ensures
        blobs(r@) == split_on(s@, sep@),
{
    let mut out: Vec<Vec<u8>> = Vec::new();
    let mut start: usize = 0;
    let n = s.len();
    let m = sep.len();
    assert(s@.skip(0) =~= s@);
    assert(blobs(out@) + split_on(s@, sep@) =~= split_on(s@, sep@));
    while start <= n
        invariant
            start <= n,
            n == s@.len(),
            m == sep@.len(),
            m > 0,
            blobs(out@) + split_on(s@.skip(start as int), sep@) == split_on(s@, sep@),
        decreases n - start,
    {
        let rest = slice_subrange(s, start, n);
        assert(rest@ =~= s@.skip(start as int));
        let ghost before = out@;
        match find_subslice(rest, sep) {
            Some(i) => {
                let piece = slice_to_vec(slice_subrange(rest, 0, i));
                proof {
                    assert(rest@.take(i as int) =~= piece@);
                    assert(rest@.skip(i + m) =~= s@.skip(start + i + m));
                    assert(blobs(before.push(piece)) =~= blobs(before).push(piece@));
                    assert(blobs(before) + (seq![piece@] + split_on(s@.skip(start + i + m), sep@))
                        =~= blobs(before).push(piece@) + split_on(s@.skip(start + i + m), sep@));
                }
                out.push(piece);
                start = start + i + m;
            },
            None => {
                let piece = slice_to_vec(rest);
                assert(blobs(before.push(piece)) =~= blobs(before) + seq![piece@]);
                out.push(piece);
                return out;
            },
        }
    }
    out
}

/// The index of the first byte equal to `b`.
pub open spec fn find_byte(s: Seq<u8>, b: u8) -> Option<int>
    decreases s.len(),
{
    if s.len() == 0 {
        None
    } else if s[0] == b {
        Some(0int)
    } else {
        match find_byte(s.drop_first(), b) {
            Some(i) => Some(i + 1),
            None => None,
        }
    }
}

/// What `find_byte` returns: the first index that holds `b`, if any does.
pub proof fn lemma_find_byte(s: Seq<u8>, b: u8)
    ensures
        find_byte(s, b) matches Some(i) ==> 0 <= i < s.len() && s[i] == b && (forall|j: int|
            0 <= j < i ==> s[j] != b),
        find_byte(s, b) is None ==> forall|j: int| 0 <= j < s.len() ==> s[j] != b,
    decreases s.len(),
{
    if s.len() > 0 && s[0] != b {
        let t = s.drop_first();
        lemma_find_byte(t, b);
        assert forall|j: int| 1 <= j < s.len() implies s[j] == t[j - 1] by {}
    }
}

/// The index of the first byte equal to `b`.
pub fn position(s: &[u8], b: u8) -> (r: Option<usize>)
    ensures
        match (r, find_byte(s@, b)) {
            (Some(i), Some(j)) => i == j && i < s@.len(),
            (None, None) => true,
            _ => false,
        },
{
    let mut i: usize = 0;
    while i < s.len()
        invariant
            i <= s.len(),
            forall|j: int| 0 <= j < i ==> s@[j] != b,
        decreases s.len() - i,
    {
        if s[i] == b {
            proof {
                lemma_find_byte(s@, b);
            }
            return Some(i);
        }
        i = i + 1;
    }
    proof {
        lemma_find_byte(s@, b);
    }
    None
}

/// The pieces in order, with `sep` between each two.
pub fn join_bytes(parts: &Vec<Vec<u8>>, sep: &[u8]) -> (r: Vec<u8>)
    ensures
        r@ == joined(blobs(parts@), sep@),
{
    let mut out: Vec<u8> = Vec::new();
    let mut i: usize = 0;
    let ghost all = blobs(parts@);
    while i < parts.len()
        invariant
            i <= parts.len(),
            all == blobs(parts@),
            out@ == joined(all.take(i as int), sep@),
        decreases parts.len() - i,
    {
        proof {
            assert(all.take(i + 1).drop_last() =~= all.take(i as int));
            assert(all.take(i + 1).last() == parts@[i as int]@);
        }
        if i > 0 {
            push_bytes(&mut out, sep);
        }
        push_bytes(&mut out, parts[i].as_slice());
        assert(i == 0 ==> out@ =~= parts@[0]@);
        i = i + 1;
    }
    assert(all.take(all.len() as int) =~= all);
    out
}

// ---------------------------------------------------------------------------
// Bytes and text
// ---------------------------------------------------------------------------

/// The text that `String::from_utf8_lossy` makes of a byte sequence.
pub uninterp spec fn utf8_lossy(bytes: Seq<u8>) -> Seq<char>;

/// `String::from_utf8_lossy`: valid UTF-8 decodes to the text it encodes;
/// malformed sequences come out as replacement characters, at places that the
/// name `utf8_lossy` stands for.
#[verifier::external_body]
pub(crate) fn lossy_text(bytes: &[u8]) -> (r: String)
    ensures
        r@ == utf8_lossy(bytes@),
        valid_utf8(bytes@) ==> r@ == decode_utf8(bytes@),
{
    String::from_utf8_lossy(bytes).into_owned()
}

/// `std::str::from_utf8`: succeeds exactly on valid UTF-8, and then gives the
/// text that the bytes encode.
#[verifier::external_body]
pub(crate) fn utf8_text(bytes: &[u8]) -> (r: Option<String>)
    ensures
        r is Some <==> valid_utf8(bytes@),
        r matches Some(s) ==> s@ == decode_utf8(bytes@),
{
    std::str::from_utf8(bytes).ok().map(|s| s.to_string())
}

} // verus!
