//! What a signature covers and what its verification gives: the bytes that are hashed,
//! the fields that `h=` takes, and the result for each key and each signature.

use vstd::prelude::*;
use vstd::utf8::{decode_utf8, encode_utf8, valid_utf8};

use crate::bytes::{
    find_byte, find_in, lemma_find_byte, lemma_find_in, lemma_find_in_is, lemma_split_on, occurs_at,
    split_on, utf8_lossy,
};
use crate::network::base64::base64_decoded;
use crate::network::digest::sha256;
use crate::network::dkim::canonicalize::{
    canonical_body, crlf, crlf_free, lemma_one_line, lemma_split_on_line, relaxed_value, wsp,
    HeaderCanon,
};
use crate::network::dkim::signature::{
    b_stripped, names_b, without_b_value, Algorithm, DkimSignature, DkimSignatureView,
};
use crate::network::dkim::verify::{
    block_fields, ed25519_valid, header_blocks, header_fields, header_hash_input, inspected,
    keys_needed, lemma_outcome_at, lemma_states_count, message_parts, pick, picked, rsa_pkcs1_valid,
    rsa_spki_valid, settled_outcomes, signature_count, signature_state, signature_states,
    signed_fields, used_fields, DkimOutcomeView, DkimResult, HeaderFieldView, SignatureStateView,
};
use crate::network::dns::dkim::DkimRecordView;
use crate::network::error::NetworkErrorView;
use crate::text::{joined, lowered, trimmed};

verus! {

// ---------------------------------------------------------------------------
// The fields that `h=` takes
// ---------------------------------------------------------------------------

/// Whether a field can be taken for the `k`-th name of an `h=` list: it has that name, in
/// any case and with white space around it or not, it is not the signature field, and none
/// of the names before took it.
pub open spec fn free_for(
    fields: Seq<HeaderFieldView>,
    sig_idx: int,
    names: Seq<Seq<char>>,
    taken: Seq<int>,
    k: int,
    i: int,
) -> bool {
    &&& 0 <= i < fields.len()
    &&& i != sig_idx
    &&& lowered(trimmed(fields[i].name)) == lowered(names[k])
    &&& forall|m: int| 0 <= m < k ==> #[trigger] taken[m] != i
}

/// Whether the `k`-th name takes the `taken[k]`-th field: the last one that is free for
/// it, or none (`-1`) where none is.
pub open spec fn takes_last_free(
    fields: Seq<HeaderFieldView>,
    sig_idx: int,
    names: Seq<Seq<char>>,
    taken: Seq<int>,
    k: int,
) -> bool {
    let t = taken[k];
    &&& t == -1 || free_for(fields, sig_idx, names, taken, k, t)
    &&& forall|i: int| i > t ==> !(#[trigger] free_for(fields, sig_idx, names, taken, k, i))
}

/// Whether each name of an `h=` list takes the last field that is free for it.
pub open spec fn taken_from_the_end(
    fields: Seq<HeaderFieldView>,
    sig_idx: int,
    names: Seq<Seq<char>>,
    taken: Seq<int>,
) -> bool {
    taken.len() == names.len() && forall|k: int|
        0 <= k < names.len() ==> #[trigger] takes_last_free(fields, sig_idx, names, taken, k)
}

/// The fields taken, each one as `name:value` and CRLF, byte for byte.
pub open spec fn verbatim(fields: Seq<HeaderFieldView>, taken: Seq<int>) -> Seq<u8>
    decreases taken.len(),
{
    if taken.len() == 0 {
        Seq::empty()
    } else if taken.last() < 0 {
        verbatim(fields, taken.drop_last())
    } else {
        let field = fields[taken.last()];
        verbatim(fields, taken.drop_last()) + encode_utf8(field.name) + seq![0x3au8] + field.value
            + seq![0x0du8, 0x0au8]
    }
}

/// The fields taken, each one as `name:value` and CRLF, the name lowercased and the white
/// space of the value relaxed.
pub open spec fn relaxed(fields: Seq<HeaderFieldView>, taken: Seq<int>) -> Seq<u8>
    decreases taken.len(),
{
    if taken.len() == 0 {
        Seq::empty()
    } else if taken.last() < 0 {
        relaxed(fields, taken.drop_last())
    } else {
        let field = fields[taken.last()];
        relaxed(fields, taken.drop_last()) + encode_utf8(lowered(trimmed(field.name)))
            + seq![0x3au8] + relaxed_value(field.value) + seq![0x0du8, 0x0au8]
    }
}

/// Every `h=` list takes fields from the end, in one way.
pub proof fn law_names_take_fields_from_the_end(
    fields: Seq<HeaderFieldView>,
    sig_idx: int,
    names: Seq<Seq<char>>,
) -> (taken: Seq<int>)
    ensures
        taken_from_the_end(fields, sig_idx, names, taken),
    decreases names.len(),
{
    if names.len() == 0 {
        Seq::empty()
    } else {
        let front = names.drop_last();
        let before = law_names_take_fields_from_the_end(fields, sig_idx, front);
        let used = used_fields(fields, sig_idx, front);
        lemma_taken(fields, sig_idx, front, before);
        lemma_pick(fields, sig_idx, used, names.last(), fields.len() as int);
        let t = match picked(fields, sig_idx, used, names.last()) {
            Some(i) => i,
            None => -1int,
        };
        let taken = before.push(t);
        assert(taken.drop_last() =~= before);
        assert forall|k: int| 0 <= k < names.len() implies #[trigger] takes_last_free(
            fields,
            sig_idx,
            names,
            taken,
            k,
        ) by {
            if k < front.len() {
                assert(takes_last_free(fields, sig_idx, front, before, k));
                lemma_free_prefix(fields, sig_idx, names, taken, k);
            } else {
                assert forall|i: int| i > t implies !(#[trigger] free_for(
                    fields,
                    sig_idx,
                    names,
                    taken,
                    k,
                    i,
                )) by {
                    lemma_free_set(fields, sig_idx, names, taken, i);
                }
                lemma_free_set(fields, sig_idx, names, taken, t);
            }
        }
        taken
    }
}

proof fn lemma_free_prefix(
    fields: Seq<HeaderFieldView>,
    sig_idx: int,
    names: Seq<Seq<char>>,
    taken: Seq<int>,
    k: int,
)
    requires
        0 <= k < names.len() - 1,
        taken.len() == names.len(),
    ensures
        takes_last_free(fields, sig_idx, names.drop_last(), taken.drop_last(), k)
            == takes_last_free(fields, sig_idx, names, taken, k),
{
    let n = names.drop_last();
    let t = taken.drop_last();
    assert forall|i: int| free_for(fields, sig_idx, n, t, k, i) == #[trigger] free_for(
        fields,
        sig_idx,
        names,
        taken,
        k,
        i,
    ) by {
        assert(forall|m: int| 0 <= m < k ==> t[m] == taken[m]);
        if free_for(fields, sig_idx, n, t, k, i) {
            assert forall|m: int| 0 <= m < k implies #[trigger] taken[m] != i by {
                assert(t[m] != i);
            }
        }
        if free_for(fields, sig_idx, names, taken, k, i) {
            assert forall|m: int| 0 <= m < k implies #[trigger] t[m] != i by {
                assert(taken[m] != i);
            }
        }
    }
    if takes_last_free(fields, sig_idx, n, t, k) {
        assert forall|i: int| i > taken[k] implies !(#[trigger] free_for(
            fields,
            sig_idx,
            names,
            taken,
            k,
            i,
        )) by {
            assert(!free_for(fields, sig_idx, n, t, k, i));
        }
        assert(taken[k] == -1 || free_for(fields, sig_idx, names, taken, k, taken[k]));
    }
    if takes_last_free(fields, sig_idx, names, taken, k) {
        assert forall|i: int| i > t[k] implies !(#[trigger] free_for(
            fields,
            sig_idx,
            n,
            t,
            k,
            i,
        )) by {
            assert(!free_for(fields, sig_idx, names, taken, k, i));
        }
    }
}

/// What is free for the last name, by the set of what the names before took.
proof fn lemma_free_set(
    fields: Seq<HeaderFieldView>,
    sig_idx: int,
    names: Seq<Seq<char>>,
    taken: Seq<int>,
    i: int,
)
    requires
        names.len() > 0,
        taken.len() == names.len(),
        taken_from_the_end(fields, sig_idx, names.drop_last(), taken.drop_last()),
    ensures
        free_for(fields, sig_idx, names, taken, names.len() - 1, i) <==> 0 <= i < fields.len() && i
            != sig_idx && fields[i].is_named(names.last()) && !used_fields(
            fields,
            sig_idx,
            names.drop_last(),
        ).contains(i),
    decreases names.len(), 0int,
{
    let front = taken.drop_last();
    lemma_taken(fields, sig_idx, names.drop_last(), front);
    let used = used_fields(fields, sig_idx, names.drop_last());
    if 0 <= i && used.contains(i) {
        let m = choose|m: int| 0 <= m < front.len() && #[trigger] front[m] == i;
        assert(taken[m] == i);
    }
    if 0 <= i && !used.contains(i) {
        assert forall|m: int| 0 <= m < names.len() - 1 implies #[trigger] taken[m] != i by {
            assert(front[m] == taken[m]);
        }
    }
}

/// What the names took is the set of the fields that are used.
proof fn lemma_taken(
    fields: Seq<HeaderFieldView>,
    sig_idx: int,
    names: Seq<Seq<char>>,
    taken: Seq<int>,
)
    requires
        taken_from_the_end(fields, sig_idx, names, taken),
    ensures
        forall|i: int|
            i >= 0 ==> (used_fields(fields, sig_idx, names).contains(i) <==> exists|m: int|
                0 <= m < taken.len() && #[trigger] taken[m] == i),
    decreases names.len(), 2int,
{
    if names.len() > 0 {
        let front = taken.drop_last();
        lemma_taken_front(fields, sig_idx, names, taken);
        lemma_taken(fields, sig_idx, names.drop_last(), front);
        lemma_last_taken(fields, sig_idx, names, taken);
        let used = used_fields(fields, sig_idx, names.drop_last());
        assert forall|i: int| i >= 0 implies (used_fields(fields, sig_idx, names).contains(i)
            <==> exists|m: int| 0 <= m < taken.len() && #[trigger] taken[m] == i) by {
            if used.contains(i) {
                let m = choose|m: int| 0 <= m < front.len() && #[trigger] front[m] == i;
                assert(taken[m] == i);
            }
            if taken.last() == i {
                assert(taken[taken.len() - 1] == i);
            }
            if exists|m: int| 0 <= m < taken.len() && #[trigger] taken[m] == i {
                let m = choose|m: int| 0 <= m < taken.len() && #[trigger] taken[m] == i;
                if m < taken.len() - 1 {
                    assert(front[m] == i);
                }
            }
        }
    }
}

proof fn lemma_taken_front(
    fields: Seq<HeaderFieldView>,
    sig_idx: int,
    names: Seq<Seq<char>>,
    taken: Seq<int>,
)
    requires
        names.len() > 0,
        taken_from_the_end(fields, sig_idx, names, taken),
    ensures
        taken_from_the_end(fields, sig_idx, names.drop_last(), taken.drop_last()),
{
    assert forall|k: int| 0 <= k < names.len() - 1 implies #[trigger] takes_last_free(
        fields,
        sig_idx,
        names.drop_last(),
        taken.drop_last(),
        k,
    ) by {
        assert(takes_last_free(fields, sig_idx, names, taken, k));
        lemma_free_prefix(fields, sig_idx, names, taken, k);
    }
}

/// The last name takes what is picked for it.
proof fn lemma_last_taken(
    fields: Seq<HeaderFieldView>,
    sig_idx: int,
    names: Seq<Seq<char>>,
    taken: Seq<int>,
)
    requires
        names.len() > 0,
        taken_from_the_end(fields, sig_idx, names, taken),
    ensures
        taken.last() == match picked(
            fields,
            sig_idx,
            used_fields(fields, sig_idx, names.drop_last()),
            names.last(),
        ) {
            Some(i) => i,
            None => -1int,
        },
        taken.last() >= 0 ==> taken.last() < fields.len(),
        picked(
            fields,
            sig_idx,
            used_fields(fields, sig_idx, names.drop_last()),
            names.last(),
        ) matches Some(i) ==> i >= 0,
    decreases names.len(), 1int,
{
    let k = names.len() - 1;
    let used = used_fields(fields, sig_idx, names.drop_last());
    lemma_taken_front(fields, sig_idx, names, taken);
    lemma_pick(fields, sig_idx, used, names.last(), fields.len() as int);
    assert(takes_last_free(fields, sig_idx, names, taken, k));
    let t = taken[k];
    lemma_free_set(fields, sig_idx, names, taken, t);
    match picked(fields, sig_idx, used, names.last()) {
        Some(i) => {
            lemma_free_set(fields, sig_idx, names, taken, i);
            assert(free_for(fields, sig_idx, names, taken, k, i));
        },
        None => {},
    }
}

/// What is picked among the first fields is the last one that is free there.
proof fn lemma_pick(
    fields: Seq<HeaderFieldView>,
    sig_idx: int,
    used: Set<int>,
    name: Seq<char>,
    n: int,
)
    requires
        0 <= n <= fields.len(),
    ensures
        match pick(fields, sig_idx, used, name, n) {
            Some(i) => 0 <= i < n && i != sig_idx && !used.contains(i) && fields[i].is_named(name)
                && forall|j: int|
                i < j < n && j != sig_idx && !used.contains(j) ==> !(
                #[trigger] fields[j]).is_named(name),
            None => forall|j: int|
                0 <= j < n && j != sig_idx && !used.contains(j) ==> !(
                #[trigger] fields[j]).is_named(name),
        },
    decreases n,
{
    if n > 0 {
        lemma_pick(fields, sig_idx, used, name, n - 1);
    }
}

// ---------------------------------------------------------------------------
// The bytes that are hashed
// ---------------------------------------------------------------------------

/// Under simple canonicalization the input of the header hash is, byte for byte, `name:value`
/// and CRLF of each field that `h=` takes, and after those `name:value` of the signature field
/// with its `b=` value emptied and without a CRLF.
pub proof fn law_simple_header_hash_is_verbatim(
    fields: Seq<HeaderFieldView>,
    sig_idx: int,
    sig: DkimSignatureView,
    taken: Seq<int>,
)
    requires
        sig.header_canon is Simple,
        taken_from_the_end(fields, sig_idx, sig.signed_headers, taken),
    ensures
        header_hash_input(fields, sig_idx, sig) == verbatim(fields, taken) + encode_utf8(
            fields[sig_idx].name,
        ) + seq![0x3au8] + sig.b_stripped_value,
{
    lemma_verbatim(fields, sig_idx, sig.signed_headers, taken);
    let name = encode_utf8(fields[sig_idx].name);
    assert(header_hash_input(fields, sig_idx, sig) =~= verbatim(fields, taken) + name
        + seq![0x3au8] + sig.b_stripped_value);
}

/// Under relaxed canonicalization the same fields are hashed in the same order, each name
/// lowercased and each value with its white space relaxed, the signature field's too.
pub proof fn law_relaxed_header_hash_is_relaxed(
    fields: Seq<HeaderFieldView>,
    sig_idx: int,
    sig: DkimSignatureView,
    taken: Seq<int>,
)
    requires
        sig.header_canon is Relaxed,
        taken_from_the_end(fields, sig_idx, sig.signed_headers, taken),
    ensures
        header_hash_input(fields, sig_idx, sig) == relaxed(fields, taken) + encode_utf8(
            lowered(trimmed(fields[sig_idx].name)),
        ) + seq![0x3au8] + relaxed_value(sig.b_stripped_value),
{
    lemma_relaxed(fields, sig_idx, sig.signed_headers, taken);
    let name = encode_utf8(lowered(trimmed(fields[sig_idx].name)));
    assert(header_hash_input(fields, sig_idx, sig) =~= relaxed(fields, taken) + name
        + seq![0x3au8] + relaxed_value(sig.b_stripped_value));
}

proof fn lemma_verbatim(
    fields: Seq<HeaderFieldView>,
    sig_idx: int,
    names: Seq<Seq<char>>,
    taken: Seq<int>,
)
    requires
        taken_from_the_end(fields, sig_idx, names, taken),
    ensures
        signed_fields(fields, sig_idx, names, HeaderCanon::Simple) == verbatim(fields, taken),
    decreases names.len(),
{
    if names.len() > 0 {
        lemma_taken_front(fields, sig_idx, names, taken);
        lemma_last_taken(fields, sig_idx, names, taken);
        lemma_verbatim(fields, sig_idx, names.drop_last(), taken.drop_last());
        assert(signed_fields(fields, sig_idx, names, HeaderCanon::Simple) =~= verbatim(
            fields,
            taken,
        ));
    }
}

proof fn lemma_relaxed(
    fields: Seq<HeaderFieldView>,
    sig_idx: int,
    names: Seq<Seq<char>>,
    taken: Seq<int>,
)
    requires
        taken_from_the_end(fields, sig_idx, names, taken),
    ensures
        signed_fields(fields, sig_idx, names, HeaderCanon::Relaxed) == relaxed(fields, taken),
    decreases names.len(),
{
    if names.len() > 0 {
        lemma_taken_front(fields, sig_idx, names, taken);
        lemma_last_taken(fields, sig_idx, names, taken);
        lemma_relaxed(fields, sig_idx, names.drop_last(), taken.drop_last());
        assert(signed_fields(fields, sig_idx, names, HeaderCanon::Relaxed) =~= relaxed(
            fields,
            taken,
        ));
    }
}

/// The signature field is hashed with the value of its `b=` tag left out: a segment between
/// semicolons whose tag name is `b`, white space around that or not, keeps its name and its
/// `=`, any other segment is kept as it is, and so are the semicolons.
pub proof fn law_only_the_b_value_is_emptied(
    tag: Seq<u8>,
    value: Seq<u8>,
    segment: Seq<u8>,
    before: Seq<u8>,
    after: Seq<u8>,
)
    requires
        forall|i: int| 0 <= i < tag.len() ==> tag[i] != 0x3d && tag[i] != 0x3b,
        forall|i: int| 0 <= i < value.len() ==> value[i] != 0x3b,
        forall|i: int| 0 <= i < segment.len() ==> segment[i] != 0x3d && segment[i] != 0x3b,
    ensures
        names_b(tag) ==> b_stripped(tag + seq![0x3du8] + value) == tag + seq![0x3du8],
        !names_b(tag) ==> b_stripped(tag + seq![0x3du8] + value) == tag + seq![0x3du8] + value,
        b_stripped(segment) == segment,
        b_stripped(before + seq![0x3bu8] + after) == b_stripped(before) + seq![0x3bu8] + b_stripped(
            after,
        ),
{
    let whole = tag + seq![0x3du8] + value;
    let n = tag.len() as int;
    let cut_at = seq![0x3bu8];
    assert forall|i: int| 0 <= i < whole.len() implies whole[i] != 0x3b by {
        if i < n {
            assert(whole[i] == tag[i]);
        } else if i > n {
            assert(whole[i] == value[i - n - 1]);
        }
    }
    lemma_one_segment(whole);
    lemma_one_segment(segment);
    lemma_find_byte(whole, 0x3d);
    assert(whole[n] == 0x3d);
    assert forall|i: int| 0 <= i < n implies whole[i] != 0x3d by {
        assert(whole[i] == tag[i]);
    }
    assert(whole.take(n) =~= tag);
    assert(whole.take(n + 1) =~= tag + seq![0x3du8]);
    lemma_find_byte(segment, 0x3d);
    lemma_split_apart(before, after);
    let f = |s: Seq<u8>| without_b_value(s);
    let a = split_on(before, cut_at);
    let b = split_on(after, cut_at);
    lemma_split_on(before, cut_at);
    lemma_split_on(after, cut_at);
    assert((a + b).map_values(f) =~= a.map_values(f) + b.map_values(f));
    lemma_joined_apart(a.map_values(f), b.map_values(f), cut_at);
    assert(seq![whole].map_values(f) =~= seq![without_b_value(whole)]);
    assert(seq![segment].map_values(f) =~= seq![without_b_value(segment)]);
}

proof fn lemma_one_segment(s: Seq<u8>)
    requires
        forall|i: int| 0 <= i < s.len() ==> s[i] != 0x3b,
    ensures
        split_on(s, seq![0x3bu8]) == seq![s],
{
    lemma_find_in(s, seq![0x3bu8]);
    if let Some(i) = find_in(s, seq![0x3bu8]) {
        assert(s.subrange(i, i + 1)[0] == s[i]);
    }
}

proof fn lemma_split_apart(a: Seq<u8>, b: Seq<u8>)
    ensures
        split_on(a + seq![0x3bu8] + b, seq![0x3bu8]) == split_on(a, seq![0x3bu8]) + split_on(
            b,
            seq![0x3bu8],
        ),
    decreases a.len(),
{
    let sep = seq![0x3bu8];
    let e = a + sep + b;
    lemma_find_in(a, sep);
    match find_in(a, sep) {
        Some(i) => {
            let rest = a.skip(i + 1);
            assert(e.subrange(i, i + 1) =~= a.subrange(i, i + 1));
            assert forall|j: int| 0 <= j < i implies !occurs_at(e, sep, j) by {
                assert(e.subrange(j, j + 1) =~= a.subrange(j, j + 1));
                assert(!occurs_at(a, sep, j));
            }
            lemma_find_in_is(e, sep, i);
            assert(e.take(i) =~= a.take(i));
            assert(e.skip(i + 1) =~= rest + sep + b);
            lemma_split_apart(rest, b);
            assert(seq![a.take(i)] + (split_on(rest, sep) + split_on(b, sep)) =~= (seq![a.take(i)]
                + split_on(rest, sep)) + split_on(b, sep));
        },
        None => {
            let n = a.len() as int;
            assert(e.subrange(n, n + 1) =~= sep);
            assert forall|j: int| 0 <= j < n implies !occurs_at(e, sep, j) by {
                assert(e.subrange(j, j + 1) =~= a.subrange(j, j + 1));
                assert(!occurs_at(a, sep, j));
            }
            lemma_find_in_is(e, sep, n);
            assert(e.take(n) =~= a);
            assert(e.skip(n + 1) =~= b);
        },
    }
}

proof fn lemma_joined_apart(a: Seq<Seq<u8>>, b: Seq<Seq<u8>>, sep: Seq<u8>)
    requires
        a.len() > 0,
        b.len() > 0,
    ensures
        joined(a + b, sep) == joined(a, sep) + sep + joined(b, sep),
    decreases b.len(),
{
    assert((a + b).drop_last() =~= a + b.drop_last());
    if b.len() > 1 {
        lemma_joined_apart(a, b.drop_last(), sep);
        assert(joined(a + b, sep) =~= joined(a, sep) + sep + joined(b, sep));
    } else {
        assert(a + b.drop_last() =~= a);
    }
}

// ---------------------------------------------------------------------------
// Results
// ---------------------------------------------------------------------------

/// What of a body a signature covers: its canonical form, or the first `l=` bytes of that.
pub open spec fn covered(sig: DkimSignatureView, body: Seq<u8>) -> Seq<u8> {
    let canon = canonical_body(body, sig.body_canon);
    match sig.body_length {
        Some(l) => if l <= canon.len() {
            canon.take(l as int)
        } else {
            canon
        },
        None => canon,
    }
}

/// Whether a key of a signature's family says that the signature is good for a digest: RSA
/// keys come in either of two encodings, Ed25519 keys as they are.
pub open spec fn good_for(sig: DkimSignatureView, der: Seq<u8>, digest: Seq<u8>) -> Option<bool> {
    match sig.algorithm {
        Algorithm::RsaSha256 => if rsa_spki_valid(der, digest, sig.signature) is Some {
            rsa_spki_valid(der, digest, sig.signature)
        } else {
            rsa_pkcs1_valid(der, digest, sig.signature)
        },
        Algorithm::Ed25519Sha256 => if der.len() != 32 || sig.signature.len() != 64 {
            None
        } else {
            ed25519_valid(der, digest, sig.signature)
        },
    }
}

/// Whether a key record can hold a key for a signature: it names no key type, or the one of
/// the signature's algorithm, in any case.
pub open spec fn of_the_family(sig: DkimSignatureView, record: DkimRecordView) -> bool {
    match record.key_type {
        None => true,
        Some(k) => match sig.algorithm {
            Algorithm::RsaSha256 => lowered(k) == lowered("rsa"@),
            Algorithm::Ed25519Sha256 => lowered(k) == lowered("ed25519"@),
        },
    }
}

/// A signature hangs on a key exactly where it parses, has not expired and has the hash of
/// the body that it covers; the digest that the key decides on is that of the header hash
/// input. One that does not parse is a permanent error, and any other one fails.
pub proof fn law_state_of_a_signature(
    fields: Seq<HeaderFieldView>,
    idx: int,
    body: Seq<u8>,
    now: nat,
)
    requires
        0 <= idx < fields.len(),
    ensures
        match DkimSignature::parsed(fields[idx].value) {
            Err(_) => signature_state(fields, idx, body, now) == SignatureStateView::Settled(
                DkimOutcomeView {
                    domain: Seq::empty(),
                    selector: Seq::empty(),
                    result: DkimResult::PermError,
                },
            ),
            Ok(sig) => if (sig.expiration is None || now <= sig.expiration->0) && sha256(
                covered(sig, body),
            ) == sig.body_hash {
                signature_state(fields, idx, body, now) == SignatureStateView::NeedsKey {
                    signature: sig,
                    header_hash: sha256(header_hash_input(fields, idx, sig)),
                }
            } else {
                signature_state(fields, idx, body, now) == SignatureStateView::Settled(
                    DkimOutcomeView {
                        domain: sig.domain,
                        selector: sig.selector,
                        result: DkimResult::Fail,
                    },
                )
            },
        },
{
    if let Ok(sig) = DkimSignature::parsed(fields[idx].value) {
        let canon = canonical_body(body, sig.body_canon);
        assert(canon.take(canon.len() as int) =~= canon);
    }
}

/// A message whose signature was made over exactly the verbatim bytes that simple
/// canonicalization stands for passes, for the domain and selector that the signature names.
pub proof fn law_signature_over_the_verbatim_bytes_passes(
    fields: Seq<HeaderFieldView>,
    idx: int,
    body: Seq<u8>,
    now: nat,
    sig: DkimSignatureView,
    taken: Seq<int>,
    record: DkimRecordView,
    der: Seq<u8>,
)
    requires
        0 <= idx < fields.len(),
        DkimSignature::parsed(fields[idx].value) == Ok::<_, NetworkErrorView>(
            sig,
        ),
        sig.header_canon is Simple,
        sig.expiration is None || now <= sig.expiration->0,
        sha256(covered(sig, body)) == sig.body_hash,
        taken_from_the_end(fields, idx, sig.signed_headers, taken),
        record.public_key.len() > 0,
        of_the_family(sig, record),
        base64_decoded(encode_utf8(record.public_key)) == Ok::<_, Seq<char>>(der),
        good_for(
            sig,
            der,
            sha256(
                verbatim(fields, taken) + encode_utf8(fields[idx].name) + seq![0x3au8] + b_stripped(
                    fields[idx].value,
                ),
            ),
        ) == Some(true),
    ensures
        settled_outcomes(
            seq![signature_state(fields, idx, body, now)],
            seq![Some(record)],
        ) == seq![
            DkimOutcomeView {
                domain: sig.domain,
                selector: sig.selector,
                result: DkimResult::Pass,
            },
        ],
{
    law_state_of_a_signature(fields, idx, body, now);
    law_simple_header_hash_is_verbatim(fields, idx, sig, taken);
    assert(sig.b_stripped_value == b_stripped(fields[idx].value));
    let states = seq![signature_state(fields, idx, body, now)];
    assert(states.take(0) =~= Seq::empty());
    law_key_decides(
        states,
        seq![Some(record)],
        0,
        sig,
        sha256(header_hash_input(fields, idx, sig)),
    );
    assert(settled_outcomes(states, seq![Some(record)]) =~= seq![
        settled_outcomes(states, seq![Some(record)])[0],
    ]);
}

/// What the key decides: without a record the signature is in permanent error, and with a
/// revoked key it fails; a record of another key type, a key that is not base64 and one that
/// cannot be read are permanent errors; otherwise the signature passes or fails as it is good
/// or not for the digest. Each signature that hangs on a key has the next of the keys.
pub proof fn law_key_decides(
    states: Seq<SignatureStateView>,
    keys: Seq<Option<DkimRecordView>>,
    i: int,
    sig: DkimSignatureView,
    header_hash: Seq<u8>,
)
    requires
        0 <= i < states.len(),
        states[i] == (SignatureStateView::NeedsKey { signature: sig, header_hash }),
    ensures
        settled_outcomes(states, keys).len() == states.len(),
        ({
            let k = keys_needed(states.take(i)) as int;
            let key = if k < keys.len() {
                keys[k]
            } else {
                None
            };
            let r = settled_outcomes(states, keys)[i];
            &&& r.domain == sig.domain && r.selector == sig.selector
            &&& r.result == match key {
                None => DkimResult::PermError,
                Some(record) => if record.public_key.len() == 0 {
                    DkimResult::Fail
                } else if !of_the_family(sig, record) {
                    DkimResult::PermError
                } else {
                    match base64_decoded(encode_utf8(record.public_key)) {
                        Err(_) => DkimResult::PermError,
                        Ok(der) => if good_for(sig, der, header_hash) == Some(true) {
                            DkimResult::Pass
                        } else if good_for(sig, der, header_hash) == Some(false) {
                            DkimResult::Fail
                        } else {
                            DkimResult::PermError
                        },
                    }
                },
            }
        }),
{
    lemma_outcome_at(states, keys, i);
}

/// A signature that hangs on no key has its outcome whatever the keys are, and takes none.
pub proof fn law_settled_signature_takes_no_key(
    states: Seq<SignatureStateView>,
    keys: Seq<Option<DkimRecordView>>,
    i: int,
    outcome: DkimOutcomeView,
)
    requires
        0 <= i < states.len(),
        states[i] == SignatureStateView::Settled(outcome),
    ensures
        settled_outcomes(states, keys)[i] == outcome,
        keys_needed(states.take(i + 1)) == keys_needed(states.take(i)),
{
    lemma_outcome_at(states, keys, i);
}

/// A signature that hangs on a key takes one: what hangs on a key after it has the key after
/// that.
pub proof fn law_pending_signature_takes_one_key(states: Seq<SignatureStateView>, i: int)
    requires
        0 <= i < states.len(),
        states[i] is NeedsKey,
    ensures
        keys_needed(states.take(0)) == 0,
        keys_needed(states.take(i + 1)) == keys_needed(states.take(i)) + 1,
{
    lemma_outcome_at(states, Seq::empty(), i);
}

/// The signatures of a message are its `DKIM-Signature` fields, in any case, in order and
/// each with the message's own fields and body.
pub proof fn law_signatures_are_found_in_order(raw_message: Seq<u8>, now: nat, idx: int)
    requires
        0 <= idx < header_fields(message_parts(raw_message).0).len(),
    ensures
        ({
            let (headers, body) = message_parts(raw_message);
            let fields = header_fields(headers);
            let at = signature_count(fields, idx) as int;
            let named = lowered(trimmed(fields[idx].name)) == lowered("DKIM-Signature"@);
            &&& signature_count(fields, idx + 1) == at + if named {
                1int
            } else {
                0int
            }
            &&& named ==> at < inspected(raw_message, now).len() && inspected(raw_message, now)[at]
                == signature_state(fields, idx, body, now)
        }),
{
    let (headers, body) = message_parts(raw_message);
    let fields = header_fields(headers);
    lemma_states_count(fields, body, now, idx);
    lemma_states_count(fields, body, now, idx + 1);
    lemma_states_prefix(fields, body, now, idx + 1, fields.len() as int);
}

proof fn lemma_states_prefix(
    fields: Seq<HeaderFieldView>,
    body: Seq<u8>,
    now: nat,
    m: int,
    n: int,
)
    requires
        0 <= m <= n,
    ensures
        signature_states(fields, body, now, m).len() <= signature_states(fields, body, now, n).len(),
        forall|i: int|
            0 <= i < signature_states(fields, body, now, m).len() ==> #[trigger] signature_states(
                fields,
                body,
                now,
                n,
            )[i] == signature_states(fields, body, now, m)[i],
    decreases n - m,
{
    if m < n {
        lemma_states_prefix(fields, body, now, m, n - 1);
    }
}

// ---------------------------------------------------------------------------
// The parts of a message
// ---------------------------------------------------------------------------

/// Whether a blank line, CRLF CRLF, stands at an index.
pub open spec fn blank_at(raw: Seq<u8>, i: int) -> bool {
    0 <= i && i + 4 <= raw.len() && raw[i] == 0x0d && raw[i + 1] == 0x0a && raw[i + 2] == 0x0d
        && raw[i + 3] == 0x0a
}

/// A message is cut at its first blank line: what is before that is the header, what is
/// after it the body. Without one there is a header alone.
pub proof fn law_message_is_cut_at_the_blank_line(raw: Seq<u8>, n: int)
    ensures
        blank_at(raw, n) && (forall|i: int| i < n ==> !(#[trigger] blank_at(raw, i)))
            ==> message_parts(raw) == (raw.take(n), raw.skip(n + 4)),
        (forall|i: int| !(#[trigger] blank_at(raw, i))) ==> message_parts(raw) == (
            raw,
            Seq::<u8>::empty(),
        ),
{
    let blank = seq![0x0du8, 0x0au8, 0x0du8, 0x0au8];
    assert forall|i: int| blank_at(raw, i) == #[trigger] occurs_at(raw, blank, i) by {
        if 0 <= i && i + 4 <= raw.len() {
            let part = raw.subrange(i, i + 4);
            assert(part[0] == raw[i] && part[1] == raw[i + 1] && part[2] == raw[i + 2] && part[3]
                == raw[i + 3]);
            if blank_at(raw, i) {
                assert(part =~= blank);
            }
        }
    }
    lemma_find_in(raw, blank);
    if blank_at(raw, n) && (forall|i: int| i < n ==> !(#[trigger] blank_at(raw, i))) {
        assert forall|j: int| 0 <= j < n implies !occurs_at(raw, blank, j) by {
            assert(!blank_at(raw, j));
        }
        assert(occurs_at(raw, blank, n));
        lemma_find_in_is(raw, blank, n);
    }
    if forall|i: int| !(#[trigger] blank_at(raw, i)) {
        if let Some(i) = find_in(raw, blank) {
            assert(!blank_at(raw, i));
        }
    }
}

/// A line `name:value` at the end of a header is one more field, with the bytes after the
/// colon as its value; a line that starts with white space continues the field before it,
/// CRLF and all; a line without a colon is no field.
pub proof fn law_header_line_is_a_field(
    headers: Seq<u8>,
    name: Seq<u8>,
    value: Seq<u8>,
    more: Seq<u8>,
    odd: Seq<u8>,
)
    requires
        name.len() > 0,
        !wsp(name[0]),
        forall|i: int| 0 <= i < name.len() ==> name[i] != 0x3a,
        crlf_free(name + seq![0x3au8] + value),
        more.len() > 0,
        wsp(more[0]),
        crlf_free(more),
        odd.len() == 0 || !wsp(odd[0]),
        forall|i: int| 0 <= i < odd.len() ==> odd[i] != 0x3a,
        crlf_free(odd),
    ensures
        ({
            let line = name + seq![0x3au8] + value;
            let longer = headers + seq![0x0du8, 0x0au8] + line;
            &&& header_fields(longer) == header_fields(headers).push(
                HeaderFieldView { name: utf8_lossy(name), value },
            )
            &&& header_fields(longer + seq![0x0du8, 0x0au8] + more) == header_fields(headers).push(
                HeaderFieldView {
                    name: utf8_lossy(name),
                    value: value + seq![0x0du8, 0x0au8] + more,
                },
            )
            &&& header_fields(headers + seq![0x0du8, 0x0au8] + odd) == header_fields(headers)
            &&& header_fields(line) == seq![HeaderFieldView { name: utf8_lossy(name), value }]
        }),
{
    let line = name + seq![0x3au8] + value;
    let longer = headers + crlf() + line;
    assert(crlf() == seq![0x0du8, 0x0au8]);
    lemma_split_on_line(headers, line);
    lemma_split_on_line(longer, more);
    lemma_split_on_line(headers, odd);
    lemma_one_line(line);
    let old_lines = split_on(headers, crlf());
    let blocks = header_blocks(old_lines);
    assert(line[0] == name[0]);
    assert(old_lines.push(line).drop_last() =~= old_lines);
    assert(old_lines.push(odd).drop_last() =~= old_lines);
    assert(old_lines.push(line).push(more).drop_last() =~= old_lines.push(line));
    assert(header_blocks(old_lines.push(line)) == blocks.push(line));
    assert(header_blocks(old_lines.push(odd)) == blocks.push(odd));
    let long = line + crlf() + more;
    assert(blocks.push(line).drop_last() =~= blocks);
    assert(header_blocks(old_lines.push(line).push(more)) =~= blocks.push(long));
    lemma_block(blocks, name, value);
    let rest = value + crlf() + more;
    assert(long =~= name + seq![0x3au8] + rest);
    lemma_block(blocks, name, rest);
    lemma_find_byte(odd, 0x3a);
    assert(blocks.push(odd).drop_last() =~= blocks);
    let none = Seq::<Seq<u8>>::empty();
    assert(seq![line].drop_last() =~= none);
    assert(header_blocks(none) =~= none);
    assert(header_blocks(seq![line]) =~= none.push(line));
    lemma_block(none, name, value);
    assert(block_fields(none) =~= Seq::<HeaderFieldView>::empty());
    assert(Seq::<HeaderFieldView>::empty().push(HeaderFieldView { name: utf8_lossy(name), value })
        =~= seq![HeaderFieldView { name: utf8_lossy(name), value }]);
}

proof fn lemma_block(blocks: Seq<Seq<u8>>, name: Seq<u8>, value: Seq<u8>)
    requires
        forall|i: int| 0 <= i < name.len() ==> name[i] != 0x3a,
    ensures
        block_fields(blocks.push(name + seq![0x3au8] + value)) == block_fields(blocks).push(
            HeaderFieldView { name: utf8_lossy(name), value },
        ),
{
    let block = name + seq![0x3au8] + value;
    let n = name.len() as int;
    lemma_find_byte(block, 0x3a);
    assert(block[n] == 0x3a);
    assert forall|i: int| 0 <= i < n implies block[i] != 0x3a by {
        assert(block[i] == name[i]);
    }
    assert(find_byte(block, 0x3a) == Some(n));
    assert(block.take(n) =~= name);
    assert(block.skip(n + 1) =~= value);
    assert(blocks.push(block).drop_last() =~= blocks);
}

/// Each result has a word of its own.
pub proof fn law_result_has_its_token(a: DkimResult, b: DkimResult)
    ensures
        DkimResult::Pass.token() == "pass"@,
        DkimResult::Fail.token() == "fail"@,
        DkimResult::PermError.token() == "permerror"@,
        DkimResult::TempError.token() == "temperror"@,
        a.token() == b.token() ==> a == b,
{
    reveal_strlit("pass");
    reveal_strlit("fail");
    reveal_strlit("permerror");
    reveal_strlit("temperror");
    assert("pass"@[0] == 'p' && "fail"@[0] == 'f');
    assert("temperror"@[0] == 't' && "permerror"@[0] == 'p');
    assert("pass"@.len() == 4 && "fail"@.len() == 4);
    assert("temperror"@.len() == 9 && "permerror"@.len() == 9);
}

/// A tag name is `b` where it is text that is a small `b` once white space around it is taken
/// off, and nothing else is.
pub proof fn law_b_tag_is_named_b(tag: Seq<u8>)
    ensures
        names_b(tag) <==> valid_utf8(tag) && trimmed(decode_utf8(tag)) == seq!['b'],
{
    reveal_strlit("b");
    assert("b"@ =~= seq!['b']);
}

/// A message with a signature over exactly the verbatim bytes of the fields that it lists
/// passes: the outcome for that signature, among those of the message's signatures, is a pass
/// for the domain and the selector that it names.
pub proof fn law_message_signed_verbatim_passes(
    raw_message: Seq<u8>,
    now: nat,
    idx: int,
    sig: DkimSignatureView,
    taken: Seq<int>,
    keys: Seq<Option<DkimRecordView>>,
    record: DkimRecordView,
    der: Seq<u8>,
)
    requires
        ({
            let (headers, body) = message_parts(raw_message);
            let fields = header_fields(headers);
            let at = signature_count(fields, idx) as int;
            let k = keys_needed(inspected(raw_message, now).take(at)) as int;
            let input = verbatim(fields, taken) + encode_utf8(fields[idx].name) + seq![0x3au8]
                + b_stripped(fields[idx].value);
            &&& 0 <= idx < fields.len()
            &&& lowered(trimmed(fields[idx].name)) == lowered("DKIM-Signature"@)
            &&& DkimSignature::parsed(fields[idx].value) == Ok::<_, NetworkErrorView>(sig)
            &&& sig.header_canon is Simple
            &&& sig.expiration is None || now <= sig.expiration->0
            &&& sha256(covered(sig, body)) == sig.body_hash
            &&& taken_from_the_end(fields, idx, sig.signed_headers, taken)
            &&& k < keys.len() && keys[k] == Some(record)
            &&& record.public_key.len() > 0
            &&& of_the_family(sig, record)
            &&& base64_decoded(encode_utf8(record.public_key)) == Ok::<_, Seq<char>>(der)
            &&& good_for(sig, der, sha256(input)) == Some(true)
        }),
    ensures
        ({
            let fields = header_fields(message_parts(raw_message).0);
            let at = signature_count(fields, idx) as int;
            let outcomes = settled_outcomes(inspected(raw_message, now), keys);
            &&& at < outcomes.len()
            &&& outcomes[at] == (DkimOutcomeView {
                domain: sig.domain,
                selector: sig.selector,
                result: DkimResult::Pass,
            })
        }),
{
    let (headers, body) = message_parts(raw_message);
    let fields = header_fields(headers);
    let at = signature_count(fields, idx) as int;
    law_signatures_are_found_in_order(raw_message, now, idx);
    law_state_of_a_signature(fields, idx, body, now);
    law_simple_header_hash_is_verbatim(fields, idx, sig, taken);
    assert(sig.b_stripped_value == b_stripped(fields[idx].value));
    law_key_decides(
        inspected(raw_message, now),
        keys,
        at,
        sig,
        sha256(header_hash_input(fields, idx, sig)),
    );
}

} // verus!
