//! What a policy allows, how it is found, fetched and remembered.

use vstd::prelude::*;
use vstd::utf8::{decode_utf8, valid_utf8};

use crate::bytes::{blank_line, find_in, split_on};
use crate::clock::Timestamp;
use crate::network::dns::txt::TxtRecord;
use crate::network::mta_sts::{
    cached_answer, first_id, negative, normalized, oldest, positive, stored, CacheEntryView,
};
use crate::network::mta_sts::fetch::{content_length, line_end, response_body, status_fault};
use crate::network::mta_sts::policy::{
    discovered_id, discovery_fields, pattern_allows, MtaStsPolicyView,
};
use crate::text::{
    alphanumeric, cut, lemma_lower_char, lemma_trimmed_push, lemma_without_trailing_dots_lowered,
    lower_char, lowered, number, splits, trimmed, trimmed_end, trimmed_start, white_space,
    without_trailing_dots, words,
};
use crate::text_laws::{
    law_cut_is_at_the_first_or_last, law_only_trailing_dots_go, law_pieces_stand_between_separators,
    law_trimming_takes_white_space,
};

verus! {

// ---------------------------------------------------------------------------
// Patterns
// ---------------------------------------------------------------------------

/// A pattern that is no wildcard allows one host: its own name, whatever case it is written
/// in and with dots at its end or not. A policy allows a host exactly where one of its
/// patterns does, and an empty name never.
pub proof fn law_pattern_without_wildcard_is_one_host(
    policy: MtaStsPolicyView,
    pattern: Seq<char>,
    host: Seq<char>,
)
    requires
        pattern.len() < 2 || pattern[0] != '*' || pattern[1] != '.',
    ensures
        pattern_allows(pattern, host) <==> host == lowered(without_trailing_dots(pattern)),
        policy.allows(host) <==> without_trailing_dots(host).len() > 0 && exists|i: int|
            0 <= i < policy.mx.len() && pattern_allows(
                #[trigger] policy.mx[i],
                lowered(without_trailing_dots(host)),
            ),
{
    law_only_trailing_dots_go(pattern);
    let p = without_trailing_dots(pattern);
    let low = lowered(p);
    assert(low.len() == p.len());
    if low.len() >= 2 && low[0] == '*' && low[1] == '.' {
        assert(lower_char(p[0]) == '*');
        assert(lower_char(p[1]) == '.');
        assert(p[0] == pattern[0] && p[1] == pattern[1]);
    }
    assert(lowered(without_trailing_dots(host)).len() == without_trailing_dots(host).len());
}

// ---------------------------------------------------------------------------
// Discovery
// ---------------------------------------------------------------------------

/// Whether a text can be a policy id: one to thirty-two letters and digits.
pub open spec fn well_formed_id(id: Seq<char>) -> bool {
    1 <= id.len() <= 32 && forall|i: int| 0 <= i < id.len() ==> alphanumeric(#[trigger] id[i])
}

/// A discovery record `v=...;id=...` gives its id exactly where the version is `STSv1`, in
/// any case, and the id is well formed; without a version there is none.
pub proof fn law_discovery_needs_a_version_and_an_id(version: Seq<char>, id: Seq<char>)
    requires
        forall|i: int| 0 <= i < version.len() ==> version[i] != ';',
        forall|i: int| 0 <= i < id.len() ==> id[i] != ';',
    ensures
        ({
            let v = seq!['v', '='] + version;
            let i = seq!['i', 'd', '='] + id;
            let found = discovered_id(v + seq![';'] + i);
            &&& found is Some <==> lowered(trimmed(version)) == lowered("STSv1"@) && well_formed_id(
                trimmed(id),
            )
            &&& found is Some ==> found == Some(trimmed(id))
            &&& discovered_id(i) is None
            &&& discovered_id(v) is None
        }),
{
    let v = seq!['v', '='] + version;
    let i = seq!['i', 'd', '='] + id;
    lemma_field(seq!['v'], version);
    lemma_field(seq!['i', 'd'], id);
    assert(seq!['v'] + seq!['='] + version =~= v);
    assert(seq!['i', 'd'] + seq!['='] + id =~= i);
    lemma_last_field(v, i);
    lemma_last_field(i, v);
    lemma_names();
}

/// A field at the end of a discovery record whose key is neither `v` nor `id`, or that has no
/// `=`, changes nothing; a later id stands in place of an earlier one, and so does a later
/// version.
pub proof fn law_later_discovery_field_counts(
    txt: Seq<char>,
    key: Seq<char>,
    value: Seq<char>,
    odd: Seq<char>,
)
    requires
        key.len() > 0,
        !white_space(key[0]) && !white_space(key.last()),
        forall|i: int| 0 <= i < key.len() ==> key[i] != ';' && key[i] != '=',
        forall|i: int| 0 <= i < value.len() ==> value[i] != ';',
        forall|i: int| 0 <= i < odd.len() ==> odd[i] != ';' && odd[i] != '=',
    ensures
        key != seq!['v'] && key != seq!['i', 'd'] ==> discovered_id(
            txt + seq![';'] + (key + seq!['='] + value),
        ) == discovered_id(txt),
        discovered_id(txt + seq![';'] + odd) == discovered_id(txt),
        discovered_id(txt) is Some && key == seq!['i', 'd'] ==> discovered_id(
            txt + seq![';'] + (key + seq!['='] + value),
        ) == if well_formed_id(trimmed(value)) {
            Some(trimmed(value))
        } else {
            None
        },
        discovered_id(txt) is Some && key == seq!['v'] ==> discovered_id(
            txt + seq![';'] + (key + seq!['='] + value),
        ) == if lowered(trimmed(value)) == lowered("STSv1"@) {
            discovered_id(txt)
        } else {
            None
        },
{
    lemma_names();
    lemma_field(key, value);
    lemma_last_field(txt, key + seq!['='] + value);
    lemma_last_field(txt, odd);
    law_trimming_takes_white_space(odd);
    let t = trimmed(odd);
    let ends = law_trimming_takes_white_space(odd);
    assert forall|i: int| 0 <= i < t.len() implies t[i] != '=' by {
        assert(odd[i + ends.0.len()] == t[i]);
    }
    law_cut_is_at_the_first_or_last(t, '=', value);
}

proof fn lemma_names()
    ensures
        "v"@ == seq!['v'],
        "id"@ == seq!['i', 'd'],
{
    reveal_strlit("v");
    reveal_strlit("id");
    assert("v"@ =~= seq!['v']);
    assert("id"@ =~= seq!['i', 'd']);
}

/// How a field `key=value` is taken apart.
proof fn lemma_field(key: Seq<char>, value: Seq<char>)
    requires
        key.len() > 0,
        !white_space(key[0]) && !white_space(key.last()),
        forall|i: int| 0 <= i < key.len() ==> key[i] != ';' && key[i] != '=',
        forall|i: int| 0 <= i < value.len() ==> value[i] != ';',
    ensures
        ({
            let field = key + seq!['='] + value;
            &&& cut(trimmed(field), '=') matches Some((k, v)) && trimmed(k) == key && trimmed(v)
                == trimmed(value)
            &&& forall|i: int| 0 <= i < field.len() ==> field[i] != ';'
        }),
{
    let field = key + seq!['='] + value;
    let n = key.len() as int;
    assert forall|i: int| 0 <= i < field.len() implies field[i] != ';' by {
        if i < n {
            assert(field[i] == key[i]);
        } else if i > n {
            assert(field[i] == value[i - n - 1]);
        }
    }
    assert(field[0] == key[0]);
    assert(trimmed_start(field) == field);
    let rest = trimmed_end(value);
    lemma_trimmed_end_behind(key + seq!['='], value);
    assert(trimmed(field) == key + seq!['='] + rest);
    law_cut_is_at_the_first_or_last(key, '=', rest);
    assert(trimmed(key) == key);
    lemma_trimmed_end_first(value);
}

/// Trimming the end of a text behind another that does not end in white space.
proof fn lemma_trimmed_end_behind(a: Seq<char>, b: Seq<char>)
    requires
        a.len() > 0,
        !white_space(a.last()),
    ensures
        trimmed_end(a + b) == a + trimmed_end(b),
    decreases b.len(),
{
    let s = a + b;
    if b.len() == 0 {
        assert(s =~= a);
        assert(a + b =~= a);
    } else {
        assert(s.last() == b.last());
        assert(s.drop_last() =~= a + b.drop_last());
        lemma_trimmed_end_behind(a, b.drop_last());
    }
}

/// Whether the end is trimmed first does not count.
proof fn lemma_trimmed_end_first(s: Seq<char>)
    ensures
        trimmed(trimmed_end(s)) == trimmed(s),
    decreases s.len(),
{
    if s.len() > 0 && white_space(s.last()) {
        lemma_trimmed_end_first(s.drop_last());
        lemma_trimmed_push(s.drop_last(), s.last());
        assert(s.drop_last().push(s.last()) =~= s);
    }
}

proof fn lemma_last_field(txt: Seq<char>, field: Seq<char>)
    requires
        forall|i: int| 0 <= i < field.len() ==> field[i] != ';',
    ensures
        discovery_fields(splits(txt + seq![';'] + field, ';')) == after_field(
            discovery_fields(splits(txt, ';')),
            field,
        ),
        discovery_fields(splits(field, ';')) == after_field((false, None), field),
{
    law_pieces_stand_between_separators(txt, ';', field);
    law_pieces_stand_between_separators(field, ';', txt);
    let before = splits(txt, ';');
    assert(before + seq![field] =~= before.push(field));
    assert(before.push(field).drop_last() =~= before);
    assert(seq![field].drop_last() =~= Seq::<Seq<char>>::empty());
    assert(discovery_fields(Seq::<Seq<char>>::empty()) == (false, None::<Seq<char>>));
}

/// What one more field makes of what was said before it.
spec fn after_field(before: (bool, Option<Seq<char>>), field: Seq<char>) -> (
    bool,
    Option<Seq<char>>,
) {
    match cut(trimmed(field), '=') {
        Some((k, v)) => if trimmed(k) == "v"@ {
            (lowered(trimmed(v)) == lowered("STSv1"@), before.1)
        } else if trimmed(k) == "id"@ {
            (before.0, Some(trimmed(v)))
        } else {
            before
        },
        None => before,
    }
}

/// Of several discovery records the first that gives an id counts.
pub proof fn law_first_id_counts(txts: Seq<TxtRecord>, k: int)
    ensures
        0 <= k < txts.len() && discovered_id(txts[k].0@) is Some && (forall|j: int|
            0 <= j < k ==> discovered_id((#[trigger] txts[j]).0@) is None) ==> first_id(txts)
            == discovered_id(txts[k].0@),
        (forall|j: int| 0 <= j < txts.len() ==> discovered_id((#[trigger] txts[j]).0@) is None)
            ==> first_id(txts) is None,
    decreases txts.len(),
{
    if txts.len() > 0 {
        let rest = txts.drop_first();
        law_first_id_counts(rest, k - 1);
        assert(forall|j: int| 0 <= j < rest.len() ==> rest[j] == txts[j + 1]);
        assert(txts[0] == txts[0]);
        if k > 0 && k < txts.len() {
            assert(rest[k - 1] == txts[k]);
        }
    }
}

// ---------------------------------------------------------------------------
// The cache
// ---------------------------------------------------------------------------

/// The cache answers for a domain exactly where it has an entry for it that has not run out
/// and was stored for the same id, and answers what that entry holds; where there is no
/// discovery record, an entry without an id and without a policy answers that there is none.
pub proof fn law_cache_answers_from_its_entry(
    cache: Map<Seq<char>, CacheEntryView>,
    domain: Seq<char>,
    id: Option<Seq<char>>,
    now: Timestamp,
)
    ensures
        ({
            let entry = cache[domain];
            let age = if now.nanos >= entry.fetched.nanos {
                now.nanos - entry.fetched.nanos
            } else {
                0
            };
            let answer = cached_answer(cache, domain, id, now);
            &&& !cache.contains_key(domain) ==> answer is None
            &&& age >= entry.ttl.nanos ==> answer is None
            &&& cache.contains_key(domain) && age < entry.ttl.nanos && id is Some ==> answer
                == if entry.id == id {
                Some(entry.policy)
            } else {
                None
            }
            &&& cache.contains_key(domain) && age < entry.ttl.nanos && id is None ==> answer
                == if entry.id is None && entry.policy is None {
                Some(None::<MtaStsPolicyView>)
            } else {
                None
            }
        }),
{
}

/// A fetched policy is remembered for as many seconds as it says, and for one at least, and
/// a failure for ten minutes; after that the cache says nothing.
pub proof fn law_entry_runs_out(
    id: Seq<char>,
    failed: Option<Seq<char>>,
    policy: MtaStsPolicyView,
    fetched: Timestamp,
)
    requires
        policy.max_age <= u64::MAX,
    ensures
        positive(id, policy, fetched).id == Some(id),
        positive(id, policy, fetched).policy == Some(policy),
        positive(id, policy, fetched).fetched == fetched,
        policy.max_age >= 1 ==> positive(id, policy, fetched).ttl.nanos == policy.max_age
            * 1_000_000_000,
        policy.max_age == 0 ==> positive(id, policy, fetched).ttl.nanos == 1_000_000_000,
        negative(failed, fetched).id == failed,
        negative(failed, fetched).policy is None,
        negative(failed, fetched).fetched == fetched,
        negative(failed, fetched).ttl.nanos == 600 * 1_000_000_000,
{
    assert(policy.max_age * 1_000_000_000 <= u64::MAX * 1_000_000_000) by (nonlinear_arith)
        requires
            policy.max_age <= u64::MAX,
    ;
}

/// A stored entry stands under its domain; while fewer than four thousand and ninety-six are
/// cached, or the domain has an entry already, all others stay, and otherwise all but one
/// stay.
pub proof fn law_store_puts_the_entry(
    before: Map<Seq<char>, CacheEntryView>,
    after: Map<Seq<char>, CacheEntryView>,
    domain: Seq<char>,
    entry: CacheEntryView,
    other: Seq<char>,
)
    requires
        stored(before, after, domain, entry),
        before.dom().finite(),
    ensures
        after.contains_key(domain) && after[domain] == entry,
        (before.len() < 4096 || before.contains_key(domain)) && before.contains_key(other) && other
            != domain ==> after.contains_key(other) && after[other] == before[other],
        before.len() >= 4096 && !before.contains_key(domain) ==> after.len() == before.len(),
{
    if before.len() >= 4096 && !before.contains_key(domain) {
        let gone = choose|gone: Seq<char>| #[trigger]
            oldest(before, gone) && after == before.remove(gone).insert(
                domain,
                entry,
            );
        assert(before.contains_key(gone));
        assert(before.remove(gone).dom() =~= before.dom().remove(gone));
        assert(after.dom() =~= before.dom().remove(gone).insert(domain));
    }
}

/// The cache knows a domain by its name alone: case and trailing dots do not count, and
/// nothing else is changed.
pub proof fn law_domain_is_known_by_its_name(domain: Seq<char>, i: int)
    ensures
        normalized(domain) == normalized(domain.push('.')),
        normalized(domain) == normalized(lowered(domain)),
        (domain.len() == 0 || domain.last() != '.') && 0 <= i < domain.len() ==> normalized(
            domain,
        ).len() == domain.len() && normalized(domain)[i] == lower_char(domain[i]),
{
    assert(domain.push('.').drop_last() =~= domain);
    lemma_without_trailing_dots_lowered(domain);
    let t = without_trailing_dots(domain);
    assert(lowered(lowered(t)) =~= lowered(t)) by {
        assert forall|j: int| 0 <= j < t.len() implies lowered(lowered(t))[j] == lowered(t)[j] by {
            lemma_lower_char(t[j]);
        }
    }
}

// ---------------------------------------------------------------------------
// The answer of a policy host
// ---------------------------------------------------------------------------

/// A status line is accepted exactly where its first word is `HTTP/1.1` or `HTTP/1.0`, in any
/// case, and its second is the number 200.
pub proof fn law_status_must_be_200(status: Seq<char>)
    ensures
        status_fault(status) is None <==> {
            let parts = words(status);
            &&& parts.len() >= 2
            &&& lowered(parts[0]) == lowered("HTTP/1.1"@) || lowered(parts[0]) == lowered(
                "HTTP/1.0"@,
            )
            &&& number(parts[1], u16::MAX as nat) == Some(200nat)
        },
{
    reveal_strlit("HTTP/1.1");
    reveal_strlit("HTTP/1.0");
    assert(lowered("HTTP/1.1"@).len() == 8);
    assert(lowered("HTTP/1.0"@).len() == 8);
    assert(lowered(Seq::<char>::empty()).len() == 0);
}

/// The last `Content-Length` counts, in any case of the name; one that is no number and any
/// `Transfer-Encoding` refuse the answer, whatever follows. Other lines say nothing.
pub proof fn law_header_line_says_the_length(
    headers: Seq<Seq<char>>,
    name: Seq<char>,
    value: Seq<char>,
    odd: Seq<char>,
)
    requires
        forall|i: int| 0 <= i < name.len() ==> name[i] != ':',
        forall|i: int| 0 <= i < odd.len() ==> odd[i] != ':',
    ensures
        content_length(Seq::empty()) == Ok::<_, Seq<char>>(None::<nat>),
        content_length(headers) is Err ==> content_length(
            headers.push(name + seq![':'] + value),
        ) is Err,
        content_length(headers) matches Ok(before) ==> {
            let r = content_length(headers.push(name + seq![':'] + value));
            let n = number(trimmed(value), usize::MAX as nat);
            &&& lowered(trimmed(name)) == lowered("transfer-encoding"@) ==> r is Err
            &&& lowered(trimmed(name)) == lowered("content-length"@) && n is Some ==> r == Ok::<
                _,
                Seq<char>,
            >(n)
            &&& lowered(trimmed(name)) == lowered("content-length"@) && n is None ==> r is Err
            &&& lowered(trimmed(name)) != lowered("transfer-encoding"@) && lowered(trimmed(name))
                != lowered("content-length"@) ==> r == Ok::<_, Seq<char>>(before)
            &&& content_length(headers.push(odd)) == Ok::<_, Seq<char>>(before)
        },
{
    reveal_strlit("transfer-encoding");
    reveal_strlit("content-length");
    assert(lowered("transfer-encoding"@).len() == 17);
    assert(lowered("content-length"@).len() == 14);
    assert(headers.push(name + seq![':'] + value).drop_last() =~= headers);
    assert(headers.push(odd).drop_last() =~= headers);
    law_cut_is_at_the_first_or_last(name, ':', value);
    law_cut_is_at_the_first_or_last(odd, ':', value);
}

/// An answer is accepted exactly where it has a blank line, its head is text with an accepted
/// status line and a length of at most 65536, and what follows the first blank line is at
/// least that long and, up to that length, text; that text is the policy.
pub proof fn law_answer_is_the_body_of_its_length(raw: Seq<u8>)
    ensures
        find_in(raw, blank_line()) is None ==> response_body(raw) is Err,
        find_in(raw, blank_line()) matches Some(sep) ==> {
            let head = raw.take(sep);
            let body = raw.skip(sep + 4);
            let lines = split_on(decode_utf8(head), seq!['\r', '\n']);
            let length = content_length(lines.drop_first());
            let n = length->Ok_0->0;
            &&& response_body(raw) is Ok <==> valid_utf8(head) && status_fault(lines[0]) is None
                && length is Ok && length->Ok_0 is Some && n <= 65536 && n <= body.len()
                && valid_utf8(body.take(n as int))
            &&& response_body(raw) matches Ok(text) ==> text == decode_utf8(body.take(n as int))
        },
{
    assert(line_end() == seq!['\r', '\n']);
}

} // verus!
