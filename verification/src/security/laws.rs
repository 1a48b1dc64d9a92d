//! What is written of an event, how the chain of records goes on, and what a password
//! check and a sealed secret come to.

use vstd::prelude::*;
use vstd::utf8::encode_utf8;

use crate::ip::{ip_text, ip_value, IpAddr};
use crate::ip_laws::law_ip_text_reads_back;
use crate::security::audit::audit_logger::{
    control, law_encoding_is_one_field_of_one_line, sanitized, AuditEventView,
};
use crate::security::audit::sink::{
    blake2b512, hash_before, hash_of, intact, linked, payload_of, tip_of, SinkView,
};
use crate::security::encryption::decrypt::{aead_plaintext, opened};
use crate::security::encryption::encrypt::{aead_ciphertext, sealed};
use crate::security::encryption::hash::{
    argon2_verdict, associated_data, key_identifier, lanes, memory, param_taken, params_taken, passes,
    phc_params, phc_parts, phc_verdict, set_to, setting, settled, VerdictView, TOO_LARGE, TOO_SMALL,
};
use crate::security::error::SecurityError;
use crate::text::{
    decimal, decimal_value, digit, graphic, hex, lemma_decimal, lemma_hex, number, splits,
};
use crate::text_laws::{
    law_cut_is_at_the_first_or_last, law_number_is_written_without_leading_zeros,
    law_number_reads_its_digits, law_pieces_stand_between_separators,
};

verus! {

// ---------------------------------------------------------------------------
// Audit events
// ---------------------------------------------------------------------------

/// Whether a text is another one with a space for each of its control characters.
pub open spec fn shows(shown: Seq<char>, text: Seq<char>) -> bool {
    shown.len() == text.len() && forall|i: int|
        0 <= i < text.len() ==> #[trigger] shown[i] == if text[i] as u32 <= 0x1f || 0x7f
            <= text[i] as u32 <= 0x9f {
            ' '
        } else {
            text[i]
        }
}

/// An event is written with its kind, and with its user, its reason and its address in full,
/// but that a space stands for each control character; the address reads back.
pub proof fn law_event_is_written_in_full(event: AuditEventView, text: Seq<char>, ip: IpAddr)
    ensures
        shows(sanitized(text), text),
        ip_value(ip_text(ip)) == Some(ip),
        match event {
            AuditEventView::AuthSuccess { user } => exists|u: Seq<char>| #[trigger]
                shows(u, user) && event.encoded() == "auth_success user="@ + u,
            AuditEventView::AuthFailure { user, ip } => exists|u: Seq<char>| #[trigger]
                shows(u, user) && event.encoded() == "auth_failure user="@ + u + " ip="@ + ip_text(
                    ip,
                ),
            AuditEventView::Blocked { ip, reason } => exists|r: Seq<char>| #[trigger]
                shows(r, reason) && event.encoded() == "blocked ip="@ + ip_text(ip) + " reason="@
                    + r,
            AuditEventView::RateLimited { ip } => event.encoded() == "rate_limited ip="@ + ip_text(
                ip,
            ),
            AuditEventView::FirewallPaused => event.encoded() == "firewall_paused"@,
            AuditEventView::FirewallResumed => event.encoded() == "firewall_resumed"@,
        },
{
    law_ip_text_reads_back(ip);
    match event {
        AuditEventView::AuthSuccess { user } => {
            assert(shows(sanitized(user), user));
        },
        AuditEventView::AuthFailure { user, ip } => {
            assert(shows(sanitized(user), user));
        },
        AuditEventView::Blocked { ip, reason } => {
            assert(shows(sanitized(reason), reason));
        },
        _ => {},
    }
}

// ---------------------------------------------------------------------------
// The audit chain
// ---------------------------------------------------------------------------

/// A record is four fields with tabs between them: its number, its time, its event, and the
/// Blake2b-512 digest, in hexadecimal, of the hash before it, a line feed and the three other
/// fields. The next record bears the next number and is chained to that hash.
pub proof fn law_record_is_number_time_event_and_hash(
    tip: SinkView,
    unix_secs: u64,
    event: AuditEventView,
)
    ensures
        ({
            let first = decimal(tip.seq);
            let time = decimal(unix_secs as nat);
            let payload = first + seq!['\t'] + time + seq!['\t'] + event.encoded();
            let hash = hex(blake2b512(encode_utf8(tip.prev_hash + seq!['\n'] + payload))@);
            let line = tip.record(unix_secs, event);
            &&& line == payload + seq!['\t'] + hash
            &&& splits(line, '\t') == seq![first, time, event.encoded(), hash]
            &&& tip.after(unix_secs, event).prev_hash == hash
            &&& tip.after(unix_secs, event).seq == tip.seq + 1
        }),
{
    let first = decimal(tip.seq);
    let time = decimal(unix_secs as nat);
    let said = event.encoded();
    let payload = first + seq!['\t'] + time + seq!['\t'] + said;
    let hash = hex(blake2b512(encode_utf8(tip.prev_hash + seq!['\n'] + payload))@);
    assert(tip.prev_hash.push('\n') + payload =~= tip.prev_hash + seq!['\n'] + payload);
    lemma_no_tab_in_digits(tip.seq);
    lemma_no_tab_in_digits(unix_secs as nat);
    law_encoding_is_one_field_of_one_line(event);
    assert forall|i: int| 0 <= i < said.len() implies said[i] != '\t' by {
        assert(!control(said[i]));
    }
    lemma_hex(blake2b512(encode_utf8(tip.prev_hash + seq!['\n'] + payload))@);
    assert forall|i: int| 0 <= i < hash.len() implies hash[i] != '\t' by {
        assert(graphic(hash[i]));
    }
    law_pieces_stand_between_separators(first, '\t', time);
    law_pieces_stand_between_separators(time, '\t', said);
    law_pieces_stand_between_separators(said, '\t', hash);
    law_pieces_stand_between_separators(hash, '\t', said);
    law_pieces_stand_between_separators(first + seq!['\t'] + time, '\t', said);
    law_pieces_stand_between_separators(payload, '\t', hash);
    assert(seq![first] + seq![time] + seq![said] + seq![hash] =~= seq![first, time, said, hash]);
}

proof fn lemma_no_tab_in_digits(n: nat)
    ensures
        forall|i: int| 0 <= i < decimal(n).len() ==> decimal(n)[i] != '\t',
{
    lemma_decimal(n);
    assert forall|i: int| 0 <= i < decimal(n).len() implies decimal(n)[i] != '\t' by {
        assert(digit(decimal(n)[i]));
    }
}

/// The tip of a chain without records is the empty hash and the number 0. A line of four
/// fields makes its last field the hash and the number after its own the next one; any other
/// line leaves the tip as it is.
pub proof fn law_tip_is_that_of_the_last_record(lines: Seq<Seq<char>>, line: Seq<char>)
    ensures
        tip_of(Seq::empty()).prev_hash == Seq::<char>::empty(),
        tip_of(Seq::empty()).seq == 0,
        splits(line, '\t').len() != 4 ==> tip_of(lines.push(line)) == tip_of(lines),
        splits(line, '\t').len() == 4 ==> {
            let n = number(splits(line, '\t')[0], u64::MAX as nat);
            &&& tip_of(lines.push(line)).prev_hash == hash_of(line)
            &&& n is Some ==> tip_of(lines.push(line)).seq == n->0 + 1
            &&& n is None ==> tip_of(lines.push(line)).seq == tip_of(lines).seq
        },
{
    assert(lines.push(line).drop_last() =~= lines);
}

/// A chain is intact exactly where every line is a payload and, after its last tab, the hash
/// of the hash before it and that payload; before the first line the hash is empty.
pub proof fn law_intact_chain_links_every_line(
    lines: Seq<Seq<char>>,
    payload: Seq<char>,
    hash: Seq<char>,
    odd: Seq<char>,
)
    requires
        forall|i: int| 0 <= i < hash.len() ==> hash[i] != '\t',
        forall|i: int| 0 <= i < odd.len() ==> odd[i] != '\t',
    ensures
        intact(Seq::empty()),
        ({
            let before = if lines.len() == 0 {
                Seq::<char>::empty()
            } else {
                hash_of(lines.last())
            };
            let longer = lines.push(payload + seq!['\t'] + hash);
            &&& hash_of(payload + seq!['\t'] + hash) == hash
            &&& payload_of(payload + seq!['\t'] + hash) == payload
            &&& intact(longer) <==> intact(lines) && hash == hex(
                blake2b512(encode_utf8(before + seq!['\n'] + payload))@,
            )
            &&& !intact(lines.push(odd))
        }),
{
    let line = payload + seq!['\t'] + hash;
    law_cut_is_at_the_first_or_last(payload, '\t', hash);
    law_cut_is_at_the_first_or_last(odd, '\t', hash);
    let longer = lines.push(line);
    let n = lines.len() as int;
    let before = if lines.len() == 0 {
        Seq::<char>::empty()
    } else {
        hash_of(lines.last())
    };
    assert(before.push('\n') + payload =~= before + seq!['\n'] + payload);
    assert(hash_before(longer, n) == before);
    assert forall|i: int| 0 <= i < n implies linked(longer, i) == #[trigger] linked(lines, i) by {
        assert(longer[i] == lines[i]);
        if i > 0 {
            assert(longer[i - 1] == lines[i - 1]);
        }
    }
    assert(longer[n] == line);
    if intact(longer) {
        assert(linked(longer, n));
        assert forall|i: int| 0 <= i < n implies #[trigger] linked(lines, i) by {
            assert(linked(longer, i));
        }
    }
    if intact(lines) && hash == hex(blake2b512(encode_utf8(before + seq!['\n'] + payload))@) {
        assert forall|i: int| 0 <= i < longer.len() implies #[trigger] linked(longer, i) by {
            if i < n {
                assert(linked(lines, i));
            }
        }
    }
    assert(!linked(lines.push(odd), n));
}

// ---------------------------------------------------------------------------
// Secrets
// ---------------------------------------------------------------------------

/// A sealed blob is a nonce of twelve bytes and what is encrypted under it; it opens to what
/// the rest decrypts to under that nonce, and a shorter one does not open.
pub proof fn law_sealed_blob_is_nonce_and_ciphertext(
    key: Seq<u8>,
    nonce: Seq<u8>,
    plaintext: Seq<u8>,
    rest: Seq<u8>,
)
    requires
        nonce.len() == 12,
    ensures
        sealed(key, nonce, plaintext).take(12) == nonce,
        sealed(key, nonce, plaintext).skip(12) == aead_ciphertext(key, nonce, plaintext),
        match aead_plaintext(key, nonce, rest) {
            Some(p) => opened(key, nonce + rest) matches Ok(q) && q == p,
            None => opened(key, nonce + rest) is Err,
        },
        rest.len() < 12 ==> opened(key, rest) is Err,
{
    let blob = sealed(key, nonce, plaintext);
    assert(blob.take(12) =~= nonce);
    assert(blob.skip(12) =~= aead_ciphertext(key, nonce, plaintext));
    assert((nonce + rest).take(12) =~= nonce);
    assert((nonce + rest).skip(12) =~= rest);
}

// ---------------------------------------------------------------------------
// Password hashes
// ---------------------------------------------------------------------------

/// What Argon2 says of a password and a PHC string is the answer, but for a string that has a
/// salt and a hash and parameters that Argon2 takes, and asks for at least eight KiB and for
/// more lanes than eight times which is a 32-bit number: that is a fault, whatever the
/// password.
pub proof fn law_argon2_decides_but_on_overflow(
    password: Seq<u8>,
    other: Seq<u8>,
    phc: Seq<char>,
)
    ensures
        ({
            let params = phc_params(phc);
            let overflows = (phc_parts(phc) matches Some((text, salt, hash)) && salt && hash)
                && params_taken(params) && memory(params) >= 8 && lanes(params) >= 0x2000_0000;
            &&& !overflows ==> phc_verdict(password, phc) == argon2_verdict(password, phc)
            &&& overflows ==> phc_verdict(password, phc) is Fault && phc_verdict(password, phc)
                == phc_verdict(other, phc)
            &&& phc_parts(phc) matches Some((text, salt, hash)) ==> params == splits(text, ',')
            &&& overflows && (memory(params) < (lanes(params) * 8) % 0x1_0000_0000 || passes(params)
                == 0) ==> phc_verdict(password, phc) == VerdictView::Fault(TOO_SMALL@)
            &&& overflows && memory(params) >= (lanes(params) * 8) % 0x1_0000_0000 && passes(params)
                >= 1 ==> phc_verdict(password, phc) == VerdictView::Fault(TOO_LARGE@)
        }),
{
}

/// The last parameter that sets a name counts, and without one the preset does: 19456 KiB of
/// memory, two passes and one lane. A setting is a 32-bit number without leading zeros.
pub proof fn law_last_parameter_counts(
    params: Seq<Seq<char>>,
    name: Seq<char>,
    n: nat,
    preset: nat,
    other: Seq<char>,
)
    requires
        forall|i: int| 0 <= i < name.len() ==> name[i] != '=',
        n <= u32::MAX,
    ensures
        set_to(params.push(name + seq!['='] + decimal(n)), name, preset) == n,
        other != name ==> set_to(params.push(name + seq!['='] + decimal(n)), other, preset)
            == set_to(params, other, preset),
        set_to(Seq::empty(), name, preset) == preset,
        memory(Seq::empty()) == 19_456,
        passes(Seq::empty()) == 2,
        lanes(Seq::empty()) == 1,
        lanes(params) == set_to(params, seq!['p'], 1),
        memory(params) == set_to(params, seq!['m'], 19_456),
        passes(params) == set_to(params, seq!['t'], 2),
        setting(decimal(n)) == Some(n),
{
    reveal_strlit("p");
    reveal_strlit("m");
    reveal_strlit("t");
    assert("p"@ =~= seq!['p']);
    assert("m"@ =~= seq!['m']);
    assert("t"@ =~= seq!['t']);
    let param = name + seq!['='] + decimal(n);
    assert(params.push(param).drop_last() =~= params);
    law_cut_is_at_the_first_or_last(name, '=', decimal(n));
    lemma_decimal(n);
    law_number_reads_its_digits(n, u32::MAX as nat, Seq::empty(), 0);
    law_number_is_written_without_leading_zeros(n);
}

/// A match is the answer yes, a mismatch the answer no, and a fault an error.
pub proof fn law_verdict_is_the_answer(r: Result<bool, SecurityError>, verdict: VerdictView)
    requires
        settled(r, verdict),
    ensures
        r == Ok::<bool, SecurityError>(true) <==> verdict is Matches,
        r == Ok::<bool, SecurityError>(false) <==> verdict is Differs,
        r is Err <==> verdict is Fault,
{
}

/// Argon2 takes the parameters `m`, `t` and `p` with a setting, a key identifier and
/// associated data, and no other. A setting has digits alone, no zero before them, and is at
/// most a 32-bit number.
pub proof fn law_parameter_is_taken_by_its_name(name: Seq<char>, value: Seq<char>, odd: Seq<char>)
    requires
        forall|i: int| 0 <= i < name.len() ==> name[i] != '=',
        forall|i: int| 0 <= i < odd.len() ==> odd[i] != '=',
    ensures
        ({
            let taken = param_taken(name + seq!['='] + value);
            &&& name == seq!['m'] || name == seq!['t'] || name == seq!['p'] ==> (taken <==> setting(
                value,
            ) is Some)
            &&& name == "keyid"@ ==> (taken <==> key_identifier(value))
            &&& name == "data"@ ==> (taken <==> associated_data(value))
            &&& name != seq!['m'] && name != seq!['t'] && name != seq!['p'] && name != "keyid"@
                && name != "data"@ ==> !taken
        }),
        !param_taken(odd),
        value.len() > 1 && value[0] == '0' ==> setting(value) is None,
        value.len() == 0 ==> setting(value) is None,
        (exists|i: int| 0 <= i < value.len() && !digit(#[trigger] value[i])) ==> setting(
            value,
        ) is None,
        decimal_value(value) > u32::MAX ==> setting(value) is None,
{
    reveal_strlit("p");
    reveal_strlit("m");
    reveal_strlit("t");
    reveal_strlit("keyid");
    reveal_strlit("data");
    assert("p"@ =~= seq!['p']);
    assert("m"@ =~= seq!['m']);
    assert("t"@ =~= seq!['t']);
    assert("keyid"@.len() == 5 && "data"@.len() == 4);
    law_cut_is_at_the_first_or_last(name, '=', value);
    law_cut_is_at_the_first_or_last(odd, '=', value);
    if value.len() > 0 && value[0] == '+' {
        assert(!digit(value[0]));
    }
}

} // verus!
