//! A durable, append-only, **hash-chained** record of security audit events.
//!
//! The in-memory ring ([`super::AuditLog`]) is bounded and volatile: an attacker
//! who triggers more than `capacity` events after a break-in rolls the evidence
//! out of the ring, and a crash loses the trail entirely. The chain complements it:
//! every record carries a Blake2b hash that links it to its predecessor, so
//! deleting, reordering, or modifying any historical line breaks the chain and is
//! detectable by [`DurableAuditSink::verify`].
//!
//! Each record is one line, tab-separated:
//! `<seq>\t<unix_secs>\t<event>\t<chain_hash_hex>`
//! where `chain_hash = Blake2b512(prev_hash_hex || "\n" || "<seq>\t<unix_secs>\t<event>")`.
//! The event encoding ([`super::AuditEvent::encode`]) is free of tab and newline, so
//! the trailing hash is always what follows the last tab.
//!
//! Scope note: this provides durability + tamper-evidence. Size-based rotation of
//! the chain is not implemented, so the chain stays a single verifiable sequence.

use blake2::{Blake2b512, Digest};
use vstd::prelude::*;
use vstd::slice::slice_subrange;
use vstd::utf8::{encode_utf8, encode_utf8_decode_utf8};

use crate::security::audit::audit_logger::{
    control, law_encoding_is_one_field_of_one_line, AuditEvent, AuditEventView,
};
use crate::text::{
    all_graphic, chars_eq, chars_of, decimal, digit, find, graphic, hex, lemma_decimal, lemma_find,
    lemma_find_is, lemma_find_none, lemma_hex, lemma_hex_is_injective, lemma_lines_of_append,
    lemma_lines_of_one, lemma_number_of_decimal, lemma_rfind, lemma_splits, lemma_splits_step,
    lines, lines_of, number, parse_number, pieces, push_all, push_str, rcut, rfind, rsplit_once,
    split, splits, string_of, to_decimal, to_hex,
};

verus! {

/// The Blake2b-512 digest of a byte sequence.
pub uninterp spec fn blake2b512(bytes: Seq<u8>) -> [u8; 64];

/// Calls `blake2::Blake2b512::digest`: the digest of the bytes.
#[verifier::external_body]
fn blake2b512_digest(bytes: &[u8]) -> (r: [u8; 64])
    ensures
        r == blake2b512(bytes@),
{
    Blake2b512::digest(bytes).into()
}

/// The result of verifying a durable audit chain end-to-end.
#[derive(Debug, Clone, Copy, PartialEq, Eq, Structural)]
pub enum ChainStatus {
    /// Every record's hash links correctly to its predecessor.
    Valid {
        /// Number of records verified.
        records: u64,
    },
    /// The chain breaks at this 0-based line: tampering, truncation, or corruption.
    BrokenAt {
        /// The 0-based line index where verification first failed.
        line: u64,
    },
}

/// What is hashed for a record: its predecessor's hash, a line feed, and its payload.
pub open spec fn hash_input(prev_hash: Seq<char>, payload: Seq<char>) -> Seq<u8> {
    encode_utf8(prev_hash.push('\n') + payload)
}

/// The hash that chains a record to its predecessor, in hexadecimal.
pub open spec fn chain_hash(prev_hash: Seq<char>, payload: Seq<char>) -> Seq<char> {
    hex(blake2b512(hash_input(prev_hash, payload))@)
}

/// The payload of a record: what comes before its last tab.
pub open spec fn payload_of(line: Seq<char>) -> Seq<char> {
    match rcut(line, '\t') {
        Some((payload, hash)) => payload,
        None => Seq::empty(),
    }
}

/// The hash of a record: what comes after its last tab.
pub open spec fn hash_of(line: Seq<char>) -> Seq<char> {
    match rcut(line, '\t') {
        Some((payload, hash)) => hash,
        None => Seq::empty(),
    }
}

/// The hash that a record is chained to: its predecessor's, and the empty one for the
/// first record.
pub open spec fn hash_before(lines: Seq<Seq<char>>, i: int) -> Seq<char> {
    if i <= 0 {
        Seq::empty()
    } else {
        hash_of(lines[i - 1])
    }
}

/// Whether a line is a record that links to its predecessor.
pub open spec fn linked(lines: Seq<Seq<char>>, i: int) -> bool {
    rcut(lines[i], '\t') is Some && hash_of(lines[i]) == chain_hash(
        hash_before(lines, i),
        payload_of(lines[i]),
    )
}

/// Whether every line is a record that links to its predecessor.
pub open spec fn intact(lines: Seq<Seq<char>>) -> bool {
    forall|i: int| 0 <= i < lines.len() ==> #[trigger] linked(lines, i)
}

/// Whether a line is a well-formed record: it has the four fields.
pub open spec fn is_record(line: Seq<char>) -> bool {
    splits(line, '\t').len() == 4
}

/// Whether every line is a well-formed record.
pub open spec fn all_records(lines: Seq<Seq<char>>) -> bool {
    forall|i: int| 0 <= i < lines.len() ==> is_record(#[trigger] lines[i])
}

/// The number of a record: its first field.
pub open spec fn record_number(line: Seq<char>) -> Option<nat> {
    if is_record(line) {
        number(splits(line, '\t')[0], u64::MAX as nat)
    } else {
        None
    }
}

/// What a [`DurableAuditSink`] holds: the tip of a chain.
pub struct SinkView {
    /// Hash of the most recent record.
    pub prev_hash: Seq<char>,
    /// Sequence number for the next record.
    pub seq: nat,
}

/// The tip of a chain: the hash of the last record, and the number after the last one
/// that a record bears. A line that is no well-formed record is passed over.
pub open spec fn tip_of(lines: Seq<Seq<char>>) -> SinkView
    decreases lines.len(),
{
    if lines.len() == 0 {
        SinkView { prev_hash: Seq::empty(), seq: 0 }
    } else {
        let before = tip_of(lines.drop_last());
        if is_record(lines.last()) {
            SinkView {
                prev_hash: hash_of(lines.last()),
                seq: match record_number(lines.last()) {
                    Some(n) => n + 1,
                    None => before.seq,
                },
            }
        } else {
            before
        }
    }
}

/// Whether a text is the beginning of another one, cut off before its end.
pub open spec fn cut_short(part: Seq<char>, whole: Seq<char>) -> bool {
    part.len() < whole.len() && whole.take(part.len() as int) == part
}

/// Whether a record was cut off within the hash that chains it to a tip.
pub open spec fn hash_cut(tip: SinkView, line: Seq<char>) -> bool {
    cut_short(hash_of(line), chain_hash(tip.prev_hash, payload_of(line)))
}

/// Whether the last line of a text lacks its line end.
pub open spec fn unended(text: Seq<char>) -> bool {
    text.len() > 0 && text.last() != '\n'
}

/// The lines of a chain's text that count for its tip: all but a last one that a crash
/// cut off within its hash.
pub open spec fn recovered_lines(text: Seq<char>) -> Seq<Seq<char>> {
    let all = lines_of(text);
    if unended(text) && is_record(all.last()) && hash_cut(tip_of(all.drop_last()), all.last()) {
        all.drop_last()
    } else {
        all
    }
}

/// Whether the numbering is used up: some record bears the last number there is.
pub open spec fn numbers_used_up(lines: Seq<Seq<char>>) -> bool {
    exists|i: int|
        0 <= i < lines.len() && #[trigger] record_number(lines[i]) == Some(u64::MAX as nat)
}

impl SinkView {
    /// The payload of the next record.
    pub open spec fn payload(self, unix_secs: u64, event: AuditEventView) -> Seq<char> {
        decimal(self.seq) + seq!['\t'] + decimal(unix_secs as nat) + seq!['\t'] + event.encoded()
    }

    /// The next record, without its line end.
    pub open spec fn record(self, unix_secs: u64, event: AuditEventView) -> Seq<char> {
        let payload = self.payload(unix_secs, event);
        payload + seq!['\t'] + chain_hash(self.prev_hash, payload)
    }

    /// The tip after the next record.
    pub open spec fn after(self, unix_secs: u64, event: AuditEventView) -> SinkView {
        SinkView {
            prev_hash: chain_hash(self.prev_hash, self.payload(unix_secs, event)),
            seq: self.seq + 1,
        }
    }
}

/// The tip of an append-only, hash-chained audit log.
pub struct DurableAuditSink {
    /// Hex hash of the most recently written record.
    prev_hash: String,
    /// Sequence number for the next record.
    seq: u64,
}

impl View for DurableAuditSink {
    type V = SinkView;

    closed spec fn view(&self) -> SinkView {
        SinkView { prev_hash: self.prev_hash@, seq: self.seq as nat }
    }
}

impl DurableAuditSink {
    /// Recover the tip from a chain's text: the last well-formed record's hash and the next
    /// sequence number, so appends continue the existing chain across a restart. A
    /// trailing torn line, one with fewer fields or a part of its hash, is ignored, so a
    /// crash mid-write does not poison the tip.
    /// Nothing is returned where a record bears the last number there is.
    pub fn open(text: &str) -> (r: Option<DurableAuditSink>)
        ensures
            r is None <==> numbers_used_up(recovered_lines(text@)),
            r matches Some(sink) ==> sink@ == tip_of(recovered_lines(text@)),
    {
        let chars = chars_of(text);
        let all = lines(chars.as_slice());
        let torn = DurableAuditSink::lacks_line_end(text);
        let ghost model = lines_of(text@);
        let mut prev_hash: Vec<char> = Vec::new();
        let mut seq: u64 = 0;
        let mut i: usize = 0;
        proof {
            assert(model.take(0) =~= Seq::empty());
            if torn {
                lemma_ended_line(text@);
            }
        }
        while i < all.len()
            invariant
                model == lines_of(text@),
                pieces(all@) == model,
                torn == unended(text@),
                i <= all@.len(),
                i == all@.len() ==> recovered_lines(text@) == model,
                prev_hash@ == tip_of(model.take(i as int)).prev_hash,
                seq == tip_of(model.take(i as int)).seq,
                forall|k: int|
                    0 <= k < i ==> #[trigger] record_number(model[k]) != Some(u64::MAX as nat),
            decreases all@.len() - i,
        {
            let line = all[i].as_slice();
            proof {
                assert(pieces(all@)[i as int] == all@[i as int]@);
                assert(model.take(i + 1).drop_last() =~= model.take(i as int));
                assert(model.take(i + 1).last() == model[i as int]);
            }
            let fields = split(line, '\t');
            if fields.len() == 4 {
                assert(pieces(fields@)[0] == fields@[0]@);
                if torn && i + 1 == all.len() {
                    assert(model.drop_last() =~= model.take(i as int));
                    let before = string_of(prev_hash.as_slice());
                    if is_hash_cut(before.as_str(), line) {
                        return Some(DurableAuditSink { prev_hash: before, seq });
                    }
                }
                if let Some(n) = parse_number(fields[0].as_slice(), u64::MAX) {
                    if n == u64::MAX {
                        assert(record_number(model[i as int]) == Some(u64::MAX as nat));
                        return None;
                    }
                    seq = n + 1;
                }
                prev_hash = Vec::new();
                if let Some((_, hash)) = rsplit_once(line, '\t') {
                    push_all(&mut prev_hash, hash);
                }
            }
            i = i + 1;
        }
        assert(model.take(i as int) =~= model);
        Some(DurableAuditSink { prev_hash: string_of(prev_hash.as_slice()), seq })
    }

    /// Whether the last line of a chain's text lacks its line end, so that one has to be
    /// written before the next record.
    pub fn lacks_line_end(text: &str) -> (r: bool)
        ensures
            r == unended(text@),
    {
        let chars = chars_of(text);
        chars.len() > 0 && chars[chars.len() - 1] != '\n'
    }

    /// Whether the last number there is has been reached.
    pub fn is_exhausted(&self) -> (r: bool)
        ensures
            r == (self@.seq == u64::MAX),
    {
        self.seq == u64::MAX
    }

    /// Make `event` the next chained record: the line to write, its line end with it,
    /// and the tip once that has been written.
    pub fn append(&self, unix_secs: u64, event: &AuditEvent) -> (r: (String, DurableAuditSink))
        requires
            self@.seq < u64::MAX,
        ensures
            r.0@ == self@.record(unix_secs, event@).push('\n'),
            r.1@ == self@.after(unix_secs, event@),
    {
        let mut line: Vec<char> = to_decimal(self.seq);
        line.push('\t');
        push_all(&mut line, to_decimal(unix_secs).as_slice());
        line.push('\t');
        push_str(&mut line, event.encode().as_str());
        assert(line@ =~= self@.payload(unix_secs, event@));
        let hash = hash_link(self.prev_hash.as_str(), line.as_slice());
        line.push('\t');
        push_all(&mut line, hash.as_slice());
        assert(line@ =~= self@.record(unix_secs, event@));
        line.push('\n');
        (
            string_of(line.as_slice()),
            DurableAuditSink { prev_hash: string_of(hash.as_slice()), seq: self.seq + 1 },
        )
    }

    /// Verify that every record of a chain's text links to its predecessor. An empty
    /// text is an empty (valid) chain.
    pub fn verify(text: &str) -> (r: ChainStatus)
        ensures
            match r {
                ChainStatus::Valid { records } => intact(lines_of(text@)) && records == lines_of(
                    text@,
                ).len(),
                ChainStatus::BrokenAt { line } => line < lines_of(text@).len() && !linked(
                    lines_of(text@),
                    line as int,
                ) && intact(lines_of(text@).take(line as int)),
            },
    {
        let chars = chars_of(text);
        let all = lines(chars.as_slice());
        let ghost model = lines_of(text@);
        let mut prev: String = String::new();
        let mut i: usize = 0;
        assert(prev@ =~= hash_before(model, 0));
        while i < all.len()
            invariant
                model == lines_of(text@),
                pieces(all@) == model,
                i <= all@.len(),
                prev@ == hash_before(model, i as int),
                forall|k: int| 0 <= k < i ==> #[trigger] linked(model, k),
            decreases all@.len() - i,
        {
            let line = all[i].as_slice();
            proof {
                assert(pieces(all@)[i as int] == all@[i as int]@);
                lemma_intact_prefix(model, i as int);
            }
            match rsplit_once(line, '\t') {
                None => {
                    return ChainStatus::BrokenAt { line: i as u64 };
                },
                Some((payload, hash)) => {
                    let expected = hash_link(prev.as_str(), payload);
                    if !chars_eq(expected.as_slice(), hash) {
                        return ChainStatus::BrokenAt { line: i as u64 };
                    }
                    prev = string_of(hash);
                },
            }
            i = i + 1;
        }
        ChainStatus::Valid { records: i as u64 }
    }
}

/// `Blake2b512(prev_hash_hex || "\n" || payload)`, hex-encoded.
fn hash_link(prev_hash: &str, payload: &[char]) -> (r: Vec<char>)
    ensures
        r@ == chain_hash(prev_hash@, payload@),
{
    let mut input = chars_of(prev_hash);
    input.push('\n');
    push_all(&mut input, payload);
    let text = string_of(input.as_slice());
    let digest = blake2b512_digest(text.as_str().as_bytes());
    to_hex(digest.as_slice())
}

/// Whether a record was cut off within the hash that chains it to `prev_hash`.
fn is_hash_cut(prev_hash: &str, line: &[char]) -> (r: bool)
    ensures
        r == cut_short(hash_of(line@), chain_hash(prev_hash@, payload_of(line@))),
{
    let none: Vec<char> = Vec::new();
    let (payload, hash) = match rsplit_once(line, '\t') {
        Some((payload, hash)) => (payload, hash),
        None => (none.as_slice(), none.as_slice()),
    };
    assert(payload@ =~= payload_of(line@));
    assert(hash@ =~= hash_of(line@));
    let whole = hash_link(prev_hash, payload);
    if hash.len() >= whole.len() {
        return false;
    }
    let begin = slice_subrange(whole.as_slice(), 0, hash.len());
    assert(begin@ =~= whole@.take(hash@.len() as int));
    chars_eq(begin, hash)
}

proof fn lemma_intact_prefix(lines: Seq<Seq<char>>, n: int)
    requires
        0 <= n <= lines.len(),
        forall|k: int| 0 <= k < n ==> #[trigger] linked(lines, k),
    ensures
        intact(lines.take(n)),
{
    let front = lines.take(n);
    assert forall|k: int| 0 <= k < front.len() implies #[trigger] linked(front, k) by {
        assert(linked(lines, k));
        assert(hash_before(front, k) == hash_before(lines, k));
    }
}

// ---------------------------------------------------------------------------
// Laws
// ---------------------------------------------------------------------------

/// Four texts without tabs, with a tab between each two, are four fields.
proof fn lemma_four_fields(a: Seq<char>, b: Seq<char>, c: Seq<char>, d: Seq<char>)
    requires
        forall|i: int| 0 <= i < a.len() ==> a[i] != '\t',
        forall|i: int| 0 <= i < b.len() ==> b[i] != '\t',
        forall|i: int| 0 <= i < c.len() ==> c[i] != '\t',
        forall|i: int| 0 <= i < d.len() ==> d[i] != '\t',
    ensures
        splits(a + seq!['\t'] + b + seq!['\t'] + c + seq!['\t'] + d, '\t') == seq![a, b, c, d],
        splits(a + seq!['\t'] + b + seq!['\t'] + c, '\t') == seq![a, b, c],
{
    let abc = a + seq!['\t'] + b + seq!['\t'] + c;
    let bc = b + seq!['\t'] + c;
    lemma_find_none(c, '\t');
    lemma_splits_step(bc, '\t', b.len() as int);
    assert(bc.take(b.len() as int) =~= b);
    assert(bc.skip(b.len() as int + 1) =~= c);
    lemma_splits_step(abc, '\t', a.len() as int);
    assert(abc.take(a.len() as int) =~= a);
    assert(abc.skip(a.len() as int + 1) =~= bc);
    assert(splits(abc, '\t') =~= seq![a, b, c]);
    let line = a + seq!['\t'] + b + seq!['\t'] + c + seq!['\t'] + d;
    let bcd = b + seq!['\t'] + c + seq!['\t'] + d;
    let cd = c + seq!['\t'] + d;
    lemma_find_none(d, '\t');
    lemma_splits_step(cd, '\t', c.len() as int);
    assert(cd.take(c.len() as int) =~= c);
    assert(cd.skip(c.len() as int + 1) =~= d);
    lemma_splits_step(bcd, '\t', b.len() as int);
    assert(bcd.take(b.len() as int) =~= b);
    assert(bcd.skip(b.len() as int + 1) =~= cd);
    lemma_splits_step(line, '\t', a.len() as int);
    assert(line.take(a.len() as int) =~= a);
    assert(line.skip(a.len() as int + 1) =~= bcd);
    assert(splits(line, '\t') =~= seq![a, b, c, d]);
}

/// The fields of the next record: its hash follows its last tab, and its number
/// precedes its first.
proof fn lemma_record_fields(tip: SinkView, unix_secs: u64, event: AuditEventView)
    requires
        tip.seq < u64::MAX,
    ensures
        ({
            let line = tip.record(unix_secs, event);
            &&& rcut(line, '\t') == Some(
                (
                    tip.payload(unix_secs, event),
                    chain_hash(tip.prev_hash, tip.payload(unix_secs, event)),
                ),
            )
            &&& splits(tip.payload(unix_secs, event), '\t').len() == 3
            &&& is_record(line)
            &&& record_number(line) == Some(tip.seq)
            &&& line.len() > 0
            &&& line.last() != '\r'
            &&& forall|i: int| 0 <= i < line.len() ==> #[trigger] line[i] != '\n'
        }),
{
    let line = tip.record(unix_secs, event);
    let payload = tip.payload(unix_secs, event);
    let hash = chain_hash(tip.prev_hash, payload);
    let first = decimal(tip.seq);
    let time = decimal(unix_secs as nat);
    lemma_hex(blake2b512(hash_input(tip.prev_hash, payload))@);
    lemma_decimal(tip.seq);
    lemma_decimal(unix_secs as nat);
    law_encoding_is_one_field_of_one_line(event);
    assert forall|i: int| 0 <= i < first.len() implies first[i] != '\t' && first[i] != '\n' by {
        assert(digit(first[i]));
    }
    assert forall|i: int| 0 <= i < time.len() implies time[i] != '\t' && time[i] != '\n' by {
        assert(digit(time[i]));
    }
    assert forall|i: int| 0 <= i < hash.len() implies hash[i] != '\t' && hash[i] != '\n' && hash[i]
        != '\r' by {
        assert(graphic(hash[i]));
    }
    assert forall|i: int| 0 <= i < event.encoded().len() implies event.encoded()[i] != '\t'
        && event.encoded()[i] != '\n' by {
        assert(!control(event.encoded()[i]));
    }
    let n = payload.len() as int;
    assert(line[n] == '\t');
    assert forall|j: int| n < j < line.len() implies line[j] != '\t' by {
        assert(line[j] == hash[j - n - 1]);
    }
    lemma_rfind(line, '\t');
    assert(rfind(line, '\t') == Some(n));
    assert(line.take(n) =~= payload);
    assert(line.skip(n + 1) =~= hash);
    lemma_four_fields(first, time, event.encoded(), hash);
    assert(payload =~= first + seq!['\t'] + time + seq!['\t'] + event.encoded());
    assert(line =~= first + seq!['\t'] + time + seq!['\t'] + event.encoded() + seq!['\t'] + hash);
    lemma_number_of_decimal(tip.seq, u64::MAX as nat);
    assert(line.last() == hash.last());
}

/// A line without its end, put behind a text whose lines are ended, is one line more.
proof fn lemma_unended_line(text: Seq<char>, line: Seq<char>)
    requires
        !unended(text),
        line.len() > 0,
        forall|i: int| 0 <= i < line.len() ==> line[i] != '\n',
    ensures
        unended(text + line),
        lines_of(text + line) == lines_of(text).push(line),
{
    lemma_lines_of_append(text, line);
    lemma_find_none(line, '\n');
    assert((text + line).last() == line.last());
    assert(lines_of(text) + seq![line] =~= lines_of(text).push(line));
}

/// A trailing line that is no record, or was cut off within its hash, leaves the tip as it
/// was before it was written.
pub proof fn law_torn_line_leaves_the_tip(text: Seq<char>, torn: Seq<char>)
    requires
        !unended(text),
        forall|i: int| 0 <= i < torn.len() ==> torn[i] != '\n',
        is_record(torn) ==> hash_cut(tip_of(recovered_lines(text)), torn),
    ensures
        tip_of(recovered_lines(text + torn)) == tip_of(recovered_lines(text)),
        numbers_used_up(recovered_lines(text + torn)) == numbers_used_up(recovered_lines(text)),
{
    if torn.len() == 0 {
        assert(text + torn =~= text);
    } else {
        let before = lines_of(text);
        let all = lines_of(text + torn);
        lemma_unended_line(text, torn);
        assert(all.drop_last() =~= before);
        if !is_record(torn) {
            if numbers_used_up(all) {
                let i = choose|i: int|
                    0 <= i < all.len() && #[trigger] record_number(all[i]) == Some(u64::MAX as nat);
                assert(all[i] == before[i]);
            }
            if numbers_used_up(before) {
                let i = choose|i: int|
                    0 <= i < before.len() && #[trigger] record_number(before[i]) == Some(
                        u64::MAX as nat,
                    );
                assert(all[i] == before[i]);
            }
        }
    }
}

/// A crash mid-write does not poison the tip: however much of the next record was written,
/// the tip recovered is the one before it, until the record is there whole.
pub proof fn law_crash_mid_write_does_not_poison_the_tip(
    text: Seq<char>,
    unix_secs: u64,
    event: AuditEventView,
    written: int,
)
    requires
        !unended(text),
        tip_of(recovered_lines(text)).seq < u64::MAX,
        0 <= written <= tip_of(recovered_lines(text)).record(unix_secs, event).len(),
    ensures
        ({
            let tip = tip_of(recovered_lines(text));
            let line = tip.record(unix_secs, event);
            tip_of(recovered_lines(text + line.take(written))) == if written < line.len() {
                tip
            } else {
                tip.after(unix_secs, event)
            }
        }),
{
    let tip = tip_of(recovered_lines(text));
    let line = tip.record(unix_secs, event);
    let payload = tip.payload(unix_secs, event);
    let hash = chain_hash(tip.prev_hash, payload);
    let part = line.take(written);
    let n = payload.len() as int;
    lemma_record_fields(tip, unix_secs, event);
    assert forall|i: int| 0 <= i < part.len() implies part[i] != '\n' by {
        assert(part[i] == line[i]);
    }
    if written <= n {
        assert(part =~= payload.take(written));
        lemma_splits_take(payload, '\t', written);
        law_torn_line_leaves_the_tip(text, part);
    } else {
        let k = written - n - 1;
        lemma_rfind(line, '\t');
        lemma_rfind(part, '\t');
        assert(part[n] == '\t');
        assert forall|j: int| n < j < part.len() implies part[j] != '\t' by {
            assert(part[j] == line[j]);
        }
        assert(rfind(line, '\t') == Some(n)) by {
            assert(line[n] == '\t');
            assert(line.take(rfind(line, '\t')->0).len() == n);
        }
        assert(rfind(part, '\t') == Some(n));
        assert(part.take(n) =~= payload);
        assert(part.skip(n + 1) =~= hash.take(k));
        if written < line.len() {
            assert(k < hash.len());
            law_torn_line_leaves_the_tip(text, part);
        } else {
            assert(part =~= line);
            assert(hash.take(k) =~= hash);
            lemma_unended_line(text, line);
            assert(lines_of(text + line).drop_last() =~= lines_of(text));
        }
    }
}

/// Cutting a text off adds no pieces to it.
proof fn lemma_splits_take(s: Seq<char>, c: char, n: int)
    requires
        0 <= n <= s.len(),
    ensures
        splits(s.take(n), c).len() <= splits(s, c).len(),
    decreases s.len(),
{
    lemma_find(s, c);
    lemma_splits(s, c);
    match find(s, c) {
        Some(i) => {
            if n <= i {
                lemma_find_none(s.take(n), c);
            } else {
                let rest = s.skip(i + 1);
                lemma_splits_step(s.take(n), c, i);
                assert(s.take(n).skip(i + 1) =~= rest.take(n - i - 1));
                lemma_splits_take(rest, c, n - i - 1);
            }
        },
        None => {
            lemma_find_none(s.take(n), c);
        },
    }
}

/// Appending continues the chain, across a restart too: the text with the next record
/// appended has one line more, the tip recovered from it is the one that appending
/// left, and a chain of well-formed records stays intact where it was.
pub proof fn law_append_continues_the_chain(
    text: Seq<char>,
    unix_secs: u64,
    event: AuditEventView,
)
    requires
        !unended(text),
        tip_of(recovered_lines(text)).seq < u64::MAX,
    ensures
        ({
            let tip = tip_of(recovered_lines(text));
            let line = tip.record(unix_secs, event);
            let grown = text + line.push('\n');
            &&& lines_of(grown) == lines_of(text).push(line)
            &&& tip_of(recovered_lines(grown)) == tip.after(unix_secs, event)
            &&& all_records(lines_of(text)) ==> all_records(lines_of(grown))
            &&& all_records(lines_of(text)) && intact(lines_of(text)) ==> intact(lines_of(grown))
        }),
{
    let before = lines_of(text);
    let tip = tip_of(recovered_lines(text));
    let line = tip.record(unix_secs, event);
    lemma_record_fields(tip, unix_secs, event);
    lemma_lines_of_append(text, line.push('\n'));
    lemma_lines_of_one(line);
    let grown = lines_of(text + line.push('\n'));
    assert(grown =~= before.push(line));
    assert(grown.drop_last() =~= before);
    assert(!unended(text + line.push('\n')));
    if all_records(before) && intact(before) {
        lemma_grown_is_intact(before, tip, unix_secs, event);
    }
}

/// The next record keeps a chain of well-formed records intact.
proof fn lemma_grown_is_intact(
    before: Seq<Seq<char>>,
    tip: SinkView,
    unix_secs: u64,
    event: AuditEventView,
)
    requires
        all_records(before),
        intact(before),
        tip == tip_of(before),
        tip.seq < u64::MAX,
    ensures
        intact(before.push(tip.record(unix_secs, event))),
{
    let grown = before.push(tip.record(unix_secs, event));
    lemma_record_fields(tip, unix_secs, event);
    lemma_tip_of_records(before);
    assert forall|i: int| 0 <= i < grown.len() implies #[trigger] linked(grown, i) by {
        if i < before.len() {
            assert(linked(before, i));
            assert(hash_before(grown, i) == hash_before(before, i));
        } else {
            assert(hash_before(grown, i) == tip.prev_hash);
        }
    }
}

/// Appending goes on behind a line without its end too: with a line feed put before it, the
/// next record is a line of its own and its tip is recovered. Where only the line end was
/// missing, so that the chain is intact, it stays intact.
pub proof fn law_append_goes_on_behind_an_unended_line(
    text: Seq<char>,
    unix_secs: u64,
    event: AuditEventView,
)
    requires
        unended(text),
        tip_of(recovered_lines(text)).seq < u64::MAX,
    ensures
        ({
            let tip = tip_of(recovered_lines(text));
            let line = tip.record(unix_secs, event);
            let grown = text.push('\n') + line.push('\n');
            &&& tip_of(recovered_lines(grown)) == tip.after(unix_secs, event)
            &&& all_records(lines_of(text)) && intact(lines_of(text)) ==> all_records(
                lines_of(grown),
            ) && intact(lines_of(grown)) && lines_of(grown) == lines_of(text).push(line)
        }),
{
    let tip = tip_of(recovered_lines(text));
    let line = tip.record(unix_secs, event);
    let start = text.push('\n');
    let grown = start + line.push('\n');
    lemma_record_fields(tip, unix_secs, event);
    lemma_lines_of_append(start, line.push('\n'));
    lemma_lines_of_one(line);
    assert(!unended(grown));
    assert(lines_of(grown) =~= lines_of(start).push(line));
    assert(lines_of(grown).drop_last() =~= lines_of(start));
    let all = lines_of(text);
    if all_records(all) && intact(all) {
        lemma_ended_line(text);
        let last = all.last();
        let front = all.drop_last();
        assert(linked(all, all.len() - 1));
        lemma_hex(blake2b512(hash_input(hash_before(all, all.len() - 1), payload_of(last)))@);
        assert forall|i: int| 0 <= i < front.len() implies is_record(#[trigger] front[i]) by {
            assert(is_record(all[i]));
        }
        lemma_tip_of_records(front);
        assert(hash_before(front, front.len() as int) == hash_before(all, all.len() - 1));
        assert(!hash_cut(tip_of(front), last));
        lemma_rfind(last, '\t');
        assert(last.last() == hash_of(last).last());
        assert(graphic(hash_of(last)[hash_of(last).len() - 1]));
        assert(front.push(last) =~= all);
        lemma_grown_is_intact(all, tip, unix_secs, event);
    }
}

/// A text without a line end: its last line stands behind ended ones, and ending it leaves
/// the lines as they are where it does not end in a carriage return.
proof fn lemma_ended_line(text: Seq<char>)
    requires
        unended(text),
    ensures
        lines_of(text).len() > 0,
        lines_of(text).last().len() > 0,
        lines_of(text).last().last() != '\r' ==> lines_of(text.push('\n')) == lines_of(text),
{
    lemma_rfind(text, '\n');
    let n = match rfind(text, '\n') {
        Some(i) => i + 1,
        None => 0,
    };
    let base = text.take(n);
    let last = text.skip(n);
    assert(base + last =~= text);
    lemma_unended_line(base, last);
    lemma_lines_of_append(base, last.push('\n'));
    assert(base + last.push('\n') =~= text.push('\n'));
    if last.last() != '\r' {
        lemma_lines_of_one(last);
        assert(lines_of(base) + seq![last] =~= lines_of(base).push(last));
    }
}

/// The tip of a chain of well-formed records is the hash of the last one.
proof fn lemma_tip_of_records(lines: Seq<Seq<char>>)
    requires
        all_records(lines),
    ensures
        tip_of(lines).prev_hash == hash_before(lines, lines.len() as int),
{
    if lines.len() > 0 {
        assert(is_record(lines[lines.len() - 1]));
    }
}

/// What was hashed for a record of a chain.
pub open spec fn input_at(lines: Seq<Seq<char>>, i: int) -> Seq<u8> {
    hash_input(hash_before(lines, i), payload_of(lines[i]))
}

/// Whether two records, one of each chain, make Blake2b-512 give one digest for two
/// different inputs.
pub open spec fn collide(a: Seq<Seq<char>>, b: Seq<Seq<char>>) -> bool {
    exists|i: int, j: int|
        0 <= i < a.len() && 0 <= j < b.len() && #[trigger] input_at(a, i) != #[trigger] input_at(
            b,
            j,
        ) && blake2b512(input_at(a, i)) == blake2b512(input_at(b, j))
}

/// What was hashed for a record determines the hash before it and its payload, where
/// that hash holds no line feed.
proof fn lemma_hash_input_is_injective(
    prev_a: Seq<char>,
    payload_a: Seq<char>,
    prev_b: Seq<char>,
    payload_b: Seq<char>,
)
    requires
        hash_input(prev_a, payload_a) == hash_input(prev_b, payload_b),
        all_graphic(prev_a),
        all_graphic(prev_b),
    ensures
        prev_a == prev_b,
        payload_a == payload_b,
{
    let a = prev_a.push('\n') + payload_a;
    let b = prev_b.push('\n') + payload_b;
    encode_utf8_decode_utf8(a);
    encode_utf8_decode_utf8(b);
    assert(a == b);
    let n = prev_a.len() as int;
    let m = prev_b.len() as int;
    assert(a[n] == '\n');
    assert(b[m] == '\n');
    assert forall|j: int| 0 <= j < n implies a[j] != '\n' by {
        assert(graphic(prev_a[j]));
    }
    assert forall|j: int| 0 <= j < m implies b[j] != '\n' by {
        assert(graphic(prev_b[j]));
    }
    lemma_find_is(a, '\n', n);
    lemma_find_is(b, '\n', m);
    assert(prev_a =~= a.take(n));
    assert(prev_b =~= b.take(m));
    assert(payload_a =~= a.skip(n + 1));
    assert(payload_b =~= b.skip(m + 1));
}

/// The hash before a record of an intact chain is in hexadecimal, or empty.
proof fn lemma_hash_before_is_graphic(lines: Seq<Seq<char>>, i: int)
    requires
        intact(lines),
        0 <= i <= lines.len(),
    ensures
        all_graphic(hash_before(lines, i)),
        i > 0 ==> hash_before(lines, i).len() == 128,
{
    if i > 0 {
        assert(linked(lines, i - 1));
        lemma_hex(blake2b512(input_at(lines, i - 1))@);
    }
}

/// The chain is tamper-evident: two intact chains that end in the same hash are the
/// same, record by record, unless two of their records collide under Blake2b-512. So
/// no record before a known hash can be deleted, moved or modified unnoticed.
pub proof fn law_chain_is_tamper_evident(a: Seq<Seq<char>>, b: Seq<Seq<char>>)
    requires
        intact(a),
        intact(b),
        hash_before(a, a.len() as int) == hash_before(b, b.len() as int),
    ensures
        a == b || collide(a, b),
    decreases a.len(),
{
    let n = a.len() as int;
    let m = b.len() as int;
    lemma_hash_before_is_graphic(a, n);
    lemma_hash_before_is_graphic(b, m);
    if n == 0 || m == 0 {
        assert(a =~= b);
    } else {
        assert(linked(a, n - 1));
        assert(linked(b, m - 1));
        lemma_hex_is_injective(
            blake2b512(input_at(a, n - 1))@,
            blake2b512(input_at(b, m - 1))@,
        );
        assert(blake2b512(input_at(a, n - 1)) =~= blake2b512(input_at(b, m - 1)));
        if input_at(a, n - 1) == input_at(b, m - 1) {
            lemma_hash_before_is_graphic(a, n - 1);
            lemma_hash_before_is_graphic(b, m - 1);
            lemma_hash_input_is_injective(
                hash_before(a, n - 1),
                payload_of(a.last()),
                hash_before(b, m - 1),
                payload_of(b.last()),
            );
            lemma_line_from_fields(a.last());
            lemma_line_from_fields(b.last());
            let front_a = a.drop_last();
            let front_b = b.drop_last();
            assert(front_a =~= a.take(n - 1));
            assert(front_b =~= b.take(m - 1));
            lemma_intact_prefix(a, n - 1);
            lemma_intact_prefix(b, m - 1);
            assert(hash_before(front_a, n - 1) == hash_before(a, n - 1));
            assert(hash_before(front_b, m - 1) == hash_before(b, m - 1));
            law_chain_is_tamper_evident(front_a, front_b);
            if front_a == front_b {
                assert(a =~= front_a.push(a.last()));
                assert(b =~= front_b.push(b.last()));
            } else {
                let (i, j) = choose|i: int, j: int|
                    0 <= i < front_a.len() && 0 <= j < front_b.len() && #[trigger] input_at(
                        front_a,
                        i,
                    ) != #[trigger] input_at(front_b, j) && blake2b512(input_at(front_a, i))
                        == blake2b512(input_at(front_b, j));
                assert(input_at(front_a, i) == input_at(a, i));
                assert(input_at(front_b, j) == input_at(b, j));
                assert(collide(a, b));
            }
        } else {
            assert(collide(a, b));
        }
    }
}

/// A record is its payload, a tab and its hash.
proof fn lemma_line_from_fields(line: Seq<char>)
    requires
        rcut(line, '\t') is Some,
    ensures
        line == payload_of(line).push('\t') + hash_of(line),
{
    lemma_rfind(line, '\t');
    assert(line =~= payload_of(line).push('\t') + hash_of(line));
}

/// An edited payload under a record's old hash breaks the chain at that record, unless
/// the two payloads collide under Blake2b-512.
pub proof fn law_edited_payload_is_detected(
    lines: Seq<Seq<char>>,
    i: int,
    edited: Seq<char>,
)
    requires
        intact(lines),
        0 <= i < lines.len(),
        edited != payload_of(lines[i]),
    ensures
        ({
            let tampered = lines.update(i, edited.push('\t') + hash_of(lines[i]));
            ||| !linked(tampered, i)
            ||| blake2b512(hash_input(hash_before(lines, i), edited)) == blake2b512(
                input_at(lines, i),
            ) && hash_input(hash_before(lines, i), edited) != input_at(lines, i)
        }),
{
    let line = edited.push('\t') + hash_of(lines[i]);
    let tampered = lines.update(i, line);
    assert(linked(lines, i));
    lemma_hex(blake2b512(input_at(lines, i))@);
    lemma_rfind(line, '\t');
    let n = edited.len() as int;
    assert(line[n] == '\t');
    assert forall|j: int| n < j < line.len() implies line[j] != '\t' by {
        assert(line[j] == hash_of(lines[i])[j - n - 1]);
        assert(graphic(hash_of(lines[i])[j - n - 1]));
    }
    assert(rfind(line, '\t') == Some(n));
    assert(line.take(n) =~= edited);
    assert(line.skip(n + 1) =~= hash_of(lines[i]));
    assert(hash_before(tampered, i) == hash_before(lines, i));
    if linked(tampered, i) {
        lemma_hex_is_injective(
            blake2b512(hash_input(hash_before(lines, i), edited))@,
            blake2b512(input_at(lines, i))@,
        );
        assert(blake2b512(hash_input(hash_before(lines, i), edited)) =~= blake2b512(
            input_at(lines, i),
        ));
        if hash_input(hash_before(lines, i), edited) == input_at(lines, i) {
            lemma_hash_before_is_graphic(lines, i);
            lemma_hash_input_is_injective(
                hash_before(lines, i),
                edited,
                hash_before(lines, i),
                payload_of(lines[i]),
            );
        }
    }
}

} // verus!
