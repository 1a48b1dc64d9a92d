//! MTA-STS policy (RFC 8461 §3.2) and discovery TXT (§3.1) parsing, plus the
//! `mx:` pattern matching that authorizes a mail exchange under a policy.

use vstd::prelude::*;
use vstd::slice::slice_subrange;

use crate::network::error::{agrees, NetworkError, NetworkErrorView};
use crate::text::{
    alphanumeric, chars_eq, chars_of, concat3, cut, decimal, digit, eq_ignore_case, find,
    is_alphanumeric, lemma_decimal, lemma_find, lemma_find_is, lemma_lines_of_append,
    lemma_lower_char, lemma_number_of_decimal, lemma_trimmed_push,
    lemma_without_trailing_dots_lowered, lines,
    lines_of, lowered, number, opt_view, parse_number, pieces, same_ignoring_case, split,
    split_once, splits, string_of, text_eq, texts, to_lower, trim, trim_trailing_dots, trimmed,
    trimmed_start, white_space, without_cr, without_trailing_dots,
};

verus! {

/// RFC 8461 §3.2 upper bound on `max_age`, in seconds. A larger value is clamped
/// so a typo cannot pin a bad policy for a very long time.
pub const MAX_AGE_CAP: u64 = 31_557_600;

/// The enforcement mode of an MTA-STS policy (RFC 8461 §3.2 `mode`).
#[derive(Debug, Clone, Copy, PartialEq, Eq, Structural)]
pub enum MtaStsMode {
    /// `enforce`: the sender MUST NOT deliver to a non-matching MX, and MUST use
    /// a PKIX-validated TLS connection to a matching one, with no cleartext
    /// fallback.
    Enforce,
    /// `testing`: TLS failures are non-fatal (the sender still delivers) but
    /// SHOULD be reported.
    Testing,
    /// `none`: the domain is explicitly not asserting an MTA-STS policy.
    NoPolicy,
}

/// A parsed MTA-STS policy as served at
/// `https://mta-sts.<domain>/.well-known/mta-sts.txt` (RFC 8461 §3.2).
#[derive(Debug, PartialEq, Eq)]
pub struct MtaStsPolicy {
    /// Enforcement mode.
    pub mode: MtaStsMode,
    /// Allowed MX host patterns (lowercased); a pattern may carry a single
    /// leading `*.` wildcard that matches exactly one DNS label.
    pub mx: Vec<String>,
    /// Cache lifetime in seconds (clamped to [`MAX_AGE_CAP`]).
    pub max_age: u64,
}

/// What an [`MtaStsPolicy`] holds.
pub struct MtaStsPolicyView {
    pub mode: MtaStsMode,
    pub mx: Seq<Seq<char>>,
    pub max_age: nat,
}

impl View for MtaStsPolicy {
    type V = MtaStsPolicyView;

    open spec fn view(&self) -> MtaStsPolicyView {
        MtaStsPolicyView { mode: self.mode, mx: texts(self.mx@), max_age: self.max_age as nat }
    }
}

impl Clone for MtaStsPolicy {
    fn clone(&self) -> (r: MtaStsPolicy)
        ensures
            r@ == self@,
    {
        let mut mx: Vec<String> = Vec::new();
        let mut i: usize = 0;
        while i < self.mx.len()
            invariant
                i <= self.mx@.len(),
                texts(mx@) == texts(self.mx@).take(i as int),
            decreases self.mx.len() - i,
        {
            let host = self.mx[i].clone();
            let ghost before = mx@;
            proof {
                assert(texts(before.push(host)) =~= texts(before).push(host@));
                assert(texts(self.mx@).take(i + 1) =~= texts(self.mx@).take(i as int).push(host@));
            }
            mx.push(host);
            i = i + 1;
        }
        assert(texts(mx@) =~= texts(self.mx@));
        MtaStsPolicy { mode: self.mode, mx, max_age: self.max_age }
    }
}

/// A malformed-MTA-STS-record error.
pub open spec fn sts_record_error(reason: Seq<char>) -> NetworkErrorView {
    NetworkErrorView::Record { kind: "MTA-STS"@, reason }
}

/// What the lines of a policy file have said so far.
pub struct PolicyFields {
    pub version_ok: bool,
    pub mode: Option<MtaStsMode>,
    pub max_age: Option<nat>,
    pub mx: Seq<Seq<char>>,
}

/// The mode that a `mode` value names, in any case.
pub open spec fn mode_named(value: Seq<char>) -> Option<MtaStsMode> {
    if lowered(value) == "enforce"@ {
        Some(MtaStsMode::Enforce)
    } else if lowered(value) == "testing"@ {
        Some(MtaStsMode::Testing)
    } else if lowered(value) == "none"@ {
        Some(MtaStsMode::NoPolicy)
    } else {
        None
    }
}

/// The lesser of two numbers.
pub open spec fn lesser(a: nat, b: nat) -> nat {
    if a <= b {
        a
    } else {
        b
    }
}

/// What the fields are after one more line, or what is wrong with it. A line is
/// `key: value`; a blank one and one with an unknown key change nothing.
pub open spec fn with_line(fields: PolicyFields, raw: Seq<char>) -> Result<
    PolicyFields,
    Seq<char>,
> {
    let line = trimmed(raw);
    if line.len() == 0 {
        Ok(fields)
    } else {
        match cut(line, ':') {
            None => Err("malformed policy line (no `:`)"@),
            Some((k, v)) => {
                let key = lowered(trimmed(k));
                let value = trimmed(v);
                if key == "version"@ {
                    if same_ignoring_case(value, "STSv1"@) {
                        Ok(PolicyFields { version_ok: true, ..fields })
                    } else {
                        Err("unsupported version `"@ + value + "`"@)
                    }
                } else if key == "mode"@ {
                    match mode_named(value) {
                        Some(mode) => Ok(PolicyFields { mode: Some(mode), ..fields }),
                        None => Err("unknown mode `"@ + lowered(value) + "`"@),
                    }
                } else if key == "max_age"@ {
                    match number(value, u64::MAX as nat) {
                        Some(n) => Ok(
                            PolicyFields { max_age: Some(lesser(n, MAX_AGE_CAP as nat)), ..fields },
                        ),
                        None => Err("invalid max_age `"@ + value + "`"@),
                    }
                } else if key == "mx"@ && value.len() > 0 {
                    Ok(PolicyFields { mx: fields.mx.push(lowered(value)), ..fields })
                } else {
                    Ok(fields)
                }
            },
        }
    }
}

/// What a sequence of lines says, or what is wrong with the first bad one.
pub open spec fn policy_fields(file: Seq<Seq<char>>) -> Result<PolicyFields, Seq<char>>
    decreases file.len(),
{
    if file.len() == 0 {
        Ok(
            PolicyFields {
                version_ok: false,
                mode: None,
                max_age: None,
                mx: Seq::empty(),
            },
        )
    } else {
        match policy_fields(file.drop_last()) {
            Ok(fields) => with_line(fields, file.last()),
            Err(reason) => Err(reason),
        }
    }
}

/// The policy that the fields make, or what is missing: a version, a mode, a
/// `max_age`, or an `mx` where the mode is not `none`.
pub open spec fn policy_of(fields: PolicyFields) -> Result<MtaStsPolicyView, Seq<char>> {
    if !fields.version_ok {
        Err("missing `version: STSv1`"@)
    } else if fields.mode is None {
        Err("missing `mode`"@)
    } else if fields.max_age is None {
        Err("missing `max_age`"@)
    } else if fields.mode->0 != MtaStsMode::NoPolicy && fields.mx.len() == 0 {
        Err("policy in enforce/testing mode lists no `mx`"@)
    } else {
        Ok(
            MtaStsPolicyView {
                mode: fields.mode->0,
                mx: fields.mx,
                max_age: fields.max_age->0,
            },
        )
    }
}

/// Whether a pattern allows a host: an exact match, or, for a pattern with a
/// leading `*.`, one label before the rest of it. Case and trailing dots of the
/// pattern do not count; the host is lowercased.
pub open spec fn pattern_allows(pattern: Seq<char>, host: Seq<char>) -> bool {
    let p = lowered(without_trailing_dots(pattern));
    if p.len() >= 2 && p[0] == '*' && p[1] == '.' {
        match cut(host, '.') {
            Some((label, rest)) => label.len() > 0 && rest == p.skip(2),
            None => false,
        }
    } else {
        p == host
    }
}

proof fn lemma_bad_line_stays(file: Seq<Seq<char>>, i: int)
    requires
        0 <= i <= file.len(),
        policy_fields(file.take(i)) is Err,
    ensures
        policy_fields(file) == policy_fields(file.take(i)),
    decreases file.len(),
{
    if i == file.len() {
        assert(file.take(i) =~= file);
    } else {
        assert(file.drop_last().take(i) =~= file.take(i));
        lemma_bad_line_stays(file.drop_last(), i);
    }
}

/// A malformed-policy error with a quoted value.
fn quoted_error(before: &str, value: &[char]) -> (r: NetworkError)
    ensures
        r@ == sts_record_error(before@ + value@ + "`"@),
{
    let value = string_of(value);
    let reason = concat3(before, value.as_str(), "`");
    NetworkError::record("MTA-STS", reason.as_str())
}

impl MtaStsPolicy {
    /// The policy that a file body holds, or what is wrong with it.
    pub open spec fn parsed(body: Seq<char>) -> Result<MtaStsPolicyView, NetworkErrorView> {
        match policy_fields(lines_of(body)) {
            Ok(fields) => match policy_of(fields) {
                Ok(policy) => Ok(policy),
                Err(reason) => Err(sts_record_error(reason)),
            },
            Err(reason) => Err(sts_record_error(reason)),
        }
    }

    /// Parse the policy file body. Lines are `key: value`, CRLF- or LF-separated
    /// (RFC 8461 §3.2); keys are matched case-insensitively and unknown keys are
    /// ignored. `version: STSv1`, `mode`, and `max_age` are required; at least
    /// one `mx` is required when the mode is `enforce` or `testing`.
    ///
    /// # Errors
    /// [`NetworkError::Record`] if the body is missing a required field, carries
    /// an unsupported version or mode, or a value does not parse.
    pub fn parse(body: &str) -> (r: Result<MtaStsPolicy, NetworkError>)
        ensures
            agrees(r, MtaStsPolicy::parsed(body@)),
    {
        let chars = chars_of(body);
        let file = lines(chars.as_slice());
        let ghost all = lines_of(body@);
        let mut version_ok = false;
        let mut mode: Option<MtaStsMode> = None;
        let mut max_age: Option<u64> = None;
        let mut mx: Vec<String> = Vec::new();
        let mut i: usize = 0;
        assert(texts(mx@) =~= Seq::empty());
        while i < file.len()
            invariant
                i <= file.len(),
                all == lines_of(body@),
                all == pieces(file@),
                policy_fields(all.take(i as int)) == Ok::<PolicyFields, Seq<char>>(
                    PolicyFields {
                        version_ok,
                        mode,
                        max_age: match max_age {
                            Some(n) => Some(n as nat),
                            None => None,
                        },
                        mx: texts(mx@),
                    },
                ),
            decreases file.len() - i,
        {
            proof {
                assert(all.take(i + 1).drop_last() =~= all.take(i as int));
                assert(all.take(i + 1).last() == file@[i as int]@);
                if policy_fields(all.take(i + 1)) is Err {
                    lemma_bad_line_stays(all, i + 1);
                }
            }
            let line = trim(file[i].as_slice());
            if line.len() > 0 {
                let (key, value) = match split_once(line, ':') {
                    Some((k, v)) => (to_lower(trim(k)), trim(v)),
                    None => {
                        return Err(
                            NetworkError::record("MTA-STS", "malformed policy line (no `:`)"),
                        );
                    },
                };
                let key = key.as_slice();
                if text_eq(key, "version") {
                    if !eq_ignore_case(value, "STSv1") {
                        return Err(quoted_error("unsupported version `", value));
                    }
                    version_ok = true;
                } else if text_eq(key, "mode") {
                    let low = to_lower(value);
                    if text_eq(low.as_slice(), "enforce") {
                        mode = Some(MtaStsMode::Enforce);
                    } else if text_eq(low.as_slice(), "testing") {
                        mode = Some(MtaStsMode::Testing);
                    } else if text_eq(low.as_slice(), "none") {
                        mode = Some(MtaStsMode::NoPolicy);
                    } else {
                        return Err(quoted_error("unknown mode `", low.as_slice()));
                    }
                } else if text_eq(key, "max_age") {
                    match parse_number(value, u64::MAX) {
                        Some(n) => {
                            max_age = Some(
                                if n <= MAX_AGE_CAP {
                                    n
                                } else {
                                    MAX_AGE_CAP
                                },
                            );
                        },
                        None => {
                            return Err(quoted_error("invalid max_age `", value));
                        },
                    }
                } else if text_eq(key, "mx") && value.len() > 0 {
                    let low = to_lower(value);
                    let host = string_of(low.as_slice());
                    let ghost before = mx@;
                    assert(texts(before.push(host)) =~= texts(before).push(host@));
                    mx.push(host);
                }
            }
            i = i + 1;
        }
        assert(all.take(all.len() as int) =~= all);
        if !version_ok {
            return Err(NetworkError::record("MTA-STS", "missing `version: STSv1`"));
        }
        let mode = match mode {
            Some(mode) => mode,
            None => {
                return Err(NetworkError::record("MTA-STS", "missing `mode`"));
            },
        };
        let max_age = match max_age {
            Some(n) => n,
            None => {
                return Err(NetworkError::record("MTA-STS", "missing `max_age`"));
            },
        };
        if mode != MtaStsMode::NoPolicy && mx.len() == 0 {
            return Err(
                NetworkError::record("MTA-STS", "policy in enforce/testing mode lists no `mx`"),
            );
        }
        Ok(MtaStsPolicy { mode, mx, max_age })
    }

    /// Whether `host` (an MX hostname) is authorized by this policy's `mx`
    /// patterns (RFC 8461 §4.1). Matching is case-insensitive and ignores a
    /// trailing root dot; a pattern with a leading `*.` matches exactly one label
    /// in that position: `*.example.com` matches `mx.example.com`, but neither
    /// `example.com` nor `a.b.example.com`.
    pub fn allows_mx(&self, host: &str) -> (r: bool)
        ensures
            r == self@.allows(host@),
    {
        let chars = chars_of(host);
        let name = to_lower(trim_trailing_dots(chars.as_slice()));
        if name.len() == 0 {
            return false;
        }
        let ghost patterns = self@.mx;
        let mut i: usize = 0;
        while i < self.mx.len()
            invariant
                i <= self.mx@.len(),
                patterns == texts(self.mx@),
                patterns == self@.mx,
                name@ == lowered(without_trailing_dots(host@)),
                name@.len() > 0,
                forall|j: int| 0 <= j < i ==> !pattern_allows(#[trigger] patterns[j], name@),
            decreases self.mx.len() - i,
        {
            assert(patterns[i as int] == self.mx@[i as int]@);
            if mx_pattern_matches(self.mx[i].as_str(), name.as_slice()) {
                assert(pattern_allows(patterns[i as int], name@));
                return true;
            }
            i = i + 1;
        }
        false
    }
}

impl MtaStsPolicyView {
    /// Whether the policy's patterns authorize a host: the host, lowercased and
    /// without trailing dots, is not empty and some pattern allows it.
    pub open spec fn allows(self, host: Seq<char>) -> bool {
        let name = lowered(without_trailing_dots(host));
        name.len() > 0 && exists|i: int|
            0 <= i < self.mx.len() && pattern_allows(#[trigger] self.mx[i], name)
    }
}

/// Match a single MTA-STS `mx` pattern against a host (host already lowercased).
fn mx_pattern_matches(pattern: &str, host: &[char]) -> (r: bool)
    ensures
        r == pattern_allows(pattern@, host@),
{
    let chars = chars_of(pattern);
    let p = to_lower(trim_trailing_dots(chars.as_slice()));
    let n = p.len();
    if n >= 2 && p[0] == '*' && p[1] == '.' {
        match split_once(host, '.') {
            Some((label, rest)) => label.len() > 0 && chars_eq(
                rest,
                slice_subrange(p.as_slice(), 2, n),
            ),
            None => false,
        }
    } else {
        chars_eq(p.as_slice(), host)
    }
}

// ---------------------------------------------------------------------------
// Discovery
// ---------------------------------------------------------------------------

/// What the fields of a discovery record have said so far: whether its version is
/// `STSv1`, and its id.
pub open spec fn discovery_fields(fields: Seq<Seq<char>>) -> (bool, Option<Seq<char>>)
    decreases fields.len(),
{
    if fields.len() == 0 {
        (false, None)
    } else {
        let (version_ok, id) = discovery_fields(fields.drop_last());
        match cut(trimmed(fields.last()), '=') {
            Some((k, v)) => if trimmed(k) == "v"@ {
                (same_ignoring_case(trimmed(v), "STSv1"@), id)
            } else if trimmed(k) == "id"@ {
                (version_ok, Some(trimmed(v)))
            } else {
                (version_ok, id)
            },
            None => (version_ok, id),
        }
    }
}

/// RFC 8461 §3.1 policy id syntax: `1*32(ALPHA / DIGIT)`.
pub open spec fn valid_id(id: Seq<char>) -> bool {
    0 < id.len() <= 32 && forall|i: int| 0 <= i < id.len() ==> alphanumeric(#[trigger] id[i])
}

/// The policy id that a discovery record gives.
pub open spec fn discovered_id(txt: Seq<char>) -> Option<Seq<char>> {
    let (version_ok, id) = discovery_fields(splits(txt, ';'));
    if id is Some && version_ok && valid_id(id->0) {
        id
    } else {
        None
    }
}

/// Whether a policy id has the right syntax.
fn is_valid_id(id: &[char]) -> (r: bool)
    ensures
        r == valid_id(id@),
{
    if id.len() == 0 || id.len() > 32 {
        return false;
    }
    let mut i: usize = 0;
    while i < id.len()
        invariant
            i <= id.len(),
            forall|j: int| 0 <= j < i ==> alphanumeric(#[trigger] id@[j]),
        decreases id.len() - i,
    {
        if !is_alphanumeric(id[i]) {
            return false;
        }
        i = i + 1;
    }
    true
}

/// Parse the MTA-STS discovery TXT record at `_mta-sts.<domain>` (RFC 8461 §3.1),
/// returning the policy `id` when the record is a valid `v=STSv1` record with a
/// well-formed id (`1*32(ALPHA / DIGIT)`). Malformed fields are skipped; an
/// absent version or id yields `None`.
pub fn parse_sts_txt(txt: &str) -> (r: Option<String>)
    ensures
        opt_view(r) == discovered_id(txt@),
{
    let chars = chars_of(txt);
    let fields = split(chars.as_slice(), ';');
    let ghost all = splits(txt@, ';');
    let mut version_ok = false;
    let mut id: Option<Vec<char>> = None;
    let mut i: usize = 0;
    while i < fields.len()
        invariant
            i <= fields.len(),
            all == pieces(fields@),
            discovery_fields(all.take(i as int)) == (
                version_ok,
                match id {
                    Some(id) => Some(id@),
                    None => None,
                },
            ),
        decreases fields.len() - i,
    {
        proof {
            assert(all.take(i + 1).drop_last() =~= all.take(i as int));
            assert(all.take(i + 1).last() == fields@[i as int]@);
        }
        if let Some((k, v)) = split_once(trim(fields[i].as_slice()), '=') {
            let key = trim(k);
            if text_eq(key, "v") {
                version_ok = eq_ignore_case(trim(v), "STSv1");
            } else if text_eq(key, "id") {
                id = Some(vstd::slice::slice_to_vec(trim(v)));
            }
        }
        i = i + 1;
    }
    assert(all.take(all.len() as int) =~= all);
    match id {
        Some(id) => if version_ok && is_valid_id(id.as_slice()) {
            Some(string_of(id.as_slice()))
        } else {
            None
        },
        None => None,
    }
}

// ---------------------------------------------------------------------------
// Laws
// ---------------------------------------------------------------------------

/// A name one label below another.
pub open spec fn one_label_below(label: Seq<char>, name: Seq<char>) -> Seq<char> {
    label + seq!['.'] + name
}

/// A pattern `*.<suffix>` allows exactly the hosts that are one label below the suffix:
/// neither the suffix itself nor a host two labels below it.
pub proof fn law_wildcard_is_one_label(suffix: Seq<char>, host: Seq<char>)
    requires
        suffix.len() > 0,
        suffix.last() != '.',
    ensures
        pattern_allows(seq!['*', '.'] + suffix, host) <==> exists|label: Seq<char>|
            label.len() > 0 && find(label, '.') is None && host == #[trigger] one_label_below(
                label,
                lowered(suffix),
            ),
{
    let pattern = seq!['*', '.'] + suffix;
    let p = lowered(pattern);
    assert(pattern.last() == suffix.last());
    assert(without_trailing_dots(pattern) == pattern);
    assert(p.skip(2) =~= lowered(suffix));
    if pattern_allows(pattern, host) {
        lemma_find(host, '.');
        let i = find(host, '.')->0;
        let label = host.take(i);
        lemma_find(label, '.');
        assert(host =~= one_label_below(label, host.skip(i + 1)));
    }
    assert forall|label: Seq<char>|
        label.len() > 0 && find(label, '.') is None && host == #[trigger] one_label_below(
            label,
            lowered(suffix),
        ) implies pattern_allows(pattern, host) by {
        lemma_find(label, '.');
        let i = label.len() as int;
        assert(host[i] == '.');
        assert forall|j: int| 0 <= j < i implies host[j] != '.' by {
            assert(host[j] == label[j]);
        }
        lemma_find_is(host, '.', i);
        assert(host.take(i) =~= label);
        assert(host.skip(i + 1) =~= lowered(suffix));
    }
}

/// A policy that parses is cached for no longer than the cap, and lists a mail exchange
/// where it is to be enforced or tested.
pub proof fn law_parsed_policy_is_capped_and_applies(body: Seq<char>)
    requires
        MtaStsPolicy::parsed(body) is Ok,
    ensures
        ({
            let policy = MtaStsPolicy::parsed(body)->Ok_0;
            policy.max_age <= MAX_AGE_CAP && (policy.mode != MtaStsMode::NoPolicy
                ==> policy.mx.len() > 0)
        }),
{
    lemma_age_is_capped(lines_of(body));
}

proof fn lemma_age_is_capped(file: Seq<Seq<char>>)
    ensures
        policy_fields(file) matches Ok(fields) ==> (fields.max_age matches Some(n) ==> n
            <= MAX_AGE_CAP),
    decreases file.len(),
{
    if file.len() > 0 {
        lemma_age_is_capped(file.drop_last());
    }
}

/// Whether a line has a key that no policy field has.
pub open spec fn unknown_key(line: Seq<char>) -> bool {
    cut(trimmed(line), ':') matches Some((k, v)) && ({
        let key = lowered(trimmed(k));
        key != "version"@ && key != "mode"@ && key != "max_age"@ && key != "mx"@
    })
}

/// A line with an unknown key at the end of a file leaves what the file parses to as it
/// is.
pub proof fn law_unknown_key_is_ignored(body: Seq<char>, line: Seq<char>)
    requires
        unknown_key(line),
        forall|i: int| 0 <= i < line.len() ==> line[i] != '\n',
    ensures
        MtaStsPolicy::parsed(body.push('\n') + line.push('\n')) == MtaStsPolicy::parsed(body),
{
    let ended = body.push('\n');
    lemma_ended_body(body);
    lemma_lines_of_append(ended, line.push('\n'));
    lemma_ended_line(line, Seq::empty());
    assert(line.push('\n') + Seq::empty() =~= line.push('\n'));
    assert(lines_of(Seq::empty()) =~= Seq::<Seq<char>>::empty());
    lemma_trimmed_without_cr(line);
    let before = lines_of(ended);
    let all = before + lines_of(line.push('\n'));
    assert(all =~= before.push(without_cr(line)));
    assert(all.drop_last() =~= before);
}

/// What an `mx` line lists, if a line is one: the value after its first colon, without
/// white space around it and lowercased. An empty value lists nothing.
pub open spec fn listed_by(line: Seq<char>) -> Seq<Seq<char>> {
    match cut(trimmed(line), ':') {
        Some((k, v)) => if lowered(trimmed(k)) == "mx"@ && trimmed(v).len() > 0 {
            seq![lowered(trimmed(v))]
        } else {
            Seq::empty()
        },
        None => Seq::empty(),
    }
}

/// What the `mx` lines of a file list, in order.
pub open spec fn listed(file: Seq<Seq<char>>) -> Seq<Seq<char>>
    decreases file.len(),
{
    if file.len() == 0 {
        Seq::empty()
    } else {
        listed(file.drop_last()) + listed_by(file.last())
    }
}

/// The patterns of a policy that parses are the values of its `mx` lines, all of them and in
/// order.
pub proof fn law_patterns_are_the_mx_lines(body: Seq<char>)
    requires
        MtaStsPolicy::parsed(body) is Ok,
    ensures
        MtaStsPolicy::parsed(body)->Ok_0.mx == listed(lines_of(body)),
{
    lemma_listed(lines_of(body));
}

proof fn lemma_listed(file: Seq<Seq<char>>)
    ensures
        policy_fields(file) matches Ok(fields) ==> fields.mx == listed(file),
    decreases file.len(),
{
    reveal_strlit("version");
    reveal_strlit("mode");
    reveal_strlit("max_age");
    reveal_strlit("mx");
    assert("mx"@[1] != "mode"@[1]);
    if file.len() > 0 {
        lemma_listed(file.drop_last());
        if let Ok(fields) = policy_fields(file) {
            let before = policy_fields(file.drop_last())->Ok_0;
            assert(fields.mx =~= before.mx + listed_by(file.last()));
        }
    }
}

/// Whether a value stands as it is after a key: on one line, with no white space around it.
pub open spec fn plain_value(value: Seq<char>) -> bool {
    &&& value.len() > 0
    &&& !white_space(value[0])
    &&& !white_space(value.last())
    &&& forall|i: int| 0 <= i < value.len() ==> value[i] != '\n'
}

/// A line `key: value`.
pub open spec fn policy_line(key: Seq<char>, value: Seq<char>) -> Seq<char> {
    key + seq![':', ' '] + value
}

/// A line `mx: host` at the end of a body that parses adds the host to the patterns, after
/// those that are there, and changes nothing else; the policy allows that host, whatever
/// case it is written in and with a dot at its end or not.
pub proof fn law_mx_line_adds_its_host(body: Seq<char>, host: Seq<char>)
    requires
        MtaStsPolicy::parsed(body) is Ok,
        plain_value(host),
    ensures
        ({
            let policy = MtaStsPolicy::parsed(body)->Ok_0;
            &&& MtaStsPolicy::parsed(body.push('\n') + policy_line("mx"@, host).push('\n'))
                matches Ok(longer)
            &&& longer.mode == policy.mode
            &&& longer.max_age == policy.max_age
            &&& longer.mx == policy.mx.push(lowered(host))
            &&& host[0] != '*' && host[0] != '.' ==> longer.allows(host) && longer.allows(
                lowered(host),
            ) && longer.allows(host.push('.'))
        }),
{
    reveal_strlit("version");
    reveal_strlit("mode");
    reveal_strlit("max_age");
    reveal_strlit("mx");
    let line = policy_line("mx"@, host);
    let before = MtaStsPolicy::parsed(body)->Ok_0;
    lemma_key_line("mx"@, host);
    assert("mx"@[1] != "mode"@[1]);
    lemma_last_line(body, line);
    let longer = MtaStsPolicy::parsed(body.push('\n') + line.push('\n'))->Ok_0;
    assert(longer.mx =~= before.mx.push(lowered(host)));
    if host[0] != '*' && host[0] != '.' {
        let pattern = lowered(host);
        let n = before.mx.len() as int;
        assert(longer.mx[n] == pattern);
        lemma_dots_leave_the_start(host);
        lemma_lower_char(host[0]);
        lemma_without_trailing_dots_lowered(host);
        let name = lowered(without_trailing_dots(host));
        lemma_lowered_twice(host);
        lemma_lowered_twice(without_trailing_dots(host));
        assert(host.push('.').drop_last() =~= host);
        assert(name[0] != '*');
        assert(pattern_allows(longer.mx[n], name));
    }
}

/// A `mode` line at the end of a body that parses sets the mode to the one it names, in any
/// case, and a `max_age` line the age, up to about a year; neither changes anything else. An
/// unknown mode and an age that is no number are refused.
pub proof fn law_last_line_of_a_key_counts(
    body: Seq<char>,
    mode: Seq<char>,
    age: nat,
    other: Seq<char>,
)
    requires
        MtaStsPolicy::parsed(body) is Ok,
        MtaStsPolicy::parsed(body)->Ok_0.mx.len() > 0,
        age <= u64::MAX,
        plain_value(mode),
        plain_value(other),
    ensures
        ({
            let policy = MtaStsPolicy::parsed(body)->Ok_0;
            let moded = MtaStsPolicy::parsed(
                body.push('\n') + policy_line("mode"@, mode).push('\n'),
            );
            let aged = MtaStsPolicy::parsed(
                body.push('\n') + policy_line("max_age"@, decimal(age)).push('\n'),
            );
            let misaged = MtaStsPolicy::parsed(
                body.push('\n') + policy_line("max_age"@, other).push('\n'),
            );
            let versioned = MtaStsPolicy::parsed(
                body.push('\n') + policy_line("version"@, other).push('\n'),
            );
            &&& lowered(mode) == "enforce"@ ==> moded == Ok::<_, NetworkErrorView>(
                MtaStsPolicyView { mode: MtaStsMode::Enforce, ..policy },
            )
            &&& lowered(mode) == "testing"@ ==> moded == Ok::<_, NetworkErrorView>(
                MtaStsPolicyView { mode: MtaStsMode::Testing, ..policy },
            )
            &&& lowered(mode) == "none"@ ==> moded == Ok::<_, NetworkErrorView>(
                MtaStsPolicyView { mode: MtaStsMode::NoPolicy, ..policy },
            )
            &&& lowered(mode) != "enforce"@ && lowered(mode) != "testing"@ && lowered(mode)
                != "none"@ ==> moded is Err
            &&& aged == Ok::<_, NetworkErrorView>(
                MtaStsPolicyView {
                    max_age: if age <= 31_557_600 {
                        age
                    } else {
                        31_557_600
                    },
                    ..policy
                },
            )
            &&& number(other, u64::MAX as nat) is None ==> misaged is Err
            &&& lowered(other) == lowered("STSv1"@) ==> versioned == Ok::<_, NetworkErrorView>(
                policy,
            )
            &&& lowered(other) != lowered("STSv1"@) ==> versioned is Err
        }),
{
    reveal_strlit("version");
    reveal_strlit("mode");
    reveal_strlit("max_age");
    reveal_strlit("mx");
    reveal_strlit("enforce");
    reveal_strlit("testing");
    reveal_strlit("none");
    assert("enforce"@[0] != "testing"@[0]);
    assert("none"@.len() == 4);
    let digits = decimal(age);
    lemma_decimal(age);
    lemma_number_of_decimal(age, u64::MAX as nat);
    assert(digit(digits[0]) && digit(digits.last()));
    assert("version"@.len() == 7 && "max_age"@.len() == 7 && "version"@[0] != "max_age"@[0]);
    lemma_key_line("mode"@, mode);
    lemma_key_line("max_age"@, digits);
    lemma_key_line("max_age"@, other);
    lemma_key_line("version"@, other);
    lemma_last_line(body, policy_line("mode"@, mode));
    lemma_last_line(body, policy_line("max_age"@, digits));
    lemma_last_line(body, policy_line("max_age"@, other));
    lemma_last_line(body, policy_line("version"@, other));
}

/// A policy file that gives a version, a mode, an age and a mail exchange is the policy that
/// these make; the exchange is what the policy allows.
pub proof fn law_four_lines_make_a_policy(age: nat, host: Seq<char>)
    requires
        age <= 31_557_600,
        plain_value(host),
    ensures
        MtaStsPolicy::parsed(
            policy_line("version"@, "STSv1"@).push('\n') + policy_line(
                "mode"@,
                "enforce"@,
            ).push('\n') + policy_line("max_age"@, decimal(age)).push('\n') + policy_line(
                "mx"@,
                host,
            ).push('\n'),
        ) == Ok::<_, NetworkErrorView>(
            MtaStsPolicyView { mode: MtaStsMode::Enforce, mx: seq![lowered(host)], max_age: age },
        ),
{
    reveal_strlit("version");
    reveal_strlit("mode");
    reveal_strlit("max_age");
    reveal_strlit("mx");
    reveal_strlit("enforce");
    reveal_strlit("testing");
    reveal_strlit("STSv1");
    let digits = decimal(age);
    lemma_decimal(age);
    lemma_number_of_decimal(age, u64::MAX as nat);
    assert(digit(digits[0]) && digit(digits.last()));
    assert("version"@.len() == 7 && "max_age"@.len() == 7 && "version"@[0] != "max_age"@[0]);
    assert("mx"@[1] != "mode"@[1]);
    lemma_key_line("version"@, "STSv1"@);
    lemma_key_line("mode"@, "enforce"@);
    lemma_key_line("max_age"@, digits);
    lemma_key_line("mx"@, host);
    let a = policy_line("version"@, "STSv1"@);
    let b = policy_line("mode"@, "enforce"@);
    let c = policy_line("max_age"@, digits);
    let d = policy_line("mx"@, host);
    let none = Seq::<char>::empty();
    assert(lines_of(none) =~= Seq::<Seq<char>>::empty());
    assert(none + a.push('\n') =~= a.push('\n'));
    lemma_next_line(none, a);
    lemma_next_line(a.push('\n'), b);
    lemma_next_line(a.push('\n') + b.push('\n'), c);
    lemma_next_line(a.push('\n') + b.push('\n') + c.push('\n'), d);
    lemma_lowered_literals();
    assert(Seq::<Seq<char>>::empty().push(lowered(host)) =~= seq![lowered(host)]);
}

/// A policy without a version, a mode, an age or, where it is to be enforced or tested, a
/// mail exchange is refused: a body whose lines have none with such a key does not parse.
pub proof fn law_policy_needs_its_lines(body: Seq<char>)
    requires
        MtaStsPolicy::parsed(body) is Ok,
    ensures
        has_key(lines_of(body), "version"@),
        has_key(lines_of(body), "mode"@),
        has_key(lines_of(body), "max_age"@),
        MtaStsPolicy::parsed(body)->Ok_0.mode != MtaStsMode::NoPolicy ==> has_key(
            lines_of(body),
            "mx"@,
        ),
{
    lemma_has_keys(lines_of(body));
}

/// Whether a line can stand in a policy: it is blank, or it has a colon and, where its key is
/// `version`, `mode` or `max_age`, a value of that key.
pub open spec fn acceptable(line: Seq<char>) -> bool {
    trimmed(line).len() == 0 || match cut(trimmed(line), ':') {
        None => false,
        Some((k, v)) => {
            let key = lowered(trimmed(k));
            let value = trimmed(v);
            &&& key == "version"@ ==> lowered(value) == lowered("STSv1"@)
            &&& key == "mode"@ ==> lowered(value) == "enforce"@ || lowered(value) == "testing"@
                || lowered(value) == "none"@
            &&& key == "max_age"@ ==> number(value, u64::MAX as nat) is Some
        },
    }
}

/// One line that cannot stand in a policy spoils it, wherever it is; a body all of whose
/// lines can, and in which a version, a mode, an age and a mail exchange are given, is a
/// policy.
pub proof fn law_every_line_must_be_acceptable(body: Seq<char>)
    ensures
        MtaStsPolicy::parsed(body) is Ok ==> forall|i: int|
            0 <= i < lines_of(body).len() ==> acceptable(#[trigger] lines_of(body)[i]),
        (forall|i: int| 0 <= i < lines_of(body).len() ==> acceptable(#[trigger] lines_of(body)[i]))
            && has_key(lines_of(body), "version"@) && has_key(lines_of(body), "mode"@) && has_key(
            lines_of(body),
            "max_age"@,
        ) && listed(lines_of(body)).len() > 0 ==> MtaStsPolicy::parsed(body) is Ok,
{
    lemma_acceptable(lines_of(body));
    lemma_listed(lines_of(body));
}

proof fn lemma_acceptable(file: Seq<Seq<char>>)
    ensures
        policy_fields(file) is Ok <==> forall|i: int|
            0 <= i < file.len() ==> acceptable(#[trigger] file[i]),
        policy_fields(file) matches Ok(fields) ==> (has_key(file, "version"@) ==> fields.version_ok)
            && (has_key(file, "mode"@) ==> fields.mode is Some) && (has_key(file, "max_age"@)
            ==> fields.max_age is Some),
    decreases file.len(),
{
    reveal_strlit("version");
    reveal_strlit("mode");
    reveal_strlit("max_age");
    reveal_strlit("mx");
    assert("version"@.len() == 7 && "max_age"@.len() == 7 && "version"@[0] != "max_age"@[0]);
    assert("mode"@.len() == 4 && "mx"@.len() == 2);
    if file.len() > 0 {
        let front = file.drop_last();
        lemma_acceptable(front);
        assert(file[file.len() - 1] == file.last());
        assert(forall|i: int| 0 <= i < front.len() ==> front[i] == file[i]);
        if policy_fields(file) is Ok {
            assert forall|i: int| 0 <= i < file.len() implies acceptable(#[trigger] file[i]) by {
                if i < front.len() {
                    assert(acceptable(front[i]));
                }
            }
            assert forall|key: Seq<char>| has_key(file, key) implies has_key(front, key) || keyed(
                file.last(),
                key,
            ) by {
                let i = choose|i: int| 0 <= i < file.len() && keyed(#[trigger] file[i], key);
                if i < front.len() {
                    assert(keyed(front[i], key));
                }
            }
        }
        if forall|i: int| 0 <= i < file.len() ==> acceptable(#[trigger] file[i]) {
            assert forall|i: int| 0 <= i < front.len() implies acceptable(#[trigger] front[i]) by {
                assert(acceptable(file[i]));
            }
            assert(acceptable(file[file.len() - 1]));
        }
    }
}

/// Whether one of the lines has a key.
pub open spec fn has_key(file: Seq<Seq<char>>, key: Seq<char>) -> bool {
    exists|i: int| 0 <= i < file.len() && keyed(#[trigger] file[i], key)
}

/// Whether a line has a key before its first colon, in any case.
pub open spec fn keyed(line: Seq<char>, key: Seq<char>) -> bool {
    cut(trimmed(line), ':') matches Some((k, v)) && lowered(trimmed(k)) == key
}

proof fn lemma_has_keys(file: Seq<Seq<char>>)
    ensures
        policy_fields(file) matches Ok(fields) ==> (fields.version_ok ==> has_key(
            file,
            "version"@,
        )) && (fields.mode is Some ==> has_key(file, "mode"@)) && (fields.max_age is Some
            ==> has_key(file, "max_age"@)) && (fields.mx.len() > 0 ==> has_key(file, "mx"@)),
    decreases file.len(),
{
    if file.len() > 0 {
        let front = file.drop_last();
        lemma_has_keys(front);
        assert(file[file.len() - 1] == file.last());
        assert forall|key: Seq<char>| has_key(front, key) implies has_key(file, key) by {
            let i = choose|i: int| 0 <= i < front.len() && keyed(#[trigger] front[i], key);
            assert(keyed(file[i], key));
        }
    }
}

proof fn lemma_lowered_literals()
    ensures
        lowered("enforce"@) == "enforce"@,
{
    reveal_strlit("enforce");
    assert(lowered("enforce"@) =~= "enforce"@);
}

proof fn lemma_lowered_twice(s: Seq<char>)
    ensures
        lowered(lowered(s)) == lowered(s),
{
    assert forall|i: int| 0 <= i < s.len() implies lowered(lowered(s))[i] == lowered(s)[i] by {
        lemma_lower_char(s[i]);
    }
    assert(lowered(lowered(s)) =~= lowered(s));
}

proof fn lemma_dots_leave_the_start(s: Seq<char>)
    requires
        s.len() > 0,
        s[0] != '.',
    ensures
        without_trailing_dots(s).len() > 0,
        without_trailing_dots(s)[0] == s[0],
    decreases s.len(),
{
    if s.last() == '.' {
        lemma_dots_leave_the_start(s.drop_last());
    }
}

/// What a line `key: value` is cut into.
proof fn lemma_key_line(key: Seq<char>, value: Seq<char>)
    requires
        key == "version"@ || key == "mode"@ || key == "max_age"@ || key == "mx"@,
        plain_value(value),
    ensures
        ({
            let line = policy_line(key, value);
            &&& trimmed(line) == line
            &&& trimmed(without_cr(line)) == line
            &&& cut(line, ':') == Some((key, seq![' '] + value))
            &&& lowered(trimmed(key)) == key
            &&& trimmed(seq![' '] + value) == value
            &&& trimmed(value) == value
            &&& forall|i: int| 0 <= i < line.len() ==> line[i] != '\n'
        }),
{
    reveal_strlit("version");
    reveal_strlit("mode");
    reveal_strlit("max_age");
    reveal_strlit("mx");
    let line = policy_line(key, value);
    let n = key.len() as int;
    assert(line[n] == ':');
    assert(line[0] == key[0]);
    assert(line.last() == value.last());
    assert forall|j: int| 0 <= j < n implies line[j] != ':' by {
        assert(line[j] == key[j]);
    }
    lemma_find_is(line, ':', n);
    assert(line.take(n) =~= key);
    let tail = seq![' '] + value;
    assert(line.skip(n + 1) =~= tail);
    assert(lowered(key) =~= key);
    assert(tail.drop_first() =~= value);
    assert(trimmed_start(value) == value);
    assert(trimmed_start(tail) == value) by {
        assert(tail[0] == ' ');
        assert(white_space(' '));
    }
    assert(!white_space(key[0]) && !white_space(key.last()));
    assert(trimmed(line) == line);
    assert(!white_space(line.last()));
    assert(without_cr(line) == line);
    assert forall|i: int| 0 <= i < line.len() implies line[i] != '\n' by {
        if i < n {
            assert(line[i] == key[i]);
        } else if i >= n + 2 {
            assert(line[i] == value[i - n - 2]);
        }
    }
}

proof fn lemma_next_line(ended: Seq<char>, line: Seq<char>)
    requires
        ended.len() == 0 || ended.last() == '\n',
        forall|i: int| 0 <= i < line.len() ==> line[i] != '\n',
    ensures
        policy_fields(lines_of(ended + line.push('\n'))) == match policy_fields(lines_of(ended)) {
            Ok(fields) => with_line(fields, without_cr(line)),
            Err(reason) => Err(reason),
        },
{
    if ended.len() == 0 {
        assert(ended + line.push('\n') =~= line.push('\n'));
        assert(lines_of(ended) =~= Seq::<Seq<char>>::empty());
    } else {
        lemma_lines_of_append(ended, line.push('\n'));
    }
    lemma_ended_line(line, Seq::empty());
    assert(line.push('\n') + Seq::empty() =~= line.push('\n'));
    assert(lines_of(Seq::empty()) =~= Seq::<Seq<char>>::empty());
    let before = lines_of(ended);
    let all = before + lines_of(line.push('\n'));
    assert(all =~= before.push(without_cr(line)));
    assert(all.drop_last() =~= before);
    assert(lines_of(ended + line.push('\n')) =~= all);
}

proof fn lemma_last_line(body: Seq<char>, line: Seq<char>)
    requires
        forall|i: int| 0 <= i < line.len() ==> line[i] != '\n',
    ensures
        policy_fields(lines_of(body.push('\n') + line.push('\n'))) == match policy_fields(
            lines_of(body),
        ) {
            Ok(fields) => with_line(fields, without_cr(line)),
            Err(reason) => Err(reason),
        },
{
    lemma_ended_body(body);
    lemma_next_line(body.push('\n'), line);
}

/// A text with every CRLF made a line feed.
pub open spec fn lf_only(s: Seq<char>) -> Seq<char>
    decreases s.len(),
{
    if s.len() == 0 {
        Seq::empty()
    } else if s.len() >= 2 && s[0] == '\r' && s[1] == '\n' {
        seq!['\n'] + lf_only(s.skip(2))
    } else {
        seq![s[0]] + lf_only(s.drop_first())
    }
}

/// Whether the lines of a file end in CRLF or in a line feed does not count.
pub proof fn law_line_ends_do_not_count(body: Seq<char>)
    ensures
        MtaStsPolicy::parsed(lf_only(body)) == MtaStsPolicy::parsed(body),
{
    lemma_lines_of_lf_only(body);
    lemma_same_trimmed(lines_of(lf_only(body)), lines_of(body));
}

proof fn lemma_trimmed_without_cr(line: Seq<char>)
    ensures
        trimmed(without_cr(line)) == trimmed(line),
{
    if line.len() > 0 && line.last() == '\r' {
        lemma_trimmed_push(line.drop_last(), '\r');
        assert(line.drop_last().push('\r') =~= line);
    }
}

/// Only what trimming leaves of the lines counts.
proof fn lemma_same_trimmed(a: Seq<Seq<char>>, b: Seq<Seq<char>>)
    requires
        a.len() == b.len(),
        forall|i: int| 0 <= i < a.len() ==> trimmed(#[trigger] a[i]) == trimmed(b[i]),
    ensures
        policy_fields(a) == policy_fields(b),
    decreases a.len(),
{
    if a.len() > 0 {
        assert(trimmed(a[a.len() - 1]) == trimmed(b[b.len() - 1]));
        assert forall|i: int| 0 <= i < a.drop_last().len() implies trimmed(
            #[trigger] a.drop_last()[i],
        ) == trimmed(b.drop_last()[i]) by {
            assert(trimmed(a[i]) == trimmed(b[i]));
        }
        lemma_same_trimmed(a.drop_last(), b.drop_last());
    }
}

/// A line that is ended comes first of the lines.
proof fn lemma_ended_line(line: Seq<char>, rest: Seq<char>)
    requires
        forall|i: int| 0 <= i < line.len() ==> line[i] != '\n',
    ensures
        lines_of(line.push('\n') + rest) == seq![without_cr(line)] + lines_of(rest),
{
    let all = line.push('\n') + rest;
    let n = line.len() as int;
    assert(all[n] == '\n');
    assert forall|j: int| 0 <= j < n implies all[j] != '\n' by {
        assert(all[j] == line[j]);
    }
    lemma_find_is(all, '\n', n);
    assert(all.take(n) =~= line);
    assert(all.skip(n + 1) =~= rest);
}

/// A line feed at the end of a file leaves what its lines say as it is.
proof fn lemma_ended_body(body: Seq<char>)
    ensures
        policy_fields(lines_of(body.push('\n'))) == policy_fields(lines_of(body)),
{
    let a = lines_of(body);
    let b = lines_of(body.push('\n'));
    lemma_ended_lines(body);
    if b == a.push(Seq::empty()) {
        assert(b.drop_last() =~= a);
        assert(trimmed(Seq::<char>::empty()) =~= Seq::empty());
    } else {
        lemma_trimmed_without_cr(a.last());
        lemma_same_trimmed(b, a);
    }
}

/// A line feed at the end of a text adds an empty line, or ends the last one.
proof fn lemma_ended_lines(s: Seq<char>)
    ensures
        ({
            let a = lines_of(s);
            let b = lines_of(s.push('\n'));
            b == a.push(Seq::empty()) || (a.len() > 0 && b == a.drop_last().push(
                without_cr(a.last()),
            ))
        }),
    decreases s.len(),
{
    lemma_find(s, '\n');
    match find(s, '\n') {
        Some(i) => {
            let line = s.take(i);
            let rest = s.skip(i + 1);
            lemma_ended_line(line, rest);
            assert(line.push('\n') + rest =~= s);
            lemma_ended_line(line, rest.push('\n'));
            assert(line.push('\n') + rest.push('\n') =~= s.push('\n'));
            lemma_ended_lines(rest);
            let first = seq![without_cr(line)];
            let a = lines_of(rest);
            if lines_of(rest.push('\n')) == a.push(Seq::empty()) {
                assert(first + a.push(Seq::empty()) =~= (first + a).push(Seq::empty()));
            } else {
                let last = without_cr(a.last());
                assert((first + a).last() == a.last());
                assert(first + a.drop_last().push(last) =~= (first + a).drop_last().push(last));
            }
        },
        None => {
            lemma_ended_line(s, Seq::empty());
            assert(s.push('\n') + Seq::empty() =~= s.push('\n'));
            assert(lines_of(Seq::empty()) =~= Seq::<Seq<char>>::empty());
            if s.len() == 0 {
                assert(without_cr(s) =~= Seq::empty());
                assert(seq![without_cr(s)] + Seq::<Seq<char>>::empty() =~= lines_of(s).push(
                    Seq::empty(),
                ));
            } else {
                assert(lines_of(s) =~= seq![s]);
                assert(seq![without_cr(s)] + Seq::<Seq<char>>::empty() =~= lines_of(
                    s,
                ).drop_last().push(without_cr(s)));
            }
        },
    }
}

/// Making CRLFs line feeds, line by line.
proof fn lemma_lf_only_line(line: Seq<char>, rest: Seq<char>)
    requires
        forall|i: int| 0 <= i < line.len() ==> line[i] != '\n',
    ensures
        lf_only(line.push('\n') + rest) == without_cr(line).push('\n') + lf_only(rest),
    decreases line.len(),
{
    let all = line.push('\n') + rest;
    if line.len() == 0 {
        assert(all.drop_first() =~= rest);
        assert(seq!['\n'] + lf_only(rest) =~= without_cr(line).push('\n') + lf_only(rest));
    } else if line.len() == 1 && line[0] == '\r' {
        assert(all[1] == '\n');
        assert(all.skip(2) =~= rest);
        assert(without_cr(line) =~= Seq::empty());
        assert(seq!['\n'] + lf_only(rest) =~= without_cr(line).push('\n') + lf_only(rest));
    } else {
        let tail = line.drop_first();
        assert(all[0] == line[0]);
        if line.len() > 1 {
            assert(all[1] == line[1]);
        }
        assert(all.drop_first() =~= tail.push('\n') + rest);
        lemma_lf_only_line(tail, rest);
        assert(seq![line[0]] + without_cr(tail) =~= without_cr(line));
        assert(seq![line[0]] + (without_cr(tail).push('\n') + lf_only(rest)) =~= without_cr(
            line,
        ).push('\n') + lf_only(rest));
    }
}

/// A text without line feeds has no CRLF.
proof fn lemma_lf_only_none(s: Seq<char>)
    requires
        forall|i: int| 0 <= i < s.len() ==> s[i] != '\n',
    ensures
        lf_only(s) == s,
    decreases s.len(),
{
    if s.len() > 0 {
        if s.len() >= 2 {
            assert(s[1] != '\n');
        }
        lemma_lf_only_none(s.drop_first());
        assert(seq![s[0]] + s.drop_first() =~= s);
    } else {
        assert(lf_only(s) =~= s);
    }
}

proof fn lemma_lines_of_lf_only(s: Seq<char>)
    ensures
        lines_of(lf_only(s)).len() == lines_of(s).len(),
        forall|i: int|
            0 <= i < lines_of(s).len() ==> trimmed(#[trigger] lines_of(lf_only(s))[i]) == trimmed(
                lines_of(s)[i],
            ),
    decreases s.len(),
{
    lemma_find(s, '\n');
    match find(s, '\n') {
        Some(i) => {
            let line = s.take(i);
            let rest = s.skip(i + 1);
            assert(line.push('\n') + rest =~= s);
            lemma_ended_line(line, rest);
            lemma_lf_only_line(line, rest);
            lemma_ended_line(without_cr(line), lf_only(rest));
            lemma_trimmed_without_cr(without_cr(line));
            lemma_lines_of_lf_only(rest);
            assert forall|k: int| 0 <= k < lines_of(s).len() implies trimmed(
                #[trigger] lines_of(lf_only(s))[k],
            ) == trimmed(lines_of(s)[k]) by {
                if k > 0 {
                    assert(lines_of(lf_only(s))[k] == lines_of(lf_only(rest))[k - 1]);
                    assert(lines_of(s)[k] == lines_of(rest)[k - 1]);
                }
            }
        },
        None => {
            lemma_lf_only_none(s);
        },
    }
}

} // verus!
