//! SPF record parsing (RFC 7208 §4–§6): a `v=spf1` record is a sequence of
//! qualified mechanisms (directives) plus optional modifiers (`redirect`, `exp`).
//!
//! Parsing is deliberately total: a syntactically malformed record yields
//! [`NetworkError::Record`], which the evaluator maps to `PermError` per §4.6.

use vstd::prelude::*;
use vstd::slice::slice_subrange;

use crate::bytes::find_in;
use crate::ip::{ipv4_value, ipv6_value, Ipv4Addr, Ipv6Addr};
use crate::network::error::{agrees, NetworkError, NetworkErrorView};
use crate::text::{
    alphabetic, alphanumeric, chars_of, concat3, cut, decimal, eq_ignore_case, find, find_char,
    find_double, is_alphabetic, is_alphanumeric, lowered, number, opt_view, parse_number, pieces,
    same_ignoring_case, split_once, split_words, string_of, text_eq, to_decimal, to_lower, words,
};

verus! {

/// The qualifier prefixing a mechanism, which determines the result when it
/// matches.
#[derive(Debug, Clone, Copy, PartialEq, Eq, Structural)]
pub enum Qualifier {
    /// `+` (the default): `Pass`.
    Pass,
    /// `-`: `Fail`.
    Fail,
    /// `~`: `SoftFail`.
    SoftFail,
    /// `?`: `Neutral`.
    Neutral,
}

impl Qualifier {
    /// The qualifier that a character stands for.
    pub open spec fn of(c: char) -> Option<Qualifier> {
        if c == '+' {
            Some(Qualifier::Pass)
        } else if c == '-' {
            Some(Qualifier::Fail)
        } else if c == '~' {
            Some(Qualifier::SoftFail)
        } else if c == '?' {
            Some(Qualifier::Neutral)
        } else {
            None
        }
    }

    fn from_char(c: char) -> (r: Option<Qualifier>)
        ensures
            r == Qualifier::of(c),
    {
        match c {
            '+' => Some(Qualifier::Pass),
            '-' => Some(Qualifier::Fail),
            '~' => Some(Qualifier::SoftFail),
            '?' => Some(Qualifier::Neutral),
            _ => None,
        }
    }
}

/// One SPF mechanism (RFC 7208 §5). Domain-specs may contain macros, expanded at
/// evaluation time, so they are kept as raw strings here.
#[derive(Debug, Clone, PartialEq, Eq)]
pub enum Mechanism {
    /// `all`: always matches.
    All,
    /// `ip4:<network>[/prefix]`.
    Ip4 {
        /// The network address.
        net: Ipv4Addr,
        /// The CIDR prefix length (default 32).
        prefix: u8,
    },
    /// `ip6:<network>[/prefix]`.
    Ip6 {
        /// The network address.
        net: Ipv6Addr,
        /// The CIDR prefix length (default 128).
        prefix: u8,
    },
    /// `a[:domain][/v4][//v6]`.
    A {
        /// Target domain-spec (`None`: the current domain).
        domain: Option<String>,
        /// IPv4 CIDR length to match within (default 32).
        v4: u8,
        /// IPv6 CIDR length to match within (default 128).
        v6: u8,
    },
    /// `mx[:domain][/v4][//v6]`.
    Mx {
        /// Target domain-spec (`None`: the current domain).
        domain: Option<String>,
        /// IPv4 CIDR length (default 32).
        v4: u8,
        /// IPv6 CIDR length (default 128).
        v6: u8,
    },
    /// `include:<domain-spec>`: recursively evaluate another domain's policy.
    Include(String),
    /// `exists:<domain-spec>`: matches if the domain has any A record.
    Exists(String),
    /// `ptr[:domain]`: deprecated (RFC 7208 §5.5); still parsed and evaluated.
    Ptr(Option<String>),
}

/// What a [`Mechanism`] says.
pub enum MechanismView {
    All,
    Ip4 { net: Ipv4Addr, prefix: u8 },
    Ip6 { net: Ipv6Addr, prefix: u8 },
    A { domain: Option<Seq<char>>, v4: u8, v6: u8 },
    Mx { domain: Option<Seq<char>>, v4: u8, v6: u8 },
    Include(Seq<char>),
    Exists(Seq<char>),
    Ptr(Option<Seq<char>>),
}

impl View for Mechanism {
    type V = MechanismView;

    open spec fn view(&self) -> MechanismView {
        match self {
            Mechanism::All => MechanismView::All,
            Mechanism::Ip4 { net, prefix } => MechanismView::Ip4 { net: *net, prefix: *prefix },
            Mechanism::Ip6 { net, prefix } => MechanismView::Ip6 { net: *net, prefix: *prefix },
            Mechanism::A { domain, v4, v6 } => MechanismView::A {
                domain: opt_view(*domain),
                v4: *v4,
                v6: *v6,
            },
            Mechanism::Mx { domain, v4, v6 } => MechanismView::Mx {
                domain: opt_view(*domain),
                v4: *v4,
                v6: *v6,
            },
            Mechanism::Include(spec) => MechanismView::Include(spec@),
            Mechanism::Exists(spec) => MechanismView::Exists(spec@),
            Mechanism::Ptr(domain) => MechanismView::Ptr(opt_view(*domain)),
        }
    }
}

/// A qualified mechanism.
#[derive(Debug, Clone, PartialEq, Eq)]
pub struct Directive {
    /// The qualifier (default `+`, `Pass`).
    pub qualifier: Qualifier,
    /// The mechanism to test.
    pub mechanism: Mechanism,
}

/// What a [`Directive`] says.
pub struct DirectiveView {
    pub qualifier: Qualifier,
    pub mechanism: MechanismView,
}

impl View for Directive {
    type V = DirectiveView;

    open spec fn view(&self) -> DirectiveView {
        DirectiveView { qualifier: self.qualifier, mechanism: self.mechanism@ }
    }
}

/// The views of a sequence of directives.
pub open spec fn directive_views(directives: Seq<Directive>) -> Seq<DirectiveView> {
    directives.map_values(|d: Directive| d@)
}

/// A parsed `v=spf1` record.
#[derive(Debug, Clone, PartialEq, Eq)]
pub struct SpfRecord {
    /// Directives in evaluation order (first match wins).
    pub directives: Vec<Directive>,
    /// `redirect=` modifier target, applied only if no directive matches (§6.1).
    pub redirect: Option<String>,
}

/// What an [`SpfRecord`] says.
pub struct SpfRecordView {
    pub directives: Seq<DirectiveView>,
    pub redirect: Option<Seq<char>>,
}

impl View for SpfRecord {
    type V = SpfRecordView;

    open spec fn view(&self) -> SpfRecordView {
        SpfRecordView {
            directives: directive_views(self.directives@),
            redirect: opt_view(self.redirect),
        }
    }
}

// ---------------------------------------------------------------------------
// Grammar
// ---------------------------------------------------------------------------

/// A malformed-SPF-record error.
pub open spec fn spf_error(reason: Seq<char>) -> NetworkErrorView {
    NetworkErrorView::Record { kind: "SPF"@, reason }
}

/// A CIDR prefix length of at most `max`, or what is wrong with it.
pub open spec fn prefix_of(p: Seq<char>, max: nat) -> Result<u8, Seq<char>> {
    match number(p, u8::MAX as nat) {
        None => Err("bad CIDR prefix `"@ + p + "`"@),
        Some(n) => if n > max {
            Err("CIDR prefix "@ + decimal(n) + " exceeds "@ + decimal(max))
        } else {
            Ok(n as u8)
        },
    }
}

/// The address and prefix parts of an `addr[/prefix]` specification, the prefix
/// being `max` where it is not given.
pub open spec fn cidr_parts(spec: Seq<char>, max: nat) -> (Seq<char>, Result<u8, Seq<char>>) {
    match cut(spec, '/') {
        Some((addr, p)) => (addr, prefix_of(p, max)),
        None => (spec, Ok(max as u8)),
    }
}

/// The network of an `ip4` specification.
pub open spec fn ip4_of(spec: Seq<char>) -> Result<MechanismView, Seq<char>> {
    let (addr, prefix) = cidr_parts(spec, 32);
    match prefix {
        Err(reason) => Err(reason),
        Ok(prefix) => match ipv4_value(addr) {
            Some(bits) => Ok(
                MechanismView::Ip4 { net: Ipv4Addr { bits: bits as u32 }, prefix },
            ),
            None => Err("bad ip4 address `"@ + addr + "`"@),
        },
    }
}

/// The network of an `ip6` specification.
pub open spec fn ip6_of(spec: Seq<char>) -> Result<MechanismView, Seq<char>> {
    let (addr, prefix) = cidr_parts(spec, 128);
    match prefix {
        Err(reason) => Err(reason),
        Ok(prefix) => match ipv6_value(addr) {
            Some(bits) => Ok(
                MechanismView::Ip6 { net: Ipv6Addr { bits: bits as u128 }, prefix },
            ),
            None => Err("bad ip6 address `"@ + addr + "`"@),
        },
    }
}

/// The two lengths of a dual-cidr-length block: nothing, `/v4`, `//v6`, or
/// `/v4//v6`.
pub open spec fn dual_cidr_of(s: Seq<char>) -> Result<(u8, u8), Seq<char>> {
    let (v4_part, v6_part) = match find_in(s, seq!['/', '/']) {
        Some(i) => (s.take(i), Some(s.skip(i + 2))),
        None => (s, None),
    };
    let v4 = if v4_part.len() > 1 && v4_part[0] == '/' {
        prefix_of(v4_part.skip(1), 32)
    } else {
        Ok(32u8)
    };
    let v6 = match v6_part {
        Some(p) => prefix_of(p, 128),
        None => Ok(128u8),
    };
    match (v4, v6) {
        (Err(reason), _) => Err(reason),
        (Ok(_), Err(reason)) => Err(reason),
        (Ok(v4), Ok(v6)) => Ok((v4, v6)),
    }
}

/// The domain and lengths of the `[domain][/v4][//v6]` tail of an `a` or `mx`
/// mechanism.
pub open spec fn domain_and_cidr_of(rest: Option<Seq<char>>) -> Result<
    (Option<Seq<char>>, u8, u8),
    Seq<char>,
> {
    let tail = match rest {
        Some(rest) => rest,
        None => Seq::empty(),
    };
    let (domain, cidr) = match find(tail, '/') {
        Some(i) => (tail.take(i), tail.skip(i)),
        None => (tail, Seq::empty()),
    };
    match dual_cidr_of(cidr) {
        Err(reason) => Err(reason),
        Ok((v4, v6)) => Ok(
            (
                if domain.len() == 0 {
                    None
                } else {
                    Some(domain)
                },
                v4,
                v6,
            ),
        ),
    }
}

/// The name of a mechanism and what follows it: what stands after its first colon,
/// or else what stands from its first slash on.
pub open spec fn mechanism_parts(body: Seq<char>) -> (Seq<char>, Option<Seq<char>>) {
    match cut(body, ':') {
        Some((name, rest)) => (name, Some(rest)),
        None => match find(body, '/') {
            Some(i) => (body.take(i), Some(body.skip(i))),
            None => (body, None),
        },
    }
}

/// The mechanism that a term without its qualifier denotes, or what is wrong with
/// it.
pub open spec fn mechanism_of(body: Seq<char>) -> Result<MechanismView, Seq<char>> {
    let (name, rest) = mechanism_parts(body);
    let name = lowered(name);
    let has_rest = rest is Some && rest->0.len() > 0;
    if name == "all"@ {
        Ok(MechanismView::All)
    } else if name == "ip4"@ {
        if rest is Some {
            ip4_of(rest->0)
        } else {
            Err("ip4 requires an address"@)
        }
    } else if name == "ip6"@ {
        if rest is Some {
            ip6_of(rest->0)
        } else {
            Err("ip6 requires an address"@)
        }
    } else if name == "a"@ {
        match domain_and_cidr_of(rest) {
            Ok((domain, v4, v6)) => Ok(MechanismView::A { domain, v4, v6 }),
            Err(reason) => Err(reason),
        }
    } else if name == "mx"@ {
        match domain_and_cidr_of(rest) {
            Ok((domain, v4, v6)) => Ok(MechanismView::Mx { domain, v4, v6 }),
            Err(reason) => Err(reason),
        }
    } else if name == "include"@ {
        if has_rest {
            Ok(MechanismView::Include(rest->0))
        } else {
            Err("include requires a domain"@)
        }
    } else if name == "exists"@ {
        if has_rest {
            Ok(MechanismView::Exists(rest->0))
        } else {
            Err("exists requires a domain"@)
        }
    } else if name == "ptr"@ {
        Ok(
            MechanismView::Ptr(
                if has_rest {
                    rest
                } else {
                    None
                },
            ),
        )
    } else {
        Err("unknown mechanism `"@ + name + "`"@)
    }
}

/// The directive that a term denotes, or what is wrong with it.
pub open spec fn directive_of(term: Seq<char>) -> Result<DirectiveView, Seq<char>> {
    if term.len() == 0 {
        Err("empty term"@)
    } else {
        let (qualifier, body) = match Qualifier::of(term[0]) {
            Some(q) => (q, term.skip(1)),
            None => (Qualifier::Pass, term),
        };
        match mechanism_of(body) {
            Ok(mechanism) => Ok(DirectiveView { qualifier, mechanism }),
            Err(reason) => Err(reason),
        }
    }
}

/// A modifier name: a letter, then letters, digits, `-`, `_` and `.`.
pub open spec fn modifier_name(name: Seq<char>) -> bool {
    name.len() > 0 && alphabetic(name[0]) && forall|i: int|
        1 <= i < name.len() ==> alphanumeric(#[trigger] name[i]) || name[i] == '-' || name[i] == '_'
            || name[i] == '.'
}

/// The name and value of a modifier `name=value`: a modifier name before the first
/// `=`, and no `:` before that.
pub open spec fn modifier_of(term: Seq<char>) -> Option<(Seq<char>, Seq<char>)> {
    match find(term, '=') {
        None => None,
        Some(eq) => {
            let colon = find(term, ':');
            if colon is Some && colon->0 < eq {
                None
            } else if modifier_name(term.take(eq)) {
                Some((term.take(eq), term.skip(eq + 1)))
            } else {
                None
            }
        },
    }
}

/// What the terms after the version say, or what is wrong with the first bad one.
pub open spec fn terms_record(terms: Seq<Seq<char>>) -> Result<SpfRecordView, Seq<char>>
    decreases terms.len(),
{
    if terms.len() == 0 {
        Ok(SpfRecordView { directives: Seq::empty(), redirect: None })
    } else {
        match terms_record(terms.drop_last()) {
            Err(reason) => Err(reason),
            Ok(record) => match modifier_of(terms.last()) {
                Some((name, value)) => if lowered(name) == "redirect"@ {
                    Ok(SpfRecordView { redirect: Some(value), ..record })
                } else {
                    Ok(record)
                },
                None => match directive_of(terms.last()) {
                    Ok(d) => Ok(
                        SpfRecordView { directives: record.directives.push(d), ..record },
                    ),
                    Err(reason) => Err(reason),
                },
            },
        }
    }
}

/// Whether a term is the SPF version token `v=spf1`, in any case.
pub open spec fn version_term(term: Seq<char>) -> bool {
    same_ignoring_case(term, "v=spf1"@)
}

// ---------------------------------------------------------------------------
// Parsing
// ---------------------------------------------------------------------------

fn record_err(reason: &str) -> (r: NetworkError)
    ensures
        r@ == spf_error(reason@),
{
    NetworkError::record("SPF", reason)
}

/// A malformed-record error with a quoted value.
fn quoted_err(before: &str, value: &[char]) -> (r: NetworkError)
    ensures
        r@ == spf_error(before@ + value@ + "`"@),
{
    let value = string_of(value);
    let reason = concat3(before, value.as_str(), "`");
    record_err(reason.as_str())
}

fn parse_prefix(p: &[char], max: u8) -> (r: Result<u8, NetworkError>)
    ensures
        match (r, prefix_of(p@, max as nat)) {
            (Ok(x), Ok(y)) => x == y,
            (Err(e), Err(reason)) => e@ == spf_error(reason),
            _ => false,
        },
{
    match parse_number(p, u8::MAX as u64) {
        None => Err(quoted_err("bad CIDR prefix `", p)),
        Some(n) => {
            if n > max as u64 {
                let n = to_decimal(n);
                let n = string_of(n.as_slice());
                let m = to_decimal(max as u64);
                let m = string_of(m.as_slice());
                let mut reason = concat3("CIDR prefix ", n.as_str(), " exceeds ");
                reason.append(m.as_str());
                return Err(record_err(reason.as_str()));
            }
            Ok(n as u8)
        },
    }
}

/// Parse `ip4` spec `addr[/prefix]`.
fn parse_ip4_cidr(spec: &[char]) -> (r: Result<Mechanism, NetworkError>)
    ensures
        match (r, ip4_of(spec@)) {
            (Ok(x), Ok(y)) => x@ == y,
            (Err(e), Err(reason)) => e@ == spf_error(reason),
            _ => false,
        },
{
    let (addr, prefix) = match split_once(spec, '/') {
        Some((a, p)) => match parse_prefix(p, 32) {
            Ok(prefix) => (a, prefix),
            Err(e) => {
                return Err(e);
            },
        },
        None => (spec, 32),
    };
    let text = string_of(addr);
    match Ipv4Addr::parse(text.as_str()) {
        Some(net) => Ok(Mechanism::Ip4 { net, prefix }),
        None => Err(quoted_err("bad ip4 address `", addr)),
    }
}

/// Parse `ip6` spec `addr[/prefix]`.
fn parse_ip6_cidr(spec: &[char]) -> (r: Result<Mechanism, NetworkError>)
    ensures
        match (r, ip6_of(spec@)) {
            (Ok(x), Ok(y)) => x@ == y,
            (Err(e), Err(reason)) => e@ == spf_error(reason),
            _ => false,
        },
{
    let (addr, prefix) = match split_once(spec, '/') {
        Some((a, p)) => match parse_prefix(p, 128) {
            Ok(prefix) => (a, prefix),
            Err(e) => {
                return Err(e);
            },
        },
        None => (spec, 128),
    };
    let text = string_of(addr);
    match Ipv6Addr::parse(text.as_str()) {
        Some(net) => Ok(Mechanism::Ip6 { net, prefix }),
        None => Err(quoted_err("bad ip6 address `", addr)),
    }
}

/// Parse a dual-cidr-length block: `""`, `/v4`, `//v6`, or `/v4//v6`.
fn parse_dual_cidr(s: &[char]) -> (r: Result<(u8, u8), NetworkError>)
    ensures
        match (r, dual_cidr_of(s@)) {
            (Ok(x), Ok(y)) => x == y,
            (Err(e), Err(reason)) => e@ == spf_error(reason),
            _ => false,
        },
{
    let n = s.len();
    let (v4_part, v6_part) = match find_double(s, '/') {
        Some(i) => (slice_subrange(s, 0, i), Some(slice_subrange(s, i + 2, n))),
        None => (s, None),
    };
    let m = v4_part.len();
    let v4 = if m > 1 && v4_part[0] == '/' {
        match parse_prefix(slice_subrange(v4_part, 1, m), 32) {
            Ok(v4) => v4,
            Err(e) => {
                return Err(e);
            },
        }
    } else {
        32
    };
    let v6 = match v6_part {
        Some(p) => match parse_prefix(p, 128) {
            Ok(v6) => v6,
            Err(e) => {
                return Err(e);
            },
        },
        None => 128,
    };
    Ok((v4, v6))
}

/// Parse the `[domain][/v4][//v6]` tail of an `a` or `mx` mechanism. `rest` is the
/// part after the mechanism name (it may begin with the domain, or directly with
/// `/` for the dual-cidr form). The domain-spec is returned unexpanded.
fn parse_domain_and_dual_cidr(rest: Option<&[char]>) -> (r: Result<
    (Option<String>, u8, u8),
    NetworkError,
>)
    ensures
        ({
            let tail = match rest {
                Some(rest) => Some(rest@),
                None => None,
            };
            match (r, domain_and_cidr_of(tail)) {
                (Ok((d, a, b)), Ok((e, x, y))) => opt_view(d) == e && a == x && b == y,
                (Err(e), Err(reason)) => e@ == spf_error(reason),
                _ => false,
            }
        }),
{
    let empty: Vec<char> = Vec::new();
    let tail = match rest {
        Some(rest) => rest,
        None => empty.as_slice(),
    };
    let n = tail.len();
    let (domain, cidr) = match find_char(tail, '/') {
        Some(i) => (slice_subrange(tail, 0, i), slice_subrange(tail, i, n)),
        None => (tail, empty.as_slice()),
    };
    proof {
        assert(empty@ =~= Seq::empty());
    }
    match parse_dual_cidr(cidr) {
        Ok((v4, v6)) => {
            if domain.len() == 0 {
                Ok((None, v4, v6))
            } else {
                Ok((Some(string_of(domain)), v4, v6))
            }
        },
        Err(e) => Err(e),
    }
}

fn parse_mechanism(body: &[char]) -> (r: Result<Mechanism, NetworkError>)
    ensures
        match (r, mechanism_of(body@)) {
            (Ok(x), Ok(y)) => x@ == y,
            (Err(e), Err(reason)) => e@ == spf_error(reason),
            _ => false,
        },
{
    let n = body.len();
    let (name, rest) = match split_once(body, ':') {
        Some((name, rest)) => (name, Some(rest)),
        None => match find_char(body, '/') {
            Some(i) => (slice_subrange(body, 0, i), Some(slice_subrange(body, i, n))),
            None => (body, None),
        },
    };
    let name = to_lower(name);
    let name = name.as_slice();
    if text_eq(name, "all") {
        return Ok(Mechanism::All);
    }
    if text_eq(name, "ip4") {
        return match rest {
            Some(spec) => parse_ip4_cidr(spec),
            None => Err(record_err("ip4 requires an address")),
        };
    }
    if text_eq(name, "ip6") {
        return match rest {
            Some(spec) => parse_ip6_cidr(spec),
            None => Err(record_err("ip6 requires an address")),
        };
    }
    if text_eq(name, "a") {
        return match parse_domain_and_dual_cidr(rest) {
            Ok((domain, v4, v6)) => Ok(Mechanism::A { domain, v4, v6 }),
            Err(e) => Err(e),
        };
    }
    if text_eq(name, "mx") {
        return match parse_domain_and_dual_cidr(rest) {
            Ok((domain, v4, v6)) => Ok(Mechanism::Mx { domain, v4, v6 }),
            Err(e) => Err(e),
        };
    }
    let value: Option<String> = match rest {
        Some(rest) => if rest.len() > 0 {
            Some(string_of(rest))
        } else {
            None
        },
        None => None,
    };
    if text_eq(name, "include") {
        return match value {
            Some(spec) => Ok(Mechanism::Include(spec)),
            None => Err(record_err("include requires a domain")),
        };
    }
    if text_eq(name, "exists") {
        return match value {
            Some(spec) => Ok(Mechanism::Exists(spec)),
            None => Err(record_err("exists requires a domain")),
        };
    }
    if text_eq(name, "ptr") {
        return Ok(Mechanism::Ptr(value));
    }
    Err(quoted_err("unknown mechanism `", name))
}

fn parse_directive(term: &[char]) -> (r: Result<Directive, NetworkError>)
    ensures
        match (r, directive_of(term@)) {
            (Ok(x), Ok(y)) => x@ == y,
            (Err(e), Err(reason)) => e@ == spf_error(reason),
            _ => false,
        },
{
    let n = term.len();
    if n == 0 {
        return Err(record_err("empty term"));
    }
    let (qualifier, body) = match Qualifier::from_char(term[0]) {
        Some(q) => (q, slice_subrange(term, 1, n)),
        None => (Qualifier::Pass, term),
    };
    match parse_mechanism(body) {
        Ok(mechanism) => Ok(Directive { qualifier, mechanism }),
        Err(e) => Err(e),
    }
}

/// Whether a text is a modifier name.
fn is_modifier_name(name: &[char]) -> (r: bool)
    ensures
        r == modifier_name(name@),
{
    if name.len() == 0 || !is_alphabetic(name[0]) {
        return false;
    }
    let mut i: usize = 1;
    while i < name.len()
        invariant
            1 <= i <= name@.len(),
            forall|j: int|
                1 <= j < i ==> alphanumeric(#[trigger] name@[j]) || name@[j] == '-' || name@[j]
                    == '_' || name@[j] == '.',
        decreases name.len() - i,
    {
        let c = name[i];
        if !(is_alphanumeric(c) || c == '-' || c == '_' || c == '.') {
            return false;
        }
        i = i + 1;
    }
    true
}

/// Recognise a modifier `name=value`. A term is a modifier only when the part
/// before the first `=` is a valid modifier name (a letter, then letters, digits,
/// `-`, `_` and `.`) and there is no `:` before that `=` (which would make it a
/// mechanism with a value).
fn split_modifier(term: &[char]) -> (r: Option<(&[char], &[char])>)
    ensures
        match (r, modifier_of(term@)) {
            (Some((a, b)), Some((x, y))) => a@ == x && b@ == y,
            (None, None) => true,
            _ => false,
        },
{
    let n = term.len();
    let eq = match find_char(term, '=') {
        Some(eq) => eq,
        None => {
            return None;
        },
    };
    if let Some(colon) = find_char(term, ':') {
        if colon < eq {
            return None;
        }
    }
    let name = slice_subrange(term, 0, eq);
    if is_modifier_name(name) {
        Some((name, slice_subrange(term, eq + 1, n)))
    } else {
        None
    }
}

proof fn lemma_bad_term_stays(terms: Seq<Seq<char>>, i: int)
    requires
        0 <= i <= terms.len(),
        terms_record(terms.take(i)) is Err,
    ensures
        terms_record(terms) == terms_record(terms.take(i)),
    decreases terms.len(),
{
    if i == terms.len() {
        assert(terms.take(i) =~= terms);
    } else {
        assert(terms.drop_last().take(i) =~= terms.take(i));
        lemma_bad_term_stays(terms.drop_last(), i);
    }
}

impl SpfRecord {
    /// The record that a TXT record body holds, or what is wrong with it.
    pub open spec fn parsed(raw: Seq<char>) -> Result<SpfRecordView, NetworkErrorView> {
        let terms = words(raw);
        if terms.len() == 0 || !version_term(terms[0]) {
            Err(spf_error("missing v=spf1 version term"@))
        } else {
            match terms_record(terms.drop_first()) {
                Ok(record) => Ok(record),
                Err(reason) => Err(spf_error(reason)),
            }
        }
    }

    /// Whether `term` is the SPF version token `v=spf1` (case-insensitive).
    pub fn is_spf_version(term: &str) -> (r: bool)
        ensures
            r == version_term(term@),
    {
        let chars = chars_of(term);
        eq_ignore_case(chars.as_slice(), "v=spf1")
    }

    /// Parse the body of a `v=spf1` TXT record.
    ///
    /// # Errors
    /// [`NetworkError::Record`] if the version token is missing or a term is
    /// syntactically invalid (the evaluator treats this as `PermError`).
    pub fn parse(raw: &str) -> (r: Result<SpfRecord, NetworkError>)
        ensures
            agrees(r, SpfRecord::parsed(raw@)),
    {
        let chars = chars_of(raw);
        let all = split_words(chars.as_slice());
        let ghost terms = words(raw@);
        assert(terms.len() == all@.len());
        if all.len() == 0 {
            return Err(record_err("missing v=spf1 version term"));
        }
        assert(terms[0] == all@[0]@);
        if !eq_ignore_case(all[0].as_slice(), "v=spf1") {
            return Err(record_err("missing v=spf1 version term"));
        }
        let ghost rest = terms.drop_first();
        let mut directives: Vec<Directive> = Vec::new();
        let mut redirect: Option<String> = None;
        let mut i: usize = 1;
        assert(directive_views(directives@) =~= Seq::empty());
        while i < all.len()
            invariant
                1 <= i <= all@.len(),
                terms == words(raw@),
                terms == pieces(all@),
                version_term(terms[0]),
                rest == terms.drop_first(),
                terms_record(rest.take(i - 1)) == Ok::<SpfRecordView, Seq<char>>(
                    SpfRecordView {
                        directives: directive_views(directives@),
                        redirect: opt_view(redirect),
                    },
                ),
            decreases all.len() - i,
        {
            proof {
                assert(rest.take(i as int).drop_last() =~= rest.take(i - 1));
                assert(rest.take(i as int).last() == all@[i as int]@);
                if terms_record(rest.take(i as int)) is Err {
                    lemma_bad_term_stays(rest, i as int);
                }
            }
            let term = all[i].as_slice();
            match split_modifier(term) {
                Some((name, value)) => {
                    let name = to_lower(name);
                    if text_eq(name.as_slice(), "redirect") {
                        redirect = Some(string_of(value));
                    }
                },
                None => match parse_directive(term) {
                    Ok(d) => {
                        let ghost before = directives@;
                        assert(directive_views(before.push(d)) =~= directive_views(before).push(
                            d@,
                        ));
                        directives.push(d);
                    },
                    Err(e) => {
                        return Err(e);
                    },
                },
            }
            i = i + 1;
        }
        assert(rest.take(rest.len() as int) =~= rest);
        Ok(SpfRecord { directives, redirect })
    }
}

} // verus!
