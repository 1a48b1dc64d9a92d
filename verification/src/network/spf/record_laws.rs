//! What each term of an SPF record stands for.

use vstd::prelude::*;

use crate::bytes::{find_in, lemma_find_in, lemma_find_in_is, occurs_at};
use crate::ip::{ipv4_value, ipv6_value, Ipv4Addr, Ipv6Addr};
use crate::network::error::NetworkErrorView;
use crate::network::spf::record::{
    directive_of, dual_cidr_of, mechanism_of, modifier_name, modifier_of, prefix_of, DirectiveView, MechanismView,
    Qualifier, SpfRecord, SpfRecordView,
};
use crate::text::{
    alphabetic, alphanumeric, cut, decimal, digit, find, lemma_decimal, lemma_find, lemma_find_is,
    lemma_find_none, lower_char, lowered, white_space, words,
};
use crate::text_laws::{law_number_reads_its_digits, law_words_stand_between_white_space};

verus! {

// ---------------------------------------------------------------------------
// Records
// ---------------------------------------------------------------------------

/// A record starts with the word `v=spf1`, in any case, and is refused otherwise; with
/// nothing after that it has no directive and no redirect.
pub proof fn law_record_starts_with_its_version(text: Seq<char>)
    ensures
        words(text).len() == 0 || lowered(words(text)[0]) != lowered("v=spf1"@)
            ==> SpfRecord::parsed(text) is Err,
        words(text).len() == 1 && lowered(words(text)[0]) == lowered("v=spf1"@)
            ==> SpfRecord::parsed(text) == Ok::<_, NetworkErrorView>(
            SpfRecordView { directives: Seq::empty(), redirect: None },
        ),
{
    if words(text).len() == 1 {
        assert(words(text).drop_first() =~= Seq::<Seq<char>>::empty());
    }
}

/// A term at the end of a record adds to it: a `redirect` gives the domain that decides
/// last, in place of one before it, another modifier nothing, a directive comes after those
/// that are there, and a term that is neither spoils the record. A record that is spoilt
/// stays so.
pub proof fn law_term_adds_to_a_record(text: Seq<char>, term: Seq<char>)
    requires
        words(text).len() > 0,
        term.len() > 0,
        forall|i: int| 0 <= i < term.len() ==> !white_space(#[trigger] term[i]),
    ensures
        ({
            let longer = SpfRecord::parsed(text + seq![' '] + term);
            match SpfRecord::parsed(text) {
                Err(_) => longer is Err,
                Ok(record) => match modifier_of(term) {
                    Some((name, value)) => if lowered(name) == "redirect"@ {
                        longer matches Ok(r) && r.directives == record.directives && r.redirect
                            == Some(value)
                    } else {
                        longer matches Ok(r) && r == record
                    },
                    None => match directive_of(term) {
                        Ok(d) => longer matches Ok(r) && r.directives == record.directives.push(d)
                            && r.redirect == record.redirect,
                        Err(_) => longer is Err,
                    },
                },
            }
        }),
{
    assert(white_space(' '));
    law_words_stand_between_white_space(text, ' ', term);
    law_words_stand_between_white_space(term, ' ', Seq::empty());
    let before = words(text);
    let all = words(text + seq![' '] + term);
    assert(all =~= before.push(term));
    assert(all[0] == before[0]);
    assert(all.drop_first().drop_last() =~= before.drop_first());
    assert(all.drop_first().last() == term);
}

/// Whether a text is a modifier's name: a letter, and letters, digits, hyphens, underscores
/// and dots after it.
pub open spec fn names_a_modifier(name: Seq<char>) -> bool {
    &&& name.len() > 0
    &&& alphabetic(name[0])
    &&& forall|i: int|
        0 <= i < name.len() ==> alphanumeric(#[trigger] name[i]) || name[i] == '-' || name[i] == '_'
            || name[i] == '.'
}

/// A term `name=value` is a modifier, and one without a `=` or with a colon before it is
/// none.
pub proof fn law_modifier_is_a_name_and_a_value(name: Seq<char>, value: Seq<char>, term: Seq<char>)
    ensures
        names_a_modifier(name) ==> modifier_of(name + seq!['='] + value) == Some((name, value)),
        !names_a_modifier(name) && (forall|i: int| 0 <= i < name.len() ==> name[i] != '=')
            ==> modifier_of(name + seq!['='] + value) is None,
        (forall|i: int| 0 <= i < term.len() ==> term[i] != '=') ==> modifier_of(term) is None,
        (forall|i: int| 0 <= i < term.len() ==> term[i] != '=') ==> modifier_of(
            term + seq![':'] + value,
        ) is None,
{
    let whole = name + seq!['='] + value;
    let n = name.len() as int;
    if names_a_modifier(name) {
        assert forall|i: int| 0 <= i < n implies whole[i] != '=' && whole[i] != ':' by {
            assert(whole[i] == name[i]);
            assert(alphanumeric(name[i]) || name[i] == '-' || name[i] == '_' || name[i] == '.');
        }
        assert(whole[n] == '=');
        lemma_find_is(whole, '=', n);
        lemma_find(whole, ':');
        assert(whole.take(n) =~= name);
        assert(whole.skip(n + 1) =~= value);
    }
    if !names_a_modifier(name) && (forall|i: int| 0 <= i < name.len() ==> name[i] != '=') {
        assert forall|i: int| 0 <= i < n implies whole[i] != '=' by {
            assert(whole[i] == name[i]);
        }
        assert(whole[n] == '=');
        lemma_find_is(whole, '=', n);
        assert(whole.take(n) =~= name);
        if modifier_name(name) {
            assert forall|i: int| 0 <= i < n implies alphanumeric(#[trigger] name[i]) || name[i]
                == '-' || name[i] == '_' || name[i] == '.' by {
                if i == 0 {
                    assert(alphabetic(name[0]));
                }
            }
        }
    }
    if forall|i: int| 0 <= i < term.len() ==> term[i] != '=' {
        lemma_find_none(term, '=');
        let t = term + seq![':'] + value;
        lemma_find(t, '=');
        lemma_find(t, ':');
        assert(t[term.len() as int] == ':');
        if let Some(i) = find(t, '=') {
            if i < term.len() {
                assert(t[i] == term[i]);
            }
            assert(i > term.len());
        }
    }
}

// ---------------------------------------------------------------------------
// Directives
// ---------------------------------------------------------------------------

/// A directive is a qualifier and a mechanism: `+` passes, `-` fails, `~` softly fails, `?`
/// is neutral, and without one of these the mechanism passes.
pub proof fn law_qualifier_stands_first(body: Seq<char>)
    requires
        body.len() > 0,
    ensures
        directive_of(seq!['+'] + body) == qualified_by(Qualifier::Pass, body),
        directive_of(seq!['-'] + body) == qualified_by(Qualifier::Fail, body),
        directive_of(seq!['~'] + body) == qualified_by(Qualifier::SoftFail, body),
        directive_of(seq!['?'] + body) == qualified_by(Qualifier::Neutral, body),
        body[0] != '+' && body[0] != '-' && body[0] != '~' && body[0] != '?' ==> directive_of(body)
            == qualified_by(Qualifier::Pass, body),
{
    assert((seq!['+'] + body).skip(1) =~= body);
    assert((seq!['-'] + body).skip(1) =~= body);
    assert((seq!['~'] + body).skip(1) =~= body);
    assert((seq!['?'] + body).skip(1) =~= body);
}

/// A mechanism with a qualifier, if it is one.
pub open spec fn qualified_by(qualifier: Qualifier, body: Seq<char>) -> Result<
    DirectiveView,
    Seq<char>,
> {
    match mechanism_of(body) {
        Ok(mechanism) => Ok(DirectiveView { qualifier, mechanism }),
        Err(reason) => Err(reason),
    }
}

// ---------------------------------------------------------------------------
// Mechanisms
// ---------------------------------------------------------------------------

/// Whether a text is a mechanism's name, in any case.
pub open spec fn names(text: Seq<char>, name: Seq<char>) -> bool {
    lowered(text) == name
}

/// `name:rest`.
pub open spec fn with_rest(name: Seq<char>, rest: Seq<char>) -> Seq<char> {
    name + seq![':'] + rest
}

/// `all` stands alone; `include` and `exists` need a domain, `ptr` may have one. Any other
/// name is unknown.
pub proof fn law_mechanism_is_named(name: Seq<char>, rest: Seq<char>)
    requires
        forall|i: int| 0 <= i < name.len() ==> name[i] != ':' && name[i] != '/',
    ensures
        names(name, "all"@) ==> mechanism_of(name) == Ok::<_, Seq<char>>(MechanismView::All)
            && mechanism_of(with_rest(name, rest)) == Ok::<_, Seq<char>>(MechanismView::All),
        names(name, "include"@) && rest.len() > 0 ==> mechanism_of(with_rest(name, rest)) == Ok::<
            _,
            Seq<char>,
        >(MechanismView::Include(rest)),
        names(name, "exists"@) && rest.len() > 0 ==> mechanism_of(with_rest(name, rest)) == Ok::<
            _,
            Seq<char>,
        >(MechanismView::Exists(rest)),
        names(name, "ptr"@) && rest.len() > 0 ==> mechanism_of(with_rest(name, rest)) == Ok::<
            _,
            Seq<char>,
        >(MechanismView::Ptr(Some(rest))),
        names(name, "ptr"@) ==> mechanism_of(name) == Ok::<_, Seq<char>>(MechanismView::Ptr(None))
            && mechanism_of(with_rest(name, Seq::empty())) == Ok::<_, Seq<char>>(
            MechanismView::Ptr(None),
        ),
        names(name, "include"@) || names(name, "exists"@) || names(name, "ip4"@) || names(
            name,
            "ip6"@,
        ) ==> mechanism_of(name) is Err,
        names(name, "include"@) || names(name, "exists"@) ==> mechanism_of(
            with_rest(name, Seq::empty()),
        ) is Err,
        !names(name, "all"@) && !names(name, "ip4"@) && !names(name, "ip6"@) && !names(name, "a"@)
            && !names(name, "mx"@) && !names(name, "include"@) && !names(name, "exists"@) && !names(
            name,
            "ptr"@,
        ) ==> mechanism_of(name) is Err && mechanism_of(with_rest(name, rest)) is Err,
{
    lemma_literals();
    lemma_parts(name, rest);
    lemma_parts(name, Seq::empty());
}

/// `ip4` and `ip6` give a network: an address and a prefix, the whole address without one. A
/// prefix that is longer than an address, and what is no address, are refused.
pub proof fn law_network_is_an_address_and_a_prefix(name: Seq<char>, addr: Seq<char>, prefix: nat)
    requires
        forall|i: int| 0 <= i < name.len() ==> name[i] != ':' && name[i] != '/',
        forall|i: int| 0 <= i < addr.len() ==> addr[i] != '/',
    ensures
        ({
            let alone = mechanism_of(with_rest(name, addr));
            let sized = mechanism_of(with_rest(name, addr + seq!['/'] + decimal(prefix)));
            &&& names(name, "ip4"@) ==> match ipv4_value(addr) {
                Some(bits) => alone == Ok::<_, Seq<char>>(
                    MechanismView::Ip4 { net: Ipv4Addr { bits: bits as u32 }, prefix: 32 },
                ) && (prefix <= 32 ==> sized == Ok::<_, Seq<char>>(
                    MechanismView::Ip4 {
                        net: Ipv4Addr { bits: bits as u32 },
                        prefix: prefix as u8,
                    },
                )) && (prefix > 32 ==> sized is Err),
                None => alone is Err && sized is Err,
            }
            &&& names(name, "ip6"@) ==> match ipv6_value(addr) {
                Some(bits) => alone == Ok::<_, Seq<char>>(
                    MechanismView::Ip6 { net: Ipv6Addr { bits: bits as u128 }, prefix: 128 },
                ) && (prefix <= 128 ==> sized == Ok::<_, Seq<char>>(
                    MechanismView::Ip6 {
                        net: Ipv6Addr { bits: bits as u128 },
                        prefix: prefix as u8,
                    },
                )) && (prefix > 128 ==> sized is Err),
                None => alone is Err && sized is Err,
            }
        }),
{
    lemma_literals();
    lemma_parts(name, addr);
    let sized = addr + seq!['/'] + decimal(prefix);
    lemma_parts(name, sized);
    lemma_find_none(addr, '/');
    let n = addr.len() as int;
    assert(sized[n] == '/');
    assert forall|i: int| 0 <= i < n implies sized[i] != '/' by {
        assert(sized[i] == addr[i]);
    }
    lemma_find_is(sized, '/', n);
    assert(sized.take(n) =~= addr);
    assert(sized.skip(n + 1) =~= decimal(prefix));
    lemma_prefix(prefix, 32);
    lemma_prefix(prefix, 128);
}

/// What a mechanism with an optional domain and two prefix lengths is: the `a` or the `mx` of
/// a name.
pub open spec fn is_targeted(
    name: Seq<char>,
    r: Result<MechanismView, Seq<char>>,
    domain: Option<Seq<char>>,
    v4: nat,
    v6: nat,
) -> bool {
    &&& names(name, "a"@) ==> r == Ok::<_, Seq<char>>(
        MechanismView::A { domain, v4: v4 as u8, v6: v6 as u8 },
    )
    &&& names(name, "mx"@) ==> r == Ok::<_, Seq<char>>(
        MechanismView::Mx { domain, v4: v4 as u8, v6: v6 as u8 },
    )
}

/// `a` and `mx` may have a domain, and prefix lengths for the two families: `/n` for IPv4
/// and `//m` for IPv6, the whole address where one is not given.
#[verifier::rlimit(40)]
pub proof fn law_targeted_mechanism(name: Seq<char>, domain: Seq<char>, n: nat, m: nat)
    requires
        names(name, "a"@) || names(name, "mx"@),
        domain.len() > 0,
        forall|i: int| 0 <= i < domain.len() ==> domain[i] != '/',
        n <= 32,
        m <= 128,
    ensures
        is_targeted(name, mechanism_of(with_rest(name, domain)), Some(domain), 32, 128),
        is_targeted(
            name,
            mechanism_of(with_rest(name, domain + seq!['/'] + decimal(n))),
            Some(domain),
            n,
            128,
        ),
        is_targeted(
            name,
            mechanism_of(with_rest(name, domain + seq!['/', '/'] + decimal(m))),
            Some(domain),
            32,
            m,
        ),
        is_targeted(
            name,
            mechanism_of(
                with_rest(name, domain + seq!['/'] + decimal(n) + seq!['/', '/'] + decimal(m)),
            ),
            Some(domain),
            n,
            m,
        ),
{
    lemma_duals(n, m);
    let none = Seq::<char>::empty();
    let a = seq!['/'] + decimal(n);
    let b = seq!['/', '/'] + decimal(m);
    let c = seq!['/'] + decimal(n) + seq!['/', '/'] + decimal(m);
    assert(domain + none =~= domain);
    assert(domain + a =~= domain + seq!['/'] + decimal(n));
    assert(domain + b =~= domain + seq!['/', '/'] + decimal(m));
    assert(domain + c =~= domain + seq!['/'] + decimal(n) + seq!['/', '/'] + decimal(m));
    lemma_targeted_as(name, domain, none, 32, 128);
    lemma_targeted_as(name, domain, a, n, 128);
    lemma_targeted_as(name, domain, b, 32, m);
    lemma_targeted_as(name, domain, c, n, m);
}

proof fn lemma_targeted_as(name: Seq<char>, domain: Seq<char>, cidr: Seq<char>, n: nat, m: nat)
    requires
        names(name, "a"@) || names(name, "mx"@),
        domain.len() > 0,
        forall|i: int| 0 <= i < domain.len() ==> domain[i] != '/',
        cidr.len() == 0 || cidr[0] == '/',
        n <= 32,
        m <= 128,
        dual_cidr_of(cidr) == Ok::<_, Seq<char>>((n as u8, m as u8)),
    ensures
        is_targeted(name, mechanism_of(with_rest(name, domain + cidr)), Some(domain), n, m),
{
    lemma_targeted(name, domain, cidr);
}

/// `a` and `mx` without a domain stand for the current one; prefix lengths may follow the
/// name.
pub proof fn law_untargeted_mechanism(name: Seq<char>, n: nat, m: nat)
    requires
        names(name, "a"@) || names(name, "mx"@),
        n <= 32,
        m <= 128,
    ensures
        is_targeted(name, mechanism_of(name), None, 32, 128),
        is_targeted(name, mechanism_of(name + seq!['/'] + decimal(n)), None, n, 128),
        is_targeted(
            name,
            mechanism_of(name + seq!['/'] + decimal(n) + seq!['/', '/'] + decimal(m)),
            None,
            n,
            m,
        ),
{
    lemma_bare(name);
    lemma_sized_once(name, n);
    lemma_sized_twice(name, n, m);
}

proof fn lemma_sized_once(name: Seq<char>, n: nat)
    requires
        names(name, "a"@) || names(name, "mx"@),
        n <= 32,
    ensures
        is_targeted(name, mechanism_of(name + seq!['/'] + decimal(n)), None, n, 128),
{
    let a = seq!['/'] + decimal(n);
    assert(name + seq!['/'] + decimal(n) == name + a) by {
        assert(name + a =~= name + seq!['/'] + decimal(n));
    }
    assert(dual_cidr_of(a) == Ok::<_, Seq<char>>((n as u8, 128u8))) by {
        lemma_duals(n, 0);
    }
    lemma_no_colons(n, 0);
    lemma_sized_as(name, a, n, 128);
}

proof fn lemma_sized_twice(name: Seq<char>, n: nat, m: nat)
    requires
        names(name, "a"@) || names(name, "mx"@),
        n <= 32,
        m <= 128,
    ensures
        is_targeted(
            name,
            mechanism_of(name + seq!['/'] + decimal(n) + seq!['/', '/'] + decimal(m)),
            None,
            n,
            m,
        ),
{
    let b = seq!['/'] + decimal(n) + seq!['/', '/'] + decimal(m);
    assert(name + seq!['/'] + decimal(n) + seq!['/', '/'] + decimal(m) == name + b) by {
        assert(name + b =~= name + seq!['/'] + decimal(n) + seq!['/', '/'] + decimal(m));
    }
    assert(dual_cidr_of(b) == Ok::<_, Seq<char>>((n as u8, m as u8))) by {
        lemma_duals(n, m);
    }
    lemma_no_colons(n, m);
    lemma_sized_as(name, b, n, m);
}

proof fn lemma_no_colons(n: nat, m: nat)
    ensures
        ({
            let a = seq!['/'] + decimal(n);
            let b = seq!['/'] + decimal(n) + seq!['/', '/'] + decimal(m);
            &&& a[0] == '/' && b[0] == '/'
            &&& forall|i: int| 0 <= i < a.len() ==> a[i] != ':'
            &&& forall|i: int| 0 <= i < b.len() ==> b[i] != ':'
        }),
{
    lemma_digits(n);
    lemma_digits(m);
    let a = seq!['/'] + decimal(n);
    let b = seq!['/'] + decimal(n) + seq!['/', '/'] + decimal(m);
    assert forall|i: int| 0 <= i < a.len() implies a[i] != ':' by {
        if i > 0 {
            assert(a[i] == decimal(n)[i - 1]);
        }
    }
    assert forall|i: int| 0 <= i < b.len() implies b[i] != ':' by {
        if i < a.len() {
            assert(b[i] == a[i]);
        } else if i >= a.len() + 2 {
            assert(b[i] == decimal(m)[i - a.len() - 2]);
        }
    }
}

proof fn lemma_sized_as(name: Seq<char>, cidr: Seq<char>, n: nat, m: nat)
    requires
        names(name, "a"@) || names(name, "mx"@),
        cidr.len() > 0,
        cidr[0] == '/',
        forall|i: int| 0 <= i < cidr.len() ==> cidr[i] != ':',
        n <= 32,
        m <= 128,
        dual_cidr_of(cidr) == Ok::<_, Seq<char>>((n as u8, m as u8)),
    ensures
        is_targeted(name, mechanism_of(name + cidr), None, n, m),
{
    lemma_sized(name, cidr);
}

proof fn lemma_bare(name: Seq<char>)
    requires
        names(name, "a"@) || names(name, "mx"@),
    ensures
        is_targeted(name, mechanism_of(name), None, 32, 128),
{
    lemma_literals();
    lemma_short_name(name);
    let none = Seq::<char>::empty();
    lemma_parts(name, none);
    lemma_find_none(none, '/');
    lemma_duals(0, 0);
}

/// A prefix length that is longer than an address of its family is refused.
pub proof fn law_overlong_prefix_is_refused(name: Seq<char>, domain: Seq<char>, n: nat, m: nat)
    requires
        names(name, "a"@) || names(name, "mx"@),
        forall|i: int| 0 <= i < domain.len() ==> domain[i] != '/',
        n > 32,
        m > 128,
    ensures
        mechanism_of(with_rest(name, domain + seq!['/'] + decimal(n))) is Err,
        mechanism_of(with_rest(name, domain + seq!['/', '/'] + decimal(m))) is Err,
{
    lemma_literals();
    lemma_short_name(name);
    let a = seq!['/'] + decimal(n);
    let b = seq!['/', '/'] + decimal(m);
    lemma_digits(n);
    lemma_digits(m);
    lemma_prefix(n, 32);
    lemma_prefix(m, 128);
    lemma_one_slash(decimal(n));
    lemma_two_slashes(Seq::empty(), decimal(m));
    assert(Seq::<char>::empty() + seq!['/', '/'] + decimal(m) =~= b);
    assert(a.skip(1) =~= decimal(n));
    lemma_targeted(name, domain, a);
    lemma_targeted(name, domain, b);
    assert(domain + a =~= domain + seq!['/'] + decimal(n));
    assert(domain + b =~= domain + seq!['/', '/'] + decimal(m));
}

proof fn lemma_literals()
    ensures
        "all"@.len() == 3,
        "ip4"@.len() == 3,
        "ip6"@.len() == 3,
        "ptr"@.len() == 3,
        "all"@[0] == 'a',
        "ip4"@[0] == 'i',
        "ip6"@[0] == 'i',
        "ip4"@[2] == '4',
        "ip6"@[2] == '6',
        "ptr"@[0] == 'p',
        "a"@ == seq!['a'],
        "mx"@ == seq!['m', 'x'],
        "include"@.len() == 7,
        "exists"@.len() == 6,
{
    reveal_strlit("all");
    reveal_strlit("ip4");
    reveal_strlit("ip6");
    reveal_strlit("ptr");
    reveal_strlit("a");
    reveal_strlit("mx");
    reveal_strlit("include");
    reveal_strlit("exists");
    assert("a"@ =~= seq!['a']);
    assert("mx"@ =~= seq!['m', 'x']);
}

/// How a name alone, and a name with something after a colon, are taken apart.
proof fn lemma_parts(name: Seq<char>, rest: Seq<char>)
    requires
        forall|i: int| 0 <= i < name.len() ==> name[i] != ':' && name[i] != '/',
    ensures
        cut(with_rest(name, rest), ':') == Some((name, rest)),
        cut(name, ':') is None,
        find(name, '/') is None,
{
    let whole = with_rest(name, rest);
    let n = name.len() as int;
    assert(whole[n] == ':');
    assert forall|i: int| 0 <= i < n implies whole[i] != ':' by {
        assert(whole[i] == name[i]);
    }
    lemma_find_is(whole, ':', n);
    assert(whole.take(n) =~= name);
    assert(whole.skip(n + 1) =~= rest);
    lemma_find_none(name, ':');
    lemma_find_none(name, '/');
}

proof fn lemma_short_name(name: Seq<char>)
    requires
        names(name, "a"@) || names(name, "mx"@),
    ensures
        0 < name.len() <= 2,
        forall|i: int| 0 <= i < name.len() ==> name[i] != ':' && name[i] != '/',
{
    lemma_literals();
    assert(lowered(name).len() == name.len());
    assert forall|i: int| 0 <= i < name.len() implies name[i] != ':' && name[i] != '/' by {
        assert(lowered(name)[i] == lower_char(name[i]));
        assert(lowered(name)[i] == 'a' || lowered(name)[i] == 'm' || lowered(name)[i] == 'x');
    }
}

proof fn lemma_digits(n: nat)
    ensures
        decimal(n).len() > 0,
        forall|i: int| 0 <= i < decimal(n).len() ==> decimal(n)[i] != '/' && decimal(n)[i] != ':',
{
    lemma_decimal(n);
    assert forall|i: int| 0 <= i < decimal(n).len() implies decimal(n)[i] != '/' && decimal(n)[i]
        != ':' by {
        assert(digit(decimal(n)[i]));
    }
}

proof fn lemma_prefix(n: nat, max: nat)
    requires
        max <= 128,
    ensures
        n <= max ==> prefix_of(decimal(n), max) == Ok::<_, Seq<char>>(n as u8),
        n > max ==> prefix_of(decimal(n), max) is Err,
{
    law_number_reads_its_digits(n, u8::MAX as nat, Seq::empty(), 0);
}

/// A domain and what comes from the first slash on.
proof fn lemma_targeted(name: Seq<char>, domain: Seq<char>, cidr: Seq<char>)
    requires
        names(name, "a"@) || names(name, "mx"@),
        forall|i: int| 0 <= i < domain.len() ==> domain[i] != '/',
        cidr.len() == 0 || cidr[0] == '/',
    ensures
        ({
            let r = mechanism_of(with_rest(name, domain + cidr));
            match dual_cidr_of(cidr) {
                Ok((v4, v6)) => is_targeted(
                    name,
                    r,
                    if domain.len() == 0 {
                        None
                    } else {
                        Some(domain)
                    },
                    v4 as nat,
                    v6 as nat,
                ),
                Err(_) => r is Err,
            }
        }),
{
    lemma_literals();
    lemma_short_name(name);
    let tail = domain + cidr;
    lemma_parts(name, tail);
    let n = domain.len() as int;
    if cidr.len() > 0 {
        assert(tail[n] == '/');
        assert forall|i: int| 0 <= i < n implies tail[i] != '/' by {
            assert(tail[i] == domain[i]);
        }
        lemma_find_is(tail, '/', n);
        assert(tail.take(n) =~= domain);
        assert(tail.skip(n) =~= cidr);
    } else {
        assert(tail =~= domain);
        lemma_find_none(tail, '/');
        assert(cidr =~= Seq::<char>::empty());
    }
}

/// A name with prefix lengths alone.
proof fn lemma_sized(name: Seq<char>, cidr: Seq<char>)
    requires
        names(name, "a"@) || names(name, "mx"@),
        cidr.len() > 0,
        cidr[0] == '/',
        forall|i: int| 0 <= i < cidr.len() ==> cidr[i] != ':',
    ensures
        dual_cidr_of(cidr) matches Ok((v4, v6)) ==> is_targeted(
            name,
            mechanism_of(name + cidr),
            None,
            v4 as nat,
            v6 as nat,
        ),
{
    lemma_literals();
    lemma_short_name(name);
    let whole = name + cidr;
    let n = name.len() as int;
    assert forall|i: int| 0 <= i < whole.len() implies whole[i] != ':' by {
        if i < n {
            assert(whole[i] == name[i]);
        } else {
            assert(whole[i] == cidr[i - n]);
        }
    }
    lemma_find_none(whole, ':');
    assert(whole[n] == '/');
    assert forall|i: int| 0 <= i < n implies whole[i] != '/' by {
        assert(whole[i] == name[i]);
    }
    lemma_find_is(whole, '/', n);
    assert(whole.take(n) =~= name);
    assert(whole.skip(n) =~= cidr);
    lemma_find_is(cidr, '/', 0);
    assert(cidr.take(0) =~= Seq::<char>::empty());
    assert(cidr.skip(0) =~= cidr);
}

proof fn lemma_one_slash(digits: Seq<char>)
    requires
        forall|i: int| 0 <= i < digits.len() ==> digits[i] != '/',
    ensures
        find_in(seq!['/'] + digits, seq!['/', '/']) is None,
{
    let s = seq!['/'] + digits;
    let slashes = seq!['/', '/'];
    lemma_find_in(s, slashes);
    if let Some(i) = find_in(s, slashes) {
        assert(s.subrange(i, i + 2)[1] == s[i + 1]);
        assert(s[i + 1] == digits[i]);
    }
}

proof fn lemma_two_slashes(before: Seq<char>, digits: Seq<char>)
    requires
        before.len() == 0 || before[0] == '/' && before.len() > 1,
        forall|i: int| 1 <= i < before.len() ==> before[i] != '/',
    ensures
        ({
            let s = before + seq!['/', '/'] + digits;
            &&& find_in(s, seq!['/', '/']) == Some(before.len() as int)
            &&& s.take(before.len() as int) == before
            &&& s.skip(before.len() as int + 2) == digits
        }),
{
    let s = before + seq!['/', '/'] + digits;
    let slashes = seq!['/', '/'];
    let n = before.len() as int;
    assert(s.subrange(n, n + 2) =~= slashes);
    assert forall|i: int| 0 <= i < n implies !occurs_at(s, slashes, i) by {
        if occurs_at(s, slashes, i) {
            let part = s.subrange(i, i + 2);
            assert(part[0] == s[i] && part[1] == s[i + 1]);
            if i > 0 {
                assert(s[i] == before[i]);
            } else {
                assert(s[1] == before[1]);
            }
        }
    }
    lemma_find_in_is(s, slashes, n);
    assert(s.take(n) =~= before);
    assert(s.skip(n + 2) =~= digits);
}

proof fn lemma_duals(n: nat, m: nat)
    requires
        n <= 32,
        m <= 128,
    ensures
        dual_cidr_of(Seq::empty()) == Ok::<_, Seq<char>>((32u8, 128u8)),
        dual_cidr_of(seq!['/'] + decimal(n)) == Ok::<_, Seq<char>>((n as u8, 128u8)),
        dual_cidr_of(seq!['/', '/'] + decimal(m)) == Ok::<_, Seq<char>>((32u8, m as u8)),
        dual_cidr_of(seq!['/'] + decimal(n) + seq!['/', '/'] + decimal(m)) == Ok::<_, Seq<char>>(
            (n as u8, m as u8),
        ),
{
    lemma_digits(n);
    lemma_digits(m);
    lemma_prefix(n, 32);
    lemma_prefix(m, 128);
    let a = seq!['/'] + decimal(n);
    lemma_one_slash(decimal(n));
    assert(a.skip(1) =~= decimal(n));
    lemma_two_slashes(Seq::empty(), decimal(m));
    assert(Seq::<char>::empty() + seq!['/', '/'] + decimal(m) =~= seq!['/', '/'] + decimal(m));
    assert forall|i: int| 1 <= i < a.len() implies a[i] != '/' by {
        assert(a[i] == decimal(n)[i - 1]);
    }
    lemma_two_slashes(a, decimal(m));
}

} // verus!
