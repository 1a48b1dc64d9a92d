//! Security audit events: their single-line encoding, and a capacity-bounded
//! in-memory ring of the most recent ones for inspection.

use vstd::prelude::*;

use crate::ip::{ip_text, lemma_ip_text_is_graphic, IpAddr};
use crate::ring::{ring_push, Ring};
use crate::security::audit::config::AuditConfig;
use crate::text::{chars_of, push_all, push_str, string_of};

verus! {

/// A security-relevant event worth auditing.
#[derive(Debug, PartialEq, Eq)]
pub enum AuditEvent {
    /// A user authenticated successfully.
    AuthSuccess {
        /// The authenticated username.
        user: String,
    },
    /// An authentication attempt failed.
    AuthFailure {
        /// The username that was attempted.
        user: String,
        /// The source address.
        ip: IpAddr,
    },
    /// A connection was blocked by the firewall.
    Blocked {
        /// The blocked source address.
        ip: IpAddr,
        /// Why it was blocked.
        reason: String,
    },
    /// A connection was rate-limited.
    RateLimited {
        /// The throttled source address.
        ip: IpAddr,
    },
    /// Firewall enforcement was paused: every connection is now permitted, including
    /// blocklisted IPs. A high-impact administrative transition that must leave a
    /// trail (the pause itself is otherwise invisible).
    FirewallPaused,
    /// Firewall enforcement was resumed (normal policy is back in effect).
    FirewallResumed,
}

/// What an [`AuditEvent`] says.
pub enum AuditEventView {
    AuthSuccess { user: Seq<char> },
    AuthFailure { user: Seq<char>, ip: IpAddr },
    Blocked { ip: IpAddr, reason: Seq<char> },
    RateLimited { ip: IpAddr },
    FirewallPaused,
    FirewallResumed,
}

impl View for AuditEvent {
    type V = AuditEventView;

    open spec fn view(&self) -> AuditEventView {
        match self {
            AuditEvent::AuthSuccess { user } => AuditEventView::AuthSuccess { user: user@ },
            AuditEvent::AuthFailure { user, ip } => AuditEventView::AuthFailure {
                user: user@,
                ip: *ip,
            },
            AuditEvent::Blocked { ip, reason } => AuditEventView::Blocked {
                ip: *ip,
                reason: reason@,
            },
            AuditEvent::RateLimited { ip } => AuditEventView::RateLimited { ip: *ip },
            AuditEvent::FirewallPaused => AuditEventView::FirewallPaused,
            AuditEvent::FirewallResumed => AuditEventView::FirewallResumed,
        }
    }
}

impl Clone for AuditEvent {
    fn clone(&self) -> (r: AuditEvent)
        ensures
            r@ == self@,
    {
        match self {
            AuditEvent::AuthSuccess { user } => AuditEvent::AuthSuccess { user: user.clone() },
            AuditEvent::AuthFailure { user, ip } => AuditEvent::AuthFailure {
                user: user.clone(),
                ip: *ip,
            },
            AuditEvent::Blocked { ip, reason } => AuditEvent::Blocked {
                ip: *ip,
                reason: reason.clone(),
            },
            AuditEvent::RateLimited { ip } => AuditEvent::RateLimited { ip: *ip },
            AuditEvent::FirewallPaused => AuditEvent::FirewallPaused,
            AuditEvent::FirewallResumed => AuditEvent::FirewallResumed,
        }
    }
}

/// A control character (Unicode category Cc).
pub open spec fn control(c: char) -> bool {
    c as u32 <= 0x1f || 0x7f <= c as u32 <= 0x9f
}

/// Whether no character is a control character.
pub open spec fn free_of_controls(s: Seq<char>) -> bool {
    forall|i: int| 0 <= i < s.len() ==> !control(#[trigger] s[i])
}

/// The text with a space in place of each control character.
pub open spec fn sanitized(s: Seq<char>) -> Seq<char> {
    s.map_values(
        |c: char|
            if control(c) {
                ' '
            } else {
                c
            },
    )
}

impl AuditEventView {
    /// The single-line encoding of an event.
    pub open spec fn encoded(self) -> Seq<char> {
        match self {
            AuditEventView::AuthSuccess { user } => "auth_success user="@ + sanitized(user),
            AuditEventView::AuthFailure { user, ip } => "auth_failure user="@ + sanitized(user)
                + " ip="@ + ip_text(ip),
            AuditEventView::Blocked { ip, reason } => "blocked ip="@ + ip_text(ip) + " reason="@
                + sanitized(reason),
            AuditEventView::RateLimited { ip } => "rate_limited ip="@ + ip_text(ip),
            AuditEventView::FirewallPaused => "firewall_paused"@,
            AuditEventView::FirewallResumed => "firewall_resumed"@,
        }
    }
}

/// Replace control characters so an encoded event stays a single, framed line in the
/// durable sink.
fn sanitize(s: &str) -> (r: Vec<char>)
    ensures
        r@ == sanitized(s@),
{
    let chars = chars_of(s);
    let mut out: Vec<char> = Vec::new();
    let mut i: usize = 0;
    while i < chars.len()
        invariant
            chars@ == s@,
            i <= chars@.len(),
            out@ == sanitized(s@.take(i as int)),
        decreases chars@.len() - i,
    {
        let c = chars[i];
        let code = c as u32;
        out.push(
            if code <= 0x1f || (0x7f <= code && code <= 0x9f) {
                ' '
            } else {
                c
            },
        );
        assert(out@ =~= sanitized(s@.take(i + 1)));
        i = i + 1;
    }
    assert(s@.take(i as int) =~= s@);
    out
}

impl AuditEvent {
    /// A single-line, tab/newline-free encoding for the durable audit sink.
    /// User/reason strings are sanitised of control characters so a record is always
    /// exactly one line and the sink's field framing is never broken.
    pub fn encode(&self) -> (r: String)
        ensures
            r@ == self@.encoded(),
    {
        let mut out: Vec<char> = Vec::new();
        match self {
            AuditEvent::AuthSuccess { user } => {
                push_str(&mut out, "auth_success user=");
                push_all(&mut out, sanitize(user.as_str()).as_slice());
            },
            AuditEvent::AuthFailure { user, ip } => {
                push_str(&mut out, "auth_failure user=");
                push_all(&mut out, sanitize(user.as_str()).as_slice());
                push_str(&mut out, " ip=");
                push_str(&mut out, ip.to_string().as_str());
            },
            AuditEvent::Blocked { ip, reason } => {
                push_str(&mut out, "blocked ip=");
                push_str(&mut out, ip.to_string().as_str());
                push_str(&mut out, " reason=");
                push_all(&mut out, sanitize(reason.as_str()).as_slice());
            },
            AuditEvent::RateLimited { ip } => {
                push_str(&mut out, "rate_limited ip=");
                push_str(&mut out, ip.to_string().as_str());
            },
            AuditEvent::FirewallPaused => {
                push_str(&mut out, "firewall_paused");
            },
            AuditEvent::FirewallResumed => {
                push_str(&mut out, "firewall_resumed");
            },
        }
        assert(out@ =~= self@.encoded());
        string_of(out.as_slice())
    }
}

/// A capacity-bounded ring of the most recent [`AuditEvent`]s.
pub struct AuditLog {
    ring: Ring<AuditEvent>,
}

impl View for AuditLog {
    type V = Seq<AuditEventView>;

    /// The retained events, oldest first.
    closed spec fn view(&self) -> Seq<AuditEventView> {
        self.ring@.map_values(|e: AuditEvent| e@)
    }
}

impl AuditLog {
    /// How many events are retained at most.
    pub closed spec fn cap(&self) -> nat {
        self.ring.cap()
    }

    /// Create an audit log from configuration (a capacity of at least 1).
    pub fn new(config: &AuditConfig) -> (r: AuditLog)
        ensures
            r@ == Seq::<AuditEventView>::empty(),
            r.cap() == if config.capacity == 0 {
                1
            } else {
                config.capacity as nat
            },
    {
        let r = AuditLog { ring: Ring::new(config.capacity) };
        assert(r@ =~= Seq::<AuditEventView>::empty());
        r
    }

    /// Append an event to the recent ring, evicting the oldest entry if at capacity.
    pub fn record(&mut self, event: AuditEvent)
        ensures
            final(self)@ == ring_push(old(self)@, old(self).cap(), event@),
            final(self).cap() == old(self).cap(),
    {
        let ghost before = self.ring@;
        self.ring.push(event);
        proof {
            let shown = |e: AuditEvent| e@;
            if before.len() > 0 {
                assert(before.skip(1).map_values(shown) =~= before.map_values(shown).skip(1));
                assert(before.skip(1).push(event).map_values(shown) =~= before.skip(1).map_values(
                    shown,
                ).push(event@));
            }
            assert(before.push(event).map_values(shown) =~= before.map_values(shown).push(event@));
        }
    }

    /// A snapshot of the retained events, oldest first.
    pub fn recent(&self) -> (r: Vec<AuditEvent>)
        ensures
            r@.map_values(|e: AuditEvent| e@) == self@,
    {
        let mut out: Vec<AuditEvent> = Vec::new();
        let mut i: usize = 0;
        while i < self.ring.len()
            invariant
                i <= self.ring@.len(),
                out@.map_values(|e: AuditEvent| e@) == self@.take(i as int),
            decreases self.ring@.len() - i,
        {
            let event = self.ring.get(i).clone();
            let ghost before = out@;
            out.push(event);
            proof {
                assert(out@.map_values(|e: AuditEvent| e@) =~= before.map_values(
                    |e: AuditEvent| e@,
                ).push(event@));
                assert(self@.take(i + 1) =~= self@.take(i as int).push(self@[i as int]));
            }
            i = i + 1;
        }
        assert(self@.take(i as int) =~= self@);
        out
    }

    /// Number of events currently retained, never more than the capacity.
    pub fn len(&self) -> (r: usize)
        ensures
            r == self@.len(),
            r <= self.cap(),
    {
        self.ring.len()
    }

    /// Whether the recent ring is empty.
    pub fn is_empty(&self) -> (r: bool)
        ensures
            r == (self@.len() == 0),
    {
        self.ring.len() == 0
    }
}

// ---------------------------------------------------------------------------
// Laws
// ---------------------------------------------------------------------------

/// An encoded event holds no control character: no tab and no line break.
pub proof fn law_encoding_is_one_field_of_one_line(event: AuditEventView)
    ensures
        free_of_controls(event.encoded()),
{
    reveal_strlit("auth_success user=");
    reveal_strlit("auth_failure user=");
    reveal_strlit("blocked ip=");
    reveal_strlit("rate_limited ip=");
    reveal_strlit(" ip=");
    reveal_strlit(" reason=");
    reveal_strlit("firewall_paused");
    reveal_strlit("firewall_resumed");
    match event {
        AuditEventView::AuthFailure { user, ip } => {
            lemma_ip_text_is_graphic(ip);
        },
        AuditEventView::Blocked { ip, reason } => {
            lemma_ip_text_is_graphic(ip);
        },
        AuditEventView::RateLimited { ip } => {
            lemma_ip_text_is_graphic(ip);
        },
        _ => {},
    }
}

} // verus!
