//! What operations return, for every call of them.

use vstd::prelude::*;

use crate::clock::{Duration, Timestamp};
use crate::security::audit::sink::{intact, linked, ChainStatus, DurableAuditSink};
use crate::security::credential::reciever::{outcome, AuthOutcome};
use crate::security::error::SecurityError;
use crate::security::firewall::limit::Quota;
use crate::text::lines_of;

verus! {

/// A chain is valid exactly where every line is linked, and its records are its lines;
/// otherwise it is broken at the first line that is not linked.
pub proof fn law_chain_is_broken_at_the_first_unlinked_line(text: &str, r: ChainStatus, i: int)
    requires
        call_ensures(DurableAuditSink::verify, (text,), r),
        0 <= i < lines_of(text@).len(),
    ensures
        r matches ChainStatus::Valid { records } ==> linked(lines_of(text@), i) && records
            == lines_of(text@).len(),
        r matches ChainStatus::BrokenAt { line } ==> !linked(lines_of(text@), line as int)
            && line < lines_of(text@).len() && (i < line ==> linked(lines_of(text@), i)),
{
    let all = lines_of(text@);
    if let ChainStatus::BrokenAt { line } = r {
        let front = all.take(line as int);
        assert(intact(front));
        if i < line {
            assert(linked(front, i));
            assert(front[i] == all[i]);
            if i > 0 {
                assert(front[i - 1] == all[i - 1]);
            }
        }
    } else {
        assert(intact(all));
    }
}

/// A quota per second, minute or hour admits that many at once and replenishes one in its
/// share of that time.
pub proof fn law_quota_is_spread_over_its_window(
    cells: u32,
    second: Quota,
    minute: Quota,
    hour: Quota,
)
    requires
        cells > 0,
        call_ensures(Quota::per_second, (cells,), second),
        call_ensures(Quota::per_minute, (cells,), minute),
        call_ensures(Quota::per_hour, (cells,), hour),
    ensures
        second.max_burst == cells && minute.max_burst == cells && hour.max_burst == cells,
        second.replenish_nanos == 1_000_000_000u64 / cells as u64,
        minute.replenish_nanos == 60_000_000_000u64 / cells as u64,
        hour.replenish_nanos == 3_600_000_000_000u64 / cells as u64,
{
}

/// A password that verifies authenticates, one that does not is rejected, and an error is
/// passed on.
pub proof fn law_outcome_of_a_verification(
    verified: Result<bool, SecurityError>,
    r: Result<AuthOutcome, SecurityError>,
)
    requires
        call_ensures(outcome, (verified,), r),
    ensures
        verified == Ok::<bool, SecurityError>(true) <==> r == Ok::<AuthOutcome, SecurityError>(
            AuthOutcome::Authenticated,
        ),
        verified == Ok::<bool, SecurityError>(false) <==> r == Ok::<AuthOutcome, SecurityError>(
            AuthOutcome::Rejected,
        ),
        verified is Err <==> r is Err,
{
}

/// Time adds up: a span of seconds later is that many thousand million nanoseconds later, and
/// the span since then is that span again. There is a point in time a span later exactly where
/// its whole seconds fit in an `i64`.
pub proof fn law_spans_add_up(secs: u64, span: Duration, later: Duration, start: Timestamp)
    requires
        call_ensures(Duration::from_secs, (secs,), span),
    ensures
        span.nanos == secs * 1_000_000_000,
        start.plus(later) is Some <==> (start.nanos + later.nanos) / 1_000_000_000 <= i64::MAX,
        start.plus(later) is Some ==> start.plus(later)->0.nanos == start.nanos + later.nanos,
        start.plus(later) is Some ==> start.plus(later)->0.since(start) == later,
        start.plus(later) is Some ==> start.since(start.plus(later)->0).nanos == 0,
{
}

} // verus!
