//! What holds of every run of several sessions, whatever the transport answers.
//!
//! The statements speak of `device_run::trace`, the exchanges that take place
//! when a driver performs each pending action and hands back the reply, and
//! they hold for every sequence of replies:
//!
//! - `lemma_every_claim_released`: as many releases as successful claims;
//! - `lemma_reattach_needs_own_detach`, `lemma_reattach_iff_detached_on`: a
//!   driver is reattached only where this run detached it;
//! - `lemma_acquisition_once`: one query and one claim for each endpoint, a
//!   detach exactly where the query said "bound";
//! - `lemma_transfers_run_once`: the transfers come after the claims and
//!   before the releases;
//! - `lemma_in_stages`: what leads up to `Ready` comes first, teardown last,
//!   and nothing is asked for but what the sessions may ask for;
//! - `lemma_result_tells`: what the result of a run says;
//! - `lemma_run_terminates`: a run ends;
//! - `lemma_single_endpoint`: one endpoint's run is its session.

use vstd::prelude::*;
use crate::descriptor::Endpoint;
use crate::device_run::{
    all_wf, awaited, finished, fresh, is_first_claimed, is_result, lemma_first_in_lane, next, run,
    trace, turn, Lane,
};
use crate::error::SessionError;
use crate::protocol::{count, in_stages, marked, Action, Exchange, Mark, Reply};
use crate::session::Session;
use crate::session_laws::{lemma_may_ask, lemma_step_counts, one_if};

verus! {

/// How many exchanges that count as `mark` on the interfaces in `scope` lie
/// behind the sessions together.
pub open spec fn total(sessions: Seq<Session>, mark: Mark, scope: Option<u8>) -> nat
    decreases sessions.len(),
{
    if sessions.len() == 0 {
        0
    } else {
        total(sessions.drop_last(), mark, scope) + sessions.last().behind(mark, scope)
    }
}

/// An upper bound on the number of replies that the sessions together still take.
pub open spec fn remaining(sessions: Seq<Session>) -> nat
    decreases sessions.len(),
{
    if sessions.len() == 0 {
        0
    } else {
        remaining(sessions.drop_last()) + sessions.last().step.remaining()
    }
}

/// Replacing one session changes the total by what that session contributes.
proof fn lemma_total_update(
    sessions: Seq<Session>,
    k: int,
    changed: Session,
    mark: Mark,
    scope: Option<u8>,
)
    requires
        0 <= k < sessions.len(),
    ensures
        total(sessions.update(k, changed), mark, scope) + sessions[k].behind(mark, scope)
            == total(sessions, mark, scope) + changed.behind(mark, scope),
        remaining(sessions.update(k, changed)) + sessions[k].step.remaining() == remaining(
            sessions,
        ) + changed.step.remaining(),
    decreases sessions.len(),
{
    let after = sessions.update(k, changed);
    if k == sessions.len() - 1 {
        assert(after.drop_last() =~= sessions.drop_last());
    } else {
        lemma_total_update(sessions.drop_last(), k, changed, mark, scope);
        assert(after.drop_last() =~= sessions.drop_last().update(k, changed));
    }
}

/// Sessions that contribute no more one by one contribute no more together.
proof fn lemma_total_pointwise(
    a: Seq<Session>,
    ma: Mark,
    b: Seq<Session>,
    mb: Mark,
    scope: Option<u8>,
)
    requires
        a.len() == b.len(),
        forall|k: int|
            0 <= k < a.len() ==> (#[trigger] a[k]).behind(ma, scope) <= (#[trigger] b[k]).behind(
                mb,
                scope,
            ),
    ensures
        total(a, ma, scope) <= total(b, mb, scope),
        (forall|k: int|
            0 <= k < a.len() ==> (#[trigger] a[k]).behind(ma, scope) == (#[trigger] b[k]).behind(
                mb,
                scope,
            )) ==> total(a, ma, scope) == total(b, mb, scope),
    decreases a.len(),
{
    if a.len() > 0 {
        assert forall|k: int| 0 <= k < a.len() - 1 implies (#[trigger] a.drop_last()[k]).behind(
            ma,
            scope,
        ) <= (#[trigger] b.drop_last()[k]).behind(mb, scope) by {
            assert(a[k].behind(ma, scope) <= b[k].behind(mb, scope));
        }
        lemma_total_pointwise(a.drop_last(), ma, b.drop_last(), mb, scope);
        assert(a[a.len() - 1].behind(ma, scope) <= b[a.len() - 1].behind(mb, scope));
        if forall|k: int|
            0 <= k < a.len() ==> (#[trigger] a[k]).behind(ma, scope) == (#[trigger] b[k]).behind(
                mb,
                scope,
            ) {
            assert forall|k: int| 0 <= k < a.len() - 1 implies (
            #[trigger] a.drop_last()[k]).behind(ma, scope) == (#[trigger] b.drop_last()[k]).behind(
                mb,
                scope,
            ) by {
                assert(a[k].behind(ma, scope) == b[k].behind(mb, scope));
            }
            assert(a[a.len() - 1].behind(ma, scope) == b[a.len() - 1].behind(mb, scope));
        }
    }
}

/// Sessions that are each no farther from their end, and one of them nearer,
/// are nearer to the end together.
proof fn lemma_remaining_pointwise(a: Seq<Session>, b: Seq<Session>)
    requires
        a.len() == b.len(),
        forall|k: int|
            0 <= k < a.len() ==> (#[trigger] a[k]).step.remaining() <= (
            #[trigger] b[k]).step.remaining(),
    ensures
        remaining(a) <= remaining(b),
        (exists|k: int|
            0 <= k < a.len() && (#[trigger] a[k]).step.remaining() < (
            #[trigger] b[k]).step.remaining()) ==> remaining(a) < remaining(b),
    decreases a.len(),
{
    if a.len() > 0 {
        let n = a.len() - 1;
        assert forall|k: int| 0 <= k < n implies (#[trigger] a.drop_last()[k]).step.remaining() <= (
        #[trigger] b.drop_last()[k]).step.remaining() by {
            assert(a[k].step.remaining() <= b[k].step.remaining());
        }
        lemma_remaining_pointwise(a.drop_last(), b.drop_last());
        assert(a[n].step.remaining() <= b[n].step.remaining());
        if exists|k: int|
            0 <= k < a.len() && (#[trigger] a[k]).step.remaining() < (
            #[trigger] b[k]).step.remaining() {
            let k = choose|k: int|
                0 <= k < a.len() && (#[trigger] a[k]).step.remaining() < (
                #[trigger] b[k]).step.remaining();
            if k < n {
                assert(a.drop_last()[k].step.remaining() < b.drop_last()[k].step.remaining());
            }
        }
    }
}

/// No session contributes more than one exchange of a kind.
proof fn lemma_total_bound(sessions: Seq<Session>, mark: Mark, scope: Option<u8>)
    ensures
        total(sessions, mark, scope) <= sessions.len(),
    decreases sessions.len(),
{
    if sessions.len() > 0 {
        lemma_total_bound(sessions.drop_last(), mark, scope);
    }
}

/// Fresh sessions have nothing behind them.
pub(crate) proof fn lemma_fresh(endpoints: Seq<Endpoint>, mark: Mark, scope: Option<u8>)
    ensures
        total(fresh(endpoints), mark, scope) == 0,
        remaining(fresh(endpoints)) == 8 * endpoints.len(),
        all_wf(fresh(endpoints)),
        fresh(endpoints).len() == endpoints.len(),
    decreases endpoints.len(),
{
    if endpoints.len() > 0 {
        lemma_fresh(endpoints.drop_last(), mark, scope);
        assert(fresh(endpoints).drop_last() =~= fresh(endpoints.drop_last()));
    }
}

/// One reply moves the bookkeeping of the sessions by exactly what the
/// exchange means. (The caller's transfers are shared by the sessions and are
/// not counted per session.)
proof fn lemma_next_counts(
    sessions: Seq<Session>,
    reply: Reply,
    mark: Mark,
    scope: Option<u8>,
)
    requires
        all_wf(sessions),
        mark.per_session(),
    ensures
        all_wf(next(sessions, reply)),
        next(sessions, reply).len() == sessions.len(),
        forall|k: int|
            0 <= k < sessions.len() ==> (#[trigger] next(sessions, reply)[k]).endpoint
                == sessions[k].endpoint,
        awaited(sessions) matches Some(action) ==> total(next(sessions, reply), mark, scope)
            == total(sessions, mark, scope) + one_if(Exchange { action, reply }.marks(mark, scope)),
        awaited(sessions) is None ==> next(sessions, reply) == sessions,
{
    let after = next(sessions, reply);
    lemma_first_in_lane(sessions, Lane::Acquire);
    lemma_first_in_lane(sessions, Lane::Transfer);
    lemma_first_in_lane(sessions, Lane::Teardown);
    match turn(sessions) {
        Some((Lane::Transfer, k)) => {
            assert(sessions[k].awaited() == Some(Action::Transfer));
            assert forall|j: int| 0 <= j < sessions.len() implies (#[trigger] after[j]).wf()
                && after[j].endpoint == sessions[j].endpoint && after[j].behind(mark, scope)
                == sessions[j].behind(mark, scope) by {
                assert(sessions[j].wf());
                lemma_step_counts(sessions[j], reply, mark, scope);
            }
            assert forall|j: int| 0 <= j < sessions.len() implies (#[trigger] after[j]).behind(
                mark,
                scope,
            ) <= (#[trigger] sessions[j]).behind(mark, scope) by {
                assert(after[j].behind(mark, scope) == sessions[j].behind(mark, scope));
            }
            lemma_total_pointwise(after, mark, sessions, mark, scope);
            assert forall|j: int| 0 <= j < sessions.len() implies (#[trigger] sessions[j]).behind(
                mark,
                scope,
            ) <= (#[trigger] after[j]).behind(mark, scope) by {
                assert(after[j].behind(mark, scope) == sessions[j].behind(mark, scope));
            }
            lemma_total_pointwise(sessions, mark, after, mark, scope);
        },
        Some((_, k)) => {
            assert(sessions[k].wf());
            lemma_step_counts(sessions[k], reply, mark, scope);
            lemma_total_update(sessions, k, sessions[k].next(reply), mark, scope);
            assert forall|j: int| 0 <= j < sessions.len() implies (#[trigger] after[j]).wf()
                && after[j].endpoint == sessions[j].endpoint by {
                assert(sessions[j].wf());
            }
        },
        None => {},
    }
}

/// Each reply brings a run that is not finished strictly nearer to its end.
pub(crate) proof fn lemma_next_decreases(sessions: Seq<Session>, reply: Reply)
    ensures
        awaited(sessions) is Some ==> remaining(next(sessions, reply)) < remaining(sessions),
        awaited(sessions) is None ==> next(sessions, reply) == sessions,
        awaited(sessions) is Some <==> turn(sessions) is Some,
        turn(sessions) is None <==> finished(sessions),
{
    let after = next(sessions, reply);
    lemma_first_in_lane(sessions, Lane::Acquire);
    lemma_first_in_lane(sessions, Lane::Transfer);
    lemma_first_in_lane(sessions, Lane::Teardown);
    match turn(sessions) {
        Some((Lane::Transfer, k)) => {
            assert forall|j: int| 0 <= j < sessions.len() implies (
            #[trigger] after[j]).step.remaining() <= (#[trigger] sessions[j]).step.remaining() by {}
            assert(after[k].step.remaining() < sessions[k].step.remaining());
            lemma_remaining_pointwise(after, sessions);
            assert(!(sessions[k].step is Closed));
        },
        Some((_, k)) => {
            lemma_total_update(sessions, k, sessions[k].next(reply), Mark::Claimed, None);
            assert(!(sessions[k].step is Closed));
        },
        None => {
            assert forall|j: int| 0 <= j < sessions.len() implies (
            #[trigger] sessions[j]).step is Closed by {
                assert(!sessions[j].in_lane(Lane::Acquire));
                assert(!sessions[j].in_lane(Lane::Transfer));
                assert(!sessions[j].in_lane(Lane::Teardown));
            }
        },
    }
}

/// A run is over after eight replies for each endpoint at most.
pub proof fn lemma_run_terminates(sessions: Seq<Session>, replies: Seq<Reply>)
    ensures
        trace(sessions, replies).len() <= replies.len(),
        trace(sessions, replies).len() + remaining(run(sessions, replies)) <= remaining(sessions),
        remaining(run(sessions, replies)) + replies.len() <= remaining(sessions) || finished(
            run(sessions, replies),
        ),
        replies.len() >= remaining(sessions) ==> finished(run(sessions, replies)),
    decreases replies.len(),
{
    if replies.len() > 0 {
        lemma_run_terminates(sessions, replies.drop_last());
        lemma_next_decreases(run(sessions, replies.drop_last()), replies.last());
    } else {
        lemma_next_decreases(sessions, Reply::Done);
    }
    lemma_next_decreases(run(sessions, replies), Reply::Done);
}

/// Over a whole run the trace counts exactly what the sessions went through.
pub(crate) proof fn lemma_run_counts(
    sessions: Seq<Session>,
    replies: Seq<Reply>,
    mark: Mark,
    scope: Option<u8>,
)
    requires
        all_wf(sessions),
        mark.per_session(),
    ensures
        all_wf(run(sessions, replies)),
        run(sessions, replies).len() == sessions.len(),
        forall|k: int|
            0 <= k < sessions.len() ==> (#[trigger] run(sessions, replies)[k]).endpoint
                == sessions[k].endpoint,
        count(trace(sessions, replies), mark, scope) + total(sessions, mark, scope) == total(
            run(sessions, replies),
            mark,
            scope,
        ),
    decreases replies.len(),
{
    if replies.len() == 0 {
        assert(trace(sessions, replies).filter(marked(mark, scope)) =~= Seq::<Exchange>::empty())
            by {
            reveal(Seq::filter);
        }
    } else {
        let before = run(sessions, replies.drop_last());
        let earlier = trace(sessions, replies.drop_last());
        lemma_run_counts(sessions, replies.drop_last(), mark, scope);
        lemma_next_counts(before, replies.last(), mark, scope);
        match awaited(before) {
            Some(action) => {
                earlier.lemma_filter_push(
                    Exchange { action, reply: replies.last() },
                    marked(mark, scope),
                );
            },
            None => {},
        }
        assert forall|k: int| 0 <= k < sessions.len() implies (#[trigger] run(
            sessions,
            replies,
        )[k]).endpoint == sessions[k].endpoint by {
            assert(before[k].endpoint == sessions[k].endpoint);
        }
    }
}

/// Every interface that is claimed is released, once for each claim.
///
/// For any list of endpoints and at every moment of the run, no more releases
/// than successful claims lie behind it, and no more claims than endpoints.
/// Once every session is closed, which is when the driver loop ends, the
/// number of releases equals the number of successful claims, on the whole
/// and for each interface by itself. `replies` is arbitrary: this holds too
/// when the caller's transfers failed.
pub proof fn lemma_every_claim_released(
    endpoints: Seq<Endpoint>,
    replies: Seq<Reply>,
    scope: Option<u8>,
)
    ensures
        ({
            let exchanges = trace(fresh(endpoints), replies);
            let end = run(fresh(endpoints), replies);
            &&& count(exchanges, Mark::Released, scope) <= count(exchanges, Mark::Claimed, scope)
                <= endpoints.len()
            &&& finished(end) ==> count(exchanges, Mark::Released, scope) == count(
                exchanges,
                Mark::Claimed,
                scope,
            )
        }),
{
    let start = fresh(endpoints);
    let end = run(start, replies);
    lemma_fresh(endpoints, Mark::Released, scope);
    lemma_fresh(endpoints, Mark::Claimed, scope);
    lemma_run_counts(start, replies, Mark::Released, scope);
    lemma_run_counts(start, replies, Mark::Claimed, scope);
    lemma_total_bound(end, Mark::Claimed, scope);
    lemma_total_pointwise(end, Mark::Released, end, Mark::Claimed, scope);
}

/// The kernel's driver is never reattached more often than this run detached it.
///
/// For every interface by itself, and on the whole: at every moment of the
/// run, no more reattaches lie behind it than successful detaches, and no
/// more than releases. So releasing one endpoint's interface never reattaches
/// a driver on the strength of a detach on another interface.
pub proof fn lemma_reattach_needs_own_detach(
    endpoints: Seq<Endpoint>,
    replies: Seq<Reply>,
    scope: Option<u8>,
)
    ensures
        ({
            let exchanges = trace(fresh(endpoints), replies);
            &&& count(exchanges, Mark::Reattached, scope) <= count(
                exchanges,
                Mark::Detached,
                scope,
            )
            &&& count(exchanges, Mark::Reattached, scope) <= count(
                exchanges,
                Mark::Released,
                scope,
            )
        }),
{
    let start = fresh(endpoints);
    let end = run(start, replies);
    lemma_fresh(endpoints, Mark::Reattached, scope);
    lemma_fresh(endpoints, Mark::Detached, scope);
    lemma_fresh(endpoints, Mark::Released, scope);
    lemma_run_counts(start, replies, Mark::Reattached, scope);
    lemma_run_counts(start, replies, Mark::Detached, scope);
    lemma_run_counts(start, replies, Mark::Released, scope);
    lemma_total_pointwise(end, Mark::Reattached, end, Mark::Detached, scope);
    lemma_total_pointwise(end, Mark::Reattached, end, Mark::Released, scope);
}

/// Sessions on other interfaces contribute nothing to the counts of one interface.
proof fn lemma_total_single(
    sessions: Seq<Session>,
    k: int,
    mark: Mark,
    iface: u8,
)
    requires
        0 <= k < sessions.len(),
        forall|j: int|
            0 <= j < sessions.len() && j != k ==> (#[trigger] sessions[j]).endpoint.iface != iface,
    ensures
        total(sessions, mark, Some(iface)) == sessions[k].behind(mark, Some(iface)),
    decreases sessions.len(),
{
    let n = sessions.len() - 1;
    if k == n {
        lemma_total_absent(sessions.drop_last(), mark, iface);
    } else {
        assert(sessions[n].endpoint.iface != iface);
        lemma_total_single(sessions.drop_last(), k, mark, iface);
    }
}

/// Where no session is on an interface, nothing is counted for it.
proof fn lemma_total_absent(sessions: Seq<Session>, mark: Mark, iface: u8)
    requires
        forall|j: int| 0 <= j < sessions.len() ==> (#[trigger] sessions[j]).endpoint.iface != iface,
    ensures
        total(sessions, mark, Some(iface)) == 0,
    decreases sessions.len(),
{
    if sessions.len() > 0 {
        assert(sessions[sessions.len() - 1].endpoint.iface != iface);
        lemma_total_absent(sessions.drop_last(), mark, iface);
    }
}

/// On an interface that one endpoint alone uses, the kernel's driver is
/// reattached if and only if this run detached it there.
///
/// Let `k` be the one endpoint on its interface. Then at most one claim,
/// release, detach and reattach on that interface lie behind the run, and once
/// every session is closed, a reattach was asked for exactly if the driver had
/// been detached by this run and the interface released. What happened on the
/// other interfaces has no part in it.
pub proof fn lemma_reattach_iff_detached_on(endpoints: Seq<Endpoint>, replies: Seq<Reply>, k: int)
    requires
        0 <= k < endpoints.len(),
        forall|j: int|
            0 <= j < endpoints.len() && j != k ==> (#[trigger] endpoints[j]).iface
                != endpoints[k].iface,
    ensures
        ({
            let exchanges = trace(fresh(endpoints), replies);
            let end = run(fresh(endpoints), replies);
            let scope = Some(endpoints[k].iface);
            let reattached = count(exchanges, Mark::Reattached, scope);
            let detached = count(exchanges, Mark::Detached, scope);
            let released = count(exchanges, Mark::Released, scope);
            let claimed = count(exchanges, Mark::Claimed, scope);
            &&& reattached <= 1 && detached <= 1 && released <= 1 && claimed <= 1
            &&& finished(end) ==> released == claimed
            &&& finished(end) ==> (reattached == 1 <==> detached == 1 && released == 1)
        }),
{
    let start = fresh(endpoints);
    let end = run(start, replies);
    let iface = endpoints[k].iface;
    let scope = Some(iface);
    lemma_fresh(endpoints, Mark::Reattached, scope);
    lemma_fresh(endpoints, Mark::Detached, scope);
    lemma_fresh(endpoints, Mark::Released, scope);
    lemma_fresh(endpoints, Mark::Claimed, scope);
    lemma_run_counts(start, replies, Mark::Reattached, scope);
    lemma_run_counts(start, replies, Mark::Detached, scope);
    lemma_run_counts(start, replies, Mark::Released, scope);
    lemma_run_counts(start, replies, Mark::Claimed, scope);
    assert(end[k].endpoint == start[k].endpoint);
    assert forall|j: int| 0 <= j < end.len() && j != k implies (#[trigger] end[j]).endpoint.iface
        != iface by {
        assert(end[j].endpoint == start[j].endpoint);
        assert(endpoints[j].iface != iface);
    }
    lemma_total_single(end, k, Mark::Reattached, iface);
    lemma_total_single(end, k, Mark::Detached, iface);
    lemma_total_single(end, k, Mark::Released, iface);
    lemma_total_single(end, k, Mark::Claimed, iface);
    if finished(end) {
        assert(end[k].step is Closed);
    }
}

/// Sessions that each contribute one contribute their number together.
proof fn lemma_total_all(sessions: Seq<Session>, mark: Mark)
    requires
        forall|k: int| 0 <= k < sessions.len() ==> (#[trigger] sessions[k]).behind(mark, None) == 1,
    ensures
        total(sessions, mark, None) == sessions.len(),
    decreases sessions.len(),
{
    if sessions.len() > 0 {
        assert forall|k: int| 0 <= k < sessions.len() - 1 implies (
        #[trigger] sessions.drop_last()[k]).behind(mark, None) == 1 by {
            assert(sessions[k].behind(mark, None) == 1);
        }
        lemma_total_all(sessions.drop_last(), mark);
        assert(sessions[sessions.len() - 1].behind(mark, None) == 1);
    }
}

/// Each endpoint's acquisition is asked for once, and a detach exactly where
/// the query said "bound".
///
/// For every interface by itself, and on the whole: at every moment of a run
/// no more detaches were asked for than queries had answered "bound", and no
/// detach succeeded that was not asked for. Once every session is closed, a
/// detach was asked for exactly as often as a query had answered "bound";
/// the kernel's driver was asked about once for each endpoint, and the claim
/// was asked for once for each endpoint. So where every claim succeeds, there
/// are as many releases as endpoints; and on an interface that one endpoint
/// alone uses there is one query and one claim, a detach exactly if the query
/// answered "bound", and one release exactly if the claim succeeded.
pub proof fn lemma_acquisition_once(endpoints: Seq<Endpoint>, replies: Seq<Reply>, scope: Option<u8>)
    ensures
        ({
            let exchanges = trace(fresh(endpoints), replies);
            let end = run(fresh(endpoints), replies);
            let bound = count(exchanges, Mark::FoundBound, scope);
            let detach = count(exchanges, Mark::DetachAsked, scope);
            &&& count(exchanges, Mark::Detached, scope) <= detach <= bound <= count(
                exchanges,
                Mark::Queried,
                scope,
            )
            &&& count(exchanges, Mark::Claimed, scope) <= count(exchanges, Mark::ClaimAsked, scope)
            &&& finished(end) ==> detach == bound && count(exchanges, Mark::ClaimAsked, scope)
                == count(exchanges, Mark::Queried, scope)
            &&& finished(end) ==> count(exchanges, Mark::ClaimAsked, None) == endpoints.len()
            &&& forall|k: int|
                finished(end) && 0 <= k < endpoints.len() && scope == Some(endpoints[k].iface)
                    && (forall|j: int|
                    0 <= j < endpoints.len() && j != k ==> (#[trigger] endpoints[j]).iface
                        != endpoints[k].iface) ==> count(exchanges, Mark::ClaimAsked, scope) == 1
        }),
{
    let start = fresh(endpoints);
    let exchanges = trace(start, replies);
    let end = run(start, replies);
    lemma_fresh(endpoints, Mark::FoundBound, scope);
    lemma_fresh(endpoints, Mark::DetachAsked, scope);
    lemma_fresh(endpoints, Mark::Detached, scope);
    lemma_fresh(endpoints, Mark::Queried, scope);
    lemma_fresh(endpoints, Mark::Claimed, scope);
    lemma_fresh(endpoints, Mark::ClaimAsked, scope);
    lemma_fresh(endpoints, Mark::ClaimAsked, None);
    lemma_run_counts(start, replies, Mark::FoundBound, scope);
    lemma_run_counts(start, replies, Mark::DetachAsked, scope);
    lemma_run_counts(start, replies, Mark::Detached, scope);
    lemma_run_counts(start, replies, Mark::Queried, scope);
    lemma_run_counts(start, replies, Mark::Claimed, scope);
    lemma_run_counts(start, replies, Mark::ClaimAsked, scope);
    lemma_run_counts(start, replies, Mark::ClaimAsked, None);
    lemma_total_pointwise(end, Mark::Detached, end, Mark::DetachAsked, scope);
    lemma_total_pointwise(end, Mark::DetachAsked, end, Mark::FoundBound, scope);
    lemma_total_pointwise(end, Mark::FoundBound, end, Mark::Queried, scope);
    lemma_total_pointwise(end, Mark::Claimed, end, Mark::ClaimAsked, scope);
    if finished(end) {
        assert forall|k: int| 0 <= k < end.len() implies (#[trigger] end[k]).behind(
            Mark::FoundBound,
            scope,
        ) <= (#[trigger] end[k]).behind(Mark::DetachAsked, scope) && end[k].behind(
            Mark::FoundBound,
            scope,
        ) == end[k].behind(Mark::DetachAsked, scope) && end[k].behind(Mark::ClaimAsked, scope)
            == end[k].behind(Mark::Queried, scope) && end[k].behind(Mark::ClaimAsked, None)
            == 1 by {
            assert(end[k].step is Closed);
        }
        lemma_total_pointwise(end, Mark::FoundBound, end, Mark::DetachAsked, scope);
        assert forall|k: int| 0 <= k < end.len() implies (#[trigger] end[k]).behind(
            Mark::ClaimAsked,
            scope,
        ) <= (#[trigger] end[k]).behind(Mark::Queried, scope) by {
            assert(end[k].step is Closed);
        }
        lemma_total_pointwise(end, Mark::ClaimAsked, end, Mark::Queried, scope);
        lemma_total_all(end, Mark::ClaimAsked);
        assert forall|k: int|
            0 <= k < endpoints.len() && scope == Some(endpoints[k].iface) && (forall|j: int|
                0 <= j < endpoints.len() && j != k ==> (#[trigger] endpoints[j]).iface
                    != endpoints[k].iface) implies count(exchanges, Mark::ClaimAsked, scope)
            == 1 by {
            assert(end[k].endpoint == start[k].endpoint);
            assert forall|j: int| 0 <= j < end.len() && j != k implies (
            #[trigger] end[j]).endpoint.iface != endpoints[k].iface by {
                assert(end[j].endpoint == start[j].endpoint);
                assert(endpoints[j].iface != endpoints[k].iface);
            }
            lemma_total_single(end, k, Mark::ClaimAsked, endpoints[k].iface);
            assert(end[k].step is Closed);
        }
    }
}

/// Whether some session has the caller's transfers behind it.
pub open spec fn any_transferred(sessions: Seq<Session>) -> bool {
    exists|k: int| 0 <= k < sessions.len() && (#[trigger] sessions[k]).has_transferred()
}

/// Whether some session is still before the caller's transfers: on its way
/// to `Ready`, or `Ready`.
pub open spec fn any_before_transfer(sessions: Seq<Session>) -> bool {
    exists|k: int|
        0 <= k < sessions.len() && ((#[trigger] sessions[k]).in_lane(Lane::Acquire)
            || sessions[k].in_lane(Lane::Transfer))
}

/// What ties the trace to the sessions as far as the caller's transfers go:
/// they were run once if any session has them behind it, else not at all;
/// while a session is still before them, no session has them behind it; and
/// each session that has them behind it has their failure on record exactly
/// if they failed.
pub open spec fn transfer_in_order(sessions: Seq<Session>, exchanges: Seq<Exchange>) -> bool {
    &&& count(exchanges, Mark::Transferred, None) == one_if(any_transferred(sessions))
    &&& any_before_transfer(sessions) ==> !any_transferred(sessions)
    &&& count(exchanges, Mark::TransferFailed, None) <= count(exchanges, Mark::Transferred, None)
    &&& forall|k: int|
        0 <= k < sessions.len() && (#[trigger] sessions[k]).has_transferred() ==> (
        sessions[k].transfer_error is Some <==> count(exchanges, Mark::TransferFailed, None) == 1)
}

/// One reply keeps the caller's transfers in order.
proof fn lemma_transfer_step(sessions: Seq<Session>, exchanges: Seq<Exchange>, reply: Reply)
    requires
        all_wf(sessions),
        transfer_in_order(sessions, exchanges),
    ensures
        awaited(sessions) matches Some(action) ==> transfer_in_order(
            next(sessions, reply),
            exchanges.push(Exchange { action, reply }),
        ),
        awaited(sessions) is None ==> next(sessions, reply) == sessions,
{
    let after = next(sessions, reply);
    lemma_first_in_lane(sessions, Lane::Acquire);
    lemma_first_in_lane(sessions, Lane::Transfer);
    lemma_first_in_lane(sessions, Lane::Teardown);
    match turn(sessions) {
        Some((lane, k)) => {
            let action = sessions[k].awaited()->0;
            let x = Exchange { action, reply };
            exchanges.lemma_filter_push(x, marked(Mark::Transferred, None));
            exchanges.lemma_filter_push(x, marked(Mark::TransferFailed, None));
            assert(sessions[k].wf());
            match lane {
                Lane::Acquire => {
                    assert(sessions[k].in_lane(Lane::Acquire));
                    assert(!any_transferred(sessions));
                    assert forall|j: int| 0 <= j < after.len() implies !(
                    #[trigger] after[j]).has_transferred() by {
                        if j != k {
                            assert(!sessions[j].has_transferred());
                        }
                    }
                },
                Lane::Transfer => {
                    assert(sessions[k].in_lane(Lane::Transfer));
                    assert(!any_transferred(sessions));
                    assert(after[k].has_transferred());
                    assert forall|j: int|
                        0 <= j < after.len() && (#[trigger] after[j]).has_transferred() implies (
                    after[j].transfer_error is Some <==> !reply.succeeded()) by {
                        assert(!sessions[j].has_transferred());
                    }
                    assert forall|j: int| 0 <= j < after.len() implies !((
                    #[trigger] after[j]).in_lane(Lane::Acquire) || after[j].in_lane(
                        Lane::Transfer,
                    )) by {
                        assert(!sessions[j].in_lane(Lane::Acquire));
                    }
                },
                Lane::Teardown => {
                    assert(sessions[k].has_transferred());
                    assert(after[k].has_transferred());
                    assert forall|j: int|
                        0 <= j < after.len() && (#[trigger] after[j]).has_transferred() implies (
                    after[j].transfer_error is Some <==> count(
                        exchanges,
                        Mark::TransferFailed,
                        None,
                    ) == 1) by {
                        assert(sessions[j].has_transferred());
                    }
                    assert forall|j: int| 0 <= j < after.len() implies !((
                    #[trigger] after[j]).in_lane(Lane::Acquire) || after[j].in_lane(
                        Lane::Transfer,
                    )) by {
                        assert(!sessions[j].in_lane(Lane::Acquire));
                        assert(!sessions[j].in_lane(Lane::Transfer));
                    }
                },
            }
        },
        None => {},
    }
}

/// Over a whole run the caller's transfers stay in order.
proof fn lemma_transfer_run(sessions: Seq<Session>, replies: Seq<Reply>)
    requires
        all_wf(sessions),
        transfer_in_order(sessions, Seq::<Exchange>::empty()),
    ensures
        transfer_in_order(run(sessions, replies), trace(sessions, replies)),
    decreases replies.len(),
{
    if replies.len() > 0 {
        lemma_transfer_run(sessions, replies.drop_last());
        lemma_run_counts(sessions, replies.drop_last(), Mark::Claimed, None);
        lemma_transfer_step(
            run(sessions, replies.drop_last()),
            trace(sessions, replies.drop_last()),
            replies.last(),
        );
    }
}

/// Where some session contributes to a total, the total is not zero, and the
/// other way round.
proof fn lemma_total_positive(sessions: Seq<Session>, mark: Mark, scope: Option<u8>)
    ensures
        total(sessions, mark, scope) >= 1 <==> exists|k: int|
            0 <= k < sessions.len() && (#[trigger] sessions[k]).behind(mark, scope) == 1,
    decreases sessions.len(),
{
    if sessions.len() > 0 {
        let n = sessions.len() - 1;
        lemma_total_positive(sessions.drop_last(), mark, scope);
        if total(sessions, mark, scope) >= 1 {
            if sessions[n].behind(mark, scope) == 1 {
            } else {
                let k = choose|k: int|
                    0 <= k < n && (#[trigger] sessions.drop_last()[k]).behind(mark, scope) == 1;
                assert(sessions[k].behind(mark, scope) == 1);
            }
        }
        if exists|k: int|
            0 <= k < sessions.len() && (#[trigger] sessions[k]).behind(mark, scope) == 1 {
            let k = choose|k: int|
                0 <= k < sessions.len() && (#[trigger] sessions[k]).behind(mark, scope) == 1;
            if k < n {
                assert(sessions.drop_last()[k].behind(mark, scope) == 1);
            }
        }
    }
}

/// The caller's transfers are run once, after every claim and before every release.
///
/// At every moment of a run the transfers were run once at most; if a release
/// or a reattach lies behind the run, so do the transfers. Once every session
/// is closed, the transfers were run exactly if an interface had been
/// claimed. (That no claim comes after the transfers is what
/// `DeviceRun::pending` states: it asks for the transfers only when no session
/// is on its way to `Ready` any more.)
pub proof fn lemma_transfers_run_once(endpoints: Seq<Endpoint>, replies: Seq<Reply>)
    ensures
        ({
            let exchanges = trace(fresh(endpoints), replies);
            let end = run(fresh(endpoints), replies);
            let transferred = count(exchanges, Mark::Transferred, None);
            &&& transferred <= 1
            &&& count(exchanges, Mark::Released, None) >= 1 ==> transferred == 1
            &&& count(exchanges, Mark::Reattached, None) >= 1 ==> transferred == 1
            &&& transferred == 1 ==> count(exchanges, Mark::Claimed, None) >= 1
            &&& finished(end) ==> (transferred == 1 <==> count(exchanges, Mark::Claimed, None) >= 1)
            &&& count(exchanges, Mark::TransferFailed, None) <= transferred
        }),
{
    let start = fresh(endpoints);
    let exchanges = trace(start, replies);
    let end = run(start, replies);
    lemma_fresh(endpoints, Mark::Claimed, None);
    lemma_fresh(endpoints, Mark::Released, None);
    lemma_fresh(endpoints, Mark::Reattached, None);
    assert(Seq::<Exchange>::empty().filter(marked(Mark::Transferred, None)) =~= Seq::<
        Exchange,
    >::empty()) by {
        reveal(Seq::filter);
    }
    assert(Seq::<Exchange>::empty().filter(marked(Mark::TransferFailed, None)) =~= Seq::<
        Exchange,
    >::empty()) by {
        reveal(Seq::filter);
    }
    assert(!any_transferred(start));
    lemma_transfer_run(start, replies);
    lemma_run_counts(start, replies, Mark::Claimed, None);
    lemma_run_counts(start, replies, Mark::Released, None);
    lemma_run_counts(start, replies, Mark::Reattached, None);
    lemma_total_positive(end, Mark::Claimed, None);
    lemma_total_positive(end, Mark::Released, None);
    lemma_total_positive(end, Mark::Reattached, None);
    if count(exchanges, Mark::Released, None) >= 1 {
        let k = choose|k: int|
            0 <= k < end.len() && (#[trigger] end[k]).behind(Mark::Released, None) == 1;
        assert(end[k].has_transferred());
    }
    if count(exchanges, Mark::Reattached, None) >= 1 {
        let k = choose|k: int|
            0 <= k < end.len() && (#[trigger] end[k]).behind(Mark::Reattached, None) == 1;
        assert(end[k].has_transferred());
    }
    if any_transferred(end) {
        let k = choose|k: int| 0 <= k < end.len() && (#[trigger] end[k]).has_transferred();
        assert(end[k].behind(Mark::Claimed, None) == 1);
    }
    if finished(end) && count(exchanges, Mark::Claimed, None) >= 1 {
        let k = choose|k: int|
            0 <= k < end.len() && (#[trigger] end[k]).behind(Mark::Claimed, None) == 1;
        assert(end[k].step is Closed);
        assert(end[k].has_transferred());
    }
}

/// The result of sessions that are all closed.
pub open spec fn verdict(sessions: Seq<Session>) -> Option<Result<(), SessionError>> {
    if sessions.len() == 0 {
        Some(Err(SessionError::NoEndpoint))
    } else if forall|j: int| 0 <= j < sessions.len() ==> (#[trigger] sessions[j]).claim_error is Some {
        sessions[0].result()
    } else {
        sessions[choose|k: int| is_first_claimed(sessions, k)].result()
    }
}

/// Sessions that are all closed have a result, and `verdict` is it.
pub(crate) proof fn lemma_verdict(sessions: Seq<Session>)
    requires
        finished(sessions),
    ensures
        is_result(sessions, verdict(sessions)),
    decreases sessions.len(),
{
    if sessions.len() > 0 && !(forall|j: int|
        0 <= j < sessions.len() ==> (#[trigger] sessions[j]).claim_error is Some) {
        lemma_first_claimed_exists(sessions, sessions.len() as int);
    }
}

/// Where some session's interface was claimed, one was claimed first.
proof fn lemma_first_claimed_exists(sessions: Seq<Session>, upto: int)
    requires
        0 <= upto <= sessions.len(),
        exists|j: int| 0 <= j < upto && (#[trigger] sessions[j]).claim_error is None,
    ensures
        exists|k: int| is_first_claimed(sessions, k),
    decreases upto,
{
    if exists|j: int| 0 <= j < upto - 1 && (#[trigger] sessions[j]).claim_error is None {
        lemma_first_claimed_exists(sessions, upto - 1);
    } else {
        assert(sessions[upto - 1].claim_error is None);
        assert(is_first_claimed(sessions, upto - 1));
    }
}

/// How a run ends says what happened in it.
///
/// Once every session is closed, the result of the run is `NoEndpoint`
/// exactly if there was no endpoint; `InterfaceUnavailable` exactly if there
/// were endpoints and no claim succeeded; `TransferFailed` exactly if the
/// caller's transfers were run and failed; and `Ok` exactly if a claim
/// succeeded and the transfers did not fail.
pub proof fn lemma_result_tells(
    endpoints: Seq<Endpoint>,
    replies: Seq<Reply>,
    r: Option<Result<(), SessionError>>,
)
    requires
        finished(run(fresh(endpoints), replies)),
        is_result(run(fresh(endpoints), replies), r),
    ensures
        ({
            let exchanges = trace(fresh(endpoints), replies);
            let claimed = count(exchanges, Mark::Claimed, None);
            let failed = count(exchanges, Mark::TransferFailed, None);
            &&& r is Some
            &&& r == Some(Err::<(), SessionError>(SessionError::NoEndpoint)) <==> endpoints.len()
                == 0
            &&& (r matches Some(Err(SessionError::InterfaceUnavailable(_)))) <==> endpoints.len()
                > 0 && claimed == 0
            &&& (r matches Some(Err(SessionError::TransferFailed(_)))) <==> failed == 1
            &&& r == Some(Ok::<(), SessionError>(())) <==> claimed >= 1 && failed == 0
        }),
{
    let start = fresh(endpoints);
    let exchanges = trace(start, replies);
    let end = run(start, replies);
    lemma_fresh(endpoints, Mark::Claimed, None);
    assert(Seq::<Exchange>::empty().filter(marked(Mark::Transferred, None)) =~= Seq::<
        Exchange,
    >::empty()) by {
        reveal(Seq::filter);
    }
    assert(Seq::<Exchange>::empty().filter(marked(Mark::TransferFailed, None)) =~= Seq::<
        Exchange,
    >::empty()) by {
        reveal(Seq::filter);
    }
    assert(!any_transferred(start));
    lemma_transfer_run(start, replies);
    lemma_transfers_run_once(endpoints, replies);
    lemma_run_counts(start, replies, Mark::Claimed, None);
    lemma_total_positive(end, Mark::Claimed, None);
    if endpoints.len() > 0 {
        if forall|j: int| 0 <= j < end.len() ==> (#[trigger] end[j]).claim_error is Some {
            assert(end[0].step is Closed);
            assert(end[0].claim_error is Some);
            if count(exchanges, Mark::Claimed, None) >= 1 {
                let k = choose|k: int|
                    0 <= k < end.len() && (#[trigger] end[k]).behind(Mark::Claimed, None) == 1;
                assert(end[k].claim_error is Some);
            }
        } else {
            let k = choose|k: int| is_first_claimed(end, k) && r == end[k].result();
            assert(end[k].step is Closed);
            assert(end[k].has_transferred());
            assert(end[k].behind(Mark::Claimed, None) == 1);
        }
    }
}

/// Whether one of the sessions may still ask for `action`.
pub open spec fn may_be_asked(sessions: Seq<Session>, action: Action) -> bool {
    exists|k: int| 0 <= k < sessions.len() && (#[trigger] sessions[k]).may_ask(action)
}

/// The stage that a run is at: 0 while a session is on its way to `Ready`,
/// then 1 while one waits for the caller's transfers, then 2.
pub open spec fn stage_of(sessions: Seq<Session>) -> nat {
    match turn(sessions) {
        Some((Lane::Acquire, _)) => 0,
        Some((Lane::Transfer, _)) => 1,
        _ => 2,
    }
}

/// One reply never takes a run back a stage, and the action that is due is
/// of the stage that the run is at and one that a session may ask for.
pub(crate) proof fn lemma_stage_step(sessions: Seq<Session>, reply: Reply)
    requires
        all_wf(sessions),
    ensures
        awaited(sessions) matches Some(action) ==> action.stage() == stage_of(sessions)
            && may_be_asked(sessions, action),
        stage_of(next(sessions, reply)) >= stage_of(sessions),
        next(sessions, reply).len() == sessions.len(),
        stage_of(sessions) == 1 ==> stage_of(next(sessions, reply)) == 2,
        stage_of(sessions) == 0 && !any_transferred(sessions) ==> !any_transferred(
            next(sessions, reply),
        ),
        forall|action: Action|
            may_be_asked(next(sessions, reply), action) ==> may_be_asked(sessions, action),
{
    let after = next(sessions, reply);
    lemma_first_in_lane(sessions, Lane::Acquire);
    lemma_first_in_lane(sessions, Lane::Transfer);
    lemma_first_in_lane(sessions, Lane::Teardown);
    lemma_first_in_lane(after, Lane::Acquire);
    lemma_first_in_lane(after, Lane::Transfer);
    lemma_first_in_lane(after, Lane::Teardown);
    assert forall|j: int| 0 <= j < sessions.len() implies (#[trigger] after[j] == sessions[j]
        || after[j] == sessions[j].next(reply)) && after.len() == sessions.len() by {}
    match turn(sessions) {
        Some((lane, k)) => {
            assert(sessions[k].wf());
            lemma_may_ask(sessions[k], reply, Action::Transfer);
            match lane {
                Lane::Acquire => {
                    if !any_transferred(sessions) {
                        assert forall|j: int| 0 <= j < after.len() implies !(
                        #[trigger] after[j]).has_transferred() by {
                            assert(!sessions[j].has_transferred());
                        }
                    }
                },
                Lane::Transfer => {
                    assert forall|j: int| 0 <= j < after.len() implies !(
                    #[trigger] after[j]).in_lane(Lane::Acquire) && !after[j].in_lane(
                        Lane::Transfer,
                    ) by {
                        assert(!sessions[j].in_lane(Lane::Acquire));
                    }
                },
                Lane::Teardown => {
                    assert forall|j: int| 0 <= j < after.len() implies !(
                    #[trigger] after[j]).in_lane(Lane::Acquire) && !after[j].in_lane(
                        Lane::Transfer,
                    ) by {
                        assert(!sessions[j].in_lane(Lane::Acquire));
                        assert(!sessions[j].in_lane(Lane::Transfer));
                    }
                },
            }
        },
        None => {},
    }
    assert forall|action: Action| may_be_asked(after, action) implies may_be_asked(
        sessions,
        action,
    ) by {
        let k = choose|k: int| 0 <= k < after.len() && (#[trigger] after[k]).may_ask(action);
        assert(sessions[k].wf());
        lemma_may_ask(sessions[k], reply, action);
        assert(sessions[k].may_ask(action));
    }
}

/// The action that is due is one that a session may ask for.
pub(crate) proof fn lemma_awaited_may_be_asked(sessions: Seq<Session>)
    requires
        all_wf(sessions),
    ensures
        awaited(sessions) matches Some(action) ==> may_be_asked(sessions, action),
{
    lemma_stage_step(sessions, Reply::Done);
}

/// What leads up to `Ready` comes first, then the caller's transfers, then
/// teardown; and nothing is asked for but what a session may ask for.
///
/// Whatever the replies, the trace of a run never goes back a stage: once the
/// transfers were run, no interface is claimed or configured any more, and no
/// interface is released before them. Each action of the trace is one that one
/// of the sessions might ask for at the beginning: an action for its own
/// endpoint.
pub proof fn lemma_in_stages(sessions: Seq<Session>, replies: Seq<Reply>)
    requires
        all_wf(sessions),
    ensures
        in_stages(trace(sessions, replies)),
        forall|i: int|
            0 <= i < trace(sessions, replies).len() ==> (#[trigger] trace(
                sessions,
                replies,
            )[i]).action.stage() <= stage_of(run(sessions, replies)),
        forall|i: int|
            0 <= i < trace(sessions, replies).len() ==> may_be_asked(
                sessions,
                (#[trigger] trace(sessions, replies)[i]).action,
            ),
        forall|action: Action|
            may_be_asked(run(sessions, replies), action) ==> may_be_asked(sessions, action),
        all_wf(run(sessions, replies)),
    decreases replies.len(),
{
    if replies.len() > 0 {
        lemma_in_stages(sessions, replies.drop_last());
        let before = run(sessions, replies.drop_last());
        let earlier = trace(sessions, replies.drop_last());
        let now = trace(sessions, replies);
        lemma_stage_step(before, replies.last());
        lemma_next_counts(before, replies.last(), Mark::Claimed, None);
        match awaited(before) {
            Some(action) => {
                assert(now == earlier.push(Exchange { action, reply: replies.last() }));
                assert forall|i: int, j: int| 0 <= i <= j < now.len() implies (
                #[trigger] now[i]).action.stage() <= (#[trigger] now[j]).action.stage() by {
                    if j < earlier.len() {
                        assert(now[i] == earlier[i] && now[j] == earlier[j]);
                    } else if i < earlier.len() {
                        assert(now[i] == earlier[i]);
                    }
                }
                assert forall|i: int| 0 <= i < now.len() implies (
                #[trigger] now[i]).action.stage() <= stage_of(run(sessions, replies))
                    && may_be_asked(sessions, now[i].action) by {
                    if i < earlier.len() {
                        assert(now[i] == earlier[i]);
                    }
                }
            },
            None => {},
        }
    }
}

/// Sessions side by side in a run of one behave as the session by itself.
proof fn lemma_alone_step(s: Session, reply: Reply)
    ensures
        awaited(seq![s]) == s.awaited(),
        next(seq![s], reply) == seq![s.next(reply)],
{
    let sessions = seq![s];
    lemma_first_in_lane(sessions, Lane::Acquire);
    lemma_first_in_lane(sessions, Lane::Transfer);
    lemma_first_in_lane(sessions, Lane::Teardown);
    assert(sessions[0] == s);
    match turn(sessions) {
        Some((_, k)) => {
            assert(k == 0);
        },
        None => {
            assert(!s.in_lane(Lane::Acquire));
            assert(!s.in_lane(Lane::Transfer));
            assert(!s.in_lane(Lane::Teardown));
        },
    }
    assert(next(sessions, reply) =~= seq![s.next(reply)]);
}

/// A run for a single session is that session's own run.
proof fn lemma_alone_run(s: Session, replies: Seq<Reply>)
    ensures
        run(seq![s], replies) == seq![s.run(replies)],
        trace(seq![s], replies) == s.trace(replies),
    decreases replies.len(),
{
    if replies.len() > 0 {
        lemma_alone_run(s, replies.drop_last());
        lemma_alone_step(s.run(replies.drop_last()), replies.last());
    }
}

/// A run for one endpoint is that endpoint's session.
///
/// With a single endpoint the sessions run as one are the one session: the
/// same actions are asked for in the same order, and the same state is
/// reached, whatever the replies.
pub proof fn lemma_single_endpoint(endpoint: Endpoint, replies: Seq<Reply>)
    ensures
        run(fresh(seq![endpoint]), replies) == seq![Session::initial(endpoint).run(replies)],
        trace(fresh(seq![endpoint]), replies) == Session::initial(endpoint).trace(replies),
{
    assert(fresh(seq![endpoint]) =~= seq![Session::initial(endpoint)]);
    lemma_alone_run(Session::initial(endpoint), replies);
}

} // verus!
