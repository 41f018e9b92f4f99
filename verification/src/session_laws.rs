//! What holds of every session, whatever the transport answers.
//!
//! The statements speak of `Session::trace`: the exchanges that take place
//! when a driver performs each pending action and hands back the reply. They
//! are stated for every sequence of replies, so also for one in which the
//! caller's transfers fail:
//!
//! - `lemma_release_follows_claim`: a release exactly for a successful claim;
//! - `lemma_reattach_iff_detached`: a reattach exactly where this session
//!   detached the driver;
//! - `lemma_transfer_between_claim_and_release`: the transfers come after the
//!   claim and before the release;
//! - `lemma_failed_claim_closes`: a failed claim ends the session;
//! - `lemma_acquisition_once`: query and claim are asked for once, the detach
//!   exactly where the query said "bound";
//! - `lemma_in_order`: the actions come in one order, none twice;
//! - `lemma_may_ask`: a session asks only for actions of its own endpoint;
//! - `lemma_arbitration_first`, `lemma_run_keeps`: a session may be opened at
//!   the claim with what the arbiter found, and keeps it;
//! - `lemma_result_tells`: what the result of a session says;
//! - `lemma_session_terminates`, `lemma_closed_is_final`: a session ends, and
//!   stays ended.

use vstd::prelude::*;
use crate::descriptor::Endpoint;
use crate::error::SessionError;
use crate::arbiter::DriverState;
use crate::protocol::{count, in_order, marked, Action, Exchange, Mark, Reply};
use crate::session::Session;

verus! {

/// The number that one more exchange adds to a count.
pub open spec fn one_if(hit: bool) -> nat {
    if hit {
        1
    } else {
        0
    }
}

/// One reply moves a session's bookkeeping by exactly what the exchange means.
pub(crate) proof fn lemma_step_counts(s: Session, reply: Reply, mark: Mark, scope: Option<u8>)
    requires
        s.wf(),
    ensures
        s.next(reply).wf(),
        s.next(reply).endpoint == s.endpoint,
        s.awaited() matches Some(action) ==> s.next(reply).behind(mark, scope) == s.behind(
            mark,
            scope,
        ) + one_if(Exchange { action, reply }.marks(mark, scope)),
        s.awaited() is None ==> s.next(reply) == s,
{
}

/// Over a whole run the trace counts exactly what the session's state went through.
pub(crate) proof fn lemma_run_counts(s: Session, replies: Seq<Reply>, mark: Mark, scope: Option<u8>)
    requires
        s.wf(),
    ensures
        s.run(replies).wf(),
        s.run(replies).endpoint == s.endpoint,
        count(s.trace(replies), mark, scope) + s.behind(mark, scope) == s.run(replies).behind(
            mark,
            scope,
        ),
    decreases replies.len(),
{
    if replies.len() == 0 {
        assert(s.trace(replies).filter(marked(mark, scope)) =~= Seq::<Exchange>::empty()) by {
            reveal(Seq::filter);
        }
    } else {
        let before = s.run(replies.drop_last());
        let earlier = s.trace(replies.drop_last());
        lemma_run_counts(s, replies.drop_last(), mark, scope);
        lemma_step_counts(before, replies.last(), mark, scope);
        match before.awaited() {
            Some(action) => {
                earlier.lemma_filter_push(
                    Exchange { action, reply: replies.last() },
                    marked(mark, scope),
                );
            },
            None => {},
        }
    }
}

/// A claimed interface is released exactly once, and nothing else is.
///
/// At every moment of a session at most one claim and at most one release lie
/// behind it, and never a release without a claim. Once the session is closed,
/// which is when its driver loop ends, the two counts are equal: the release
/// was asked for if and only if the claim had succeeded. `replies` is
/// arbitrary, so this holds too when the caller's transfers failed.
pub proof fn lemma_release_follows_claim(
    endpoint: Endpoint,
    replies: Seq<Reply>,
    scope: Option<u8>,
)
    ensures
        ({
            let trace = Session::initial(endpoint).trace(replies);
            let end = Session::initial(endpoint).run(replies);
            &&& count(trace, Mark::Released, scope) <= count(trace, Mark::Claimed, scope) <= 1
            &&& end.step is Closed ==> count(trace, Mark::Released, scope) == count(
                trace,
                Mark::Claimed,
                scope,
            )
        }),
{
    let start = Session::initial(endpoint);
    lemma_run_counts(start, replies, Mark::Released, scope);
    lemma_run_counts(start, replies, Mark::Claimed, scope);
}

/// The kernel's driver is reattached if and only if this session detached it.
///
/// At every moment at most one reattach lies behind a session, and none
/// without a detach by this session and a release before it. Once the session
/// is closed, a reattach was asked for exactly if this session had detached
/// the driver and released the interface. A driver that was not bound when the
/// session began, or whose detach failed, is never reattached.
pub proof fn lemma_reattach_iff_detached(
    endpoint: Endpoint,
    replies: Seq<Reply>,
    scope: Option<u8>,
)
    ensures
        ({
            let trace = Session::initial(endpoint).trace(replies);
            let end = Session::initial(endpoint).run(replies);
            let reattached = count(trace, Mark::Reattached, scope);
            let detached = count(trace, Mark::Detached, scope);
            let released = count(trace, Mark::Released, scope);
            &&& reattached <= detached <= 1
            &&& reattached <= released
            &&& end.step is Closed ==> (reattached == 1 <==> detached == 1 && released == 1)
        }),
{
    let start = Session::initial(endpoint);
    lemma_run_counts(start, replies, Mark::Reattached, scope);
    lemma_run_counts(start, replies, Mark::Detached, scope);
    lemma_run_counts(start, replies, Mark::Released, scope);
}

/// Nothing is transferred on an interface that is not claimed, and nothing
/// is released before the caller's transfers were run.
///
/// The transfers are run at most once, only after a successful claim, and a
/// release is asked for only after them. Once a session is closed, the
/// transfers were run exactly if the claim had succeeded.
pub proof fn lemma_transfer_between_claim_and_release(endpoint: Endpoint, replies: Seq<Reply>)
    ensures
        ({
            let trace = Session::initial(endpoint).trace(replies);
            let end = Session::initial(endpoint).run(replies);
            let transferred = count(trace, Mark::Transferred, None);
            &&& count(trace, Mark::Released, None) <= transferred <= count(
                trace,
                Mark::Claimed,
                None,
            )
            &&& end.step is Closed ==> transferred == count(trace, Mark::Claimed, None)
            &&& count(trace, Mark::TransferFailed, None) <= transferred
        }),
{
    let start = Session::initial(endpoint);
    lemma_run_counts(start, replies, Mark::TransferFailed, None);
    lemma_run_counts(start, replies, Mark::Transferred, None);
    lemma_run_counts(start, replies, Mark::Claimed, None);
    lemma_run_counts(start, replies, Mark::Released, None);
}

/// A failed claim ends the session at once.
///
/// Whatever was found out about the kernel's driver before, when the claim
/// fails the session is closed with `InterfaceUnavailable`, nothing is pending,
/// and no later reply brings about another exchange: no release and no
/// reattach take place, since nothing was claimed.
pub proof fn lemma_failed_claim_closes(s: Session, reply: Reply, later: Seq<Reply>)
    requires
        s.wf(),
        s.step is Claiming,
        !reply.succeeded(),
    ensures
        s.next(reply).step is Closed,
        s.next(reply).awaited() is None,
        reply.failure() matches Some(cause) && s.next(reply).result() == Some(
            Err::<(), SessionError>(SessionError::InterfaceUnavailable(cause)),
        ),
        s.next(reply).run(later) == s.next(reply),
        s.next(reply).trace(later) == Seq::<Exchange>::empty(),
{
    lemma_closed_is_final(s.next(reply), later);
}

/// A closed session stays as it is and asks for nothing more.
pub proof fn lemma_closed_is_final(s: Session, later: Seq<Reply>)
    requires
        s.step is Closed,
    ensures
        s.run(later) == s,
        s.trace(later) == Seq::<Exchange>::empty(),
    decreases later.len(),
{
    if later.len() > 0 {
        lemma_closed_is_final(s, later.drop_last());
    }
}

/// A session is over after eight replies at most.
///
/// Each reply brings a session that is not closed strictly nearer to its end,
/// so a driver loop that performs the pending action and hands back the reply
/// terminates, and it ends with the session closed.
pub proof fn lemma_session_terminates(s: Session, replies: Seq<Reply>)
    ensures
        s.run(replies).step.remaining() + replies.len() <= s.step.remaining() || s.run(
            replies,
        ).step is Closed,
        replies.len() >= 8 ==> s.run(replies).step is Closed,
        s.trace(replies).len() <= replies.len(),
        s.trace(replies).len() <= s.step.remaining(),
        s.trace(replies).len() + s.run(replies).step.remaining() <= s.step.remaining(),
    decreases replies.len(),
{
    if replies.len() > 0 {
        lemma_session_terminates(s, replies.drop_last());
    }
}

/// Each step of the acquisition is asked for once, and the detach exactly
/// where the query said "bound".
///
/// At every moment a session has asked at most once about the kernel's
/// driver, at most once for a detach and at most once for the claim; a detach
/// only after the query answered "bound", and a detach succeeded only where
/// one was asked for. Once the session is closed, the driver was asked about
/// once, the claim was asked for once, and a detach was asked for exactly if
/// the query had answered "bound".
pub proof fn lemma_acquisition_once(endpoint: Endpoint, replies: Seq<Reply>, scope: Option<u8>)
    ensures
        ({
            let trace = Session::initial(endpoint).trace(replies);
            let end = Session::initial(endpoint).run(replies);
            let queried = count(trace, Mark::Queried, scope);
            let bound = count(trace, Mark::FoundBound, scope);
            let detach = count(trace, Mark::DetachAsked, scope);
            let claim = count(trace, Mark::ClaimAsked, scope);
            &&& count(trace, Mark::Detached, scope) <= detach <= bound <= queried <= 1
            &&& count(trace, Mark::Claimed, scope) <= claim <= queried
            &&& end.step is Closed ==> detach == bound && claim == queried
            &&& end.step is Closed && scope is None ==> claim == 1
        }),
{
    let start = Session::initial(endpoint);
    lemma_run_counts(start, replies, Mark::Queried, scope);
    lemma_run_counts(start, replies, Mark::FoundBound, scope);
    lemma_run_counts(start, replies, Mark::DetachAsked, scope);
    lemma_run_counts(start, replies, Mark::ClaimAsked, scope);
    lemma_run_counts(start, replies, Mark::Detached, scope);
    lemma_run_counts(start, replies, Mark::Claimed, scope);
}

/// A session asks only for what it may ask, and less and less.
///
/// The action that is due is one the session may ask for, and whatever a
/// session may ask for after a reply it might have asked for before. So a
/// transport that can carry out what a session may ask for at the beginning
/// can carry out everything the session will ever ask for.
pub proof fn lemma_may_ask(s: Session, reply: Reply, action: Action)
    requires
        s.wf(),
    ensures
        s.awaited() matches Some(due) ==> s.may_ask(due),
        s.next(reply).may_ask(action) ==> s.may_ask(action),
        s.step is Closed ==> !s.may_ask(action),
{
}

/// The actions of a session come in one order, none twice.
///
/// Query, detach, claim, configuration, alternate setting, transfers,
/// release, reattach: whatever the replies, the exchanges of a session are
/// some of these in this order, beginning with the action that was due.
pub proof fn lemma_in_order(s: Session, replies: Seq<Reply>)
    ensures
        in_order(s.trace(replies)),
        forall|i: int|
            0 <= i < s.trace(replies).len() ==> (#[trigger] s.trace(replies)[i]).action.order()
                + s.step.remaining() >= 8,
        forall|i: int|
            0 <= i < s.trace(replies).len() ==> (#[trigger] s.trace(replies)[i]).action.order()
                + s.run(replies).step.remaining() < 8,
        s.run(replies).step.remaining() <= s.step.remaining(),
    decreases replies.len(),
{
    if replies.len() > 0 {
        lemma_in_order(s, replies.drop_last());
        let before = s.run(replies.drop_last());
        let earlier = s.trace(replies.drop_last());
        let now = s.trace(replies);
        match before.awaited() {
            Some(action) => {
                assert(now == earlier.push(Exchange { action, reply: replies.last() }));
                assert(action.order() + before.step.remaining() == 8);
                assert forall|i: int, j: int| 0 <= i < j < now.len() implies (
                #[trigger] now[i]).action.order() < (#[trigger] now[j]).action.order() by {
                    if j < earlier.len() {
                        assert(now[i] == earlier[i] && now[j] == earlier[j]);
                    } else {
                        assert(now[i] == earlier[i]);
                    }
                }
                assert forall|i: int| 0 <= i < now.len() implies (#[trigger] now[i]).action.order()
                    + s.step.remaining() >= 8 && now[i].action.order() + s.run(
                    replies,
                ).step.remaining() < 8 by {
                    if i < earlier.len() {
                        assert(now[i] == earlier[i]);
                    }
                }
            },
            None => {},
        }
    }
}

/// What is settled stays settled.
///
/// Whatever the replies, a session keeps its endpoint; from the claim on it
/// keeps what it knows about the kernel's driver; and a session that holds a
/// claim never comes to say that the claim failed.
pub proof fn lemma_run_keeps(s: Session, replies: Seq<Reply>)
    requires
        s.wf(),
    ensures
        s.run(replies).wf(),
        s.run(replies).endpoint == s.endpoint,
        !(s.step is QueryingDriver) && !(s.step is DetachingDriver) ==> s.run(replies).driver
            == s.driver && !(s.run(replies).step is QueryingDriver) && !(s.run(
            replies,
        ).step is DetachingDriver),
        s.has_claimed() ==> s.run(replies).has_claimed() && s.run(replies).claim_error is None,
        s.has_transferred() ==> s.run(replies).has_transferred() && s.run(
            replies,
        ).transfer_error == s.transfer_error,
    decreases replies.len(),
{
    if replies.len() > 0 {
        lemma_run_keeps(s, replies.drop_last());
    }
}

/// Arbitrating first and opening the session at the claim is the same as
/// letting the session arbitrate.
///
/// After the reply to the query, and to the detach where one is due, a fresh
/// session stands where a session stands that is opened at the claim with the
/// state that the arbiter makes of these replies.
pub proof fn lemma_arbitration_first(endpoint: Endpoint, query: Reply, detach: Reply)
    ensures
        match DriverState::of_query(query) {
            Some(settled) => Session::initial(endpoint).next(query) == Session::claiming(
                endpoint,
                settled,
            ),
            None => Session::initial(endpoint).next(query).next(detach) == Session::claiming(
                endpoint,
                DriverState::of_detach(detach),
            ),
        },
{
}

/// How a session ends says what happened to it.
///
/// Once a session is closed, its result is `InterfaceUnavailable` exactly if
/// no claim succeeded, `TransferFailed` exactly if the caller's transfers
/// were run and failed, and `Ok` exactly if the claim succeeded and the
/// transfers did not fail. In the last two cases the interface was released.
pub proof fn lemma_result_tells(endpoint: Endpoint, replies: Seq<Reply>)
    requires
        Session::initial(endpoint).run(replies).step is Closed,
    ensures
        ({
            let trace = Session::initial(endpoint).trace(replies);
            let end = Session::initial(endpoint).run(replies);
            let claimed = count(trace, Mark::Claimed, None);
            let failed = count(trace, Mark::TransferFailed, None);
            &&& end.result() is Some
            &&& (end.result() matches Some(Err(SessionError::InterfaceUnavailable(_)))) <==> claimed
                == 0
            &&& (end.result() matches Some(Err(SessionError::TransferFailed(_)))) <==> failed == 1
            &&& end.result() == Some(Ok::<(), SessionError>(())) <==> claimed == 1 && failed == 0
            &&& failed == 1 ==> claimed == 1 && count(trace, Mark::Released, None) == 1
        }),
{
    let start = Session::initial(endpoint);
    lemma_run_counts(start, replies, Mark::Claimed, None);
    lemma_run_counts(start, replies, Mark::TransferFailed, None);
    lemma_run_counts(start, replies, Mark::Released, None);
}

} // verus!
