//! Running a session against a transport.
//!
//! The functions here hold the loop: they ask the transport for one action
//! after the other until the session is closed, so that a caller cannot leave
//! an interface claimed, whatever its transfers report. What they asked of the
//! transport is what they added to its log, and they say what that is.

use vstd::prelude::*;
use crate::arbiter::DriverState;
use crate::descriptor::Endpoint;
use crate::error::{SessionError, TransferError};
use crate::protocol::{
    added, count, extends, in_order, lemma_added_nothing, lemma_added_push, performed,
    replies_of, Action, Exchange, Mark, Reply,
};
use crate::session::Session;
use crate::session_laws::{
    lemma_in_order, lemma_may_ask, lemma_reattach_iff_detached, lemma_release_follows_claim,
    lemma_result_tells, lemma_run_counts, lemma_run_keeps, lemma_session_terminates,
    lemma_transfer_between_claim_and_release,
};
use crate::transport::{Once, Transport};

verus! {

/// Whether `trace` is what took place between `start` and `end`: the
/// exchanges of `start` with these replies, which left the session as `end`.
pub open spec fn leads(start: Session, trace: Seq<Exchange>, end: Session) -> bool {
    &&& end == start.run(replies_of(trace))
    &&& trace == start.trace(replies_of(trace))
}

/// Whether `trace` is the whole story of `session`, a session for `endpoint`:
/// the exchanges of a fresh session with these replies, which left it as it is.
pub open spec fn is_story_of(trace: Seq<Exchange>, endpoint: Endpoint, session: Session) -> bool {
    leads(Session::initial(endpoint), trace, session)
}

/// One more exchange extends what took place.
proof fn lemma_story_grows(start: Session, trace: Seq<Exchange>, session: Session, reply: Reply)
    requires
        leads(start, trace, session),
        session.awaited() is Some,
    ensures
        leads(
            start,
            trace.push(Exchange { action: session.awaited()->0, reply }),
            session.next(reply),
        ),
{
    let longer = trace.push(Exchange { action: session.awaited()->0, reply });
    assert(replies_of(longer).drop_last() =~= replies_of(trace));
    assert(replies_of(longer).last() == reply);
}

/// Whether `trace` is what acquiring the interface of `endpoint` takes: the
/// claim, and, if the claim succeeded, the selection of the configuration and
/// of the alternate setting, in this order; nothing else.
pub open spec fn acquired(endpoint: Endpoint, trace: Seq<Exchange>) -> bool {
    &&& trace.len() >= 1
    &&& trace[0].action == (Action::ClaimInterface { iface: endpoint.iface })
    &&& if trace[0].reply.succeeded() {
        &&& trace.len() == 3
        &&& trace[1].action == (Action::SetActiveConfiguration { config: endpoint.config })
        &&& trace[2].action == (Action::SetAlternateSetting {
            iface: endpoint.iface,
            setting: endpoint.setting,
        })
    } else {
        trace.len() == 1
    }
}

/// Whether every action of `trace` is one that `session` may ask for.
pub open spec fn asked_by(session: Session, trace: Seq<Exchange>) -> bool {
    forall|i: int| 0 <= i < trace.len() ==> session.may_ask((#[trigger] trace[i]).action)
}

/// The reply that stands for how the caller's transfers went.
pub open spec fn reply_of<T>(outcome: Result<T, TransferError>) -> Reply {
    match outcome {
        Ok(_) => Reply::Done,
        Err(error) => Reply::Failed(error.source()),
    }
}

/// Claims the interface of `endpoint` and configures it: selects the
/// configuration and the alternate setting.
///
/// The kernel's driver is not asked about here: `driver` is what
/// `detach_if_active` made of it before, and the session keeps it for the
/// teardown. The transport is asked for the claim, and after a successful
/// claim for the two selections, each once; nothing else. The session that is
/// returned is `Ready`, possibly degraded, unless the claim failed: then it
/// is closed with `InterfaceUnavailable`.
pub fn configure_endpoint<F: Fn(Action) -> Reply>(
    endpoint: Endpoint,
    driver: DriverState,
    transport: &mut Transport<F>,
) -> (r: Session)
    requires
        call_requires(
            old(transport).function(),
            (Action::ClaimInterface { iface: endpoint.iface },),
        ),
        call_requires(
            old(transport).function(),
            (Action::SetActiveConfiguration { config: endpoint.config },),
        ),
        call_requires(
            old(transport).function(),
            (Action::SetAlternateSetting { iface: endpoint.iface, setting: endpoint.setting },),
        ),
    ensures
        final(transport).function() == old(transport).function(),
        extends(old(transport).asked(), final(transport).asked()),
        ({
            let trace = added(old(transport).asked(), final(transport).asked());
            &&& acquired(endpoint, trace)
            &&& performed(old(transport).function(), trace)
            &&& leads(Session::claiming(endpoint, driver), trace, r)
            &&& r.step is Ready <==> trace[0].reply.succeeded()
            &&& r.step is Closed <==> !trace[0].reply.succeeded()
            &&& r.step is Closed ==> r.claim_error == trace[0].reply.failure() && r.result() == Some(
                Err::<(), SessionError>(SessionError::InterfaceUnavailable(r.claim_error->0)),
            )
            &&& r.step is Ready ==> r.configuration_error == trace[1].reply.failure()
                && r.alternate_error == trace[2].reply.failure()
        }),
        r.wf(),
        r.endpoint == endpoint,
        r.driver == driver,
{
    let ghost before = transport.asked();
    let ghost start = Session::claiming(endpoint, driver);
    let mut session = Session::with_driver(endpoint, driver);
    proof {
        lemma_added_nothing(before);
        assert(replies_of(Seq::<Exchange>::empty()) =~= Seq::<Reply>::empty());
    }
    let claim = Action::ClaimInterface { iface: endpoint.iface };
    let ghost log = transport.asked();
    let claimed = transport.perform(claim);
    proof {
        lemma_story_grows(start, added(before, log), session, claimed);
        lemma_added_push(before, log, Exchange { action: claim, reply: claimed });
    }
    session.advance(claimed);
    if session.is_closed() {
        return session;
    }
    let configure = Action::SetActiveConfiguration { config: endpoint.config };
    let ghost log = transport.asked();
    let configured = transport.perform(configure);
    proof {
        lemma_story_grows(start, added(before, log), session, configured);
        lemma_added_push(before, log, Exchange { action: configure, reply: configured });
    }
    session.advance(configured);
    let select = Action::SetAlternateSetting { iface: endpoint.iface, setting: endpoint.setting };
    let ghost log = transport.asked();
    let selected = transport.perform(select);
    proof {
        lemma_story_grows(start, added(before, log), session, selected);
        lemma_added_push(before, log, Exchange { action: select, reply: selected });
    }
    session.advance(selected);
    session
}

/// What a teardown has to show: `trace` took `session` to `end`, which is
/// closed; every entry is an action that `session` might ask for; the entries
/// come in the order of a session's life; and they add to what lay behind
/// `session` exactly what lies behind `end`.
pub open spec fn finished<F: Fn(Action) -> Reply>(
    session: Session,
    perform: F,
    transferred: Reply,
    trace: Seq<Exchange>,
    end: Session,
) -> bool {
    &&& end.step is Closed
    &&& end.wf()
    &&& end.endpoint == session.endpoint
    &&& leads(session, trace, end)
    &&& performed(perform, trace)
    &&& asked_by(session, trace)
    &&& in_order(trace)
    &&& trace.len() <= session.step.remaining()
    &&& forall|i: int|
        0 <= i < trace.len() && (#[trigger] trace[i]).action is Transfer ==> trace[i].reply
            == transferred
    &&& !(session.step is QueryingDriver) && !(session.step is DetachingDriver) ==> end.driver
        == session.driver
    &&& session.has_claimed() ==> end.claim_error is None
    &&& forall|mark: Mark, scope: Option<u8>|
        #[trigger] count(trace, mark, scope) + session.behind(mark, scope) == end.behind(
            mark,
            scope,
        )
    &&& forall|scope: Option<u8>|
        #[trigger] end.behind(Mark::Released, scope) == end.behind(Mark::Claimed, scope)
}

/// Takes a session from where it stands to its end.
///
/// This is the teardown for a session that `configure_endpoint` made ready,
/// after the caller's transfers: `transferred` says how they went and is
/// written into the log; then the transport is asked to release the interface,
/// and to reattach the kernel's driver if the session's `DriverState` says
/// that it was detached. Returns the closed session.
///
/// The transport need only be able to carry out what the session may ask for,
/// and is asked for exactly what is added to its log: each action once, none
/// on another interface, no reattach where the driver was not detached.
/// Whatever it reports, a session that held a claim when it was handed in has
/// been released once on return.
pub fn finish_session<F: Fn(Action) -> Reply>(
    session: Session,
    transferred: Reply,
    transport: &mut Transport<F>,
) -> (r: Session)
    requires
        session.wf(),
        forall|action: Action|
            session.may_ask(action) && !(action is Transfer) ==> call_requires(
                old(transport).function(),
                (action,),
            ),
    ensures
        final(transport).function() == old(transport).function(),
        extends(old(transport).asked(), final(transport).asked()),
        finished(
            session,
            old(transport).function(),
            transferred,
            added(old(transport).asked(), final(transport).asked()),
            r,
        ),
{
    let ghost before = transport.asked();
    let ghost perform = transport.function();
    let ghost start = session;
    let mut session = session;
    proof {
        lemma_added_nothing(before);
        assert(replies_of(Seq::<Exchange>::empty()) =~= Seq::<Reply>::empty());
    }
    loop
        invariant
            start.wf(),
            session.wf(),
            transport.function() == perform,
            extends(before, transport.asked()),
            leads(start, added(before, transport.asked()), session),
            performed(perform, added(before, transport.asked())),
            asked_by(start, added(before, transport.asked())),
            forall|i: int|
                0 <= i < added(before, transport.asked()).len() && (#[trigger] added(
                    before,
                    transport.asked(),
                )[i]).action is Transfer ==> added(before, transport.asked())[i].reply
                    == transferred,
            forall|action: Action| session.may_ask(action) ==> start.may_ask(action),
            forall|action: Action|
                start.may_ask(action) && !(action is Transfer) ==> call_requires(
                    perform,
                    (action,),
                ),
        ensures
            session.step is Closed,
        decreases session.step.remaining(),
    {
        let action = match session.pending() {
            Some(action) => action,
            None => {
                break ;
            },
        };
        proof {
            lemma_may_ask(session, Reply::Done, action);
        }
        let ghost log = transport.asked();
        let reply = match action {
            Action::Transfer => {
                transport.yielded(transferred);
                transferred
            },
            _ => transport.perform(action),
        };
        proof {
            lemma_story_grows(start, added(before, log), session, reply);
            lemma_added_push(before, log, Exchange { action, reply });
            assert forall|other: Action| session.next(reply).may_ask(other) implies start.may_ask(
                other,
            ) by {
                lemma_may_ask(session, reply, other);
            }
        }
        session.advance(reply);
    }
    proof {
        let trace = added(before, transport.asked());
        let replies = replies_of(trace);
        lemma_session_terminates(start, replies);
        lemma_in_order(start, replies);
        lemma_run_keeps(start, replies);
        assert forall|mark: Mark, scope: Option<u8>|
            #[trigger] count(trace, mark, scope) + start.behind(mark, scope) == session.behind(
                mark,
                scope,
            ) by {
            lemma_run_counts(start, replies, mark, scope);
        }
    }
    session
}

/// Whether `call` is a call of the caller's operation that gave `outcome`:
/// it was handed a session for `endpoint` that is `Ready`.
pub open spec fn operated<T>(
    call: Option<(Session, Result<T, TransferError>)>,
    endpoint: Endpoint,
    outcome: Result<T, TransferError>,
) -> bool {
    call matches Some((ready, given)) && given == outcome && ready.step is Ready
        && ready.endpoint == endpoint && ready.wf()
}

/// What a whole session for `endpoint` has to show, with the log `trace` of
/// it and the result `r` that the caller gets.
///
/// `call` is the call of the caller's operation, if it was run, and `unspent`
/// says that it was not. The log is the story of a session that is closed;
/// each entry is an action
/// of this endpoint, in the order of a session's life. The kernel's driver
/// was asked about once and the claim was asked for once; a detach was asked
/// for exactly if the query had answered "bound". A release was asked
/// for exactly if the claim had succeeded, and so were the caller's transfers
/// run; a reattach was asked for exactly if this session had detached the
/// kernel's driver and released the interface. The result is
/// `InterfaceUnavailable` exactly if the claim failed, and then the operation
/// was not run; else the operation was run, once, with the ready session, and
/// the result is what it gave: its value, or `TransferFailed` with its error.
pub open spec fn session_ran<T, F: Fn(Action) -> Reply>(
    endpoint: Endpoint,
    perform: F,
    trace: Seq<Exchange>,
    r: Result<T, SessionError>,
    call: Option<(Session, Result<T, TransferError>)>,
    unspent: bool,
) -> bool {
    let end = Session::initial(endpoint).run(replies_of(trace));
    &&& end.step is Closed
    &&& is_story_of(trace, endpoint, end)
    &&& performed(perform, trace)
    &&& asked_by(Session::initial(endpoint), trace)
    &&& in_order(trace)
    &&& trace.len() <= 8
    &&& count(trace, Mark::Released, None) == count(trace, Mark::Claimed, None)
    &&& count(trace, Mark::Transferred, None) == count(trace, Mark::Claimed, None)
    &&& count(trace, Mark::Claimed, None) <= 1
    &&& count(trace, Mark::Queried, None) == 1
    &&& count(trace, Mark::ClaimAsked, None) == 1
    &&& count(trace, Mark::DetachAsked, None) == count(trace, Mark::FoundBound, None)
    &&& count(trace, Mark::Reattached, None) == 1 <==> count(trace, Mark::Detached, None) == 1
        && count(trace, Mark::Released, None) == 1
    &&& forall|scope: Option<u8>|
        count(trace, Mark::Released, scope) == #[trigger] count(trace, Mark::Claimed, scope) <= 1
    &&& forall|scope: Option<u8>|
        #[trigger] count(trace, Mark::Reattached, scope) == 1 <==> count(
            trace,
            Mark::Detached,
            scope,
        ) == 1 && count(trace, Mark::Released, scope) == 1
    &&& forall|scope: Option<u8>| #[trigger] count(trace, Mark::Reattached, scope) <= 1
    &&& match r {
        Ok(value) => count(trace, Mark::Claimed, None) == 1 && count(
            trace,
            Mark::TransferFailed,
            None,
        ) == 0 && !unspent && operated(call, endpoint, Ok::<T, TransferError>(value)),
        Err(SessionError::InterfaceUnavailable(cause)) => count(trace, Mark::Claimed, None) == 0
            && end.claim_error == Some(cause) && unspent,
        Err(SessionError::TransferFailed(error)) => count(trace, Mark::Claimed, None) == 1
            && count(trace, Mark::TransferFailed, None) == 1 && !unspent && operated(
            call,
            endpoint,
            Err::<T, TransferError>(error),
        ),
        Err(_) => false,
    }
}

/// Runs a whole session for `endpoint` around the caller's operation:
/// settles the kernel's driver, claims and configures the interface, hands the
/// ready session to `operation`, releases the interface and gives it back to
/// the kernel's driver if this session took it away.
///
/// Returns what `operation` returned, or `InterfaceUnavailable` where the
/// claim failed: then `operation` was not run, and nothing was released or
/// reattached. The teardown takes place whatever `operation` returned.
///
/// The transport need only be able to carry out the actions of this
/// endpoint, and is asked for exactly what is added to its log; `operation`
/// is run once, with the ready session, exactly if the claim succeeded.
pub fn with_interface_session<
    T,
    F: Fn(Action) -> Reply,
    O: FnOnce(Session) -> Result<T, TransferError>,
>(
    endpoint: Endpoint,
    transport: &mut Transport<F>,
    operation: &mut Once<Session, Result<T, TransferError>, O>,
) -> (r: Result<T, SessionError>)
    requires
        forall|action: Action|
            Session::initial(endpoint).may_ask(action) && !(action is Transfer) ==> call_requires(
                old(transport).function(),
                (action,),
            ),
        old(operation).unspent(),
        forall|ready: Session|
            ready.step is Ready && ready.endpoint == endpoint && ready.wf() ==> call_requires(
                old(operation).function(),
                (ready,),
            ),
    ensures
        final(transport).function() == old(transport).function(),
        final(operation).function() == old(operation).function(),
        extends(old(transport).asked(), final(transport).asked()),
        session_ran(
            endpoint,
            old(transport).function(),
            added(old(transport).asked(), final(transport).asked()),
            r,
            final(operation).called(),
            final(operation).unspent(),
        ),
        final(operation).unspent() ==> final(operation).called() == old(operation).called(),
{
    let ghost before = transport.asked();
    let ghost perform = transport.function();
    let ghost start = Session::initial(endpoint);
    let mut session = Session::new(endpoint);
    proof {
        lemma_added_nothing(before);
        assert(replies_of(Seq::<Exchange>::empty()) =~= Seq::<Reply>::empty());
    }
    loop
        invariant
            session.wf(),
            session.endpoint == endpoint,
            transport.function() == perform,
            extends(before, transport.asked()),
            leads(start, added(before, transport.asked()), session),
            performed(perform, added(before, transport.asked())),
            session.step.remaining() >= 3 || session.step is Closed,
            session.step is Closed ==> session.claim_error is Some,
            operation.unspent(),
            operation.function() == old(operation).function(),
            operation.called() == old(operation).called(),
            forall|ready: Session|
                ready.step is Ready && ready.endpoint == endpoint && ready.wf() ==> call_requires(
                    old(operation).function(),
                    (ready,),
                ),
            forall|action: Action| session.may_ask(action) ==> start.may_ask(action),
            forall|action: Action|
                start.may_ask(action) && !(action is Transfer) ==> call_requires(
                    perform,
                    (action,),
                ),
        ensures
            session.step is Ready || session.step is Closed,
        decreases session.step.remaining(),
    {
        let action = match session.pending() {
            Some(Action::Transfer) | None => {
                break ;
            },
            Some(action) => action,
        };
        proof {
            lemma_may_ask(session, Reply::Done, action);
        }
        let ghost log = transport.asked();
        let reply = transport.perform(action);
        proof {
            lemma_story_grows(start, added(before, log), session, reply);
            lemma_added_push(before, log, Exchange { action, reply });
            assert forall|other: Action| session.next(reply).may_ask(other) implies start.may_ask(
                other,
            ) by {
                lemma_may_ask(session, reply, other);
            }
        }
        session.advance(reply);
    }
    let outcome = match session.claim_error {
        Some(cause) => Err(SessionError::InterfaceUnavailable(cause)),
        None => {
            let given = operation.call(session);
            let reply = match &given {
                Ok(_) => Reply::Done,
                Err(error) => Reply::Failed(error.transport_error()),
            };
            let ghost log = transport.asked();
            transport.yielded(reply);
            proof {
                lemma_story_grows(start, added(before, log), session, reply);
                lemma_added_push(before, log, Exchange { action: Action::Transfer, reply });
                assert forall|other: Action| session.next(reply).may_ask(
                    other,
                ) implies start.may_ask(other) by {
                    lemma_may_ask(session, reply, other);
                }
            }
            session.advance(reply);
            match given {
                Ok(value) => Ok(value),
                Err(error) => Err(SessionError::TransferFailed(error)),
            }
        },
    };
    loop
        invariant
            session.wf(),
            session.endpoint == endpoint,
            transport.function() == perform,
            extends(before, transport.asked()),
            leads(start, added(before, transport.asked()), session),
            performed(perform, added(before, transport.asked())),
            session.step.remaining() <= 2,
            operation.function() == old(operation).function(),
            operation.unspent() ==> operation.called() == old(operation).called(),
            match outcome {
                Ok(value) => session.has_transferred() && session.transfer_error is None
                    && !operation.unspent() && operated(
                    operation.called(),
                    endpoint,
                    Ok::<T, TransferError>(value),
                ),
                Err(SessionError::InterfaceUnavailable(cause)) => session.claim_error == Some(
                    cause,
                ) && operation.unspent(),
                Err(SessionError::TransferFailed(error)) => session.has_transferred()
                    && session.transfer_error is Some && !operation.unspent() && operated(
                    operation.called(),
                    endpoint,
                    Err::<T, TransferError>(error),
                ),
                Err(_) => false,
            },
            forall|action: Action| session.may_ask(action) ==> start.may_ask(action),
            forall|action: Action|
                start.may_ask(action) && !(action is Transfer) ==> call_requires(
                    perform,
                    (action,),
                ),
        ensures
            session.step is Closed,
        decreases session.step.remaining(),
    {
        let action = match session.pending() {
            Some(action) => action,
            None => {
                break ;
            },
        };
        proof {
            lemma_may_ask(session, Reply::Done, action);
        }
        let ghost log = transport.asked();
        let reply = transport.perform(action);
        proof {
            lemma_story_grows(start, added(before, log), session, reply);
            lemma_added_push(before, log, Exchange { action, reply });
            assert forall|other: Action| session.next(reply).may_ask(other) implies start.may_ask(
                other,
            ) by {
                lemma_may_ask(session, reply, other);
            }
        }
        session.advance(reply);
    }
    proof {
        let trace = added(before, transport.asked());
        let replies = replies_of(trace);
        lemma_session_terminates(start, replies);
        lemma_in_order(start, replies);
        lemma_run_keeps(start, replies);
        lemma_transfer_between_claim_and_release(endpoint, replies);
        lemma_result_tells(endpoint, replies);
        lemma_run_counts(start, replies, Mark::Claimed, None);
        lemma_run_counts(start, replies, Mark::TransferFailed, None);
        lemma_release_follows_claim(endpoint, replies, None);
        lemma_reattach_iff_detached(endpoint, replies, None);
        crate::session_laws::lemma_acquisition_once(endpoint, replies, None);
        lemma_asked_by(start, replies);
        assert forall|scope: Option<u8>|
            count(trace, Mark::Released, scope) == #[trigger] count(
                trace,
                Mark::Claimed,
                scope,
            ) <= 1 by {
            lemma_release_follows_claim(endpoint, replies, scope);
        }
        assert forall|scope: Option<u8>|
            (#[trigger] count(trace, Mark::Reattached, scope) == 1 <==> count(
                trace,
                Mark::Detached,
                scope,
            ) == 1 && count(trace, Mark::Released, scope) == 1) && count(
                trace,
                Mark::Reattached,
                scope,
            ) <= 1 by {
            lemma_reattach_iff_detached(endpoint, replies, scope);
        }
    }
    outcome
}

/// Every action of a session's trace is one that the session might ask for
/// at the beginning.
pub proof fn lemma_asked_by(s: Session, replies: Seq<Reply>)
    requires
        s.wf(),
    ensures
        asked_by(s, s.trace(replies)),
        forall|action: Action| s.run(replies).may_ask(action) ==> s.may_ask(action),
    decreases replies.len(),
{
    if replies.len() > 0 {
        lemma_asked_by(s, replies.drop_last());
        lemma_run_keeps(s, replies.drop_last());
        let before = s.run(replies.drop_last());
        let earlier = s.trace(replies.drop_last());
        let now = s.trace(replies);
        lemma_may_ask(before, replies.last(), Action::Transfer);
        assert forall|action: Action| s.run(replies).may_ask(action) implies s.may_ask(action) by {
            lemma_may_ask(before, replies.last(), action);
        }
        assert forall|i: int| 0 <= i < now.len() implies s.may_ask((#[trigger] now[i]).action) by {
            if i < earlier.len() {
                assert(now[i] == earlier[i]);
            }
        }
    }
}

} // verus!
