//! Several sessions on one device handle, run as one.
//!
//! A device may expose more than one endpoint of the wanted kind. Each gets a
//! session of its own, with its own record of the kernel's driver, and the
//! sessions share the moment at which the caller's transfers run:
//!
//! 1. every session is taken, in order, as far as `Ready` (or to `Closed`,
//!    where its claim fails);
//! 2. if any session is `Ready`, the caller's transfers are run once;
//! 3. every session that was `Ready` is torn down, in order.
//!
//! As with a single session, `DeviceRun::pending` names the action that is
//! due and `DeviceRun::advance` takes the reply. `with_interface_sessions`
//! holds the loop: it runs the sessions against a `Transport` around the
//! caller's operation and returns what the operation returned; `read_device`
//! surveys the device first.

use vstd::prelude::*;
use crate::descriptor::{DeviceLayout, Direction, Endpoint, TransferType};
use crate::error::{SessionError, TransferError};
use crate::device_run_laws::{
    any_transferred, lemma_acquisition_once, lemma_every_claim_released, lemma_fresh, lemma_in_stages,
    lemma_next_decreases, lemma_reattach_needs_own_detach, lemma_run_counts, lemma_run_terminates,
    lemma_stage_step, lemma_transfers_run_once, may_be_asked, remaining, stage_of,
};
use crate::protocol::{
    added, count, extends, in_stages, lemma_added_nothing, lemma_added_push, performed,
    replies_of, Action, Exchange, Mark, Reply,
};
use crate::transport::{Once, Transport};
use crate::session::{Session, Step};
use crate::survey::{list_endpoints, surveyed, Selection};

verus! {

/// The three things a run can be busy with.
#[derive(Debug, Clone, Copy, PartialEq, Eq, Structural)]
pub enum Lane {
    /// Bringing a session to `Ready`.
    Acquire,
    /// Running the caller's transfers.
    Transfer,
    /// Tearing a session down.
    Teardown,
}

/// The sessions of one device.
#[derive(Debug, Clone)]
pub struct DeviceRun {
    /// One session per endpoint, in the order in which the endpoints were given.
    pub sessions: Vec<Session>,
}

impl Session {
    /// Whether a session has work in `lane`: it is on its way to `Ready`, it
    /// is `Ready`, or it is being torn down.
    pub open spec fn in_lane(self, lane: Lane) -> bool {
        match lane {
            Lane::Acquire => match self.step {
                Step::QueryingDriver
                | Step::DetachingDriver
                | Step::Claiming
                | Step::SettingConfiguration
                | Step::SettingAlternate => true,
                _ => false,
            },
            Lane::Transfer => self.step is Ready,
            Lane::Teardown => self.step is Releasing || self.step is Reattaching,
        }
    }

    /// Tests whether the session has work in `lane`.
    pub fn works_in(&self, lane: Lane) -> (r: bool)
        ensures
            r == self.in_lane(lane),
    {
        match (lane, self.step) {
            (Lane::Acquire, Step::QueryingDriver)
            | (Lane::Acquire, Step::DetachingDriver)
            | (Lane::Acquire, Step::Claiming)
            | (Lane::Acquire, Step::SettingConfiguration)
            | (Lane::Acquire, Step::SettingAlternate) => true,
            (Lane::Transfer, Step::Ready) => true,
            (Lane::Teardown, Step::Releasing) | (Lane::Teardown, Step::Reattaching) => true,
            _ => false,
        }
    }
}

/// Whether `k` is the index of the first session with work in `lane`.
pub open spec fn is_first_in_lane(sessions: Seq<Session>, lane: Lane, k: int) -> bool {
    &&& 0 <= k < sessions.len()
    &&& sessions[k].in_lane(lane)
    &&& forall|j: int| 0 <= j < k ==> !(#[trigger] sessions[j]).in_lane(lane)
}

/// Whether no session has work in `lane`.
pub open spec fn lane_is_empty(sessions: Seq<Session>, lane: Lane) -> bool {
    forall|j: int| 0 <= j < sessions.len() ==> !(#[trigger] sessions[j]).in_lane(lane)
}

/// The index of the first session with work in `lane`, if there is one.
pub open spec fn first_in_lane(sessions: Seq<Session>, lane: Lane) -> Option<int>
    decreases sessions.len(),
{
    if sessions.len() == 0 {
        None
    } else {
        match first_in_lane(sessions.drop_last(), lane) {
            Some(k) => Some(k),
            None => if sessions.last().in_lane(lane) {
                Some(sessions.len() - 1)
            } else {
                None
            },
        }
    }
}

/// `first_in_lane` finds the first such session, and finds none only where there is none.
pub(crate) proof fn lemma_first_in_lane(sessions: Seq<Session>, lane: Lane)
    ensures
        match first_in_lane(sessions, lane) {
            Some(k) => is_first_in_lane(sessions, lane, k),
            None => lane_is_empty(sessions, lane),
        },
    decreases sessions.len(),
{
    if sessions.len() > 0 {
        lemma_first_in_lane(sessions.drop_last(), lane);
        match first_in_lane(sessions.drop_last(), lane) {
            Some(k) => {
                assert(sessions.drop_last()[k] == sessions[k]);
                assert forall|j: int| 0 <= j < k implies !(#[trigger] sessions[j]).in_lane(
                    lane,
                ) by {
                    assert(sessions.drop_last()[j] == sessions[j]);
                }
            },
            None => {
                assert forall|j: int| 0 <= j < sessions.len() - 1 implies !(
                #[trigger] sessions[j]).in_lane(lane) by {
                    assert(sessions.drop_last()[j] == sessions[j]);
                }
            },
        }
    }
}

/// There is one first session with work in a lane at most.
proof fn lemma_first_in_lane_is(sessions: Seq<Session>, lane: Lane, k: int)
    requires
        is_first_in_lane(sessions, lane, k),
    ensures
        first_in_lane(sessions, lane) == Some(k),
{
    lemma_first_in_lane(sessions, lane);
    match first_in_lane(sessions, lane) {
        Some(found) => {
            if found < k {
                assert(!sessions[found].in_lane(lane));
            }
            if k < found {
                assert(!sessions[k].in_lane(lane));
            }
        },
        None => {
            assert(!sessions[k].in_lane(lane));
        },
    }
}

/// What is due next: the lane, and the first session with work in it.
/// Acquiring comes before the transfers, the transfers before teardown.
/// `None` when every session is closed.
pub open spec fn turn(sessions: Seq<Session>) -> Option<(Lane, int)> {
    if let Some(k) = first_in_lane(sessions, Lane::Acquire) {
        Some((Lane::Acquire, k))
    } else if let Some(k) = first_in_lane(sessions, Lane::Transfer) {
        Some((Lane::Transfer, k))
    } else if let Some(k) = first_in_lane(sessions, Lane::Teardown) {
        Some((Lane::Teardown, k))
    } else {
        None
    }
}

/// The action that is due, or `None` when every session is closed.
pub open spec fn awaited(sessions: Seq<Session>) -> Option<Action> {
    match turn(sessions) {
        Some((_, k)) => sessions[k].awaited(),
        None => None,
    }
}

/// The sessions after `reply` was given to the action that was due. The
/// reply to the caller's transfers goes to every session that is `Ready`; any
/// other reply goes to the one session whose action it answers.
pub open spec fn next(sessions: Seq<Session>, reply: Reply) -> Seq<Session> {
    match turn(sessions) {
        Some((Lane::Transfer, _)) => Seq::new(
            sessions.len(),
            |j: int|
                if sessions[j].step is Ready {
                    sessions[j].next(reply)
                } else {
                    sessions[j]
                },
        ),
        Some((_, k)) => sessions.update(k, sessions[k].next(reply)),
        None => sessions,
    }
}

/// The sessions after the replies of `replies` were given to them in turn.
pub open spec fn run(sessions: Seq<Session>, replies: Seq<Reply>) -> Seq<Session>
    decreases replies.len(),
{
    if replies.len() == 0 {
        sessions
    } else {
        next(run(sessions, replies.drop_last()), replies.last())
    }
}

/// The exchanges that take place while `replies` are given to the sessions in turn.
pub open spec fn trace(sessions: Seq<Session>, replies: Seq<Reply>) -> Seq<Exchange>
    decreases replies.len(),
{
    if replies.len() == 0 {
        Seq::empty()
    } else {
        let earlier = trace(sessions, replies.drop_last());
        match awaited(run(sessions, replies.drop_last())) {
            Some(action) => earlier.push(Exchange { action, reply: replies.last() }),
            None => earlier,
        }
    }
}

/// Fresh sessions for `endpoints`, one each, in order.
pub open spec fn fresh(endpoints: Seq<Endpoint>) -> Seq<Session> {
    Seq::new(endpoints.len(), |k: int| Session::initial(endpoints[k]))
}

/// Whether every session is closed.
pub open spec fn finished(sessions: Seq<Session>) -> bool {
    forall|k: int| 0 <= k < sessions.len() ==> (#[trigger] sessions[k]).step is Closed
}

/// Whether every session is one that `Session::new` and `Session::advance` produce.
pub open spec fn all_wf(sessions: Seq<Session>) -> bool {
    forall|k: int| 0 <= k < sessions.len() ==> (#[trigger] sessions[k]).wf()
}

/// Whether `k` is the first session whose interface was claimed.
pub open spec fn is_first_claimed(sessions: Seq<Session>, k: int) -> bool {
    &&& 0 <= k < sessions.len()
    &&& sessions[k].claim_error is None
    &&& forall|j: int| 0 <= j < k ==> (#[trigger] sessions[j]).claim_error is Some
}

/// Whether `r` says how the run ended: `None` while a session is open. Once
/// all are closed: where an interface was claimed, the result of the first
/// session that claimed one, which is `Ok` or, the transfers being shared,
/// the failure of the transfers; else the reason why the first endpoint's
/// interface could not be claimed; and `NoEndpoint` where there is no session.
pub open spec fn is_result(sessions: Seq<Session>, r: Option<Result<(), SessionError>>) -> bool {
    if !finished(sessions) {
        r is None
    } else if sessions.len() == 0 {
        r == Some(Err::<(), SessionError>(SessionError::NoEndpoint))
    } else if forall|j: int| 0 <= j < sessions.len() ==> (#[trigger] sessions[j]).claim_error is Some {
        r == sessions[0].result()
    } else {
        exists|k: int| is_first_claimed(sessions, k) && r == sessions[k].result()
    }
}

impl View for DeviceRun {
    type V = Seq<Session>;

    open spec fn view(&self) -> Seq<Session> {
        self.sessions@
    }
}

impl DeviceRun {
    /// Plans the sessions for the endpoints that a survey found: a fresh
    /// session for each, in order.
    ///
    /// An empty list is no error of the survey, but nothing can be done with
    /// it: the device offers no channel of the wanted kind.
    pub fn plan(endpoints: &Vec<Endpoint>) -> (r: Result<DeviceRun, SessionError>)
        ensures
            endpoints.len() == 0 <==> r is Err,
            r matches Err(e) ==> e == SessionError::NoEndpoint,
            r matches Ok(planned) ==> planned@ == fresh(endpoints@) && all_wf(planned@),
    {
        if endpoints.len() == 0 {
            return Err(SessionError::NoEndpoint);
        }
        let mut sessions: Vec<Session> = Vec::new();
        let mut i: usize = 0;
        while i < endpoints.len()
            invariant
                i <= endpoints.len(),
                sessions.len() == i,
                forall|k: int| 0 <= k < i ==> sessions@[k] == Session::initial(endpoints@[k]),
            decreases endpoints.len() - i,
        {
            sessions.push(Session::new(endpoints[i]));
            i = i + 1;
        }
        assert(sessions@ =~= fresh(endpoints@));
        Ok(DeviceRun { sessions })
    }

    /// Finds the first session with work in `lane`.
    pub fn first(&self, lane: Lane) -> (r: Option<usize>)
        ensures
            r matches Some(k) ==> first_in_lane(self@, lane) == Some(k as int),
            r is None ==> first_in_lane(self@, lane) is None,
            r matches Some(k) ==> is_first_in_lane(self@, lane, k as int),
            r is None ==> lane_is_empty(self@, lane),
    {
        let mut i: usize = 0;
        while i < self.sessions.len()
            invariant
                i <= self.sessions.len(),
                forall|j: int| 0 <= j < i ==> !(#[trigger] self@[j]).in_lane(lane),
            decreases self.sessions.len() - i,
        {
            if self.sessions[i].works_in(lane) {
                proof {
                    lemma_first_in_lane_is(self@, lane, i as int);
                }
                return Some(i);
            }
            i = i + 1;
        }
        proof {
            lemma_first_in_lane(self@, lane);
        }
        None
    }

    /// What is due next: the lane and the session.
    pub fn whose_turn(&self) -> (r: Option<(Lane, usize)>)
        ensures
            match r {
                Some((lane, k)) => turn(self@) == Some((lane, k as int)) && is_first_in_lane(
                    self@,
                    lane,
                    k as int,
                ),
                None => turn(self@) is None && finished(self@),
            },
            r matches Some((Lane::Transfer, _)) ==> lane_is_empty(self@, Lane::Acquire),
            r matches Some((Lane::Teardown, _)) ==> lane_is_empty(self@, Lane::Acquire)
                && lane_is_empty(self@, Lane::Transfer),
    {
        if let Some(k) = self.first(Lane::Acquire) {
            return Some((Lane::Acquire, k));
        }
        if let Some(k) = self.first(Lane::Transfer) {
            return Some((Lane::Transfer, k));
        }
        if let Some(k) = self.first(Lane::Teardown) {
            return Some((Lane::Teardown, k));
        }
        proof {
            assert forall|k: int| 0 <= k < self@.len() implies (#[trigger] self@[k]).step is Closed by {
                assert(!self@[k].in_lane(Lane::Acquire));
                assert(!self@[k].in_lane(Lane::Transfer));
                assert(!self@[k].in_lane(Lane::Teardown));
            }
        }
        None
    }

    /// The action to perform now, or `None` once every session is closed.
    ///
    /// The caller's transfers are asked for only when no session is still on
    /// its way to `Ready`, and a release or a reattach only when, besides, no
    /// session is waiting for the transfers.
    pub fn pending(&self) -> (r: Option<Action>)
        ensures
            r == awaited(self@),
            r is None <==> finished(self@),
            r == Some(Action::Transfer) ==> lane_is_empty(self@, Lane::Acquire),
            (r matches Some(Action::ReleaseInterface { .. }) || r matches Some(
                Action::AttachKernelDriver { .. },
            )) ==> lane_is_empty(self@, Lane::Acquire) && lane_is_empty(self@, Lane::Transfer),
    {
        match self.whose_turn() {
            Some((_, k)) => self.sessions[k].pending(),
            None => None,
        }
    }

    /// Takes the reply to the pending action.
    pub fn advance(&mut self, reply: Reply)
        ensures
            final(self)@ == next(old(self)@, reply),
            all_wf(old(self)@) ==> all_wf(final(self)@),
    {
        match self.whose_turn() {
            Some((Lane::Transfer, _)) => {
                let ghost before = self@;
                let mut j: usize = 0;
                while j < self.sessions.len()
                    invariant
                        j <= self.sessions.len(),
                        self@.len() == before.len(),
                        forall|i: int|
                            0 <= i < j ==> self@[i] == if (#[trigger] before[i]).step is Ready {
                                before[i].next(reply)
                            } else {
                                before[i]
                            },
                        forall|i: int| j <= i < before.len() ==> self@[i] == #[trigger] before[i],
                        all_wf(before) ==> all_wf(self@),
                    decreases self.sessions.len() - j,
                {
                    let mut session: Session = self.sessions[j];
                    if session.works_in(Lane::Transfer) {
                        session.advance(reply);
                        self.sessions.set(j, session);
                    }
                    j = j + 1;
                }
                assert(self@ =~= next(before, reply));
            },
            Some((_, k)) => {
                let mut session: Session = self.sessions[k];
                session.advance(reply);
                self.sessions.set(k, session);
            },
            None => {},
        }
    }

    /// A copy of the sessions as they stand.
    pub fn snapshot(&self) -> (r: Vec<Session>)
        ensures
            r@ == self@,
    {
        let mut copy: Vec<Session> = Vec::new();
        let mut i: usize = 0;
        while i < self.sessions.len()
            invariant
                i <= self.sessions.len(),
                copy@ == self@.take(i as int),
            decreases self.sessions.len() - i,
        {
            copy.push(self.sessions[i]);
            assert(self@.take(i as int + 1) =~= self@.take(i as int).push(self@[i as int]));
            i = i + 1;
        }
        assert(self@.take(self.sessions.len() as int) =~= self@);
        copy
    }

    /// Tests whether every session is closed.
    pub fn is_finished(&self) -> (r: bool)
        ensures
            r == finished(self@),
    {
        self.whose_turn().is_none()
    }

    /// Gives the run the replies of `replies` in turn and returns the
    /// exchanges that took place.
    pub fn replay(&mut self, replies: &Vec<Reply>) -> (r: Vec<Exchange>)
        ensures
            final(self)@ == run(old(self)@, replies@),
            r@ == trace(old(self)@, replies@),
            all_wf(old(self)@) ==> all_wf(final(self)@),
    {
        let mut exchanges: Vec<Exchange> = Vec::new();
        let mut i: usize = 0;
        while i < replies.len()
            invariant
                i <= replies.len(),
                self@ == run(old(self)@, replies@.take(i as int)),
                exchanges@ == trace(old(self)@, replies@.take(i as int)),
                all_wf(old(self)@) ==> all_wf(self@),
            decreases replies.len() - i,
        {
            proof {
                assert(replies@.take(i as int + 1).drop_last() =~= replies@.take(i as int));
            }
            let reply: Reply = replies[i];
            match self.pending() {
                Some(action) => {
                    exchanges.push(Exchange { action, reply });
                },
                None => {},
            }
            self.advance(reply);
            i = i + 1;
        }
        proof {
            assert(replies@.take(replies.len() as int) =~= replies@);
        }
        exchanges
    }

    /// How the run ended, once every session is closed.
    pub fn outcome(&self) -> (r: Option<Result<(), SessionError>>)
        ensures
            is_result(self@, r),
            r is Some <==> finished(self@),
    {
        if !self.is_finished() {
            return None;
        }
        if self.sessions.len() == 0 {
            return Some(Err(SessionError::NoEndpoint));
        }
        let mut i: usize = 0;
        while i < self.sessions.len()
            invariant
                i <= self.sessions.len(),
                self.sessions.len() > 0,
                finished(self@),
                forall|k: int| 0 <= k < i ==> (#[trigger] self@[k]).claim_error is Some,
            decreases self.sessions.len() - i,
        {
            if self.sessions[i].claim_error.is_none() {
                assert(is_first_claimed(self@, i as int));
                assert(self@[i as int].step is Closed);
                return self.sessions[i].outcome();
            }
            i = i + 1;
        }
        assert(self@[0].step is Closed);
        self.sessions[0].outcome()
    }
}

/// Whether `trace` is the whole story of `sessions`, the sessions for
/// `endpoints`: the exchanges of fresh sessions with these replies, which left
/// them as they are.
pub open spec fn is_story_of(
    exchanges: Seq<Exchange>,
    endpoints: Seq<Endpoint>,
    sessions: Seq<Session>,
) -> bool {
    &&& sessions == run(fresh(endpoints), replies_of(exchanges))
    &&& exchanges == trace(fresh(endpoints), replies_of(exchanges))
}

/// One more exchange extends the story.
proof fn lemma_story_grows(
    exchanges: Seq<Exchange>,
    endpoints: Seq<Endpoint>,
    sessions: Seq<Session>,
    reply: Reply,
)
    requires
        is_story_of(exchanges, endpoints, sessions),
        awaited(sessions) is Some,
    ensures
        is_story_of(
            exchanges.push(Exchange { action: awaited(sessions)->0, reply }),
            endpoints,
            next(sessions, reply),
        ),
{
    let longer = exchanges.push(Exchange { action: awaited(sessions)->0, reply });
    assert(replies_of(longer).drop_last() =~= replies_of(exchanges));
    assert(replies_of(longer).last() == reply);
}

/// Whether endpoint `k` is the only one of `endpoints` on its interface.
pub open spec fn alone_on_interface(endpoints: Seq<Endpoint>, k: int) -> bool {
    &&& 0 <= k < endpoints.len()
    &&& forall|j: int|
        0 <= j < endpoints.len() && j != k ==> (#[trigger] endpoints[j]).iface
            != endpoints[k].iface
}

/// Whether `sessions` are the sessions for `endpoints` at the moment when the
/// caller's operation is run: none is on its way to `Ready` any more, and one
/// at least is `Ready`.
pub open spec fn is_ready_run(endpoints: Seq<Endpoint>, sessions: Seq<Session>) -> bool {
    &&& sessions.len() == endpoints.len()
    &&& all_wf(sessions)
    &&& forall|k: int| 0 <= k < sessions.len() ==> (#[trigger] sessions[k]).endpoint == endpoints[k]
    &&& lane_is_empty(sessions, Lane::Acquire)
    &&& !lane_is_empty(sessions, Lane::Transfer)
}

/// Whether `call` is a call of the caller's operation that gave `outcome`:
/// it was handed the sessions for `endpoints`, ready.
pub open spec fn operated<T>(
    call: Option<(Vec<Session>, Result<T, TransferError>)>,
    endpoints: Seq<Endpoint>,
    outcome: Result<T, TransferError>,
) -> bool {
    call matches Some((ready, given)) && given == outcome && is_ready_run(endpoints, ready@)
}

/// What the log of a finished run of the sessions for `endpoints` has to
/// show: it is the story of sessions that are all closed; each entry is an
/// action of one of the endpoints; everything that leads up to `Ready` comes
/// before the caller's transfers and every teardown after them; the transfers
/// were run once if an interface had been claimed, else not at all; as many
/// releases were asked for as claims had succeeded and no more reattaches
/// than detaches had succeeded, on the whole and on each interface by itself;
/// the claim was asked for once for each endpoint, and a detach exactly as
/// often as a query had answered "bound"; and where one endpoint alone uses an
/// interface, the claim was asked for once there, and the driver was
/// reattached there exactly if this run had detached it and released the
/// interface.
pub open spec fn ran_to_the_end<F: Fn(Action) -> Reply>(
    endpoints: Seq<Endpoint>,
    perform: F,
    exchanges: Seq<Exchange>,
) -> bool {
    let sessions = run(fresh(endpoints), replies_of(exchanges));
    &&& finished(sessions)
    &&& all_wf(sessions)
    &&& is_story_of(exchanges, endpoints, sessions)
    &&& performed(perform, exchanges)
    &&& in_stages(exchanges)
    &&& forall|i: int|
        0 <= i < exchanges.len() ==> may_be_asked(
            fresh(endpoints),
            (#[trigger] exchanges[i]).action,
        )
    &&& exchanges.len() <= 8 * endpoints.len()
    &&& count(exchanges, Mark::Released, None) == count(exchanges, Mark::Claimed, None)
    &&& count(exchanges, Mark::ClaimAsked, None) == endpoints.len()
    &&& forall|scope: Option<u8>|
        count(exchanges, Mark::DetachAsked, scope) == #[trigger] count(
            exchanges,
            Mark::FoundBound,
            scope,
        )
    &&& forall|k: int| #[trigger]
        alone_on_interface(endpoints, k) ==> count(
            exchanges,
            Mark::ClaimAsked,
            Some(endpoints[k].iface),
        ) == 1 && count(exchanges, Mark::Claimed, Some(endpoints[k].iface)) <= 1 && (count(exchanges, Mark::Reattached, Some(endpoints[k].iface)) == 1 <==> count(
            exchanges,
            Mark::Detached,
            Some(endpoints[k].iface),
        ) == 1 && count(exchanges, Mark::Released, Some(endpoints[k].iface)) == 1)
    &&& forall|scope: Option<u8>|
        count(exchanges, Mark::Released, scope) == #[trigger] count(
            exchanges,
            Mark::Claimed,
            scope,
        ) <= endpoints.len()
    &&& forall|scope: Option<u8>|
        #[trigger] count(exchanges, Mark::Reattached, scope) <= count(
            exchanges,
            Mark::Detached,
            scope,
        )
    &&& count(exchanges, Mark::Transferred, None) == if count(exchanges, Mark::Claimed, None)
        >= 1 {
        1nat
    } else {
        0nat
    }
    &&& count(exchanges, Mark::TransferFailed, None) <= count(exchanges, Mark::Transferred, None)
}

/// Whether `r` is the result that a finished run with the log `exchanges`
/// owes its caller, where `call` is the call of the caller's operation, if it
/// was run, and `unspent` says that it was not: `NoEndpoint` where there was
/// no endpoint; `InterfaceUnavailable`, with the reason of the first
/// endpoint, where no claim succeeded; in both cases the operation was not
/// run. Else the operation was run, once, with the ready sessions, and the
/// result is what it gave: its value, or `TransferFailed` with its error.
pub open spec fn is_outcome<T>(
    endpoints: Seq<Endpoint>,
    exchanges: Seq<Exchange>,
    r: Result<T, SessionError>,
    call: Option<(Vec<Session>, Result<T, TransferError>)>,
    unspent: bool,
) -> bool {
    let sessions = run(fresh(endpoints), replies_of(exchanges));
    match r {
        Ok(value) => count(exchanges, Mark::Claimed, None) >= 1 && count(
            exchanges,
            Mark::TransferFailed,
            None,
        ) == 0 && !unspent && operated(call, endpoints, Ok::<T, TransferError>(value)),
        Err(SessionError::NoEndpoint) => endpoints.len() == 0 && exchanges.len() == 0 && unspent,
        Err(SessionError::InterfaceUnavailable(cause)) => endpoints.len() > 0 && count(
            exchanges,
            Mark::Claimed,
            None,
        ) == 0 && sessions[0].claim_error == Some(cause) && unspent,
        Err(SessionError::TransferFailed(error)) => count(exchanges, Mark::Claimed, None) >= 1
            && count(exchanges, Mark::TransferFailed, None) == 1 && !unspent && operated(
            call,
            endpoints,
            Err::<T, TransferError>(error),
        ),
        Err(SessionError::DeviceNotFound) => false,
    }
}

/// The log of a finished run shows what it has to.
proof fn lemma_ran_to_the_end<F: Fn(Action) -> Reply>(
    endpoints: Seq<Endpoint>,
    perform: F,
    exchanges: Seq<Exchange>,
)
    requires
        is_story_of(exchanges, endpoints, run(fresh(endpoints), replies_of(exchanges))),
        finished(run(fresh(endpoints), replies_of(exchanges))),
        performed(perform, exchanges),
    ensures
        ran_to_the_end(endpoints, perform, exchanges),
{
    let replies = replies_of(exchanges);
    lemma_fresh(endpoints, Mark::Claimed, None);
    lemma_run_terminates(fresh(endpoints), replies);
    lemma_transfers_run_once(endpoints, replies);
    lemma_in_stages(fresh(endpoints), replies);
    lemma_every_claim_released(endpoints, replies, None);
    lemma_acquisition_once(endpoints, replies, None);
    assert forall|scope: Option<u8>|
        count(exchanges, Mark::DetachAsked, scope) == #[trigger] count(
            exchanges,
            Mark::FoundBound,
            scope,
        ) by {
        lemma_acquisition_once(endpoints, replies, scope);
    }
    assert forall|k: int| #[trigger] alone_on_interface(endpoints, k) implies count(
        exchanges,
        Mark::ClaimAsked,
        Some(endpoints[k].iface),
    ) == 1 && count(exchanges, Mark::Claimed, Some(endpoints[k].iface)) <= 1 && (count(exchanges, Mark::Reattached, Some(endpoints[k].iface)) == 1 <==> count(
        exchanges,
        Mark::Detached,
        Some(endpoints[k].iface),
    ) == 1 && count(exchanges, Mark::Released, Some(endpoints[k].iface)) == 1) by {
        crate::device_run_laws::lemma_reattach_iff_detached_on(endpoints, replies, k);
        lemma_acquisition_once(endpoints, replies, Some(endpoints[k].iface));
    }
    assert forall|scope: Option<u8>|
        count(exchanges, Mark::Released, scope) == #[trigger] count(
            exchanges,
            Mark::Claimed,
            scope,
        ) <= endpoints.len() by {
        lemma_every_claim_released(endpoints, replies, scope);
    }
    assert forall|scope: Option<u8>|
        #[trigger] count(exchanges, Mark::Reattached, scope) <= count(
            exchanges,
            Mark::Detached,
            scope,
        ) by {
        lemma_reattach_needs_own_detach(endpoints, replies, scope);
    }
}

/// Runs the sessions for `endpoints` from beginning to end around the
/// caller's operation: brings each to `Ready`, hands the sessions to
/// `operation`, once, if any interface was claimed, and tears each claimed
/// session down.
///
/// Returns what `operation` returned; or `InterfaceUnavailable` where no
/// claim succeeded; or `NoEndpoint`, with nothing done, where `endpoints` is
/// empty; in these two cases `operation` was not run. The teardown takes place
/// whatever `operation` returned.
///
/// The transport need only be able to carry out the actions of these
/// endpoints, and is asked for exactly what is added to its log; with no
/// endpoint, for nothing at all.
pub fn with_interface_sessions<
    T,
    F: Fn(Action) -> Reply,
    O: FnOnce(Vec<Session>) -> Result<T, TransferError>,
>(
    endpoints: &Vec<Endpoint>,
    transport: &mut Transport<F>,
    operation: &mut Once<Vec<Session>, Result<T, TransferError>, O>,
) -> (r: Result<T, SessionError>)
    requires
        forall|action: Action|
            may_be_asked(fresh(endpoints@), action) && !(action is Transfer) ==> call_requires(
                old(transport).function(),
                (action,),
            ),
        old(operation).unspent(),
        forall|ready: Vec<Session>|
            is_ready_run(endpoints@, ready@) ==> call_requires(
                old(operation).function(),
                (ready,),
            ),
    ensures
        final(transport).function() == old(transport).function(),
        final(operation).function() == old(operation).function(),
        extends(old(transport).asked(), final(transport).asked()),
        ran_to_the_end(
            endpoints@,
            old(transport).function(),
            added(old(transport).asked(), final(transport).asked()),
        ),
        is_outcome(
            endpoints@,
            added(old(transport).asked(), final(transport).asked()),
            r,
            final(operation).called(),
            final(operation).unspent(),
        ),
        final(operation).unspent() ==> final(operation).called() == old(operation).called(),
{
    let ghost before = transport.asked();
    let ghost perform = transport.function();
    proof {
        lemma_added_nothing(before);
        assert(replies_of(Seq::<Exchange>::empty()) =~= Seq::<Reply>::empty());
        lemma_fresh(endpoints@, Mark::Claimed, None);
    }
    let mut sessions = match DeviceRun::plan(endpoints) {
        Ok(planned) => planned,
        Err(e) => {
            proof {
                assert(fresh(endpoints@) =~= Seq::<Session>::empty());
                lemma_ran_to_the_end(endpoints@, perform, Seq::<Exchange>::empty());
            }
            return Err(e);
        },
    };
    loop
        invariant
            endpoints.len() > 0,
            all_wf(sessions@),
            transport.function() == perform,
            extends(before, transport.asked()),
            is_story_of(added(before, transport.asked()), endpoints@, sessions@),
            performed(perform, added(before, transport.asked())),
            !any_transferred(sessions@),
            sessions@.len() == endpoints.len(),
            operation.unspent(),
            operation.function() == old(operation).function(),
            operation.called() == old(operation).called(),
            forall|ready: Vec<Session>|
                is_ready_run(endpoints@, ready@) ==> call_requires(
                    old(operation).function(),
                    (ready,),
                ),
            forall|action: Action|
                may_be_asked(fresh(endpoints@), action) && !(action is Transfer) ==> call_requires(
                    perform,
                    (action,),
                ),
        ensures
            awaited(sessions@) == Some(Action::Transfer) || finished(sessions@),
        decreases remaining(sessions@),
    {
        let action = match sessions.pending() {
            Some(Action::Transfer) | None => {
                break ;
            },
            Some(action) => action,
        };
        proof {
            lemma_in_stages(fresh(endpoints@), replies_of(added(before, transport.asked())));
            lemma_stage_step(sessions@, Reply::Done);
            assert(may_be_asked(sessions@, action));
            assert(may_be_asked(fresh(endpoints@), action));
        }
        let ghost log = transport.asked();
        let reply = transport.perform(action);
        proof {
            lemma_story_grows(added(before, log), endpoints@, sessions@, reply);
            lemma_added_push(before, log, Exchange { action, reply });
            lemma_next_decreases(sessions@, reply);
            lemma_stage_step(sessions@, reply);
            lemma_next_decreases(next(sessions@, reply), Reply::Done);
        }
        sessions.advance(reply);
    }
    let outcome = match sessions.pending() {
        Some(_) => {
            proof {
                lemma_in_stages(fresh(endpoints@), replies_of(added(before, transport.asked())));
                lemma_run_counts(
                    fresh(endpoints@),
                    replies_of(added(before, transport.asked())),
                    Mark::Claimed,
                    None,
                );
                lemma_first_in_lane(sessions@, Lane::Acquire);
                lemma_first_in_lane(sessions@, Lane::Transfer);
            }
            let ready = sessions.snapshot();
            proof {
                assert forall|k: int| 0 <= k < ready@.len() implies (#[trigger] ready@[k]).endpoint
                    == endpoints@[k] by {
                    assert(fresh(endpoints@)[k].endpoint == endpoints@[k]);
                }
                assert(is_ready_run(endpoints@, ready@));
            }
            let given = operation.call(ready);
            let reply = match &given {
                Ok(_) => Reply::Done,
                Err(error) => Reply::Failed(error.transport_error()),
            };
            let ghost log = transport.asked();
            transport.yielded(reply);
            proof {
                lemma_story_grows(added(before, log), endpoints@, sessions@, reply);
                lemma_added_push(before, log, Exchange { action: Action::Transfer, reply });
                lemma_stage_step(sessions@, reply);
                lemma_first_in_lane(sessions@, Lane::Acquire);
                lemma_first_in_lane(sessions@, Lane::Transfer);
                let k = first_in_lane(sessions@, Lane::Transfer)->0;
                assert(next(sessions@, reply)[k].has_transferred());
                assert forall|j: int|
                    0 <= j < sessions@.len() && (#[trigger] next(
                        sessions@,
                        reply,
                    )[j]).has_transferred() implies (next(sessions@, reply)[j].transfer_error
                    is Some <==> given is Err) by {
                    assert(!sessions@[j].has_transferred());
                }
            }
            sessions.advance(reply);
            match given {
                Ok(value) => Ok(value),
                Err(error) => Err(SessionError::TransferFailed(error)),
            }
        },
        None => {
            proof {
                lemma_next_decreases(sessions@, Reply::Done);
                assert(sessions@[0].step is Closed);
                assert(!sessions@[0].has_transferred());
            }
            match sessions.sessions[0].claim_error {
                Some(cause) => Err(SessionError::InterfaceUnavailable(cause)),
                None => Err(SessionError::NoEndpoint),
            }
        },
    };
    loop
        invariant
            endpoints.len() > 0,
            all_wf(sessions@),
            sessions@.len() == endpoints.len(),
            transport.function() == perform,
            extends(before, transport.asked()),
            is_story_of(added(before, transport.asked()), endpoints@, sessions@),
            performed(perform, added(before, transport.asked())),
            stage_of(sessions@) == 2,
            operation.function() == old(operation).function(),
            operation.unspent() ==> operation.called() == old(operation).called(),
            match outcome {
                Ok(value) => any_transferred(sessions@) && !operation.unspent() && operated(
                    operation.called(),
                    endpoints@,
                    Ok::<T, TransferError>(value),
                ),
                Err(SessionError::InterfaceUnavailable(cause)) => finished(sessions@)
                    && !any_transferred(sessions@) && sessions@[0].claim_error == Some(cause)
                    && operation.unspent(),
                Err(SessionError::TransferFailed(error)) => any_transferred(sessions@)
                    && !operation.unspent() && operated(
                    operation.called(),
                    endpoints@,
                    Err::<T, TransferError>(error),
                ),
                Err(_) => false,
            },
            forall|j: int|
                0 <= j < sessions@.len() && (#[trigger] sessions@[j]).has_transferred() ==> (
                sessions@[j].transfer_error is Some <==> outcome is Err),
            forall|action: Action|
                may_be_asked(fresh(endpoints@), action) && !(action is Transfer) ==> call_requires(
                    perform,
                    (action,),
                ),
        ensures
            finished(sessions@),
        decreases remaining(sessions@),
    {
        let action = match sessions.pending() {
            Some(action) => action,
            None => {
                break ;
            },
        };
        proof {
            lemma_in_stages(fresh(endpoints@), replies_of(added(before, transport.asked())));
            lemma_stage_step(sessions@, Reply::Done);
            assert(may_be_asked(sessions@, action));
            assert(may_be_asked(fresh(endpoints@), action));
        }
        let ghost log = transport.asked();
        let ghost earlier = sessions@;
        let reply = transport.perform(action);
        proof {
            lemma_story_grows(added(before, log), endpoints@, sessions@, reply);
            lemma_added_push(before, log, Exchange { action, reply });
            lemma_next_decreases(sessions@, reply);
            lemma_stage_step(sessions@, reply);
            lemma_first_in_lane(earlier, Lane::Acquire);
            lemma_first_in_lane(earlier, Lane::Transfer);
            lemma_first_in_lane(earlier, Lane::Teardown);
            let after = next(earlier, reply);
            assert forall|j: int| 0 <= j < earlier.len() implies ((
            #[trigger] after[j]).has_transferred() <==> earlier[j].has_transferred())
                && after[j].transfer_error == earlier[j].transfer_error by {
                assert(earlier[j].wf());
            }
            if any_transferred(earlier) {
                let w = choose|w: int| 0 <= w < earlier.len() && (#[trigger] earlier[w]).has_transferred();
                assert(after[w].has_transferred());
            }
        }
        sessions.advance(reply);
    }
    proof {
        let trace = added(before, transport.asked());
        let replies = replies_of(trace);
        lemma_ran_to_the_end(endpoints@, perform, trace);
        let verdict = crate::device_run_laws::verdict(sessions@);
        crate::device_run_laws::lemma_verdict(sessions@);
        crate::device_run_laws::lemma_result_tells(endpoints@, replies, verdict);
        if any_transferred(sessions@) {
            let w = choose|w: int| 0 <= w < sessions@.len() && (#[trigger] sessions@[w]).has_transferred();
            assert(sessions@[w].step is Closed);
            assert(sessions@[w].claim_error is None);
        }
    }
    outcome
}

/// The endpoints that `read_device` opens sessions for: the interrupt
/// endpoints that the host can read from.
pub open spec fn status_endpoints(layout: DeviceLayout) -> Seq<Endpoint> {
    surveyed(layout, Selection::Kind(Direction::In, TransferType::Interrupt))
}

/// Works a device whose descriptor tree is `layout`: lists its inbound
/// interrupt endpoints and runs a session for each around the caller's
/// operation, as `with_interface_sessions` does.
///
/// Returns `NoEndpoint` where the device has no such endpoint; then neither
/// the transport nor `operation` need be able to do anything, and nothing is
/// asked of the transport.
pub fn read_device<
    T,
    F: Fn(Action) -> Reply,
    O: FnOnce(Vec<Session>) -> Result<T, TransferError>,
>(
    layout: &DeviceLayout,
    transport: &mut Transport<F>,
    operation: &mut Once<Vec<Session>, Result<T, TransferError>, O>,
) -> (r: Result<T, SessionError>)
    requires
        forall|action: Action|
            may_be_asked(fresh(status_endpoints(*layout)), action) && !(action is Transfer)
                ==> call_requires(old(transport).function(), (action,)),
        old(operation).unspent(),
        forall|ready: Vec<Session>|
            is_ready_run(status_endpoints(*layout), ready@) ==> call_requires(
                old(operation).function(),
                (ready,),
            ),
    ensures
        final(transport).function() == old(transport).function(),
        final(operation).function() == old(operation).function(),
        extends(old(transport).asked(), final(transport).asked()),
        ran_to_the_end(
            status_endpoints(*layout),
            old(transport).function(),
            added(old(transport).asked(), final(transport).asked()),
        ),
        is_outcome(
            status_endpoints(*layout),
            added(old(transport).asked(), final(transport).asked()),
            r,
            final(operation).called(),
            final(operation).unspent(),
        ),
        final(operation).unspent() ==> final(operation).called() == old(operation).called(),
{
    let endpoints = list_endpoints(layout, Direction::In, TransferType::Interrupt);
    assert(endpoints@ == status_endpoints(*layout));
    with_interface_sessions(&endpoints, transport, operation)
}

} // verus!
