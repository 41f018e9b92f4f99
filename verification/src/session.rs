//! The session on one interface: claim, configure, let the caller transfer,
//! release, and give the interface back to the kernel's driver if this
//! session took it away.
//!
//! A `Session` performs nothing itself. `pending` names the transport action
//! that is due, and `advance` takes the transport's reply to it. The driver
//! loop is
//!
//! ```text
//! let mut session = Session::new(endpoint);
//! while let Some(action) = session.pending() {
//!     let reply = /* perform `action` on the device handle */;
//!     session.advance(reply);
//! }
//! ```
//!
//! and ends only when the session is closed, so that teardown cannot be
//! skipped: whatever the caller's transfers reported, the release is the next
//! thing asked for.
//!
//! `Session::new` opens a session that arbitrates with the kernel's driver
//! itself; `Session::with_driver` opens one at the claim, for a caller that
//! has arbitrated before. The module `driver` holds this loop for a
//! `Transport`, around the caller's operation.

use vstd::prelude::*;
use crate::arbiter::DriverState;
use crate::descriptor::Endpoint;
use crate::error::{SessionError, TransferError, TransportError};
use crate::protocol::{in_scope, Action, Exchange, Mark, Reply};

verus! {

/// The five states of a session.
#[derive(Debug, Clone, Copy, PartialEq, Eq, Structural)]
pub enum Phase {
    /// The interface is not claimed (yet).
    Unclaimed,
    /// The interface is claimed; configuration and alternate setting are being selected.
    Configuring,
    /// The caller's transfers may run.
    Ready,
    /// Teardown is under way.
    Releasing,
    /// Nothing is left to do.
    Closed,
}

/// Where a session stands: the reply it is waiting for.
#[derive(Debug, Clone, Copy, PartialEq, Eq, Structural)]
pub enum Step {
    /// Waiting to hear whether the kernel's driver is bound.
    QueryingDriver,
    /// Waiting for the detach of the kernel's driver.
    DetachingDriver,
    /// Waiting for the claim.
    Claiming,
    /// Waiting for the configuration to be selected.
    SettingConfiguration,
    /// Waiting for the alternate setting to be selected.
    SettingAlternate,
    /// Waiting for the caller's transfers to finish.
    Ready,
    /// Waiting for the release.
    Releasing,
    /// Waiting for the reattach of the kernel's driver.
    Reattaching,
    /// Waiting for nothing.
    Closed,
}

/// A condition that a session absorbed: worth a log line, never a reason to stop.
#[derive(Debug, Clone, Copy, PartialEq, Eq, Structural)]
pub enum Notice {
    /// The kernel driver could not be asked about.
    DriverQueryFailed(TransportError),
    /// The kernel driver is bound and could not be detached.
    DriverDetachFailed(TransportError),
    /// Selecting the configuration or the alternate setting failed; the session went on.
    ConfigurationDegraded(TransportError),
    /// Releasing the interface or reattaching the driver failed.
    TeardownWarning(TransportError),
}

/// The binding between a device handle and one endpoint's interface.
#[derive(Debug, Clone, Copy, PartialEq, Eq)]
pub struct Session {
    /// The endpoint that the session was opened for.
    pub endpoint: Endpoint,
    pub step: Step,
    /// What was found out about the kernel's driver before the claim.
    pub driver: DriverState,
    /// Why the claim failed, if it did.
    pub claim_error: Option<TransportError>,
    /// Why selecting the configuration failed, if it did.
    pub configuration_error: Option<TransportError>,
    /// Why selecting the alternate setting failed, if it did.
    pub alternate_error: Option<TransportError>,
    /// Why the caller's transfers failed, if they did.
    pub transfer_error: Option<TransportError>,
    /// Why the release failed, if it did.
    pub release_error: Option<TransportError>,
    /// Why giving the interface back to the kernel's driver failed, if it did.
    pub reattach_error: Option<TransportError>,
}

impl Step {
    /// The state that a step belongs to.
    pub open spec fn phase(self) -> Phase {
        match self {
            Step::QueryingDriver | Step::DetachingDriver | Step::Claiming => Phase::Unclaimed,
            Step::SettingConfiguration | Step::SettingAlternate => Phase::Configuring,
            Step::Ready => Phase::Ready,
            Step::Releasing | Step::Reattaching => Phase::Releasing,
            Step::Closed => Phase::Closed,
        }
    }

    /// An upper bound on the number of replies a session at this step still takes.
    pub open spec fn remaining(self) -> nat {
        match self {
            Step::QueryingDriver => 8,
            Step::DetachingDriver => 7,
            Step::Claiming => 6,
            Step::SettingConfiguration => 5,
            Step::SettingAlternate => 4,
            Step::Ready => 3,
            Step::Releasing => 2,
            Step::Reattaching => 1,
            Step::Closed => 0,
        }
    }
}

impl Session {
    /// A fresh session for `endpoint`: nothing asked, nothing claimed.
    pub open spec fn initial(endpoint: Endpoint) -> Session {
        Session {
            endpoint,
            step: Step::QueryingDriver,
            driver: DriverState::Unqueried,
            claim_error: None,
            configuration_error: None,
            alternate_error: None,
            transfer_error: None,
            release_error: None,
            reattach_error: None,
        }
    }

    /// A session for `endpoint` that begins at the claim: the kernel's driver
    /// was arbitrated with before, and `driver` is what came of it.
    pub open spec fn claiming(endpoint: Endpoint, driver: DriverState) -> Session {
        Session { step: Step::Claiming, driver, ..Session::initial(endpoint) }
    }

    /// Whether the session may still ask for `action`: it is the action of the
    /// step it stands at or of a later one, for its own endpoint. A detach is
    /// asked for only while the driver is not settled, and a reattach only
    /// where the driver is not settled yet or this session detached it.
    pub open spec fn may_ask(self, action: Action) -> bool {
        let iface = self.endpoint.iface;
        let left = self.step.remaining();
        let unsettled = self.step is QueryingDriver || self.step is DetachingDriver;
        ||| left == 8 && action == (Action::QueryKernelDriver { iface })
        ||| unsettled && action == (Action::DetachKernelDriver { iface })
        ||| left >= 6 && action == (Action::ClaimInterface { iface })
        ||| left >= 5 && action == (Action::SetActiveConfiguration { config: self.endpoint.config })
        ||| left >= 4 && action == (Action::SetAlternateSetting {
            iface,
            setting: self.endpoint.setting,
        })
        ||| left >= 3 && action == Action::Transfer
        ||| left >= 2 && action == (Action::ReleaseInterface { iface })
        ||| left >= 1 && (unsettled || self.driver.detached_here()) && action
            == (Action::AttachKernelDriver { iface })
    }

    /// The action that is due, or `None` once the session is closed.
    pub open spec fn awaited(self) -> Option<Action> {
        match self.step {
            Step::QueryingDriver => Some(Action::QueryKernelDriver { iface: self.endpoint.iface }),
            Step::DetachingDriver => Some(
                Action::DetachKernelDriver { iface: self.endpoint.iface },
            ),
            Step::Claiming => Some(Action::ClaimInterface { iface: self.endpoint.iface }),
            Step::SettingConfiguration => Some(
                Action::SetActiveConfiguration { config: self.endpoint.config },
            ),
            Step::SettingAlternate => Some(
                Action::SetAlternateSetting {
                    iface: self.endpoint.iface,
                    setting: self.endpoint.setting,
                },
            ),
            Step::Ready => Some(Action::Transfer),
            Step::Releasing => Some(Action::ReleaseInterface { iface: self.endpoint.iface }),
            Step::Reattaching => Some(Action::AttachKernelDriver { iface: self.endpoint.iface }),
            Step::Closed => None,
        }
    }

    /// The session after `reply` was given to the action that was due.
    ///
    /// - A failed query or detach is recorded and the claim is tried all the same.
    /// - A failed claim closes the session at once: nothing was claimed, so
    ///   nothing is released or reattached.
    /// - A failed configuration step is recorded and the session goes on.
    /// - Whatever the caller's transfers reported, the release comes next; a
    ///   failure is recorded.
    /// - After the release the driver is reattached exactly if this session
    ///   detached it.
    pub open spec fn next(self, reply: Reply) -> Session {
        match self.step {
            Step::QueryingDriver => match DriverState::of_query(reply) {
                None => Session { step: Step::DetachingDriver, ..self },
                Some(driver) => Session { step: Step::Claiming, driver, ..self },
            },
            Step::DetachingDriver => Session {
                step: Step::Claiming,
                driver: DriverState::of_detach(reply),
                ..self
            },
            Step::Claiming => if reply.succeeded() {
                Session { step: Step::SettingConfiguration, ..self }
            } else {
                Session { step: Step::Closed, claim_error: reply.failure(), ..self }
            },
            Step::SettingConfiguration => Session {
                step: Step::SettingAlternate,
                configuration_error: reply.failure(),
                ..self
            },
            Step::SettingAlternate => Session {
                step: Step::Ready,
                alternate_error: reply.failure(),
                ..self
            },
            Step::Ready => Session {
                step: Step::Releasing,
                transfer_error: reply.failure(),
                ..self
            },
            Step::Releasing => Session {
                step: if self.driver.detached_here() {
                    Step::Reattaching
                } else {
                    Step::Closed
                },
                release_error: reply.failure(),
                ..self
            },
            Step::Reattaching => Session {
                step: Step::Closed,
                reattach_error: reply.failure(),
                ..self
            },
            Step::Closed => self,
        }
    }

    /// The condition to log when `reply` arrives, if it reports a failure that
    /// the session absorbs.
    pub open spec fn notice(self, reply: Reply) -> Option<Notice> {
        match (self.step, reply) {
            (Step::QueryingDriver, Reply::Failed(e)) => Some(Notice::DriverQueryFailed(e)),
            (Step::DetachingDriver, Reply::Failed(e)) => Some(Notice::DriverDetachFailed(e)),
            (Step::SettingConfiguration, Reply::Failed(e)) => Some(
                Notice::ConfigurationDegraded(e),
            ),
            (Step::SettingAlternate, Reply::Failed(e)) => Some(Notice::ConfigurationDegraded(e)),
            (Step::Releasing, Reply::Failed(e)) => Some(Notice::TeardownWarning(e)),
            (Step::Reattaching, Reply::Failed(e)) => Some(Notice::TeardownWarning(e)),
            _ => None,
        }
    }

    /// How a session ended: `None` while it is not closed;
    /// `InterfaceUnavailable` if the interface could not be claimed;
    /// `TransferFailed` if it was claimed and the caller's transfers failed;
    /// else `Ok`. In the last two cases the interface was released.
    pub open spec fn result(self) -> Option<Result<(), SessionError>> {
        if self.step is Closed {
            match (self.claim_error, self.transfer_error) {
                (Some(error), _) => Some(Err(SessionError::InterfaceUnavailable(error))),
                (None, Some(error)) => Some(
                    Err(SessionError::TransferFailed(TransferError::of(error))),
                ),
                (None, None) => Some(Ok(())),
            }
        } else {
            None
        }
    }

    /// Whether a configuration step failed on the way to `Ready`.
    pub open spec fn degraded(self) -> bool {
        self.configuration_error is Some || self.alternate_error is Some
    }

    /// What holds of every session that `new` and `advance` produce: a claim
    /// failure is on record only once the session is closed, a transfer
    /// failure only once the transfers were run, and a reattach is due only
    /// where this session detached the driver.
    pub open spec fn wf(self) -> bool {
        &&& self.claim_error is Some ==> self.step is Closed
        &&& self.transfer_error is Some ==> self.has_transferred()
        &&& self.step is Reattaching ==> self.driver.detached_here()
    }

    /// Whether the session holds, or held, a claim on its interface.
    pub open spec fn has_claimed(self) -> bool {
        match self.step {
            Step::QueryingDriver | Step::DetachingDriver | Step::Claiming => false,
            Step::Closed => self.claim_error is None,
            _ => true,
        }
    }

    /// Whether the release of the interface was asked for.
    pub open spec fn has_released(self) -> bool {
        match self.step {
            Step::Reattaching => true,
            Step::Closed => self.claim_error is None,
            _ => false,
        }
    }

    /// Whether this session detached the kernel's driver.
    pub open spec fn has_detached(self) -> bool {
        match self.step {
            Step::QueryingDriver | Step::DetachingDriver => false,
            _ => self.driver.detached_here(),
        }
    }

    /// Whether the reattach of the kernel's driver was asked for.
    pub open spec fn has_reattached(self) -> bool {
        self.step is Closed && self.claim_error is None && self.driver.detached_here()
    }

    /// Whether the caller's transfers were run.
    pub open spec fn has_transferred(self) -> bool {
        match self.step {
            Step::Releasing | Step::Reattaching => true,
            Step::Closed => self.claim_error is None,
            _ => false,
        }
    }

    /// Whether the kernel's driver is settled: the arbitration lies behind.
    pub open spec fn is_settled(self) -> bool {
        !(self.step is QueryingDriver) && !(self.step is DetachingDriver)
    }

    /// Whether a detach was asked for.
    pub open spec fn has_asked_detach(self) -> bool {
        self.is_settled() && (self.driver is Detached || self.driver is DetachFailed)
    }

    /// Whether the kernel's driver was found bound.
    pub open spec fn has_found_bound(self) -> bool {
        self.step is DetachingDriver || self.has_asked_detach()
    }

    /// Whether the claim was asked for.
    pub open spec fn has_asked_claim(self) -> bool {
        self.is_settled() && !(self.step is Claiming)
    }

    /// How many exchanges that count as `mark` on the interfaces in `scope`
    /// lie behind a session in this state: one or none.
    pub open spec fn behind(self, mark: Mark, scope: Option<u8>) -> nat {
        let reached = match mark {
            Mark::Claimed => self.has_claimed() && in_scope(self.endpoint.iface, scope),
            Mark::Released => self.has_released() && in_scope(self.endpoint.iface, scope),
            Mark::Detached => self.has_detached() && in_scope(self.endpoint.iface, scope),
            Mark::Reattached => self.has_reattached() && in_scope(self.endpoint.iface, scope),
            Mark::Transferred => self.has_transferred() && scope is None,
            Mark::TransferFailed => self.has_transferred() && self.transfer_error is Some
                && scope is None,
            Mark::Queried => !(self.step is QueryingDriver) && in_scope(
                self.endpoint.iface,
                scope,
            ),
            Mark::FoundBound => self.has_found_bound() && in_scope(self.endpoint.iface, scope),
            Mark::DetachAsked => self.has_asked_detach() && in_scope(self.endpoint.iface, scope),
            Mark::ClaimAsked => self.has_asked_claim() && in_scope(self.endpoint.iface, scope),
        };
        if reached {
            1
        } else {
            0
        }
    }

    /// The session after the replies of `replies` were given to it in turn.
    /// Replies that arrive after the session closed change nothing.
    pub open spec fn run(self, replies: Seq<Reply>) -> Session
        decreases replies.len(),
    {
        if replies.len() == 0 {
            self
        } else {
            self.run(replies.drop_last()).next(replies.last())
        }
    }

    /// The exchanges that take place while `replies` are given to the session
    /// in turn: each action that was due, with the reply it got.
    pub open spec fn trace(self, replies: Seq<Reply>) -> Seq<Exchange>
        decreases replies.len(),
    {
        if replies.len() == 0 {
            Seq::empty()
        } else {
            let earlier = self.trace(replies.drop_last());
            match self.run(replies.drop_last()).awaited() {
                Some(action) => earlier.push(Exchange { action, reply: replies.last() }),
                None => earlier,
            }
        }
    }

    /// Opens a session for `endpoint`. The first action due is the driver query.
    pub fn new(endpoint: Endpoint) -> (r: Session)
        ensures
            r == Session::initial(endpoint),
            r.awaited() == Some(Action::QueryKernelDriver { iface: endpoint.iface }),
            r.wf(),
    {
        Session {
            endpoint,
            step: Step::QueryingDriver,
            driver: DriverState::Unqueried,
            claim_error: None,
            configuration_error: None,
            alternate_error: None,
            transfer_error: None,
            release_error: None,
            reattach_error: None,
        }
    }

    /// Opens a session for `endpoint` after the kernel's driver was arbitrated
    /// with: `driver` is what `detach_if_active` returned. The first action
    /// due is the claim, and the driver is reattached after the release
    /// exactly if `driver` says that it was detached.
    pub fn with_driver(endpoint: Endpoint, driver: DriverState) -> (r: Session)
        ensures
            r == Session::claiming(endpoint, driver),
            r.awaited() == Some(Action::ClaimInterface { iface: endpoint.iface }),
            r.wf(),
    {
        Session {
            endpoint,
            step: Step::Claiming,
            driver,
            claim_error: None,
            configuration_error: None,
            alternate_error: None,
            transfer_error: None,
            release_error: None,
            reattach_error: None,
        }
    }

    /// The state the session is in.
    pub fn phase(&self) -> (r: Phase)
        ensures
            r == self.step.phase(),
    {
        match self.step {
            Step::QueryingDriver | Step::DetachingDriver | Step::Claiming => Phase::Unclaimed,
            Step::SettingConfiguration | Step::SettingAlternate => Phase::Configuring,
            Step::Ready => Phase::Ready,
            Step::Releasing | Step::Reattaching => Phase::Releasing,
            Step::Closed => Phase::Closed,
        }
    }

    /// The action to perform now, or `None` once the session is closed.
    pub fn pending(&self) -> (r: Option<Action>)
        ensures
            r == self.awaited(),
            r is None <==> self.step is Closed,
    {
        let iface: u8 = self.endpoint.iface;
        match self.step {
            Step::QueryingDriver => Some(Action::QueryKernelDriver { iface }),
            Step::DetachingDriver => Some(Action::DetachKernelDriver { iface }),
            Step::Claiming => Some(Action::ClaimInterface { iface }),
            Step::SettingConfiguration => Some(
                Action::SetActiveConfiguration { config: self.endpoint.config },
            ),
            Step::SettingAlternate => Some(
                Action::SetAlternateSetting { iface, setting: self.endpoint.setting },
            ),
            Step::Ready => Some(Action::Transfer),
            Step::Releasing => Some(Action::ReleaseInterface { iface }),
            Step::Reattaching => Some(Action::AttachKernelDriver { iface }),
            Step::Closed => None,
        }
    }

    /// Takes the reply to the pending action and moves on. Returns the
    /// condition to log, if the reply reported a failure that was absorbed.
    pub fn advance(&mut self, reply: Reply) -> (r: Option<Notice>)
        ensures
            *final(self) == old(self).next(reply),
            r == old(self).notice(reply),
            final(self).step.remaining() < old(self).step.remaining() || old(self).step is Closed,
            old(self).wf() ==> final(self).wf(),
    {
        let failure: Option<TransportError> = reply.error();
        match self.step {
            Step::QueryingDriver => {
                match DriverState::after_query(reply) {
                    None => {
                        self.step = Step::DetachingDriver;
                        None
                    },
                    Some(driver) => {
                        self.driver = driver;
                        self.step = Step::Claiming;
                        match failure {
                            Some(e) => Some(Notice::DriverQueryFailed(e)),
                            None => None,
                        }
                    },
                }
            },
            Step::DetachingDriver => {
                self.driver = DriverState::after_detach(reply);
                self.step = Step::Claiming;
                match failure {
                    Some(e) => Some(Notice::DriverDetachFailed(e)),
                    None => None,
                }
            },
            Step::Claiming => {
                match failure {
                    None => {
                        self.step = Step::SettingConfiguration;
                    },
                    Some(_) => {
                        self.claim_error = failure;
                        self.step = Step::Closed;
                    },
                }
                None
            },
            Step::SettingConfiguration => {
                self.configuration_error = failure;
                self.step = Step::SettingAlternate;
                match failure {
                    Some(e) => Some(Notice::ConfigurationDegraded(e)),
                    None => None,
                }
            },
            Step::SettingAlternate => {
                self.alternate_error = failure;
                self.step = Step::Ready;
                match failure {
                    Some(e) => Some(Notice::ConfigurationDegraded(e)),
                    None => None,
                }
            },
            Step::Ready => {
                self.transfer_error = failure;
                self.step = Step::Releasing;
                None
            },
            Step::Releasing => {
                self.release_error = failure;
                self.step = if self.driver.needs_reattach() {
                    Step::Reattaching
                } else {
                    Step::Closed
                };
                match failure {
                    Some(e) => Some(Notice::TeardownWarning(e)),
                    None => None,
                }
            },
            Step::Reattaching => {
                self.reattach_error = failure;
                self.step = Step::Closed;
                match failure {
                    Some(e) => Some(Notice::TeardownWarning(e)),
                    None => None,
                }
            },
            Step::Closed => None,
        }
    }

    /// Gives the session the replies of `replies` in turn, as a driver would
    /// that got these replies from the transport, and returns the exchanges
    /// that took place.
    pub fn replay(&mut self, replies: &Vec<Reply>) -> (r: Vec<Exchange>)
        ensures
            *final(self) == old(self).run(replies@),
            r@ == old(self).trace(replies@),
            old(self).wf() ==> final(self).wf(),
    {
        let mut exchanges: Vec<Exchange> = Vec::new();
        let mut i: usize = 0;
        while i < replies.len()
            invariant
                i <= replies.len(),
                *self == old(self).run(replies@.take(i as int)),
                exchanges@ == old(self).trace(replies@.take(i as int)),
                old(self).wf() ==> self.wf(),
            decreases replies.len() - i,
        {
            proof {
                assert(replies@.take(i as int + 1).drop_last() =~= replies@.take(i as int));
            }
            let reply: Reply = replies[i];
            match self.pending() {
                Some(action) => {
                    exchanges.push(Exchange { action, reply });
                },
                None => {},
            }
            self.advance(reply);
            i = i + 1;
        }
        proof {
            assert(replies@.take(replies.len() as int) =~= replies@);
        }
        exchanges
    }

    /// How the session ended, once it is closed.
    pub fn outcome(&self) -> (r: Option<Result<(), SessionError>>)
        ensures
            r == self.result(),
            r is Some <==> self.step is Closed,
            r matches Some(Err(SessionError::InterfaceUnavailable(cause))) ==> self.claim_error
                == Some(cause),
            r matches Some(Err(SessionError::TransferFailed(e))) ==> self.claim_error is None
                && self.transfer_error == Some(e.source()),
    {
        match self.step {
            Step::Closed => match (self.claim_error, self.transfer_error) {
                (Some(error), _) => Some(Err(SessionError::InterfaceUnavailable(error))),
                (None, Some(error)) => Some(
                    Err(SessionError::TransferFailed(TransferError::classify(error))),
                ),
                (None, None) => Some(Ok(())),
            },
            _ => None,
        }
    }

    /// Tests whether a configuration step failed on the way to `Ready`.
    pub fn is_degraded(&self) -> (r: bool)
        ensures
            r == self.degraded(),
    {
        self.configuration_error.is_some() || self.alternate_error.is_some()
    }

    /// Tests whether the session is one that `new` and `advance` produce.
    pub fn is_well_formed(&self) -> (r: bool)
        ensures
            r == self.wf(),
    {
        let closed_if_failed: bool = match self.claim_error {
            Some(_) => self.is_closed(),
            None => true,
        };
        let transferred_if_failed: bool = match (self.transfer_error, self.step) {
            (None, _) => true,
            (Some(_), Step::Releasing) | (Some(_), Step::Reattaching) => true,
            (Some(_), Step::Closed) => self.claim_error.is_none(),
            (Some(_), _) => false,
        };
        let detached_if_reattaching: bool = match self.step {
            Step::Reattaching => self.driver.needs_reattach(),
            _ => true,
        };
        closed_if_failed && transferred_if_failed && detached_if_reattaching
    }

    /// Tests whether the session is closed.
    pub fn is_closed(&self) -> (r: bool)
        ensures
            r == (self.step is Closed),
            r == (self.awaited() is None),
    {
        match self.step {
            Step::Closed => true,
            _ => false,
        }
    }
}

} // verus!
