//! The exchange between the library and whoever drives the transport: the
//! library names an action, the driver performs it and reports a reply.

use vstd::prelude::*;
use crate::error::TransportError;

verus! {

/// One transport operation that the library asks its driver to perform.
#[derive(Debug, Clone, Copy, PartialEq, Eq, Structural)]
pub enum Action {
    /// Ask whether the kernel's driver is bound to the interface.
    QueryKernelDriver { iface: u8 },
    /// Detach the kernel's driver from the interface.
    DetachKernelDriver { iface: u8 },
    /// Claim the interface.
    ClaimInterface { iface: u8 },
    /// Make `config` the device's active configuration.
    SetActiveConfiguration { config: u8 },
    /// Select an alternate setting of the interface.
    SetAlternateSetting { iface: u8, setting: u8 },
    /// Run the caller's transfers: everything that was claimed is ready.
    Transfer,
    /// Release the interface.
    ReleaseInterface { iface: u8 },
    /// Give the interface back to the kernel's driver.
    AttachKernelDriver { iface: u8 },
}

impl Action {
    /// The place of an action in the life of a session: the query comes
    /// first, the reattach last.
    pub open spec fn order(self) -> nat {
        match self {
            Action::QueryKernelDriver { .. } => 0,
            Action::DetachKernelDriver { .. } => 1,
            Action::ClaimInterface { .. } => 2,
            Action::SetActiveConfiguration { .. } => 3,
            Action::SetAlternateSetting { .. } => 4,
            Action::Transfer => 5,
            Action::ReleaseInterface { .. } => 6,
            Action::AttachKernelDriver { .. } => 7,
        }
    }

    /// The part of a run that an action belongs to: 0 for what leads up to
    /// `Ready`, 1 for the caller's transfers, 2 for teardown.
    pub open spec fn stage(self) -> nat {
        match self {
            Action::Transfer => 1,
            Action::ReleaseInterface { .. } | Action::AttachKernelDriver { .. } => 2,
            _ => 0,
        }
    }
}

/// What the driver reports after performing an action.
#[derive(Debug, Clone, Copy, PartialEq, Eq, Structural)]
pub enum Reply {
    /// The action was carried out.
    Done,
    /// The answer to `QueryKernelDriver`.
    DriverActive(bool),
    /// The action failed.
    Failed(TransportError),
}

impl Reply {
    /// Every reply but `Failed` reports success.
    pub open spec fn succeeded(self) -> bool {
        !(self is Failed)
    }

    /// The transport's error, if the reply reports one.
    pub open spec fn failure(self) -> Option<TransportError> {
        match self {
            Reply::Failed(error) => Some(error),
            _ => None,
        }
    }

    /// Tests whether the reply reports success.
    pub fn is_success(&self) -> (r: bool)
        ensures
            r == self.succeeded(),
    {
        match self {
            Reply::Failed(_) => false,
            _ => true,
        }
    }

    /// Takes the transport's error out of the reply.
    pub fn error(&self) -> (r: Option<TransportError>)
        ensures
            r == self.failure(),
            r is None <==> self.succeeded(),
    {
        match self {
            Reply::Failed(error) => Some(*error),
            _ => None,
        }
    }
}

/// An action that was performed, with the reply it got.
#[derive(Debug, Clone, Copy, PartialEq, Eq, Structural)]
pub struct Exchange {
    pub action: Action,
    pub reply: Reply,
}

/// What an exchange can mean for the bookkeeping of a session.
#[derive(Debug, Clone, Copy, PartialEq, Eq, Structural)]
pub enum Mark {
    /// An interface was claimed: the claim was asked for and succeeded.
    Claimed,
    /// A release was asked for, whatever came of it.
    Released,
    /// The kernel's driver was detached: the detach was asked for and succeeded.
    Detached,
    /// A reattach was asked for, whatever came of it.
    Reattached,
    /// The caller's transfers were run.
    Transferred,
    /// The caller's transfers were run and failed.
    TransferFailed,
    /// The kernel's driver was asked about, whatever the answer.
    Queried,
    /// The kernel's driver was asked about, and the answer was "bound".
    FoundBound,
    /// A detach was asked for, whatever came of it.
    DetachAsked,
    /// A claim was asked for, whatever came of it.
    ClaimAsked,
}

impl Mark {
    /// Whether exchanges with this mark belong to one session alone. The
    /// caller's transfers are shared by the sessions of a device.
    pub open spec fn per_session(self) -> bool {
        !(self is Transferred) && !(self is TransferFailed)
    }
}

/// Whether interface `iface` is one that `scope` speaks of: `None` speaks of
/// every interface, `Some(i)` of interface `i` alone.
pub open spec fn in_scope(iface: u8, scope: Option<u8>) -> bool {
    scope matches Some(i) ==> i == iface
}

impl Exchange {
    /// Whether this exchange counts as `mark` on the interfaces in `scope`.
    /// The caller's transfers belong to no single interface and count only
    /// where `scope` is `None`.
    pub open spec fn marks(self, mark: Mark, scope: Option<u8>) -> bool {
        match mark {
            Mark::Claimed => self.action matches Action::ClaimInterface { iface }
                && self.reply.succeeded() && in_scope(iface, scope),
            Mark::Released => self.action matches Action::ReleaseInterface { iface } && in_scope(
                iface,
                scope,
            ),
            Mark::Detached => self.action matches Action::DetachKernelDriver { iface }
                && self.reply.succeeded() && in_scope(iface, scope),
            Mark::Reattached => self.action matches Action::AttachKernelDriver { iface }
                && in_scope(iface, scope),
            Mark::Transferred => self.action is Transfer && scope is None,
            Mark::TransferFailed => self.action is Transfer && !self.reply.succeeded()
                && scope is None,
            Mark::Queried => self.action matches Action::QueryKernelDriver { iface } && in_scope(
                iface,
                scope,
            ),
            Mark::FoundBound => self.action matches Action::QueryKernelDriver { iface }
                && self.reply == Reply::DriverActive(true) && in_scope(iface, scope),
            Mark::DetachAsked => self.action matches Action::DetachKernelDriver { iface }
                && in_scope(iface, scope),
            Mark::ClaimAsked => self.action matches Action::ClaimInterface { iface } && in_scope(
                iface,
                scope,
            ),
        }
    }

    /// Tests whether this exchange counts as `mark` on the interfaces in `scope`.
    pub fn has_mark(&self, mark: Mark, scope: Option<u8>) -> (r: bool)
        ensures
            r == self.marks(mark, scope),
    {
        let succeeded: bool = self.reply.is_success();
        match (mark, self.action) {
            (Mark::Claimed, Action::ClaimInterface { iface }) => succeeded && covers(scope, iface),
            (Mark::Released, Action::ReleaseInterface { iface }) => covers(scope, iface),
            (Mark::Detached, Action::DetachKernelDriver { iface }) => succeeded && covers(
                scope,
                iface,
            ),
            (Mark::Reattached, Action::AttachKernelDriver { iface }) => covers(scope, iface),
            (Mark::Transferred, Action::Transfer) => scope.is_none(),
            (Mark::TransferFailed, Action::Transfer) => !succeeded && scope.is_none(),
            (Mark::Queried, Action::QueryKernelDriver { iface }) => covers(scope, iface),
            (Mark::FoundBound, Action::QueryKernelDriver { iface }) => {
                let bound: bool = match self.reply {
                    Reply::DriverActive(true) => true,
                    _ => false,
                };
                bound && covers(scope, iface)
            },
            (Mark::DetachAsked, Action::DetachKernelDriver { iface }) => covers(scope, iface),
            (Mark::ClaimAsked, Action::ClaimInterface { iface }) => covers(scope, iface),
            _ => false,
        }
    }
}

/// Tests whether `scope` speaks of interface `iface`.
pub fn covers(scope: Option<u8>, iface: u8) -> (r: bool)
    ensures
        r == in_scope(iface, scope),
{
    match scope {
        Some(i) => i == iface,
        None => true,
    }
}

/// The test that `Exchange::marks` makes, as a predicate on exchanges.
pub open spec fn marked(mark: Mark, scope: Option<u8>) -> spec_fn(Exchange) -> bool {
    |x: Exchange| x.marks(mark, scope)
}

/// How many exchanges of `trace` count as `mark` on the interfaces in `scope`.
pub open spec fn count(trace: Seq<Exchange>, mark: Mark, scope: Option<u8>) -> nat {
    trace.filter(marked(mark, scope)).len()
}

/// Whether the actions of `trace` come in the order of a session's life, none twice.
pub open spec fn in_order(trace: Seq<Exchange>) -> bool {
    forall|i: int, j: int|
        0 <= i < j < trace.len() ==> (#[trigger] trace[i]).action.order() < (
        #[trigger] trace[j]).action.order()
}

/// Whether `trace` never goes back a stage: what leads up to `Ready` comes
/// before the caller's transfers, and these before any teardown.
pub open spec fn in_stages(trace: Seq<Exchange>) -> bool {
    forall|i: int, j: int|
        0 <= i <= j < trace.len() ==> (#[trigger] trace[i]).action.stage() <= (
        #[trigger] trace[j]).action.stage()
}

/// A count says whether there is such an exchange: it is zero exactly if no
/// exchange of the trace counts, and it never exceeds the length of the trace.
pub proof fn lemma_count_positions(trace: Seq<Exchange>, mark: Mark, scope: Option<u8>)
    ensures
        count(trace, mark, scope) <= trace.len(),
        count(trace, mark, scope) == 0 <==> forall|i: int|
            0 <= i < trace.len() ==> !(#[trigger] trace[i]).marks(mark, scope),
    decreases trace.len(),
{
    reveal(Seq::filter);
    if trace.len() > 0 {
        let front = trace.drop_last();
        lemma_count_positions(front, mark, scope);
        assert(trace =~= front.push(trace.last()));
        front.lemma_filter_push(trace.last(), marked(mark, scope));
        if count(trace, mark, scope) == 0 {
            assert forall|i: int| 0 <= i < trace.len() implies !(#[trigger] trace[i]).marks(
                mark,
                scope,
            ) by {
                if i < trace.len() - 1 {
                    assert(front[i] == trace[i]);
                }
            }
        }
        if forall|i: int| 0 <= i < trace.len() ==> !(#[trigger] trace[i]).marks(mark, scope) {
            assert forall|i: int| 0 <= i < front.len() implies !(#[trigger] front[i]).marks(
                mark,
                scope,
            ) by {
                assert(front[i] == trace[i]);
            }
            assert(!trace[trace.len() - 1].marks(mark, scope));
        }
    }
}

/// The replies of a trace, in order.
pub open spec fn replies_of(trace: Seq<Exchange>) -> Seq<Reply> {
    Seq::new(trace.len(), |i: int| trace[i].reply)
}

/// Whether each exchange of `trace` is what `perform` did: it was called with
/// the action and returned the reply. (The caller's transfers are not the
/// transport's doing: their entry says how they went.)
pub open spec fn performed<F: Fn(Action) -> Reply>(perform: F, trace: Seq<Exchange>) -> bool {
    forall|i: int|
        0 <= i < trace.len() && !((#[trigger] trace[i]).action is Transfer) ==> call_ensures(
            perform,
            (trace[i].action,),
            trace[i].reply,
        )
}

/// Whether the log `after` is the log `before` with more at its end.
pub open spec fn extends<A>(before: Seq<A>, after: Seq<A>) -> bool {
    before.len() <= after.len() && after.take(before.len() as int) == before
}

/// What the log `after` has more than the log `before`.
pub open spec fn added<A>(before: Seq<A>, after: Seq<A>) -> Seq<A> {
    after.skip(before.len() as int)
}

/// One more entry adds one entry.
pub proof fn lemma_added_push<A>(before: Seq<A>, after: Seq<A>, entry: A)
    requires
        extends(before, after),
    ensures
        extends(before, after.push(entry)),
        added(before, after.push(entry)) == added(before, after).push(entry),
        after == before + added(before, after),
{
    assert(after.push(entry).take(before.len() as int) =~= after.take(before.len() as int));
    assert(added(before, after.push(entry)) =~= added(before, after).push(entry));
    assert(after =~= before + added(before, after));
}

/// A log has nothing more than itself.
pub proof fn lemma_added_nothing<A>(before: Seq<A>)
    ensures
        extends(before, before),
        added(before, before) == Seq::<A>::empty(),
{
    assert(before.take(before.len() as int) =~= before);
    assert(added(before, before) =~= Seq::<A>::empty());
}

/// Counts the exchanges of `trace` that count as `mark` on the interfaces in `scope`.
pub fn tally(trace: &Vec<Exchange>, mark: Mark, scope: Option<u8>) -> (r: usize)
    ensures
        r == count(trace@, mark, scope),
{
    let mut total: usize = 0;
    let mut i: usize = 0;
    while i < trace.len()
        invariant
            i <= trace.len(),
            total <= i,
            total == count(trace@.take(i as int), mark, scope),
        decreases trace.len() - i,
    {
        proof {
            trace@.take(i as int).lemma_filter_push(trace@[i as int], marked(mark, scope));
            assert(trace@.take(i as int + 1) =~= trace@.take(i as int).push(trace@[i as int]));
        }
        if trace[i].has_mark(mark, scope) {
            total = total + 1;
        }
        i = i + 1;
    }
    proof {
        assert(trace@.take(trace.len() as int) =~= trace@);
    }
    total
}

} // verus!
