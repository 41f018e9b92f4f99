//! Arbitration with the kernel's driver for one interface.
//!
//! Before an interface is claimed the kernel's driver is detached if it is
//! bound. What happened is kept in a `DriverState`, which later decides
//! whether the driver is given the interface back: `detach_if_active` makes
//! it, a session opened with `Session::with_driver` or `configure_endpoint`
//! carries it from the claim to the release, and the teardown reattaches the
//! driver exactly if it says `Detached`.

use vstd::prelude::*;
use crate::error::TransportError;
use crate::protocol::{
    added, count, extends, lemma_added_nothing, lemma_added_push, performed, Action, Exchange, Mark, Reply,
};
use crate::transport::Transport;

verus! {

/// What this session knows about the kernel's driver on one interface.
#[derive(Debug, Clone, Copy, PartialEq, Eq, Structural)]
pub enum DriverState {
    /// The driver was not asked about yet.
    Unqueried,
    /// No driver was bound: nothing to detach, nothing to give back.
    NotActive,
    /// The query itself failed; the driver is left alone.
    QueryFailed(TransportError),
    /// The driver was bound and this session detached it.
    Detached,
    /// The driver was bound and could not be detached.
    DetachFailed(TransportError),
}

impl DriverState {
    /// The state that a query's reply settles, or `None` where the reply says
    /// that the driver is bound, so that a detach has to follow. Only the
    /// answer "bound" leads to a detach: a failed query leaves the driver
    /// alone, and so does any other reply.
    pub open spec fn of_query(reply: Reply) -> Option<DriverState> {
        match reply {
            Reply::DriverActive(true) => None,
            Reply::Failed(error) => Some(DriverState::QueryFailed(error)),
            _ => Some(DriverState::NotActive),
        }
    }

    /// The state after a detach was tried.
    pub open spec fn of_detach(reply: Reply) -> DriverState {
        match reply {
            Reply::Failed(error) => DriverState::DetachFailed(error),
            _ => DriverState::Detached,
        }
    }

    /// Whether this session took the interface away from the driver.
    pub open spec fn detached_here(self) -> bool {
        self is Detached
    }

    /// Reads the reply to a query.
    pub fn after_query(reply: Reply) -> (r: Option<DriverState>)
        ensures
            r == DriverState::of_query(reply),
            r is None <==> reply == Reply::DriverActive(true),
    {
        match reply {
            Reply::DriverActive(true) => None,
            Reply::Failed(error) => Some(DriverState::QueryFailed(error)),
            _ => Some(DriverState::NotActive),
        }
    }

    /// Reads the reply to a detach.
    pub fn after_detach(reply: Reply) -> (r: DriverState)
        ensures
            r == DriverState::of_detach(reply),
            r.detached_here() <==> reply.succeeded(),
    {
        match reply {
            Reply::Failed(error) => DriverState::DetachFailed(error),
            _ => DriverState::Detached,
        }
    }

    /// Tests whether the driver has to be given the interface back.
    pub fn needs_reattach(&self) -> (r: bool)
        ensures
            r == self.detached_here(),
    {
        match self {
            DriverState::Detached => true,
            _ => false,
        }
    }
}

/// Whether `trace` is an arbitration on interface `iface` that ends with
/// `state`: the query, and, where its reply says that the driver is bound, the
/// detach, and nothing else; `state` records what the replies say.
pub open spec fn arbitration(iface: u8, trace: Seq<Exchange>, state: DriverState) -> bool {
    &&& trace.len() >= 1
    &&& trace[0].action == (Action::QueryKernelDriver { iface })
    &&& match DriverState::of_query(trace[0].reply) {
        Some(settled) => trace.len() == 1 && state == settled,
        None => trace.len() == 2 && trace[1].action == (Action::DetachKernelDriver { iface })
            && state == DriverState::of_detach(trace[1].reply),
    }
}

/// Asks whether the kernel's driver is bound to interface `iface` and detaches
/// it if so.
///
/// Neither a failed query nor a failed detach is an error here: the state
/// records it, and the claim that follows will fail if the driver still holds
/// the interface. The transport is asked the query, once, and the detach,
/// once, exactly where the query said "bound"; nothing else.
pub fn detach_if_active<F: Fn(Action) -> Reply>(iface: u8, transport: &mut Transport<F>) -> (r:
    DriverState)
    requires
        call_requires(old(transport).function(), (Action::QueryKernelDriver { iface },)),
        call_requires(old(transport).function(), (Action::DetachKernelDriver { iface },)),
    ensures
        final(transport).function() == old(transport).function(),
        extends(old(transport).asked(), final(transport).asked()),
        arbitration(iface, added(old(transport).asked(), final(transport).asked()), r),
        performed(
            old(transport).function(),
            added(old(transport).asked(), final(transport).asked()),
        ),
        !(r is Unqueried),
        r.detached_here() <==> count(
            added(old(transport).asked(), final(transport).asked()),
            Mark::Detached,
            None,
        ) == 1,
{
    let ghost before = transport.asked();
    let query = transport.perform(Action::QueryKernelDriver { iface });
    proof {
        lemma_added_nothing(before);
        lemma_added_push(
            before,
            before,
            Exchange { action: Action::QueryKernelDriver { iface }, reply: query },
        );
    }
    let r = match DriverState::after_query(query) {
        Some(settled) => settled,
        None => {
            let ghost asked = transport.asked();
            let detach = transport.perform(Action::DetachKernelDriver { iface });
            proof {
                lemma_added_push(
                    before,
                    asked,
                    Exchange { action: Action::DetachKernelDriver { iface }, reply: detach },
                );
            }
            DriverState::after_detach(detach)
        },
    };
    proof {
        let trace = added(before, transport.asked());
        reveal_with_fuel(Seq::filter, 3);
        assert(trace.len() <= 2);
        if trace.len() == 1 {
            assert(trace.drop_last() =~= Seq::<Exchange>::empty());
        } else {
            assert(trace.drop_last().drop_last() =~= Seq::<Exchange>::empty());
        }
    }
    r
}

/// Gives interface `iface` back to the kernel's driver if `state` says that
/// this session detached it; does nothing else.
///
/// Returns what the reattach reported, for the log: a failure here is no
/// reason to stop a teardown. `None` means that no reattach was due; then
/// nothing was asked of the transport.
pub fn reattach_if_needed<F: Fn(Action) -> Reply>(
    iface: u8,
    state: DriverState,
    transport: &mut Transport<F>,
) -> (r: Option<Reply>)
    requires
        state.detached_here() ==> call_requires(
            old(transport).function(),
            (Action::AttachKernelDriver { iface },),
        ),
    ensures
        final(transport).function() == old(transport).function(),
        r is Some <==> state.detached_here(),
        match r {
            Some(reply) => final(transport).asked() == old(transport).asked().push(
                Exchange { action: Action::AttachKernelDriver { iface }, reply },
            ) && call_ensures(
                old(transport).function(),
                (Action::AttachKernelDriver { iface },),
                reply,
            ),
            None => final(transport).asked() == old(transport).asked(),
        },
{
    if state.needs_reattach() {
        Some(transport.perform(Action::AttachKernelDriver { iface }))
    } else {
        None
    }
}

} // verus!
