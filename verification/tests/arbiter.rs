use std::cell::RefCell;

use qck_usb::{
    detach_if_active, reattach_if_needed, Action, DriverState, Exchange, Reply, Transport,
    TransportError,
};

#[test]
fn arbiter_detaches_an_active_driver() {
    let calls = RefCell::new(0);
    let mut bus = Transport::new(|action| {
        *calls.borrow_mut() += 1;
        match action {
            Action::QueryKernelDriver { .. } => Reply::DriverActive(true),
            _ => Reply::Done,
        }
    });
    let state = detach_if_active(2, &mut bus);
    assert_eq!(state, DriverState::Detached);
    assert_eq!(
        *bus.log(),
        vec![
            Exchange {
                action: Action::QueryKernelDriver { iface: 2 },
                reply: Reply::DriverActive(true)
            },
            Exchange { action: Action::DetachKernelDriver { iface: 2 }, reply: Reply::Done },
        ]
    );
    assert_eq!(*calls.borrow(), 2);
}

#[test]
fn arbiter_leaves_an_inactive_driver_alone() {
    let calls = RefCell::new(0);
    let mut bus = Transport::new(|_| {
        *calls.borrow_mut() += 1;
        Reply::DriverActive(false)
    });
    let state = detach_if_active(2, &mut bus);
    assert_eq!(state, DriverState::NotActive);
    assert_eq!(
        *bus.log(),
        vec![Exchange {
            action: Action::QueryKernelDriver { iface: 2 },
            reply: Reply::DriverActive(false)
        }]
    );
    assert_eq!(*calls.borrow(), 1);
}

#[test]
fn arbiter_records_a_failed_query_and_detaches_nothing() {
    let mut bus = Transport::new(|_| Reply::Failed(TransportError::NotSupported));
    let state = detach_if_active(7, &mut bus);
    assert_eq!(state, DriverState::QueryFailed(TransportError::NotSupported));
    assert_eq!(bus.log().len(), 1);
    assert_eq!(bus.log()[0].action, Action::QueryKernelDriver { iface: 7 });
}

#[test]
fn arbiter_records_a_failed_detach() {
    let mut bus = Transport::new(|action| match action {
        Action::QueryKernelDriver { .. } => Reply::DriverActive(true),
        _ => Reply::Failed(TransportError::Access),
    });
    let state = detach_if_active(0, &mut bus);
    assert_eq!(state, DriverState::DetachFailed(TransportError::Access));
    assert!(!state.needs_reattach());
    assert_eq!(bus.log().len(), 2);
}

#[test]
fn arbiter_records_what_the_replies_say() {
    assert_eq!(DriverState::after_query(Reply::DriverActive(true)), None);
    assert_eq!(DriverState::after_query(Reply::DriverActive(false)), Some(DriverState::NotActive));
    assert_eq!(DriverState::after_query(Reply::Done), Some(DriverState::NotActive));
    assert_eq!(
        DriverState::after_query(Reply::Failed(TransportError::Io)),
        Some(DriverState::QueryFailed(TransportError::Io))
    );
    assert_eq!(DriverState::after_detach(Reply::Done), DriverState::Detached);
    assert_eq!(
        DriverState::after_detach(Reply::Failed(TransportError::NotFound)),
        DriverState::DetachFailed(TransportError::NotFound)
    );
}

#[test]
fn arbiter_reattaches_what_it_detached() {
    let calls = RefCell::new(0);
    let mut bus = Transport::new(|_| {
        *calls.borrow_mut() += 1;
        Reply::Failed(TransportError::NotFound)
    });
    let r = reattach_if_needed(1, DriverState::Detached, &mut bus);
    assert_eq!(r, Some(Reply::Failed(TransportError::NotFound)));
    assert_eq!(
        *bus.log(),
        vec![Exchange {
            action: Action::AttachKernelDriver { iface: 1 },
            reply: Reply::Failed(TransportError::NotFound)
        }]
    );
    assert_eq!(*calls.borrow(), 1);
}

#[test]
fn arbiter_reattaches_nothing_else() {
    let states = [
        DriverState::Unqueried,
        DriverState::NotActive,
        DriverState::QueryFailed(TransportError::Io),
        DriverState::DetachFailed(TransportError::Io),
    ];
    for state in states {
        let calls = RefCell::new(0);
        let mut bus = Transport::new(|_| {
            *calls.borrow_mut() += 1;
            Reply::Done
        });
        let r = reattach_if_needed(1, state, &mut bus);
        assert_eq!(r, None);
        assert_eq!(*calls.borrow(), 0);
        assert!(bus.log().is_empty());
        assert!(!state.needs_reattach());
    }
    assert!(DriverState::Detached.needs_reattach());
}

#[test]
fn the_log_holds_what_the_transport_was_asked() {
    let seen = RefCell::new(Vec::new());
    let mut bus = Transport::new(|action| {
        seen.borrow_mut().push(action);
        Reply::Done
    });
    assert!(bus.log().is_empty());
    assert_eq!(bus.perform(Action::ClaimInterface { iface: 4 }), Reply::Done);
    bus.yielded(Reply::Failed(TransportError::Timeout));
    assert_eq!(bus.perform(Action::ReleaseInterface { iface: 4 }), Reply::Done);
    let logged: Vec<Action> = bus.log().iter().map(|x| x.action).collect();
    assert_eq!(
        logged,
        vec![
            Action::ClaimInterface { iface: 4 },
            Action::Transfer,
            Action::ReleaseInterface { iface: 4 },
        ]
    );
    assert_eq!(
        *seen.borrow(),
        vec![Action::ClaimInterface { iface: 4 }, Action::ReleaseInterface { iface: 4 }]
    );
    assert_eq!(bus.log()[1].reply, Reply::Failed(TransportError::Timeout));
}
