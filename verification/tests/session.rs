use std::cell::RefCell;

use qck_usb::{
    Once,
    configure_endpoint, detach_if_active, finish_session, tally, with_interface_session, Action,
    Transport,
    Direction, DriverState, Endpoint, Exchange, Mark, Notice, Phase, Reply, Session, SessionError,
    Step, TransferError, TransferType, TransportError,
};

fn session_endpoint() -> Endpoint {
    Endpoint {
        config: 1,
        iface: 0,
        setting: 0,
        address: 0x81,
        direction: Direction::In,
        transfer_type: TransferType::Interrupt,
    }
}

/// Drives a session as a caller would, answering each action from `answer`.
fn drive_session(endpoint: Endpoint, answer: &dyn Fn(&Action) -> Reply) -> (Session, Vec<Action>) {
    let mut session = Session::new(endpoint);
    let mut actions = Vec::new();
    while let Some(action) = session.pending() {
        let reply = answer(&action);
        actions.push(action);
        session.advance(reply);
        assert!(actions.len() <= 8);
    }
    (session, actions)
}

fn count_releases(actions: &[Action]) -> usize {
    actions.iter().filter(|a| matches!(a, Action::ReleaseInterface { .. })).count()
}

fn count_attaches(actions: &[Action]) -> usize {
    actions.iter().filter(|a| matches!(a, Action::AttachKernelDriver { .. })).count()
}

#[test]
fn a_new_session_is_unclaimed_and_asks_about_the_driver() {
    let session = Session::new(session_endpoint());
    assert_eq!(session.phase(), Phase::Unclaimed);
    assert_eq!(session.step, Step::QueryingDriver);
    assert_eq!(session.driver, DriverState::Unqueried);
    assert_eq!(session.pending(), Some(Action::QueryKernelDriver { iface: 0 }));
    assert_eq!(session.outcome(), None);
    assert!(!session.is_closed());
    assert!(!session.is_degraded());
}

#[test]
fn claim_configure_release_cycle_leaves_nothing_claimed() {
    let (session, actions) = drive_session(session_endpoint(), &|action| match action {
        Action::QueryKernelDriver { .. } => Reply::DriverActive(false),
        _ => Reply::Done,
    });
    assert_eq!(
        actions,
        vec![
            Action::QueryKernelDriver { iface: 0 },
            Action::ClaimInterface { iface: 0 },
            Action::SetActiveConfiguration { config: 1 },
            Action::SetAlternateSetting { iface: 0, setting: 0 },
            Action::Transfer,
            Action::ReleaseInterface { iface: 0 },
        ]
    );
    assert_eq!(session.phase(), Phase::Closed);
    assert_eq!(session.outcome(), Some(Ok(())));
    assert_eq!(session.driver, DriverState::NotActive);
    assert!(!session.is_degraded());
    assert_eq!(count_releases(&actions), 1);
    assert_eq!(count_attaches(&actions), 0);
}

#[test]
fn phases_follow_the_state_machine() {
    let mut session = Session::new(session_endpoint());
    let mut phases = vec![session.phase()];
    let replies = [
        Reply::DriverActive(true),
        Reply::Done,
        Reply::Done,
        Reply::Done,
        Reply::Done,
        Reply::Done,
        Reply::Done,
        Reply::Done,
    ];
    for reply in replies {
        session.advance(reply);
        phases.push(session.phase());
    }
    assert_eq!(
        phases,
        vec![
            Phase::Unclaimed,
            Phase::Unclaimed,
            Phase::Unclaimed,
            Phase::Configuring,
            Phase::Configuring,
            Phase::Ready,
            Phase::Releasing,
            Phase::Releasing,
            Phase::Closed,
        ]
    );
}

#[test]
fn driver_detached_by_the_session_is_reattached_after_release() {
    let (session, actions) = drive_session(session_endpoint(), &|action| match action {
        Action::QueryKernelDriver { .. } => Reply::DriverActive(true),
        _ => Reply::Done,
    });
    assert_eq!(
        actions,
        vec![
            Action::QueryKernelDriver { iface: 0 },
            Action::DetachKernelDriver { iface: 0 },
            Action::ClaimInterface { iface: 0 },
            Action::SetActiveConfiguration { config: 1 },
            Action::SetAlternateSetting { iface: 0, setting: 0 },
            Action::Transfer,
            Action::ReleaseInterface { iface: 0 },
            Action::AttachKernelDriver { iface: 0 },
        ]
    );
    assert_eq!(session.driver, DriverState::Detached);
    assert_eq!(session.outcome(), Some(Ok(())));
}

#[test]
fn driver_detached_by_someone_else_is_not_reattached() {
    let (session, actions) = drive_session(session_endpoint(), &|action| match action {
        Action::QueryKernelDriver { .. } => Reply::DriverActive(false),
        _ => Reply::Done,
    });
    assert_eq!(count_attaches(&actions), 0);
    assert!(!actions.contains(&Action::DetachKernelDriver { iface: 0 }));
    assert_eq!(count_releases(&actions), 1);
    assert_eq!(session.driver, DriverState::NotActive);
}

#[test]
fn failed_driver_query_is_absorbed() {
    let mut session = Session::new(session_endpoint());
    let notice = session.advance(Reply::Failed(TransportError::NotSupported));
    assert_eq!(notice, Some(Notice::DriverQueryFailed(TransportError::NotSupported)));
    assert_eq!(session.driver, DriverState::QueryFailed(TransportError::NotSupported));
    assert_eq!(session.pending(), Some(Action::ClaimInterface { iface: 0 }));
    for _ in 0..5 {
        session.advance(Reply::Done);
    }
    assert!(session.is_closed());
    assert_eq!(session.outcome(), Some(Ok(())));
}

#[test]
fn failed_detach_still_tries_the_claim_and_never_reattaches() {
    let (session, actions) = drive_session(session_endpoint(), &|action| match action {
        Action::QueryKernelDriver { .. } => Reply::DriverActive(true),
        Action::DetachKernelDriver { .. } => Reply::Failed(TransportError::NotSupported),
        _ => Reply::Done,
    });
    assert_eq!(session.driver, DriverState::DetachFailed(TransportError::NotSupported));
    assert!(actions.contains(&Action::ClaimInterface { iface: 0 }));
    assert_eq!(count_releases(&actions), 1);
    assert_eq!(count_attaches(&actions), 0);
    assert_eq!(session.outcome(), Some(Ok(())));
}

#[test]
fn failed_detach_then_failed_claim_is_interface_unavailable() {
    let (session, actions) = drive_session(session_endpoint(), &|action| match action {
        Action::QueryKernelDriver { .. } => Reply::DriverActive(true),
        Action::DetachKernelDriver { .. } => Reply::Failed(TransportError::Access),
        Action::ClaimInterface { .. } => Reply::Failed(TransportError::Busy),
        _ => Reply::Done,
    });
    assert_eq!(
        actions,
        vec![
            Action::QueryKernelDriver { iface: 0 },
            Action::DetachKernelDriver { iface: 0 },
            Action::ClaimInterface { iface: 0 },
        ]
    );
    assert_eq!(
        session.outcome(),
        Some(Err(SessionError::InterfaceUnavailable(TransportError::Busy)))
    );
    assert_eq!(session.claim_error, Some(TransportError::Busy));
    assert_eq!(count_releases(&actions), 0);
    assert_eq!(count_attaches(&actions), 0);
    assert_eq!(session.phase(), Phase::Closed);
}

#[test]
fn failed_claim_after_a_successful_detach_asks_for_nothing_more() {
    let (session, actions) = drive_session(session_endpoint(), &|action| match action {
        Action::QueryKernelDriver { .. } => Reply::DriverActive(true),
        Action::ClaimInterface { .. } => Reply::Failed(TransportError::Busy),
        _ => Reply::Done,
    });
    assert_eq!(actions.last(), Some(&Action::ClaimInterface { iface: 0 }));
    assert_eq!(count_releases(&actions), 0);
    assert_eq!(count_attaches(&actions), 0);
    assert_eq!(
        session.outcome(),
        Some(Err(SessionError::InterfaceUnavailable(TransportError::Busy)))
    );
}

#[test]
fn failing_transfer_does_not_prevent_teardown() {
    let (session, actions) = drive_session(session_endpoint(), &|action| match action {
        Action::QueryKernelDriver { .. } => Reply::DriverActive(true),
        Action::Transfer => Reply::Failed(TransportError::Pipe),
        _ => Reply::Done,
    });
    assert_eq!(count_releases(&actions), 1);
    assert_eq!(count_attaches(&actions), 1);
    let release = actions.iter().position(|a| *a == Action::ReleaseInterface { iface: 0 });
    let transfer = actions.iter().position(|a| *a == Action::Transfer);
    let attach = actions.iter().position(|a| *a == Action::AttachKernelDriver { iface: 0 });
    assert!(transfer < release);
    assert!(release < attach);
    assert!(session.is_closed());
    assert_eq!(session.transfer_error, Some(TransportError::Pipe));
    assert_eq!(
        session.outcome(),
        Some(Err(SessionError::TransferFailed(TransferError::Stall)))
    );
}

#[test]
fn configuration_failures_degrade_but_do_not_stop_the_session() {
    let mut session = Session::new(session_endpoint());
    session.advance(Reply::DriverActive(false));
    session.advance(Reply::Done);
    let first = session.advance(Reply::Failed(TransportError::Busy));
    assert_eq!(first, Some(Notice::ConfigurationDegraded(TransportError::Busy)));
    assert_eq!(session.pending(), Some(Action::SetAlternateSetting { iface: 0, setting: 0 }));
    let second = session.advance(Reply::Failed(TransportError::NotFound));
    assert_eq!(second, Some(Notice::ConfigurationDegraded(TransportError::NotFound)));
    assert_eq!(session.phase(), Phase::Ready);
    assert!(session.is_degraded());
    assert_eq!(session.configuration_error, Some(TransportError::Busy));
    assert_eq!(session.alternate_error, Some(TransportError::NotFound));
    assert_eq!(session.pending(), Some(Action::Transfer));
}

#[test]
fn teardown_failures_are_warnings() {
    let mut session = Session::new(session_endpoint());
    for reply in [Reply::DriverActive(true), Reply::Done, Reply::Done, Reply::Done, Reply::Done] {
        assert_eq!(session.advance(reply), None);
    }
    assert_eq!(session.phase(), Phase::Ready);
    assert_eq!(session.advance(Reply::Done), None);
    let released = session.advance(Reply::Failed(TransportError::NoDevice));
    assert_eq!(released, Some(Notice::TeardownWarning(TransportError::NoDevice)));
    assert_eq!(session.pending(), Some(Action::AttachKernelDriver { iface: 0 }));
    let reattached = session.advance(Reply::Failed(TransportError::NotFound));
    assert_eq!(reattached, Some(Notice::TeardownWarning(TransportError::NotFound)));
    assert!(session.is_closed());
    assert_eq!(session.release_error, Some(TransportError::NoDevice));
    assert_eq!(session.reattach_error, Some(TransportError::NotFound));
    assert_eq!(session.outcome(), Some(Ok(())));
}

#[test]
fn a_closed_session_ignores_further_replies() {
    let mut session = Session::new(session_endpoint());
    session.advance(Reply::DriverActive(false));
    session.advance(Reply::Failed(TransportError::Busy));
    assert!(session.is_closed());
    let closed = session;
    assert_eq!(session.advance(Reply::Done), None);
    assert_eq!(session.advance(Reply::Failed(TransportError::Io)), None);
    assert_eq!(session, closed);
    assert_eq!(session.pending(), None);
}

#[test]
fn actions_name_the_endpoint_they_are_for() {
    let endpoint = Endpoint {
        config: 2,
        iface: 3,
        setting: 4,
        address: 0x85,
        direction: Direction::In,
        transfer_type: TransferType::Interrupt,
    };
    let (_, actions) = drive_session(endpoint, &|action| match action {
        Action::QueryKernelDriver { .. } => Reply::DriverActive(true),
        _ => Reply::Done,
    });
    assert_eq!(
        actions,
        vec![
            Action::QueryKernelDriver { iface: 3 },
            Action::DetachKernelDriver { iface: 3 },
            Action::ClaimInterface { iface: 3 },
            Action::SetActiveConfiguration { config: 2 },
            Action::SetAlternateSetting { iface: 3, setting: 4 },
            Action::Transfer,
            Action::ReleaseInterface { iface: 3 },
            Action::AttachKernelDriver { iface: 3 },
        ]
    );
}

#[test]
fn releases_equal_claims_for_every_script_of_replies() {
    // Every reply is one of three; every script of eight replies is tried.
    let choices = [Reply::Done, Reply::DriverActive(true), Reply::Failed(TransportError::Io)];
    let mut script = [0usize; 8];
    let mut runs = 0;
    loop {
        let replies: Vec<Reply> = script.iter().map(|c| choices[*c]).collect();
        let mut session = Session::new(session_endpoint());
        let trace = session.replay(&replies);
        assert!(session.is_closed());
        let claims = tally(&trace, Mark::Claimed, None);
        let releases = tally(&trace, Mark::Released, None);
        let detaches = tally(&trace, Mark::Detached, None);
        let reattaches = tally(&trace, Mark::Reattached, None);
        let transfers = tally(&trace, Mark::Transferred, None);
        let failed_transfers = tally(&trace, Mark::TransferFailed, None);
        assert_eq!(releases, claims);
        assert_eq!(transfers, claims);
        assert!(claims <= 1);
        assert_eq!(reattaches == 1, detaches == 1 && releases == 1);
        assert!(failed_transfers <= transfers);
        assert_eq!(session.outcome() == Some(Ok(())), claims == 1 && failed_transfers == 0);
        assert_eq!(
            matches!(session.outcome(), Some(Err(SessionError::TransferFailed(_)))),
            failed_transfers == 1
        );
        assert_eq!(
            matches!(session.outcome(), Some(Err(SessionError::InterfaceUnavailable(_)))),
            claims == 0
        );
        runs += 1;
        let mut k = 0;
        while k < 8 && script[k] == 2 {
            script[k] = 0;
            k += 1;
        }
        if k == 8 {
            break;
        }
        script[k] += 1;
    }
    assert_eq!(runs, 6561);
}

#[test]
fn replay_returns_each_action_with_its_reply() {
    let mut session = Session::new(session_endpoint());
    let trace = session.replay(&vec![
        Reply::DriverActive(true),
        Reply::Failed(TransportError::Access),
        Reply::Done,
    ]);
    assert_eq!(
        trace,
        vec![
            Exchange {
                action: Action::QueryKernelDriver { iface: 0 },
                reply: Reply::DriverActive(true)
            },
            Exchange {
                action: Action::DetachKernelDriver { iface: 0 },
                reply: Reply::Failed(TransportError::Access)
            },
            Exchange { action: Action::ClaimInterface { iface: 0 }, reply: Reply::Done },
        ]
    );
    assert_eq!(session.step, Step::SettingConfiguration);
    assert_eq!(tally(&trace, Mark::Claimed, Some(0)), 1);
    assert_eq!(tally(&trace, Mark::Claimed, Some(1)), 0);
    assert_eq!(tally(&trace, Mark::Detached, None), 0);
}

#[test]
fn replay_stops_recording_once_the_session_is_closed() {
    let mut session = Session::new(session_endpoint());
    let replies = vec![Reply::Done; 12];
    let trace = session.replay(&replies);
    assert_eq!(trace.len(), 6);
    assert!(session.is_closed());
}

#[test]
fn replies_other_than_failed_count_as_success() {
    assert!(Reply::Done.is_success());
    assert!(Reply::DriverActive(false).is_success());
    assert!(!Reply::Failed(TransportError::Other).is_success());
    assert_eq!(Reply::Failed(TransportError::Other).error(), Some(TransportError::Other));
    assert_eq!(Reply::Done.error(), None);
}

#[test]
fn sessions_from_the_library_are_well_formed() {
    let mut session = Session::new(session_endpoint());
    assert!(session.is_well_formed());
    for reply in [
        Reply::DriverActive(true),
        Reply::Done,
        Reply::Done,
        Reply::Failed(TransportError::Io),
        Reply::Done,
        Reply::Done,
        Reply::Done,
        Reply::Done,
        Reply::Done,
    ] {
        session.advance(reply);
        assert!(session.is_well_formed());
    }
    let mut broken = Session::new(session_endpoint());
    broken.claim_error = Some(TransportError::Busy);
    assert!(!broken.is_well_formed());
    let mut odd = Session::new(session_endpoint());
    odd.step = Step::Reattaching;
    assert!(!odd.is_well_formed());
    let mut early = Session::new(session_endpoint());
    early.transfer_error = Some(TransportError::Io);
    assert!(!early.is_well_formed());
}

fn logged_actions(log: &[Exchange]) -> Vec<Action> {
    log.iter().map(|x| x.action).collect()
}

#[test]
fn with_interface_session_runs_to_the_end() {
    let seen = RefCell::new(Vec::new());
    let mut bus = Transport::new(|action| {
        seen.borrow_mut().push(action);
        match action {
            Action::QueryKernelDriver { .. } => Reply::DriverActive(true),
            _ => Reply::Done,
        }
    });
    let r = with_interface_session(session_endpoint(), &mut bus, &mut Once::new(|ready: Session| {
        assert_eq!(ready.phase(), Phase::Ready);
        Ok(ready.endpoint.address)
    }));
    assert_eq!(r, Ok(0x81));
    assert_eq!(
        logged_actions(bus.log()),
        vec![
            Action::QueryKernelDriver { iface: 0 },
            Action::DetachKernelDriver { iface: 0 },
            Action::ClaimInterface { iface: 0 },
            Action::SetActiveConfiguration { config: 1 },
            Action::SetAlternateSetting { iface: 0, setting: 0 },
            Action::Transfer,
            Action::ReleaseInterface { iface: 0 },
            Action::AttachKernelDriver { iface: 0 },
        ]
    );
    // The transport was asked for everything in the log but the transfers.
    let asked: Vec<Action> =
        logged_actions(bus.log()).into_iter().filter(|a| *a != Action::Transfer).collect();
    assert_eq!(*seen.borrow(), asked);
    assert_eq!(tally(bus.log(), Mark::Released, None), 1);
    assert_eq!(tally(bus.log(), Mark::Reattached, None), 1);
    assert_eq!(tally(bus.log(), Mark::Queried, None), 1);
    assert_eq!(tally(bus.log(), Mark::ClaimAsked, None), 1);
    assert_eq!(tally(bus.log(), Mark::FoundBound, None), 1);
    assert_eq!(tally(bus.log(), Mark::DetachAsked, None), 1);
}

#[test]
fn with_interface_session_tears_down_after_a_failed_transfer() {
    let mut bus = Transport::new(|action| match action {
        Action::QueryKernelDriver { .. } => Reply::DriverActive(true),
        _ => Reply::Done,
    });
    let r: Result<(), SessionError> =
        with_interface_session(session_endpoint(), &mut bus, &mut Once::new(|_| Err(TransferError::Timeout)));
    assert_eq!(r, Err(SessionError::TransferFailed(TransferError::Timeout)));
    let log = bus.log();
    assert_eq!(tally(log, Mark::Claimed, None), 1);
    assert_eq!(tally(log, Mark::Released, None), 1);
    assert_eq!(tally(log, Mark::Reattached, None), 1);
    assert_eq!(tally(log, Mark::TransferFailed, None), 1);
    assert_eq!(log[log.len() - 3].action, Action::Transfer);
    assert_eq!(log[log.len() - 3].reply, Reply::Failed(TransportError::Timeout));
    assert_eq!(log[log.len() - 2].action, Action::ReleaseInterface { iface: 0 });
    assert_eq!(log[log.len() - 1].action, Action::AttachKernelDriver { iface: 0 });
}

#[test]
fn with_interface_session_reports_an_unavailable_interface() {
    let mut bus = Transport::new(|action| match action {
        Action::QueryKernelDriver { .. } => Reply::DriverActive(true),
        Action::DetachKernelDriver { .. } => Reply::Failed(TransportError::Access),
        Action::ClaimInterface { .. } => Reply::Failed(TransportError::Busy),
        _ => Reply::Done,
    });
    let ran = RefCell::new(false);
    let r = with_interface_session(session_endpoint(), &mut bus, &mut Once::new(|_| {
        *ran.borrow_mut() = true;
        Ok(())
    }));
    assert_eq!(r, Err(SessionError::InterfaceUnavailable(TransportError::Busy)));
    assert!(!*ran.borrow());
    assert_eq!(bus.log().len(), 3);
    assert_eq!(tally(bus.log(), Mark::Released, None), 0);
    assert_eq!(tally(bus.log(), Mark::Reattached, None), 0);
    assert_eq!(tally(bus.log(), Mark::Transferred, None), 0);
}

#[test]
fn with_interface_session_survives_a_transport_that_fails_everything() {
    let mut bus = Transport::new(|_| Reply::Failed(TransportError::NoDevice));
    let r = with_interface_session(session_endpoint(), &mut bus, &mut Once::new(|_| Ok(1)));
    assert_eq!(r, Err(SessionError::InterfaceUnavailable(TransportError::NoDevice)));
    assert_eq!(bus.log().len(), 2);
}

#[test]
fn with_interface_session_hands_back_what_the_operation_returned() {
    let mut bus = Transport::new(|_| Reply::Done);
    let r = with_interface_session(session_endpoint(), &mut bus, &mut Once::new(|ready: Session| {
        Ok(format!("read from {:#x}", ready.endpoint.address))
    }));
    assert_eq!(r, Ok("read from 0x81".to_string()));
    let stalled: Result<u8, SessionError> =
        with_interface_session(session_endpoint(), &mut bus, &mut Once::new(|_| Err(TransferError::Stall)));
    assert_eq!(stalled, Err(SessionError::TransferFailed(TransferError::Stall)));
    let gone: Result<u8, SessionError> = with_interface_session(session_endpoint(), &mut bus, &mut Once::new(|_| {
        Err(TransferError::Transport(TransportError::NoDevice))
    }));
    assert_eq!(
        gone,
        Err(SessionError::TransferFailed(TransferError::Transport(TransportError::NoDevice)))
    );
    assert_eq!(tally(bus.log(), Mark::Claimed, None), 3);
    assert_eq!(tally(bus.log(), Mark::Released, None), 3);
}

#[test]
fn configure_endpoint_makes_exactly_the_three_calls() {
    let endpoint = Endpoint {
        config: 1,
        iface: 2,
        setting: 3,
        address: 0x81,
        direction: Direction::In,
        transfer_type: TransferType::Interrupt,
    };
    let asked = RefCell::new(Vec::new());
    let mut bus = Transport::new(|action| {
        asked.borrow_mut().push(action);
        Reply::Done
    });
    let session = configure_endpoint(endpoint, DriverState::NotActive, &mut bus);
    let expected = vec![
        Action::ClaimInterface { iface: 2 },
        Action::SetActiveConfiguration { config: 1 },
        Action::SetAlternateSetting { iface: 2, setting: 3 },
    ];
    assert_eq!(*asked.borrow(), expected);
    assert_eq!(logged_actions(bus.log()), expected);
    assert_eq!(session.phase(), Phase::Ready);
    assert_eq!(session.driver, DriverState::NotActive);
    assert!(!session.is_degraded());
}

#[test]
fn configure_endpoint_stops_at_ready() {
    let mut bus = Transport::new(|action| match action {
        Action::SetActiveConfiguration { .. } => Reply::Failed(TransportError::Busy),
        _ => Reply::Done,
    });
    let session = configure_endpoint(session_endpoint(), DriverState::Detached, &mut bus);
    assert_eq!(session.phase(), Phase::Ready);
    assert!(session.is_degraded());
    assert_eq!(session.driver, DriverState::Detached);
    assert_eq!(session.pending(), Some(Action::Transfer));
    assert_eq!(bus.log().len(), 3);
    assert_eq!(tally(bus.log(), Mark::Claimed, None), 1);
    assert_eq!(tally(bus.log(), Mark::Released, None), 0);
    assert_eq!(tally(bus.log(), Mark::Transferred, None), 0);
}

#[test]
fn configure_endpoint_reports_a_failed_claim() {
    let asked = RefCell::new(Vec::new());
    let mut bus = Transport::new(|action| {
        asked.borrow_mut().push(action);
        match action {
            Action::ClaimInterface { .. } => Reply::Failed(TransportError::Access),
            _ => Reply::Done,
        }
    });
    let session = configure_endpoint(session_endpoint(), DriverState::NotActive, &mut bus);
    assert!(session.is_closed());
    assert_eq!(
        session.outcome(),
        Some(Err(SessionError::InterfaceUnavailable(TransportError::Access)))
    );
    assert_eq!(bus.log().len(), 1);
    assert_eq!(*asked.borrow(), vec![Action::ClaimInterface { iface: 0 }]);
}

#[test]
fn arbitrating_first_then_configuring_reattaches_what_was_detached() {
    let asked = RefCell::new(Vec::new());
    let mut bus = Transport::new(|action: Action| {
        asked.borrow_mut().push(action);
        match action {
            Action::QueryKernelDriver { .. } => Reply::DriverActive(true),
            _ => Reply::Done,
        }
    });
    let driver = detach_if_active(0, &mut bus);
    assert_eq!(driver, DriverState::Detached);
    let ready = configure_endpoint(session_endpoint(), driver, &mut bus);
    let closed = finish_session(ready, Reply::Done, &mut bus);
    assert_eq!(closed.outcome(), Some(Ok(())));
    assert_eq!(
        logged_actions(bus.log()),
        vec![
            Action::QueryKernelDriver { iface: 0 },
            Action::DetachKernelDriver { iface: 0 },
            Action::ClaimInterface { iface: 0 },
            Action::SetActiveConfiguration { config: 1 },
            Action::SetAlternateSetting { iface: 0, setting: 0 },
            Action::Transfer,
            Action::ReleaseInterface { iface: 0 },
            Action::AttachKernelDriver { iface: 0 },
        ]
    );
    assert_eq!(asked.borrow().len(), 7);
    let mut whole = Session::new(session_endpoint());
    whole.advance(Reply::DriverActive(true));
    whole.advance(Reply::Done);
    assert_eq!(whole, Session::with_driver(session_endpoint(), DriverState::Detached));
}

#[test]
fn a_session_opened_at_the_claim_keeps_the_arbiters_state() {
    let session =
        Session::with_driver(session_endpoint(), DriverState::DetachFailed(TransportError::Access));
    assert_eq!(session.step, Step::Claiming);
    assert_eq!(session.pending(), Some(Action::ClaimInterface { iface: 0 }));
    assert!(session.is_well_formed());
    let mut bus = Transport::new(|_| Reply::Done);
    let closed = finish_session(session, Reply::Done, &mut bus);
    assert_eq!(closed.driver, DriverState::DetachFailed(TransportError::Access));
    assert_eq!(tally(bus.log(), Mark::Reattached, None), 0);
    assert_eq!(tally(bus.log(), Mark::Released, None), 1);
}

#[test]
fn finish_session_tears_down_what_configure_endpoint_claimed() {
    let calls = RefCell::new(0);
    let mut bus = Transport::new(|_| {
        *calls.borrow_mut() += 1;
        Reply::Done
    });
    let ready = configure_endpoint(session_endpoint(), DriverState::Detached, &mut bus);
    assert_eq!(ready.phase(), Phase::Ready);
    assert!(ready.is_well_formed());
    let closed = finish_session(ready, Reply::Failed(TransportError::Timeout), &mut bus);
    assert!(closed.is_closed());
    assert_eq!(
        closed.outcome(),
        Some(Err(SessionError::TransferFailed(TransferError::Timeout)))
    );
    assert_eq!(
        logged_actions(&bus.log()[3..]),
        vec![
            Action::Transfer,
            Action::ReleaseInterface { iface: 0 },
            Action::AttachKernelDriver { iface: 0 },
        ]
    );
    assert_eq!(*calls.borrow(), 5);
    assert_eq!(tally(bus.log(), Mark::Claimed, None), 1);
    assert_eq!(tally(bus.log(), Mark::Released, None), 1);
}

#[test]
fn finish_session_does_nothing_to_a_closed_session() {
    let calls = RefCell::new(0);
    let mut bus = Transport::new(|action| {
        *calls.borrow_mut() += 1;
        match action {
            Action::ClaimInterface { .. } => Reply::Failed(TransportError::Busy),
            _ => Reply::Done,
        }
    });
    let failed = configure_endpoint(session_endpoint(), DriverState::NotActive, &mut bus);
    assert!(failed.is_closed());
    let closed = finish_session(failed, Reply::Done, &mut bus);
    assert_eq!(closed, failed);
    assert_eq!(bus.log().len(), 1);
    assert_eq!(*calls.borrow(), 1);
}

#[test]
fn the_operation_is_spent_exactly_if_the_claim_succeeded() {
    let mut bus = Transport::new(|action| match action {
        Action::ClaimInterface { .. } => Reply::Failed(TransportError::Busy),
        _ => Reply::Done,
    });
    let mut unused = Once::new(|_: Session| Ok(()));
    assert!(unused.is_unspent());
    let r = with_interface_session(session_endpoint(), &mut bus, &mut unused);
    assert_eq!(r, Err(SessionError::InterfaceUnavailable(TransportError::Busy)));
    assert!(unused.is_unspent());

    let mut free = Transport::new(|_| Reply::Done);
    let mut used = Once::new(|ready: Session| Ok(ready.endpoint.iface));
    assert_eq!(with_interface_session(session_endpoint(), &mut free, &mut used), Ok(0));
    assert!(!used.is_unspent());
}

#[test]
fn a_function_that_can_be_called_once_gives_what_it_returns() {
    let mut double = Once::new(|x: u32| x * 2);
    assert!(double.is_unspent());
    assert_eq!(double.call(21), 42);
    assert!(!double.is_unspent());
}
