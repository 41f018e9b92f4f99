use qck_usb::protocol::covers;
use qck_usb::{
    Action, DeviceIdentity, Direction, Endpoint, EndpointInfo, Exchange, Lane, Mark, Notice, Reply,
    Selection, Session, TransferError, TransferType, TransportError,
};

fn plain_endpoint() -> Endpoint {
    Endpoint::new(
        1,
        2,
        3,
        &EndpointInfo {
            address: 0x84,
            direction: Direction::In,
            transfer_type: TransferType::Interrupt,
        },
    )
}

#[test]
fn endpoint_new_places_the_described_endpoint() {
    assert_eq!(
        plain_endpoint(),
        Endpoint {
            config: 1,
            iface: 2,
            setting: 3,
            address: 0x84,
            direction: Direction::In,
            transfer_type: TransferType::Interrupt,
        }
    );
}

#[test]
fn endpoint_kind_needs_direction_and_transfer_type() {
    let e = plain_endpoint();
    assert!(e.has_kind(Direction::In, TransferType::Interrupt));
    assert!(!e.has_kind(Direction::Out, TransferType::Interrupt));
    assert!(!e.has_kind(Direction::In, TransferType::Bulk));
    assert!(!e.has_kind(Direction::Out, TransferType::Control));
}

#[test]
fn selection_accepts_what_it_names() {
    let e = plain_endpoint();
    assert!(Selection::All.accepts(&e));
    assert!(Selection::Kind(Direction::In, TransferType::Interrupt).accepts(&e));
    assert!(!Selection::Kind(Direction::In, TransferType::Isochronous).accepts(&e));
}

#[test]
fn identity_matches_only_a_readable_equal_descriptor() {
    let wanted = DeviceIdentity { vendor_id: 0x1038, product_id: 0x150d };
    assert!(wanted.is_match(&Some(DeviceIdentity { vendor_id: 0x1038, product_id: 0x150d })));
    assert!(!wanted.is_match(&Some(DeviceIdentity { vendor_id: 0x1038, product_id: 0x150e })));
    assert!(!wanted.is_match(&Some(DeviceIdentity { vendor_id: 0x1039, product_id: 0x150d })));
    assert!(!wanted.is_match(&None));
}

#[test]
fn a_scope_covers_its_interface_or_all() {
    assert!(covers(None, 0));
    assert!(covers(None, 255));
    assert!(covers(Some(4), 4));
    assert!(!covers(Some(4), 5));
}

#[test]
fn only_a_successful_claim_counts_as_claimed() {
    let ok = Exchange { action: Action::ClaimInterface { iface: 1 }, reply: Reply::Done };
    let failed = Exchange {
        action: Action::ClaimInterface { iface: 1 },
        reply: Reply::Failed(TransportError::Busy),
    };
    assert!(ok.has_mark(Mark::Claimed, None));
    assert!(ok.has_mark(Mark::Claimed, Some(1)));
    assert!(!ok.has_mark(Mark::Claimed, Some(2)));
    assert!(!ok.has_mark(Mark::Released, None));
    assert!(!failed.has_mark(Mark::Claimed, None));
}

#[test]
fn every_release_and_reattach_counts_whatever_came_of_it() {
    let release = Exchange {
        action: Action::ReleaseInterface { iface: 3 },
        reply: Reply::Failed(TransportError::NoDevice),
    };
    let attach = Exchange {
        action: Action::AttachKernelDriver { iface: 3 },
        reply: Reply::Failed(TransportError::NotSupported),
    };
    assert!(release.has_mark(Mark::Released, Some(3)));
    assert!(!release.has_mark(Mark::Reattached, Some(3)));
    assert!(attach.has_mark(Mark::Reattached, None));
    assert!(!attach.has_mark(Mark::Reattached, Some(0)));
}

#[test]
fn only_a_successful_detach_counts_as_detached() {
    let ok = Exchange { action: Action::DetachKernelDriver { iface: 0 }, reply: Reply::Done };
    let failed = Exchange {
        action: Action::DetachKernelDriver { iface: 0 },
        reply: Reply::Failed(TransportError::NotSupported),
    };
    assert!(ok.has_mark(Mark::Detached, Some(0)));
    assert!(!failed.has_mark(Mark::Detached, None));
}

#[test]
fn transfers_belong_to_no_single_interface() {
    let x = Exchange { action: Action::Transfer, reply: Reply::Failed(TransportError::Io) };
    assert!(x.has_mark(Mark::Transferred, None));
    assert!(!x.has_mark(Mark::Transferred, Some(0)));
    assert!(!x.has_mark(Mark::Claimed, None));
    let query = Exchange { action: Action::QueryKernelDriver { iface: 0 }, reply: Reply::Done };
    assert!(x.has_mark(Mark::TransferFailed, None));
    assert!(!x.has_mark(Mark::TransferFailed, Some(0)));
    let fine = Exchange { action: Action::Transfer, reply: Reply::Done };
    assert!(fine.has_mark(Mark::Transferred, None));
    assert!(!fine.has_mark(Mark::TransferFailed, None));
    for mark in [
        Mark::Claimed,
        Mark::Released,
        Mark::Detached,
        Mark::Reattached,
        Mark::Transferred,
        Mark::TransferFailed,
        Mark::DetachAsked,
        Mark::ClaimAsked,
    ] {
        assert!(!query.has_mark(mark, None));
    }
}

#[test]
fn a_session_works_in_one_lane_at_a_time() {
    let mut session = Session::new(plain_endpoint());
    let mut lanes = Vec::new();
    for _ in 0..9 {
        let now: Vec<Lane> = [Lane::Acquire, Lane::Transfer, Lane::Teardown]
            .into_iter()
            .filter(|lane| session.works_in(*lane))
            .collect();
        assert!(now.len() <= 1);
        assert_eq!(now.is_empty(), session.is_closed());
        lanes.extend(now);
        session.advance(Reply::DriverActive(true));
    }
    assert_eq!(
        lanes,
        vec![
            Lane::Acquire,
            Lane::Acquire,
            Lane::Acquire,
            Lane::Acquire,
            Lane::Acquire,
            Lane::Transfer,
            Lane::Teardown,
            Lane::Teardown,
        ]
    );
}

#[test]
fn a_failed_detach_is_noticed() {
    let mut session = Session::new(plain_endpoint());
    assert_eq!(session.advance(Reply::DriverActive(true)), None);
    assert_eq!(
        session.advance(Reply::Failed(TransportError::NotSupported)),
        Some(Notice::DriverDetachFailed(TransportError::NotSupported))
    );
    assert_eq!(session.advance(Reply::Failed(TransportError::Busy)), None);
    assert!(session.is_closed());
}

#[test]
fn a_transfer_error_gives_back_its_transport_error() {
    assert_eq!(TransferError::Timeout.transport_error(), TransportError::Timeout);
    assert_eq!(TransferError::Stall.transport_error(), TransportError::Pipe);
    assert_eq!(
        TransferError::Transport(TransportError::Overflow).transport_error(),
        TransportError::Overflow
    );
}

#[test]
fn a_query_counts_as_bound_only_when_it_says_so() {
    let bound = Exchange {
        action: Action::QueryKernelDriver { iface: 2 },
        reply: Reply::DriverActive(true),
    };
    let free = Exchange {
        action: Action::QueryKernelDriver { iface: 2 },
        reply: Reply::DriverActive(false),
    };
    let failed = Exchange {
        action: Action::QueryKernelDriver { iface: 2 },
        reply: Reply::Failed(TransportError::NotSupported),
    };
    for x in [bound, free, failed] {
        assert!(x.has_mark(Mark::Queried, Some(2)));
        assert!(!x.has_mark(Mark::Queried, Some(3)));
    }
    assert!(bound.has_mark(Mark::FoundBound, None));
    assert!(!free.has_mark(Mark::FoundBound, None));
    assert!(!failed.has_mark(Mark::FoundBound, None));
}

#[test]
fn a_claim_or_detach_that_was_asked_for_counts_whatever_came_of_it() {
    let claim = Exchange {
        action: Action::ClaimInterface { iface: 1 },
        reply: Reply::Failed(TransportError::Busy),
    };
    let detach = Exchange {
        action: Action::DetachKernelDriver { iface: 1 },
        reply: Reply::Failed(TransportError::Access),
    };
    assert!(claim.has_mark(Mark::ClaimAsked, Some(1)));
    assert!(!claim.has_mark(Mark::Claimed, Some(1)));
    assert!(detach.has_mark(Mark::DetachAsked, None));
    assert!(!detach.has_mark(Mark::Detached, None));
    assert!(!detach.has_mark(Mark::ClaimAsked, None));
}
