use std::cell::RefCell;
use std::collections::BTreeSet;

use qck_usb::{
    Once,
    list_endpoints, locate, read_device, set_intensity, tally, with_interface_session, Action,
    Configuration, ControlRequest, DeviceIdentity, DeviceLayout, Direction,
    EndpointInfo, Interface, InterfaceSetting, Mark, Recorded, Reply, SessionError,
    Session, TransferError, TransferType, Transport, TransportError,
};

/// A bus with one device on it, which keeps book of what was done to it.
struct Bus {
    /// Interfaces that the kernel's driver is bound to.
    bound: RefCell<BTreeSet<u8>>,
    /// Interfaces that are claimed.
    claimed: RefCell<BTreeSet<u8>>,
    /// Whether the platform can detach and attach kernel drivers.
    can_detach: bool,
    /// What the caller's transfers report.
    transfer: Reply,
    /// Every action that was asked for.
    asked: RefCell<Vec<Action>>,
    /// Control transfers that arrived.
    sent: RefCell<Vec<ControlRequest>>,
}

impl Bus {
    fn new(bound: &[u8]) -> Bus {
        Bus {
            bound: RefCell::new(bound.iter().copied().collect()),
            claimed: RefCell::new(BTreeSet::new()),
            can_detach: true,
            transfer: Reply::Done,
            asked: RefCell::new(Vec::new()),
            sent: RefCell::new(Vec::new()),
        }
    }

    fn perform(&self, action: Action) -> Reply {
        self.asked.borrow_mut().push(action);
        match action {
            Action::QueryKernelDriver { iface } => {
                Reply::DriverActive(self.bound.borrow().contains(&iface))
            }
            Action::DetachKernelDriver { iface } => {
                if !self.can_detach {
                    Reply::Failed(TransportError::NotSupported)
                } else if self.bound.borrow_mut().remove(&iface) {
                    Reply::Done
                } else {
                    Reply::Failed(TransportError::NotFound)
                }
            }
            Action::ClaimInterface { iface } => {
                if self.bound.borrow().contains(&iface) {
                    Reply::Failed(TransportError::Busy)
                } else {
                    self.claimed.borrow_mut().insert(iface);
                    Reply::Done
                }
            }
            Action::SetActiveConfiguration { .. } => Reply::Done,
            Action::SetAlternateSetting { iface, .. } => {
                if self.claimed.borrow().contains(&iface) {
                    Reply::Done
                } else {
                    Reply::Failed(TransportError::NotFound)
                }
            }
            Action::Transfer => {
                assert!(!self.claimed.borrow().is_empty());
                self.transfer
            }
            Action::ReleaseInterface { iface } => {
                if self.claimed.borrow_mut().remove(&iface) {
                    Reply::Done
                } else {
                    Reply::Failed(TransportError::NotFound)
                }
            }
            Action::AttachKernelDriver { iface } => {
                assert!(!self.claimed.borrow().contains(&iface));
                if self.bound.borrow_mut().insert(iface) {
                    Reply::Done
                } else {
                    Reply::Failed(TransportError::Busy)
                }
            }
        }
    }

    fn bound(&self) -> Vec<u8> {
        self.bound.borrow().iter().copied().collect()
    }

    fn unreleased(&self) -> usize {
        self.claimed.borrow().len()
    }
}

fn steelseries_pad() -> DeviceLayout {
    DeviceLayout {
        configurations: vec![Some(Configuration {
            number: 1,
            interfaces: vec![Interface {
                settings: vec![InterfaceSetting {
                    interface_number: 0,
                    setting_number: 0,
                    endpoints: vec![EndpointInfo {
                        address: 0x81,
                        direction: Direction::In,
                        transfer_type: TransferType::Interrupt,
                    }],
                }],
            }],
        })],
    }
}

fn two_channel_pad() -> DeviceLayout {
    DeviceLayout {
        configurations: vec![Some(Configuration {
            number: 1,
            interfaces: vec![
                Interface {
                    settings: vec![InterfaceSetting {
                        interface_number: 0,
                        setting_number: 0,
                        endpoints: vec![EndpointInfo {
                            address: 0x81,
                            direction: Direction::In,
                            transfer_type: TransferType::Interrupt,
                        }],
                    }],
                },
                Interface {
                    settings: vec![InterfaceSetting {
                        interface_number: 1,
                        setting_number: 0,
                        endpoints: vec![EndpointInfo {
                            address: 0x82,
                            direction: Direction::In,
                            transfer_type: TransferType::Interrupt,
                        }],
                    }],
                },
            ],
        })],
    }
}

impl Bus {
    /// What the caller's transfers give, from what the bus was told to report.
    fn operate(&self) -> Result<(), TransferError> {
        assert!(!self.claimed.borrow().is_empty());
        match self.transfer {
            Reply::Failed(e) => Err(TransferError::classify(e)),
            _ => Ok(()),
        }
    }
}

#[test]
fn scenario_device_present_with_one_interrupt_endpoint() {
    let attached = vec![
        Some(DeviceIdentity { vendor_id: 0x1d6b, product_id: 0x0002 }),
        Some(DeviceIdentity { vendor_id: 0x1038, product_id: 0x150d }),
    ];
    let wanted = DeviceIdentity { vendor_id: 0x1038, product_id: 0x150d };
    let mut opener = Recorded::new(|_: usize| Some(steelseries_pad()));
    let (position, layout) = locate(&attached, wanted, &mut opener).unwrap();
    assert_eq!(position, 1);

    let endpoints = list_endpoints(&layout, Direction::In, TransferType::Interrupt);
    assert_eq!(endpoints.len(), 1);
    assert_eq!(endpoints[0].direction, Direction::In);
    assert_eq!(endpoints[0].transfer_type, TransferType::Interrupt);
    assert_eq!(endpoints[0].iface, 0);

    let bus = Bus::new(&[0]);
    let mut transport = Transport::new(|action| bus.perform(action));
    let r = with_interface_session(endpoints[0], &mut transport, &mut Once::new(|_| bus.operate()));
    assert_eq!(r, Ok(()));
    assert_eq!(bus.unreleased(), 0);
    assert_eq!(bus.bound(), vec![0]);
    assert_eq!(tally(transport.log(), Mark::Claimed, None), 1);
    assert_eq!(tally(transport.log(), Mark::Released, None), 1);
}

#[test]
fn scenario_no_device_matches() {
    let attached = vec![Some(DeviceIdentity { vendor_id: 0x1d6b, product_id: 0x0002 }), None];
    let wanted = DeviceIdentity { vendor_id: 0x1038, product_id: 0x150d };
    let bus = Bus::new(&[0]);
    let opened = RefCell::new(0);
    let mut opener = Recorded::new(|_: usize| {
        *opened.borrow_mut() += 1;
        Some(steelseries_pad())
    });
    let found = locate(&attached, wanted, &mut opener);
    assert_eq!(found.err(), Some(SessionError::DeviceNotFound));
    assert_eq!(*opened.borrow(), 0);
    // Nothing was found, so nothing is run against the bus.
    assert!(bus.asked.borrow().is_empty());
    assert_eq!(bus.unreleased(), 0);
    assert_eq!(bus.bound(), vec![0]);
}

#[test]
fn scenario_claim_fails_because_the_driver_cannot_be_detached() {
    let mut bus = Bus::new(&[0]);
    bus.can_detach = false;
    let endpoints = list_endpoints(&steelseries_pad(), Direction::In, TransferType::Interrupt);
    let mut transport = Transport::new(|action| bus.perform(action));
    let r = with_interface_session(endpoints[0], &mut transport, &mut Once::new(|_| bus.operate()));
    assert_eq!(r, Err(SessionError::InterfaceUnavailable(TransportError::Busy)));
    assert_eq!(
        *bus.asked.borrow(),
        vec![
            Action::QueryKernelDriver { iface: 0 },
            Action::DetachKernelDriver { iface: 0 },
            Action::ClaimInterface { iface: 0 },
        ]
    );
    assert_eq!(tally(transport.log(), Mark::Released, None), 0);
    assert_eq!(tally(transport.log(), Mark::Reattached, None), 0);
    assert_eq!(bus.unreleased(), 0);
    assert_eq!(bus.bound(), vec![0]);
}

#[test]
fn driver_bound_before_is_bound_again_afterwards() {
    let bus = Bus::new(&[0, 1]);
    let mut transport = Transport::new(|action| bus.perform(action));
    let r = read_device(&two_channel_pad(), &mut transport, &mut Once::new(|_| bus.operate()));
    assert_eq!(r, Ok(()));
    assert_eq!(bus.unreleased(), 0);
    assert_eq!(bus.bound(), vec![0, 1]);
}

#[test]
fn driver_detached_by_someone_else_stays_detached() {
    // Interface 0 was detached before the run began; interface 1 is bound.
    let bus = Bus::new(&[1]);
    let mut transport = Transport::new(|action| bus.perform(action));
    let r = read_device(&two_channel_pad(), &mut transport, &mut Once::new(|_| bus.operate()));
    assert_eq!(r, Ok(()));
    assert_eq!(bus.unreleased(), 0);
    assert_eq!(bus.bound(), vec![1]);
    assert_eq!(tally(transport.log(), Mark::Reattached, Some(0)), 0);
    assert_eq!(tally(transport.log(), Mark::Reattached, Some(1)), 1);
}

#[test]
fn teardown_happens_for_each_claim_when_the_transfer_always_fails() {
    let mut bus = Bus::new(&[0, 1]);
    bus.transfer = Reply::Failed(TransportError::Io);
    let mut transport = Transport::new(|action| bus.perform(action));
    let r = read_device(&two_channel_pad(), &mut transport, &mut Once::new(|_| bus.operate()));
    assert_eq!(
        r,
        Err(SessionError::TransferFailed(TransferError::Transport(TransportError::Io)))
    );
    assert_eq!(tally(transport.log(), Mark::Claimed, None), 2);
    assert_eq!(tally(transport.log(), Mark::Released, None), 2);
    assert_eq!(bus.unreleased(), 0);
    assert_eq!(bus.bound(), vec![0, 1]);
}

#[test]
fn the_report_goes_out_while_the_interfaces_are_claimed() {
    let bus = Bus::new(&[0]);
    let mut transport = Transport::new(|action| bus.perform(action));
    let r = read_device(&two_channel_pad(), &mut transport, &mut Once::new(|ready: Vec<Session>| {
        assert_eq!(ready.len(), 2);
        let claimed = bus.unreleased();
        set_intensity(170, |request: ControlRequest| {
            let len = request.payload.len();
            bus.sent.borrow_mut().push(request);
            Ok(len)
        })
        .map(|sent| (claimed, sent))
    }));
    assert_eq!(r, Ok((2, 64)));
    assert_eq!(bus.sent.borrow().len(), 1);
    assert_eq!(bus.sent.borrow()[0].payload[2], 170);
    assert_eq!(bus.unreleased(), 0);
}
