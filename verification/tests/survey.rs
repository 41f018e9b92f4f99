use qck_usb::{
    find_readable_endpoint, find_readable_endpoints, list_endpoints, survey, Configuration,
    DeviceLayout, Direction, Endpoint, EndpointInfo, Interface, InterfaceSetting, Selection,
    TransferType,
};

fn info(address: u8, direction: Direction, transfer_type: TransferType) -> EndpointInfo {
    EndpointInfo { address, direction, transfer_type }
}

fn setting(interface_number: u8, setting_number: u8, endpoints: Vec<EndpointInfo>) -> Interface {
    Interface { settings: vec![InterfaceSetting { interface_number, setting_number, endpoints }] }
}

fn endpoint(
    config: u8,
    iface: u8,
    setting: u8,
    address: u8,
    direction: Direction,
    transfer_type: TransferType,
) -> Endpoint {
    Endpoint { config, iface, setting, address, direction, transfer_type }
}

/// The mousepad: one configuration, one interface, one interrupt endpoint to the host.
fn mousepad() -> DeviceLayout {
    DeviceLayout {
        configurations: vec![Some(Configuration {
            number: 1,
            interfaces: vec![setting(
                0,
                0,
                vec![info(0x81, Direction::In, TransferType::Interrupt)],
            )],
        })],
    }
}

/// Two configurations, the first unreadable in between, several interfaces and settings.
fn composite() -> DeviceLayout {
    DeviceLayout {
        configurations: vec![
            Some(Configuration {
                number: 1,
                interfaces: vec![
                    Interface {
                        settings: vec![
                            InterfaceSetting {
                                interface_number: 0,
                                setting_number: 0,
                                endpoints: vec![
                                    info(0x81, Direction::In, TransferType::Interrupt),
                                    info(0x01, Direction::Out, TransferType::Interrupt),
                                ],
                            },
                            InterfaceSetting {
                                interface_number: 0,
                                setting_number: 1,
                                endpoints: vec![info(0x82, Direction::In, TransferType::Bulk)],
                            },
                        ],
                    },
                    setting(1, 0, vec![info(0x83, Direction::In, TransferType::Interrupt)]),
                ],
            }),
            None,
            Some(Configuration {
                number: 3,
                interfaces: vec![
                    setting(0, 0, vec![]),
                    setting(
                        2,
                        0,
                        vec![
                            info(0x02, Direction::Out, TransferType::Bulk),
                            info(0x84, Direction::In, TransferType::Interrupt),
                        ],
                    ),
                ],
            }),
        ],
    }
}

#[test]
fn mousepad_has_one_interrupt_in_endpoint_on_interface_zero() {
    let found = list_endpoints(&mousepad(), Direction::In, TransferType::Interrupt);
    assert_eq!(found.len(), 1);
    assert_eq!(found[0].direction, Direction::In);
    assert_eq!(found[0].transfer_type, TransferType::Interrupt);
    assert_eq!(found[0].iface, 0);
    assert_eq!(
        found,
        vec![endpoint(1, 0, 0, 0x81, Direction::In, TransferType::Interrupt)]
    );
}

#[test]
fn list_endpoints_keeps_declaration_order() {
    let found = list_endpoints(&composite(), Direction::In, TransferType::Interrupt);
    assert_eq!(
        found,
        vec![
            endpoint(1, 0, 0, 0x81, Direction::In, TransferType::Interrupt),
            endpoint(1, 1, 0, 0x83, Direction::In, TransferType::Interrupt),
            endpoint(3, 2, 0, 0x84, Direction::In, TransferType::Interrupt),
        ]
    );
}

#[test]
fn list_endpoints_returns_only_the_wanted_kind() {
    let layout = composite();
    let directions = [Direction::In, Direction::Out];
    let types = [
        TransferType::Control,
        TransferType::Isochronous,
        TransferType::Bulk,
        TransferType::Interrupt,
    ];
    let mut total = 0;
    for direction in directions {
        for transfer_type in types {
            let found = list_endpoints(&layout, direction, transfer_type);
            for e in &found {
                assert_eq!(e.direction, direction);
                assert_eq!(e.transfer_type, transfer_type);
            }
            total += found.len();
        }
    }
    assert_eq!(total, 6);
}

#[test]
fn list_endpoints_takes_the_setting_into_account() {
    let found = list_endpoints(&composite(), Direction::In, TransferType::Bulk);
    assert_eq!(found, vec![endpoint(1, 0, 1, 0x82, Direction::In, TransferType::Bulk)]);
}

#[test]
fn list_endpoints_is_empty_when_nothing_matches() {
    let found = list_endpoints(&mousepad(), Direction::Out, TransferType::Bulk);
    assert!(found.is_empty());
}

#[test]
fn list_endpoints_is_empty_when_no_configuration_is_readable() {
    let layout = DeviceLayout { configurations: vec![None, None] };
    assert!(list_endpoints(&layout, Direction::In, TransferType::Interrupt).is_empty());
    let none = DeviceLayout { configurations: vec![] };
    assert!(list_endpoints(&none, Direction::In, TransferType::Interrupt).is_empty());
}

#[test]
fn find_readable_endpoint_lists_the_inbound_endpoints() {
    let found = find_readable_endpoint(&composite(), TransferType::Interrupt);
    assert_eq!(
        found,
        Some(vec![
            endpoint(1, 0, 0, 0x81, Direction::In, TransferType::Interrupt),
            endpoint(1, 1, 0, 0x83, Direction::In, TransferType::Interrupt),
            endpoint(3, 2, 0, 0x84, Direction::In, TransferType::Interrupt),
        ])
    );
    assert_eq!(find_readable_endpoint(&mousepad(), TransferType::Bulk), Some(vec![]));
}

#[test]
fn find_readable_endpoints_lists_every_endpoint() {
    let found = find_readable_endpoints(&composite());
    assert_eq!(
        found,
        vec![
            endpoint(1, 0, 0, 0x81, Direction::In, TransferType::Interrupt),
            endpoint(1, 0, 0, 0x01, Direction::Out, TransferType::Interrupt),
            endpoint(1, 0, 1, 0x82, Direction::In, TransferType::Bulk),
            endpoint(1, 1, 0, 0x83, Direction::In, TransferType::Interrupt),
            endpoint(3, 2, 0, 0x02, Direction::Out, TransferType::Bulk),
            endpoint(3, 2, 0, 0x84, Direction::In, TransferType::Interrupt),
        ]
    );
}

#[test]
fn survey_with_every_endpoint_selected_equals_the_full_list() {
    let layout = composite();
    assert_eq!(survey(&layout, Selection::All), find_readable_endpoints(&layout));
    assert_eq!(
        survey(&layout, Selection::Kind(Direction::Out, TransferType::Bulk)),
        list_endpoints(&layout, Direction::Out, TransferType::Bulk)
    );
}
