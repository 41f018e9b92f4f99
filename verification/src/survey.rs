//! The endpoint survey: which endpoints of a device have a wanted direction
//! and transfer type.
//!
//! Endpoints are listed in declaration order: by configuration, then by
//! interface, then by alternate setting, then as the setting declares them.
//! A caller that takes "the first endpoint" relies on that order.

use vstd::prelude::*;
use crate::descriptor::{
    Configuration, DeviceLayout, Direction, Endpoint, EndpointInfo, Interface, InterfaceSetting,
    TransferType,
};

verus! {

/// Which endpoints a survey keeps.
#[derive(Debug, Clone, Copy, PartialEq, Eq, Structural)]
pub enum Selection {
    /// Every endpoint.
    All,
    /// The endpoints of one direction and transfer type.
    Kind(Direction, TransferType),
}

impl Selection {
    /// Whether the selection keeps `endpoint`.
    pub open spec fn selects(self, endpoint: Endpoint) -> bool {
        match self {
            Selection::All => true,
            Selection::Kind(direction, transfer_type) => endpoint.is_kind(direction, transfer_type),
        }
    }

    /// `selects`, as a predicate on endpoints.
    pub open spec fn keeps(self) -> spec_fn(Endpoint) -> bool {
        |endpoint: Endpoint| self.selects(endpoint)
    }

    /// Tests whether the selection keeps `endpoint`.
    pub fn accepts(&self, endpoint: &Endpoint) -> (r: bool)
        ensures
            r == self.selects(*endpoint),
    {
        match self {
            Selection::All => true,
            Selection::Kind(direction, transfer_type) => endpoint.has_kind(
                *direction,
                *transfer_type,
            ),
        }
    }
}

/// Places the endpoints of one alternate setting.
pub open spec fn place(config: u8, iface: u8, setting: u8) -> spec_fn(EndpointInfo) -> Endpoint {
    |info: EndpointInfo| Endpoint::located(config, iface, setting, info)
}

/// The endpoints of one alternate setting, as the setting declares them.
pub open spec fn setting_endpoints(config: u8, setting: InterfaceSetting) -> Seq<Endpoint> {
    setting.endpoints@.map_values(place(config, setting.interface_number, setting.setting_number))
}

/// `setting_endpoints` within configuration `config`, as a function of the setting.
pub open spec fn each_setting(config: u8) -> spec_fn(InterfaceSetting) -> Seq<Endpoint> {
    |setting: InterfaceSetting| setting_endpoints(config, setting)
}

/// The endpoints of one interface: those of its alternate settings, one
/// setting after the other.
pub open spec fn interface_endpoints(config: u8, interface: Interface) -> Seq<Endpoint> {
    interface.settings@.flat_map(each_setting(config))
}

/// `interface_endpoints` within configuration `config`, as a function of the interface.
pub open spec fn each_interface(config: u8) -> spec_fn(Interface) -> Seq<Endpoint> {
    |interface: Interface| interface_endpoints(config, interface)
}

/// The endpoints of one configuration: those of its interfaces, one
/// interface after the other. A configuration that could not be read has none.
pub open spec fn configuration_endpoints(configuration: Option<Configuration>) -> Seq<Endpoint> {
    match configuration {
        Some(c) => c.interfaces@.flat_map(each_interface(c.number)),
        None => Seq::empty(),
    }
}

/// `configuration_endpoints`, as a function value.
pub open spec fn each_configuration() -> spec_fn(Option<Configuration>) -> Seq<Endpoint> {
    |configuration: Option<Configuration>| configuration_endpoints(configuration)
}

/// Every endpoint of the device, in declaration order.
pub open spec fn all_endpoints(layout: DeviceLayout) -> Seq<Endpoint> {
    layout.configurations@.flat_map(each_configuration())
}

/// The endpoints of the device that `selection` keeps, in declaration order.
pub open spec fn surveyed(layout: DeviceLayout, selection: Selection) -> Seq<Endpoint> {
    all_endpoints(layout).filter(selection.keeps())
}

/// Keeping everything drops nothing.
pub proof fn lemma_select_all(endpoints: Seq<Endpoint>)
    ensures
        endpoints.filter(Selection::All.keeps()) == endpoints,
    decreases endpoints.len(),
{
    reveal(Seq::filter);
    if endpoints.len() > 0 {
        lemma_select_all(endpoints.drop_last());
        assert(endpoints.drop_last().push(endpoints.last()) =~= endpoints);
    }
}

/// What a survey returns: nothing but endpoints of the device that the
/// selection keeps, and each such endpoint of the device.
pub proof fn lemma_surveyed(layout: DeviceLayout, selection: Selection)
    ensures
        forall|i: int|
            0 <= i < surveyed(layout, selection).len() ==> selection.selects(
                #[trigger] surveyed(layout, selection)[i],
            ) && all_endpoints(layout).contains(surveyed(layout, selection)[i]),
        forall|i: int|
            0 <= i < all_endpoints(layout).len() && selection.selects(all_endpoints(layout)[i])
                ==> surveyed(layout, selection).contains(#[trigger] all_endpoints(layout)[i]),
        surveyed(layout, selection).len() <= all_endpoints(layout).len(),
{
    let all = all_endpoints(layout);
    let kept = surveyed(layout, selection);
    broadcast use Seq::lemma_filter_len, Seq::lemma_filter_pred, Seq::lemma_filter_contains;
    assert forall|i: int| 0 <= i < kept.len() implies selection.selects(#[trigger] kept[i])
        && all.contains(kept[i]) by {
        all.lemma_filter_pred(selection.keeps(), i);
        assert(kept.contains(kept[i]));
        all.lemma_filter_contains_rev(selection.keeps(), kept[i]);
    }
    assert forall|i: int| 0 <= i < all.len() && selection.selects(all[i]) implies kept.contains(
        #[trigger] all[i],
    ) by {
        all.lemma_filter_contains(selection.keeps(), i);
    }
}

/// Appends the endpoints of one alternate setting that `selection` keeps.
fn survey_setting(
    found: &mut Vec<Endpoint>,
    config: u8,
    setting: &InterfaceSetting,
    selection: Selection,
)
    ensures
        final(found)@ == old(found)@ + setting_endpoints(config, *setting).filter(
            selection.keeps(),
        ),
{
    let ghost declared = setting.endpoints@;
    let ghost placed = place(config, setting.interface_number, setting.setting_number);
    let ghost before = found@;
    let mut i: usize = 0;
    proof {
        assert(declared.take(0).map_values(placed) =~= Seq::<Endpoint>::empty());
        assert(Seq::<Endpoint>::empty().filter(selection.keeps()) =~= Seq::<Endpoint>::empty())
            by {
            reveal(Seq::filter);
        }
    }
    while i < setting.endpoints.len()
        invariant
            i <= setting.endpoints.len(),
            declared == setting.endpoints@,
            placed == place(config, setting.interface_number, setting.setting_number),
            found@ == before + declared.take(i as int).map_values(placed).filter(
                selection.keeps(),
            ),
        decreases setting.endpoints.len() - i,
    {
        let endpoint = Endpoint::new(
            config,
            setting.interface_number,
            setting.setting_number,
            &setting.endpoints[i],
        );
        proof {
            let sofar = declared.take(i as int).map_values(placed);
            declared.lemma_map_take_succ(placed, i as int);
            sofar.lemma_filter_push(endpoint, selection.keeps());
            assert(placed(declared[i as int]) == endpoint);
        }
        if selection.accepts(&endpoint) {
            found.push(endpoint);
        }
        i = i + 1;
    }
    proof {
        assert(declared.take(setting.endpoints.len() as int) =~= declared);
    }
}

/// Appends the endpoints of one interface that `selection` keeps.
fn survey_interface(
    found: &mut Vec<Endpoint>,
    config: u8,
    interface: &Interface,
    selection: Selection,
)
    ensures
        final(found)@ == old(found)@ + interface_endpoints(config, *interface).filter(
            selection.keeps(),
        ),
{
    let ghost settings = interface.settings@;
    let ghost before = found@;
    let mut i: usize = 0;
    proof {
        assert(settings.take(0).flat_map(each_setting(config)) =~= Seq::<Endpoint>::empty());
        assert(Seq::<Endpoint>::empty().filter(selection.keeps()) =~= Seq::<Endpoint>::empty())
            by {
            reveal(Seq::filter);
        }
    }
    while i < interface.settings.len()
        invariant
            i <= interface.settings.len(),
            settings == interface.settings@,
            found@ == before + settings.take(i as int).flat_map(each_setting(config)).filter(
                selection.keeps(),
            ),
        decreases interface.settings.len() - i,
    {
        proof {
            settings.lemma_flat_map_take_append(each_setting(config), i as int);
            Seq::filter_distributes_over_add(
                settings.take(i as int).flat_map(each_setting(config)),
                setting_endpoints(config, settings[i as int]),
                selection.keeps(),
            );
        }
        survey_setting(found, config, &interface.settings[i], selection);
        i = i + 1;
    }
    proof {
        assert(settings.take(interface.settings.len() as int) =~= settings);
    }
}

/// Appends the endpoints of one configuration that `selection` keeps.
fn survey_configuration(
    found: &mut Vec<Endpoint>,
    configuration: &Configuration,
    selection: Selection,
)
    ensures
        final(found)@ == old(found)@ + configuration_endpoints(Some(*configuration)).filter(
            selection.keeps(),
        ),
{
    let ghost interfaces = configuration.interfaces@;
    let ghost lister = each_interface(configuration.number);
    let ghost before = found@;
    let mut i: usize = 0;
    proof {
        assert(interfaces.take(0).flat_map(lister) =~= Seq::<Endpoint>::empty());
        assert(Seq::<Endpoint>::empty().filter(selection.keeps()) =~= Seq::<Endpoint>::empty())
            by {
            reveal(Seq::filter);
        }
    }
    while i < configuration.interfaces.len()
        invariant
            i <= configuration.interfaces.len(),
            interfaces == configuration.interfaces@,
            lister == each_interface(configuration.number),
            found@ == before + interfaces.take(i as int).flat_map(lister).filter(
                selection.keeps(),
            ),
        decreases configuration.interfaces.len() - i,
    {
        proof {
            interfaces.lemma_flat_map_take_append(lister, i as int);
            Seq::filter_distributes_over_add(
                interfaces.take(i as int).flat_map(lister),
                interface_endpoints(configuration.number, interfaces[i as int]),
                selection.keeps(),
            );
        }
        survey_interface(found, configuration.number, &configuration.interfaces[i], selection);
        i = i + 1;
    }
    proof {
        assert(interfaces.take(configuration.interfaces.len() as int) =~= interfaces);
    }
}

/// Lists the endpoints of the device that `selection` keeps, in declaration
/// order. Configurations that could not be read are passed over.
pub fn survey(layout: &DeviceLayout, selection: Selection) -> (r: Vec<Endpoint>)
    ensures
        r@ == surveyed(*layout, selection),
        forall|i: int| 0 <= i < r.len() ==> selection.selects(#[trigger] r[i]),
{
    let ghost configurations = layout.configurations@;
    let mut found: Vec<Endpoint> = Vec::new();
    let mut i: usize = 0;
    proof {
        assert(configurations.take(0).flat_map(each_configuration()) =~= Seq::<
            Endpoint,
        >::empty());
        assert(Seq::<Endpoint>::empty().filter(selection.keeps()) =~= Seq::<Endpoint>::empty())
            by {
            reveal(Seq::filter);
        }
    }
    while i < layout.configurations.len()
        invariant
            i <= layout.configurations.len(),
            configurations == layout.configurations@,
            found@ == configurations.take(i as int).flat_map(each_configuration()).filter(
                selection.keeps(),
            ),
        decreases layout.configurations.len() - i,
    {
        proof {
            configurations.lemma_flat_map_take_append(each_configuration(), i as int);
            Seq::filter_distributes_over_add(
                configurations.take(i as int).flat_map(each_configuration()),
                configuration_endpoints(configurations[i as int]),
                selection.keeps(),
            );
            assert(Seq::<Endpoint>::empty().filter(selection.keeps()) =~= Seq::<
                Endpoint,
            >::empty()) by {
                reveal(Seq::filter);
            }
        }
        match &layout.configurations[i] {
            Some(configuration) => {
                survey_configuration(&mut found, configuration, selection);
            },
            None => {
                assert(found@ + Seq::<Endpoint>::empty() =~= found@);
            },
        }
        i = i + 1;
    }
    proof {
        assert(configurations.take(layout.configurations.len() as int) =~= configurations);
        lemma_surveyed(*layout, selection);
    }
    found
}

/// Lists the endpoints of the device that have the given direction and
/// transfer type, in declaration order.
///
/// The list is empty where no configuration could be read or no endpoint is
/// of that kind; that is no error.
pub fn list_endpoints(
    layout: &DeviceLayout,
    direction: Direction,
    transfer_type: TransferType,
) -> (r: Vec<Endpoint>)
    ensures
        r@ == surveyed(*layout, Selection::Kind(direction, transfer_type)),
        forall|i: int|
            0 <= i < r.len() ==> (#[trigger] r[i]).direction == direction && r[i].transfer_type
                == transfer_type,
{
    survey(layout, Selection::Kind(direction, transfer_type))
}

/// Lists the endpoints of the given transfer type that the host can read
/// from, in declaration order. The result is always `Some`.
pub fn find_readable_endpoint(layout: &DeviceLayout, transfer_type: TransferType) -> (r: Option<
    Vec<Endpoint>,
>)
    ensures
        r matches Some(found) && found@ == surveyed(
            *layout,
            Selection::Kind(Direction::In, transfer_type),
        ),
        r matches Some(found) && forall|i: int|
            0 <= i < found.len() ==> (#[trigger] found[i]).direction == Direction::In
                && found[i].transfer_type == transfer_type,
{
    Some(list_endpoints(layout, Direction::In, transfer_type))
}

/// Lists every endpoint of the device, in declaration order.
pub fn find_readable_endpoints(layout: &DeviceLayout) -> (r: Vec<Endpoint>)
    ensures
        r@ == all_endpoints(*layout),
{
    proof {
        lemma_select_all(all_endpoints(*layout));
    }
    survey(layout, Selection::All)
}

} // verus!
