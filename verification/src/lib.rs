//! Session lifecycle for a USB HID peripheral: finding the device, listing its
//! endpoints, arbitrating with the kernel driver, claiming and releasing the
//! interface, and shaping the reports that are sent to it.
//!
//! The library decides; it performs no I/O. A caller enumerates devices and
//! hands in the USB transport as a function that carries out one action and
//! reports what came of it. The function is kept in a `Transport`, which
//! writes every call into its log (see `transport`), and each function of the
//! library says what it added to that log: so it says everything that it
//! asked of the transport. A transfer takes a transport that can be called
//! once, so no transfer is repeated. What the library guarantees holds
//! whatever the transport reports: see `session_laws` and `device_run_laws`.

pub mod arbiter;
pub mod descriptor;
pub mod device_run;
pub mod device_run_laws;
pub mod driver;
pub mod error;
pub mod identify;
pub mod locator;
pub mod protocol;
pub mod session;
pub mod session_laws;
pub mod survey;
pub mod transmit;
pub mod transport;

pub use arbiter::{detach_if_active, reattach_if_needed, DriverState};
pub use descriptor::{
    Configuration, DeviceIdentity, DeviceLayout, Direction, Endpoint, EndpointInfo, Interface,
    InterfaceSetting, TransferType,
};
pub use device_run::{read_device, with_interface_sessions, DeviceRun, Lane};
pub use driver::{configure_endpoint, finish_session, with_interface_session};
pub use error::{SessionError, TransferError, TransportError};
pub use identify::{is_correct_device, label_matches, Label};
pub use locator::{find_device, locate, open_device};
pub use protocol::{performed, replies_of, tally, Action, Exchange, Mark, Reply};
pub use session::{Notice, Phase, Session, Step};
pub use survey::{
    find_readable_endpoint, find_readable_endpoints, list_endpoints, survey, Selection,
};
pub use transport::{Once, Recorded, Transport};
pub use transmit::{
    cut, deliver, intensity_request, mode_request, read_endpoint, read_interrupt, read_report,
    receive_once, request_type, send_control, set_intensity, set_intensity_with_preset,
    set_report, set_report2, transfer_once, whole, ControlRead, ControlRequest, Filled,
    IntensityPresets, InterruptRead, Recipient, RequestKind, Timeout,
};
