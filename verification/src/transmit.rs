//! The report transmitter: what is sent to the device, and what is made of
//! the transport's answer.
//!
//! Every transfer carries a bounded timeout. A transfer is tried once: a
//! failed "set report" is not repeated, since the device may have acted on a
//! part of it. So the transport is taken as a function that can be called
//! once. The transport's error is handed on as it came, with timeout and
//! stall told apart from the rest.

use vstd::prelude::*;
use crate::descriptor::{Direction, Endpoint};
use crate::error::{TransferError, TransportError};

verus! {

/// A timeout that is certain to expire: at least one millisecond, and no more
/// than the transport's 32-bit millisecond field can hold. (To the transport a
/// timeout of zero means "wait for ever".)
#[derive(Debug, Clone, Copy, PartialEq, Eq)]
pub struct Timeout {
    millis: u32,
}

impl Timeout {
    #[verifier::type_invariant]
    spec fn bounded(self) -> bool {
        self.millis >= 1
    }

    /// The timeout in milliseconds.
    pub closed spec fn in_millis(self) -> nat {
        self.millis as nat
    }

    /// Whether a number of milliseconds is a bounded timeout.
    pub open spec fn admits(millis: nat) -> bool {
        1 <= millis <= u32::MAX
    }

    /// A timeout of `millis` milliseconds, if that is a bounded timeout.
    pub fn from_millis(millis: u64) -> (r: Option<Timeout>)
        ensures
            r is Some <==> Timeout::admits(millis as nat),
            r matches Some(t) ==> t.in_millis() == millis,
    {
        if 1 <= millis && millis <= 0xffff_ffff {
            Some(Timeout { millis: millis as u32 })
        } else {
            None
        }
    }

    /// A timeout of `secs` seconds, if that is a bounded timeout.
    pub fn from_secs(secs: u64) -> (r: Option<Timeout>)
        ensures
            r is Some <==> Timeout::admits((secs * 1000) as nat),
            r matches Some(t) ==> t.in_millis() == secs * 1000,
    {
        if 1 <= secs && secs <= 4_294_967 {
            Some(Timeout { millis: (secs * 1000) as u32 })
        } else {
            None
        }
    }

    /// One second.
    pub fn one_second() -> (r: Timeout)
        ensures
            r.in_millis() == 1000,
    {
        Timeout { millis: 1000 }
    }

    /// Five seconds.
    pub fn five_seconds() -> (r: Timeout)
        ensures
            r.in_millis() == 5000,
    {
        Timeout { millis: 5000 }
    }

    /// The timeout in milliseconds: never zero.
    pub fn millis(&self) -> (r: u32)
        ensures
            r == self.in_millis(),
            Timeout::admits(r as nat),
    {
        proof {
            use_type_invariant(self);
        }
        self.millis
    }
}

/// A timeout is its number of milliseconds, which fits the transport's field:
/// two timeouts of as many milliseconds are the same timeout.
pub proof fn lemma_timeout_is_its_millis(a: Timeout, b: Timeout)
    ensures
        a.in_millis() <= u32::MAX,
        a.in_millis() == b.in_millis() ==> a == b,
{
}

/// The kind of a control request.
#[derive(Debug, Clone, Copy, PartialEq, Eq, Structural)]
pub enum RequestKind {
    Standard,
    Class,
    Vendor,
    Reserved,
}

/// Whom a control request addresses.
#[derive(Debug, Clone, Copy, PartialEq, Eq, Structural)]
pub enum Recipient {
    Device,
    Interface,
    Endpoint,
    Other,
}

/// The request-type byte of a control transfer: bit 7 is the direction, bits
/// 5 and 6 the kind, bits 0 to 4 the recipient.
pub open spec fn request_type_of(direction: Direction, kind: RequestKind, recipient: Recipient) -> u8 {
    let direction_bits: u8 = match direction {
        Direction::In => 0x80,
        Direction::Out => 0x00,
    };
    let kind_bits: u8 = match kind {
        RequestKind::Standard => 0x00,
        RequestKind::Class => 0x20,
        RequestKind::Vendor => 0x40,
        RequestKind::Reserved => 0x60,
    };
    let recipient_bits: u8 = match recipient {
        Recipient::Device => 0x00,
        Recipient::Interface => 0x01,
        Recipient::Endpoint => 0x02,
        Recipient::Other => 0x03,
    };
    (direction_bits + kind_bits + recipient_bits) as u8
}

/// Builds the request-type byte of a control transfer.
pub fn request_type(direction: Direction, kind: RequestKind, recipient: Recipient) -> (r: u8)
    ensures
        r == request_type_of(direction, kind, recipient),
        (r & 0x80 == 0x80) <==> direction == Direction::In,
{
    let direction_bits: u8 = match direction {
        Direction::In => 0x80,
        Direction::Out => 0x00,
    };
    let kind_bits: u8 = match kind {
        RequestKind::Standard => 0x00,
        RequestKind::Class => 0x20,
        RequestKind::Vendor => 0x40,
        RequestKind::Reserved => 0x60,
    };
    let recipient_bits: u8 = match recipient {
        Recipient::Device => 0x00,
        Recipient::Interface => 0x01,
        Recipient::Endpoint => 0x02,
        Recipient::Other => 0x03,
    };
    let r: u8 = direction_bits + kind_bits + recipient_bits;
    assert((r & 0x80 == 0x80) <==> direction_bits == 0x80) by (bit_vector)
        requires
            direction_bits == 0x80 || direction_bits == 0x00,
            kind_bits == 0x00 || kind_bits == 0x20 || kind_bits == 0x40 || kind_bits == 0x60,
            recipient_bits <= 0x03,
            r == direction_bits + kind_bits + recipient_bits,
    ;
    r
}

/// A control transfer that writes `payload` to the device.
#[derive(Debug, Clone, PartialEq, Eq)]
pub struct ControlRequest {
    pub request_type: u8,
    pub request: u8,
    pub value: u16,
    pub index: u16,
    /// The bytes to send, exactly as they go on the wire.
    pub payload: Vec<u8>,
    pub timeout: Timeout,
}

/// A control transfer that reads up to `length` bytes from the device.
#[derive(Debug, Clone, Copy, PartialEq, Eq)]
pub struct ControlRead {
    pub request_type: u8,
    pub request: u8,
    pub value: u16,
    pub index: u16,
    pub length: usize,
    pub timeout: Timeout,
}

/// An interrupt transfer that reads up to `length` bytes from an endpoint.
#[derive(Debug, Clone, Copy, PartialEq, Eq)]
pub struct InterruptRead {
    pub address: u8,
    pub length: usize,
    pub timeout: Timeout,
}

/// The brightness levels that the vendor's own control panel offers.
#[derive(Debug, Clone, Copy, PartialEq, Eq, Structural)]
pub enum IntensityPresets {
    Off,
    Dark,
    Bright,
    Brightest,
}

impl IntensityPresets {
    /// The intensity byte of a preset.
    pub open spec fn intensity(self) -> u8 {
        match self {
            IntensityPresets::Off => 0,
            IntensityPresets::Dark => 85,
            IntensityPresets::Bright => 170,
            IntensityPresets::Brightest => 255,
        }
    }

    /// Gives the intensity byte of a preset.
    pub fn level(self) -> (r: u8)
        ensures
            r == self.intensity(),
    {
        match self {
            IntensityPresets::Off => 0,
            IntensityPresets::Dark => 85,
            IntensityPresets::Bright => 170,
            IntensityPresets::Brightest => 255,
        }
    }
}

/// Request type of a HID class request to an interface, host to device.
pub const HID_SET: u8 = 0x21;

/// Request code of "set report".
pub const SET_REPORT: u8 = 0x09;

/// Value of an output report with report id 0.
pub const OUTPUT_REPORT: u16 = 0x0200;

/// Length of the report that sets the intensity.
pub const INTENSITY_REPORT_LEN: usize = 64;

/// Length of the two mode reports.
pub const MODE_REPORT_LEN: usize = 71;

/// The report that sets the intensity: command byte `0x0c`, a zero, the
/// intensity, and zeros up to 64 bytes.
pub open spec fn intensity_report(intensity: u8) -> Seq<u8> {
    Seq::new(
        64,
        |i: int|
            if i == 0 {
                0x0cu8
            } else if i == 2 {
                intensity
            } else {
                0u8
            },
    )
}

/// A mode report: the header `09 00 02 00 00 40 00`, the mode byte, and zeros
/// up to 71 bytes.
pub open spec fn mode_report(mode: u8) -> Seq<u8> {
    Seq::new(
        71,
        |i: int|
            if i == 0 {
                0x09u8
            } else if i == 2 {
                0x02u8
            } else if i == 5 {
                0x40u8
            } else if i == 7 {
                mode
            } else {
                0u8
            },
    )
}

/// Whether `request` is a "set report" with the given payload and a timeout of
/// one second.
pub open spec fn is_set_report(request: ControlRequest, payload: Seq<u8>) -> bool {
    &&& request.request_type == HID_SET
    &&& request.request == SET_REPORT
    &&& request.value == OUTPUT_REPORT
    &&& request.index == 0
    &&& request.payload@ == payload
    &&& request.timeout.in_millis() == 1000
}

/// A vector of `len` zero bytes.
fn zeros(len: usize) -> (r: Vec<u8>)
    ensures
        r@ == Seq::new(len as nat, |i: int| 0u8),
{
    let mut bytes: Vec<u8> = Vec::new();
    let mut i: usize = 0;
    while i < len
        invariant
            i <= len,
            bytes@ == Seq::new(i as nat, |k: int| 0u8),
        decreases len - i,
    {
        bytes.push(0);
        assert(bytes@ =~= Seq::new((i + 1) as nat, |k: int| 0u8));
        i = i + 1;
    }
    bytes
}

/// Wraps a payload as a "set report" with a timeout of one second.
fn set_report_request(payload: Vec<u8>) -> (r: ControlRequest)
    ensures
        is_set_report(r, payload@),
{
    ControlRequest {
        request_type: HID_SET,
        request: SET_REPORT,
        value: OUTPUT_REPORT,
        index: 0,
        payload,
        timeout: Timeout::one_second(),
    }
}

/// The request that sets the intensity of the lights.
pub fn intensity_request(intensity: u8) -> (r: ControlRequest)
    ensures
        is_set_report(r, intensity_report(intensity)),
{
    let mut payload = zeros(INTENSITY_REPORT_LEN);
    payload.set(0, 0x0c);
    payload.set(2, intensity);
    assert(payload@ =~= intensity_report(intensity));
    set_report_request(payload)
}

/// The request that sends a mode report.
pub fn mode_request(mode: u8) -> (r: ControlRequest)
    ensures
        is_set_report(r, mode_report(mode)),
{
    let mut payload = zeros(MODE_REPORT_LEN);
    payload.set(0, 0x09);
    payload.set(2, 0x02);
    payload.set(5, 0x40);
    payload.set(7, mode);
    assert(payload@ =~= mode_report(mode));
    set_report_request(payload)
}

/// What a transfer gives its caller: the transport's value, or its error
/// sorted into timeout, stall, and the rest.
pub open spec fn delivered<T>(raw: Result<T, TransportError>) -> Result<T, TransferError> {
    match raw {
        Ok(value) => Ok(value),
        Err(error) => Err(TransferError::of(error)),
    }
}

/// Turns the transport's answer into the transfer's result.
pub fn deliver<T>(raw: Result<T, TransportError>) -> (r: Result<T, TransferError>)
    ensures
        r == delivered(raw),
        r is Ok <==> raw is Ok,
        r matches Err(e) ==> raw matches Err(cause) && e.source() == cause && e.canonical(),
{
    match raw {
        Ok(value) => Ok(value),
        Err(error) => Err(TransferError::classify(error)),
    }
}

/// Whether `r` is what the one call of `transfer`, with `request`, gave, delivered.
pub open spec fn transferred<Q, T, F: FnOnce(Q) -> Result<T, TransportError>>(
    transfer: F,
    request: Q,
    r: Result<T, TransferError>,
) -> bool {
    exists|raw: Result<T, TransportError>|
        call_ensures(transfer, (request,), raw) && r == delivered(raw)
}

/// Hands `request` to `transfer` and delivers what came back.
///
/// `transfer` can be called once only, and is: a transfer is not repeated,
/// whatever it reports.
pub fn transfer_once<Q, T, F: FnOnce(Q) -> Result<T, TransportError>>(request: Q, transfer: F) -> (r:
    Result<T, TransferError>)
    requires
        call_requires(transfer, (request,)),
    ensures
        transferred(transfer, request, r),
{
    let raw = transfer(request);
    deliver(raw)
}

/// Sends a control transfer: the given setup fields and payload, unchanged,
/// with the caller's timeout, once. Returns the number of bytes transferred.
pub fn send_control<F: FnOnce(ControlRequest) -> Result<usize, TransportError>>(
    request_type: u8,
    request: u8,
    value: u16,
    index: u16,
    payload: Vec<u8>,
    timeout: Timeout,
    send: F,
) -> (r: Result<usize, TransferError>)
    requires
        call_requires(
            send,
            (ControlRequest { request_type, request, value, index, payload, timeout },),
        ),
    ensures
        transferred(
            send,
            ControlRequest { request_type, request, value, index, payload, timeout },
            r,
        ),
{
    transfer_once(ControlRequest { request_type, request, value, index, payload, timeout }, send)
}

/// What a read left behind: the buffer that the transport was given to fill,
/// and the number of bytes that it says it put there.
#[derive(Debug, Clone, PartialEq, Eq)]
pub struct Filled {
    pub buffer: Vec<u8>,
    pub count: usize,
}

/// The bytes that a read gave: the first `count` bytes of the buffer, and in
/// no case more than were asked for or than the buffer holds.
pub open spec fn bytes_read(buffer: Seq<u8>, count: nat, asked: nat) -> Seq<u8> {
    let most = if asked <= buffer.len() {
        asked
    } else {
        buffer.len()
    };
    if count <= most {
        buffer.take(count as int)
    } else {
        buffer.take(most as int)
    }
}

/// Cuts a filled buffer down to the bytes that were read.
pub fn cut(filled: Filled, asked: usize) -> (r: Vec<u8>)
    ensures
        r@ == bytes_read(filled.buffer@, filled.count as nat, asked as nat),
        r.len() <= asked,
        r.len() <= filled.count,
        r.len() <= filled.buffer.len(),
{
    let mut bytes = filled.buffer;
    let most: usize = if asked <= bytes.len() {
        asked
    } else {
        bytes.len()
    };
    let keep: usize = if filled.count <= most {
        filled.count
    } else {
        most
    };
    bytes.truncate(keep);
    bytes
}

/// What a read gives its caller: the bytes that were read, or the transport's
/// error sorted into timeout, stall, and the rest.
pub open spec fn received(raw: Result<Filled, TransportError>, asked: nat, r: Result<
    Vec<u8>,
    TransferError,
>) -> bool {
    match raw {
        Ok(filled) => r matches Ok(bytes) && bytes@ == bytes_read(
            filled.buffer@,
            filled.count as nat,
            asked,
        ),
        Err(error) => r matches Err(e) && e == TransferError::of(error),
    }
}

/// Whether `r` is what the one call of `receive`, with `request`, gave,
/// where up to `asked` bytes were asked for.
pub open spec fn was_read<Q, F: FnOnce(Q) -> Result<Filled, TransportError>>(
    receive: F,
    request: Q,
    asked: nat,
    r: Result<Vec<u8>, TransferError>,
) -> bool {
    exists|raw: Result<Filled, TransportError>|
        call_ensures(receive, (request,), raw) && received(raw, asked, r)
}

/// Hands the read `request` to `receive` and gives back the bytes that were
/// read: never more than `asked`.
///
/// `receive` can be called once only, and is.
pub fn receive_once<Q, F: FnOnce(Q) -> Result<Filled, TransportError>>(
    request: Q,
    asked: usize,
    receive: F,
) -> (r: Result<Vec<u8>, TransferError>)
    requires
        call_requires(receive, (request,)),
    ensures
        was_read(receive, request, asked as nat, r),
        r matches Ok(bytes) ==> bytes.len() <= asked,
{
    let raw = receive(request);
    let ghost answer = raw;
    let r = match raw {
        Ok(filled) => Ok(cut(filled, asked)),
        Err(error) => Err(TransferError::classify(error)),
    };
    assert(call_ensures(receive, (request,), answer) && received(answer, asked as nat, r));
    r
}

/// Reads from an interrupt endpoint, once: up to `buffer_size` bytes, with
/// the caller's timeout. Returns the bytes received.
pub fn read_interrupt<F: FnOnce(InterruptRead) -> Result<Filled, TransportError>>(
    address: u8,
    buffer_size: usize,
    timeout: Timeout,
    receive: F,
) -> (r: Result<Vec<u8>, TransferError>)
    requires
        call_requires(receive, (InterruptRead { address, length: buffer_size, timeout },)),
    ensures
        was_read(
            receive,
            InterruptRead { address, length: buffer_size, timeout },
            buffer_size as nat,
            r,
        ),
        r matches Ok(bytes) ==> bytes.len() <= buffer_size,
{
    receive_once(InterruptRead { address, length: buffer_size, timeout }, buffer_size, receive)
}

/// Whether `r` is what the one call of `send` gave for a "set report" with
/// `payload`, delivered.
pub open spec fn report_sent<F: FnOnce(ControlRequest) -> Result<usize, TransportError>>(
    send: F,
    payload: Seq<u8>,
    r: Result<usize, TransferError>,
) -> bool {
    exists|q: ControlRequest| is_set_report(q, payload) && transferred(send, q, r)
}

/// Sets the intensity of the lights: sends the intensity report, once, with
/// a timeout of one second. Returns the number of bytes transferred.
pub fn set_intensity<F: FnOnce(ControlRequest) -> Result<usize, TransportError>>(
    intensity: u8,
    send: F,
) -> (r: Result<usize, TransferError>)
    requires
        forall|q: ControlRequest|
            is_set_report(q, intensity_report(intensity)) ==> call_requires(send, (q,)),
    ensures
        report_sent(send, intensity_report(intensity), r),
{
    let request = intensity_request(intensity);
    let r = transfer_once(request, send);
    assert(is_set_report(request, intensity_report(intensity)) && transferred(send, request, r));
    r
}

/// Sets the intensity of the lights to a preset.
pub fn set_intensity_with_preset<F: FnOnce(ControlRequest) -> Result<usize, TransportError>>(
    intensity: IntensityPresets,
    send: F,
) -> (r: Result<usize, TransferError>)
    requires
        forall|q: ControlRequest|
            is_set_report(q, intensity_report(intensity.intensity())) ==> call_requires(
                send,
                (q,),
            ),
    ensures
        report_sent(send, intensity_report(intensity.intensity()), r),
{
    set_intensity(intensity.level(), send)
}

/// Sends the mode report with mode byte `0x0d`, once.
pub fn set_report<F: FnOnce(ControlRequest) -> Result<usize, TransportError>>(send: F) -> (r:
    Result<usize, TransferError>)
    requires
        forall|q: ControlRequest| is_set_report(q, mode_report(0x0d)) ==> call_requires(send, (q,)),
    ensures
        report_sent(send, mode_report(0x0d), r),
{
    let request = mode_request(0x0d);
    let r = transfer_once(request, send);
    assert(is_set_report(request, mode_report(0x0d)) && transferred(send, request, r));
    r
}

/// Sends the mode report with mode byte `0x0c`, once.
pub fn set_report2<F: FnOnce(ControlRequest) -> Result<usize, TransportError>>(send: F) -> (r:
    Result<usize, TransferError>)
    requires
        forall|q: ControlRequest| is_set_report(q, mode_report(0x0c)) ==> call_requires(send, (q,)),
    ensures
        report_sent(send, mode_report(0x0c), r),
{
    let request = mode_request(0x0c);
    let r = transfer_once(request, send);
    assert(is_set_report(request, mode_report(0x0c)) && transferred(send, request, r));
    r
}

/// The read that `read_endpoint` makes: up to 24 bytes from the endpoint's
/// address, within five seconds.
pub open spec fn is_endpoint_read(request: InterruptRead, endpoint: Endpoint) -> bool {
    &&& request.address == endpoint.address
    &&& request.length == 24
    &&& request.timeout.in_millis() == 5000
}

/// Reads a status report from an endpoint, once: up to 24 bytes, within five
/// seconds.
pub fn read_endpoint<F: FnOnce(InterruptRead) -> Result<Filled, TransportError>>(
    endpoint: &Endpoint,
    receive: F,
) -> (r: Result<Vec<u8>, TransferError>)
    requires
        forall|q: InterruptRead| is_endpoint_read(q, *endpoint) ==> call_requires(receive, (q,)),
    ensures
        exists|q: InterruptRead|
            is_endpoint_read(q, *endpoint) && was_read(receive, q, 24, r),
        r matches Ok(bytes) ==> bytes.len() <= 24,
{
    let request = InterruptRead {
        address: endpoint.address,
        length: 24,
        timeout: Timeout::five_seconds(),
    };
    let r = receive_once(request, 24, receive);
    assert(is_endpoint_read(request, *endpoint) && was_read(receive, request, 24, r));
    r
}

/// The read that `read_report` makes: a standard request to an endpoint with
/// request code 9 and value `0x0200`, 28 bytes, within one second.
pub open spec fn is_report_read(request: ControlRead) -> bool {
    &&& request.request_type == request_type_of(
        Direction::Out,
        RequestKind::Standard,
        Recipient::Endpoint,
    )
    &&& request.request == SET_REPORT
    &&& request.value == OUTPUT_REPORT
    &&& request.index == 0
    &&& request.length == 28
    &&& request.timeout.in_millis() == 1000
}

/// The buffer of a read as the transport filled it, at the length that was
/// asked for: the count that the transport reports plays no part. (A buffer
/// that comes back longer is cut, one that comes back shorter is filled up
/// with zeros, so that the length is always the one asked for.)
pub open spec fn whole_buffer(buffer: Seq<u8>, asked: nat) -> Seq<u8> {
    Seq::new(
        asked,
        |i: int|
            if i < buffer.len() {
                buffer[i]
            } else {
                0u8
            },
    )
}

/// Gives the buffer of a read as it was filled, at the length asked for.
pub fn whole(filled: Filled, asked: usize) -> (r: Vec<u8>)
    ensures
        r@ == whole_buffer(filled.buffer@, asked as nat),
        r.len() == asked,
        filled.buffer.len() == asked ==> r@ == filled.buffer@,
{
    let ghost given = filled.buffer@;
    let mut bytes = filled.buffer;
    bytes.truncate(asked);
    while bytes.len() < asked
        invariant
            bytes.len() <= asked,
            given.len() <= bytes.len() || bytes.len() == asked,
            forall|i: int|
                0 <= i < bytes.len() ==> bytes@[i] == whole_buffer(given, asked as nat)[i],
        decreases asked - bytes.len(),
    {
        bytes.push(0);
    }
    assert(bytes@ =~= whole_buffer(given, asked as nat));
    assert(given.len() == asked ==> whole_buffer(given, asked as nat) =~= given);
    bytes
}

/// Whether `r` is what the one call of `receive`, with `request`, gave for a
/// read that hands back its whole buffer of `asked` bytes.
pub open spec fn was_filled<Q, F: FnOnce(Q) -> Result<Filled, TransportError>>(
    receive: F,
    request: Q,
    asked: nat,
    r: Result<Vec<u8>, TransferError>,
) -> bool {
    exists|raw: Result<Filled, TransportError>|
        call_ensures(receive, (request,), raw) && match raw {
            Ok(filled) => r matches Ok(bytes) && bytes@ == whole_buffer(filled.buffer@, asked),
            Err(error) => r matches Err(e) && e == TransferError::of(error),
        }
}

/// Reads a report over the control channel, once: 28 bytes, within one
/// second. On success the result is the whole buffer of 28 bytes as the
/// transport filled it, whatever count the transport reports.
pub fn read_report<F: FnOnce(ControlRead) -> Result<Filled, TransportError>>(receive: F) -> (r:
    Result<Vec<u8>, TransferError>)
    requires
        forall|q: ControlRead| is_report_read(q) ==> call_requires(receive, (q,)),
    ensures
        exists|q: ControlRead| is_report_read(q) && was_filled(receive, q, 28, r),
        r matches Ok(bytes) ==> bytes.len() == 28,
{
    let request = ControlRead {
        request_type: request_type(Direction::Out, RequestKind::Standard, Recipient::Endpoint),
        request: SET_REPORT,
        value: OUTPUT_REPORT,
        index: 0,
        length: 28,
        timeout: Timeout::one_second(),
    };
    assert(is_report_read(request));
    let raw = receive(request);
    let ghost answer = raw;
    let r = match raw {
        Ok(filled) => Ok(whole(filled, 28)),
        Err(error) => Err(TransferError::classify(error)),
    };
    assert(is_report_read(request) && was_filled(receive, request, 28, r));
    r
}

} // verus!
