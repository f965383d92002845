//! The CDC-ACM class requests that configure a serial adapter
//! (*USB Class Definitions for Communication Devices 1.1*, 6.2.13),
//! the mapping of transfer errors, and the control transfer timeout.

use vstd::prelude::*;
use crate::config::{line_coding, SerialConfig};
use crate::error::{Error, ErrorKind};
use nusb::transfer::TransferError;

verus! {

/// Interface class of a Communication Interface.
pub const USB_INTR_CLASS_COMM: u8 = 0x02;
/// Interface subclass of the Abstract Control Model.
pub const USB_INTR_SUBCLASS_ACM: u8 = 0x02;
/// Interface class of a CDC Data Interface.
pub const USB_INTR_CLASS_CDC_DATA: u8 = 0x0A;

/// `SET_LINE_CODING` request code.
pub const SET_LINE_CODING: u8 = 0x20;
/// `SET_CONTROL_LINE_STATE` request code.
pub const SET_CONTROL_LINE_STATE: u8 = 0x22;
/// `SEND_BREAK` request code.
pub const SEND_BREAK: u8 = 0x23;

/// The type field of `bmRequestType`.
#[derive(Clone, Copy, Debug, PartialEq, Eq, Structural)]
pub enum ControlType {
    Standard,
    Class,
    Vendor,
}

/// The recipient field of `bmRequestType`.
#[derive(Clone, Copy, Debug, PartialEq, Eq, Structural)]
pub enum Recipient {
    Device,
    Interface,
    Endpoint,
    Other,
}

/// A host-to-device control request.
#[derive(Debug)]
pub struct ControlRequest {
    pub control_type: ControlType,
    pub recipient: Recipient,
    pub request: u8,
    pub value: u16,
    pub index: u16,
    pub data: Vec<u8>,
}

/// A class request to the communication interface `index`.
pub open spec fn is_class_request(r: ControlRequest, index: u16, request: u8, value: u16, data: Seq<
    u8,
>) -> bool {
    &&& r.control_type == ControlType::Class
    &&& r.recipient == Recipient::Interface
    &&& r.index == index
    &&& r.request == request
    &&& r.value == value
    &&& r.data@ == data
}

/// `wValue` of `SET_CONTROL_LINE_STATE`: bit 0 is DTR, bit 1 is RTS.
pub open spec fn control_line_state_value(dtr: bool, rts: bool) -> u16 {
    ((if dtr {
        1int
    } else {
        0int
    }) + (if rts {
        2int
    } else {
        0int
    })) as u16
}

/// `wValue` of `SEND_BREAK`: 0xFFFF holds the break until the next request, 0 ends it.
pub open spec fn break_value(on: bool) -> u16 {
    if on {
        0xffff
    } else {
        0
    }
}

/// `SET_LINE_CODING` with the line coding of `conf`.
pub fn line_coding_request(index: u16, conf: &SerialConfig) -> (r: ControlRequest)
    ensures
        is_class_request(r, index, SET_LINE_CODING, 0, line_coding(*conf)),
{
    let bytes = conf.line_coding_bytes();
    let mut data: Vec<u8> = Vec::new();
    let mut i: usize = 0;
    while i < 7
        invariant
            i <= 7,
            bytes@.len() == 7,
            data@ =~= bytes@.take(i as int),
        decreases 7 - i,
    {
        data.push(bytes[i]);
        i = i + 1;
    }
    assert(bytes@.take(7) =~= bytes@);
    ControlRequest {
        control_type: ControlType::Class,
        recipient: Recipient::Interface,
        request: SET_LINE_CODING,
        value: 0,
        index,
        data,
    }
}

/// `SET_CONTROL_LINE_STATE` with the DTR and RTS states.
pub fn control_line_state_request(index: u16, dtr: bool, rts: bool) -> (r: ControlRequest)
    ensures
        is_class_request(
            r,
            index,
            SET_CONTROL_LINE_STATE,
            control_line_state_value(dtr, rts),
            Seq::empty(),
        ),
{
    let val_dtr: u16 = if dtr {
        0x1
    } else {
        0x0
    };
    let val_rts: u16 = if rts {
        0x2
    } else {
        0x0
    };
    let val = val_dtr | val_rts;
    assert(val == val_dtr + val_rts) by (bit_vector)
        requires
            val_dtr == 0 || val_dtr == 1,
            val_rts == 0 || val_rts == 2,
            val == val_dtr | val_rts,
    ;
    let r = ControlRequest {
        control_type: ControlType::Class,
        recipient: Recipient::Interface,
        request: SET_CONTROL_LINE_STATE,
        value: val,
        index,
        data: Vec::new(),
    };
    assert(r.data@ =~= Seq::<u8>::empty());
    r
}

/// `SEND_BREAK` that starts (`on`) or ends the break state.
pub fn send_break_request(index: u16, on: bool) -> (r: ControlRequest)
    ensures
        is_class_request(r, index, SEND_BREAK, break_value(on), Seq::empty()),
{
    let val: u16 = if on {
        0xffff
    } else {
        0
    };
    let r = ControlRequest {
        control_type: ControlType::Class,
        recipient: Recipient::Interface,
        request: SEND_BREAK,
        value: val,
        index,
        data: Vec::new(),
    };
    assert(r.data@ =~= Seq::<u8>::empty());
    r
}

/// The DTR and RTS states can be read back from the `SET_CONTROL_LINE_STATE`
/// value: different states never share a value.
pub proof fn lemma_control_line_state_injective(d1: bool, r1: bool, d2: bool, r2: bool)
    requires
        control_line_state_value(d1, r1) == control_line_state_value(d2, r2),
    ensures
        d1 == d2,
        r1 == r2,
{
}


/// Why a transfer failed, as `nusb::transfer::TransferError` tells it.
#[derive(Clone, Copy, Debug, PartialEq, Eq, Structural)]
pub enum TransferFailure {
    Cancelled,
    Stall,
    Disconnected,
    Fault,
    InvalidArgument,
    Unknown(u32),
}

/// The text that `nusb` shows for a transfer error, for the errors whose text
/// does not depend on the platform.
pub open spec fn transfer_failure_text(e: TransferFailure) -> Option<Seq<char>> {
    match e {
        TransferFailure::Cancelled => Some("transfer was cancelled"@),
        TransferFailure::Stall => Some("endpoint stalled"@),
        TransferFailure::Disconnected => Some("device disconnected"@),
        TransferFailure::Fault => Some("hardware fault or protocol violation"@),
        TransferFailure::InvalidArgument => Some("invalid or unsupported argument"@),
        TransferFailure::Unknown(_) => None,
    }
}

/// The form of the text of an `Unknown` transfer error: `"unknown ("`, the
/// OS error code in a platform's own form, and `")"`.
pub open spec fn is_unknown_error_text(s: Seq<char>) -> bool {
    &&& s.len() >= 10
    &&& s.take(9) == "unknown ("@
    &&& s.last() == ')'
}

/// `Display` of `nusb::transfer::TransferError`. Its source writes a fixed
/// text for each error but `Unknown`, whose text is `"unknown ("`, the OS
/// error code and `")"`; the code is written in a form that differs between
/// platforms (and not at all on some), so of it only that frame is stated.
#[verifier::external_body]
fn transfer_error_display(e: TransferFailure) -> (s: String)
    ensures
        transfer_failure_text(e) matches Some(t) ==> s@ == t,
        e is Unknown ==> is_unknown_error_text(s@),
{
    let err = match e {
        TransferFailure::Cancelled => TransferError::Cancelled,
        TransferFailure::Stall => TransferError::Stall,
        TransferFailure::Disconnected => TransferError::Disconnected,
        TransferFailure::Fault => TransferError::Fault,
        TransferFailure::InvalidArgument => TransferError::InvalidArgument,
        TransferFailure::Unknown(code) => TransferError::Unknown(code),
    };
    err.to_string()
}

/// The I/O error of a failed control transfer: `NotConnected` when the device
/// is gone, otherwise `Other` carrying the transfer error's text.
pub fn transfer_error_to_io(e: TransferFailure) -> (r: Error)
    ensures
        e == TransferFailure::Disconnected ==> r.kind == ErrorKind::NotConnected && r.message is None,
        e != TransferFailure::Disconnected ==> r.kind == ErrorKind::Other && r.message is Some,
        e != TransferFailure::Disconnected ==> (transfer_failure_text(e) matches Some(t) ==> r.message->0@ == t),
        e is Unknown ==> is_unknown_error_text(r.message->0@),
{
    match e {
        TransferFailure::Disconnected => Error { kind: ErrorKind::NotConnected, message: None },
        _ => Error { kind: ErrorKind::Other, message: Some(transfer_error_display(e)) },
    }
}

/// A duration of `secs` seconds and `nanos` nanoseconds (`nanos` below one second).
#[derive(Clone, Copy, Debug, PartialEq, Eq, Structural)]
pub struct Timeout {
    pub secs: u64,
    pub nanos: u32,
}

pub open spec fn total_nanos(t: Timeout) -> int {
    t.secs * 1_000_000_000 + t.nanos
}

/// The timeout of a control transfer: twice the read and write timeout, or
/// `None` where that is longer than the longest duration.
pub fn control_timeout(t: Timeout) -> (r: Option<Timeout>)
    requires
        t.nanos < 1_000_000_000,
    ensures
        match r {
            Some(d) => d.nanos < 1_000_000_000 && total_nanos(d) == 2 * total_nanos(t),
            None => 2 * total_nanos(t) >= (u64::MAX + 1) * 1_000_000_000,
        },
{
    let total: u64 = t.nanos as u64 * 2;
    let extra = total / 1_000_000_000;
    let nanos = (total % 1_000_000_000) as u32;
    if t.secs > (u64::MAX - extra) / 2 {
        return None;
    }
    Some(Timeout { secs: t.secs * 2 + extra, nanos })
}

} // verus!
