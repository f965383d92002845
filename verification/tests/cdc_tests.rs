use android_usbser::cdc::{
    control_line_state_request, control_timeout, line_coding_request, send_break_request,
    transfer_error_to_io, ControlType, Recipient, Timeout, TransferFailure, SEND_BREAK,
    SET_CONTROL_LINE_STATE, SET_LINE_CODING,
};
use android_usbser::{DataBits, ErrorKind, Parity, SerialConfig, StopBits};

#[test]
fn line_coding_request_carries_the_parameters() {
    let c = SerialConfig {
        baud_rate: 115200,
        parity: Parity::NoParity,
        data_bits: DataBits::Eight,
        stop_bits: StopBits::One,
    };
    let r = line_coding_request(3, &c);
    assert_eq!(r.control_type, ControlType::Class);
    assert_eq!(r.recipient, Recipient::Interface);
    assert_eq!(r.request, SET_LINE_CODING);
    assert_eq!(r.request, 0x20);
    assert_eq!(r.value, 0);
    assert_eq!(r.index, 3);
    assert_eq!(r.data, vec![0x00, 0xC2, 0x01, 0x00, 0x00, 0x00, 0x08]);
}

#[test]
fn control_line_state_values() {
    for (dtr, rts, v) in [(false, false, 0u16), (true, false, 1), (false, true, 2), (true, true, 3)] {
        let r = control_line_state_request(1, dtr, rts);
        assert_eq!(r.request, SET_CONTROL_LINE_STATE);
        assert_eq!(r.request, 0x22);
        assert_eq!(r.value, v);
        assert_eq!(r.index, 1);
        assert!(r.data.is_empty());
    }
}

#[test]
fn break_values() {
    let on = send_break_request(0, true);
    assert_eq!(on.request, SEND_BREAK);
    assert_eq!(on.request, 0x23);
    assert_eq!(on.value, 0xffff);
    let off = send_break_request(0, false);
    assert_eq!(off.value, 0);
    assert!(off.data.is_empty());
}

#[test]
fn transfer_errors_map_to_io_errors() {
    let e = transfer_error_to_io(TransferFailure::Disconnected);
    assert_eq!(e.kind, ErrorKind::NotConnected);
    assert!(e.message.is_none());
    let e = transfer_error_to_io(TransferFailure::Stall);
    assert_eq!(e.kind, ErrorKind::Other);
    assert_eq!(e.message.as_deref(), Some("endpoint stalled"));
    let e = transfer_error_to_io(TransferFailure::Cancelled);
    assert_eq!(e.message.as_deref(), Some("transfer was cancelled"));
    let e = transfer_error_to_io(TransferFailure::Fault);
    assert_eq!(e.message.as_deref(), Some("hardware fault or protocol violation"));
    let e = transfer_error_to_io(TransferFailure::InvalidArgument);
    assert_eq!(e.message.as_deref(), Some("invalid or unsupported argument"));
    let e = transfer_error_to_io(TransferFailure::Unknown(5));
    assert_eq!(e.kind, ErrorKind::Other);
    let m = e.message.unwrap();
    assert!(m.starts_with("unknown ("));
    assert!(m.ends_with(')'));
    assert!(m.len() >= 10);
}

#[test]
fn control_timeout_doubles() {
    let t = control_timeout(Timeout { secs: 0, nanos: 300_000_000 }).unwrap();
    assert_eq!(t, Timeout { secs: 0, nanos: 600_000_000 });
    let t = control_timeout(Timeout { secs: 2, nanos: 700_000_000 }).unwrap();
    assert_eq!(t, Timeout { secs: 5, nanos: 400_000_000 });
    let t = control_timeout(Timeout { secs: u64::MAX / 2, nanos: 499_999_999 }).unwrap();
    assert_eq!(t, Timeout { secs: u64::MAX - 1, nanos: 999_999_998 });
    assert!(control_timeout(Timeout { secs: u64::MAX / 2, nanos: 500_000_000 }).is_some());
    assert!(control_timeout(Timeout { secs: u64::MAX / 2 + 1, nanos: 0 }).is_none());
    let d = std::time::Duration::new(u64::MAX / 2, 500_000_000) * 2;
    assert_eq!(d.as_secs(), u64::MAX);
}
