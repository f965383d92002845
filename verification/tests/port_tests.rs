use android_usbser::cdc::Timeout;
use android_usbser::port::{err_map_to_serialport, err_unsupported_op};
use android_usbser::{
    DataBits, Error, ErrorKind, Parity, PortState, SerialConfig, SerialErrorKind, StopBits,
};

fn fresh() -> PortState {
    PortState::new(Timeout { secs: 0, nanos: 300_000_000 })
}

fn some_conf() -> SerialConfig {
    SerialConfig {
        baud_rate: 4800,
        parity: Parity::Even,
        data_bits: DataBits::Seven,
        stop_bits: StopBits::Two,
    }
}

#[test]
fn getters_before_configuration_fail_with_not_found() {
    let s = fresh();
    assert_eq!(s.dtr_rts, (false, false));
    let e = s.get_conf_for_serialport().unwrap_err();
    assert_eq!(e.kind, SerialErrorKind::Io(ErrorKind::NotFound));
    assert_eq!(e.description.as_deref(), Some("serial configuration haven't been set"));
    let msg = Some("serial configuration haven't been set");
    let e = s.baud_rate().unwrap_err();
    assert_eq!(e.kind, SerialErrorKind::Io(ErrorKind::NotFound));
    assert_eq!(e.description.as_deref(), msg);
    assert_eq!(s.parity().unwrap_err().description.as_deref(), msg);
    assert_eq!(s.data_bits().unwrap_err().description.as_deref(), msg);
    assert_eq!(s.stop_bits().unwrap_err().description.as_deref(), msg);
}

#[test]
fn configuration_is_kept_only_on_success() {
    let mut s = fresh();
    let c = some_conf();
    let failed = s.config_sent(c, Err(Error { kind: ErrorKind::NotConnected, message: None }));
    assert_eq!(failed.unwrap_err().kind, ErrorKind::NotConnected);
    assert!(s.ser_conf.is_none());
    assert!(s.config_sent(c, Ok(())).is_ok());
    assert_eq!(s.ser_conf, Some(c));
    assert_eq!(s.baud_rate().unwrap(), 4800);
    assert_eq!(s.parity().unwrap(), Parity::Even);
    assert_eq!(s.data_bits().unwrap(), DataBits::Seven);
    assert_eq!(s.stop_bits().unwrap(), StopBits::Two);
}

#[test]
fn setters_start_from_default_then_from_latest() {
    let mut s = fresh();
    let c = s.config_with_baud_rate(19200);
    assert_eq!(c, SerialConfig { baud_rate: 19200, ..SerialConfig::default() });
    s.config_sent(some_conf(), Ok(())).unwrap();
    assert_eq!(s.config_with_parity(Parity::Odd), SerialConfig { parity: Parity::Odd, ..some_conf() });
    assert_eq!(
        s.config_with_data_bits(DataBits::Five),
        SerialConfig { data_bits: DataBits::Five, ..some_conf() }
    );
    assert_eq!(
        s.config_with_stop_bits(StopBits::One),
        SerialConfig { stop_bits: StopBits::One, ..some_conf() }
    );
}

#[test]
fn four_setters_equal_one_configuration() {
    let target = some_conf();
    let mut s = fresh();
    let c = s.config_with_baud_rate(target.baud_rate);
    s.config_sent(c, Ok(())).unwrap();
    let c = s.config_with_parity(target.parity);
    s.config_sent(c, Ok(())).unwrap();
    let c = s.config_with_data_bits(target.data_bits);
    s.config_sent(c, Ok(())).unwrap();
    let c = s.config_with_stop_bits(target.stop_bits);
    s.config_sent(c, Ok(())).unwrap();
    assert_eq!(s.ser_conf, Some(target));
}

#[test]
fn line_states_keep_the_other_line() {
    let mut s = fresh();
    let (d, r) = s.dtr_rts_with_rts(true);
    assert_eq!((d, r), (false, true));
    s.dtr_rts_sent(d, r, Ok(())).unwrap();
    let (d, r) = s.dtr_rts_with_dtr(true);
    assert_eq!((d, r), (true, true));
    assert!(s.dtr_rts_sent(d, r, Err(Error { kind: ErrorKind::Other, message: None })).is_err());
    assert_eq!(s.dtr_rts, (false, true));
    s.dtr_rts_sent(d, r, Ok(())).unwrap();
    assert_eq!(s.dtr_rts, (true, true));
}

#[test]
fn timeout_is_kept() {
    let mut s = fresh();
    assert_eq!(s.timeout(), Timeout { secs: 0, nanos: 300_000_000 });
    s.set_timeout(Timeout { secs: 4, nanos: 0 });
    assert_eq!(s.timeout(), Timeout { secs: 4, nanos: 0 });
}

#[test]
fn errors_map_to_serialport_kinds() {
    let e = err_map_to_serialport(Error { kind: ErrorKind::NotConnected, message: None });
    assert_eq!(e.kind, SerialErrorKind::NoDevice);
    assert!(e.description.is_none());
    let e = err_map_to_serialport(Error {
        kind: ErrorKind::InvalidInput,
        message: Some("bad".to_string()),
    });
    assert_eq!(e.kind, SerialErrorKind::InvalidInput);
    assert_eq!(e.description.as_deref(), Some("bad"));
    let e = err_map_to_serialport(Error { kind: ErrorKind::Other, message: Some("x".to_string()) });
    assert_eq!(e.kind, SerialErrorKind::Io(ErrorKind::Other));
    let e = err_unsupported_op();
    assert_eq!(e.kind, SerialErrorKind::Io(ErrorKind::Unsupported));
    assert_eq!(e.description.as_deref(), Some("unsupported function in trait `Serialport`"));
}
