//! The state that a CDC-ACM serial port keeps beside its USB handles, and the
//! decisions of its `SerialPort` interface: the latest parameters and line
//! states, what each setter sends, and how errors are reported.

use vstd::prelude::*;
use crate::cdc::Timeout;
use crate::config::{default_config, DataBits, Parity, SerialConfig, StopBits};
use crate::error::{Error, ErrorKind};
use crate::private::Internal;

verus! {

/// Serial driver implementations inside this crate should implement this trait.
pub trait UsbSerial {
    /// Sets baudrate, parity check mode, data bits and stop bits.
    fn configure(&mut self, conf: &SerialConfig) -> Result<(), Error>;

    /// Seals the trait: only code that can name `Internal` implements it.
    fn sealer(internal: Internal);
}

/// The kinds of error of the `SerialPort` interface (`serialport::ErrorKind`).
#[derive(Clone, Copy, Debug, PartialEq, Eq, Structural)]
pub enum SerialErrorKind {
    NoDevice,
    InvalidInput,
    Unknown,
    Io(ErrorKind),
}

/// An error of the `SerialPort` interface (`serialport::Error`): a kind and a
/// description; without a description, the I/O error kind describes it.
#[derive(Debug)]
pub struct SerialError {
    pub kind: SerialErrorKind,
    pub description: Option<String>,
}

/// The `SerialPort` error kind for an I/O error kind.
pub open spec fn serial_kind_of(k: ErrorKind) -> SerialErrorKind {
    match k {
        ErrorKind::NotConnected => SerialErrorKind::NoDevice,
        ErrorKind::InvalidInput => SerialErrorKind::InvalidInput,
        _ => SerialErrorKind::Io(k),
    }
}

/// Reports an I/O error through the `SerialPort` interface: a disconnected
/// device is `NoDevice`, invalid input stays invalid input, any other kind is
/// passed on as an I/O error; the description is kept.
pub fn err_map_to_serialport(err: Error) -> (r: SerialError)
    ensures
        r.kind == serial_kind_of(err.kind),
        r.description == err.message,
{
    let kind = match err.kind {
        ErrorKind::NotConnected => SerialErrorKind::NoDevice,
        ErrorKind::InvalidInput => SerialErrorKind::InvalidInput,
        k => SerialErrorKind::Io(k),
    };
    SerialError { kind, description: err.message }
}

/// The error of the `SerialPort` functions that a CDC-ACM port does not support.
pub fn err_unsupported_op() -> (r: SerialError)
    ensures
        r.kind == SerialErrorKind::Io(ErrorKind::Unsupported),
        r.description matches Some(d) && d@ == "unsupported function in trait `Serialport`"@,
{
    let msg = "unsupported function in trait `Serialport`";
    err_map_to_serialport(
        Error { kind: ErrorKind::Unsupported, message: Some(String::from_str(msg)) },
    )
}

/// What the port keeps of its settings: the latest serial parameters (none
/// before the first successful configuration), the latest DTR and RTS states,
/// and the read and write timeout.
#[derive(Clone, Copy, Debug)]
pub struct PortState {
    pub ser_conf: Option<SerialConfig>,
    pub dtr_rts: (bool, bool),
    pub timeout: Timeout,
}

/// The parameters that a setter starts from: the latest ones, or the default.
pub open spec fn base_config(s: PortState) -> SerialConfig {
    match s.ser_conf {
        Some(c) => c,
        None => default_config(),
    }
}

/// The state after the device took the parameters `c`.
pub open spec fn config_recorded(s: PortState, c: SerialConfig) -> PortState {
    PortState { ser_conf: Some(c), ..s }
}

/// The state after the device took the DTR and RTS states.
pub open spec fn lines_recorded(s: PortState, dtr: bool, rts: bool) -> PortState {
    PortState { dtr_rts: (dtr, rts), ..s }
}

impl PortState {
    /// A port that has not been configured yet: no parameters, DTR and RTS off.
    pub fn new(timeout: Timeout) -> (s: PortState)
        ensures
            s.ser_conf is None,
            s.dtr_rts == (false, false),
            s.timeout == timeout,
    {
        PortState { ser_conf: None, dtr_rts: (false, false), timeout }
    }

    /// The latest parameters, or a `NotFound` error before any were set.
    pub fn get_conf_for_serialport(&self) -> (r: Result<SerialConfig, SerialError>)
        ensures
            match self.ser_conf {
                Some(c) => r matches Ok(rc) && rc == c,
                None => r matches Err(e) && e.kind == SerialErrorKind::Io(ErrorKind::NotFound) && (
                e.description matches Some(d) && d@ == "serial configuration haven't been set"@),
            },
    {
        match self.ser_conf {
            Some(c) => Ok(c),
            None => {
                let msg = "serial configuration haven't been set";
                Err(
                    SerialError {
                        kind: SerialErrorKind::Io(ErrorKind::NotFound),
                        description: Some(String::from_str(msg)),
                    },
                )
            },
        }
    }

    pub fn baud_rate(&self) -> (r: Result<u32, SerialError>)
        ensures
            match self.ser_conf {
                Some(c) => r matches Ok(v) && v == c.baud_rate,
                None => r matches Err(e) && e.kind == SerialErrorKind::Io(ErrorKind::NotFound) && (
                e.description matches Some(d) && d@ == "serial configuration haven't been set"@),
            },
    {
        Ok(self.get_conf_for_serialport()?.baud_rate)
    }

    pub fn data_bits(&self) -> (r: Result<DataBits, SerialError>)
        ensures
            match self.ser_conf {
                Some(c) => r matches Ok(v) && v == c.data_bits,
                None => r matches Err(e) && e.kind == SerialErrorKind::Io(ErrorKind::NotFound) && (
                e.description matches Some(d) && d@ == "serial configuration haven't been set"@),
            },
    {
        Ok(self.get_conf_for_serialport()?.data_bits)
    }

    pub fn parity(&self) -> (r: Result<Parity, SerialError>)
        ensures
            match self.ser_conf {
                Some(c) => r matches Ok(v) && v == c.parity,
                None => r matches Err(e) && e.kind == SerialErrorKind::Io(ErrorKind::NotFound) && (
                e.description matches Some(d) && d@ == "serial configuration haven't been set"@),
            },
    {
        Ok(self.get_conf_for_serialport()?.parity)
    }

    pub fn stop_bits(&self) -> (r: Result<StopBits, SerialError>)
        ensures
            match self.ser_conf {
                Some(c) => r matches Ok(v) && v == c.stop_bits,
                None => r matches Err(e) && e.kind == SerialErrorKind::Io(ErrorKind::NotFound) && (
                e.description matches Some(d) && d@ == "serial configuration haven't been set"@),
            },
    {
        Ok(self.get_conf_for_serialport()?.stop_bits)
    }

    fn base(&self) -> (c: SerialConfig)
        ensures
            c == base_config(*self),
    {
        match self.ser_conf {
            Some(c) => c,
            None => SerialConfig::default(),
        }
    }

    /// The parameters that `set_baud_rate` sends: the latest ones (or the
    /// default) with the new baud rate.
    pub fn config_with_baud_rate(&self, baud_rate: u32) -> (c: SerialConfig)
        ensures
            c == (SerialConfig { baud_rate, ..base_config(*self) }),
    {
        let mut conf = self.base();
        conf.baud_rate = baud_rate;
        conf
    }

    /// The parameters that `set_data_bits` sends.
    pub fn config_with_data_bits(&self, data_bits: DataBits) -> (c: SerialConfig)
        ensures
            c == (SerialConfig { data_bits, ..base_config(*self) }),
    {
        let mut conf = self.base();
        conf.data_bits = data_bits;
        conf
    }

    /// The parameters that `set_parity` sends.
    pub fn config_with_parity(&self, parity: Parity) -> (c: SerialConfig)
        ensures
            c == (SerialConfig { parity, ..base_config(*self) }),
    {
        let mut conf = self.base();
        conf.parity = parity;
        conf
    }

    /// The parameters that `set_stop_bits` sends.
    pub fn config_with_stop_bits(&self, stop_bits: StopBits) -> (c: SerialConfig)
        ensures
            c == (SerialConfig { stop_bits, ..base_config(*self) }),
    {
        let mut conf = self.base();
        conf.stop_bits = stop_bits;
        conf
    }

    /// Records the outcome of sending `conf` with `SET_LINE_CODING`: the
    /// parameters are kept only when the device took them.
    pub fn config_sent(&mut self, conf: SerialConfig, result: Result<(), Error>) -> (r: Result<
        (),
        Error,
    >)
        ensures
            r == result,
            result is Ok ==> *final(self) == config_recorded(*old(self), conf),
            result is Err ==> *final(self) == *old(self),
    {
        if result.is_ok() {
            self.ser_conf = Some(conf);
        }
        result
    }

    /// The DTR and RTS states that `write_request_to_send(value)` sends: RTS
    /// changes, DTR stays.
    pub fn dtr_rts_with_rts(&self, value: bool) -> (r: (bool, bool))
        ensures
            r == (self.dtr_rts.0, value),
    {
        (self.dtr_rts.0, value)
    }

    /// The DTR and RTS states that `write_data_terminal_ready(value)` sends:
    /// DTR changes, RTS stays.
    pub fn dtr_rts_with_dtr(&self, value: bool) -> (r: (bool, bool))
        ensures
            r == (value, self.dtr_rts.1),
    {
        (value, self.dtr_rts.1)
    }

    /// Records the outcome of sending the DTR and RTS states with
    /// `SET_CONTROL_LINE_STATE`: they are kept only when the device took them.
    pub fn dtr_rts_sent(&mut self, dtr: bool, rts: bool, result: Result<(), Error>) -> (r: Result<
        (),
        Error,
    >)
        ensures
            r == result,
            result is Ok ==> *final(self) == lines_recorded(*old(self), dtr, rts),
            result is Err ==> *final(self) == *old(self),
    {
        if result.is_ok() {
            self.dtr_rts = (dtr, rts);
        }
        result
    }

    /// Sets the read and write timeout.
    pub fn set_timeout(&mut self, timeout: Timeout)
        ensures
            final(self).timeout == timeout,
            final(self).ser_conf == old(self).ser_conf,
            final(self).dtr_rts == old(self).dtr_rts,
    {
        self.timeout = timeout;
    }

    /// The read and write timeout.
    pub fn timeout(&self) -> (t: Timeout)
        ensures
            t == self.timeout,
    {
        self.timeout
    }
}


/// Setting baud rate, parity, data bits and stop bits one after another
/// through the `SerialPort` setters, each taken by the device, leaves the port
/// with the same parameters as one `set_config` of all four.
pub proof fn lemma_setters_compose(s: PortState, c: SerialConfig)
    ensures
        ({
            let s1 = config_recorded(s, SerialConfig { baud_rate: c.baud_rate, ..base_config(s) });
            let s2 = config_recorded(s1, SerialConfig { parity: c.parity, ..base_config(s1) });
            let s3 = config_recorded(s2, SerialConfig { data_bits: c.data_bits, ..base_config(s2) });
            let s4 = config_recorded(
                s3,
                SerialConfig { stop_bits: c.stop_bits, ..base_config(s3) },
            );
            s4 == config_recorded(s, c)
        }),
{
}

/// Writing RTS and then DTR gives the same line states as writing DTR and
/// then RTS: each write keeps the other line.
pub proof fn lemma_line_writes_commute(s: PortState, dtr: bool, rts: bool)
    ensures
        ({
            let a1 = lines_recorded(s, s.dtr_rts.0, rts);
            let a2 = lines_recorded(a1, dtr, a1.dtr_rts.1);
            let b1 = lines_recorded(s, dtr, s.dtr_rts.1);
            let b2 = lines_recorded(b1, b1.dtr_rts.0, rts);
            a2 == b2 && a2 == lines_recorded(s, dtr, rts)
        }),
{
}

/// Once parameters are taken by the device, the getters and the next setter
/// start from them; the parameters and the line states are kept apart: a
/// line write never changes the parameters, a parameter write never changes
/// the lines.
pub proof fn lemma_config_read_back(s: PortState, c: SerialConfig, dtr: bool, rts: bool)
    ensures
        config_recorded(s, c).ser_conf == Some(c),
        base_config(config_recorded(s, c)) == c,
        config_recorded(s, c).dtr_rts == s.dtr_rts,
        lines_recorded(s, dtr, rts).ser_conf == s.ser_conf,
        base_config(lines_recorded(s, dtr, rts)) == base_config(s),
{
}

} // verus!
