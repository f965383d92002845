//! Android USB serial driver logic for CDC-ACM devices: serial parameters and
//! their text form, the CDC class requests, recognizing an adapter, the state
//! behind the `SerialPort` interface, and the decisions of the test programs.

pub mod cdc;
pub mod config;
pub mod config_text;
pub mod digits;
pub mod error;
pub mod float_text;
pub mod port;
pub mod private;
pub mod service;
pub mod session;
pub mod text;
pub mod usb;

pub use config::{DataBits, Parity, SerialConfig, StopBits};
pub use error::{Error, ErrorKind};
pub use port::{PortState, SerialError, SerialErrorKind, UsbSerial};
