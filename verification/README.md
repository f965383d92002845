# android_usbser

A USB serial driver for CDC-ACM adapters, written as a verified Verus library
(`src/`) and a thin layer of USB and serial-port plumbing (`app/`).

`src/` holds everything that decides:

- `config`, `config_text`, `float_text`, `text`, `digits`: the serial
  parameters, their CDC line coding, and their text form such as
  `"115200,N,8,1"` (written and read back; the stop-bits field is read as a
  decimal floating-point number and accepted when it rounds to 1.0 or 2.0);
- `cdc`: the `SET_LINE_CODING`, `SET_CONTROL_LINE_STATE` and `SEND_BREAK`
  requests, transfer errors and the control timeout;
- `usb`: which devices are CDC-ACM adapters and which endpoints to use;
- `port`: the settings a port keeps and how its `SerialPort` functions use them;
- `service`, `session`: the thread control, probing loop and line commands of
  the test programs.

`app/` performs the USB transfers with `nusb`, implements `Read`, `Write` and
`serialport::SerialPort` for `CdcSerial`, and runs the test programs.
