use android_usbser::{DataBits, ErrorKind, Parity, SerialConfig, StopBits};

fn conf(baud_rate: u32, parity: Parity, data_bits: DataBits, stop_bits: StopBits) -> SerialConfig {
    SerialConfig { baud_rate, parity, data_bits, stop_bits }
}

#[test]
fn default_is_9600_n_8_1() {
    let c = SerialConfig::default();
    assert_eq!(c, conf(9600, Parity::NoParity, DataBits::Eight, StopBits::One));
}

#[test]
fn line_coding_of_default() {
    let c = SerialConfig::default();
    assert_eq!(c.line_coding_bytes(), [0x80, 0x25, 0x00, 0x00, 0x00, 0x00, 0x08]);
}

#[test]
fn line_coding_of_odd_two_stop_bits() {
    let c = conf(0x0102_0304, Parity::Odd, DataBits::Five, StopBits::Two);
    assert_eq!(c.line_coding_bytes(), [0x04, 0x03, 0x02, 0x01, 0x02, 0x01, 0x05]);
    let c = conf(115200, Parity::Even, DataBits::Seven, StopBits::One);
    assert_eq!(c.line_coding_bytes(), [0x00, 0xC2, 0x01, 0x00, 0x00, 0x02, 0x07]);
}

#[test]
fn display_form() {
    assert_eq!(SerialConfig::default().to_string(), "9600,N,8,1");
    assert_eq!(conf(0, Parity::Odd, DataBits::Five, StopBits::Two).to_string(), "0,O,5,2");
    assert_eq!(
        conf(u32::MAX, Parity::Even, DataBits::Six, StopBits::One).to_string(),
        "4294967295,E,6,1"
    );
}

#[test]
fn parse_plain() {
    let c = SerialConfig::from_str("115200,N,8,1").unwrap();
    assert_eq!(c, conf(115200, Parity::NoParity, DataBits::Eight, StopBits::One));
    let c = SerialConfig::from_str("9600,E,7,2").unwrap();
    assert_eq!(c, conf(9600, Parity::Even, DataBits::Seven, StopBits::Two));
}

#[test]
fn parse_through_from_str_trait() {
    let c: SerialConfig = "57600,O,6,1".parse().unwrap();
    assert_eq!(c, conf(57600, Parity::Odd, DataBits::Six, StopBits::One));
}

#[test]
fn parse_trims_fields_and_reads_loosely() {
    let c = SerialConfig::from_str(" 1200 ,\tNone, +05 ,  1.0 ").unwrap();
    assert_eq!(c, conf(1200, Parity::NoParity, DataBits::Five, StopBits::One));
    let c = SerialConfig::from_str("+300,Odd,0008,2.").unwrap();
    assert_eq!(c, conf(300, Parity::Odd, DataBits::Eight, StopBits::Two));
    let c = SerialConfig::from_str("300,E,8,1e0,ignored").unwrap();
    assert_eq!(c, conf(300, Parity::Even, DataBits::Eight, StopBits::One));
    let c = SerialConfig::from_str("300,E,8,.2E1").unwrap();
    assert_eq!(c.stop_bits, StopBits::Two);
    let c = SerialConfig::from_str("300,E,8,\u{3000}10e-1\u{a0}").unwrap();
    assert_eq!(c.stop_bits, StopBits::One);
}

#[test]
fn parse_errors_carry_the_text() {
    for bad in [
        "",
        "9600",
        "9600,N",
        "9600,N,8",
        "9600,N,8,",
        "9600,,8,1",
        "9600,X,8,1",
        "9600,n,8,1",
        "9600,N,4,1",
        "9600,N,9,1",
        "9600,N,-8,1",
        "9600,N,8,1.5",
        "9600,N,8,-1",
        "9600,N,8,inf",
        "9600,N,8,e1",
        "9600,N,8,1e",
        "-9600,N,8,1",
        "4294967296,N,8,1",
        "96 00,N,8,1",
        ",N,8,1",
        "+,N,8,1",
    ] {
        let e = SerialConfig::from_str(bad).unwrap_err();
        assert_eq!(e.kind, ErrorKind::InvalidInput, "{bad:?}");
        assert_eq!(e.message.as_deref(), Some(bad));
    }
}

#[test]
fn parse_largest_baud_rate() {
    let c = SerialConfig::from_str("4294967295,N,8,1").unwrap();
    assert_eq!(c.baud_rate, u32::MAX);
    let c = SerialConfig::from_str("0000000000000000000000009600,N,8,1").unwrap();
    assert_eq!(c.baud_rate, 9600);
}

#[test]
fn stop_bits_follow_f64_rounding() {
    // Texts whose nearest f64 is 1.0 or 2.0, and neighbours whose nearest is not.
    let one = [
        "1",
        "0001",
        "1.000",
        "0.1e1",
        "100e-2",
        "0.999999999999999944488848768742172978818416595458984375",
        "1.00000000000000011102230246251565404236316680908203125",
        "0.99999999999999995",
        "1.0000000000000001",
    ];
    let two = [
        "2",
        "2.0000000000000002220446049250313080847263336181640625",
        "1.99999999999999988897769753748434595763683319091796875",
        "20000000000000000000000000000000e-31",
    ];
    let neither = [
        "0.99999999999999994448884876874217297881841659545898437",
        "1.000000000000000111022302462515654042363166809082031251",
        "1.0000000000000002",
        "1.9999999999999998",
        "2.000000000000000222044604925031308084726333618164062501",
        "0",
        "0e0",
        "10",
        "1e1",
        "3",
        "nan",
        "-1",
    ];
    for s in one {
        let c = SerialConfig::from_str(&format!("9600,N,8,{s}")).unwrap();
        assert_eq!(c.stop_bits, StopBits::One, "{s}");
        assert_eq!(s.parse::<f64>().unwrap(), 1.0, "{s}");
    }
    for s in two {
        let c = SerialConfig::from_str(&format!("9600,N,8,{s}")).unwrap();
        assert_eq!(c.stop_bits, StopBits::Two, "{s}");
        assert_eq!(s.parse::<f64>().unwrap(), 2.0, "{s}");
    }
    for s in neither {
        assert!(SerialConfig::from_str(&format!("9600,N,8,{s}")).is_err(), "{s}");
        let v = s.parse::<f64>();
        assert!(!matches!(v, Ok(x) if x == 1.0 || x == 2.0), "{s}");
    }
}

#[test]
fn stop_bits_agree_with_f64_on_many_texts() {
    let mut texts: Vec<String> = Vec::new();
    for mant in ["1", "2", "10", "20", "0.1", "0.2", "01", "1.", ".1", "1.5", "19", "0.0", "00"] {
        for exp in ["", "e0", "e1", "e-1", "E+1", "e-0", "e", "e+"] {
            for sign in ["", "+", "-"] {
                texts.push(format!("{sign}{mant}{exp}"));
            }
        }
    }
    for t in texts {
        let ours = SerialConfig::from_str(&format!("9600,N,8,{t}")).ok().map(|c| c.stop_bits);
        let std = match t.parse::<f64>() {
            Ok(v) if v == 1.0 => Some(StopBits::One),
            Ok(v) if v == 2.0 => Some(StopBits::Two),
            _ => None,
        };
        assert_eq!(ours, std, "{t}");
    }
}

#[test]
fn text_roundtrip_on_every_variant() {
    for parity in [Parity::NoParity, Parity::Odd, Parity::Even] {
        for data_bits in [DataBits::Five, DataBits::Six, DataBits::Seven, DataBits::Eight] {
            for stop_bits in [StopBits::One, StopBits::Two] {
                for baud_rate in [0u32, 7, 110, 9600, 115200, 921600, u32::MAX] {
                    let c = conf(baud_rate, parity, data_bits, stop_bits);
                    assert_eq!(SerialConfig::from_str(&c.to_string()).unwrap(), c);
                }
            }
        }
    }
}
