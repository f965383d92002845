use android_usbser::service::{
    android_main_event, check_flag_exit, initial_serial_config, serial_probe_loop,
    serial_probe_start, serial_probe_thread, start_serial_thread, stop_serial_thread,
    thread_delay_tick, DelayTick, MainEvent, ProbeAction, ProbeEvent, ProbeStage, ThreadControl,
};
use android_usbser::session::{parse_command, read_step, reply, Command, ReadStep};
use android_usbser::{DataBits, ErrorKind, Parity, SerialConfig, StopBits};

#[test]
fn stop_request_is_seen_once() {
    let mut c = ThreadControl::new();
    stop_serial_thread(&mut c);
    assert!(!c.flag_exit);
    assert!(start_serial_thread(&mut c));
    assert!(!start_serial_thread(&mut c));
    stop_serial_thread(&mut c);
    assert!(check_flag_exit(&mut c));
    assert!(!check_flag_exit(&mut c));
    serial_probe_thread(&mut c);
    assert!(!c.thread_running);
    assert!(start_serial_thread(&mut c));
}

#[test]
fn delay_ticks() {
    let mut c = ThreadControl::new();
    start_serial_thread(&mut c);
    assert_eq!(thread_delay_tick(&mut c, true), DelayTick::Sleep);
    assert_eq!(thread_delay_tick(&mut c, false), DelayTick::Elapsed);
    stop_serial_thread(&mut c);
    assert_eq!(thread_delay_tick(&mut c, false), DelayTick::Elapsed);
    assert!(c.flag_exit);
    assert_eq!(thread_delay_tick(&mut c, true), DelayTick::Aborted);
    assert!(!c.flag_exit);
}

#[test]
fn main_events() {
    let mut c = ThreadControl::new();
    assert_eq!(android_main_event(&mut c, MainEvent::Start), (true, false));
    assert_eq!(android_main_event(&mut c, MainEvent::Start), (false, false));
    assert_eq!(android_main_event(&mut c, MainEvent::Stop), (false, false));
    assert!(c.flag_exit);
    assert_eq!(android_main_event(&mut c, MainEvent::Other), (false, false));
    assert_eq!(android_main_event(&mut c, MainEvent::Destroy), (false, true));
}

#[test]
fn initial_config_is_115200_n_8_1() {
    assert_eq!(
        initial_serial_config(),
        SerialConfig {
            baud_rate: 115200,
            parity: Parity::NoParity,
            data_bits: DataBits::Eight,
            stop_bits: StopBits::One,
        }
    );
}

#[test]
fn probe_loop_walkthrough() {
    let (s, a) = serial_probe_start();
    assert_eq!((s, a), (ProbeStage::WaitBeforeProbe, ProbeAction::Delay(1000)));
    let (s, a) = serial_probe_loop(s, ProbeEvent::DelayDone(true));
    assert_eq!(a, ProbeAction::Probe);
    let (s, a) = serial_probe_loop(s, ProbeEvent::Probed(0));
    assert_eq!((s, a), (ProbeStage::WaitAfterEmpty, ProbeAction::Delay(1000)));
    let (s, a) = serial_probe_loop(s, ProbeEvent::DelayDone(true));
    assert_eq!((s, a), (ProbeStage::WaitBeforeProbe, ProbeAction::Delay(1000)));
    let (s, _) = serial_probe_loop(s, ProbeEvent::DelayDone(true));
    let (s, a) = serial_probe_loop(s, ProbeEvent::Probed(2));
    assert_eq!((s, a), (ProbeStage::Opening, ProbeAction::Open(0, 300)));
    let (s2, a2) = serial_probe_loop(s, ProbeEvent::Opened(false));
    assert_eq!((s2, a2), (ProbeStage::WaitBeforeProbe, ProbeAction::Delay(1000)));
    let (s, a) = serial_probe_loop(s, ProbeEvent::Opened(true));
    assert_eq!(a, ProbeAction::Configure(initial_serial_config()));
    let (s, a) = serial_probe_loop(s, ProbeEvent::Configured);
    assert_eq!((s, a), (ProbeStage::Serving, ProbeAction::Serve));
    let (s, a) = serial_probe_loop(s, ProbeEvent::SessionEnded);
    assert_eq!((s, a), (ProbeStage::WaitAfterSession, ProbeAction::Delay(1000)));
    let (s, a) = serial_probe_loop(s, ProbeEvent::DelayDone(false));
    assert_eq!((s, a), (ProbeStage::Finished, ProbeAction::Exit));
    let (s, a) = serial_probe_loop(ProbeStage::Serving, ProbeEvent::Probed(1));
    assert_eq!((s, a), (ProbeStage::Finished, ProbeAction::Exit));
}

#[test]
fn commands() {
    assert!(matches!(parse_command("  \n"), Command::Empty));
    match parse_command("conf 9600,E,7,2\n") {
        Command::Conf(c) => assert_eq!(
            c,
            SerialConfig {
                baud_rate: 9600,
                parity: Parity::Even,
                data_bits: DataBits::Seven,
                stop_bits: StopBits::Two
            }
        ),
        other => panic!("{other:?}"),
    }
    assert!(matches!(parse_command("conf\n"), Command::ConfMissing));
    match parse_command("  conf  96x0,N,8,1 extra\n") {
        Command::ConfInvalid(t) => assert_eq!(t, "96x0,N,8,1"),
        other => panic!("{other:?}"),
    }
    assert!(matches!(parse_command("rts 0\n"), Command::Rts(false)));
    assert!(matches!(parse_command("rts false"), Command::Rts(false)));
    assert!(matches!(parse_command("\trts\t1 x\n"), Command::Rts(true)));
    assert!(matches!(parse_command("rts true\r\n"), Command::Rts(true)));
    assert!(matches!(parse_command("rts 2\n"), Command::RtsInvalid));
    assert!(matches!(parse_command("rts\n"), Command::RtsInvalid));
    assert!(matches!(parse_command("hello world\n"), Command::Echo));
    assert!(matches!(parse_command("confx 1\n"), Command::Echo));
}

#[test]
fn replies() {
    let line = "hello, Straße\n";
    let echo = reply(&Command::Echo, line, false).unwrap();
    assert_eq!(echo, "HELLO, STRASSE\n");
    assert_eq!(reply(&Command::Rts(true), "rts 1\n", true).as_deref(), Some("Ok\n"));
    assert!(reply(&Command::Rts(true), "rts 1\n", false).is_none());
    assert!(reply(&Command::ConfMissing, "conf\n", true).is_none());
    assert!(reply(&Command::Empty, "\n", true).is_none());
}

#[test]
fn read_steps() {
    assert_eq!(read_step(None), ReadStep::Handle);
    assert_eq!(read_step(Some(ErrorKind::NotConnected)), ReadStep::End);
    assert_eq!(read_step(Some(ErrorKind::Other)), ReadStep::Retry);
}
