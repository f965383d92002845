//! The decisions of the Android test program: starting and stopping its
//! serial thread, the waits that a stop request cuts short, and the loop that
//! probes for an adapter, opens and configures it and serves it.

use vstd::prelude::*;
use crate::config::{DataBits, Parity, SerialConfig, StopBits};
use crate::config_text::{config_text, lemma_text_roundtrip, parse_config};
use crate::text::decimal_text;

verus! {

/// The shared state of the program's main thread and its serial thread: is
/// a serial thread running, and has it been asked to exit.
#[derive(Clone, Copy, Debug, PartialEq, Eq, Structural)]
pub struct ThreadControl {
    pub thread_running: bool,
    pub flag_exit: bool,
}

impl ThreadControl {
    /// No serial thread, no exit request.
    pub fn new() -> (c: ThreadControl)
        ensures
            !c.thread_running,
            !c.flag_exit,
    {
        ThreadControl { thread_running: false, flag_exit: false }
    }
}

/// The state after a start: a serial thread runs.
pub open spec fn after_start(c: ThreadControl) -> ThreadControl {
    ThreadControl { thread_running: true, ..c }
}

/// The state after a stop request: a running thread is asked to exit.
pub open spec fn after_stop(c: ThreadControl) -> ThreadControl {
    if c.thread_running {
        ThreadControl { flag_exit: true, ..c }
    } else {
        c
    }
}

/// The state after the serial thread took the exit request.
pub open spec fn after_check(c: ThreadControl) -> ThreadControl {
    ThreadControl { flag_exit: false, ..c }
}

/// Starts the serial thread unless one runs: returns whether to spawn it.
pub fn start_serial_thread(ctrl: &mut ThreadControl) -> (spawn: bool)
    ensures
        spawn == !old(ctrl).thread_running,
        *final(ctrl) == after_start(*old(ctrl)),
{
    if !ctrl.thread_running {
        ctrl.thread_running = true;
        true
    } else {
        false
    }
}

/// Asks a running serial thread to exit.
pub fn stop_serial_thread(ctrl: &mut ThreadControl)
    ensures
        *final(ctrl) == after_stop(*old(ctrl)),
{
    if ctrl.thread_running {
        ctrl.flag_exit = true;
    }
}

/// Takes an exit request: returns whether there was one, and clears it.
pub fn check_flag_exit(ctrl: &mut ThreadControl) -> (exit: bool)
    ensures
        exit == old(ctrl).flag_exit,
        *final(ctrl) == after_check(*old(ctrl)),
{
    if ctrl.flag_exit {
        ctrl.flag_exit = false;
        true
    } else {
        false
    }
}

/// The serial thread has left its loop: it is no longer running.
pub fn serial_probe_thread(ctrl: &mut ThreadControl)
    requires
        old(ctrl).thread_running,
    ensures
        !final(ctrl).thread_running,
        final(ctrl).flag_exit == old(ctrl).flag_exit,
{
    ctrl.thread_running = false;
}

/// One look at the clock during a wait.
#[derive(Clone, Copy, Debug, PartialEq, Eq, Structural)]
pub enum DelayTick {
    /// The wait is over: go on.
    Elapsed,
    /// An exit request came: leave.
    Aborted,
    /// Sleep a little and look again.
    Sleep,
}

/// A step of `thread_delay_ms`: before the deadline an exit request ends the
/// wait; at or after the deadline the wait is over.
pub fn thread_delay_tick(ctrl: &mut ThreadControl, before_deadline: bool) -> (t: DelayTick)
    ensures
        !before_deadline ==> t == DelayTick::Elapsed && *final(ctrl) == *old(ctrl),
        before_deadline ==> t == (if old(ctrl).flag_exit {
            DelayTick::Aborted
        } else {
            DelayTick::Sleep
        }) && *final(ctrl) == after_check(*old(ctrl)),
{
    if !before_deadline {
        return DelayTick::Elapsed;
    }
    if check_flag_exit(ctrl) {
        DelayTick::Aborted
    } else {
        DelayTick::Sleep
    }
}

/// An event of the Android activity.
#[derive(Clone, Copy, Debug, PartialEq, Eq, Structural)]
pub enum MainEvent {
    Start,
    Stop,
    Destroy,
    Other,
}

/// What the activity's main loop does for an event: `Start` starts the
/// serial thread (returns `true` when one must be spawned), `Stop` asks it to
/// exit, `Destroy` ends the main loop (the second result).
pub fn android_main_event(ctrl: &mut ThreadControl, event: MainEvent) -> (r: (bool, bool))
    ensures
        event == MainEvent::Start ==> r == (!old(ctrl).thread_running, false) && *final(ctrl)
            == after_start(*old(ctrl)),
        event == MainEvent::Stop ==> r == (false, false) && *final(ctrl) == after_stop(*old(ctrl)),
        event == MainEvent::Destroy ==> r == (false, true) && *final(ctrl) == *old(ctrl),
        event == MainEvent::Other ==> r == (false, false) && *final(ctrl) == *old(ctrl),
{
    match event {
        MainEvent::Start => (start_serial_thread(ctrl), false),
        MainEvent::Stop => {
            stop_serial_thread(ctrl);
            (false, false)
        },
        MainEvent::Destroy => (false, true),
        MainEvent::Other => (false, false),
    }
}

/// A stop request reaches a running serial thread exactly once: the next
/// look at the exit flag sees it, the look after that does not.
pub proof fn lemma_stop_seen_once(c: ThreadControl)
    requires
        c.thread_running,
    ensures
        after_stop(c).flag_exit,
        !after_check(after_stop(c)).flag_exit,
        after_check(after_stop(c)).thread_running,
{
}

/// Starting again while a serial thread runs changes nothing and spawns no
/// second thread; a stop request without a thread changes nothing.
pub proof fn lemma_start_stop_idle(c: ThreadControl)
    ensures
        after_start(after_start(c)) == after_start(c),
        after_start(c).thread_running,
        !c.thread_running ==> after_stop(c) == c,
{
}


/// The parameters that the test programs set first: `"115200,N,8,1"`.
pub open spec fn initial_config() -> SerialConfig {
    SerialConfig {
        baud_rate: 115200,
        parity: Parity::NoParity,
        data_bits: DataBits::Eight,
        stop_bits: StopBits::One,
    }
}

/// Reads the first parameters of the test programs from `"115200,N,8,1"`;
/// the text is proved to read, so reading cannot fail.
pub fn initial_serial_config() -> (c: SerialConfig)
    ensures
        c == initial_config(),
        parse_config("115200,N,8,1"@) == Some(c),
{
    let text = "115200,N,8,1";
    proof {
        reveal_strlit("115200,N,8,1");
        reveal_with_fuel(decimal_text, 7);
        assert(decimal_text(1) =~= seq!['1']);
        assert(decimal_text(11) =~= seq!['1', '1']);
        assert(decimal_text(115) =~= seq!['1', '1', '5']);
        assert(decimal_text(1152) =~= seq!['1', '1', '5', '2']);
        assert(decimal_text(11520) =~= seq!['1', '1', '5', '2', '0']);
        assert(decimal_text(115200) =~= seq!['1', '1', '5', '2', '0', '0']);
        assert(config_text(initial_config()) =~= text@);
        lemma_text_roundtrip(initial_config());
    }
    match SerialConfig::from_str(text) {
        Ok(c) => c,
        Err(_) => {
            proof {
                assert(false);
            }
            SerialConfig::default()
        },
    }
}

/// Where the probing loop of the serial thread stands.
#[derive(Clone, Copy, Debug, PartialEq, Eq, Structural)]
pub enum ProbeStage {
    /// Waiting before the next probe.
    WaitBeforeProbe,
    /// Waiting after a probe that found no adapter.
    WaitAfterEmpty,
    /// Waiting after a session ended.
    WaitAfterSession,
    /// Listing the adapters.
    Probing,
    /// Connecting to the first adapter.
    Opening,
    /// Setting the first parameters.
    Configuring,
    /// Serving the connection.
    Serving,
    /// The thread leaves.
    Finished,
}

/// What the outside world reports to the probing loop.
#[derive(Clone, Copy, Debug, PartialEq, Eq, Structural)]
pub enum ProbeEvent {
    /// A wait ended: completed, or cut short by an exit request.
    DelayDone(bool),
    /// The adapters were listed: how many.
    Probed(usize),
    /// Connecting succeeded or failed.
    Opened(bool),
    /// The first parameters were set.
    Configured,
    /// The connection was lost.
    SessionEnded,
}

/// What the probing loop asks the outside world to do.
#[derive(Clone, Copy, Debug, PartialEq, Eq, Structural)]
pub enum ProbeAction {
    /// Wait this many milliseconds, unless an exit request comes.
    Delay(u64),
    /// List the adapters.
    Probe,
    /// Connect to the adapter at this index, with this read and write timeout in milliseconds.
    Open(usize, u64),
    /// Set these parameters.
    Configure(SerialConfig),
    /// Serve the connection until it is lost.
    Serve,
    /// Leave the thread.
    Exit,
}

/// The events that can come in each stage.
pub open spec fn probe_event_fits(stage: ProbeStage, event: ProbeEvent) -> bool {
    match (stage, event) {
        (ProbeStage::WaitBeforeProbe, ProbeEvent::DelayDone(_)) => true,
        (ProbeStage::WaitAfterEmpty, ProbeEvent::DelayDone(_)) => true,
        (ProbeStage::WaitAfterSession, ProbeEvent::DelayDone(_)) => true,
        (ProbeStage::Probing, ProbeEvent::Probed(_)) => true,
        (ProbeStage::Opening, ProbeEvent::Opened(_)) => true,
        (ProbeStage::Configuring, ProbeEvent::Configured) => true,
        (ProbeStage::Serving, ProbeEvent::SessionEnded) => true,
        _ => false,
    }
}

/// The probing loop: wait a second, list the adapters, and connect to the
/// first one with a 300 ms timeout; set `115200,N,8,1` and serve it; after the
/// connection is lost, or when no adapter is found, wait a second more before
/// starting over; after a failed connection start over at once. Any wait cut
/// short by an exit request ends the loop.
pub open spec fn probe_step(stage: ProbeStage, event: ProbeEvent) -> (ProbeStage, ProbeAction) {
    match (stage, event) {
        (ProbeStage::WaitBeforeProbe, ProbeEvent::DelayDone(done)) => if done {
            (ProbeStage::Probing, ProbeAction::Probe)
        } else {
            (ProbeStage::Finished, ProbeAction::Exit)
        },
        (ProbeStage::WaitAfterEmpty, ProbeEvent::DelayDone(done)) => if done {
            (ProbeStage::WaitBeforeProbe, ProbeAction::Delay(1000))
        } else {
            (ProbeStage::Finished, ProbeAction::Exit)
        },
        (ProbeStage::WaitAfterSession, ProbeEvent::DelayDone(done)) => if done {
            (ProbeStage::WaitBeforeProbe, ProbeAction::Delay(1000))
        } else {
            (ProbeStage::Finished, ProbeAction::Exit)
        },
        (ProbeStage::Probing, ProbeEvent::Probed(n)) => if n == 0 {
            (ProbeStage::WaitAfterEmpty, ProbeAction::Delay(1000))
        } else {
            (ProbeStage::Opening, ProbeAction::Open(0, 300))
        },
        (ProbeStage::Opening, ProbeEvent::Opened(ok)) => if ok {
            (ProbeStage::Configuring, ProbeAction::Configure(initial_config()))
        } else {
            (ProbeStage::WaitBeforeProbe, ProbeAction::Delay(1000))
        },
        (ProbeStage::Configuring, ProbeEvent::Configured) => (
            ProbeStage::Serving,
            ProbeAction::Serve,
        ),
        (ProbeStage::Serving, ProbeEvent::SessionEnded) => (
            ProbeStage::WaitAfterSession,
            ProbeAction::Delay(1000),
        ),
        _ => (ProbeStage::Finished, ProbeAction::Exit),
    }
}

/// The probing loop starts by waiting a second.
pub fn serial_probe_start() -> (r: (ProbeStage, ProbeAction))
    ensures
        r == (ProbeStage::WaitBeforeProbe, ProbeAction::Delay(1000)),
{
    (ProbeStage::WaitBeforeProbe, ProbeAction::Delay(1000))
}

/// One step of the serial thread's probing loop: the next stage and what to do.
pub fn serial_probe_loop(stage: ProbeStage, event: ProbeEvent) -> (r: (ProbeStage, ProbeAction))
    ensures
        r == probe_step(stage, event),
{
    match (stage, event) {
        (ProbeStage::WaitBeforeProbe, ProbeEvent::DelayDone(done)) => if done {
            (ProbeStage::Probing, ProbeAction::Probe)
        } else {
            (ProbeStage::Finished, ProbeAction::Exit)
        },
        (ProbeStage::WaitAfterEmpty, ProbeEvent::DelayDone(done))
        | (ProbeStage::WaitAfterSession, ProbeEvent::DelayDone(done)) => if done {
            (ProbeStage::WaitBeforeProbe, ProbeAction::Delay(1000))
        } else {
            (ProbeStage::Finished, ProbeAction::Exit)
        },
        (ProbeStage::Probing, ProbeEvent::Probed(n)) => if n == 0 {
            (ProbeStage::WaitAfterEmpty, ProbeAction::Delay(1000))
        } else {
            (ProbeStage::Opening, ProbeAction::Open(0, 300))
        },
        (ProbeStage::Opening, ProbeEvent::Opened(ok)) => if ok {
            (ProbeStage::Configuring, ProbeAction::Configure(initial_serial_config()))
        } else {
            (ProbeStage::WaitBeforeProbe, ProbeAction::Delay(1000))
        },
        (ProbeStage::Configuring, ProbeEvent::Configured) => (
            ProbeStage::Serving,
            ProbeAction::Serve,
        ),
        (ProbeStage::Serving, ProbeEvent::SessionEnded) => (
            ProbeStage::WaitAfterSession,
            ProbeAction::Delay(1000),
        ),
        _ => (ProbeStage::Finished, ProbeAction::Exit),
    }
}

/// Every stage but the last waits for an event: the loop ends only by `Exit`,
/// and only after a wait cut short by an exit request.
pub proof fn lemma_probe_exit_only_on_request(stage: ProbeStage, event: ProbeEvent)
    requires
        probe_event_fits(stage, event),
    ensures
        probe_step(stage, event).1 == ProbeAction::Exit <==> event == ProbeEvent::DelayDone(false),
        probe_step(stage, event).0 == ProbeStage::Finished <==> probe_step(stage, event).1
            == ProbeAction::Exit,
{
}

/// After any action but `Exit`, the loop waits in a stage that the matching
/// event fits: it never gets stuck.
pub proof fn lemma_probe_action_fits(stage: ProbeStage, event: ProbeEvent, next_event: ProbeEvent)
    requires
        probe_event_fits(stage, event),
    ensures
        ({
            let (next, action) = probe_step(stage, event);
            &&& (action is Delay ==> (next_event is DelayDone ==> probe_event_fits(next, next_event)))
            &&& (action is Probe ==> (next_event is Probed ==> probe_event_fits(next, next_event)))
            &&& (action is Open ==> (next_event is Opened ==> probe_event_fits(next, next_event)))
            &&& (action is Configure ==> (next_event is Configured ==> probe_event_fits(
                next,
                next_event,
            )))
            &&& (action is Serve ==> (next_event is SessionEnded ==> probe_event_fits(
                next,
                next_event,
            )))
        }),
{
}

/// One of the stages in which the loop waits.
pub open spec fn is_waiting_stage(stage: ProbeStage) -> bool {
    stage == ProbeStage::WaitBeforeProbe || stage == ProbeStage::WaitAfterEmpty || stage
        == ProbeStage::WaitAfterSession
}

/// From `stage`, at most `waits` completed waits lead to listing the adapters.
pub open spec fn probes_within(stage: ProbeStage, waits: nat) -> bool
    decreases waits,
{
    if waits == 0 {
        false
    } else {
        let (next, action) = probe_step(stage, ProbeEvent::DelayDone(true));
        action == ProbeAction::Probe || (action is Delay && probes_within(next, (waits - 1) as nat))
    }
}

/// Probing that found adapters connects to the first of them with a 300 ms
/// timeout, whatever their number; only a probe that found none leads to a wait.
pub proof fn lemma_probe_found_connects(n: usize)
    ensures
        n > 0 ==> probe_step(ProbeStage::Probing, ProbeEvent::Probed(n)) == (
            ProbeStage::Opening,
            ProbeAction::Open(0, 300),
        ),
        probe_step(ProbeStage::Probing, ProbeEvent::Probed(n)).1 is Delay <==> n == 0,
        probe_step(ProbeStage::Probing, ProbeEvent::Probed(n)).1 matches ProbeAction::Open(i, _)
            ==> i < n,
{
}

/// The loop never waits for good: from every waiting stage, at most two
/// completed waits lead to probing again, and every wait that the loop starts
/// (after an empty probe, a failed connection or a lost session) is one of
/// them. After a lost session, a completed wait goes back to the wait before
/// probing.
pub proof fn lemma_probe_resumes(stage: ProbeStage, event: ProbeEvent)
    ensures
        is_waiting_stage(stage) ==> probes_within(stage, 2),
        probe_step(stage, event).1 is Delay ==> is_waiting_stage(probe_step(stage, event).0)
            && probes_within(probe_step(stage, event).0, 2),
        probe_step(ProbeStage::WaitAfterSession, ProbeEvent::DelayDone(true)) == (
            ProbeStage::WaitBeforeProbe,
            ProbeAction::Delay(1000),
        ),
{
    reveal_with_fuel(probes_within, 3);
}

/// A successful connection is configured to 115200 baud, no parity, 8 data
/// bits and 1 stop bit, then served; a lost session leads to a wait; every
/// wait lasts one second.
pub proof fn lemma_probe_session_setup(stage: ProbeStage, event: ProbeEvent)
    ensures
        probe_step(stage, event).1 is Delay ==> probe_step(stage, event).1 == ProbeAction::Delay(
            1000,
        ),
        probe_step(ProbeStage::Opening, ProbeEvent::Opened(true)).0 == ProbeStage::Configuring,
        probe_step(ProbeStage::Opening, ProbeEvent::Opened(true)).1 matches ProbeAction::Configure(c)
            && c.baud_rate == 115200 && c.parity == Parity::NoParity && c.data_bits
            == DataBits::Eight && c.stop_bits == StopBits::One,
        probe_step(ProbeStage::Configuring, ProbeEvent::Configured) == (
            ProbeStage::Serving,
            ProbeAction::Serve,
        ),
        probe_step(ProbeStage::Serving, ProbeEvent::SessionEnded).0 == ProbeStage::WaitAfterSession,
{
}

} // verus!
