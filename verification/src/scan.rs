//! The course of a scan: discovery is started, runs for the length of the
//! window, is stopped, and only then the adapter is asked for the
//! peripherals that it knows.
//!
//! Whoever drives a scan performs the command that a step returns and hands
//! back what came of it as the next event. Discovery is stopped on every
//! path to a report, also where it could not be started.

use vstd::prelude::*;
use vstd::string::*;
use crate::bluetoothctl::{collect_devices, collected, device_views, BluetoothError, Sighting};
use crate::device::Device;

verus! {

/// The length of the scan window, in seconds, where none is asked for.
pub const DEFAULT_WINDOW_SECS: u64 = 10;

/// Where a scan stands.
#[derive(Debug, Clone, Copy, PartialEq, Eq, Structural)]
pub enum ScanPhase {
    /// Nothing has happened yet.
    Idle,
    /// The adapter was asked to start discovery.
    Starting,
    /// Discovery runs and the window is open.
    Listening,
    /// The adapter was asked to stop discovery.
    Stopping,
    /// The adapter was asked for the peripherals that it knows.
    Listing,
    /// The scan is over and can be reported.
    Finished,
}

/// What happened to a scan.
#[derive(Debug, Clone, Copy, PartialEq, Eq, Structural)]
pub enum ScanEvent {
    /// A scan is asked for.
    Begin,
    /// The adapter has started discovery.
    DiscoveryStarted,
    /// The adapter could not start discovery.
    DiscoveryFailed,
    /// The window has closed.
    WindowClosed,
    /// The adapter was told to stop discovery, whatever it answered.
    DiscoveryStopped,
    /// The adapter has listed its peripherals.
    PeripheralsListed,
    /// The adapter could not list its peripherals.
    ListingFailed,
}

/// What the driver of a scan is to do after a step.
#[derive(Debug, Clone, Copy, PartialEq, Eq, Structural)]
pub enum ScanCommand {
    /// Nothing.
    Nothing,
    /// Start discovery, without a filter.
    StartDiscovery,
    /// Wait for this many seconds, then report the window as closed.
    Wait(u64),
    /// Stop discovery.
    StopDiscovery,
    /// Ask the adapter for the peripherals that it knows.
    ListPeripherals,
    /// Report the scan.
    Report,
}

/// One scan.
#[derive(Debug, Clone, Copy, PartialEq, Eq, Structural)]
pub struct Scan {
    pub phase: ScanPhase,
    /// The length of the window in seconds.
    pub window_secs: u64,
    /// Whether discovery could not be started.
    pub start_failed: bool,
}

/// What a step of a scan leaves behind.
pub struct ScanStep {
    pub scan: Scan,
    pub command: ScanCommand,
}

/// One step of a scan: what `event` makes of it. An event that the phase
/// does not wait for changes nothing.
pub open spec fn scan_step(scan: Scan, event: ScanEvent) -> ScanStep {
    let ignored = ScanStep { scan, command: ScanCommand::Nothing };
    match scan.phase {
        ScanPhase::Idle => if event == ScanEvent::Begin {
            ScanStep {
                scan: Scan { phase: ScanPhase::Starting, ..scan },
                command: ScanCommand::StartDiscovery,
            }
        } else {
            ignored
        },
        ScanPhase::Starting => if event == ScanEvent::DiscoveryStarted {
            ScanStep {
                scan: Scan { phase: ScanPhase::Listening, ..scan },
                command: ScanCommand::Wait(scan.window_secs),
            }
        } else if event == ScanEvent::DiscoveryFailed {
            ScanStep {
                scan: Scan { phase: ScanPhase::Stopping, start_failed: true, ..scan },
                command: ScanCommand::StopDiscovery,
            }
        } else {
            ignored
        },
        ScanPhase::Listening => if event == ScanEvent::WindowClosed {
            ScanStep {
                scan: Scan { phase: ScanPhase::Stopping, ..scan },
                command: ScanCommand::StopDiscovery,
            }
        } else {
            ignored
        },
        ScanPhase::Stopping => if event == ScanEvent::DiscoveryStopped {
            if scan.start_failed {
                ScanStep {
                    scan: Scan { phase: ScanPhase::Finished, ..scan },
                    command: ScanCommand::Report,
                }
            } else {
                ScanStep {
                    scan: Scan { phase: ScanPhase::Listing, ..scan },
                    command: ScanCommand::ListPeripherals,
                }
            }
        } else {
            ignored
        },
        ScanPhase::Listing => if event == ScanEvent::PeripheralsListed || event
            == ScanEvent::ListingFailed {
            ScanStep {
                scan: Scan { phase: ScanPhase::Finished, ..scan },
                command: ScanCommand::Report,
            }
        } else {
            ignored
        },
        ScanPhase::Finished => ignored,
    }
}

impl Scan {
    /// A scan with a window of `window_secs` seconds that has not begun.
    pub fn new(window_secs: u64) -> (scan: Scan)
        ensures
            scan == (Scan { phase: ScanPhase::Idle, window_secs, start_failed: false }),
    {
        Scan { phase: ScanPhase::Idle, window_secs, start_failed: false }
    }

    /// Takes one event in and tells what is to be done next.
    pub fn handle(&mut self, event: ScanEvent) -> (command: ScanCommand)
        ensures
            *final(self) == scan_step(*old(self), event).scan,
            command == scan_step(*old(self), event).command,
    {
        match self.phase {
            ScanPhase::Idle => {
                if event == ScanEvent::Begin {
                    self.phase = ScanPhase::Starting;
                    ScanCommand::StartDiscovery
                } else {
                    ScanCommand::Nothing
                }
            },
            ScanPhase::Starting => {
                if event == ScanEvent::DiscoveryStarted {
                    self.phase = ScanPhase::Listening;
                    ScanCommand::Wait(self.window_secs)
                } else if event == ScanEvent::DiscoveryFailed {
                    self.phase = ScanPhase::Stopping;
                    self.start_failed = true;
                    ScanCommand::StopDiscovery
                } else {
                    ScanCommand::Nothing
                }
            },
            ScanPhase::Listening => {
                if event == ScanEvent::WindowClosed {
                    self.phase = ScanPhase::Stopping;
                    ScanCommand::StopDiscovery
                } else {
                    ScanCommand::Nothing
                }
            },
            ScanPhase::Stopping => {
                if event == ScanEvent::DiscoveryStopped {
                    if self.start_failed {
                        self.phase = ScanPhase::Finished;
                        ScanCommand::Report
                    } else {
                        self.phase = ScanPhase::Listing;
                        ScanCommand::ListPeripherals
                    }
                } else {
                    ScanCommand::Nothing
                }
            },
            ScanPhase::Listing => {
                if event == ScanEvent::PeripheralsListed || event == ScanEvent::ListingFailed {
                    self.phase = ScanPhase::Finished;
                    ScanCommand::Report
                } else {
                    ScanCommand::Nothing
                }
            },
            ScanPhase::Finished => ScanCommand::Nothing,
        }
    }
}

/// What a scan reports. Where discovery could not be started, or the
/// adapter could not list its peripherals, that failure; else the
/// descriptors of what the adapter listed, or `NoPeripheralsFound` where it
/// listed nothing.
pub fn scan_report(start_failure: Option<String>, listed: Result<Vec<Sighting>, String>) -> (result:
    Result<Vec<Device>, BluetoothError>)
    ensures
        match (start_failure, listed) {
            (Some(message), _) => result == Err::<Vec<Device>, BluetoothError>(
                BluetoothError::TransportError(message),
            ),
            (None, Err(message)) => result == Err::<Vec<Device>, BluetoothError>(
                BluetoothError::TransportError(message),
            ),
            (None, Ok(sightings)) => if sightings@.len() == 0 {
                result == Err::<Vec<Device>, BluetoothError>(BluetoothError::NoPeripheralsFound)
            } else {
                result is Ok && device_views(result->Ok_0@) == collected(sightings@)
            },
        },
{
    match start_failure {
        Some(message) => Err(BluetoothError::TransportError(message)),
        None => match listed {
            Err(message) => Err(BluetoothError::TransportError(message)),
            Ok(sightings) => collect_devices(&sightings),
        },
    }
}

/// What a run of events leaves of a scan, and the command of each step.
pub struct ScanTrace {
    pub scan: Scan,
    pub commands: Seq<ScanCommand>,
}

/// A scan taking `events` in, one after the other.
pub open spec fn scan_run(scan: Scan, events: Seq<ScanEvent>) -> ScanTrace
    decreases events.len(),
{
    if events.len() == 0 {
        ScanTrace { scan, commands: Seq::empty() }
    } else {
        let before = scan_run(scan, events.drop_last());
        let step = scan_step(before.scan, events.last());
        ScanTrace { scan: step.scan, commands: before.commands.push(step.command) }
    }
}

/// A scan that has not begun.
pub open spec fn fresh(window_secs: u64) -> Scan {
    Scan { phase: ScanPhase::Idle, window_secs, start_failed: false }
}

/// What holds of a scan and of the commands that led to it.
spec fn on_course(window_secs: u64, trace: ScanTrace) -> bool {
    let commands = trace.commands;
    let stopped = commands.contains(ScanCommand::StopDiscovery);
    let waited = commands.contains(ScanCommand::Wait(window_secs));
    &&& trace.scan.window_secs == window_secs
    &&& match trace.scan.phase {
        ScanPhase::Idle | ScanPhase::Starting => !stopped && !trace.scan.start_failed,
        ScanPhase::Listening => !stopped && waited && !trace.scan.start_failed,
        ScanPhase::Stopping | ScanPhase::Listing | ScanPhase::Finished => stopped && (waited
            || trace.scan.start_failed),
    }
    &&& trace.scan.phase != ScanPhase::Finished ==> !commands.contains(ScanCommand::Report)
    &&& (trace.scan.phase == ScanPhase::Idle || trace.scan.phase == ScanPhase::Starting
        || trace.scan.phase == ScanPhase::Listening || trace.scan.phase == ScanPhase::Stopping)
        ==> !commands.contains(ScanCommand::ListPeripherals)
    &&& trace.scan.phase == ScanPhase::Listing ==> !trace.scan.start_failed
    &&& forall|k: int|
        0 <= k < commands.len() && (#[trigger] commands[k] == ScanCommand::Report || commands[k]
            == ScanCommand::ListPeripherals) ==> exists|j: int|
            0 <= j < k && #[trigger] commands[j] == ScanCommand::StopDiscovery
    &&& forall|k: int|
        0 <= k < commands.len() && #[trigger] commands[k] == ScanCommand::ListPeripherals
            ==> exists|j: int| 0 <= j < k && #[trigger] commands[j] == ScanCommand::Wait(window_secs)
    &&& forall|k: int|
        0 <= k < commands.len() && #[trigger] commands[k] is Wait ==> commands[k]
            == ScanCommand::Wait(window_secs)
    &&& forall|j: int, k: int|
        0 <= j < k < commands.len() && #[trigger] commands[j] == ScanCommand::Report
            ==> #[trigger] commands[k] == ScanCommand::Nothing
}

/// Every run of a fresh scan is on course.
proof fn lemma_run_is_on_course(window_secs: u64, events: Seq<ScanEvent>)
    ensures
        on_course(window_secs, scan_run(fresh(window_secs), events)),
        scan_run(fresh(window_secs), events).commands.len() == events.len(),
    decreases events.len(),
{
    let trace = scan_run(fresh(window_secs), events);
    if events.len() > 0 {
        let before = scan_run(fresh(window_secs), events.drop_last());
        lemma_run_is_on_course(window_secs, events.drop_last());
        let step = scan_step(before.scan, events.last());
        let commands = trace.commands;
        let n = before.commands.len() as int;
        assert(commands[n] == step.command);
        assert forall|c: ScanCommand| before.commands.contains(c) implies commands.contains(c) by {
            let j = choose|j: int| 0 <= j < before.commands.len() && before.commands[j] == c;
            assert(commands[j] == c);
        }
        assert forall|c: ScanCommand| commands.contains(c) implies before.commands.contains(c) || c
            == step.command by {
            let j = choose|j: int| 0 <= j < commands.len() && commands[j] == c;
            if j < n {
                assert(before.commands[j] == c);
            }
        }
        assert(commands.contains(step.command));
        assert forall|k: int|
            0 <= k < commands.len() && (#[trigger] commands[k] == ScanCommand::Report
                || commands[k] == ScanCommand::ListPeripherals) implies exists|j: int|
            0 <= j < k && #[trigger] commands[j] == ScanCommand::StopDiscovery by {
            if k < n {
                assert(before.commands[k] == commands[k]);
                let j = choose|j: int|
                    0 <= j < k && #[trigger] before.commands[j] == ScanCommand::StopDiscovery;
                assert(commands[j] == ScanCommand::StopDiscovery);
            } else {
                assert(before.commands.contains(ScanCommand::StopDiscovery));
                let j = choose|j: int|
                    0 <= j < n && before.commands[j] == ScanCommand::StopDiscovery;
                assert(commands[j] == ScanCommand::StopDiscovery);
            }
        }
        assert forall|k: int|
            0 <= k < commands.len() && #[trigger] commands[k]
                == ScanCommand::ListPeripherals implies exists|j: int|
            0 <= j < k && #[trigger] commands[j] == ScanCommand::Wait(window_secs) by {
            if k < n {
                assert(before.commands[k] == commands[k]);
                let j = choose|j: int|
                    0 <= j < k && #[trigger] before.commands[j] == ScanCommand::Wait(window_secs);
                assert(commands[j] == ScanCommand::Wait(window_secs));
            } else {
                assert(before.commands.contains(ScanCommand::Wait(window_secs)));
                let j = choose|j: int|
                    0 <= j < n && before.commands[j] == ScanCommand::Wait(window_secs);
                assert(commands[j] == ScanCommand::Wait(window_secs));
            }
        }
        assert forall|k: int|
            0 <= k < commands.len() && #[trigger] commands[k] is Wait implies commands[k]
            == ScanCommand::Wait(window_secs) by {
            if k < n {
                assert(before.commands[k] == commands[k]);
            }
        }
        assert forall|j: int, k: int|
            0 <= j < k < commands.len() && #[trigger] commands[j]
                == ScanCommand::Report implies #[trigger] commands[k] == ScanCommand::Nothing by {
            assert(before.commands[j] == commands[j]);
            assert(before.commands.contains(ScanCommand::Report));
            if k < n {
                assert(before.commands[k] == commands[k]);
            }
        }
    }
}

/// Discovery is always stopped before a scan is reported, and before the
/// adapter is asked for its peripherals: whatever events a scan meets, a
/// command to report or to list follows a command to stop discovery.
pub proof fn lemma_scan_stops_discovery_first(window_secs: u64, events: Seq<ScanEvent>, k: int)
    requires
        0 <= k < events.len(),
        scan_run(fresh(window_secs), events).commands[k] == ScanCommand::Report || scan_run(
            fresh(window_secs),
            events,
        ).commands[k] == ScanCommand::ListPeripherals,
    ensures
        exists|j: int|
            0 <= j < k && #[trigger] scan_run(fresh(window_secs), events).commands[j]
                == ScanCommand::StopDiscovery,
{
    lemma_run_is_on_course(window_secs, events);
}

/// The peripherals are listed only after the whole window: a command to
/// list follows a command to wait, and every command to wait is for the
/// length of the window.
pub proof fn lemma_scan_lists_after_the_window(window_secs: u64, events: Seq<ScanEvent>, k: int)
    requires
        0 <= k < events.len(),
    ensures
        scan_run(fresh(window_secs), events).commands[k] == ScanCommand::ListPeripherals
            ==> exists|j: int|
            0 <= j < k && #[trigger] scan_run(fresh(window_secs), events).commands[j]
                == ScanCommand::Wait(window_secs),
        scan_run(fresh(window_secs), events).commands[k] is Wait ==> scan_run(
            fresh(window_secs),
            events,
        ).commands[k] == ScanCommand::Wait(window_secs),
{
    lemma_run_is_on_course(window_secs, events);
}

/// A scan is reported once: after the command to report, nothing more is
/// commanded.
pub proof fn lemma_scan_reports_once(window_secs: u64, events: Seq<ScanEvent>, j: int, k: int)
    requires
        0 <= j < k < events.len(),
        scan_run(fresh(window_secs), events).commands[j] == ScanCommand::Report,
    ensures
        scan_run(fresh(window_secs), events).commands[k] == ScanCommand::Nothing,
{
    lemma_run_is_on_course(window_secs, events);
}

/// A scan that meets no failure takes its course in five steps: start, wait
/// for the window, stop, list, report.
pub proof fn lemma_scan_course(window_secs: u64)
    ensures
        scan_run(
            fresh(window_secs),
            seq![
                ScanEvent::Begin,
                ScanEvent::DiscoveryStarted,
                ScanEvent::WindowClosed,
                ScanEvent::DiscoveryStopped,
                ScanEvent::PeripheralsListed,
            ],
        ).commands == seq![
            ScanCommand::StartDiscovery,
            ScanCommand::Wait(window_secs),
            ScanCommand::StopDiscovery,
            ScanCommand::ListPeripherals,
            ScanCommand::Report,
        ],
{
    let events = seq![
        ScanEvent::Begin,
        ScanEvent::DiscoveryStarted,
        ScanEvent::WindowClosed,
        ScanEvent::DiscoveryStopped,
        ScanEvent::PeripheralsListed,
    ];
    let e4 = events.drop_last();
    let e3 = e4.drop_last();
    let e2 = e3.drop_last();
    let e1 = e2.drop_last();
    let e0 = e1.drop_last();
    assert(e0.len() == 0);
    let start = fresh(window_secs);
    assert(scan_run(start, e0).scan == start);
    assert(scan_run(start, e1).scan.phase == ScanPhase::Starting);
    assert(scan_run(start, e2).scan.phase == ScanPhase::Listening);
    assert(scan_run(start, e3).scan.phase == ScanPhase::Stopping);
    assert(scan_run(start, e4).scan.phase == ScanPhase::Listing);
    assert(scan_run(start, events).commands =~= seq![
        ScanCommand::StartDiscovery,
        ScanCommand::Wait(window_secs),
        ScanCommand::StopDiscovery,
        ScanCommand::ListPeripherals,
        ScanCommand::Report,
    ]);
}

} // verus!
