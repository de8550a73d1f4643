//! The worker behind a relay: when it connects, how it watches its stream, and what it does
//! when the stream fails.

use crate::text::{decimal, in_decimal, joined, strings};
use vstd::arithmetic::power2::{lemma2_to64, lemma_pow2_strictly_increases, pow2};
use vstd::bits::lemma_u64_shl_is_mul;
use vstd::prelude::*;

verus! {

/// For how long a relay that nobody asks for is kept up, in nanoseconds.
pub const IDLE_LIMIT: u128 = 90_000_000_000;

/// The age of a playlist from which on its stream counts as stalled, in nanoseconds.
pub const STALL_LIMIT: u128 = 45_000_000_000;

/// For how long a stream must have run to make up for earlier failures, in nanoseconds.
pub const STABLE_AFTER: u128 = 30_000_000_000;

/// The time between two looks at a stream, in seconds.
pub const POLL_SECONDS: u64 = 2;

/// What a worker waits for.
#[derive(Clone, Copy, Debug, PartialEq, Eq, Structural)]
pub enum Phase {
    /// For the moment to connect.
    Waiting,
    /// For its stream to be set up.
    Connecting,
    /// For the time of the next look.
    Watching,
    /// For word of the process that fetches the stream.
    CheckingProcess,
    /// For word of the playlist.
    CheckingPlaylist,
    /// For nothing.
    Stopped,
}

/// A worker: what it waits for, and how often in a row it has failed.
#[derive(Clone, Copy, Debug, PartialEq, Eq, Structural)]
pub struct Worker {
    pub phase: Phase,
    pub failures: u32,
}

/// What happens to a worker. Times are in nanoseconds; `idle` is for how long its relay has
/// not been asked for.
#[derive(Clone, Copy, Debug, PartialEq, Eq, Structural)]
pub enum Event {
    /// The moment to connect has come.
    Woke { idle: u128 },
    /// The stream has been set up.
    Connected,
    /// Setting up the stream, or asking after its process, has failed.
    Failed,
    /// The time of the next look has come.
    Ticked { idle: u128 },
    /// Whether the process has ended.
    ProcessChecked { exited: bool },
    /// Whether there is a playlist, how old it is if that can be told, and how long ago
    /// the process was started.
    PlaylistChecked { found: bool, age: Option<u128>, running: u128 },
}

/// Why a worker tries again.
#[derive(Clone, Copy, Debug, PartialEq, Eq, Structural)]
pub enum Cause {
    /// What was reported with `Event::Failed`.
    Reported,
    /// The process has ended.
    StreamEnded,
    /// The playlist has grown old.
    StreamStalled,
}

/// What is to be done for a worker.
#[derive(Clone, Copy, Debug, PartialEq, Eq, Structural)]
pub enum Action {
    /// Show that it connects, and set up the stream.
    Connect,
    /// If `announce`, show that the stream is there; look again after `POLL_SECONDS`.
    Poll { announce: bool },
    /// Ask after the process.
    CheckProcess,
    /// Look at the playlist.
    CheckPlaylist,
    /// If `kill`, end the process; show the cause, remove the playlist, and wake the worker
    /// after `delay` seconds.
    Retry { kill: bool, cause: Cause, delay: u64 },
    /// If `kill`, end the process; the worker is done.
    Stop { kill: bool },
}

/// The smaller of two numbers.
pub open spec fn least(a: nat, b: nat) -> nat {
    if a <= b {
        a
    } else {
        b
    }
}

/// The delay in seconds after so many failures in a row before: it doubles from three up to
/// a limit of thirty.
pub open spec fn backoff(failures: nat) -> nat {
    least(3 * pow2(least(failures, 4)), 30)
}

/// The worker that has failed once more, and what is to be done for it.
pub open spec fn retry(worker: Worker, kill: bool, cause: Cause) -> (Worker, Action) {
    (
        Worker {
            phase: Phase::Waiting,
            failures: if worker.failures < u32::MAX {
                (worker.failures + 1) as u32
            } else {
                u32::MAX
            },
        },
        Action::Retry { kill, cause, delay: backoff(worker.failures as nat) as u64 },
    )
}

/// How old the playlist counts as: as old as the process if its own age cannot be told.
pub open spec fn playlist_age(age: Option<u128>, running: u128) -> u128 {
    match age {
        Some(age) => age,
        None => running,
    }
}

/// What a worker becomes by an event, and what is then to be done for it; `None` if it does
/// not wait for such an event.
pub open spec fn transition(worker: Worker, event: Event) -> Option<(Worker, Action)> {
    match (worker.phase, event) {
        (Phase::Waiting, Event::Woke { idle }) => Some(
            if idle > IDLE_LIMIT {
                (Worker { phase: Phase::Stopped, ..worker }, Action::Stop { kill: false })
            } else {
                (Worker { phase: Phase::Connecting, ..worker }, Action::Connect)
            },
        ),
        (Phase::Connecting, Event::Connected) => Some(
            (Worker { phase: Phase::Watching, ..worker }, Action::Poll { announce: false }),
        ),
        (Phase::Connecting, Event::Failed) => Some(retry(worker, false, Cause::Reported)),
        (Phase::Watching, Event::Ticked { idle }) => Some(
            if idle > IDLE_LIMIT {
                (Worker { phase: Phase::Stopped, ..worker }, Action::Stop { kill: true })
            } else {
                (Worker { phase: Phase::CheckingProcess, ..worker }, Action::CheckProcess)
            },
        ),
        (Phase::CheckingProcess, Event::Failed) => Some(retry(worker, false, Cause::Reported)),
        (Phase::CheckingProcess, Event::ProcessChecked { exited }) => Some(
            if exited {
                retry(worker, false, Cause::StreamEnded)
            } else {
                (Worker { phase: Phase::CheckingPlaylist, ..worker }, Action::CheckPlaylist)
            },
        ),
        (Phase::CheckingPlaylist, Event::PlaylistChecked { found, age, running }) => Some(
            if playlist_age(age, running) > STALL_LIMIT {
                retry(worker, true, Cause::StreamStalled)
            } else {
                (
                    Worker {
                        phase: Phase::Watching,
                        failures: if found && running > STABLE_AFTER {
                            0
                        } else {
                            worker.failures
                        },
                    },
                    Action::Poll { announce: found },
                )
            },
        ),
        _ => None,
    }
}

/// The delay in seconds after so many failures in a row before.
pub fn retry_delay(failures: u32) -> (r: u64)
    ensures
        r == backoff(failures as nat),
{
    let doublings: u32 = if failures <= 4 {
        failures
    } else {
        4
    };
    proof {
        lemma2_to64();
        if doublings < 4 {
            lemma_pow2_strictly_increases(doublings as nat, 4);
        }
        lemma_u64_shl_is_mul(1, doublings as u64);
    }
    let delay: u64 = 3 * (1u64 << doublings as u64);
    if delay <= 30 {
        delay
    } else {
        30
    }
}

impl Worker {
    /// A worker about to connect for the first time.
    pub fn new() -> (r: Worker)
        ensures
            r == (Worker { phase: Phase::Waiting, failures: 0 }),
    {
        Worker { phase: Phase::Waiting, failures: 0 }
    }

    /// Takes note of one more failure.
    fn fail(&mut self, kill: bool, cause: Cause) -> (r: Action)
        ensures
            (*final(self), r) == retry(*old(self), kill, cause),
    {
        let delay: u64 = retry_delay(self.failures);
        self.phase = Phase::Waiting;
        if self.failures < u32::MAX {
            self.failures = self.failures + 1;
        }
        Action::Retry { kill, cause, delay }
    }

    /// Takes note of an event and says what is to be done. Nothing changes and `None` is
    /// returned if the worker does not wait for such an event.
    pub fn step(&mut self, event: Event) -> (r: Option<Action>)
        ensures
            match transition(*old(self), event) {
                Some((worker, action)) => *final(self) == worker && r == Some(action),
                None => *final(self) == *old(self) && r is None,
            },
    {
        match (self.phase, event) {
            (Phase::Waiting, Event::Woke { idle }) => {
                if idle > IDLE_LIMIT {
                    self.phase = Phase::Stopped;
                    Some(Action::Stop { kill: false })
                } else {
                    self.phase = Phase::Connecting;
                    Some(Action::Connect)
                }
            },
            (Phase::Connecting, Event::Connected) => {
                self.phase = Phase::Watching;
                Some(Action::Poll { announce: false })
            },
            (Phase::Connecting, Event::Failed) => Some(self.fail(false, Cause::Reported)),
            (Phase::Watching, Event::Ticked { idle }) => {
                if idle > IDLE_LIMIT {
                    self.phase = Phase::Stopped;
                    Some(Action::Stop { kill: true })
                } else {
                    self.phase = Phase::CheckingProcess;
                    Some(Action::CheckProcess)
                }
            },
            (Phase::CheckingProcess, Event::Failed) => Some(self.fail(false, Cause::Reported)),
            (Phase::CheckingProcess, Event::ProcessChecked { exited }) => {
                if exited {
                    Some(self.fail(false, Cause::StreamEnded))
                } else {
                    self.phase = Phase::CheckingPlaylist;
                    Some(Action::CheckPlaylist)
                }
            },
            (Phase::CheckingPlaylist, Event::PlaylistChecked { found, age, running }) => {
                let age: u128 = match age {
                    Some(age) => age,
                    None => running,
                };
                if age > STALL_LIMIT {
                    return Some(self.fail(true, Cause::StreamStalled));
                }
                self.phase = Phase::Watching;
                if found && running > STABLE_AFTER {
                    self.failures = 0;
                }
                Some(Action::Poll { announce: found })
            },
            _ => None,
        }
    }
}

/// The arguments with which ffmpeg turns the stream at `url` into a playlist and segments.
pub open spec fn stream_args(url: Seq<char>) -> Seq<Seq<char>> {
    seq![
        "-nostdin"@,
        "-hide_banner"@,
        "-loglevel"@,
        "error"@,
        "-rw_timeout"@,
        "15000000"@,
        "-tls_verify"@,
        "1"@,
        "-user_agent"@,
        "Mozilla/5.0 (Macintosh; Intel Mac OS X 10_15_7) AppleWebKit/537.36 Chrome/150.0.0.0 Safari/537.36"@,
        "-headers"@,
        "Origin: https://video.dsi.ru\r\nReferer: https://video.dsi.ru/\r\n"@,
        "-i"@,
        url,
        "-map"@,
        "0:v:0"@,
        "-map"@,
        "0:a:0?"@,
        "-c:v"@,
        "copy"@,
        "-c:a"@,
        "aac"@,
        "-f"@,
        "hls"@,
        "-hls_time"@,
        "2"@,
        "-hls_list_size"@,
        "6"@,
        "-hls_delete_threshold"@,
        "2"@,
        "-hls_start_number_source"@,
        "epoch"@,
        "-hls_flags"@,
        "delete_segments+temp_file+omit_endlist"@,
        "-hls_segment_filename"@,
        "segment_%d.ts"@,
        "index.m3u8"@,
    ]
}

/// The arguments with which ffmpeg turns the stream at `url` into a playlist and segments.
pub fn ffmpeg_args(url: &str) -> (r: Vec<String>)
    ensures
        strings(r@) == stream_args(url@),
{
    let args = vec![
        "-nostdin".to_owned(),
        "-hide_banner".to_owned(),
        "-loglevel".to_owned(),
        "error".to_owned(),
        "-rw_timeout".to_owned(),
        "15000000".to_owned(),
        "-tls_verify".to_owned(),
        "1".to_owned(),
        "-user_agent".to_owned(),
        "Mozilla/5.0 (Macintosh; Intel Mac OS X 10_15_7) AppleWebKit/537.36 Chrome/150.0.0.0 Safari/537.36".to_owned(),
        "-headers".to_owned(),
        "Origin: https://video.dsi.ru\r\nReferer: https://video.dsi.ru/\r\n".to_owned(),
        "-i".to_owned(),
        url.to_owned(),
        "-map".to_owned(),
        "0:v:0".to_owned(),
        "-map".to_owned(),
        "0:a:0?".to_owned(),
        "-c:v".to_owned(),
        "copy".to_owned(),
        "-c:a".to_owned(),
        "aac".to_owned(),
        "-f".to_owned(),
        "hls".to_owned(),
        "-hls_time".to_owned(),
        "2".to_owned(),
        "-hls_list_size".to_owned(),
        "6".to_owned(),
        "-hls_delete_threshold".to_owned(),
        "2".to_owned(),
        "-hls_start_number_source".to_owned(),
        "epoch".to_owned(),
        "-hls_flags".to_owned(),
        "delete_segments+temp_file+omit_endlist".to_owned(),
        "-hls_segment_filename".to_owned(),
        "segment_%d.ts".to_owned(),
        "index.m3u8".to_owned(),
    ];
    assert(strings(args@) == stream_args(url@));
    args
}

/// What is shown while a worker connects.
pub open spec fn connecting_text() -> Seq<char> {
    "Получение адреса и подключение…"@
}

/// What is shown while a stream is there.
pub open spec fn available_text() -> Seq<char> {
    "Поток доступен"@
}

/// What is shown of a cause; `reported` is what was reported with `Event::Failed`.
pub open spec fn cause_text(cause: Cause, reported: Seq<char>) -> Seq<char> {
    match cause {
        Cause::Reported => reported,
        Cause::StreamEnded => "DSI прервал поток; получаем свежую ссылку"@,
        Cause::StreamStalled => "Видео не поступает; обновляем адрес камеры"@,
    }
}

/// What is shown while a worker waits to try again.
pub open spec fn retry_text(cause: Cause, reported: Seq<char>, delay: nat) -> Seq<char> {
    cause_text(cause, reported) + ". Повтор через "@ + decimal(delay) + " с."@
}

/// What is shown while a worker connects.
pub fn connecting_message() -> (r: String)
    ensures
        r@ == connecting_text(),
{
    "Получение адреса и подключение…".to_owned()
}

/// What is shown while a stream is there.
pub fn available_message() -> (r: String)
    ensures
        r@ == available_text(),
{
    "Поток доступен".to_owned()
}

/// What is shown while a worker waits to try again.
pub fn retry_message(cause: Cause, reported: &str, delay: u64) -> (r: String)
    ensures
        r@ == retry_text(cause, reported@, delay as nat),
{
    let cause = match cause {
        Cause::Reported => reported.to_owned(),
        Cause::StreamEnded => "DSI прервал поток; получаем свежую ссылку".to_owned(),
        Cause::StreamStalled => "Видео не поступает; обновляем адрес камеры".to_owned(),
    };
    joined(&cause, ". Повтор через ", &in_decimal(delay as u128)).concat(" с.")
}

/// The first values of the delay.
proof fn lemma_backoff_values()
    ensures
        backoff(0) == 3,
        backoff(1) == 6,
        backoff(2) == 12,
        backoff(3) == 24,
        backoff(4) == 30,
{
    lemma2_to64();
}

/// The delay before trying again doubles from three seconds on, is never longer than thirty
/// and never shorter than after fewer failures.
pub proof fn delays_double_up_to_a_limit(failures: nat)
    ensures
        backoff(0) == 3,
        3 <= backoff(failures) <= 30,
        backoff(failures) <= backoff(failures + 1),
        failures < 3 ==> backoff(failures + 1) == 2 * backoff(failures),
        failures >= 4 ==> backoff(failures) == 30,
{
    lemma_backoff_values();
    assert(failures == 0 || failures == 1 || failures == 2 || failures == 3 || failures >= 4);
}

/// The worker after it has, `n` times in a row, woken and failed to set up its stream.
pub open spec fn after_refusals(worker: Worker, idle: u128, n: nat) -> Worker
    decreases n,
{
    if n == 0 {
        worker
    } else {
        let before = after_refusals(worker, idle, (n - 1) as nat);
        let connecting = (transition(before, Event::Woke { idle })->0).0;
        (transition(connecting, Event::Failed)->0).0
    }
}

/// A new worker that fails time after time counts its failures, and waits the longer the
/// more there have been.
pub proof fn failures_are_counted(idle: u128, n: nat)
    requires
        idle <= IDLE_LIMIT,
        n < u32::MAX,
    ensures
        after_refusals(Worker { phase: Phase::Waiting, failures: 0 }, idle, n) == (Worker {
            phase: Phase::Waiting,
            failures: n as u32,
        }),
        ({
            let worker = after_refusals(Worker { phase: Phase::Waiting, failures: 0 }, idle, n);
            let connecting = (transition(worker, Event::Woke { idle })->0).0;
            (transition(connecting, Event::Failed)->0).1 == Action::Retry {
                kill: false,
                cause: Cause::Reported,
                delay: backoff(n) as u64,
            }
        }),
    decreases n,
{
    if n > 0 {
        failures_are_counted(idle, (n - 1) as nat);
    }
}

/// The worker after these events; events that it does not wait for pass it by.
pub open spec fn after_events(worker: Worker, events: Seq<Event>) -> Worker
    decreases events.len(),
{
    if events.len() == 0 {
        worker
    } else {
        let before = after_events(worker, events.drop_last());
        match transition(before, events.last()) {
            Some((after, _)) => after,
            None => before,
        }
    }
}

/// Whether this event shows a worker that its stream is there, is not stalled, and has run
/// long enough to make up for earlier failures.
pub open spec fn makes_up(worker: Worker, event: Event) -> bool {
    worker.phase == Phase::CheckingPlaylist && (event matches Event::PlaylistChecked {
        found,
        age,
        running,
    } && found && running > STABLE_AFTER && playlist_age(age, running) <= STALL_LIMIT)
}

/// How often a worker has failed, over these events, since its stream last made up for it.
pub open spec fn streak(worker: Worker, events: Seq<Event>) -> nat
    decreases events.len(),
{
    if events.len() == 0 {
        worker.failures as nat
    } else {
        let before = after_events(worker, events.drop_last());
        let count = streak(worker, events.drop_last());
        if makes_up(before, events.last()) {
            0
        } else if transition(before, events.last()) matches Some((_, Action::Retry { .. })) {
            count + 1
        } else {
            count
        }
    }
}

/// Over any events, a worker counts its failures since its stream last made up for them, as
/// far as its counter goes; and when it fails next, the delay is the one that belongs to
/// their number.
pub proof fn delays_follow_the_streak(worker: Worker, events: Seq<Event>, next: Event)
    ensures
        after_events(worker, events).failures == least(
            streak(worker, events),
            u32::MAX as nat,
        ),
        transition(after_events(worker, events), next) matches Some(
            (_, Action::Retry { delay, .. }),
        ) ==> delay == backoff(streak(worker, events)),
    decreases events.len(),
{
    if events.len() > 0 {
        delays_follow_the_streak(worker, events.drop_last(), events.last());
    }
    delays_double_up_to_a_limit(streak(worker, events));
    delays_double_up_to_a_limit(after_events(worker, events).failures as nat);
}

/// A worker stops exactly if, about to connect or to look at its stream, its relay has not
/// been asked for within the limit; it ends the process if it has one, and nothing moves it
/// afterwards.
pub proof fn idle_workers_stop(worker: Worker, event: Event, next: Event)
    ensures
        (transition(worker, event) matches Some((_, Action::Stop { .. }))) <==> {
            ||| worker.phase == Phase::Waiting && (event matches Event::Woke { idle } && idle
                > IDLE_LIMIT)
            ||| worker.phase == Phase::Watching && (event matches Event::Ticked { idle } && idle
                > IDLE_LIMIT)
        },
        transition(worker, event) matches Some((after, Action::Stop { kill })) ==> kill == (
        worker.phase == Phase::Watching) && after.phase == Phase::Stopped && transition(
            after,
            next,
        ) is None,
        transition(worker, event) matches Some((after, action)) ==> (after.phase == Phase::Stopped
            ==> action is Stop),
{
}

/// Whether a worker waits for this event.
pub open spec fn awaits(worker: Worker, event: Event) -> bool {
    transition(worker, event) is Some
}

/// After each action the worker waits for the events that the action can bring about, and
/// for no others.
pub proof fn actions_are_answered(worker: Worker, event: Event, next: Event)
    requires
        awaits(worker, event),
    ensures
        ({
            let (after, action) = transition(worker, event)->0;
            awaits(after, next) <==> match action {
                Action::Connect => next is Connected || next is Failed,
                Action::Poll { .. } => next is Ticked,
                Action::CheckProcess => next is ProcessChecked || next is Failed,
                Action::CheckPlaylist => next is PlaylistChecked,
                Action::Retry { .. } => next is Woke,
                Action::Stop { .. } => false,
            }
        }),
{
}

/// The stream is shown as available exactly if there is a playlist that is not too old, and
/// earlier failures are forgotten exactly if the stream has moreover run long enough.
pub proof fn streams_are_announced_when_fresh(
    worker: Worker,
    event: Event,
    found: bool,
    age: Option<u128>,
    running: u128,
)
    requires
        worker.phase == Phase::CheckingPlaylist,
    ensures
        ({
            let checked = Event::PlaylistChecked { found, age, running };
            let (after, action) = transition(worker, checked)->0;
            let fresh = found && playlist_age(age, running) <= STALL_LIMIT;
            &&& action == (Action::Poll { announce: true }) <==> fresh
            &&& worker.failures > 0 ==> (after.failures == 0 <==> fresh && running > STABLE_AFTER)
        }),
        transition(worker, event) matches Some((_, Action::Poll { announce: true }))
            ==> event is PlaylistChecked,
{
}

/// A stream whose playlist does not appear, or is no longer written, within the limit is
/// given up: its process is ended and the worker tries again.
pub proof fn stalled_streams_are_given_up(
    worker: Worker,
    found: bool,
    age: Option<u128>,
    running: u128,
)
    requires
        worker.phase == Phase::CheckingPlaylist,
        playlist_age(age, running) > STALL_LIMIT,
    ensures
        transition(worker, Event::PlaylistChecked { found, age, running }) matches Some(
            (after, Action::Retry { kill: true, cause: Cause::StreamStalled, delay }),
        ) && after.phase == Phase::Waiting && 3 <= delay <= 30,
{
    delays_double_up_to_a_limit(worker.failures as nat);
}

} // verus!
