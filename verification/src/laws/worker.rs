//! Laws of the worker behind a relay. Times are in nanoseconds, delays in seconds.

use crate::text::decimal;
use crate::worker::{
    available_text, backoff, connecting_text, delays_double_up_to_a_limit, retry_text, stream_args,
    transition, Action, Cause, Event, Phase, Worker, IDLE_LIMIT, POLL_SECONDS, STABLE_AFTER,
    STALL_LIMIT,
};
use vstd::prelude::*;

verus! {

/// A relay is kept up for a minute and a half without being asked for, a playlist may be
/// three quarters of a minute old, a stream is stable after half a minute, and is looked at
/// every two seconds.
pub proof fn limits_in_seconds()
    ensures
        IDLE_LIMIT == 90 * 1_000_000_000,
        STALL_LIMIT == 45 * 1_000_000_000,
        STABLE_AFTER == 30 * 1_000_000_000,
        POLL_SECONDS == 2,
{
}

/// The delays before the first five attempts to try again are 3, 6, 12, 24 and 30 seconds,
/// and all later ones are 30 seconds.
pub proof fn delays_are_these(failures: nat)
    ensures
        backoff(failures) == (if failures == 0 {
            3
        } else if failures == 1 {
            6
        } else if failures == 2 {
            12
        } else if failures == 3 {
            24
        } else {
            30int
        }),
{
    delays_double_up_to_a_limit(0);
    delays_double_up_to_a_limit(1);
    delays_double_up_to_a_limit(2);
    delays_double_up_to_a_limit(failures);
}

/// A stream is given up at a look at its playlist exactly if the playlist, or the process
/// where the playlist's age cannot be told, is older than 45 seconds; that there is no
/// playlist yet is no reason. Else the worker looks again later, shows the stream exactly if
/// there is a playlist, and has not failed once more.
pub proof fn streams_are_given_their_time(
    worker: Worker,
    found: bool,
    age: Option<u128>,
    running: u128,
)
    requires
        worker.phase == Phase::CheckingPlaylist,
    ensures
        transition(worker, Event::PlaylistChecked { found, age, running }) is Some,
        ({
            let (after, action) = transition(
                worker,
                Event::PlaylistChecked { found, age, running },
            )->0;
            let old = match age {
                Some(age) => age,
                None => running,
            };
            &&& action is Retry <==> old > 45_000_000_000
            &&& action matches Action::Retry { kill, cause, delay } ==> kill && cause
                == Cause::StreamStalled && after.phase == Phase::Waiting
            &&& !(action is Retry) ==> {
                &&& action == (Action::Poll { announce: found })
                &&& after.phase == Phase::Watching
                &&& after.failures <= worker.failures
                &&& found && running > 30_000_000_000 ==> after.failures == 0
                &&& !(found && running > 30_000_000_000) ==> after.failures == worker.failures
            }
        }),
{
}

/// Whether a stream is given up depends on the playlist's age alone, where that can be told:
/// two looks that find the same age agree, whatever else they find.
pub proof fn only_age_counts(
    a: Worker,
    b: Worker,
    found: bool,
    other_found: bool,
    age: u128,
    running: u128,
    other_running: u128,
)
    requires
        a.phase == Phase::CheckingPlaylist,
        b.phase == Phase::CheckingPlaylist,
    ensures
        ({
            let one = transition(a, Event::PlaylistChecked { found, age: Some(age), running });
            let other = transition(
                b,
                Event::PlaylistChecked {
                    found: other_found,
                    age: Some(age),
                    running: other_running,
                },
            );
            (one->0).1 is Retry <==> (other->0).1 is Retry
        }),
{
}

/// A worker that wakes stops if its relay has not been asked for within 90 seconds, and
/// connects if it has; its failures stay counted.
pub proof fn woken_workers_connect(worker: Worker, idle: u128)
    requires
        worker.phase == Phase::Waiting,
    ensures
        ({
            let step = transition(worker, Event::Woke { idle });
            let (after, action) = step->0;
            &&& step is Some
            &&& after.failures == worker.failures
            &&& idle > 90_000_000_000 ==> action == (Action::Stop { kill: false }) && after.phase
                == Phase::Stopped
            &&& idle <= 90_000_000_000 ==> action == Action::Connect && after.phase
                == Phase::Connecting
        }),
{
}

/// A stream that has been set up is watched, without being shown yet; one that cannot be set
/// up is tried again, and there is no process to end.
pub proof fn connections_are_watched(worker: Worker)
    requires
        worker.phase == Phase::Connecting,
    ensures
        ({
            let step = transition(worker, Event::Connected);
            &&& step is Some
            &&& (step->0).0.phase == Phase::Watching
            &&& (step->0).0.failures == worker.failures
            &&& (step->0).1 == (Action::Poll { announce: false })
        }),
        transition(worker, Event::Failed) matches Some(
            (after, Action::Retry { kill, cause, delay }),
        ) && !kill && cause == Cause::Reported && after.phase == Phase::Waiting,
{
}

/// At the time of a look, the process of a relay that has not been asked for within 90
/// seconds is ended, and else asked after.
pub proof fn watched_streams_are_checked(worker: Worker, idle: u128)
    requires
        worker.phase == Phase::Watching,
    ensures
        ({
            let step = transition(worker, Event::Ticked { idle });
            let (after, action) = step->0;
            &&& step is Some
            &&& after.failures == worker.failures
            &&& idle > 90_000_000_000 ==> action == (Action::Stop { kill: true }) && after.phase
                == Phase::Stopped
            &&& idle <= 90_000_000_000 ==> action == Action::CheckProcess && after.phase
                == Phase::CheckingProcess
        }),
{
}

/// A process that has ended, or that cannot be asked after, makes the worker try again; of
/// one that runs, the playlist is looked at next.
pub proof fn ended_processes_are_noticed(worker: Worker, exited: bool)
    requires
        worker.phase == Phase::CheckingProcess,
    ensures
        ({
            let step = transition(worker, Event::ProcessChecked { exited });
            let (after, action) = step->0;
            &&& step is Some
            &&& exited ==> after.phase == Phase::Waiting && (action matches Action::Retry {
                kill,
                cause,
                delay,
            } && !kill && cause == Cause::StreamEnded)
            &&& !exited ==> after.phase == Phase::CheckingPlaylist && after.failures
                == worker.failures && action == Action::CheckPlaylist
        }),
        transition(worker, Event::Failed) matches Some(
            (after, Action::Retry { kill, cause, delay }),
        ) && !kill && cause == Cause::Reported && after.phase == Phase::Waiting,
{
}

/// Each failure is counted once, as far as the counter goes, and is followed by the delay
/// that belongs to the number of failures before it.
pub proof fn each_failure_counts_once(worker: Worker, event: Event)
    ensures
        transition(worker, event) matches Some((after, Action::Retry { kill, cause, delay })) ==> {
            &&& after.failures == (if worker.failures == 0xffff_ffff {
                0xffff_ffff
            } else {
                worker.failures + 1
            })
            &&& worker.failures == 0 ==> delay == 3
            &&& worker.failures == 1 ==> delay == 6
            &&& worker.failures == 2 ==> delay == 12
            &&& worker.failures == 3 ==> delay == 24
            &&& worker.failures >= 4 ==> delay == 30
        },
{
    delays_are_these(worker.failures as nat);
}

/// In each phase a worker waits for these events and passes all others by.
pub proof fn phases_have_their_events(worker: Worker, event: Event)
    ensures
        transition(worker, event) is Some <==> match worker.phase {
            Phase::Waiting => event is Woke,
            Phase::Connecting => event is Connected || event is Failed,
            Phase::Watching => event is Ticked,
            Phase::CheckingProcess => event is ProcessChecked || event is Failed,
            Phase::CheckingPlaylist => event is PlaylistChecked,
            Phase::Stopped => false,
        },
{
}

/// What is shown while a worker waits begins with the cause, as it was reported or as it is
/// known, and goes on with the delay in decimal.
pub proof fn retries_are_explained(reported: Seq<char>, delay: nat)
    ensures
        retry_text(Cause::Reported, reported, delay) == reported + ". Повтор через "@ + decimal(
            delay,
        ) + " с."@,
        retry_text(Cause::StreamEnded, reported, delay)
            == "DSI прервал поток; получаем свежую ссылку"@ + ". Повтор через "@ + decimal(delay)
            + " с."@,
        retry_text(Cause::StreamStalled, reported, delay)
            == "Видео не поступает; обновляем адрес камеры"@ + ". Повтор через "@ + decimal(delay)
            + " с."@,
        connecting_text() == "Получение адреса и подключение…"@,
        available_text() == "Поток доступен"@,
{
}

/// `args` holds `option` and then `value` at position `i`.
pub open spec fn sets(args: Seq<Seq<char>>, i: int, option: Seq<char>, value: Seq<char>) -> bool {
    0 <= i < args.len() - 1 && args[i] == option && args[i + 1] == value
}

/// ffmpeg reads the address it is given and no other, checks certificates, copies the video,
/// and keeps six segments of two seconds behind a playlist that never ends; nothing but the
/// input depends on the address.
pub proof fn streams_are_turned_into_playlists(url: Seq<char>, other: Seq<char>)
    ensures
        stream_args(url).len() == 37,
        sets(stream_args(url), 12, "-i"@, url),
        forall|i: int|
            0 <= i < 37 && i != 13 ==> #[trigger] stream_args(url)[i] == stream_args(other)[i],
        stream_args(url)[0] == "-nostdin"@,
        stream_args(url)[1] == "-hide_banner"@,
        sets(stream_args(url), 2, "-loglevel"@, "error"@),
        sets(stream_args(url), 4, "-rw_timeout"@, "15000000"@),
        sets(stream_args(url), 6, "-tls_verify"@, "1"@),
        sets(
            stream_args(url),
            8,
            "-user_agent"@,
            "Mozilla/5.0 (Macintosh; Intel Mac OS X 10_15_7) AppleWebKit/537.36 Chrome/150.0.0.0 Safari/537.36"@,
        ),
        sets(
            stream_args(url),
            10,
            "-headers"@,
            "Origin: https://video.dsi.ru\r\nReferer: https://video.dsi.ru/\r\n"@,
        ),
        sets(stream_args(url), 14, "-map"@, "0:v:0"@),
        sets(stream_args(url), 16, "-map"@, "0:a:0?"@),
        sets(stream_args(url), 18, "-c:v"@, "copy"@),
        sets(stream_args(url), 20, "-c:a"@, "aac"@),
        sets(stream_args(url), 22, "-f"@, "hls"@),
        sets(stream_args(url), 24, "-hls_time"@, "2"@),
        sets(stream_args(url), 26, "-hls_list_size"@, "6"@),
        sets(stream_args(url), 28, "-hls_delete_threshold"@, "2"@),
        sets(stream_args(url), 30, "-hls_start_number_source"@, "epoch"@),
        sets(stream_args(url), 32, "-hls_flags"@, "delete_segments+temp_file+omit_endlist"@),
        sets(stream_args(url), 34, "-hls_segment_filename"@, "segment_%d.ts"@),
        stream_args(url)[36] == "index.m3u8"@,
{
}

} // verus!
