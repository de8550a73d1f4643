//! Laws of the calls themselves: what their results are, given their arguments, and how the
//! results of several calls relate.

use crate::config::{
    asked_for_cameras_are_covered, cameras_result, cameras_view, choose_list, config, config_reply,
    is_covered, is_web_uri, listed_streams, localized_all, refusal, Camera, CameraConfig,
    CameraView, ConfigReply, ListChoice, ListFile, ListRead, StreamListError,
};
use crate::dsi::{
    api_reply, api_request, camera_id, cookie, escape, escaped, hls_url, listed_cameras, offered,
    page_camera_id, pairs_result, playlist_path_of, ApiRequest, CameraListError, CookieError,
    PageError, ReplyError, StreamError,
};
use crate::json::{json_member, JsonValue, JsonView};
use crate::laws::dsi::{
    ends_as_playlist, hls_streams_keep_their_directory, holds_control, other_sites_are_refused,
    pages_name_their_camera, plain_cookies_are_kept, plain_values_are_kept,
    quotation_marks_are_taken_off, replies_lead_to_hls_playlists, requests_name_their_camera,
    rtsp_streams_have_hls_playlists, settings_give_their_value, settings_may_be_missing,
};
use crate::laws::relay::{
    addresses_lead_to_their_source, different_addresses_have_their_own_routes,
    dsi_addresses_are_these, dsi_hosts_are_these, ends_in_dsi, files_are_served_whole,
    files_may_be_missing, numbers_are_those_of_the_sources, relays_are_added_at_the_end,
    served_files_are_these,
};
use crate::laws::text::{
    all_white, copies, copies_are_stripped, marks_are_skipped, numbers_are_digits,
};
use crate::laws::worker::{
    delays_are_these, each_failure_counts_once, streams_are_turned_into_playlists,
};
use crate::relay::{
    directory_name, dsi_address, generated, index_of, is_dsi, is_dsi_uri, local_address, localized,
    no_store_headers, routes_are_stable, serve, sources_have_their_own_routes, status, url_source,
    valid_file, Body, FileRead, RelayView, Relays, Reply, Source, SourceView, StatusReply,
    UnknownCamera,
};
use crate::text::{
    before, decimal, file_lines, is_number, is_white, lines, strings, text_result, trim,
};
use crate::uri::{uri_parts, UriParts};
use crate::worker::{
    available_message, connecting_message, ffmpeg_args, retry_delay, retry_message, stream_args,
    Action, Cause, Event, Phase, Worker,
};
use vstd::prelude::*;

verus! {

/// A new worker is about to connect and has not failed yet.
pub proof fn new_workers_wait(r: Worker)
    requires
        call_ensures(Worker::new, (), r),
    ensures
        r.phase == Phase::Waiting,
        r.failures == 0,
{
}

/// At a look at the playlist a worker gives its stream up exactly if the playlist, or the
/// process where the playlist's age cannot be told, is older than 45 seconds. Else it shows
/// the stream exactly if there is a playlist, and forgets its failures exactly if the stream
/// has moreover run for more than 30 seconds.
pub proof fn looks_at_the_playlist(
    worker: &mut Worker,
    found: bool,
    age: Option<u128>,
    running: u128,
    r: Option<Action>,
)
    requires
        old(worker).phase == Phase::CheckingPlaylist,
        call_ensures(Worker::step, (worker, Event::PlaylistChecked { found, age, running }), r),
    ensures
        ({
            let old_enough = match age {
                Some(age) => age > 45_000_000_000,
                None => running > 45_000_000_000,
            };
            &&& old_enough <==> r is Some && r->0 is Retry
            &&& old_enough ==> {
                &&& r matches Some(Action::Retry { kill, cause, delay }) && kill && cause
                    == Cause::StreamStalled && 3 <= delay <= 30
                &&& final(worker).phase == Phase::Waiting
            }
            &&& !old_enough ==> {
                &&& r == Some(Action::Poll { announce: found })
                &&& final(worker).phase == Phase::Watching
                &&& found && running > 30_000_000_000 ==> final(worker).failures == 0
                &&& !(found && running > 30_000_000_000) ==> final(worker).failures
                    == old(worker).failures
            }
        }),
{
    delays_are_these(old(worker).failures as nat);
}

/// A worker that wakes, or whose time for a look has come, stops exactly if its relay has not
/// been asked for within 90 seconds, and ends the process if it has one.
pub proof fn looks_at_the_clock(worker: &mut Worker, idle: u128, r: Option<Action>)
    requires
        old(worker).phase == Phase::Waiting ==> call_ensures(
            Worker::step,
            (worker, Event::Woke { idle }),
            r,
        ),
        old(worker).phase == Phase::Watching ==> call_ensures(
            Worker::step,
            (worker, Event::Ticked { idle }),
            r,
        ),
        old(worker).phase == Phase::Waiting || old(worker).phase == Phase::Watching,
    ensures
        ({
            let watching = old(worker).phase == Phase::Watching;
            &&& final(worker).failures == old(worker).failures
            &&& idle > 90_000_000_000 ==> {
                &&& r == Some(Action::Stop { kill: watching })
                &&& final(worker).phase == Phase::Stopped
            }
            &&& idle <= 90_000_000_000 && watching ==> {
                &&& r == Some(Action::CheckProcess)
                &&& final(worker).phase == Phase::CheckingProcess
            }
            &&& idle <= 90_000_000_000 && !watching ==> {
                &&& r == Some(Action::Connect)
                &&& final(worker).phase == Phase::Connecting
            }
        }),
{
}

/// A stream that has been set up is watched; that it cannot be set up, that its process
/// cannot be asked after and that its process has ended are failures; and of a process that
/// runs the playlist is looked at.
pub proof fn looks_at_the_process(worker: &mut Worker, event: Event, r: Option<Action>)
    requires
        call_ensures(Worker::step, (worker, event), r),
    ensures
        ({
            let from = old(worker).phase;
            let to = final(worker).phase;
            &&& from == Phase::Connecting && event is Connected ==> {
                &&& r == Some(Action::Poll { announce: false })
                &&& to == Phase::Watching
                &&& final(worker).failures == old(worker).failures
            }
            &&& (from == Phase::Connecting || from == Phase::CheckingProcess) && event is Failed
                ==> {
                &&& r matches Some(Action::Retry { kill, cause, delay }) && !kill && cause
                    == Cause::Reported
                &&& to == Phase::Waiting
            }
            &&& from == Phase::CheckingProcess && event == (Event::ProcessChecked { exited: true })
                ==> {
                &&& r matches Some(Action::Retry { kill, cause, delay }) && !kill && cause
                    == Cause::StreamEnded
                &&& to == Phase::Waiting
            }
            &&& from == Phase::CheckingProcess && event == (Event::ProcessChecked { exited: false })
                ==> {
                &&& r == Some(Action::CheckPlaylist)
                &&& to == Phase::CheckingPlaylist
                &&& final(worker).failures == old(worker).failures
            }
        }),
{
}

/// Each failure is counted once and followed by a delay of 3, 6, 12, 24 or 30 seconds,
/// according to the number of failures before it. Events that a worker does not wait for
/// leave it as it is.
pub proof fn failures_and_other_events(worker: &mut Worker, event: Event, r: Option<Action>)
    requires
        call_ensures(Worker::step, (worker, event), r),
    ensures
        r matches Some(Action::Retry { kill, cause, delay }) ==> {
            let n = old(worker).failures;
            &&& final(worker).failures == (if n == 0xffff_ffff {
                0xffff_ffff
            } else {
                n + 1
            })
            &&& n == 0 ==> delay == 3
            &&& n == 1 ==> delay == 6
            &&& n == 2 ==> delay == 12
            &&& n == 3 ==> delay == 24
            &&& n >= 4 ==> delay == 30
        },
        r is None ==> *final(worker) == *old(worker),
        r is None <==> !match old(worker).phase {
            Phase::Waiting => event is Woke,
            Phase::Connecting => event is Connected || event is Failed,
            Phase::Watching => event is Ticked,
            Phase::CheckingProcess => event is ProcessChecked || event is Failed,
            Phase::CheckingPlaylist => event is PlaylistChecked,
            Phase::Stopped => false,
        },
{
    each_failure_counts_once(*old(worker), event);
}

/// The delay after so many failures in a row.
pub proof fn delays_after_failures(failures: u32, r: u64)
    requires
        call_ensures(retry_delay, (failures,), r),
    ensures
        failures == 0 ==> r == 3,
        failures == 1 ==> r == 6,
        failures == 2 ==> r == 12,
        failures == 3 ==> r == 24,
        failures >= 4 ==> r == 30,
{
    delays_are_these(failures as nat);
}

/// ffmpeg is given the address behind `-i`, and no other argument depends on it.
pub proof fn ffmpeg_is_given_the_address(
    url: &str,
    other: &str,
    r: Vec<String>,
    s: Vec<String>,
)
    requires
        call_ensures(ffmpeg_args, (url,), r),
        call_ensures(ffmpeg_args, (other,), s),
    ensures
        r@.len() == 37,
        s@.len() == 37,
        r@[12]@ == "-i"@,
        r@[13]@ == url@,
        forall|i: int| 0 <= i < 37 && i != 13 ==> (#[trigger] r@[i])@ == s@[i]@,
        forall|i: int|
            0 <= i < 37 && i != 13 ==> (#[trigger] r@[i])@ == stream_args(Seq::empty())[i],
{
    streams_are_turned_into_playlists(url@, other@);
    streams_are_turned_into_playlists(url@, Seq::empty());
    assert(strings(r@) == stream_args(url@));
    assert(strings(s@) == stream_args(other@));
    assert(strings(r@).len() == r@.len() && strings(s@).len() == s@.len());
    assert forall|i: int| 0 <= i < 37 implies #[trigger] r@[i]@ == stream_args(url@)[i] by {
        assert(strings(r@)[i] == r@[i]@);
    }
    assert forall|i: int| 0 <= i < 37 implies #[trigger] s@[i]@ == stream_args(other@)[i] by {
        assert(strings(s@)[i] == s@[i]@);
    }
}

/// What is shown of a worker.
pub proof fn workers_show_their_state(
    connecting: String,
    available: String,
    cause: Cause,
    reported: &str,
    delay: u64,
    retrying: String,
)
    requires
        call_ensures(connecting_message, (), connecting),
        call_ensures(available_message, (), available),
        call_ensures(retry_message, (cause, reported, delay), retrying),
    ensures
        connecting@ == "Получение адреса и подключение…"@,
        available@ == "Поток доступен"@,
        retrying@ == (match cause {
            Cause::Reported => reported@,
            Cause::StreamEnded => "DSI прервал поток; получаем свежую ссылку"@,
            Cause::StreamStalled => "Видео не поступает; обновляем адрес камеры"@,
        }) + ". Повтор через "@ + decimal(delay as nat) + " с."@,
{
}

/// Digits name the camera with that number, white space around them aside.
pub proof fn numbers_name_cameras(
    url: &str,
    left: Seq<char>,
    id: Seq<char>,
    right: Seq<char>,
    r: Result<String, PageError>,
)
    requires
        call_ensures(camera_id, (url,), r),
        url@ == left + id + right,
        all_white(left),
        all_white(right),
        id.len() > 0,
        forall|i: int| 0 <= i < id.len() ==> 48 <= (#[trigger] id[i]) as int <= 57,
    ensures
        r matches Ok(number) && number@ == id,
{
    numbers_are_digits(id);
    assert(48 <= id[0] as int <= 57 && 48 <= id[id.len() - 1] as int <= 57);
    crate::laws::dsi::cameras_are_named_by_number_or_page(left, id, right);
}

/// Of an address the camera's page names the camera: on the site, over HTTPS, and with the
/// camera's number in the page's path. Every other text is refused, each for its reason.
pub proof fn pages_name_cameras(uri: UriParts, r: Result<String, PageError>)
    requires
        call_ensures(page_camera_id, (&uri,), r),
    ensures
        ({
            let path = uri.path@;
            let first = before(path, '/');
            let site = uri@.scheme == Some("https"@) && uri@.host == Some("video.dsi.ru"@) && (
            uri.port is None || uri.port == Some(443u16));
            &&& !site <==> r == Err::<String, _>(PageError::OtherSite)
            &&& r matches Ok(id) ==> site && is_number(id@) && (path == first
                + "/account/camera/"@ + id@ + "/view.html"@ || path == first + "/account/camera/"@
                + id@ + "/url.html"@)
            &&& site && r is Err ==> r == Err::<String, _>(PageError::OtherPage) && forall|
                id: Seq<char>,
            | #[trigger]
                is_number(id) ==> path != first + "/account/camera/"@ + id + "/view.html"@ && path
                    != first + "/account/camera/"@ + id + "/url.html"@
        }),
{
    other_sites_are_refused(uri@);
    let site = uri@.scheme == Some("https"@) && uri@.host == Some("video.dsi.ru"@) && (
    uri.port is None || uri.port == Some(443u16));
    if site {
        match r {
            Ok(id) => {
                pages_name_their_camera(uri@, id@);
            },
            Err(e) => {
                pages_name_their_camera(uri@, Seq::empty());
                assert forall|id: Seq<char>| #[trigger] is_number(id) implies uri.path@ != before(
                    uri.path@,
                    '/',
                ) + "/account/camera/"@ + id + "/view.html"@ && uri.path@ != before(
                    uri.path@,
                    '/',
                ) + "/account/camera/"@ + id + "/url.html"@ by {
                    pages_name_their_camera(uri@, id);
                }
            },
        }
    }
}

/// A text that is no number names the camera that the page with this address names; one that
/// is no address either names none.
pub proof fn addresses_name_cameras_by_their_page(
    url: &str,
    uri: UriParts,
    r: Result<String, PageError>,
    s: Result<String, PageError>,
)
    requires
        call_ensures(camera_id, (url,), r),
        call_ensures(page_camera_id, (&uri,), s),
        !is_number(trim(url@)),
    ensures
        uri_parts(trim(url@)) == Some(uri@) ==> text_result(r) == text_result(s),
        uri_parts(trim(url@)) is None <==> r == Err::<String, _>(PageError::InvalidLink),
{
}

/// A list to which a line with a name and a number is added lists one more camera, behind the
/// others; if it was refused, it is refused as before.
pub proof fn listed_cameras_are_added_at_the_end(
    contents: &str,
    longer: &str,
    name: Seq<char>,
    id: Seq<char>,
    r: Result<Vec<(String, String)>, CameraListError>,
    s: Result<Vec<(String, String)>, CameraListError>,
)
    requires
        call_ensures(crate::dsi::parse_cameras, (contents,), r),
        call_ensures(crate::dsi::parse_cameras, (longer,), s),
        longer@ == contents@ + name + "|"@ + id + "\n"@,
        contents@.len() > 0 ==> contents@.last() == '\n' && contents@[0] != '\u{feff}',
        lines(contents@).len() < usize::MAX,
        name.len() > 0,
        name[0] != '\u{feff}',
        name[0] != '#',
        !is_white(name[0]),
        !is_white(name.last()),
        !name.contains('|'),
        !name.contains('\n'),
        is_number(id),
    ensures
        match r {
            Ok(cameras) => s matches Ok(more) && more@.len() == cameras@.len() + 1
                && more@.last().0@ == name && more@.last().1@ == id && forall|i: int|
                0 <= i < cameras@.len() ==> (#[trigger] more@[i]).0@ == cameras@[i].0@ && more@[i].1@
                    == cameras@[i].1@,
            Err(e) => s == Err::<Vec<(String, String)>, _>(e),
        },
        contents@.len() == 0 ==> (r matches Ok(cameras) && cameras@.len() == 0),
{
    crate::laws::dsi::cameras_are_added_at_the_end(contents@, name, id);
    marks_are_skipped(contents@, 0);
    let pair = |pair: (String, String)| crate::text::pair_text(pair);
    if r is Ok {
        let cameras = r->Ok_0;
        let more = s->Ok_0;
        let a = cameras@.map_values(pair);
        let b = more@.map_values(pair);
        assert(b == a.push((name, id)));
        assert(b.last() == crate::text::pair_text(more@.last()));
        assert forall|i: int| 0 <= i < cameras@.len() implies (#[trigger] more@[i]).0@
            == cameras@[i].0@ && more@[i].1@ == cameras@[i].1@ by {
            assert(a[i] == crate::text::pair_text(cameras@[i]));
            assert(b[i] == crate::text::pair_text(more@[i]));
            assert(a[i] == b[i]);
        }
    }
}

/// The error of a list of cameras is shown with its line in decimal.
pub proof fn camera_list_errors_are_shown(e: CameraListError, r: String)
    requires
        call_ensures(CameraListError::message, (&e,), r),
    ensures
        r@ == match e {
            CameraListError::NoBar { line } => "dsi-cameras.txt, строка "@ + decimal(line as nat)
                + ": ожидается Название | ID"@,
            CameraListError::NoName { line } => "dsi-cameras.txt, строка "@ + decimal(line as nat)
                + ": укажите название"@,
            CameraListError::NoCamera { line, cause } => "dsi-cameras.txt, строка "@ + decimal(
                line as nat,
            ) + ": укажите номер камеры или ссылку её страницы DSI"@,
        },
{
}

/// A list is read line by line, without the byte order marks at its beginning.
pub proof fn lists_are_read_by_line(
    contents: &str,
    r: Result<Vec<(String, String)>, CameraListError>,
    s: Result<Vec<Camera>, StreamListError>,
)
    requires
        call_ensures(crate::dsi::parse_cameras, (contents,), r),
        call_ensures(crate::config::parse_cameras, (contents,), s),
    ensures
        pairs_result(r) == listed_cameras(file_lines(contents@)),
        cameras_result(s) == listed_streams(file_lines(contents@)),
{
}

/// Errors are shown by their texts.
pub proof fn errors_are_shown(
    page: PageError,
    cookie: CookieError,
    stream: StreamError,
    reply: ReplyError,
    file: ListFile,
    r: (String, String, String, String, String),
)
    requires
        call_ensures(PageError::message, (&page,), r.0),
        call_ensures(CookieError::message, (&cookie,), r.1),
        call_ensures(StreamError::message, (&stream,), r.2),
        call_ensures(ReplyError::message, (&reply,), r.3),
        call_ensures(ListFile::message, (&file,), r.4),
    ensures
        r.0@ == page.text(),
        r.1@ == cookie.text(),
        r.2@ == stream.text(),
        r.3@ == reply.text(),
        r.4@ == file.text(),
{
}

/// A cookie without quotation marks is taken as it stands.
pub proof fn plain_cookies_are_read(
    contents: &str,
    value: Seq<char>,
    r: Result<String, CookieError>,
)
    requires
        call_ensures(cookie, (contents,), r),
        contents@ == "DSI_COOKIE="@ + value,
        value.len() > 0,
        !holds_control(value),
        !is_white(value[0]),
        !is_white(value.last()),
        value[0] != '\'',
        value[0] != '"',
    ensures
        r matches Ok(text) && text@ == value,
{
    plain_cookies_are_kept(value);
}

/// The first line that sets the cookie gives it, whatever stands before and after that line.
/// What stands between two equal quotation marks is the cookie, or else the whole value; one
/// quotation mark alone, nothing, and anything with a control character is refused. If no
/// line sets it, it is missing.
pub proof fn cookies_are_read(
    contents: &str,
    earlier: Seq<Seq<char>>,
    left: Seq<char>,
    gap: Seq<char>,
    value: Seq<char>,
    right: Seq<char>,
    later: Seq<Seq<char>>,
    r: Result<String, CookieError>,
)
    requires
        call_ensures(cookie, (contents,), r),
        lines(contents@) == earlier + seq![left + "DSI_COOKIE="@ + gap + value + right] + later,
        forall|i: int|
            0 <= i < earlier.len() ==> !"DSI_COOKIE="@.is_prefix_of(trim(#[trigger] earlier[i])),
        all_white(left),
        all_white(gap),
        all_white(right),
        value.len() > 0 ==> !is_white(value[0]) && !is_white(value.last()),
    ensures
        ({
            let lone = value == seq!['\''] || value == seq!['"'];
            let quoted = value.len() >= 2 && value[0] == value.last() && (value[0] == '\''
                || value[0] == '"');
            let inside = if quoted {
                value.subrange(1, value.len() - 1)
            } else {
                value
            };
            &&& lone <==> r == Err::<String, _>(CookieError::LoneQuote)
            &&& !lone && (inside.len() == 0 || holds_control(inside)) <==> r == Err::<String, _>(
                CookieError::Unusable,
            )
            &&& !lone && inside.len() > 0 && !holds_control(inside) ==> r is Ok
            &&& r matches Ok(text) ==> text@ == inside
        }),
{
    settings_give_their_value(earlier, left, gap, value, right, later);
    let quoted = value.len() >= 2 && value[0] == value.last() && (value[0] == '\'' || value[0]
        == '"');
    if quoted {
        let inside = value.subrange(1, value.len() - 1);
        assert(value == seq![value[0]] + inside + seq![value[0]]);
        quotation_marks_are_taken_off(value[0], inside);
        assert(value.len() != seq!['\''].len());
    } else if value == seq!['\''] {
        quotation_marks_are_taken_off('\'', value);
    } else if value == seq!['"'] {
        quotation_marks_are_taken_off('"', value);
    } else {
        plain_values_are_kept(value);
    }
}

/// The cookie is missing exactly if no line sets it.
pub proof fn cookies_may_be_missing(contents: &str, r: Result<String, CookieError>)
    requires
        call_ensures(cookie, (contents,), r),
    ensures
        r == Err::<String, _>(CookieError::Missing) <==> forall|i: int|
            0 <= i < lines(contents@).len() ==> !"DSI_COOKIE="@.is_prefix_of(
                trim(#[trigger] lines(contents@)[i]),
            ),
{
    settings_may_be_missing(contents@);
}

/// A stream below `/rtsp/` at DSI has its playlist below `/hls/`, in the directory of its
/// token, at the same authority; one below `/hls/` has it in its own directory.
pub proof fn streams_have_their_playlists(
    value: &str,
    directory: Seq<char>,
    slashes: nat,
    r: Result<String, StreamError>,
)
    requires
        call_ensures(hls_url, (value,), r),
        uri_parts(value@) matches Some(uri) && uri.scheme == Some("https"@) && uri.query is None,
        dsi_address(value@),
        directory.len() > 0,
        directory.last() != '/',
    ensures
        ({
            let uri = uri_parts(value@)->0;
            &&& uri.path == "/rtsp/"@ + directory + copies('/', slashes) ==> (r matches Ok(url)
                && exists|path: Seq<char>|
                url@ == "https://"@ + uri.authority->0 + path && #[trigger] ends_as_playlist(
                    "/hls/"@ + directory,
                    path,
                ))
            &&& uri.path == directory + copies('/', slashes) && "/hls/"@.is_prefix_of(uri.path)
                ==> (r matches Ok(url) && exists|path: Seq<char>|
                url@ == "https://"@ + uri.authority->0 + path && #[trigger] ends_as_playlist(
                    directory,
                    path,
                ))
        }),
{
    let uri = uri_parts(value@)->0;
    if uri.path == "/rtsp/"@ + directory + copies('/', slashes) {
        rtsp_streams_have_hls_playlists(value@, uri, directory, slashes);
    }
    if uri.path == directory + copies('/', slashes) && "/hls/"@.is_prefix_of(uri.path) {
        hls_streams_keep_their_directory(value@, uri, directory, slashes);
    }
}

/// A stream's address is refused for these reasons and no others.
pub proof fn stream_addresses_are_refused(value: &str, r: Result<String, StreamError>)
    requires
        call_ensures(hls_url, (value,), r),
    ensures
        uri_parts(value@) is None <==> r == Err::<String, _>(StreamError::Invalid),
        uri_parts(value@) matches Some(uri) ==> {
            let fits = uri.scheme == Some("https"@) && dsi_address(value@) && uri.query is None;
            let known = "/rtsp/"@.is_prefix_of(uri.path) || "/hls/"@.is_prefix_of(uri.path);
            &&& !fits <==> r == Err::<String, _>(StreamError::Unexpected)
            &&& fits && !known <==> r == Err::<String, _>(StreamError::UnknownFormat)
            &&& fits && known <==> r is Ok
        },
{
    crate::laws::dsi::stream_addresses_are_refused_for_these_reasons(value@);
}

/// The path of a stream's playlist follows from the components of its address.
pub proof fn playlist_paths_are_those_of_streams(
    uri: UriParts,
    dsi: bool,
    directory: Seq<char>,
    slashes: nat,
    r: Result<String, StreamError>,
)
    requires
        call_ensures(playlist_path_of, (&uri, dsi), r),
        directory.len() > 0,
        directory.last() != '/',
    ensures
        ({
            let fits = uri@.scheme == Some("https"@) && dsi && uri.query is None;
            let rtsp = "/rtsp/"@.is_prefix_of(uri.path@);
            let hls = "/hls/"@.is_prefix_of(uri.path@);
            &&& !fits <==> r == Err::<String, _>(StreamError::Unexpected)
            &&& fits && !rtsp && !hls <==> r == Err::<String, _>(StreamError::UnknownFormat)
            &&& fits && uri.path@ == "/rtsp/"@ + directory + copies('/', slashes) ==> (r matches Ok(
                path,
            ) && ends_as_playlist("/hls/"@ + directory, path@))
            &&& fits && hls && uri.path@ == directory + copies('/', slashes) ==> (r matches Ok(path)
                && ends_as_playlist(directory, path@))
        }),
{
    reveal_strlit("/rtsp/");
    reveal_strlit("/hls/");
    let path = uri.path@;
    crate::laws::dsi::lemma_ends_as_playlist("/hls/"@ + directory);
    crate::laws::dsi::lemma_ends_as_playlist(directory);
    copies_are_stripped(directory, '/', slashes);
    if path == "/rtsp/"@ + directory + copies('/', slashes) {
        assert("/rtsp/"@.is_prefix_of(path));
        assert(path.skip(6) == directory + copies('/', slashes));
    }
    if "/hls/"@.is_prefix_of(path) {
        assert(!"/rtsp/"@.is_prefix_of(path)) by {
            assert(path.subrange(0, 5)[1] == 'h');
            assert("/rtsp/"@.is_prefix_of(path) ==> path.subrange(0, 6)[1] == 'r');
        }
    }
}

/// A request to the API holds the session cookie, escaped, in what goes to curl's standard
/// input, and names the camera in its last two arguments; the cookie appears in no argument,
/// and there is no request without a cookie.
pub proof fn requests_hold_cookie_and_camera(
    contents: &str,
    id: &str,
    millis: u128,
    other_contents: &str,
    c: Result<String, CookieError>,
    r: Result<ApiRequest, CookieError>,
    s: Result<ApiRequest, CookieError>,
)
    requires
        call_ensures(cookie, (contents,), c),
        call_ensures(api_request, (contents, id, millis), r),
        call_ensures(api_request, (other_contents, id, millis), s),
    ensures
        match c {
            Ok(cookie) => r matches Ok(request) && request.input@ == "cookie = \""@ + escaped(
                cookie@,
            ) + "\"\n"@,
            Err(e) => r == Err::<ApiRequest, _>(e),
        },
        r matches Ok(request) ==> {
            &&& request.args@.len() == 20
            &&& request.args@[9]@ == "--config"@
            &&& request.args@[10]@ == "-"@
            &&& request.args@[18]@ == "https://video.dsi.ru/account/camera/"@ + id@
                + "/view.html"@
            &&& request.args@[19]@ == "https://video.dsi.ru/account/camera/"@ + id@
                + "/url.html?time=&timeZoneOffset=10800&format=hls&_="@ + decimal(millis as nat)
        },
        r is Ok && s is Ok ==> r->Ok_0.args@.len() == s->Ok_0.args@.len() && forall|i: int|
            0 <= i < r->Ok_0.args@.len() ==> (#[trigger] r->Ok_0.args@[i])@ == s->Ok_0.args@[i]@,
{
    requests_name_their_camera(id@, id@, millis as nat, millis as nat);
    let args = crate::dsi::api_args(id@, millis as nat);
    if r is Ok {
        let a = r->Ok_0.args@;
        assert(strings(a) == args);
        assert(strings(a).len() == a.len());
        assert forall|i: int| 0 <= i < 20 implies (#[trigger] a[i])@ == args[i] by {
            assert(strings(a)[i] == a[i]@);
        }
        if s is Ok {
            let b = s->Ok_0.args@;
            assert(strings(b) == args);
            assert(strings(b).len() == b.len());
            assert forall|i: int| 0 <= i < 20 implies (#[trigger] b[i])@ == args[i] by {
                assert(strings(b)[i] == b[i]@);
            }
        }
    }
}

/// A cookie is escaped character by character.
pub proof fn cookies_are_escaped(
    whole: &str,
    a: Seq<char>,
    c: char,
    b: Seq<char>,
    r: String,
)
    requires
        call_ensures(escape, (whole,), r),
        whole@ == a + seq![c] + b,
    ensures
        r@ == escaped(a) + (if c == '\\' || c == '"' {
            seq!['\\', c]
        } else {
            seq![c]
        }) + escaped(b),
{
    crate::laws::dsi::cookies_are_escaped_by_character(a, c, b);
}

/// What a reply of the API leads to is a playlist over HTTPS, at the authority of the address
/// that the reply holds, below `/hls/`; never the address of a stream below `/rtsp/`.
pub proof fn replies_lead_to_playlists(success: bool, body: &[u8], r: Result<String, ReplyError>)
    requires
        call_ensures(api_reply, (success, body), r),
    ensures
        r matches Ok(url) ==> {
            &&& success
            &&& json_member(body@, "Error"@) == Some(JsonView::Bool(false))
            &&& json_member(body@, "Status"@) == Some(JsonView::Bool(true))
            &&& json_member(body@, "URL"@) matches Some(JsonView::Text(value))
            &&& uri_parts(value) matches Some(uri)
            &&& uri.scheme == Some("https"@)
            &&& uri.query is None
            &&& dsi_address(value)
            &&& ("https://"@ + uri.authority->0).is_prefix_of(url@)
            &&& ({
                let path = url@.skip(("https://"@ + uri.authority->0).len() as int);
                &&& "/hls/"@.is_prefix_of(path)
                &&& "/playlist.m3u8"@.is_suffix_of(path)
                &&& !"/rtsp/"@.is_prefix_of(path)
            })
        },
{
    if r is Ok {
        replies_lead_to_hls_playlists(success, body@);
    }
}

/// A reply is taken exactly if curl reports success, it is JSON, it reports no error and the
/// right status, and it holds an address; then it leads to what that address leads to. Else
/// it is refused for the first of these that fails.
pub proof fn replies_lead_where_their_address_leads(
    success: bool,
    body: &[u8],
    value: &str,
    r: Result<String, ReplyError>,
    s: Result<String, StreamError>,
)
    requires
        call_ensures(api_reply, (success, body), r),
        call_ensures(hls_url, (value,), s),
    ensures
        ({
            let error = json_member(body@, "Error"@);
            let status = json_member(body@, "Status"@);
            let url = json_member(body@, "URL"@);
            let json = error is Some && status is Some && url is Some;
            let good = error == Some(JsonView::Bool(false)) && status == Some(JsonView::Bool(true));
            &&& !success ==> r == Err::<String, _>(ReplyError::Unavailable)
            &&& success && !json ==> r == Err::<String, _>(ReplyError::NoSession)
            &&& success && json && !good ==> r == Err::<String, _>(ReplyError::Refused)
            &&& success && json && good && !(url->0 is Text) ==> r == Err::<String, _>(
                ReplyError::NoAddress,
            )
            &&& success && json && good && url == Some(JsonView::Text(value@)) ==> match s {
                Ok(playlist) => r matches Ok(text) && text@ == playlist@,
                Err(e) => r == Err::<String, _>(ReplyError::Stream(e)),
            }
        }),
{
}

/// An offer is the text of the address, all of it, or refused.
pub proof fn offers_are_taken_whole(
    error: JsonValue,
    status: JsonValue,
    url: JsonValue,
    r: Result<String, ReplyError>,
)
    requires
        call_ensures(offered, (&error, &status, &url), r),
    ensures
        ({
            let good = error == JsonValue::Bool(false) && status == JsonValue::Bool(true);
            &&& !good <==> r == Err::<String, _>(ReplyError::Refused)
            &&& good && !(url is Text) <==> r == Err::<String, _>(ReplyError::NoAddress)
            &&& r matches Ok(text) ==> url matches JsonValue::Text(address) && text@ == address@
        }),
{
}

/// An address is at DSI exactly if, up to its fragment, it is one over HTTP or HTTPS at a
/// host that is `dsi.ru`, letters in either case, or ends with that behind a dot.
pub proof fn addresses_at_dsi(url: &str, head: Seq<char>, fragment: Seq<char>, r: bool)
    requires
        call_ensures(is_dsi, (url,), r),
        !head.contains('#'),
        url@ == head || url@ == head + seq!['#'] + fragment,
    ensures
        r <==> (uri_parts(head) matches Some(uri) && (uri.scheme == Some("http"@) || uri.scheme
            == Some("https"@)) && (uri.host matches Some(host) && ends_in_dsi(host) && (host.len()
            > 6 ==> host[host.len() - 7] == '.'))),
{
    dsi_addresses_are_these(head, fragment);
    if uri_parts(head) is Some && (uri_parts(head)->0).host is Some {
        dsi_hosts_are_these((uri_parts(head)->0).host->0);
    }
}

/// Scheme and host decide whether an address is at DSI, and scheme and the presence of a host
/// whether it is one of the web.
pub proof fn components_decide(uri: UriParts, r: bool, s: bool)
    requires
        call_ensures(is_dsi_uri, (&uri,), r),
        call_ensures(is_web_uri, (&uri,), s),
    ensures
        ({
            let web = uri@.scheme == Some("http"@) || uri@.scheme == Some("https"@);
            &&& r <==> web && (uri.host matches Some(host) && ends_in_dsi(host@) && (host@.len() > 6
                ==> host@[host@.len() - 7] == '.'))
            &&& s <==> web && uri.host is Some
        }),
{
    if uri.host is Some {
        dsi_hosts_are_these((uri.host->0)@);
    }
}

/// The files that are served are the playlist and segments with a number.
pub proof fn only_these_files_are_served(name: &str, r: bool)
    requires
        call_ensures(valid_file, (name,), r),
    ensures
        r <==> name@ == "index.m3u8"@ || {
            &&& name@.len() > 11
            &&& name@.take(8) == "segment_"@
            &&& name@.skip(name@.len() - 3) == ".ts"@
            &&& forall|i: int|
                8 <= i < name@.len() - 3 ==> 48 <= (#[trigger] name@[i]) as int <= 57
        },
{
    served_files_are_these(name@);
}

/// A file that was read is served whole, byte for byte, as what its name says it is; one that
/// is not there yet, one that cannot be read and every other name are answered without it.
pub proof fn files_are_answered(name: &str, read: FileRead, r: Reply)
    requires
        call_ensures(serve, (name, read), r),
    ensures
        ({
            let served = generated(name@);
            &&& served && read is Found <==> r.status == 200
            &&& served ==> (read matches FileRead::Found(bytes) ==> {
                &&& r.body matches Body::Bytes(body) && body@ == bytes@
                &&& r.headers@.len() == 2
                &&& r.headers@[0].0@ == "content-type"@
                &&& name@ == "index.m3u8"@ ==> r.headers@[0].1@ == "application/vnd.apple.mpegurl"@
                &&& name@ != "index.m3u8"@ ==> r.headers@[0].1@ == "video/mp2t"@
                &&& r.headers@[1].0@ == "cache-control"@
                &&& r.headers@[1].1@ == "no-store"@
            })
            &&& served && read is Missing ==> {
                &&& r.status == 503
                &&& r.headers@.len() == 2
                &&& r.headers@[0].0@ == "retry-after"@
                &&& r.headers@[0].1@ == "3"@
                &&& r.headers@[1].0@ == "cache-control"@
                &&& r.headers@[1].1@ == "no-store"@
                &&& r.body matches Body::Text(text) && text@ == "Camera is connecting"@
            }
            &&& served && read is Failed ==> {
                &&& r.status == 502
                &&& r.headers@.len() == 0
                &&& r.body matches Body::Text(text) && text@ == "Camera relay unavailable"@
            }
            &&& !served ==> r.status == 404 && r.headers@.len() == 0 && r.body is Empty
        }),
{
    files_may_be_missing(name@, read);
    let shown = crate::relay::header_texts(r.headers@);
    assert(r@.headers == shown);
    assert(shown.len() == r.headers@.len());
    assert forall|i: int| 0 <= i < r.headers@.len() implies #[trigger] shown[i] == (
        r.headers@[i].0@,
        r.headers@[i].1@,
    ) by {}
    if generated(name@) {
        if let FileRead::Found(bytes) = read {
            files_are_served_whole(name@, bytes);
            assert(r@.body->Bytes_0 == bytes@);
        }
        if read is Found || read is Missing {
            assert(shown[0] == (r.headers@[0].0@, r.headers@[0].1@));
            assert(shown[1] == (r.headers@[1].0@, r.headers@[1].1@));
        }
    }
}

/// A new table is empty.
pub proof fn new_tables_are_empty(r: Relays)
    requires
        call_ensures(Relays::new, (), r),
    ensures
        r@.len() == 0,
        r.wf(),
{
}

/// A camera of the account is given the address of the relay that has this camera as its
/// source: found, or added behind all others. The others stay as they are.
pub proof fn account_cameras_have_their_relay(
    relays: &mut Relays,
    id: String,
    now: u128,
    r: String,
)
    requires
        old(relays).wf(),
        call_ensures(Relays::account_url, (relays, id, now), r),
    ensures
        final(relays).wf(),
        ({
            let table = old(relays)@;
            let after = final(relays)@;
            &&& exists|n: nat|
                n < after.len() && after[n as int].source == SourceView::Account(id@) && r@
                    == "/relay/"@ + #[trigger] decimal(n) + "/index.m3u8"@
            &&& after == table || after.len() == table.len() + 1 && after.drop_last() == table
                && after.last() == (RelayView {
                source: SourceView::Account(id@),
                message: "Подключение…"@,
                last_access: now,
            })
            &&& (exists|i: int|
                0 <= i < table.len() && #[trigger] table[i].source == SourceView::Account(id@))
                <==> after == table
        }),
{
    let source = SourceView::Account(id@);
    relays_are_added_at_the_end(old(relays)@, source, now);
    routes_are_stable(old(relays)@, source, now, now);
    numbers_are_those_of_the_sources(old(relays)@, source);
    numbers_are_those_of_the_sources(final(relays)@, source);
    let n = index_of(final(relays)@, source);
    assert(r@ == "/relay/"@ + decimal(n) + "/index.m3u8"@);
}

/// Two cameras of the account that are asked for one after the other are given one address
/// exactly if they are the same camera; the second request for a camera adds no relay.
pub proof fn account_cameras_are_told_apart(
    first: &mut Relays,
    id: String,
    now: u128,
    r: String,
    second: &mut Relays,
    other: String,
    later: u128,
    s: String,
)
    requires
        old(first).wf(),
        call_ensures(Relays::account_url, (first, id, now), r),
        *old(second) == *final(first),
        call_ensures(Relays::account_url, (second, other, later), s),
    ensures
        r@ == s@ <==> id@ == other@,
        id@ == other@ ==> final(second)@ == final(first)@,
{
    let a = SourceView::Account(id@);
    let b = SourceView::Account(other@);
    if id@ == other@ {
        routes_are_stable(old(first)@, a, now, later);
    } else {
        sources_have_their_own_routes(old(first)@, a, b, now);
    }
}

/// An address at DSI is given the address of the relay that has it, query and all but without
/// its fragment, as its source: found, or added behind all others. Every other address is
/// given as it stands, and no relay is added.
pub proof fn addresses_have_their_relay(
    relays: &mut Relays,
    url: &str,
    head: Seq<char>,
    fragment: Seq<char>,
    now: u128,
    r: String,
)
    requires
        old(relays).wf(),
        !head.contains('#'),
        url@ == head || url@ == head + seq!['#'] + fragment,
        call_ensures(Relays::local_url, (relays, url, now), r),
    ensures
        final(relays).wf(),
        !dsi_address(head) ==> r@ == url@ && final(relays)@ == old(relays)@,
        dsi_address(head) ==> {
            let table = old(relays)@;
            let after = final(relays)@;
            &&& exists|n: nat|
                n < after.len() && after[n as int].source == SourceView::Url(head) && r@
                    == "/relay/"@ + #[trigger] decimal(n) + "/index.m3u8"@
            &&& after == table || after.len() == table.len() + 1 && after.drop_last() == table
                && after.last() == (RelayView {
                source: SourceView::Url(head),
                message: "Подключение…"@,
                last_access: now,
            })
            &&& (exists|i: int|
                0 <= i < table.len() && #[trigger] table[i].source == SourceView::Url(head))
                <==> after == table
        },
{
    addresses_lead_to_their_source(old(relays)@, head, fragment, now);
    dsi_addresses_are_these(head, fragment);
    crate::laws::relay::whole_addresses_are_relayed(head, fragment);
    if dsi_address(head) {
        let source = SourceView::Url(head);
        relays_are_added_at_the_end(old(relays)@, source, now);
        let n = index_of(final(relays)@, source);
        assert(r@ == "/relay/"@ + decimal(n) + "/index.m3u8"@);
    }
}

/// Two addresses at DSI, without fragments, that are asked for one after the other are given
/// one address exactly if they are equal.
pub proof fn addresses_are_told_apart(
    first: &mut Relays,
    a: &str,
    now: u128,
    r: String,
    second: &mut Relays,
    b: &str,
    later: u128,
    s: String,
)
    requires
        old(first).wf(),
        call_ensures(Relays::local_url, (first, a, now), r),
        *old(second) == *final(first),
        call_ensures(Relays::local_url, (second, b, later), s),
        !a@.contains('#'),
        !b@.contains('#'),
        dsi_address(a@),
        dsi_address(b@),
    ensures
        r@ == s@ <==> a@ == b@,
        a@ == b@ ==> final(second)@ == final(first)@,
{
    different_addresses_have_their_own_routes(old(first)@, a@, b@, now);
    if a@ == b@ {
        routes_are_stable(old(first)@, url_source(a@), now, later);
    }
}

/// A request for a file of a relay counts from its moment on, and leaves everything else as
/// it is. It starts a worker, on the relay's source, exactly if it is for the playlist and no
/// worker is running. A relay that there is not is reported.
pub proof fn requests_are_noted(
    relays: &mut Relays,
    id: usize,
    name: &str,
    running: bool,
    now: u128,
    r: Result<Option<Source>, UnknownCamera>,
    after: &Relays,
    other: usize,
    later: u128,
    idle: Option<u128>,
)
    requires
        old(relays).wf(),
        call_ensures(Relays::file, (relays, id, name, running, now), r),
        *after == *final(relays),
        call_ensures(Relays::idle, (after, other, later), idle),
    ensures
        final(relays).wf(),
        final(relays)@.len() == old(relays)@.len(),
        r is Err <==> id >= old(relays)@.len(),
        r is Err ==> final(relays)@ == old(relays)@,
        r matches Ok(start) ==> {
            &&& start is Some <==> name@ == "index.m3u8"@ && !running
            &&& start matches Some(source) ==> source@ == old(relays)@[id as int].source
        },
        forall|i: int|
            0 <= i < old(relays)@.len() ==> {
                let relay = #[trigger] final(relays)@[i];
                &&& relay.source == old(relays)@[i].source
                &&& relay.message == old(relays)@[i].message
                &&& i != id ==> relay.last_access == old(relays)@[i].last_access
            },
        idle is None <==> other >= old(relays)@.len(),
        other == id && id < old(relays)@.len() ==> idle == Some(
            if later >= now {
                (later - now) as u128
            } else {
                0u128
            },
        ),
        other != id && other < old(relays)@.len() ==> {
            let last = old(relays)@[other as int].last_access;
            idle == Some(
                if later >= last {
                    (later - last) as u128
                } else {
                    0u128
                },
            )
        },
{
}

/// What was last set to be shown of a relay is shown of it, and answered; nothing else of any
/// relay changes, nor does asking for it change anything.
pub proof fn statuses_are_kept(
    relays: &mut Relays,
    id: usize,
    message: String,
    after: &Relays,
    other: usize,
    shown: Option<String>,
    reply: StatusReply,
)
    requires
        old(relays).wf(),
        call_ensures(Relays::set_status, (relays, id, message), ()),
        *after == *final(relays),
        call_ensures(Relays::message, (after, other), shown),
        call_ensures(status, (after, other), reply),
    ensures
        final(relays).wf(),
        final(relays)@.len() == old(relays)@.len(),
        forall|i: int|
            0 <= i < old(relays)@.len() ==> {
                let relay = #[trigger] final(relays)@[i];
                &&& relay.source == old(relays)@[i].source
                &&& relay.last_access == old(relays)@[i].last_access
                &&& relay.message == (if i == id {
                    message@
                } else {
                    old(relays)@[i].message
                })
            },
        other < old(relays)@.len() ==> {
            let text = if other == id {
                message@
            } else {
                old(relays)@[other as int].message
            };
            &&& shown matches Some(shown) && shown@ == text
            &&& reply.status == 200
            &&& reply.message matches Some(shown) && shown@ == text
            &&& reply.headers@.len() == 1
            &&& reply.headers@[0].0@ == "cache-control"@
            &&& reply.headers@[0].1@ == "no-store"@
        },
        other >= old(relays)@.len() ==> {
            &&& shown is None
            &&& reply.status == 404
            &&& reply.message is None
            &&& reply.headers@.len() == 0
        },
{
    let headers = crate::relay::header_texts(reply.headers@);
    assert(reply@.headers == headers);
    assert(headers.len() == reply.headers@.len());
    if other < old(relays)@.len() {
        assert(headers[0] == (reply.headers@[0].0@, reply.headers@[0].1@));
    }
}

/// The directory of a run is named after its process and its moment, both in decimal.
pub proof fn directories_are_named_after_the_run(pid: u32, nanos: u128, r: String)
    requires
        call_ensures(directory_name, (pid, nanos), r),
    ensures
        r@ == "ferrumview-"@ + decimal(pid as nat) + "-"@ + decimal(nanos as nat),
{
}

/// What is not to be kept is marked as such.
pub proof fn answers_are_not_kept(r: Vec<(String, String)>)
    requires
        call_ensures(no_store_headers, (), r),
    ensures
        r@.len() == 1,
        r@[0].0@ == "cache-control"@,
        r@[0].1@ == "no-store"@,
{
    let headers = crate::relay::header_texts(r@);
    assert(headers.len() == r@.len());
    assert(headers[0] == (r@[0].0@, r@[0].1@));
}

/// A list to which a line with a name and a web address is added lists one more camera, behind
/// the others; if it was refused, it is refused as before.
pub proof fn listed_streams_are_added_at_the_end(
    contents: &str,
    longer: &str,
    name: Seq<char>,
    url: Seq<char>,
    r: Result<Vec<Camera>, StreamListError>,
    s: Result<Vec<Camera>, StreamListError>,
)
    requires
        call_ensures(crate::config::parse_cameras, (contents,), r),
        call_ensures(crate::config::parse_cameras, (longer,), s),
        longer@ == contents@ + name + "|"@ + url + "\n"@,
        contents@.len() > 0 ==> contents@.last() == '\n' && contents@[0] != '\u{feff}',
        lines(contents@).len() < usize::MAX,
        name.len() > 0,
        name[0] != '\u{feff}',
        name[0] != '#',
        !is_white(name[0]),
        !is_white(name.last()),
        !name.contains('|'),
        !name.contains('\n'),
        url.len() > 0,
        !is_white(url[0]),
        !is_white(url.last()),
        !url.contains('\n'),
        uri_parts(before(url, '#')) matches Some(uri) && (uri.scheme == Some("http"@) || uri.scheme
            == Some("https"@)) && uri.host is Some,
    ensures
        match r {
            Ok(cameras) => s matches Ok(more) && more@.len() == cameras@.len() + 1
                && more@.last().name@ == name && more@.last().url@ == url && forall|i: int|
                0 <= i < cameras@.len() ==> (#[trigger] more@[i]).name@ == cameras@[i].name@
                    && more@[i].url@ == cameras@[i].url@,
            Err(e) => s == Err::<Vec<Camera>, _>(e),
        },
        contents@.len() == 0 ==> (r matches Ok(cameras) && cameras@.len() == 0),
{
    crate::laws::config::cameras_are_added_at_the_end(contents@, name, url);
    marks_are_skipped(contents@, 0);
    if r is Ok {
        let cameras = r->Ok_0;
        let more = s->Ok_0;
        let a = cameras_view(cameras@);
        let b = cameras_view(more@);
        assert(b == a.push(CameraView { name, url }));
        assert(b.last() == more@.last()@);
        assert forall|i: int| 0 <= i < cameras@.len() implies (#[trigger] more@[i]).name@
            == cameras@[i].name@ && more@[i].url@ == cameras@[i].url@ by {
            assert(a[i] == cameras@[i]@);
            assert(b[i] == more@[i]@);
            assert(a[i] == b[i]);
        }
    }
}

/// The error of a list of streams is shown with its line in decimal.
pub proof fn stream_list_errors_are_shown(e: StreamListError, r: String)
    requires
        call_ensures(StreamListError::message, (&e,), r),
    ensures
        r@ == match e {
            StreamListError::NoBar { line } => "Строка "@ + decimal(line as nat)
                + ": ожидается Название | URL"@,
            StreamListError::InvalidUrl { line } => "Строка "@ + decimal(line as nat)
                + ": некорректный URL"@,
            StreamListError::NotWeb { line } => "Строка "@ + decimal(line as nat)
                + ": нужны название и HTTP(S) URL"@,
        },
{
}

/// Where the viewer is told to find `url`: at the playlist of the relay that has it as its
/// source, without its fragment, if it is at DSI, and else at `url` itself.
pub open spec fn is_found_at(table: Seq<RelayView>, url: Seq<char>, local: Seq<char>) -> bool {
    if dsi_address(url) {
        exists|n: nat|
            n < table.len() && table[n as int].source == SourceView::Url(before(url, '#')) && local
                == "/relay/"@ + #[trigger] decimal(n) + "/index.m3u8"@
    } else {
        local == url
    }
}

/// An address is found where the table, extended or not, has its source.
proof fn lemma_is_found_at(entries: Seq<RelayView>, url: Seq<char>, after: Seq<RelayView>)
    requires
        is_covered(entries, url),
        entries.is_prefix_of(after),
    ensures
        is_found_at(after, url, local_address(entries, url)),
{
    if dsi_address(url) {
        let source = url_source(url);
        let n = index_of(entries, source);
        numbers_are_those_of_the_sources(entries, source);
        assert(after.subrange(0, entries.len() as int)[n as int] == after[n as int]);
        assert(local_address(entries, url) == "/relay/"@ + decimal(n) + "/index.m3u8"@);
    }
}

/// The viewer is given the listed cameras in their order, each under its name and where it is
/// found, and where the other stream is found. Relays are only added, behind those that there
/// are: for the cameras in turn, then for the other stream, and for nothing else. If the list
/// is refused, so is the configuration, and no relay is added.
pub proof fn configurations_follow_the_list(
    relays: &mut Relays,
    contents: &str,
    stream_url: &str,
    now: u128,
    listed: Result<Vec<Camera>, StreamListError>,
    r: Result<CameraConfig, StreamListError>,
)
    requires
        old(relays).wf(),
        call_ensures(crate::config::parse_cameras, (contents,), listed),
        call_ensures(config, (relays, contents, stream_url, now), r),
    ensures
        final(relays).wf(),
        old(relays)@.is_prefix_of(final(relays)@),
        match listed {
            Err(e) => r == Err::<CameraConfig, _>(e) && final(relays)@ == old(relays)@,
            Ok(cameras) => {
                &&& final(relays)@ == localized(
                    localized_all(old(relays)@, cameras_view(cameras@), now),
                    stream_url@,
                    now,
                )
                &&& r matches Ok(given)
                &&& given.cameras@.len() == cameras@.len()
                &&& forall|i: int|
                    0 <= i < cameras@.len() ==> (#[trigger] given.cameras@[i]).name@
                        == cameras@[i].name@ && is_found_at(
                        final(relays)@,
                        cameras@[i].url@,
                        given.cameras@[i].url@,
                    )
                &&& is_found_at(final(relays)@, stream_url@, given.stream_url@)
            },
        },
{
    if listed is Ok {
        let cameras = cameras_view((listed->Ok_0)@);
        let given = r->Ok_0;
        let middle = localized_all(old(relays)@, cameras, now);
        let after = final(relays)@;
        lemma_only_added(old(relays)@, cameras, now);
        lemma_added(middle, stream_url@, now);
        assert(middle.is_prefix_of(after));
        assert(old(relays)@.is_prefix_of(after));
        asked_for_cameras_are_covered(old(relays)@, cameras, now);
        crate::laws::config::cameras_are_given_at_their_addresses(old(relays)@, cameras, now);
        let shown = cameras_view(given.cameras@);
        assert(shown.len() == given.cameras@.len());
        assert forall|i: int| 0 <= i < cameras.len() implies (#[trigger] given.cameras@[i]).name@
            == (listed->Ok_0)@[i].name@ && is_found_at(
            after,
            (listed->Ok_0)@[i].url@,
            given.cameras@[i].url@,
        ) by {
            assert(cameras[i] == (listed->Ok_0)@[i]@);
            assert(shown[i] == given.cameras@[i]@);
            assert(is_covered(middle, cameras[i].url));
            lemma_is_found_at(middle, cameras[i].url, after);
        }
        routes_are_stable(middle, url_source(stream_url@), now, now);
        numbers_are_those_of_the_sources(after, url_source(stream_url@));
        numbers_are_those_of_the_sources(middle, url_source(stream_url@));
        assert(after.is_prefix_of(after));
        assert(is_covered(after, stream_url@));
        lemma_is_found_at(after, stream_url@, after);
    } else {
        assert(old(relays)@.is_prefix_of(final(relays)@));
    }
}

/// Asking for an address adds relays only behind those that there are.
proof fn lemma_added(entries: Seq<RelayView>, url: Seq<char>, now: u128)
    ensures
        entries.is_prefix_of(localized(entries, url, now)),
{
    let after = localized(entries, url, now);
    assert(after.subrange(0, entries.len() as int) == entries);
}

/// Asking for cameras adds relays only behind those that there are.
proof fn lemma_only_added(entries: Seq<RelayView>, cameras: Seq<CameraView>, now: u128)
    ensures
        entries.is_prefix_of(localized_all(entries, cameras, now)),
    decreases cameras.len(),
{
    let after = localized_all(entries, cameras, now);
    if cameras.len() > 0 {
        let middle = localized_all(entries, cameras.drop_last(), now);
        lemma_only_added(entries, cameras.drop_last(), now);
        lemma_added(middle, cameras.last().url, now);
        assert(after.subrange(0, entries.len() as int) == middle.subrange(0, entries.len() as int));
    } else {
        assert(after.subrange(0, entries.len() as int) == entries);
    }
}

/// The list is that of `streams.txt`, as it stands, or, if there is no such file, that of
/// `stream.txt`, and empty if there is neither; a file that cannot be read is reported.
pub proof fn lists_are_chosen(streams: ListRead, stream: Option<ListRead>, r: ListChoice)
    requires
        call_ensures(choose_list, (streams, stream), r),
    ensures
        match streams {
            ListRead::Text(text) => r matches ListChoice::Use(list) && list@ == text@,
            ListRead::Failed => r == ListChoice::Report(ListFile::Streams),
            ListRead::NotFound => match stream {
                None => r is ReadStream,
                Some(ListRead::Text(text)) => r matches ListChoice::Use(list) && list@ == text@,
                Some(ListRead::NotFound) => r matches ListChoice::Use(list) && list@.len() == 0,
                Some(ListRead::Failed) => r == ListChoice::Report(ListFile::Stream),
            },
        },
{
}

/// A refusal says why, with the status of an error of the server.
pub proof fn refusals_are_answered(message: String, r: Reply)
    requires
        call_ensures(refusal, (message,), r),
    ensures
        r.status == 500,
        r.headers@.len() == 0,
        r.body matches Body::Text(text) && text@ == message@,
{
    assert(crate::relay::header_texts(r.headers@).len() == r.headers@.len());
}

/// The answer to a request for the configuration, where the list that is taken has these
/// contents: the configuration that this list gives, not to be kept, or else why it is
/// refused. The relays are those that the configuration leaves.
pub proof fn configurations_are_answered(
    relays: &mut Relays,
    contents: &str,
    stream_url: &str,
    now: u128,
    given: Result<CameraConfig, StreamListError>,
    answering: &mut Relays,
    text: String,
    streams: ListRead,
    stream: Option<ListRead>,
    r: ConfigReply,
)
    requires
        old(relays).wf(),
        call_ensures(config, (relays, contents, stream_url, now), given),
        *old(answering) == *old(relays),
        call_ensures(config_reply, (answering, streams, stream, stream_url, now), r),
        text@ == contents@,
        streams == ListRead::Text(text) || streams == ListRead::NotFound && stream == Some(
            ListRead::Text(text),
        ) || streams == ListRead::NotFound && stream == Some(ListRead::NotFound) && contents@.len()
            == 0,
    ensures
        final(answering).wf(),
        final(answering)@ == final(relays)@,
        match given {
            Ok(expected) => {
                &&& r matches ConfigReply::Given { status, headers, config }
                &&& status == 200
                &&& headers@.len() == 1
                &&& headers@[0].0@ == "cache-control"@
                &&& headers@[0].1@ == "no-store"@
                &&& config.stream_url@ == expected.stream_url@
                &&& cameras_view(config.cameras@) == cameras_view(expected.cameras@)
            },
            Err(e) => r matches ConfigReply::Refused(reply) && reply.status == 500
                && reply.headers@.len() == 0 && (reply.body matches Body::Text(message) && message@
                == e.text()),
        },
{
    if contents@.len() == 0 {
        assert(contents@ == Seq::<char>::empty());
    }
    match r {
        ConfigReply::Given { status, headers, config } => {
            let shown = crate::relay::header_texts(headers@);
            assert(shown.len() == headers@.len());
            assert(shown[0] == (headers@[0].0@, headers@[0].1@));
        },
        ConfigReply::Refused(reply) => {
            assert(crate::relay::header_texts(reply.headers@).len() == reply.headers@.len());
        },
        ConfigReply::ReadStream => {},
    }
}

/// As long as `stream.txt` is needed and has not been read, it is asked for; a file that is
/// needed and cannot be read is reported as such. Neither adds a relay.
pub proof fn unreadable_lists_are_answered(
    relays: &mut Relays,
    streams: ListRead,
    stream: Option<ListRead>,
    stream_url: &str,
    now: u128,
    r: ConfigReply,
)
    requires
        old(relays).wf(),
        call_ensures(config_reply, (relays, streams, stream, stream_url, now), r),
    ensures
        ({
            let refused = |message: Seq<char>|
                r matches ConfigReply::Refused(reply) && reply.status == 500
                    && reply.headers@.len() == 0 && (reply.body matches Body::Text(text) && text@
                    == message);
            &&& streams is NotFound && stream is None <==> r is ReadStream
            &&& r is ReadStream ==> final(relays)@ == old(relays)@
            &&& streams is Failed ==> refused("Не удалось прочитать streams.txt"@)
                && final(relays)@ == old(relays)@
            &&& streams is NotFound && stream == Some(ListRead::Failed) ==> refused(
                "Не удалось прочитать stream.txt"@,
            ) && final(relays)@ == old(relays)@
        }),
{
    if let ConfigReply::Refused(reply) = r {
        assert(crate::relay::header_texts(reply.headers@).len() == reply.headers@.len());
    }
}

} // verus!
