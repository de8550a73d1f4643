//! The configuration that the viewer is given: the listed cameras and one more stream, each
//! under the address at which the viewer finds it.

use crate::relay::{
    dsi_address, header_texts, index_of, local_address, localized, no_store, no_store_headers,
    numbers_are_kept, routes_are_stable, url_source, web_scheme, Body, BodyView, RelayView, Relays,
    Reply, ReplyView,
};
use crate::text::{
    before, chars_of, decimal, file_lines, find, in_decimal, is_listed, is_some_text, is_tight,
    joined, lemma_position_is, lemma_trim, lemma_trim_tight, split_once, string_of, text_before,
    text_lines, texts, trim, trim_end, trim_start, trimmed, without_leading,
};
use crate::uri::{parse_uri, uri_parts, UriParts, UriView};
use vstd::prelude::*;
use vstd::slice::slice_subrange;

verus! {

/// A camera: its name and the address of its stream.
pub struct Camera {
    pub name: String,
    pub url: String,
}

/// A camera, as a mathematical value.
pub struct CameraView {
    pub name: Seq<char>,
    pub url: Seq<char>,
}

impl View for Camera {
    type V = CameraView;

    open spec fn view(&self) -> CameraView {
        CameraView { name: self.name@, url: self.url@ }
    }
}

/// The cameras of a list, as mathematical values.
pub open spec fn cameras_view(cameras: Seq<Camera>) -> Seq<CameraView> {
    cameras.map_values(|camera: Camera| camera@)
}

/// What the viewer shows: the stream that was given to it, and the listed cameras.
pub struct CameraConfig {
    pub stream_url: String,
    pub cameras: Vec<Camera>,
}

/// Why a list of streams is refused: the first line at fault, counted from one, and how.
#[derive(Clone, Copy, Debug, PartialEq, Eq, Structural)]
pub enum StreamListError {
    /// No bar between name and address.
    NoBar { line: usize },
    /// What follows the bar is no address.
    InvalidUrl { line: usize },
    /// There is no name, or the address is not one of the web.
    NotWeb { line: usize },
}

impl StreamListError {
    /// What is shown for the error.
    pub open spec fn text(self) -> Seq<char> {
        match self {
            StreamListError::NoBar { line } => "Строка "@ + decimal(line as nat)
                + ": ожидается Название | URL"@,
            StreamListError::InvalidUrl { line } => "Строка "@ + decimal(line as nat)
                + ": некорректный URL"@,
            StreamListError::NotWeb { line } => "Строка "@ + decimal(line as nat)
                + ": нужны название и HTTP(S) URL"@,
        }
    }

    /// What is shown for the error.
    pub fn message(&self) -> (r: String)
        ensures
            r@ == self.text(),
    {
        match self {
            StreamListError::NoBar { line } => joined(
                "Строка ",
                &in_decimal(*line as u128),
                ": ожидается Название | URL",
            ),
            StreamListError::InvalidUrl { line } => joined(
                "Строка ",
                &in_decimal(*line as u128),
                ": некорректный URL",
            ),
            StreamListError::NotWeb { line } => joined(
                "Строка ",
                &in_decimal(*line as u128),
                ": нужны название и HTTP(S) URL",
            ),
        }
    }
}

/// Whether these components are those of an address of the web.
pub open spec fn web_uri(uri: UriView) -> bool {
    web_scheme(uri.scheme) && uri.host is Some
}

/// The camera that line number `n` of a list gives.
pub open spec fn listed_stream(line: Seq<char>, n: usize) -> Result<CameraView, StreamListError> {
    match split_once(trim(line), '|') {
        None => Err(StreamListError::NoBar { line: n }),
        Some((name, url)) => match uri_parts(before(trim(url), '#')) {
            None => Err(StreamListError::InvalidUrl { line: n }),
            Some(uri) => if trim(name).len() > 0 && web_uri(uri) {
                Ok(CameraView { name: trim(name), url: trim(url) })
            } else {
                Err(StreamListError::NotWeb { line: n })
            },
        },
    }
}

/// The cameras in these lines, in their order.
pub open spec fn listed_streams(list: Seq<Seq<char>>) -> Result<Seq<CameraView>, StreamListError>
    decreases list.len(),
{
    if list.len() == 0 {
        Ok(Seq::empty())
    } else {
        match listed_streams(list.drop_last()) {
            Err(e) => Err(e),
            Ok(cameras) => if !is_listed(list.last()) {
                Ok(cameras)
            } else {
                match listed_stream(list.last(), list.len() as usize) {
                    Ok(camera) => Ok(cameras.push(camera)),
                    Err(e) => Err(e),
                }
            },
        }
    }
}

/// The outcome `r`, with the values of its cameras.
pub open spec fn cameras_result<E>(r: Result<Vec<Camera>, E>) -> Result<Seq<CameraView>, E> {
    match r {
        Ok(cameras) => Ok(cameras_view(cameras@)),
        Err(e) => Err(e),
    }
}

/// Whether these components are those of an address of the web.
pub fn is_web_uri(uri: &UriParts) -> (r: bool)
    ensures
        r == web_uri(uri@),
{
    (is_some_text(&uri.scheme, "http") || is_some_text(&uri.scheme, "https"))
        && uri.host.is_some()
}

/// The camera that line number `n` of a list gives; `line` is without white space around.
fn stream_entry(line: &[char], n: usize) -> (r: Result<Camera, StreamListError>)
    requires
        trim(line@) == line@,
    ensures
        match r {
            Ok(camera) => listed_stream(line@, n) == Ok::<_, StreamListError>(camera@),
            Err(e) => listed_stream(line@, n) == Err::<CameraView, _>(e),
        },
{
    let bar: usize = find(line, '|');
    if bar == line.len() {
        return Err(StreamListError::NoBar { line: n });
    }
    let name = trimmed(slice_subrange(line, 0, bar));
    assert(line@.skip(bar + 1) == line@.subrange(bar + 1, line@.len() as int));
    let url = trimmed(slice_subrange(line, bar + 1, line.len()));
    match parse_uri(&string_of(text_before(url, '#'))) {
        Err(_) => Err(StreamListError::InvalidUrl { line: n }),
        Ok(uri) => if name.len() > 0 && is_web_uri(&uri) {
            Ok(Camera { name: string_of(name), url: string_of(url) })
        } else {
            Err(StreamListError::NotWeb { line: n })
        },
    }
}

/// The cameras in a list, in their order.
pub fn parse_cameras(contents: &str) -> (r: Result<Vec<Camera>, StreamListError>)
    ensures
        cameras_result(r) == listed_streams(file_lines(contents@)),
{
    let text = chars_of(contents);
    let list = text_lines(without_leading(text.as_slice(), '\u{feff}'));
    let ghost all = file_lines(contents@);
    let mut cameras: Vec<Camera> = Vec::new();
    let mut i: usize = 0;
    assert(cameras_view(cameras@) == Seq::<CameraView>::empty());
    while i < list.len()
        invariant
            i <= list.len(),
            all == file_lines(contents@),
            texts(list@) == all,
            listed_streams(all.take(i as int)) == Ok::<_, StreamListError>(cameras_view(cameras@)),
        decreases list.len() - i,
    {
        let line = trimmed(list[i]);
        let ghost old_cameras = cameras@;
        assert(texts(list@)[i as int] == list@[i as int]@);
        i = i + 1;
        assert(all.take(i as int).drop_last() == all.take(i - 1));
        if line.len() > 0 && line[0] != '#' {
            proof {
                lemma_trim(all[i - 1]);
                lemma_trim_tight(trim(all[i - 1]));
            }
            match stream_entry(line, i) {
                Ok(camera) => {
                    cameras.push(camera);
                    assert(cameras_view(cameras@) == cameras_view(old_cameras).push(camera@));
                },
                Err(e) => {
                    proof {
                        lemma_first_error(all, i as int, e);
                    }
                    return Err(e);
                },
            }
        }
    }
    assert(all.take(all.len() as int) == all);
    Ok(cameras)
}

/// An error in the first `n` lines is the error of all lines.
proof fn lemma_first_error(list: Seq<Seq<char>>, n: int, e: StreamListError)
    requires
        0 <= n <= list.len(),
        listed_streams(list.take(n)) == Err::<Seq<CameraView>, _>(e),
    ensures
        listed_streams(list) == Err::<Seq<CameraView>, _>(e),
    decreases list.len(),
{
    if n == list.len() {
        assert(list.take(n) == list);
    } else {
        assert(list.drop_last().take(n) == list.take(n));
        lemma_first_error(list.drop_last(), n, e);
    }
}

/// The table of relays after these cameras have been asked for.
pub open spec fn localized_all(
    entries: Seq<RelayView>,
    cameras: Seq<CameraView>,
    now: u128,
) -> Seq<RelayView>
    decreases cameras.len(),
{
    if cameras.len() == 0 {
        entries
    } else {
        localized(localized_all(entries, cameras.drop_last(), now), cameras.last().url, now)
    }
}

/// The cameras, each under the address at which the viewer finds it.
pub open spec fn local_cameras(
    entries: Seq<RelayView>,
    cameras: Seq<CameraView>,
    now: u128,
) -> Seq<CameraView>
    decreases cameras.len(),
{
    if cameras.len() == 0 {
        cameras
    } else {
        local_cameras(entries, cameras.drop_last(), now).push(
            CameraView {
                name: cameras.last().name,
                url: local_address(
                    localized_all(entries, cameras.drop_last(), now),
                    cameras.last().url,
                ),
            },
        )
    }
}

/// What the viewer shows, for a list of cameras with these contents and one more stream.
/// Relays are found or added for the cameras in their order, then for the stream.
pub fn config(relays: &mut Relays, contents: &str, stream_url: &str, now: u128) -> (r: Result<
    CameraConfig,
    StreamListError,
>)
    requires
        old(relays).wf(),
    ensures
        final(relays).wf(),
        match listed_streams(file_lines(contents@)) {
            Ok(cameras) => {
                let entries = localized_all(old(relays)@, cameras, now);
                &&& final(relays)@ == localized(entries, stream_url@, now)
                &&& r matches Ok(config)
                &&& cameras_view(config.cameras@) == local_cameras(old(relays)@, cameras, now)
                &&& config.stream_url@ == local_address(entries, stream_url@)
            },
            Err(e) => final(relays)@ == old(relays)@ && r == Err::<CameraConfig, _>(e),
        },
{
    let listed = match parse_cameras(contents) {
        Ok(cameras) => cameras,
        Err(e) => return Err(e),
    };
    let ghost all = cameras_view(listed@);
    let mut cameras: Vec<Camera> = Vec::new();
    let mut i: usize = 0;
    assert(cameras_view(cameras@) == Seq::<CameraView>::empty());
    while i < listed.len()
        invariant
            i <= listed.len(),
            relays.wf(),
            all == cameras_view(listed@),
            relays@ == localized_all(old(relays)@, all.take(i as int), now),
            cameras_view(cameras@) == local_cameras(old(relays)@, all.take(i as int), now),
        decreases listed.len() - i,
    {
        let ghost old_cameras = cameras@;
        let camera = &listed[i];
        assert(all[i as int] == camera@);
        i = i + 1;
        assert(all.take(i as int).drop_last() == all.take(i - 1));
        let url = relays.local_url(&camera.url, now);
        let local = Camera { name: camera.name.clone(), url };
        cameras.push(local);
        assert(cameras_view(cameras@) == cameras_view(old_cameras).push(local@));
    }
    assert(all.take(all.len() as int) == all);
    let stream_url = relays.local_url(stream_url, now);
    Ok(CameraConfig { stream_url, cameras })
}

/// What came of reading a file with a list of cameras.
pub enum ListRead {
    Text(String),
    NotFound,
    Failed,
}

/// A file with a list of cameras.
#[derive(Clone, Copy, Debug, PartialEq, Eq, Structural)]
pub enum ListFile {
    /// `streams.txt`.
    Streams,
    /// `stream.txt`, which is read if there is no `streams.txt`.
    Stream,
}

/// What is to be done for the list of cameras.
pub enum ListChoice {
    /// Take this list.
    Use(String),
    /// Read `stream.txt`.
    ReadStream,
    /// Report that this file cannot be read.
    Report(ListFile),
}

/// What is to be done for the list of cameras, as a mathematical value.
pub enum ListChoiceView {
    Use(Seq<char>),
    ReadStream,
    Report(ListFile),
}

impl View for ListChoice {
    type V = ListChoiceView;

    open spec fn view(&self) -> ListChoiceView {
        match self {
            ListChoice::Use(list) => ListChoiceView::Use(list@),
            ListChoice::ReadStream => ListChoiceView::ReadStream,
            ListChoice::Report(file) => ListChoiceView::Report(*file),
        }
    }
}

/// What is to be done once `streams.txt` has been read and, where the second argument is
/// not `None`, `stream.txt` too. Where neither file exists, the list is empty.
pub open spec fn chosen_list(streams: ListRead, stream: Option<ListRead>) -> ListChoiceView {
    match (streams, stream) {
        (ListRead::Text(text), _) => ListChoiceView::Use(text@),
        (ListRead::Failed, _) => ListChoiceView::Report(ListFile::Streams),
        (ListRead::NotFound, None) => ListChoiceView::ReadStream,
        (ListRead::NotFound, Some(ListRead::Text(text))) => ListChoiceView::Use(text@),
        (ListRead::NotFound, Some(ListRead::NotFound)) => ListChoiceView::Use(Seq::empty()),
        (ListRead::NotFound, Some(ListRead::Failed)) => ListChoiceView::Report(ListFile::Stream),
    }
}

/// What is to be done once `streams.txt` has been read and, where the second argument is
/// not `None`, `stream.txt` too.
pub fn choose_list(streams: ListRead, stream: Option<ListRead>) -> (r: ListChoice)
    ensures
        r@ == chosen_list(streams, stream),
{
    match streams {
        ListRead::Text(text) => ListChoice::Use(text),
        ListRead::Failed => ListChoice::Report(ListFile::Streams),
        ListRead::NotFound => match stream {
            None => ListChoice::ReadStream,
            Some(ListRead::Text(text)) => ListChoice::Use(text),
            Some(ListRead::NotFound) => ListChoice::Use(String::new()),
            Some(ListRead::Failed) => ListChoice::Report(ListFile::Stream),
        },
    }
}

impl ListFile {
    /// What is shown if the file cannot be read.
    pub open spec fn text(self) -> Seq<char> {
        match self {
            ListFile::Streams => "Не удалось прочитать streams.txt"@,
            ListFile::Stream => "Не удалось прочитать stream.txt"@,
        }
    }

    /// What is shown if the file cannot be read.
    pub fn message(&self) -> (r: String)
        ensures
            r@ == self.text(),
    {
        match self {
            ListFile::Streams => "Не удалось прочитать streams.txt".to_owned(),
            ListFile::Stream => "Не удалось прочитать stream.txt".to_owned(),
        }
    }
}

/// The answer that refuses the configuration and says why.
pub open spec fn refused(message: Seq<char>) -> ReplyView {
    ReplyView { status: 500, headers: Seq::empty(), body: BodyView::Text(message) }
}

/// The answer that refuses the configuration and says why.
pub fn refusal(message: String) -> (r: Reply)
    ensures
        r@ == refused(message@),
{
    let reply = Reply { status: 500, headers: Vec::new(), body: Body::Text(message) };
    assert(reply@.headers == Seq::<(Seq<char>, Seq<char>)>::empty());
    reply
}

/// Whether the configuration is refused: `streams.txt` cannot be read though it exists, or it
/// does not exist and `stream.txt` cannot be read though it exists, or the list that is taken
/// is at fault.
pub open spec fn is_refused(streams: ListRead, stream: Option<ListRead>) -> bool {
    ||| streams is Failed
    ||| streams is NotFound && stream == Some(ListRead::Failed)
    ||| chosen_list(streams, stream) matches ListChoiceView::Use(list) && listed_streams(
        file_lines(list),
    ) is Err
}

/// The answer to a request for the configuration.
pub enum ConfigReply {
    /// `stream.txt` is to be read first.
    ReadStream,
    /// Status, headers, and the configuration as the body.
    Given { status: u16, headers: Vec<(String, String)>, config: CameraConfig },
    /// The configuration is refused.
    Refused(Reply),
}

/// The answer to a request for the configuration, once `streams.txt` has been read and,
/// where `stream` is not `None`, `stream.txt` too. It is refused, and no relay is added, if
/// a file that is needed cannot be read or the list is at fault.
pub fn config_reply(
    relays: &mut Relays,
    streams: ListRead,
    stream: Option<ListRead>,
    stream_url: &str,
    now: u128,
) -> (r: ConfigReply)
    requires
        old(relays).wf(),
    ensures
        final(relays).wf(),
        r is Refused <==> is_refused(streams, stream),
        match chosen_list(streams, stream) {
            ListChoiceView::ReadStream => r is ReadStream && final(relays)@ == old(relays)@,
            ListChoiceView::Report(file) => {
                &&& final(relays)@ == old(relays)@
                &&& r matches ConfigReply::Refused(reply) && reply@ == refused(file.text())
            },
            ListChoiceView::Use(list) => match listed_streams(file_lines(list)) {
                Err(e) => {
                    &&& final(relays)@ == old(relays)@
                    &&& r matches ConfigReply::Refused(reply) && reply@ == refused(e.text())
                },
                Ok(cameras) => {
                    let entries = localized_all(old(relays)@, cameras, now);
                    &&& final(relays)@ == localized(entries, stream_url@, now)
                    &&& r matches ConfigReply::Given { status, headers, config }
                    &&& status == 200
                    &&& header_texts(headers@) == no_store()
                    &&& cameras_view(config.cameras@) == local_cameras(old(relays)@, cameras, now)
                    &&& config.stream_url@ == local_address(entries, stream_url@)
                },
            },
        },
{
    match choose_list(streams, stream) {
        ListChoice::ReadStream => ConfigReply::ReadStream,
        ListChoice::Report(file) => ConfigReply::Refused(refusal(file.message())),
        ListChoice::Use(list) => match config(relays, &list, stream_url, now) {
            Ok(config) => ConfigReply::Given { status: 200, headers: no_store_headers(), config },
            Err(e) => ConfigReply::Refused(refusal(e.message())),
        },
    }
}

/// Whether line `i`, counted from zero, says something but gives no camera.
pub open spec fn is_fault(list: Seq<Seq<char>>, i: int) -> bool {
    0 <= i < list.len() && is_listed(list[i]) && listed_stream(list[i], (i + 1) as usize) is Err
}

/// The line that an error is about, counted from one.
pub open spec fn error_line(e: StreamListError) -> usize {
    match e {
        StreamListError::NoBar { line } => line,
        StreamListError::InvalidUrl { line } => line,
        StreamListError::NotWeb { line } => line,
    }
}

/// A list is refused exactly if a line of it is at fault, and then for the first such line,
/// which the error names.
pub proof fn first_fault_is_reported(list: Seq<Seq<char>>)
    requires
        list.len() <= usize::MAX,
    ensures
        listed_streams(list) is Err <==> exists|i: int| is_fault(list, i),
        listed_streams(list) matches Err(e) ==> is_fault(list, error_line(e) - 1) && listed_stream(
            list[error_line(e) - 1],
            error_line(e),
        ) == Err::<CameraView, _>(e) && forall|j: int|
            j < error_line(e) - 1 ==> !is_fault(list, j),
    decreases list.len(),
{
    if list.len() > 0 {
        let rest = list.drop_last();
        let n = list.len() as int;
        first_fault_is_reported(rest);
        assert forall|i: int| is_fault(rest, i) <==> is_fault(list, i) && i < n - 1 by {
            if 0 <= i < n - 1 {
                assert(rest[i] == list[i]);
            }
        }
        if listed_streams(rest) is Err {
            let e = listed_streams(rest)->Err_0;
            assert(is_fault(list, error_line(e) - 1));
        } else {
            assert forall|i: int| i < n - 1 implies !is_fault(list, i) by {
                assert(!is_fault(rest, i));
            }
            if is_fault(list, n - 1) {
                assert(listed_streams(list) is Err);
            }
        }
    }
}

/// Whether two errors give one reason.
pub open spec fn same_reason(a: StreamListError, b: StreamListError) -> bool {
    ||| a is NoBar && b is NoBar
    ||| a is InvalidUrl && b is InvalidUrl
    ||| a is NotWeb && b is NotWeb
}

/// Two lists that are refused at the same line for the same reason are answered alike:
/// nothing else that they hold, such as an address, is shown.
pub proof fn refusals_show_only_line_and_reason(a: Seq<Seq<char>>, b: Seq<Seq<char>>)
    requires
        listed_streams(a) is Err,
        listed_streams(b) is Err,
        error_line(listed_streams(a)->Err_0) == error_line(listed_streams(b)->Err_0),
        same_reason(listed_streams(a)->Err_0, listed_streams(b)->Err_0),
    ensures
        listed_streams(a)->Err_0.text() == listed_streams(b)->Err_0.text(),
{
}

/// The camera that a line gives, wherever it stands.
pub open spec fn line_stream(line: Seq<char>) -> CameraView {
    listed_stream(line, 0)->Ok_0
}

/// The cameras of a list are those of the lines that say something, one for each, in the
/// order of the lines.
pub proof fn cameras_are_listed_in_order(list: Seq<Seq<char>>)
    requires
        listed_streams(list) is Ok,
    ensures
        listed_streams(list)->Ok_0 == list.filter(
            |line: Seq<char>| is_listed(line),
        ).map_values(|line: Seq<char>| line_stream(line)),
    decreases list.len(),
{
    let listed = |line: Seq<char>| is_listed(line);
    let camera = |line: Seq<char>| line_stream(line);
    reveal(Seq::filter);
    if list.len() > 0 {
        let rest = list.drop_last();
        cameras_are_listed_in_order(rest);
        if is_listed(list.last()) {
            assert(list.filter(listed) == rest.filter(listed).push(list.last()));
            assert(list.filter(listed).map_values(camera) == rest.filter(listed).map_values(
                camera,
            ).push(line_stream(list.last())));
        }
    } else {
        assert(listed_streams(list)->Ok_0 == list.filter(listed).map_values(camera));
    }
}

/// A line with a name, a bar and a web address gives the camera with that name and that
/// address, fragment and all.
pub proof fn listed_addresses_are_kept(name: Seq<char>, url: Seq<char>, n: usize)
    requires
        name.len() > 0,
        is_tight(name),
        !name.contains('|'),
        url.len() > 0,
        is_tight(url),
        uri_parts(before(url, '#')) matches Some(uri) && web_uri(uri),
    ensures
        listed_stream(name + " | "@ + url, n) == Ok::<_, StreamListError>(CameraView { name, url }),
{
    reveal_strlit(" | ");
    let line = name + " | "@ + url;
    let bar = name.len() + 1;
    assert(is_tight(line));
    lemma_trim_tight(line);
    assert forall|i: int| 0 <= i < bar implies #[trigger] line[i] != '|' by {
        if i < name.len() {
            assert(name[i] != '|');
        }
    }
    lemma_position_is(line, '|', bar);
    let left = line.take(bar as int);
    let right = line.skip(bar as int + 1);
    assert(left.drop_last() == name);
    assert(right.drop_first() == url);
    assert(trim_start(left) == left);
    assert(trim_end(left) == trim_end(name));
    assert(trim(left) == name);
    assert(trim_start(right) == trim_start(url));
    assert(trim(right) == url);
}

/// The viewer is given the listed cameras in their order, each under its name; an address
/// that is not at DSI is given to it as it stands.
pub proof fn cameras_keep_their_names(
    entries: Seq<RelayView>,
    cameras: Seq<CameraView>,
    now: u128,
)
    ensures
        local_cameras(entries, cameras, now).len() == cameras.len(),
        forall|i: int|
            0 <= i < cameras.len() ==> (#[trigger] local_cameras(entries, cameras, now)[i]).name
                == cameras[i].name && (!dsi_address(cameras[i].url) ==> local_cameras(
                entries,
                cameras,
                now,
            )[i] == cameras[i]),
    decreases cameras.len(),
{
    if cameras.len() > 0 {
        cameras_keep_their_names(entries, cameras.drop_last(), now);
    }
}

/// Whether the table has a relay for `url`, should it need one.
pub open spec fn is_covered(entries: Seq<RelayView>, url: Seq<char>) -> bool {
    dsi_address(url) ==> index_of(entries, url_source(url)) < entries.len()
}

/// A table that covers all of these cameras stays as it is when they are asked for.
proof fn lemma_covered_unchanged(
    entries: Seq<RelayView>,
    cameras: Seq<CameraView>,
    now: u128,
)
    requires
        forall|i: int| 0 <= i < cameras.len() ==> is_covered(entries, #[trigger] cameras[i].url),
    ensures
        localized_all(entries, cameras, now) == entries,
    decreases cameras.len(),
{
    if cameras.len() > 0 {
        assert forall|i: int| 0 <= i < cameras.drop_last().len() implies is_covered(
            entries,
            #[trigger] cameras.drop_last()[i].url,
        ) by {
            assert(is_covered(entries, cameras[i].url));
        }
        lemma_covered_unchanged(entries, cameras.drop_last(), now);
        assert(is_covered(entries, cameras.last().url));
    }
}

/// Once these cameras have been asked for, the table covers them all.
pub proof fn asked_for_cameras_are_covered(entries: Seq<RelayView>, cameras: Seq<CameraView>, now: u128)
    ensures
        forall|i: int|
            0 <= i < cameras.len() ==> is_covered(
                localized_all(entries, cameras, now),
                #[trigger] cameras[i].url,
            ),
    decreases cameras.len(),
{
    if cameras.len() > 0 {
        let rest = cameras.drop_last();
        let middle = localized_all(entries, rest, now);
        let last = cameras.last().url;
        asked_for_cameras_are_covered(entries, rest, now);
        routes_are_stable(middle, url_source(last), now, now);
        assert forall|i: int| 0 <= i < cameras.len() implies is_covered(
            localized_all(entries, cameras, now),
            #[trigger] cameras[i].url,
        ) by {
            if i < rest.len() {
                assert(is_covered(middle, rest[i].url));
                if dsi_address(cameras[i].url) && dsi_address(last) {
                    numbers_are_kept(middle, url_source(cameras[i].url), url_source(last), now);
                }
            }
        }
    }
}

/// The addresses given for cameras that are asked for are those that the table, afterwards,
/// gives for them.
proof fn lemma_addresses_stay(
    entries: Seq<RelayView>,
    cameras: Seq<CameraView>,
    now: u128,
    later: u128,
)
    ensures
        local_cameras(localized_all(entries, cameras, now), cameras, later) == local_cameras(
            entries,
            cameras,
            now,
        ),
{
    let after = localized_all(entries, cameras, now);
    asked_for_cameras_are_covered(entries, cameras, now);
    lemma_addresses_of_covered(after, cameras, later);
    cameras_are_found_at_their_relays(entries, cameras, now);
}

/// In a table that covers all of these cameras, each keeps the number it has.
proof fn lemma_addresses_of_covered(
    entries: Seq<RelayView>,
    cameras: Seq<CameraView>,
    now: u128,
)
    requires
        forall|i: int| 0 <= i < cameras.len() ==> is_covered(entries, #[trigger] cameras[i].url),
    ensures
        local_cameras(entries, cameras, now) == Seq::new(
            cameras.len(),
            |i: int|
                CameraView { name: cameras[i].name, url: local_address(entries, cameras[i].url) },
        ),
    decreases cameras.len(),
{
    let found = Seq::new(
        cameras.len(),
        |i: int|
            CameraView { name: cameras[i].name, url: local_address(entries, cameras[i].url) },
    );
    if cameras.len() > 0 {
        let rest = cameras.drop_last();
        assert forall|i: int| 0 <= i < rest.len() implies is_covered(
            entries,
            #[trigger] rest[i].url,
        ) by {
            assert(is_covered(entries, cameras[i].url));
        }
        lemma_addresses_of_covered(entries, rest, now);
        lemma_covered_unchanged(entries, rest, now);
    }
    assert(local_cameras(entries, cameras, now) == found);
}

/// Each of these cameras is given the address that the table gives for it at the end.
pub proof fn cameras_are_found_at_their_relays(
    entries: Seq<RelayView>,
    cameras: Seq<CameraView>,
    now: u128,
)
    ensures
        local_cameras(entries, cameras, now) == Seq::new(
            cameras.len(),
            |i: int|
                CameraView {
                    name: cameras[i].name,
                    url: local_address(localized_all(entries, cameras, now), cameras[i].url),
                },
        ),
    decreases cameras.len(),
{
    let after = localized_all(entries, cameras, now);
    let found = Seq::new(
        cameras.len(),
        |i: int| CameraView { name: cameras[i].name, url: local_address(after, cameras[i].url) },
    );
    if cameras.len() > 0 {
        let rest = cameras.drop_last();
        let middle = localized_all(entries, rest, now);
        let last = cameras.last().url;
        cameras_are_found_at_their_relays(entries, rest, now);
        asked_for_cameras_are_covered(entries, rest, now);
        routes_are_stable(middle, url_source(last), now, now);
        assert forall|i: int| 0 <= i < rest.len() implies local_address(middle, rest[i].url)
            == #[trigger] local_address(after, cameras[i].url) by {
            assert(is_covered(middle, rest[i].url));
            if dsi_address(rest[i].url) && dsi_address(last) {
                numbers_are_kept(middle, url_source(rest[i].url), url_source(last), now);
            }
        }
        assert forall|i: int| 0 <= i < cameras.len() implies #[trigger] local_cameras(
            entries,
            cameras,
            now,
        )[i] == found[i] by {
            if i < rest.len() {
                assert(local_cameras(entries, cameras, now)[i] == local_cameras(
                    entries,
                    rest,
                    now,
                )[i]);
                assert(local_address(middle, rest[i].url) == local_address(after, cameras[i].url));
            }
        }
    }
    assert(local_cameras(entries, cameras, now) == found);
}

/// A viewer that asks again, with the list and the stream unchanged, is given the same
/// addresses again, and no relay is added.
pub proof fn asking_again_changes_nothing(
    entries: Seq<RelayView>,
    cameras: Seq<CameraView>,
    stream_url: Seq<char>,
    now: u128,
    later: u128,
)
    ensures
        ({
            let middle = localized_all(entries, cameras, now);
            let after = localized(middle, stream_url, now);
            &&& localized_all(after, cameras, later) == after
            &&& localized(after, stream_url, later) == after
            &&& local_cameras(after, cameras, later) == local_cameras(entries, cameras, now)
            &&& local_address(after, stream_url) == local_address(middle, stream_url)
        }),
{
    let stream = CameraView { name: Seq::empty(), url: stream_url };
    let all = cameras.push(stream);
    let middle = localized_all(entries, cameras, now);
    let after = localized(middle, stream_url, now);
    assert(all.drop_last() == cameras);
    assert(localized_all(entries, all, now) == after);
    asked_for_cameras_are_covered(entries, all, now);
    assert(is_covered(after, all.last().url));
    assert forall|i: int| 0 <= i < cameras.len() implies is_covered(
        after,
        #[trigger] cameras[i].url,
    ) by {
        assert(is_covered(after, all[i].url));
    }
    lemma_covered_unchanged(after, cameras, later);
    routes_are_stable(middle, url_source(stream_url), now, later);
    lemma_addresses_stay(entries, all, now, later);
    assert(local_cameras(after, all, later).drop_last() == local_cameras(after, cameras, later));
    assert(local_cameras(entries, all, now).drop_last() == local_cameras(entries, cameras, now));
}

} // verus!
