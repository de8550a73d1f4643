//! Cameras of a DSI account: their list, their pages, the session cookie, and the stream
//! addresses that the account's API hands out.

use crate::json::{json_member, json_members, JsonValue, JsonView};
use crate::relay::{dsi_address, dsi_hosts_end_in_dsi, dsi_uri, is_dsi};
use crate::text::{
    after_prefix, before, byte_len, chars_of, decimal, file_lines, find, has_control, has_suffix,
    in_decimal, is_control, is_digit, is_listed, is_number, is_some_text, is_text, is_tight, join,
    joined, lemma_byte_len, lemma_byte_len_add, lemma_join_split, lemma_position_is,
    lemma_replace_add, lemma_split_cons, lemma_trim, lemma_trim_tight, lines, number, pair_text,
    pieces, replace, replaced, split, split_once, string_of, strings, strip_trailing, text_lines,
    text_result, texts, trim, trimmed, without_leading, without_trailing,
};
use crate::uri::{
    address, is_path, is_path_char, parse_uri, redirected, uri_parts, with_path, UriParts, UriView,
    MAX_LEN,
};
use vstd::prelude::*;
use vstd::slice::slice_subrange;
use vstd::utf8::is_ascii_chars_encode_utf8;

verus! {

/// Why a text names no camera.
#[derive(Clone, Copy, Debug, PartialEq, Eq, Structural)]
pub enum PageError {
    /// Neither a number nor an address.
    InvalidLink,
    /// An address, but not of the DSI site over HTTPS.
    OtherSite,
    /// A page of the site, but not of a camera.
    OtherPage,
}

impl PageError {
    /// What is shown for the error.
    pub open spec fn text(self) -> Seq<char> {
        match self {
            PageError::InvalidLink => "Некорректная ссылка страницы DSI"@,
            PageError::OtherSite => "Нужна HTTPS-ссылка на video.dsi.ru"@,
            PageError::OtherPage => "Нужна ссылка /account/camera/ID/url.html или view.html"@,
        }
    }

    /// What is shown for the error.
    pub fn message(&self) -> (r: String)
        ensures
            r@ == self.text(),
    {
        match self {
            PageError::InvalidLink => "Некорректная ссылка страницы DSI".to_owned(),
            PageError::OtherSite => "Нужна HTTPS-ссылка на video.dsi.ru".to_owned(),
            PageError::OtherPage => {
                "Нужна ссылка /account/camera/ID/url.html или view.html".to_owned()
            },
        }
    }
}

/// The number of the camera whose page has this address.
pub open spec fn page_camera(uri: UriView) -> Result<Seq<char>, PageError> {
    let parts = split(uri.path, '/');
    if !(uri.scheme == Some("https"@) && uri.host == Some("video.dsi.ru"@) && (uri.port is None
        || uri.port == Some(443u16))) {
        Err(PageError::OtherSite)
    } else if parts.len() == 5 && parts[1] == "account"@ && parts[2] == "camera"@ && is_number(
        parts[3],
    ) && (parts[4] == "view.html"@ || parts[4] == "url.html"@) {
        Ok(parts[3])
    } else {
        Err(PageError::OtherPage)
    }
}

/// The number of the camera that `url` names, by its number or by the address of its page.
pub open spec fn named_camera(url: Seq<char>) -> Result<Seq<char>, PageError> {
    let url = trim(url);
    if is_number(url) {
        Ok(url)
    } else {
        match uri_parts(url) {
            Some(uri) => page_camera(uri),
            None => Err(PageError::InvalidLink),
        }
    }
}

/// The number of the camera whose page has this address.
pub fn page_camera_id(uri: &UriParts) -> (r: Result<String, PageError>)
    ensures
        text_result(r) == page_camera(uri@),
{
    let default_port = match uri.port {
        Some(port) => port == 443,
        None => true,
    };
    if !(is_some_text(&uri.scheme, "https") && is_some_text(&uri.host, "video.dsi.ru")
        && default_port) {
        return Err(PageError::OtherSite);
    }
    let path = chars_of(&uri.path);
    let parts = pieces(path.as_slice(), '/');
    proof {
        assert forall|i: int| 0 <= i < parts@.len() implies #[trigger] parts@[i]@ == split(
            path@,
            '/',
        )[i] by {
            assert(texts(parts@)[i] == parts@[i]@);
        }
    }
    if parts.len() == 5 && is_text(parts[1], "account") && is_text(parts[2], "camera") && number(
        parts[3],
    ) && (is_text(parts[4], "view.html") || is_text(parts[4], "url.html")) {
        Ok(string_of(parts[3]))
    } else {
        Err(PageError::OtherPage)
    }
}

/// The number of the camera that `url` names.
pub fn camera_id(url: &str) -> (r: Result<String, PageError>)
    ensures
        text_result(r) == named_camera(url@),
{
    let url = chars_of(url);
    let url = trimmed(url.as_slice());
    let text = string_of(url);
    if number(url) {
        return Ok(text);
    }
    match parse_uri(&text) {
        Ok(uri) => page_camera_id(&uri),
        Err(_) => Err(PageError::InvalidLink),
    }
}

/// Why a list of cameras is refused: the first line at fault, counted from one, and how.
#[derive(Clone, Copy, Debug, PartialEq, Eq, Structural)]
pub enum CameraListError {
    /// No bar between name and camera.
    NoBar { line: usize },
    /// Nothing before the bar.
    NoName { line: usize },
    /// What follows the bar names no camera.
    NoCamera { line: usize, cause: PageError },
}

impl CameraListError {
    /// What is shown for the error.
    pub open spec fn text(self) -> Seq<char> {
        match self {
            CameraListError::NoBar { line } => "dsi-cameras.txt, строка "@ + decimal(line as nat)
                + ": ожидается Название | ID"@,
            CameraListError::NoName { line } => "dsi-cameras.txt, строка "@ + decimal(line as nat)
                + ": укажите название"@,
            CameraListError::NoCamera { line, .. } => "dsi-cameras.txt, строка "@ + decimal(
                line as nat,
            ) + ": укажите номер камеры или ссылку её страницы DSI"@,
        }
    }

    /// What is shown for the error.
    pub fn message(&self) -> (r: String)
        ensures
            r@ == self.text(),
    {
        match self {
            CameraListError::NoBar { line } => joined(
                "dsi-cameras.txt, строка ",
                &in_decimal(*line as u128),
                ": ожидается Название | ID",
            ),
            CameraListError::NoName { line } => joined(
                "dsi-cameras.txt, строка ",
                &in_decimal(*line as u128),
                ": укажите название",
            ),
            CameraListError::NoCamera { line, .. } => joined(
                "dsi-cameras.txt, строка ",
                &in_decimal(*line as u128),
                ": укажите номер камеры или ссылку её страницы DSI",
            ),
        }
    }
}

/// Name and number of the camera that line number `n` of a list gives.
pub open spec fn listed_camera(line: Seq<char>, n: usize) -> Result<
    (Seq<char>, Seq<char>),
    CameraListError,
> {
    match split_once(line, '|') {
        None => Err(CameraListError::NoBar { line: n }),
        Some((name, value)) => if trim(name).len() == 0 {
            Err(CameraListError::NoName { line: n })
        } else {
            match named_camera(value) {
                Ok(id) => Ok((trim(name), id)),
                Err(cause) => Err(CameraListError::NoCamera { line: n, cause }),
            }
        },
    }
}

/// Names and numbers of the cameras in these lines, in their order.
pub open spec fn listed_cameras(list: Seq<Seq<char>>) -> Result<
    Seq<(Seq<char>, Seq<char>)>,
    CameraListError,
>
    decreases list.len(),
{
    if list.len() == 0 {
        Ok(Seq::empty())
    } else {
        match listed_cameras(list.drop_last()) {
            Err(e) => Err(e),
            Ok(cameras) => if !is_listed(list.last()) {
                Ok(cameras)
            } else {
                match listed_camera(list.last(), list.len() as usize) {
                    Ok(camera) => Ok(cameras.push(camera)),
                    Err(e) => Err(e),
                }
            },
        }
    }
}

/// The outcome `r`, with the texts of its pairs.
pub open spec fn pairs_result<E>(r: Result<Vec<(String, String)>, E>) -> Result<
    Seq<(Seq<char>, Seq<char>)>,
    E,
> {
    match r {
        Ok(list) => Ok(list@.map_values(|pair: (String, String)| pair_text(pair))),
        Err(e) => Err(e),
    }
}

/// Name and number of the camera that line number `n` of a list gives.
fn camera_entry(line: &[char], n: usize) -> (r: Result<(String, String), CameraListError>)
    ensures
        match r {
            Ok(pair) => listed_camera(line@, n) == Ok::<_, CameraListError>(pair_text(pair)),
            Err(e) => listed_camera(line@, n) == Err::<(Seq<char>, Seq<char>), _>(e),
        },
{
    let bar: usize = find(line, '|');
    if bar == line.len() {
        return Err(CameraListError::NoBar { line: n });
    }
    let name = trimmed(slice_subrange(line, 0, bar));
    assert(line@.skip(bar + 1) == line@.subrange(bar + 1, line@.len() as int));
    if name.len() == 0 {
        return Err(CameraListError::NoName { line: n });
    }
    match camera_id(&string_of(slice_subrange(line, bar + 1, line.len()))) {
        Ok(id) => Ok((string_of(name), id)),
        Err(cause) => Err(CameraListError::NoCamera { line: n, cause }),
    }
}

/// Names and numbers of the cameras in a list, in their order.
pub fn parse_cameras(contents: &str) -> (r: Result<Vec<(String, String)>, CameraListError>)
    ensures
        pairs_result(r) == listed_cameras(file_lines(contents@)),
{
    let text = chars_of(contents);
    let list = text_lines(without_leading(text.as_slice(), '\u{feff}'));
    let ghost all = file_lines(contents@);
    let mut cameras: Vec<(String, String)> = Vec::new();
    let mut i: usize = 0;
    assert(cameras@.map_values(|pair: (String, String)| pair_text(pair)) == Seq::<
        (Seq<char>, Seq<char>),
    >::empty());
    while i < list.len()
        invariant
            i <= list.len(),
            all == file_lines(contents@),
            texts(list@) == all,
            listed_cameras(all.take(i as int)) == pairs_result::<CameraListError>(Ok(cameras)),
        decreases list.len() - i,
    {
        let line = list[i];
        let ghost old_cameras = cameras@;
        assert(texts(list@)[i as int] == line@);
        i = i + 1;
        assert(all.take(i as int).drop_last() == all.take(i - 1));
        let shown = trimmed(line);
        if shown.len() > 0 && shown[0] != '#' {
            match camera_entry(line, i) {
                Ok(camera) => {
                    cameras.push(camera);
                    assert(cameras@.map_values(|pair: (String, String)| pair_text(pair))
                        == old_cameras.map_values(
                        |pair: (String, String)| pair_text(pair),
                    ).push(pair_text(camera)));
                },
                Err(e) => {
                    proof {
                        lemma_first_error(all, i as int, e);
                    }
                    return Err(e);
                },
            }
        }
    }
    assert(all.take(all.len() as int) == all);
    Ok(cameras)
}

/// Why no session cookie can be had from the settings.
#[derive(Clone, Copy, Debug, PartialEq, Eq, Structural)]
pub enum CookieError {
    /// No line sets it.
    Missing,
    /// It is a single quotation mark.
    LoneQuote,
    /// It is empty or holds a control character.
    Unusable,
}

impl CookieError {
    /// What is shown for the error.
    pub open spec fn text(self) -> Seq<char> {
        match self {
            CookieError::Missing => "Добавьте DSI_COOKIE в .dsi.env"@,
            CookieError::LoneQuote => "DSI_COOKIE в .dsi.env некорректен"@,
            CookieError::Unusable => "DSI_COOKIE в .dsi.env пуст или некорректен"@,
        }
    }

    /// What is shown for the error.
    pub fn message(&self) -> (r: String)
        ensures
            r@ == self.text(),
    {
        match self {
            CookieError::Missing => "Добавьте DSI_COOKIE в .dsi.env".to_owned(),
            CookieError::LoneQuote => "DSI_COOKIE в .dsi.env некорректен".to_owned(),
            CookieError::Unusable => "DSI_COOKIE в .dsi.env пуст или некорректен".to_owned(),
        }
    }
}

/// What the first of these lines that sets the cookie sets it to.
pub open spec fn cookie_setting(list: Seq<Seq<char>>) -> Option<Seq<char>>
    decreases list.len(),
{
    if list.len() == 0 {
        None
    } else if "DSI_COOKIE="@.is_prefix_of(trim(list[0])) {
        Some(trim(trim(list[0]).skip("DSI_COOKIE="@.len() as int)))
    } else {
        cookie_setting(list.drop_first())
    }
}

/// Whether `value` stands between a pair of equal quotation marks.
pub open spec fn is_quoted(value: Seq<char>) -> bool {
    value.len() >= 2 && value[0] == value.last() && (value[0] == '\'' || value[0] == '"')
}

/// What stands between the quotation marks of `value`, or all of it if there are none.
pub open spec fn unquoted(value: Seq<char>) -> Seq<char> {
    if is_quoted(value) {
        value.subrange(1, value.len() - 1)
    } else {
        value
    }
}

/// Whether `s` holds a control character.
pub open spec fn contains_control(s: Seq<char>) -> bool {
    exists|i: int| 0 <= i < s.len() && is_control(#[trigger] s[i])
}

/// The cookie that a setting with this value gives.
pub open spec fn set_cookie(value: Seq<char>) -> Result<Seq<char>, CookieError> {
    if value == "'"@ || value == "\""@ {
        Err(CookieError::LoneQuote)
    } else if unquoted(value).len() == 0 || contains_control(unquoted(value)) {
        Err(CookieError::Unusable)
    } else {
        Ok(unquoted(value))
    }
}

/// The session cookie that the settings hold.
pub open spec fn session_cookie(contents: Seq<char>) -> Result<Seq<char>, CookieError> {
    match cookie_setting(lines(contents)) {
        None => Err(CookieError::Missing),
        Some(value) => set_cookie(value),
    }
}

/// The session cookie that the settings hold.
pub fn cookie(contents: &str) -> (r: Result<String, CookieError>)
    ensures
        text_result(r) == session_cookie(contents@),
{
    let text = chars_of(contents);
    let list = text_lines(text.as_slice());
    let ghost all = lines(contents@);
    let mut i: usize = 0;
    assert(all.skip(0) == all);
    while i < list.len()
        invariant
            i <= list.len(),
            all == lines(contents@),
            texts(list@) == all,
            cookie_setting(all) == cookie_setting(all.skip(i as int)),
        decreases list.len() - i,
    {
        let line = trimmed(list[i]);
        assert(texts(list@)[i as int] == list@[i as int]@);
        assert(all.skip(i as int)[0] == all[i as int]);
        assert(all.skip(i as int).drop_first() == all.skip(i + 1));
        match after_prefix(line, "DSI_COOKIE=") {
            Some(value) => return usable_cookie(trimmed(value)),
            None => {},
        }
        i = i + 1;
    }
    Err(CookieError::Missing)
}

/// The cookie that a setting with this value gives.
fn usable_cookie(value: &[char]) -> (r: Result<String, CookieError>)
    ensures
        text_result(r) == set_cookie(value@),
{
    if is_text(value, "'") || is_text(value, "\"") {
        return Err(CookieError::LoneQuote);
    }
    let n: usize = value.len();
    let value = if n >= 2 && value[0] == value[n - 1] && (value[0] == '\'' || value[0] == '"') {
        slice_subrange(value, 1, n - 1)
    } else {
        value
    };
    if value.len() == 0 || has_control(value) {
        Err(CookieError::Unusable)
    } else {
        Ok(string_of(value))
    }
}

/// Why the API's stream address is not used.
#[derive(Clone, Copy, Debug, PartialEq, Eq, Structural)]
pub enum StreamError {
    /// It is no address.
    Invalid,
    /// It is not at DSI, not over HTTPS, or has a query.
    Unexpected,
    /// Its path is of no known form.
    UnknownFormat,
}

impl StreamError {
    /// What is shown for the error.
    pub open spec fn text(self) -> Seq<char> {
        match self {
            StreamError::Invalid => "DSI вернул некорректный адрес потока"@,
            StreamError::Unexpected => "DSI вернул неожиданный адрес потока"@,
            StreamError::UnknownFormat => "DSI вернул неизвестный формат потока"@,
        }
    }

    /// What is shown for the error.
    pub fn message(&self) -> (r: String)
        ensures
            r@ == self.text(),
    {
        match self {
            StreamError::Invalid => "DSI вернул некорректный адрес потока".to_owned(),
            StreamError::Unexpected => "DSI вернул неожиданный адрес потока".to_owned(),
            StreamError::UnknownFormat => "DSI вернул неизвестный формат потока".to_owned(),
        }
    }
}

/// The directory of the HLS stream that belongs to the path of an RTSP or HLS stream.
pub open spec fn hls_directory(path: Seq<char>) -> Option<Seq<char>> {
    if "/rtsp/"@.is_prefix_of(path) {
        Some("/hls/"@ + strip_trailing(path.skip("/rtsp/"@.len() as int), '/'))
    } else if "/hls/"@.is_prefix_of(path) {
        Some(strip_trailing(path, '/'))
    } else {
        None
    }
}

/// The path of the playlist in this directory, unless it is that path already.
pub open spec fn playlist_in(directory: Seq<char>) -> Seq<char> {
    if "/playlist.m3u8"@.is_suffix_of(directory) {
        directory
    } else {
        directory + "/playlist.m3u8"@
    }
}

/// The path of the playlist that belongs to a stream address with these components;
/// `dsi` says whether it is an address at DSI.
pub open spec fn playlist_path(uri: UriView, dsi: bool) -> Result<Seq<char>, StreamError> {
    if !(uri.scheme == Some("https"@) && dsi && uri.query is None) {
        Err(StreamError::Unexpected)
    } else {
        match hls_directory(uri.path) {
            Some(directory) => Ok(playlist_in(directory)),
            None => Err(StreamError::UnknownFormat),
        }
    }
}

/// The address of the playlist that belongs to the stream address `value`.
pub open spec fn playlist_url(value: Seq<char>) -> Result<Seq<char>, StreamError> {
    match uri_parts(value) {
        None => Err(StreamError::Invalid),
        Some(uri) => match playlist_path(uri, dsi_address(value)) {
            Err(e) => Err(e),
            Ok(path) => Ok(address("https"@, uri.authority->0, path)),
        },
    }
}

/// The path of the playlist that belongs to a stream address with these components.
pub fn playlist_path_of(uri: &UriParts, dsi: bool) -> (r: Result<String, StreamError>)
    ensures
        text_result(r) == playlist_path(uri@, dsi),
{
    let plain = match &uri.query {
        Some(_) => false,
        None => true,
    };
    if !(is_some_text(&uri.scheme, "https") && dsi && plain) {
        return Err(StreamError::Unexpected);
    }
    let path = chars_of(&uri.path);
    let directory = match after_prefix(path.as_slice(), "/rtsp/") {
        Some(tail) => "/hls/".to_owned().concat(&string_of(without_trailing(tail, '/'))),
        None => match after_prefix(path.as_slice(), "/hls/") {
            Some(_) => string_of(without_trailing(path.as_slice(), '/')),
            None => return Err(StreamError::UnknownFormat),
        },
    };
    if has_suffix(chars_of(&directory).as_slice(), "/playlist.m3u8") {
        Ok(directory)
    } else {
        Ok(directory.concat("/playlist.m3u8"))
    }
}

/// The address of the playlist that belongs to the stream address `value`.
///
/// The playlist's own address is left as it is.
pub fn hls_url(value: &str) -> (r: Result<String, StreamError>)
    ensures
        text_result(r) == playlist_url(value@),
        r matches Ok(url) ==> (byte_len(url@) <= MAX_LEN ==> playlist_url(url@) == Ok::<
            _,
            StreamError,
        >(url@)),
{
    match parse_uri(value) {
        Err(_) => Err(StreamError::Invalid),
        Ok(uri) => match playlist_path_of(&uri, is_dsi(value)) {
            Err(e) => Err(e),
            Ok(path) => {
                proof {
                    lemma_playlist_is_path(uri.path@);
                    lemma_playlist_fits(uri@);
                }
                match with_path(value, &path) {
                    Ok(url) => {
                        proof {
                            playlists_are_hls_playlists(uri.path@);
                            if byte_len(url@) <= MAX_LEN {
                                lemma_playlist_is_kept(uri@, path@, url@);
                            }
                        }
                        Ok(url)
                    },
                    // The path fits, so this does not happen.
                    Err(_) => Err(StreamError::Invalid),
                }
            },
        },
    }
}

/// The characters of `cookie` as they stand between double quotation marks in a
/// configuration file of curl.
pub open spec fn escaped(cookie: Seq<char>) -> Seq<char> {
    replace(replace(cookie, '\\', "\\\\"@), '"', "\\\""@)
}

/// The characters of `cookie` as they stand between double quotation marks in a
/// configuration file of curl.
pub fn escape(cookie: &str) -> (r: String)
    ensures
        r@ == escaped(cookie@),
{
    let cookie = chars_of(cookie);
    let cookie = replaced(cookie.as_slice(), '\\', "\\\\");
    string_of(replaced(cookie.as_slice(), '"', "\\\"").as_slice())
}

/// A call of curl: its arguments, and what it is given on standard input.
pub struct ApiRequest {
    pub args: Vec<String>,
    pub input: String,
}

/// The address of the page of camera `id`.
pub open spec fn page_url(id: Seq<char>) -> Seq<char> {
    "https://video.dsi.ru/account/camera/"@ + id + "/view.html"@
}

/// The address that hands out the stream address of camera `id`; `millis` keeps it unique.
pub open spec fn api_url(id: Seq<char>, millis: nat) -> Seq<char> {
    "https://video.dsi.ru/account/camera/"@ + id
        + "/url.html?time=&timeZoneOffset=10800&format=hls&_="@ + decimal(millis)
}

/// The arguments with which curl asks for the stream address of camera `id`.
pub open spec fn api_args(id: Seq<char>, millis: nat) -> Seq<Seq<char>> {
    seq![
        "--silent"@,
        "--show-error"@,
        "--fail"@,
        "--connect-timeout"@,
        "8"@,
        "--max-time"@,
        "20"@,
        "--max-filesize"@,
        "1048576"@,
        "--config"@,
        "-"@,
        "--header"@,
        "Accept: application/json, text/javascript, */*; q=0.01"@,
        "--header"@,
        "X-Requested-With: XMLHttpRequest"@,
        "--user-agent"@,
        "Mozilla/5.0"@,
        "--referer"@,
        page_url(id),
        api_url(id, millis),
    ]
}

/// The configuration by which curl sends the cookie.
pub open spec fn cookie_config(cookie: Seq<char>) -> Seq<char> {
    "cookie = \""@ + escaped(cookie) + "\"\n"@
}

/// The call of curl that asks for the stream address of camera `id`, `millis` milliseconds
/// after the epoch, with the session cookie of the settings `contents`. The cookie goes to
/// curl's standard input and appears in no argument.
pub fn api_request(contents: &str, id: &str, millis: u128) -> (r: Result<ApiRequest, CookieError>)
    ensures
        match session_cookie(contents@) {
            Ok(cookie) => r matches Ok(request) && strings(request.args@) == api_args(
                id@,
                millis as nat,
            ) && request.input@ == cookie_config(cookie),
            Err(e) => r == Err::<ApiRequest, CookieError>(e),
        },
{
    let cookie = match cookie(contents) {
        Ok(cookie) => cookie,
        Err(e) => return Err(e),
    };
    let url = joined(
        "https://video.dsi.ru/account/camera/",
        id,
        "/url.html?time=&timeZoneOffset=10800&format=hls&_=",
    ).concat(&in_decimal(millis));
    let args = vec![
        "--silent".to_owned(),
        "--show-error".to_owned(),
        "--fail".to_owned(),
        "--connect-timeout".to_owned(),
        "8".to_owned(),
        "--max-time".to_owned(),
        "20".to_owned(),
        "--max-filesize".to_owned(),
        "1048576".to_owned(),
        "--config".to_owned(),
        "-".to_owned(),
        "--header".to_owned(),
        "Accept: application/json, text/javascript, */*; q=0.01".to_owned(),
        "--header".to_owned(),
        "X-Requested-With: XMLHttpRequest".to_owned(),
        "--user-agent".to_owned(),
        "Mozilla/5.0".to_owned(),
        "--referer".to_owned(),
        joined("https://video.dsi.ru/account/camera/", id, "/view.html"),
        url,
    ];
    assert(strings(args@) == api_args(id@, millis as nat));
    Ok(ApiRequest { args, input: joined("cookie = \"", &escape(&cookie), "\"\n") })
}

/// Why the API gave no stream address.
#[derive(Clone, Copy, Debug, PartialEq, Eq, Structural)]
pub enum ReplyError {
    /// curl reported a failure.
    Unavailable,
    /// The reply is not JSON, so the session has ended.
    NoSession,
    /// The reply reports an error.
    Refused,
    /// The reply holds no address.
    NoAddress,
    /// The address is not used.
    Stream(StreamError),
}

impl ReplyError {
    /// What is shown for the error.
    pub open spec fn text(self) -> Seq<char> {
        match self {
            ReplyError::Unavailable => "API DSI недоступен; проверьте соединение и авторизацию"@,
            ReplyError::NoSession =>
                "Сессия DSI недействительна: войдите на video.dsi.ru и обновите DSI_COOKIE в .dsi.env"@,
            ReplyError::Refused =>
                "DSI не выдал ссылку: проверьте доступ к камере и обновите DSI_COOKIE в .dsi.env"@,
            ReplyError::NoAddress => "DSI не вернул адрес видео"@,
            ReplyError::Stream(e) => e.text(),
        }
    }

    /// What is shown for the error.
    pub fn message(&self) -> (r: String)
        ensures
            r@ == self.text(),
    {
        match self {
            ReplyError::Unavailable => {
                "API DSI недоступен; проверьте соединение и авторизацию".to_owned()
            },
            ReplyError::NoSession => {
                "Сессия DSI недействительна: войдите на video.dsi.ru и обновите DSI_COOKIE в .dsi.env".to_owned()
            },
            ReplyError::Refused => {
                "DSI не выдал ссылку: проверьте доступ к камере и обновите DSI_COOKIE в .dsi.env".to_owned()
            },
            ReplyError::NoAddress => "DSI не вернул адрес видео".to_owned(),
            ReplyError::Stream(e) => e.message(),
        }
    }
}

/// The stream address in a reply whose members `Error`, `Status` and `URL` are these.
pub open spec fn offered_address(error: JsonView, status: JsonView, url: JsonView) -> Result<
    Seq<char>,
    ReplyError,
> {
    if !(error == JsonView::Bool(false) && status == JsonView::Bool(true)) {
        Err(ReplyError::Refused)
    } else {
        match url {
            JsonView::Text(address) => Ok(address),
            _ => Err(ReplyError::NoAddress),
        }
    }
}

/// The address of the playlist that a reply of the API leads to.
pub open spec fn reply_url(success: bool, body: Seq<u8>) -> Result<Seq<char>, ReplyError> {
    if !success {
        Err(ReplyError::Unavailable)
    } else {
        match (
            json_member(body, "Error"@),
            json_member(body, "Status"@),
            json_member(body, "URL"@),
        ) {
            (Some(error), Some(status), Some(url)) => match offered_address(error, status, url) {
                Ok(value) => match playlist_url(value) {
                    Ok(playlist) => Ok(playlist),
                    Err(e) => Err(ReplyError::Stream(e)),
                },
                Err(e) => Err(e),
            },
            _ => Err(ReplyError::NoSession),
        }
    }
}

/// The stream address in a reply whose members `Error`, `Status` and `URL` are these.
pub fn offered(error: &JsonValue, status: &JsonValue, url: &JsonValue) -> (r: Result<
    String,
    ReplyError,
>)
    ensures
        text_result(r) == offered_address(error@, status@, url@),
{
    match (error, status) {
        (JsonValue::Bool(false), JsonValue::Bool(true)) => match url {
            JsonValue::Text(address) => Ok(address.clone()),
            _ => Err(ReplyError::NoAddress),
        },
        _ => Err(ReplyError::Refused),
    }
}

/// The address of the playlist that a reply of the API leads to; `success` says whether
/// curl reported success.
pub fn api_reply(success: bool, body: &[u8]) -> (r: Result<String, ReplyError>)
    ensures
        text_result(r) == reply_url(success, body@),
{
    if !success {
        return Err(ReplyError::Unavailable);
    }
    match json_members(body, "Error", "Status", "URL") {
        Err(_) => Err(ReplyError::NoSession),
        Ok((error, status, url)) => match offered(&error, &status, &url) {
            Err(e) => Err(e),
            Ok(value) => match hls_url(&value) {
                Ok(playlist) => Ok(playlist),
                Err(e) => Err(ReplyError::Stream(e)),
            },
        },
    }
}

/// What is left of a path without the slashes it ends with.
proof fn lemma_strip_trailing(s: Seq<char>, c: char)
    ensures
        strip_trailing(s, c).is_prefix_of(s),
        strip_trailing(s, c).len() > 0 ==> strip_trailing(s, c).last() != c,
    decreases s.len(),
{
    if s.len() > 0 && s.last() == c {
        lemma_strip_trailing(s.drop_last(), c);
    }
}

/// The playlist's path is a path, as that of the stream is.
proof fn lemma_playlist_is_path(path: Seq<char>)
    requires
        is_path(path),
        hls_directory(path) is Some,
    ensures
        is_path(playlist_in(hls_directory(path)->0)),
{
    reveal_strlit("/rtsp/");
    reveal_strlit("/hls/");
    reveal_strlit("/playlist.m3u8");
    let directory = hls_directory(path)->0;
    let rest = path.skip("/rtsp/"@.len() as int);
    lemma_strip_trailing(rest, '/');
    lemma_strip_trailing(path, '/');
    assert forall|i: int| 0 <= i < playlist_in(directory).len() implies is_path_char(
        #[trigger] playlist_in(directory)[i],
    ) by {
        if "/rtsp/"@.is_prefix_of(path) {
            if 5 <= i < directory.len() {
                assert(directory[i] == rest[i - 5]);
                assert(rest[i - 5] == path[i + 1]);
            }
        } else if i < directory.len() {
            assert(directory[i] == path[i]);
        }
    }
}

/// A path without the slashes it ends with is no longer, in bytes.
proof fn lemma_strip_trailing_fits(s: Seq<char>, c: char)
    ensures
        byte_len(strip_trailing(s, c)) <= byte_len(s),
{
    lemma_strip_trailing(s, c);
    let n = strip_trailing(s, c).len() as int;
    assert(s == strip_trailing(s, c) + s.skip(n));
    lemma_byte_len_add(strip_trailing(s, c), s.skip(n));
}

/// The playlist's path is not too long: what it is longer than the stream's is no more than
/// what scheme and host of any address at DSI take.
proof fn lemma_playlist_fits(uri: UriView)
    requires
        uri.scheme == Some("https"@),
        dsi_uri(uri),
        uri.authority matches Some(authority) && authority.len() >= (uri.host->0).len(),
        hls_directory(uri.path) is Some,
        uri.path.len() > 1 ==> byte_len(address("https"@, uri.authority->0, uri.path)) <= MAX_LEN,
    ensures
        byte_len(playlist_in(hls_directory(uri.path)->0)) <= MAX_LEN,
{
    reveal_strlit("https");
    reveal_strlit("://");
    reveal_strlit("/rtsp/");
    reveal_strlit("/hls/");
    reveal_strlit("/playlist.m3u8");
    is_ascii_chars_encode_utf8("https"@);
    is_ascii_chars_encode_utf8("://"@);
    is_ascii_chars_encode_utf8("/rtsp/"@);
    is_ascii_chars_encode_utf8("/hls/"@);
    is_ascii_chars_encode_utf8("/playlist.m3u8"@);
    let path = uri.path;
    let authority = uri.authority->0;
    dsi_hosts_end_in_dsi(uri.host->0);
    lemma_byte_len(authority);
    lemma_byte_len_add("https"@, "://"@);
    lemma_byte_len_add("https"@ + "://"@, authority);
    lemma_byte_len_add("https"@ + "://"@ + authority, path);
    let directory = hls_directory(path)->0;
    lemma_byte_len_add(directory, "/playlist.m3u8"@);
    if "/rtsp/"@.is_prefix_of(path) {
        let rest = path.skip(6);
        assert(path == "/rtsp/"@ + rest);
        lemma_byte_len_add("/rtsp/"@, rest);
        lemma_strip_trailing_fits(rest, '/');
        lemma_byte_len_add("/hls/"@, strip_trailing(rest, '/'));
    } else {
        lemma_strip_trailing_fits(path, '/');
    }
}

/// The playlist's path is that of a playlist below the directory of HLS streams, and is kept
/// if it is turned into a playlist's path once more.
pub proof fn playlists_are_hls_playlists(path: Seq<char>)
    requires
        hls_directory(path) is Some,
    ensures
        "/hls/"@.is_prefix_of(playlist_in(hls_directory(path)->0)),
        "/playlist.m3u8"@.is_suffix_of(playlist_in(hls_directory(path)->0)),
        hls_directory(playlist_in(hls_directory(path)->0)) == Some(
            playlist_in(hls_directory(path)->0),
        ),
{
    reveal_strlit("/rtsp/");
    reveal_strlit("/hls/");
    reveal_strlit("/playlist.m3u8");
    let directory = hls_directory(path)->0;
    let playlist = playlist_in(directory);
    lemma_strip_trailing(path, '/');
    assert("/playlist.m3u8"@.is_suffix_of(playlist));
    assert(playlist.last() == "/playlist.m3u8"@.last());
    if "/rtsp/"@.is_prefix_of(path) {
        assert(playlist.subrange(0, 5) == "/hls/"@);
    } else {
        assert(path.subrange(0, 5)[3] == "/hls/"@[3]);
        lemma_strip_trailing_keeps(path, '/', 4);
        assert forall|i: int| 0 <= i < 5 implies #[trigger] playlist[i] == "/hls/"@[i] by {
            assert(path.subrange(0, 5)[i] == "/hls/"@[i]);
            if i < directory.len() {
                assert(directory[i] == path[i]);
            } else {
                assert(playlist[i] == "/playlist.m3u8"@[i - 4]);
            }
        }
        assert(playlist.subrange(0, 5) == "/hls/"@);
    }
    assert(!"/rtsp/"@.is_prefix_of(playlist)) by {
        assert(playlist[1] == playlist.subrange(0, 5)[1]);
        assert("/rtsp/"@.is_prefix_of(playlist) ==> playlist.subrange(0, 6)[1] == 'r');
    }
}

/// Copies of `c` are stripped only behind the last other character.
proof fn lemma_strip_trailing_keeps(s: Seq<char>, c: char, n: int)
    requires
        0 < n <= s.len(),
        s[n - 1] != c,
    ensures
        strip_trailing(s, c).len() >= n,
        strip_trailing(s, c).is_prefix_of(s),
    decreases s.len(),
{
    if s.last() == c {
        lemma_strip_trailing_keeps(s.drop_last(), c, n);
    }
}

/// The playlist's address `url`, made from an address with components `uri`, is kept.
proof fn lemma_playlist_is_kept(uri: UriView, path: Seq<char>, url: Seq<char>)
    requires
        uri.scheme == Some("https"@),
        dsi_uri(uri),
        uri.authority matches Some(authority) && !authority.contains('#') && url == address(
            "https"@,
            authority,
            path,
        ),
        is_path(path),
        hls_directory(path) == Some(path),
        "/playlist.m3u8"@.is_suffix_of(path),
        uri_parts(url) == Some(redirected(uri, path)),
    ensures
        playlist_url(url) == Ok::<_, StreamError>(url),
{
    let authority = uri.authority->0;
    reveal_strlit("https");
    reveal_strlit("://");
    assert forall|i: int| 0 <= i < url.len() implies #[trigger] url[i] != '#' by {
        if 8 <= i < 8 + authority.len() {
            assert(url[i] == authority[i - 8]);
        } else if i >= 8 + authority.len() {
            assert(url[i] == path[i - 8 - authority.len()]);
        }
    }
    lemma_position_is(url, '#', url.len());
    assert(before(url, '#') == url);
}

/// An error in the first `n` lines is the error of all lines.
proof fn lemma_first_error(list: Seq<Seq<char>>, n: int, e: CameraListError)
    requires
        0 <= n <= list.len(),
        listed_cameras(list.take(n)) == Err::<Seq<(Seq<char>, Seq<char>)>, _>(e),
    ensures
        listed_cameras(list) == Err::<Seq<(Seq<char>, Seq<char>)>, _>(e),
    decreases list.len(),
{
    if n == list.len() {
        assert(list.take(n) == list);
    } else {
        assert(list.drop_last().take(n) == list.take(n));
        lemma_first_error(list.drop_last(), n, e);
    }
}

/// Whatever names a camera, its number consists of digits.
pub proof fn camera_numbers_are_digits(url: Seq<char>)
    ensures
        named_camera(url) matches Ok(id) ==> is_number(id),
{
}

/// A camera's number names the camera, with or without white space around it.
pub proof fn numbers_name_themselves(url: Seq<char>)
    requires
        is_number(trim(url)),
    ensures
        named_camera(url) == Ok::<_, PageError>(trim(url)),
        named_camera(trim(url)) == Ok::<_, PageError>(trim(url)),
{
    lemma_trim(url);
    lemma_trim_tight(trim(url));
}

/// The path of a camera's page, or of its address.
pub open spec fn page_path(id: Seq<char>, page: Seq<char>) -> Seq<char> {
    "/account/camera/"@ + id + "/"@ + page
}

/// The pieces of the path of a camera's page.
proof fn lemma_split_page(id: Seq<char>, page: Seq<char>)
    requires
        is_number(id),
        !page.contains('/'),
    ensures
        split(page_path(id, page), '/') == seq![
            Seq::<char>::empty(),
            "account"@,
            "camera"@,
            id,
            page,
        ],
{
    reveal_strlit("account");
    reveal_strlit("camera");
    reveal_strlit("/account/camera/");
    reveal_strlit("/");
    let slash = seq!['/'];
    let tail3 = id + slash + page;
    let tail2 = "camera"@ + slash + tail3;
    let tail1 = "account"@ + slash + tail2;
    assert(page_path(id, page) == Seq::<char>::empty() + slash + tail1);
    assert(!id.contains('/')) by {
        if id.contains('/') {
            let i = choose|i: int| 0 <= i < id.len() && id[i] == '/';
            assert(is_digit(id[i]));
        }
    }
    lemma_split_cons(page, '/', page);
    lemma_split_cons(id, '/', page);
    lemma_split_cons("camera"@, '/', tail3);
    lemma_split_cons("account"@, '/', tail2);
    lemma_split_cons(Seq::<char>::empty(), '/', tail1);
}

/// On the DSI site, the pages that name a camera are `/account/camera/ID/view.html` and
/// `/account/camera/ID/url.html`, where `ID` consists of digits.
pub proof fn camera_pages(uri: UriView, id: Seq<char>)
    requires
        uri.scheme == Some("https"@),
        uri.host == Some("video.dsi.ru"@),
        uri.port is None || uri.port == Some(443u16),
        is_path(uri.path),
    ensures
        page_camera(uri) == Ok::<_, PageError>(id) <==> is_number(id) && (uri.path == page_path(
            id,
            "view.html"@,
        ) || uri.path == page_path(id, "url.html"@)),
{
    reveal_strlit("account");
    reveal_strlit("camera");
    reveal_strlit("view.html");
    reveal_strlit("url.html");
    reveal_strlit("/account/camera/");
    reveal_strlit("/");
    let path = uri.path;
    let parts = split(path, '/');
    if page_camera(uri) == Ok::<_, PageError>(id) {
        assert(parts[0] == Seq::<char>::empty()) by {
            lemma_position_is(path, '/', 0);
            assert(path.take(0) == Seq::<char>::empty());
        }
        lemma_join_split(path, '/');
        let last: Seq<Seq<char>> = seq![parts[4]];
        assert(parts.drop_first().drop_first().drop_first().drop_first() == last);
        reveal_with_fuel(join, 6);
        assert(path == page_path(id, parts[4]));
    }
    if is_number(id) {
        if path == page_path(id, "view.html"@) {
            lemma_split_page(id, "view.html"@);
        }
        if path == page_path(id, "url.html"@) {
            lemma_split_page(id, "url.html"@);
        }
    }
}

/// Whether line `i`, counted from zero, says something but gives no camera.
pub open spec fn is_fault(list: Seq<Seq<char>>, i: int) -> bool {
    0 <= i < list.len() && is_listed(list[i]) && listed_camera(list[i], (i + 1) as usize) is Err
}

/// The line that an error is about, counted from one.
pub open spec fn error_line(e: CameraListError) -> usize {
    match e {
        CameraListError::NoBar { line } => line,
        CameraListError::NoName { line } => line,
        CameraListError::NoCamera { line, .. } => line,
    }
}

/// A list is refused exactly if a line of it is at fault, and then for the first such line,
/// which the error names.
pub proof fn first_fault_is_reported(list: Seq<Seq<char>>)
    requires
        list.len() <= usize::MAX,
    ensures
        listed_cameras(list) is Err <==> exists|i: int| is_fault(list, i),
        listed_cameras(list) matches Err(e) ==> is_fault(list, error_line(e) - 1) && listed_camera(
            list[error_line(e) - 1],
            error_line(e),
        ) == Err::<(Seq<char>, Seq<char>), _>(e) && forall|j: int|
            j < error_line(e) - 1 ==> !is_fault(list, j),
    decreases list.len(),
{
    if list.len() > 0 {
        let rest = list.drop_last();
        let n = list.len() as int;
        first_fault_is_reported(rest);
        assert forall|i: int| is_fault(rest, i) <==> is_fault(list, i) && i < n - 1 by {
            if 0 <= i < n - 1 {
                assert(rest[i] == list[i]);
            }
        }
        if listed_cameras(rest) is Err {
            let e = listed_cameras(rest)->Err_0;
            assert(is_fault(list, error_line(e) - 1));
        } else {
            assert forall|i: int| i < n - 1 implies !is_fault(list, i) by {
                assert(!is_fault(rest, i));
            }
            if is_fault(list, n - 1) {
                assert(listed_cameras(list) is Err);
            }
        }
    }
}

/// Whether two errors give one reason; what exactly is wrong with a link does not matter.
pub open spec fn same_reason(a: CameraListError, b: CameraListError) -> bool {
    ||| a is NoBar && b is NoBar
    ||| a is NoName && b is NoName
    ||| a is NoCamera && b is NoCamera
}

/// Two lists that are refused at the same line for the same reason are answered alike:
/// nothing else that they hold is shown.
pub proof fn refusals_show_only_line_and_reason(a: Seq<Seq<char>>, b: Seq<Seq<char>>)
    requires
        listed_cameras(a) is Err,
        listed_cameras(b) is Err,
        error_line(listed_cameras(a)->Err_0) == error_line(listed_cameras(b)->Err_0),
        same_reason(listed_cameras(a)->Err_0, listed_cameras(b)->Err_0),
    ensures
        listed_cameras(a)->Err_0.text() == listed_cameras(b)->Err_0.text(),
{
}

/// Name and number of the camera that a line gives, wherever it stands.
pub open spec fn line_camera(line: Seq<char>) -> (Seq<char>, Seq<char>) {
    listed_camera(line, 0)->Ok_0
}

/// The cameras of a list are those of the lines that say something, one for each, in the
/// order of the lines; equal names do not matter. Each has a name without white space
/// around it and a number of digits.
pub proof fn cameras_are_listed_in_order(list: Seq<Seq<char>>)
    requires
        listed_cameras(list) is Ok,
    ensures
        ({
            let cameras = listed_cameras(list)->Ok_0;
            &&& cameras == list.filter(|line: Seq<char>| is_listed(line)).map_values(
                |line: Seq<char>| line_camera(line),
            )
            &&& forall|i: int|
                0 <= i < cameras.len() ==> cameras[i].0.len() > 0 && is_tight(
                    #[trigger] cameras[i].0,
                ) && is_number(cameras[i].1)
        }),
    decreases list.len(),
{
    let listed = |line: Seq<char>| is_listed(line);
    let camera = |line: Seq<char>| line_camera(line);
    let cameras = listed_cameras(list)->Ok_0;
    reveal(Seq::filter);
    if list.len() > 0 {
        let rest = list.drop_last();
        cameras_are_listed_in_order(rest);
        if is_listed(list.last()) {
            let (name, value) = split_once(list.last(), '|')->0;
            lemma_trim(name);
            assert(list.filter(listed) == rest.filter(listed).push(list.last()));
            assert(list.filter(listed).map_values(camera) == rest.filter(listed).map_values(
                camera,
            ).push(line_camera(list.last())));
        }
    } else {
        assert(cameras == list.filter(listed).map_values(camera));
    }
}

/// A byte order mark at the beginning of a list does not count.
pub proof fn byte_order_marks_do_not_count(contents: Seq<char>)
    ensures
        file_lines(seq!['\u{feff}'] + contents) == file_lines(contents),
{
    assert((seq!['\u{feff}'] + contents).drop_first() == contents);
}

/// A cookie is never empty and holds no control character.
pub proof fn cookies_are_usable(contents: Seq<char>)
    ensures
        session_cookie(contents) matches Ok(cookie) ==> cookie.len() > 0 && !contains_control(
            cookie,
        ),
{
}

/// A cookie between quotation marks is taken as it stands.
pub proof fn quoted_cookies_are_kept(quote: char, cookie: Seq<char>)
    requires
        quote == '\'' || quote == '"',
        cookie.len() > 0,
        !contains_control(cookie),
    ensures
        session_cookie("DSI_COOKIE="@ + seq![quote] + cookie + seq![quote]) == Ok::<
            _,
            CookieError,
        >(cookie),
{
    reveal_strlit("DSI_COOKIE=");
    reveal_strlit("'");
    reveal_strlit("\"");
    let value = seq![quote] + cookie + seq![quote];
    let contents = "DSI_COOKIE="@ + seq![quote] + cookie + seq![quote];
    assert forall|i: int| 0 <= i < contents.len() implies #[trigger] contents[i] != '\n' by {
        if 12 <= i < 12 + cookie.len() {
            assert(contents[i] == cookie[i - 12]);
            assert(!is_control(cookie[i - 12]));
        }
    }
    lemma_position_is(contents, '\n', contents.len());
    assert(lines(contents) == seq![contents]);
    lemma_trim_tight(contents);
    lemma_trim_tight(value);
    assert("DSI_COOKIE="@.is_prefix_of(contents));
    assert(contents.skip(11) == value);
    assert(unquoted(value) == cookie);
}

/// What curl reads at the beginning of `s` as the inside of a text between double quotation
/// marks, and what follows the closing one. A backslash makes the next character stand for
/// itself.
pub open spec fn read_quoted(s: Seq<char>) -> Option<(Seq<char>, Seq<char>)>
    decreases s.len(),
{
    if s.len() == 0 {
        None
    } else if s[0] == '"' {
        Some((Seq::empty(), s.skip(1)))
    } else if s[0] == '\\' && s.len() > 1 {
        match read_quoted(s.skip(2)) {
            Some((inside, rest)) => Some((seq![s[1]] + inside, rest)),
            None => None,
        }
    } else {
        match read_quoted(s.skip(1)) {
            Some((inside, rest)) => Some((seq![s[0]] + inside, rest)),
            None => None,
        }
    }
}

/// Escaping goes character by character.
proof fn lemma_escaped_first(cookie: Seq<char>)
    requires
        cookie.len() > 0,
    ensures
        escaped(cookie) == (if cookie[0] == '\\' || cookie[0] == '"' {
            seq!['\\', cookie[0]]
        } else {
            seq![cookie[0]]
        }) + escaped(cookie.drop_first()),
{
    reveal_strlit("\\\\");
    reveal_strlit("\\\"");
    let first = seq![cookie[0]];
    let rest = cookie.drop_first();
    let slashes = "\\\\"@;
    let quote = "\\\""@;
    assert(first.drop_last() == Seq::<char>::empty());
    assert(cookie == first + rest);
    lemma_replace_add(first, rest, '\\', slashes);
    let one = replace(first, '\\', slashes);
    lemma_replace_add(one, replace(rest, '\\', slashes), '"', quote);
    reveal_with_fuel(replace, 3);
    if cookie[0] == '\\' {
        assert(one == seq!['\\', '\\']);
        assert(one.drop_last() == seq!['\\']);
        assert(one.drop_last().drop_last() == Seq::<char>::empty());
        assert(replace(one, '"', quote) == seq!['\\', '\\']);
    } else {
        assert(one == first);
        if cookie[0] == '"' {
            assert(replace(one, '"', quote) == seq!['\\', '"']);
        } else {
            assert(replace(one, '"', quote) == first);
        }
    }
}

/// An escaped cookie and a closing quotation mark are read as the cookie and no more.
pub proof fn escaped_cookies_are_read_back(cookie: Seq<char>, rest: Seq<char>)
    ensures
        read_quoted(escaped(cookie) + seq!['"'] + rest) == Some((cookie, rest)),
    decreases cookie.len(),
{
    let s = escaped(cookie) + seq!['"'] + rest;
    if cookie.len() == 0 {
        assert(escaped(cookie) == Seq::<char>::empty());
        assert(s.skip(1) == rest);
        assert(cookie == Seq::<char>::empty());
    } else {
        let tail = escaped(cookie.drop_first()) + seq!['"'] + rest;
        lemma_escaped_first(cookie);
        escaped_cookies_are_read_back(cookie.drop_first(), rest);
        assert(seq![cookie[0]] + cookie.drop_first() == cookie);
        if cookie[0] == '\\' || cookie[0] == '"' {
            assert(s == seq!['\\', cookie[0]] + tail);
            assert(s.skip(2) == tail);
        } else {
            assert(s == seq![cookie[0]] + tail);
            assert(s.skip(1) == tail);
        }
    }
}

/// The configuration that curl is given is a single line.
pub proof fn cookie_config_is_one_line(cookie: Seq<char>)
    requires
        !contains_control(cookie),
    ensures
        lines(cookie_config(cookie)) == seq![cookie_config(cookie).drop_last()],
{
    reveal_strlit("cookie = \"");
    reveal_strlit("\"\n");
    let config = cookie_config(cookie);
    let n = config.len() - 1;
    lemma_escaped_plain(cookie);
    assert forall|i: int| 0 <= i < n implies #[trigger] config[i] != '\n' by {
        let k = i - "cookie = \""@.len();
        if 0 <= k < escaped(cookie).len() {
            assert(config[i] == escaped(cookie)[k]);
        }
    }
    lemma_position_is(config, '\n', n as nat);
    assert(config.take(n) == config.drop_last());
    assert(config.drop_last().last() == '"');
    assert(lines(config.skip(n + 1)) == Seq::<Seq<char>>::empty());
    assert(seq![config.drop_last()] + Seq::<Seq<char>>::empty() == seq![config.drop_last()]);
}

/// An escaped cookie holds no line feed if the cookie holds no control character.
proof fn lemma_escaped_plain(cookie: Seq<char>)
    requires
        !contains_control(cookie),
    ensures
        forall|i: int| 0 <= i < escaped(cookie).len() ==> #[trigger] escaped(cookie)[i] != '\n',
    decreases cookie.len(),
{
    if cookie.len() > 0 {
        let rest = cookie.drop_first();
        assert(!is_control(cookie[0]));
        assert(!contains_control(rest)) by {
            if contains_control(rest) {
                let i = choose|i: int| 0 <= i < rest.len() && is_control(#[trigger] rest[i]);
                assert(is_control(cookie[i + 1]));
            }
        }
        lemma_escaped_plain(rest);
        lemma_escaped_first(cookie);
        let k = escaped(cookie).len() - escaped(rest).len();
        assert forall|i: int| 0 <= i < escaped(cookie).len() implies #[trigger] escaped(cookie)[i]
            != '\n' by {
            if i >= k {
                assert(escaped(cookie)[i] == escaped(rest)[i - k]);
            }
        }
    }
}

/// A playlist's address leads over HTTPS to the authority that the stream's address names,
/// at a host of DSI, and to a playlist below the directory of HLS streams.
pub proof fn playlist_addresses(value: Seq<char>)
    requires
        playlist_url(value) is Ok,
    ensures
        dsi_address(value),
        uri_parts(value) matches Some(uri) && hls_directory(uri.path) matches Some(directory)
            && playlist_url(value)->Ok_0 == address(
            "https"@,
            uri.authority->0,
            playlist_in(directory),
        ) && "/hls/"@.is_prefix_of(playlist_in(directory)) && "/playlist.m3u8"@.is_suffix_of(
            playlist_in(directory),
        ),
{
    playlists_are_hls_playlists((uri_parts(value)->0).path);
}

/// What follows `/rtsp/` in a stream's path stands unchanged in the playlist's path, whether
/// or not a slash follows it.
pub proof fn stream_tokens_are_kept(token: Seq<char>)
    requires
        token.len() > 0,
        token.last() != '/',
        !"/playlist.m3u8"@.is_suffix_of("/hls/"@ + token),
    ensures
        hls_directory("/rtsp/"@ + token) == Some("/hls/"@ + token),
        hls_directory("/rtsp/"@ + token + seq!['/']) == Some("/hls/"@ + token),
        playlist_in("/hls/"@ + token) == "/hls/"@ + token + "/playlist.m3u8"@,
{
    let path = "/rtsp/"@ + token;
    let n = "/rtsp/"@.len() as int;
    let slashed = token + seq!['/'];
    assert("/rtsp/"@.is_prefix_of(path));
    assert(path.skip(n) == token);
    assert("/rtsp/"@.is_prefix_of(path + seq!['/']));
    assert((path + seq!['/']).skip(n) == slashed);
    assert(slashed.drop_last() == token);
    assert(strip_trailing(slashed, '/') == token);
}

} // verus!
