//! Laws of the cameras of a DSI account.

use crate::dsi::{
    api_args, contains_control, cookie_config, cookie_setting, escaped, hls_directory,
    listed_camera, listed_cameras, named_camera, offered_address, page_camera, pairs_result,
    playlist_addresses, playlist_in, playlist_path, playlist_url, reply_url, session_cookie,
    set_cookie, unquoted, CameraListError, CookieError, PageError, ReplyError, StreamError,
};
use crate::json::{json_member, JsonValue, JsonView};
use crate::laws::text::{
    all_white, characters_are_replaced, comments_and_blanks_say_nothing, copies,
    copies_are_stripped, later_lines_follow, lines_end_at_line_feeds, marks_are_skipped,
    texts_are_cut_into_pieces, texts_are_divided_at_the_first, white_space_around_is_trimmed,
};
use crate::relay::dsi_address;
use crate::text::{
    before, decimal, file_lines, is_control, is_digit, is_number, is_white, join, lemma_join_split,
    lemma_position, lines, replace, split, trim,
};
use crate::uri::{uri_parts, UriView};
use vstd::prelude::*;

verus! {

/// Whether `s` holds a character with a code point below 32 or from 127 to 159.
pub open spec fn holds_control(s: Seq<char>) -> bool {
    exists|i: int|
        0 <= i < s.len() && ((#[trigger] s[i]) as int <= 31 || 127 <= s[i] as int <= 159)
}

/// The characters that a cookie must not hold are those of `holds_control`.
proof fn lemma_control(s: Seq<char>)
    ensures
        contains_control(s) == holds_control(s),
{
    if contains_control(s) {
        let i = choose|i: int| 0 <= i < s.len() && is_control(#[trigger] s[i]);
        assert(s[i] as int <= 31 || 127 <= s[i] as int <= 159);
    }
    if holds_control(s) {
        let i = choose|i: int|
            0 <= i < s.len() && ((#[trigger] s[i]) as int <= 31 || 127 <= s[i] as int <= 159);
        assert(is_control(s[i]));
    }
}

/// A cookie without quotation marks is taken as it stands, to its last character: semicolons,
/// spaces and quotation marks inside it are part of it.
pub proof fn plain_cookies_are_kept(cookie: Seq<char>)
    requires
        cookie.len() > 0,
        !holds_control(cookie),
        !is_white(cookie[0]),
        !is_white(cookie.last()),
        cookie[0] != '\'',
        cookie[0] != '"',
    ensures
        session_cookie("DSI_COOKIE="@ + cookie) == Ok::<_, CookieError>(cookie),
{
    reveal_strlit("DSI_COOKIE=");
    reveal_strlit("'");
    reveal_strlit("\"");
    let none = Seq::<char>::empty();
    let contents = "DSI_COOKIE="@ + cookie;
    assert(!contents.contains('\n')) by {
        if contents.contains('\n') {
            let i = choose|i: int| 0 <= i < contents.len() && contents[i] == '\n';
            assert(cookie[i - 11] == '\n');
            assert(cookie[i - 11] as int <= 31);
        }
    }
    lines_end_at_line_feeds(contents, none);
    assert(none + "DSI_COOKIE="@ + none + cookie + none == contents);
    let list = Seq::<Seq<char>>::empty();
    assert(list + seq![contents] + list == seq![contents]);
    settings_give_their_value(list, none, none, cookie, none, list);
    plain_values_are_kept(cookie);
}

/// The first line that sets the cookie gives it: what follows the equals sign, without the
/// white space around it. Neither earlier lines, which do not set it, nor later ones, which
/// may, count.
pub proof fn settings_give_their_value(
    earlier: Seq<Seq<char>>,
    left: Seq<char>,
    gap: Seq<char>,
    value: Seq<char>,
    right: Seq<char>,
    later: Seq<Seq<char>>,
)
    requires
        forall|i: int|
            0 <= i < earlier.len() ==> !"DSI_COOKIE="@.is_prefix_of(trim(#[trigger] earlier[i])),
        all_white(left),
        all_white(gap),
        all_white(right),
        value.len() > 0 ==> !is_white(value[0]) && !is_white(value.last()),
    ensures
        cookie_setting(earlier + seq![left + "DSI_COOKIE="@ + gap + value + right] + later) == Some(
            value,
        ),
    decreases earlier.len(),
{
    let line = left + "DSI_COOKIE="@ + gap + value + right;
    let list = earlier + seq![line] + later;
    if earlier.len() > 0 {
        let rest = earlier.drop_first();
        assert(list[0] == earlier[0]);
        assert(list.drop_first() == rest + seq![line] + later);
        assert forall|i: int| 0 <= i < rest.len() implies !"DSI_COOKIE="@.is_prefix_of(
            trim(#[trigger] rest[i]),
        ) by {
            assert(!"DSI_COOKIE="@.is_prefix_of(trim(earlier[i + 1])));
        }
        settings_give_their_value(rest, left, gap, value, right, later);
    } else {
        reveal_strlit("DSI_COOKIE=");
        let none = Seq::<char>::empty();
        let key = "DSI_COOKIE="@;
        assert(list[0] == line);
        if value.len() > 0 {
            let middle = key + gap + value;
            assert(line == left + middle + right);
            assert(middle.last() == value.last());
            white_space_around_is_trimmed(left, middle, right);
            assert(key.is_prefix_of(middle));
            assert(middle.skip(11) == gap + value + none);
            white_space_around_is_trimmed(gap, value, none);
        } else {
            let tail = gap + right;
            assert(line == left + key + tail);
            assert(all_white(tail)) by {
                assert forall|i: int| 0 <= i < tail.len() implies is_white(#[trigger] tail[i]) by {
                    if i < gap.len() {
                        assert(is_white(gap[i]));
                    } else {
                        assert(is_white(right[i - gap.len()]));
                    }
                }
            }
            white_space_around_is_trimmed(left, key, tail);
            assert(key.is_prefix_of(key));
            assert(key.skip(11) == none + none + none);
            white_space_around_is_trimmed(none, none, none);
            assert(value == none);
        }
    }
}

/// The cookie is missing exactly if no line, without the white space around it, begins with
/// its name and an equals sign.
pub proof fn settings_may_be_missing(contents: Seq<char>)
    ensures
        session_cookie(contents) == Err::<Seq<char>, _>(CookieError::Missing) <==> forall|i: int|
            0 <= i < lines(contents).len() ==> !"DSI_COOKIE="@.is_prefix_of(
                trim(#[trigger] lines(contents)[i]),
            ),
{
    lemma_missing(lines(contents));
}

/// No value is found exactly if no line sets one.
proof fn lemma_missing(list: Seq<Seq<char>>)
    ensures
        cookie_setting(list) is None <==> forall|i: int|
            0 <= i < list.len() ==> !"DSI_COOKIE="@.is_prefix_of(trim(#[trigger] list[i])),
    decreases list.len(),
{
    if list.len() > 0 {
        let rest = list.drop_first();
        lemma_missing(rest);
        if forall|i: int|
            0 <= i < rest.len() ==> !"DSI_COOKIE="@.is_prefix_of(trim(#[trigger] rest[i])) {
            assert forall|i: int|
                0 < i < list.len() implies !"DSI_COOKIE="@.is_prefix_of(trim(#[trigger] list[i])) by {
                assert(!"DSI_COOKIE="@.is_prefix_of(trim(rest[i - 1])));
            }
        } else {
            let i = choose|i: int|
                0 <= i < rest.len() && "DSI_COOKIE="@.is_prefix_of(trim(#[trigger] rest[i]));
            assert("DSI_COOKIE="@.is_prefix_of(trim(list[i + 1])));
        }
    }
}

/// The settings hold the cookie that the value of the first setting gives.
pub proof fn cookies_come_from_their_setting(contents: Seq<char>, value: Seq<char>)
    requires
        cookie_setting(lines(contents)) == Some(value),
    ensures
        session_cookie(contents) == set_cookie(value),
{
}

/// A value that is no single quotation mark and does not stand between two equal ones is the
/// cookie, all of it, unless it is empty or holds a control character.
pub proof fn plain_values_are_kept(value: Seq<char>)
    requires
        !(value.len() >= 2 && value[0] == value.last() && (value[0] == '\'' || value[0] == '"')),
        value != seq!['\''],
        value != seq!['"'],
    ensures
        value.len() == 0 || holds_control(value) <==> set_cookie(value) == Err::<Seq<char>, _>(
            CookieError::Unusable,
        ),
        value.len() > 0 && !holds_control(value) <==> set_cookie(value) == Ok::<_, CookieError>(
            value,
        ),
{
    reveal_strlit("'");
    reveal_strlit("\"");
    lemma_control(value);
    assert("'"@ == seq!['\'']);
    assert("\""@ == seq!['"']);
}

/// Of a value between two equal quotation marks the inside is the cookie, all of it, unless
/// it is empty or holds a control character; a single quotation mark is no value.
pub proof fn quotation_marks_are_taken_off(quote: char, inside: Seq<char>)
    requires
        quote == '\'' || quote == '"',
    ensures
        inside.len() == 0 || holds_control(inside) <==> set_cookie(
            seq![quote] + inside + seq![quote],
        ) == Err::<Seq<char>, _>(CookieError::Unusable),
        inside.len() > 0 && !holds_control(inside) <==> set_cookie(
            seq![quote] + inside + seq![quote],
        ) == Ok::<_, CookieError>(inside),
        set_cookie(seq![quote]) == Err::<Seq<char>, _>(CookieError::LoneQuote),
{
    reveal_strlit("'");
    reveal_strlit("\"");
    let value = seq![quote] + inside + seq![quote];
    lemma_control(inside);
    assert("'"@ == seq!['\'']);
    assert("\""@ == seq!['"']);
    assert(value.len() >= 2);
    assert(unquoted(value) == inside);
}

/// A backslash is put before each backslash and each quotation mark of a cookie, and nothing
/// else is changed.
pub proof fn cookies_are_escaped_by_character(a: Seq<char>, c: char, b: Seq<char>)
    ensures
        escaped(Seq::empty()) == Seq::<char>::empty(),
        escaped(a + seq![c] + b) == escaped(a) + (if c == '\\' || c == '"' {
            seq!['\\', c]
        } else {
            seq![c]
        }) + escaped(b),
{
    reveal_strlit("\\\\");
    reveal_strlit("\\\"");
    let none = Seq::<char>::empty();
    let slashes = "\\\\"@;
    let quote = "\\\""@;
    let x = replace(a, '\\', slashes);
    let y = replace(b, '\\', slashes);
    characters_are_replaced(a, c, b, '\\', slashes);
    if c == '\\' {
        assert(slashes == seq!['\\', '\\']);
        let s = x + slashes + y;
        assert(s == x + seq!['\\'] + (seq!['\\'] + y));
        characters_are_replaced(x, '\\', seq!['\\'] + y, '"', quote);
        assert(seq!['\\'] + y == none + seq!['\\'] + y);
        characters_are_replaced(none, '\\', y, '"', quote);
        assert(escaped(a + seq![c] + b) == escaped(a) + seq!['\\', c] + escaped(b));
    } else {
        characters_are_replaced(x, c, y, '"', quote);
        if c == '"' {
            assert(quote == seq!['\\', c]);
        }
    }
    characters_are_replaced(none, c, none, '\\', slashes);
    characters_are_replaced(none, c, none, '"', quote);
}

/// The cookie is handed to curl in one setting, escaped, between quotation marks.
pub proof fn cookies_are_set_for_curl(cookie: Seq<char>)
    ensures
        cookie_config(cookie) == "cookie = \""@ + escaped(cookie) + "\"\n"@,
{
}

/// curl asks for the address of the camera, refers to the camera's page, and reads its
/// configuration from standard input; the moment counts only at the end of the address, and
/// nothing else depends on camera or moment.
pub proof fn requests_name_their_camera(
    id: Seq<char>,
    other: Seq<char>,
    millis: nat,
    later: nat,
)
    ensures
        api_args(id, millis).len() == 20,
        api_args(id, millis)[18] == "https://video.dsi.ru/account/camera/"@ + id + "/view.html"@,
        api_args(id, millis)[19] == "https://video.dsi.ru/account/camera/"@ + id
            + "/url.html?time=&timeZoneOffset=10800&format=hls&_="@ + decimal(millis),
        forall|i: int|
            0 <= i < 18 ==> #[trigger] api_args(id, millis)[i] == api_args(other, later)[i],
        api_args(id, millis)[0] == "--silent"@,
        api_args(id, millis)[1] == "--show-error"@,
        api_args(id, millis)[2] == "--fail"@,
        api_args(id, millis)[3] == "--connect-timeout"@,
        api_args(id, millis)[4] == "8"@,
        api_args(id, millis)[5] == "--max-time"@,
        api_args(id, millis)[6] == "20"@,
        api_args(id, millis)[7] == "--max-filesize"@,
        api_args(id, millis)[8] == "1048576"@,
        api_args(id, millis)[9] == "--config"@,
        api_args(id, millis)[10] == "-"@,
        api_args(id, millis)[11] == "--header"@,
        api_args(id, millis)[12] == "Accept: application/json, text/javascript, */*; q=0.01"@,
        api_args(id, millis)[13] == "--header"@,
        api_args(id, millis)[14] == "X-Requested-With: XMLHttpRequest"@,
        api_args(id, millis)[15] == "--user-agent"@,
        api_args(id, millis)[16] == "Mozilla/5.0"@,
        api_args(id, millis)[17] == "--referer"@,
{
}

/// An address is one of the site exactly if it is of `video.dsi.ru` over HTTPS, at the port
/// of HTTPS.
pub proof fn other_sites_are_refused(uri: UriView)
    ensures
        page_camera(uri) == Err::<Seq<char>, _>(PageError::OtherSite) <==> !(uri.scheme == Some(
            "https"@,
        ) && uri.host == Some("video.dsi.ru"@) && (uri.port is None || uri.port == Some(443u16))),
{
}

/// The pages of a camera of the site are `/account/camera/ID/view.html` and
/// `/account/camera/ID/url.html`, where `ID` is the camera's number; no other page names a
/// camera. What precedes the first slash of a path does not count.
pub proof fn pages_name_their_camera(uri: UriView, id: Seq<char>)
    requires
        uri.scheme == Some("https"@),
        uri.host == Some("video.dsi.ru"@),
        uri.port is None || uri.port == Some(443u16),
    ensures
        page_camera(uri) == Ok::<_, PageError>(id) <==> is_number(id) && (uri.path == before(
            uri.path,
            '/',
        ) + "/account/camera/"@ + id + "/view.html"@ || uri.path == before(uri.path, '/')
            + "/account/camera/"@ + id + "/url.html"@),
        page_camera(uri) is Ok || page_camera(uri) == Err::<Seq<char>, _>(PageError::OtherPage),
{
    reveal_strlit("account");
    reveal_strlit("camera");
    reveal_strlit("view.html");
    reveal_strlit("url.html");
    reveal_strlit("/account/camera/");
    reveal_strlit("/view.html");
    reveal_strlit("/url.html");
    let path = uri.path;
    let parts = split(path, '/');
    let first = before(path, '/');
    lemma_position(path, '/');
    if page_camera(uri) == Ok::<_, PageError>(id) {
        assert(parts[0] == first);
        lemma_join_split(path, '/');
        let last: Seq<Seq<char>> = seq![parts[4]];
        assert(parts.drop_first().drop_first().drop_first().drop_first() == last);
        reveal_with_fuel(join, 6);
        if parts[4] == "view.html"@ {
            assert(path == first + "/account/camera/"@ + id + "/view.html"@);
        } else {
            assert(path == first + "/account/camera/"@ + id + "/url.html"@);
        }
    }
    if is_number(id) {
        assert(!first.contains('/'));
        if path == first + "/account/camera/"@ + id + "/view.html"@ {
            lemma_page_pieces(first, id, "view.html"@);
            assert("/"@ + "view.html"@ == "/view.html"@) by {
                reveal_strlit("/");
            }
            assert(path == first + "/account/camera/"@ + id + ("/"@ + "view.html"@));
        }
        if path == first + "/account/camera/"@ + id + "/url.html"@ {
            lemma_page_pieces(first, id, "url.html"@);
            assert("/"@ + "url.html"@ == "/url.html"@) by {
                reveal_strlit("/");
            }
            assert(path == first + "/account/camera/"@ + id + ("/"@ + "url.html"@));
        }
    }
}

/// The pieces of the path of a camera's page.
proof fn lemma_page_pieces(first: Seq<char>, id: Seq<char>, page: Seq<char>)
    requires
        !first.contains('/'),
        is_number(id),
        !page.contains('/'),
    ensures
        split(first + "/account/camera/"@ + id + ("/"@ + page), '/') == seq![
            first,
            "account"@,
            "camera"@,
            id,
            page,
        ],
{
    reveal_strlit("account");
    reveal_strlit("camera");
    reveal_strlit("/account/camera/");
    reveal_strlit("/");
    let slash = seq!['/'];
    let tail3 = id + slash + page;
    let tail2 = "camera"@ + slash + tail3;
    let tail1 = "account"@ + slash + tail2;
    assert(first + "/account/camera/"@ + id + ("/"@ + page) == first + slash + tail1);
    assert(!id.contains('/')) by {
        if id.contains('/') {
            let i = choose|i: int| 0 <= i < id.len() && id[i] == '/';
            assert(is_digit(id[i]));
        }
    }
    texts_are_cut_into_pieces(page, '/', page);
    texts_are_cut_into_pieces(id, '/', page);
    texts_are_cut_into_pieces("camera"@, '/', tail3);
    texts_are_cut_into_pieces("account"@, '/', tail2);
    texts_are_cut_into_pieces(first, '/', tail1);
}

/// What names a camera, white space around it aside, is a run of digits, which is its number
/// as it stands, or the address of its page.
pub proof fn cameras_are_named_by_number_or_page(
    left: Seq<char>,
    name: Seq<char>,
    right: Seq<char>,
)
    requires
        all_white(left),
        all_white(right),
        name.len() > 0 ==> !is_white(name[0]) && !is_white(name.last()),
    ensures
        is_number(name) ==> named_camera(left + name + right) == Ok::<_, PageError>(name),
        !is_number(name) && uri_parts(name) is None ==> named_camera(left + name + right) == Err::<
            Seq<char>,
            _,
        >(PageError::InvalidLink),
        !is_number(name) && uri_parts(name) is Some ==> named_camera(left + name + right)
            == page_camera(uri_parts(name)->0),
{
    white_space_around_is_trimmed(left, name, right);
}

/// A line of a list gives the name before its first bar, without the white space around it,
/// and the camera that is named after it. It is at fault if it has no bar, if there is no
/// name, or if no camera is named, in this order.
pub proof fn lines_give_name_and_camera(
    left: Seq<char>,
    name: Seq<char>,
    right: Seq<char>,
    value: Seq<char>,
    n: usize,
)
    requires
        all_white(left),
        all_white(right),
        name.len() > 0 ==> !is_white(name[0]) && !is_white(name.last()),
        !name.contains('|'),
    ensures
        listed_camera(left + name + right, n) == Err::<(Seq<char>, Seq<char>), _>(
            CameraListError::NoBar { line: n },
        ),
        ({
            let outcome = listed_camera(left + name + right + seq!['|'] + value, n);
            &&& name.len() == 0 ==> outcome == Err::<(Seq<char>, Seq<char>), _>(
                CameraListError::NoName { line: n },
            )
            &&& name.len() > 0 ==> match named_camera(value) {
                Ok(id) => outcome == Ok::<_, CameraListError>((name, id)),
                Err(cause) => outcome == Err::<(Seq<char>, Seq<char>), _>(
                    CameraListError::NoCamera { line: n, cause },
                ),
            }
        }),
{
    let head = left + name + right;
    assert(!head.contains('|')) by {
        if head.contains('|') {
            let i = choose|i: int| 0 <= i < head.len() && head[i] == '|';
            if i < left.len() {
                assert(is_white(left[i]));
            } else if i < left.len() + name.len() {
                assert(name[i - left.len()] == '|');
            } else {
                assert(is_white(right[i - left.len() - name.len()]));
            }
        }
    }
    texts_are_divided_at_the_first(head, '|', value);
    white_space_around_is_trimmed(left, name, right);
}

/// A camera that is written behind a list, on a line of its own, is listed behind the others,
/// whatever they are; and a list that is at fault stays so.
pub proof fn cameras_are_added_at_the_end(contents: Seq<char>, name: Seq<char>, id: Seq<char>)
    requires
        contents.len() > 0 ==> contents.last() == '\n' && contents[0] != '\u{feff}',
        name.len() > 0,
        name[0] != '\u{feff}',
        name[0] != '#',
        !is_white(name[0]),
        !is_white(name.last()),
        !name.contains('|'),
        !name.contains('\n'),
        is_number(id),
        lines(contents).len() < usize::MAX,
    ensures
        match listed_cameras(file_lines(contents)) {
            Ok(cameras) => listed_cameras(file_lines(contents + name + "|"@ + id + "\n"@)) == Ok::<
                _,
                CameraListError,
            >(cameras.push((name, id))),
            Err(e) => listed_cameras(file_lines(contents + name + "|"@ + id + "\n"@)) == Err::<
                Seq<(Seq<char>, Seq<char>)>,
                _,
            >(e),
        },
{
    reveal_strlit("|");
    reveal_strlit("\n");
    let none = Seq::<char>::empty();
    let line = name + seq!['|'] + id;
    let text = line + seq!['\n'] + none;
    let all = contents + name + "|"@ + id + "\n"@;
    assert(all == contents + text);
    assert(id.len() > 0 && is_digit(id[0]) && is_digit(id[id.len() - 1]));
    assert(!line.contains('\n')) by {
        if line.contains('\n') {
            let i = choose|i: int| 0 <= i < line.len() && line[i] == '\n';
            if i < name.len() {
                assert(name[i] == '\n');
            } else if i > name.len() {
                assert(is_digit(id[i - name.len() - 1]));
            }
        }
    }
    lines_end_at_line_feeds(line, none);
    assert(lines(text) == seq![line]) by {
        assert(seq![line] + Seq::<Seq<char>>::empty() == seq![line]);
    }
    later_lines_follow(contents, text);
    marks_are_skipped(contents, 0);
    marks_are_skipped(all, 0);
    let list = lines(contents) + seq![line];
    assert(list.drop_last() == lines(contents));
    assert(none + seq![name[0]] + line.skip(1) == line);
    comments_and_blanks_say_nothing(none, name[0], line.skip(1));
    assert(none + name + none + seq!['|'] + id == line);
    lines_give_name_and_camera(none, name, none, id, list.len() as usize);
    assert(none + id + none == id);
    cameras_are_named_by_number_or_page(none, id, none);
}

/// An error of a list names its line in decimal, and says what is expected there.
pub proof fn camera_list_errors_name_their_line(line: usize, cause: PageError)
    ensures
        (CameraListError::NoBar { line }).text() == "dsi-cameras.txt, строка "@ + decimal(
            line as nat,
        ) + ": ожидается Название | ID"@,
        (CameraListError::NoName { line }).text() == "dsi-cameras.txt, строка "@ + decimal(
            line as nat,
        ) + ": укажите название"@,
        (CameraListError::NoCamera { line, cause }).text() == "dsi-cameras.txt, строка "@ + decimal(
            line as nat,
        ) + ": укажите номер камеры или ссылку её страницы DSI"@,
{
}

/// Each error is shown as one sentence of its own, which holds nothing of the input.
pub proof fn errors_have_their_texts(
    page: PageError,
    cookie: CookieError,
    stream: StreamError,
    reply: ReplyError,
)
    ensures
        page.text() == match page {
            PageError::InvalidLink => "Некорректная ссылка страницы DSI"@,
            PageError::OtherSite => "Нужна HTTPS-ссылка на video.dsi.ru"@,
            PageError::OtherPage => "Нужна ссылка /account/camera/ID/url.html или view.html"@,
        },
        cookie.text() == match cookie {
            CookieError::Missing => "Добавьте DSI_COOKIE в .dsi.env"@,
            CookieError::LoneQuote => "DSI_COOKIE в .dsi.env некорректен"@,
            CookieError::Unusable => "DSI_COOKIE в .dsi.env пуст или некорректен"@,
        },
        stream.text() == match stream {
            StreamError::Invalid => "DSI вернул некорректный адрес потока"@,
            StreamError::Unexpected => "DSI вернул неожиданный адрес потока"@,
            StreamError::UnknownFormat => "DSI вернул неизвестный формат потока"@,
        },
        reply.text() == match reply {
            ReplyError::Unavailable => "API DSI недоступен; проверьте соединение и авторизацию"@,
            ReplyError::NoSession =>
                "Сессия DSI недействительна: войдите на video.dsi.ru и обновите DSI_COOKIE в .dsi.env"@,
            ReplyError::Refused =>
                "DSI не выдал ссылку: проверьте доступ к камере и обновите DSI_COOKIE в .dsi.env"@,
            ReplyError::NoAddress => "DSI не вернул адрес видео"@,
            ReplyError::Stream(e) => e.text(),
        },
{
}

/// The path `directory`, as that of a playlist: it ends with the playlist's name, which is
/// appended only if it does not stand there already.
pub open spec fn ends_as_playlist(directory: Seq<char>, path: Seq<char>) -> bool {
    if directory.len() >= 14 && directory.skip(directory.len() - 14) == "/playlist.m3u8"@ {
        path == directory
    } else {
        path == directory + "/playlist.m3u8"@
    }
}

/// Whether a directory's path is completed as `ends_as_playlist` says.
pub proof fn lemma_ends_as_playlist(directory: Seq<char>)
    ensures
        ends_as_playlist(directory, playlist_in(directory)),
{
    reveal_strlit("/playlist.m3u8");
    if directory.len() >= 14 {
        assert(directory.skip(directory.len() - 14) == directory.subrange(
            directory.len() - 14,
            directory.len() as int,
        ));
    }
}

/// The stream below `/rtsp/` has its playlist below `/hls/`, in the directory of its token,
/// which is kept but for the slashes at its end. The playlist's address names the stream's
/// authority, port and all, over HTTPS.
pub proof fn rtsp_streams_have_hls_playlists(
    value: Seq<char>,
    uri: UriView,
    token: Seq<char>,
    slashes: nat,
)
    requires
        uri_parts(value) == Some(uri),
        uri.scheme == Some("https"@),
        dsi_address(value),
        uri.query is None,
        uri.path == "/rtsp/"@ + token + copies('/', slashes),
        token.len() > 0 ==> token.last() != '/',
    ensures
        playlist_url(value) matches Ok(url) && exists|path: Seq<char>|
            url == "https://"@ + uri.authority->0 + path && #[trigger] ends_as_playlist(
                "/hls/"@ + token,
                path,
            ),
{
    reveal_strlit("/rtsp/");
    reveal_strlit("https");
    reveal_strlit("://");
    reveal_strlit("https://");
    copies_are_stripped(token, '/', slashes);
    assert("/rtsp/"@.is_prefix_of(uri.path));
    assert(uri.path.skip(6) == token + copies('/', slashes));
    lemma_ends_as_playlist("/hls/"@ + token);
    assert("https"@ + "://"@ == "https://"@);
    assert(ends_as_playlist("/hls/"@ + token, playlist_in("/hls/"@ + token)));
}

/// The stream below `/hls/` has its playlist in its own directory, but for the slashes at
/// the end of its path; a playlist's own address is kept.
pub proof fn hls_streams_keep_their_directory(
    value: Seq<char>,
    uri: UriView,
    directory: Seq<char>,
    slashes: nat,
)
    requires
        uri_parts(value) == Some(uri),
        uri.scheme == Some("https"@),
        dsi_address(value),
        uri.query is None,
        uri.path == directory + copies('/', slashes),
        "/hls/"@.is_prefix_of(uri.path),
        directory.len() > 0,
        directory.last() != '/',
    ensures
        playlist_url(value) matches Ok(url) && exists|path: Seq<char>|
            url == "https://"@ + uri.authority->0 + path && #[trigger] ends_as_playlist(
                directory,
                path,
            ),
{
    reveal_strlit("/rtsp/");
    reveal_strlit("/hls/");
    reveal_strlit("https");
    reveal_strlit("://");
    reveal_strlit("https://");
    copies_are_stripped(directory, '/', slashes);
    assert(!"/rtsp/"@.is_prefix_of(uri.path)) by {
        assert(uri.path.subrange(0, 5)[1] == 'h');
        assert("/rtsp/"@.is_prefix_of(uri.path) ==> uri.path.subrange(0, 6)[1] == 'r');
    }
    lemma_ends_as_playlist(directory);
    assert("https"@ + "://"@ == "https://"@);
    assert(ends_as_playlist(directory, playlist_in(directory)));
}

/// A text that is no address is invalid; an address that is not at DSI over HTTPS, or has a
/// query, is unexpected; and one whose path is neither below `/rtsp/` nor below `/hls/` is of
/// no known format. There is no other reason to refuse a stream's address.
pub proof fn stream_addresses_are_refused_for_these_reasons(value: Seq<char>)
    ensures
        uri_parts(value) is None <==> playlist_url(value) == Err::<Seq<char>, _>(
            StreamError::Invalid,
        ),
        uri_parts(value) matches Some(uri) ==> {
            let fits = uri.scheme == Some("https"@) && dsi_address(value) && uri.query is None;
            let known = "/rtsp/"@.is_prefix_of(uri.path) || "/hls/"@.is_prefix_of(uri.path);
            &&& !fits <==> playlist_url(value) == Err::<Seq<char>, _>(StreamError::Unexpected)
            &&& fits && !known <==> playlist_url(value) == Err::<Seq<char>, _>(
                StreamError::UnknownFormat,
            )
            &&& fits && known <==> playlist_url(value) is Ok
        },
{
}

/// What a reply of the API leads to is always a playlist's address: over HTTPS, at the
/// authority that the reply's address names, at DSI, below `/hls/`, and ending with the
/// playlist's name; so it is never the address of a stream below `/rtsp/`. The reply has then
/// reported success and no error.
pub proof fn replies_lead_to_hls_playlists(success: bool, body: Seq<u8>)
    requires
        reply_url(success, body) is Ok,
    ensures
        success,
        json_member(body, "Error"@) == Some(JsonView::Bool(false)),
        json_member(body, "Status"@) == Some(JsonView::Bool(true)),
        json_member(body, "URL"@) matches Some(JsonView::Text(value)) && uri_parts(value) matches Some(
            uri,
        ) && ({
            let url = reply_url(success, body)->Ok_0;
            let head = "https://"@ + uri.authority->0;
            let path = url.skip(head.len() as int);
            &&& playlist_url(value) == Ok::<_, StreamError>(url)
            &&& uri.scheme == Some("https"@)
            &&& uri.query is None
            &&& dsi_address(value)
            &&& head.is_prefix_of(url)
            &&& "/hls/"@.is_prefix_of(path)
            &&& "/playlist.m3u8"@.is_suffix_of(path)
            &&& !"/rtsp/"@.is_prefix_of(path)
            &&& hls_directory(uri.path) is Some
            &&& path == playlist_in(hls_directory(uri.path)->0)
        }),
{
    reveal_strlit("https");
    reveal_strlit("://");
    reveal_strlit("https://");
    reveal_strlit("/rtsp/");
    reveal_strlit("/hls/");
    let value = json_member(body, "URL"@)->0->Text_0;
    let uri = uri_parts(value)->0;
    let url = reply_url(success, body)->Ok_0;
    let head = "https://"@ + uri.authority->0;
    playlist_addresses(value);
    assert("https"@ + "://"@ == "https://"@);
    let path = playlist_in(hls_directory(uri.path)->0);
    assert(url == head + path);
    assert(url.skip(head.len() as int) == path);
    assert(!"/rtsp/"@.is_prefix_of(path)) by {
        assert(path.subrange(0, 5)[1] == 'h');
        assert("/rtsp/"@.is_prefix_of(path) ==> path.subrange(0, 6)[1] == 'r');
    }
}

/// A reply leads to the playlist of the address it holds exactly if curl reports success, the
/// reply is JSON, it reports no error and the right status, and it holds an address that can
/// be used; else it is refused for the first of these that fails.
pub proof fn replies_are_taken_or_refused(success: bool, body: Seq<u8>)
    ensures
        ({
            let outcome = reply_url(success, body);
            let error = json_member(body, "Error"@);
            let status = json_member(body, "Status"@);
            let url = json_member(body, "URL"@);
            let json = error is Some && status is Some && url is Some;
            let good = error == Some(JsonView::Bool(false)) && status == Some(JsonView::Bool(true));
            &&& !success ==> outcome == Err::<Seq<char>, _>(ReplyError::Unavailable)
            &&& success && !json ==> outcome == Err::<Seq<char>, _>(ReplyError::NoSession)
            &&& success && json && !good ==> outcome == Err::<Seq<char>, _>(ReplyError::Refused)
            &&& success && json && good ==> match url {
                Some(JsonView::Text(value)) => match playlist_url(value) {
                    Ok(playlist) => outcome == Ok::<_, ReplyError>(playlist),
                    Err(e) => outcome == Err::<Seq<char>, _>(ReplyError::Stream(e)),
                },
                _ => outcome == Err::<Seq<char>, _>(ReplyError::NoAddress),
            }
        }),
{
}

/// A reply offers the address it holds exactly if its error is `false` and its status is
/// `true`, and then the address is the text of the member, all of it.
pub proof fn offers_are_whole(error: JsonView, status: JsonView, url: JsonView)
    ensures
        ({
            let good = error == JsonView::Bool(false) && status == JsonView::Bool(true);
            let outcome = offered_address(error, status, url);
            &&& !good <==> outcome == Err::<Seq<char>, _>(ReplyError::Refused)
            &&& good && !(url is Text) <==> outcome == Err::<Seq<char>, _>(ReplyError::NoAddress)
            &&& good && url is Text <==> outcome == Ok::<_, ReplyError>(url->Text_0)
        }),
{
}

/// The path of a stream's playlist depends on its components: refused as unexpected unless
/// over HTTPS, at DSI and without a query; refused as of no known format unless below
/// `/rtsp/` or `/hls/`; and else that of the playlist.
pub proof fn playlist_paths_follow_from_components(uri: UriView, dsi: bool)
    ensures
        ({
            let fits = uri.scheme == Some("https"@) && dsi && uri.query is None;
            let known = "/rtsp/"@.is_prefix_of(uri.path) || "/hls/"@.is_prefix_of(uri.path);
            let outcome = playlist_path(uri, dsi);
            &&& !fits <==> outcome == Err::<Seq<char>, _>(StreamError::Unexpected)
            &&& fits && !known <==> outcome == Err::<Seq<char>, _>(StreamError::UnknownFormat)
            &&& fits && known ==> hls_directory(uri.path) is Some && outcome == Ok::<
                _,
                StreamError,
            >(playlist_in(hls_directory(uri.path)->0))
        }),
{
}

/// The outcome of reading a list shows the pairs of the list, all of them and in their order.
pub proof fn pairs_show_their_texts(list: Vec<(String, String)>, e: CameraListError)
    ensures
        pairs_result::<CameraListError>(Err(e)) == Err::<Seq<(Seq<char>, Seq<char>)>, _>(e),
        pairs_result::<CameraListError>(Ok(list)) matches Ok(pairs) && pairs.len() == list@.len()
            && forall|i: int|
            0 <= i < pairs.len() ==> #[trigger] pairs[i] == (list@[i].0@, list@[i].1@),
{
}

/// A member of a reply shows its value.
pub proof fn members_show_their_value(flag: bool, text: String)
    ensures
        JsonValue::Bool(flag)@ == JsonView::Bool(flag),
        JsonValue::Text(text)@ == JsonView::Text(text@),
        JsonValue::Other@ == JsonView::Other,
{
}

} // verus!
