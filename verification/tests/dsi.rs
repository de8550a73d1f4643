use ferrumview::dsi::{
    api_reply, api_request, camera_id, cookie, escape, hls_url, offered, page_camera_id,
    parse_cameras, playlist_path_of, CameraListError, CookieError, PageError, ReplyError,
    StreamError,
};
use ferrumview::json::JsonValue;
use ferrumview::uri::UriParts;

#[test]
fn camera_list_accepts_ids_and_preserves_repeated_names() {
    let cameras =
        parse_cameras("\u{feff}# cameras\n\n Подъезд 132 | 18830\r\nПодъезд 132 | 18838\n")
            .unwrap();
    assert_eq!(
        cameras,
        vec![
            ("Подъезд 132".to_string(), "18830".to_string()),
            ("Подъезд 132".to_string(), "18838".to_string())
        ]
    );
}

#[test]
fn invalid_camera_ids_report_the_line() {
    for value in ["", "18830?x=1", "-1", "18 830", "１８８３０"] {
        let error = parse_cameras(&format!("# comment\nПодъезд | {value}")).unwrap_err();
        assert!(error.message().contains("строка 2"));
    }
    assert!(parse_cameras(" | 18830").is_err());
}

#[test]
fn only_account_camera_urls_are_accepted() {
    assert_eq!(
        camera_id("https://video.dsi.ru/account/camera/18830/url.html?format=hls").unwrap(),
        "18830"
    );
    assert!(camera_id("https://evil.test/account/camera/18830/url.html").is_err());
    assert!(camera_id("https://video.dsi.ru/hls/123/playlist.m3u8").is_err());
}

#[test]
fn cookie_quotes_and_secret_errors() {
    assert_eq!(
        cookie("# test\nDSI_COOKIE='a=1; b=2'\n").unwrap(),
        "a=1; b=2"
    );
    assert!(cookie("DSI_COOKIE=''").is_err());
    assert!(cookie("DSI_COOKIE='").is_err());
    assert!(cookie("DSI_COOKIE=secret\tvalue")
        .unwrap_err()
        .message()
        .find("secret")
        .is_none());
}

#[test]
fn api_url_is_converted_without_damaging_token() {
    assert_eq!(
        hls_url("https://video9.dsi.ru:8091/rtsp/123/a.b,c-d/").unwrap(),
        "https://video9.dsi.ru:8091/hls/123/a.b,c-d/playlist.m3u8"
    );
    assert!(hls_url("https://dsi.ru.evil.test/rtsp/123/token").is_err());
    assert!(hls_url("http://video9.dsi.ru/rtsp/123/token").is_err());
}

#[test]
fn camera_errors_tell_links_sites_and_pages_apart() {
    assert_eq!(camera_id(" 7 ").unwrap(), "7");
    assert_eq!(camera_id("18 830").unwrap_err(), PageError::InvalidLink);
    assert_eq!(camera_id("").unwrap_err(), PageError::InvalidLink);
    for url in [
        "http://video.dsi.ru/account/camera/1/view.html",
        "https://VIDEO.dsi.ru/account/camera/1/view.html",
        "https://video.dsi.ru:444/account/camera/1/view.html",
        "/account/camera/1/view.html",
    ] {
        assert_eq!(camera_id(url).unwrap_err(), PageError::OtherSite);
    }
    for url in [
        "https://video.dsi.ru",
        "https://video.dsi.ru/account/camera//view.html",
        "https://video.dsi.ru/account/camera/1a/view.html",
        "https://video.dsi.ru/account/camera/1/edit.html",
        "https://video.dsi.ru/account/camera/1/view.html/",
        "https://video.dsi.ru/Account/camera/1/view.html",
    ] {
        assert_eq!(camera_id(url).unwrap_err(), PageError::OtherPage);
    }
    assert_eq!(
        camera_id("HTTPS://video.dsi.ru:443/account/camera/42/view.html#top").unwrap(),
        "42"
    );
    assert_eq!(
        PageError::InvalidLink.message(),
        "Некорректная ссылка страницы DSI"
    );
    assert_eq!(
        PageError::OtherSite.message(),
        "Нужна HTTPS-ссылка на video.dsi.ru"
    );
    assert_eq!(
        PageError::OtherPage.message(),
        "Нужна ссылка /account/camera/ID/url.html или view.html"
    );
}

fn parts(path: &str) -> UriParts {
    UriParts {
        scheme: Some("https".to_string()),
        authority: Some("video.dsi.ru".to_string()),
        host: Some("video.dsi.ru".to_string()),
        port: None,
        path: path.to_string(),
        query: None,
    }
}

#[test]
fn pages_are_read_from_their_components() {
    assert_eq!(
        page_camera_id(&parts("/account/camera/5/url.html")).unwrap(),
        "5"
    );
    assert_eq!(
        page_camera_id(&parts("/account/camera/5")).unwrap_err(),
        PageError::OtherPage
    );
    let mut other = parts("/account/camera/5/url.html");
    other.port = Some(80);
    assert_eq!(page_camera_id(&other).unwrap_err(), PageError::OtherSite);
}

#[test]
fn the_first_faulty_line_is_reported() {
    let no_bar = parse_cameras("a | 1\n\n# x\nb 2\n| 3").unwrap_err();
    assert_eq!(no_bar, CameraListError::NoBar { line: 4 });
    assert_eq!(
        no_bar.message(),
        "dsi-cameras.txt, строка 4: ожидается Название | ID"
    );
    let no_name = parse_cameras("a | 1\n \t| 3\nb").unwrap_err();
    assert_eq!(no_name, CameraListError::NoName { line: 2 });
    assert_eq!(
        no_name.message(),
        "dsi-cameras.txt, строка 2: укажите название"
    );
    let list = "\n".repeat(99) + "a | b c";
    let no_camera = parse_cameras(&list).unwrap_err();
    assert_eq!(
        no_camera,
        CameraListError::NoCamera {
            line: 100,
            cause: PageError::InvalidLink
        }
    );
    assert_eq!(
        no_camera.message(),
        "dsi-cameras.txt, строка 100: укажите номер камеры или ссылку её страницы DSI"
    );
    assert_eq!(parse_cameras("").unwrap(), vec![]);
    assert_eq!(
        parse_cameras("\u{feff}\u{feff}  #\r\n a|b | 1").unwrap_err(),
        CameraListError::NoCamera {
            line: 2,
            cause: PageError::InvalidLink
        }
    );
}

#[test]
fn cookies_are_found_and_unquoted() {
    assert_eq!(cookie("").unwrap_err(), CookieError::Missing);
    assert_eq!(cookie("#DSI_COOKIE=a").unwrap_err(), CookieError::Missing);
    assert_eq!(cookie("DSI_COOKIE=\"").unwrap_err(), CookieError::LoneQuote);
    assert_eq!(cookie("DSI_COOKIE=").unwrap_err(), CookieError::Unusable);
    assert_eq!(
        cookie("DSI_COOKIE='a\u{85}b'").unwrap_err(),
        CookieError::Unusable
    );
    assert_eq!(
        cookie("X=1\r\n  DSI_COOKIE= \"a\\\"b\" \r\nDSI_COOKIE=c").unwrap(),
        "a\\\"b"
    );
    assert_eq!(cookie("DSI_COOKIE='a\"").unwrap(), "'a\"");
    assert_eq!(cookie("DSI_COOKIE=' a '").unwrap(), " a ");
    assert_eq!(
        CookieError::Missing.message(),
        "Добавьте DSI_COOKIE в .dsi.env"
    );
    assert_eq!(
        CookieError::LoneQuote.message(),
        "DSI_COOKIE в .dsi.env некорректен"
    );
    assert_eq!(
        CookieError::Unusable.message(),
        "DSI_COOKIE в .dsi.env пуст или некорректен"
    );
}

#[test]
fn cookies_are_escaped_for_curl() {
    assert_eq!(escape("a\"b\\c"), "a\\\"b\\\\c");
    assert_eq!(escape("\\\""), "\\\\\\\"");
    assert_eq!(escape(""), "");
    let request = api_request("DSI_COOKIE=a\"b", "18830", 1700000000123).unwrap();
    assert_eq!(request.input, "cookie = \"a\\\"b\"\n");
    assert_eq!(
        request.args,
        [
            "--silent",
            "--show-error",
            "--fail",
            "--connect-timeout",
            "8",
            "--max-time",
            "20",
            "--max-filesize",
            "1048576",
            "--config",
            "-",
            "--header",
            "Accept: application/json, text/javascript, */*; q=0.01",
            "--header",
            "X-Requested-With: XMLHttpRequest",
            "--user-agent",
            "Mozilla/5.0",
            "--referer",
            "https://video.dsi.ru/account/camera/18830/view.html",
            "https://video.dsi.ru/account/camera/18830/url.html?time=&timeZoneOffset=10800&format=hls&_=1700000000123",
        ]
    );
    match api_request("", "1", 0) {
        Err(e) => assert_eq!(e, CookieError::Missing),
        Ok(_) => panic!("no cookie is set"),
    }
}

#[test]
fn stream_addresses_are_checked_and_converted() {
    assert_eq!(
        hls_url("https://dsi.ru/hls/1/t//").unwrap(),
        "https://dsi.ru/hls/1/t/playlist.m3u8"
    );
    assert_eq!(
        hls_url("https://dsi.ru/hls/").unwrap(),
        "https://dsi.ru/hls/playlist.m3u8"
    );
    assert_eq!(
        hls_url("https://dsi.ru/rtsp/").unwrap(),
        "https://dsi.ru/hls//playlist.m3u8"
    );
    assert_eq!(
        hls_url("HTTPS://user@A.DSI.RU/rtsp/x#fragment").unwrap(),
        "https://user@A.DSI.RU/hls/x/playlist.m3u8"
    );
    let done = "https://a.dsi.ru/hls/x/playlist.m3u8";
    assert_eq!(hls_url(done).unwrap(), done);
    assert_eq!(hls_url("not an address").unwrap_err(), StreamError::Invalid);
    for url in [
        "https://a.dsi.ru/rtsp/1?x=1",
        "https://example.com/rtsp/1",
        "http://a.dsi.ru/rtsp/1",
        "/rtsp/1",
    ] {
        assert_eq!(hls_url(url).unwrap_err(), StreamError::Unexpected);
    }
    assert_eq!(
        hls_url("https://a.dsi.ru/file/1").unwrap_err(),
        StreamError::UnknownFormat
    );
    let short = "https://a.dsi.ru/hls/".to_string() + &"x".repeat(65500);
    assert_eq!(hls_url(&short).unwrap(), short + "/playlist.m3u8");
    let longest = "https://dsi.ru/hls/".to_string() + &"x".repeat(65515);
    assert_eq!(hls_url(&longest).unwrap(), longest.clone() + "/playlist.m3u8");
    assert_eq!(
        hls_url(&(longest + "x")).unwrap_err(),
        StreamError::Invalid
    );
    assert_eq!(
        StreamError::Invalid.message(),
        "DSI вернул некорректный адрес потока"
    );
    assert_eq!(
        StreamError::Unexpected.message(),
        "DSI вернул неожиданный адрес потока"
    );
    assert_eq!(
        StreamError::UnknownFormat.message(),
        "DSI вернул неизвестный формат потока"
    );
}

#[test]
fn playlist_paths_follow_from_components() {
    assert_eq!(
        playlist_path_of(&parts("/rtsp/1/a/"), true).unwrap(),
        "/hls/1/a/playlist.m3u8"
    );
    assert_eq!(
        playlist_path_of(&parts("/rtsp/1/a/"), false).unwrap_err(),
        StreamError::Unexpected
    );
}

#[test]
fn replies_lead_to_playlists() {
    let url = "https://video9.dsi.ru/rtsp/1/t";
    let good = format!("{{\"Error\":false,\"Status\":true,\"URL\":\"{url}\"}}");
    assert_eq!(
        api_reply(true, good.as_bytes()).unwrap(),
        "https://video9.dsi.ru/hls/1/t/playlist.m3u8"
    );
    assert_eq!(
        api_reply(false, good.as_bytes()).unwrap_err(),
        ReplyError::Unavailable
    );
    assert_eq!(
        api_reply(true, b"<html>").unwrap_err(),
        ReplyError::NoSession
    );
    for body in [
        "[]",
        "{\"Error\":true,\"Status\":true,\"URL\":\"x\"}",
        "{\"Error\":false,\"Status\":false,\"URL\":\"x\"}",
        "{\"Error\":0,\"Status\":true}",
        "{\"Status\":true,\"URL\":\"x\"}",
    ] {
        assert_eq!(
            api_reply(true, body.as_bytes()).unwrap_err(),
            ReplyError::Refused
        );
    }
    for body in [
        "{\"Error\":false,\"Status\":true}",
        "{\"Error\":false,\"Status\":true,\"URL\":null}",
    ] {
        assert_eq!(
            api_reply(true, body.as_bytes()).unwrap_err(),
            ReplyError::NoAddress
        );
    }
    assert_eq!(
        api_reply(true, b"{\"Error\":false,\"Status\":true,\"URL\":\"http://a.dsi.ru/hls/1\"}")
            .unwrap_err(),
        ReplyError::Stream(StreamError::Unexpected)
    );
    assert_eq!(
        ReplyError::Unavailable.message(),
        "API DSI недоступен; проверьте соединение и авторизацию"
    );
    assert_eq!(
        ReplyError::NoSession.message(),
        "Сессия DSI недействительна: войдите на video.dsi.ru и обновите DSI_COOKIE в .dsi.env"
    );
    assert_eq!(
        ReplyError::Refused.message(),
        "DSI не выдал ссылку: проверьте доступ к камере и обновите DSI_COOKIE в .dsi.env"
    );
    assert_eq!(ReplyError::NoAddress.message(), "DSI не вернул адрес видео");
    assert_eq!(
        ReplyError::Stream(StreamError::Invalid).message(),
        "DSI вернул некорректный адрес потока"
    );
}

#[test]
fn offers_are_read_from_their_members() {
    let yes = JsonValue::Bool(true);
    let no = JsonValue::Bool(false);
    let url = JsonValue::Text("u".to_string());
    assert_eq!(offered(&no, &yes, &url).unwrap(), "u");
    assert_eq!(offered(&yes, &yes, &url).unwrap_err(), ReplyError::Refused);
    assert_eq!(
        offered(&JsonValue::Other, &yes, &url).unwrap_err(),
        ReplyError::Refused
    );
    assert_eq!(
        offered(&no, &yes, &JsonValue::Other).unwrap_err(),
        ReplyError::NoAddress
    );
}
