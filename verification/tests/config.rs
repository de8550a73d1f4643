use ferrumview::config::{
    choose_list, config, config_reply, is_web_uri, parse_cameras, refusal, ConfigReply, ListChoice,
    ListFile, ListRead, StreamListError,
};
use ferrumview::relay::{Body, Relays};
use ferrumview::uri::UriParts;

#[test]
fn camera_file_preserves_urls_and_ignores_comments() {
    let cameras = match parse_cameras("\u{feff}# Камеры\n\n Двор | https://example.com/live.m3u8?token=a=b&x=1#video=copy\r\n") {
        Ok(cameras) => cameras,
        Err(_) => panic!("the list is good"),
    };
    assert_eq!(cameras.len(), 1);
    assert_eq!(cameras[0].name, "Двор");
    assert_eq!(
        cameras[0].url,
        "https://example.com/live.m3u8?token=a=b&x=1#video=copy"
    );
}

#[test]
fn invalid_camera_reports_line_without_exposing_url() {
    for line in [
        "Название без ссылки",
        " | https://example.com",
        "Двор | javascript:secret",
        "Двор | https://",
    ] {
        let error = parse_cameras(&format!("# header\n{line}"))
            .err()
            .unwrap()
            .message();
        assert!(error.contains("Строка 2"));
        assert!(!error.contains("secret"));
    }
}

#[test]
fn faults_of_streams_are_told_apart() {
    let fault = |list: &str| parse_cameras(list).err().unwrap();
    assert_eq!(fault("a|http://b\nc"), StreamListError::NoBar { line: 2 });
    assert_eq!(
        fault("\n\na | b c"),
        StreamListError::InvalidUrl { line: 3 }
    );
    assert_eq!(
        fault("a | ftp://b\nc"),
        StreamListError::NotWeb { line: 1 }
    );
    assert_eq!(fault("| http://b"), StreamListError::NotWeb { line: 1 });
    assert_eq!(fault("| b c"), StreamListError::InvalidUrl { line: 1 });
    assert_eq!(fault("a | /b"), StreamListError::NotWeb { line: 1 });
    assert_eq!(
        StreamListError::NoBar { line: 10 }.message(),
        "Строка 10: ожидается Название | URL"
    );
    assert_eq!(
        StreamListError::InvalidUrl { line: 7 }.message(),
        "Строка 7: некорректный URL"
    );
    assert_eq!(
        StreamListError::NotWeb { line: 1 }.message(),
        "Строка 1: нужны название и HTTP(S) URL"
    );
    let list = parse_cameras("b|http://x#|\nb | HTTPS://y").ok().unwrap();
    assert_eq!(list.len(), 2);
    assert_eq!(list[0].url, "http://x#|");
    assert_eq!(list[1].name, "b");
}

#[test]
fn web_addresses_have_scheme_and_host() {
    let mut uri = UriParts {
        scheme: Some("http".to_string()),
        authority: Some("a".to_string()),
        host: Some("a".to_string()),
        port: None,
        path: "/".to_string(),
        query: None,
    };
    assert!(is_web_uri(&uri));
    uri.host = None;
    assert!(!is_web_uri(&uri));
    uri.host = Some("a".to_string());
    uri.scheme = Some("ftp".to_string());
    assert!(!is_web_uri(&uri));
}

#[test]
fn the_viewer_is_given_local_addresses() {
    let list = "a | https://x.dsi.ru/1\nb | https://example.com/2#f\nc | https://x.dsi.ru/1#f\nd | https://x.dsi.ru/3";
    let mut relays = Relays::new();
    for _ in 0..2 {
        let given = match config(&mut relays, list, "https://dsi.ru/4", 9) {
            Ok(given) => given,
            Err(_) => panic!("the list is good"),
        };
        let cameras: Vec<(&str, &str)> = given
            .cameras
            .iter()
            .map(|c| (c.name.as_str(), c.url.as_str()))
            .collect();
        assert_eq!(
            cameras,
            [
                ("a", "/relay/0/index.m3u8"),
                ("b", "https://example.com/2#f"),
                ("c", "/relay/0/index.m3u8"),
                ("d", "/relay/1/index.m3u8")
            ]
        );
        assert_eq!(given.stream_url, "/relay/2/index.m3u8");
    }
    assert!(relays.message(2).is_some());
    assert!(relays.message(3).is_none());
    assert_eq!(
        config(&mut relays, "a | https://dsi.ru/5\nb", "https://dsi.ru/6", 9)
            .err()
            .unwrap(),
        StreamListError::NoBar { line: 2 }
    );
    assert!(relays.message(3).is_none());
}

#[test]
fn the_older_list_is_read_if_there_is_no_other() {
    let text = |s: &str| ListRead::Text(s.to_string());
    assert!(matches!(choose_list(text("a"), None), ListChoice::Use(s) if s == "a"));
    assert!(matches!(
        choose_list(ListRead::NotFound, None),
        ListChoice::ReadStream
    ));
    assert!(matches!(
        choose_list(ListRead::Failed, None),
        ListChoice::Report(ListFile::Streams)
    ));
    assert!(
        matches!(choose_list(ListRead::NotFound, Some(text("b"))), ListChoice::Use(s) if s == "b")
    );
    assert!(
        matches!(choose_list(ListRead::NotFound, Some(ListRead::NotFound)), ListChoice::Use(s) if s.is_empty())
    );
    assert!(matches!(
        choose_list(ListRead::NotFound, Some(ListRead::Failed)),
        ListChoice::Report(ListFile::Stream)
    ));
    assert_eq!(
        ListFile::Streams.message(),
        "Не удалось прочитать streams.txt"
    );
    assert_eq!(
        ListFile::Stream.message(),
        "Не удалось прочитать stream.txt"
    );
}

#[test]
fn configurations_are_given_or_refused() {
    let text = |s: &str| ListRead::Text(s.to_string());
    let mut relays = Relays::new();
    match config_reply(&mut relays, text("a | https://dsi.ru/1"), None, "x", 0) {
        ConfigReply::Given {
            status,
            headers,
            config,
        } => {
            assert_eq!(status, 200);
            assert_eq!(
                headers,
                [("cache-control".to_string(), "no-store".to_string())]
            );
            assert_eq!(config.cameras.len(), 1);
            assert_eq!(config.cameras[0].url, "/relay/0/index.m3u8");
            assert_eq!(config.stream_url, "x");
        }
        _ => panic!("the list is good"),
    }
    let refused = |relays: &mut Relays, streams: ListRead, stream: Option<ListRead>| {
        match config_reply(relays, streams, stream, "https://dsi.ru/2", 0) {
            ConfigReply::Refused(reply) => {
                assert_eq!(reply.status, 500);
                assert_eq!(reply.headers.len(), 0);
                match reply.body {
                    Body::Text(text) => text,
                    _ => panic!("a refusal says why"),
                }
            }
            _ => panic!("a refusal is due"),
        }
    };
    assert_eq!(
        refused(&mut relays, ListRead::Failed, None),
        "Не удалось прочитать streams.txt"
    );
    assert_eq!(
        refused(&mut relays, ListRead::NotFound, Some(ListRead::Failed)),
        "Не удалось прочитать stream.txt"
    );
    assert_eq!(
        refused(&mut relays, text("a"), None),
        "Строка 1: ожидается Название | URL"
    );
    assert!(relays.message(1).is_none());
    assert!(matches!(
        config_reply(&mut relays, ListRead::NotFound, None, "https://dsi.ru/2", 0),
        ConfigReply::ReadStream
    ));
    assert!(relays.message(1).is_none());
    assert!(matches!(
        config_reply(
            &mut relays,
            ListRead::NotFound,
            Some(ListRead::NotFound),
            "https://dsi.ru/2",
            0
        ),
        ConfigReply::Given { .. }
    ));
    assert!(relays.message(1).is_some());
    assert_eq!(refusal("x".to_string()).status, 500);
}
