use ferrumview::relay::{
    directory_name, is_dsi, is_dsi_uri, serve, status, valid_file, Body, FileRead, Relays, Source, UnknownCamera,
};
use ferrumview::uri::UriParts;

#[test]
fn legacy_tls_is_limited_to_dsi_hosts() {
    assert!(is_dsi(
        "https://video9.dsi.ru:8091/hls/test/index.m3u8#video=copy"
    ));
    for url in [
        "https://dsi.ru.evil.com/a",
        "https://evildsi.ru/a",
        "https://vs6.newbwc.ru/a",
        "file:///dsi.ru",
    ] {
        assert!(!is_dsi(url));
    }
}

#[test]
fn only_generated_hls_files_are_served() {
    assert!(valid_file("index.m3u8"));
    assert!(valid_file("segment_12345.ts"));
    for file in [
        "../openssl.cnf",
        "openssl.cnf",
        "segment_../a.ts",
        "segment_.ts",
        "index.m3u8.tmp",
    ] {
        assert!(!valid_file(file));
    }
}

#[test]
fn account_ids_have_stable_routes_without_exposing_sources() {
    let mut relays = Relays::new();
    let one = relays.account_url("18830".into(), 0);
    assert_eq!(one, relays.account_url("18830".into(), 0));
    assert_ne!(one, relays.account_url("18838".into(), 0));
    assert!(!one.contains("18830"));
}

#[test]
fn hosts_are_compared_in_either_case() {
    assert!(is_dsi("HTTP://DSI.RU"));
    assert!(is_dsi("https://a.b.Dsi.Ru/x"));
    assert!(is_dsi("https://user@dsi.ru:80"));
    for url in [
        "",
        "#https://dsi.ru",
        "dsi.ru",
        "ftp://dsi.ru",
        "https://.dsi.ru.",
        "https://dsi.rus",
        "https://evil.com#.dsi.ru",
        "https://evil.com/dsi.ru",
    ] {
        assert!(!is_dsi(url));
    }
    let mut uri = UriParts {
        scheme: Some("http".to_string()),
        authority: Some("x.DSI.ru".to_string()),
        host: Some("x.DSI.ru".to_string()),
        port: None,
        path: "/".to_string(),
        query: None,
    };
    assert!(is_dsi_uri(&uri));
    uri.host = None;
    assert!(!is_dsi_uri(&uri));
}

#[test]
fn names_of_segments_are_numbers() {
    assert!(valid_file("segment_0.ts"));
    for file in [
        "",
        "segment_ts",
        "segment_1.ts ",
        "segment_1a.ts",
        "segment_１.ts",
        "Segment_1.ts",
        "segment_1.tS",
        "segment_/1.ts",
    ] {
        assert!(!valid_file(file));
    }
}

#[test]
fn routes_count_the_sources() {
    let mut relays = Relays::new();
    let url = "https://a.dsi.ru/hls/1";
    assert_eq!(relays.account_url("7".into(), 1), "/relay/0/index.m3u8");
    assert_eq!(relays.local_url(url, 2), "/relay/1/index.m3u8");
    assert_eq!(
        relays.local_url("https://a.dsi.ru/hls/1#video=copy", 3),
        "/relay/1/index.m3u8"
    );
    assert_eq!(
        relays.local_url("https://a.dsi.ru/hls/2", 4),
        "/relay/2/index.m3u8"
    );
    assert_eq!(
        relays.local_url("https://example.com/a#b", 5),
        "https://example.com/a#b"
    );
    assert_eq!(relays.local_url("", 6), "");
    for n in 3..12 {
        assert_eq!(
            relays.account_url(format!("x{n}"), 7),
            format!("/relay/{n}/index.m3u8")
        );
    }
    assert_eq!(relays.idle(1, 12), Some(10));
    assert_eq!(relays.idle(1, 0), Some(0));
    assert_eq!(relays.idle(12, 0), None);
}

#[test]
fn workers_are_started_by_the_playlist() {
    let mut relays = Relays::new();
    relays.account_url("7".into(), 1);
    relays.local_url("https://a.dsi.ru/hls/1#x", 1);
    match relays.file(0, "index.m3u8", false, 5) {
        Ok(Some(Source::Account(id))) => assert_eq!(id, "7"),
        _ => panic!("a worker is due"),
    }
    match relays.file(1, "index.m3u8", false, 6) {
        Ok(Some(Source::Url(url))) => assert_eq!(url, "https://a.dsi.ru/hls/1"),
        _ => panic!("a worker is due"),
    }
    assert!(matches!(relays.file(0, "index.m3u8", true, 8), Ok(None)));
    assert!(matches!(relays.file(0, "segment_1.ts", false, 9), Ok(None)));
    assert!(matches!(
        relays.file(2, "index.m3u8", false, 9),
        Err(UnknownCamera)
    ));
    assert_eq!(relays.idle(0, 10), Some(1));
    assert_eq!(relays.idle(1, 10), Some(4));
}

#[test]
fn statuses_are_kept_for_each_relay() {
    let mut relays = Relays::new();
    relays.account_url("7".into(), 1);
    relays.account_url("8".into(), 1);
    assert_eq!(relays.message(0).unwrap(), "Подключение…");
    relays.set_status(1, "ok".to_string());
    relays.set_status(2, "lost".to_string());
    assert_eq!(relays.message(0).unwrap(), "Подключение…");
    assert_eq!(relays.message(1).unwrap(), "ok");
    assert_eq!(relays.message(2), None);
    assert_eq!(relays.idle(1, 3), Some(2));
}

fn headers(list: &[(String, String)]) -> Vec<(&str, &str)> {
    list.iter()
        .map(|h| (h.0.as_str(), h.1.as_str()))
        .collect()
}

#[test]
fn replies_follow_from_name_and_file() {
    let reply = serve("index.m3u8", FileRead::Found(vec![1, 2]));
    assert_eq!(reply.status, 200);
    assert_eq!(
        headers(&reply.headers),
        [
            ("content-type", "application/vnd.apple.mpegurl"),
            ("cache-control", "no-store")
        ]
    );
    assert!(matches!(reply.body, Body::Bytes(b) if b == [1, 2]));
    let reply = serve("segment_1.ts", FileRead::Found(vec![]));
    assert_eq!(
        headers(&reply.headers),
        [("content-type", "video/mp2t"), ("cache-control", "no-store")]
    );
    let reply = serve("segment_1.ts", FileRead::Missing);
    assert_eq!(reply.status, 503);
    assert_eq!(
        headers(&reply.headers),
        [("retry-after", "3"), ("cache-control", "no-store")]
    );
    assert!(matches!(reply.body, Body::Text(t) if t == "Camera is connecting"));
    let reply = serve("index.m3u8", FileRead::Failed);
    assert_eq!(reply.status, 502);
    assert_eq!(headers(&reply.headers), []);
    assert!(matches!(reply.body, Body::Text(t) if t == "Camera relay unavailable"));
    let reply = serve("openssl.cnf", FileRead::Found(vec![1]));
    assert_eq!(reply.status, 404);
    assert!(matches!(reply.body, Body::Empty));
}

#[test]
fn directories_are_named_after_process_and_time() {
    assert_eq!(
        directory_name(42, 1700000000123456789),
        "ferrumview-42-1700000000123456789"
    );
}

#[test]
fn accounts_and_addresses_are_kept_apart() {
    let mut relays = Relays::new();
    let url = relays.local_url("https://dsi.ru/18830", 0);
    assert_ne!(url, relays.account_url("https://dsi.ru/18830".into(), 0));
    assert_eq!(relays.local_url("account:18830", 0), "account:18830");
}

#[test]
fn questions_after_a_relay_are_answered_without_touching_it() {
    let mut relays = Relays::new();
    relays.account_url("7".into(), 1);
    let reply = status(&relays, 0);
    assert_eq!(reply.status, 200);
    assert_eq!(headers(&reply.headers), [("cache-control", "no-store")]);
    assert_eq!(reply.message.unwrap(), "Подключение…");
    assert_eq!(relays.idle(0, 5), Some(4));
    let reply = status(&relays, 1);
    assert_eq!(reply.status, 404);
    assert_eq!(headers(&reply.headers), []);
    assert_eq!(reply.message, None);
}

#[test]
fn routes_are_equal_exactly_for_equal_sources() {
    let mut relays = Relays::new();
    let ids = ["a", "b", "a", "c", "b", "d", "a"];
    let mut routes = Vec::new();
    for id in ids {
        routes.push(relays.account_url(id.to_string(), 0));
        let _ = relays.file(0, "index.m3u8", false, 1);
        relays.set_status(0, id.to_string());
    }
    for i in 0..ids.len() {
        for j in 0..ids.len() {
            assert_eq!(routes[i] == routes[j], ids[i] == ids[j]);
        }
    }
    assert_eq!(routes[3], "/relay/2/index.m3u8");
    assert_eq!(routes[5], "/relay/3/index.m3u8");
}
