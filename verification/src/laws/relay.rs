//! Laws of the relays.

use crate::laws::text::{letters_are_lowered, texts_are_divided_at_the_first};
use crate::relay::{
    dsi_address, dsi_host, dsi_uri, file_reply, generated, header_texts, index_of, local_address,
    localized, new_relay, no_store, opt_source, playlist_name, registered, route, routes_are_stable,
    segment_name, source_key, sources_have_their_own_routes, status_reply, url_source, web_scheme,
    Body, BodyView, FileRead, RelayView, Reply, Source, SourceView, StatusReply, REQUESTS_AT_ONCE,
};
use crate::text::{decimal, is_digit, is_number, lower, lowered};
use crate::uri::{uri_parts, UriParts, UriView};
use vstd::prelude::*;

verus! {

/// `c` is `letter`, a lower-case letter, or the upper-case letter that belongs to it.
pub open spec fn is_letter(c: char, letter: char) -> bool {
    c == letter || c as int == letter as int - 32
}

/// Whether `host` ends with `dsi.ru`, in upper or lower case.
pub open spec fn ends_in_dsi(host: Seq<char>) -> bool {
    let n = host.len() as int;
    &&& n >= 6
    &&& is_letter(host[n - 6], 'd')
    &&& is_letter(host[n - 5], 's')
    &&& is_letter(host[n - 4], 'i')
    &&& host[n - 3] == '.'
    &&& is_letter(host[n - 2], 'r')
    &&& is_letter(host[n - 1], 'u')
}

/// A host is one of DSI exactly if it ends with `dsi.ru`, in upper or lower case, and a dot
/// precedes that unless it is all of the host.
pub proof fn dsi_hosts_are_these(host: Seq<char>)
    ensures
        dsi_host(host) <==> ends_in_dsi(host) && (host.len() > 6 ==> host[host.len() - 7] == '.'),
{
    reveal_strlit("dsi.ru");
    reveal_strlit(".dsi.ru");
    letters_are_lowered(host);
    let n = host.len() as int;
    let low = lowered(host);
    if dsi_host(host) {
        if low == "dsi.ru"@ {
            assert(forall|i: int| 0 <= i < 6 ==> #[trigger] low[i] == "dsi.ru"@[i]);
            assert(low[0] == 'd' && low[1] == 's' && low[2] == 'i' && low[3] == '.' && low[4] == 'r'
                && low[5] == 'u');
        } else {
            let tail = low.subrange(n - 7, n);
            assert(tail == ".dsi.ru"@);
            assert(forall|i: int| 0 <= i < 7 ==> #[trigger] tail[i] == low[n - 7 + i]);
            assert(tail[0] == '.' && tail[1] == 'd' && tail[2] == 's' && tail[3] == 'i' && tail[4]
                == '.' && tail[5] == 'r' && tail[6] == 'u');
        }
    }
    if ends_in_dsi(host) && (n > 6 ==> host[n - 7] == '.') {
        assert(low[n - 6] == lower(host[n - 6]) && low[n - 5] == lower(host[n - 5]) && low[n - 4]
            == lower(host[n - 4]) && low[n - 3] == lower(host[n - 3]) && low[n - 2] == lower(
            host[n - 2],
        ) && low[n - 1] == lower(host[n - 1]));
        if n == 6 {
            assert(low == "dsi.ru"@);
        } else {
            assert(low[n - 7] == lower(host[n - 7]));
            assert(low.subrange(n - 7, n) == ".dsi.ru"@);
        }
    }
}

/// An address is at DSI exactly if, without its fragment, it is one over HTTP or HTTPS and at
/// a host of DSI. Nothing else of it matters.
pub proof fn dsi_addresses_are_these(url: Seq<char>, fragment: Seq<char>)
    requires
        !url.contains('#'),
    ensures
        dsi_address(url) <==> (uri_parts(url) matches Some(uri) && (uri.scheme == Some("http"@)
            || uri.scheme == Some("https"@)) && (uri.host matches Some(host) && dsi_host(host))),
        dsi_address(url + seq!['#'] + fragment) == dsi_address(url),
{
    texts_are_divided_at_the_first(url, '#', fragment);
}

/// Of the components of an address only scheme and host decide whether it is at DSI.
pub proof fn scheme_and_host_decide(uri: UriView)
    ensures
        dsi_uri(uri) <==> (uri.scheme == Some("http"@) || uri.scheme == Some("https"@)) && (
        uri.host matches Some(host) && dsi_host(host)),
        web_scheme(uri.scheme) <==> uri.scheme == Some("http"@) || uri.scheme == Some("https"@),
{
}

/// A relay has the whole address as its source: query and all, without only the fragment.
pub proof fn whole_addresses_are_relayed(url: Seq<char>, fragment: Seq<char>)
    requires
        !url.contains('#'),
    ensures
        url_source(url) == SourceView::Url(url),
        url_source(url + seq!['#'] + fragment) == SourceView::Url(url),
{
    texts_are_divided_at_the_first(url, '#', fragment);
}

/// Two addresses at DSI that are asked for one after the other are found at one address
/// exactly if they are equal: a query that differs makes another relay.
pub proof fn different_addresses_have_their_own_routes(
    entries: Seq<RelayView>,
    a: Seq<char>,
    b: Seq<char>,
    now: u128,
)
    requires
        !a.contains('#'),
        !b.contains('#'),
        dsi_address(a),
        dsi_address(b),
    ensures
        local_address(entries, a) == local_address(localized(entries, a, now), b) <==> a == b,
{
    whole_addresses_are_relayed(a, Seq::empty());
    whole_addresses_are_relayed(b, Seq::empty());
    let after = localized(entries, a, now);
    if a == b {
        routes_are_stable(entries, url_source(a), now, now);
    } else {
        sources_have_their_own_routes(entries, url_source(a), url_source(b), now);
    }
}

/// A camera of the account and an address have relays of their own, and so have two cameras
/// with different numbers.
pub proof fn accounts_have_their_own_routes(
    entries: Seq<RelayView>,
    id: Seq<char>,
    other: Seq<char>,
    url: Seq<char>,
    now: u128,
)
    requires
        id != other,
    ensures
        route(index_of(entries, SourceView::Account(id))) != route(
            index_of(registered(entries, SourceView::Account(id), now), SourceView::Account(other)),
        ),
        route(index_of(entries, SourceView::Account(id))) != route(
            index_of(registered(entries, SourceView::Account(id), now), SourceView::Url(url)),
        ),
{
    sources_have_their_own_routes(
        entries,
        SourceView::Account(id),
        SourceView::Account(other),
        now,
    );
    sources_have_their_own_routes(entries, SourceView::Account(id), SourceView::Url(url), now);
}

/// The number of a source's relay: the first one of the table that has the source, or that of
/// the next relay if there is none.
pub proof fn numbers_are_those_of_the_sources(entries: Seq<RelayView>, source: SourceView)
    ensures
        ({
            let n = index_of(entries, source) as int;
            &&& n <= entries.len()
            &&& forall|i: int| 0 <= i < n ==> #[trigger] entries[i].source != source
            &&& n < entries.len() ==> entries[n].source == source
        }),
    decreases entries.len(),
{
    if entries.len() > 0 && entries[0].source != source {
        let rest = entries.drop_first();
        numbers_are_those_of_the_sources(rest, source);
        let n = index_of(entries, source) as int;
        assert forall|i: int| 0 <= i < n implies #[trigger] entries[i].source != source by {
            if i > 0 {
                assert(rest[i - 1].source != source);
            }
        }
    }
}

/// Registering a source adds nothing if a relay has it, and else one relay behind all others:
/// with that source, not connected yet, and asked for now. The others stay as they are.
pub proof fn relays_are_added_at_the_end(
    entries: Seq<RelayView>,
    source: SourceView,
    now: u128,
)
    ensures
        ({
            let known = exists|i: int| 0 <= i < entries.len() && #[trigger] entries[i].source
                == source;
            let after = registered(entries, source, now);
            &&& known ==> after == entries
            &&& !known ==> after.len() == entries.len() + 1 && after.drop_last() == entries
                && after.last() == (RelayView {
                source,
                message: "Подключение…"@,
                last_access: now,
            })
        }),
{
    numbers_are_those_of_the_sources(entries, source);
    let n = index_of(entries, source) as int;
    if n < entries.len() {
        assert(entries[n].source == source);
    } else {
        assert(entries.push(new_relay(source, now)).drop_last() == entries);
    }
}

/// An address at DSI is found at the playlist of the relay that has it as its source, once it
/// has been asked for; an address elsewhere is given as it stands, and no relay is added.
pub proof fn addresses_lead_to_their_source(
    entries: Seq<RelayView>,
    url: Seq<char>,
    fragment: Seq<char>,
    now: u128,
)
    requires
        !url.contains('#'),
    ensures
        dsi_address(url) ==> {
            let after = localized(entries, url, now);
            let n = index_of(after, SourceView::Url(url));
            &&& n < after.len()
            &&& after[n as int].source == SourceView::Url(url)
            &&& local_address(entries, url) == "/relay/"@ + decimal(n) + "/index.m3u8"@
            &&& local_address(entries, url + seq!['#'] + fragment) == local_address(entries, url)
            &&& localized(entries, url + seq!['#'] + fragment, now) == after
        },
        !dsi_address(url) ==> {
            &&& local_address(entries, url) == url
            &&& localized(entries, url, now) == entries
            &&& local_address(entries, url + seq!['#'] + fragment) == url + seq!['#'] + fragment
            &&& localized(entries, url + seq!['#'] + fragment, now) == entries
        },
{
    whole_addresses_are_relayed(url, fragment);
    dsi_addresses_are_these(url, fragment);
    if dsi_address(url) {
        let source = SourceView::Url(url);
        let after = localized(entries, url, now);
        routes_are_stable(entries, source, now, now);
        numbers_are_those_of_the_sources(entries, source);
        numbers_are_those_of_the_sources(after, source);
    }
}

/// The address of a relay's playlist holds the relay's number in decimal and nothing else of
/// the relay.
pub proof fn routes_hold_only_the_number(id: nat)
    ensures
        route(id) == "/relay/"@ + decimal(id) + "/index.m3u8"@,
{
}

/// The key of an address is the address, and that of a camera its number behind `account:`.
pub proof fn keys_hold_the_whole_source(url: Seq<char>, id: Seq<char>)
    ensures
        source_key(SourceView::Url(url)) == url,
        source_key(SourceView::Account(id)) == "account:"@ + id,
{
}

/// The files that are served are the playlist and the segments: a segment's name is
/// `segment_`, then one or more digits and nothing else, then `.ts`.
pub proof fn served_files_are_these(name: Seq<char>)
    ensures
        generated(name) <==> name == "index.m3u8"@ || {
            &&& name.len() > 11
            &&& name.take(8) == "segment_"@
            &&& name.skip(name.len() - 3) == ".ts"@
            &&& forall|i: int|
                8 <= i < name.len() - 3 ==> 48 <= (#[trigger] name[i]) as int <= 57
        },
        playlist_name() == "index.m3u8"@,
{
    reveal_strlit("segment_");
    reveal_strlit(".ts");
    let n = name.len() as int;
    if generated(name) && name != playlist_name() {
        let k = choose|k: Seq<char>| is_number(k) && name == #[trigger] segment_name(k);
        assert(name.take(8) == "segment_"@);
        assert(name.skip(n - 3) == ".ts"@);
        assert forall|i: int| 8 <= i < n - 3 implies 48 <= (#[trigger] name[i]) as int <= 57 by {
            assert(name[i] == k[i - 8]);
            assert(is_digit(k[i - 8]));
        }
    }
    if n > 11 && name.take(8) == "segment_"@ && name.skip(n - 3) == ".ts"@ && (forall|i: int|
        8 <= i < n - 3 ==> 48 <= (#[trigger] name[i]) as int <= 57) {
        let k = name.subrange(8, n - 3);
        assert(name == name.take(8) + k + name.skip(n - 3));
        assert(name == segment_name(k));
        assert forall|i: int| 0 <= i < k.len() implies is_digit(#[trigger] k[i]) by {
            assert(k[i] == name[i + 8]);
        }
        assert(is_number(k));
    }
}

/// A file that was read is served whole: the body holds the bytes that were read, all of them
/// and no others, as a playlist or as video according to its name, and is not to be kept.
pub proof fn files_are_served_whole(name: Seq<char>, bytes: Vec<u8>)
    requires
        generated(name),
    ensures
        ({
            let reply = file_reply(name, FileRead::Found(bytes));
            &&& reply.status == 200
            &&& reply.body matches BodyView::Bytes(body) && body.len() == bytes@.len() && forall|
                i: int,
            |
                0 <= i < bytes@.len() ==> #[trigger] body[i] == bytes@[i]
            &&& reply.headers.len() == 2
            &&& reply.headers[0].0 == "content-type"@
            &&& name == "index.m3u8"@ ==> reply.headers[0].1 == "application/vnd.apple.mpegurl"@
            &&& name != "index.m3u8"@ ==> reply.headers[0].1 == "video/mp2t"@
            &&& reply.headers[1] == ("cache-control"@, "no-store"@)
        }),
{
    reveal_strlit("index.m3u8");
    reveal_strlit(".m3u8");
    reveal_strlit(".ts");
    served_files_are_these(name);
    let n = name.len() as int;
    if name == "index.m3u8"@ {
        assert(name.subrange(n - 5, n) == ".m3u8"@);
    } else {
        assert(name.skip(n - 3)[2] == name[n - 1]);
        if ".m3u8"@.is_suffix_of(name) {
            assert(name.subrange(n - 5, n)[4] == '8');
        }
    }
}

/// Two files that are served have equal bodies only if their bytes are equal.
pub proof fn served_bodies_tell_files_apart(
    name: Seq<char>,
    other: Seq<char>,
    a: Vec<u8>,
    b: Vec<u8>,
)
    requires
        generated(name),
        generated(other),
    ensures
        file_reply(name, FileRead::Found(a)).body == file_reply(other, FileRead::Found(b)).body
            <==> a@ == b@,
{
    files_are_served_whole(name, a);
    files_are_served_whole(other, b);
}

/// A file of a relay that is not there yet may be asked for again after three seconds; one
/// that cannot be read is a fault of the relay; and no other name is served, whatever came of
/// reading it.
pub proof fn files_may_be_missing(name: Seq<char>, read: FileRead)
    ensures
        ({
            let reply = file_reply(name, read);
            &&& !generated(name) ==> reply.status == 404 && reply.headers.len() == 0
                && reply.body == BodyView::Empty
            &&& generated(name) && read is Missing ==> {
                &&& reply.status == 503
                &&& reply.headers == seq![
                    ("retry-after"@, "3"@),
                    ("cache-control"@, "no-store"@),
                ]
                &&& reply.body == BodyView::Text("Camera is connecting"@)
            }
            &&& generated(name) && read is Failed ==> {
                &&& reply.status == 502
                &&& reply.headers.len() == 0
                &&& reply.body == BodyView::Text("Camera relay unavailable"@)
            }
            &&& reply.status == 200 <==> generated(name) && read is Found
        }),
{
}

/// A relay that there is is answered with what is shown of it, not to be kept; one that there
/// is not is answered as not found.
pub proof fn statuses_are_answered(entries: Seq<RelayView>, id: nat)
    ensures
        id < entries.len() ==> {
            &&& status_reply(entries, id).status == 200
            &&& status_reply(entries, id).headers == seq![("cache-control"@, "no-store"@)]
            &&& status_reply(entries, id).message == Some(entries[id as int].message)
        },
        id >= entries.len() ==> {
            &&& status_reply(entries, id).status == 404
            &&& status_reply(entries, id).headers.len() == 0
            &&& status_reply(entries, id).message is None
        },
{
}

/// A relay that has just been added is shown as connecting.
pub proof fn new_relays_are_connecting(entries: Seq<RelayView>, source: SourceView, now: u128)
    requires
        index_of(entries, source) == entries.len(),
    ensures
        status_reply(registered(entries, source, now), entries.len()).message == Some(
            "Подключение…"@,
        ),
{
}

/// No more than three workers ask for a fresh address at the same time.
pub proof fn requests_are_limited()
    ensures
        REQUESTS_AT_ONCE == 3,
{
}

/// An answer that is not to be kept says so to every cache.
pub proof fn answers_are_marked()
    ensures
        no_store() == seq![("cache-control"@, "no-store"@)],
{
}

/// What is said of sources, addresses, headers and replies is said of the characters and
/// bytes that they hold.
pub proof fn values_show_what_they_hold(
    text: String,
    bytes: Vec<u8>,
    uri: UriParts,
    headers: Vec<(String, String)>,
    status: u16,
    message: Option<String>,
)
    ensures
        Source::Url(text)@ == SourceView::Url(text@),
        Source::Account(text)@ == SourceView::Account(text@),
        opt_source(Some(Source::Url(text))) == Some(SourceView::Url(text@)),
        opt_source(Some(Source::Account(text))) == Some(SourceView::Account(text@)),
        opt_source(None) is None,
        header_texts(headers@).len() == headers@.len(),
        forall|i: int|
            0 <= i < headers@.len() ==> #[trigger] header_texts(headers@)[i] == (
                headers@[i].0@,
                headers@[i].1@,
            ),
        ({
            let reply = Reply { status, headers, body: Body::Bytes(bytes) }@;
            &&& reply.status == status
            &&& reply.headers == header_texts(headers@)
            &&& reply.body == BodyView::Bytes(bytes@)
        }),
        ({
            let reply = Reply { status, headers, body: Body::Text(text) }@;
            &&& reply.status == status
            &&& reply.headers == header_texts(headers@)
            &&& reply.body == BodyView::Text(text@)
        }),
        (Reply { status, headers, body: Body::Empty })@.body == BodyView::Empty,
        ({
            let reply = StatusReply { status, headers, message }@;
            &&& reply.status == status
            &&& reply.headers == header_texts(headers@)
            &&& reply.message == match message {
                Some(message) => Some(message@),
                None => None,
            }
        }),
        uri@.path == uri.path@,
        uri@.port == uri.port,
        uri@.scheme == match uri.scheme {
            Some(scheme) => Some(scheme@),
            None => None,
        },
        uri@.authority == match uri.authority {
            Some(authority) => Some(authority@),
            None => None,
        },
        uri@.host == match uri.host {
            Some(host) => Some(host@),
            None => None,
        },
        uri@.query == match uri.query {
            Some(query) => Some(query@),
            None => None,
        },
{
}

} // verus!
