//! Relays: which addresses are relayed, which files a relay serves, and how.

use crate::text::{
    after_prefix, before, chars_of, decimal, has_suffix, in_decimal, in_lower_case, is_digit,
    is_number, is_some_text, is_text, joined, lemma_decimal_injective, lemma_decimal_number,
    lemma_position_is, lower, lowered, number, opt_text, pair_text, string_of, text_before,
};
use crate::uri::{begins_as, parse_uri, uri_parts, UriParts, UriView};
use vstd::hash_map::StringHashMap;
use vstd::prelude::*;
use vstd::slice::slice_subrange;

verus! {

/// The hosts of DSI: `dsi.ru` and all below it, letters in either case.
pub open spec fn dsi_host(host: Seq<char>) -> bool {
    lowered(host) == "dsi.ru"@ || ".dsi.ru"@.is_suffix_of(lowered(host))
}

/// The schemes of the web.
pub open spec fn web_scheme(scheme: Option<Seq<char>>) -> bool {
    scheme == Some("http"@) || scheme == Some("https"@)
}

/// Whether these components are those of an address at DSI.
pub open spec fn dsi_uri(uri: UriView) -> bool {
    web_scheme(uri.scheme) && (uri.host matches Some(host) && dsi_host(host))
}

/// Whether `url`, up to its fragment, is a web address at DSI.
pub open spec fn dsi_address(url: Seq<char>) -> bool {
    uri_parts(before(url, '#')) matches Some(uri) && dsi_uri(uri)
}

/// Whether these components are those of an address at DSI.
pub fn is_dsi_uri(uri: &UriParts) -> (r: bool)
    ensures
        r == dsi_uri(uri@),
{
    if !is_some_text(&uri.scheme, "http") && !is_some_text(&uri.scheme, "https") {
        return false;
    }
    match &uri.host {
        Some(host) => {
            let host = in_lower_case(chars_of(host).as_slice());
            is_text(host.as_slice(), "dsi.ru") || has_suffix(host.as_slice(), ".dsi.ru")
        },
        None => false,
    }
}

/// Whether `url` begins like a web address.
pub open spec fn web_prefix(url: Seq<char>) -> bool {
    begins_as(url, "http://"@) || begins_as(url, "https://"@)
}

/// Whether `url`, up to its fragment, is a web address at DSI.
pub fn is_dsi(url: &str) -> (r: bool)
    ensures
        r == dsi_address(url@),
        r ==> web_prefix(before(url@, '#')),
{
    let url = chars_of(url);
    match parse_uri(&string_of(text_before(url.as_slice(), '#'))) {
        Ok(uri) => is_dsi_uri(&uri),
        Err(_) => false,
    }
}

/// The playlist that a relay serves.
pub open spec fn playlist_name() -> Seq<char> {
    "index.m3u8"@
}

/// The name of the segment with this number.
pub open spec fn segment_name(n: Seq<char>) -> Seq<char> {
    "segment_"@ + n + ".ts"@
}

/// The names of the files that a relay generates: the playlist and its segments.
pub open spec fn generated(name: Seq<char>) -> bool {
    name == playlist_name() || exists|n: Seq<char>|
        is_number(n) && name == #[trigger] segment_name(n)
}

/// Whether `name` is that of a file that a relay generates.
pub fn valid_file(name: &str) -> (r: bool)
    ensures
        r == generated(name@),
{
    let text = chars_of(name);
    if is_text(text.as_slice(), "index.m3u8") {
        return true;
    }
    proof {
        reveal_strlit("segment_");
        reveal_strlit(".ts");
        assert forall|n: Seq<char>| name@ == #[trigger] segment_name(n) implies n
            == name@.subrange(8, name@.len() - 3) by {
            assert(segment_name(n).subrange(8, segment_name(n).len() - 3) == n);
        }
    }
    match after_prefix(text.as_slice(), "segment_") {
        Some(rest) => if has_suffix(rest, ".ts") {
            let n = slice_subrange(rest, 0, rest.len() - 3);
            assert(name@ == segment_name(n@));
            assert(n@ == name@.subrange(8, name@.len() - 3));
            number(n)
        } else {
            proof {
                assert forall|n: Seq<char>| name@ != #[trigger] segment_name(n) by {
                    if name@ == segment_name(n) {
                        assert(rest@ == n + ".ts"@);
                        assert(".ts"@.is_suffix_of(rest@));
                    }
                }
            }
            false
        },
        None => {
            proof {
                assert forall|n: Seq<char>| name@ != #[trigger] segment_name(n) by {
                    assert("segment_"@.is_prefix_of(segment_name(n)));
                }
            }
            false
        },
    }
}

/// Where a relay has its stream from.
pub enum Source {
    /// An address that is good for as long as it lasts.
    Url(String),
    /// A camera of the account, by its number: each connection asks for a fresh address.
    Account(String),
}

/// Where a relay has its stream from, as a mathematical value.
pub enum SourceView {
    Url(Seq<char>),
    Account(Seq<char>),
}

impl View for Source {
    type V = SourceView;

    open spec fn view(&self) -> SourceView {
        match self {
            Source::Url(url) => SourceView::Url(url@),
            Source::Account(id) => SourceView::Account(id@),
        }
    }
}

/// The key under which a source is found.
pub open spec fn source_key(source: SourceView) -> Seq<char> {
    match source {
        SourceView::Url(url) => url,
        SourceView::Account(id) => "account:"@ + id,
    }
}

/// A relay: its source, what is shown of it, and when it was last asked for.
pub struct Relay {
    source: Source,
    message: String,
    last_access: u128,
}

/// A relay, as a mathematical value. Times are in nanoseconds, on one clock for all.
pub struct RelayView {
    pub source: SourceView,
    pub message: Seq<char>,
    pub last_access: u128,
}

impl View for Relay {
    type V = RelayView;

    closed spec fn view(&self) -> RelayView {
        RelayView {
            source: self.source@,
            message: self.message@,
            last_access: self.last_access,
        }
    }
}

/// The table of all relays. A relay's number is its index in the table.
pub struct Relays {
    entries: Vec<Relay>,
    ids: StringHashMap<usize>,
}

impl View for Relays {
    type V = Seq<RelayView>;

    closed spec fn view(&self) -> Seq<RelayView> {
        self.entries@.map_values(|relay: Relay| relay@)
    }
}

/// The number of the relay with this source, or the length of the table if it has none.
pub open spec fn index_of(entries: Seq<RelayView>, source: SourceView) -> nat
    decreases entries.len(),
{
    if entries.len() == 0 || entries[0].source == source {
        0
    } else {
        1 + index_of(entries.drop_first(), source)
    }
}

/// A relay that has not connected yet.
pub open spec fn new_relay(source: SourceView, now: u128) -> RelayView {
    RelayView { source, message: "Подключение…"@, last_access: now }
}

/// The table with a relay for this source: as it is if there is one, else with one more.
pub open spec fn registered(
    entries: Seq<RelayView>,
    source: SourceView,
    now: u128,
) -> Seq<RelayView> {
    if index_of(entries, source) < entries.len() {
        entries
    } else {
        entries.push(new_relay(source, now))
    }
}

/// The address under which the viewer finds the playlist of relay number `id`.
pub open spec fn route(id: nat) -> Seq<char> {
    "/relay/"@ + decimal(id) + "/index.m3u8"@
}

/// The source of the relay for `url`.
pub open spec fn url_source(url: Seq<char>) -> SourceView {
    SourceView::Url(before(url, '#'))
}

/// The table after `url` has been asked for.
pub open spec fn localized(entries: Seq<RelayView>, url: Seq<char>, now: u128) -> Seq<RelayView> {
    if dsi_address(url) {
        registered(entries, url_source(url), now)
    } else {
        entries
    }
}

/// The address under which the viewer finds the stream `url`.
pub open spec fn local_address(entries: Seq<RelayView>, url: Seq<char>) -> Seq<char> {
    if dsi_address(url) {
        route(index_of(entries, url_source(url)))
    } else {
        url
    }
}

/// The relays' keys differ from each other, and no key of an address is one of an account.
pub open spec fn distinct_keys(entries: Seq<RelayView>) -> bool {
    &&& forall|i: int, j: int|
        0 <= i < j < entries.len() ==> source_key(#[trigger] entries[i].source) != source_key(
            #[trigger] entries[j].source,
        )
    &&& forall|i: int|
        0 <= i < entries.len() ==> (#[trigger] entries[i].source matches SourceView::Url(url)
            ==> web_prefix(url))
}

/// A number that is asked for belongs to no relay.
#[derive(Clone, Copy, Debug, PartialEq, Eq, Structural)]
pub struct UnknownCamera;

/// The text of an optional source.
pub open spec fn opt_source(source: Option<Source>) -> Option<SourceView> {
    match source {
        Some(source) => Some(source@),
        None => None,
    }
}

impl Relays {
    /// The numbers of the relays, by their keys.
    pub closed spec fn key_map(self) -> Map<Seq<char>, usize> {
        self.ids@
    }

    /// The map of keys gives for each relay its number and nothing else.
    pub closed spec fn wf(self) -> bool {
        &&& distinct_keys(self@)
        &&& forall|i: int|
            0 <= i < self@.len() ==> self.ids@.contains_key(
                source_key(#[trigger] self@[i].source),
            ) && self.ids@[source_key(self@[i].source)] == i
        &&& forall|key: Seq<char>| #[trigger]
            self.ids@.contains_key(key) ==> self.ids@[key] < self@.len() && source_key(
                self@[self.ids@[key] as int].source,
            ) == key
    }

    /// An empty table.
    pub fn new() -> (r: Relays)
        ensures
            r.wf(),
            r@ == Seq::<RelayView>::empty(),
    {
        Relays { entries: Vec::new(), ids: StringHashMap::new() }
    }

    /// Finds or adds the relay for this source and returns the address of its playlist.
    fn register(&mut self, source: Source, now: u128) -> (r: String)
        requires
            old(self).wf(),
            source@ matches SourceView::Url(url) ==> web_prefix(url),
        ensures
            final(self).wf(),
            final(self)@ == registered(old(self)@, source@, now),
            r@ == route(index_of(old(self)@, source@)),
    {
        let ghost view = source@;
        let key = match &source {
            Source::Url(url) => url.clone(),
            Source::Account(id) => "account:".to_owned().concat(id),
        };
        let found: Option<usize> = match self.ids.get(&key) {
            Some(id) => Some(*id),
            None => None,
        };
        let id: usize = match found {
            Some(id) => {
                proof {
                    lemma_same_key(self@[id as int].source, view);
                    lemma_index_is(self@, view, id as nat);
                }
                id
            },
            None => {
                let id: usize = self.entries.len();
                proof {
                    lemma_index_is(self@, view, id as nat);
                }
                self.entries.push(
                    Relay { source, message: "Подключение…".to_owned(), last_access: now },
                );
                self.ids.insert(key, id);
                assert(self@ == old(self)@.push(new_relay(view, now)));
                id
            },
        };
        joined("/relay/", &in_decimal(id as u128), "/index.m3u8")
    }

    /// The address of the playlist of the account's camera with this number.
    pub fn account_url(&mut self, id: String, now: u128) -> (r: String)
        requires
            old(self).wf(),
        ensures
            final(self).wf(),
            final(self)@ == registered(old(self)@, SourceView::Account(id@), now),
            r@ == route(index_of(old(self)@, SourceView::Account(id@))),
    {
        self.register(Source::Account(id), now)
    }

    /// The address under which the viewer finds the stream `url`: that of a relay if it is
    /// at DSI, else `url` itself.
    pub fn local_url(&mut self, url: &str, now: u128) -> (r: String)
        requires
            old(self).wf(),
        ensures
            final(self).wf(),
            final(self)@ == localized(old(self)@, url@, now),
            r@ == local_address(old(self)@, url@),
    {
        if !is_dsi(url) {
            return url.to_owned();
        }
        let url = chars_of(url);
        self.register(Source::Url(string_of(text_before(url.as_slice(), '#'))), now)
    }

    /// Notes that file `name` of relay `id` is asked for. A worker is to be started, on the
    /// source returned, if it is the playlist and none is `running`.
    pub fn file(&mut self, id: usize, name: &str, running: bool, now: u128) -> (r: Result<
        Option<Source>,
        UnknownCamera,
    >)
        requires
            old(self).wf(),
        ensures
            final(self).wf(),
            id >= old(self)@.len() ==> r is Err && final(self)@ == old(self)@,
            id < old(self)@.len() ==> {
                &&& final(self)@ == old(self)@.update(
                    id as int,
                    RelayView { last_access: now, ..old(self)@[id as int] },
                )
                &&& r matches Ok(start) && opt_source(start) == (if name@ == playlist_name()
                    && !running {
                    Some(old(self)@[id as int].source)
                } else {
                    None
                })
            },
    {
        if id >= self.entries.len() {
            return Err(UnknownCamera);
        }
        let ghost relay = self@[id as int];
        self.entries[id].last_access = now;
        assert(self@ == old(self)@.update(id as int, RelayView { last_access: now, ..relay }));
        if is_text(chars_of(name).as_slice(), "index.m3u8") && !running {
            let source = match &self.entries[id].source {
                Source::Url(url) => Source::Url(url.clone()),
                Source::Account(number) => Source::Account(number.clone()),
            };
            Ok(Some(source))
        } else {
            Ok(None)
        }
    }

    /// For how long relay `id` has not been asked for.
    pub fn idle(&self, id: usize, now: u128) -> (r: Option<u128>)
        ensures
            r == (if id < self@.len() {
                let last = self@[id as int].last_access;
                Some(
                    if now >= last {
                        (now - last) as u128
                    } else {
                        0u128
                    },
                )
            } else {
                None
            }),
    {
        if id >= self.entries.len() {
            return None;
        }
        let last: u128 = self.entries[id].last_access;
        Some(
            if now >= last {
                now - last
            } else {
                0
            },
        )
    }

    /// What is shown of relay `id`.
    pub fn message(&self, id: usize) -> (r: Option<String>)
        ensures
            match r {
                Some(message) => id < self@.len() && message@ == self@[id as int].message,
                None => id >= self@.len(),
            },
    {
        if id < self.entries.len() {
            Some(self.entries[id].message.clone())
        } else {
            None
        }
    }

    /// Sets what is shown of relay `id`, if there is one.
    pub fn set_status(&mut self, id: usize, message: String)
        requires
            old(self).wf(),
        ensures
            final(self).wf(),
            final(self)@ == (if id < old(self)@.len() {
                old(self)@.update(
                    id as int,
                    RelayView { message: message@, ..old(self)@[id as int] },
                )
            } else {
                old(self)@
            }),
    {
        if id < self.entries.len() {
            let ghost relay = self@[id as int];
            let ghost text = message@;
            self.entries[id].message = message;
            assert(self@ == old(self)@.update(id as int, RelayView { message: text, ..relay }));
        }
    }
}

/// How many workers may ask for a fresh address at the same time.
pub const REQUESTS_AT_ONCE: usize = 3;

/// The name of the directory below which the relays of one run keep their files: that of
/// the process `pid`, started `nanos` nanoseconds after the epoch.
pub fn directory_name(pid: u32, nanos: u128) -> (r: String)
    ensures
        r@ == "ferrumview-"@ + decimal(pid as nat) + "-"@ + decimal(nanos as nat),
{
    joined("ferrumview-", &in_decimal(pid as u128), "-").concat(&in_decimal(nanos))
}

/// What came of reading a relay's file.
pub enum FileRead {
    Found(Vec<u8>),
    /// The file is not there (yet).
    Missing,
    /// There is no such relay, or the file cannot be read.
    Failed,
}

/// The body of a reply.
pub enum Body {
    Empty,
    Text(String),
    Bytes(Vec<u8>),
}

/// The body of a reply, as a mathematical value.
pub enum BodyView {
    Empty,
    Text(Seq<char>),
    Bytes(Seq<u8>),
}

/// A reply to a request over HTTP: status, headers and body.
pub struct Reply {
    pub status: u16,
    pub headers: Vec<(String, String)>,
    pub body: Body,
}

/// A reply, as a mathematical value.
pub struct ReplyView {
    pub status: u16,
    pub headers: Seq<(Seq<char>, Seq<char>)>,
    pub body: BodyView,
}

impl View for Reply {
    type V = ReplyView;

    open spec fn view(&self) -> ReplyView {
        ReplyView {
            status: self.status,
            headers: header_texts(self.headers@),
            body: match self.body {
                Body::Empty => BodyView::Empty,
                Body::Text(text) => BodyView::Text(text@),
                Body::Bytes(bytes) => BodyView::Bytes(bytes@),
            },
        }
    }
}

/// The headers of an answer that is not to be kept.
pub open spec fn no_store() -> Seq<(Seq<char>, Seq<char>)> {
    seq![("cache-control"@, "no-store"@)]
}

/// The texts of a list of headers.
pub open spec fn header_texts(headers: Seq<(String, String)>) -> Seq<(Seq<char>, Seq<char>)> {
    headers.map_values(|header: (String, String)| pair_text(header))
}

/// The headers of an answer that is not to be kept.
pub fn no_store_headers() -> (r: Vec<(String, String)>)
    ensures
        header_texts(r@) == no_store(),
{
    let headers = vec![("cache-control".to_owned(), "no-store".to_owned())];
    assert(header_texts(headers@) == no_store());
    headers
}

/// An answer about the state of a relay: status, headers and, for a relay that there is,
/// what is shown of it.
pub struct StatusReply {
    pub status: u16,
    pub headers: Vec<(String, String)>,
    pub message: Option<String>,
}

/// An answer about the state of a relay, as a mathematical value.
pub struct StatusReplyView {
    pub status: u16,
    pub headers: Seq<(Seq<char>, Seq<char>)>,
    pub message: Option<Seq<char>>,
}

impl View for StatusReply {
    type V = StatusReplyView;

    open spec fn view(&self) -> StatusReplyView {
        StatusReplyView {
            status: self.status,
            headers: header_texts(self.headers@),
            message: opt_text(self.message),
        }
    }
}

/// The answer to a question after the state of relay `id`.
pub open spec fn status_reply(entries: Seq<RelayView>, id: nat) -> StatusReplyView {
    if id < entries.len() {
        StatusReplyView {
            status: 200,
            headers: no_store(),
            message: Some(entries[id as int].message),
        }
    } else {
        StatusReplyView { status: 404, headers: Seq::empty(), message: None }
    }
}

/// The answer to a question after the state of relay `id`. The question leaves the table as
/// it is, so it does not count as asking for the relay's stream.
pub fn status(relays: &Relays, id: usize) -> (r: StatusReply)
    ensures
        r@ == status_reply(relays@, id as nat),
{
    match relays.message(id) {
        Some(message) => StatusReply {
            status: 200,
            headers: no_store_headers(),
            message: Some(message),
        },
        None => {
            let reply = StatusReply { status: 404, headers: Vec::new(), message: None };
            assert(reply@.headers == Seq::<(Seq<char>, Seq<char>)>::empty());
            reply
        },
    }
}

/// The media type of a file with this name.
pub open spec fn content_type(name: Seq<char>) -> Seq<char> {
    if ".m3u8"@.is_suffix_of(name) {
        "application/vnd.apple.mpegurl"@
    } else {
        "video/mp2t"@
    }
}

/// The reply to a request for file `name` of a relay, of which `read` is what came of
/// reading it.
pub open spec fn file_reply(name: Seq<char>, read: FileRead) -> ReplyView {
    if !generated(name) {
        ReplyView { status: 404, headers: Seq::empty(), body: BodyView::Empty }
    } else {
        match read {
            FileRead::Found(bytes) => ReplyView {
                status: 200,
                headers: seq![
                    ("content-type"@, content_type(name)),
                    ("cache-control"@, "no-store"@),
                ],
                body: BodyView::Bytes(bytes@),
            },
            FileRead::Missing => ReplyView {
                status: 503,
                headers: seq![("retry-after"@, "3"@), ("cache-control"@, "no-store"@)],
                body: BodyView::Text("Camera is connecting"@),
            },
            FileRead::Failed => ReplyView {
                status: 502,
                headers: Seq::empty(),
                body: BodyView::Text("Camera relay unavailable"@),
            },
        }
    }
}

/// The reply to a request for file `name` of a relay.
pub fn serve(name: &str, read: FileRead) -> (r: Reply)
    ensures
        r@ == file_reply(name@, read),
{
    let reply = if !valid_file(name) {
        Reply { status: 404, headers: Vec::new(), body: Body::Empty }
    } else {
        match read {
            FileRead::Found(bytes) => {
                let media = if has_suffix(chars_of(name).as_slice(), ".m3u8") {
                    "application/vnd.apple.mpegurl".to_owned()
                } else {
                    "video/mp2t".to_owned()
                };
                Reply {
                    status: 200,
                    headers: vec![
                        ("content-type".to_owned(), media),
                        ("cache-control".to_owned(), "no-store".to_owned()),
                    ],
                    body: Body::Bytes(bytes),
                }
            },
            FileRead::Missing => Reply {
                status: 503,
                headers: vec![
                    ("retry-after".to_owned(), "3".to_owned()),
                    ("cache-control".to_owned(), "no-store".to_owned()),
                ],
                body: Body::Text("Camera is connecting".to_owned()),
            },
            FileRead::Failed => Reply {
                status: 502,
                headers: Vec::new(),
                body: Body::Text("Camera relay unavailable".to_owned()),
            },
        }
    };
    assert(reply@.headers == file_reply(name@, read).headers);
    reply
}

/// Two relays with one key have one source.
proof fn lemma_same_key(a: SourceView, b: SourceView)
    requires
        source_key(a) == source_key(b),
        a matches SourceView::Url(url) ==> web_prefix(url),
        b matches SourceView::Url(url) ==> web_prefix(url),
    ensures
        a == b,
{
    reveal_strlit("http://");
    reveal_strlit("https://");
    reveal_strlit("account:");
    match (a, b) {
        (SourceView::Account(x), SourceView::Account(y)) => {
            assert(("account:"@ + x).skip(8) == x);
            assert(("account:"@ + y).skip(8) == y);
        },
        (SourceView::Url(url), SourceView::Account(x)) => {
            lemma_web_prefix(url);
            assert(("account:"@ + x)[0] == 'a');
        },
        (SourceView::Account(x), SourceView::Url(url)) => {
            lemma_web_prefix(url);
            assert(("account:"@ + x)[0] == 'a');
        },
        _ => {},
    }
}

/// A web address does not begin with an `a`.
proof fn lemma_web_prefix(url: Seq<char>)
    requires
        web_prefix(url),
    ensures
        url.len() > 0 && url[0] != 'a',
{
    reveal_strlit("http://");
    reveal_strlit("https://");
    if begins_as(url, "http://"@) {
        assert(lowered(url.take(7))[0] == lower(url[0]));
    } else {
        assert(lowered(url.take(8))[0] == lower(url[0]));
    }
}

/// A number is determined by its relay having the source and none before it having it.
proof fn lemma_index_is(entries: Seq<RelayView>, source: SourceView, n: nat)
    requires
        n <= entries.len(),
        forall|i: int| 0 <= i < n ==> #[trigger] entries[i].source != source,
        n < entries.len() ==> entries[n as int].source == source,
    ensures
        index_of(entries, source) == n,
    decreases entries.len(),
{
    if n > 0 {
        assert(entries[0].source != source);
        assert forall|i: int| 0 <= i < n - 1 implies #[trigger] entries.drop_first()[i].source
            != source by {
            assert(entries[i + 1].source != source);
        }
        lemma_index_is(entries.drop_first(), source, (n - 1) as nat);
    }
}

/// What `index_of` gives: a relay with the source, the first one, if there is any.
proof fn lemma_index_of(entries: Seq<RelayView>, source: SourceView)
    ensures
        index_of(entries, source) <= entries.len(),
        index_of(entries, source) < entries.len() ==> entries[index_of(
            entries,
            source,
        ) as int].source == source,
        forall|i: int|
            0 <= i < index_of(entries, source) ==> #[trigger] entries[i].source != source,
    decreases entries.len(),
{
    if entries.len() > 0 && entries[0].source != source {
        let rest = entries.drop_first();
        lemma_index_of(rest, source);
        assert forall|i: int| 0 <= i < index_of(entries, source) implies #[trigger] entries[i].source
            != source by {
            if i > 0 {
                assert(rest[i - 1].source != source);
            }
        }
    }
}

/// No two relays of a table have one source.
pub proof fn sources_are_distinct(relays: Relays)
    requires
        relays.wf(),
    ensures
        distinct_keys(relays@),
        forall|i: int, j: int|
            0 <= i < j < relays@.len() ==> #[trigger] relays@[i].source
                != #[trigger] relays@[j].source,
{
    assert forall|i: int, j: int| 0 <= i < j < relays@.len() implies #[trigger] relays@[i].source
        != #[trigger] relays@[j].source by {
        assert(source_key(relays@[i].source) != source_key(relays@[j].source));
    }
}

/// A relay keeps its number and its place, whatever source is registered after it.
pub proof fn numbers_are_kept(
    entries: Seq<RelayView>,
    source: SourceView,
    other: SourceView,
    now: u128,
)
    requires
        index_of(entries, source) < entries.len(),
    ensures
        entries.is_prefix_of(registered(entries, other, now)),
        index_of(registered(entries, other, now), source) == index_of(entries, source),
{
    let after = registered(entries, other, now);
    let n = index_of(entries, source);
    lemma_index_of(entries, source);
    assert(entries == after.subrange(0, entries.len() as int));
    assert forall|i: int| 0 <= i < n implies #[trigger] after[i].source != source by {
        assert(entries[i].source != source);
    }
    lemma_index_is(after, source, n);
}

/// A source that is registered again keeps its number, and the table stays as it is.
pub proof fn routes_are_stable(
    entries: Seq<RelayView>,
    source: SourceView,
    now: u128,
    later: u128,
)
    ensures
        index_of(registered(entries, source, now), source) == index_of(entries, source),
        registered(registered(entries, source, now), source, later) == registered(
            entries,
            source,
            now,
        ),
{
    let after = registered(entries, source, now);
    let n = index_of(entries, source);
    lemma_index_of(entries, source);
    assert forall|i: int| 0 <= i < n implies #[trigger] after[i].source != source by {
        assert(entries[i].source != source);
    }
    lemma_index_is(after, source, n);
}

/// Relays with different numbers have different addresses.
pub proof fn routes_differ(a: nat, b: nat)
    requires
        a != b,
    ensures
        route(a) != route(b),
{
    if route(a) == route(b) {
        let head = "/relay/"@;
        let tail = "/index.m3u8"@;
        let n = head.len() as int;
        let m = route(a).len() - tail.len();
        assert(route(a).subrange(n, m) == decimal(a));
        assert(route(b).subrange(n, m) == decimal(b));
        lemma_decimal_injective(a, b);
    }
}

/// Different sources that are registered one after the other get different addresses.
pub proof fn sources_have_their_own_routes(
    entries: Seq<RelayView>,
    a: SourceView,
    b: SourceView,
    now: u128,
)
    requires
        a != b,
    ensures
        route(index_of(entries, a)) != route(index_of(registered(entries, a, now), b)),
{
    let after = registered(entries, a, now);
    routes_are_stable(entries, a, now, now);
    lemma_index_of(after, a);
    lemma_index_of(after, b);
    let n = index_of(entries, a);
    assert(after[n as int].source == a);
    routes_differ(n, index_of(after, b));
}

/// The table after these calls, each of which registers a source at some time.
pub open spec fn after_calls(
    entries: Seq<RelayView>,
    calls: Seq<(SourceView, u128)>,
) -> Seq<RelayView>
    decreases calls.len(),
{
    if calls.len() == 0 {
        entries
    } else {
        registered(after_calls(entries, calls.drop_last()), calls.last().0, calls.last().1)
    }
}

/// The number that the `i`-th of these calls gives.
pub open spec fn call_number(
    entries: Seq<RelayView>,
    calls: Seq<(SourceView, u128)>,
    i: int,
) -> nat {
    index_of(after_calls(entries, calls.take(i)), calls[i].0)
}

/// The address that the `i`-th of these calls gives.
pub open spec fn call_route(
    entries: Seq<RelayView>,
    calls: Seq<(SourceView, u128)>,
    i: int,
) -> Seq<char> {
    route(call_number(entries, calls, i))
}

/// After all of the calls, the table still gives each source the number its call gave.
proof fn lemma_call_numbers(entries: Seq<RelayView>, calls: Seq<(SourceView, u128)>, i: int)
    requires
        0 <= i < calls.len(),
    ensures
        index_of(after_calls(entries, calls), calls[i].0) == call_number(entries, calls, i),
        call_number(entries, calls, i) < after_calls(entries, calls).len(),
    decreases calls.len(),
{
    let rest = calls.drop_last();
    let table = after_calls(entries, rest);
    let (source, now) = calls.last();
    if i == calls.len() - 1 {
        assert(calls.take(i) == rest);
        routes_are_stable(table, source, now, now);
        lemma_index_of(table, source);
    } else {
        assert(calls.take(i) == rest.take(i));
        lemma_call_numbers(entries, rest, i);
        numbers_are_kept(table, calls[i].0, source, now);
    }
}

/// A source as it comes to be registered: an address begins like one of the web.
pub open spec fn is_registrable(source: SourceView) -> bool {
    source matches SourceView::Url(url) ==> web_prefix(url)
}

/// Of any number of calls that register sources, two give the same address exactly if their
/// sources are equal, which is exactly if their keys are.
pub proof fn routes_identify_sources(
    entries: Seq<RelayView>,
    calls: Seq<(SourceView, u128)>,
    i: int,
    j: int,
)
    requires
        0 <= i < calls.len(),
        0 <= j < calls.len(),
    ensures
        call_route(entries, calls, i) == call_route(entries, calls, j) <==> calls[i].0
            == calls[j].0,
        is_registrable(calls[i].0) && is_registrable(calls[j].0) ==> (call_route(entries, calls, i)
            == call_route(entries, calls, j) <==> source_key(calls[i].0) == source_key(
            calls[j].0,
        )),
{
    let table = after_calls(entries, calls);
    let a = calls[i].0;
    let b = calls[j].0;
    lemma_call_numbers(entries, calls, i);
    lemma_call_numbers(entries, calls, j);
    lemma_index_of(table, a);
    lemma_index_of(table, b);
    if a != b {
        routes_differ(index_of(table, a), index_of(table, b));
    }
    if is_registrable(a) && is_registrable(b) && source_key(a) == source_key(b) {
        lemma_same_key(a, b);
    }
}

/// The sources that these calls register.
pub open spec fn called(calls: Seq<(SourceView, u128)>) -> Set<SourceView> {
    calls.map_values(|call: (SourceView, u128)| call.0).to_set()
}

/// The sources of a table, in the order of their numbers.
pub open spec fn sources(entries: Seq<RelayView>) -> Seq<SourceView> {
    entries.map_values(|relay: RelayView| relay.source)
}

/// After any number of calls on an empty table, its relays are numbered without gaps, one
/// for each source that was registered; and a call with a source that is new gives the
/// number of the different sources that came before it.
pub proof fn numbers_count_the_sources(calls: Seq<(SourceView, u128)>)
    ensures
        ({
            let table = after_calls(Seq::empty(), calls);
            &&& sources(table).no_duplicates()
            &&& sources(table).to_set() == called(calls)
            &&& table.len() == called(calls).len()
        }),
        forall|i: int|
            0 <= i < calls.len() && !called(calls.take(i)).contains(calls[i].0) ==> #[trigger]
            call_route(Seq::empty(), calls, i) == route(called(calls.take(i)).len()),
{
    lemma_table_of_calls(calls);
    assert forall|i: int|
        0 <= i < calls.len() && !called(calls.take(i)).contains(calls[i].0) implies #[trigger]
    call_route(Seq::empty(), calls, i) == route(called(calls.take(i)).len()) by {
        let before = calls.take(i);
        let table = after_calls(Seq::empty(), before);
        let source = calls[i].0;
        lemma_table_of_calls(before);
        lemma_index_of(table, source);
        let n = index_of(table, source);
        if n < table.len() {
            assert(sources(table)[n as int] == source);
            assert(sources(table).to_set().contains(source));
        }
    }
}

/// The table that these calls leave holds each of their sources once.
proof fn lemma_table_of_calls(calls: Seq<(SourceView, u128)>)
    ensures
        sources(after_calls(Seq::empty(), calls)).no_duplicates(),
        sources(after_calls(Seq::empty(), calls)).to_set() == called(calls),
        after_calls(Seq::empty(), calls).len() == called(calls).len(),
    decreases calls.len(),
{
    let table = after_calls(Seq::empty(), calls);
    let all = calls.map_values(|call: (SourceView, u128)| call.0);
    if calls.len() == 0 {
        assert(sources(table).to_set() =~= called(calls));
    } else {
        let rest = calls.drop_last();
        let before = after_calls(Seq::empty(), rest);
        let rest_all = rest.map_values(|call: (SourceView, u128)| call.0);
        let (source, now) = calls.last();
        lemma_table_of_calls(rest);
        lemma_index_of(before, source);
        let n = index_of(before, source);
        assert(all == rest_all.push(source));
        assert(called(calls) =~= called(rest).insert(source)) by {
            assert forall|x: SourceView| called(calls).contains(x) <==> called(rest).insert(
                source,
            ).contains(x) by {
                if rest_all.contains(x) {
                    let k = choose|k: int| 0 <= k < rest_all.len() && rest_all[k] == x;
                    assert(all[k] == x);
                }
                if x == source {
                    assert(all[rest_all.len() as int] == x);
                }
                if all.contains(x) && x != source {
                    let k = choose|k: int| 0 <= k < all.len() && all[k] == x;
                    assert(rest_all[k] == x);
                }
            }
        }
        if n < before.len() {
            assert(sources(before)[n as int] == source);
            assert(called(rest).contains(source));
            assert(called(rest).insert(source) =~= called(rest));
        } else {
            assert(sources(table) == sources(before).push(source));
            assert(!sources(before).contains(source)) by {
                if sources(before).contains(source) {
                    let k = choose|k: int|
                        0 <= k < sources(before).len() && sources(before)[k] == source;
                    assert(before[k].source == source);
                }
            }
            assert(sources(table).to_set() =~= sources(before).to_set().insert(source)) by {
                assert forall|x: SourceView| sources(table).to_set().contains(x) <==> sources(
                    before,
                ).to_set().insert(source).contains(x) by {
                    if sources(before).contains(x) {
                        let k = choose|k: int|
                            0 <= k < sources(before).len() && sources(before)[k] == x;
                        assert(sources(table)[k] == x);
                    }
                    if x == source {
                        assert(sources(table)[before.len() as int] == x);
                    }
                    if sources(table).contains(x) && x != source {
                        let k = choose|k: int|
                            0 <= k < sources(table).len() && sources(table)[k] == x;
                        assert(sources(before)[k] == x);
                    }
                }
            }
        }
    }
    sources(table).unique_seq_to_set();
}

/// Asking for a relay's files or showing something else of it moves no number.
pub proof fn requests_keep_numbers(
    entries: Seq<RelayView>,
    id: int,
    relay: RelayView,
    source: SourceView,
)
    requires
        0 <= id < entries.len(),
        relay.source == entries[id].source,
    ensures
        index_of(entries.update(id, relay), source) == index_of(entries, source),
{
    let after = entries.update(id, relay);
    let n = index_of(entries, source);
    lemma_index_of(entries, source);
    assert forall|i: int| 0 <= i < n implies #[trigger] after[i].source != source by {
        assert(entries[i].source != source);
    }
    lemma_index_is(after, source, n);
}

/// The map of a table takes the keys of its relays one to one onto the numbers below their
/// count.
pub proof fn keys_and_numbers_correspond(relays: Relays)
    requires
        relays.wf(),
    ensures
        forall|key: Seq<char>| #[trigger]
            relays.key_map().contains_key(key) ==> relays.key_map()[key] < relays@.len()
                && source_key(relays@[relays.key_map()[key] as int].source) == key,
        forall|i: int|
            0 <= i < relays@.len() ==> relays.key_map().contains_key(
                source_key(#[trigger] relays@[i].source),
            ) && relays.key_map()[source_key(relays@[i].source)] == i,
        forall|a: Seq<char>, b: Seq<char>|
            #![trigger relays.key_map()[a], relays.key_map()[b]]
            relays.key_map().contains_key(a) && relays.key_map().contains_key(b)
                && relays.key_map()[a] == relays.key_map()[b] ==> a == b,
{
}

/// What follows the first `#` in an address has no part in where the viewer finds it.
pub proof fn fragments_do_not_count(entries: Seq<RelayView>, url: Seq<char>, fragment: Seq<char>)
    requires
        !url.contains('#'),
        dsi_address(url),
    ensures
        local_address(entries, url + seq!['#'] + fragment) == local_address(entries, url),
{
    let long = url + seq!['#'] + fragment;
    assert forall|i: int| 0 <= i < url.len() implies #[trigger] url[i] != '#' by {}
    assert forall|i: int| 0 <= i < url.len() implies #[trigger] long[i] != '#' by {
        assert(url[i] != '#');
    }
    lemma_position_is(url, '#', url.len());
    lemma_position_is(long, '#', url.len());
    assert(before(long, '#') == before(url, '#'));
}

/// A host below one of DSI is one of DSI.
pub proof fn subdomains_are_dsi(label: Seq<char>, host: Seq<char>)
    requires
        dsi_host(host),
    ensures
        dsi_host(label + seq!['.'] + host),
{
    reveal_strlit("dsi.ru");
    reveal_strlit(".dsi.ru");
    let long = label + seq!['.'] + host;
    let n = label.len() as int;
    assert(lowered(long) == lowered(label) + seq!['.'] + lowered(host));
    if lowered(host) == "dsi.ru"@ {
        assert(lowered(long).subrange(n, n + 7) == ".dsi.ru"@);
    } else {
        let k = host.len() - 7;
        assert(lowered(host).subrange(k, k + 7) == ".dsi.ru"@);
        assert(lowered(long).subrange(n + 1 + k, n + 1 + k + 7) == lowered(host).subrange(k, k + 7));
    }
}

/// A host ends with `dsi.ru`, and with `.dsi.ru` unless that is all of it.
pub proof fn dsi_hosts_end_in_dsi(host: Seq<char>)
    requires
        dsi_host(host),
    ensures
        host.len() >= 6,
        lowered(host.skip(host.len() - 6)) == "dsi.ru"@,
        host.len() > 6 ==> host[host.len() - 7] == '.',
{
    reveal_strlit("dsi.ru");
    reveal_strlit(".dsi.ru");
    let n = host.len() as int;
    if lowered(host) == "dsi.ru"@ {
        assert(host.skip(0) == host);
    } else {
        let tail = lowered(host).subrange(n - 7, n);
        assert(tail == ".dsi.ru"@);
        assert(tail[0] == lower(host[n - 7]));
        assert(lowered(host.skip(n - 6)) == tail.skip(1));
        assert(tail.skip(1) == "dsi.ru"@);
    }
}

/// The name of a file that is served consists of letters, digits, underscores and dots,
/// begins with a letter and holds one dot: it leads out of no directory.
pub proof fn served_names_are_plain(name: Seq<char>)
    requires
        generated(name),
    ensures
        name.len() > 0,
        'a' <= name[0] <= 'z',
        forall|i: int|
            0 <= i < name.len() ==> ('a' <= #[trigger] name[i] <= 'z' || is_digit(name[i])
                || name[i] == '_' || name[i] == '.'),
        forall|i: int, j: int|
            0 <= i < j < name.len() ==> !(#[trigger] name[i] == '.' && #[trigger] name[j] == '.'),
{
    reveal_strlit("index.m3u8");
    reveal_strlit("segment_");
    reveal_strlit(".ts");
    if name != playlist_name() {
        let n = choose|n: Seq<char>| is_number(n) && name == #[trigger] segment_name(n);
        assert forall|i: int| 8 <= i < 8 + n.len() implies is_digit(#[trigger] name[i]) by {
            assert(name[i] == n[i - 8]);
            assert(is_digit(n[i - 8]));
        }
    }
}

/// A relay's address names a file that is served.
pub proof fn routes_are_served(id: nat)
    ensures
        route(id) == "/relay/"@ + decimal(id) + "/"@ + playlist_name(),
        generated(playlist_name()),
        is_number(decimal(id)),
{
    reveal_strlit("/index.m3u8");
    reveal_strlit("index.m3u8");
    reveal_strlit("/");
    lemma_decimal_number(id);
    assert("/index.m3u8"@ == "/"@ + playlist_name());
}

} // verus!
