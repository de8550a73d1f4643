//! Laws of the configuration that the viewer is given.

use crate::config::{
    cameras_are_found_at_their_relays, cameras_result, cameras_view, chosen_list, is_refused,
    listed_stream, listed_streams, local_cameras, localized_all, refused, web_uri, Camera,
    CameraView, ListChoice, ListChoiceView, ListFile, ListRead, StreamListError,
};
use crate::laws::text::{
    all_white, comments_and_blanks_say_nothing, later_lines_follow, lines_end_at_line_feeds,
    marks_are_skipped, texts_are_divided_at_the_first, white_space_around_is_trimmed,
};
use crate::relay::{local_address, localized, BodyView, RelayView};
use crate::text::{before, decimal, file_lines, is_listed, is_white, lines, trim};
use crate::uri::{uri_parts, UriView};
use vstd::prelude::*;

verus! {

/// An address is one of the web exactly if it is over HTTP or HTTPS and has a host.
pub proof fn web_addresses_are_these(uri: UriView)
    ensures
        web_uri(uri) <==> (uri.scheme == Some("http"@) || uri.scheme == Some("https"@))
            && uri.host is Some,
{
}

/// Two texts of white space, one after the other, are white space.
proof fn lemma_white_together(a: Seq<char>, b: Seq<char>)
    requires
        all_white(a),
        all_white(b),
    ensures
        all_white(a + b),
{
    let s = a + b;
    assert forall|i: int| 0 <= i < s.len() implies is_white(#[trigger] s[i]) by {
        if i < a.len() {
            assert(is_white(a[i]));
        } else {
            assert(is_white(b[i - a.len()]));
        }
    }
}

/// A line of a list, without the white space around it, is its first half, a bar, and its
/// second half; each is what it says but for white space.
proof fn lemma_halves(
    left: Seq<char>,
    name: Seq<char>,
    right: Seq<char>,
    gap: Seq<char>,
    url: Seq<char>,
    end: Seq<char>,
) -> (halves: (Seq<char>, Seq<char>))
    requires
        all_white(left),
        all_white(right),
        all_white(gap),
        all_white(end),
        name.len() > 0 ==> !is_white(name[0]) && !is_white(name.last()),
        url.len() > 0 ==> !is_white(url[0]) && !is_white(url.last()),
        !name.contains('|'),
    ensures
        trim(left + name + right + seq!['|'] + gap + url + end) == halves.0 + seq!['|'] + halves.1,
        !halves.0.contains('|'),
        trim(halves.0) == name,
        trim(halves.1) == url,
{
    let none = Seq::<char>::empty();
    let bar = seq!['|'];
    let line = left + name + right + bar + gap + url + end;
    let (first, before) = if name.len() > 0 {
        (name + right, left)
    } else {
        (none, left + right)
    };
    let (second, after) = if url.len() > 0 {
        (gap + url, end)
    } else {
        (none, gap + end)
    };
    lemma_white_together(left, right);
    lemma_white_together(gap, end);
    let middle = first + bar + second;
    assert(line == before + middle + after);
    if name.len() > 0 {
        assert(middle[0] == name[0]);
        assert(first == none + name + right);
        white_space_around_is_trimmed(none, name, right);
    } else {
        assert(middle[0] == '|');
        assert(name == none);
        assert(first == none + none + none);
        white_space_around_is_trimmed(none, none, none);
    }
    if url.len() > 0 {
        assert(middle.last() == url.last());
        assert(second == gap + url + none);
        white_space_around_is_trimmed(gap, url, none);
    } else {
        assert(middle.last() == '|');
        assert(url == none);
        assert(second == none + none + none);
        white_space_around_is_trimmed(none, none, none);
    }
    white_space_around_is_trimmed(before, middle, after);
    assert(!first.contains('|')) by {
        if first.contains('|') {
            let i = choose|i: int| 0 <= i < first.len() && first[i] == '|';
            if i < name.len() {
                assert(name[i] == '|');
            } else {
                assert(is_white(right[i - name.len()]));
            }
        }
    }
    (first, second)
}

/// A line of a list gives the camera with the name before its first bar and the address
/// behind it, both as they stand but for the white space around them. It is at fault if what
/// stands behind the bar, without its fragment, is no address; and, if it is one, unless
/// there is a name and the address is one of the web.
pub proof fn lines_give_name_and_address(
    left: Seq<char>,
    name: Seq<char>,
    right: Seq<char>,
    gap: Seq<char>,
    url: Seq<char>,
    end: Seq<char>,
    n: usize,
)
    requires
        all_white(left),
        all_white(right),
        all_white(gap),
        all_white(end),
        name.len() > 0 ==> !is_white(name[0]) && !is_white(name.last()),
        url.len() > 0 ==> !is_white(url[0]) && !is_white(url.last()),
        !name.contains('|'),
    ensures
        ({
            let outcome = listed_stream(
                left + name + right + seq!['|'] + gap + url + end,
                n,
            );
            match uri_parts(before(url, '#')) {
                None => outcome == Err::<CameraView, _>(StreamListError::InvalidUrl { line: n }),
                Some(uri) => if name.len() > 0 && (uri.scheme == Some("http"@) || uri.scheme
                    == Some("https"@)) && uri.host is Some {
                    outcome == Ok::<_, StreamListError>(CameraView { name, url })
                } else {
                    outcome == Err::<CameraView, _>(StreamListError::NotWeb { line: n })
                },
            }
        }),
{
    let (first, second) = lemma_halves(left, name, right, gap, url, end);
    texts_are_divided_at_the_first(first, '|', second);
}

/// A line without a bar is at fault for that.
pub proof fn lines_have_a_bar(line: Seq<char>, n: usize)
    ensures
        !trim(line).contains('|') <==> listed_stream(line, n) == Err::<CameraView, _>(
            StreamListError::NoBar { line: n },
        ),
{
    let text = trim(line);
    if !text.contains('|') {
        texts_are_divided_at_the_first(text, '|', text);
    } else {
        let i = crate::text::position(text, '|') as int;
        crate::text::lemma_position(text, '|');
        if i == text.len() {
            let k = choose|k: int| 0 <= k < text.len() && text[k] == '|';
            assert(text[k] != '|');
        }
    }
}

/// A camera that is written behind a list, on a line of its own, is listed behind the others,
/// whatever they are; and a list that is at fault stays so.
pub proof fn cameras_are_added_at_the_end(contents: Seq<char>, name: Seq<char>, url: Seq<char>)
    requires
        contents.len() > 0 ==> contents.last() == '\n' && contents[0] != '\u{feff}',
        name.len() > 0,
        name[0] != '\u{feff}',
        name[0] != '#',
        !is_white(name[0]),
        !is_white(name.last()),
        !name.contains('|'),
        !name.contains('\n'),
        url.len() > 0,
        !is_white(url[0]),
        !is_white(url.last()),
        !url.contains('\n'),
        uri_parts(before(url, '#')) matches Some(uri) && (uri.scheme == Some("http"@) || uri.scheme
            == Some("https"@)) && uri.host is Some,
        lines(contents).len() < usize::MAX,
    ensures
        match listed_streams(file_lines(contents)) {
            Ok(cameras) => listed_streams(file_lines(contents + name + "|"@ + url + "\n"@)) == Ok::<
                _,
                StreamListError,
            >(cameras.push(CameraView { name, url })),
            Err(e) => listed_streams(file_lines(contents + name + "|"@ + url + "\n"@)) == Err::<
                Seq<CameraView>,
                _,
            >(e),
        },
{
    reveal_strlit("|");
    reveal_strlit("\n");
    let none = Seq::<char>::empty();
    let line = name + seq!['|'] + url;
    let text = line + seq!['\n'] + none;
    let all = contents + name + "|"@ + url + "\n"@;
    assert(all == contents + text);
    assert(!line.contains('\n')) by {
        if line.contains('\n') {
            let i = choose|i: int| 0 <= i < line.len() && line[i] == '\n';
            if i < name.len() {
                assert(name[i] == '\n');
            } else if i > name.len() {
                assert(url[i - name.len() - 1] == '\n');
            }
        }
    }
    assert(line.last() == url.last());
    lines_end_at_line_feeds(line, none);
    assert(lines(text) == seq![line]) by {
        assert(seq![line] + Seq::<Seq<char>>::empty() == seq![line]);
    }
    later_lines_follow(contents, text);
    marks_are_skipped(contents, 0);
    marks_are_skipped(all, 0);
    let list = lines(contents) + seq![line];
    assert(list.drop_last() == lines(contents));
    assert(none + seq![name[0]] + line.skip(1) == line);
    comments_and_blanks_say_nothing(none, name[0], line.skip(1));
    assert(none + name + none + seq!['|'] + none + url + none == line);
    lines_give_name_and_address(none, name, none, none, url, none, list.len() as usize);
}

/// A line that says nothing changes no list.
pub proof fn silent_lines_change_nothing(list: Seq<Seq<char>>, line: Seq<char>)
    requires
        !is_listed(line),
    ensures
        listed_streams(list.push(line)) == listed_streams(list),
        listed_streams(Seq::empty()) == Ok::<_, StreamListError>(Seq::<CameraView>::empty()),
{
    assert(list.push(line).drop_last() == list);
}

/// An error of a list names its line in decimal, and says what is expected there.
pub proof fn stream_list_errors_name_their_line(line: usize)
    ensures
        (StreamListError::NoBar { line }).text() == "Строка "@ + decimal(line as nat)
            + ": ожидается Название | URL"@,
        (StreamListError::InvalidUrl { line }).text() == "Строка "@ + decimal(line as nat)
            + ": некорректный URL"@,
        (StreamListError::NotWeb { line }).text() == "Строка "@ + decimal(line as nat)
            + ": нужны название и HTTP(S) URL"@,
{
}

/// Cameras are asked for one after the other, each once.
pub proof fn cameras_are_asked_for_in_turn(
    entries: Seq<RelayView>,
    cameras: Seq<CameraView>,
    camera: CameraView,
    now: u128,
)
    ensures
        localized_all(entries, Seq::empty(), now) == entries,
        localized_all(entries, cameras.push(camera), now) == localized(
            localized_all(entries, cameras, now),
            camera.url,
            now,
        ),
{
    assert(cameras.push(camera).drop_last() == cameras);
}

/// The viewer is given as many cameras as are listed, in their order, each under its name and
/// at the address that its own address has in the table afterwards.
pub proof fn cameras_are_given_at_their_addresses(
    entries: Seq<RelayView>,
    cameras: Seq<CameraView>,
    now: u128,
)
    ensures
        local_cameras(entries, cameras, now).len() == cameras.len(),
        forall|i: int|
            0 <= i < cameras.len() ==> (#[trigger] local_cameras(entries, cameras, now)[i])
                == (CameraView {
                name: cameras[i].name,
                url: local_address(localized_all(entries, cameras, now), cameras[i].url),
            }),
{
    cameras_are_found_at_their_relays(entries, cameras, now);
}

/// The list is that of `streams.txt`, as it stands, or, if there is no such file, that of
/// `stream.txt`, and empty if there is neither. A file that exists but cannot be read is
/// reported.
pub proof fn lists_are_taken_whole(text: String, stream: Option<ListRead>)
    ensures
        chosen_list(ListRead::Text(text), stream) == ListChoiceView::Use(text@),
        chosen_list(ListRead::Failed, stream) == ListChoiceView::Report(ListFile::Streams),
        chosen_list(ListRead::NotFound, None) == ListChoiceView::ReadStream,
        chosen_list(ListRead::NotFound, Some(ListRead::Text(text))) == ListChoiceView::Use(text@),
        chosen_list(ListRead::NotFound, Some(ListRead::NotFound)) == ListChoiceView::Use(
            Seq::empty(),
        ),
        chosen_list(ListRead::NotFound, Some(ListRead::Failed)) == ListChoiceView::Report(
            ListFile::Stream,
        ),
        (ListFile::Streams).text() == "Не удалось прочитать streams.txt"@,
        (ListFile::Stream).text() == "Не удалось прочитать stream.txt"@,
{
}

/// The configuration is refused exactly if a file that is needed cannot be read, or if the
/// list that is taken is at fault; the answer says why and nothing else.
pub proof fn refusals_say_why(text: String, stream: Option<ListRead>, message: Seq<char>)
    ensures
        is_refused(ListRead::Failed, stream),
        is_refused(ListRead::NotFound, Some(ListRead::Failed)),
        !is_refused(ListRead::NotFound, None),
        is_refused(ListRead::NotFound, Some(ListRead::Text(text))) <==> listed_streams(
            file_lines(text@),
        ) is Err,
        is_refused(ListRead::Text(text), stream) <==> listed_streams(file_lines(text@)) is Err,
        !is_refused(ListRead::NotFound, Some(ListRead::NotFound)),
        refused(message).status == 500,
        refused(message).headers.len() == 0,
        refused(message).body == BodyView::Text(message),
{
    marks_are_skipped(Seq::empty(), 0);
}

/// What is said of cameras and choices is said of the characters that they hold.
pub proof fn cameras_show_what_they_hold(
    camera: Camera,
    cameras: Vec<Camera>,
    e: StreamListError,
    text: String,
    file: ListFile,
)
    ensures
        camera@.name == camera.name@,
        camera@.url == camera.url@,
        cameras_view(cameras@).len() == cameras@.len(),
        forall|i: int|
            0 <= i < cameras@.len() ==> #[trigger] cameras_view(cameras@)[i] == cameras@[i]@,
        cameras_result::<StreamListError>(Ok(cameras)) == Ok::<_, StreamListError>(
            cameras_view(cameras@),
        ),
        cameras_result::<StreamListError>(Err(e)) == Err::<Seq<CameraView>, _>(e),
        ListChoice::Use(text)@ == ListChoiceView::Use(text@),
        ListChoice::ReadStream@ == ListChoiceView::ReadStream,
        ListChoice::Report(file)@ == ListChoiceView::Report(file),
{
}

} // verus!
