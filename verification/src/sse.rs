//! Server-sent events: reading the data of an event stream, and writing one.

use vstd::prelude::*;

use crate::json;
use crate::json::Json;
use crate::text;

verus! {

/// Whether a body is an event stream, to judge by how it begins.
pub open spec fn sse_like(body: Seq<char>) -> bool {
    ||| "data:"@.is_prefix_of(text::trim_start(body))
    ||| "event:"@.is_prefix_of(text::trim_start(body))
}

/// A text in which every line break of two characters is one of one character.
pub open spec fn unix_newlines(body: Seq<char>) -> Seq<char>
    decreases body.len(),
{
    if body.len() == 0 {
        Seq::empty()
    } else if body.len() >= 2 && body[0] == '\r' && body[1] == '\n' {
        seq!['\n'] + unix_newlines(body.skip(2))
    } else {
        seq![body[0]] + unix_newlines(body.skip(1))
    }
}

/// A text without the carriage return at its end, where it has one.
pub open spec fn without_return(line: Seq<char>) -> Seq<char> {
    if line.len() > 0 && line.last() == '\r' {
        line.drop_last()
    } else {
        line
    }
}

/// The lines of a text. The last one need not be ended by a line break.
pub open spec fn lines(text: Seq<char>) -> Seq<Seq<char>>
    decreases text.len(),
{
    if text.len() == 0 {
        Seq::empty()
    } else {
        match text::find(text, seq!['\n']) {
            Some(k) => if 0 <= k < text.len() {
                seq![without_return(text.take(k))] + lines(text.skip(k + 1))
            } else {
                seq![text]
            },
            None => seq![text],
        }
    }
}

/// The data on a line of an event, where the line holds data.
pub open spec fn line_data(line: Seq<char>) -> Option<Seq<char>> {
    if "data:"@.is_prefix_of(line) {
        Some(text::trim_start(line.skip("data:"@.len() as int)))
    } else {
        None
    }
}

/// The data of an event: that of all its data lines. `None` where it has no such line.
pub open spec fn event_data(event: Seq<char>) -> Option<Seq<char>> {
    let data = text::kept(lines(event), |line: Seq<char>| line_data(line));
    if data.len() == 0 {
        None
    } else {
        Some(text::joined(data, "\n"@))
    }
}

/// The data of every event that has any, of a stream whose line breaks are of one character. A
/// blank line ends an event.
pub open spec fn split_messages(body: Seq<char>) -> Seq<Seq<char>> {
    text::kept(text::split(body, seq!['\n', '\n']), |event: Seq<char>| event_data(event))
}

/// The data of every event of a stream that has any. A blank line ends an event.
pub open spec fn data_messages(body: Seq<char>) -> Seq<Seq<char>> {
    split_messages(unix_newlines(body))
}

/// An event as it is written to a stream.
pub open spec fn event_text(name: Seq<char>, data: Seq<char>) -> Seq<char> {
    "event: "@ + name + "\n"@ + "data: "@ + data + "\n"@ + "\n"@
}

/// A stream of events, each with its name and its data.
pub open spec fn stream_text(events: Seq<(Seq<char>, Seq<char>)>) -> Seq<char>
    decreases events.len(),
{
    if events.len() == 0 {
        Seq::empty()
    } else {
        stream_text(events.drop_last()) + event_text(events.last().0, events.last().1)
    }
}

/// Tells whether a body is an event stream, to judge by how it begins.
pub fn looks_like_sse(body: &str) -> (yes: bool)
    ensures
        yes == sse_like(body@),
{
    let start = text::trimmed_start(&text::chars_of(body));
    assert(start@.skip(0) =~= start@);
    text::stands_at(&start, 0, &text::chars_of("data:")) || text::stands_at(
        &start,
        0,
        &text::chars_of("event:"),
    )
}

/// Replaces every line break of two characters by one of one character.
fn to_unix_newlines(body: &str) -> (chars: Vec<char>)
    ensures
        chars@ == unix_newlines(body@),
{
    let given = text::chars_of(body);
    let len = given.len();
    let mut chars: Vec<char> = Vec::new();
    let mut i: usize = 0;
    assert(given@.skip(0) =~= given@);
    assert(chars@ + unix_newlines(given@) =~= unix_newlines(given@));
    while i < len
        invariant
            i <= len == given@.len(),
            chars@ + unix_newlines(given@.skip(i as int)) == unix_newlines(given@),
        decreases len - i,
    {
        let ghost before = chars@;
        let ghost rest = given@.skip(i as int);
        if len - i >= 2 && given[i] == '\r' && given[i + 1] == '\n' {
            chars.push('\n');
            assert(rest.skip(2) =~= given@.skip(i + 2));
            i += 2;
        } else {
            chars.push(given[i]);
            assert(rest.skip(1) =~= given@.skip(i + 1));
            i += 1;
        }
        assert(chars@ + unix_newlines(given@.skip(i as int)) =~= before + unix_newlines(rest));
    }
    assert(chars@ + unix_newlines(given@.skip(i as int)) =~= chars@);
    chars
}

/// Splits a text into its lines.
fn split_lines(chars: &Vec<char>) -> (parts: Vec<Vec<char>>)
    ensures
        text::parts_view(parts@) == lines(chars@),
{
    let mut newline: Vec<char> = Vec::new();
    newline.push('\n');
    assert(newline@ =~= seq!['\n']);
    let len = chars.len();
    let mut parts: Vec<Vec<char>> = Vec::new();
    let mut start: usize = 0;
    assert(chars@.skip(0) =~= chars@);
    assert(text::parts_view(parts@) + lines(chars@) =~= lines(chars@));
    while start < len
        invariant
            start <= len == chars@.len(),
            newline@ == seq!['\n'],
            text::parts_view(parts@) + lines(chars@.skip(start as int)) == lines(chars@),
        decreases len - start,
    {
        let ghost before = text::parts_view(parts@);
        let ghost from = start as int;
        let ghost rest = chars@.skip(from);
        match text::find_from(chars, start, &newline) {
            Some(k) => {
                let end: usize = if k > start && chars[k - 1] == '\r' {
                    k - 1
                } else {
                    k
                };
                parts.push(text::slice_of(chars, start, end));
                assert(chars@.subrange(from, end as int) =~= without_return(rest.take(k - from)));
                start = k + 1;
                assert(rest.skip(k - from + 1) =~= chars@.skip(start as int));
            },
            None => {
                parts.push(text::slice_of(chars, start, len));
                assert(chars@.subrange(from, len as int) =~= rest);
                start = len;
                assert(lines(chars@.skip(start as int)) =~= Seq::empty());
            },
        }
        assert(text::parts_view(parts@) + lines(chars@.skip(start as int)) =~= before + lines(rest));
    }
    assert(text::parts_view(parts@) + lines(chars@.skip(start as int)) =~= text::parts_view(
        parts@,
    ));
    parts
}

/// Gives the data on a line of an event.
fn data_of_line(line: &Vec<char>) -> (data: Option<Vec<char>>)
    ensures
        match data {
            Some(data) => line_data(line@) == Some(data@),
            None => line_data(line@) is None,
        },
{
    let prefix = text::chars_of("data:");
    assert(line@.skip(0) =~= line@);
    if text::stands_at(line, 0, &prefix) {
        let rest = text::slice_of(line, prefix.len(), line.len());
        assert(rest@ =~= line@.skip(prefix@.len() as int));
        Some(text::trimmed_start(&rest))
    } else {
        None
    }
}

/// Gives the data of an event.
fn data_of_event(event: &Vec<char>) -> (data: Option<String>)
    ensures
        match data {
            Some(data) => event_data(event@) == Some(data@),
            None => event_data(event@) is None,
        },
{
    let parts = split_lines(event);
    let mut data: Vec<String> = Vec::new();
    let ghost all = lines(event@);
    let ghost choice = |line: Seq<char>| line_data(line);
    for i in 0..parts.len()
        invariant
            all == text::parts_view(parts@),
            choice == (|line: Seq<char>| line_data(line)),
            text::texts_view(data@) == text::kept(all.take(i as int), choice),
    {
        let ghost before = text::texts_view(data@);
        proof {
            text::lemma_kept_one_more(all, choice, i as int);
        }
        if let Some(found) = data_of_line(&parts[i]) {
            data.push(text::text_of(&found, 0, found.len()));
            assert(found@.subrange(0, found@.len() as int) =~= found@);
            assert(text::texts_view(data@) =~= before.push(found@));
        }
    }
    assert(all.take(parts@.len() as int) =~= all);
    assert(text::texts_view(data@).len() == data@.len());
    if data.len() == 0 {
        None
    } else {
        Some(text::join(&data, "\n"))
    }
}

/// Gives the data of every event of a stream that has any.
pub fn sse_data_messages(body: &str) -> (messages: Vec<String>)
    ensures
        text::texts_view(messages@) == data_messages(body@),
{
    let mut blank_line: Vec<char> = Vec::new();
    blank_line.push('\n');
    blank_line.push('\n');
    assert(blank_line@ =~= seq!['\n', '\n']);
    let events = text::split_at_pattern(&to_unix_newlines(body), &blank_line);
    let mut messages: Vec<String> = Vec::new();
    let ghost all = text::parts_view(events@);
    let ghost choice = |event: Seq<char>| event_data(event);
    for i in 0..events.len()
        invariant
            all == text::parts_view(events@),
            choice == (|event: Seq<char>| event_data(event)),
            text::texts_view(messages@) == text::kept(all.take(i as int), choice),
    {
        let ghost before = text::texts_view(messages@);
        proof {
            text::lemma_kept_one_more(all, choice, i as int);
        }
        if let Some(data) = data_of_event(&events[i]) {
            messages.push(data);
            assert(text::texts_view(messages@) =~= before.push(data@));
        }
    }
    assert(all.take(events@.len() as int) =~= all);
    messages
}

/// Whether a text can be the data of an event as it stands: a single line that does not begin
/// with white space.
pub open spec fn event_line(data: Seq<char>) -> bool {
    &&& json::single_line(data)
    &&& data.len() > 0
    &&& !text::white_space(data[0])
}

/// Writes an event with the given name and data to a stream. The data takes one line, and where the
/// name does too, the event is read as this data.
pub fn write_sse_event(out: &mut String, event: &str, data: Json)
    ensures
        final(out)@ == old(out)@ + event_text(event@, json::json_text(data@)),
        event_line(json::json_text(data@)),
        data@ is Object ==> json::json_text(data@)[0] == '{',
        json::single_line(event@) ==> data_messages(event_text(event@, json::json_text(data@)))
            == seq![json::json_text(data@)],
        json::exact(data@, 127) ==> json::json_of_text(json::json_text(data@)) == Some(data@),
{
    let data = data.to_text();
    let ghost before = out@;
    out.push_str("event: ");
    out.push_str(event);
    out.push_str("\n");
    out.push_str("data: ");
    out.push_str(data.as_str());
    out.push_str("\n");
    out.push_str("\n");
    assert(out@ =~= before + event_text(event@, data@));
    proof {
        if json::single_line(event@) {
            lemma_one_event(event@, data@);
        }
    }
}

/// Whether a text has no line break of two characters.
pub open spec fn has_short_breaks(body: Seq<char>) -> bool {
    forall|i: int| 0 <= i < body.len() - 1 && #[trigger] body[i] == '\r' ==> body[i + 1] != '\n'
}

/// A text without line breaks of two characters stays as it is.
proof fn lemma_unix_already(body: Seq<char>)
    requires
        has_short_breaks(body),
    ensures
        unix_newlines(body) == body,
    decreases body.len(),
{
    if body.len() > 0 {
        let rest = body.skip(1);
        assert forall|i: int| 0 <= i < rest.len() - 1 && #[trigger] rest[i] == '\r' implies rest[i
            + 1] != '\n' by {
            assert(rest[i] == body[i + 1]);
        }
        lemma_unix_already(rest);
        assert(seq![body[0]] + rest =~= body);
    }
}

/// A stream begins with its first event.
proof fn lemma_stream_first(events: Seq<(Seq<char>, Seq<char>)>)
    requires
        events.len() > 0,
    ensures
        stream_text(events) == event_text(events[0].0, events[0].1) + stream_text(events.skip(1)),
    decreases events.len(),
{
    let rest = events.skip(1);
    if rest.len() == 0 {
        assert(stream_text(events.drop_last()) =~= Seq::<char>::empty());
        assert(stream_text(rest) =~= Seq::<char>::empty());
        assert(stream_text(events) =~= event_text(events[0].0, events[0].1) + stream_text(rest));
    } else {
        lemma_stream_first(events.drop_last());
        assert(events.drop_last().skip(1) =~= rest.drop_last());
        assert(stream_text(events) =~= event_text(events[0].0, events[0].1) + stream_text(rest));
    }
}

/// Whether an event can be written and read: its name is a single line, its data an event line.
pub open spec fn writable(event: (Seq<char>, Seq<char>)) -> bool {
    json::single_line(event.0) && event_line(event.1)
}

/// The lines of an event, before the blank line that ends it.
spec fn event_head(name: Seq<char>, data: Seq<char>) -> Seq<char> {
    "event: "@ + name + "\n"@ + "data: "@ + data
}

/// The data of an event as it is written is the data that was given.
proof fn lemma_event_data(name: Seq<char>, data: Seq<char>)
    requires
        writable((name, data)),
    ensures
        event_data(event_head(name, data)) == Some(data),
{
    reveal_strlit("event: ");
    reveal_strlit("data: ");
    reveal_strlit("data:");
    reveal_strlit("\n");
    let newline = seq!['\n'];
    let head = event_head(name, data);
    let line1 = "event: "@ + name;
    let line2 = "data: "@ + data;
    let k = line1.len() as int;
    assert(head =~= line1 + "\n"@ + line2);
    assert forall|j: int| 0 <= j < k implies !#[trigger] newline.is_prefix_of(head.skip(j)) by {
        assert(head.skip(j).subrange(0, 1)[0] == line1[j]);
        assert(newline[0] == '\n');
        assert(j >= 7 ==> line1[j] == name[j - 7]);
    }
    assert(head[k] == '\n');
    assert(newline =~= head.skip(k).subrange(0, 1));
    text::lemma_found_at(head, newline, k);
    assert(head.take(k) =~= line1);
    assert(without_return(line1) == line1) by {
        if name.len() > 0 {
            assert(line1.last() == name.last());
        }
    }
    assert(head.skip(k + 1) =~= line2);
    assert forall|j: int| 0 <= j <= line2.len() implies !#[trigger] newline.is_prefix_of(
        line2.skip(j),
    ) by {
        if j < line2.len() {
            assert(line2.skip(j).subrange(0, 1)[0] == line2[j]);
            assert(newline[0] == '\n');
            assert(j >= 6 ==> line2[j] == data[j - 6]);
        }
    }
    text::lemma_not_found(line2, newline);
    assert(lines(line2) =~= seq![line2]);
    assert(lines(head) =~= seq![line1, line2]);
    assert(!"data:"@.is_prefix_of(line1)) by {
        assert(line1[0] == 'e');
        assert(line1.subrange(0, 5)[0] != "data:"@[0]);
    }
    assert("data:"@ =~= line2.subrange(0, 5));
    assert("data:"@.is_prefix_of(line2));
    assert(line2.skip(5) =~= seq![' '] + data);
    assert(line2.skip(5).skip(1) =~= data);
    assert(text::trim_start(line2.skip(5)) == data) by {
        reveal_with_fuel(text::trim_start, 3);
    }
    let choice = |line: Seq<char>| line_data(line);
    assert(choice(line1) is None);
    assert(choice(line2) == Some(data));
    let all = seq![line1, line2];
    assert(all =~= seq![line1] + seq![line2]);
    text::lemma_kept_first(line1, seq![line2], choice);
    assert(seq![line2] =~= seq![line2] + Seq::empty());
    text::lemma_kept_first(line2, Seq::empty(), choice);
    assert(text::kept(all, choice) =~= seq![data]);
    assert(text::joined(seq![data], "\n"@) == data);
}

/// Every character of a stream of writable events is no carriage return.
proof fn lemma_stream_has_no_return(events: Seq<(Seq<char>, Seq<char>)>)
    requires
        forall|i: int| 0 <= i < events.len() ==> writable(#[trigger] events[i]),
    ensures
        forall|i: int| 0 <= i < stream_text(events).len() ==> #[trigger] stream_text(events)[i] != '\r',
    decreases events.len(),
{
    if events.len() > 0 {
        reveal_strlit("event: ");
        reveal_strlit("data: ");
        reveal_strlit("\n");
        lemma_stream_has_no_return(events.drop_last());
        let (name, data) = events.last();
        assert(writable(events[events.len() - 1]));
        let before = stream_text(events.drop_last());
        let last = event_text(name, data);
        assert forall|i: int| 0 <= i < last.len() implies #[trigger] last[i] != '\r' by {
            let n = name.len() as int;
            if 7 <= i < 7 + n {
                assert(last[i] == name[i - 7]);
            } else if 14 + n <= i < 14 + n + data.len() {
                assert(last[i] == data[i - 14 - n]);
            }
        }
    }
}

/// The first blank line after the beginning of an event is the one that ends it.
proof fn lemma_no_blank_line_inside(name: Seq<char>, data: Seq<char>, rest: Seq<char>)
    requires
        writable((name, data)),
    ensures
        ({
            let pattern = seq!['\n', '\n'];
            let head = event_head(name, data);
            let body = head + pattern + rest;
            forall|j: int|
                0 <= j < head.len() ==> !#[trigger] pattern.is_prefix_of(body.skip(j))
        }),
{
    reveal_strlit("event: ");
    reveal_strlit("data: ");
    reveal_strlit("\n");
    let pattern = seq!['\n', '\n'];
    let head = event_head(name, data);
    let body = head + pattern + rest;
    let n = name.len() as int;
    assert forall|j: int| 0 <= j < head.len() implies !#[trigger] pattern.is_prefix_of(
        body.skip(j),
    ) by {
        if pattern.is_prefix_of(body.skip(j)) {
            assert(body.skip(j).subrange(0, 2)[0] == pattern[0]);
            assert(body.skip(j).subrange(0, 2)[1] == pattern[1]);
            assert(body[j] == '\n');
            assert(body[j + 1] == '\n');
            assert(body[j] == head[j]);
            if 7 <= j < 7 + n {
                assert(head[j] == name[j - 7]);
            } else if j == 7 + n {
                assert(body[j + 1] == head[j + 1]);
                assert(head[j + 1] == 'd');
            } else if 14 + n <= j {
                assert(head[j] == data[j - 14 - n]);
            }
        }
    }
}

/// Splitting a stream of writable events at blank lines and taking the data of each piece gives
/// the data of each event.
#[verifier::rlimit(30)]
proof fn lemma_split_stream(events: Seq<(Seq<char>, Seq<char>)>)
    requires
        forall|i: int| 0 <= i < events.len() ==> writable(#[trigger] events[i]),
    ensures
        text::kept(
            text::split(stream_text(events), seq!['\n', '\n']),
            |event: Seq<char>| event_data(event),
        ) == events.map_values(|event: (Seq<char>, Seq<char>)| event.1),
    decreases events.len(),
{
    let pattern = seq!['\n', '\n'];
    let choice = |event: Seq<char>| event_data(event);
    let body = stream_text(events);
    if events.len() == 0 {
        assert forall|j: int| 0 <= j <= body.len() implies !#[trigger] pattern.is_prefix_of(
            body.skip(j),
        ) by {}
        text::lemma_not_found(body, pattern);
        assert(text::split(body, pattern) =~= seq![body] + Seq::empty());
        text::lemma_kept_first(body, Seq::empty(), choice);
        assert(text::kept(Seq::<Seq<char>>::empty(), |line: Seq<char>| line_data(line)).len() == 0);
        assert(lines(body) =~= Seq::empty());
        assert(choice(body) is None);
        assert(text::kept(text::split(body, pattern), choice) =~= events.map_values(
            |event: (Seq<char>, Seq<char>)| event.1,
        ));
    } else {
        reveal_strlit("event: ");
        reveal_strlit("data: ");
        reveal_strlit("\n");
        let (name, data) = events[0];
        let rest = events.skip(1);
        let head = event_head(name, data);
        let k = head.len() as int;
        assert forall|i: int| 0 <= i < rest.len() implies writable(#[trigger] rest[i]) by {
            assert(rest[i] == events[i + 1]);
        }
        lemma_split_stream(rest);
        lemma_stream_first(events);
        lemma_event_data(name, data);
        assert(body =~= head + pattern + stream_text(rest));
        lemma_no_blank_line_inside(name, data, stream_text(rest));
        assert(body.skip(k).subrange(0, 2) =~= pattern);
        text::lemma_found_at(body, pattern, k);
        assert(body.take(k) =~= head);
        assert(body.skip(k + 2) =~= stream_text(rest));
        let parts = text::split(stream_text(rest), pattern);
        assert(text::split(body, pattern) =~= seq![head] + parts);
        text::lemma_kept_first(head, parts, choice);
        assert(choice(head) == Some(data));
        assert(seq![data] + rest.map_values(|event: (Seq<char>, Seq<char>)| event.1)
            =~= events.map_values(|event: (Seq<char>, Seq<char>)| event.1));
    }
}

/// Reading a stream gives back the data of the events that were written to it, each once and in
/// order.
pub proof fn law_stream_reads_back(events: Seq<(Seq<char>, Seq<char>)>)
    requires
        forall|i: int| 0 <= i < events.len() ==> writable(#[trigger] events[i]),
    ensures
        data_messages(stream_text(events)) == events.map_values(
            |event: (Seq<char>, Seq<char>)| event.1,
        ),
{
    lemma_stream_has_no_return(events);
    lemma_unix_already(stream_text(events));
    lemma_split_stream(events);
}

/// A stream with an event in it is recognised as a stream.
pub proof fn law_stream_is_recognised(events: Seq<(Seq<char>, Seq<char>)>)
    requires
        events.len() > 0,
    ensures
        sse_like(stream_text(events)),
{
    reveal_strlit("event: ");
    reveal_strlit("event:");
    lemma_stream_first(events);
    let body = stream_text(events);
    assert(body[0] == 'e');
    assert(text::trim_start(body) == body);
    assert("event:"@ =~= body.subrange(0, 6));
}

/// A stream of one event is read as its data.
proof fn lemma_one_event(name: Seq<char>, data: Seq<char>)
    requires
        writable((name, data)),
    ensures
        data_messages(event_text(name, data)) == seq![data],
{
    let events = seq![(name, data)];
    assert(events.drop_last() =~= Seq::empty());
    assert(stream_text(events.drop_last()) =~= Seq::<char>::empty());
    assert(stream_text(events) =~= event_text(name, data));
    law_stream_reads_back(events);
    assert(events.map_values(|event: (Seq<char>, Seq<char>)| event.1) =~= seq![data]);
}

/// White space in front of a body does not matter for whether it is an event stream.
pub proof fn law_leading_blanks_do_not_matter(blanks: Seq<char>, body: Seq<char>)
    requires
        text::blank(blanks),
    ensures
        sse_like(blanks + body) == sse_like(body),
{
    text::lemma_trim_blank(blanks, body);
}

/// No JSON text is taken for an event stream.
pub proof fn law_json_is_no_stream(body: Seq<char>)
    requires
        json::json_of_text(body) is Some,
    ensures
        !sse_like(body),
{
    reveal_strlit("data:");
    reveal_strlit("event:");
    let start = text::trim_start(body);
    if "data:"@.is_prefix_of(start) {
        assert(start.subrange(0, 5)[0] == 'd');
    }
    if "event:"@.is_prefix_of(start) {
        assert(start.subrange(0, 6)[0] == 'e');
    }
}

/// Whether no event of a stream goes on behind a text: it is empty, or it ends with a blank line.
pub open spec fn ends_event(body: Seq<char>) -> bool {
    ||| body.len() == 0
    ||| seq!['\n', '\n'].is_suffix_of(body)
    ||| seq!['\n', '\r', '\n'].is_suffix_of(body)
}

/// Line breaks of parts are those of the whole, unless one is cut in two.
proof fn lemma_unix_parts(a: Seq<char>, b: Seq<char>)
    requires
        a.len() > 0 && b.len() > 0 ==> a.last() != '\r' || b[0] != '\n',
    ensures
        unix_newlines(a + b) == unix_newlines(a) + unix_newlines(b),
    decreases a.len(),
{
    let whole = a + b;
    if a.len() == 0 {
        assert(whole =~= b);
        assert(unix_newlines(a) + unix_newlines(b) =~= unix_newlines(b));
    } else if a.len() >= 2 && a[0] == '\r' && a[1] == '\n' {
        assert(whole.skip(2) =~= a.skip(2) + b);
        lemma_unix_parts(a.skip(2), b);
        assert(unix_newlines(whole) =~= unix_newlines(a) + unix_newlines(b));
    } else {
        assert(whole.skip(1) =~= a.skip(1) + b);
        assert(!(whole.len() >= 2 && whole[0] == '\r' && whole[1] == '\n'));
        lemma_unix_parts(a.skip(1), b);
        assert(unix_newlines(whole) =~= unix_newlines(a) + unix_newlines(b));
    }
}

/// A line break at the end stays one.
proof fn lemma_unix_last(body: Seq<char>)
    requires
        body.len() > 0,
        body.last() == '\n',
    ensures
        unix_newlines(body).len() > 0,
        unix_newlines(body).last() == '\n',
    decreases body.len(),
{
    if body.len() >= 2 && body[0] == '\r' && body[1] == '\n' {
        if body.len() > 2 {
            lemma_unix_last(body.skip(2));
        } else {
            assert(unix_newlines(body.skip(2)) =~= Seq::empty());
        }
    } else if body.len() > 1 {
        lemma_unix_last(body.skip(1));
    } else {
        assert(unix_newlines(body.skip(1)) =~= Seq::empty());
    }
}

/// Whether a text is empty or ends with two line breaks of one character.
spec fn ends_blank(body: Seq<char>) -> bool {
    ||| body.len() == 0
    ||| body.len() >= 2 && body[body.len() - 1] == '\n' && body[body.len() - 2] == '\n'
}

/// A blank line at the end stays one.
proof fn lemma_unix_ends_event(body: Seq<char>)
    requires
        ends_event(body),
    ensures
        ends_blank(unix_newlines(body)),
        body.len() > 0 ==> body.last() == '\n',
{
    if body.len() > 0 {
        let short = seq!['\n', '\n'];
        let long = seq!['\n', '\r', '\n'];
        let n = body.len() as int;
        if short.is_suffix_of(body) {
            let end = body.subrange(n - 2, n);
            assert(end == short);
            assert(body[n - 1] == end[1] && body[n - 2] == end[0]);
            let (a, b) = (body.take(n - 1), seq!['\n']);
            assert(body =~= a + b);
            lemma_unix_parts(a, b);
            lemma_unix_last(a);
            assert(unix_newlines(b.skip(1)) =~= Seq::empty());
            assert(unix_newlines(b) =~= b);
        } else {
            let end = body.subrange(n - 3, n);
            assert(end == long);
            assert(body[n - 1] == end[2] && body[n - 2] == end[1] && body[n - 3] == end[0]);
            let (a, b) = (body.take(n - 2), seq!['\r', '\n']);
            assert(body =~= a + b);
            lemma_unix_parts(a, b);
            lemma_unix_last(a);
            assert(unix_newlines(b.skip(2)) =~= Seq::empty());
            assert(unix_newlines(b) =~= seq!['\n']);
        }
    }
}

/// A line break in front of an event does not change its data.
proof fn lemma_newline_before_event(event: Seq<char>)
    ensures
        event_data(seq!['\n'] + event) == event_data(event),
{
    reveal_strlit("data:");
    let newline = seq!['\n'];
    let more = newline + event;
    let empty = Seq::<char>::empty();
    let choice = |line: Seq<char>| line_data(line);
    assert(newline =~= more.subrange(0, 1));
    assert(text::find(more, newline) == Some(0int));
    assert(more.take(0) =~= empty);
    assert(more.skip(1) =~= event);
    assert(lines(more) =~= seq![empty] + lines(event));
    text::lemma_kept_first(empty, lines(event), choice);
    assert(choice(empty) is None);
}

/// An empty text has no data.
proof fn lemma_no_event()
    ensures
        event_data(Seq::empty()) is None,
        split_messages(Seq::empty()) == Seq::<Seq<char>>::empty(),
{
    let empty = Seq::<char>::empty();
    let pattern = seq!['\n', '\n'];
    let choice = |event: Seq<char>| event_data(event);
    assert(text::kept(Seq::<Seq<char>>::empty(), |line: Seq<char>| line_data(line)).len() == 0);
    assert(lines(empty) =~= Seq::empty());
    text::lemma_find_bounds(empty, pattern);
    assert(text::split(empty, pattern) =~= seq![empty] + Seq::empty());
    text::lemma_kept_first(empty, Seq::empty(), choice);
    assert(choice(empty) is None);
    assert(split_messages(empty) =~= Seq::empty());
}

/// A line break in front of a stream does not change its messages.
proof fn lemma_newline_before_stream(body: Seq<char>)
    ensures
        split_messages(seq!['\n'] + body) == split_messages(body),
    decreases body.len(),
{
    let pattern = seq!['\n', '\n'];
    let choice = |event: Seq<char>| event_data(event);
    let more = seq!['\n'] + body;
    assert(more.skip(1) =~= body);
    if body.len() > 0 && body[0] == '\n' {
        let rest = body.skip(1);
        let empty = Seq::<char>::empty();
        assert(body =~= seq!['\n'] + rest);
        lemma_newline_before_stream(rest);
        assert(pattern =~= more.subrange(0, 2));
        assert(text::find(more, pattern) == Some(0int));
        assert(more.take(0) =~= empty);
        assert(more.skip(2) =~= rest);
        assert(text::split(more, pattern) =~= seq![empty] + text::split(rest, pattern));
        text::lemma_kept_first(empty, text::split(rest, pattern), choice);
        lemma_no_event();
        assert(choice(empty) is None);
    } else {
        assert(!pattern.is_prefix_of(more)) by {
            if pattern.is_prefix_of(more) {
                assert(more.subrange(0, 2)[1] == pattern[1]);
            }
        }
        text::lemma_find_bounds(body, pattern);
        match text::find(body, pattern) {
            Some(k) => {
                let (first, rest) = (body.take(k), body.skip(k + 2));
                lemma_newline_before_event(first);
                assert(more.take(k + 1) =~= seq!['\n'] + first);
                assert(more.skip(k + 3) =~= rest);
                let parts = text::split(rest, pattern);
                text::lemma_kept_first(first, parts, choice);
                text::lemma_kept_first(seq!['\n'] + first, parts, choice);
                assert(choice(first) == choice(seq!['\n'] + first));
                assert(text::split(body, pattern) == seq![first] + parts);
                assert(text::split(more, pattern) == seq![seq!['\n'] + first] + parts);
            },
            None => {
                lemma_newline_before_event(body);
                text::lemma_kept_first(body, Seq::empty(), choice);
                text::lemma_kept_first(more, Seq::empty(), choice);
                assert(choice(body) == choice(more));
                assert(text::split(body, pattern) =~= seq![body] + Seq::empty());
                assert(text::split(more, pattern) =~= seq![more] + Seq::empty());
            },
        }
    }
}

/// Behind a blank line a stream is read on its own.
proof fn lemma_split_parts(a: Seq<char>, b: Seq<char>)
    requires
        ends_blank(a),
    ensures
        split_messages(a + b) == split_messages(a) + split_messages(b),
    decreases a.len(),
{
    let pattern = seq!['\n', '\n'];
    let choice = |event: Seq<char>| event_data(event);
    if a.len() == 0 {
        lemma_no_event();
        assert(a =~= Seq::empty());
        assert(a + b =~= b);
        assert(split_messages(a) + split_messages(b) =~= split_messages(b));
    } else {
        let n = a.len() as int;
        assert(pattern =~= a.skip(n - 2).subrange(0, 2));
        text::lemma_find_some(a, pattern, n - 2);
        text::lemma_find_bounds(a, pattern);
        text::lemma_find_before_more(a, b, pattern);
        let k = text::find(a, pattern)->Some_0;
        let (first, rest) = (a.take(k), a.skip(k + 2));
        assert((a + b).take(k) =~= first);
        assert((a + b).skip(k + 2) =~= rest + b);
        text::lemma_kept_first(first, text::split(rest, pattern), choice);
        text::lemma_kept_first(first, text::split(rest + b, pattern), choice);
        if rest.len() == 1 {
            assert(rest =~= seq!['\n']);
            assert(rest =~= seq!['\n'] + Seq::<char>::empty());
            lemma_newline_before_stream(b);
            lemma_newline_before_stream(Seq::empty());
            lemma_no_event();
            assert(split_messages(rest) + split_messages(b) =~= split_messages(b));
        } else {
            lemma_split_parts(rest, b);
        }
        assert(split_messages(a + b) =~= split_messages(a) + split_messages(b));
    }
}

/// Behind a blank line a stream is read on its own: its messages are those of the part before and
/// then those of the part behind.
pub proof fn law_messages_of_parts(a: Seq<char>, b: Seq<char>)
    requires
        ends_event(a),
    ensures
        data_messages(a + b) == data_messages(a) + data_messages(b),
{
    lemma_unix_ends_event(a);
    lemma_unix_parts(a, b);
    lemma_split_parts(unix_newlines(a), unix_newlines(b));
}

/// An event that is nothing but data.
pub open spec fn data_event(data: Seq<char>) -> Seq<char> {
    "data: "@ + data + "\n\n"@
}

/// A stream of events that are nothing but data.
pub open spec fn data_stream(data: Seq<Seq<char>>) -> Seq<char>
    decreases data.len(),
{
    if data.len() == 0 {
        Seq::empty()
    } else {
        data_stream(data.drop_last()) + data_event(data.last())
    }
}

/// The data on the only line of an event is its data.
proof fn lemma_data_line(data: Seq<char>)
    requires
        event_line(data),
    ensures
        event_data("data: "@ + data) == Some(data),
        event_data("data: "@ + data + "\n"@) == Some(data),
{
    reveal_strlit("data: ");
    reveal_strlit("data:");
    reveal_strlit("\n");
    let newline = seq!['\n'];
    let line = "data: "@ + data;
    let ended = line + "\n"@;
    let n = line.len() as int;
    assert forall|j: int| 0 <= j < n implies line[j] != '\n' && line[j] != '\r' by {
        assert(j >= 6 ==> line[j] == data[j - 6]);
    }
    assert forall|j: int| 0 <= j <= n implies !#[trigger] newline.is_prefix_of(line.skip(j)) by {
        if newline.is_prefix_of(line.skip(j)) {
            assert(line.skip(j).subrange(0, 1)[0] == line[j]);
            assert(newline[0] == '\n');
        }
    }
    text::lemma_not_found(line, newline);
    assert forall|j: int| 0 <= j < n implies !#[trigger] newline.is_prefix_of(ended.skip(j)) by {
        if newline.is_prefix_of(ended.skip(j)) {
            assert(ended.skip(j).subrange(0, 1)[0] == line[j]);
            assert(newline[0] == '\n');
        }
    }
    assert(newline =~= ended.skip(n).subrange(0, 1));
    text::lemma_found_at(ended, newline, n);
    assert(ended.take(n) =~= line);
    assert(line.last() != '\r');
    assert(ended.skip(n + 1) =~= Seq::empty());
    assert(lines(ended.skip(n + 1)) =~= Seq::empty());
    assert(lines(line) =~= seq![line]);
    assert(lines(ended) =~= seq![line]);
    assert("data:"@ =~= line.subrange(0, 5));
    assert(line.skip(5) =~= seq![' '] + data);
    assert(line.skip(5).skip(1) =~= data);
    assert(text::trim_start(line.skip(5)) == data) by {
        reveal_with_fuel(text::trim_start, 3);
    }
    let choice = |line: Seq<char>| line_data(line);
    assert(choice(line) == Some(data));
    text::lemma_kept_first(line, Seq::empty(), choice);
    assert(seq![line] + Seq::empty() =~= seq![line]);
    assert(text::kept(seq![line], choice) =~= seq![data]);
    assert(text::joined(seq![data], "\n"@) == data);
}

/// Data at the end of a stream is read, whether a blank line comes behind it or not.
pub proof fn law_data_is_read(data: Seq<char>)
    requires
        event_line(data),
    ensures
        data_messages("data: "@ + data) == seq![data],
        data_messages("data: "@ + data + "\n"@) == seq![data],
        data_messages(data_event(data)) == seq![data],
{
    reveal_strlit("data: ");
    reveal_strlit("\n");
    reveal_strlit("\n\n");
    let pattern = seq!['\n', '\n'];
    let choice = |event: Seq<char>| event_data(event);
    let line = "data: "@ + data;
    let ended = line + "\n"@;
    let whole = data_event(data);
    let n = line.len() as int;
    assert forall|j: int| 0 <= j < n implies #[trigger] line[j] != '\n' && line[j] != '\r' by {
        assert(j >= 6 ==> line[j] == data[j - 6]);
    }
    assert forall|i: int| 0 <= i < ended.len() implies #[trigger] ended[i] != '\r' by {
        assert(i < n ==> ended[i] == line[i]);
    }
    assert forall|i: int| 0 <= i < whole.len() implies #[trigger] whole[i] != '\r' by {
        assert(i < n ==> whole[i] == line[i]);
    }
    lemma_unix_already(line);
    lemma_unix_already(ended);
    lemma_unix_already(whole);
    assert forall|j: int| 0 <= j <= line.len() implies !#[trigger] pattern.is_prefix_of(
        line.skip(j),
    ) by {
        if pattern.is_prefix_of(line.skip(j)) {
            assert(line.skip(j).subrange(0, 2)[0] == line[j]);
            assert(pattern[0] == '\n');
        }
    }
    assert forall|j: int| 0 <= j <= ended.len() implies !#[trigger] pattern.is_prefix_of(
        ended.skip(j),
    ) by {
        if pattern.is_prefix_of(ended.skip(j)) {
            assert(j < n);
            assert(ended.skip(j).subrange(0, 2)[0] == line[j]);
            assert(pattern[0] == '\n');
        }
    }
    assert forall|j: int| 0 <= j < n implies !#[trigger] pattern.is_prefix_of(whole.skip(j)) by {
        if pattern.is_prefix_of(whole.skip(j)) {
            assert(whole.skip(j).subrange(0, 2)[0] == line[j]);
            assert(pattern[0] == '\n');
        }
    }
    text::lemma_not_found(line, pattern);
    text::lemma_not_found(ended, pattern);
    assert(pattern =~= whole.skip(n).subrange(0, 2));
    text::lemma_found_at(whole, pattern, n);
    assert(whole.take(n) =~= line);
    assert(whole.skip(n + 2) =~= Seq::empty());
    lemma_data_line(data);
    lemma_no_event();
    let end = text::split(Seq::<char>::empty(), pattern);
    text::lemma_kept_first(line, Seq::empty(), choice);
    text::lemma_kept_first(ended, Seq::empty(), choice);
    text::lemma_kept_first(line, end, choice);
    assert(text::split(line, pattern) =~= seq![line] + Seq::empty());
    assert(text::split(ended, pattern) =~= seq![ended] + Seq::empty());
    assert(text::split(whole, pattern) == seq![line] + end);
    assert(choice(line) == Some(data) && choice(ended) == Some(data));
    assert(text::kept(end, choice) == split_messages(Seq::empty()));
    assert(split_messages(line) =~= seq![data]);
    assert(split_messages(ended) =~= seq![data]);
    assert(split_messages(whole) =~= seq![data]);
}

/// Reading a stream of data gives this data, each once and in order, and no event goes on behind it.
pub proof fn law_data_stream_reads_back(data: Seq<Seq<char>>)
    requires
        forall|i: int| 0 <= i < data.len() ==> event_line(#[trigger] data[i]),
    ensures
        data_messages(data_stream(data)) == data,
        ends_event(data_stream(data)),
    decreases data.len(),
{
    if data.len() == 0 {
        lemma_no_event();
        assert(unix_newlines(data_stream(data)) =~= Seq::empty());
        assert(data =~= Seq::empty());
    } else {
        reveal_strlit("\n\n");
        let before = data.drop_last();
        assert forall|i: int| 0 <= i < before.len() implies event_line(#[trigger] before[i]) by {
            assert(before[i] == data[i]);
        }
        law_data_stream_reads_back(before);
        assert(event_line(data[data.len() - 1]));
        law_data_is_read(data.last());
        law_messages_of_parts(data_stream(before), data_event(data.last()));
        assert(before + seq![data.last()] =~= data);
        let body = data_stream(data);
        let n = body.len() as int;
        assert(seq!['\n', '\n'] =~= body.subrange(n - 2, n));
    }
}

/// A stream that begins with data is recognised as a stream.
pub proof fn law_data_stream_is_recognised(data: Seq<Seq<char>>, rest: Seq<char>)
    requires
        data.len() > 0,
    ensures
        sse_like(data_stream(data) + rest),
    decreases data.len(),
{
    reveal_strlit("data: ");
    reveal_strlit("data:");
    if data.len() == 1 {
        assert(data_stream(data.drop_last()) =~= Seq::<char>::empty());
        let body = data_stream(data) + rest;
        assert(body[0] == 'd');
        assert(text::trim_start(body) == body);
        assert("data:"@ =~= body.subrange(0, 5));
    } else {
        let last = data_event(data.last());
        law_data_stream_is_recognised(data.drop_last(), last + rest);
        assert(data_stream(data) + rest =~= data_stream(data.drop_last()) + (last + rest));
    }
}

/// A stream with one event more has behind the rest a line with the name, a line with the data and a
/// blank line.
pub proof fn law_events_are_written_line_by_line(
    events: Seq<(Seq<char>, Seq<char>)>,
    name: Seq<char>,
    data: Seq<char>,
)
    ensures
        stream_text(Seq::empty()).len() == 0,
        event_text(name, data) == "event: "@ + name + seq!['\n'] + "data: "@ + data
            + seq!['\n', '\n'],
        stream_text(events.push((name, data))) == stream_text(events) + event_text(name, data),
{
    reveal_strlit("\n");
    assert(events.push((name, data)).drop_last() =~= events);
    assert(event_text(name, data) =~= "event: "@ + name + seq!['\n'] + "data: "@ + data
        + seq!['\n', '\n']);
}

/// A body is taken for a stream exactly where it begins with one of two words behind the white
/// space.
pub proof fn law_streams_begin_with_data_or_event(blanks: Seq<char>, rest: Seq<char>)
    requires
        text::blank(blanks),
        rest.len() == 0 || !text::white_space(rest[0]),
    ensures
        sse_like(blanks + rest) <==> ((rest.len() >= 5 && rest.take(5) == seq![
            'd',
            'a',
            't',
            'a',
            ':',
        ]) || (rest.len() >= 6 && rest.take(6) == seq!['e', 'v', 'e', 'n', 't', ':'])),
{
    reveal_strlit("data:");
    reveal_strlit("event:");
    text::lemma_trim_blank(blanks, rest);
    assert(text::trim_start(rest) == rest);
    assert("data:"@ =~= seq!['d', 'a', 't', 'a', ':']);
    assert("event:"@ =~= seq!['e', 'v', 'e', 'n', 't', ':']);
    assert(rest.len() >= 5 ==> rest.take(5) =~= rest.subrange(0, 5));
    assert(rest.len() >= 6 ==> rest.take(6) =~= rest.subrange(0, 6));
}

/// A line break of two characters is one.
pub proof fn law_line_breaks_of_two_characters(a: Seq<char>, b: Seq<char>)
    requires
        a.len() > 0 ==> a.last() != '\r',
    ensures
        data_messages(a + seq!['\r', '\n'] + b) == data_messages(a + seq!['\n'] + b),
{
    let (long, short) = (seq!['\r', '\n'] + b, seq!['\n'] + b);
    assert(a + seq!['\r', '\n'] + b =~= a + long);
    assert(a + seq!['\n'] + b =~= a + short);
    lemma_unix_parts(a, long);
    lemma_unix_parts(a, short);
    assert(long.skip(2) =~= b);
    assert(short.skip(1) =~= b);
}

/// The data of an event comes from its lines one by one: a line that begins with `data:` gives what
/// comes behind, without the white space in front, and a line break stands between the data of two
/// such lines. Any other line gives nothing. A carriage return in front of the line break belongs to
/// it.
pub proof fn law_data_of_an_event_line_by_line(line: Seq<char>, rest: Seq<char>)
    requires
        forall|i: int| 0 <= i < line.len() ==> #[trigger] line[i] != '\n',
    ensures
        ({
            let word = seq!['d', 'a', 't', 'a', ':'];
            let whole = line + seq!['\n'] + rest;
            let returned = line + seq!['\r', '\n'] + rest;
            &&& event_data(Seq::empty()) is None
            &&& (line.len() == 0 || line.last() != '\r') ==> event_data(returned) == event_data(whole)
            &&& if line.len() >= 5 && line.take(5) == word {
                let own = text::trim_start(line.skip(5));
                &&& event_data(line) == Some(own)
                &&& line.last() != '\r' ==> match event_data(rest) {
                    Some(more) => event_data(whole) == Some(own + seq!['\n'] + more),
                    None => event_data(whole) == Some(own),
                }
            } else {
                &&& event_data(line) is None
                &&& (line.len() == 0 || line.last() != '\r') ==> event_data(whole) == event_data(rest)
            }
        }),
{
    reveal_strlit("data:");
    reveal_strlit("\n");
    let word = seq!['d', 'a', 't', 'a', ':'];
    assert("data:"@ =~= word);
    assert("\n"@ =~= seq!['\n']);
    let newline = seq!['\n'];
    let whole = line + newline + rest;
    let n = line.len() as int;
    let choice = |line: Seq<char>| line_data(line);
    lemma_no_event();
    assert forall|j: int| 0 <= j < n implies !#[trigger] newline.is_prefix_of(whole.skip(j)) by {
        if newline.is_prefix_of(whole.skip(j)) {
            assert(whole.skip(j).subrange(0, 1)[0] == line[j]);
            assert(newline[0] == '\n');
        }
    }
    assert(newline =~= whole.skip(n).subrange(0, 1));
    text::lemma_found_at(whole, newline, n);
    assert(whole.take(n) =~= line);
    assert(whole.skip(n + 1) =~= rest);
    let full = without_return(line);
    assert(lines(whole) == seq![full] + lines(rest));
    let returned = line + seq!['\r', '\n'] + rest;
    assert forall|j: int| 0 <= j < n + 1 implies !#[trigger] newline.is_prefix_of(
        returned.skip(j),
    ) by {
        if newline.is_prefix_of(returned.skip(j)) {
            assert(returned.skip(j).subrange(0, 1)[0] == returned[j]);
            assert(newline[0] == '\n');
            assert(j < n ==> returned[j] == line[j]);
        }
    }
    assert(newline =~= returned.skip(n + 1).subrange(0, 1));
    text::lemma_found_at(returned, newline, n + 1);
    assert(returned.take(n + 1) =~= line.push('\r'));
    assert(without_return(line.push('\r')) =~= line);
    assert(returned.skip(n + 2) =~= rest);
    assert(lines(returned) == seq![line] + lines(rest));
    if n == 0 || line.last() != '\r' {
        assert(lines(whole) == lines(returned));
    }
    text::lemma_kept_first(line, lines(rest), choice);
    assert forall|j: int| 0 <= j <= n implies !#[trigger] newline.is_prefix_of(line.skip(j)) by {
        if newline.is_prefix_of(line.skip(j)) {
            assert(line.skip(j).subrange(0, 1)[0] == line[j]);
            assert(newline[0] == '\n');
        }
    }
    text::lemma_not_found(line, newline);
    let none = Seq::<Seq<char>>::empty();
    text::lemma_kept_first(line, none, choice);
    assert(seq![line] + none =~= seq![line]);
    let more = text::kept(lines(rest), choice);
    assert(line.len() >= 5 ==> line.take(5) =~= line.subrange(0, 5));
    assert(word.is_prefix_of(line) <==> (line.len() >= 5 && line.take(5) == word));
    assert(choice(line) == line_data(line));
    if n == 0 {
        assert(line =~= Seq::empty());
    } else {
        assert(lines(line) =~= seq![line]);
    }
    if word.is_prefix_of(line) {
        let own = text::trim_start(line.skip(5));
        assert(text::kept(none, choice).len() == 0);
        assert(seq![own] + text::kept(none, choice) =~= seq![own]);
        assert(text::joined(seq![own], "\n"@) == own);
        if more.len() > 0 {
            text::lemma_joined_first(own, more, "\n"@);
        } else {
            assert(seq![own] + more =~= seq![own]);
        }
    }
}

/// A blank line ends an event: the messages of a stream are the data of its first event, where it
/// has any, and then the messages of the rest.
#[verifier::rlimit(40)]
pub proof fn law_a_blank_line_ends_an_event(event: Seq<char>, rest: Seq<char>)
    requires
        has_short_breaks(event),
        event.len() > 0 ==> event.last() != '\n' && event.last() != '\r',
        text::find(event, seq!['\n', '\n']) is None,
    ensures
        data_messages(event + seq!['\n', '\n'] + rest) == (match event_data(event) {
            Some(data) => seq![data],
            None => Seq::empty(),
        }) + data_messages(rest),
        data_messages(event) == (match event_data(event) {
            Some(data) => seq![data],
            None => Seq::empty(),
        }),
{
    let pattern = seq!['\n', '\n'];
    let choice = |event: Seq<char>| event_data(event);
    let ended = event + pattern;
    let n = event.len() as int;
    assert(ended + rest =~= event + pattern + rest);
    assert(pattern =~= ended.subrange(n, n + 2));
    assert(ends_event(ended));
    law_messages_of_parts(ended, rest);
    assert forall|i: int| 0 <= i < ended.len() - 1 && #[trigger] ended[i] == '\r' implies ended[i
        + 1] != '\n' by {
        assert(i < n ==> ended[i] == event[i]);
        assert(i + 1 < n ==> ended[i + 1] == event[i + 1]);
    }
    lemma_unix_already(event);
    lemma_unix_already(ended);
    assert forall|j: int| 0 <= j < n implies !#[trigger] pattern.is_prefix_of(ended.skip(j)) by {
        if pattern.is_prefix_of(ended.skip(j)) {
            assert(ended.skip(j).subrange(0, 2) =~= pattern);
            assert(ended.skip(j).subrange(0, 2)[0] == ended[j]);
            assert(ended[j] == event[j] && pattern[0] == '\n');
            assert(j < n - 1);
            assert(event.skip(j).subrange(0, 2) =~= ended.skip(j).subrange(0, 2));
            text::lemma_find_some(event, pattern, j);
        }
    }
    assert(pattern =~= ended.skip(n).subrange(0, 2));
    text::lemma_found_at(ended, pattern, n);
    assert(ended.take(n) =~= event);
    assert(ended.skip(n + 2) =~= Seq::empty());
    lemma_no_event();
    let end = text::split(Seq::<char>::empty(), pattern);
    let none = Seq::<Seq<char>>::empty();
    text::lemma_kept_first(event, end, choice);
    text::lemma_kept_first(event, none, choice);
    assert(text::split(ended, pattern) == seq![event] + end);
    assert(text::split(event, pattern) =~= seq![event] + none);
    assert(text::kept(end, choice) == split_messages(Seq::empty()));
    assert(choice(event) == event_data(event));
    let own = match event_data(event) {
        Some(data) => seq![data],
        None => Seq::empty(),
    };
    assert(split_messages(ended) =~= own);
    assert(split_messages(event) =~= own);
}

/// A line break in front of a stream does not matter.
pub proof fn law_a_line_break_in_front_does_not_matter(body: Seq<char>)
    ensures
        data_messages(seq!['\n'] + body) == data_messages(body),
        data_messages(Seq::empty()).len() == 0,
{
    let more = seq!['\n'] + body;
    assert(more.skip(1) =~= body);
    lemma_newline_before_stream(unix_newlines(body));
    lemma_no_event();
}

} // verus!
