//! Server-Sent Events: the `text/event-stream` wire format.

use vstd::prelude::*;

use crate::chars::{decimal, push_chars, push_decimal, push_str, split_chars, split_seq};
use crate::text::{chars_to_string, str_chars};

verus! {

/// One server-sent event, built fluently:
/// `Event::new().event("price").data("42").id("stock-1").retry(5000)`.
#[derive(Debug, Clone)]
pub struct Event {
    event: Option<String>,
    data: Option<String>,
    id: Option<String>,
    retry: Option<u64>,
    comment: Option<String>,
}

/// The fields of an [`Event`].
pub struct EventView {
    /// The `event:` field.
    pub event: Option<Seq<char>>,
    /// The `data:` field; lines separated by `\n`.
    pub data: Option<Seq<char>>,
    /// The `id:` field.
    pub id: Option<Seq<char>>,
    /// The `retry:` field, in milliseconds.
    pub retry: Option<u64>,
    /// A comment line.
    pub comment: Option<Seq<char>>,
}

/// The text of an optional string.
pub open spec fn opt_text(o: Option<String>) -> Option<Seq<char>> {
    match o {
        Some(s) => Some(s@),
        None => None,
    }
}

impl View for Event {
    type V = EventView;

    closed spec fn view(&self) -> EventView {
        EventView {
            event: opt_text(self.event),
            data: opt_text(self.data),
            id: opt_text(self.id),
            retry: self.retry,
            comment: opt_text(self.comment),
        }
    }
}

/// One `<field>:<value>` line.
pub open spec fn field_line(name: Seq<char>, value: Seq<char>) -> Seq<char> {
    name + seq![':'] + value + seq!['\n']
}

/// The `data:` lines, one per line of the data.
pub open spec fn data_lines(lines: Seq<Seq<char>>) -> Seq<char>
    decreases lines.len(),
{
    if lines.len() == 0 {
        Seq::empty()
    } else {
        data_lines(lines.drop_last()) + field_line("data"@, lines.last())
    }
}

/// The wire format of an event: the comment, `event`, `id`, `retry` and
/// `data` lines (each present field, in this order; one `data:` line per
/// line of data), then a blank line.
pub open spec fn render_spec(e: EventView) -> Seq<char> {
    (match e.comment {
        Some(c) => seq![':'] + c + seq!['\n'],
        None => Seq::empty(),
    }) + (match e.event {
        Some(v) => field_line("event"@, v),
        None => Seq::empty(),
    }) + (match e.id {
        Some(v) => field_line("id"@, v),
        None => Seq::empty(),
    }) + (match e.retry {
        Some(r) => field_line("retry"@, decimal(r as nat)),
        None => Seq::empty(),
    }) + (match e.data {
        Some(d) => data_lines(split_seq(d, '\n')),
        None => Seq::empty(),
    }) + seq!['\n']
}

/// A comment only adds its own `:` line in front: every other line of the
/// event is rendered exactly as it is without the comment.
pub proof fn lemma_comment_only_prefixes(e: EventView, c: Seq<char>)
    ensures
        render_spec(EventView { comment: Some(c), ..e }) == seq![':'] + c + seq!['\n'] + render_spec(
            EventView { comment: None, ..e },
        ),
{
    let with = EventView { comment: Some(c), ..e };
    let without = EventView { comment: None, ..e };
    assert(render_spec(with) =~= seq![':'] + c + seq!['\n'] + render_spec(without));
}

/// Naming an event (with no comment) adds its `event:` line in front of
/// everything else; giving an id to an unnamed event without comment adds
/// its `id:` line in front in the same way.
pub proof fn lemma_name_and_id_lines_lead(e: EventView, name: Seq<char>, id: Seq<char>)
    ensures
        render_spec(EventView { comment: None, event: Some(name), ..e }) == field_line("event"@, name)
            + render_spec(EventView { comment: None, event: None, ..e }),
        render_spec(EventView { comment: None, event: None, id: Some(id), ..e }) == field_line(
            "id"@,
            id,
        ) + render_spec(EventView { comment: None, event: None, id: None, ..e }),
{
    assert(render_spec(EventView { comment: None, event: Some(name), ..e }) =~= field_line(
        "event"@,
        name,
    ) + render_spec(EventView { comment: None, event: None, ..e }));
    assert(render_spec(EventView { comment: None, event: None, id: Some(id), ..e }) =~= field_line(
        "id"@,
        id,
    ) + render_spec(EventView { comment: None, event: None, id: None, ..e }));
}

/// An event with data ends with one `data:` line per line of its data,
/// then the blank line, whatever else the event carries.
pub proof fn lemma_data_lines_end_the_event(e: EventView)
    requires
        e.data is Some,
    ensures
        ({
            let tail = data_lines(split_seq(e.data->0, '\n')) + seq!['\n'];
            let r = render_spec(e);
            r.len() >= tail.len() && r.subrange(r.len() - tail.len(), r.len() as int) == tail
        }),
{
    let tail = data_lines(split_seq(e.data->0, '\n')) + seq!['\n'];
    let head = (match e.comment {
        Some(c) => seq![':'] + c + seq!['\n'],
        None => Seq::empty(),
    }) + (match e.event {
        Some(v) => field_line("event"@, v),
        None => Seq::empty(),
    }) + (match e.id {
        Some(v) => field_line("id"@, v),
        None => Seq::empty(),
    }) + (match e.retry {
        Some(r) => field_line("retry"@, decimal(r as nat)),
        None => Seq::empty(),
    });
    let r = render_spec(e);
    assert(r =~= head + tail);
    assert(r.subrange(r.len() - tail.len(), r.len() as int) =~= tail);
}

/// The data after one more `data` call.
pub open spec fn appended_data(old: Option<Seq<char>>, line: Seq<char>) -> Option<Seq<char>> {
    match old {
        Some(d) => Some(d + seq!['\n'] + line),
        None => Some(line),
    }
}

impl Default for Event {
    fn default() -> (e: Event)
        ensures
            e@ == (EventView { event: None, data: None, id: None, retry: None, comment: None }),
    {
        Event::new()
    }
}

fn push_field(out: &mut Vec<char>, name: &str, value: &str)
    ensures
        final(out)@ == old(out)@ + field_line(name@, value@),
{
    push_str(out, name);
    out.push(':');
    push_str(out, value);
    out.push('\n');
    assert(final(out)@ =~= old(out)@ + field_line(name@, value@));
}

impl Event {
    /// An empty event.
    pub fn new() -> (e: Event)
        ensures
            e@ == (EventView { event: None, data: None, id: None, retry: None, comment: None }),
    {
        Event { event: None, data: None, id: None, retry: None, comment: None }
    }

    /// The `event:` field (the event type the client's listener sees).
    pub fn event(self, name: String) -> (e: Event)
        ensures
            e@ == (EventView { event: Some(name@), ..self@ }),
    {
        Event { event: Some(name), ..self }
    }

    /// The `data:` field. Multiple `data` calls append one line each.
    pub fn data(self, line: String) -> (e: Event)
        ensures
            e@ == (EventView { data: appended_data(self@.data, line@), ..self@ }),
    {
        let Event { event, data, id, retry, comment } = self;
        let joined = match data {
            Some(existing) => {
                let mut cs = str_chars(existing.as_str());
                cs.push('\n');
                push_str(&mut cs, line.as_str());
                assert(cs@ =~= existing@ + seq!['\n'] + line@);
                chars_to_string(cs.as_slice())
            },
            None => line,
        };
        Event { event, data: Some(joined), id, retry, comment }
    }

    /// The `data:` field with a value already serialized as JSON; a
    /// failed serialization (`None`) becomes `{"error":"internal"}`.
    pub fn json_data(self, serialized: Option<String>) -> (e: Event)
        ensures
            e@ == (EventView {
                data: appended_data(
                    self@.data,
                    match serialized {
                        Some(j) => j@,
                        None => "{\"error\":\"internal\"}"@,
                    },
                ),
                ..self@
            }),
    {
        match serialized {
            Some(json) => self.data(json),
            None => self.data("{\"error\":\"internal\"}".to_owned()),
        }
    }

    /// The `id:` field (becomes the client's `Last-Event-ID`).
    pub fn id(self, id: String) -> (e: Event)
        ensures
            e@ == (EventView { id: Some(id@), ..self@ }),
    {
        Event { id: Some(id), ..self }
    }

    /// The `retry:` field: the client reconnect delay in milliseconds.
    pub fn retry(self, millis: u64) -> (e: Event)
        ensures
            e@ == (EventView { retry: Some(millis), ..self@ }),
    {
        Event { retry: Some(millis), ..self }
    }

    /// A comment line (`:` prefix), useful for keep-alives.
    pub fn comment(self, text: String) -> (e: Event)
        ensures
            e@ == (EventView { comment: Some(text@), ..self@ }),
    {
        Event { comment: Some(text), ..self }
    }

    /// Render the wire format, including the trailing blank line.
    pub fn render(&self) -> (r: String)
        ensures
            r@ == render_spec(self@),
    {
        let mut out: Vec<char> = Vec::new();
        match &self.comment {
            Some(c) => {
                out.push(':');
                push_str(&mut out, c.as_str());
                out.push('\n');
            },
            None => {},
        }
        let ghost a = out@;
        match &self.event {
            Some(v) => push_field(&mut out, "event", v.as_str()),
            None => {},
        }
        let ghost b = out@;
        match &self.id {
            Some(v) => push_field(&mut out, "id", v.as_str()),
            None => {},
        }
        let ghost c = out@;
        match self.retry {
            Some(r) => push_retry(&mut out, r),
            None => {},
        }
        let ghost d = out@;
        match &self.data {
            Some(data) => push_data_lines(&mut out, data),
            None => {},
        }
        out.push('\n');
        assert(out@ =~= render_spec(self@));
        chars_to_string(out.as_slice())
    }
}

fn push_retry(out: &mut Vec<char>, r: u64)
    ensures
        final(out)@ == old(out)@ + field_line("retry"@, decimal(r as nat)),
{
    push_str(out, "retry");
    out.push(':');
    push_decimal(out, r);
    out.push('\n');
    assert(final(out)@ =~= old(out)@ + field_line("retry"@, decimal(r as nat)));
}

fn push_data_lines(out: &mut Vec<char>, data: &String)
    ensures
        final(out)@ == old(out)@ + data_lines(split_seq(data@, '\n')),
{
    let ghost d = out@;
    let cs = str_chars(data.as_str());
    let lines = split_chars(&cs, '\n');
    let mut i: usize = 0;
    assert(split_seq(cs@, '\n').subrange(0, 0) =~= Seq::<Seq<char>>::empty());
    assert(out@ =~= d + data_lines(split_seq(cs@, '\n').subrange(0, 0)));
    while i < lines.len()
        invariant
            cs@ == data@,
            lines@.len() == split_seq(cs@, '\n').len(),
            forall|j: int|
                0 <= j < lines@.len() ==> #[trigger] lines@[j]@ == split_seq(cs@, '\n')[j],
            i <= lines@.len(),
            out@ == d + data_lines(split_seq(cs@, '\n').subrange(0, i as int)),
        decreases lines@.len() - i,
    {
        let ghost before = out@;
        push_str(out, "data");
        out.push(':');
        push_chars(out, &lines[i]);
        out.push('\n');
        assert(split_seq(cs@, '\n').subrange(0, i + 1).drop_last() =~= split_seq(
            cs@,
            '\n',
        ).subrange(0, i as int));
        assert(out@ =~= before + field_line("data"@, lines@[i as int]@));
        i = i + 1;
    }
    assert(split_seq(cs@, '\n').subrange(0, lines@.len() as int) =~= split_seq(cs@, '\n'));
}

/// The comment event sent while an event stream is idle.
pub fn keep_alive_event() -> (e: Event)
    ensures
        e@ == (EventView {
            event: None,
            data: None,
            id: None,
            retry: None,
            comment: Some("keep-alive"@),
        }),
{
    Event::new().comment("keep-alive".to_owned())
}

/// A streaming `text/event-stream` response. The stream item is an
/// [`Event`] (or an error, which ends the stream).
pub struct Sse<S> {
    stream: S,
}

/// The response type of [`Sse::keep_alive`].
pub struct KeepAliveSse<S> {
    events: S,
    interval: std::time::Duration,
}

impl<S> Sse<S> {
    /// Wrap a stream of events into an SSE response.
    pub fn new(stream: S) -> (r: Sse<S>)
        ensures
            r.stream() == stream,
    {
        Sse { stream }
    }

    /// The wrapped stream.
    pub closed spec fn stream(&self) -> S {
        self.stream
    }

    /// Emit a `:keep-alive` comment every `interval` while the event
    /// stream is idle, so proxies and browsers keep the connection.
    pub fn keep_alive(self, interval: std::time::Duration) -> (r: KeepAliveSse<S>)
        ensures
            r.events() == self.stream(),
            r.interval() == interval,
    {
        KeepAliveSse { events: self.stream, interval }
    }

    /// Unwrap the stream.
    pub fn into_stream(self) -> (s: S)
        ensures
            s == self.stream(),
    {
        self.stream
    }
}

impl<S> KeepAliveSse<S> {
    /// The event stream.
    pub closed spec fn events(&self) -> S {
        self.events
    }

    /// The keep-alive interval.
    pub closed spec fn interval(&self) -> std::time::Duration {
        self.interval
    }

    /// Unwrap into the event stream and the keep-alive interval.
    pub fn into_parts(self) -> (r: (S, std::time::Duration))
        ensures
            r.0 == self.events(),
            r.1 == self.interval(),
    {
        (self.events, self.interval)
    }
}

} // verus!
