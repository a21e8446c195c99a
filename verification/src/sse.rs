//! Server-sent events.

use vstd::prelude::*;

use crate::text::{chars, decimal, first_index, opt, piece, split, split_text, to_decimal, views};

verus! {

/// An event of a stream: its data with optional attributes, or a comment.
#[derive(Debug)]
pub struct SseEvent {
    pub data: String,
    pub event: Option<String>,
    pub id: Option<String>,
    pub retry: Option<u64>,
    pub comment: Option<String>,
}

/// `s` without a carriage return at its end.
pub open spec fn without_return(s: Seq<char>) -> Seq<char> {
    if s.len() > 0 && s.last() == '\r' {
        s.drop_last()
    } else {
        s
    }
}

/// The lines of the parts between line feeds: each without the carriage return before
/// its line feed; a last part without a line feed is a line of its own unless it is
/// empty.
pub open spec fn lines_of(parts: Seq<Seq<char>>) -> Seq<Seq<char>> {
    let ended = Seq::new((parts.len() - 1) as nat, |i: int| without_return(parts[i]));
    if parts.last().len() == 0 {
        ended
    } else {
        ended.push(parts.last())
    }
}

/// The lines of a text.
pub open spec fn lines(s: Seq<char>) -> Seq<Seq<char>> {
    lines_of(split(s, '\n'))
}

/// A field of an event on a line of its own.
pub open spec fn field(name: Seq<char>, value: Seq<char>) -> Seq<char> {
    name + value + "\n"@
}

/// An optional field of an event.
pub open spec fn opt_field(name: Seq<char>, value: Option<Seq<char>>) -> Seq<char> {
    match value {
        Some(v) => field(name, v),
        None => Seq::empty(),
    }
}

/// The data fields of lines, one each.
pub open spec fn data_fields(lines: Seq<Seq<char>>) -> Seq<char>
    decreases lines.len(),
{
    if lines.len() == 0 {
        Seq::empty()
    } else {
        data_fields(lines.drop_last()) + field("data: "@, lines.last())
    }
}

impl SseEvent {
    /// The number of milliseconds of the retry field, in decimal.
    pub open spec fn retry_text(self) -> Option<Seq<char>> {
        match self.retry {
            Some(n) => Some(decimal(n as nat)),
            None => None,
        }
    }

    /// The event as it goes over the wire. It ends with an empty line.
    pub open spec fn wire(self) -> Seq<char> {
        match self.comment {
            Some(c) => ": "@ + c@ + "\n\n"@,
            None => opt_field("id: "@, opt(self.id)) + opt_field("event: "@, opt(self.event))
                + opt_field("retry: "@, self.retry_text()) + (if self.data@.len() == 0 {
                "data: \n"@
            } else {
                data_fields(lines(self.data@))
            }) + "\n"@,
        }
    }

    /// An event with data.
    pub fn new(data: &str) -> (r: SseEvent)
        ensures
            r.data@ == data@,
            r.event is None && r.id is None && r.retry is None && r.comment is None,
    {
        SseEvent { data: data.to_owned(), event: None, id: None, retry: None, comment: None }
    }

    /// An event that is only a comment. Browsers ignore it; it keeps a connection alive
    /// through proxies.
    pub fn comment(text: &str) -> (r: SseEvent)
        ensures
            opt(r.comment) == Some(text@),
            r.data@.len() == 0 && r.event is None && r.id is None && r.retry is None,
    {
        SseEvent {
            data: String::new(),
            event: None,
            id: None,
            retry: None,
            comment: Some(text.to_owned()),
        }
    }

    /// The event with a name.
    pub fn event(self, event: &str) -> (r: SseEvent)
        ensures
            opt(r.event) == Some(event@),
            r == (SseEvent { event: r.event, ..self }),
    {
        SseEvent { event: Some(event.to_owned()), ..self }
    }

    /// The event with an id.
    pub fn id(self, id: &str) -> (r: SseEvent)
        ensures
            opt(r.id) == Some(id@),
            r == (SseEvent { id: r.id, ..self }),
    {
        SseEvent { id: Some(id.to_owned()), ..self }
    }

    /// The event with a time to wait before reconnecting, in milliseconds.
    pub fn retry(self, retry: u64) -> (r: SseEvent)
        ensures
            r == (SseEvent { retry: Some(retry), ..self }),
    {
        SseEvent { retry: Some(retry), ..self }
    }

    /// The event as it goes over the wire.
    pub fn format(&self) -> (r: String)
        ensures
            r@ == self.wire(),
    {
        if let Some(c) = &self.comment {
            return ": ".to_owned().concat(c.as_str()).concat("\n\n");
        }
        let mut out: String = String::new();
        if let Some(id) = &self.id {
            out.append("id: ");
            out.append(id.as_str());
            out.append("\n");
        }
        let ghost one = out@;
        assert(one =~= opt_field("id: "@, opt(self.id)));
        if let Some(event) = &self.event {
            out.append("event: ");
            out.append(event.as_str());
            out.append("\n");
        }
        let ghost two = out@;
        assert(two =~= one + opt_field("event: "@, opt(self.event)));
        if let Some(retry) = self.retry {
            out.append("retry: ");
            out.append(to_decimal(retry).as_str());
            out.append("\n");
        }
        let ghost three = out@;
        assert(three =~= two + opt_field("retry: "@, self.retry_text()));
        if self.data.as_str().is_empty() {
            out.append("data: \n");
        } else {
            let list: Vec<String> = lines_text(self.data.as_str());
            let mut i: usize = 0;
            assert(views(list@).take(0) =~= Seq::empty());
            assert(three + Seq::<char>::empty() =~= three);
            while i < list.len()
                invariant
                    i <= list.len(),
                    out@ == three + data_fields(views(list@).take(i as int)),
                decreases list.len() - i,
            {
                let ghost before = out@;
                out.append("data: ");
                out.append(list[i].as_str());
                out.append("\n");
                proof {
                    let all = views(list@).take(i + 1);
                    assert(all.drop_last() =~= views(list@).take(i as int));
                    assert(all.last() == list@[i as int]@);
                    assert(out@ =~= before + field("data: "@, list@[i as int]@));
                    assert(out@ =~= three + data_fields(all));
                }
                i += 1;
            }
            assert(views(list@).take(list@.len() as int) =~= views(list@));
        }
        out.append("\n");
        out
    }
}

/// The lines of a text.
pub fn lines_text(s: &str) -> (r: Vec<String>)
    ensures
        views(r@) == lines(s@),
{
    let parts: Vec<String> = split_text(s, '\n');
    let last: usize = parts.len() - 1;
    let mut r: Vec<String> = Vec::new();
    let mut i: usize = 0;
    while i < last
        invariant
            last == parts.len() - 1,
            i <= last,
            r@.len() == i,
            forall|j: int| 0 <= j < i ==> (#[trigger] r@[j])@ == without_return(parts@[j]@),
        decreases last - i,
    {
        let v: Vec<char> = chars(parts[i].as_str());
        if v.len() > 0 && v[v.len() - 1] == '\r' {
            let cut: String = piece(&v, 0, v.len() - 1);
            assert(cut@ =~= parts@[i as int]@.drop_last());
            r.push(cut);
        } else {
            r.push(parts[i].clone());
        }
        i += 1;
    }
    if !parts[last].as_str().is_empty() {
        r.push(parts[last].clone());
    }
    assert(views(r@) =~= lines_of(views(parts@)));
    r
}

/// What happens to a stream of events while the next one is awaited.
#[derive(Debug)]
pub enum Awaited {
    /// An event came.
    Event(SseEvent),
    /// Nothing came for as long as the stream may be silent.
    Silence,
    /// There are no further events.
    End,
}

/// What is sent next on a stream that is kept alive: the event that came, or a comment
/// where none did. The stream ends with its source.
pub fn next_sent(awaited: Awaited) -> (r: Option<SseEvent>)
    ensures
        match awaited {
            Awaited::Event(e) => r == Some(e),
            Awaited::Silence => r matches Some(e) && opt(e.comment) == Some("keep-alive"@)
                && e.wire() == ": keep-alive\n\n"@,
            Awaited::End => r is None,
        },
{
    match awaited {
        Awaited::Event(e) => Some(e),
        Awaited::Silence => {
            let e: SseEvent = SseEvent::comment("keep-alive");
            proof {
                reveal_strlit(": ");
                reveal_strlit("keep-alive");
                reveal_strlit("\n\n");
                reveal_strlit(": keep-alive\n\n");
                assert(e.wire() =~= ": keep-alive\n\n"@);
            }
            Some(e)
        },
        Awaited::End => None,
    }
}

/// Lines, each with a line feed behind it.
pub open spec fn ended(lines: Seq<Seq<char>>) -> Seq<char>
    decreases lines.len(),
{
    if lines.len() == 0 {
        Seq::empty()
    } else {
        lines[0] + "\n"@ + ended(lines.skip(1))
    }
}

/// A line of an event, where it has one.
pub open spec fn opt_line(name: Seq<char>, value: Option<Seq<char>>) -> Seq<Seq<char>> {
    match value {
        Some(v) => seq![name + v],
        None => Seq::empty(),
    }
}

impl SseEvent {
    /// The lines before the data.
    pub open spec fn head_lines(self) -> Seq<Seq<char>> {
        opt_line("id: "@, opt(self.id)) + opt_line("event: "@, opt(self.event)) + opt_line(
            "retry: "@,
            self.retry_text(),
        )
    }

    /// The lines of the data, each behind its name. Where there is no data there is one
    /// line without any.
    pub open spec fn data_lines(self) -> Seq<Seq<char>> {
        if self.data@.len() == 0 {
            seq!["data: "@]
        } else {
            Seq::new(lines(self.data@).len(), |i: int| "data: "@ + lines(self.data@)[i])
        }
    }

    /// Whether no attribute of the event has a line feed in it.
    pub open spec fn is_single_lined(self) -> bool {
        &&& opt(self.id) matches Some(v) ==> !v.contains('\n')
        &&& opt(self.event) matches Some(v) ==> !v.contains('\n')
        &&& opt(self.comment) matches Some(v) ==> !v.contains('\n')
    }
}

/// Whether a line is one of data.
pub open spec fn is_data_line(line: Seq<char>) -> bool {
    "data: "@.is_prefix_of(line)
}

/// Every event ends with an empty line.
pub proof fn law_events_end_with_an_empty_line(e: SseEvent)
    ensures
        e.wire().len() >= 2,
        e.wire().last() == '\n',
        e.wire()[e.wire().len() - 2] == '\n',
{
    reveal_strlit("\n");
    reveal_strlit("\n\n");
    reveal_strlit(": ");
    reveal_strlit("data: \n");
    if e.comment is None {
        if e.data@.len() > 0 {
            let l = lines(e.data@);
            lemma_some_line(e.data@);
            assert(data_fields(l) == data_fields(l.drop_last()) + field("data: "@, l.last()));
            assert(data_fields(l).last() == '\n');
        }
    }
}

/// An event has no empty line but its last, so that it is read as one event, and the
/// lines of data in it are those of its data, in order.
pub proof fn law_events_are_read_as_one(e: SseEvent)
    requires
        e.is_single_lined(),
    ensures
        forall|i: int|
            0 <= i < e.wire().len() - 2 ==> !(#[trigger] e.wire()[i] == '\n' && e.wire()[i + 1]
                == '\n'),
        e.comment is None ==> split(e.wire(), '\n').filter(|l: Seq<char>| is_data_line(l))
            == e.data_lines(),
{
    reveal_strlit("\n");
    reveal_strlit("\n\n");
    reveal_strlit(": ");
    match e.comment {
        Some(c) => {
            let w = e.wire();
            assert forall|i: int| 0 <= i < w.len() - 2 implies !(#[trigger] w[i] == '\n' && w[i + 1]
                == '\n') by {
                if 2 <= i < 2 + c@.len() {
                    assert(w[i] == c@[i - 2]);
                    assert(c@.contains(c@[i - 2]));
                }
            }
        },
        None => {
            let all = e.head_lines() + e.data_lines();
            lemma_wire_lines(e);
            lemma_event_lines(e);
            lemma_ended_tight(all);
            let w = e.wire();
            assert forall|i: int| 0 <= i < w.len() - 2 implies !(#[trigger] w[i] == '\n' && w[i + 1]
                == '\n') by {
                assert(w[i] == ended(all)[i]);
                assert(w[i + 1] == ended(all)[i + 1]);
            }
            lemma_split_ended(all, "\n"@);
            lemma_split_feed();
            lemma_data_lines_found(e);
        },
    }
}

/// A text that is not empty has a line.
proof fn lemma_some_line(s: Seq<char>)
    requires
        s.len() > 0,
    ensures
        lines(s).len() > 0,
{
    crate::text::lemma_first_index(s, '\n');
    let i = first_index(s, '\n');
    if i < s.len() {
        let rest = split(s.skip(i + 1), '\n');
        lemma_split_nonempty(s.skip(i + 1));
        assert(split(s, '\n').len() >= 2);
    } else {
        assert(split(s, '\n') =~= seq![s]);
        assert(lines(s) =~= seq![s]);
    }
}

/// The lines of two lists end one after the other.
proof fn lemma_ended_add(a: Seq<Seq<char>>, b: Seq<Seq<char>>)
    ensures
        ended(a + b) == ended(a) + ended(b),
    decreases a.len(),
{
    if a.len() == 0 {
        assert(a + b =~= b);
        assert(ended(a) + ended(b) =~= ended(b));
    } else {
        assert((a + b).skip(1) =~= a.skip(1) + b);
        lemma_ended_add(a.skip(1), b);
        assert(ended(a + b) =~= ended(a) + ended(b));
    }
}

/// One line with its line feed.
proof fn lemma_ended_one(line: Seq<char>)
    ensures
        ended(seq![line]) == line + "\n"@,
{
    assert(seq![line].skip(1) =~= Seq::empty());
    assert(ended(seq![line].skip(1)) =~= Seq::empty());
    assert(ended(seq![line]) =~= line + "\n"@);
}

/// The fields of lines are lines of data.
proof fn lemma_data_fields(l: Seq<Seq<char>>)
    ensures
        data_fields(l) == ended(Seq::new(l.len(), |i: int| "data: "@ + l[i])),
    decreases l.len(),
{
    let all = Seq::new(l.len(), |i: int| "data: "@ + l[i]);
    if l.len() > 0 {
        let before = Seq::new(l.drop_last().len(), |i: int| "data: "@ + l.drop_last()[i]);
        let line = "data: "@ + l.last();
        assert(all =~= before + seq![line]);
        lemma_data_fields(l.drop_last());
        lemma_ended_add(before, seq![line]);
        lemma_ended_one(line);
    } else {
        assert(all =~= Seq::empty());
    }
}

/// An optional field is an optional line.
proof fn lemma_opt_field(name: Seq<char>, value: Option<Seq<char>>)
    ensures
        opt_field(name, value) == ended(opt_line(name, value)),
{
    if value is Some {
        lemma_ended_one(name + value->0);
    }
}

/// An event that is no comment is its lines, and an empty one.
proof fn lemma_wire_lines(e: SseEvent)
    requires
        e.comment is None,
    ensures
        e.wire() == ended(e.head_lines() + e.data_lines()) + "\n"@,
{
    let id = opt_line("id: "@, opt(e.id));
    let event = opt_line("event: "@, opt(e.event));
    let retry = opt_line("retry: "@, e.retry_text());
    lemma_opt_field("id: "@, opt(e.id));
    lemma_opt_field("event: "@, opt(e.event));
    lemma_opt_field("retry: "@, e.retry_text());
    lemma_ended_add(id, event);
    lemma_ended_add(id + event, retry);
    lemma_ended_add(e.head_lines(), e.data_lines());
    if e.data@.len() == 0 {
        reveal_strlit("data: ");
        reveal_strlit("\n");
        reveal_strlit("data: \n");
        lemma_ended_one("data: "@);
        assert("data: \n"@ =~= "data: "@ + "\n"@);
    } else {
        lemma_data_fields(lines(e.data@));
    }
    assert(e.wire() =~= ended(e.head_lines()) + ended(e.data_lines()) + "\n"@);
}

/// A number in decimal has no line feed.
proof fn lemma_decimal_single_lined(n: nat)
    ensures
        !decimal(n).contains('\n'),
    decreases n,
{
    if n >= 10 {
        lemma_decimal_single_lined(n / 10);
        let d = decimal(n);
        assert forall|i: int| 0 <= i < d.len() implies d[i] != '\n' by {
            if i < d.len() - 1 {
                assert(d[i] == decimal(n / 10)[i]);
                assert(decimal(n / 10).contains(d[i]));
            }
        }
    }
}

/// The parts between line feeds have none.
proof fn lemma_parts_single_lined(s: Seq<char>)
    ensures
        forall|i: int|
            0 <= i < split(s, '\n').len() ==> !(#[trigger] split(s, '\n')[i]).contains('\n'),
    decreases s.len(),
{
    crate::text::lemma_first_index(s, '\n');
    let k = first_index(s, '\n');
    let parts = split(s, '\n');
    if k < s.len() {
        let rest = split(s.skip(k + 1), '\n');
        lemma_parts_single_lined(s.skip(k + 1));
        assert(parts =~= seq![s.take(k)] + rest);
        assert forall|i: int| 0 <= i < parts.len() implies !(#[trigger] parts[i]).contains(
            '\n',
        ) by {
            if i > 0 {
                assert(parts[i] == rest[i - 1]);
            } else {
                assert(parts[0] == s.take(k));
            }
        }
    } else {
        assert(parts =~= seq![s]);
    }
}

/// The lines of a text have no line feed.
proof fn lemma_lines_single_lined(s: Seq<char>)
    ensures
        forall|i: int| 0 <= i < lines(s).len() ==> !(#[trigger] lines(s)[i]).contains('\n'),
{
    lemma_parts_single_lined(s);
    lemma_split_nonempty(s);
    let parts = split(s, '\n');
    assert forall|i: int| 0 <= i < lines(s).len() implies !(#[trigger] lines(s)[i]).contains(
        '\n',
    ) by {
        assert(!parts[i].contains('\n'));
        let l = lines(s)[i];
        if l.contains('\n') {
            let j = choose|j: int| 0 <= j < l.len() && l[j] == '\n';
            assert(parts[i][j] == '\n');
        }
    }
}

/// Whether a line can stand in an event: it is not empty, and has no line feed.
spec fn is_line(line: Seq<char>) -> bool {
    line.len() > 0 && !line.contains('\n')
}

/// What is put together of texts without line feeds has none.
proof fn lemma_named_line(name: Seq<char>, value: Seq<char>)
    requires
        is_line(name),
        !value.contains('\n'),
    ensures
        is_line(name + value),
{
    let l = name + value;
    assert forall|i: int| 0 <= i < l.len() implies l[i] != '\n' by {
        if i < name.len() {
            assert(name.contains(name[i]));
        } else {
            assert(value.contains(value[i - name.len()]));
        }
    }
}

/// The names of fields can stand in an event, and tell data from the others.
proof fn lemma_names()
    ensures
        is_line("id: "@),
        is_line("event: "@),
        is_line("retry: "@),
        is_line("data: "@),
        "id: "@[0] == 'i',
        "event: "@[0] == 'e',
        "retry: "@[0] == 'r',
        "data: "@[0] == 'd',
{
    reveal_strlit("id: ");
    reveal_strlit("event: ");
    reveal_strlit("retry: ");
    reveal_strlit("data: ");
}

/// The lines of an event can stand in it. Those before the data are no lines of data.
proof fn lemma_event_lines(e: SseEvent)
    requires
        e.is_single_lined(),
    ensures
        forall|i: int|
            0 <= i < e.head_lines().len() ==> is_line(#[trigger] e.head_lines()[i])
                && e.head_lines()[i][0] != 'd',
        forall|i: int|
            0 <= i < e.data_lines().len() ==> is_line(#[trigger] e.data_lines()[i]) && is_data_line(
                e.data_lines()[i],
            ),
{
    lemma_names();
    if e.id is Some {
        lemma_named_line("id: "@, opt(e.id)->0);
    }
    if e.event is Some {
        lemma_named_line("event: "@, opt(e.event)->0);
    }
    if e.retry is Some {
        lemma_decimal_single_lined(e.retry->0 as nat);
        lemma_named_line("retry: "@, e.retry_text()->0);
    }
    if e.data@.len() > 0 {
        lemma_lines_single_lined(e.data@);
        let l = lines(e.data@);
        assert forall|i: int| 0 <= i < e.data_lines().len() implies is_line(
            #[trigger] e.data_lines()[i],
        ) && is_data_line(e.data_lines()[i]) by {
            lemma_named_line("data: "@, l[i]);
            assert(e.data_lines()[i].take("data: "@.len() as int) =~= "data: "@);
        }
    }
}

/// Lines that are not empty have no two line feeds side by side.
proof fn lemma_ended_tight(l: Seq<Seq<char>>)
    requires
        forall|i: int| 0 <= i < l.len() ==> is_line(#[trigger] l[i]),
    ensures
        forall|i: int|
            0 <= i < ended(l).len() - 1 ==> !(#[trigger] ended(l)[i] == '\n' && ended(l)[i + 1]
                == '\n'),
        ended(l).len() > 0 ==> ended(l)[0] != '\n',
    decreases l.len(),
{
    reveal_strlit("\n");
    if l.len() > 0 {
        let rest = l.skip(1);
        assert forall|i: int| 0 <= i < rest.len() implies is_line(#[trigger] rest[i]) by {
            assert(rest[i] == l[i + 1]);
        }
        lemma_ended_tight(rest);
        let t = ended(l);
        let n = l[0].len() as int;
        assert(is_line(l[0]));
        assert forall|i: int| 0 <= i < n implies t[i] != '\n' by {
            assert(t[i] == l[0][i]);
            assert(l[0].contains(l[0][i]));
        }
        assert forall|i: int| 0 <= i < t.len() - 1 implies !(#[trigger] t[i] == '\n' && t[i + 1]
            == '\n') by {
            if i >= n {
                assert(t[i + 1] == ended(rest)[i - n]);
                if i > n {
                    assert(t[i] == ended(rest)[i - n - 1]);
                }
            }
        }
    }
}

/// Lines are the parts between the line feeds behind them.
proof fn lemma_split_ended(l: Seq<Seq<char>>, rest: Seq<char>)
    requires
        forall|i: int| 0 <= i < l.len() ==> is_line(#[trigger] l[i]),
    ensures
        split(ended(l) + rest, '\n') == l + split(rest, '\n'),
    decreases l.len(),
{
    reveal_strlit("\n");
    if l.len() == 0 {
        assert(ended(l) + rest =~= rest);
        assert(l + split(rest, '\n') =~= split(rest, '\n'));
    } else {
        let more = l.skip(1);
        assert forall|i: int| 0 <= i < more.len() implies is_line(#[trigger] more[i]) by {
            assert(more[i] == l[i + 1]);
        }
        lemma_split_ended(more, rest);
        let t = ended(l) + rest;
        let n = l[0].len() as int;
        assert(is_line(l[0]));
        assert forall|i: int| 0 <= i < n implies t[i] != '\n' by {
            assert(t[i] == l[0][i]);
            assert(l[0].contains(l[0][i]));
        }
        assert(t[n] == '\n');
        crate::text::lemma_first_index_is(t, '\n', n);
        assert(t.take(n) =~= l[0]);
        assert(t.skip(n + 1) =~= ended(more) + rest);
        assert(split(t, '\n') =~= seq![l[0]] + (more + split(rest, '\n')));
        assert(split(t, '\n') =~= l + split(rest, '\n'));
    }
}

/// One line feed stands between two empty parts.
proof fn lemma_split_feed()
    ensures
        split("\n"@, '\n') == seq![Seq::<char>::empty(), Seq::<char>::empty()],
{
    reveal_strlit("\n");
    let t = "\n"@;
    crate::text::lemma_first_index_is(t, '\n', 0);
    assert(t.take(0) =~= Seq::empty());
    assert(t.skip(1) =~= Seq::empty());
    crate::text::lemma_first_index(t.skip(1), '\n');
    assert(split(t.skip(1), '\n') =~= seq![Seq::<char>::empty()]);
    assert(split(t, '\n') =~= seq![Seq::<char>::empty(), Seq::<char>::empty()]);
}

/// What holds of all items keeps them all, and what holds of none keeps none.
proof fn lemma_filter_uniform(l: Seq<Seq<char>>, pred: spec_fn(Seq<char>) -> bool)
    ensures
        (forall|i: int| 0 <= i < l.len() ==> pred(#[trigger] l[i])) ==> l.filter(pred) == l,
        (forall|i: int| 0 <= i < l.len() ==> !pred(#[trigger] l[i])) ==> l.filter(pred)
            == Seq::<Seq<char>>::empty(),
    decreases l.len(),
{
    reveal(Seq::filter);
    if l.len() > 0 {
        let t = l.drop_last();
        lemma_filter_uniform(t, pred);
        if forall|i: int| 0 <= i < l.len() ==> pred(#[trigger] l[i]) {
            assert forall|i: int| 0 <= i < t.len() implies pred(#[trigger] t[i]) by {
                assert(t[i] == l[i]);
            }
            assert(pred(l[l.len() - 1]));
            assert(t.push(l.last()) =~= l);
        }
        if forall|i: int| 0 <= i < l.len() ==> !pred(#[trigger] l[i]) {
            assert forall|i: int| 0 <= i < t.len() implies !pred(#[trigger] t[i]) by {
                assert(t[i] == l[i]);
            }
            assert(!pred(l[l.len() - 1]));
        }
    } else {
        assert(l =~= Seq::empty());
    }
}

/// The lines of data are found among the lines of an event.
proof fn lemma_data_lines_found(e: SseEvent)
    requires
        e.is_single_lined(),
    ensures
        (e.head_lines() + e.data_lines() + seq![
            Seq::<char>::empty(),
            Seq::<char>::empty(),
        ]).filter(|l: Seq<char>| is_data_line(l)) == e.data_lines(),
{
    let pred = |l: Seq<char>| is_data_line(l);
    let head = e.head_lines();
    let data = e.data_lines();
    let last = seq![Seq::<char>::empty(), Seq::<char>::empty()];
    lemma_event_lines(e);
    lemma_names();
    assert forall|i: int| 0 <= i < head.len() implies !pred(#[trigger] head[i]) by {
        assert(is_line(head[i]));
        if is_data_line(head[i]) {
            assert(head[i][0] == "data: "@[0]);
        }
    }
    assert forall|i: int| 0 <= i < data.len() implies pred(#[trigger] data[i]) by {}
    assert forall|i: int| 0 <= i < last.len() implies !pred(#[trigger] last[i]) by {}
    lemma_filter_uniform(head, pred);
    lemma_filter_uniform(data, pred);
    lemma_filter_uniform(last, pred);
    Seq::filter_distributes_over_add(head, data, pred);
    Seq::filter_distributes_over_add(head + data, last, pred);
    assert(Seq::<Seq<char>>::empty() + data + Seq::<Seq<char>>::empty() =~= data);
}

proof fn lemma_split_nonempty(s: Seq<char>)
    ensures
        split(s, '\n').len() >= 1,
{
}

/// An event is told line by line: its id, its name and its time to reconnect, as far as it
/// has them, then its data, and an empty line.
pub proof fn law_events_tell_all_they_have(e: SseEvent)
    requires
        e.is_single_lined(),
        e.comment is None,
    ensures
        ({
            let told = split(e.wire(), '\n');
            let i = if e.id is Some {
                1int
            } else {
                0
            };
            let j = if e.event is Some {
                i + 1
            } else {
                i
            };
            let k = if e.retry is Some {
                j + 1
            } else {
                j
            };
            &&& e.id matches Some(v) ==> told[0] == "id: "@ + v@
            &&& e.event matches Some(v) ==> told[i] == "event: "@ + v@
            &&& e.retry matches Some(n) ==> told[j] == "retry: "@ + decimal(n as nat)
            &&& told.len() == k + e.data_lines().len() + 2
            &&& forall|m: int|
                0 <= m < e.data_lines().len() ==> told[k + m] == #[trigger] e.data_lines()[m]
        }),
{
    reveal_strlit("\n");
    let all = e.head_lines() + e.data_lines();
    lemma_wire_lines(e);
    lemma_event_lines(e);
    lemma_split_ended(all, "\n"@);
    lemma_split_feed();
}

/// A comment is told behind a colon, and nothing else is.
pub proof fn law_comments_are_told_alone(e: SseEvent)
    requires
        e.comment is Some,
    ensures
        e.wire() == seq![':', ' '] + e.comment->0@ + seq!['\n', '\n'],
{
    reveal_strlit(": ");
    reveal_strlit("\n\n");
    assert(": "@ =~= seq![':', ' ']);
    assert("\n\n"@ =~= seq!['\n', '\n']);
}

/// Data is told line by line: a line feed, with or without a carriage return before it, ends
/// a line, and what follows the last one is a line of its own unless it is empty.
pub proof fn law_line_feeds_end_lines(a: Seq<char>, b: Seq<char>)
    requires
        !a.contains('\n'),
    ensures
        lines(Seq::<char>::empty()).len() == 0,
        a.len() > 0 ==> lines(a) == seq![a],
        lines(a + seq!['\n'] + b) == seq![if a.len() > 0 && a.last() == '\r' {
            a.drop_last()
        } else {
            a
        }] + lines(b),
{
    let e = Seq::<char>::empty();
    assert(!e.contains('\n'));
    crate::text::law_split_at_each_separator(e, e, '\n');
    crate::text::law_split_at_each_separator(a, b, '\n');
    assert(lines(e) =~= Seq::empty());
    if a.len() > 0 {
        assert(lines(a) =~= seq![a]);
    }
    lemma_split_nonempty(b);
    let rest = split(b, '\n');
    let all = seq![a] + rest;
    assert(all.last() == rest.last());
    assert(lines(a + seq!['\n'] + b) =~= seq![without_return(a)] + lines(b));
}

} // verus!
