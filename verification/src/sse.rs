//! Server-sent events: a byte stream is cut into lines, and the `data:` lines
//! before an empty line make one event.
use vstd::prelude::*;
use vstd::utf8::{
    char_is_scalar, char_u32_cast, decode_utf8, encode_scalar, encode_utf8,
    encode_utf8_decode_utf8, encode_utf8_valid_utf8, has_width_1_encoding, valid_utf8,
};

use crate::outside::{from_utf8_lossy, utf8_lossy, utf8_repaired};
use crate::text::{
    join, joined, law_stripping_undoes_a_prefix, opt_text, strings, strip_prefix, stripped,
    trim_end, trimmed_end,
};

verus! {

/// What a reader holds: the bytes that are not read yet, and the data lines of
/// the event that is not complete yet.
#[verifier::ext_equal]
pub struct SseView {
    pub buf: Seq<u8>,
    pub event: Seq<Seq<char>>,
}

/// The number of bytes before the first newline of `buf`, or all of them where
/// it has none.
pub open spec fn first_newline(buf: Seq<u8>) -> nat
    decreases buf.len(),
{
    if buf.len() == 0 || buf[0] == 10 {
        0
    } else {
        1 + first_newline(buf.drop_first())
    }
}

/// `buf` starts with a complete line.
pub open spec fn has_line(buf: Seq<u8>) -> bool {
    first_newline(buf) < buf.len()
}

/// The text of a line, without the carriage returns at its end.
pub open spec fn line_text(line: Seq<u8>) -> Seq<char> {
    trimmed_end(utf8_lossy(line), '\r')
}

/// The value of a data field: one space after the colon does not count.
pub open spec fn field_value(field: Seq<char>) -> Seq<char> {
    match stripped(field, " "@) {
        Some(value) => value,
        None => field,
    }
}

/// The data lines that are pending after `line`.
pub open spec fn pending_after(event: Seq<Seq<char>>, line: Seq<char>) -> Seq<Seq<char>> {
    if line.len() == 0 {
        Seq::empty()
    } else {
        match stripped(line, "data:"@) {
            Some(field) => event.push(field_value(field)),
            None => event,
        }
    }
}

/// The payload of an event with these data lines, if it has any.
pub open spec fn payload(event: Seq<Seq<char>>) -> Option<Seq<char>> {
    if event.len() == 0 {
        None
    } else {
        Some(joined(event, "\n"@))
    }
}

/// The event that `line` completes: an empty line ends an event.
pub open spec fn completed_by(event: Seq<Seq<char>>, line: Seq<char>) -> Option<Seq<char>> {
    if line.len() == 0 {
        payload(event)
    } else {
        None
    }
}

impl SseView {
    /// A reader that has seen nothing.
    pub open spec fn empty() -> SseView {
        SseView { buf: Seq::empty(), event: Seq::empty() }
    }

    /// The same reader after more bytes have come in.
    pub open spec fn fed(self, chunk: Seq<u8>) -> SseView {
        SseView { buf: self.buf + chunk, event: self.event }
    }

    /// The text of the line that the buffer starts with.
    pub open spec fn line(self) -> Seq<char> {
        line_text(self.buf.take(first_newline(self.buf) as int))
    }

    /// The reader after the line that its buffer starts with.
    pub open spec fn after_line(self) -> SseView {
        SseView {
            buf: self.buf.skip(first_newline(self.buf) as int + 1),
            event: pending_after(self.event, self.line()),
        }
    }

    /// The event that the line which the buffer starts with completes.
    pub open spec fn line_event(self) -> Option<Seq<char>> {
        completed_by(self.event, self.line())
    }

    /// The reader after the first event that its complete lines make, with that
    /// event; or after all its complete lines, where they make none.
    pub open spec fn next_event(self) -> (SseView, Option<Seq<char>>)
        decreases self.buf.len(),
    {
        if !has_line(self.buf) {
            (self, None)
        } else if self.line_event() is Some {
            (self.after_line(), self.line_event())
        } else {
            self.after_line().next_event()
        }
    }

    /// The events that the complete lines of the buffer make, in order.
    pub open spec fn events(self) -> Seq<Seq<char>>
        decreases self.buf.len(),
    {
        if !has_line(self.buf) {
            Seq::empty()
        } else {
            match self.line_event() {
                Some(event) => seq![event] + self.after_line().events(),
                None => self.after_line().events(),
            }
        }
    }

    /// The reader after all complete lines of its buffer.
    pub open spec fn settled(self) -> SseView
        decreases self.buf.len(),
    {
        if !has_line(self.buf) {
            self
        } else {
            self.after_line().settled()
        }
    }

    /// The events of a stream that comes in as `chunks`, each read as far as it
    /// goes before the next one comes.
    pub open spec fn events_by_chunks(self, chunks: Seq<Seq<u8>>) -> Seq<Seq<char>>
        decreases chunks.len(),
    {
        if chunks.len() == 0 {
            self.events()
        } else {
            self.events() + self.settled().fed(chunks[0]).events_by_chunks(chunks.drop_first())
        }
    }

    /// What is left of a stream that came in as `chunks`.
    pub open spec fn settled_by_chunks(self, chunks: Seq<Seq<u8>>) -> SseView
        decreases chunks.len(),
    {
        if chunks.len() == 0 {
            self.settled()
        } else {
            self.settled().fed(chunks[0]).settled_by_chunks(chunks.drop_first())
        }
    }
}

proof fn lemma_first_newline_in_range(buf: Seq<u8>)
    ensures
        0 <= first_newline(buf) <= buf.len(),
        first_newline(buf) < buf.len() ==> buf[first_newline(buf) as int] == 10,
        forall|i: int| 0 <= i < first_newline(buf) ==> #[trigger] buf[i] != 10,
    decreases buf.len(),
{
    if buf.len() > 0 && buf[0] != 10 {
        let rest = buf.drop_first();
        lemma_first_newline_in_range(rest);
        assert forall|i: int| 0 <= i < first_newline(buf) implies #[trigger] buf[i] != 10 by {
            if i > 0 {
                assert(rest[i - 1] == buf[i]);
            }
        }
    }
}

/// The first newline is where a newline stands with none before it.
proof fn lemma_first_newline_is(buf: Seq<u8>, n: int)
    requires
        0 <= n <= buf.len(),
        n < buf.len() ==> buf[n] == 10,
        forall|i: int| 0 <= i < n ==> #[trigger] buf[i] != 10,
    ensures
        first_newline(buf) == n,
{
    lemma_first_newline_in_range(buf);
    let m = first_newline(buf) as int;
    if m < n {
        assert(buf[m] != 10);
    }
    if n < m {
        assert(buf[n] != 10);
    }
}

/// Taking the events out one by one gives them all, in order, and leaves the
/// same reader behind.
pub proof fn law_events_one_by_one(v: SseView)
    ensures
        match v.next_event() {
            (rest, Some(event)) => {
                &&& v.events() == seq![event] + rest.events()
                &&& v.settled() == rest.settled()
            },
            (rest, None) => v.events().len() == 0 && v.settled() == rest,
        },
    decreases v.buf.len(),
{
    if has_line(v.buf) && v.line_event() is None {
        law_events_one_by_one(v.after_line());
    }
}

/// Once no event is left to take out, no complete line is left, and reading
/// again gives nothing.
pub proof fn law_nothing_left(v: SseView)
    ensures
        v.next_event().1 is None ==> {
            &&& !has_line(v.next_event().0.buf)
            &&& v.next_event().0.next_event() == v.next_event()
        },
    decreases v.buf.len(),
{
    if has_line(v.buf) && v.line_event() is None {
        law_nothing_left(v.after_line());
    }
}

/// The events that bytes to come will add do not depend on whether the complete
/// lines were read before.
proof fn lemma_feeding_continues(v: SseView, chunk: Seq<u8>)
    ensures
        v.fed(chunk).events() == v.events() + v.settled().fed(chunk).events(),
        v.fed(chunk).settled() == v.settled().fed(chunk).settled(),
    decreases v.buf.len(),
{
    if has_line(v.buf) {
        let n = first_newline(v.buf) as int;
        let all = v.fed(chunk);
        lemma_first_newline_in_range(v.buf);
        assert forall|i: int| 0 <= i < n implies #[trigger] all.buf[i] != 10 by {
            assert(v.buf[i] != 10);
        }
        lemma_first_newline_is(all.buf, n);
        assert(all.buf.take(n) =~= v.buf.take(n));
        assert(all.after_line() =~= v.after_line().fed(chunk));
        lemma_feeding_continues(v.after_line(), chunk);
        assert(all.events() =~= v.events() + v.settled().fed(chunk).events());
    } else {
        assert(v.events() + v.fed(chunk).events() =~= v.fed(chunk).events());
    }
}

/// However a stream is cut into chunks, the events and what is left over are
/// those of the whole stream.
pub proof fn law_chunks_do_not_matter(v: SseView, chunks: Seq<Seq<u8>>)
    ensures
        v.events_by_chunks(chunks) == v.fed(chunks.flatten()).events(),
        v.settled_by_chunks(chunks) == v.fed(chunks.flatten()).settled(),
    decreases chunks.len(),
{
    let all = chunks.flatten();
    if chunks.len() == 0 {
        assert(v.fed(all) =~= v);
    } else {
        let rest = chunks.drop_first();
        let next = v.settled().fed(chunks[0]);
        law_chunks_do_not_matter(next, rest);
        lemma_feeding_continues(v, all);
        assert(next.fed(rest.flatten()) =~= v.settled().fed(all));
    }
}

/// Events come with the chunk that completes them: what comes later adds events
/// after them, and changes none.
pub proof fn law_later_chunks_add_events(v: SseView, chunks: Seq<Seq<u8>>, more: Seq<Seq<u8>>)
    ensures
        v.events_by_chunks(chunks).is_prefix_of(v.events_by_chunks(chunks + more)),
    decreases chunks.len(),
{
    let all = chunks + more;
    if chunks.len() == 0 {
        assert(all =~= more);
    } else {
        let next = v.settled().fed(chunks[0]);
        law_later_chunks_add_events(next, chunks.drop_first(), more);
        assert(all.drop_first() =~= chunks.drop_first() + more);
        let tail = next.events_by_chunks(chunks.drop_first());
        let whole = next.events_by_chunks(all.drop_first());
        let n = v.events().len() as int;
        assert(v.events_by_chunks(chunks) == v.events() + tail);
        assert(v.events_by_chunks(all) == v.events() + whole);
        assert((v.events() + whole).subrange(0, n + tail.len()) =~= v.events() + whole.subrange(
            0,
            tail.len() as int,
        ));
    }
}

/// `line` can stand in a data line of a stream: it holds no newline and does
/// not end in a carriage return.
pub open spec fn is_data_line(line: Seq<char>) -> bool {
    &&& forall|i: int| 0 <= i < line.len() ==> #[trigger] line[i] != '\n'
    &&& line.len() > 0 ==> line.last() != '\r'
}

/// The bytes that send `lines` as one event: a data field for each of them,
/// then an empty line.
pub open spec fn framed(lines: Seq<Seq<char>>) -> Seq<u8>
    decreases lines.len(),
{
    if lines.len() == 0 {
        seq![10u8]
    } else {
        encode_utf8("data: "@ + lines[0]) + seq![10u8] + framed(lines.drop_first())
    }
}

/// Only a newline is encoded with a newline byte.
proof fn lemma_no_newline_byte(s: Seq<char>)
    requires
        forall|i: int| 0 <= i < s.len() ==> #[trigger] s[i] != '\n',
    ensures
        forall|i: int| 0 <= i < encode_utf8(s).len() ==> #[trigger] encode_utf8(s)[i] != 10,
    decreases s.len(),
{
    if s.len() > 0 {
        let c = s[0] as u32;
        let head = encode_scalar(c);
        let rest = s.drop_first();
        char_is_scalar(s[0]);
        char_u32_cast(s[0], c);
        assert(s[0] != '\n');
        assert(10u32 as char == '\n');
        assert(c != 10);
        assert forall|i: int| 0 <= i < rest.len() implies #[trigger] rest[i] != '\n' by {
            assert(rest[i] == s[i + 1]);
        }
        lemma_no_newline_byte(rest);
        if has_width_1_encoding(c) {
            assert((c & 0x7F) as u8 != 10) by (bit_vector)
                requires
                    c <= 0x7F,
                    c != 10,
            ;
        }
        assert(0xC0 | ((c >> 6) & 0x1F) as u8 != 10) by (bit_vector);
        assert(0xE0 | ((c >> 12) & 0x0F) as u8 != 10) by (bit_vector);
        assert(0xF0 | ((c >> 18) & 0x7) as u8 != 10) by (bit_vector);
        assert(0x80 | (c & 0x3F) as u8 != 10) by (bit_vector);
        assert(0x80 | ((c >> 6) & 0x3F) as u8 != 10) by (bit_vector);
        assert(0x80 | ((c >> 12) & 0x3F) as u8 != 10) by (bit_vector);
        assert(forall|i: int| 0 <= i < head.len() ==> #[trigger] head[i] != 10);
        assert forall|i: int| 0 <= i < encode_utf8(s).len() implies #[trigger] encode_utf8(s)[i]
            != 10 by {
            if i < head.len() {
                assert(encode_utf8(s)[i] == head[i]);
            } else {
                assert(encode_utf8(s)[i] == encode_utf8(rest)[i - head.len()]);
            }
        }
    }
}

/// Reading the frame of an event whose first data lines are pending already.
proof fn lemma_frame_is_read(event: Seq<Seq<char>>, lines: Seq<Seq<char>>)
    requires
        event.len() + lines.len() > 0,
        forall|i: int| 0 <= i < lines.len() ==> is_data_line(#[trigger] lines[i]),
    ensures
        (SseView { buf: framed(lines), event }).events() == seq![joined(event + lines, "\n"@)],
        (SseView { buf: framed(lines), event }).settled() == SseView::empty(),
    decreases lines.len(),
{
    let v = SseView { buf: framed(lines), event };
    let rest = v.after_line();
    if lines.len() == 0 {
        lemma_first_newline_is(v.buf, 0);
        encode_utf8_valid_utf8(Seq::empty());
        encode_utf8_decode_utf8(Seq::empty());
        assert(v.buf.take(0) =~= encode_utf8(Seq::empty()));
        assert(rest =~= SseView::empty());
        assert(event + lines =~= event);
        assert(rest.events() =~= Seq::empty());
        assert(rest.settled() =~= rest);
        assert(v.events() =~= seq![joined(event + lines, "\n"@)]);
    } else {
        let text = "data: "@ + lines[0];
        let bytes = encode_utf8(text);
        let n = bytes.len() as int;
        let tail = lines.drop_first();
        reveal_strlit("data: ");
        reveal_strlit("data:");
        reveal_strlit(" ");
        assert forall|i: int| 0 <= i < text.len() implies #[trigger] text[i] != '\n' by {
            if i >= 6 {
                assert(lines[0][i - 6] != '\n');
            }
        }
        lemma_no_newline_byte(text);
        assert forall|i: int| 0 <= i < n implies #[trigger] v.buf[i] != 10 by {
            assert(v.buf[i] == bytes[i]);
        }
        assert(v.buf[n] == 10);
        lemma_first_newline_is(v.buf, n);
        assert(v.buf.take(n) =~= bytes);
        encode_utf8_valid_utf8(text);
        encode_utf8_decode_utf8(text);
        assert(v.line() == text);
        assert("data:"@.is_prefix_of(text));
        let field = text.skip(5);
        assert(" "@.is_prefix_of(field));
        assert(field.skip(1) =~= lines[0]);
        assert(v.buf.skip(n + 1) =~= framed(tail));
        assert(rest.event == event.push(lines[0]));
        assert(event.push(lines[0]) + tail =~= event + lines);
        assert forall|i: int| 0 <= i < tail.len() implies is_data_line(#[trigger] tail[i]) by {
            assert(tail[i] == lines[i + 1]);
        }
        lemma_frame_is_read(event.push(lines[0]), tail);
    }
}

/// A reader gives back what was sent: the frame of an event gives that event's
/// payload, nothing else, and leaves nothing behind.
pub proof fn law_framed_event_is_read_back(lines: Seq<Seq<char>>)
    requires
        lines.len() > 0,
        forall|i: int| 0 <= i < lines.len() ==> is_data_line(#[trigger] lines[i]),
    ensures
        SseView::empty().fed(framed(lines)).events() == seq![joined(lines, "\n"@)],
        SseView::empty().fed(framed(lines)).settled() == SseView::empty(),
{
    lemma_frame_is_read(Seq::empty(), lines);
    assert(SseView::empty().fed(framed(lines)) =~= SseView {
        buf: framed(lines),
        event: Seq::empty(),
    });
    assert(Seq::<Seq<char>>::empty() + lines =~= lines);
}

/// Carriage returns behind a text are trimmed off, and nothing else.
proof fn lemma_carriage_returns_are_trimmed(body: Seq<char>, crs: nat)
    requires
        body.len() > 0 ==> body.last() != '\r',
    ensures
        trimmed_end(body + Seq::new(crs, |i: int| '\r'), '\r') == body,
    decreases crs,
{
    let text = body + Seq::new(crs, |i: int| '\r');
    if crs == 0 {
        assert(text =~= body);
    } else {
        assert(text.drop_last() =~= body + Seq::new((crs - 1) as nat, |i: int| '\r'));
        lemma_carriage_returns_are_trimmed(body, (crs - 1) as nat);
    }
}

/// Reading one line off a buffer.
proof fn lemma_line_is_read(
    event: Seq<Seq<char>>,
    line: Seq<u8>,
    rest: Seq<u8>,
    body: Seq<char>,
    crs: nat,
)
    requires
        forall|i: int| 0 <= i < line.len() ==> #[trigger] line[i] != 10,
        utf8_lossy(line) == body + Seq::new(crs, |i: int| '\r'),
        body.len() > 0 ==> body.last() != '\r',
    ensures
        ({
            let v = SseView { buf: line + seq![10u8] + rest, event };
            &&& has_line(v.buf)
            &&& v.line() == body
            &&& v.after_line() == SseView { buf: rest, event: pending_after(event, body) }
        }),
{
    let v = SseView { buf: line + seq![10u8] + rest, event };
    let n = line.len() as int;
    assert forall|i: int| 0 <= i < n implies #[trigger] v.buf[i] != 10 by {
        assert(v.buf[i] == line[i]);
    }
    assert(v.buf[n] == 10);
    lemma_first_newline_is(v.buf, n);
    assert(v.buf.take(n) =~= line);
    assert(v.buf.skip(n + 1) =~= rest);
    lemma_carriage_returns_are_trimmed(body, crs);
}

/// A line that is not empty and does not start with `data:` is passed over: the
/// events, and the data lines that are pending, are those of the stream without
/// it. `body` is what the line holds before the carriage returns at its end.
pub proof fn law_other_lines_are_passed_over(
    event: Seq<Seq<char>>,
    line: Seq<u8>,
    rest: Seq<u8>,
    body: Seq<char>,
    crs: nat,
)
    requires
        forall|i: int| 0 <= i < line.len() ==> #[trigger] line[i] != 10,
        (if valid_utf8(line) {
            decode_utf8(line)
        } else {
            utf8_repaired(line)
        }) == body + Seq::new(crs, |i: int| '\r'),
        body.len() > 0,
        body.last() != '\r',
        body.len() < 5 || body.take(5) != seq!['d', 'a', 't', 'a', ':'],
    ensures
        (SseView { buf: line + seq![10u8] + rest, event }).events() == (SseView {
            buf: rest,
            event,
        }).events(),
        (SseView { buf: line + seq![10u8] + rest, event }).settled() == (SseView {
            buf: rest,
            event,
        }).settled(),
{
    lemma_line_is_read(event, line, rest, body, crs);
    reveal_strlit("data:");
    assert("data:"@ =~= seq!['d', 'a', 't', 'a', ':']);
    law_stripping_undoes_a_prefix("data:"@, Seq::empty(), body);
    if let Some(field) = stripped(body, "data:"@) {
        assert(body.take(5) =~= "data:"@);
    }
}

/// A line that starts with `data:` adds what follows to the pending data lines,
/// without the one space that may come first; no other line is touched, and no
/// event is ended.
pub proof fn law_data_lines_are_collected(
    event: Seq<Seq<char>>,
    line: Seq<u8>,
    rest: Seq<u8>,
    value: Seq<char>,
    crs: nat,
)
    requires
        forall|i: int| 0 <= i < line.len() ==> #[trigger] line[i] != 10,
        (if valid_utf8(line) {
            decode_utf8(line)
        } else {
            utf8_repaired(line)
        }) == seq!['d', 'a', 't', 'a', ':'] + value + Seq::new(crs, |i: int| '\r'),
        value.len() > 0 ==> value.last() != '\r',
    ensures
        ({
            let data = if value.len() > 0 && value[0] == ' ' {
                value.skip(1)
            } else {
                value
            };
            let before = SseView { buf: line + seq![10u8] + rest, event };
            let after = SseView { buf: rest, event: event.push(data) };
            before.events() == after.events() && before.settled() == after.settled()
        }),
{
    reveal_strlit("data:");
    reveal_strlit(" ");
    assert("data:"@ =~= seq!['d', 'a', 't', 'a', ':']);
    let body = "data:"@ + value;
    lemma_line_is_read(event, line, rest, body, crs);
    law_stripping_undoes_a_prefix("data:"@, value, body);
    law_stripping_undoes_a_prefix(" "@, value, value);
    if value.len() > 0 && value[0] == ' ' {
        assert(value =~= " "@ + value.skip(1));
        law_stripping_undoes_a_prefix(" "@, value.skip(1), value);
    } else if let Some(tail) = stripped(value, " "@) {
        assert(value[0] == ' ');
    }
}

/// An empty line ends the event: its payload is the pending data lines, joined
/// by newlines, and none is pending any more. Where none was, there is no event.
pub proof fn law_empty_line_ends_the_event(
    event: Seq<Seq<char>>,
    line: Seq<u8>,
    rest: Seq<u8>,
    crs: nat,
)
    requires
        forall|i: int| 0 <= i < line.len() ==> #[trigger] line[i] != 10,
        (if valid_utf8(line) {
            decode_utf8(line)
        } else {
            utf8_repaired(line)
        }) == Seq::new(crs, |i: int| '\r'),
    ensures
        ({
            let before = SseView { buf: line + seq![10u8] + rest, event };
            let after = SseView { buf: rest, event: Seq::empty() };
            &&& before.events() == if event.len() > 0 {
                seq![joined(event, seq!['\n'])] + after.events()
            } else {
                after.events()
            }
            &&& before.settled() == after.settled()
        }),
{
    let body = Seq::<char>::empty();
    assert(body + Seq::new(crs, |i: int| '\r') =~= Seq::new(crs, |i: int| '\r'));
    lemma_line_is_read(event, line, rest, body, crs);
    reveal_strlit("\n");
    assert("\n"@ =~= seq!['\n']);
}

/// A line that no newline ends makes no event, and is kept until the rest of it
/// comes.
pub proof fn law_unfinished_line_is_kept(v: SseView)
    requires
        forall|i: int| 0 <= i < v.buf.len() ==> #[trigger] v.buf[i] != 10,
    ensures
        v.events().len() == 0,
        v.settled() == v,
        v.next_event() == (v, None::<Seq<char>>),
{
    lemma_first_newline_is(v.buf, v.buf.len() as int);
}

/// After complete lines nothing is left in the buffer.
proof fn lemma_complete_lines_are_all_read(v: SseView)
    requires
        v.buf.len() > 0 ==> v.buf.last() == 10,
    ensures
        v.settled().buf.len() == 0,
    decreases v.buf.len(),
{
    lemma_first_newline_in_range(v.buf);
    if v.buf.len() > 0 {
        let n = first_newline(v.buf) as int;
        if n == v.buf.len() {
            assert(v.buf[n - 1] != 10);
        }
        let rest = v.after_line();
        if rest.buf.len() > 0 {
            assert(rest.buf.last() == v.buf.last());
        }
        lemma_complete_lines_are_all_read(rest);
    }
}

/// Wherever such a line stands in a stream, the stream gives the same events and
/// leaves the same behind as without it.
pub proof fn law_other_lines_can_be_left_out(
    v: SseView,
    before: Seq<u8>,
    line: Seq<u8>,
    after: Seq<u8>,
    body: Seq<char>,
    crs: nat,
)
    requires
        (v.buf + before).len() > 0 ==> (v.buf + before).last() == 10,
        forall|i: int| 0 <= i < line.len() ==> #[trigger] line[i] != 10,
        (if valid_utf8(line) {
            decode_utf8(line)
        } else {
            utf8_repaired(line)
        }) == body + Seq::new(crs, |i: int| '\r'),
        body.len() > 0,
        body.last() != '\r',
        body.len() < 5 || body.take(5) != seq!['d', 'a', 't', 'a', ':'],
    ensures
        v.fed(before + line + seq![10u8] + after).events() == v.fed(before + after).events(),
        v.fed(before + line + seq![10u8] + after).settled() == v.fed(before + after).settled(),
{
    let start = v.fed(before);
    let kept = start.settled();
    let with = line + seq![10u8] + after;
    lemma_complete_lines_are_all_read(start);
    lemma_feeding_continues(start, with);
    lemma_feeding_continues(start, after);
    assert(v.fed(before + line + seq![10u8] + after) =~= start.fed(with));
    assert(v.fed(before + after) =~= start.fed(after));
    assert(kept.fed(with) =~= SseView { buf: with, event: kept.event });
    assert(kept.fed(after) =~= SseView { buf: after, event: kept.event });
    law_other_lines_are_passed_over(kept.event, line, after, body, crs);
}

/// A reader starts with nothing, and keeps all bytes that come in, in order.
pub proof fn law_bytes_are_kept_in_order(v: SseView, chunk: Seq<u8>)
    ensures
        SseView::empty().buf.len() == 0,
        SseView::empty().event.len() == 0,
        v.fed(chunk).buf == v.buf + chunk,
        v.fed(chunk).event == v.event,
{
}

/// An event has a payload exactly if it has data lines: these, joined by
/// newlines.
pub proof fn law_payload_is_the_data_lines(event: Seq<Seq<char>>)
    ensures
        event.len() == 0 ==> payload(event) is None,
        event.len() > 0 ==> payload(event) == Some(joined(event, seq!['\n'])),
{
    reveal_strlit("\n");
    assert("\n"@ =~= seq!['\n']);
}

/// A reader of server-sent events.
pub struct SseReader {
    buf: Vec<u8>,
    current_event: Vec<String>,
}

impl View for SseReader {
    type V = SseView;

    closed spec fn view(&self) -> SseView {
        SseView { buf: self.buf@, event: strings(self.current_event@) }
    }
}

impl SseReader {
    /// A reader that has seen nothing.
    pub fn new() -> (r: SseReader)
        ensures
            r@ == SseView::empty(),
    {
        let r = SseReader { buf: Vec::new(), current_event: Vec::new() };
        assert(r@ =~= SseView::empty());
        r
    }

    /// Takes in the bytes that came next.
    pub fn feed(&mut self, chunk: &[u8])
        ensures
            final(self)@ == old(self)@.fed(chunk@),
    {
        let ghost before = self.buf@;
        for i in 0..chunk.len()
            invariant
                self.buf@ == before + chunk@.take(i as int),
                self.current_event@ == old(self).current_event@,
        {
            self.buf.push(chunk[i]);
            assert(chunk@.take(i + 1) =~= chunk@.take(i as int).push(chunk@[i as int]));
        }
        assert(chunk@.take(chunk@.len() as int) =~= chunk@);
    }

    /// Takes the line that the buffer starts with out of it, if there is a
    /// complete one.
    fn take_line(&mut self) -> (r: Option<String>)
        ensures
            r is Some == has_line(old(self)@.buf),
            match r {
                Some(line) => {
                    &&& line@ == old(self)@.line()
                    &&& final(self)@.buf == old(self)@.after_line().buf
                    &&& final(self)@.event == old(self)@.event
                },
                None => final(self)@ == old(self)@,
            },
    {
        let ghost start = self@;
        let mut n: usize = 0;
        while n < self.buf.len() && self.buf[n] != 10
            invariant
                n <= self.buf.len(),
                self@ == start,
                *self == *old(self),
                forall|i: int| 0 <= i < n ==> #[trigger] self.buf[i] != 10,
            decreases self.buf.len() - n,
        {
            n = n + 1;
        }
        proof {
            lemma_first_newline_is(self.buf@, n as int);
        }
        if n == self.buf.len() {
            return None;
        }
        let mut line = self.buf.split_off(n + 1);
        std::mem::swap(&mut line, &mut self.buf);
        line.truncate(n);
        assert(line@ =~= start.buf.take(n as int));
        assert(self.buf@ =~= start.buf.skip(n + 1));
        let text = from_utf8_lossy(line.as_slice());
        Some(trim_end(text.as_str(), '\r').to_owned())
    }

    /// Reads complete lines until they make an event, and returns its payload;
    /// `None` where no complete line is left.
    pub fn next_event(&mut self) -> (r: Option<String>)
        ensures
            (final(self)@, opt_text(r)) == old(self)@.next_event(),
    {
        let ghost start = self@;
        loop
            invariant
                self@.next_event() == start.next_event(),
                start == old(self)@,
            decreases self@.buf.len(),
        {
            let ghost before = self@;
            proof {
                lemma_first_newline_in_range(before.buf);
            }
            match self.take_line() {
                None => {
                    return None;
                },
                Some(line) => {
                    if line.as_str().is_empty() {
                        let event = self.finish();
                        assert(self@ =~= before.after_line());
                        if event.is_some() {
                            return event;
                        }
                    } else {
                        if let Some(field) = strip_prefix(line.as_str(), "data:") {
                            let value = match strip_prefix(field, " ") {
                                Some(value) => value,
                                None => field,
                            };
                            self.current_event.push(value.to_owned());
                        }
                        assert(self@ =~= before.after_line());
                    }
                },
            }
        }
    }

    /// Ends the event that is pending, and returns its payload if it has data
    /// lines. At the end of a stream this is its last event: a line that no
    /// newline ends is not part of it.
    pub fn finish(&mut self) -> (r: Option<String>)
        ensures
            opt_text(r) == payload(old(self)@.event),
            final(self)@ == (SseView { buf: old(self)@.buf, event: Seq::empty() }),
    {
        if self.current_event.is_empty() {
            assert(self@.event =~= Seq::empty());
            return None;
        }
        let data = join(&self.current_event, "\n");
        self.current_event.clear();
        assert(self@.event =~= Seq::empty());
        Some(data)
    }
}

} // verus!
