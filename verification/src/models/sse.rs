//! Server-sent events, decoded as their bytes arrive.

use crate::outcome;
use crate::text;
use vstd::prelude::*;
use vstd::utf8::*;

verus! {

/// Longest line of a stream, in bytes.
pub const MAX_SSE_LINE_BYTES: usize = 1048576;

/// Largest data of one event, in bytes.
pub const MAX_SSE_EVENT_BYTES: usize = 1048576;

/// Longest event name, in bytes.
pub const MAX_SSE_EVENT_NAME_BYTES: usize = 256;

/// One event of a stream.
#[derive(Clone, Debug, Eq, PartialEq)]
pub struct SseEvent {
    pub event: Option<String>,
    pub data: String,
}

/// An event by its texts.
pub struct SseEventView {
    pub event: Option<Seq<char>>,
    pub data: Seq<char>,
}

impl DeepView for SseEvent {
    type V = SseEventView;

    open spec fn deep_view(&self) -> SseEventView {
        SseEventView { event: self.event.deep_view(), data: self.data@ }
    }
}

/// Why a stream cannot be decoded.
#[derive(Clone, Copy, Debug, PartialEq, Eq, Structural)]
pub enum SseError {
    LineTooLarge,
    EventTooLarge,
    InvalidEventName,
    InvalidUtf8,
    IncompleteEvent,
}

impl DeepView for SseError {
    type V = SseError;

    open spec fn deep_view(&self) -> SseError {
        *self
    }
}

impl SseError {
    /// The error in words.
    pub open spec fn message_spec(self) -> Seq<char> {
        match self {
            SseError::LineTooLarge => "SSE line exceeded its byte limit"@,
            SseError::EventTooLarge => "SSE event exceeded its byte limit"@,
            SseError::InvalidEventName => "SSE event name is invalid"@,
            SseError::InvalidUtf8 => "SSE stream contained invalid UTF-8"@,
            SseError::IncompleteEvent => "SSE stream ended inside an event"@,
        }
    }

    /// The error in words.
    pub fn message(self) -> (r: &'static str)
        ensures
            r@ == self.message_spec(),
    {
        match self {
            SseError::LineTooLarge => "SSE line exceeded its byte limit",
            SseError::EventTooLarge => "SSE event exceeded its byte limit",
            SseError::InvalidEventName => "SSE event name is invalid",
            SseError::InvalidUtf8 => "SSE stream contained invalid UTF-8",
            SseError::IncompleteEvent => "SSE stream ended inside an event",
        }
    }
}

/// Incremental UTF-8 server-sent-event decoder with strict memory bounds.
pub struct SseDecoder {
    pending_line: Vec<u8>,
    event_name: Option<String>,
    data: String,
    has_data: bool,
}

/// What a decoder holds: the bytes behind the last line feed, and the event that
/// the lines before them have begun.
pub struct SseState {
    pub pending: Seq<u8>,
    pub event_name: Option<Seq<char>>,
    pub data: Seq<char>,
    pub has_data: bool,
}

impl DeepView for SseDecoder {
    type V = SseState;

    closed spec fn deep_view(&self) -> SseState {
        SseState {
            pending: self.pending_line@,
            event_name: self.event_name.deep_view(),
            data: self.data@,
            has_data: self.has_data,
        }
    }
}

impl SseState {
    /// The state of a decoder that has seen nothing.
    pub open spec fn fresh() -> SseState {
        SseState {
            pending: Seq::empty(),
            event_name: None,
            data: Seq::empty(),
            has_data: false,
        }
    }

    /// Whether the pending bytes are part of one line within the limit. So they
    /// are in a fresh decoder, and as long as every chunk is accepted.
    pub open spec fn valid(self) -> bool {
        line_end(self.pending, 0) is None && self.pending.len() <= MAX_SSE_LINE_BYTES
    }

    /// This state with other pending bytes.
    pub open spec fn holding(self, pending: Seq<u8>) -> SseState {
        SseState { pending, ..self }
    }
}

/// What the empty line does: it ends an event, which counts if it has data.
pub open spec fn dispatch_spec(st: SseState) -> (SseState, Option<SseEventView>) {
    if !st.has_data {
        (SseState { event_name: None, ..st }, None)
    } else {
        (
            SseState { event_name: None, data: Seq::empty(), has_data: false, ..st },
            Some(SseEventView { event: st.event_name, data: st.data }),
        )
    }
}

/// The name and the value of a field line; one space behind the colon is dropped.
pub open spec fn field_spec(line: Seq<char>) -> (Seq<char>, Seq<char>) {
    match text::split_once_spec(line, ":"@) {
        None => (line, Seq::empty()),
        Some((field, value)) => (
            field,
            if value.len() > 0 && value[0] == ' ' {
                value.drop_first()
            } else {
                value
            },
        ),
    }
}

/// What one line, without its line ending, does.
pub open spec fn line_spec(st: SseState, line: Seq<u8>) -> (
    SseState,
    Result<Option<SseEventView>, SseError>,
) {
    if line.len() == 0 {
        (dispatch_spec(st).0, Ok(dispatch_spec(st).1))
    } else if line[0] == 58 {
        (st, Ok(None))
    } else if !valid_utf8(line) {
        (st, Err(SseError::InvalidUtf8))
    } else {
        let (field, value) = field_spec(decode_utf8(line));
        if field == "event"@ {
            if text::utf8_len(value) > MAX_SSE_EVENT_NAME_BYTES || value.contains('\0') {
                (st, Err(SseError::InvalidEventName))
            } else {
                (SseState { event_name: Some(value), ..st }, Ok(None))
            }
        } else if field == "data"@ {
            let separator: nat = if st.has_data {
                1
            } else {
                0
            };
            if text::utf8_len(st.data) + separator + text::utf8_len(value) > MAX_SSE_EVENT_BYTES {
                (st, Err(SseError::EventTooLarge))
            } else {
                let so_far = if st.has_data {
                    st.data.push('\n')
                } else {
                    st.data
                };
                (SseState { data: so_far + value, has_data: true, ..st }, Ok(None))
            }
        } else {
            (st, Ok(None))
        }
    }
}

/// The position of the first line feed from `i` on.
pub open spec fn line_end(bytes: Seq<u8>, i: int) -> Option<int>
    decreases bytes.len() - i,
{
    if i < 0 || i >= bytes.len() {
        None
    } else if bytes[i] == 10 {
        Some(i)
    } else {
        line_end(bytes, i + 1)
    }
}

/// `line` without a carriage return at its end.
pub open spec fn without_cr(line: Seq<u8>) -> Seq<u8> {
    if line.len() > 0 && line.last() == 13 {
        line.drop_last()
    } else {
        line
    }
}

/// What a line end found is.
pub proof fn lemma_line_end(bytes: Seq<u8>, i: int)
    requires
        0 <= i,
    ensures
        match line_end(bytes, i) {
            Some(end) => i <= end < bytes.len() && bytes[end] == 10 && forall|k: int|
                i <= k < end ==> bytes[k] != 10,
            None => forall|k: int| i <= k < bytes.len() ==> bytes[k] != 10,
        },
    decreases bytes.len() - i,
{
    if i < bytes.len() && bytes[i] != 10 {
        lemma_line_end(bytes, i + 1);
    }
}

/// What the lines of `bytes` do, and the state that they leave. The events that
/// came before are given.
pub open spec fn drain_spec(st: SseState, bytes: Seq<u8>, events: Seq<SseEventView>) -> (
    SseState,
    Result<Seq<SseEventView>, SseError>,
)
    decreases bytes.len(),
{
    match line_end(bytes, 0) {
        None => if bytes.len() > MAX_SSE_LINE_BYTES {
            (st.holding(bytes), Err(SseError::LineTooLarge))
        } else {
            (st.holding(bytes), Ok(events))
        },
        Some(end) => {
            proof {
                lemma_line_end(bytes, 0);
            }
            let line = without_cr(bytes.take(end));
            let rest = bytes.skip(end + 1);
            if line.len() > MAX_SSE_LINE_BYTES {
                (st.holding(rest), Err(SseError::LineTooLarge))
            } else {
                match line_spec(st, line) {
                    (next, Err(e)) => (next.holding(rest), Err(e)),
                    (next, Ok(None)) => drain_spec(next, rest, events),
                    (next, Ok(Some(event))) => drain_spec(next, rest, events.push(event)),
                }
            }
        },
    }
}

/// What a chunk of bytes does.
pub open spec fn push_spec(st: SseState, chunk: Seq<u8>) -> (
    SseState,
    Result<Seq<SseEventView>, SseError>,
) {
    if st.pending.len() + chunk.len() > MAX_SSE_LINE_BYTES && !chunk.contains(10u8) {
        (st, Err(SseError::LineTooLarge))
    } else {
        drain_spec(st, st.pending + chunk, Seq::empty())
    }
}

/// Whether a stream may end in this state.
pub open spec fn complete(st: SseState) -> bool {
    st.pending.len() == 0 && st.event_name is None && st.data.len() == 0 && !st.has_data
}

fn find_line_end(bytes: &Vec<u8>, from: usize) -> (r: Option<usize>)
    requires
        from <= bytes@.len(),
    ensures
        match r {
            Some(end) => line_end(bytes@, from as int) == Some(end as int) && from <= end
                < bytes@.len(),
            None => line_end(bytes@, from as int) is None,
        },
{
    let mut i: usize = from;
    while i < bytes.len()
        invariant
            from <= i <= bytes@.len(),
            line_end(bytes@, from as int) == line_end(bytes@, i as int),
        decreases bytes@.len() - i,
    {
        if bytes[i] == 10 {
            return Some(i);
        }
        i += 1;
    }
    None
}

fn copy_bytes(bytes: &Vec<u8>, from: usize, to: usize) -> (r: Vec<u8>)
    requires
        from <= to <= bytes@.len(),
    ensures
        r@ == bytes@.subrange(from as int, to as int),
{
    let mut out: Vec<u8> = Vec::new();
    let mut i: usize = from;
    while i < to
        invariant
            from <= i <= to <= bytes@.len(),
            out@ == bytes@.subrange(from as int, i as int),
        decreases to - i,
    {
        out.push(bytes[i]);
        i += 1;
        assert(bytes@.subrange(from as int, i as int) =~= bytes@.subrange(
            from as int,
            i as int - 1,
        ).push(bytes@[i as int - 1]));
    }
    out
}

fn has_line_feed(bytes: &[u8]) -> (r: bool)
    ensures
        r == bytes@.contains(10u8),
{
    let mut i: usize = 0;
    while i < bytes.len()
        invariant
            i <= bytes@.len(),
            forall|k: int| 0 <= k < i ==> bytes@[k] != 10,
        decreases bytes@.len() - i,
    {
        if bytes[i] == 10 {
            assert(bytes@[i as int] == 10u8);
            return true;
        }
        i += 1;
    }
    false
}

/// Where a line found from `from` on stands in what follows `from`.
proof fn lemma_line_end_skip(bytes: Seq<u8>, from: int, i: int)
    requires
        0 <= from <= bytes.len(),
        0 <= i,
    ensures
        match line_end(bytes, from + i) {
            Some(end) => line_end(bytes.skip(from), i) == Some(end - from),
            None => line_end(bytes.skip(from), i) is None,
        },
    decreases bytes.len() - from - i,
{
    if from + i < bytes.len() && bytes[from + i] != 10 {
        lemma_line_end_skip(bytes, from, i + 1);
    }
}

impl SseDecoder {
    /// A decoder at the start of a stream.
    pub fn new() -> (r: SseDecoder)
        ensures
            r.deep_view() == SseState::fresh(),
    {
        SseDecoder {
            pending_line: Vec::new(),
            event_name: None,
            data: String::new(),
            has_data: false,
        }
    }

    /// Takes the next bytes of the stream and hands out the events that they
    /// complete.
    pub fn push(&mut self, chunk: &[u8]) -> (r: Result<Vec<SseEvent>, SseError>)
        ensures
            (final(self).deep_view(), outcome::of(r)) == push_spec(old(self).deep_view(), chunk@),
    {
        let ghost start = self.deep_view();
        if self.pending_line.len().saturating_add(chunk.len()) > MAX_SSE_LINE_BYTES
            && !has_line_feed(chunk) {
            return Err(SseError::LineTooLarge);
        }
        let mut bytes: Vec<u8> = Vec::new();
        std::mem::swap(&mut bytes, &mut self.pending_line);
        bytes.extend_from_slice(chunk);
        assert(bytes@ =~= start.pending + chunk@);
        let mut events: Vec<SseEvent> = Vec::new();
        let mut from: usize = 0;
        assert(bytes@.skip(0) =~= bytes@);
        assert(events.deep_view() =~= Seq::<SseEventView>::empty());
        assert(push_spec(start, chunk@) == drain_spec(
            self.deep_view(),
            bytes@.skip(from as int),
            events.deep_view(),
        )) by {
            lemma_drain_ignores_pending(start, self.deep_view(), bytes@, Seq::empty());
        }
        let mut end = find_line_end(&bytes, from);
        while end.is_some()
            invariant
                from <= bytes@.len(),
                bytes@.len() == bytes.len(),
                start == old(self).deep_view(),
                match end {
                    Some(e) => line_end(bytes@, from as int) == Some(e as int) && from <= e
                        < bytes@.len(),
                    None => line_end(bytes@, from as int) is None,
                },
                push_spec(start, chunk@) == drain_spec(
                    self.deep_view(),
                    bytes@.skip(from as int),
                    events.deep_view(),
                ),
            decreases bytes@.len() - from,
        {
            let e: usize = end.unwrap();
            let mut to: usize = e;
            if to > from && bytes[to - 1] == 13 {
                to -= 1;
            }
            proof {
                lemma_line_end_skip(bytes@, from as int, 0);
                assert(bytes@.skip(from as int).take(e - from) =~= bytes@.subrange(
                    from as int,
                    e as int,
                ));
                assert(bytes@.subrange(from as int, to as int) =~= without_cr(
                    bytes@.subrange(from as int, e as int),
                ));
                assert(bytes@.skip(from as int).skip(e - from + 1) =~= bytes@.skip(e as int + 1));
                assert(bytes@.subrange(e as int + 1, bytes@.len() as int) =~= bytes@.skip(
                    e as int + 1,
                ));
            }
            let line = copy_bytes(&bytes, from, to);
            if line.len() > MAX_SSE_LINE_BYTES {
                self.pending_line = copy_bytes(&bytes, e + 1, bytes.len());
                return Err(SseError::LineTooLarge);
            }
            let ghost before = events.deep_view();
            match self.process_line(line.as_slice()) {
                Err(error) => {
                    self.pending_line = copy_bytes(&bytes, e + 1, bytes.len());
                    return Err(error);
                },
                Ok(Some(event)) => {
                    events.push(event);
                    assert(events.deep_view() =~= before.push(event.deep_view()));
                },
                Ok(None) => {},
            }
            from = e + 1;
            end = find_line_end(&bytes, from);
        }
        proof {
            lemma_line_end_skip(bytes@, from as int, 0);
            assert(bytes@.subrange(from as int, bytes@.len() as int) =~= bytes@.skip(from as int));
        }
        self.pending_line = copy_bytes(&bytes, from, bytes.len());
        if self.pending_line.len() > MAX_SSE_LINE_BYTES {
            return Err(SseError::LineTooLarge);
        }
        Ok(events)
    }

    /// Ends the stream, which must not stand inside an event.
    pub fn finish(self) -> (r: Result<(), SseError>)
        ensures
            r == (if complete(self.deep_view()) {
                Ok::<(), SseError>(())
            } else {
                Err(SseError::IncompleteEvent)
            }),
    {
        if self.pending_line.is_empty() && self.event_name.is_none()
            && self.data.as_str().is_empty() && !self.has_data {
            Ok(())
        } else {
            Err(SseError::IncompleteEvent)
        }
    }

    /// Takes one line, without its line ending.
    pub fn process_line(&mut self, line: &[u8]) -> (r: Result<Option<SseEvent>, SseError>)
        ensures
            (final(self).deep_view(), outcome::of(r)) == line_spec(old(self).deep_view(), line@),
    {
        if line.len() == 0 {
            return Ok(self.dispatch());
        }
        if line[0] == 58 {
            return Ok(None);
        }
        let content = match text::utf8_text(line) {
            Some(content) => content,
            None => {
                return Err(SseError::InvalidUtf8);
            },
        };
        let (field, value) = match text::split_once(content.as_str(), ":") {
            None => (content, String::new()),
            Some((field, value)) => {
                let chars = text::chars_of(value.as_str());
                if chars.len() > 0 && chars[0] == ' ' {
                    let rest = text::text_of(&chars, 1, chars.len());
                    assert(rest@ =~= value@.drop_first());
                    (field, rest)
                } else {
                    (field, value)
                }
            },
        };
        if text::same(field.as_str(), "event") {
            if text::byte_len(value.as_str()) > MAX_SSE_EVENT_NAME_BYTES || text::contains_char(
                value.as_str(),
                '\0',
            ) {
                return Err(SseError::InvalidEventName);
            }
            self.event_name = Some(value);
        } else if text::same(field.as_str(), "data") {
            let separator: usize = if self.has_data {
                1
            } else {
                0
            };
            if text::byte_len(self.data.as_str()).saturating_add(separator).saturating_add(
                text::byte_len(value.as_str()),
            ) > MAX_SSE_EVENT_BYTES {
                return Err(SseError::EventTooLarge);
            }
            if self.has_data {
                self.data.push('\n');
            }
            self.data.push_str(value.as_str());
            self.has_data = true;
        }
        Ok(None)
    }

    /// Ends the event that the lines so far have begun.
    pub fn dispatch(&mut self) -> (r: Option<SseEvent>)
        ensures
            (final(self).deep_view(), r.deep_view()) == dispatch_spec(old(self).deep_view()),
    {
        if !self.has_data {
            self.event_name = None;
            return None;
        }
        let mut data = String::new();
        std::mem::swap(&mut data, &mut self.data);
        let event = self.event_name.take();
        self.has_data = false;
        Some(SseEvent { event, data })
    }
}

/// The lines of a chunk do the same whatever bytes were pending, once those have
/// been put before the chunk.
proof fn lemma_drain_ignores_pending(
    a: SseState,
    b: SseState,
    bytes: Seq<u8>,
    events: Seq<SseEventView>,
)
    requires
        a.holding(bytes) == b.holding(bytes),
    ensures
        drain_spec(a, bytes, events) == drain_spec(b, bytes, events),
    decreases bytes.len(),
{
    if let Some(end) = line_end(bytes, 0) {
        lemma_line_end(bytes, 0);
        let line = without_cr(bytes.take(end));
        let rest = bytes.skip(end + 1);
        let (na, ra) = line_spec(a, line);
        let (nb, rb) = line_spec(b, line);
        assert(ra == rb);
        assert(na.holding(rest) == nb.holding(rest));
        match ra {
            Err(_) => {},
            Ok(None) => {
                lemma_drain_ignores_pending(na, nb, rest, events);
            },
            Ok(Some(event)) => {
                lemma_drain_ignores_pending(na, nb, rest, events.push(event));
            },
        }
    }
}


proof fn lemma_drain_prefix(st: SseState, bytes: Seq<u8>, more: Seq<u8>, events: Seq<SseEventView>)
    requires
        drain_spec(st, bytes, events).1 is Ok,
    ensures
        ({
            let (mid, out) = drain_spec(st, bytes, events);
            drain_spec(st, bytes + more, events) == drain_spec(mid, mid.pending + more, out->Ok_0)
        }),
    decreases bytes.len(),
{
    lemma_line_end(bytes, 0);
    lemma_line_end(bytes + more, 0);
    match line_end(bytes, 0) {
        None => {
            lemma_drain_ignores_pending(st, st.holding(bytes), bytes + more, events);
        },
        Some(end) => {
            let line = without_cr(bytes.take(end));
            let rest = bytes.skip(end + 1);
            assert((bytes + more)[end] == 10);
            assert(line_end(bytes + more, 0) == Some(end)) by {
                let other = line_end(bytes + more, 0)->0;
                if other < end {
                    assert((bytes + more)[other] == bytes[other]);
                }
            }
            assert((bytes + more).take(end) =~= bytes.take(end));
            assert((bytes + more).skip(end + 1) =~= rest + more);
            match line_spec(st, line) {
                (next, Err(_)) => {},
                (next, Ok(None)) => {
                    lemma_drain_prefix(next, rest, more, events);
                },
                (next, Ok(Some(event))) => {
                    lemma_drain_prefix(next, rest, more, events.push(event));
                },
            }
        },
    }
}

proof fn lemma_drain_events(st: SseState, bytes: Seq<u8>, before: Seq<SseEventView>)
    ensures
        drain_spec(st, bytes, before).0 == drain_spec(st, bytes, Seq::empty()).0,
        match drain_spec(st, bytes, Seq::empty()).1 {
            Ok(events) => drain_spec(st, bytes, before).1 == Ok::<Seq<SseEventView>, SseError>(
                before + events,
            ),
            Err(e) => drain_spec(st, bytes, before).1 == Err::<Seq<SseEventView>, SseError>(e),
        },
    decreases bytes.len(),
{
    assert(before + Seq::<SseEventView>::empty() =~= before);
    if let Some(end) = line_end(bytes, 0) {
        lemma_line_end(bytes, 0);
        let line = without_cr(bytes.take(end));
        let rest = bytes.skip(end + 1);
        match line_spec(st, line) {
            (next, Err(_)) => {},
            (next, Ok(None)) => {
                lemma_drain_events(next, rest, before);
            },
            (next, Ok(Some(event))) => {
                let one = Seq::<SseEventView>::empty().push(event);
                lemma_drain_events(next, rest, before.push(event));
                lemma_drain_events(next, rest, one);
                if let Ok(events) = drain_spec(next, rest, Seq::empty()).1 {
                    assert(before.push(event) + events =~= before + (one + events));
                }
            },
        }
    }
}

/// How a stream of any length is cut into chunks does not matter: if two chunks are accepted one
/// after the other, then they are accepted as one, with the same events and the
/// same state behind them.
pub proof fn law_chunking_does_not_matter(st: SseState, a: Seq<u8>, b: Seq<u8>)
    requires
        st.valid(),
        push_spec(st, a).1 is Ok,
        push_spec(push_spec(st, a).0, b).1 is Ok,
    ensures
        push_spec(st, a + b).0 == push_spec(push_spec(st, a).0, b).0,
        push_spec(st, a + b).1 == Ok::<Seq<SseEventView>, SseError>(
            push_spec(st, a).1->Ok_0 + push_spec(push_spec(st, a).0, b).1->Ok_0,
        ),
{
    let (mid, first) = push_spec(st, a);
    let events = first->Ok_0;
    lemma_drain_prefix(st, st.pending + a, b, Seq::empty());
    assert((st.pending + a) + b =~= st.pending + (a + b));
    lemma_drain_events(mid, mid.pending + b, events);
    if st.pending.len() + (a + b).len() > MAX_SSE_LINE_BYTES && !(a + b).contains(10u8) {
        assert forall|i: int| 0 <= i < a.len() implies a[i] != 10 by {
            assert((a + b)[i] == a[i]);
        }
        assert forall|i: int| 0 <= i < b.len() implies b[i] != 10 by {
            assert((a + b)[a.len() + i] == b[i]);
        }
        lemma_pending_grows(st, a);
        assert(!b.contains(10u8));
        assert(false);
    }
}

/// Bytes without a line feed are added to those that are pending.
proof fn lemma_pending_grows(st: SseState, a: Seq<u8>)
    requires
        st.valid(),
        push_spec(st, a).1 is Ok,
        forall|i: int| 0 <= i < a.len() ==> a[i] != 10,
    ensures
        push_spec(st, a).0.pending == st.pending + a,
{
    lemma_line_end(st.pending + a, 0);
    lemma_line_end(st.pending, 0);
}

/// Of bytes within the line limit, those in front fail as all of them do, and leave no
/// more pending than they are.
proof fn lemma_drain_front(st: SseState, bytes: Seq<u8>, more: Seq<u8>, events: Seq<SseEventView>)
    requires
        bytes.len() + more.len() <= MAX_SSE_LINE_BYTES,
    ensures
        match drain_spec(st, bytes, events) {
            (mid, Ok(_)) => mid.pending.len() <= bytes.len(),
            (_, Err(e)) => drain_spec(st, bytes + more, events).1 == Err::<
                Seq<SseEventView>,
                SseError,
            >(e),
        },
    decreases bytes.len(),
{
    lemma_line_end(bytes, 0);
    lemma_line_end(bytes + more, 0);
    if let Some(end) = line_end(bytes, 0) {
        let line = without_cr(bytes.take(end));
        let rest = bytes.skip(end + 1);
        assert((bytes + more)[end] == 10);
        assert(line_end(bytes + more, 0) == Some(end)) by {
            let other = line_end(bytes + more, 0)->0;
            if other < end {
                assert((bytes + more)[other] == bytes[other]);
            }
        }
        assert((bytes + more).take(end) =~= bytes.take(end));
        assert((bytes + more).skip(end + 1) =~= rest + more);
        match line_spec(st, line) {
            (next, Err(_)) => {},
            (next, Ok(None)) => {
                lemma_drain_front(next, rest, more, events);
            },
            (next, Ok(Some(event))) => {
                lemma_drain_front(next, rest, more, events.push(event));
            },
        }
    }
}

/// What chunks do that are taken one after the other, up to the first that is refused.
pub open spec fn push_each_spec(st: SseState, chunks: Seq<Seq<u8>>) -> (
    SseState,
    Result<Seq<SseEventView>, SseError>,
)
    decreases chunks.len(),
{
    if chunks.len() == 0 {
        (st, Ok(Seq::empty()))
    } else {
        match push_spec(st, chunks[0]) {
            (next, Err(e)) => (next, Err(e)),
            (next, Ok(events)) => match push_each_spec(next, chunks.drop_first()) {
                (last, Err(e)) => (last, Err(e)),
                (last, Ok(more)) => (last, Ok(events + more)),
            },
        }
    }
}

/// A stream within the line limit does the same however it is cut: it is accepted in
/// pieces if and only if it is accepted whole, with the same events and the same state
/// behind them, and what refuses it is the same error.
pub proof fn law_cuts_do_not_matter(st: SseState, chunks: Seq<Seq<u8>>)
    requires
        st.valid(),
        st.pending.len() + chunks.flatten().len() <= MAX_SSE_LINE_BYTES,
    ensures
        push_each_spec(st, chunks).1 == push_spec(st, chunks.flatten()).1,
        push_spec(st, chunks.flatten()).1 is Ok ==> push_each_spec(st, chunks).0 == push_spec(
            st,
            chunks.flatten(),
        ).0,
    decreases chunks.len(),
{
    let whole = chunks.flatten();
    if chunks.len() == 0 {
        assert(st.pending + whole =~= st.pending);
    } else {
        let a = chunks[0];
        let b = chunks.drop_first().flatten();
        assert(whole == a + b);
        assert((st.pending + a) + b =~= st.pending + whole);
        lemma_drain_front(st, st.pending + a, b, Seq::empty());
        if let (mid, Ok(events)) = push_spec(st, a) {
            lemma_drain_prefix(st, st.pending + a, b, Seq::empty());
            lemma_drain_valid(st, st.pending + a, Seq::empty());
            law_cuts_do_not_matter(mid, chunks.drop_first());
            lemma_drain_events(mid, mid.pending + b, events);
        }
    }
}

proof fn lemma_drain_valid(st: SseState, bytes: Seq<u8>, events: Seq<SseEventView>)
    ensures
        drain_spec(st, bytes, events).1 is Ok ==> drain_spec(st, bytes, events).0.valid(),
    decreases bytes.len(),
{
    if let Some(end) = line_end(bytes, 0) {
        lemma_line_end(bytes, 0);
        let line = without_cr(bytes.take(end));
        let rest = bytes.skip(end + 1);
        match line_spec(st, line) {
            (next, Err(_)) => {},
            (next, Ok(None)) => {
                lemma_drain_valid(next, rest, events);
            },
            (next, Ok(Some(event))) => {
                lemma_drain_valid(next, rest, events.push(event));
            },
        }
    }
}

/// A fresh decoder holds nothing, and a decoder that accepts a chunk holds at most
/// one unfinished line within the limit.
pub proof fn law_pending_stays_bounded(st: SseState, chunk: Seq<u8>)
    ensures
        SseState::fresh().valid(),
        complete(SseState::fresh()),
        push_spec(st, chunk).1 is Ok ==> push_spec(st, chunk).0.valid(),
{
    lemma_drain_valid(st, st.pending + chunk, Seq::empty());
}

} // verus!
