//! Laws of server-sent events: what is written as an event is read as that event.

use crate::models::sse;
use crate::models::sse::{SseEventView, SseState};
use crate::text;
use vstd::prelude::*;
use vstd::utf8::*;

verus! {

/// Whether bytes are a text that fits on one line: they hold no line feed, and no carriage
/// return stands where it would belong to the line's end.
pub open spec fn fits_on_a_line(v: Seq<u8>) -> bool {
    &&& valid_utf8(v)
    &&& forall|i: int| 0 <= i < v.len() ==> #[trigger] v[i] != 10
    &&& v.len() > 0 ==> v.last() != 13
    &&& v.len() <= 1024 * 1024 - 7
}

/// The line `data: ` with a value.
pub open spec fn data_line(v: Seq<u8>) -> Seq<u8> {
    seq![100u8, 97, 116, 97, 58, 32] + v
}

/// The line `event: ` with a value.
pub open spec fn name_line(v: Seq<u8>) -> Seq<u8> {
    seq![101u8, 118, 101, 110, 116, 58, 32] + v
}

/// Lines of data, each with its end.
pub open spec fn data_lines(values: Seq<Seq<u8>>) -> Seq<u8>
    decreases values.len(),
{
    if values.len() == 0 {
        Seq::empty()
    } else {
        data_lines(values.drop_last()) + data_line(values.last()).push(10)
    }
}

/// An event as it is written: its name, if it has one, its data line by line, and an empty
/// line.
pub open spec fn written(name: Option<Seq<u8>>, values: Seq<Seq<u8>>) -> Seq<u8> {
    (match name {
        Some(n) => name_line(n).push(10),
        None => Seq::empty(),
    }) + data_lines(values) + seq![10u8]
}

/// The data of an event: its lines with line feeds between.
pub open spec fn data_of(values: Seq<Seq<u8>>) -> Seq<char>
    decreases values.len(),
{
    if values.len() == 0 {
        Seq::empty()
    } else if values.len() == 1 {
        decode_utf8(values[0])
    } else {
        data_of(values.drop_last()).push('\n') + decode_utf8(values.last())
    }
}

proof fn lemma_line(line: Seq<u8>, rest: Seq<u8>)
    requires
        forall|i: int| 0 <= i < line.len() ==> #[trigger] line[i] != 10,
    ensures
        sse::line_end(line.push(10) + rest, 0) == Some(line.len() as int),
        (line.push(10) + rest).take(line.len() as int) == line,
        (line.push(10) + rest).skip(line.len() as int + 1) == rest,
{
    let all = line.push(10) + rest;
    sse::lemma_line_end(all, 0);
    assert(all[line.len() as int] == 10);
    match sse::line_end(all, 0) {
        Some(end) => {
            if end < line.len() {
                assert(all[end] == line[end]);
            }
        },
        None => {},
    }
    assert(all.take(line.len() as int) =~= line);
    assert(all.skip(line.len() as int + 1) =~= rest);
}

proof fn lemma_labelled(label: Seq<char>, prefix: Seq<u8>, v: Seq<u8>)
    requires
        label.len() == prefix.len(),
        forall|i: int|
            0 <= i < label.len() ==> '\0' <= #[trigger] label[i] <= '\u{7f}' && label[i] as u8
                == prefix[i],
        valid_utf8(v),
    ensures
        valid_utf8(prefix + v),
        decode_utf8(prefix + v) == label + decode_utf8(v),
{
    is_ascii_chars_encode_utf8(label);
    assert(encode_utf8(label) =~= prefix);
    decode_utf8_encode_utf8(v);
    text::lemma_encode_concat(label, decode_utf8(v));
    encode_utf8_decode_utf8(label + decode_utf8(v));
    encode_utf8_valid_utf8(label + decode_utf8(v));
}

/// The value of a field is what stands behind the colon and one space.
proof fn lemma_field(field: Seq<char>, value: Seq<char>)
    requires
        forall|i: int| 0 <= i < field.len() ==> #[trigger] field[i] != ':',
    ensures
        sse::field_spec(field + seq![':', ' '] + value) == (field, value),
{
    let line = field + seq![':', ' '] + value;
    reveal_strlit(":");
    let pat = ":"@;
    assert(pat =~= seq![':']);
    text::lemma_find_from(line, pat, 0);
    let at = field.len() as int;
    assert(line.subrange(at, at + 1) =~= pat);
    assert(text::occurs_at(line, pat, at));
    assert forall|j: int| 0 <= j < at implies !text::occurs_at(line, pat, j) by {
        if text::occurs_at(line, pat, j) {
            assert(line.subrange(j, j + 1)[0] == ':');
            assert(line[j] == field[j]);
        }
    }
    assert(text::find_from(line, pat, 0) == Some(at));
    assert(line.take(at) =~= field);
    assert(line.skip(at + 1) =~= seq![' '] + value);
    assert(line.skip(at + 1).drop_first() =~= value);
}

proof fn lemma_data_line(st: SseState, v: Seq<u8>)
    requires
        fits_on_a_line(v),
    ensures
        ({
            let so_far = if st.has_data {
                st.data.push('\n')
            } else {
                st.data
            };
            text::utf8_len(so_far) + v.len() <= sse::MAX_SSE_EVENT_BYTES ==> sse::line_spec(
                st,
                data_line(v),
            ) == (
                SseState { data: so_far + decode_utf8(v), has_data: true, ..st },
                Ok::<Option<SseEventView>, sse::SseError>(None),
            )
        }),
{
    let prefix = seq![100u8, 97, 116, 97, 58, 32];
    let label = seq!['d', 'a', 't', 'a', ':', ' '];
    lemma_labelled(label, prefix, v);
    let field = seq!['d', 'a', 't', 'a'];
    lemma_field(field, decode_utf8(v));
    assert(label + decode_utf8(v) =~= field + seq![':', ' '] + decode_utf8(v));
    reveal_strlit("data");
    reveal_strlit("event");
    assert("data"@ =~= field);
    assert("event"@.len() == 5);
    decode_utf8_encode_utf8(v);
    text::lemma_encode_concat(st.data, seq!['\n']);
    assert(st.data + seq!['\n'] =~= st.data.push('\n'));
    is_ascii_chars_encode_utf8(seq!['\n']);
    assert(data_line(v)[0] == 100);
}

proof fn lemma_name_line(st: SseState, v: Seq<u8>)
    requires
        fits_on_a_line(v),
        v.len() <= sse::MAX_SSE_EVENT_NAME_BYTES,
        !decode_utf8(v).contains('\0'),
    ensures
        sse::line_spec(st, name_line(v)) == (
            SseState { event_name: Some(decode_utf8(v)), ..st },
            Ok::<Option<SseEventView>, sse::SseError>(None),
        ),
{
    let prefix = seq![101u8, 118, 101, 110, 116, 58, 32];
    let label = seq!['e', 'v', 'e', 'n', 't', ':', ' '];
    lemma_labelled(label, prefix, v);
    let field = seq!['e', 'v', 'e', 'n', 't'];
    lemma_field(field, decode_utf8(v));
    assert(label + decode_utf8(v) =~= field + seq![':', ' '] + decode_utf8(v));
    reveal_strlit("event");
    assert("event"@ =~= field);
    decode_utf8_encode_utf8(v);
    assert(name_line(v)[0] == 101);
}

proof fn lemma_drain(st: SseState, line: Seq<u8>, rest: Seq<u8>, events: Seq<SseEventView>)
    requires
        forall|i: int| 0 <= i < line.len() ==> #[trigger] line[i] != 10,
        line.len() > 0 ==> line.last() != 13,
        line.len() <= sse::MAX_SSE_LINE_BYTES,
    ensures
        sse::drain_spec(st, line.push(10) + rest, events) == (match sse::line_spec(st, line) {
            (next, Err(e)) => (next.holding(rest), Err(e)),
            (next, Ok(None)) => sse::drain_spec(next, rest, events),
            (next, Ok(Some(event))) => sse::drain_spec(next, rest, events.push(event)),
        }),
{
    lemma_line(line, rest);
}

/// How many bytes data takes when its lines are joined.
pub open spec fn data_size(values: Seq<Seq<u8>>) -> nat
    decreases values.len(),
{
    if values.len() == 0 {
        0
    } else if values.len() == 1 {
        values[0].len()
    } else {
        data_size(values.drop_last()) + 1 + values.last().len()
    }
}

proof fn lemma_data_size(values: Seq<Seq<u8>>)
    requires
        forall|i: int| 0 <= i < values.len() ==> fits_on_a_line(#[trigger] values[i]),
    ensures
        text::utf8_len(data_of(values)) == data_size(values),
    decreases values.len(),
{
    if values.len() == 0 {
        text::lemma_utf8_len_zero(data_of(values));
    } else if values.len() == 1 {
        decode_utf8_encode_utf8(values[0]);
    } else {
        let before = values.drop_last();
        assert forall|i: int| 0 <= i < before.len() implies fits_on_a_line(#[trigger] before[i]) by {
            assert(before[i] == values[i]);
        }
        lemma_data_size(before);
        decode_utf8_encode_utf8(values.last());
        text::lemma_encode_concat(data_of(before), seq!['\n']);
        assert(data_of(before) + seq!['\n'] =~= data_of(before).push('\n'));
        is_ascii_chars_encode_utf8(seq!['\n']);
        text::lemma_encode_concat(data_of(before).push('\n'), decode_utf8(values.last()));
    }
}

proof fn lemma_data_lines(
    st: SseState,
    values: Seq<Seq<u8>>,
    rest: Seq<u8>,
    events: Seq<SseEventView>,
)
    requires
        !st.has_data,
        st.data.len() == 0,
        forall|i: int| 0 <= i < values.len() ==> fits_on_a_line(#[trigger] values[i]),
        data_size(values) <= sse::MAX_SSE_EVENT_BYTES,
    ensures
        sse::drain_spec(st, data_lines(values) + rest, events) == sse::drain_spec(
            SseState { data: data_of(values), has_data: values.len() > 0, ..st },
            rest,
            events,
        ),
    decreases values.len(),
{
    if values.len() == 0 {
        assert(data_lines(values) + rest =~= rest);
        assert(st.data =~= data_of(values));
    } else {
        let before = values.drop_last();
        let v = values.last();
        assert forall|i: int| 0 <= i < before.len() implies fits_on_a_line(#[trigger] before[i]) by {
            assert(before[i] == values[i]);
        }
        assert(fits_on_a_line(values[values.len() - 1]));
        let line = data_line(v);
        let behind = line.push(10) + rest;
        assert(data_lines(values) + rest =~= data_lines(before) + behind);
        lemma_data_lines(st, before, behind, events);
        lemma_data_size(before);
        let next = SseState { data: data_of(before), has_data: before.len() > 0, ..st };
        text::lemma_encode_concat(data_of(before), seq!['\n']);
        assert(data_of(before) + seq!['\n'] =~= data_of(before).push('\n'));
        is_ascii_chars_encode_utf8(seq!['\n']);
        lemma_data_line(next, v);
        lemma_drain(next, line, rest, events);
        let so_far = if before.len() > 0 {
            data_of(before).push('\n')
        } else {
            data_of(before)
        };
        if before.len() == 0 {
            assert(values[0] == v);
            assert(so_far + decode_utf8(v) =~= decode_utf8(v));
            text::lemma_utf8_len_zero(so_far);
        }
        assert(so_far + decode_utf8(v) == data_of(values));
    }
}

/// An event that is written in a stream is read as that event, wherever it stands: with
/// its name, and with its data line by line. What stands behind it is read as if it stood
/// alone.
pub proof fn law_written_events_are_read(
    st: SseState,
    name: Option<Seq<u8>>,
    values: Seq<Seq<u8>>,
    rest: Seq<u8>,
    events: Seq<SseEventView>,
)
    requires
        st == SseState::fresh(),
        values.len() > 0,
        forall|i: int| 0 <= i < values.len() ==> fits_on_a_line(#[trigger] values[i]),
        data_size(values) <= 1024 * 1024,
        name matches Some(n) ==> fits_on_a_line(n) && n.len() <= 256 && !decode_utf8(n).contains(
            '\0',
        ),
    ensures
        sse::drain_spec(st, written(name, values) + rest, events) == sse::drain_spec(
            st,
            rest,
            events.push(
                SseEventView {
                    event: match name {
                        Some(n) => Some(decode_utf8(n)),
                        None => None,
                    },
                    data: data_of(values),
                },
            ),
        ),
{
    let told = match name {
        Some(n) => Some(decode_utf8(n)),
        None => None,
    };
    let closing = Seq::<u8>::empty().push(10) + rest;
    let body = data_lines(values) + closing;
    let named = SseState { event_name: told, ..st };
    match name {
        Some(n) => {
            assert(written(name, values) + rest =~= name_line(n).push(10) + body);
            lemma_name_line(st, n);
            lemma_drain(st, name_line(n), body, events);
        },
        None => {
            assert(written(name, values) + rest =~= body);
        },
    }
    assert(sse::drain_spec(st, written(name, values) + rest, events) == sse::drain_spec(
        named,
        body,
        events,
    ));
    lemma_data_lines(named, values, closing, events);
    let full = SseState { data: data_of(values), has_data: true, ..named };
    lemma_drain(full, Seq::empty(), rest, events);
    assert(sse::dispatch_spec(full).0 == st);
}

/// A comment, which is a line that begins with a colon, does nothing.
pub proof fn law_comments_are_passed_over(
    st: SseState,
    comment: Seq<u8>,
    rest: Seq<u8>,
    events: Seq<SseEventView>,
)
    requires
        fits_on_a_line(comment),
    ensures
        sse::drain_spec(st, seq![58u8] + comment + seq![10u8] + rest, events) == sse::drain_spec(
            st,
            rest,
            events,
        ),
{
    let line = seq![58u8] + comment;
    assert(seq![58u8] + comment + seq![10u8] + rest =~= line.push(10) + rest);
    lemma_drain(st, line, rest, events);
}

} // verus!
