//! Server-sent events.

use pactrail::models::sse::{SseDecoder, SseError, SseEvent, MAX_SSE_LINE_BYTES};

fn pairs(events: &[SseEvent]) -> Vec<(Option<String>, String)> {
    events.iter().map(|event| (event.event.clone(), event.data.clone())).collect()
}

#[test]
fn decodes_fragmented_crlf_multiline_events_and_ignores_comments() {
    let input = b": ping\r\nevent: update\r\ndata: first\r\ndata: second\r\n\r\n";
    let mut decoder = SseDecoder::new();
    let mut events = Vec::new();
    for byte in input {
        events.extend(
            decoder
                .push(std::slice::from_ref(byte))
                .unwrap_or_else(|error| unreachable!("valid stream: {}", error.message())),
        );
    }
    decoder
        .finish()
        .unwrap_or_else(|error| unreachable!("complete stream: {}", error.message()));
    assert_eq!(
        pairs(&events),
        vec![(Some("update".to_owned()), "first\nsecond".to_owned())]
    );
}

#[test]
fn rejects_invalid_utf8_oversized_lines_and_incomplete_events() {
    let mut invalid = SseDecoder::new();
    assert!(matches!(
        invalid.push(&[b'd', b'a', b't', b'a', b':', 0xff, b'\n']),
        Err(SseError::InvalidUtf8)
    ));

    let mut oversized = SseDecoder::new();
    assert!(matches!(
        oversized.push(&vec![b'x'; MAX_SSE_LINE_BYTES + 1]),
        Err(SseError::LineTooLarge)
    ));

    let mut incomplete = SseDecoder::new();
    incomplete
        .push(b"data: unfinished\n")
        .unwrap_or_else(|error| unreachable!("line is valid: {}", error.message()));
    assert!(matches!(incomplete.finish(), Err(SseError::IncompleteEvent)));
}

#[test]
fn ignores_empty_events_and_unknown_fields() {
    let mut decoder = SseDecoder::new();
    let events = decoder
        .push(b"event: ping\nretry: 10\nid: ignored\n\ndata: ok\n\n")
        .unwrap_or_else(|error| unreachable!("valid stream: {}", error.message()));
    assert_eq!(pairs(&events), vec![(None, "ok".to_owned())]);
    decoder
        .finish()
        .unwrap_or_else(|error| unreachable!("complete stream: {}", error.message()));
}

#[test]
fn invalid_event_names_are_refused() {
    let mut decoder = SseDecoder::new();
    let name = "n".repeat(1024);
    let refused = decoder.push(format!("event: {name}\n").as_bytes());
    assert!(matches!(refused, Err(SseError::InvalidEventName)));
}

#[test]
fn oversized_events_are_refused() {
    let mut decoder = SseDecoder::new();
    let line = format!("data: {}\n", "x".repeat(512 * 1024));
    let mut refused = None;
    for _ in 0..64 {
        if let Err(error) = decoder.push(line.as_bytes()) {
            refused = Some(error);
            break;
        }
    }
    assert!(matches!(refused, Some(SseError::EventTooLarge)));
}

#[test]
fn chunking_does_not_change_the_events() {
    let input = "event: a\ndata: 1\n\ndata: \u{e9}\r\n\r\n: note\ndata: 3\n\n".as_bytes();
    let mut whole = SseDecoder::new();
    let together = whole.push(input).unwrap_or_else(|error| unreachable!("{}", error.message()));
    for cut in 0..input.len() {
        let mut decoder = SseDecoder::new();
        let mut events = decoder
            .push(&input[..cut])
            .unwrap_or_else(|error| unreachable!("{}", error.message()));
        events.extend(
            decoder
                .push(&input[cut..])
                .unwrap_or_else(|error| unreachable!("{}", error.message())),
        );
        assert_eq!(pairs(&events), pairs(&together));
    }
}

#[test]
fn no_cut_changes_whether_a_stream_is_accepted() {
    let long_name = format!("data: 1\n\nevent: {}\ndata: 2\n\n", "n".repeat(257));
    for input in [
        b"data: 1\n\ndata: \xff\n\ndata: 3\n\n".to_vec(),
        long_name.into_bytes(),
        b"event: open\r\ndata: 1\r\n".to_vec(),
        b"data: 1\r\n\r\n".to_vec(),
    ] {
        let mut whole = SseDecoder::new();
        let together = whole.push(&input);
        for cut in 0..=input.len() {
            let mut decoder = SseDecoder::new();
            let pieces = decoder.push(&input[..cut]).and_then(|mut events| {
                events.extend(decoder.push(&input[cut..])?);
                Ok(events)
            });
            assert_eq!(pieces, together);
        }
    }
}
