use infini::frame::{StreamSession, Translation};
use infini::llm::LLMAnswer;

/// The answer texts of an event list, with markers for the start and end
/// events.
fn shapes(events: &Vec<LLMAnswer>) -> Vec<String> {
    let mut r: Vec<String> = Vec::new();
    for e in events {
        match e {
            LLMAnswer::StartAnswer => r.push("<start>".to_string()),
            LLMAnswer::Answer(t) => r.push(format!("answer:{}", t)),
            LLMAnswer::EndAnswer => r.push("<end>".to_string()),
        }
    }
    r
}

#[test]
fn scenario_split_frame_reassembles() {
    let mut s = StreamSession::framed(Translation::Verbatim);
    let opening = s.start();
    assert_eq!(shapes(&opening), vec!["<start>".to_string()]);

    let first = s.process_chunk("data: {\"delta\":\"Hel", false);
    assert!(first.is_empty());

    let second = s.process_chunk("lo\"}\n\ndata: [DONE]\n\n", false);
    assert_eq!(
        shapes(&second),
        vec!["answer:Hello".to_string(), "<end>".to_string()]
    );
}

#[test]
fn scenario_cancellation_stops_at_next_chunk() {
    let mut s = StreamSession::framed(Translation::Verbatim);
    s.start();
    let first = s.process_chunk("data: {\"delta\":\"Hi\"}\n\n", false);
    assert_eq!(shapes(&first), vec!["answer:Hi".to_string()]);

    // The flag was set after the first answer: the next poll sees it.
    let second = s.process_chunk("data: {\"delta\":\"more\"}\n\n", true);
    assert_eq!(shapes(&second), vec!["<end>".to_string()]);

    // Nothing follows the terminal event.
    let third = s.process_chunk("data: {\"delta\":\"late\"}\n\n", false);
    assert!(third.is_empty());
}

#[test]
fn sentinel_discards_the_rest_of_the_stream() {
    let mut s = StreamSession::framed(Translation::Verbatim);
    s.start();
    let events = s.process_chunk(
        "data: {\"delta\":\"a\"}\ndata: [DONE]\ndata: {\"delta\":\"b\"}\n",
        false,
    );
    assert_eq!(
        shapes(&events),
        vec!["answer:a".to_string(), "<end>".to_string()]
    );
    let after = s.process_chunk("data: {\"delta\":\"c\"}\n", false);
    assert!(after.is_empty());
}

#[test]
fn split_invariance_at_every_byte_boundary() {
    let stream = "data: {\"delta\":\"AB\"}\n\ndata: {\"delta\":\"CD\"}\n\ndata: [DONE]\n\n";
    let mut unsplit = StreamSession::framed(Translation::Verbatim);
    unsplit.start();
    let expected = shapes(&unsplit.process_chunk(stream, false));

    for cut in 0..=stream.len() {
        if !stream.is_char_boundary(cut) {
            continue;
        }
        let mut s = StreamSession::framed(Translation::Verbatim);
        s.start();
        let mut got = shapes(&s.process_chunk(&stream[..cut], false));
        got.extend(shapes(&s.process_chunk(&stream[cut..], false)));
        assert_eq!(got, expected);
    }
}

#[test]
fn malformed_complete_frame_is_absorbed() {
    let mut s = StreamSession::framed(Translation::Verbatim);
    s.start();
    let events = s.process_chunk(
        "data: not json at all\ndata: {\"delta\":\"ok\"}\n",
        false,
    );
    assert_eq!(shapes(&events), vec!["answer:ok".to_string()]);
}

#[test]
fn missing_fragment_stands_for_a_line_break() {
    let mut s = StreamSession::framed(Translation::Verbatim);
    s.start();
    let events = s.process_chunk("data: {\"other\":1}\n", false);
    assert_eq!(shapes(&events), vec!["answer:\n".to_string()]);
}

#[test]
fn null_fragment_is_dropped() {
    let mut s = StreamSession::framed(Translation::Verbatim);
    s.start();
    let events = s.process_chunk("data: {\"delta\":\"null\"}\n", false);
    assert!(events.is_empty());
}

#[test]
fn openai_nested_content_is_decoded() {
    let mut s = StreamSession::framed(Translation::Verbatim);
    s.start();
    let events = s.process_chunk(
        "data: {\"choices\":[{\"delta\":{\"content\":\"Hey\"}}]}\n",
        false,
    );
    assert_eq!(shapes(&events), vec!["answer:Hey".to_string()]);
}

#[test]
fn finish_emits_the_terminal_event_once() {
    let mut s = StreamSession::framed(Translation::Verbatim);
    s.start();
    let events = s.finish();
    assert_eq!(shapes(&events), vec!["<end>".to_string()]);
    let again = s.finish();
    assert!(again.is_empty());
}

#[test]
fn passthrough_forwards_chunks_verbatim() {
    let mut s = StreamSession::passthrough();
    s.start();
    let events = s.process_chunk("raw model output", false);
    assert_eq!(shapes(&events), vec!["answer:raw model output".to_string()]);
    let cancelled = s.process_chunk("more", true);
    assert_eq!(shapes(&cancelled), vec!["<end>".to_string()]);
}

#[test]
fn decoded_mode_normalizes_fragments() {
    let mut s = StreamSession::framed(Translation::Decoded);
    s.start();
    // The payload's fragment holds an escaped quote and an escaped newline
    // variant; the translator strips the quote and collapses the newline.
    let events = s.process_chunk(
        "data: {\"delta\":\"a\\\\nnb \\\"quoted\\\" \\\\u0041\"}\n",
        false,
    );
    assert_eq!(
        shapes(&events),
        vec!["answer:a\nb quoted A".to_string()]
    );
}

#[test]
fn decoded_mode_emits_empty_for_missing_fragment() {
    let mut s = StreamSession::framed(Translation::Decoded);
    s.start();
    let events = s.process_chunk("data: {\"other\":1}\n", false);
    assert_eq!(shapes(&events), vec!["answer:".to_string()]);
}

#[test]
fn junk_between_frames_is_ignored() {
    let mut s = StreamSession::framed(Translation::Verbatim);
    s.start();
    let events = s.process_chunk(
        "event: ping\n\ndata: {\"delta\":\"x\"}\n\n",
        false,
    );
    assert_eq!(shapes(&events), vec!["answer:x".to_string()]);
}
