use copilot_chat::json::Json;
use copilot_chat::stream::{
    interpret_payload, read_completion, read_error, scan_events, ChatStreamer, DecoderStatus,
    Scanned, StreamDecoder, StreamError,
};

fn normalize(text: &str) -> String {
    text.replace("\n", "").replace("JUMP", "\n\n")
}

fn event(content: &str) -> String {
    format!("data: {{\"choices\":[{{\"index\":0,\"delta\":{{\"content\":\"{}\"}}}}]}}\n\n", content)
}

#[test]
fn chunk_parsing() {
    let chunk = "data: {\"choices\":[{\"index\":0,\"content_filter_offsets\":{\"check_offset\":175,\"start_offset\":176,\"end_offset\":280},
        \"content_filter_results\":{\"hate\":{\"filtered\":false,\"severity\":\"safe\"},\"self_harm\":{\"filtered\":false,
        \"severity\":\"safe\"},\"sexual\":{\"filtered\":false,\"severity\":\"safe\"},\"violence\":{\"filtered\":false,\"severity\":\"safe\"}},
        \"delta\":{\"content\":\" safety\"}}],\"created\":1751000792,\"id\":\"chatcmpl-BmvaCUrU0DjRli6juhycOsjF1OAZr\",
        \"model\":\"gpt-4o-2024-11-20\",\"system_fingerprint\":\"fp_b705f0c291\"}JUMP";

    let chunk = normalize(chunk);

    let streamer = ChatStreamer;
    let resp = streamer.process_buffer(chunk.as_bytes());

    assert!(resp.is_ok());

    let (msgs, _) = resp.unwrap().unwrap();

    assert_eq!(msgs.len(), 1);
}

#[test]
fn double_chunk_parsing() {
    let double = "data: {\"choices\":[{\"index\":0,\"content_filter_offsets\":{\"check_offset\":175,\"start_offset\":334,\"end_offset\":435},
        \"content_filter_results\":{\"hate\":{\"filtered\":false,\"severity\":\"safe\"},\"self_harm\":{\"filtered\":false,
        \"severity\":\"safe\"},\"sexual\":{\"filtered\":false,\"severity\":\"safe\"},
        \"violence\":{\"filtered\":false,\"severity\":\"safe\"}},\"delta\":{\"content\":\" the\"}}],
        \"created\":1751000792,\"id\":\"chatcmpl-BmvaCUrU0DjRli6juhycOsjF1OAZr\",\"model\":\"gpt-4o-2024-11-20\",
        \"system_fingerprint\":\"fp_b705f0c291\"}JUMPdata: {\"choices\":[{\"index\":0,\"content_filter_offsets\":{\"check_offset\":175,\"start_offset\":334,
        \"end_offset\":435},\"content_filter_results\":{\"hate\":{\"filtered\":false,\"severity\":\"safe\"},\"self_harm\":{\"filtered\":false,\"severity\":\"safe\"},
        \"sexual\":{\"filtered\":false,\"severity\":\"safe\"},\"violence\":{\"filtered\":false,\"severity\":\"safe\"}},
        \"delta\":{\"content\":\" most\"}}],\"created\":1751000792,\"id\":\"chatcmpl-BmvaCUrU0DjRli6juhycOsjF1OAZr\",
        \"model\":\"gpt-4o-2024-11-20\",\"system_fingerprint\":\"fp_b705f0c291\"}JUMP
        ";

    let double = normalize(double);

    let streamer = ChatStreamer;
    let resp = streamer.process_buffer(double.as_bytes());

    assert!(resp.is_ok());

    let (msgs, _) = resp.unwrap().unwrap();

    assert_eq!(msgs.len(), 2);
    assert_eq!(msgs, vec![" the".to_string(), " most".to_string()]);
}

#[test]
fn incomplete_chunk() {
    let double_incomplete = "data: {\"choices\":[{\"index\":0,\"content_filter_offsets\":{\"check_offset\":175,\"start_offset\":334,\"end_offset\":435},
        \"content_filter_results\":{\"hate\":{\"filtered\":false,\"severity\":\"safe\"},\"self_harm\":{\"filtered\":false,
        \"severity\":\"safe\"},\"sexual\":{\"filtered\":false,\"severity\":\"safe\"},
        \"violence\":{\"filtered\":false,\"severity\":\"safe\"}},\"delta\":{\"content\":\" the\"}}],
        \"created\":1751000792,\"id\":\"chatcmpl-BmvaCUrU0DjRli6juhycOsjF1OAZr\",\"model\":\"gpt-4o-2024-11-20\",
        \"system_fingerprint\":\"fp_b705f0c291\"}JUMPdata: {\"choices\":[{\"index\":0,\"content_filter_offsets\":{\"check_offset\":175,\"start_offset\":334,
        \"end_offset\":435},\"content_filter_results\":{\"hate\":{\"filtered\":false,\"severity\":\"safe\"},\"self_harm\":{\"filtered\":false,\"severity\":\"safe";

    let double_incomplete = normalize(double_incomplete);

    let streamer = ChatStreamer;
    let resp = streamer.process_buffer(double_incomplete.as_bytes());

    assert!(resp.is_ok());

    let (msgs, consumed) = resp.unwrap().unwrap();

    assert_eq!(msgs.len(), 1);
    let first_event_end = double_incomplete.find("\n\n").unwrap() + 2;
    assert_eq!(consumed, first_event_end);
}

#[test]
fn done_chunk() {
    let chunks = "data: {\"choices\":[{\"index\":0,\"content_filter_offsets\":{\"check_offset\":175,\"start_offset\":334,\"end_offset\":435},
        \"content_filter_results\":{\"hate\":{\"filtered\":false,\"severity\":\"safe\"},\"self_harm\":{\"filtered\":false,
        \"severity\":\"safe\"},\"sexual\":{\"filtered\":false,\"severity\":\"safe\"},
        \"violence\":{\"filtered\":false,\"severity\":\"safe\"}},\"delta\":{\"content\":\" the\"}}],
        \"created\":1751000792,\"id\":\"chatcmpl-BmvaCUrU0DjRli6juhycOsjF1OAZr\",\"model\":\"gpt-4o-2024-11-20\",
        \"system_fingerprint\":\"fp_b705f0c291\"}JUMPdata: [DONE]";

    let chunks = normalize(chunks);

    let streamer = ChatStreamer;
    let resp = streamer.process_buffer(chunks.as_bytes());

    assert!(resp.is_ok());

    let (msgs, _) = resp.unwrap().unwrap();

    assert_eq!(msgs.len(), 1);
}

#[test]
fn end_marker_yields_no_fragment_of_its_own() {
    let input = "data: {\"choices\":[{\"delta\":{\"content\":\" the\"}}]}\n\ndata: [DONE]";
    let resp = ChatStreamer.process_buffer(input.as_bytes()).unwrap().unwrap();
    assert_eq!(resp.0, vec![" the".to_string()]);
}

#[test]
fn two_events_give_two_fragments_in_order() {
    let input = format!("{}{}", event(" the"), event(" most"));
    let (deltas, consumed) = ChatStreamer.process_buffer(input.as_bytes()).unwrap().unwrap();
    assert_eq!(deltas, vec![" the".to_string(), " most".to_string()]);
    assert_eq!(consumed, input.len());
}

#[test]
fn nothing_after_the_end_marker_is_read() {
    let input = format!("{}data: [DONE]\n\n{}", event("a"), event("b"));
    let scanned = scan_events(input.as_bytes()).unwrap();
    let marker_end = event("a").len() + "data: [DONE]\n\n".len();
    assert_eq!(
        scanned,
        Scanned { deltas: vec!["a".to_string()], consumed: marker_end, terminated: true }
    );
}

#[test]
fn error_document_aborts_with_its_message() {
    let input = format!("{}data: {{\"error\":{{\"message\":\"X\"}}}}\n\n{}", event("a"), event("b"));
    let resp = ChatStreamer.process_buffer(input.as_bytes());
    assert_eq!(resp, Err(StreamError::Provider("X".to_string())));
    assert_eq!(StreamError::Provider("X".to_string()).to_string(), "X");
}

#[test]
fn unreadable_payload_is_reported_with_its_bytes() {
    let input = "data: {\"neither\":1}\n\n";
    let resp = ChatStreamer.process_buffer(input.as_bytes());
    assert_eq!(resp, Err(StreamError::Parse(b"{\"neither\":1}".to_vec())));
    let input = "data: not json\n\n";
    let resp = ChatStreamer.process_buffer(input.as_bytes());
    let error = resp.unwrap_err();
    assert_eq!(error, StreamError::Parse(b"not json".to_vec()));
    assert_eq!(error.to_string(), "cannot parse chunk: not json");
}

#[test]
fn report_of_a_payload_that_is_no_text_marks_the_bad_bytes() {
    let error = StreamError::Parse(vec![b'a', 0xff, b'b']);
    assert_eq!(error.to_string(), "cannot parse chunk: a\u{fffd}b");
}

#[test]
fn empty_buffer_and_partial_event_report_nothing() {
    assert_eq!(ChatStreamer.process_buffer(b""), Ok(None));
    assert_eq!(ChatStreamer.process_buffer(b"data: {\"choices\""), Ok(None));
    assert_eq!(ChatStreamer.process_buffer(b"data: [DONE]\n"), Ok(None));
}

#[test]
fn events_without_the_prefix_are_passed_over() {
    let input = format!(": keep-alive\n\n{}", event("x"));
    let (deltas, consumed) = ChatStreamer.process_buffer(input.as_bytes()).unwrap().unwrap();
    assert_eq!(deltas, vec!["x".to_string()]);
    assert_eq!(consumed, input.len());
    let only = "event: ping\n\n";
    assert_eq!(
        ChatStreamer.process_buffer(only.as_bytes()),
        Ok(Some((Vec::<String>::new(), only.len())))
    );
}

#[test]
fn completions_without_text_give_no_fragment() {
    for payload in [
        "{\"choices\":[]}",
        "{\"choices\":[{\"index\":0}]}",
        "{\"choices\":[{\"index\":0,\"delta\":null}]}",
        "{\"choices\":[{\"index\":0,\"delta\":{}}]}",
        "{\"choices\":[{\"index\":0,\"delta\":{\"content\":null}}]}",
        "{\"choices\":[{\"index\":0,\"delta\":{\"content\":\"\"}}]}",
        "{\"choices\":[{\"index\":0,\"delta\":{\"content\":null},\"finish_reason\":\"stop\"}]}",
    ] {
        let input = format!("data: {}\n\n", payload);
        assert_eq!(
            ChatStreamer.process_buffer(input.as_bytes()),
            Ok(Some((Vec::<String>::new(), input.len()))),
            "{}",
            payload
        );
    }
}

#[test]
fn only_the_first_choice_gives_the_fragment() {
    let input = "data: {\"choices\":[{\"delta\":{\"content\":\"a\"}},{\"delta\":{\"content\":\"b\"}}]}\n\n";
    let (deltas, _) = ChatStreamer.process_buffer(input.as_bytes()).unwrap().unwrap();
    assert_eq!(deltas, vec!["a".to_string()]);
}

#[test]
fn malformed_choices_are_no_completion() {
    for payload in [
        "{\"choices\":{}}",
        "{\"choices\":[1]}",
        "{\"choices\":[{\"index\":\"0\"}]}",
        "{\"choices\":[{\"index\":4294967296}]}",
        "{\"choices\":[{\"delta\":5}]}",
        "{\"choices\":[{\"delta\":{\"content\":7}}]}",
        "{\"choices\":[{\"delta\":{\"content\":\"a\"}},{\"finish_reason\":3}]}",
        "[]",
    ] {
        let input = format!("data: {}\n\n", payload);
        assert_eq!(
            ChatStreamer.process_buffer(input.as_bytes()),
            Err(StreamError::Parse(payload.as_bytes().to_vec())),
            "{}",
            payload
        );
    }
}

#[test]
fn completion_wins_over_error() {
    let input = "data: {\"choices\":[],\"error\":{\"message\":\"X\"}}\n\n";
    assert_eq!(
        ChatStreamer.process_buffer(input.as_bytes()),
        Ok(Some((Vec::<String>::new(), input.len())))
    );
}

fn object(members: Vec<(&str, Json)>) -> Json {
    Json::Object(members.into_iter().map(|(name, value)| (name.to_string(), value)).collect())
}

#[test]
fn payload_is_interpreted_from_the_document() {
    let delta = object(vec![("content", Json::Text("hi".to_string()))]);
    let choice = object(vec![("index", Json::Number(Some(0))), ("delta", delta)]);
    let completion = object(vec![("choices", Json::Array(vec![choice]))]);
    assert_eq!(read_completion(&completion), Some(Some("hi".to_string())));
    assert_eq!(read_error(&completion), None);
    assert_eq!(interpret_payload(b"raw", &Some(completion)), Ok(Some("hi".to_string())));

    let error = object(vec![("error", object(vec![("message", Json::Text("X".to_string()))]))]);
    assert_eq!(read_completion(&error), None);
    assert_eq!(read_error(&error), Some("X".to_string()));
    assert_eq!(
        interpret_payload(b"raw", &Some(error)),
        Err(StreamError::Provider("X".to_string()))
    );

    assert_eq!(interpret_payload(b"raw", &None), Err(StreamError::Parse(b"raw".to_vec())));
    assert_eq!(
        interpret_payload(b"raw", &Some(Json::Null)),
        Err(StreamError::Parse(b"raw".to_vec()))
    );
    let float_index = object(vec![(
        "choices",
        Json::Array(vec![object(vec![("index", Json::Number(None))])]),
    )]);
    assert_eq!(
        interpret_payload(b"raw", &Some(float_index)),
        Err(StreamError::Parse(b"raw".to_vec()))
    );
}

fn feed_in_pieces(stream: &[u8], cuts: &[usize]) -> (Vec<String>, DecoderStatus, usize) {
    let mut decoder = StreamDecoder::new();
    let mut deltas = Vec::new();
    let mut from = 0;
    for &cut in cuts.iter().chain(std::iter::once(&stream.len())) {
        let (mut found, _) = decoder.feed(&stream[from..cut]).unwrap();
        deltas.append(&mut found);
        from = cut;
    }
    (deltas, decoder.status(), decoder.pending_len())
}

#[test]
fn chunk_boundaries_do_not_matter() {
    let stream = format!(
        "{}: comment\n\n{}{}data: {{\"choi",
        event(" the"),
        event(" most"),
        event("\\n important")
    );
    let bytes = stream.as_bytes();
    let whole = feed_in_pieces(bytes, &[]);
    assert_eq!(
        whole.0,
        vec![" the".to_string(), " most".to_string(), "\n important".to_string()]
    );
    assert_eq!(whole.1, DecoderStatus::Open);
    assert_eq!(whole.2, "data: {\"choi".len());
    for first in 0..=bytes.len() {
        assert_eq!(feed_in_pieces(bytes, &[first]), whole, "cut at {}", first);
        let second = (first + 7).min(bytes.len());
        assert_eq!(feed_in_pieces(bytes, &[first, second]), whole, "cuts at {} {}", first, second);
    }
    let every_byte: Vec<usize> = (1..bytes.len()).collect();
    assert_eq!(feed_in_pieces(bytes, &every_byte), whole);
}

#[test]
fn chunk_boundaries_do_not_matter_up_to_the_end_marker() {
    let stream = format!("{}data: [DONE]\n\n{}", event("a"), event("b"));
    let bytes = stream.as_bytes();
    let whole = feed_in_pieces(bytes, &[]);
    assert_eq!(whole.0, vec!["a".to_string()]);
    assert_eq!(whole.1, DecoderStatus::Terminated);
    for first in 0..=bytes.len() {
        let split = feed_in_pieces(bytes, &[first]);
        assert_eq!(split.0, whole.0, "cut at {}", first);
        assert_eq!(split.1, whole.1, "cut at {}", first);
    }
}

#[test]
fn partial_event_is_kept_for_the_next_feed() {
    let mut decoder = StreamDecoder::new();
    let whole = event("later");
    let (head, tail) = whole.split_at(17);
    assert_eq!(decoder.feed(head.as_bytes()), Ok((Vec::<String>::new(), 0)));
    assert_eq!(decoder.pending_len(), 17);
    assert_eq!(decoder.status(), DecoderStatus::Open);
    assert_eq!(decoder.feed(tail.as_bytes()), Ok((vec!["later".to_string()], whole.len())));
    assert_eq!(decoder.pending_len(), 0);
}

#[test]
fn separator_split_between_two_feeds_is_found() {
    let mut decoder = StreamDecoder::new();
    let whole = event("x");
    let head = &whole[..whole.len() - 1];
    assert_eq!(decoder.feed(head.as_bytes()), Ok((Vec::<String>::new(), 0)));
    assert_eq!(decoder.feed(b"\n"), Ok((vec!["x".to_string()], whole.len())));
}

#[test]
fn terminated_decoder_ignores_further_input() {
    let mut decoder = StreamDecoder::new();
    let input = format!("{}data: [DONE]\n\ntrailing", event("a"));
    let (deltas, consumed) = decoder.feed(input.as_bytes()).unwrap();
    assert_eq!(deltas, vec!["a".to_string()]);
    assert_eq!(consumed, input.len() - "trailing".len());
    assert_eq!(decoder.status(), DecoderStatus::Terminated);
    assert_eq!(decoder.pending_len(), "trailing".len());
    assert_eq!(decoder.feed(event("b").as_bytes()), Ok((Vec::<String>::new(), 0)));
    assert_eq!(decoder.status(), DecoderStatus::Terminated);
    assert_eq!(decoder.pending_len(), "trailing".len());
}

#[test]
fn failed_decoder_reports_once_and_then_ignores_input() {
    let mut decoder = StreamDecoder::new();
    let input = format!("{}data: {{\"error\":{{\"message\":\"quota\"}}}}\n\n", event("a"));
    assert_eq!(decoder.feed(input.as_bytes()), Err(StreamError::Provider("quota".to_string())));
    assert_eq!(decoder.status(), DecoderStatus::Failed);
    assert_eq!(decoder.feed(event("b").as_bytes()), Ok((Vec::<String>::new(), 0)));
    assert_eq!(decoder.status(), DecoderStatus::Failed);
}

#[test]
fn fragments_before_a_fault_depend_on_the_cut() {
    let good = event("a");
    let bad = "data: {\"error\":{\"message\":\"X\"}}\n\n";
    let mut whole = StreamDecoder::new();
    assert_eq!(
        whole.feed(format!("{}{}", good, bad).as_bytes()),
        Err(StreamError::Provider("X".to_string()))
    );
    let mut split = StreamDecoder::new();
    assert_eq!(split.feed(good.as_bytes()), Ok((vec!["a".to_string()], good.len())));
    assert_eq!(split.feed(bad.as_bytes()), Err(StreamError::Provider("X".to_string())));
}

fn first_fault(stream: &[u8], cuts: &[usize]) -> Option<StreamError> {
    let mut decoder = StreamDecoder::new();
    let mut from = 0;
    for &cut in cuts.iter().chain(std::iter::once(&stream.len())) {
        if let Err(fault) = decoder.feed(&stream[from..cut]) {
            return Some(fault);
        }
        from = cut;
    }
    None
}

#[test]
fn streams_fail_alike_however_they_are_cut() {
    let streams = [
        format!("{}data: {{\"error\":{{\"message\":\"X\"}}}}\n\n{}", event("a"), event("b")),
        format!("{}{}data: oops\n\ndata: [DONE]\n\n", event("a"), event("b")),
        format!("data: {{\"choices\":7}}\n\n{}", event("a")),
        format!("{}data: [DONE]\n\ndata: oops\n\n", event("a")),
        format!("{}{}", event("a"), event("b")),
    ];
    for stream in streams {
        let bytes = stream.as_bytes();
        let whole = first_fault(bytes, &[]);
        for first in 0..=bytes.len() {
            assert_eq!(first_fault(bytes, &[first]), whole, "cut at {}", first);
            let second = (first + 11).min(bytes.len());
            assert_eq!(first_fault(bytes, &[first, second]), whole, "cuts at {} {}", first, second);
        }
        let every_byte: Vec<usize> = (1..bytes.len()).collect();
        assert_eq!(first_fault(bytes, &every_byte), whole);
    }
}
