use chatstream::decoder::{decode_chunks, ChunkDecoder, StreamOutcome};

fn chunks_of(parts: &[&[u8]]) -> Vec<Vec<u8>> {
    parts.iter().map(|p| p.to_vec()).collect()
}

fn deltas_as_strings(deltas: &[Vec<u8>]) -> Vec<String> {
    deltas.iter().map(|d| String::from_utf8(d.clone()).unwrap()).collect()
}

#[test]
fn emits_deltas_in_order_and_completes_on_sentinel() {
    let chunks = chunks_of(&[
        b"data: {\"choices\":[{\"delta\":{\"content\":\"Hel\"}}]}\n",
        b"data: {\"choices\":[{\"delta\":{\"content\":\"lo\"}}]}\n",
        b"data: [DONE]\n",
    ]);
    let (deltas, outcome) = decode_chunks(&chunks);
    assert_eq!(deltas_as_strings(&deltas), vec!["Hel".to_string(), "lo".to_string()]);
    assert_eq!(outcome, StreamOutcome::SentinelSeen);
}

#[test]
fn line_split_across_chunks_at_every_offset_emits_once() {
    let line: &[u8] = b"data: {\"choices\":[{\"delta\":{\"content\":\"X\"}}]}\n";
    for split in 0..=line.len() {
        let chunks = chunks_of(&[&line[..split], &line[split..]]);
        let (deltas, outcome) = decode_chunks(&chunks);
        assert_eq!(deltas_as_strings(&deltas), vec!["X".to_string()], "split at {}", split);
        assert_eq!(outcome, StreamOutcome::Unterminated);
    }
}

#[test]
fn non_data_lines_emit_nothing() {
    let chunks = chunks_of(&[b"event: ping\n", b"\n", b": a comment line\n"]);
    let (deltas, outcome) = decode_chunks(&chunks);
    assert!(deltas.is_empty());
    assert_eq!(outcome, StreamOutcome::Unterminated);
}

#[test]
fn invalid_json_payload_is_skipped_and_decoding_goes_on() {
    let chunks = chunks_of(&[
        b"data: {not json at all\n",
        b"data: {\"choices\":[{\"delta\":{\"content\":\"ok\"}}]}\n",
    ]);
    let (deltas, outcome) = decode_chunks(&chunks);
    assert_eq!(deltas_as_strings(&deltas), vec!["ok".to_string()]);
    assert_eq!(outcome, StreamOutcome::Unterminated);
}

#[test]
fn valid_json_without_content_is_skipped() {
    let chunks = chunks_of(&[
        b"data: {\"choices\":[]}\n",
        b"data: {\"choices\":[{\"delta\":{}}]}\n",
        b"data: {\"choices\":[{\"delta\":{\"content\":7}}]}\n",
        b"data: 42\n",
    ]);
    let (deltas, _) = decode_chunks(&chunks);
    assert!(deltas.is_empty());
}

#[test]
fn decoding_twice_yields_identical_sequences() {
    let chunks = chunks_of(&[
        b"data: {\"choices\":[{\"delta\":{\"content\":\"a\"}}]}\ndata: {\"choi",
        b"ces\":[{\"delta\":{\"content\":\"b\"}}]}\n",
        b"data: [DONE]\n",
    ]);
    let first = decode_chunks(&chunks);
    let second = decode_chunks(&chunks);
    assert_eq!(first.0, second.0);
    assert_eq!(first.1, second.1);
    assert_eq!(deltas_as_strings(&first.0), vec!["a".to_string(), "b".to_string()]);
}

#[test]
fn nothing_is_emitted_after_the_sentinel() {
    let chunks = chunks_of(&[
        b"data: [DONE]\n",
        b"data: {\"choices\":[{\"delta\":{\"content\":\"late\"}}]}\n",
    ]);
    let (deltas, outcome) = decode_chunks(&chunks);
    assert!(deltas.is_empty());
    assert_eq!(outcome, StreamOutcome::SentinelSeen);
}

#[test]
fn sentinel_with_carriage_return_terminator_is_recognised() {
    let chunks = chunks_of(&[
        b"data: {\"choices\":[{\"delta\":{\"content\":\"hi\"}}]}\r\n",
        b"data: [DONE]\r\n",
    ]);
    let (deltas, outcome) = decode_chunks(&chunks);
    assert_eq!(deltas_as_strings(&deltas), vec!["hi".to_string()]);
    assert_eq!(outcome, StreamOutcome::SentinelSeen);
}

#[test]
fn multiple_data_lines_in_one_chunk_emit_in_order() {
    let chunks = chunks_of(&[
        b"data: {\"choices\":[{\"delta\":{\"content\":\"1\"}}]}\ndata: {\"choices\":[{\"delta\":{\"content\":\"2\"}}]}\ndata: [DONE]\n",
    ]);
    let (deltas, outcome) = decode_chunks(&chunks);
    assert_eq!(deltas_as_strings(&deltas), vec!["1".to_string(), "2".to_string()]);
    assert_eq!(outcome, StreamOutcome::SentinelSeen);
}

#[test]
fn empty_chunks_produce_nothing() {
    let chunks = chunks_of(&[b"", b"", b""]);
    let (deltas, outcome) = decode_chunks(&chunks);
    assert!(deltas.is_empty());
    assert_eq!(outcome, StreamOutcome::Unterminated);
}

#[test]
fn invalid_utf8_in_a_payload_is_no_error() {
    let chunks = chunks_of(&[b"data: \xff\xfe\n", b"data: [DONE]\n"]);
    let (deltas, outcome) = decode_chunks(&chunks);
    assert!(deltas.is_empty());
    assert_eq!(outcome, StreamOutcome::SentinelSeen);
}

#[test]
fn trailing_partial_line_without_newline_is_not_processed() {
    let mut decoder = ChunkDecoder::new();
    let emitted = decoder.push_chunk(b"data: {\"choices\":[{\"delta\":{\"content\":\"x\"}}]}");
    assert!(emitted.is_empty());
    assert_eq!(decoder.outcome(), StreamOutcome::Unterminated);
    let emitted = decoder.push_chunk(b"\n");
    assert_eq!(deltas_as_strings(&emitted), vec!["x".to_string()]);
}
