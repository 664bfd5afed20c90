use chatstream::decoder::StreamOutcome;
use chatstream::printer::{print_deltas, print_termination, stream_to_sink, VecSink};

fn chunks_of(parts: &[&[u8]]) -> Vec<Vec<u8>> {
    parts.iter().map(|p| p.to_vec()).collect()
}

#[test]
fn renders_reassembled_stream_as_hello() {
    let chunks = chunks_of(&[
        b"data: {\"choices\":[{\"delta\":{\"content\":\"Hel\"}}]}\n",
        b"data: {\"choices\":[{\"delta\":{\"content\":\"lo\"}}]}\n",
        b"data: [DONE]\n",
    ]);
    let mut sink = VecSink::new();
    let outcome = stream_to_sink(&chunks, &mut sink).unwrap();
    assert_eq!(sink.data, b"Hello\n".to_vec());
    assert_eq!(outcome, StreamOutcome::SentinelSeen);
}

#[test]
fn renders_bare_sentinel_as_single_newline() {
    let chunks = chunks_of(&[b"data: [DONE]\n"]);
    let mut sink = VecSink::new();
    let outcome = stream_to_sink(&chunks, &mut sink).unwrap();
    assert_eq!(sink.data, b"\n".to_vec());
    assert_eq!(outcome, StreamOutcome::SentinelSeen);
}

#[test]
fn unterminated_stream_still_renders_with_trailing_newline() {
    let chunks = chunks_of(&[b"data: {\"choices\":[{\"delta\":{\"content\":\"partial\"}}]}\n"]);
    let mut sink = VecSink::new();
    let outcome = stream_to_sink(&chunks, &mut sink).unwrap();
    assert_eq!(sink.data, b"partial\n".to_vec());
    assert_eq!(outcome, StreamOutcome::Unterminated);
}

#[test]
fn print_deltas_writes_every_delta_in_order() {
    let deltas = vec![b"ab".to_vec(), b"".to_vec(), b"cd".to_vec()];
    let mut sink = VecSink::new();
    print_deltas(&mut sink, &deltas).unwrap();
    assert_eq!(sink.data, b"abcd".to_vec());
}

#[test]
fn print_termination_writes_one_newline() {
    let mut sink = VecSink::new();
    print_termination(&mut sink).unwrap();
    print_termination(&mut sink).unwrap();
    assert_eq!(sink.data, b"\n\n".to_vec());
}
