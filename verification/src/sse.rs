//! The meaning of a server-sent-event style delta stream.
//!
//! The wire format is line-oriented text: each meaningful line begins
//! with the prefix `data: `, and its payload is either the literal
//! sentinel `[DONE]`, which ends the stream, or a JSON document whose
//! `choices[0].delta.content` string is one content delta.  Any other
//! line, and any payload that does not parse or carries no content
//! string, is ignored.  This module gives that format its mathematical
//! model: a byte-at-a-time state machine over the raw byte stream,
//! independent of how the bytes were cut into chunks.

use vstd::prelude::*;

verus! {

/// Byte value of the line feed that terminates each event line.
pub const LINE_FEED: u8 = 10;

/// Byte value of the carriage return that may precede the line feed.
pub const CARRIAGE_RETURN: u8 = 13;

/// Whether the line begins with the six bytes of `data: `.
pub open spec fn is_data_line(l: Seq<u8>) -> bool {
    &&& l.len() >= 6
    &&& l[0] == 100  // 'd'
    &&& l[1] == 97  // 'a'
    &&& l[2] == 116  // 't'
    &&& l[3] == 97  // 'a'
    &&& l[4] == 58  // ':'
    &&& l[5] == 32  // ' '
}

/// The payload of a `data: ` line: everything after the six-byte prefix.
pub open spec fn payload_of(l: Seq<u8>) -> Seq<u8>
    recommends
        is_data_line(l),
{
    l.subrange(6, l.len() as int)
}

/// Whether the payload is the six bytes of the sentinel `[DONE]`.
pub open spec fn is_sentinel(p: Seq<u8>) -> bool {
    &&& p.len() == 6
    &&& p[0] == 91  // '['
    &&& p[1] == 68  // 'D'
    &&& p[2] == 79  // 'O'
    &&& p[3] == 78  // 'N'
    &&& p[4] == 69  // 'E'
    &&& p[5] == 93  // ']'
}

/// A line as handed to the parser: without a carriage return left over
/// from a `\r\n` terminator.
pub open spec fn strip_cr(l: Seq<u8>) -> Seq<u8> {
    if l.len() > 0 && l.last() == CARRIAGE_RETURN {
        l.drop_last()
    } else {
        l
    }
}

/// The content string that JSON parsing extracts from a payload: the
/// string at `choices[0].delta.content` when the payload's bytes, read
/// as UTF-8 with replacement for invalid sequences, parse as JSON and
/// hold a string there; nothing otherwise.  What this yields on given
/// bytes is fixed by the JSON parser, not restated here.
pub uninterp spec fn json_content_of(payload: Seq<u8>) -> Option<Seq<u8>>;

/// What one complete line contributes to the decoded stream.
pub enum LineEffect {
    /// The line carries the termination sentinel.
    Sentinel,
    /// The line carries one content delta.
    Emit(Seq<u8>),
    /// The line is ignored.
    Skip,
}

/// The effect of one complete line (as accumulated, its terminator and
/// any preceding carriage return not included).
pub open spec fn line_effect(raw: Seq<u8>) -> LineEffect {
    let l = strip_cr(raw);
    if !is_data_line(l) {
        LineEffect::Skip
    } else if is_sentinel(payload_of(l)) {
        LineEffect::Sentinel
    } else {
        match json_content_of(payload_of(l)) {
            Some(c) => LineEffect::Emit(c),
            None => LineEffect::Skip,
        }
    }
}

/// The state of decoding after some bytes of the stream.
#[verifier::ext_equal]
pub struct DecodeModel {
    /// Bytes of the current line, not yet terminated by a line feed.
    pub line: Seq<u8>,
    /// Whether the sentinel has been observed.
    pub done: bool,
    /// The content deltas emitted so far, oldest first.
    pub out: Seq<Seq<u8>>,
}

/// The state before any byte of the stream.
pub open spec fn initial_model() -> DecodeModel {
    DecodeModel { line: Seq::empty(), done: false, out: Seq::empty() }
}

/// One byte of the stream: accumulate it, or, at a line feed, apply the
/// accumulated line's effect.  After the sentinel, every byte is ignored.
pub open spec fn feed_byte(m: DecodeModel, b: u8) -> DecodeModel {
    if m.done {
        m
    } else if b == LINE_FEED {
        match line_effect(m.line) {
            LineEffect::Sentinel => DecodeModel { line: Seq::empty(), done: true, out: m.out },
            LineEffect::Emit(d) => DecodeModel { line: Seq::empty(), done: false, out: m.out.push(d) },
            LineEffect::Skip => DecodeModel { line: Seq::empty(), done: false, out: m.out },
        }
    } else {
        DecodeModel { line: m.line.push(b), done: false, out: m.out }
    }
}

/// A run of bytes, fed left to right.
pub open spec fn feed_bytes(m: DecodeModel, s: Seq<u8>) -> DecodeModel
    decreases s.len(),
{
    if s.len() == 0 {
        m
    } else {
        feed_bytes(feed_byte(m, s[0]), s.drop_first())
    }
}

/// A run of chunks, each fed in turn.
pub open spec fn feed_chunks(m: DecodeModel, chunks: Seq<Seq<u8>>) -> DecodeModel
    decreases chunks.len(),
{
    if chunks.len() == 0 {
        m
    } else {
        feed_chunks(feed_bytes(m, chunks[0]), chunks.drop_first())
    }
}

/// The deltas that a whole chunk sequence decodes to, oldest first.
pub open spec fn session_deltas(chunks: Seq<Seq<u8>>) -> Seq<Seq<u8>> {
    feed_chunks(initial_model(), chunks).out
}

/// Whether a whole chunk sequence ends with the sentinel observed.
pub open spec fn session_completed(chunks: Seq<Seq<u8>>) -> bool {
    feed_chunks(initial_model(), chunks).done
}

/// Feeding distributes over concatenation of byte runs.
pub proof fn lemma_feed_bytes_app(m: DecodeModel, a: Seq<u8>, b: Seq<u8>)
    ensures
        feed_bytes(m, a + b) == feed_bytes(feed_bytes(m, a), b),
    decreases a.len(),
{
    if a.len() == 0 {
        assert(a + b =~= b);
    } else {
        assert((a + b)[0] == a[0]);
        assert((a + b).drop_first() =~= a.drop_first() + b);
        lemma_feed_bytes_app(feed_byte(m, a[0]), a.drop_first(), b);
    }
}

/// Feeding one more byte after a run applies one step.
pub proof fn lemma_feed_bytes_snoc(m: DecodeModel, s: Seq<u8>, b: u8)
    ensures
        feed_bytes(m, s.push(b)) == feed_byte(feed_bytes(m, s), b),
{
    reveal_with_fuel(feed_bytes, 3);
    assert(s.push(b) =~= s + seq![b]);
    lemma_feed_bytes_app(m, s, seq![b]);
    assert(seq![b].drop_first() =~= Seq::<u8>::empty());
}

/// After the sentinel, further bytes change nothing.
pub proof fn lemma_done_absorbs(m: DecodeModel, s: Seq<u8>)
    requires
        m.done,
    ensures
        feed_bytes(m, s) == m,
    decreases s.len(),
{
    if s.len() > 0 {
        lemma_done_absorbs(feed_byte(m, s[0]), s.drop_first());
    }
}

/// The already emitted deltas only frame later feeding: the line and the
/// completion flag do not depend on them, and new deltas are appended.
pub proof fn lemma_out_frame(m: DecodeModel, s: Seq<u8>)
    ensures
        ({
            let base = feed_bytes(DecodeModel { line: m.line, done: m.done, out: Seq::empty() }, s);
            feed_bytes(m, s) == (DecodeModel { line: base.line, done: base.done, out: m.out + base.out })
        }),
    decreases s.len(),
{
    let m0 = DecodeModel { line: m.line, done: m.done, out: Seq::empty() };
    if s.len() == 0 {
        assert(m.out + Seq::<Seq<u8>>::empty() =~= m.out);
        assert(feed_bytes(m, s) =~= (DecodeModel { line: m0.line, done: m0.done, out: m.out + m0.out }));
    } else {
        let b = s[0];
        let rest = s.drop_first();
        let step = feed_byte(m, b);
        let step0 = feed_byte(m0, b);
        assert(step0.line == step.line && step0.done == step.done);
        lemma_out_frame(step, rest);
        lemma_out_frame(step0, rest);
        let base_rest = feed_bytes(
            DecodeModel { line: step.line, done: step.done, out: Seq::empty() },
            rest,
        );
        if m.done {
            assert(step.out =~= m.out + step0.out);
        } else if b == LINE_FEED {
            match line_effect(m.line) {
                LineEffect::Emit(d) => {
                    assert(step.out =~= m.out + step0.out);
                },
                _ => {
                    assert(step.out =~= m.out + step0.out);
                },
            }
        } else {
            assert(step.out =~= m.out + step0.out);
        }
        assert(m.out + (step0.out + base_rest.out) =~= (m.out + step0.out) + base_rest.out);
        assert(feed_bytes(m, s) =~= (DecodeModel {
            line: feed_bytes(m0, s).line,
            done: feed_bytes(m0, s).done,
            out: m.out + feed_bytes(m0, s).out,
        }));
    }
}

/// How the bytes were cut into chunks is irrelevant: decoding a stream
/// chunk by chunk reaches exactly the state of decoding the concatenated
/// bytes at once — the same deltas, in the same order, and the same
/// completion flag.
pub proof fn lemma_chunking_irrelevant(m: DecodeModel, chunks: Seq<Seq<u8>>)
    ensures
        feed_chunks(m, chunks) == feed_bytes(m, chunks.flatten()),
    decreases chunks.len(),
{
    if chunks.len() == 0 {
        assert(chunks.flatten() =~= Seq::<u8>::empty());
    } else {
        lemma_chunking_irrelevant(feed_bytes(m, chunks[0]), chunks.drop_first());
        lemma_feed_bytes_app(m, chunks[0], chunks.drop_first().flatten());
        assert(chunks.flatten() == chunks[0] + chunks.drop_first().flatten());
    }
}

/// Cutting a byte stream in two at any offset decodes as the unsplit
/// whole: line reassembly across the boundary loses nothing.
pub proof fn lemma_split_irrelevant(bytes: Seq<u8>, k: int)
    requires
        0 <= k <= bytes.len(),
    ensures
        feed_chunks(
            initial_model(),
            seq![bytes.subrange(0, k), bytes.subrange(k, bytes.len() as int)],
        ) == feed_bytes(initial_model(), bytes),
{
    let halves = seq![bytes.subrange(0, k), bytes.subrange(k, bytes.len() as int)];
    lemma_chunking_irrelevant(initial_model(), halves);
    assert(halves.drop_first() =~= seq![bytes.subrange(k, bytes.len() as int)]);
    halves.drop_first().lemma_flatten_one_element();
    assert(halves.flatten() == halves[0] + halves.drop_first().flatten());
    assert(halves.flatten() =~= bytes);
}

/// Bytes that hold no line feed only extend the current line: nothing is
/// emitted and the stream does not complete.
pub proof fn lemma_feed_no_newline(m: DecodeModel, s: Seq<u8>)
    requires
        !m.done,
        forall|i: int| 0 <= i < s.len() ==> s[i] != LINE_FEED,
    ensures
        feed_bytes(m, s) == (DecodeModel { line: m.line + s, done: false, out: m.out }),
    decreases s.len(),
{
    if s.len() == 0 {
        assert(m.line + s =~= m.line);
        assert(feed_bytes(m, s) =~= (DecodeModel { line: m.line + s, done: false, out: m.out }));
    } else {
        let step = feed_byte(m, s[0]);
        lemma_feed_no_newline(step, s.drop_first());
        assert(m.line.push(s[0]) + s.drop_first() =~= m.line + s);
    }
}

/// Feeding one complete line from a line boundary applies exactly that
/// line's effect: stop at the sentinel, append one delta, or nothing.
pub proof fn lemma_line_processed(m: DecodeModel, l: Seq<u8>)
    requires
        !m.done,
        m.line.len() == 0,
        forall|i: int| 0 <= i < l.len() ==> l[i] != LINE_FEED,
    ensures
        feed_bytes(m, l.push(LINE_FEED)) == (match line_effect(l) {
            LineEffect::Sentinel => DecodeModel { line: Seq::empty(), done: true, out: m.out },
            LineEffect::Emit(d) => DecodeModel {
                line: Seq::empty(),
                done: false,
                out: m.out.push(d),
            },
            LineEffect::Skip => DecodeModel { line: Seq::empty(), done: false, out: m.out },
        }),
{
    lemma_feed_no_newline(m, l);
    lemma_feed_bytes_snoc(m, l, LINE_FEED);
    assert(m.line + l =~= l);
}

/// A complete line that does not begin with `data: ` — a blank line, or
/// any other field of the event format — emits no delta, does not end
/// the stream, and is no error: decoding simply goes on.
pub proof fn lemma_non_data_line_ignored(m: DecodeModel, l: Seq<u8>)
    requires
        !m.done,
        m.line.len() == 0,
        forall|i: int| 0 <= i < l.len() ==> l[i] != LINE_FEED,
        !is_data_line(strip_cr(l)),
    ensures
        feed_bytes(m, l.push(LINE_FEED)) == (DecodeModel {
            line: Seq::empty(),
            done: false,
            out: m.out,
        }),
{
    lemma_line_processed(m, l);
}

/// A `data: ` line whose payload is not the sentinel and yields no
/// content — it does not parse as JSON, or holds no
/// `choices[0].delta.content` string — emits no delta, does not end the
/// stream, and is no error: decoding simply goes on.
pub proof fn lemma_contentless_payload_ignored(m: DecodeModel, l: Seq<u8>)
    requires
        !m.done,
        m.line.len() == 0,
        forall|i: int| 0 <= i < l.len() ==> l[i] != LINE_FEED,
        is_data_line(strip_cr(l)),
        !is_sentinel(payload_of(strip_cr(l))),
        json_content_of(payload_of(strip_cr(l))) is None,
    ensures
        feed_bytes(m, l.push(LINE_FEED)) == (DecodeModel {
            line: Seq::empty(),
            done: false,
            out: m.out,
        }),
{
    lemma_line_processed(m, l);
}

/// The full sentinel line: `data: [DONE]` followed by its line feed.
pub open spec fn sentinel_line() -> Seq<u8> {
    seq![100u8, 97u8, 116u8, 97u8, 58u8, 32u8, 91u8, 68u8, 79u8, 78u8, 69u8, 93u8, 10u8]
}

/// While the stream is not complete, the line buffer is empty right
/// after a line feed.
proof fn lemma_line_empty_after_lf(m: DecodeModel, s: Seq<u8>)
    requires
        s.len() > 0,
        s.last() == LINE_FEED,
    ensures
        !feed_bytes(m, s).done ==> feed_bytes(m, s).line.len() == 0,
{
    assert(s =~= s.drop_last().push(LINE_FEED));
    lemma_feed_bytes_snoc(m, s.drop_last(), LINE_FEED);
}

/// Once a complete sentinel line stands at a line boundary of the byte
/// stream, decoding completes normally, and neither the sentinel line
/// nor anything after it adds a delta: every delta comes from before it.
pub proof fn lemma_sentinel_completes(pre: Seq<u8>, post: Seq<u8>)
    requires
        pre.len() == 0 || pre.last() == LINE_FEED,
    ensures
        feed_bytes(initial_model(), pre + sentinel_line() + post).done,
        feed_bytes(initial_model(), pre + sentinel_line() + post).out == feed_bytes(
            initial_model(),
            pre,
        ).out,
{
    let m1 = feed_bytes(initial_model(), pre);
    lemma_feed_bytes_app(initial_model(), pre, sentinel_line());
    lemma_feed_bytes_app(initial_model(), pre + sentinel_line(), post);
    if m1.done {
        lemma_done_absorbs(m1, sentinel_line());
        lemma_done_absorbs(feed_bytes(m1, sentinel_line()), post);
    } else {
        if pre.len() == 0 {
            assert(m1.line.len() == 0);
        } else {
            lemma_line_empty_after_lf(initial_model(), pre);
        }
        let body = seq![100u8, 97u8, 116u8, 97u8, 58u8, 32u8, 91u8, 68u8, 79u8, 78u8, 69u8, 93u8];
        assert(sentinel_line() =~= body.push(LINE_FEED));
        assert(forall|i: int| 0 <= i < body.len() ==> body[i] != LINE_FEED);
        assert(strip_cr(body) == body);
        assert(is_data_line(body));
        assert(payload_of(body) =~= seq![91u8, 68u8, 79u8, 78u8, 69u8, 93u8]);
        assert(is_sentinel(payload_of(body)));
        lemma_line_processed(m1, body);
        lemma_done_absorbs(feed_bytes(m1, sentinel_line()), post);
    }
}

/// The same, at the chunk level: whenever the concatenation of the
/// chunks carries a complete sentinel line at a line boundary, the
/// session completes normally, however the bytes were cut into chunks,
/// and every delta was emitted before the sentinel line.
pub proof fn lemma_session_completes(chunks: Seq<Seq<u8>>, pre: Seq<u8>, post: Seq<u8>)
    requires
        chunks.flatten() == pre + sentinel_line() + post,
        pre.len() == 0 || pre.last() == LINE_FEED,
    ensures
        session_completed(chunks),
        session_deltas(chunks) == feed_bytes(initial_model(), pre).out,
{
    lemma_chunking_irrelevant(initial_model(), chunks);
    lemma_sentinel_completes(pre, post);
}

} // verus!
