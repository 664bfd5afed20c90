//! The executable stream decoder.
//!
//! A [`ChunkDecoder`] consumes the raw byte chunks of one response
//! stream, reassembles lines across chunk boundaries, and emits the
//! content deltas of the stream in order.  Its behaviour is exactly the
//! byte-at-a-time model of [`crate::sse`]: what a chunk yields depends
//! only on the bytes seen so far, never on where the chunk boundaries
//! fell.  Malformed lines and payloads are skipped, never an error.

use vstd::prelude::*;

use crate::sse::{
    feed_bytes, feed_chunks, initial_model, is_data_line, is_sentinel, json_content_of,
    lemma_done_absorbs, lemma_feed_bytes_snoc, lemma_out_frame, line_effect, payload_of,
    session_completed, session_deltas, strip_cr, DecodeModel, LineEffect, CARRIAGE_RETURN,
    LINE_FEED,
};

verus! {

/// How one decode session ended.  Neither case is an error.
#[derive(Clone, Copy, Debug, PartialEq, Eq, Structural)]
pub enum StreamOutcome {
    /// The sentinel was observed: normal completion.
    SentinelSeen,
    /// The transport stream ended without a sentinel.
    Unterminated,
}

/// What one complete line asks the decoder to do.
pub enum LineAction {
    /// Stop the stream: the sentinel was read.
    Sentinel,
    /// Emit this content delta.
    Emit(Vec<u8>),
    /// Nothing: the line is ignored.
    Skip,
}

/// Relies on serde_json::from_str and serde_json::Value: parses the
/// payload as JSON and hands back the bytes of the string at
/// `choices[0].delta.content`, if the payload parses and that path holds
/// a string; the payload's bytes are first read as UTF-8 with the
/// replacement character for invalid sequences (String::from_utf8_lossy).
/// The result is a function of the payload bytes alone, named
/// [`json_content_of`].
#[verifier::external_body]
fn extract_content(payload: &Vec<u8>) -> (r: Option<Vec<u8>>)
    ensures
        match r {
            Some(d) => json_content_of(payload@) == Some(d@),
            None => json_content_of(payload@) is None,
        },
{
    let text = String::from_utf8_lossy(payload);
    match serde_json::from_str::<serde_json::Value>(&text) {
        Ok(json) => json["choices"][0]["delta"]["content"].as_str().map(|s| s.as_bytes().to_vec()),
        Err(_) => None,
    }
}

/// The effect of one complete line, as the model's [`line_effect`]
/// prescribes it: ignore anything but a `data: ` line; on one, stop at
/// the sentinel payload, emit the extracted content, or skip.
fn effect_of_line(line: &Vec<u8>) -> (e: LineAction)
    ensures
        match e {
            LineAction::Sentinel => line_effect(line@) == LineEffect::Sentinel,
            LineAction::Emit(d) => line_effect(line@) == LineEffect::Emit(d@),
            LineAction::Skip => line_effect(line@) == LineEffect::Skip,
        },
{
    let len = line.len();
    let n = if len > 0 && line[len - 1] == CARRIAGE_RETURN {
        len - 1
    } else {
        len
    };
    proof {
        assert(strip_cr(line@) =~= line@.subrange(0, n as int));
    }
    if n < 6 || line[0] != 100 || line[1] != 97 || line[2] != 116 || line[3] != 97
        || line[4] != 58 || line[5] != 32 {
        return LineAction::Skip;
    }
    proof {
        assert(is_data_line(strip_cr(line@)));
        assert(payload_of(strip_cr(line@)) =~= line@.subrange(6, n as int));
    }
    if n == 12 && line[6] == 91 && line[7] == 68 && line[8] == 79 && line[9] == 78
        && line[10] == 69 && line[11] == 93 {
        proof {
            assert(is_sentinel(payload_of(strip_cr(line@))));
        }
        return LineAction::Sentinel;
    }
    proof {
        assert(!is_sentinel(payload_of(strip_cr(line@))));
    }
    let mut payload: Vec<u8> = Vec::new();
    let mut i: usize = 6;
    while i < n
        invariant
            6 <= i <= n <= line@.len(),
            payload@ =~= line@.subrange(6, i as int),
        decreases n - i,
    {
        payload.push(line[i]);
        proof {
            assert(payload@ =~= line@.subrange(6, i + 1 as int));
        }
        i = i + 1;
    }
    proof {
        assert(payload@ =~= payload_of(strip_cr(line@)));
    }
    match extract_content(&payload) {
        Some(d) => LineAction::Emit(d),
        None => LineAction::Skip,
    }
}

/// The decoder of one response stream: a line buffer spanning chunk
/// boundaries, and the completion flag.
pub struct ChunkDecoder {
    buf: Vec<u8>,
    done: bool,
}

impl ChunkDecoder {
    /// Bytes of the current line, not yet terminated by a line feed.
    pub closed spec fn pending(&self) -> Seq<u8> {
        self.buf@
    }

    /// Whether the sentinel has been observed.
    pub closed spec fn completed(&self) -> bool {
        self.done
    }

    /// The decoder's state as a model state with no deltas recorded.
    pub open spec fn model(&self) -> DecodeModel {
        DecodeModel { line: self.pending(), done: self.completed(), out: Seq::empty() }
    }

    /// A fresh decoder for one stream.
    pub fn new() -> (d: Self)
        ensures
            d.pending() == Seq::<u8>::empty(),
            !d.completed(),
    {
        ChunkDecoder { buf: Vec::new(), done: false }
    }

    /// Consumes one raw chunk and returns the content deltas that its
    /// bytes complete, oldest first.  The new state and the emitted
    /// deltas are exactly what the model prescribes for these bytes;
    /// after the sentinel, nothing more is emitted.
    pub fn push_chunk(&mut self, chunk: &[u8]) -> (out: Vec<Vec<u8>>)
        ensures
            ({
                let m = feed_bytes(old(self).model(), chunk@);
                &&& final(self).pending() == m.line
                &&& final(self).completed() == m.done
                &&& out.deep_view() == m.out
            }),
    {
        let ghost m0 = self.model();
        let mut out: Vec<Vec<u8>> = Vec::new();
        let mut i: usize = 0;
        proof {
            assert(chunk@.subrange(0, 0) =~= Seq::<u8>::empty());
            assert((DecodeModel { line: self.buf@, done: self.done, out: out.deep_view() }) =~= m0);
        }
        while i < chunk.len()
            invariant
                0 <= i <= chunk@.len(),
                m0 == old(self).model(),
                (DecodeModel { line: self.buf@, done: self.done, out: out.deep_view() })
                    == feed_bytes(m0, chunk@.subrange(0, i as int)),
            decreases chunk@.len() - i,
        {
            let ghost cur = feed_bytes(m0, chunk@.subrange(0, i as int));
            proof {
                assert(chunk@.subrange(0, i as int).push(chunk@[i as int]) =~= chunk@.subrange(
                    0,
                    i + 1 as int,
                ));
                lemma_feed_bytes_snoc(m0, chunk@.subrange(0, i as int), chunk@[i as int]);
            }
            let b = chunk[i];
            if self.done {
                proof {
                    lemma_done_absorbs(cur, chunk@.subrange(i as int, chunk@.len() as int));
                    assert(chunk@.subrange(0, i as int) + chunk@.subrange(
                        i as int,
                        chunk@.len() as int,
                    ) =~= chunk@);
                    crate::sse::lemma_feed_bytes_app(
                        m0,
                        chunk@.subrange(0, i as int),
                        chunk@.subrange(i as int, chunk@.len() as int),
                    );
                }
                return out;
            }
            if b == LINE_FEED {
                let action = effect_of_line(&self.buf);
                self.buf = Vec::new();
                match action {
                    LineAction::Sentinel => {
                        self.done = true;
                    },
                    LineAction::Emit(d) => {
                        let ghost dv = d@;
                        let ghost old_out_view = out.deep_view();
                        let ghost old_out_raw = out@;
                        proof {
                            assert(line_effect(cur.line) == LineEffect::Emit(dv));
                        }
                        out.push(d);
                        proof {
                            assert(out.deep_view().len() == old_out_view.len() + 1);
                            assert forall|k: int|
                                0 <= k < old_out_view.len() implies out.deep_view()[k]
                                == old_out_view[k] by {
                                assert(out@[k] == old_out_raw[k]);
                            }
                            assert(out.deep_view()[old_out_view.len() as int] == dv);
                            assert(out.deep_view() =~= old_out_view.push(dv));
                        }
                    },
                    LineAction::Skip => {
                    },
                }
            } else {
                self.buf.push(b);
            }
            proof {
                assert((DecodeModel { line: self.buf@, done: self.done, out: out.deep_view() })
                    =~= feed_bytes(m0, chunk@.subrange(0, i + 1 as int)));
            }
            i = i + 1;
        }
        proof {
            assert(chunk@.subrange(0, chunk@.len() as int) =~= chunk@);
        }
        out
    }

    /// How the session ended, to be read once the transport stream is
    /// exhausted: normal completion when the sentinel was observed, the
    /// unterminated outcome otherwise.  Neither is an error.
    pub fn outcome(&self) -> (oc: StreamOutcome)
        ensures
            oc == (if self.completed() {
                StreamOutcome::SentinelSeen
            } else {
                StreamOutcome::Unterminated
            }),
    {
        if self.done {
            StreamOutcome::SentinelSeen
        } else {
            StreamOutcome::Unterminated
        }
    }
}

/// Decodes a whole chunk sequence with a fresh decoder: all deltas in
/// order, and how the session ended.  The result is a function of the
/// chunk bytes alone.
pub fn decode_chunks(chunks: &Vec<Vec<u8>>) -> (r: (Vec<Vec<u8>>, StreamOutcome))
    ensures
        r.0.deep_view() == session_deltas(chunks.deep_view()),
        r.1 == (if session_completed(chunks.deep_view()) {
            StreamOutcome::SentinelSeen
        } else {
            StreamOutcome::Unterminated
        }),
{
    let mut decoder = ChunkDecoder::new();
    let mut out: Vec<Vec<u8>> = Vec::new();
    let mut i: usize = 0;
    proof {
        assert(chunks.deep_view().subrange(0, 0) =~= Seq::<Seq<u8>>::empty());
        assert((DecodeModel {
            line: decoder.pending(),
            done: decoder.completed(),
            out: out.deep_view(),
        }) =~= initial_model());
    }
    while i < chunks.len()
        invariant
            0 <= i <= chunks@.len(),
            (DecodeModel {
                line: decoder.pending(),
                done: decoder.completed(),
                out: out.deep_view(),
            }) == feed_chunks(initial_model(), chunks.deep_view().subrange(0, i as int)),
        decreases chunks@.len() - i,
    {
        let ghost cur = feed_chunks(initial_model(), chunks.deep_view().subrange(0, i as int));
        proof {
            assert(chunks.deep_view()[i as int] =~= chunks@[i as int]@);
        }
        let mut deltas = decoder.push_chunk(chunks[i].as_slice());
        let ghost deltas_view = deltas.deep_view();
        out.append(&mut deltas);
        proof {
            lemma_feed_chunks_snoc(initial_model(), chunks.deep_view().subrange(0, i as int), chunks.deep_view()[i as int]);
            assert(chunks.deep_view().subrange(0, i as int).push(chunks.deep_view()[i as int])
                =~= chunks.deep_view().subrange(0, i + 1 as int));
            lemma_out_frame(cur, chunks.deep_view()[i as int]);
            assert(out.deep_view() =~= cur.out + deltas_view);
            assert((DecodeModel {
                line: decoder.pending(),
                done: decoder.completed(),
                out: out.deep_view(),
            }) =~= feed_chunks(initial_model(), chunks.deep_view().subrange(0, i + 1 as int)));
        }
        i = i + 1;
    }
    proof {
        assert(chunks.deep_view().subrange(0, chunks.deep_view().len() as int) =~= chunks.deep_view());
    }
    let oc = decoder.outcome();
    (out, oc)
}

/// Feeding one more chunk after a run of chunks feeds its bytes.
pub proof fn lemma_feed_chunks_snoc(m: DecodeModel, chunks: Seq<Seq<u8>>, c: Seq<u8>)
    ensures
        feed_chunks(m, chunks.push(c)) == feed_bytes(feed_chunks(m, chunks), c),
    decreases chunks.len(),
{
    reveal_with_fuel(feed_chunks, 3);
    if chunks.len() == 0 {
        assert(chunks.push(c)[0] == c);
        assert(chunks.push(c).drop_first() =~= Seq::<Seq<u8>>::empty());
    } else {
        assert(chunks.push(c)[0] == chunks[0]);
        assert(chunks.push(c).drop_first() =~= chunks.drop_first().push(c));
        lemma_feed_chunks_snoc(feed_bytes(m, chunks[0]), chunks.drop_first(), c);
    }
}

} // verus!
