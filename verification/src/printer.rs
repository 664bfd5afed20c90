//! Rendering decoded deltas to an output sink.
//!
//! Each delta is written and flushed at once, so the caller sees content
//! as it arrives; the rendered stream ends with a single line feed.  A
//! sink failure is not retried: it is raised to the caller immediately,
//! with everything written so far being a prefix of the full rendering.

use vstd::prelude::*;

use crate::decoder::{decode_chunks, StreamOutcome};
use crate::sse::{session_completed, session_deltas, LINE_FEED};

verus! {

/// A failure to write to the output sink; fatal to the invocation.
#[derive(Debug)]
pub struct OutputError {
    /// Description of the failure, for the caller's report.
    pub message: String,
}

/// An output sink: a destination that accepts bytes in order.
///
/// `written` is the sink's model — everything accepted so far.  A
/// write either accepts all of its bytes or none; flushing makes what
/// was written visible and accepts nothing new.
pub trait ByteSink {
    /// The bytes accepted so far, in order.
    spec fn written(&self) -> Seq<u8>;

    /// Accepts all of `data` after what was already written, or fails
    /// having accepted none of it.
    fn write_all_bytes(&mut self, data: &[u8]) -> (r: Result<(), OutputError>)
        ensures
            r is Ok ==> final(self).written() == old(self).written() + data@,
            r is Err ==> final(self).written() == old(self).written(),
    ;

    /// Makes what was written visible; accepts nothing new.
    fn flush_now(&mut self) -> (r: Result<(), OutputError>)
        ensures
            final(self).written() == old(self).written(),
    ;
}

/// A sink that collects the written bytes in memory.
pub struct VecSink {
    /// Everything written so far.
    pub data: Vec<u8>,
}

impl VecSink {
    /// An empty sink.
    pub fn new() -> (s: Self)
        ensures
            s.data@ == Seq::<u8>::empty(),
    {
        VecSink { data: Vec::new() }
    }
}

impl ByteSink for VecSink {
    open spec fn written(&self) -> Seq<u8> {
        self.data@
    }

    fn write_all_bytes(&mut self, data: &[u8]) -> (r: Result<(), OutputError>) {
        let mut i: usize = 0;
        while i < data.len()
            invariant
                0 <= i <= data@.len(),
                self.data@ == old(self).data@ + data@.subrange(0, i as int),
            decreases data@.len() - i,
        {
            self.data.push(data[i]);
            proof {
                assert(old(self).data@ + data@.subrange(0, i as int) + seq![data@[i as int]]
                    =~= old(self).data@ + data@.subrange(0, i + 1 as int));
            }
            i = i + 1;
        }
        proof {
            assert(data@.subrange(0, data@.len() as int) =~= data@);
        }
        Ok(())
    }

    fn flush_now(&mut self) -> (r: Result<(), OutputError>) {
        Ok(())
    }
}

/// The bytes of the first `k` deltas, in order.
pub open spec fn rendered_prefix(deltas: Seq<Seq<u8>>, k: int) -> Seq<u8> {
    deltas.subrange(0, k).flatten()
}

/// Writes each delta to the sink in order, flushing after each one.  On
/// success everything was written; on a sink failure the failure is
/// raised at once, with some prefix of the deltas written.
pub fn print_deltas<S: ByteSink>(sink: &mut S, deltas: &Vec<Vec<u8>>) -> (r: Result<
    (),
    OutputError,
>)
    ensures
        r is Ok ==> final(sink).written() == old(sink).written() + deltas.deep_view().flatten(),
        r is Err ==> exists|k: int|
            0 <= k <= deltas@.len() && final(sink).written() == old(sink).written()
                + #[trigger] rendered_prefix(deltas.deep_view(), k),
{
    let mut i: usize = 0;
    proof {
        assert(deltas.deep_view().subrange(0, 0) =~= Seq::<Seq<u8>>::empty());
        assert(old(sink).written() + rendered_prefix(deltas.deep_view(), 0) =~= old(
            sink,
        ).written());
    }
    while i < deltas.len()
        invariant
            0 <= i <= deltas@.len(),
            sink.written() == old(sink).written() + rendered_prefix(deltas.deep_view(), i as int),
        decreases deltas@.len() - i,
    {
        let ghost k_before: int = i as int;
        proof {
            assert(deltas.deep_view()[i as int] =~= deltas@[i as int]@);
        }
        match sink.write_all_bytes(deltas[i].as_slice()) {
            Ok(_) => {
            },
            Err(e) => {
                proof {
                    assert(0 <= k_before <= deltas@.len() && sink.written() == old(sink).written()
                        + rendered_prefix(deltas.deep_view(), k_before));
                }
                return Err(e);
            },
        }
        match sink.flush_now() {
            Ok(_) => {
            },
            Err(e) => {
                proof {
                    deltas.deep_view().subrange(0, i as int).lemma_flatten_push(
                        deltas.deep_view()[i as int],
                    );
                    assert(deltas.deep_view().subrange(0, i as int).push(
                        deltas.deep_view()[i as int],
                    ) =~= deltas.deep_view().subrange(0, i + 1 as int));
                    assert(rendered_prefix(deltas.deep_view(), i + 1 as int) =~= rendered_prefix(
                        deltas.deep_view(),
                        i as int,
                    ) + deltas.deep_view()[i as int]);
                    assert(0 <= i + 1 <= deltas@.len() && sink.written() == old(sink).written()
                        + rendered_prefix(deltas.deep_view(), i + 1 as int));
                }
                return Err(e);
            },
        }
        proof {
            deltas.deep_view().subrange(0, i as int).lemma_flatten_push(
                deltas.deep_view()[i as int],
            );
            assert(deltas.deep_view().subrange(0, i as int).push(deltas.deep_view()[i as int])
                =~= deltas.deep_view().subrange(0, i + 1 as int));
            assert(rendered_prefix(deltas.deep_view(), i + 1 as int) =~= rendered_prefix(
                deltas.deep_view(),
                i as int,
            ) + deltas.deep_view()[i as int]);
            assert(sink.written() =~= old(sink).written() + rendered_prefix(
                deltas.deep_view(),
                i + 1 as int,
            ));
        }
        i = i + 1;
    }
    proof {
        assert(deltas.deep_view().subrange(0, deltas@.len() as int) =~= deltas.deep_view());
    }
    Ok(())
}

/// Ends the rendered stream: writes the single line terminator and
/// flushes once more.
pub fn print_termination<S: ByteSink>(sink: &mut S) -> (r: Result<(), OutputError>)
    ensures
        r is Ok ==> final(sink).written() == old(sink).written() + seq![LINE_FEED],
        r is Err ==> final(sink).written() == old(sink).written() || final(sink).written() == old(
            sink,
        ).written() + seq![LINE_FEED],
{
    let mut nl: Vec<u8> = Vec::new();
    nl.push(LINE_FEED);
    match sink.write_all_bytes(nl.as_slice()) {
        Ok(_) => {
        },
        Err(e) => {
            return Err(e);
        },
    }
    match sink.flush_now() {
        Ok(_) => {
        },
        Err(e) => {
            return Err(e);
        },
    }
    proof {
        assert(nl@ =~= seq![LINE_FEED]);
    }
    Ok(())
}

/// Decodes a whole chunk sequence and renders it: every delta of the
/// stream in order, then the line terminator.  On success the sink holds
/// exactly the rendering, and the outcome tells whether the sentinel was
/// observed; a sink failure is raised at once.
pub fn stream_to_sink<S: ByteSink>(chunks: &Vec<Vec<u8>>, sink: &mut S) -> (r: Result<
    StreamOutcome,
    OutputError,
>)
    ensures
        r matches Ok(oc) ==> {
            &&& final(sink).written() == old(sink).written() + session_deltas(
                chunks.deep_view(),
            ).flatten() + seq![LINE_FEED]
            &&& oc == (if session_completed(chunks.deep_view()) {
                StreamOutcome::SentinelSeen
            } else {
                StreamOutcome::Unterminated
            })
        },
        r is Err ==> ({
            let ds = session_deltas(chunks.deep_view());
            ||| exists|k: int|
                0 <= k <= ds.len() && final(sink).written() == old(sink).written()
                    + #[trigger] rendered_prefix(ds, k)
            ||| final(sink).written() == old(sink).written() + ds.flatten() + seq![LINE_FEED]
        }),
{
    let (deltas, outcome) = decode_chunks(chunks);
    match print_deltas(sink, &deltas) {
        Ok(_) => {
        },
        Err(e) => {
            proof {
                let ds = session_deltas(chunks.deep_view());
                let k = choose|k: int|
                    0 <= k <= deltas@.len() && sink.written() == old(sink).written()
                        + #[trigger] rendered_prefix(deltas.deep_view(), k);
                assert(rendered_prefix(ds, k) == rendered_prefix(deltas.deep_view(), k));
                assert(0 <= k <= ds.len() && sink.written() == old(sink).written()
                    + rendered_prefix(ds, k));
            }
            return Err(e);
        },
    }
    match print_termination(sink) {
        Ok(_) => {
        },
        Err(e) => {
            proof {
                let ds = session_deltas(chunks.deep_view());
                assert(ds.subrange(0, ds.len() as int) =~= ds);
                assert(rendered_prefix(ds, ds.len() as int) == ds.flatten());
            }
            return Err(e);
        },
    }
    Ok(outcome)
}

} // verus!
