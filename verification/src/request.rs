//! The chat-completion request and its routing.
//!
//! A request names a model, carries the conversation's messages in
//! order, says whether the response is to be streamed, and may bound the
//! number of generated tokens.  Which endpoint and key a request goes to
//! is decided by whether the model identifier names the code-analysis
//! model family; the endpoint URLs and keys themselves are the caller's
//! opaque configuration, not this library's.

use vstd::prelude::*;
use vstd::string::StringSliceAdditionalSpecFns;

verus! {

/// One message of the conversation, in insertion order.
pub struct RequestMessage {
    /// The sender's role; not validated here.
    pub role: String,
    /// The message text.
    pub content: String,
}

impl RequestMessage {
    /// A message as given.
    pub fn new(role: String, content: String) -> (m: Self)
        ensures
            m.role == role,
            m.content == content,
    {
        RequestMessage { role, content }
    }
}

/// One chat-completion request, immutable once constructed.
pub struct ChatRequest {
    /// The model identifier.
    pub model: String,
    /// The conversation, in order.
    pub messages: Vec<RequestMessage>,
    /// Whether the response is to be streamed.
    pub stream: bool,
    /// Largest number of tokens to generate; absent means unbounded.
    pub max_tokens: Option<u32>,
}

impl ChatRequest {
    /// A token bound is either absent or positive.
    pub open spec fn wf(&self) -> bool {
        self.max_tokens matches Some(n) ==> n >= 1
    }

    /// A request as given.
    pub fn new(model: String, messages: Vec<RequestMessage>, stream: bool, max_tokens: Option<
        u32,
    >) -> (r: Self)
        requires
            max_tokens matches Some(n) ==> n >= 1,
        ensures
            r.model == model,
            r.messages == messages,
            r.stream == stream,
            r.max_tokens == max_tokens,
            r.wf(),
    {
        ChatRequest { model, messages, stream, max_tokens }
    }
}

/// The nine bytes of `codestral`, the marker of the code-analysis model
/// family.
pub open spec fn code_marker() -> Seq<u8> {
    seq![99u8, 111u8, 100u8, 101u8, 115u8, 116u8, 114u8, 97u8, 108u8]
}

/// Whether the marker occurs anywhere in the given bytes.
pub open spec fn has_code_marker(bytes: Seq<u8>) -> bool {
    exists|i: int| 0 <= i && i + 9 <= bytes.len() && #[trigger] bytes.subrange(i, i + 9) == code_marker()
}

/// Whether the marker stands at offset `i` of the bytes.
fn marker_at(b: &[u8], i: usize) -> (r: bool)
    requires
        i + 9 <= b@.len(),
    ensures
        r == (b@.subrange(i as int, i + 9 as int) == code_marker()),
{
    let hit = b[i] == 99 && b[i + 1] == 111 && b[i + 2] == 100 && b[i + 3] == 101 && b[i + 4]
        == 115 && b[i + 5] == 116 && b[i + 6] == 114 && b[i + 7] == 97 && b[i + 8] == 108;
    proof {
        if hit {
            assert(b@.subrange(i as int, i + 9 as int) =~= code_marker());
        } else {
            assert(b@.subrange(i as int, i + 9 as int) != code_marker()) by {
                if b@.subrange(i as int, i + 9 as int) == code_marker() {
                    assert(forall|k: int|
                        0 <= k < 9 ==> b@.subrange(i as int, i + 9 as int)[k] == code_marker()[k]);
                }
            }
        }
    }
    hit
}

/// Decides the route of a request: true exactly when the model
/// identifier contains `codestral` and the request therefore goes to the
/// code-analysis endpoint with its key, false for the general chat
/// endpoint with its key.
pub fn model_targets_code_api(model: &str) -> (r: bool)
    ensures
        r == has_code_marker(model.spec_bytes()),
{
    let b = model.as_bytes();
    let n = b.len();
    if n < 9 {
        proof {
            assert(!has_code_marker(b@));
        }
        return false;
    }
    let mut i: usize = 0;
    while i <= n - 9
        invariant
            0 <= i,
            9 <= n,
            i <= n - 8,
            n == b@.len(),
            b@ == model.spec_bytes(),
            forall|j: int| 0 <= j && j + 9 <= b@.len() && j < i ==> #[trigger] b@.subrange(
                j,
                j + 9,
            ) != code_marker(),
        decreases n - i,
    {
        if marker_at(b, i) {
            proof {
                assert(has_code_marker(b@));
            }
            return true;
        }
        i = i + 1;
    }
    proof {
        assert(forall|j: int|
            0 <= j && j + 9 <= b@.len() ==> #[trigger] b@.subrange(j, j + 9) != code_marker());
        assert(!has_code_marker(b@));
    }
    false
}

} // verus!
