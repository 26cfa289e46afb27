//! One wire message: a JSON value serialized to UTF-8 inside a frame.
//! Encoding and decoding are exact inverses: the decoder's contract
//! promises that the bytes written for any value, followed by anything,
//! decode back to exactly that value.

use vstd::prelude::*;
use vstd::string::StrSliceExecFns;
use vstd::string::StringSliceAdditionalSpecFns;
use crate::frame::FrameStep;
use crate::frame::encode_frame;
use crate::frame::frame_bytes;
use crate::frame::frame_premise;
use crate::frame::take_frame;
use crate::json::JVal;
use crate::json::Json;
use crate::json::json_to_text;
use crate::json::ser_jval;
use crate::json::wf_jval;
use crate::jparse::parse_json_text;

verus! {

#[verifier::external_type_specification]
#[verifier::external_body]
pub struct ExUtf8Error(core::str::Utf8Error);

/// Relies on std's `str::from_utf8`: succeeds exactly on valid UTF-8, and
/// the returned slice views those same bytes.
pub assume_specification[ core::str::from_utf8 ](v: &[u8]) -> (r: Result<
    &str,
    core::str::Utf8Error,
>)
    ensures
        r is Ok <==> vstd::utf8::valid_utf8(v@),
        r matches Ok(s) ==> s.spec_bytes() == v@,
;

/// The exact bytes a message is sent as.
pub open spec fn message_bytes(v: JVal) -> Seq<u8> {
    frame_bytes(vstd::utf8::encode_utf8(ser_jval(v)))
}

/// The bytes at `start` begin a complete message of `v` followed by `junk`.
pub open spec fn message_premise(bufv: Seq<u8>, start: int, v: JVal, junk: Seq<u8>) -> bool {
    bufv.subrange(start, bufv.len() as int) == message_bytes(v) + junk
}

/// What one wire decoding step yields.
pub enum WireStep {
    /// More bytes are needed before a whole message is present.
    Incomplete,
    /// The bytes at the cursor are not a well-formed message.
    Malformed,
    /// A decoded value, and the cursor just past its frame.
    Message(Json, usize),
}

/// Encodes `v` for the wire.
pub fn encode_message(v: &Json) -> (r: Vec<u8>)
    ensures
        r@ == message_bytes(v@),
{
    let text = json_to_text(v);
    let body = text.as_str().as_bytes_vec();
    encode_frame(&body)
}

/// Decodes one message beginning at `start`. Together with
/// [`encode_message`] this is the framing round trip: for every value `v`,
/// the bytes of `encode_message(v)`, followed by any further bytes, decode
/// to exactly `v`.
pub fn take_message(buf: &Vec<u8>, start: usize) -> (r: WireStep)
    requires
        start <= buf@.len(),
    ensures
        r matches WireStep::Message(m, c) ==> start < c <= buf@.len(),
        forall|v: JVal, junk: Seq<u8>|
            (wf_jval(v) && #[trigger] message_premise(buf@, start as int, v, junk)) ==> (r matches
            WireStep::Message(m, c) && m@ == v && c == start + message_bytes(v).len()),
{
    let ghost bv = buf@;
    match take_frame(buf, start) {
        FrameStep::Incomplete => {
            proof {
                assert forall|v: JVal, junk: Seq<u8>|
                    (wf_jval(v) && #[trigger] message_premise(bv, start as int, v, junk))
                    implies false by {
                    assert(frame_premise(bv, start as int, vstd::utf8::encode_utf8(ser_jval(v)),
                        junk));
                }
            }
            WireStep::Incomplete
        },
        FrameStep::Malformed => {
            proof {
                assert forall|v: JVal, junk: Seq<u8>|
                    (wf_jval(v) && #[trigger] message_premise(bv, start as int, v, junk))
                    implies false by {
                    assert(frame_premise(bv, start as int, vstd::utf8::encode_utf8(ser_jval(v)),
                        junk));
                }
            }
            WireStep::Malformed
        },
        FrameStep::Frame(body, c) => {
            proof {
                assert forall|v: JVal, junk: Seq<u8>|
                    (wf_jval(v) && #[trigger] message_premise(bv, start as int, v, junk)) implies {
                    &&& body@ == vstd::utf8::encode_utf8(ser_jval(v))
                    &&& c == start + message_bytes(v).len()
                } by {
                    assert(frame_premise(bv, start as int, vstd::utf8::encode_utf8(ser_jval(v)),
                        junk));
                }
            }
            match core::str::from_utf8(body.as_slice()) {
                Ok(s) => {
                    proof {
                        assert forall|v: JVal, junk: Seq<u8>|
                            (wf_jval(v) && #[trigger] message_premise(bv, start as int, v, junk))
                            implies s@ == ser_jval(v) by {
                            broadcast use vstd::utf8::encode_utf8_decode_utf8;

                            assert(vstd::utf8::encode_utf8(s@) == vstd::utf8::encode_utf8(
                                ser_jval(v),
                            ));
                            assert(vstd::utf8::decode_utf8(vstd::utf8::encode_utf8(s@)) == s@);
                            assert(vstd::utf8::decode_utf8(
                                vstd::utf8::encode_utf8(ser_jval(v)),
                            ) == ser_jval(v));
                        }
                    }
                    match parse_json_text(s) {
                        Some(m) => WireStep::Message(m, c),
                        None => WireStep::Malformed,
                    }
                },
                Err(_) => {
                    proof {
                        assert forall|v: JVal, junk: Seq<u8>|
                            (wf_jval(v) && #[trigger] message_premise(bv, start as int, v, junk))
                            implies false by {
                            broadcast use vstd::utf8::encode_utf8_valid_utf8;

                            assert(vstd::utf8::valid_utf8(vstd::utf8::encode_utf8(ser_jval(v))));
                        }
                    }
                    WireStep::Malformed
                },
            }
        },
    }
}

} // verus!
