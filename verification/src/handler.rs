//! Per-frame connection handling: negotiate the header flags, decode
//! the payload, enqueue what was accepted, and build the response frame.
use vstd::prelude::*;
use crate::email::{decode_email, email_of, Email};
use crate::frame::{
    encode_frame, decode_frame, spec_encode_frame, spec_decode_frame, spec_response, HeaderModel,
    ProtocolHeader, FLAG_OPTIMIZED, STATUS_ERROR, STATUS_OK, STATUS_SIDEGRADE, PROTOCOL_VERSION,
};
use crate::lifecycle::ServiceState;
use crate::queue::{MailQueue, QueuedEmail};

verus! {

/// Build the header of a response frame: this relay's version, no
/// flags, an empty payload, and the given status and reserved bytes.
pub fn response_header(status: u8, reserved: u8) -> (r: ProtocolHeader)
    ensures
        r@ =~= spec_response(status, reserved),
{
    let r = ProtocolHeader {
        version: PROTOCOL_VERSION,
        flags: 0,
        payload_length: 0,
        reserved,
        status,
        origin_address: [0u8; 4],
        encryption_key: [0u8; 32],
    };
    assert(r@.origin_address =~= Seq::new(4, |i: int| 0u8));
    assert(r@.encryption_key =~= Seq::new(32, |i: int| 0u8));
    r
}

/// The bytes of the empty-payload response frame that carries `status`
/// and `reserved`.
pub open spec fn spec_response_bytes(status: u8, reserved: u8) -> Seq<u8> {
    spec_encode_frame(spec_response(status, reserved), Seq::<u8>::empty())
}

/// Whether `post` is `pre` with one entry accepted at second `now`
/// carrying the decoded subject and body.
pub open spec fn accepts_email(
    pre: Seq<QueuedEmail>,
    post: Seq<QueuedEmail>,
    sb: (Seq<char>, Seq<char>),
    now: u64,
) -> bool {
    &&& post.len() == pre.len() + 1
    &&& post.take(pre.len() as int) == pre
    &&& post.last().email.subject@ == sb.0
    &&& post.last().email.body@ == sb.1
    &&& post.last().received_at == now
}

/// Serialize the empty-payload response frame that carries `status` and
/// `reserved`.
pub fn encode_response(status: u8, reserved: u8) -> (r: Vec<u8>)
    ensures
        r@ =~= spec_response_bytes(status, reserved),
{
    let header = response_header(status, reserved);
    let payload: Vec<u8> = Vec::new();
    encode_frame(&header, payload.as_slice())
}

/// Negotiate one decoded frame. A header whose flags are not exactly
/// OPTIMIZED is answered with SIDEGRADE and the flag set to switch to,
/// and nothing is enqueued. With the right flags, a payload that
/// decoded becomes a queue entry stamped `now` and is answered OK; one
/// that did not is answered ERROR with the queue untouched. Every
/// branch counts one protocol event.
pub fn process_frame(
    queue: &mut MailQueue,
    state: &mut ServiceState,
    header: &ProtocolHeader,
    decoded: Option<Email>,
    now: u64,
) -> (resp: ProtocolHeader)
    requires
        old(state).event_counter < u64::MAX,
    ensures
        final(state).event_counter == old(state).event_counter + 1,
        final(state).last_updated == now,
        final(state).is_active == old(state).is_active,
        final(state).data == old(state).data,
        header.flags != FLAG_OPTIMIZED ==> resp@ =~= spec_response(STATUS_SIDEGRADE, FLAG_OPTIMIZED)
            && final(queue)@ =~= old(queue)@,
        header.flags == FLAG_OPTIMIZED && decoded is None ==> resp@ =~= spec_response(
            STATUS_ERROR,
            0,
        ) && final(queue)@ =~= old(queue)@,
        header.flags == FLAG_OPTIMIZED ==> (decoded matches Some(e) ==> resp@ =~= spec_response(
            STATUS_OK,
            0,
        ) && final(queue)@ =~= old(queue)@.push((QueuedEmail { email: e, received_at: now }))),
{
    state.record_event(now);
    if header.flags != FLAG_OPTIMIZED {
        response_header(STATUS_SIDEGRADE, FLAG_OPTIMIZED)
    } else {
        match decoded {
            Some(email) => {
                queue.enqueue(email, now);
                response_header(STATUS_OK, 0)
            },
            None => response_header(STATUS_ERROR, 0),
        }
    }
}

/// Handle one raw frame chunk read off a connection: a chunk with no
/// parsable header is answered ERROR; one whose flags are not OPTIMIZED
/// is answered SIDEGRADE; with the right flags, a payload that decodes
/// is enqueued stamped `now` and answered OK, and one that does not is
/// answered ERROR with the queue untouched. The response comes back
/// serialized, ready to send.
pub fn handle_frame(
    queue: &mut MailQueue,
    state: &mut ServiceState,
    raw: &[u8],
    now: u64,
) -> (resp: Vec<u8>)
    requires
        old(state).event_counter < u64::MAX,
    ensures
        final(state).event_counter == old(state).event_counter + 1,
        final(state).last_updated == now,
        spec_decode_frame(raw@) is None ==> resp@ =~= spec_response_bytes(STATUS_ERROR, 0)
            && final(queue)@ =~= old(queue)@,
        spec_decode_frame(raw@) matches Some(hp) ==> ((hp.0.flags != FLAG_OPTIMIZED ==> resp@ =~=
            spec_response_bytes(STATUS_SIDEGRADE, FLAG_OPTIMIZED) && final(queue)@ =~= old(queue)@)
            && (hp.0.flags == FLAG_OPTIMIZED ==> ((email_of(hp.1) matches Some(sb) ==> resp@ =~=
            spec_response_bytes(STATUS_OK, 0) && accepts_email(old(queue)@, final(queue)@, sb, now))
            && (email_of(hp.1) is None ==> resp@ =~= spec_response_bytes(STATUS_ERROR, 0)
            && final(queue)@ =~= old(queue)@)))),
{
    state.record_event(now);
    match decode_frame(raw) {
        Err(_) => encode_response(STATUS_ERROR, 0),
        Ok((header, payload)) => {
            if header.flags != FLAG_OPTIMIZED {
                encode_response(STATUS_SIDEGRADE, FLAG_OPTIMIZED)
            } else {
                match decode_email(payload.as_slice()) {
                    Some(email) => {
                        let ghost pre = queue@;
                        let ghost sb = (email.subject@, email.body@);
                        queue.enqueue(email, now);
                        proof {
                            assert(queue@.take(pre.len() as int) =~= pre);
                            assert(accepts_email(pre, queue@, sb, now));
                        }
                        encode_response(STATUS_OK, 0)
                    },
                    None => encode_response(STATUS_ERROR, 0),
                }
            }
        },
    }
}

} // verus!
