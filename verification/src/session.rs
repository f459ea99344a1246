//! The connection interface's compute side: opening a session under a
//! fresh identity and turning each received text frame into the hub
//! operation it denotes.
//!
//! The transport itself (the socket, the two pump tasks, their
//! cancellation) lives outside the crate; it hands every received frame to
//! [`handle_frame`], drains envelopes with [`crate::hub::Hub::pop_outbox`],
//! and calls [`crate::hub::Hub::detach`] exactly once when the transport
//! ends.

use vstd::prelude::*;
use vstd::utf8::encode_utf8;

use crate::codec::{parse_client_frame, spec_parse_fault, spec_parse_frame, ParseFault};
use crate::envelope::{ClientEnvelope, ClientEnvelopeModel};
use crate::hub::{attach_t, discover_t, register_t, reject_t, route_t, Hub, HubModel};
use vstd::slice::slice_to_vec;

verus! {

/// The reason text behind a protocol error, by fault.
pub open spec fn fault_text(fault: ParseFault) -> Seq<char> {
    match fault {
        ParseFault::MalformedJson => "malformed JSON"@,
        ParseFault::MissingType => "missing message type"@,
        ParseFault::UnknownType => "unknown message type"@,
        ParseFault::MissingField => "missing required field"@,
    }
}

/// The message answered to a frame that is not a well-formed envelope:
/// the fixed "Invalid message format: " prefix followed by the reason the
/// codec reports. No server-internal detail beyond the category leaks.
pub open spec fn invalid_format_message(fault: ParseFault) -> Seq<u8> {
    encode_utf8("Invalid message format: "@) + encode_utf8(fault_text(fault))
}

/// The hub transition denoted by one received text frame: a frame that
/// decodes to an envelope performs the corresponding hub operation; any
/// other frame is answered with a protocol error into the sender's own
/// outbox, its message naming the reason.
pub open spec fn handle_frame_t(m: HubModel, id: Seq<u8>, frame: Seq<u8>) -> HubModel {
    match spec_parse_frame(frame) {
        None => reject_t(m, id, invalid_format_message(spec_parse_fault(frame))),
        Some(env) => match env {
            ClientEnvelopeModel::Register { display_name } => register_t(m, id, display_name),
            ClientEnvelopeModel::Discover => discover_t(m, id),
            ClientEnvelopeModel::Route { kind, target_user_id, payload } => route_t(
                m,
                id,
                kind,
                target_user_id,
                payload,
            ),
        },
    }
}

/// Build the protocol-error message for one fault.
fn fault_message(fault: ParseFault) -> (r: Vec<u8>)
    ensures
        r@ == invalid_format_message(fault),
{
    let mut r = slice_to_vec("Invalid message format: ".as_bytes());
    let reason: &str = match fault {
        ParseFault::MalformedJson => "malformed JSON",
        ParseFault::MissingType => "missing message type",
        ParseFault::UnknownType => "unknown message type",
        ParseFault::MissingField => "missing required field",
    };
    crate::bytes::append_bytes(&mut r, reason.as_bytes());
    r
}

/// Apply one received text frame from the peer `user_id` to the hub.
pub fn handle_frame(hub: &mut Hub, user_id: &[u8], frame: &[u8])
    requires
        old(hub)@.wf(),
    ensures
        final(hub)@ == handle_frame_t(old(hub)@, user_id@, frame@),
        final(hub)@.wf(),
{
    match parse_client_frame(frame) {
        Err(fault) => {
            hub.reject(user_id, fault_message(fault));
        },
        Ok(ClientEnvelope::Register { display_name }) => {
            let _ = hub.register(user_id, display_name);
        },
        Ok(ClientEnvelope::Discover) => {
            hub.discover(user_id);
        },
        Ok(ClientEnvelope::Route { kind, target_user_id, payload }) => {
            hub.route(user_id, kind, target_user_id.as_slice(), payload);
        },
    }
}

/// Relies on `uuid::Uuid::new_v4` and its `Display` form: a freshly drawn
/// random identity rendered as the 36-byte hyphenated form. Nothing is
/// assumed about which identity comes out.
#[verifier::external_body]
fn fresh_identity() -> (r: Vec<u8>)
    ensures
        r@.len() == 36,
{
    uuid::Uuid::new_v4().to_string().into_bytes()
}

/// Open a new session: draw a fresh identity and attach it to the hub.
/// Returns the identity, or `None` when the drawn identity collides with
/// a live one; in that case the hub is unchanged and the caller may simply
/// try again.
pub fn open_session(hub: &mut Hub) -> (r: Option<Vec<u8>>)
    requires
        old(hub)@.wf(),
    ensures
        final(hub)@.wf(),
        match r {
            Some(id) => id@.len() == 36 && !old(hub)@.has_peer(id@) && final(hub)@ == attach_t(
                old(hub)@,
                id@,
            ),
            None => final(hub)@ == old(hub)@,
        },
{
    let id = fresh_identity();
    let id_copy = crate::bytes::copy_bytes(&id);
    let added = hub.attach(id_copy);
    if added {
        Some(id)
    } else {
        proof {
            assert(final(hub)@ =~~= old(hub)@);
        }
        None
    }
}

} // verus!
