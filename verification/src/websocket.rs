//! The WebSocket message bodies: a response to an identified request is a
//! JSON array of the request id and the payload, with a `null` slotted in
//! before an error payload; a notification carries an empty id. The
//! transport itself lives outside this crate.

use vstd::prelude::*;
use crate::events::{Payload, Response};
use vstd::string::StringExecFns;

verus! {

/// The text of a response message.
pub open spec fn response_text(id: Seq<char>, result: Response) -> Seq<char> {
    match result {
        Ok(p) => "[\""@ + id + "\","@ + p.json@ + "]"@,
        Err(p) => "[\""@ + id + "\",null,"@ + p.json@ + "]"@,
    }
}

/// The text of a notification message.
pub open spec fn notification_text(payload: Payload) -> Seq<char> {
    "[\"\","@ + payload.json@ + "]"@
}

/// Renders the response to one identified request.
pub fn websocket_response(id: &str, result: &Response) -> (r: String)
    ensures
        r@ == response_text(id@, *result),
{
    let mut out = String::from_str("[\"");
    out.append(id);
    match result {
        Ok(p) => {
            out.append("\",");
            out.append(p.json.as_str());
        },
        Err(p) => {
            out.append("\",null,");
            out.append(p.json.as_str());
        },
    }
    out.append("]");
    proof {
        assert(out@ =~= response_text(id@, *result));
    }
    out
}

/// Renders an event notification.
pub fn websocket_notification(payload: &Payload) -> (r: String)
    ensures
        r@ == notification_text(*payload),
{
    let mut out = String::from_str("[\"\",");
    out.append(payload.json.as_str());
    out.append("]");
    proof {
        assert(out@ =~= notification_text(*payload));
    }
    out
}

} // verus!
