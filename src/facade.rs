use vstd::prelude::*;
use crate::codec::{channel_send_record, encode_channel_send};
use crate::error::BridgeClosedError;

verus! {

/// What `send` does: the line to write for `data` on `channel`, or the
/// closed-bridge error once the bridge is shut.
pub fn send_line(closed: bool, channel: &str, data: &str) -> (r: Result<String, BridgeClosedError>)
    ensures
        match r {
            Ok(line) => !closed && line@ == channel_send_record(channel@, data@),
            Err(_) => closed,
        },
{
    if closed {
        Err(BridgeClosedError)
    } else {
        Ok(encode_channel_send(channel, data))
    }
}

/// What `receive` returns: the delivered value, or the closed-bridge error
/// when its waiter was dropped without a value, which happens only when the
/// bridge shuts.
pub fn receive_result(delivered: Option<String>) -> (r: Result<String, BridgeClosedError>)
    ensures
        match delivered {
            Some(v) => r == Ok::<String, BridgeClosedError>(v),
            None => r is Err,
        },
{
    match delivered {
        Some(v) => Ok(v),
        None => Err(BridgeClosedError),
    }
}

} // verus!
