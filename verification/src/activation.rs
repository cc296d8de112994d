//! Activation tokens: how long one is kept, and handing one out.

use vstd::prelude::*;

use crate::error::IhsWlResult;

verus! {

/// A token a client made, and no one used in this long, is dropped. One the
/// server handed out waits for its client however long it takes to start.
pub const CLIENT_TOKEN_LIFETIME_S: u64 = 60;

/// Whether a token is kept: `issued` by the server, or made by a client
/// `age_s` seconds ago.
pub fn keeps_token(issued: bool, age_s: u64) -> (keep: bool)
    ensures
        keep == (issued || age_s < CLIENT_TOKEN_LIFETIME_S),
        issued ==> keep,
        !issued ==> (keep <==> age_s < 60),
{
    issued || age_s < CLIENT_TOKEN_LIFETIME_S
}

/// What a request for an activation token of `len` bytes comes to: its length,
/// or why there is none. It goes into the caller's buffer of `room` bytes with
/// a zero that ends it, so the buffer has to be larger than the token.
pub fn activation_token(running: bool, buffer: bool, room: usize, len: usize) -> (r: Result<
    usize,
    IhsWlResult,
>)
    ensures
        r == if !buffer {
            Err::<usize, IhsWlResult>(IhsWlResult::ErrInvalid)
        } else if !running {
            Err(IhsWlResult::ErrNotRunning)
        } else if len >= room {
            Err(IhsWlResult::ErrTooSmall)
        } else {
            Ok(len)
        },
{
    if !buffer {
        Err(IhsWlResult::ErrInvalid)
    } else if !running {
        Err(IhsWlResult::ErrNotRunning)
    } else if len >= room {
        Err(IhsWlResult::ErrTooSmall)
    } else {
        Ok(len)
    }
}

} // verus!
