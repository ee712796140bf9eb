//! HTTP primitives shared by the fetch and search paths: the user agent,
//! the response-body cap, and the retry classification.

use vstd::prelude::*;

verus! {

/// The user agent both paths send: a browser agent, since a tool-shaped one
/// is refused or challenged by a large share of CDNs.
pub const USER_AGENT: &'static str = "Mozilla/5.0 (X11; Linux x86_64) AppleWebKit/537.36 (KHTML, like Gecko) Chrome/120.0 Safari/537.36";

/// Hard cap on the response body read (5 MiB). Bodies over the cap are
/// truncated, not refused: partial content is still useful.
pub const MAX_BODY_BYTES: usize = 5242880;

/// Append as much of `chunk` to `buf` as fits under `max`. Returns `true`
/// once the cap is reached: the body is truncated and reading should stop.
pub fn push_capped(buf: &mut Vec<u8>, chunk: &[u8], max: usize) -> (stopped: bool)
    ensures
        ({
            let remaining = if max >= old(buf)@.len() {
                max - old(buf)@.len()
            } else {
                0
            };
            &&& stopped == (chunk@.len() >= remaining)
            &&& final(buf)@ == old(buf)@ + (if stopped {
                chunk@.take(remaining)
            } else {
                chunk@
            })
        }),
        old(buf)@.len() <= max ==> final(buf)@.len() <= max,
{
    let remaining = if max >= buf.len() {
        max - buf.len()
    } else {
        0
    };
    let take = if chunk.len() >= remaining {
        remaining
    } else {
        chunk.len()
    };
    let ghost start = buf@;
    let mut i: usize = 0;
    while i < take
        invariant
            take <= chunk@.len(),
            i <= take,
            buf@ == start + chunk@.take(i as int),
        decreases take - i,
    {
        buf.push(chunk[i]);
        proof {
            assert(chunk@.take(i + 1) == chunk@.take(i as int).push(chunk@[i as int]));
        }
        i += 1;
    }
    proof {
        if chunk@.len() < remaining {
            assert(chunk@.take(take as int) =~= chunk@);
        }
    }
    chunk.len() >= remaining
}

/// Is a response status worth retrying? Server errors and throttling.
pub open spec fn transient_code(status: u16) -> bool {
    (500 <= status && status <= 599) || status == 429
}

/// Is a response status worth retrying? Server errors and explicit
/// throttling (429).
pub fn transient_status(status: u16) -> (r: bool)
    ensures
        r == transient_code(status),
{
    (500 <= status && status <= 599) || status == 429
}

/// Is a send or connect failure worth retrying? A timeout, a failed
/// connection, or a request that could not be sent.
pub fn transient_send(is_timeout: bool, is_connect: bool, is_request: bool) -> (r: bool)
    ensures
        r == (is_timeout || is_connect || is_request),
{
    is_timeout || is_connect || is_request
}

} // verus!
