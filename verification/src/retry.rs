//! Retry engine: the uniform bounded send-and-await step. Every protocol
//! step that must wait for a peer response goes through [`with_retry`]: it
//! (re)sends the request, waits for one response within the time bound, and
//! on timeout re-attempts the same action, up to `max_attempts` total
//! attempts. There is no backoff growth between attempts.

use vstd::prelude::*;
use crate::channel::PacketStream;
use crate::codec::{clone_packet, Packet, PacketView};

verus! {

/// What one bounded send-and-await step came to: the response, if any
/// arrived within the budget, and how many attempts were spent.
pub struct RetryOutcome {
    pub response: Option<Packet>,
    pub attempts: u32,
}

/// The packets a send-and-await step writes when it runs `n` attempts:
/// the request once per attempt, or nothing when the step only awaits.
pub open spec fn request_script(request: Option<&Packet>, n: nat) -> Seq<PacketView> {
    match request {
        None => Seq::empty(),
        Some(p) => Seq::new(n, |i: int| p@),
    }
}

/// Sends `request` (when given) and awaits one response within
/// `timeout_ms`, retrying the same action on timeout, up to `max_attempts`
/// total attempts. A response ends the step at once; after `max_attempts`
/// timeouts the step reports exhaustion by returning no response with
/// `attempts == max_attempts`.
pub fn with_retry(
    incoming: &mut PacketStream,
    outgoing: &mut PacketStream,
    request: Option<&Packet>,
    timeout_ms: u64,
    max_attempts: u32,
) -> (r: RetryOutcome)
    requires
        max_attempts >= 1,
    ensures
        old(incoming)@.len() > 0 ==> {
            &&& r.attempts == 1
            &&& r.response matches Some(p) && p@ == old(incoming)@[0]
            &&& final(incoming)@ == old(incoming)@.drop_first()
            &&& final(outgoing)@ == old(outgoing)@ + request_script(request, 1)
        },
        old(incoming)@.len() == 0 ==> {
            &&& r.attempts == max_attempts
            &&& r.response is None
            &&& final(incoming)@ == old(incoming)@
            &&& final(outgoing)@ == old(outgoing)@ + request_script(request, max_attempts as nat)
        },
{
    let mut attempts: u32 = 0;
    loop
        invariant
            max_attempts >= 1,
            attempts < max_attempts,
            incoming@ == old(incoming)@,
            attempts > 0 ==> old(incoming)@.len() == 0,
            outgoing@ == old(outgoing)@ + request_script(request, attempts as nat),
        decreases max_attempts - attempts,
    {
        if let Some(p) = request {
            outgoing.write(clone_packet(p));
            proof {
                assert(request_script(request, attempts as nat).push(p@) =~= request_script(
                    request,
                    (attempts + 1) as nat,
                ));
                assert(outgoing@ =~= old(outgoing)@ + request_script(
                    request,
                    (attempts + 1) as nat,
                ));
            }
        } else {
            proof {
                assert(request_script(request, attempts as nat) =~= request_script(
                    request,
                    (attempts + 1) as nat,
                ));
            }
        }
        attempts = attempts + 1;
        match incoming.read_with_timeout(timeout_ms) {
            Some(packet) => {
                return RetryOutcome { response: Some(packet), attempts };
            },
            None => {},
        }
        if attempts == max_attempts {
            return RetryOutcome { response: None, attempts };
        }
    }
}

} // verus!
