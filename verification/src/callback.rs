//! The callback object that the transport calls back: of its entry points
//! only "message received" takes part in correlation.
use vstd::prelude::*;
use crate::connection::{resolved, sink_of, CallbackRegistry, Delivery};

verus! {

/// The callback object of one session.
#[derive(Clone, Copy, Debug, PartialEq, Eq, Structural)]
pub struct CCallbackRust {
    pub sequence: i32,
}

/// The callback object of the session under `sequence`.
pub fn create_callback(sequence: i32) -> (c: CCallbackRust)
    ensures
        c.sequence == sequence,
{
    CCallbackRust { sequence }
}

/// A message arrived for the send handle `h_send`: its identity is the
/// session's sequence number with that handle, and the message goes to the
/// sink registered under it, if one is.
pub fn on_received_biz_msg<P>(
    this: &CCallbackRust,
    registry: &mut CallbackRegistry,
    h_send: i32,
    msg: P,
) -> (r: Option<Delivery<P>>)
    ensures
        final(registry)@ == resolved(old(registry)@, (this.sequence, h_send)),
        match sink_of(old(registry)@, (this.sequence, h_send)) {
            Some(sink) => r is Some && r->Some_0.sink == sink && r->Some_0.payload == msg,
            None => r is None && final(registry)@ == old(registry)@,
        },
{
    registry.invoke_callback((this.sequence, h_send), msg)
}

} // verus!
