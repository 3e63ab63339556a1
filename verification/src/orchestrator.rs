//! The run orchestrator's decisions: which endpoint addresses are acceptable
//! for a push-subscription run, and whether the two endpoints' reported block
//! heights allow the race to start at all.

use vstd::prelude::*;
use crate::transport::{resolution_of, resolve_transport, url_scheme, TransportKind};

verus! {

/// The fatal errors a run can end with before or during collection. All of
/// them abort the whole run: there is no partial-result path.
#[derive(Clone, Copy, PartialEq, Eq, Structural, Debug)]
pub enum RunError {
    /// An endpoint address resolved to a request-only transport, which cannot
    /// carry the pending-transaction subscription.
    PushUnsupported,
    /// The two endpoints reported different current block heights, so they do
    /// not track the same chain state.
    HeightMismatch { height_a: u64, height_b: u64 },
}

/// Checks an endpoint address for a push-subscription run: the address is
/// accepted, with its resolved transport kind, exactly when it does not
/// resolve to the request-only transport.
pub fn validate_push_endpoint(address: &str) -> (r: Result<TransportKind, RunError>)
    ensures
        r is Ok <==> !(resolution_of(url_scheme(address@)) is RequestOnly),
        r matches Ok(k) ==> k == resolution_of(url_scheme(address@)),
        r is Err ==> r == Err::<TransportKind, RunError>(RunError::PushUnsupported),
{
    let kind = resolve_transport(address);
    if kind.supports_subscriptions() {
        Ok(kind)
    } else {
        Err(RunError::PushUnsupported)
    }
}

/// Checks the precondition of a run: both endpoints must report the identical
/// current block height; a mismatch is fatal before any collection begins.
pub fn check_heights(height_a: u64, height_b: u64) -> (r: Result<(), RunError>)
    ensures
        r is Ok <==> height_a == height_b,
        r is Err ==> r == Err::<(), RunError>(
            (RunError::HeightMismatch { height_a, height_b }),
        ),
{
    if height_a == height_b {
        Ok(())
    } else {
        Err(RunError::HeightMismatch { height_a, height_b })
    }
}

} // verus!
