use vstd::prelude::*;

verus! {

#[verifier::external_type_specification]
#[verifier::external_body]
#[verifier::reject_recursive_types(T)]
pub struct ExSender<T>(tokio::sync::broadcast::Sender<T>);

#[verifier::external_type_specification]
#[verifier::external_body]
#[verifier::reject_recursive_types(T)]
pub struct ExReceiver<T>(tokio::sync::broadcast::Receiver<T>);

#[verifier::external_type_specification]
#[verifier::external_body]
#[verifier::reject_recursive_types(T)]
pub struct ExSendError<T>(tokio::sync::broadcast::error::SendError<T>);

/// The identity of the channel a send handle points into: two handles with
/// one identity publish into one fan-out group.
pub uninterp spec fn group_of(tx: tokio::sync::broadcast::Sender<(Vec<u8>, u64)>) -> int;

/// The identity of the channel a subscription draws from.
pub uninterp spec fn rgroup_of(rx: tokio::sync::broadcast::Receiver<(Vec<u8>, u64)>) -> int;

/// The capacity a channel was created with; tokio sizes the buffer to at
/// least this many pending frames (rounding up to a power of two), and a
/// subscriber that falls behind the buffer misses frames.
pub uninterp spec fn bound_of(tx: tokio::sync::broadcast::Sender<(Vec<u8>, u64)>) -> int;

/// Relies on tokio's `broadcast::channel`: a fresh fan-out channel with room
/// for `capacity` pending frames. Returns its send handle. The capacity
/// bounds exclude the zero and overflow panics of the constructor.
#[verifier::external_body]
pub(crate) fn new_group(capacity: usize) -> (r: tokio::sync::broadcast::Sender<(Vec<u8>, u64)>)
    requires
        1 <= capacity <= usize::MAX / 2,
    ensures
        bound_of(r) == capacity as int,
{
    tokio::sync::broadcast::channel(capacity).0
}

/// Relies on `Sender::clone`: another handle into the same channel.
#[verifier::external_body]
pub(crate) fn clone_group(
    tx: &tokio::sync::broadcast::Sender<(Vec<u8>, u64)>,
) -> (r: tokio::sync::broadcast::Sender<(Vec<u8>, u64)>)
    ensures
        group_of(r) == group_of(*tx),
        bound_of(r) == bound_of(*tx),
{
    tx.clone()
}

/// Relies on `Sender::subscribe`: a subscription to the same channel, which
/// yields the frames sent from this call on, each sender's frames in the
/// order they were sent.
#[verifier::external_body]
pub(crate) fn subscribe_group(
    tx: &tokio::sync::broadcast::Sender<(Vec<u8>, u64)>,
) -> (r: tokio::sync::broadcast::Receiver<(Vec<u8>, u64)>)
    ensures
        rgroup_of(r) == group_of(*tx),
{
    tx.subscribe()
}

/// Relies on `Sender::send`: queues the frame for every current subscriber;
/// `Ok` counts the subscribers it reached, which is then at least one, and
/// `Err` returns the frame exactly when there is none. Which holds depends on
/// who is subscribed at the moment of the call.
#[verifier::external_body]
pub(crate) fn send_group(
    tx: &tokio::sync::broadcast::Sender<(Vec<u8>, u64)>,
    payload: Vec<u8>,
    origin: u64,
) -> (r: Result<usize, tokio::sync::broadcast::error::SendError<(Vec<u8>, u64)>>)
    ensures
        r matches Ok(n) ==> n >= 1,
{
    tx.send((payload, origin))
}

} // verus!
