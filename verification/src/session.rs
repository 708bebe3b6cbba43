use vstd::prelude::*;

use crate::text::{strip_eol, strip_eol_spec};

verus! {

/// Why a relay loop ends: the peer closed the connection, the connection
/// failed, or the room's broadcast group is gone.
#[derive(Debug)]
pub enum RelayError {
    PeerClosed,
    IoError,
    ChannelClosed,
}

/// The states a connection session passes through, in order; `Closed` is
/// terminal and reachable from every earlier state.
#[derive(PartialEq, Eq, Structural)]
pub enum SessionState {
    Connecting,
    Handshaking,
    AwaitingRoomCommand,
    Relaying,
    Closed,
}

/// The position of a state in the session's one-way order.
pub open spec fn state_rank(s: SessionState) -> int {
    match s {
        SessionState::Connecting => 0,
        SessionState::Handshaking => 1,
        SessionState::AwaitingRoomCommand => 2,
        SessionState::Relaying => 3,
        SessionState::Closed => 4,
    }
}

/// Where a session goes from `s`: one state forward when the state's work
/// succeeded, `Closed` on failure; `Relaying` ends only by closing, and
/// `Closed` is terminal.
pub open spec fn next_state_spec(s: SessionState, ok: bool) -> SessionState {
    if !ok {
        SessionState::Closed
    } else {
        match s {
            SessionState::Connecting => SessionState::Handshaking,
            SessionState::Handshaking => SessionState::AwaitingRoomCommand,
            SessionState::AwaitingRoomCommand => SessionState::Relaying,
            SessionState::Relaying => SessionState::Closed,
            SessionState::Closed => SessionState::Closed,
        }
    }
}

/// Advances the session by one transition. No state is re-entered: the rank
/// strictly grows until `Closed`, which only repeats itself.
pub fn next_state(s: &SessionState, ok: bool) -> (n: SessionState)
    ensures
        n == next_state_spec(*s, ok),
        *s != SessionState::Closed ==> state_rank(n) > state_rank(*s),
        *s == SessionState::Closed ==> n == SessionState::Closed,
{
    if !ok {
        return SessionState::Closed;
    }
    match s {
        SessionState::Connecting => SessionState::Handshaking,
        SessionState::Handshaking => SessionState::AwaitingRoomCommand,
        SessionState::AwaitingRoomCommand => SessionState::Relaying,
        SessionState::Relaying => SessionState::Closed,
        SessionState::Closed => SessionState::Closed,
    }
}

/// One thing the relay loop observes while in `Relaying`: a line read from
/// the connection, the peer closing it, a frame delivered by the room
/// subscription, the subscription lagging behind, the broadcast group going
/// away, or a failed write back to the peer.
pub enum RelayEvent {
    Inbound(Vec<u8>),
    InboundClosed,
    Delivery(Vec<u8>, u64),
    Lagged,
    ChannelClosed,
    WriteFailed,
}

/// What the relay loop does in response to one event.
pub enum RelayAction {
    Publish(Vec<u8>),
    Forward(Vec<u8>),
    Skip,
    Close,
}

/// Whether a delivered frame from `origin` is written back out by the session
/// identified by `id`: every frame but the session's own echo.
pub open spec fn delivers(id: u64, origin: u64) -> bool {
    origin != id
}

/// Decides one relay-loop step for the session identified by `identity`: an
/// inbound line is published verbatim, with only its line terminator
/// normalized away; a delivered frame is forwarded newline-terminated unless
/// it is the session's own echo; lag is tolerated and skipped; peer close,
/// write failure and a dead broadcast group close the session.
pub fn relay_step(identity: u64, event: RelayEvent) -> (a: RelayAction)
    ensures
        match event {
            RelayEvent::Inbound(line) => a matches RelayAction::Publish(p) && p@ == strip_eol_spec(
                line@,
            ),
            RelayEvent::InboundClosed => a == RelayAction::Close,
            RelayEvent::Delivery(m, o) => if delivers(identity, o) {
                a matches RelayAction::Forward(f) && f@ == m@ + seq![10u8]
            } else {
                a == RelayAction::Skip
            },
            RelayEvent::Lagged => a == RelayAction::Skip,
            RelayEvent::ChannelClosed => a == RelayAction::Close,
            RelayEvent::WriteFailed => a == RelayAction::Close,
        },
{
    match event {
        RelayEvent::Inbound(line) => RelayAction::Publish(strip_eol(&line)),
        RelayEvent::InboundClosed => RelayAction::Close,
        RelayEvent::Delivery(m, o) => {
            if o == identity {
                RelayAction::Skip
            } else {
                let mut f = m;
                f.push(10);
                RelayAction::Forward(f)
            }
        },
        RelayEvent::Lagged => RelayAction::Skip,
        RelayEvent::ChannelClosed => RelayAction::Close,
        RelayEvent::WriteFailed => RelayAction::Close,
    }
}

/// Publishes a frame to the room's broadcast group; `Ok` counts the
/// subscribers reached, at least one, and a refusal (no subscriber is left)
/// is the session-fatal `ChannelClosed`.
pub fn publish(
    tx: &tokio::sync::broadcast::Sender<(Vec<u8>, u64)>,
    payload: Vec<u8>,
    origin: u64,
) -> (r: Result<usize, RelayError>)
    ensures
        r matches Ok(n) ==> n >= 1,
        r matches Err(e) ==> e == RelayError::ChannelClosed,
{
    match crate::channel::send_group(tx, payload, origin) {
        Ok(n) => Ok(n),
        Err(_) => Err(RelayError::ChannelClosed),
    }
}

/// The payloads a session identified by `id` forwards, given the frames its
/// subscription delivers, oldest first; each frame is kept exactly when
/// `relay_step` forwards it, and each kept payload goes to the wire with its
/// line terminator restored.
pub open spec fn forwarded(id: u64, frames: Seq<(Seq<u8>, u64)>) -> Seq<Seq<u8>>
    decreases frames.len(),
{
    if frames.len() == 0 {
        Seq::empty()
    } else {
        let rest = forwarded(id, frames.drop_last());
        if delivers(id, frames.last().1) {
            rest.push(frames.last().0)
        } else {
            rest
        }
    }
}

/// Law: one more delivered frame extends the written output by that frame's
/// payload, or by nothing when it is the session's own echo.
pub proof fn lemma_forwarded_push(id: u64, frames: Seq<(Seq<u8>, u64)>, f: (Seq<u8>, u64))
    ensures
        forwarded(id, frames.push(f)) == if delivers(id, f.1) {
            forwarded(id, frames).push(f.0)
        } else {
            forwarded(id, frames)
        },
{
    assert(frames.push(f).drop_last() =~= frames);
    assert(frames.push(f).last() == f);
}

/// Law: self-echo suppression. A payload that only the session itself ever
/// published is never written back out to it.
pub proof fn lemma_self_echo_suppressed(id: u64, frames: Seq<(Seq<u8>, u64)>, m: Seq<u8>)
    requires
        forall|i: int| 0 <= i < frames.len() && (#[trigger] frames[i]).0 == m ==> frames[i].1 == id,
    ensures
        !forwarded(id, frames).contains(m),
    decreases frames.len(),
{
    if frames.len() > 0 {
        let pre = frames.drop_last();
        assert(forall|i: int| 0 <= i < pre.len() ==> pre[i] == frames[i]);
        lemma_self_echo_suppressed(id, pre, m);
        let out = forwarded(id, frames);
        let rest = forwarded(id, pre);
        if delivers(id, frames.last().1) {
            assert(frames[frames.len() - 1].0 != m);
            if out.contains(m) {
                let j = choose|j: int| 0 <= j < out.len() && out[j] == m;
                if j < out.len() - 1 {
                    assert(rest[j] == m);
                    assert(rest.contains(m));
                }
            }
        }
    }
}

/// The number of payloads written out after the first `i` delivered frames.
pub open spec fn out_count(id: u64, frames: Seq<(Seq<u8>, u64)>, i: int) -> int {
    forwarded(id, frames.subrange(0, i)).len() as int
}

proof fn lemma_forwarded_take_succ(id: u64, frames: Seq<(Seq<u8>, u64)>, k: int)
    requires
        0 <= k < frames.len(),
    ensures
        forwarded(id, frames.subrange(0, k + 1)) == if delivers(id, frames[k].1) {
            forwarded(id, frames.subrange(0, k)).push(frames[k].0)
        } else {
            forwarded(id, frames.subrange(0, k))
        },
{
    assert(frames.subrange(0, k + 1) =~= frames.subrange(0, k).push(frames[k]));
    lemma_forwarded_push(id, frames.subrange(0, k), frames[k]);
}

proof fn lemma_forwarded_monotone(id: u64, frames: Seq<(Seq<u8>, u64)>, k: int, t: int)
    requires
        0 <= k <= t <= frames.len(),
    ensures
        forwarded(id, frames.subrange(0, t)).len() >= forwarded(id, frames.subrange(0, k)).len(),
        forall|x: int| 0 <= x < forwarded(id, frames.subrange(0, k)).len() ==> forwarded(
            id,
            frames.subrange(0, t),
        )[x] == forwarded(id, frames.subrange(0, k))[x],
    decreases t - k,
{
    if t > k {
        lemma_forwarded_monotone(id, frames, k, t - 1);
        lemma_forwarded_take_succ(id, frames, t - 1);
    }
}

/// Law: per-sender order is kept. When the subscription delivers frame `i`
/// before frame `j` and the session forwards both, their payloads are written
/// out at positions in that same order.
pub proof fn lemma_order_preserved(id: u64, frames: Seq<(Seq<u8>, u64)>, i: int, j: int)
    requires
        0 <= i < j < frames.len(),
        delivers(id, frames[i].1),
        delivers(id, frames[j].1),
    ensures
        ({
            let out = forwarded(id, frames);
            let oi = out_count(id, frames, i);
            let oj = out_count(id, frames, j);
            &&& 0 <= oi < oj < out.len()
            &&& out[oi] == frames[i].0
            &&& out[oj] == frames[j].0
        }),
{
    let out = forwarded(id, frames);
    let oi = out_count(id, frames, i);
    let oj = out_count(id, frames, j);
    lemma_forwarded_take_succ(id, frames, i);
    lemma_forwarded_take_succ(id, frames, j);
    lemma_forwarded_monotone(id, frames, i + 1, j);
    lemma_forwarded_monotone(id, frames, j + 1, frames.len() as int);
    assert(frames.subrange(0, frames.len() as int) =~= frames);
}

} // verus!
