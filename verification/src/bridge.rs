//! The rules of the server bridge: the length-prefixed envelope on the
//! pipes, the naming of channels, and the order of shutdown.

use vstd::prelude::*;
use crate::bytes::append_from;
use crate::bytes::copy_range;

verus! {

/// Largest payload that the one-byte length prefix can announce.
pub const MAX_PAYLOAD: usize = 255;

/// What the server tells a client about its configuration.
#[derive(Debug, Clone, Copy, PartialEq, Eq, Structural)]
pub struct CanServerConfig {
    pub bitrate: Option<u32>,
}

/// A payload in its envelope: one byte with its length, then the payload.
pub open spec fn spec_frame_message(payload: Seq<u8>) -> Seq<u8> {
    seq![payload.len() as u8] + payload
}

/// Puts a payload in its envelope. A payload of more than 255 bytes has no
/// envelope and is dropped by the caller.
pub fn frame_message(payload: &[u8]) -> (r: Option<Vec<u8>>)
    ensures
        r is Some <==> payload@.len() <= MAX_PAYLOAD,
        r is Some ==> r->0@ == spec_frame_message(payload@) && r->0@[0] as int == payload@.len() && r->0@.len()
            == payload@.len() + 1,
{
    if payload.len() > MAX_PAYLOAD {
        return None;
    }
    let mut msg: Vec<u8> = Vec::new();
    msg.push(payload.len() as u8);
    append_from(&mut msg, payload, 0);
    assert(payload@.subrange(0, payload@.len() as int) =~= payload@);
    Some(msg)
}

/// The first message in a stream of envelopes, where it is complete: its
/// payload, and the number of bytes it takes.
pub open spec fn spec_split_message(buf: Seq<u8>) -> Option<(Seq<u8>, nat)> {
    if buf.len() >= 1 && buf.len() >= 1 + buf[0] as nat {
        Some((buf.subrange(1, 1 + buf[0] as int), (1 + buf[0]) as nat))
    } else {
        None
    }
}

/// Takes the first message off a stream of envelopes. Returns its payload
/// and the number of bytes to drop, or `None` where the message is not all
/// there yet.
pub fn split_message(buf: &[u8]) -> (r: Option<(Vec<u8>, usize)>)
    ensures
        match (spec_split_message(buf@), r) {
            (Some((payload, used)), Some((got, consumed))) => got@ == payload && consumed == used,
            (None, None) => true,
            _ => false,
        },
{
    if buf.len() < 1 {
        return None;
    }
    let len: usize = buf[0] as usize;
    if buf.len() < 1 + len {
        return None;
    }
    Some((copy_range(buf, 1, 1 + len), 1 + len))
}

/// A payload that fits is read back from its envelope as it was, and the
/// envelope is used up; the length byte is the payload's length.
pub proof fn lemma_envelope_round_trip(payload: Seq<u8>)
    requires
        payload.len() <= MAX_PAYLOAD,
    ensures
        spec_frame_message(payload)[0] as nat == payload.len(),
        spec_split_message(spec_frame_message(payload)) == Some((payload, (payload.len() + 1) as nat)),
{
    let msg = spec_frame_message(payload);
    assert(msg.subrange(1, 1 + payload.len() as int) =~= payload);
}

/// The digits of a number in decimal.
pub open spec fn spec_decimal_digits(n: nat) -> Seq<u8>
    decreases n,
{
    if n < 10 {
        seq![(48 + n) as u8]
    } else {
        spec_decimal_digits(n / 10).push((48 + n % 10) as u8)
    }
}

/// Appends a number in decimal.
pub fn push_decimal(out: &mut Vec<u8>, n: usize)
    ensures
        final(out)@ == old(out)@ + spec_decimal_digits(n as nat),
    decreases n,
{
    if n < 10 {
        out.push(48 + n as u8);
        assert(out@ =~= old(out)@ + spec_decimal_digits(n as nat));
    } else {
        push_decimal(out, n / 10);
        out.push(48 + (n % 10) as u8);
        assert(out@ =~= old(out)@ + spec_decimal_digits(n as nat));
    }
}

/// The channel name with number `idx`: the base, then the number.
pub open spec fn spec_channel_name(base: Seq<u8>, idx: nat) -> Seq<u8> {
    base + spec_decimal_digits(idx)
}

/// The channel name with number `idx`.
pub fn channel_name(base: &[u8], idx: usize) -> (name: Vec<u8>)
    ensures
        name@ == spec_channel_name(base@, idx as nat),
{
    let mut name = copy_range(base, 0, base.len());
    assert(base@.subrange(0, base@.len() as int) =~= base@);
    push_decimal(&mut name, idx);
    name
}

/// The name of the first free channel. `claimed[i]` tells whether the slot
/// of channel `i` is taken; the first one that is not gives the name. Where
/// all of them are taken there is no answer yet, and the caller looks at
/// more slots.
pub fn next_auto_channel(base: &[u8], claimed: &[bool]) -> (r: Option<Vec<u8>>)
    ensures
        match r {
            Some(name) => exists|idx: int|
                {
                    &&& 0 <= idx < claimed@.len()
                    &&& !claimed@[idx]
                    &&& forall|k: int| 0 <= k < idx ==> claimed@[k]
                    &&& name@ == spec_channel_name(base@, idx as nat)
                },
            None => forall|k: int| 0 <= k < claimed@.len() ==> claimed@[k],
        },
{
    let mut idx: usize = 0;
    while idx < claimed.len()
        invariant
            idx <= claimed@.len(),
            forall|k: int| 0 <= k < idx ==> claimed@[k],
        decreases claimed@.len() - idx,
    {
        if !claimed[idx] {
            let name = channel_name(base, idx);
            assert(0 <= idx < claimed@.len() && !claimed@[idx as int] && name@ == spec_channel_name(
                base@,
                idx as nat,
            ));
            return Some(name);
        }
        idx += 1;
    }
    None
}

/// Where the bridge stands.
#[derive(Debug, Clone, Copy, PartialEq, Eq, Structural)]
pub enum BridgePhase {
    /// Both forwarding tasks run.
    Running,
    /// The tasks were told to stop and may still hold the driver.
    Draining,
    /// The channel was closed.
    Closed,
}

/// What happens to the bridge.
#[derive(Debug, Clone, Copy, PartialEq, Eq, Structural)]
pub enum BridgeEvent {
    /// The user asked for the end.
    ShutdownSignal,
    /// The task from the pipe to the bus ended.
    InboundEnded,
    /// The task from the bus to the pipe ended.
    OutboundEnded,
    /// Both tasks are gone, or the wait for them ran out: nobody holds the
    /// driver.
    TasksReleased,
}

/// What the bridge does next.
#[derive(Debug, Clone, Copy, PartialEq, Eq, Structural)]
pub enum BridgeAction {
    /// Nothing.
    Nothing,
    /// Abort both tasks and wait briefly for them.
    AbortTasks,
    /// Close the channel of the driver.
    CloseChannel,
}

/// The phase after an event and what to do. Any end of a task, or the
/// signal, stops a running bridge; the channel is closed when the tasks
/// have let go of the driver; nothing else has an effect.
pub open spec fn spec_bridge_step(phase: BridgePhase, event: BridgeEvent) -> (BridgePhase, BridgeAction) {
    match (phase, event) {
        (BridgePhase::Running, BridgeEvent::TasksReleased) => (phase, BridgeAction::Nothing),
        (BridgePhase::Running, _) => (BridgePhase::Draining, BridgeAction::AbortTasks),
        (BridgePhase::Draining, BridgeEvent::TasksReleased) => (BridgePhase::Closed, BridgeAction::CloseChannel),
        _ => (phase, BridgeAction::Nothing),
    }
}

/// Decides on one event.
pub fn bridge_step(phase: BridgePhase, event: BridgeEvent) -> (r: (BridgePhase, BridgeAction))
    ensures
        r == spec_bridge_step(phase, event),
{
    match phase {
        BridgePhase::Running => match event {
            BridgeEvent::TasksReleased => (phase, BridgeAction::Nothing),
            _ => (BridgePhase::Draining, BridgeAction::AbortTasks),
        },
        BridgePhase::Draining => match event {
            BridgeEvent::TasksReleased => (BridgePhase::Closed, BridgeAction::CloseChannel),
            _ => (phase, BridgeAction::Nothing),
        },
        BridgePhase::Closed => (phase, BridgeAction::Nothing),
    }
}

/// The phase after a run of events.
pub open spec fn spec_phase_after(phase: BridgePhase, events: Seq<BridgeEvent>) -> BridgePhase
    decreases events.len(),
{
    if events.len() == 0 {
        phase
    } else {
        spec_phase_after(spec_bridge_step(phase, events[0]).0, events.drop_first())
    }
}

/// How often a run of events closes the channel.
pub open spec fn spec_closes(phase: BridgePhase, events: Seq<BridgeEvent>) -> nat
    decreases events.len(),
{
    if events.len() == 0 {
        0
    } else {
        let step = spec_bridge_step(phase, events[0]);
        (if step.1 == BridgeAction::CloseChannel { 1nat } else { 0nat }) + spec_closes(
            step.0,
            events.drop_first(),
        )
    }
}

/// Whatever happens to a bridge, its channel is closed at most once, and
/// exactly once on the way to the closed phase; a closed bridge stays
/// closed and does not close again.
pub proof fn lemma_closes_once(phase: BridgePhase, events: Seq<BridgeEvent>)
    ensures
        spec_closes(phase, events) <= 1,
        phase == BridgePhase::Closed ==> spec_closes(phase, events) == 0 && spec_phase_after(phase, events)
            == BridgePhase::Closed,
        phase != BridgePhase::Closed ==> (spec_closes(phase, events) == 1 <==> spec_phase_after(phase, events)
            == BridgePhase::Closed),
    decreases events.len(),
{
    if events.len() > 0 {
        lemma_closes_once(spec_bridge_step(phase, events[0]).0, events.drop_first());
    }
}

} // verus!
