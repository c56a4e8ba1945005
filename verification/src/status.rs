//! Status reconciliation: one probe of the current status, then the live
//! feed, merged into a sequence that ends with the first closing item.

use vstd::prelude::*;
use crate::vectors::reversed;

verus! {

/// A step in the life of a transaction. `Submitted` is the only status that
/// is not terminal.
#[derive(Clone, Debug, PartialEq, Eq)]
pub enum StatusEvent {
    Submitted { time: u64 },
    Success { block_height: u32, time: u64 },
    Failed { block_height: u32, time: u64, reason: String },
    SqueezedOut { reason: String },
}

impl StatusEvent {
    pub open spec fn is_terminal(&self) -> bool {
        !(self is Submitted)
    }

    /// Whether no further status follows this one.
    pub fn terminal(&self) -> (r: bool)
        ensures
            r == self.is_terminal(),
    {
        match self {
            StatusEvent::Submitted { .. } => false,
            _ => true,
        }
    }
}

/// What the live feed delivers for one transaction.
#[derive(Clone, Debug, PartialEq, Eq)]
pub enum FeedMessage {
    Status(StatusEvent),
    /// The feed could not deliver a status.
    FailedStatus,
}

/// A failure that takes the place of a status in the sequence.
#[derive(Clone, Copy, Debug, PartialEq, Eq, Structural)]
pub enum StatusError {
    /// The store failed while the current status was looked up.
    Storage,
    /// The feed reported that it could not deliver a status.
    Feed,
}

/// How the store answers a lookup that finds nothing, or fails.
#[derive(Clone, Copy, Debug, PartialEq, Eq, Structural)]
pub enum StoreError {
    NotFound,
    Other,
}

/// The current status of a transaction: what the store holds; where the store
/// has nothing, `Submitted` at the time at which the pool took it in, if the
/// pool knows it; a failure where the store failed otherwise.
pub open spec fn probed(stored: Result<StatusEvent, StoreError>, submission_time: Option<u64>) -> Result<
    Option<StatusEvent>,
    StatusError,
> {
    match stored {
        Ok(status) => Ok(Some(status)),
        Err(StoreError::NotFound) => match submission_time {
            Some(time) => Ok(Some(StatusEvent::Submitted { time })),
            None => Ok(None),
        },
        Err(StoreError::Other) => Err(StatusError::Storage),
    }
}

/// Combines the two lookups of the probe.
pub fn probe_status(stored: Result<StatusEvent, StoreError>, submission_time: Option<u64>) -> (r: Result<
    Option<StatusEvent>,
    StatusError,
>)
    ensures
        r == probed(stored, submission_time),
{
    match stored {
        Ok(status) => Ok(Some(status)),
        Err(StoreError::NotFound) => match submission_time {
            Some(time) => Ok(Some(StatusEvent::Submitted { time })),
            None => Ok(None),
        },
        Err(StoreError::Other) => Err(StatusError::Storage),
    }
}

/// The item that a feed message becomes.
pub open spec fn item_of(msg: FeedMessage) -> Result<StatusEvent, StatusError> {
    match msg {
        FeedMessage::Status(status) => Ok(status),
        FeedMessage::FailedStatus => Err(StatusError::Feed),
    }
}

/// Whether the sequence ends after this item: after everything but `Submitted`.
pub open spec fn closes(item: Result<StatusEvent, StatusError>) -> bool {
    match item {
        Ok(status) => status.is_terminal(),
        Err(_) => true,
    }
}

/// The items that the feed contributes: each message in order, up to and
/// including the first that closes.
pub open spec fn live_items(msgs: Seq<FeedMessage>) -> Seq<Result<StatusEvent, StatusError>>
    decreases msgs.len(),
{
    if msgs.len() == 0 {
        Seq::empty()
    } else if closes(item_of(msgs[0])) {
        seq![item_of(msgs[0])]
    } else {
        seq![item_of(msgs[0])] + live_items(msgs.skip(1))
    }
}

/// The whole sequence for one subscription: the probe's result first, if
/// there is one; then, unless that closed the sequence, the feed's items.
/// `msgs` is everything the feed delivers before its channel closes.
pub open spec fn reconciled(
    probe: Result<Option<StatusEvent>, StatusError>,
    msgs: Seq<FeedMessage>,
) -> Seq<Result<StatusEvent, StatusError>> {
    match probe {
        Err(e) => seq![Err(e)],
        Ok(Some(status)) => if status.is_terminal() {
            seq![Ok(status)]
        } else {
            seq![Ok(status)] + live_items(msgs)
        },
        Ok(None) => live_items(msgs),
    }
}

/// Where a subscription stands.
#[derive(Clone, Copy, Debug, PartialEq, Eq, Structural)]
pub enum Phase {
    /// The probe has not been answered yet.
    Priming,
    /// Feed messages are forwarded.
    Live,
    /// A closing item was produced, or the channel closed.
    Closed,
}

/// What happened outside the reconciler.
#[derive(Debug, PartialEq, Eq)]
pub enum Input {
    /// The probe answered.
    Probe(Result<Option<StatusEvent>, StatusError>),
    /// The feed delivered a message.
    Message(FeedMessage),
    /// The feed's channel closed.
    ChannelClosed,
}

/// What the driver of a reconciler does next.
#[derive(Clone, Copy, Debug, PartialEq, Eq, Structural)]
pub enum Wanted {
    /// Run the probe and hand in its answer.
    Probe,
    /// Wait for the feed and hand in what it delivers.
    Message,
    /// Release the subscription: the sequence is over.
    Release,
}

/// The phase after `input` arrived in `phase`. An input that the phase does
/// not wait for changes nothing.
pub open spec fn next_phase(phase: Phase, input: Input) -> Phase {
    match (phase, input) {
        (Phase::Priming, Input::Probe(Ok(None))) => Phase::Live,
        (Phase::Priming, Input::Probe(answer)) => if closes(emitted(phase, input)->0) {
            Phase::Closed
        } else {
            Phase::Live
        },
        (Phase::Live, Input::Message(msg)) => if closes(item_of(msg)) {
            Phase::Closed
        } else {
            Phase::Live
        },
        (Phase::Live, Input::ChannelClosed) => Phase::Closed,
        _ => phase,
    }
}

/// The item that `input` produces in `phase`, if it produces one.
pub open spec fn emitted(phase: Phase, input: Input) -> Option<Result<StatusEvent, StatusError>> {
    match (phase, input) {
        (Phase::Priming, Input::Probe(Ok(Some(status)))) => Some(Ok(status)),
        (Phase::Priming, Input::Probe(Err(e))) => Some(Err(e)),
        (Phase::Live, Input::Message(msg)) => Some(item_of(msg)),
        _ => None,
    }
}

/// The state of one subscription.
#[derive(Debug)]
pub struct Reconciler {
    pub phase: Phase,
}

impl Reconciler {
    /// A subscription whose probe is still to run.
    pub fn new() -> (r: Reconciler)
        ensures
            r.phase == Phase::Priming,
    {
        Reconciler { phase: Phase::Priming }
    }

    /// What the driver does next: the probe before any feed message, the feed
    /// while the sequence is open, nothing more once it is closed.
    pub fn wanted(&self) -> (w: Wanted)
        ensures
            w == match self.phase {
                Phase::Priming => Wanted::Probe,
                Phase::Live => Wanted::Message,
                Phase::Closed => Wanted::Release,
            },
    {
        match self.phase {
            Phase::Priming => Wanted::Probe,
            Phase::Live => Wanted::Message,
            Phase::Closed => Wanted::Release,
        }
    }

    /// Takes in what happened and returns the item to yield, if any.
    pub fn step(&mut self, input: Input) -> (item: Option<Result<StatusEvent, StatusError>>)
        ensures
            item == emitted(old(self).phase, input),
            final(self).phase == next_phase(old(self).phase, input),
    {
        match (self.phase, input) {
            (Phase::Priming, Input::Probe(Ok(None))) => {
                self.phase = Phase::Live;
                None
            },
            (Phase::Priming, Input::Probe(Ok(Some(status)))) => {
                self.phase = if status.terminal() {
                    Phase::Closed
                } else {
                    Phase::Live
                };
                Some(Ok(status))
            },
            (Phase::Priming, Input::Probe(Err(e))) => {
                self.phase = Phase::Closed;
                Some(Err(e))
            },
            (Phase::Live, Input::Message(FeedMessage::Status(status))) => {
                if status.terminal() {
                    self.phase = Phase::Closed;
                }
                Some(Ok(status))
            },
            (Phase::Live, Input::Message(FeedMessage::FailedStatus)) => {
                self.phase = Phase::Closed;
                Some(Err(StatusError::Feed))
            },
            (Phase::Live, Input::ChannelClosed) => {
                self.phase = Phase::Closed;
                None
            },
            _ => None,
        }
    }
}

/// Runs a reconciler over a probe answer and everything that the feed
/// delivers before its channel closes, and collects what it yields.
pub fn reconcile(probe: Result<Option<StatusEvent>, StatusError>, msgs: Vec<FeedMessage>) -> (out: Vec<
    Result<StatusEvent, StatusError>,
>)
    ensures
        out@ == reconciled(probe, msgs@),
{
    let ghost all = msgs@;
    let ghost answer = probe;
    let mut machine = Reconciler::new();
    let mut out: Vec<Result<StatusEvent, StatusError>> = Vec::new();
    if let Some(item) = machine.step(Input::Probe(probe)) {
        out.push(item);
    }
    let ghost target = reconciled(answer, all);
    let mut rest = reversed(msgs);
    assert(all.skip(0) =~= all);
    assert(machine.phase == Phase::Live ==> out@ + live_items(all) =~= target);
    assert(machine.phase == Phase::Closed ==> out@ =~= target);
    assert(rest@ =~= all.reverse().take(rest@.len() as int));
    while machine.wanted() == Wanted::Message && rest.len() > 0
        invariant
            rest@.len() <= all.len(),
            rest@ == all.reverse().take(rest@.len() as int),
            machine.phase != Phase::Priming,
            machine.phase == Phase::Live ==> out@ + live_items(all.skip(all.len() - rest@.len()))
                == target,
            machine.phase == Phase::Closed ==> out@ == target,
        decreases rest@.len(),
    {
        let ghost i = all.len() - rest@.len();
        let ghost before = out@;
        let msg = rest.pop().unwrap();
        assert(msg == all[i]);
        assert(all.skip(i)[0] == all[i]);
        assert(all.skip(i).skip(1) =~= all.skip(i + 1));
        assert(rest@ =~= all.reverse().take(rest@.len() as int));
        if let Some(item) = machine.step(Input::Message(msg)) {
            out.push(item);
        }
        proof {
            if closes(item_of(msg)) {
                assert(out@ =~= before + live_items(all.skip(i)));
            } else {
                assert(out@ + live_items(all.skip(i + 1)) =~= before + live_items(all.skip(i)));
            }
        }
    }
    proof {
        if machine.phase == Phase::Live {
            assert(rest@.len() == 0);
            assert(all.skip(all.len() as int).len() == 0);
            assert(out@ + Seq::<Result<StatusEvent, StatusError>>::empty() =~= out@);
        }
    }
    let _ = machine.step(Input::ChannelClosed);
    out
}

/// If the probe finds a terminal status, the sequence is that one item, and
/// the subscription is closed without a look at the feed.
pub proof fn lemma_terminal_probe_closes(status: StatusEvent, msgs: Seq<FeedMessage>)
    requires
        status.is_terminal(),
    ensures
        reconciled(Ok(Some(status)), msgs) == seq![Ok::<StatusEvent, StatusError>(status)],
        emitted(Phase::Priming, Input::Probe(Ok(Some(status)))) == Some(
            Ok::<StatusEvent, StatusError>(status),
        ),
        next_phase(Phase::Priming, Input::Probe(Ok(Some(status)))) == Phase::Closed,
{
}

/// The first item is the probe's result where the probe has one; where it has
/// none, the first item is the feed's first message, whatever it is: nothing
/// that the feed delivers is passed over.
pub proof fn lemma_first_item(probe: Result<Option<StatusEvent>, StatusError>, msgs: Seq<FeedMessage>)
    ensures
        match probe {
            Ok(Some(status)) => reconciled(probe, msgs).len() > 0 && reconciled(probe, msgs)[0] == Ok::<
                StatusEvent,
                StatusError,
            >(status),
            Ok(None) => {
                &&& reconciled(probe, msgs).len() > 0 <==> msgs.len() > 0
                &&& msgs.len() > 0 ==> reconciled(probe, msgs)[0] == item_of(msgs[0])
            },
            Err(e) => reconciled(probe, msgs) == seq![Err::<StatusEvent, StatusError>(e)],
        },
{
}

/// The feed's items are the feed's messages in the order of their delivery,
/// none passed over; they stop short of the feed's end only after an item
/// that closes.
pub proof fn lemma_live_items_follow_feed(msgs: Seq<FeedMessage>)
    ensures
        live_items(msgs).len() <= msgs.len(),
        forall|i: int| 0 <= i < live_items(msgs).len() ==> live_items(msgs)[i] == item_of(msgs[i]),
        live_items(msgs).len() < msgs.len() ==> closes(live_items(msgs).last()),
    decreases msgs.len(),
{
    if msgs.len() > 0 && !closes(item_of(msgs[0])) {
        let rest = msgs.skip(1);
        lemma_live_items_follow_feed(rest);
        let items = live_items(msgs);
        assert forall|i: int| 0 <= i < items.len() implies items[i] == item_of(msgs[i]) by {
            if i > 0 {
                assert(items[i] == live_items(rest)[i - 1]);
                assert(rest[i - 1] == msgs[i]);
            }
        }
        if items.len() < msgs.len() {
            assert(items.last() == live_items(rest).last());
        }
    }
}

/// Only the last of the feed's items can close: all before it are `Submitted`.
pub proof fn lemma_live_items_open_until_last(msgs: Seq<FeedMessage>, i: int)
    requires
        0 <= i < live_items(msgs).len() - 1,
    ensures
        !closes(live_items(msgs)[i]),
    decreases msgs.len(),
{
    if msgs.len() > 0 && !closes(item_of(msgs[0])) && i > 0 {
        lemma_live_items_open_until_last(msgs.skip(1), i - 1);
    }
}

/// A sequence closes at most once, and then with its last item: every item
/// before the last is `Submitted`.
pub proof fn lemma_closes_only_at_end(
    probe: Result<Option<StatusEvent>, StatusError>,
    msgs: Seq<FeedMessage>,
    i: int,
)
    requires
        0 <= i < reconciled(probe, msgs).len() - 1,
    ensures
        !closes(reconciled(probe, msgs)[i]),
{
    match probe {
        Ok(Some(status)) => {
            if i > 0 {
                lemma_live_items_open_until_last(msgs, i - 1);
            }
        },
        Ok(None) => {
            lemma_live_items_open_until_last(msgs, i);
        },
        Err(_) => {},
    }
}

} // verus!
