//! What a bounded message queue does when it is full: the decisions of a
//! send, one step at a time. The caller performs each action on the queue
//! and reports what happened.

use vstd::prelude::*;

verus! {

/// What a send does when the queue is full.
#[derive(Debug, Clone, Copy, PartialEq, Eq, Structural)]
pub enum OverflowStrategy {
    /// The new message is dropped.
    DropNewest,
    /// The oldest messages are dropped to make room.
    DropOldest,
    /// The send waits for room, up to a timeout in nanoseconds.
    Block { timeout_nanos: u64 },
}

/// What happened to the last action of a send.
#[derive(Debug, Clone, Copy, PartialEq, Eq, Structural)]
pub enum SendEvent {
    /// The message went into the queue.
    Pushed,
    /// The queue was full; `elapsed_nanos` have passed since the send began.
    Full { elapsed_nanos: u64 },
    /// The oldest message was taken out of the queue, or there was none.
    Popped { removed: bool },
}

/// What a send does next.
#[derive(Debug, Clone, Copy, PartialEq, Eq, Structural)]
pub enum SendAction {
    /// The send ends: the message was delivered or given back, and one
    /// message is counted as dropped or not.
    Finish { delivered: bool, count_drop: bool },
    /// Take the oldest message out of the queue.
    PopOldest,
    /// Count the removed message as dropped and push again.
    CountDropAndPush,
    /// Let other threads run, then push again.
    YieldAndPush,
}

/// The next step of a send under `strategy` after `event`.
pub open spec fn send_step(strategy: OverflowStrategy, event: SendEvent) -> SendAction {
    match event {
        SendEvent::Pushed => SendAction::Finish { delivered: true, count_drop: false },
        SendEvent::Full { elapsed_nanos } => match strategy {
            OverflowStrategy::DropNewest => SendAction::Finish { delivered: false, count_drop: true },
            OverflowStrategy::DropOldest => SendAction::PopOldest,
            OverflowStrategy::Block { timeout_nanos } => if elapsed_nanos > timeout_nanos {
                SendAction::Finish { delivered: false, count_drop: true }
            } else {
                SendAction::YieldAndPush
            },
        },
        SendEvent::Popped { removed } => if removed {
            SendAction::CountDropAndPush
        } else {
            SendAction::Finish { delivered: false, count_drop: false }
        },
    }
}

/// Decides the next step of a send under `strategy` after `event`.
pub fn next_send_action(strategy: OverflowStrategy, event: SendEvent) -> (r: SendAction)
    ensures
        r == send_step(strategy, event),
{
    match event {
        SendEvent::Pushed => SendAction::Finish { delivered: true, count_drop: false },
        SendEvent::Full { elapsed_nanos } => match strategy {
            OverflowStrategy::DropNewest => SendAction::Finish { delivered: false, count_drop: true },
            OverflowStrategy::DropOldest => SendAction::PopOldest,
            OverflowStrategy::Block { timeout_nanos } => if elapsed_nanos > timeout_nanos {
                SendAction::Finish { delivered: false, count_drop: true }
            } else {
                SendAction::YieldAndPush
            },
        },
        SendEvent::Popped { removed } => if removed {
            SendAction::CountDropAndPush
        } else {
            SendAction::Finish { delivered: false, count_drop: false }
        },
    }
}

} // verus!
