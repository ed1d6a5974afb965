use vstd::prelude::*;

use crate::event::{Event, EventView};

verus! {

/// Messages the engine sends back to the caller's side.
#[derive(Clone, Debug, PartialEq, Eq)]
pub enum ToConsole {
    /// An event to perform, tagged with its track index.
    Event(usize, Event),
    /// The playhead has reached this tick.
    PositionUpdate(usize),
    /// The end of the score was reached and playback stopped.
    Stopped,
}

/// The mathematical value of an engine message.
pub enum ToConsoleView {
    Event(usize, EventView),
    PositionUpdate(usize),
    Stopped,
}

impl View for ToConsole {
    type V = ToConsoleView;

    open spec fn view(&self) -> ToConsoleView {
        match self {
            ToConsole::Event(ti, e) => ToConsoleView::Event(*ti, e@),
            ToConsole::PositionUpdate(p) => ToConsoleView::PositionUpdate(*p),
            ToConsole::Stopped => ToConsoleView::Stopped,
        }
    }
}

/// The mathematical value of an engine message list.
pub open spec fn msgs_view(v: Seq<ToConsole>) -> Seq<ToConsoleView> {
    v.map_values(|m: ToConsole| m@)
}

/// Viewing a message list commutes with appending one message.
pub proof fn lemma_msgs_view_push(s: Seq<ToConsole>, m: ToConsole)
    ensures
        msgs_view(s.push(m)) == msgs_view(s).push(m@),
{
    assert forall|k: int| 0 <= k < s.len() + 1 implies msgs_view(s.push(m))[k] == msgs_view(
        s,
    ).push(m@)[k] by {
        if k < s.len() {
            assert(s.push(m)[k] == s[k]);
        } else {
            assert(s.push(m)[k] == m);
        }
    }
    assert(msgs_view(s.push(m)) =~= msgs_view(s).push(m@));
}

/// Control messages the caller sends to the engine.
#[derive(Clone, Copy, Debug, PartialEq, Eq, Structural)]
pub enum ToEngine {
    /// Terminate the engine loop.
    Halt,
    /// Begin or resume playing.
    Play,
    /// Pause playing, keeping the position.
    Pause,
    /// Stop playing and return the playhead to tick 0.
    Stop,
    /// Move the playhead to the given tick.
    JumpTo(usize),
    /// Return to the beginning when the end of the score is reached.
    SetLooping(bool),
    /// Set the speed multiplier, in thousandths; values of zero are left
    /// to the engine to ignore.
    SetSpeed(u64),
}

} // verus!
