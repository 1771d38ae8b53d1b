//! Input events for the radio UI, and the pure rules that classify raw
//! input into them.
//!
//! Reading the keyboard and the keypad is the caller's business: threads
//! feed classified events into a channel, and the handler here polls that
//! channel without blocking.

use vstd::prelude::*;
use std::sync::mpsc::Receiver;
use std::sync::mpsc::TryRecvError;

verus! {

/// A user command for the radio UI.
#[derive(Debug, Clone, PartialEq, Eq, Structural)]
pub enum InputEvent {
    NextFlowgraph,
    PreviousFlowgraph,
    Run,
    Stop,
    Quit,
}

/// What one non-blocking poll of the event channel yielded.
#[derive(Debug, Clone, PartialEq, Eq, Structural)]
pub enum PollOutcome {
    /// An event was waiting.
    Received(InputEvent),
    /// Nothing was waiting.
    Pending,
    /// Every sender is gone; no event will ever arrive again.
    Closed,
}

/// Linux key code for the cursor-up key.
pub const KEY_CODE_UP: u16 = 103;

/// Linux key code for the cursor-down key.
pub const KEY_CODE_DOWN: u16 = 108;

/// Linux key code for the enter key.
pub const KEY_CODE_ENTER: u16 = 28;

/// Linux key code for the escape key.
pub const KEY_CODE_ESC: u16 = 1;

/// The command a byte read from the terminal stands for, if any.
pub fn event_for_byte(b: u8) -> (r: Option<InputEvent>)
    ensures
        r == (match b {
            43u8 => Some(InputEvent::NextFlowgraph),
            45u8 => Some(InputEvent::PreviousFlowgraph),
            114u8 | 82u8 => Some(InputEvent::Run),
            115u8 | 83u8 => Some(InputEvent::Stop),
            113u8 | 81u8 => Some(InputEvent::Quit),
            _ => None,
        }),
{
    match b {
        43u8 => Some(InputEvent::NextFlowgraph),
        45u8 => Some(InputEvent::PreviousFlowgraph),
        114u8 | 82u8 => Some(InputEvent::Run),
        115u8 | 83u8 => Some(InputEvent::Stop),
        113u8 | 81u8 => Some(InputEvent::Quit),
        _ => None,
    }
}

/// The command a keypad key code stands for, if any.  The keypad offers no
/// quit key.
pub fn event_for_key_code(code: u16) -> (r: Option<InputEvent>)
    ensures
        r == (if code == KEY_CODE_UP {
            Some(InputEvent::NextFlowgraph)
        } else if code == KEY_CODE_DOWN {
            Some(InputEvent::PreviousFlowgraph)
        } else if code == KEY_CODE_ENTER {
            Some(InputEvent::Run)
        } else if code == KEY_CODE_ESC {
            Some(InputEvent::Stop)
        } else {
            None
        }),
{
    if code == KEY_CODE_UP {
        Some(InputEvent::NextFlowgraph)
    } else if code == KEY_CODE_DOWN {
        Some(InputEvent::PreviousFlowgraph)
    } else if code == KEY_CODE_ENTER {
        Some(InputEvent::Run)
    } else if code == KEY_CODE_ESC {
        Some(InputEvent::Stop)
    } else {
        None
    }
}

/// What `check_input` answers for each poll outcome: a waiting event is
/// handed out, an idle channel is silence, and a closed channel turns into
/// a quit command.
pub fn event_for_poll(outcome: PollOutcome) -> (r: Option<InputEvent>)
    ensures
        r == (match outcome {
            PollOutcome::Received(e) => Some(e),
            PollOutcome::Pending => None::<InputEvent>,
            PollOutcome::Closed => Some(InputEvent::Quit),
        }),
{
    match outcome {
        PollOutcome::Received(e) => Some(e),
        PollOutcome::Pending => None,
        PollOutcome::Closed => Some(InputEvent::Quit),
    }
}

#[verifier::external_type_specification]
#[verifier::external_body]
#[verifier::reject_recursive_types(T)]
pub struct ExReceiver<T>(Receiver<T>);

/// Relies on `std::sync::mpsc::Receiver::try_recv`: it never blocks, and
/// answers with an event, with emptiness, or with disconnection.  What
/// arrives depends on the sending threads, so nothing more is promised.
#[verifier::external_body]
fn poll_receiver(rx: &Receiver<InputEvent>) -> (r: PollOutcome) {
    match rx.try_recv() {
        Ok(event) => PollOutcome::Received(event),
        Err(TryRecvError::Empty) => PollOutcome::Pending,
        Err(TryRecvError::Disconnected) => PollOutcome::Closed,
    }
}

/// Hands out input events fed by the caller's reader threads.
pub struct InputHandler {
    receiver: Receiver<InputEvent>,
}

impl InputHandler {
    /// Wraps the receiving end of the event channel the reader threads
    /// send into.
    pub fn from_channel(receiver: Receiver<InputEvent>) -> InputHandler {
        InputHandler { receiver }
    }

    /// Checks for available input without blocking; a dead channel is
    /// reported as a quit command.
    pub fn check_input(&self) -> Option<InputEvent> {
        event_for_poll(poll_receiver(&self.receiver))
    }
}

} // verus!
