//! Classification of raw input into UI events, and channel polling.

use std::sync::mpsc::channel;

use linht_gui::event_for_byte;
use linht_gui::event_for_key_code;
use linht_gui::event_for_poll;
use linht_gui::InputEvent;
use linht_gui::InputHandler;
use linht_gui::PollOutcome;
use linht_gui::KEY_CODE_DOWN;
use linht_gui::KEY_CODE_ENTER;
use linht_gui::KEY_CODE_ESC;
use linht_gui::KEY_CODE_UP;

#[test]
fn bytes_map_to_commands() {
    assert_eq!(event_for_byte(b'+'), Some(InputEvent::NextFlowgraph));
    assert_eq!(event_for_byte(b'-'), Some(InputEvent::PreviousFlowgraph));
    assert_eq!(event_for_byte(b'r'), Some(InputEvent::Run));
    assert_eq!(event_for_byte(b'R'), Some(InputEvent::Run));
    assert_eq!(event_for_byte(b's'), Some(InputEvent::Stop));
    assert_eq!(event_for_byte(b'S'), Some(InputEvent::Stop));
    assert_eq!(event_for_byte(b'q'), Some(InputEvent::Quit));
    assert_eq!(event_for_byte(b'Q'), Some(InputEvent::Quit));
    assert_eq!(event_for_byte(b'x'), None);
}

#[test]
fn key_codes_map_to_commands() {
    assert_eq!(event_for_key_code(KEY_CODE_UP), Some(InputEvent::NextFlowgraph));
    assert_eq!(event_for_key_code(KEY_CODE_DOWN), Some(InputEvent::PreviousFlowgraph));
    assert_eq!(event_for_key_code(KEY_CODE_ENTER), Some(InputEvent::Run));
    assert_eq!(event_for_key_code(KEY_CODE_ESC), Some(InputEvent::Stop));
    assert_eq!(event_for_key_code(2), None);
}

#[test]
fn poll_outcomes_map_to_events() {
    assert_eq!(
        event_for_poll(PollOutcome::Received(InputEvent::Run)),
        Some(InputEvent::Run)
    );
    assert_eq!(event_for_poll(PollOutcome::Pending), None);
    assert_eq!(event_for_poll(PollOutcome::Closed), Some(InputEvent::Quit));
}

#[test]
fn check_input_polls_the_channel() {
    let (tx, rx) = channel();
    let handler = InputHandler::from_channel(rx);
    assert_eq!(handler.check_input(), None);
    tx.send(InputEvent::Run).unwrap();
    assert_eq!(handler.check_input(), Some(InputEvent::Run));
    assert_eq!(handler.check_input(), None);
    drop(tx);
    assert_eq!(handler.check_input(), Some(InputEvent::Quit));
}
