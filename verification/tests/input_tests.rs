use flappy::input::{command_for, Command, InputEvent};

#[test]
fn escape_always_quits() {
    assert_eq!(command_for(InputEvent::KeyEscape, true), Command::Quit);
    assert_eq!(command_for(InputEvent::KeyEscape, false), Command::Quit);
}

#[test]
fn space_is_context_sensitive() {
    assert_eq!(command_for(InputEvent::KeySpace, true), Command::Jump);
    assert_eq!(command_for(InputEvent::KeySpace, false), Command::Restart);
}

#[test]
fn other_events_map_to_idle() {
    assert_eq!(command_for(InputEvent::Other, true), Command::Idle);
    assert_eq!(command_for(InputEvent::Other, false), Command::Idle);
}
