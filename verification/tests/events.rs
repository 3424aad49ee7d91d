use typing_tutor::event::{interpret, InputEvent, Key, KeyKind};

#[test]
fn pressed_keys_are_requests() {
    assert_eq!(interpret(KeyKind::Press, Key::Char('a')), Some(InputEvent::Insert('a')));
    assert_eq!(interpret(KeyKind::Press, Key::Char(' ')), Some(InputEvent::Insert(' ')));
    assert_eq!(interpret(KeyKind::Press, Key::Backspace), Some(InputEvent::Backspace));
    assert_eq!(interpret(KeyKind::Press, Key::Esc), Some(InputEvent::Cancel));
    assert_eq!(interpret(KeyKind::Press, Key::Enter), Some(InputEvent::Submit));
}

#[test]
fn other_keys_ask_nothing() {
    assert_eq!(interpret(KeyKind::Press, Key::Other), None);
    assert_eq!(interpret(KeyKind::Repeat, Key::Other), None);
    assert_eq!(interpret(KeyKind::Release, Key::Other), None);
}

#[test]
fn released_and_repeated_keys_ask_nothing() {
    for kind in [KeyKind::Repeat, KeyKind::Release] {
        assert_eq!(interpret(kind, Key::Char('a')), None);
        assert_eq!(interpret(kind, Key::Backspace), None);
        assert_eq!(interpret(kind, Key::Esc), None);
        assert_eq!(interpret(kind, Key::Enter), None);
    }
}
