use evdev::{AttributeSet, EventType, KeyCode, RelativeAxisCode};
use imlec::keys::{EmitKind, KeyClass};
use imlec::linux_backend::keyboard::{
    classify, handle_signal, is_keyboard, is_pointer, read_device, read_event, ActiveDevices,
    InputSignal, RawEvent,
};
use imlec::linux_backend::pointer::{Pointer, Relative};
use imlec::linux_backend::session::{
    choose_session, detect_session, forwards, needs_motion, Session,
};

fn key(code: KeyCode, value: i32) -> RawEvent {
    RawEvent { kind: EventType::KEY.0, code: code.code(), value }
}

fn axis(axis: RelativeAxisCode, value: i32) -> RawEvent {
    RawEvent { kind: EventType::RELATIVE.0, code: axis.0, value }
}

#[test]
fn keys_are_classified() {
    assert_eq!(classify(KeyCode::KEY_A.code()), KeyClass::Text);
    assert_eq!(classify(KeyCode::KEY_ENTER.code()), KeyClass::Text);
    assert_eq!(classify(KeyCode::KEY_BACKSPACE.code()), KeyClass::Delete);
    assert_eq!(classify(KeyCode::KEY_DELETE.code()), KeyClass::Delete);
    for code in [
        KeyCode::KEY_LEFTSHIFT,
        KeyCode::KEY_RIGHTSHIFT,
        KeyCode::KEY_LEFTCTRL,
        KeyCode::KEY_RIGHTCTRL,
        KeyCode::KEY_LEFTALT,
        KeyCode::KEY_RIGHTALT,
        KeyCode::KEY_LEFTMETA,
        KeyCode::KEY_RIGHTMETA,
        KeyCode::KEY_CAPSLOCK,
        KeyCode::KEY_NUMLOCK,
        KeyCode::KEY_SCROLLLOCK,
        KeyCode::KEY_COMPOSE,
        KeyCode::BTN_LEFT,
        KeyCode::BTN_SOUTH,
        KeyCode(0x100),
    ] {
        assert_eq!(classify(code.code()), KeyClass::Ignore, "{code:?}");
    }
    let text = (0..0x100).filter(|code| classify(*code) == KeyClass::Text).count();
    assert_eq!(text, 256 - 2 - 12);
}

#[test]
fn effects_of_classes() {
    assert_eq!(KeyClass::Text.emit_kind(), Some(EmitKind::Typing));
    assert_eq!(KeyClass::Delete.emit_kind(), Some(EmitKind::Deleting));
    assert_eq!(KeyClass::Ignore.emit_kind(), None);
}

#[test]
fn keyboards_have_letters_and_space() {
    let mut keys = AttributeSet::<KeyCode>::new();
    assert!(!is_keyboard(Some(&keys)));
    keys.insert(KeyCode::KEY_A);
    keys.insert(KeyCode::KEY_Z);
    assert!(!is_keyboard(Some(&keys)));
    keys.insert(KeyCode::KEY_SPACE);
    assert!(is_keyboard(Some(&keys)));
    keys.remove(KeyCode::KEY_A);
    assert!(!is_keyboard(Some(&keys)));
    assert!(!is_keyboard(None));
}

#[test]
fn pointers_have_a_horizontal_axis() {
    let mut axes = AttributeSet::<RelativeAxisCode>::new();
    axes.insert(RelativeAxisCode::REL_Y);
    assert!(!is_pointer(Some(&axes)));
    axes.insert(RelativeAxisCode::REL_X);
    assert!(is_pointer(Some(&axes)));
    assert!(!is_pointer(None));
}

#[test]
fn presses_and_repeats_count_but_releases_do_not() {
    let text = Some(InputSignal::Key(KeyClass::Text));
    assert_eq!(read_event(key(KeyCode::KEY_Q, 1), true, false), text);
    assert_eq!(read_event(key(KeyCode::KEY_Q, 2), true, false), text);
    assert_eq!(read_event(key(KeyCode::KEY_Q, 0), true, false), None);
    assert_eq!(read_event(key(KeyCode::KEY_Q, 3), true, false), None);
    assert_eq!(read_event(key(KeyCode::KEY_Q, 1), false, true), None);
    assert_eq!(read_event(key(KeyCode::KEY_LEFTALT, 1), true, true), None);
    assert_eq!(
        read_event(key(KeyCode::KEY_DELETE, 1), true, true),
        Some(InputSignal::Key(KeyClass::Delete))
    );
}

#[test]
fn motion_along_each_axis() {
    assert_eq!(
        read_event(axis(RelativeAxisCode::REL_X, -7), false, true),
        Some(InputSignal::Motion { dx: -7, dy: 0 })
    );
    assert_eq!(
        read_event(axis(RelativeAxisCode::REL_Y, 9), true, true),
        Some(InputSignal::Motion { dx: 0, dy: 9 })
    );
    assert_eq!(read_event(axis(RelativeAxisCode::REL_WHEEL, 1), true, true), None);
    assert_eq!(read_event(axis(RelativeAxisCode::REL_X, 1), true, false), None);
}

#[test]
fn other_events_are_ignored() {
    for kind in [
        EventType::SYNCHRONIZATION,
        EventType::ABSOLUTE,
        EventType::MISC,
        EventType::SWITCH,
        EventType::LED,
        EventType::SOUND,
        EventType::REPEAT,
        EventType::FORCEFEEDBACK,
        EventType::POWER,
        EventType::FORCEFEEDBACKSTATUS,
        EventType::UINPUT,
        EventType(0x99),
    ] {
        let event = RawEvent { kind: kind.0, code: KeyCode::KEY_A.code(), value: 1 };
        assert_eq!(read_event(event, true, true), None, "{kind:?}");
    }
}

#[test]
fn batches_keep_their_order() {
    let events = vec![
        key(KeyCode::KEY_A, 1),
        RawEvent { kind: 0, code: 0, value: 0 },
        key(KeyCode::KEY_A, 0),
        axis(RelativeAxisCode::REL_Y, 4),
        key(KeyCode::KEY_BACKSPACE, 2),
    ];
    let expected = vec![
        InputSignal::Key(KeyClass::Text),
        InputSignal::Motion { dx: 0, dy: 4 },
        InputSignal::Key(KeyClass::Delete),
    ];
    assert_eq!(read_device(&events, true, true), expected);
    let mut parts = read_device(&events[..2].to_vec(), true, true);
    parts.extend(read_device(&events[2..].to_vec(), true, true));
    assert_eq!(parts, expected);
}

#[test]
fn devices_are_read_once() {
    let mut active = ActiveDevices::new();
    let (a, b) = (b"/dev/input/event0".to_vec(), b"/dev/input/event1".to_vec());
    assert!(!active.scan(a.clone(), false, false));
    assert!(!active.contains(&a));
    assert!(active.scan(a.clone(), true, false));
    assert!(active.scan(b.clone(), false, true));
    assert!(!active.scan(a.clone(), true, true));
    active.stopped(&a);
    assert!(!active.contains(&a));
    assert!(active.contains(&b));
    assert!(active.scan(a.clone(), true, false));
    active.stopped(&b"/dev/input/event9".to_vec());
    assert!(active.contains(&a) && active.contains(&b));
}

#[test]
fn signals_reach_the_pointer_or_set_off_an_effect() {
    let mut pointer = Pointer::Relative(Relative::new());
    assert_eq!(handle_signal(InputSignal::Motion { dx: 3, dy: 4 }, &mut pointer), None);
    match &pointer {
        Pointer::Relative(rel) => assert_eq!((rel.half_x, rel.half_y), (6, 8)),
        other => panic!("{other:?}"),
    }
    let signal = InputSignal::Key(KeyClass::Delete);
    assert_eq!(handle_signal(signal, &mut pointer), Some(EmitKind::Deleting));
    assert_eq!(handle_signal(InputSignal::Key(KeyClass::Ignore), &mut pointer), None);
}

#[test]
fn sessions() {
    assert_eq!(detect_session(true), Session::Wayland);
    assert_eq!(detect_session(false), Session::X11);
    assert_eq!(choose_session(None, true), Session::Wayland);
    assert_eq!(choose_session(None, false), Session::X11);
    assert_eq!(choose_session(Some(Session::X11), true), Session::X11);
}

#[test]
fn motion_is_collected_where_it_is_needed() {
    let hyprland = Pointer::detect(Some("/tmp/s".into()), true, None);
    let x11 = Pointer::detect(None, false, Some(7));
    let relative = Pointer::detect(None, true, None);
    assert!(needs_motion(Session::Wayland, &hyprland));
    assert!(!needs_motion(Session::X11, &hyprland));
    assert!(!needs_motion(Session::Wayland, &x11));
    assert!(!needs_motion(Session::X11, &x11));
    assert!(needs_motion(Session::Wayland, &relative));
    assert!(needs_motion(Session::X11, &relative));
    let motion = InputSignal::Motion { dx: 1, dy: 0 };
    assert!(forwards(true, motion));
    assert!(!forwards(false, motion));
    assert!(forwards(false, InputSignal::Key(KeyClass::Text)));
}
