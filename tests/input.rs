use pyrite::input::{ButtonState, Event, InputTracker, MouseButton};
use pyrite::viewport::Viewport;

fn button(e: &Event) -> (String, String) {
    match e {
        Event::Button { button, transition } => (button.clone(), transition.clone()),
        other => panic!("not a button event: {:?}", other),
    }
}

#[test]
fn press_twice_yields_one_event() {
    let mut t = InputTracker::new();
    t.button_event("K30".to_string(), None, true);
    t.button_event("K30".to_string(), None, true);
    let events = t.poll_events();
    assert_eq!(events.len(), 1);
    assert_eq!(button(&events[0]), ("K30".to_string(), "PRESSED".to_string()));
}

#[test]
fn press_then_release_yields_two_events() {
    let mut t = InputTracker::new();
    t.button_event("K30".to_string(), None, true);
    t.button_event("K30".to_string(), None, false);
    let events = t.poll_events();
    assert_eq!(events.len(), 2);
    assert_eq!(button(&events[0]).1, "PRESSED");
    assert_eq!(button(&events[1]).1, "RELEASED");
}

#[test]
fn first_release_is_reported() {
    let mut t = InputTracker::new();
    t.button_event("X".to_string(), None, false);
    assert_eq!(t.poll_events().len(), 1);
    t.button_event("X".to_string(), None, false);
    assert!(t.poll_events().is_empty());
}

#[test]
fn alias_is_deduplicated_on_its_own() {
    let mut t = InputTracker::new();
    t.key_event(30, Some("A".to_string()), true);
    let events = t.poll_events();
    assert_eq!(events.len(), 2);
    assert_eq!(button(&events[0]), ("K30".to_string(), "PRESSED".to_string()));
    assert_eq!(button(&events[1]), ("A".to_string(), "PRESSED".to_string()));
    // another key with the same name: only its scancode is new
    t.key_event(31, Some("A".to_string()), true);
    let events = t.poll_events();
    assert_eq!(events.len(), 1);
    assert_eq!(button(&events[0]).0, "K31");
    assert!(t.is_down("K31"));
    assert!(t.is_down("A"));
}

#[test]
fn mouse_buttons_have_codes_and_names() {
    let mut t = InputTracker::new();
    t.mouse_button_event(MouseButton::Right, true);
    t.mouse_button_event(MouseButton::Other(12), true);
    let events = t.poll_events();
    let names: Vec<String> = events.iter().map(|e| button(e).0).collect();
    assert_eq!(names, vec!["MOUSE_3", "MOUSE_RIGHT", "MOUSE_12"]);
    assert!(t.button_down("mouse_right"));
}

#[test]
fn chord_needs_every_button() {
    let mut t = InputTracker::new();
    t.button_event("A".to_string(), None, true);
    assert!(t.button_down("a"));
    assert!(!t.button_down("a+b"));
    t.button_event("B".to_string(), None, true);
    assert!(t.button_down("a+b"));
    assert!(t.button_down("B+A"));
    t.button_event("B".to_string(), None, false);
    assert!(!t.button_down("a+b"));
    assert!(!t.button_down("a+c"));
    assert!(!t.button_down("a+"));
}

#[test]
fn button_states_are_recorded() {
    let mut t = InputTracker::new();
    assert!(!t.is_down("SPACE"));
    t.button_event("SPACE".to_string(), None, true);
    assert!(t.is_down("SPACE"));
    t.button_event("SPACE".to_string(), None, false);
    assert!(!t.is_down("SPACE"));
    assert_ne!(ButtonState::Down, ButtonState::Up);
}

#[test]
fn scroll_accumulates_to_whole_lines() {
    let mut t = InputTracker::new();
    t.scroll_event(400, 0);
    t.scroll_event(400, -300);
    assert!(t.poll_events().is_empty());
    t.scroll_event(1400, -800);
    let events = t.poll_events();
    assert_eq!(events.len(), 1);
    match events[0] {
        Event::Scroll { x, y } => assert_eq!((x, y), (2, -1)),
        _ => panic!("expected a scroll event"),
    }
    // x restarted from zero, y too
    t.scroll_event(900, 0);
    assert!(t.poll_events().is_empty());
}

#[test]
fn scroll_keeps_the_quiet_axis() {
    let mut t = InputTracker::new();
    t.scroll_event(0, 500);
    t.scroll_event(-1000, 0);
    match t.poll_events()[0] {
        Event::Scroll { x, y } => assert_eq!((x, y), (-1, 0)),
        _ => panic!("expected a scroll event"),
    }
    t.scroll_event(0, 500);
    match t.poll_events()[0] {
        Event::Scroll { x, y } => assert_eq!((x, y), (0, 1)),
        _ => panic!("expected a scroll event"),
    }
}

#[test]
fn text_and_close() {
    let mut t = InputTracker::new();
    t.text_event("é".to_string());
    assert!(!t.close_requested());
    t.request_close();
    assert!(t.close_requested());
    let events = t.poll_events();
    assert!(matches!(&events[0], Event::Text { text } if text == "é"));
    assert!(t.poll_events().is_empty());
}

#[test]
fn mouse_position_in_tiles() {
    let mut t = InputTracker::new();
    let vp = Viewport::new(10, 5, 1);
    t.cursor_moved(150, 99);
    assert_eq!(t.mouse_position((200, 100), &vp), (7, 4));
    t.cursor_moved(-30, 0);
    assert_eq!(t.mouse_position((200, 100), &vp), (-1, 0));
    assert_eq!(t.mouse_position((0, 100), &vp), (0, 0));
}

#[test]
fn event_type_names() {
    assert_eq!(Event::Load.type_str(), "LOAD");
    assert_eq!(Event::Scroll { x: 0, y: 0 }.type_str(), "SCROLL");
    assert_eq!(Event::Step { delta_nanos: 1 }.type_str(), "STEP");
    assert_eq!(Event::Exit.type_str(), "EXIT");
    assert_eq!(Event::Text { text: String::new() }.type_str(), "TEXT");
}

#[test]
fn press_twice_with_alias_yields_one_event_per_name() {
    let mut t = InputTracker::new();
    t.key_event(57, Some("SPACE".to_string()), true);
    t.key_event(57, Some("SPACE".to_string()), true);
    let names: Vec<(String, String)> = t.poll_events().iter().map(button).collect();
    assert_eq!(
        names,
        vec![("K57".to_string(), "PRESSED".to_string()), ("SPACE".to_string(), "PRESSED".to_string())]
    );
    t.key_event(57, Some("SPACE".to_string()), false);
    assert_eq!(t.poll_events().len(), 2);
    assert!(!t.is_down("SPACE") && !t.is_down("K57"));
}
