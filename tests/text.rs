use pyrite::text::{join_strings, labelled_number};

#[test]
fn join_with_separator() {
    let parts = vec!["my".to_string(), "cool".to_string(), "game".to_string()];
    assert_eq!(join_strings(&parts, "-"), "my-cool-game");
    assert_eq!(join_strings(&parts, " "), "my cool game");
    assert_eq!(join_strings(&vec!["one".to_string()], "-"), "one");
    assert_eq!(join_strings(&Vec::new(), "-"), "");
}

#[test]
fn labels_with_numbers() {
    assert_eq!(labelled_number("K", 0), "K0");
    assert_eq!(labelled_number("K", 30), "K30");
    assert_eq!(labelled_number("MOUSE_", 4294967295), "MOUSE_4294967295");
}

