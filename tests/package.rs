use pyrite::package::{encode_package, parse_package};
use pyrite::resources::{PackagedProvider, Provider};

fn entries() -> Vec<(String, Vec<u8>)> {
    vec![
        ("entry.py".to_string(), b"print('hi')".to_vec()),
        ("tiles.png".to_string(), vec![0, 1, 2, 255]),
        ("empty".to_string(), Vec::new()),
    ]
}

#[test]
fn package_layout() {
    let bytes = encode_package(&vec![(b"ab".to_vec(), vec![7u8])]).unwrap();
    assert_eq!(
        bytes,
        vec![0, 0, 0, 2, b'a', b'b', 0, 0, 0, 0, 0, 0, 0, 1, 7, 0, 0, 0, 1, 0, 0, 0, 0, 0, 0, 0, 27]
    );
    let empty = encode_package(&Vec::new()).unwrap();
    assert_eq!(empty, vec![0, 0, 0, 0, 0, 0, 0, 0, 0, 0, 0, 12]);
}

#[test]
fn package_reads_back_after_a_prefix() {
    let pkg = PackagedProvider::create_packaged_data(&entries()).unwrap();
    let mut file = b"\x7fELF some executable bytes".to_vec();
    file.extend_from_slice(&pkg);
    let parsed = parse_package(&file).unwrap();
    assert_eq!(parsed.len(), 3);
    assert_eq!(parsed[0].0, b"entry.py".to_vec());
    assert_eq!(parsed[1].1, vec![0, 1, 2, 255]);
    let p = PackagedProvider::from_package(&file).unwrap();
    assert_eq!(p.read_to_string("entry.py"), Some("print('hi')".to_string()));
    assert_eq!(p.read_to_bytes("tiles.png"), Some(vec![0, 1, 2, 255]));
    assert_eq!(p.read_to_bytes("empty"), Some(Vec::new()));
    assert!(p.contains("empty"));
    assert!(!p.contains("missing"));
    assert_eq!(p.read_to_string("missing"), None);
}

#[test]
fn malformed_packages_are_refused() {
    assert!(parse_package(&[0u8; 11]).is_none());
    // claims a length longer than the data
    let mut bad = vec![0u8; 12];
    bad[11] = 200;
    assert!(parse_package(&bad).is_none());
    // claims one entry that is not there
    let mut short = encode_package(&Vec::new()).unwrap();
    short[3] = 1;
    assert!(parse_package(&short).is_none());
    assert!(PackagedProvider::from_package(&short).is_none());
}

#[test]
fn names_must_be_text() {
    let bytes = encode_package(&vec![(vec![0xff, 0xfe], vec![1])]).unwrap();
    assert!(parse_package(&bytes).is_some());
    assert!(PackagedProvider::from_package(&bytes).is_none());
}

#[test]
fn later_entry_wins() {
    let pkg = PackagedProvider::create_packaged_data(&vec![
        ("a".to_string(), vec![1]),
        ("a".to_string(), vec![2]),
    ])
    .unwrap();
    let p = PackagedProvider::from_package(&pkg).unwrap();
    assert_eq!(p.read_to_bytes("a"), Some(vec![2]));
}

#[test]
fn packaged_reads_have_exact_results() {
    let pkg = PackagedProvider::create_packaged_data(&vec![
        ("text".to_string(), b"words".to_vec()),
        ("blob".to_string(), vec![0xff, 0x00]),
    ])
    .unwrap();
    let p = PackagedProvider::from_package(&pkg).unwrap();
    assert_eq!(p.read_bytes("blob"), Some(vec![0xff, 0x00]));
    assert_eq!(p.read_text("text"), Some("words".to_string()));
    assert_eq!(p.read_text("blob"), None);
    assert_eq!(p.read_bytes("none"), None);
    assert!(p.has("text"));
    assert!(!p.has("tex"));
}
