use dominion::body::name::{parse_no_jumps, valid_label, Name, NameError};
use dominion::ParseError;

#[test]
fn valid_labels() {
    let valid = "abcdefghijklmnopqrstuvwxyzABCDEFGHIJKLMNOPQRSTUVWXYZ0123456789-";
    let invalid = "hello.world";
    assert!(valid_label(valid.as_bytes()));
    assert!(!valid_label(invalid.as_bytes()));
}

#[test]
fn no_jumps() {
    let buff = [
        5, 104, 101, 108, 108, 111, // hello
        5, 119, 111, 114, 108, 100, // world
        3, 99, 111, 109, // com
        0, 1, 1, 1, // <end>
    ];
    let (name, n) = Name::parse(&buff[..], 0).unwrap();
    assert_eq!(n, 17);
    assert_eq!(name.to_string(), "hello.world.com.".to_string())
}

#[test]
fn with_jumps() {
    let buff = [
        5, 119, 111, 114, 108, 100, // world
        3, 99, 111, 109, // com
        0, 1, 1, 1, // <end>
        5, 104, 101, 108, 108, 111, // hello
        192, 0, 1, 1, 1, 1, 1, 1, // <jump to 0>
    ];
    let (name, n) = Name::parse(&buff[..], 14).unwrap();
    assert_eq!(n, 8);
    assert_eq!(name.to_string(), "hello.world.com.".to_string())
}

#[test]
fn name_parse_with_jumps() {
    let buff = [
        5, 119, 111, 114, 108, 100, // world
        3, 99, 111, 109, // com
        0, 1, 1, 1, // <end>
        5, 104, 101, 108, 108, 111, // hello
        192, 0, 1, 1, 1, 1, 1, 1, // <jump to 0>
    ];
    let (name, n) = Name::parse(&buff[..], 14).unwrap();
    assert_eq!(n, 8);
    assert_eq!(name.to_string(), "hello.world.com.".to_string())
}

#[test]
fn serialize() {
    let buff = [
        5, 104, 101, 108, 108, 111, // hello
        5, 119, 111, 114, 108, 100, // world
        3, 99, 111, 109, // com
        0, 1, 1, 1, // <end>
    ];
    let (name, _) = Name::parse(&buff[..], 0).unwrap();
    assert_eq!(name.to_string(), "hello.world.com.".to_string());
    let out: Vec<u8> = name.into();
    assert_eq!(&buff[..17], &out[..17])
}

#[test]
fn get_tld() {
    let mut name = Name::new();
    name.push_label("com").unwrap();
    name.push_label("world").unwrap();
    name.push_label("hello").unwrap();

    let tld = name.tld();
    assert_eq!(tld, Some("com"));
}

#[test]
fn add_str_subdomain() {
    let buff = [5, 119, 111, 114, 108, 100, 3, 99, 111, 109, 0, 1, 1, 1]; // world.com
    let (mut name, _) = Name::parse(&buff[..], 0).unwrap();
    name.push_label("hello").unwrap();
    assert_eq!(name.to_string(), "hello.world.com.".to_string())
}

#[test]
fn add_string_subdomain() {
    let sub = String::from("hello");
    let buff = [5, 119, 111, 114, 108, 100, 3, 99, 111, 109, 0, 1, 1, 1]; // world.com
    let (mut name, _) = Name::parse(&buff[..], 0).unwrap();
    name.push_label(&sub[..]).unwrap();
    assert_eq!(name.to_string(), "hello.world.com.".to_string())
}

#[test]
fn iterate_human() {
    let mut name = Name::new();
    name.push_label("com").unwrap();
    name.push_label("world").unwrap();
    name.push_label("hello").unwrap();

    let mut human = name.iter_human().into_iter();
    assert_eq!(human.next(), Some("hello"));
    assert_eq!(human.next(), Some("world"));
    assert_eq!(human.next(), Some("com"));
}

#[test]
fn iterate_hierarchy() {
    let mut name = Name::new();
    name.push_label("com").unwrap();
    name.push_label("world").unwrap();
    name.push_label("hello").unwrap();

    let mut human = name.iter_hierarchy().into_iter();
    assert_eq!(human.next(), Some("com"));
    assert_eq!(human.next(), Some("world"));
    assert_eq!(human.next(), Some("hello"));
}

#[test]
fn check_subdomain() {
    let mut parent = Name::new();
    parent.push_label("com").unwrap();
    parent.push_label("world").unwrap();

    let mut sub = Name::new();
    sub.push_label("com").unwrap();
    sub.push_label("world").unwrap();
    sub.push_label("hello").unwrap();

    assert!(parent.is_subdomain(&sub));
    assert!(!sub.is_subdomain(&parent));
}

#[test]
fn root_subdomain() {
    let root = Name::default();
    let subd = Name::try_from("example.com").unwrap();

    assert!(root.is_subdomain(&subd));
    assert!(!subd.is_subdomain(&root));
}

#[test]
fn no_jumps_easy() {
    let buff = [
        5, 104, 101, 108, 108, 111, 5, 119, 111, 114, 108, 100, 3, 99, 111, 109, 0, 1, 0, 0,
    ];
    let (name, n) = parse_no_jumps(&buff[..]).unwrap();
    assert_eq!(n, 16);
    assert_eq!(name.to_string(), "hello.world.com.".to_string())
}

#[test]
fn no_jumps_hard() {
    let buff = [
        5, 104, 101, 108, 108, 111, 5, 119, 111, 114, 108, 100, 3, 99, 111, 109, 0, 1, 0, 0,
    ];
    let (name, n) = Name::parse(&buff[..], 0).unwrap();
    assert_eq!(n, 17);
    assert_eq!(name.to_string(), "hello.world.com.".to_string())
}

#[test]
fn with_jumps_hard() {
    let buff = [
        5, 119, 111, 114, 108, 100, 3, 99, 111, 109, 0, 1, 1, 1, 5, 104, 101, 108, 108, 111,
        192, 0, 1, 1, 1, 1, 1, 1,
    ];
    let (name, n) = Name::parse(&buff[..], 14).unwrap();
    assert_eq!(n, 8);
    assert_eq!(name.to_string(), "hello.world.com.".to_string())
}

#[test]
fn not_allow_forward_jump() {
    let buff = [
        5, 104, 101, 108, 108, 111, 192, 10, 1, 0, 5, 119, 111, 114, 108, 100, 3, 99, 111, 109,
        0, 0, 0, 0,
    ];
    match Name::parse(&buff[..], 0) {
        Ok(_) => panic!("Buffer with forward jump has been allowed"),
        Err(e) => assert_eq!(e, ParseError::InvalidJump),
    }
}

#[test]
fn name_normalization_trailing_dot() {
    let name = Name::try_from("example.com").unwrap();
    assert_eq!(name.to_string(), "example.com.".to_string());
    assert_eq!(name.label_count(), 2);
    assert_eq!(name.tld(), Some("com"));
}

#[test]
fn root_name_text_is_empty() {
    let root = Name::new();
    assert_eq!(root.to_string(), "".to_string());
    assert_eq!(root.tld(), None);
    assert_eq!(root.label_count(), 0);
    assert!(root.iter_human().is_empty());
}

#[test]
fn subdomain_lattice_on_names() {
    let root = Name::new();
    let a = Name::try_from("com").unwrap();
    let b = Name::try_from("example.com").unwrap();
    let c = Name::try_from("www.example.com").unwrap();
    let other = Name::try_from("example.org").unwrap();
    for n in [&root, &a, &b, &c, &other] {
        assert!(root.is_subdomain(n));
        assert!(n.is_subdomain(n));
    }
    assert!(a.is_subdomain(&b) && b.is_subdomain(&c) && a.is_subdomain(&c));
    assert!(!b.is_subdomain(&other));
    assert!(!other.is_subdomain(&c));
    let b2 = Name::try_from("example.com").unwrap();
    assert!(b.is_subdomain(&b2) && b2.is_subdomain(&b));
    assert_eq!(b, b2);
}

#[test]
fn text_errors() {
    assert_eq!(Name::try_from("").unwrap_err(), NameError::LabelLength(0));
    assert_eq!(Name::try_from("example.com.").unwrap_err(), NameError::LabelLength(0));
    assert_eq!(Name::try_from("example..com").unwrap_err(), NameError::LabelLength(0));
    assert_eq!(Name::try_from("ex_ample.com").unwrap_err(), NameError::LabelContent);
    assert_eq!(Name::try_from("1example.com").unwrap_err(), NameError::LabelContent);
    let long = "a".repeat(64);
    assert_eq!(Name::try_from(&long[..]).unwrap_err(), NameError::LabelLength(64));
    // Four labels of 63 bytes need 4 * 64 + 1 = 257 bytes on the wire.
    let label = "a".repeat(63);
    let text = format!("{label}.{label}.{label}.{label}");
    assert_eq!(Name::try_from(&text[..]).unwrap_err(), NameError::NameLength(257));
    let three = format!("{label}.{label}.{label}");
    assert!(Name::try_from(&three[..]).is_ok());
}

#[test]
fn push_label_error_keeps_name() {
    let mut name = Name::try_from("example.com").unwrap();
    assert_eq!(name.push_label("bad label"), Err(NameError::LabelContent));
    assert_eq!(name.to_string(), "example.com.".to_string());
    assert_eq!(name.push_label(""), Err(NameError::LabelLength(0)));
    assert_eq!(name.label_count(), 2);
}

#[test]
fn wire_errors() {
    // A reserved prefix.
    assert_eq!(Name::parse(&[0x40, 0][..], 0).unwrap_err(), ParseError::LabelPrefix(0x40));
    // A label that runs past the buffer.
    assert_eq!(Name::parse(&[5, 104, 101][..], 0).unwrap_err(), ParseError::LabelLength(5));
    // A position past the buffer.
    assert_eq!(Name::parse(&[0][..], 3).unwrap_err(), ParseError::OobRead(3));
    // A pointer cut in half.
    assert_eq!(Name::parse(&[0xC0][..], 0).unwrap_err(), ParseError::OobRead(0));
    // A label that does not start with a letter.
    assert_eq!(Name::parse(&[2, 49, 97, 0][..], 0).unwrap_err(), ParseError::LabelContent);
    // A pointer to itself.
    assert_eq!(Name::parse(&[0, 0xC0, 1][..], 1).unwrap_err(), ParseError::InvalidJump);
}

#[test]
fn wire_name_too_long() {
    let mut buff = Vec::new();
    for _ in 0..4 {
        buff.push(63u8);
        buff.extend(std::iter::repeat(b'a').take(63));
    }
    buff.push(0);
    assert_eq!(Name::parse(&buff[..], 0).unwrap_err(), ParseError::NameLength(257));
}

#[test]
fn excessive_jumps() {
    // "a" at 0, then six pointers in a row, each pointing at the one before.
    let buff = [
        1, 97, 0, 0xC0, 0, 0xC0, 3, 0xC0, 5, 0xC0, 7, 0xC0, 9, 0xC0, 11,
    ];
    assert_eq!(Name::parse(&buff[..], 13).unwrap_err(), ParseError::ExcesiveJumps(6));
    // Five hops are fine.
    let (name, n) = Name::parse(&buff[..], 11).unwrap();
    assert_eq!(name.to_string(), "a.".to_string());
    assert_eq!(n, 2);
}

#[test]
fn serialize_is_uncompressed() {
    let buff = [
        5, 119, 111, 114, 108, 100, 3, 99, 111, 109, 0, 1, 1, 1, 5, 104, 101, 108, 108, 111,
        192, 0,
    ];
    let (name, _) = Name::parse(&buff[..], 14).unwrap();
    let mut out = Vec::new();
    name.serialize(&mut out);
    assert_eq!(
        out,
        vec![5, 104, 101, 108, 108, 111, 5, 119, 111, 114, 108, 100, 3, 99, 111, 109, 0]
    );
    let (again, n) = Name::parse(&out[..], 0).unwrap();
    assert_eq!(again, name);
    assert_eq!(n, 17);
}

#[test]
fn cloned_name_is_equal() {
    let name = Name::try_from("www.example.com").unwrap();
    let copy = name.clone();
    assert_eq!(copy.to_string(), "www.example.com.".to_string());
    assert_eq!(copy, name);
}
