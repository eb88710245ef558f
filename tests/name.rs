use uwuhi::name::{DomainName, Label};
use uwuhi::packet::Error;

#[test]
fn name_display_label() {
    assert_eq!(format!(" {} ", Label::new(b"\0").to_string()), r#" \x00 "#);
    assert_eq!(format!(" {} ", Label::new(b"\n").to_string()), r#" \n "#);
    assert_eq!(format!(" {} ", Label::new(b"a").to_string()), r#" a "#);
}

#[test]
fn name_debug_label() {
    assert_eq!(format!(" {} ", Label::new(b"\0").debug_string()), r#" "\x00" "#);
    assert_eq!(format!(" {} ", Label::new(b"\n").debug_string()), r#" "\n" "#);
    assert_eq!(format!(" {} ", Label::new(b"a").debug_string()), r#" "a" "#);
}

#[test]
fn name_domain_name_string_conversion() {
    assert_eq!(DomainName::from_str(".."), Err(Error::InvalidEmptyLabel));
    assert_eq!(DomainName::from_str(".com"), Err(Error::InvalidEmptyLabel));
    assert_eq!(DomainName::from_str("."), Ok(DomainName::root()));
    assert_eq!(DomainName::from_str("com.").unwrap().to_string(), "com.");
    assert_eq!(DomainName::from_str("com.").unwrap().labels().len(), 1);
}

#[test]
fn display_label() {
    assert_eq!(format!(" {} ", Label::new(b"\0").to_string()), r#" \x00 "#);
    assert_eq!(format!(" {} ", Label::new(b"\n").to_string()), r#" \n "#);
    assert_eq!(format!(" {} ", Label::new(b"a").to_string()), r#" a "#);
}

#[test]
fn debug_label() {
    assert_eq!(format!(" {} ", Label::new(b"\0").debug_string()), r#" "\x00" "#);
    assert_eq!(format!(" {} ", Label::new(b"\n").debug_string()), r#" "\n" "#);
    assert_eq!(format!(" {} ", Label::new(b"a").debug_string()), r#" "a" "#);
}

#[test]
fn domain_name_string_conversion() {
    assert_eq!(DomainName::from_str(".."), Err(Error::InvalidEmptyLabel));
    assert_eq!(DomainName::from_str(".com"), Err(Error::InvalidEmptyLabel));
    assert_eq!(DomainName::from_str("."), Ok(DomainName::root()));
    assert_eq!(DomainName::from_str("com.").unwrap().to_string(), "com.");
}

#[test]
fn label_size() {
    assert_eq!(std::mem::size_of::<Label>(), std::mem::size_of::<Vec<u8>>());
}

#[test]
fn label_lengths() {
    assert_eq!(Label::try_new(b"").unwrap_err(), Error::InvalidEmptyLabel);
    assert_eq!(Label::try_new(&[b'a'; 64]).unwrap_err(), Error::LabelTooLong);
    assert_eq!(Label::try_new(&[b'a'; 63]).unwrap().as_bytes().len(), 63);
    assert_eq!(Label::MAX_LEN, 63);
}

#[test]
fn label_text_round_trip() {
    let l = Label::new(b"_http-alt");
    let text = l.to_string();
    assert_eq!(Label::from_str(&text).unwrap(), l);
    assert_eq!(Label::from_str("").unwrap_err(), Error::InvalidEmptyLabel);
}

#[test]
fn label_escapes() {
    assert_eq!(Label::new(b"a\"b").to_string(), "a\\\"b");
    assert_eq!(Label::new(&[0xff, b'\t']).to_string(), "\\xff\\t");
}

#[test]
fn domain_name_parsing() {
    let n = DomainName::from_str("example.com").unwrap();
    assert_eq!(n.labels().len(), 2);
    assert_eq!(n.labels()[0].as_bytes(), b"example");
    assert_eq!(n.to_string(), "example.com.");
    assert_eq!(DomainName::from_str("example.com."), Ok(n.clone()));
    assert_eq!(DomainName::from_str(""), Ok(DomainName::root()));
    assert_eq!(DomainName::root().to_string(), ".");
    let long = "a".repeat(64) + ".com";
    assert_eq!(DomainName::from_str(&long), Err(Error::LabelTooLong));
    assert_eq!(DomainName::from_str("a..b"), Err(Error::InvalidEmptyLabel));
}

#[test]
fn domain_name_building() {
    let mut n = DomainName::root();
    n.push_label(Label::new(b"host"));
    let local = DomainName::from_str("local").unwrap();
    n.extend(&local);
    assert_eq!(n.to_string(), "host.local.");
    let copy = DomainName::from_labels(n.labels());
    assert_eq!(copy, n);
    assert_ne!(copy, local);
}

#[test]
fn error_descriptions() {
    assert_eq!(Error::Eof.description(), "unexpected end of data");
    assert_eq!(Error::PointerLoop.description(), "encountered domain name pointer loop");
    assert_eq!(Error::Truncated.description(), "packet truncated");
}

#[test]
fn domain_name_length_limit() {
    let l = "a".repeat(63);
    // four labels of 63 bytes take 257 bytes on the wire
    let long = format!("{l}.{l}.{l}.{l}");
    assert_eq!(DomainName::from_str(&long), Err(Error::InvalidValue));
    // 63 + 63 + 63 + 61 bytes take exactly 255
    let fits = format!("{l}.{l}.{l}.{}", "a".repeat(61));
    let n = DomainName::from_str(&fits).unwrap();
    assert!(n.wire_len_within(255));
    assert!(!n.wire_len_within(254));
}
