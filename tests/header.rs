use uwuhi::packet::{Class, Header, Opcode, QClass, QType, RCode, Type};

#[test]
fn header() {
    let mut h = Header::default();
    assert!(h.is_query());
    assert!(!h.is_authority());
    assert!(!h.is_response());
    assert!(!h.is_recursion_available());
    assert!(!h.is_recursion_desired());

    assert_eq!(h.opcode(), Opcode::QUERY);
    h.set_opcode(Opcode::UPDATE);
    assert_eq!(h.opcode(), Opcode::UPDATE);
    h.set_opcode(Opcode::QUERY);
    assert_eq!(h.opcode(), Opcode::QUERY);

    assert_eq!(h.rcode(), RCode::NO_ERROR);
    h.set_rcode(RCode::REFUSED);
    assert_eq!(h.rcode(), RCode::REFUSED);
    h.set_rcode(RCode::NO_ERROR);
    assert_eq!(h.rcode(), RCode::NO_ERROR);
}

#[test]
fn header_setters_keep_other_fields() {
    let mut h = Header::default();
    h.set_id(0xbeef);
    h.set_response(true);
    h.set_authority(true);
    h.set_rcode(RCode::NX_DOMAIN);
    h.set_opcode(Opcode::STATUS);
    h.set_truncated(true);
    h.set_recursion_desired(true);
    h.set_recursion_available(true);
    assert_eq!(h.id(), 0xbeef);
    assert!(h.is_response() && h.is_authority() && h.is_truncated());
    assert!(h.is_recursion_desired() && h.is_recursion_available());
    assert_eq!(h.opcode(), Opcode::STATUS);
    assert_eq!(h.rcode(), RCode::NX_DOMAIN);
    h.set_authority(false);
    assert!(!h.is_authority());
    assert!(h.is_response() && h.is_truncated());
    assert_eq!(h.opcode(), Opcode::STATUS);
    assert_eq!(h.rcode(), RCode::NX_DOMAIN);
    assert_eq!(h.flags, 0x8000 | (2 << 11) | 0x0200 | 0x0100 | 0x0080 | 3);
}

#[test]
fn codes() {
    assert_eq!(Type::from_code(33), Type::SRV);
    assert_eq!(Type::from_code(99), Type::Other(99));
    assert_eq!(Type::AAAA.to_code(), 28);
    assert!(QType::ALL.matches(Type::TXT));
    assert!(QType::MAILB.matches(Type::MG));
    assert!(!QType::MAILB.matches(Type::A));
    assert!(!QType::AXFR.matches(Type::A));
    assert!(QType::PTR.matches(Type::PTR));
    assert!(!QType::PTR.matches(Type::SRV));
    assert!(QClass::ANY.matches(Class::CH));
    assert!(QClass::IN.matches(Class::IN));
    assert!(!QClass::IN.matches(Class::HS));
}
