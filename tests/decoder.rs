use uwuhi::hex::parse;
use uwuhi::packet::decoder::{MessageDecoder, Reader};
use uwuhi::packet::records::Record;
use uwuhi::packet::{Class, Error, Opcode, QClass, QType, RCode, Section, Type};

#[test]
fn decode_domain_name() {
    let mut r = Reader::new(&[
        7, b'e', b'x', b'a', b'm', b'p', b'l', b'e', 3, b'c', b'o', b'm', 0,
    ]);
    let name = r.read_domain_name().unwrap();
    assert_eq!(name.to_string(), "example.com.");

    let mut r = Reader::new(&[0]);
    let name = r.read_domain_name().unwrap();
    assert_eq!(name.to_string(), ".");
}

#[test]
fn decode_domain_name_pointer() {
    let mut r = Reader::new(&[
        b'_', // never read
        3,
        b'c',
        b'o',
        b'm',
        0, // "com."
        7,
        b'e',
        b'x',
        b'a',
        b'm',
        b'p',
        b'l',
        b'e',
        // ptr to 1:
        0b1100_0000,
        1,
    ]);
    r.set_pos(1);
    let name = r.read_domain_name().unwrap();
    assert_eq!(name.to_string(), "com.");
    let name = r.read_domain_name().unwrap();
    assert_eq!(name.to_string(), "example.com.");
    assert_eq!(r.read_u8(), Err(Error::Eof), "should be at EOF");
}

#[test]
fn decode_domain_name_pointer_oob() {
    let mut r = Reader::new(&[0xff, 0xff]);
    assert_eq!(r.read_domain_name(), Err(Error::PointerLoop));
}

#[test]
fn decode_domain_name_dos() {
    let mut r = Reader::new(&[
        // pointer to self:
        0b1100_0000,
        0,
    ]);
    assert_eq!(r.read_domain_name(), Err(Error::PointerLoop));

    let mut r = Reader::new(&[
        // fallthrough:
        1,
        b'a',
        // pointer to 0:
        0b1100_0000,
        0,
    ]);
    r.set_pos(2);
    assert_eq!(r.read_domain_name(), Err(Error::PointerLoop));
}

#[test]
fn decode_domain_name_errors() {
    // reserved tag bits 01 and 10
    assert_eq!(Reader::new(&[0x40, 0]).read_domain_name(), Err(Error::InvalidValue));
    assert_eq!(Reader::new(&[0x80, 0]).read_domain_name(), Err(Error::InvalidValue));
    // truncated label, missing terminator, truncated pointer
    assert_eq!(Reader::new(&[3, b'a', b'b']).read_domain_name(), Err(Error::Eof));
    assert_eq!(Reader::new(&[1, b'a']).read_domain_name(), Err(Error::Eof));
    assert_eq!(Reader::new(&[0xc0]).read_domain_name(), Err(Error::Eof));
    // a pointer chain that moves forward again
    let mut r = Reader::new(&[0, 1, b'a', 0xc0, 4, 0xc0, 3]);
    r.set_pos(5);
    assert_eq!(r.read_domain_name(), Err(Error::PointerLoop));
}

#[test]
fn decode_dns_query() {
    let packet = parse("303901000002000000000000076578616d706c6503636f6d0000010001076578616d706c6503636f6d00001c0001");
    let mut dec = MessageDecoder::new(&packet).unwrap();
    let h = *dec.header();
    assert_eq!(h.id(), 12345);
    assert!(h.is_query());
    assert_eq!(h.opcode(), Opcode::QUERY);
    assert_eq!(h.rcode(), RCode::NO_ERROR);
    assert!(h.is_recursion_desired());
    assert!(!h.is_recursion_available());
    let q = dec.next().unwrap().unwrap();
    assert_eq!(q.qname().to_string(), "example.com.");
    assert_eq!(q.qclass(), QClass::IN);
    assert_eq!(q.qtype(), QType::A);
    let q = dec.next().unwrap().unwrap();
    assert_eq!(q.qname().to_string(), "example.com.");
    assert_eq!(q.qtype(), QType::AAAA);
    assert!(dec.next().is_none());

    let packet = parse("303981800001000100000000076578616d706c6503636f6d0000060001c00c0006000100000e10002c026e73056963616e6e036f726700036e6f6303646e73c02c7886aa5a00001c2000000e100012750000000e10");
    let mut dec = MessageDecoder::new(&packet).unwrap();
    let h = *dec.header();
    assert_eq!(h.id(), 12345);
    assert!(h.is_response());
    assert!(h.is_recursion_available());
    assert!(h.is_recursion_desired());
    let q = dec.next().unwrap().unwrap();
    assert_eq!(q.qname().to_string(), "example.com.");
    assert_eq!(q.qtype(), QType::SOA);
    let mut dec = dec.answers().unwrap();
    let rr = dec.next_rr().unwrap().unwrap();
    assert_eq!(rr.name().to_string(), "example.com.");
    assert_eq!(rr.ttl(), 3600);
    assert_eq!(rr.class(), Class::IN);
    assert_eq!(rr.type_(), Type::SOA);
    assert!(!rr.cache_flush());
    match rr.as_enum() {
        Some(Ok(Record::SOA(soa))) => {
            assert_eq!(soa.mname().to_string(), "ns.icann.org.");
            assert_eq!(soa.rname().to_string(), "noc.dns.icann.org.");
            assert_eq!(soa.serial(), 2022091354);
            assert_eq!(soa.refresh(), 7200);
            assert_eq!(soa.retry(), 3600);
            assert_eq!(soa.expire(), 1209600);
            assert_eq!(soa.minimum_ttl(), 3600);
        }
        other => panic!("unexpected record: {:?}", other),
    }
    assert!(dec.next_rr().is_none());
    let dec = dec.additional().unwrap();
    assert_eq!(dec.section(), Section::Additional);
}

#[test]
fn decode_mdns_sd() {
    let packet = parse("303900000001000000000000095f7365727669636573075f646e732d7364045f756470056c6f63616c00000c0001");
    let mut dec = MessageDecoder::new(&packet).unwrap();
    assert_eq!(dec.header().id(), 12345);
    assert!(dec.header().is_query());
    let q = dec.next().unwrap().unwrap();
    assert_eq!(q.qname().to_string(), "_services._dns-sd._udp.local.");
    assert_eq!(q.qclass(), QClass::IN);
    assert_eq!(q.qtype(), QType::PTR);

    let packet = parse("303984000001000100000000095f7365727669636573075f646e732d7364045f756470056c6f63616c00000c0001c00c000c00010000000a000e065f6361636865045f746370c023");
    let dec = MessageDecoder::new(&packet).unwrap();
    assert!(dec.header().is_response());
    assert!(dec.header().is_authority());
    let mut dec = dec.answers().unwrap();
    let rr = dec.next_rr().unwrap().unwrap();
    assert_eq!(rr.name().to_string(), "_services._dns-sd._udp.local.");
    assert_eq!(rr.ttl(), 10);
    match rr.as_enum() {
        Some(Ok(Record::PTR(ptr))) => assert_eq!(ptr.ptrdname().to_string(), "_cache._tcp.local."),
        other => panic!("unexpected record: {:?}", other),
    }
}

#[test]
fn decoder_errors_are_sticky() {
    // header claims two questions, the second is cut off
    let packet = parse("303901000002000000000000076578616d706c6503636f6d000001000107");
    let mut dec = MessageDecoder::new(&packet).unwrap();
    assert!(dec.next().unwrap().is_ok());
    assert_eq!(dec.next().unwrap().unwrap_err(), Error::Eof);
    assert!(dec.next().is_none());

    let dec = MessageDecoder::new(&packet).unwrap();
    assert_eq!(dec.answers().err(), Some(Error::Eof));
    assert_eq!(MessageDecoder::new(&[0; 11]).err(), Some(Error::Eof));

    // an error that `next` already returned is given again when moving past the section
    let mut dec = MessageDecoder::new(&packet).unwrap();
    assert!(dec.next().unwrap().is_ok());
    assert!(dec.next().unwrap().is_err());
    assert_eq!(dec.answers().err(), Some(Error::Eof));
    let mut dec = MessageDecoder::new(&packet).unwrap();
    assert!(dec.next().unwrap().is_ok());
    assert!(dec.next().unwrap().is_err());
    assert_eq!(dec.additional().err(), Some(Error::Eof));
}

#[test]
fn decoder_section_misuse() {
    let packet = parse("303981800001000100000000076578616d706c6503636f6d0000060001c00c0006000100000e10002c026e73056963616e6e036f726700036e6f6303646e73c02c7886aa5a00001c2000000e100012750000000e10");
    let mut dec = MessageDecoder::new(&packet).unwrap();
    // no resource record is read while in the Question section
    assert!(dec.next_rr().is_none());
    assert!(dec.next().unwrap().is_ok());
    let mut dec = dec.answers().unwrap();
    // no question is read once past the Question section
    assert!(dec.next().is_none());
    assert!(dec.next_rr().unwrap().is_ok());
    let dec = dec.additional().unwrap();
    assert_eq!(dec.section(), Section::Additional);
    // moving back is refused
    assert_eq!(dec.answers().err(), Some(Error::InvalidValue));
}

#[test]
fn cache_flush_and_unicast_bits() {
    // question with the unicast-response bit, answer with the cache-flush bit
    let packet = parse("000084000001000100000000016100000c8001016100000180010000000a000401020304");
    let mut dec = MessageDecoder::new(&packet).unwrap();
    let q = dec.next().unwrap().unwrap();
    assert!(q.prefer_unicast());
    assert_eq!(q.qclass(), QClass::IN);
    let mut dec = dec.answers().unwrap();
    let rr = dec.next_rr().unwrap().unwrap();
    assert!(rr.cache_flush());
    assert_eq!(rr.class(), Class::IN);
    assert_eq!(rr.rdata(), &[1, 2, 3, 4]);
}

#[test]
fn decode_domain_name_too_long() {
    let mut bytes = Vec::new();
    for _ in 0..4 {
        bytes.push(63);
        bytes.extend_from_slice(&[b'a'; 63]);
    }
    bytes.push(0);
    assert_eq!(Reader::new(&bytes).read_domain_name(), Err(Error::InvalidValue));
    // one byte less fits
    let mut bytes = Vec::new();
    for len in [63u8, 63, 63, 61] {
        bytes.push(len);
        bytes.extend(std::iter::repeat(b'a').take(len as usize));
    }
    bytes.push(0);
    let mut r = Reader::new(&bytes);
    assert_eq!(r.read_domain_name().unwrap().labels().len(), 4);
    assert_eq!(r.pos(), 255);
}
