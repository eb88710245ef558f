use uwuhi::name::DomainName;
use uwuhi::packet::decoder::Reader;
use uwuhi::packet::records::{Record, A, AAAA, CNAME, MX, NS, PTR, SOA, SRV, TXT};
use uwuhi::packet::ref_or_val::RefOrVal;
use uwuhi::packet::Error;

fn domain(s: &str) -> DomainName {
    DomainName::from_str(s).unwrap()
}

fn roundtrip(rr: Record) {
    let mut buf = Vec::new();
    rr.encode(&mut buf);
    let mut r = Reader::new(&buf);
    let decoded = Record::decode(rr.record_type(), &mut r).unwrap().unwrap();
    assert_eq!(r.pos(), buf.len());
    assert_eq!(format!("{:?}", rr), format!("{:?}", decoded));
}

#[test]
fn test_roundtrip() {
    roundtrip(Record::A(A::new([9, 4, 78, 210])));
    roundtrip(Record::AAAA(AAAA::new([0, 0, 0, 0, 0, 0, 0, 0, 0, 0, 0, 0, 0, 0, 0, 1])));
    roundtrip(Record::CNAME(CNAME::new(domain("a.b.c"))));
    roundtrip(Record::MX(MX::new(123, domain("a.b.c"))));
    roundtrip(Record::NS(NS::new(domain("a.b.c"))));
    roundtrip(Record::PTR(PTR::new(domain("a.b.c"))));
    roundtrip(Record::TXT(TXT::new(vec![b"abc".to_vec()])));
    roundtrip(Record::TXT(TXT::new(vec![b"abc".to_vec(), vec![], b"def".to_vec()])));
    roundtrip(Record::SRV(SRV::new(123, 456, 8080, domain("a.b.c"))));
    roundtrip(Record::SOA(SOA::new(
        domain("m.name"),
        domain("r.name"),
        999999,
        888888,
        777777,
        666666,
        555555,
    )));
}

#[test]
fn test_record_is_covariant() {
    fn _check(rec: Record) -> Record {
        rec
    }
}

#[test]
fn test_ref_or_val_is_covariant() {
    fn _test<'short, 'long: 'short, T>(r: RefOrVal<'long, T>) -> RefOrVal<'short, T> {
        r
    }
}

#[test]
fn ref_or_val_make_owned() {
    let v = 7u32;
    let r = RefOrVal::Ref(&v);
    assert_eq!(*r.get(), 7);
    match r.make_owned() {
        RefOrVal::Val(x) => assert_eq!(x, 7),
        RefOrVal::Ref(_) => panic!("still borrowed"),
    }
}

#[test]
fn record_wire_bytes() {
    let mut buf = Vec::new();
    Record::SRV(SRV::new(1, 2, 0x1f90, domain("h.local"))).encode(&mut buf);
    assert_eq!(buf, [0, 1, 0, 2, 0x1f, 0x90, 1, b'h', 5, b'l', b'o', b'c', b'a', b'l', 0]);
    let mut buf = Vec::new();
    Record::TXT(TXT::new(vec![b"k=v".to_vec(), vec![]])).encode(&mut buf);
    assert_eq!(buf, [3, b'k', b'=', b'v', 0]);
}

#[test]
fn record_decode_errors() {
    let mut r = Reader::new(&[1, 2, 3]);
    assert_eq!(Record::decode(uwuhi::packet::Type::A, &mut r).unwrap().unwrap_err(), Error::Eof);
    let mut r = Reader::new(&[3, b'a']);
    assert_eq!(Record::decode(uwuhi::packet::Type::TXT, &mut r).unwrap().unwrap_err(), Error::Eof);
    let mut r = Reader::new(&[]);
    match Record::decode(uwuhi::packet::Type::TXT, &mut r) {
        Some(Ok(Record::TXT(t))) => assert!(t.entries().is_empty()),
        other => panic!("unexpected: {:?}", other),
    }
    let mut r = Reader::new(&[1, 2, 3]);
    assert!(Record::decode(uwuhi::packet::Type::HINFO, &mut r).is_none());
}

#[test]
fn name_wire_round_trip() {
    let name = domain("_services._dns-sd._udp.local");
    let mut buf = Vec::new();
    uwuhi::packet::encoder::push_domain_name(&mut buf, &name);
    assert_eq!(buf.len(), 1 + 9 + 1 + 7 + 1 + 4 + 1 + 5 + 1);
    let mut r = Reader::new(&buf);
    assert_eq!(r.read_domain_name(), Ok(name));
    assert_eq!(r.pos(), buf.len());
}
