use uwuhi::name::DomainName;
use uwuhi::packet::decoder::MessageDecoder;
use uwuhi::packet::encoder::{MessageEncoder, Question, ResourceRecord};
use uwuhi::packet::records::{Record, A, AAAA, CNAME};
use uwuhi::packet::{Header, QType};
use uwuhi::resolver::{decode_answer, encode_query};
use uwuhi::IpAddress;

fn response(records: &[Record]) -> Vec<u8> {
    let name = DomainName::from_str("example.com").unwrap();
    let mut enc = MessageEncoder::new(vec![0; 512]);
    let mut h = Header::default();
    h.set_id(12345);
    h.set_response(true);
    enc.set_header(h);
    enc.question(Question::new(&name).ty(QType::A));
    let mut enc = enc.answers();
    for r in records {
        enc.add_answer(ResourceRecord::new(&name, r).ttl(30));
    }
    let (buf, res) = enc.finish();
    buf[..res.unwrap()].to_vec()
}

#[test]
fn resolver_collects_addresses_in_order() {
    let msg = response(&[
        Record::A(A::new([192, 0, 2, 1])),
        Record::CNAME(CNAME::new(DomainName::from_str("other.example").unwrap())),
        Record::A(A::new([192, 0, 2, 2])),
        Record::AAAA(AAAA::new([0x20, 1, 0xd, 0xb8, 0, 0, 0, 0, 0, 0, 0, 0, 0, 0, 0, 1])),
    ]);
    let mut ips = Vec::new();
    assert_eq!(decode_answer(&msg, &mut ips), Ok(()));
    assert_eq!(
        ips,
        vec![
            IpAddress::V4([192, 0, 2, 1]),
            IpAddress::V4([192, 0, 2, 2]),
            IpAddress::V6([0x20, 1, 0xd, 0xb8, 0, 0, 0, 0, 0, 0, 0, 0, 0, 0, 0, 1]),
        ]
    );
}

#[test]
fn resolver_query() {
    let name = DomainName::from_str("example.com").unwrap();
    let q = encode_query(&name);
    let mut dec = MessageDecoder::new(&q).unwrap();
    assert_eq!(dec.header().id(), 12345);
    assert!(dec.header().is_recursion_desired());
    assert!(dec.header().is_query());
    assert_eq!(dec.next().unwrap().unwrap().qtype(), QType::A);
    assert_eq!(dec.next().unwrap().unwrap().qtype(), QType::AAAA);
    assert!(dec.next().is_none());
    // a query carries no addresses
    let mut ips = Vec::new();
    assert_eq!(decode_answer(&q, &mut ips), Ok(()));
    assert!(ips.is_empty());
}

#[test]
fn resolver_reports_bad_answers() {
    let mut msg = response(&[Record::A(A::new([192, 0, 2, 1]))]);
    msg.truncate(msg.len() - 2);
    let mut ips = Vec::new();
    assert_eq!(decode_answer(&msg, &mut ips), Err(uwuhi::packet::Error::Eof));
    assert!(ips.is_empty());
}
