use uwuhi::name::DomainName;
use uwuhi::packet::decoder::MessageDecoder;
use uwuhi::packet::encoder::{MessageEncoder, Question, ResourceRecord};
use uwuhi::packet::records::{Record, A};
use uwuhi::packet::{Class, Error, Header, QType};

#[test]
fn encode_and_decode_message() {
    let name = DomainName::from_str("example.com").unwrap();
    let mut enc = MessageEncoder::new(vec![0; 512]);
    let mut h = Header::default();
    h.set_id(7);
    h.set_response(true);
    enc.set_header(h);
    enc.question(Question::new(&name).ty(QType::A));
    let mut enc = enc.answers();
    let rec = Record::A(A::new([10, 0, 0, 1]));
    enc.add_answer(ResourceRecord::new(&name, &rec).ttl(60).class(Class::IN));
    let enc = enc.authority();
    let mut enc = enc.additional();
    enc.add_additional(ResourceRecord::new(&name, &rec));
    let (buf, res) = enc.finish();
    let n = res.unwrap();
    assert_eq!(buf.len(), 512);
    let mut dec = MessageDecoder::new(&buf[..n]).unwrap();
    assert_eq!(dec.header().id(), 7);
    assert_eq!(dec.header().question_count(), 1);
    assert_eq!(dec.header().answer_count(), 1);
    assert_eq!(dec.header().authoritative_count(), 0);
    assert_eq!(dec.header().additional_count(), 1);
    assert!(!dec.header().is_truncated());
    assert_eq!(dec.next().unwrap().unwrap().qtype(), QType::A);
    let mut dec = dec.answers().unwrap();
    let rr = dec.next_rr().unwrap().unwrap();
    assert_eq!(rr.ttl(), 60);
    match rr.as_enum() {
        Some(Ok(Record::A(a))) => assert_eq!(a.addr(), [10, 0, 0, 1]),
        other => panic!("unexpected: {:?}", other),
    }
    let mut dec = dec.additional().unwrap();
    assert!(dec.next_rr().unwrap().is_ok());
}

#[test]
fn encoder_truncates() {
    let name = DomainName::from_str("example.com").unwrap();
    // nothing but the header fits
    let mut enc = MessageEncoder::new(vec![0; 20]);
    enc.question(Question::new(&name));
    enc.question(Question::new(&name));
    let (buf, res) = enc.finish();
    assert_eq!(res, Err(Error::Truncated));
    assert_eq!(buf.len(), 20);
    let dec = MessageDecoder::new(&buf).unwrap();
    assert!(dec.header().is_truncated());
    assert_eq!(dec.header().question_count(), 0);
    assert_eq!(&buf[12..20], &[7, b'e', b'x', b'a', b'm', b'p', b'l', b'e']);

    // the first question fits whole, the second is cut off
    let mut enc = MessageEncoder::new(vec![0; 40]);
    enc.question(Question::new(&name));
    enc.question(Question::new(&name));
    let mut enc = enc.answers();
    let rec = Record::A(A::new([10, 0, 0, 1]));
    enc.add_answer(ResourceRecord::new(&name, &rec));
    let (buf, res) = enc.finish();
    assert_eq!(res, Err(Error::Truncated));
    let mut dec = MessageDecoder::new(&buf).unwrap();
    assert!(dec.header().is_truncated());
    assert_eq!(dec.header().question_count(), 1);
    assert_eq!(dec.header().answer_count(), 0);
    assert_eq!(dec.next().unwrap().unwrap().qname().to_string(), "example.com.");
    assert!(dec.next().is_none());
    assert!(dec.answers().unwrap().next_rr().is_none());
}
