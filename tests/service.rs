use uwuhi::hex::parse;
use uwuhi::name::{DomainName, Label};
use uwuhi::packet::decoder::MessageDecoder;
use uwuhi::packet::encoder::{MessageEncoder, Question, ResourceRecord};
use uwuhi::packet::records::{Record, A, PTR, SRV, TXT};
use uwuhi::packet::{Error, Header, Opcode, QClass, QType};
use uwuhi::service::advertising::Advertiser;
use uwuhi::service::discovery::{
    decode_answer, discovery_action, encode_query, instance_domain, instances_domain,
    service_types_domain, DetailsCollector, DiscoveryAction, ReceiveOutcome, SeenInstances,
    SeenServices,
};
use uwuhi::service::{
    InstanceDetails, Service, ServiceInstance, ServiceTransport, TxtRecordValue, TxtRecords,
};
use uwuhi::IpAddress;

fn domain(s: &str) -> DomainName {
    DomainName::from_str(s).unwrap()
}

fn query(name: &DomainName, ty: QType, header: Header) -> Vec<u8> {
    let mut enc = MessageEncoder::new(vec![0; 512]);
    enc.set_header(header);
    enc.question(Question::new(name).ty(ty));
    let (buf, res) = enc.finish();
    buf[..res.unwrap()].to_vec()
}

fn advertiser() -> Advertiser {
    let mut adv = Advertiser::new(Label::new(b"h"), IpAddress::V4([192, 0, 2, 1]));
    let instance = ServiceInstance::new(
        Label::new(b"My Service"),
        Label::new(b"_svc"),
        ServiceTransport::TCP,
    );
    adv.add_instance(instance, InstanceDetails::new(domain("h.local"), 1234));
    adv
}

#[test]
fn advertiser_answers_ptr_query() {
    let adv = advertiser();
    let mut h = Header::default();
    h.set_id(4321);
    let packet = query(&domain("_svc._tcp.local"), QType::PTR, h);
    let resp = adv.handle_packet(&packet).unwrap().unwrap();
    let dec = MessageDecoder::new(&resp).unwrap();
    assert_eq!(dec.header().id(), 4321);
    assert!(dec.header().is_response());
    assert!(dec.header().is_authority());
    assert_eq!(dec.header().answer_count(), 1);
    let mut dec = dec.answers().unwrap();
    let rr = dec.next_rr().unwrap().unwrap();
    assert_eq!(rr.name().to_string(), "_svc._tcp.local.");
    assert_eq!(rr.ttl(), 120);
    match rr.as_enum() {
        Some(Ok(Record::PTR(p))) => assert_eq!(p.ptrdname().to_string(), "My Service._svc._tcp.local."),
        other => panic!("unexpected: {:?}", other),
    }
}

#[test]
fn advertiser_answers_address_and_all() {
    let adv = advertiser();
    let packet = query(&domain("h.local"), QType::A, Header::default());
    let resp = adv.handle_packet(&packet).unwrap().unwrap();
    let dec = MessageDecoder::new(&resp).unwrap();
    let mut dec = dec.answers().unwrap();
    match dec.next_rr().unwrap().unwrap().as_enum() {
        Some(Ok(Record::A(a))) => assert_eq!(a.addr(), [192, 0, 2, 1]),
        other => panic!("unexpected: {:?}", other),
    }
    // SRV and TXT at the instance's name
    let packet = query(&domain("My Service._svc._tcp.local"), QType::ALL, Header::default());
    let resp = adv.handle_packet(&packet).unwrap().unwrap();
    let dec = MessageDecoder::new(&resp).unwrap();
    assert_eq!(dec.header().answer_count(), 2);
    // the discovery meta-domain lists the service
    let packet = query(&domain("_services._dns-sd._udp.local"), QType::PTR, Header::default());
    let resp = adv.handle_packet(&packet).unwrap().unwrap();
    let records = decode_answer(&resp).unwrap();
    let mut seen = SeenServices::new();
    let svc = seen.note(&records[0]).unwrap();
    assert_eq!(svc.name().as_bytes(), b"_svc");
    assert_eq!(svc.transport(), ServiceTransport::TCP);
}

#[test]
fn advertiser_ignores_what_it_should() {
    let adv = advertiser();
    let packet = query(&domain("other.local"), QType::A, Header::default());
    assert_eq!(adv.handle_packet(&packet), Ok(None));
    let mut h = Header::default();
    h.set_response(true);
    let packet = query(&domain("h.local"), QType::A, h);
    assert_eq!(adv.handle_packet(&packet), Ok(None));
    let mut h = Header::default();
    h.set_opcode(Opcode::STATUS);
    let packet = query(&domain("h.local"), QType::A, h);
    assert_eq!(adv.handle_packet(&packet), Ok(None));
    let mut h = Header::default();
    h.set_rcode(uwuhi::packet::RCode::REFUSED);
    let packet = query(&domain("h.local"), QType::A, h);
    assert_eq!(adv.handle_packet(&packet), Ok(None));
    let mut enc = MessageEncoder::new(vec![0; 512]);
    let name = domain("h.local");
    enc.question(Question::new(&name).ty(QType::A).class(QClass::CH));
    let (buf, res) = enc.finish();
    assert_eq!(adv.handle_packet(&buf[..res.unwrap()]), Ok(None));
    assert_eq!(adv.handle_packet(&[0; 5]), Err(Error::Eof));
}

#[test]
fn discovery_of_service_types() {
    let packet = parse("303984000001000100000000095f7365727669636573075f646e732d7364045f756470056c6f63616c00000c0001c00c000c00010000000a000e065f6361636865045f746370c023");
    let records = decode_answer(&packet).unwrap();
    assert_eq!(records.len(), 1);
    let mut seen = SeenServices::new();
    let mut calls = Vec::new();
    for _ in 0..2 {
        for rec in &records {
            if let Some(svc) = seen.note(rec) {
                calls.push(svc);
            }
        }
    }
    assert_eq!(calls.len(), 1);
    assert_eq!(calls[0].name().as_bytes(), b"_cache");
    assert_eq!(calls[0].transport(), ServiceTransport::TCP);
    // a query has no answers to hand on
    let query = parse("303900000001000000000000095f7365727669636573075f646e732d7364045f756470056c6f63616c00000c0001");
    assert!(decode_answer(&query).unwrap().is_empty());
}

#[test]
fn discovery_timeouts() {
    assert_eq!(discovery_action(1000, 1000, ReceiveOutcome::TimedOut), DiscoveryAction::Finish);
    assert_eq!(discovery_action(300, 1000, ReceiveOutcome::TimedOut), DiscoveryAction::Send);
    assert_eq!(discovery_action(300, 1000, ReceiveOutcome::Received), DiscoveryAction::Receive);
    assert_eq!(discovery_action(300, 1000, ReceiveOutcome::Stopped), DiscoveryAction::Finish);
}

#[test]
fn discovery_names_and_queries() {
    let local = domain("local");
    assert_eq!(service_types_domain(&local).to_string(), "_services._dns-sd._udp.local.");
    let svc = Service::new(Label::new(b"_http"), ServiceTransport::Other);
    assert_eq!(instances_domain(&svc, &local).to_string(), "_http._udp.local.");
    let inst = ServiceInstance::from_service(Label::new(b"web"), svc);
    assert_eq!(instance_domain(&inst, &local).to_string(), "web._http._udp.local.");
    let q = encode_query(&local, &[QType::SRV, QType::TXT]);
    let mut dec = MessageDecoder::new(&q).unwrap();
    assert_eq!(dec.header().id(), 12345);
    assert_eq!(dec.header().question_count(), 2);
    assert_eq!(dec.next().unwrap().unwrap().qtype(), QType::SRV);
    assert_eq!(dec.next().unwrap().unwrap().qtype(), QType::TXT);
}

#[test]
fn service_from_ptr() {
    let ptr = PTR::new(domain("_cache._tcp.local"));
    assert_eq!(Service::from_ptr(&ptr).unwrap().name().as_bytes(), b"_cache");
    assert_eq!(Service::from_ptr(&PTR::new(domain("_cache._tcp"))).unwrap_err(), Error::Eof);
    assert_eq!(
        Service::from_ptr(&PTR::new(domain("_cache._sctp.local"))).unwrap_err(),
        Error::InvalidValue
    );
    let inst = ServiceInstance::from_ptr(&PTR::new(domain("web._http._udp.local"))).unwrap();
    assert_eq!(inst.instance_name().as_bytes(), b"web");
    assert_eq!(inst.service_name().as_bytes(), b"_http");
    assert_eq!(inst.service_transport(), ServiceTransport::Other);
    assert_eq!(
        ServiceInstance::from_ptr(&PTR::new(domain("_http._udp.local"))).unwrap_err(),
        Error::Eof
    );
    let mut seen = SeenInstances::new();
    let rec = Record::PTR(PTR::new(domain("web._http._udp.local")));
    assert!(seen.note(&rec).is_some());
    assert!(seen.note(&rec).is_none());
}

#[test]
fn txt_records() {
    let txt = TXT::new(vec![
        b"Path=/x".to_vec(),
        b"flag".to_vec(),
        b"path=/y".to_vec(),
        vec![0xff, b'=', b'1'],
        b"e=".to_vec(),
    ]);
    let recs = TxtRecords::from_txt(&txt);
    assert_eq!(recs.len(), 3);
    match recs.get("PATH") {
        Some(TxtRecordValue::Value(v)) => assert_eq!(v, b"/x"),
        other => panic!("unexpected: {:?}", other),
    }
    assert!(matches!(recs.get("flag"), Some(TxtRecordValue::NoValue)));
    assert!(matches!(recs.get("e"), Some(TxtRecordValue::Value(b""))));
    assert!(recs.get("missing").is_none());
    let keys: Vec<&[u8]> = recs.iter().iter().map(|(k, _)| *k).collect();
    assert_eq!(keys, vec![&b"Path"[..], &b"flag"[..], &b"e"[..]]);
    let mut recs = recs;
    recs.add_flag("FLAG");
    recs.add_flag("new");
    assert_eq!(recs.len(), 4);
    assert_eq!(recs.key(1), b"FLAG");
    assert!(TxtRecords::new().is_empty());
}

#[test]
fn instance_details_from_answers() {
    let mut c = DetailsCollector::new();
    let txt = Record::TXT(TXT::new(vec![b"a=1".to_vec()]));
    assert!(!c.on_record(&txt));
    let later = Record::TXT(TXT::new(vec![b"a=2".to_vec()]));
    assert!(!c.on_record(&later));
    assert!(!c.on_record(&Record::A(A::new([1, 2, 3, 4]))));
    assert!(c.on_record(&Record::SRV(SRV::new(0, 0, 8080, domain("host.local")))));
    let det = c.finish().unwrap();
    assert_eq!(det.host().to_string(), "host.local.");
    assert_eq!(det.port(), 8080);
    assert!(matches!(det.txt_records().get("a"), Some(TxtRecordValue::Value(b"1"))));
    assert!(DetailsCollector::new().finish().is_none());
    let det = InstanceDetails::from_srv(&SRV::new(1, 2, 3, domain("x"))).unwrap();
    assert_eq!(det.port(), 3);
    assert!(det.txt_records().is_empty());
}

#[test]
fn advertised_txt_entries() {
    let mut adv = Advertiser::new(Label::new(b"h"), IpAddress::V6([0; 16]));
    let mut details = InstanceDetails::new(domain("h.local"), 80);
    let mut txt = TxtRecords::new();
    txt.add_flag("x");
    details.set_txt_records(txt);
    let inst = ServiceInstance::new(Label::new(b"i"), Label::new(b"_web"), ServiceTransport::TCP);
    adv.add_instance(inst, details);
    assert_eq!(adv.len(), 5);
    match &adv.entry(2).record {
        Record::TXT(t) => assert_eq!(t.entries(), &[b"x".to_vec()]),
        other => panic!("unexpected: {:?}", other),
    }
    let packet = query(&domain("i._web._tcp.local"), QType::TXT, Header::default());
    let resp = adv.handle_packet(&packet).unwrap().unwrap();
    let records = decode_answer(&resp).unwrap();
    assert_eq!(records.len(), 1);
    let owner = domain("a");
    let resp_ptr = ResourceRecord::new(&owner, &records[0]).ttl(1);
    assert_eq!(resp_ptr.ttl, 1);
}

#[test]
fn advertiser_truncated_response_counts_written_answers() {
    let mut adv = Advertiser::new(Label::new(b"h"), IpAddress::V4([192, 0, 2, 1]));
    for i in 0..70u8 {
        adv.add_name(Label::new(b"h"), IpAddress::V4([10, 0, 0, i]));
    }
    let packet = query(&domain("h.local"), QType::A, Header::default());
    let resp = adv.handle_packet(&packet).unwrap().unwrap();
    assert_eq!(resp.len(), uwuhi::MDNS_BUFFER_SIZE);
    let dec = MessageDecoder::new(&resp).unwrap();
    assert!(dec.header().is_truncated());
    // each answer takes 23 bytes: 64 of them fit after the header
    assert_eq!(dec.header().answer_count(), 64);
    let mut dec = dec.answers().unwrap();
    let mut n = 0;
    while let Some(rr) = dec.next_rr() {
        assert!(rr.is_ok());
        n += 1;
    }
    assert_eq!(n, 64);
}
