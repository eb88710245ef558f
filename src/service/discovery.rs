//! DNS-based service discovery: queries, the answers they bring, and what is made of them.
use crate::name::{DomainName, Label};
use crate::packet::decoder::{DecoderView, MessageDecoder, header_at, rr_at, advance_view};
use crate::packet::encoder::{EncoderView, MessageEncoder, Question, header_wire, message_wire, name_wire, question_wire};
use crate::packet::error::Error;
use crate::packet::records::{Record, RecordModel, record_at};
use crate::packet::{FLAG_QR, FLAG_TC, Header, QClass, QType, Section, Type, flag_set, with_flag};
use crate::service::{InstanceDetails, Service, ServiceInstance, TxtRecords, transport_label, txt_records_of};
use crate::MDNS_BUFFER_SIZE;
use vstd::prelude::*;

verus! {

/// The message ID of discovery and resolver queries.
pub const QUERY_ID: u16 = 12345;

/// The questions for `name` of each type in `qtypes`, in order.
pub open spec fn questions_wire(name: Seq<Seq<u8>>, qtypes: Seq<QType>) -> Seq<u8>
    decreases qtypes.len(),
{
    if qtypes.len() == 0 {
        seq![]
    } else {
        questions_wire(name, qtypes.drop_last()) + question_wire(name, qtypes.last(), QClass::IN)
    }
}

/// A query with ID `QUERY_ID` and flags `flags` (truncation flag clear) that asks for `name`
/// with each type in `qtypes`.
pub open spec fn query_wire(flags: u16, name: Seq<Seq<u8>>, qtypes: Seq<QType>) -> Seq<u8> {
    header_wire(
        Header {
            id: QUERY_ID,
            flags: with_flag(flags, FLAG_TC, false),
            qdcount: qtypes.len() as u16,
            ancount: 0,
            nscount: 0,
            arcount: 0,
        },
    ) + questions_wire(name, qtypes)
}

/// Whether a query for `name` with `n` questions fits an mDNS buffer.
pub open spec fn query_fits(name: Seq<Seq<u8>>, n: nat) -> bool {
    12 + n * (name_wire(name).len() + 4) <= MDNS_BUFFER_SIZE
}

/// Encodes a query for `domain` with one question (class `IN`) per type in `qtypes`, with
/// `flags` in its header.
pub fn encode_query_with(domain: &DomainName, qtypes: &[QType], flags: u16) -> (r: Vec<u8>)
    requires
        query_fits(domain@, qtypes@.len()),
    ensures
        r@ == query_wire(flags, domain@, qtypes@),
{
    let mut header = Header::new();
    header.set_id(QUERY_ID);
    header.flags = flags;
    let buf: Vec<u8> = vec![0u8; MDNS_BUFFER_SIZE];
    let mut enc = MessageEncoder::new(buf);
    enc.set_header(header);
    let ghost base = enc@;
    let mut i: usize = 0;
    while i < qtypes.len()
        invariant
            i <= qtypes@.len(),
            query_fits(domain@, qtypes@.len()),
            base.buf.len() == MDNS_BUFFER_SIZE,
            enc@ == (EncoderView {
                body: questions_wire(domain@, qtypes@.subrange(0, i as int)),
                qdcount: i as u16,
                ..base
            }),
            base.qdcount == 0,
            base.section == Section::Question,
            questions_wire(domain@, qtypes@.subrange(0, i as int)).len() == i * (name_wire(
                domain@,
            ).len() + 4),
        decreases qtypes@.len() - i,
    {
        proof {
            assert(qtypes@.subrange(0, i + 1).drop_last() =~= qtypes@.subrange(0, i as int));
            assert(qtypes@.subrange(0, i + 1).last() == qtypes@[i as int]);
            assert(i * (name_wire(domain@).len() + 4) + (name_wire(domain@).len() + 4) == (i + 1) * (
            name_wire(domain@).len() + 4)) by (nonlinear_arith);
            assert((i + 1) * (name_wire(domain@).len() + 4) <= qtypes@.len() * (name_wire(
                domain@,
            ).len() + 4)) by (nonlinear_arith)
                requires
                    i + 1 <= qtypes@.len(),
            ;
            assert(i < 0xffff) by (nonlinear_arith)
                requires
                    i < qtypes@.len(),
                    12 + qtypes@.len() * (name_wire(domain@).len() + 4) <= 1500,
            ;
        }
        let qt = qtypes[i];
        let q = Question::new(domain).ty(qt);
        proof {
            assert(q.name@ == domain@);
            assert(q.ty == qtypes@[i as int]);
            assert(q.class == QClass::IN);
        }
        enc.question(q);
        proof {
            assert(enc@.body =~= questions_wire(domain@, qtypes@.subrange(0, i + 1)));
        }
        i = i + 1;
    }
    proof {
        assert(qtypes@.subrange(0, qtypes@.len() as int) =~= qtypes@);
    }
    let (buf, res) = enc.finish();
    let n: usize = match res {
        Ok(n) => n,
        Err(_) => buf.len(),
    };
    proof {
        assert(message_wire(enc@) =~= query_wire(flags, domain@, qtypes@));
    }
    vstd::slice::slice_to_vec(vstd::slice::slice_subrange(buf.as_slice(), 0, n))
}

/// Encodes a discovery query for `domain`: ID `QUERY_ID`, no flags, one question per type in
/// `qtypes`.
pub fn encode_query(domain: &DomainName, qtypes: &[QType]) -> (r: Vec<u8>)
    requires
        query_fits(domain@, qtypes@.len()),
    ensures
        r@ == query_wire(0, domain@, qtypes@),
{
    encode_query_with(domain, qtypes, 0)
}


/// The decoder's state right after reading the header of message `d`.
pub open spec fn initial_view(d: Seq<u8>) -> DecoderView {
    DecoderView {
        header: header_at(d),
        q_remaining: header_at(d).qdcount,
        ans_remaining: header_at(d).ancount,
        auth_remaining: header_at(d).nscount,
        addl_remaining: header_at(d).arcount,
        data: d,
        at: 12,
        error: None,
        section: Section::Question,
    }
}

/// The record that the resource record `m` of message `d` holds, where its type is supported
/// and it decodes.
pub open spec fn supported_record(d: Seq<u8>, m: (Seq<Seq<u8>>, u16, u16, u32, int, int)) -> Option<RecordModel> {
    match record_at(Type::spec_from_code(m.1), d.subrange(0, m.4 + m.5), m.4) {
        Some(Ok(r)) => Some(r),
        _ => None,
    }
}

/// The record of `r`, if any, as a sequence of zero or one.
pub open spec fn record_list(r: Option<RecordModel>) -> Seq<RecordModel> {
    match r {
        Some(x) => seq![x],
        None => seq![],
    }
}

/// The supported records among the `n` resource records at `p`, in order; reading stops at a
/// resource record that does not decode, and records whose data does not decode are skipped.
pub open spec fn answer_records(d: Seq<u8>, p: int, n: nat) -> Seq<RecordModel>
    decreases n,
{
    if n == 0 {
        seq![]
    } else {
        match rr_at(d, p) {
            Err(_) => seq![],
            Ok(m) => record_list(supported_record(d, m)) + answer_records(d, m.4 + m.5, (n - 1) as nat),
        }
    }
}

/// The supported records of the *Answer* section of response `d`; none for a query.
pub open spec fn answers_of(d: Seq<u8>) -> Result<Seq<RecordModel>, Error> {
    if d.len() < 12 {
        Err(Error::Eof)
    } else if !flag_set(header_at(d).flags, FLAG_QR) {
        Ok(seq![])
    } else {
        match advance_view(initial_view(d), Section::Answer) {
            Ok(v) => Ok(answer_records(d, v.at, v.ans_remaining as nat)),
            Err(e) => Err(e),
        }
    }
}

/// The records that remain to be read from decoder state `v` in the *Answer* section.
pub open spec fn remaining_answers(v: DecoderView) -> Seq<RecordModel> {
    if v.error is Some {
        seq![]
    } else {
        answer_records(v.data, v.at, v.ans_remaining as nat)
    }
}

/// Decodes a response and returns the supported records of its *Answer* section, in order.
///
/// A message that is not a response has no answers here; a resource record that does not decode
/// ends the section, and a record of a supported type whose data does not decode is skipped.
pub fn decode_answer(recv: &[u8]) -> (r: Result<Vec<Record>, Error>)
    ensures
        match answers_of(recv@) {
            Ok(ms) => r is Ok && r->Ok_0@.map_values(|x: Record| x@) == ms,
            Err(e) => r is Err && r->Err_0 == e,
        },
{
    let dec = MessageDecoder::new(recv)?;
    if !dec.header().is_response() {
        let v: Vec<Record> = Vec::new();
        proof {
            assert(v@.map_values(|x: Record| x@) =~= Seq::<RecordModel>::empty());
        }
        return Ok(v);
    }
    proof {
        crate::packet::decoder::lemma_advance(initial_view(recv@), Section::Answer);
    }
    let mut dec = dec.answers()?;
    let ghost v0 = dec@;
    let mut out: Vec<Record> = Vec::new();
    let mut done = false;
    proof {
        assert(out@.map_values(|x: Record| x@) + remaining_answers(dec@) =~= remaining_answers(dec@));
    }
    while !done
        invariant
            dec@.section == Section::Answer,
            dec@.data == recv@,
            v0.error is None,
            done ==> remaining_answers(dec@) == Seq::<RecordModel>::empty(),
            remaining_answers(v0) == out@.map_values(|x: Record| x@) + remaining_answers(dec@),
        decreases dec@.ans_remaining, if done { 0int } else { 1int },
    {
        let ghost dv = dec@;
        match dec.next_rr() {
            None => {
                done = true;
            },
            Some(Err(_)) => {
                proof {
                    assert(answer_records(dv.data, dv.at, dv.ans_remaining as nat) =~= Seq::<RecordModel>::empty());
                }
                done = true;
            },
            Some(Ok(rr)) => {
                let ghost m = rr_at(dv.data, dv.at)->Ok_0;
                let ghost before = out@.map_values(|x: Record| x@);
                match rr.as_enum() {
                    Some(Ok(rec)) => {
                        out.push(rec);
                        proof {
                            assert(out@.map_values(|x: Record| x@) =~= before.push(rec@));
                            assert(before.push(rec@) + remaining_answers(dec@) =~= before + (seq![rec@] + remaining_answers(dec@)));
                        }
                    },
                    _ => {
                        proof {
                            assert(before + (Seq::<RecordModel>::empty() + remaining_answers(dec@)) =~= before + remaining_answers(dec@));
                        }
                    },
                }
            },
        }
    }
    proof {
        assert(out@.map_values(|x: Record| x@) + Seq::<RecordModel>::empty() =~= out@.map_values(|x: Record| x@));
    }
    Ok(out)
}

/// The labels `_services._dns-sd._udp`, which lead the discovery meta-domain.
pub open spec fn meta_labels() -> Seq<Seq<u8>> {
    seq![
        seq![95u8, 115u8, 101u8, 114u8, 118u8, 105u8, 99u8, 101u8, 115u8],
        seq![95u8, 100u8, 110u8, 115u8, 45u8, 115u8, 100u8],
        seq![95u8, 117u8, 100u8, 112u8],
    ]
}

/// The name whose `PTR` records list the service types of `domain`:
/// `_services._dns-sd._udp.<domain>`.
pub fn service_types_domain(domain: &DomainName) -> (r: DomainName)
    ensures
        r@ == meta_labels() + domain@,
{
    let l1: [u8; 9] = [95, 115, 101, 114, 118, 105, 99, 101, 115];
    let l2: [u8; 7] = [95, 100, 110, 115, 45, 115, 100];
    let l3: [u8; 4] = [95, 117, 100, 112];
    let mut n = DomainName::root();
    n.push_label(Label::new(l1.as_slice()));
    n.push_label(Label::new(l2.as_slice()));
    n.push_label(Label::new(l3.as_slice()));
    proof {
        assert(n@ =~= meta_labels());
    }
    n.extend(domain);
    n
}

/// The name whose `PTR` records list the instances of `service` in `domain`.
pub fn instances_domain(service: &Service, domain: &DomainName) -> (r: DomainName)
    ensures
        r@ == seq![service.name@, transport_label(service.transport)] + domain@,
{
    let mut n = service.to_name();
    n.extend(domain);
    n
}

/// The name of `instance` in `domain`, which holds its `SRV` and `TXT` records.
pub fn instance_domain(instance: &ServiceInstance, domain: &DomainName) -> (r: DomainName)
    ensures
        r@ == seq![instance.instance_name@, instance.service.name@, transport_label(instance.service.transport)]
            + domain@,
{
    let mut n = instance.to_name();
    n.extend(domain);
    n
}

/// The service types seen so far in a discovery, each once.
#[derive(Debug)]
pub struct SeenServices {
    seen: Vec<Service>,
}

impl SeenServices {
    /// The services seen, in the order they were first seen.
    pub closed spec fn spec_seen(&self) -> Seq<(Seq<u8>, crate::service::ServiceTransport)> {
        self.seen@.map_values(|s: Service| s@)
    }

    /// Nothing seen yet.
    pub fn new() -> (r: SeenServices)
        ensures
            r.spec_seen() == Seq::<(Seq<u8>, crate::service::ServiceTransport)>::empty(),
    {
        let r = SeenServices { seen: Vec::new() };
        proof {
            assert(r.spec_seen() =~= Seq::<(Seq<u8>, crate::service::ServiceTransport)>::empty());
        }
        r
    }

    /// The service that an answer lists, if it is a `PTR` record naming a service not seen
    /// before; that service is then seen.
    pub fn note(&mut self, rec: &Record) -> (r: Option<Service>)
        ensures
            match rec@ {
                RecordModel::PTR(n) => match crate::service::service_of_name(n) {
                    Ok(svc) => if old(self).spec_seen().contains(svc) {
                        r is None && final(self).spec_seen() == old(self).spec_seen()
                    } else {
                        r is Some && r->Some_0@ == svc && final(self).spec_seen() == old(
                            self,
                        ).spec_seen().push(svc)
                    },
                    Err(_) => r is None && final(self).spec_seen() == old(self).spec_seen(),
                },
                _ => r is None && final(self).spec_seen() == old(self).spec_seen(),
            },
    {
        let ptr = match rec {
            Record::PTR(p) => p,
            _ => {
                return None;
            },
        };
        let svc = match Service::from_ptr(ptr) {
            Ok(s) => s,
            Err(_) => {
                return None;
            },
        };
        let mut i: usize = 0;
        while i < self.seen.len()
            invariant
                *self == *old(self),
                rec@ == RecordModel::PTR(ptr.ptrdname@),
                svc@ == crate::service::service_of_name(ptr.ptrdname@)->Ok_0,
                i <= self.spec_seen().len(),
                self.spec_seen().len() == self.seen@.len(),
                forall|k: int| 0 <= k < i ==> self.spec_seen()[k] != svc@,
            decreases self.seen@.len() - i,
        {
            proof {
                assert(self.spec_seen()[i as int] == self.seen@[i as int]@);
            }
            if self.seen[i] == svc {
                proof {
                    assert(self.spec_seen().contains(svc@));
                }
                return None;
            }
            i = i + 1;
        }
        let ghost before = self.spec_seen();
        self.seen.push(svc.clone());
        proof {
            assert(self.spec_seen() =~= before.push(svc@));
        }
        Some(svc)
    }
}

/// The service instances seen so far in a discovery, each once.
#[derive(Debug)]
pub struct SeenInstances {
    seen: Vec<ServiceInstance>,
}

impl SeenInstances {
    /// The instances seen, in the order they were first seen.
    pub closed spec fn spec_seen(&self) -> Seq<(Seq<u8>, Seq<u8>, crate::service::ServiceTransport)> {
        self.seen@.map_values(|s: ServiceInstance| s@)
    }

    /// Nothing seen yet.
    pub fn new() -> (r: SeenInstances)
        ensures
            r.spec_seen() == Seq::<(Seq<u8>, Seq<u8>, crate::service::ServiceTransport)>::empty(),
    {
        let r = SeenInstances { seen: Vec::new() };
        proof {
            assert(r.spec_seen() =~= Seq::<(Seq<u8>, Seq<u8>, crate::service::ServiceTransport)>::empty());
        }
        r
    }

    /// The instance that an answer lists, if it is a `PTR` record naming an instance not seen
    /// before; that instance is then seen.
    pub fn note(&mut self, rec: &Record) -> (r: Option<ServiceInstance>)
        ensures
            match rec@ {
                RecordModel::PTR(n) => match crate::service::instance_of_name(n) {
                    Ok(inst) => if old(self).spec_seen().contains(inst) {
                        r is None && final(self).spec_seen() == old(self).spec_seen()
                    } else {
                        r is Some && r->Some_0@ == inst && final(self).spec_seen() == old(
                            self,
                        ).spec_seen().push(inst)
                    },
                    Err(_) => r is None && final(self).spec_seen() == old(self).spec_seen(),
                },
                _ => r is None && final(self).spec_seen() == old(self).spec_seen(),
            },
    {
        let ptr = match rec {
            Record::PTR(p) => p,
            _ => {
                return None;
            },
        };
        let inst = match ServiceInstance::from_ptr(ptr) {
            Ok(s) => s,
            Err(_) => {
                return None;
            },
        };
        let mut i: usize = 0;
        while i < self.seen.len()
            invariant
                *self == *old(self),
                rec@ == RecordModel::PTR(ptr.ptrdname@),
                inst@ == crate::service::instance_of_name(ptr.ptrdname@)->Ok_0,
                i <= self.spec_seen().len(),
                self.spec_seen().len() == self.seen@.len(),
                forall|k: int| 0 <= k < i ==> self.spec_seen()[k] != inst@,
            decreases self.seen@.len() - i,
        {
            proof {
                assert(self.spec_seen()[i as int] == self.seen@[i as int]@);
            }
            if self.seen[i] == inst {
                proof {
                    assert(self.spec_seen().contains(inst@));
                }
                return None;
            }
            i = i + 1;
        }
        let ghost before = self.spec_seen();
        self.seen.push(inst.clone());
        proof {
            assert(self.spec_seen() =~= before.push(inst@));
        }
        Some(inst)
    }
}

/// Gathers the details of a service instance from the answers to its `SRV` and `TXT` query.
///
/// The first `SRV` record gives the host and port and ends the gathering; the first `TXT` record
/// gives the metadata.
#[derive(Debug)]
pub struct DetailsCollector {
    details: Option<InstanceDetails>,
    txt: Option<TxtRecords>,
}

impl DetailsCollector {
    #[verifier::type_invariant]
    spec fn inv(self) -> bool {
        self.details is Some ==> self.details->Some_0.txt@.len() == 0
    }

    /// Whether an `SRV` record was seen.
    pub closed spec fn has_srv(&self) -> bool {
        self.details is Some
    }

    /// The host of the first `SRV` record.
    pub closed spec fn spec_host(&self) -> Seq<Seq<u8>> {
        self.details->Some_0.host@
    }

    /// The port of the first `SRV` record.
    pub closed spec fn spec_port(&self) -> u16 {
        self.details->Some_0.port
    }

    /// The metadata of the first `TXT` record seen, if any.
    pub closed spec fn spec_txt(&self) -> Option<Seq<(Seq<u8>, Option<Seq<u8>>)>> {
        match &self.txt {
            Some(t) => Some(t@),
            None => None,
        }
    }

    /// Nothing gathered yet.
    pub fn new() -> (r: DetailsCollector)
        ensures
            !r.has_srv(),
            r.spec_txt() is None,
    {
        DetailsCollector { details: None, txt: None }
    }

    /// Takes in one answer; returns whether gathering is done (an `SRV` record arrived).
    pub fn on_record(&mut self, rec: &Record) -> (stop: bool)
        requires
            !old(self).has_srv(),
        ensures
            match rec {
                Record::SRV(srv) => stop && final(self).has_srv() && final(self).spec_host()
                    == srv.target@ && final(self).spec_port() == srv.port && final(self).spec_txt()
                    == old(self).spec_txt(),
                Record::TXT(txt) => !stop && !final(self).has_srv() && final(self).spec_txt() == if old(
                    self,
                ).spec_txt() is None {
                    Some(txt_records_of(txt.spec_entries()))
                } else {
                    old(self).spec_txt()
                },
                _ => !stop && !final(self).has_srv() && final(self).spec_txt() == old(
                    self,
                ).spec_txt(),
            },
    {
        match rec {
            Record::SRV(srv) => {
                match InstanceDetails::from_srv(srv) {
                    Ok(det) => {
                        self.details = Some(det);
                        true
                    },
                    Err(_) => false,
                }
            },
            Record::TXT(txt) => {
                if self.txt.is_none() {
                    self.txt = Some(TxtRecords::from_txt(txt));
                }
                false
            },
            _ => false,
        }
    }

    /// The details gathered: none without an `SRV` record.
    pub fn finish(self) -> (r: Option<InstanceDetails>)
        ensures
            !self.has_srv() ==> r is None,
            self.has_srv() ==> r is Some && r->Some_0.host@ == self.spec_host() && r->Some_0.port
                == self.spec_port() && match self.spec_txt() {
                Some(t) => r->Some_0.txt@ == t,
                None => r->Some_0.txt@ == Seq::<(Seq<u8>, Option<Seq<u8>>)>::empty(),
            },
    {
        proof {
            use_type_invariant(&self);
        }
        match self.details {
            Some(mut det) => {
                if let Some(txt) = self.txt {
                    det.set_txt_records(txt);
                }
                Some(det)
            },
            None => None,
        }
    }
}

/// What a discovery does next.
#[derive(Clone, Copy, Debug, PartialEq, Eq, Structural)]
pub enum DiscoveryAction {
    /// Send the query (again).
    Send,
    /// Wait for the next datagram.
    Receive,
    /// End the discovery successfully.
    Finish,
}

/// How the last wait for a datagram ended.
#[derive(Clone, Copy, Debug, PartialEq, Eq, Structural)]
pub enum ReceiveOutcome {
    /// No datagram came before the retransmit timeout.
    TimedOut,
    /// A datagram came and was handled; discovery goes on.
    Received,
    /// A datagram came and its handling asked to stop.
    Stopped,
}

/// The next step of a discovery, `elapsed_ms` after its first query with an overall deadline of
/// `timeout_ms`: past the deadline or when asked to stop it ends; after a retransmit timeout it
/// sends the query again; otherwise it waits for more.
pub fn discovery_action(elapsed_ms: u64, timeout_ms: u64, last: ReceiveOutcome) -> (r: DiscoveryAction)
    ensures
        last == ReceiveOutcome::Stopped ==> r == DiscoveryAction::Finish,
        last != ReceiveOutcome::Stopped && elapsed_ms >= timeout_ms ==> r == DiscoveryAction::Finish,
        last == ReceiveOutcome::TimedOut && elapsed_ms < timeout_ms ==> r == DiscoveryAction::Send,
        last == ReceiveOutcome::Received && elapsed_ms < timeout_ms ==> r == DiscoveryAction::Receive,
{
    match last {
        ReceiveOutcome::Stopped => DiscoveryAction::Finish,
        _ => if elapsed_ms >= timeout_ms {
            DiscoveryAction::Finish
        } else if last == ReceiveOutcome::TimedOut {
            DiscoveryAction::Send
        } else {
            DiscoveryAction::Receive
        },
    }
}
} // verus!
