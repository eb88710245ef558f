//! Service advertising: answers queries for the names and service instances it holds.
use crate::name::{DomainName, Label};
use crate::packet::decoder::{MessageDecoder, class_bits, question_at};
use crate::packet::encoder::{EncoderView, MessageEncoder, ResourceRecord, lemma_name_wire_len, message_wire, name_wire, rr_wire, strings_wire};
use crate::packet::error::Error;
use crate::packet::records::{A, AAAA, PTR, Record, RecordModel, SRV, TXT, encodable, model_type, rdata_wire, strings_fit};
use crate::packet::{Class, FLAG_AA, FLAG_QR, Header, Opcode, QClass, QType, RCode, Section, opcode_bits, rcode_bits, flag_set, with_flag};
use crate::service::{InstanceDetails, ServiceInstance, TxtRecordValue, local, local_label, transport_label};
use crate::{IpAddress, MDNS_BUFFER_SIZE};
use vstd::prelude::*;

verus! {

/// The time to live of advertised records, in seconds.
pub const TTL: u32 = 120;

/// A record the advertiser answers with, as plain values.
pub struct EntryModel {
    pub name: Seq<Seq<u8>>,
    pub class: Class,
    pub ttl: u32,
    pub record: RecordModel,
}

/// A record that can go into a response.
pub open spec fn entry_ok(e: EntryModel) -> bool {
    encodable(e.record) && rdata_wire(e.record).len() <= 0xffff
}

/// A question, as its name, raw type and raw class.
pub type QuestionModel = (Seq<Seq<u8>>, u16, u16);

/// Whether entry `e` answers question `q`: class, type and name all match.
pub open spec fn entry_matches(q: QuestionModel, e: EntryModel) -> bool {
    &&& QClass::spec_from_code(class_bits(q.2)).spec_matches(e.class)
    &&& QType::spec_from_code(q.1).spec_matches(model_type(e.record))
    &&& q.0 == e.name
}

/// The positions in `db` of the entries that answer `q`, in order.
#[verifier::opaque]
pub open spec fn matches_for(q: QuestionModel, db: Seq<EntryModel>) -> Seq<int>
    decreases db.len(),
{
    if db.len() == 0 {
        seq![]
    } else {
        matches_for(q, db.drop_last()) + if entry_matches(q, db.last()) {
            seq![db.len() - 1]
        } else {
            seq![]
        }
    }
}

/// The positions of the answers to the questions `qs`, question by question.
#[verifier::opaque]
pub open spec fn all_matches(qs: Seq<QuestionModel>, db: Seq<EntryModel>) -> Seq<int>
    decreases qs.len(),
{
    if qs.len() == 0 {
        seq![]
    } else {
        all_matches(qs.drop_last(), db) + matches_for(qs.last(), db)
    }
}

/// The resource records of the entries at positions `idx`.
#[verifier::opaque]
pub open spec fn answers_wire(db: Seq<EntryModel>, idx: Seq<int>) -> Seq<u8>
    decreases idx.len(),
{
    if idx.len() == 0 {
        seq![]
    } else {
        let e = db[idx.last()];
        answers_wire(db, idx.drop_last()) + rr_wire(e.name, e.class, e.ttl, e.record)
    }
}

/// The `n` questions at `p`, or the first error met.
#[verifier::opaque]
pub open spec fn questions_at(d: Seq<u8>, p: int, n: nat) -> Result<Seq<QuestionModel>, Error>
    decreases n,
{
    if n == 0 {
        Ok(seq![])
    } else {
        match question_at(d, p) {
            Ok(m) => match questions_at(d, m.3, (n - 1) as nat) {
                Ok(rest) => Ok(seq![(m.0, m.1, m.2)] + rest),
                Err(e) => Err(e),
            },
            Err(e) => Err(e),
        }
    }
}

/// The answers that go into a response: at most 65535, the most that the header can count.
#[verifier::opaque]
pub open spec fn capped(idx: Seq<int>) -> Seq<int> {
    if idx.len() <= 0xffff {
        idx
    } else {
        idx.subrange(0, 0xffff)
    }
}

/// How many of the answers at positions `idx` fit whole into a response of `MDNS_BUFFER_SIZE`
/// bytes: those a truncated response counts.
#[verifier::opaque]
pub open spec fn written_count(db: Seq<EntryModel>, idx: Seq<int>) -> nat
    decreases idx.len(),
{
    if idx.len() == 0 {
        0
    } else if 12 + answers_wire(db, idx).len() <= MDNS_BUFFER_SIZE {
        idx.len()
    } else {
        written_count(db, idx.drop_last())
    }
}

proof fn lemma_written_le(db: Seq<EntryModel>, idx: Seq<int>)
    ensures
        written_count(db, idx) <= idx.len(),
    decreases idx.len(),
{
    reveal(written_count);
    if idx.len() > 0 {
        lemma_written_le(db, idx.drop_last());
    }
}

proof fn lemma_written_empty(db: Seq<EntryModel>)
    ensures
        written_count(db, Seq::<int>::empty()) == 0,
{
    reveal(written_count);
}

proof fn lemma_written_push(db: Seq<EntryModel>, idx: Seq<int>, j: int)
    ensures
        written_count(db, idx) <= idx.len(),
        written_count(db, idx.push(j)) == if 12 + answers_wire(db, idx.push(j)).len() <= MDNS_BUFFER_SIZE {
            idx.len() + 1
        } else {
            written_count(db, idx)
        },
        12 + answers_wire(db, idx.push(j)).len() <= MDNS_BUFFER_SIZE ==> written_count(db, idx) == idx.len(),
{
    lemma_written_le(db, idx);
    lemma_answers_push(db, idx, j);
    reveal(written_count);
    assert(idx.push(j).drop_last() =~= idx);
}

/// The header of the response to a query with ID `id`.
pub open spec fn response_header(id: u16) -> Header {
    Header {
        id,
        flags: with_flag(with_flag(0, FLAG_QR, true), FLAG_AA, true),
        qdcount: 0,
        ancount: 0,
        nscount: 0,
        arcount: 0,
    }
}

/// The response to `qs` from `db`, as it goes to a buffer of `cap` bytes.
pub open spec fn response_view(id: u16, qs: Seq<QuestionModel>, db: Seq<EntryModel>, cap: nat, buf: Seq<u8>) -> EncoderView {
    EncoderView {
        buf,
        header: response_header(id),
        body: answers_wire(db, capped(all_matches(qs, db))),
        qdcount: 0,
        ancount: written_count(db, capped(all_matches(qs, db))) as u16,
        nscount: 0,
        arcount: 0,
        section: Section::Answer,
    }
}

/// What the advertiser answers to `packet`: an error where the packet does not decode, no
/// response to what is not a plain query or asks for nothing it holds, and otherwise the
/// response, cut at `MDNS_BUFFER_SIZE` bytes and counting the answers that fit whole.
pub open spec fn response_to(packet: Seq<u8>, db: Seq<EntryModel>) -> Result<Option<Seq<u8>>, Error> {
    if packet.len() < 12 {
        Err(Error::Eof)
    } else {
        let h = crate::packet::decoder::header_at(packet);
        if flag_set(h.flags, FLAG_QR) || opcode_bits(h.flags) != 0 || rcode_bits(h.flags) != 0 {
            Ok(None)
        } else {
            match questions_at(packet, 12, h.qdcount as nat) {
                Err(e) => Err(e),
                Ok(qs) => if all_matches(qs, db).len() == 0 {
                    Ok(None)
                } else {
                    let msg = message_wire(
                        response_view(h.id, qs, db, MDNS_BUFFER_SIZE as nat, Seq::new(MDNS_BUFFER_SIZE as nat, |i: int| 0u8)),
                    );
                    Ok(Some(if msg.len() <= MDNS_BUFFER_SIZE { msg } else { msg.subrange(0, MDNS_BUFFER_SIZE as int) }))
                },
            }
        }
    }
}

/// `qs` followed by the questions of `r`, or the error of `r`.
pub open spec fn after_questions(qs: Seq<QuestionModel>, r: Result<Seq<QuestionModel>, Error>) -> Result<Seq<QuestionModel>, Error> {
    match r {
        Ok(rest) => Ok(qs + rest),
        Err(e) => Err(e),
    }
}

proof fn lemma_questions_zero(d: Seq<u8>, p: int)
    ensures
        questions_at(d, p, 0) == Ok::<Seq<QuestionModel>, Error>(Seq::<QuestionModel>::empty()),
{
    reveal(questions_at);
}

proof fn lemma_questions_err(d: Seq<u8>, p: int, n: nat)
    requires
        n > 0,
        question_at(d, p) is Err,
    ensures
        questions_at(d, p, n) == Err::<Seq<QuestionModel>, Error>(question_at(d, p)->Err_0),
{
    reveal(questions_at);
}

proof fn lemma_all_matches_empty(db: Seq<EntryModel>)
    ensures
        all_matches(Seq::<QuestionModel>::empty(), db) == Seq::<int>::empty(),
{
    reveal(all_matches);
}

proof fn lemma_matches_empty(q: QuestionModel)
    ensures
        matches_for(q, Seq::<EntryModel>::empty()) == Seq::<int>::empty(),
{
    reveal(matches_for);
}

proof fn lemma_matches_step(q: QuestionModel, db: Seq<EntryModel>, j: int)
    requires
        0 <= j < db.len(),
    ensures
        matches_for(q, db.subrange(0, j + 1)) == matches_for(q, db.subrange(0, j)) + if entry_matches(q, db[j]) {
            seq![j]
        } else {
            Seq::<int>::empty()
        },
{
    reveal(matches_for);
    let s = db.subrange(0, j + 1);
    assert(s.drop_last() =~= db.subrange(0, j));
    assert(s.last() == db[j]);
}

proof fn lemma_answers_empty(db: Seq<EntryModel>)
    ensures
        answers_wire(db, Seq::<int>::empty()) == Seq::<u8>::empty(),
        capped(Seq::<int>::empty()) == Seq::<int>::empty(),
{
    reveal(answers_wire);
    reveal(capped);
}

proof fn lemma_capped_len(s: Seq<int>)
    ensures
        capped(s).len() == if s.len() <= 0xffff { s.len() } else { 0xffff },
{
    reveal(capped);
}

proof fn lemma_capped_push(s: Seq<int>, j: int)
    ensures
        s.len() < 0xffff ==> capped(s.push(j)) == capped(s).push(j),
        s.len() >= 0xffff ==> capped(s.push(j)) == capped(s),
        capped(s).len() == if s.len() <= 0xffff { s.len() } else { 0xffff },
        capped(s.push(j)).len() == if s.len() + 1 <= 0xffff { s.len() + 1 } else { 0xffff },
{
    reveal(capped);
    if s.len() < 0xffff {
        assert(capped(s.push(j)) =~= capped(s).push(j));
    } else {
        assert(capped(s.push(j)) =~= capped(s));
    }
}

proof fn lemma_answers_push(db: Seq<EntryModel>, idx: Seq<int>, j: int)
    ensures
        answers_wire(db, idx.push(j)) == answers_wire(db, idx) + rr_wire(db[j].name, db[j].class, db[j].ttl, db[j].record),
{
    reveal(answers_wire);
    assert(idx.push(j).drop_last() =~= idx);
}

proof fn lemma_question_step(d: Seq<u8>, p: int, n: nat, qs: Seq<QuestionModel>)
    requires
        n > 0,
        question_at(d, p) is Ok,
    ensures
        after_questions(qs, questions_at(d, p, n)) == after_questions(
            qs.push((question_at(d, p)->Ok_0.0, question_at(d, p)->Ok_0.1, question_at(d, p)->Ok_0.2)),
            questions_at(d, question_at(d, p)->Ok_0.3, (n - 1) as nat),
        ),
{
    reveal(questions_at);
    let m = question_at(d, p)->Ok_0;
    match questions_at(d, m.3, (n - 1) as nat) {
        Ok(rest) => {
            assert(qs + (seq![(m.0, m.1, m.2)] + rest) =~= qs.push((m.0, m.1, m.2)) + rest);
        },
        Err(e) => {},
    }
}

proof fn lemma_all_matches_push(qs: Seq<QuestionModel>, q: QuestionModel, db: Seq<EntryModel>)
    ensures
        all_matches(qs.push(q), db) == all_matches(qs, db) + matches_for(q, db),
{
    reveal(all_matches);
    assert(qs.push(q).drop_last() =~= qs);
}

/// A record the advertiser answers with.
#[derive(Debug)]
pub struct Entry {
    pub name: DomainName,
    pub class: Class,
    pub ttl: u32,
    pub record: Record,
}

impl View for Entry {
    type V = EntryModel;

    open spec fn view(&self) -> EntryModel {
        EntryModel { name: self.name@, class: self.class, ttl: self.ttl, record: self.record@ }
    }
}

impl Entry {
    /// An entry of class `IN` with the advertiser's TTL.
    pub fn new(name: DomainName, record: Record) -> (r: Entry)
        ensures
            r@ == (EntryModel { name: name@, class: Class::IN, ttl: TTL, record: record@ }),
    {
        Entry { name, class: Class::IN, ttl: TTL, record }
    }
}

/// The advertiser's logic, without I/O: it holds a record database and answers queries.
pub struct Advertiser {
    discovery_domain: DomainName,
    db: Vec<Entry>,
}

impl Advertiser {
    /// The discovery meta-domain `_services._dns-sd._udp.local`.
    pub closed spec fn discovery(&self) -> Seq<Seq<u8>> {
        self.discovery_domain@
    }

    /// The records the advertiser answers with, in the order they were added.
    pub closed spec fn entries(&self) -> Seq<EntryModel> {
        self.db@.map_values(|e: Entry| e@)
    }

    /// Every record can go into a response.
    pub open spec fn wf(&self) -> bool {
        forall|i: int| 0 <= i < self.entries().len() ==> entry_ok(#[trigger] self.entries()[i])
    }
}


/// A TXT entry for one record: `key`, or `key=value`.
pub open spec fn txt_entry(rec: (Seq<u8>, Option<Seq<u8>>)) -> Seq<u8> {
    match rec.1 {
        Some(v) => rec.0 + seq![61u8] + v,
        None => rec.0,
    }
}

/// The TXT entries that advertise `recs`; a single empty entry where there are none, since a TXT
/// record must accompany every SRV record.
pub open spec fn txt_entries(recs: Seq<(Seq<u8>, Option<Seq<u8>>)>) -> Seq<Seq<u8>> {
    if recs.len() == 0 {
        seq![Seq::<u8>::empty()]
    } else {
        recs.map_values(|r: (Seq<u8>, Option<Seq<u8>>)| txt_entry(r))
    }
}

/// The records that advertising an instance adds, in order: SRV and TXT at the instance's name,
/// a PTR from the service's name to the instance's, and a PTR from the discovery domain to the
/// service's name.
pub open spec fn instance_entries(
    discovery: Seq<Seq<u8>>,
    inst: (Seq<u8>, Seq<u8>, crate::service::ServiceTransport),
    host: Seq<Seq<u8>>,
    port: u16,
    txt: Seq<(Seq<u8>, Option<Seq<u8>>)>,
) -> Seq<EntryModel> {
    let service = seq![inst.1, transport_label(inst.2), local_label()];
    let instance = seq![inst.0, inst.1, transport_label(inst.2), local_label()];
    seq![
        EntryModel { name: instance, class: Class::IN, ttl: TTL, record: RecordModel::SRV(0, 0, port, host) },
        EntryModel { name: instance, class: Class::IN, ttl: TTL, record: RecordModel::TXT(txt_entries(txt)) },
        EntryModel { name: service, class: Class::IN, ttl: TTL, record: RecordModel::PTR(instance) },
        EntryModel { name: discovery, class: Class::IN, ttl: TTL, record: RecordModel::PTR(service) },
    ]
}

/// The record that advertising a host name adds: its address at `hostname.local`.
pub open spec fn name_entry(hostname: Seq<u8>, addr: IpAddress) -> EntryModel {
    EntryModel {
        name: seq![hostname, local_label()],
        class: Class::IN,
        ttl: TTL,
        record: match addr {
            IpAddress::V4(a) => RecordModel::A(a@),
            IpAddress::V6(a) => RecordModel::AAAA(a@),
        },
    }
}

/// The discovery meta-domain `_services._dns-sd._udp.local`.
pub open spec fn discovery_domain() -> Seq<Seq<u8>> {
    seq![
        seq![95u8, 115u8, 101u8, 114u8, 118u8, 105u8, 99u8, 101u8, 115u8],
        seq![95u8, 100u8, 110u8, 115u8, 45u8, 115u8, 100u8],
        seq![95u8, 117u8, 100u8, 112u8],
        seq![108u8, 111u8, 99u8, 97u8, 108u8],
    ]
}

fn build_txt(txt: &crate::service::TxtRecords) -> (r: TXT)
    ensures
        r.spec_entries() == txt_entries(txt@),
{
    let mut entries: Vec<Vec<u8>> = Vec::new();
    if txt.is_empty() {
        entries.push(Vec::new());
        proof {
            assert(entries@.map_values(|e: Vec<u8>| e@) =~= txt_entries(txt@));
        }
        return TXT { entries };
    }
    let mut i: usize = 0;
    while i < txt.len()
        invariant
            i <= txt@.len(),
            txt@.len() > 0,
            entries@.map_values(|e: Vec<u8>| e@) == txt@.subrange(0, i as int).map_values(
                |r: (Seq<u8>, Option<Seq<u8>>)| txt_entry(r),
            ),
        decreases txt@.len() - i,
    {
        let mut kv = vstd::slice::slice_to_vec(txt.key(i));
        match txt.value(i) {
            TxtRecordValue::NoValue => {},
            TxtRecordValue::Value(v) => {
                kv.push(61);
                crate::packet::encoder::push_slice(&mut kv, v);
            },
        }
        let ghost before = entries@.map_values(|e: Vec<u8>| e@);
        proof {
            assert(kv@ =~= txt_entry(txt@[i as int]));
        }
        entries.push(kv);
        proof {
            assert(txt@.subrange(0, i + 1).map_values(|r: (Seq<u8>, Option<Seq<u8>>)| txt_entry(r))
                =~= txt@.subrange(0, i as int).map_values(
                |r: (Seq<u8>, Option<Seq<u8>>)| txt_entry(r),
            ).push(txt_entry(txt@[i as int])));
            assert(entries@.map_values(|e: Vec<u8>| e@) =~= before.push(kv@));
            assert(entries@.map_values(|e: Vec<u8>| e@) =~= txt@.subrange(0, i + 1).map_values(
                |r: (Seq<u8>, Option<Seq<u8>>)| txt_entry(r),
            ));
        }
        i = i + 1;
    }
    proof {
        assert(txt@.subrange(0, txt@.len() as int) =~= txt@);
    }
    TXT { entries }
}

impl Advertiser {
    /// Creates an advertiser that answers for `hostname.local` at `addr`.
    pub fn new(hostname: Label, addr: IpAddress) -> (r: Advertiser)
        ensures
            r.wf(),
            r.discovery() == discovery_domain(),
            r.entries() == seq![name_entry(hostname@, addr)],
    {
        let mut d = DomainName::root();
        let l1: [u8; 9] = [95, 115, 101, 114, 118, 105, 99, 101, 115];
        let l2: [u8; 7] = [95, 100, 110, 115, 45, 115, 100];
        let l3: [u8; 4] = [95, 117, 100, 112];
        d.push_label(Label::new(l1.as_slice()));
        d.push_label(Label::new(l2.as_slice()));
        d.push_label(Label::new(l3.as_slice()));
        d.push_label(local());
        proof {
            assert(d@ =~= discovery_domain());
        }
        let mut this = Advertiser { discovery_domain: d, db: Vec::new() };
        proof {
            assert(this.entries() =~= Seq::<EntryModel>::empty());
        }
        this.add_name(hostname, addr);
        proof {
            assert(this.entries() =~= seq![name_entry(hostname@, addr)]);
        }
        this
    }

    fn push_entry(&mut self, e: Entry)
        requires
            old(self).wf(),
            entry_ok(e@),
        ensures
            final(self).wf(),
            final(self).discovery() == old(self).discovery(),
            final(self).entries() == old(self).entries().push(e@),
    {
        let ghost before = self.entries();
        self.db.push(e);
        proof {
            assert(self.entries() =~= before.push(e@));
        }
    }

    /// Adds a host name to answer for: `hostname.local` at `addr`.
    pub fn add_name(&mut self, hostname: Label, addr: IpAddress)
        requires
            old(self).wf(),
        ensures
            final(self).wf(),
            final(self).discovery() == old(self).discovery(),
            final(self).entries() == old(self).entries().push(name_entry(hostname@, addr)),
    {
        let mut name = DomainName::root();
        name.push_label(hostname);
        name.push_label(local());
        let record = match addr {
            IpAddress::V4(a) => Record::A(A::new(a)),
            IpAddress::V6(a) => Record::AAAA(AAAA::new(a)),
        };
        proof {
            assert(name@ =~= seq![hostname@, local_label()]);
        }
        self.push_entry(Entry::new(name, record));
    }

    /// Adds a service instance to answer for, reachable as `details` says.
    ///
    /// The host name must fit the 255 bytes of a domain name on the wire, and the TXT metadata a
    /// record: each entry at most 255 bytes, all of them at most 65535.
    pub fn add_instance(&mut self, instance: ServiceInstance, details: InstanceDetails)
        requires
            old(self).wf(),
            name_wire(details.host@).len() <= 255,
            strings_fit(txt_entries(details.txt@)),
            strings_wire(txt_entries(details.txt@)).len() <= 0xffff,
        ensures
            final(self).wf(),
            final(self).discovery() == old(self).discovery(),
            final(self).entries() == old(self).entries() + instance_entries(
                old(self).discovery(),
                instance@,
                details.host@,
                details.port,
                details.txt@,
            ),
    {
        let ghost before = self.entries();
        let mut service_domain = DomainName::root();
        service_domain.push_label(instance.service_name().clone());
        service_domain.push_label(instance.service_transport().to_label());
        service_domain.push_label(local());
        let mut instance_domain = DomainName::root();
        instance_domain.push_label(instance.instance_name().clone());
        instance_domain.extend(&service_domain);
        let ghost es = instance_entries(self.discovery(), instance@, details.host@, details.port, details.txt@);
        proof {
            assert(service_domain@ =~= seq![instance@.1, transport_label(instance@.2), local_label()]);
            assert(instance_domain@ =~= seq![instance@.0, instance@.1, transport_label(instance@.2), local_label()]);
            lemma_name_wire_len(instance_domain@);
            lemma_name_wire_len(service_domain@);
        }
        let port = details.port();
        let txt = build_txt(details.txt_records());
        let srv = Record::SRV(SRV::new(0, 0, port, details.host));
        self.push_entry(Entry::new(instance_domain.clone(), srv));
        self.push_entry(Entry::new(instance_domain.clone(), Record::TXT(txt)));
        let ptr = Record::PTR(PTR::new(instance_domain));
        self.push_entry(Entry::new(service_domain.clone(), ptr));
        let disc = self.discovery_domain.clone();
        self.push_entry(Entry::new(disc, Record::PTR(PTR::new(service_domain))));
        proof {
            assert(self.entries() =~= before + es);
        }
    }

    /// The records the advertiser answers with.
    pub fn entry(&self, i: usize) -> (r: &Entry)
        requires
            i < self.entries().len(),
        ensures
            r@ == self.entries()[i as int],
    {
        &self.db[i]
    }

    /// The number of records the advertiser answers with.
    pub fn len(&self) -> (r: usize)
        ensures
            r == self.entries().len(),
    {
        self.db.len()
    }
}

impl Advertiser {
    /// Adds the answers to question `q` to `enc`, as long as the header can count them.
    fn answer_question(
        &self,
        q: &crate::packet::decoder::Question,
        Ghost(qm): Ghost<QuestionModel>,
        Ghost(prev): Ghost<Seq<int>>,
        enc: &mut MessageEncoder,
        count: usize,
    ) -> (r: usize)
        requires
            self.wf(),
            q.is(qm.0, qm.1, qm.2),
            old(enc)@.section == Section::Answer,
            old(enc)@.body == answers_wire(self.entries(), capped(prev)),
            old(enc)@.buf.len() == MDNS_BUFFER_SIZE,
            old(enc)@.ancount == written_count(self.entries(), capped(prev)),
            count == capped(prev).len(),
        ensures
            final(enc)@ == (EncoderView {
                body: answers_wire(self.entries(), capped(prev + matches_for(qm, self.entries()))),
                ancount: written_count(self.entries(), capped(prev + matches_for(qm, self.entries()))) as u16,
                ..old(enc)@
            }),
            r == capped(prev + matches_for(qm, self.entries())).len(),
    {
        let ghost db = self.entries();
        proof {
            assert(db.subrange(0, 0) =~= Seq::<EntryModel>::empty());
            lemma_matches_empty(qm);
            assert(prev + Seq::<int>::empty() =~= prev);
        }
        let mut count = count;
        let mut j: usize = 0;
        while j < self.db.len()
            invariant
                self.wf(),
                db == self.entries(),
                db.len() == self.db@.len(),
                j <= db.len(),
                q.is(qm.0, qm.1, qm.2),
                enc@.section == Section::Answer,
                enc@.buf.len() == MDNS_BUFFER_SIZE,
                old(enc)@.buf.len() == MDNS_BUFFER_SIZE,
                enc@ == (EncoderView {
                    body: answers_wire(db, capped(prev + matches_for(qm, db.subrange(0, j as int)))),
                    ancount: written_count(db, capped(prev + matches_for(qm, db.subrange(0, j as int)))) as u16,
                    ..old(enc)@
                }),
                count == capped(prev + matches_for(qm, db.subrange(0, j as int))).len(),
            decreases db.len() - j,
        {
            let entry = &self.db[j];
            let ghost cur = prev + matches_for(qm, db.subrange(0, j as int));
            proof {
                assert(db[j as int] == entry@);
                lemma_matches_step(qm, db, j as int);
                lemma_capped_push(cur, j as int);
                lemma_answers_push(db, capped(cur), j as int);
                lemma_written_push(db, capped(cur), j as int);
                assert(prev + (matches_for(qm, db.subrange(0, j as int)) + seq![j as int]) =~= cur.push(j as int));
                assert(prev + (matches_for(qm, db.subrange(0, j as int)) + Seq::<int>::empty()) =~= cur);
            }
            if q.qclass().matches(entry.class) && q.qtype().matches(entry.record.record_type())
                && q.qname == entry.name {
                proof {
                    assert(entry_matches(qm, db[j as int]));
                    assert(prev + matches_for(qm, db.subrange(0, j + 1)) =~= cur.push(j as int));
                    assert(entry_ok(db[j as int]));
                }
                if count < 0xffff {
                    enc.add_answer(
                        ResourceRecord::new(&entry.name, &entry.record).class(entry.class).ttl(
                            entry.ttl,
                        ),
                    );
                    count = count + 1;
                }
            } else {
                proof {
                    assert(!entry_matches(qm, db[j as int]));
                }
            }
            j = j + 1;
        }
        proof {
            assert(db.subrange(0, db.len() as int) =~= db);
        }
        count
    }

    /// Reads the remaining questions of `dec` and adds their answers to `enc`.
    #[verifier::rlimit(100)]
    fn answer_all(&self, dec: &mut MessageDecoder, enc: &mut MessageEncoder, Ghost(qd): Ghost<u16>) -> (r: Result<usize, Error>)
        requires
            self.wf(),
            old(dec)@.section == Section::Question,
            old(dec)@.error is None,
            old(dec)@.q_remaining == qd,
            old(enc)@.section == Section::Answer,
            old(enc)@.body == Seq::<u8>::empty(),
            old(enc)@.ancount == 0,
            old(enc)@.buf.len() == MDNS_BUFFER_SIZE,
        ensures
            match questions_at(old(dec)@.data, old(dec)@.at, qd as nat) {
                Ok(qs) => r is Ok && r->Ok_0 == capped(all_matches(qs, self.entries())).len()
                    && final(enc)@ == (EncoderView {
                        body: answers_wire(self.entries(), capped(all_matches(qs, self.entries()))),
                        ancount: written_count(self.entries(), capped(all_matches(qs, self.entries()))) as u16,
                        ..old(enc)@
                    }),
                Err(e) => r is Err && r->Err_0 == e,
            },
    {
        let ghost db = self.entries();
        let ghost d = old(dec)@.data;
        let ghost start = old(dec)@.at;
        let ghost base = enc@;
        let mut count: usize = 0;
        let ghost mut qs: Seq<QuestionModel> = seq![];
        proof {
            lemma_all_matches_empty(db);
            lemma_questions_zero(d, start);
            lemma_answers_empty(db);
            lemma_written_empty(db);
            lemma_capped_len(Seq::<int>::empty());
            assert(qs + Seq::<QuestionModel>::empty() =~= qs);
            assert(qs + Seq::<QuestionModel>::empty() =~= qs);
        }
        let mut done = false;
        while !done
            invariant
                self.wf(),
                db == self.entries(),
                d == old(dec)@.data,
                start == old(dec)@.at,
                qd == old(dec)@.q_remaining,
                base == old(enc)@,
                dec@.section == Section::Question,
                dec@.data == d,
                dec@.error is None,
                done ==> dec@.q_remaining == 0,
                questions_at(d, start, qd as nat) == after_questions(qs, questions_at(d, dec@.at, dec@.q_remaining as nat)),
                enc@.section == Section::Answer,
                enc@.buf.len() == MDNS_BUFFER_SIZE,
                base.buf.len() == MDNS_BUFFER_SIZE,
                enc@ == (EncoderView {
                    body: answers_wire(db, capped(all_matches(qs, db))),
                    ancount: written_count(db, capped(all_matches(qs, db))) as u16,
                    ..base
                }),
                count == capped(all_matches(qs, db)).len(),
            decreases dec@.q_remaining, if done { 0int } else { 1int },
        {
            let ghost dv = dec@;
            match dec.next() {
                None => {
                    proof {
                        lemma_questions_zero(d, dec@.at);
                        assert(qs + Seq::<QuestionModel>::empty() =~= qs);
                    }
                    done = true;
                },
                Some(Err(e)) => {
                    proof {
                        assert(question_at(d, dv.at) is Err);
                        lemma_questions_err(d, dv.at, dv.q_remaining as nat);
                        assert(questions_at(d, start, qd as nat) == Err::<Seq<QuestionModel>, Error>(e));
                    }
                    return Err(e);
                },
                Some(Ok(q)) => {
                    let ghost m = question_at(dv.data, dv.at)->Ok_0;
                    let ghost qm: QuestionModel = (m.0, m.1, m.2);
                    proof {
                        lemma_question_step(d, dv.at, dv.q_remaining as nat, qs);
                        lemma_all_matches_push(qs, qm, db);
                    }
                    proof {
                        lemma_capped_len(all_matches(qs, db));
                        lemma_written_le(db, capped(all_matches(qs, db)));
                    }
                    count = self.answer_question(&q, Ghost(qm), Ghost(all_matches(qs, db)), enc, count);
                    proof {
                        qs = qs.push(qm);
                    }
                },
            }
        }
        proof {
            lemma_questions_zero(d, dec@.at);
            assert(qs + Seq::<QuestionModel>::empty() =~= qs);
        }
        Ok(count)
    }

    /// Answers an incoming mDNS packet, without any I/O.
    ///
    /// A packet that is not a plain query (a response, another opcode, a response code) gets no
    /// response. Otherwise every question is held against every record, in order, and each record
    /// whose class, type and name match becomes an answer; with no answer there is no response.
    /// The response copies the query's ID, is marked authoritative, and is cut at
    /// `MDNS_BUFFER_SIZE` bytes with its truncation flag set where it does not fit; its answer
    /// count then gives only the answers written in full.
    #[verifier::rlimit(60)]
    pub fn handle_packet(&self, packet: &[u8]) -> (r: Result<Option<Vec<u8>>, Error>)
        requires
            self.wf(),
        ensures
            match response_to(packet@, self.entries()) {
                Ok(Some(b)) => r is Ok && r->Ok_0 is Some && r->Ok_0->Some_0@ == b,
                Ok(None) => r is Ok && r->Ok_0 is None,
                Err(e) => r is Err && r->Err_0 == e,
            },
    {
        let ghost db = self.entries();
        let mut dec = match MessageDecoder::new(packet) {
            Ok(d) => d,
            Err(e) => {
                return Err(e);
            },
        };
        let h = *dec.header();
        if !h.is_query() {
            return Ok(None);
        }
        if h.opcode() != Opcode::QUERY {
            return Ok(None);
        }
        if h.rcode() != RCode::NO_ERROR {
            return Ok(None);
        }
        let mut header = Header::new();
        header.set_id(h.id());
        header.set_response(true);
        header.set_authority(true);
        let buf: Vec<u8> = vec![0u8; MDNS_BUFFER_SIZE];
        let ghost zeros = buf@;
        let mut enc = MessageEncoder::new(buf);
        enc.set_header(header);
        let mut enc = enc.answers();
        let ghost base = enc@;
        proof {
            lemma_answers_empty(db);
        }
        let count = match self.answer_all(&mut dec, &mut enc, Ghost(h.qdcount)) {
            Ok(c) => c,
            Err(e) => {
                return Err(e);
            },
        };
        let ghost qs = questions_at(packet@, 12, h.qdcount as nat)->Ok_0;
        proof {
            lemma_capped_len(all_matches(qs, db));
            assert(enc@ == response_view(h.id, qs, db, MDNS_BUFFER_SIZE as nat, zeros));
        }
        if count == 0 {
            return Ok(None);
        }
        let (buf, res) = enc.finish();
        let n: usize = match res {
            Ok(n) => n,
            Err(_) => buf.len(),
        };
        let out = vstd::slice::slice_to_vec(vstd::slice::slice_subrange(buf.as_slice(), 0, n));
        proof {
            let v = response_view(h.id, qs, db, MDNS_BUFFER_SIZE as nat, zeros);
            let v0 = response_view(h.id, qs, db, MDNS_BUFFER_SIZE as nat, Seq::new(MDNS_BUFFER_SIZE as nat, |i: int| 0u8));
            assert(message_wire(v) == message_wire(v0));
            assert(out@ =~= if message_wire(v).len() <= MDNS_BUFFER_SIZE { message_wire(v) } else { message_wire(v).subrange(0, MDNS_BUFFER_SIZE as int) });
        }
        Ok(Some(out))
    }
}
} // verus!
