//! Service discovery and advertising.
use crate::name::{DomainName, Label, bytes_eq};
use crate::packet::error::Error;
use crate::packet::records::{PTR, SRV, TXT};
use vstd::prelude::*;
use vstd::string::StringSliceAdditionalSpecFns;
use vstd::utf8::valid_utf8;

pub mod advertising;
pub mod discovery;

verus! {

/// The label `_tcp`.
pub open spec fn tcp_label() -> Seq<u8> {
    seq![95u8, 116u8, 99u8, 112u8]
}

/// The label `_udp`.
pub open spec fn udp_label() -> Seq<u8> {
    seq![95u8, 117u8, 100u8, 112u8]
}

/// The label `local`.
pub open spec fn local_label() -> Seq<u8> {
    seq![108u8, 111u8, 99u8, 97u8, 108u8]
}

/// The label `local`.
pub fn local() -> (r: Label)
    ensures
        r@ == local_label(),
{
    let b: [u8; 5] = [108, 111, 99, 97, 108];
    proof {
        assert(b@ =~= local_label());
    }
    Label::new(b.as_slice())
}

/// The transport protocol of a service: `_tcp` for TCP, `_udp` for anything else.
#[derive(Clone, Copy, Debug, PartialEq, Eq, Structural, PartialOrd, Ord, Hash)]
pub enum ServiceTransport {
    /// Service uses TCP.
    TCP,
    /// Anything but TCP (UDP, SCTP, etc.).
    Other,
}

/// The label of a transport.
pub open spec fn transport_label(t: ServiceTransport) -> Seq<u8> {
    match t {
        ServiceTransport::TCP => tcp_label(),
        ServiceTransport::Other => udp_label(),
    }
}

/// The transport that a label names, if any.
pub open spec fn transport_of(l: Seq<u8>) -> Option<ServiceTransport> {
    if l == tcp_label() {
        Some(ServiceTransport::TCP)
    } else if l == udp_label() {
        Some(ServiceTransport::Other)
    } else {
        None
    }
}

impl ServiceTransport {
    /// The text of this transport's label.
    pub fn as_str(&self) -> (r: &'static str)
        ensures
            *self == ServiceTransport::TCP ==> r@ == "_tcp"@,
            *self == ServiceTransport::Other ==> r@ == "_udp"@,
    {
        match self {
            ServiceTransport::TCP => "_tcp",
            ServiceTransport::Other => "_udp",
        }
    }

    /// The label of this transport: `_tcp` or `_udp`.
    pub fn to_label(&self) -> (r: Label)
        ensures
            r@ == transport_label(*self),
    {
        match self {
            ServiceTransport::TCP => {
                let b: [u8; 4] = [95, 116, 99, 112];
                proof {
                    assert(b@ =~= tcp_label());
                }
                Label::new(b.as_slice())
            },
            ServiceTransport::Other => {
                let b: [u8; 4] = [95, 117, 100, 112];
                proof {
                    assert(b@ =~= udp_label());
                }
                Label::new(b.as_slice())
            },
        }
    }
}

/// Reads the transport that a label names.
fn parse_transport(l: &Label) -> (r: Option<ServiceTransport>)
    ensures
        r == transport_of(l@),
{
    let b = l.as_bytes();
    let tcp: [u8; 4] = [95, 116, 99, 112];
    let udp: [u8; 4] = [95, 117, 100, 112];
    proof {
        assert(tcp@ =~= tcp_label());
        assert(udp@ =~= udp_label());
    }
    if bytes_eq(b, tcp.as_slice()) {
        Some(ServiceTransport::TCP)
    } else if bytes_eq(b, udp.as_slice()) {
        Some(ServiceTransport::Other)
    } else {
        None
    }
}

/// The service that a name of the form `_service._proto.domain` names, or why it names none.
pub open spec fn service_of_name(n: Seq<Seq<u8>>) -> Result<(Seq<u8>, ServiceTransport), Error> {
    if n.len() < 3 {
        Err(Error::Eof)
    } else {
        match transport_of(n[1]) {
            Some(t) => Ok((n[0], t)),
            None => Err(Error::InvalidValue),
        }
    }
}

/// The service instance that a name of the form `instance._service._proto.domain` names, or why
/// it names none.
pub open spec fn instance_of_name(n: Seq<Seq<u8>>) -> Result<(Seq<u8>, Seq<u8>, ServiceTransport), Error> {
    if n.len() < 4 {
        Err(Error::Eof)
    } else {
        match transport_of(n[2]) {
            Some(t) => Ok((n[0], n[1], t)),
            None => Err(Error::InvalidValue),
        }
    }
}

/// A service type: a name starting with an underscore, and a transport.
#[derive(Debug)]
pub struct Service {
    pub name: Label,
    pub transport: ServiceTransport,
}

impl View for Service {
    type V = (Seq<u8>, ServiceTransport);

    open spec fn view(&self) -> (Seq<u8>, ServiceTransport) {
        (self.name@, self.transport)
    }
}

impl Service {
    /// Creates a service; its name must start with an underscore.
    pub fn new(name: Label, transport: ServiceTransport) -> (r: Service)
        requires
            name@.len() > 0 && name@[0] == 95,
        ensures
            r@ == (name@, transport),
    {
        Service { name, transport }
    }

    /// Reads the service that a `PTR` record of a service-type listing points at.
    pub fn from_ptr(ptr: &PTR) -> (r: Result<Service, Error>)
        ensures
            match service_of_name(ptr.ptrdname@) {
                Ok(s) => r is Ok && r->Ok_0@ == s,
                Err(e) => r is Err && r->Err_0 == e,
            },
    {
        let labels = ptr.ptrdname().labels();
        proof {
            assert(labels@.len() == ptr.ptrdname@.len());
        }
        if labels.len() < 3 {
            return Err(Error::Eof);
        }
        proof {
            assert(labels@[1]@ == ptr.ptrdname@[1]);
            assert(labels@[0]@ == ptr.ptrdname@[0]);
        }
        match parse_transport(&labels[1]) {
            Some(transport) => Ok(Service { name: labels[0].clone(), transport }),
            None => Err(Error::InvalidValue),
        }
    }

    /// The service name.
    pub fn name(&self) -> (r: &Label)
        ensures
            r@ == self.name@,
    {
        &self.name
    }

    /// The transport.
    pub fn transport(&self) -> (r: ServiceTransport)
        ensures
            r == self.transport,
    {
        self.transport
    }

    /// The two labels of this service: its name and its transport.
    pub fn to_name(&self) -> (r: DomainName)
        ensures
            r@ == seq![self.name@, transport_label(self.transport)],
    {
        let mut n = DomainName::root();
        n.push_label(self.name.clone());
        n.push_label(self.transport.to_label());
        proof {
            assert(n@ =~= seq![self.name@, transport_label(self.transport)]);
        }
        n
    }
}

impl Clone for Service {
    fn clone(&self) -> (r: Self)
        ensures
            r@ == self@,
    {
        Service { name: self.name.clone(), transport: self.transport }
    }
}

impl PartialEq for Service {
    fn eq(&self, other: &Service) -> (r: bool) {
        self.transport == other.transport && self.name == other.name
    }
}

impl vstd::std_specs::cmp::PartialEqSpecImpl for Service {
    open spec fn obeys_eq_spec() -> bool {
        true
    }

    open spec fn eq_spec(&self, other: &Service) -> bool {
        self@ == other@
    }
}

impl Eq for Service {

}

/// A named instance of a [`Service`].
#[derive(Debug)]
pub struct ServiceInstance {
    pub instance_name: Label,
    pub service: Service,
}

impl View for ServiceInstance {
    type V = (Seq<u8>, Seq<u8>, ServiceTransport);

    open spec fn view(&self) -> (Seq<u8>, Seq<u8>, ServiceTransport) {
        (self.instance_name@, self.service.name@, self.service.transport)
    }
}

impl ServiceInstance {
    /// Creates an instance of the service named `service_name`, which must start with an
    /// underscore.
    pub fn new(instance_name: Label, service_name: Label, transport: ServiceTransport) -> (r: ServiceInstance)
        requires
            service_name@.len() > 0 && service_name@[0] == 95,
        ensures
            r@ == (instance_name@, service_name@, transport),
    {
        ServiceInstance { instance_name, service: Service::new(service_name, transport) }
    }

    /// Creates an instance of `service`.
    pub fn from_service(instance_name: Label, service: Service) -> (r: ServiceInstance)
        ensures
            r@ == (instance_name@, service@.0, service@.1),
    {
        ServiceInstance { instance_name, service }
    }

    /// Reads the service instance that a `PTR` record of an instance listing points at.
    pub fn from_ptr(ptr: &PTR) -> (r: Result<ServiceInstance, Error>)
        ensures
            match instance_of_name(ptr.ptrdname@) {
                Ok(s) => r is Ok && r->Ok_0@ == s,
                Err(e) => r is Err && r->Err_0 == e,
            },
    {
        let labels = ptr.ptrdname().labels();
        proof {
            assert(labels@.len() == ptr.ptrdname@.len());
        }
        if labels.len() < 4 {
            return Err(Error::Eof);
        }
        proof {
            assert(labels@[0]@ == ptr.ptrdname@[0]);
            assert(labels@[1]@ == ptr.ptrdname@[1]);
            assert(labels@[2]@ == ptr.ptrdname@[2]);
        }
        match parse_transport(&labels[2]) {
            Some(transport) => Ok(
                ServiceInstance {
                    instance_name: labels[0].clone(),
                    service: Service { name: labels[1].clone(), transport },
                },
            ),
            None => Err(Error::InvalidValue),
        }
    }

    /// The instance name.
    pub fn instance_name(&self) -> (r: &Label)
        ensures
            r@ == self.instance_name@,
    {
        &self.instance_name
    }

    /// The service this is an instance of.
    pub fn service(&self) -> (r: &Service)
        ensures
            r@ == self.service@,
    {
        &self.service
    }

    /// The name of the service.
    pub fn service_name(&self) -> (r: &Label)
        ensures
            r@ == self.service.name@,
    {
        &self.service.name
    }

    /// The transport of the service.
    pub fn service_transport(&self) -> (r: ServiceTransport)
        ensures
            r == self.service.transport,
    {
        self.service.transport
    }

    /// The three labels of this instance: its name, the service's name and the transport.
    pub fn to_name(&self) -> (r: DomainName)
        ensures
            r@ == seq![self.instance_name@, self.service.name@, transport_label(self.service.transport)],
    {
        let mut n = DomainName::root();
        n.push_label(self.instance_name.clone());
        n.push_label(self.service.name.clone());
        n.push_label(self.service.transport.to_label());
        proof {
            assert(n@ =~= seq![
                self.instance_name@,
                self.service.name@,
                transport_label(self.service.transport),
            ]);
        }
        n
    }
}

impl Clone for ServiceInstance {
    fn clone(&self) -> (r: Self)
        ensures
            r@ == self@,
    {
        ServiceInstance { instance_name: self.instance_name.clone(), service: self.service.clone() }
    }
}

impl PartialEq for ServiceInstance {
    fn eq(&self, other: &ServiceInstance) -> (r: bool) {
        self.instance_name == other.instance_name && self.service == other.service
    }
}

impl vstd::std_specs::cmp::PartialEqSpecImpl for ServiceInstance {
    open spec fn obeys_eq_spec() -> bool {
        true
    }

    open spec fn eq_spec(&self, other: &ServiceInstance) -> bool {
        self@ == other@
    }
}

impl Eq for ServiceInstance {

}


/// An ASCII byte in lower case.
pub open spec fn lower(b: u8) -> u8 {
    if 65 <= b <= 90 {
        (b + 32) as u8
    } else {
        b
    }
}

/// Two keys are equal when ASCII case is ignored.
pub open spec fn same_key(a: Seq<u8>, b: Seq<u8>) -> bool {
    a.len() == b.len() && forall|i: int| 0 <= i < a.len() ==> lower(#[trigger] a[i]) == lower(b[i])
}

/// `i` is the position of the first `=` in `e`, or its length where it holds none.
pub open spec fn splits_at(e: Seq<u8>, i: int) -> bool {
    &&& 0 <= i <= e.len()
    &&& forall|k: int| 0 <= k < i ==> e[k] != 61
    &&& i < e.len() ==> e[i] == 61
}

/// The position of the first `=` in `e`, or its length where it holds none.
pub open spec fn eq_index(e: Seq<u8>) -> int {
    choose|i: int| splits_at(e, i)
}

/// A TXT entry as a key and, after the first `=`, a value; an entry without `=` is a flag.
pub open spec fn entry_parts(e: Seq<u8>) -> (Seq<u8>, Option<Seq<u8>>) {
    let i = eq_index(e);
    (e.subrange(0, i), if i < e.len() { Some(e.subrange(i + 1, e.len() as int)) } else { None })
}

/// Whether `recs` holds a record under key `k`, ignoring ASCII case.
pub open spec fn has_key(recs: Seq<(Seq<u8>, Option<Seq<u8>>)>, k: Seq<u8>) -> bool {
    exists|j: int| 0 <= j < recs.len() && same_key(#[trigger] recs[j].0, k)
}

/// The records that the TXT entries `es` give: in order, keeping the first of each key, and
/// skipping keys that are not UTF-8.
pub open spec fn txt_records_of(es: Seq<Seq<u8>>) -> Seq<(Seq<u8>, Option<Seq<u8>>)>
    decreases es.len(),
{
    if es.len() == 0 {
        seq![]
    } else {
        let prev = txt_records_of(es.drop_last());
        let parts = entry_parts(es.last());
        if !valid_utf8(parts.0) || has_key(prev, parts.0) {
            prev
        } else {
            prev.push(parts)
        }
    }
}

proof fn lemma_split_unique(e: Seq<u8>, i: int)
    requires
        splits_at(e, i),
    ensures
        eq_index(e) == i,
{
    let j = eq_index(e);
    assert(splits_at(e, j));
    if j < i {
        assert(e[j] != 61);
    } else if i < j {
        assert(e[i] != 61);
    }
}

/// Relies on `core::str::from_utf8`: it succeeds exactly on valid UTF-8.
#[verifier::external_body]
fn is_utf8(b: &[u8]) -> (r: bool)
    ensures
        r == valid_utf8(b@),
{
    core::str::from_utf8(b).is_ok()
}

/// Whether two keys are equal when ASCII case is ignored.
pub fn key_eq(a: &[u8], b: &[u8]) -> (r: bool)
    ensures
        r == same_key(a@, b@),
{
    if a.len() != b.len() {
        return false;
    }
    let mut i: usize = 0;
    while i < a.len()
        invariant
            a@.len() == b@.len(),
            i <= a@.len(),
            forall|k: int| 0 <= k < i ==> lower(#[trigger] a@[k]) == lower(b@[k]),
        decreases a@.len() - i,
    {
        let x = if 65 <= a[i] && a[i] <= 90 { a[i] + 32 } else { a[i] };
        let y = if 65 <= b[i] && b[i] <= 90 { b[i] + 32 } else { b[i] };
        if x != y {
            return false;
        }
        i = i + 1;
    }
    true
}

/// One `key=value` record, or a flag without a value.
#[derive(Debug)]
pub struct TxtRecord {
    pub key: Vec<u8>,
    pub value: Option<Vec<u8>>,
}

impl View for TxtRecord {
    type V = (Seq<u8>, Option<Seq<u8>>);

    open spec fn view(&self) -> (Seq<u8>, Option<Seq<u8>>) {
        (
            self.key@,
            match &self.value {
                Some(v) => Some(v@),
                None => None,
            },
        )
    }
}

/// The value of a TXT record: none (a flag), or some bytes.
#[derive(Debug)]
pub enum TxtRecordValue<'a> {
    NoValue,
    Value(&'a [u8]),
}

/// The value model of a TXT record value.
pub open spec fn value_model(v: TxtRecordValue) -> Option<Seq<u8>> {
    match v {
        TxtRecordValue::NoValue => None,
        TxtRecordValue::Value(b) => Some(b@),
    }
}

/// The `key=value` records of a DNS-SD TXT record, in the order they were added, with keys
/// compared without regard to ASCII case.
#[derive(Debug)]
pub struct TxtRecords {
    records: Vec<TxtRecord>,
}

impl View for TxtRecords {
    type V = Seq<(Seq<u8>, Option<Seq<u8>>)>;

    closed spec fn view(&self) -> Seq<(Seq<u8>, Option<Seq<u8>>)> {
        self.records@.map_values(|r: TxtRecord| r@)
    }
}

fn copy_bytes(b: &[u8]) -> (r: Vec<u8>)
    ensures
        r@ == b@,
{
    vstd::slice::slice_to_vec(b)
}

impl TxtRecords {
    /// No records.
    pub fn new() -> (r: TxtRecords)
        ensures
            r@ == Seq::<(Seq<u8>, Option<Seq<u8>>)>::empty(),
    {
        let r = TxtRecords { records: Vec::new() };
        proof {
            assert(r@ =~= Seq::<(Seq<u8>, Option<Seq<u8>>)>::empty());
        }
        r
    }

    /// The position of the record under key `key`, ignoring ASCII case.
    fn find(&self, key: &[u8]) -> (r: Option<usize>)
        ensures
            match r {
                Some(j) => j < self@.len() && same_key(self@[j as int].0, key@) && forall|i: int|
                    0 <= i < j ==> !same_key(#[trigger] self@[i].0, key@),
                None => !has_key(self@, key@),
            },
    {
        let mut j: usize = 0;
        while j < self.records.len()
            invariant
                j <= self@.len(),
                self@.len() == self.records@.len(),
                forall|i: int| 0 <= i < j ==> !same_key(#[trigger] self@[i].0, key@),
            decreases self@.len() - j,
        {
            proof {
                assert(self@[j as int].0 == self.records@[j as int].key@);
            }
            if key_eq(self.records[j].key.as_slice(), key) {
                return Some(j);
            }
            j = j + 1;
        }
        None
    }

    /// Reads the records of a TXT record: each entry is `key=value`, or a flag `key`; an entry
    /// whose key is not UTF-8 is skipped, and of several entries with one key the first counts.
    pub fn from_txt(txt: &TXT) -> (r: TxtRecords)
        ensures
            r@ == txt_records_of(txt.spec_entries()),
    {
        let mut recs = TxtRecords::new();
        let ghost es = txt.spec_entries();
        let mut n: usize = 0;
        while n < txt.entries.len()
            invariant
                n <= es.len(),
                es == txt.spec_entries(),
                es.len() == txt.entries@.len(),
                recs@ == txt_records_of(es.subrange(0, n as int)),
            decreases es.len() - n,
        {
            let e = txt.entries[n].as_slice();
            proof {
                assert(e@ == es[n as int]);
                let sub = es.subrange(0, n + 1);
                assert(sub.drop_last() =~= es.subrange(0, n as int));
                assert(sub.last() == e@);
            }
            let mut i: usize = 0;
            while i < e.len() && e[i] != 61
                invariant
                    i <= e@.len(),
                    forall|k: int| 0 <= k < i ==> e@[k] != 61,
                decreases e@.len() - i,
            {
                i = i + 1;
            }
            proof {
                lemma_split_unique(e@, i as int);
            }
            let key = vstd::slice::slice_subrange(e, 0, i);
            if is_utf8(key) {
                match recs.find(key) {
                    Some(_) => {},
                    None => {
                        let value = if i < e.len() {
                            Some(copy_bytes(vstd::slice::slice_subrange(e, i + 1, e.len())))
                        } else {
                            None
                        };
                        let rec = TxtRecord { key: copy_bytes(key), value };
                        let ghost before = recs@;
                        recs.records.push(rec);
                        proof {
                            assert(recs@ =~= before.push(entry_parts(e@)));
                        }
                    },
                }
            }
            n = n + 1;
        }
        proof {
            assert(es.subrange(0, es.len() as int) =~= es);
        }
        recs
    }

    /// Adds a record without a value under `key`, replacing a record under the same key.
    pub fn add_flag(&mut self, key: &str)
        ensures
            has_key(old(self)@, key.spec_bytes()) ==> exists|j: int|
                0 <= j < old(self)@.len() && same_key(#[trigger] old(self)@[j].0, key.spec_bytes())
                    && final(self)@ == old(self)@.update(j, (key.spec_bytes(), None)),
            !has_key(old(self)@, key.spec_bytes()) ==> final(self)@ == old(self)@.push(
                (key.spec_bytes(), None),
            ),
    {
        let k = key.as_bytes();
        let rec = TxtRecord { key: copy_bytes(k), value: None };
        let ghost before = self@;
        match self.find(k) {
            Some(j) => {
                self.records.set(j, rec);
                proof {
                    assert(self@ =~= before.update(j as int, (k@, None)));
                }
            },
            None => {
                self.records.push(rec);
                proof {
                    assert(self@ =~= before.push((k@, None)));
                }
            },
        }
    }

    /// The value under `key`, ignoring ASCII case.
    pub fn get(&self, key: &str) -> (r: Option<TxtRecordValue<'_>>)
        ensures
            match r {
                Some(v) => exists|j: int|
                    0 <= j < self@.len() && same_key(#[trigger] self@[j].0, key.spec_bytes())
                        && (forall|i: int|
                        0 <= i < j ==> !same_key(#[trigger] self@[i].0, key.spec_bytes()))
                        && value_model(v) == self@[j].1,
                None => !has_key(self@, key.spec_bytes()),
            },
    {
        match self.find(key.as_bytes()) {
            Some(j) => Some(self.value(j)),
            None => None,
        }
    }

    /// The number of records.
    pub fn len(&self) -> (r: usize)
        ensures
            r == self@.len(),
    {
        self.records.len()
    }

    /// Whether there are no records.
    pub fn is_empty(&self) -> (r: bool)
        ensures
            r == (self@.len() == 0),
    {
        self.records.len() == 0
    }

    /// The key of the `i`-th record.
    pub fn key(&self, i: usize) -> (r: &[u8])
        requires
            i < self@.len(),
        ensures
            r@ == self@[i as int].0,
    {
        self.records[i].key.as_slice()
    }

    /// The value of the `i`-th record.
    pub fn value(&self, i: usize) -> (r: TxtRecordValue<'_>)
        requires
            i < self@.len(),
        ensures
            value_model(r) == self@[i as int].1,
    {
        match &self.records[i].value {
            Some(v) => TxtRecordValue::Value(v.as_slice()),
            None => TxtRecordValue::NoValue,
        }
    }

    /// The records as `(key, value)` pairs, in order.
    pub fn iter(&self) -> (r: Vec<(&[u8], TxtRecordValue<'_>)>)
        ensures
            r@.len() == self@.len(),
            forall|i: int|
                0 <= i < r@.len() ==> (#[trigger] r@[i]).0@ == self@[i].0 && value_model(r@[i].1)
                    == self@[i].1,
    {
        let mut out: Vec<(&[u8], TxtRecordValue<'_>)> = Vec::new();
        let mut i: usize = 0;
        while i < self.records.len()
            invariant
                i <= self@.len(),
                self@.len() == self.records@.len(),
                out@.len() == i,
                forall|k: int|
                    0 <= k < i ==> (#[trigger] out@[k]).0@ == self@[k].0 && value_model(out@[k].1)
                        == self@[k].1,
            decreases self@.len() - i,
        {
            out.push((self.key(i), self.value(i)));
            i = i + 1;
        }
        out
    }
}

/// How a service instance can be reached: a host and a port, and its TXT metadata.
#[derive(Debug)]
pub struct InstanceDetails {
    pub host: DomainName,
    pub port: u16,
    pub txt: TxtRecords,
}

impl InstanceDetails {
    /// Details with no TXT records.
    pub fn new(host: DomainName, port: u16) -> (r: InstanceDetails)
        ensures
            r.host@ == host@,
            r.port == port,
            r.txt@ == Seq::<(Seq<u8>, Option<Seq<u8>>)>::empty(),
    {
        InstanceDetails { host, port, txt: TxtRecords::new() }
    }

    /// The details that an `SRV` record gives: its target and port.
    pub fn from_srv(srv: &SRV) -> (r: Result<InstanceDetails, Error>)
        ensures
            r is Ok,
            r->Ok_0.host@ == srv.target@,
            r->Ok_0.port == srv.port,
            r->Ok_0.txt@ == Seq::<(Seq<u8>, Option<Seq<u8>>)>::empty(),
    {
        Ok(InstanceDetails::new(srv.target().clone(), srv.port()))
    }

    /// The host on which the service can be found.
    pub fn host(&self) -> (r: &DomainName)
        ensures
            r@ == self.host@,
    {
        &self.host
    }

    /// The port on which the service listens.
    pub fn port(&self) -> (r: u16)
        ensures
            r == self.port,
    {
        self.port
    }

    /// The TXT metadata.
    pub fn txt_records(&self) -> (r: &TxtRecords)
        ensures
            r@ == self.txt@,
    {
        &self.txt
    }

    /// Replaces the TXT metadata.
    pub fn set_txt_records(&mut self, txt: TxtRecords)
        ensures
            final(self).host@ == old(self).host@,
            final(self).port == old(self).port,
            final(self).txt@ == txt@,
    {
        self.txt = txt;
    }
}
} // verus!
