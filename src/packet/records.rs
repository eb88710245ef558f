//! DNS resource records: the supported record types and their record data.
use crate::name::DomainName;
use crate::packet::decoder::{Reader, be16, be32, domain_name_at};
use crate::packet::encoder::{name_wire, push_character_string, push_domain_name, push_slice, push_u16, push_u32, strings_wire, u16_wire, u32_wire};
use crate::packet::error::Error;
use crate::packet::Type;
use vstd::prelude::*;

verus! {

/// What a record holds, as plain values.
pub enum RecordModel {
    A(Seq<u8>),
    AAAA(Seq<u8>),
    CNAME(Seq<Seq<u8>>),
    MX(u16, Seq<Seq<u8>>),
    NS(Seq<Seq<u8>>),
    PTR(Seq<Seq<u8>>),
    TXT(Seq<Seq<u8>>),
    SRV(u16, u16, u16, Seq<Seq<u8>>),
    SOA(Seq<Seq<u8>>, Seq<Seq<u8>>, u32, u32, u32, u32, u32),
}

/// The record type of a record.
pub open spec fn model_type(m: RecordModel) -> Type {
    match m {
        RecordModel::A(..) => Type::A,
        RecordModel::AAAA(..) => Type::AAAA,
        RecordModel::CNAME(..) => Type::CNAME,
        RecordModel::MX(..) => Type::MX,
        RecordModel::NS(..) => Type::NS,
        RecordModel::PTR(..) => Type::PTR,
        RecordModel::TXT(..) => Type::TXT,
        RecordModel::SRV(..) => Type::SRV,
        RecordModel::SOA(..) => Type::SOA,
    }
}

/// The record data of a record, as the encoder writes it.
pub open spec fn rdata_wire(m: RecordModel) -> Seq<u8> {
    match m {
        RecordModel::A(b) => b,
        RecordModel::AAAA(b) => b,
        RecordModel::CNAME(n) => name_wire(n),
        RecordModel::MX(pref, n) => u16_wire(pref) + name_wire(n),
        RecordModel::NS(n) => name_wire(n),
        RecordModel::PTR(n) => name_wire(n),
        RecordModel::TXT(es) => strings_wire(es),
        RecordModel::SRV(prio, weight, port, n) => u16_wire(prio) + u16_wire(weight) + u16_wire(
            port,
        ) + name_wire(n),
        RecordModel::SOA(m, r, serial, refresh, retry, expire, min) => name_wire(m) + name_wire(r)
            + u32_wire(serial) + u32_wire(refresh) + u32_wire(retry) + u32_wire(expire) + u32_wire(
            min,
        ),
    }
}

/// Every entry of a TXT record fits a `<character-string>`.
pub open spec fn strings_fit(es: Seq<Seq<u8>>) -> bool {
    forall|i: int| 0 <= i < es.len() ==> #[trigger] es[i].len() <= 255
}

/// A record that the encoder can write: its TXT entries are at most 255 bytes long.
pub open spec fn encodable(m: RecordModel) -> bool {
    match m {
        RecordModel::TXT(es) => strings_fit(es),
        _ => true,
    }
}

/// The `<character-string>` entries from `p` to the end of `d`.
pub open spec fn strings_at(d: Seq<u8>, p: int) -> Result<Seq<Seq<u8>>, Error>
    decreases d.len() - p,
{
    if p < 0 || p >= d.len() {
        Ok(seq![])
    } else if p + 1 + d[p] > d.len() {
        Err(Error::Eof)
    } else {
        match strings_at(d, p + 1 + d[p]) {
            Ok(rest) => Ok(seq![d.subrange(p + 1, p + 1 + d[p])] + rest),
            Err(e) => Err(e),
        }
    }
}

/// A record whose data is one domain name at `p`.
pub open spec fn name_record_at(d: Seq<u8>, p: int) -> Result<Seq<Seq<u8>>, Error> {
    match domain_name_at(d, p) {
        Ok((n, _)) => Ok(n),
        Err(e) => Err(e),
    }
}

/// The record of type `ty` whose data starts at `p` in `d` (which ends where the data ends), or
/// `None` where the type is not supported.
pub open spec fn record_at(ty: Type, d: Seq<u8>, p: int) -> Option<Result<RecordModel, Error>> {
    match ty {
        Type::A => Some(
            if p + 4 <= d.len() {
                Ok(RecordModel::A(d.subrange(p, p + 4)))
            } else {
                Err(Error::Eof)
            },
        ),
        Type::AAAA => Some(
            if p + 16 <= d.len() {
                Ok(RecordModel::AAAA(d.subrange(p, p + 16)))
            } else {
                Err(Error::Eof)
            },
        ),
        Type::CNAME => Some(
            match name_record_at(d, p) {
                Ok(n) => Ok(RecordModel::CNAME(n)),
                Err(e) => Err(e),
            },
        ),
        Type::NS => Some(
            match name_record_at(d, p) {
                Ok(n) => Ok(RecordModel::NS(n)),
                Err(e) => Err(e),
            },
        ),
        Type::PTR => Some(
            match name_record_at(d, p) {
                Ok(n) => Ok(RecordModel::PTR(n)),
                Err(e) => Err(e),
            },
        ),
        Type::MX => Some(
            if p + 2 <= d.len() {
                match name_record_at(d, p + 2) {
                    Ok(n) => Ok(RecordModel::MX(be16(d, p), n)),
                    Err(e) => Err(e),
                }
            } else {
                Err(Error::Eof)
            },
        ),
        Type::TXT => Some(
            match strings_at(d, p) {
                Ok(es) => Ok(RecordModel::TXT(es)),
                Err(e) => Err(e),
            },
        ),
        Type::SRV => Some(
            if p + 6 <= d.len() {
                match name_record_at(d, p + 6) {
                    Ok(n) => Ok(RecordModel::SRV(be16(d, p), be16(d, p + 2), be16(d, p + 4), n)),
                    Err(e) => Err(e),
                }
            } else {
                Err(Error::Eof)
            },
        ),
        Type::SOA => Some(
            match domain_name_at(d, p) {
                Ok((m, p1)) => match domain_name_at(d, p1) {
                    Ok((r, p2)) => if p2 + 20 <= d.len() {
                        Ok(
                            RecordModel::SOA(
                                m,
                                r,
                                be32(d, p2),
                                be32(d, p2 + 4),
                                be32(d, p2 + 8),
                                be32(d, p2 + 12),
                                be32(d, p2 + 16),
                            ),
                        )
                    } else {
                        Err(Error::Eof)
                    },
                    Err(e) => Err(e),
                },
                Err(e) => Err(e),
            },
        ),
        _ => None,
    }
}

/// Where the data of a record of type `ty` at `p` in `d` ends, when it decodes: after the
/// fixed-size fields and names it holds, or at the end of `d` for TXT entries.
pub open spec fn record_end(ty: Type, d: Seq<u8>, p: int) -> int {
    match ty {
        Type::A => p + 4,
        Type::AAAA => p + 16,
        Type::CNAME => domain_name_at(d, p)->Ok_0.1,
        Type::NS => domain_name_at(d, p)->Ok_0.1,
        Type::PTR => domain_name_at(d, p)->Ok_0.1,
        Type::MX => domain_name_at(d, p + 2)->Ok_0.1,
        Type::TXT => d.len() as int,
        Type::SRV => domain_name_at(d, p + 6)->Ok_0.1,
        Type::SOA => domain_name_at(d, domain_name_at(d, p)->Ok_0.1)->Ok_0.1 + 20,
        _ => p,
    }
}

/// `r` is what decoding a record of type `ty` at `p` in `d` gives.
pub open spec fn decodes_as(ty: Type, d: Seq<u8>, p: int, r: Result<Record, Error>) -> bool {
    match record_at(ty, d, p) {
        Some(Ok(m)) => r is Ok && r->Ok_0@ == m,
        Some(Err(e)) => r is Err && r->Err_0 == e,
        None => false,
    }
}

/// A record storing an IPv4 address.
#[derive(Debug)]
pub struct A {
    pub addr: [u8; 4],
}

impl A {
    /// Creates an `A` record storing the IPv4 address with octets `addr`.
    pub fn new(addr: [u8; 4]) -> (r: A)
        ensures
            r.addr == addr,
    {
        A { addr }
    }

    /// The octets of the IPv4 address.
    pub fn addr(&self) -> (r: [u8; 4])
        ensures
            r == self.addr,
    {
        self.addr
    }
}

/// A record storing an IPv6 address.
#[derive(Debug)]
pub struct AAAA {
    pub addr: [u8; 16],
}

impl AAAA {
    /// Creates an `AAAA` record storing the IPv6 address with octets `addr`.
    pub fn new(addr: [u8; 16]) -> (r: AAAA)
        ensures
            r.addr == addr,
    {
        AAAA { addr }
    }

    /// The octets of the IPv6 address.
    pub fn addr(&self) -> (r: [u8; 16])
        ensures
            r == self.addr,
    {
        self.addr
    }
}

/// A record storing the canonical name of a domain.
#[derive(Debug)]
pub struct CNAME {
    pub name: DomainName,
}

impl CNAME {
    /// Creates a `CNAME` record from the canonical name.
    pub fn new(name: DomainName) -> (r: CNAME)
        ensures
            r.name@ == name@,
    {
        CNAME { name }
    }

    /// The canonical name.
    pub fn cname(&self) -> (r: &DomainName)
        ensures
            r@ == self.name@,
    {
        &self.name
    }
}

/// A mail exchanger record: the mail server in charge of a domain.
#[derive(Debug)]
pub struct MX {
    pub preference: u16,
    pub exchange: DomainName,
}

impl MX {
    /// Creates an `MX` record from its preference number and the mail server's name.
    pub fn new(preference: u16, exchange: DomainName) -> (r: MX)
        ensures
            r.preference == preference,
            r.exchange@ == exchange@,
    {
        MX { preference, exchange }
    }

    /// The preference number; lower numbers are preferred.
    pub fn preference(&self) -> (r: u16)
        ensures
            r == self.preference,
    {
        self.preference
    }

    /// The name of the mail server.
    pub fn exchange(&self) -> (r: &DomainName)
        ensures
            r@ == self.exchange@,
    {
        &self.exchange
    }
}

/// A record storing the authoritative name server of a domain.
#[derive(Debug)]
pub struct NS {
    pub nsdname: DomainName,
}

impl NS {
    /// Creates an `NS` record from the name of the authoritative name server.
    pub fn new(nsdname: DomainName) -> (r: NS)
        ensures
            r.nsdname@ == nsdname@,
    {
        NS { nsdname }
    }

    /// The name of the authoritative name server.
    pub fn nsdname(&self) -> (r: &DomainName)
        ensures
            r@ == self.nsdname@,
    {
        &self.nsdname
    }
}

/// A record pointing at another domain name (reverse lookups, service discovery).
#[derive(Debug)]
pub struct PTR {
    pub ptrdname: DomainName,
}

impl PTR {
    /// Creates a `PTR` record pointing at `ptrdname`.
    pub fn new(ptrdname: DomainName) -> (r: PTR)
        ensures
            r.ptrdname@ == ptrdname@,
    {
        PTR { ptrdname }
    }

    /// The name this record points at.
    pub fn ptrdname(&self) -> (r: &DomainName)
        ensures
            r@ == self.ptrdname@,
    {
        &self.ptrdname
    }
}

/// A free-form data record holding `<character-string>` entries.
#[derive(Debug)]
pub struct TXT {
    pub entries: Vec<Vec<u8>>,
}

impl TXT {
    /// The entries, as plain byte strings.
    pub open spec fn spec_entries(&self) -> Seq<Seq<u8>> {
        self.entries@.map_values(|e: Vec<u8>| e@)
    }

    /// Creates a `TXT` record from one or more entries.
    pub fn new(entries: Vec<Vec<u8>>) -> (r: TXT)
        requires
            entries@.len() > 0,
        ensures
            r.entries == entries,
    {
        TXT { entries }
    }

    /// The entries of this record.
    pub fn entries(&self) -> (r: &[Vec<u8>])
        ensures
            r@ == self.entries@,
    {
        self.entries.as_slice()
    }
}

/// A service record: the host and port of a network service.
#[derive(Debug)]
pub struct SRV {
    pub priority: u16,
    pub weight: u16,
    pub port: u16,
    pub target: DomainName,
}

impl SRV {
    /// Creates an `SRV` record.
    pub fn new(priority: u16, weight: u16, port: u16, target: DomainName) -> (r: SRV)
        ensures
            r.priority == priority,
            r.weight == weight,
            r.port == port,
            r.target@ == target@,
    {
        SRV { priority, weight, port, target }
    }

    /// The priority; lower values are preferred.
    pub fn priority(&self) -> (r: u16)
        ensures
            r == self.priority,
    {
        self.priority
    }

    /// The weight among records of equal priority.
    pub fn weight(&self) -> (r: u16)
        ensures
            r == self.weight,
    {
        self.weight
    }

    /// The port on which the service is hosted.
    pub fn port(&self) -> (r: u16)
        ensures
            r == self.port,
    {
        self.port
    }

    /// The host on which the service is hosted.
    pub fn target(&self) -> (r: &DomainName)
        ensures
            r@ == self.target@,
    {
        &self.target
    }
}

/// Administrative information about a DNS zone.
#[derive(Debug)]
pub struct SOA {
    pub mname: DomainName,
    pub rname: DomainName,
    pub serial: u32,
    pub refresh: u32,
    pub retry: u32,
    pub expire: u32,
    pub minimum_ttl: u32,
}

impl SOA {
    /// Creates an `SOA` record from all of its fields.
    pub fn new(
        mname: DomainName,
        rname: DomainName,
        serial: u32,
        refresh: u32,
        retry: u32,
        expire: u32,
        minimum_ttl: u32,
    ) -> (r: SOA)
        ensures
            r.mname@ == mname@,
            r.rname@ == rname@,
            r.serial == serial,
            r.refresh == refresh,
            r.retry == retry,
            r.expire == expire,
            r.minimum_ttl == minimum_ttl,
    {
        SOA { mname, rname, serial, refresh, retry, expire, minimum_ttl }
    }

    /// The primary name server of the zone.
    pub fn mname(&self) -> (r: &DomainName)
        ensures
            r@ == self.mname@,
    {
        &self.mname
    }

    /// The mailbox of the zone's administrator, written as a domain name.
    pub fn rname(&self) -> (r: &DomainName)
        ensures
            r@ == self.rname@,
    {
        &self.rname
    }

    /// The serial number of the zone.
    pub fn serial(&self) -> (r: u32)
        ensures
            r == self.serial,
    {
        self.serial
    }

    /// Seconds after which the zone should be refreshed.
    pub fn refresh(&self) -> (r: u32)
        ensures
            r == self.refresh,
    {
        self.refresh
    }

    /// Seconds after which a failed refresh should be retried.
    pub fn retry(&self) -> (r: u32)
        ensures
            r == self.retry,
    {
        self.retry
    }

    /// Seconds after which a secondary server stops answering for the zone.
    pub fn expire(&self) -> (r: u32)
        ensures
            r == self.expire,
    {
        self.expire
    }

    /// The `MINIMUM` field of the zone.
    pub fn minimum_ttl(&self) -> (r: u32)
        ensures
            r == self.minimum_ttl,
    {
        self.minimum_ttl
    }
}

/// A record of one of the supported types.
#[derive(Debug)]
pub enum Record {
    A(A),
    AAAA(AAAA),
    CNAME(CNAME),
    MX(MX),
    NS(NS),
    PTR(PTR),
    TXT(TXT),
    SRV(SRV),
    SOA(SOA),
}

impl View for Record {
    type V = RecordModel;

    open spec fn view(&self) -> RecordModel {
        match self {
            Record::A(r) => RecordModel::A(r.addr@),
            Record::AAAA(r) => RecordModel::AAAA(r.addr@),
            Record::CNAME(r) => RecordModel::CNAME(r.name@),
            Record::MX(r) => RecordModel::MX(r.preference, r.exchange@),
            Record::NS(r) => RecordModel::NS(r.nsdname@),
            Record::PTR(r) => RecordModel::PTR(r.ptrdname@),
            Record::TXT(r) => RecordModel::TXT(r.spec_entries()),
            Record::SRV(r) => RecordModel::SRV(r.priority, r.weight, r.port, r.target@),
            Record::SOA(r) => RecordModel::SOA(
                r.mname@,
                r.rname@,
                r.serial,
                r.refresh,
                r.retry,
                r.expire,
                r.minimum_ttl,
            ),
        }
    }
}


impl Record {
    /// The record type of this record.
    pub fn record_type(&self) -> (r: Type)
        ensures
            r == model_type(self@),
    {
        match self {
            Record::A(_) => Type::A,
            Record::AAAA(_) => Type::AAAA,
            Record::CNAME(_) => Type::CNAME,
            Record::MX(_) => Type::MX,
            Record::NS(_) => Type::NS,
            Record::PTR(_) => Type::PTR,
            Record::TXT(_) => Type::TXT,
            Record::SRV(_) => Type::SRV,
            Record::SOA(_) => Type::SOA,
        }
    }

    /// Appends the record data of this record to `out`.
    pub fn encode(&self, out: &mut Vec<u8>)
        requires
            encodable(self@),
        ensures
            final(out)@ == old(out)@ + rdata_wire(self@),
    {
        match self {
            Record::A(r) => {
                push_slice(out, r.addr.as_slice());
            },
            Record::AAAA(r) => {
                push_slice(out, r.addr.as_slice());
            },
            Record::CNAME(r) => {
                push_domain_name(out, &r.name);
            },
            Record::MX(r) => {
                push_u16(out, r.preference);
                push_domain_name(out, &r.exchange);
                proof {
                    assert(out@ =~= old(out)@ + rdata_wire(self@));
                }
            },
            Record::NS(r) => {
                push_domain_name(out, &r.nsdname);
            },
            Record::PTR(r) => {
                push_domain_name(out, &r.ptrdname);
            },
            Record::TXT(r) => {
                encode_strings(out, r);
            },
            Record::SRV(r) => {
                push_u16(out, r.priority);
                push_u16(out, r.weight);
                push_u16(out, r.port);
                push_domain_name(out, &r.target);
                proof {
                    assert(out@ =~= old(out)@ + rdata_wire(self@));
                }
            },
            Record::SOA(r) => {
                push_domain_name(out, &r.mname);
                push_domain_name(out, &r.rname);
                push_u32(out, r.serial);
                push_u32(out, r.refresh);
                push_u32(out, r.retry);
                push_u32(out, r.expire);
                push_u32(out, r.minimum_ttl);
                proof {
                    assert(out@ =~= old(out)@ + rdata_wire(self@));
                }
            },
        }
    }

    /// Decodes a record of type `ty` whose data starts at the reader's position and ends at the
    /// end of its data, leaving the reader after the data read; `None` where the type is not
    /// supported.
    pub fn decode(ty: Type, r: &mut Reader) -> (res: Option<Result<Record, Error>>)
        ensures
            record_at(ty, old(r).data(), old(r).at()) is None ==> res is None,
            record_at(ty, old(r).data(), old(r).at()) is Some ==> res is Some && decodes_as(
                ty,
                old(r).data(),
                old(r).at(),
                res->Some_0,
            ),
            final(r).data() == old(r).data(),
            res is Some && res->Some_0 is Ok ==> final(r).at() == record_end(
                ty,
                old(r).data(),
                old(r).at(),
            ),
    {
        match ty {
            Type::A => Some(decode_a(r)),
            Type::AAAA => Some(decode_aaaa(r)),
            Type::CNAME => Some(decode_name_record(ty, r)),
            Type::NS => Some(decode_name_record(ty, r)),
            Type::PTR => Some(decode_name_record(ty, r)),
            Type::MX => Some(decode_mx(r)),
            Type::TXT => Some(decode_txt(r)),
            Type::SRV => Some(decode_srv(r)),
            Type::SOA => Some(decode_soa(r)),
            _ => None,
        }
    }
}

fn encode_strings(out: &mut Vec<u8>, txt: &TXT)
    requires
        strings_fit(txt.spec_entries()),
    ensures
        final(out)@ == old(out)@ + strings_wire(txt.spec_entries()),
{
    let ghost start = out@;
    let ghost es = txt.spec_entries();
    let mut i: usize = 0;
    while i < txt.entries.len()
        invariant
            i <= es.len(),
            es == txt.spec_entries(),
            es.len() == txt.entries@.len(),
            strings_fit(es),
            out@ == start + strings_wire(es.subrange(0, i as int)),
        decreases es.len() - i,
    {
        let e = txt.entries[i].as_slice();
        proof {
            assert(e@ == es[i as int]);
            assert(es[i as int].len() <= 255);
        }
        push_character_string(out, e);
        proof {
            let sub = es.subrange(0, i + 1);
            assert(sub.drop_last() =~= es.subrange(0, i as int));
            assert(out@ =~= start + strings_wire(sub));
        }
        i = i + 1;
    }
    proof {
        assert(es.subrange(0, es.len() as int) =~= es);
    }
}

fn decode_a(r: &mut Reader) -> (res: Result<Record, Error>)
    ensures
        decodes_as(Type::A, old(r).data(), old(r).at(), res),
        final(r).data() == old(r).data(),
        res is Ok ==> final(r).at() == record_end(Type::A, old(r).data(), old(r).at()),
{
    let s = r.read_slice(4)?;
    let addr: [u8; 4] = [s[0], s[1], s[2], s[3]];
    proof {
        assert(addr@ =~= s@);
    }
    Ok(Record::A(A { addr }))
}

fn decode_aaaa(r: &mut Reader) -> (res: Result<Record, Error>)
    ensures
        decodes_as(Type::AAAA, old(r).data(), old(r).at(), res),
        final(r).data() == old(r).data(),
        res is Ok ==> final(r).at() == record_end(Type::AAAA, old(r).data(), old(r).at()),
{
    let s = r.read_slice(16)?;
    let addr: [u8; 16] = [
        s[0],
        s[1],
        s[2],
        s[3],
        s[4],
        s[5],
        s[6],
        s[7],
        s[8],
        s[9],
        s[10],
        s[11],
        s[12],
        s[13],
        s[14],
        s[15],
    ];
    proof {
        assert(addr@ =~= s@);
    }
    Ok(Record::AAAA(AAAA { addr }))
}

fn decode_name_record(ty: Type, r: &mut Reader) -> (res: Result<Record, Error>)
    requires
        ty == Type::CNAME || ty == Type::NS || ty == Type::PTR,
    ensures
        decodes_as(ty, old(r).data(), old(r).at(), res),
        final(r).data() == old(r).data(),
        res is Ok ==> final(r).at() == record_end(ty, old(r).data(), old(r).at()),
{
    let name = r.read_domain_name()?;
    match ty {
        Type::CNAME => Ok(Record::CNAME(CNAME { name })),
        Type::NS => Ok(Record::NS(NS { nsdname: name })),
        _ => Ok(Record::PTR(PTR { ptrdname: name })),
    }
}

fn decode_mx(r: &mut Reader) -> (res: Result<Record, Error>)
    ensures
        decodes_as(Type::MX, old(r).data(), old(r).at(), res),
        final(r).data() == old(r).data(),
        res is Ok ==> final(r).at() == record_end(Type::MX, old(r).data(), old(r).at()),
{
    let preference = r.read_u16()?;
    let exchange = r.read_domain_name()?;
    Ok(Record::MX(MX { preference, exchange }))
}

fn decode_srv(r: &mut Reader) -> (res: Result<Record, Error>)
    ensures
        decodes_as(Type::SRV, old(r).data(), old(r).at(), res),
        final(r).data() == old(r).data(),
        res is Ok ==> final(r).at() == record_end(Type::SRV, old(r).data(), old(r).at()),
{
    if r.buf().len() < 6 {
        return Err(Error::Eof);
    }
    let priority = r.read_u16()?;
    let weight = r.read_u16()?;
    let port = r.read_u16()?;
    let target = r.read_domain_name()?;
    Ok(Record::SRV(SRV { priority, weight, port, target }))
}

fn decode_soa(r: &mut Reader) -> (res: Result<Record, Error>)
    ensures
        decodes_as(Type::SOA, old(r).data(), old(r).at(), res),
        final(r).data() == old(r).data(),
        res is Ok ==> final(r).at() == record_end(Type::SOA, old(r).data(), old(r).at()),
{
    let mname = r.read_domain_name()?;
    let rname = r.read_domain_name()?;
    if r.buf().len() < 20 {
        return Err(Error::Eof);
    }
    let serial = r.read_u32()?;
    let refresh = r.read_u32()?;
    let retry = r.read_u32()?;
    let expire = r.read_u32()?;
    let minimum_ttl = r.read_u32()?;
    Ok(Record::SOA(SOA { mname, rname, serial, refresh, retry, expire, minimum_ttl }))
}

fn decode_txt(r: &mut Reader) -> (res: Result<Record, Error>)
    ensures
        decodes_as(Type::TXT, old(r).data(), old(r).at(), res),
        final(r).data() == old(r).data(),
        res is Ok ==> final(r).at() == record_end(Type::TXT, old(r).data(), old(r).at()),
{
    let _ = r.pos();
    let ghost d = r.data();
    let ghost p0 = r.at();
    let mut entries: Vec<Vec<u8>> = Vec::new();
    while r.buf().len() > 0
        invariant
            r.data() == d,
            d == old(r).data(),
            p0 == old(r).at(),
            0 <= p0 <= r.at() <= d.len(),
            strings_at(d, p0) == match strings_at(d, r.at()) {
                Ok(rest) => Ok(entries@.map_values(|e: Vec<u8>| e@) + rest),
                Err(e) => Err::<Seq<Seq<u8>>, Error>(e),
            },
        decreases d.len() - r.at(),
    {
        let ghost p = r.at();
        proof {
            assert(0 <= p < d.len());
            if p + 1 + d[p] > d.len() {
                assert(strings_at(d, p) == Err::<Seq<Seq<u8>>, Error>(Error::Eof));
            }
        }
        let s = r.read_character_string()?;
        let v = vstd::slice::slice_to_vec(s);
        let ghost before = entries@.map_values(|e: Vec<u8>| e@);
        entries.push(v);
        proof {
            assert(entries@.map_values(|e: Vec<u8>| e@) =~= before.push(s@));
            match strings_at(d, r.at()) {
                Ok(rest) => {
                    assert(before + (seq![s@] + rest) =~= before.push(s@) + rest);
                },
                Err(e) => {},
            }
        }
    }
    proof {
        assert(entries@.map_values(|e: Vec<u8>| e@) + Seq::<Seq<u8>>::empty() =~= entries@.map_values(
            |e: Vec<u8>| e@,
        ));
    }
    let txt = TXT { entries };
    Ok(Record::TXT(txt))
}
} // verus!
