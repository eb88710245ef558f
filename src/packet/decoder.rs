//! DNS message decoder.
use crate::name::{DomainName, Label, MAX_NAME_LEN};
use crate::packet::encoder::name_wire;
use crate::packet::error::Error;
use crate::packet::records::{Record, decodes_as, record_at};
use crate::packet::{Class, Header, QClass, QType, Section, Type, next_section, section_index};
use vstd::prelude::*;

verus! {

/// The big-endian 16-bit integer at `buf[i..i + 2]`.
pub open spec fn be16(buf: Seq<u8>, i: int) -> u16 {
    (buf[i] as int * 256 + buf[i + 1] as int) as u16
}

/// The big-endian 32-bit integer at `buf[i..i + 4]`.
pub open spec fn be32(buf: Seq<u8>, i: int) -> u32 {
    (buf[i] as int * 16777216 + buf[i + 1] as int * 65536 + buf[i + 2] as int * 256
        + buf[i + 3] as int) as u32
}

/// Decodes the rest of a domain name whose labels so far are `labels`, reading at `pos`.
///
/// A pointer must point strictly before `bound`, which then becomes the pointer's target; `hi`
/// is the furthest position that the name has occupied in the message so far. The result holds
/// the labels and the position after the name.
pub open spec fn name_at(buf: Seq<u8>, pos: int, bound: int, hi: int, labels: Seq<Seq<u8>>) -> Result<
    (Seq<Seq<u8>>, int),
    Error,
>
    decreases bound, buf.len() - pos,
{
    if pos < 0 || pos >= buf.len() {
        Err(Error::Eof)
    } else {
        let b = buf[pos];
        if b >= 0xc0 {
            if pos + 2 > buf.len() {
                Err(Error::Eof)
            } else {
                let ptr = (b - 0xc0) * 256 + buf[pos + 1];
                if ptr >= bound {
                    Err(Error::PointerLoop)
                } else {
                    name_at(buf, ptr, ptr, if hi < pos + 2 { pos + 2 } else { hi }, labels)
                }
            }
        } else if b >= 0x40 {
            Err(Error::InvalidValue)
        } else if b == 0 {
            Ok((labels, if hi < pos + 1 { pos + 1 } else { hi }))
        } else if pos + 1 + b > buf.len() {
            Err(Error::Eof)
        } else {
            name_at(buf, pos + 1 + b, bound, hi, labels.push(buf.subrange(pos + 1, pos + 1 + b)))
        }
    }
}

/// The domain name that starts at `pos`, and the position after it.
#[verifier::opaque]
pub open spec fn domain_name_at(buf: Seq<u8>, pos: int) -> Result<(Seq<Seq<u8>>, int), Error> {
    name_within_limit(name_at(buf, pos, pos, pos, seq![]))
}

/// A decoded name, where it fits `MAX_NAME_LEN` bytes on the wire; `InvalidValue` where not.
pub open spec fn name_within_limit(r: Result<(Seq<Seq<u8>>, int), Error>) -> Result<
    (Seq<Seq<u8>>, int),
    Error,
> {
    match r {
        Ok((n, end)) => if name_wire(n).len() <= MAX_NAME_LEN {
            Ok((n, end))
        } else {
            Err(Error::InvalidValue)
        },
        Err(e) => Err(e),
    }
}

/// A cursor over a whole DNS message.
///
/// Domain-name pointers may refer to any earlier part of the message, so the cursor keeps the
/// message from its start and moves a position over it.
#[derive(Debug)]
pub struct Reader<'a> {
    full_buf: &'a [u8],
    pos: usize,
}

impl<'a> Reader<'a> {
    #[verifier::type_invariant]
    spec fn inv(self) -> bool {
        self.pos <= self.full_buf@.len()
    }

    /// The bytes that the reader reads from.
    pub closed spec fn data(&self) -> Seq<u8> {
        self.full_buf@
    }

    /// The position of the next byte to read.
    pub closed spec fn at(&self) -> int {
        self.pos as int
    }

    /// Creates a reader at the start of `buf`.
    pub fn new(buf: &'a [u8]) -> (r: Reader<'a>)
        ensures
            r.data() == buf@,
            r.at() == 0,
    {
        Reader { full_buf: buf, pos: 0 }
    }

    /// Moves the reader to `pos`.
    pub fn set_pos(&mut self, pos: usize)
        requires
            pos <= old(self).data().len(),
        ensures
            final(self).data() == old(self).data(),
            final(self).at() == pos,
    {
        self.pos = pos;
    }

    /// The position of the next byte to read.
    pub fn pos(&self) -> (r: usize)
        ensures
            r == self.at(),
            r <= self.data().len(),
    {
        proof {
            use_type_invariant(self);
        }
        self.pos
    }

    /// The bytes from the position to the end.
    pub fn buf(&self) -> (r: &'a [u8])
        ensures
            0 <= self.at() <= self.data().len(),
            r@ == self.data().subrange(self.at(), self.data().len() as int),
    {
        proof {
            use_type_invariant(self);
        }
        vstd::slice::slice_subrange(self.full_buf, self.pos, self.full_buf.len())
    }

    /// Reads `len` bytes.
    pub fn read_slice(&mut self, len: usize) -> (r: Result<&'a [u8], Error>)
        ensures
            final(self).data() == old(self).data(),
            old(self).at() + len <= old(self).data().len() ==> r is Ok && r->Ok_0@
                == old(self).data().subrange(old(self).at(), old(self).at() + len) && r->Ok_0@.len() == len && final(self).at() == old(self).at() + len,
            old(self).at() + len > old(self).data().len() ==> r == Err::<&[u8], Error>(Error::Eof)
                && final(self).at() == old(self).at(),
    {
        proof {
            use_type_invariant(&*self);
        }
        if len <= self.full_buf.len() - self.pos {
            let s = vstd::slice::slice_subrange(self.full_buf, self.pos, self.pos + len);
            self.pos = self.pos + len;
            Ok(s)
        } else {
            Err(Error::Eof)
        }
    }

    /// Reads one byte.
    pub fn read_u8(&mut self) -> (r: Result<u8, Error>)
        ensures
            final(self).data() == old(self).data(),
            old(self).at() + 1 <= old(self).data().len() ==> r == Ok::<u8, Error>(
                old(self).data()[old(self).at()],
            ) && final(self).at() == old(self).at() + 1,
            old(self).at() + 1 > old(self).data().len() ==> r == Err::<u8, Error>(Error::Eof)
                && final(self).at() == old(self).at(),
    {
        proof {
            use_type_invariant(&*self);
        }
        if self.pos < self.full_buf.len() {
            let b = self.full_buf[self.pos];
            self.pos = self.pos + 1;
            Ok(b)
        } else {
            Err(Error::Eof)
        }
    }

    /// Reads a big-endian 16-bit integer.
    pub fn read_u16(&mut self) -> (r: Result<u16, Error>)
        ensures
            final(self).data() == old(self).data(),
            old(self).at() + 2 <= old(self).data().len() ==> r == Ok::<u16, Error>(
                be16(old(self).data(), old(self).at()),
            ) && final(self).at() == old(self).at() + 2,
            old(self).at() + 2 > old(self).data().len() ==> r == Err::<u16, Error>(Error::Eof)
                && final(self).at() == old(self).at(),
    {
        proof {
            use_type_invariant(&*self);
        }
        if 2 <= self.full_buf.len() - self.pos {
            let p = self.pos;
            let v = (self.full_buf[p] as u16) * 256 + (self.full_buf[p + 1] as u16);
            self.pos = p + 2;
            Ok(v)
        } else {
            Err(Error::Eof)
        }
    }

    /// Reads a big-endian 32-bit integer.
    pub fn read_u32(&mut self) -> (r: Result<u32, Error>)
        ensures
            final(self).data() == old(self).data(),
            old(self).at() + 4 <= old(self).data().len() ==> r == Ok::<u32, Error>(
                be32(old(self).data(), old(self).at()),
            ) && final(self).at() == old(self).at() + 4,
            old(self).at() + 4 > old(self).data().len() ==> r == Err::<u32, Error>(Error::Eof)
                && final(self).at() == old(self).at(),
    {
        proof {
            use_type_invariant(&*self);
        }
        if 4 <= self.full_buf.len() - self.pos {
            let p = self.pos;
            let v = (self.full_buf[p] as u32) * 16777216 + (self.full_buf[p + 1] as u32) * 65536
                + (self.full_buf[p + 2] as u32) * 256 + (self.full_buf[p + 3] as u32);
            self.pos = p + 4;
            Ok(v)
        } else {
            Err(Error::Eof)
        }
    }

    /// Reads a `<character-string>`: a length byte and that many bytes.
    pub fn read_character_string(&mut self) -> (r: Result<&'a [u8], Error>)
        ensures
            final(self).data() == old(self).data(),
            ({
                let d = old(self).data();
                let p = old(self).at();
                if p + 1 <= d.len() && p + 1 + d[p] <= d.len() {
                    r is Ok && r->Ok_0@ == d.subrange(p + 1, p + 1 + d[p]) && final(self).at()
                        == p + 1 + d[p]
                } else {
                    r == Err::<&[u8], Error>(Error::Eof)
                }
            }),
    {
        let length = self.read_u8()?;
        self.read_slice(length as usize)
    }

    /// Splits off a reader over the next `len` bytes, whose data ends there but still holds the
    /// message before them, and moves past those bytes.
    pub fn split_off(&mut self, len: usize) -> (r: Result<Reader<'a>, Error>)
        ensures
            final(self).data() == old(self).data(),
            old(self).at() + len <= old(self).data().len() ==> r is Ok && r->Ok_0.data()
                == old(self).data().subrange(0, old(self).at() + len) && r->Ok_0.at() == old(self).at() && final(self).at() == old(self).at() + len,
            old(self).at() + len > old(self).data().len() ==> r is Err && r->Err_0 == Error::Eof
                && final(self).at() == old(self).at(),
    {
        proof {
            use_type_invariant(&*self);
        }
        if len <= self.full_buf.len() - self.pos {
            let copy = Reader {
                full_buf: vstd::slice::slice_subrange(self.full_buf, 0, self.pos + len),
                pos: self.pos,
            };
            self.pos = self.pos + len;
            Ok(copy)
        } else {
            Err(Error::Eof)
        }
    }

    /// Reads a `<domain-name>`, following compression pointers.
    ///
    /// Every pointer must point strictly before the position where the name started and before
    /// every pointer followed so far, which rules out loops. A name longer than `MAX_NAME_LEN`
    /// bytes on the wire gives `InvalidValue`.
    pub fn read_domain_name(&mut self) -> (r: Result<DomainName, Error>)
        ensures
            final(self).data() == old(self).data(),
            match domain_name_at(old(self).data(), old(self).at()) {
                Ok((n, end)) => r is Ok && r->Ok_0@ == n && final(self).at() == end,
                Err(e) => r is Err && r->Err_0 == e && final(self).at() == old(self).at(),
            },
    {
        proof {
            use_type_invariant(&*self);
            reveal(domain_name_at);
        }
        let buf = self.full_buf;
        let len = buf.len();
        let start = self.pos;
        let mut name = DomainName::root();
        let mut cur: usize = start;
        let mut bound: usize = start;
        let mut hi: usize = start;
        loop
            invariant
                len == buf@.len(),
                buf@ == self.data(),
                self.data() == old(self).data(),
                self.at() == start,
                start == old(self).at(),
                cur <= len,
                bound <= len,
                hi <= len,
                domain_name_at(buf@, start as int) == name_within_limit(
                    name_at(buf@, cur as int, bound as int, hi as int, name@),
                ),
            decreases bound, len - cur,
        {
            if cur >= len {
                return Err(Error::Eof);
            }
            let b = buf[cur];
            if b >= 0xc0 {
                if len - cur < 2 {
                    return Err(Error::Eof);
                }
                let ptr: usize = ((b - 0xc0) as usize) * 256 + (buf[cur + 1] as usize);
                if ptr >= bound {
                    return Err(Error::PointerLoop);
                }
                if hi < cur + 2 {
                    hi = cur + 2;
                }
                bound = ptr;
                cur = ptr;
            } else if b >= 0x40 {
                return Err(Error::InvalidValue);
            } else if b == 0 {
                if hi < cur + 1 {
                    hi = cur + 1;
                }
                if !name.wire_len_within(MAX_NAME_LEN) {
                    return Err(Error::InvalidValue);
                }
                self.pos = hi;
                return Ok(name);
            } else {
                let n = b as usize;
                if n > len - cur - 1 {
                    return Err(Error::Eof);
                }
                let bytes = vstd::slice::slice_subrange(buf, cur + 1, cur + 1 + n);
                let label = Label::new(bytes);
                name.push_label(label);
                cur = cur + 1 + n;
            }
        }
    }
}


impl<'a> Clone for Reader<'a> {
    fn clone(&self) -> (r: Self)
        ensures
            r.data() == self.data(),
            r.at() == self.at(),
    {
        proof {
            use_type_invariant(self);
        }
        Reader { full_buf: self.full_buf, pos: self.pos }
    }
}

/// The question at `p`: its name, raw type and raw class, and the position after it.
#[verifier::opaque]
pub open spec fn question_at(d: Seq<u8>, p: int) -> Result<(Seq<Seq<u8>>, u16, u16, int), Error> {
    match domain_name_at(d, p) {
        Ok((n, p1)) => if p1 + 4 <= d.len() {
            Ok((n, be16(d, p1), be16(d, p1 + 2), p1 + 4))
        } else {
            Err(Error::Eof)
        },
        Err(e) => Err(e),
    }
}

/// The resource record at `p`: its name, raw type, raw class, TTL, the position and length of
/// its record data (which ends the record).
#[verifier::opaque]
pub open spec fn rr_at(d: Seq<u8>, p: int) -> Result<(Seq<Seq<u8>>, u16, u16, u32, int, int), Error> {
    match domain_name_at(d, p) {
        Ok((n, p1)) => if p1 + 10 <= d.len() && p1 + 10 + be16(d, p1 + 8) <= d.len() {
            Ok((n, be16(d, p1), be16(d, p1 + 2), be32(d, p1 + 4), p1 + 10, be16(d, p1 + 8) as int))
        } else {
            Err(Error::Eof)
        },
        Err(e) => Err(e),
    }
}

/// The class that a raw class field carries, without its top bit.
pub open spec fn class_bits(raw: u16) -> u16 {
    (raw % 0x8000) as u16
}

/// Whether the top bit of a raw class field (unicast-response or cache-flush) is set.
pub open spec fn top_bit(raw: u16) -> bool {
    raw >= 0x8000
}

/// A question from a DNS query message.
#[derive(Debug)]
pub struct Question {
    pub qname: DomainName,
    pub qtype: QType,
    pub qclass: QClass,
    pub prefer_unicast: bool,
}

impl Question {
    /// `self` is the question with name `n`, raw type `t` and raw class `c`.
    pub open spec fn is(&self, n: Seq<Seq<u8>>, t: u16, c: u16) -> bool {
        &&& self.qname@ == n
        &&& self.qtype == QType::spec_from_code(t)
        &&& self.qclass == QClass::spec_from_code(class_bits(c))
        &&& self.prefer_unicast == top_bit(c)
    }

    /// The domain name that is being queried.
    pub fn qname(&self) -> (r: &DomainName)
        ensures
            r@ == self.qname@,
    {
        &self.qname
    }

    /// The record types the client is interested in.
    pub fn qtype(&self) -> (r: QType)
        ensures
            r == self.qtype,
    {
        self.qtype
    }

    /// The record class the client is interested in.
    pub fn qclass(&self) -> (r: QClass)
        ensures
            r == self.qclass,
    {
        self.qclass
    }

    /// Whether the client prefers a unicast response (mDNS).
    pub fn prefer_unicast(&self) -> (r: bool)
        ensures
            r == self.prefer_unicast,
    {
        self.prefer_unicast
    }
}

/// A resource record from the *Answer*, *Authority* or *Additional Records* section.
#[derive(Debug)]
pub struct ResourceRecord<'a> {
    pub name: DomainName,
    pub type_: Type,
    pub class: Class,
    pub cache_flush: bool,
    pub ttl: u32,
    /// A reader at the record data, whose data ends where the record data ends.
    pub rdata: Reader<'a>,
}

impl<'a> ResourceRecord<'a> {
    /// `self` is the record described by `rr_at` in message `d`.
    pub open spec fn is(&self, d: Seq<u8>, m: (Seq<Seq<u8>>, u16, u16, u32, int, int)) -> bool {
        &&& self.name@ == m.0
        &&& self.type_ == Type::spec_from_code(m.1)
        &&& self.class == Class::spec_from_code(class_bits(m.2))
        &&& self.cache_flush == top_bit(m.2)
        &&& self.ttl == m.3
        &&& self.rdata.data() == d.subrange(0, m.4 + m.5)
        &&& self.rdata.at() == m.4
    }

    /// The owner name of the record.
    pub fn name(&self) -> (r: &DomainName)
        ensures
            r@ == self.name@,
    {
        &self.name
    }

    /// The record type.
    pub fn type_(&self) -> (r: Type)
        ensures
            r == self.type_,
    {
        self.type_
    }

    /// The record class.
    pub fn class(&self) -> (r: Class)
        ensures
            r == self.class,
    {
        self.class
    }

    /// Whether the record's mDNS cache-flush bit is set.
    pub fn cache_flush(&self) -> (r: bool)
        ensures
            r == self.cache_flush,
    {
        self.cache_flush
    }

    /// The record's time to live, in seconds.
    pub fn ttl(&self) -> (r: u32)
        ensures
            r == self.ttl,
    {
        self.ttl
    }

    /// The raw record data.
    pub fn rdata(&self) -> (r: &'a [u8])
        ensures
            r@ == self.rdata.data().subrange(self.rdata.at(), self.rdata.data().len() as int),
    {
        self.rdata.buf()
    }

    /// Decodes the record data if the type is supported; `None` where it is not.
    pub fn as_enum(&self) -> (r: Option<Result<Record, Error>>)
        ensures
            record_at(self.type_, self.rdata.data(), self.rdata.at()) is None ==> r is None,
            record_at(self.type_, self.rdata.data(), self.rdata.at()) is Some ==> r is Some
                && decodes_as(self.type_, self.rdata.data(), self.rdata.at(), r->Some_0),
    {
        let mut r = self.rdata.clone();
        Record::decode(self.type_, &mut r)
    }
}

impl<'a> Reader<'a> {
    /// Reads a question.
    pub fn read_question(&mut self) -> (r: Result<Question, Error>)
        ensures
            final(self).data() == old(self).data(),
            match question_at(old(self).data(), old(self).at()) {
                Ok(m) => r is Ok && r->Ok_0.is(m.0, m.1, m.2) && final(self).at() == m.3,
                Err(e) => r is Err && r->Err_0 == e,
            },
    {
        proof {
            reveal(question_at);
        }
        let qname = self.read_domain_name()?;
        let qtype = self.read_u16()?;
        let raw = self.read_u16()?;
        let prefer_unicast = raw >= 0x8000;
        let class = if prefer_unicast { raw - 0x8000 } else { raw };
        Ok(Question {
            qname,
            qtype: QType::from_code(qtype),
            qclass: QClass::from_code(class),
            prefer_unicast,
        })
    }

    /// Reads a resource record, leaving a reader at its record data in the result.
    pub fn read_resource_record(&mut self) -> (r: Result<ResourceRecord<'a>, Error>)
        ensures
            final(self).data() == old(self).data(),
            match rr_at(old(self).data(), old(self).at()) {
                Ok(m) => r is Ok && r->Ok_0.is(old(self).data(), m) && final(self).at() == m.4 + m.5,
                Err(e) => r is Err && r->Err_0 == e,
            },
    {
        proof {
            reveal(rr_at);
        }
        let name = self.read_domain_name()?;
        if self.buf().len() < 10 {
            return Err(Error::Eof);
        }
        let ty = self.read_u16()?;
        let raw = self.read_u16()?;
        let ttl = self.read_u32()?;
        let rdlength = self.read_u16()?;
        let rdata = self.split_off(rdlength as usize)?;
        let cache_flush = raw >= 0x8000;
        let class = if cache_flush { raw - 0x8000 } else { raw };
        Ok(ResourceRecord {
            name,
            type_: Type::from_code(ty),
            class: Class::from_code(class),
            cache_flush,
            ttl,
            rdata,
        })
    }
}

/// The header at the start of `d`.
pub open spec fn header_at(d: Seq<u8>) -> Header {
    Header {
        id: be16(d, 0),
        flags: be16(d, 2),
        qdcount: be16(d, 4),
        ancount: be16(d, 6),
        nscount: be16(d, 8),
        arcount: be16(d, 10),
    }
}

/// The state of a message decoder, as plain values.
pub struct DecoderView {
    pub header: Header,
    /// Entries left in each section, in section order.
    pub q_remaining: u16,
    pub ans_remaining: u16,
    pub auth_remaining: u16,
    pub addl_remaining: u16,
    /// The whole message and the position of the next entry.
    pub data: Seq<u8>,
    pub at: int,
    /// The error of the first entry that failed to decode; nothing more is decoded after that,
    /// and moving past the section gives this error.
    pub error: Option<Error>,
    pub section: Section,
}

/// The number of entries left in section `s`.
pub open spec fn remaining_in(v: DecoderView, s: Section) -> u16 {
    match s {
        Section::Question => v.q_remaining,
        Section::Answer => v.ans_remaining,
        Section::Authority => v.auth_remaining,
        Section::Additional => v.addl_remaining,
    }
}

/// `v` after one entry of its current section was read, ending at `end`.
pub open spec fn step_view(v: DecoderView, end: int) -> DecoderView {
    let n = (remaining_in(v, v.section) - 1) as u16;
    let v2 = DecoderView { at: end, ..v };
    match v.section {
        Section::Question => DecoderView { q_remaining: n, ..v2 },
        Section::Answer => DecoderView { ans_remaining: n, ..v2 },
        Section::Authority => DecoderView { auth_remaining: n, ..v2 },
        Section::Additional => DecoderView { addl_remaining: n, ..v2 },
    }
}

/// Where the next entry of `v`'s current section ends, or why it cannot be decoded.
pub open spec fn entry_end(v: DecoderView) -> Result<int, Error> {
    if v.section == Section::Question {
        match question_at(v.data, v.at) {
            Ok(m) => Ok(m.3),
            Err(e) => Err(e),
        }
    } else {
        match rr_at(v.data, v.at) {
            Ok(m) => Ok(m.4 + m.5),
            Err(e) => Err(e),
        }
    }
}

/// `v` after reading the rest of its current section, or the first error met.
pub open spec fn drain_view(v: DecoderView) -> Result<DecoderView, Error>
    decreases remaining_in(v, v.section),
{
    match v.error {
        Some(e) => Err(e),
        None => if remaining_in(v, v.section) == 0 {
            Ok(v)
        } else {
            match entry_end(v) {
                Ok(end) => drain_view(step_view(v, end)),
                Err(e) => Err(e),
            }
        },
    }
}

/// Reading the rest of a section stays in that section, on the same message and header.
pub proof fn lemma_drain_keeps_section(v: DecoderView)
    ensures
        drain_view(v) is Ok ==> drain_view(v)->Ok_0.section == v.section && drain_view(v)->Ok_0.data
            == v.data && drain_view(v)->Ok_0.header == v.header && drain_view(v)->Ok_0.error is None
            && v.error is None,
    decreases remaining_in(v, v.section),
{
    if v.error is Some || remaining_in(v, v.section) == 0 {
    } else {
        match entry_end(v) {
            Ok(end) => {
                lemma_drain_keeps_section(step_view(v, end));
            },
            Err(e) => {},
        }
    }
}

/// `v` moved to section `target`, reading the rest of each section before it; an error where `v`
/// is already past `target`.
pub open spec fn transition_view(v: DecoderView, target: Section) -> Result<DecoderView, Error> {
    if section_index(v.section) > section_index(target) {
        Err(Error::InvalidValue)
    } else {
        advance_view(v, target)
    }
}

/// `v` moved to section `target`, reading the rest of each section before it.
pub open spec fn advance_view(v: DecoderView, target: Section) -> Result<DecoderView, Error>
    decreases section_index(target) - section_index(v.section),
{
    if section_index(v.section) >= section_index(target) {
        Ok(v)
    } else {
        match drain_view(v) {
            Ok(v2) => advance_view(DecoderView { section: next_section(v.section), ..v2 }, target),
            Err(e) => Err(e),
        }
    }
}

/// Moving forward to a section arrives there, on the same message and header, and sets no error.
pub proof fn lemma_advance(v: DecoderView, target: Section)
    requires
        section_index(v.section) <= section_index(target),
    ensures
        advance_view(v, target) is Ok ==> advance_view(v, target)->Ok_0.section == target
            && advance_view(v, target)->Ok_0.data == v.data && advance_view(v, target)->Ok_0.header
            == v.header && advance_view(v, target)->Ok_0.error == v.error,
    decreases section_index(target) - section_index(v.section),
{
    if section_index(v.section) < section_index(target) {
        lemma_drain_keeps_section(v);
        match drain_view(v) {
            Ok(v2) => {
                lemma_advance(DecoderView { section: next_section(v.section), ..v2 }, target);
            },
            Err(e) => {},
        }
    }
}

/// A streaming decoder for DNS messages, which reads the sections in order: questions, answers,
/// authority records and additional records.
pub struct MessageDecoder<'a> {
    header: Header,
    q_remaining: u16,
    ans_remaining: u16,
    auth_remaining: u16,
    addl_remaining: u16,
    r: Reader<'a>,
    error: Option<Error>,
    section: Section,
}

impl<'a> View for MessageDecoder<'a> {
    type V = DecoderView;

    closed spec fn view(&self) -> DecoderView {
        DecoderView {
            header: self.header,
            q_remaining: self.q_remaining,
            ans_remaining: self.ans_remaining,
            auth_remaining: self.auth_remaining,
            addl_remaining: self.addl_remaining,
            data: self.r.data(),
            at: self.r.at(),
            error: self.error,
            section: self.section,
        }
    }
}

impl<'a> MessageDecoder<'a> {
    /// Creates a decoder for the message in `buf`, reading its header.
    pub fn new(buf: &'a [u8]) -> (r: Result<MessageDecoder<'a>, Error>)
        ensures
            buf@.len() < 12 ==> r is Err && r->Err_0 == Error::Eof,
            buf@.len() >= 12 ==> r is Ok && r->Ok_0@ == (DecoderView {
                header: header_at(buf@),
                q_remaining: header_at(buf@).qdcount,
                ans_remaining: header_at(buf@).ancount,
                auth_remaining: header_at(buf@).nscount,
                addl_remaining: header_at(buf@).arcount,
                data: buf@,
                at: 12,
                error: None,
                section: Section::Question,
            }),
    {
        let mut r = Reader::new(buf);
        if buf.len() < 12 {
            return Err(Error::Eof);
        }
        let id = r.read_u16()?;
        let flags = r.read_u16()?;
        let qdcount = r.read_u16()?;
        let ancount = r.read_u16()?;
        let nscount = r.read_u16()?;
        let arcount = r.read_u16()?;
        let header = Header { id, flags, qdcount, ancount, nscount, arcount };
        Ok(MessageDecoder {
            header,
            q_remaining: qdcount,
            ans_remaining: ancount,
            auth_remaining: nscount,
            addl_remaining: arcount,
            r,
            error: None,
            section: Section::Question,
        })
    }

    /// The message header.
    pub fn header(&self) -> (r: &Header)
        ensures
            *r == self@.header,
    {
        &self.header
    }

    /// The section that the decoder reads.
    pub fn section(&self) -> (r: Section)
        ensures
            r == self@.section,
    {
        self.section
    }

    fn remaining(&self) -> (r: u16)
        ensures
            r == remaining_in(self@, self@.section),
    {
        match self.section {
            Section::Question => self.q_remaining,
            Section::Answer => self.ans_remaining,
            Section::Authority => self.auth_remaining,
            Section::Additional => self.addl_remaining,
        }
    }

    fn count_entry(&mut self)
        requires
            remaining_in(old(self)@, old(self)@.section) > 0,
        ensures
            final(self)@ == step_view(old(self)@, old(self)@.at),
    {
        match self.section {
            Section::Question => self.q_remaining = self.q_remaining - 1,
            Section::Answer => self.ans_remaining = self.ans_remaining - 1,
            Section::Authority => self.auth_remaining = self.auth_remaining - 1,
            Section::Additional => self.addl_remaining = self.addl_remaining - 1,
        }
    }

    /// Reads the next question of the *Question* section; `None` once the section is done, after
    /// an entry has failed to decode, or where the decoder has moved past the *Question* section.
    pub fn next(&mut self) -> (r: Option<Result<Question, Error>>)
        ensures
            old(self)@.section != Section::Question || old(self)@.error is Some || remaining_in(
                old(self)@,
                Section::Question,
            ) == 0 ==> r is None && final(self)@ == old(self)@,
            !(old(self)@.section != Section::Question || old(self)@.error is Some || remaining_in(
                old(self)@,
                Section::Question,
            ) == 0) ==> match question_at(
                old(self)@.data,
                old(self)@.at,
            ) {
                Ok(m) => r is Some && r->Some_0 is Ok && r->Some_0->Ok_0.is(m.0, m.1, m.2)
                    && final(self)@ == step_view(old(self)@, m.3),
                Err(e) => r is Some && r->Some_0 is Err && r->Some_0->Err_0 == e && final(self)@
                    == DecoderView { error: Some(e), ..old(self)@ },
            },
    {
        if self.section != Section::Question || self.error.is_some() || self.remaining() == 0 {
            return None;
        }
        let saved = self.r.pos();
        match self.r.read_question() {
            Ok(q) => {
                self.count_entry();
                Some(Ok(q))
            },
            Err(e) => {
                self.r.set_pos(saved);
                self.error = Some(e);
                Some(Err(e))
            },
        }
    }

    /// Reads the next resource record of the current section (answers, authority or additional
    /// records); `None` once the section is done, after an entry has failed to decode, or while
    /// the decoder is still in the *Question* section.
    pub fn next_rr(&mut self) -> (r: Option<Result<ResourceRecord<'a>, Error>>)
        ensures
            old(self)@.section == Section::Question || old(self)@.error is Some || remaining_in(
                old(self)@,
                old(self)@.section,
            ) == 0 ==> r is None && final(self)@ == old(self)@,
            !(old(self)@.section == Section::Question || old(self)@.error is Some || remaining_in(
                old(self)@,
                old(self)@.section,
            ) == 0) ==> match rr_at(
                old(self)@.data,
                old(self)@.at,
            ) {
                Ok(m) => r is Some && r->Some_0 is Ok && r->Some_0->Ok_0.is(old(self)@.data, m)
                    && final(self)@ == step_view(old(self)@, m.4 + m.5),
                Err(e) => r is Some && r->Some_0 is Err && r->Some_0->Err_0 == e && final(self)@
                    == DecoderView { error: Some(e), ..old(self)@ },
            },
    {
        if self.section == Section::Question || self.error.is_some() || self.remaining() == 0 {
            return None;
        }
        let saved = self.r.pos();
        match self.r.read_resource_record() {
            Ok(rr) => {
                self.count_entry();
                Some(Ok(rr))
            },
            Err(e) => {
                self.r.set_pos(saved);
                self.error = Some(e);
                Some(Err(e))
            },
        }
    }

    /// Reads the rest of the current section.
    fn drain(&mut self) -> (r: Result<(), Error>)
        ensures
            match drain_view(old(self)@) {
                Ok(v) => r is Ok && final(self)@ == v,
                Err(e) => r is Err && r->Err_0 == e,
            },
    {
        loop
            invariant
                drain_view(old(self)@) == drain_view(self@),
            decreases remaining_in(self@, self@.section),
        {
            match self.error {
                Some(e) => {
                    return Err(e);
                },
                None => {},
            }
            if self.remaining() == 0 {
                return Ok(());
            }
            if self.section == Section::Question {
                match self.next() {
                    Some(Err(e)) => {
                        return Err(e);
                    },
                    _ => {},
                }
            } else {
                match self.next_rr() {
                    Some(Err(e)) => {
                        return Err(e);
                    },
                    _ => {},
                }
            }
        }
    }

    /// Moves to section `target`, reading the rest of each section before it.
    fn advance(self, target: Section) -> (r: Result<MessageDecoder<'a>, Error>)
        ensures
            match advance_view(self@, target) {
                Ok(v) => r is Ok && r->Ok_0@ == v,
                Err(e) => r is Err && r->Err_0 == e,
            },
    {
        let mut dec = self;
        while section_rank(dec.section) < section_rank(target)
            invariant
                advance_view(self@, target) == advance_view(dec@, target),
            decreases section_index(target) - section_index(dec@.section),
        {
            proof {
                lemma_drain_keeps_section(dec@);
            }
            dec.drain()?;
            dec.section = match dec.section {
                Section::Question => Section::Answer,
                Section::Answer => Section::Authority,
                _ => Section::Additional,
            };
        }
        Ok(dec)
    }

    /// Skips the rest of the *Question* section and moves to the *Answer* section.
    ///
    /// An entry of a skipped section that fails to decode, now or in an earlier call of `next`,
    /// gives its error. A decoder already past the target section gives `InvalidValue`; one at it
    /// stays as it is.
    pub fn answers(self) -> (r: Result<MessageDecoder<'a>, Error>)
        ensures
            match transition_view(self@, Section::Answer) {
                Ok(v) => r is Ok && r->Ok_0@ == v,
                Err(e) => r is Err && r->Err_0 == e,
            },
    {
        if section_rank(self.section) > 1 {
            return Err(Error::InvalidValue);
        }
        self.advance(Section::Answer)
    }

    /// Skips the rest of the current section and those before the *Authority* section, and moves
    /// there.
    pub fn authority(self) -> (r: Result<MessageDecoder<'a>, Error>)
        ensures
            match transition_view(self@, Section::Authority) {
                Ok(v) => r is Ok && r->Ok_0@ == v,
                Err(e) => r is Err && r->Err_0 == e,
            },
    {
        if section_rank(self.section) > 2 {
            return Err(Error::InvalidValue);
        }
        self.advance(Section::Authority)
    }

    /// Skips the rest of the current section and those before the *Additional Records* section,
    /// and moves there.
    pub fn additional(self) -> (r: Result<MessageDecoder<'a>, Error>)
        ensures
            match transition_view(self@, Section::Additional) {
                Ok(v) => r is Ok && r->Ok_0@ == v,
                Err(e) => r is Err && r->Err_0 == e,
            },
    {
        if section_rank(self.section) > 3 {
            return Err(Error::InvalidValue);
        }
        self.advance(Section::Additional)
    }
}

/// The position of a section in a message.
fn section_rank(s: Section) -> (r: u8)
    ensures
        r == section_index(s),
{
    match s {
        Section::Question => 0,
        Section::Answer => 1,
        Section::Authority => 2,
        Section::Additional => 3,
    }
}
} // verus!
