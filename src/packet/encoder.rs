//! DNS message encoder.
use crate::name::{DomainName, Label, valid_label, valid_name};
use crate::packet::error::Error;
use crate::packet::records::{Record, encodable, model_type, rdata_wire};
use crate::packet::{Class, FLAG_TC, Header, QClass, QType, Section, with_flag};
use vstd::prelude::*;

verus! {

/// The big-endian bytes of a 16-bit integer.
pub open spec fn u16_wire(v: u16) -> Seq<u8> {
    seq![(v / 256) as u8, (v % 256) as u8]
}

/// The big-endian bytes of a 32-bit integer.
pub open spec fn u32_wire(v: u32) -> Seq<u8> {
    seq![(v / 16777216) as u8, ((v / 65536) % 256) as u8, ((v / 256) % 256) as u8, (v % 256) as u8]
}

/// Each label as a length byte followed by its bytes.
pub open spec fn labels_wire(n: Seq<Seq<u8>>) -> Seq<u8>
    decreases n.len(),
{
    if n.len() == 0 {
        seq![]
    } else {
        labels_wire(n.drop_last()) + seq![n.last().len() as u8] + n.last()
    }
}

/// The uncompressed wire form of a domain name: its labels and a terminating zero byte.
pub open spec fn name_wire(n: Seq<Seq<u8>>) -> Seq<u8> {
    labels_wire(n) + seq![0u8]
}

/// Each `<character-string>` as a length byte followed by its bytes.
pub open spec fn strings_wire(s: Seq<Seq<u8>>) -> Seq<u8>
    decreases s.len(),
{
    if s.len() == 0 {
        seq![]
    } else {
        strings_wire(s.drop_last()) + seq![s.last().len() as u8] + s.last()
    }
}

/// A name of valid labels takes at most 64 bytes per label and one for the terminator.
pub proof fn lemma_name_wire_len(n: Seq<Seq<u8>>)
    requires
        valid_name(n),
    ensures
        name_wire(n).len() <= 64 * n.len() + 1,
    decreases n.len(),
{
    if n.len() > 0 {
        let m = n.drop_last();
        assert(valid_name(m)) by {
            assert forall|i: int| 0 <= i < m.len() implies valid_label(m[i]) by {
                assert(m[i] == n[i]);
            }
        }
        assert(valid_label(n[n.len() - 1]));
        lemma_name_wire_len(m);
    }
}

/// Appends the big-endian bytes of `v`.
pub fn push_u16(out: &mut Vec<u8>, v: u16)
    ensures
        final(out)@ == old(out)@ + u16_wire(v),
{
    out.push((v / 256) as u8);
    out.push((v % 256) as u8);
    proof {
        assert(final(out)@ =~= old(out)@ + u16_wire(v));
    }
}

/// Appends the big-endian bytes of `v`.
pub fn push_u32(out: &mut Vec<u8>, v: u32)
    ensures
        final(out)@ == old(out)@ + u32_wire(v),
{
    out.push((v / 16777216) as u8);
    out.push(((v / 65536) % 256) as u8);
    out.push(((v / 256) % 256) as u8);
    out.push((v % 256) as u8);
    proof {
        assert(final(out)@ =~= old(out)@ + u32_wire(v));
    }
}

/// Appends `data`.
pub fn push_slice(out: &mut Vec<u8>, data: &[u8])
    ensures
        final(out)@ == old(out)@ + data@,
{
    let ghost start = out@;
    let mut i: usize = 0;
    while i < data.len()
        invariant
            i <= data@.len(),
            out@ == start + data@.subrange(0, i as int),
        decreases data@.len() - i,
    {
        out.push(data[i]);
        proof {
            assert(data@.subrange(0, i + 1) =~= data@.subrange(0, i as int).push(data@[i as int]));
        }
        i = i + 1;
    }
    proof {
        assert(data@.subrange(0, data@.len() as int) =~= data@);
    }
}

/// Appends the uncompressed wire form of `name`.
pub fn push_domain_name(out: &mut Vec<u8>, name: &DomainName)
    ensures
        final(out)@ == old(out)@ + name_wire(name@),
{
    let labels = name.labels();
    let ghost start = out@;
    let mut i: usize = 0;
    while i < labels.len()
        invariant
            i <= labels@.len(),
            labels@.map_values(|l: Label| l@) == name@,
            valid_name(name@),
            out@ == start + labels_wire(name@.subrange(0, i as int)),
        decreases labels@.len() - i,
    {
        let bytes = labels[i].as_bytes();
        out.push(bytes.len() as u8);
        push_slice(out, bytes);
        proof {
            let sub = name@.subrange(0, i + 1);
            assert(sub.drop_last() =~= name@.subrange(0, i as int));
            assert(sub.last() == bytes@);
            assert(out@ =~= start + labels_wire(sub));
        }
        i = i + 1;
    }
    out.push(0);
    proof {
        assert(name@.subrange(0, labels@.len() as int) =~= name@);
        assert(out@ =~= start + name_wire(name@));
    }
}

/// Appends a `<character-string>`: a length byte and the bytes.
pub fn push_character_string(out: &mut Vec<u8>, s: &[u8])
    requires
        s@.len() <= 255,
    ensures
        final(out)@ == old(out)@ + seq![s@.len() as u8] + s@,
{
    out.push(s.len() as u8);
    push_slice(out, s);
}


/// The 12 bytes of a header.
pub open spec fn header_wire(h: Header) -> Seq<u8> {
    u16_wire(h.id) + u16_wire(h.flags) + u16_wire(h.qdcount) + u16_wire(h.ancount) + u16_wire(
        h.nscount,
    ) + u16_wire(h.arcount)
}

/// A question as the encoder writes it.
pub open spec fn question_wire(name: Seq<Seq<u8>>, ty: QType, class: QClass) -> Seq<u8> {
    name_wire(name) + u16_wire(ty.code()) + u16_wire(class.code())
}

/// A resource record as the encoder writes it.
pub open spec fn rr_wire(name: Seq<Seq<u8>>, class: Class, ttl: u32, m: crate::packet::records::RecordModel) -> Seq<u8> {
    name_wire(name) + u16_wire(model_type(m).code()) + u16_wire(class.code()) + u32_wire(ttl)
        + u16_wire(rdata_wire(m).len() as u16) + rdata_wire(m)
}

/// The state of a message encoder, as plain values.
pub struct EncoderView {
    /// The buffer the message goes to; its length bounds the message.
    pub buf: Seq<u8>,
    pub header: Header,
    /// The message after its header, as written so far without regard to the buffer's length.
    pub body: Seq<u8>,
    /// The number of entries of each section written in full into the buffer.
    pub qdcount: u16,
    pub ancount: u16,
    pub nscount: u16,
    pub arcount: u16,
    pub section: Section,
}

/// Whether a message whose body is `body` fits `buf` whole.
pub open spec fn fits(buf: Seq<u8>, body: Seq<u8>) -> bool {
    12 + body.len() <= buf.len()
}

/// `n` plus one where the entry that ends `body` was written in full, else `n`.
pub open spec fn count_if_fits(n: u16, buf: Seq<u8>, body: Seq<u8>) -> u16 {
    if fits(buf, body) {
        (n + 1) as u16
    } else {
        n
    }
}

/// Whether the message no longer fits the buffer.
pub open spec fn is_truncated(v: EncoderView) -> bool {
    12 + v.body.len() > v.buf.len()
}

/// The header that finishing writes: the counts of the entries written in full, and the
/// truncation flag.
pub open spec fn final_header(v: EncoderView) -> Header {
    Header {
        qdcount: v.qdcount,
        ancount: v.ancount,
        nscount: v.nscount,
        arcount: v.arcount,
        flags: with_flag(v.header.flags, FLAG_TC, is_truncated(v)),
        ..v.header
    }
}

/// The whole message, without regard to the buffer's length.
pub open spec fn message_wire(v: EncoderView) -> Seq<u8> {
    header_wire(final_header(v)) + v.body
}

/// The buffer after finishing: the message, cut at the buffer's length, over the buffer's old
/// contents.
pub open spec fn finished_buf(v: EncoderView) -> Seq<u8> {
    if is_truncated(v) {
        message_wire(v).subrange(0, v.buf.len() as int)
    } else {
        message_wire(v) + v.buf.subrange(message_wire(v).len() as int, v.buf.len() as int)
    }
}

/// A question to add to a message.
pub struct Question<'a> {
    pub name: &'a DomainName,
    pub class: QClass,
    pub ty: QType,
}

impl<'a> Question<'a> {
    /// A question for all record types (`ALL`) of the Internet class (`IN`) of `name`.
    pub fn new(name: &'a DomainName) -> (r: Question<'a>)
        ensures
            r.name == name,
            r.class == QClass::IN,
            r.ty == QType::ALL,
    {
        Question { name, class: QClass::IN, ty: QType::ALL }
    }

    /// Sets the record class to ask for.
    pub fn class(self, class: QClass) -> (r: Question<'a>)
        ensures
            r == (Question { class, ..self }),
    {
        Question { class, ..self }
    }

    /// Sets the record type to ask for.
    pub fn ty(self, ty: QType) -> (r: Question<'a>)
        ensures
            r == (Question { ty, ..self }),
    {
        Question { ty, ..self }
    }
}

/// A resource record to add to a message.
pub struct ResourceRecord<'a> {
    pub name: &'a DomainName,
    pub class: Class,
    pub ttl: u32,
    pub rdata: &'a Record,
}

impl<'a> ResourceRecord<'a> {
    /// A record of class `IN` with a TTL of zero.
    pub fn new(name: &'a DomainName, rdata: &'a Record) -> (r: ResourceRecord<'a>)
        ensures
            r.name == name,
            r.rdata == rdata,
            r.class == Class::IN,
            r.ttl == 0,
    {
        ResourceRecord { name, class: Class::IN, ttl: 0, rdata }
    }

    /// Sets the record class.
    pub fn class(self, class: Class) -> (r: ResourceRecord<'a>)
        ensures
            r == (ResourceRecord { class, ..self }),
    {
        ResourceRecord { class, ..self }
    }

    /// Sets the time to live, in seconds.
    pub fn ttl(self, ttl: u32) -> (r: ResourceRecord<'a>)
        ensures
            r == (ResourceRecord { ttl, ..self }),
    {
        ResourceRecord { ttl, ..self }
    }
}

/// A streaming encoder for DNS messages, which writes the sections in order.
///
/// The message goes to a buffer given by the caller. Entries that do not fit are cut off; the
/// message then carries the truncation flag, and its counts give only the entries written in
/// full, so that what the buffer holds still decodes as a message.
pub struct MessageEncoder {
    buf: Vec<u8>,
    header: Header,
    body: Vec<u8>,
    qdcount: u16,
    ancount: u16,
    nscount: u16,
    arcount: u16,
    section: Section,
}

impl View for MessageEncoder {
    type V = EncoderView;

    closed spec fn view(&self) -> EncoderView {
        EncoderView {
            buf: self.buf@,
            header: self.header,
            body: self.body@,
            qdcount: self.qdcount,
            ancount: self.ancount,
            nscount: self.nscount,
            arcount: self.arcount,
            section: self.section,
        }
    }
}

impl MessageEncoder {
    /// Creates an encoder that writes to `buf`, which must hold at least a header.
    pub fn new(buf: Vec<u8>) -> (r: MessageEncoder)
        requires
            buf@.len() >= 12,
        ensures
            r@ == (EncoderView {
                buf: buf@,
                header: Header { id: 0, flags: 0, qdcount: 0, ancount: 0, nscount: 0, arcount: 0 },
                body: Seq::<u8>::empty(),
                qdcount: 0,
                ancount: 0,
                nscount: 0,
                arcount: 0,
                section: Section::Question,
            }),
    {
        let r = MessageEncoder {
            buf,
            header: Header::new(),
            body: Vec::new(),
            qdcount: 0,
            ancount: 0,
            nscount: 0,
            arcount: 0,
            section: Section::Question,
        };
        proof {
            assert(r@.body =~= Seq::<u8>::empty());
        }
        r
    }

    /// Replaces the header; finishing still sets its counts and truncation flag.
    pub fn set_header(&mut self, header: Header)
        ensures
            final(self)@ == (EncoderView { header, ..old(self)@ }),
    {
        self.header = header;
    }

    /// The section that the encoder writes.
    pub fn section(&self) -> (r: Section)
        ensures
            r == self@.section,
    {
        self.section
    }

    /// Adds a question to the *Question* section.
    pub fn question(&mut self, question: Question)
        requires
            old(self)@.section == Section::Question,
            old(self)@.qdcount < 0xffff,
            old(self)@.buf.len() >= 12,
        ensures
            final(self)@ == (EncoderView {
                body: old(self)@.body + question_wire(question.name@, question.ty, question.class),
                qdcount: count_if_fits(
                    old(self)@.qdcount,
                    old(self)@.buf,
                    old(self)@.body + question_wire(question.name@, question.ty, question.class),
                ),
                ..old(self)@
            }),
    {
        push_domain_name(&mut self.body, question.name);
        push_u16(&mut self.body, question.ty.to_code());
        push_u16(&mut self.body, question.class.to_code());
        if self.body.len() <= self.buf.len() - 12 {
            self.qdcount = self.qdcount + 1;
        }
        proof {
            assert(self@.body =~= old(self)@.body + question_wire(
                question.name@,
                question.ty,
                question.class,
            ));
        }
    }

    fn write_rr(&mut self, rr: ResourceRecord)
        requires
            encodable(rr.rdata@),
            rdata_wire(rr.rdata@).len() <= 0xffff,
        ensures
            final(self)@ == (EncoderView {
                body: old(self)@.body + rr_wire(rr.name@, rr.class, rr.ttl, rr.rdata@),
                ..old(self)@
            }),
    {
        push_domain_name(&mut self.body, rr.name);
        push_u16(&mut self.body, rr.rdata.record_type().to_code());
        push_u16(&mut self.body, rr.class.to_code());
        push_u32(&mut self.body, rr.ttl);
        let mut rdata: Vec<u8> = Vec::new();
        rr.rdata.encode(&mut rdata);
        proof {
            assert(rdata@ =~= rdata_wire(rr.rdata@));
        }
        push_u16(&mut self.body, rdata.len() as u16);
        push_slice(&mut self.body, rdata.as_slice());
        proof {
            assert(self@.body =~= old(self)@.body + rr_wire(rr.name@, rr.class, rr.ttl, rr.rdata@));
        }
    }

    /// Moves from the *Question* section to the *Answer* section.
    pub fn answers(self) -> (r: MessageEncoder)
        requires
            self@.section == Section::Question,
        ensures
            r@ == (EncoderView { section: Section::Answer, ..self@ }),
    {
        MessageEncoder { section: Section::Answer, ..self }
    }

    /// Adds a record to the *Answer* section.
    pub fn add_answer(&mut self, rr: ResourceRecord)
        requires
            old(self)@.section == Section::Answer,
            old(self)@.ancount < 0xffff,
            old(self)@.buf.len() >= 12,
            encodable(rr.rdata@),
            rdata_wire(rr.rdata@).len() <= 0xffff,
        ensures
            final(self)@ == (EncoderView {
                body: old(self)@.body + rr_wire(rr.name@, rr.class, rr.ttl, rr.rdata@),
                ancount: count_if_fits(
                    old(self)@.ancount,
                    old(self)@.buf,
                    old(self)@.body + rr_wire(rr.name@, rr.class, rr.ttl, rr.rdata@),
                ),
                ..old(self)@
            }),
    {
        self.write_rr(rr);
        if self.body.len() <= self.buf.len() - 12 {
            self.ancount = self.ancount + 1;
        }
    }

    /// Moves from the *Answer* section to the *Authority* section.
    pub fn authority(self) -> (r: MessageEncoder)
        requires
            self@.section == Section::Answer,
        ensures
            r@ == (EncoderView { section: Section::Authority, ..self@ }),
    {
        MessageEncoder { section: Section::Authority, ..self }
    }

    /// Adds a record to the *Authority* section.
    pub fn add_authority(&mut self, rr: ResourceRecord)
        requires
            old(self)@.section == Section::Authority,
            old(self)@.nscount < 0xffff,
            old(self)@.buf.len() >= 12,
            encodable(rr.rdata@),
            rdata_wire(rr.rdata@).len() <= 0xffff,
        ensures
            final(self)@ == (EncoderView {
                body: old(self)@.body + rr_wire(rr.name@, rr.class, rr.ttl, rr.rdata@),
                nscount: count_if_fits(
                    old(self)@.nscount,
                    old(self)@.buf,
                    old(self)@.body + rr_wire(rr.name@, rr.class, rr.ttl, rr.rdata@),
                ),
                ..old(self)@
            }),
    {
        self.write_rr(rr);
        if self.body.len() <= self.buf.len() - 12 {
            self.nscount = self.nscount + 1;
        }
    }

    /// Moves from the *Authority* section to the *Additional Records* section.
    pub fn additional(self) -> (r: MessageEncoder)
        requires
            self@.section == Section::Authority,
        ensures
            r@ == (EncoderView { section: Section::Additional, ..self@ }),
    {
        MessageEncoder { section: Section::Additional, ..self }
    }

    /// Adds a record to the *Additional Records* section.
    pub fn add_additional(&mut self, rr: ResourceRecord)
        requires
            old(self)@.section == Section::Additional,
            old(self)@.arcount < 0xffff,
            old(self)@.buf.len() >= 12,
            encodable(rr.rdata@),
            rdata_wire(rr.rdata@).len() <= 0xffff,
        ensures
            final(self)@ == (EncoderView {
                body: old(self)@.body + rr_wire(rr.name@, rr.class, rr.ttl, rr.rdata@),
                arcount: count_if_fits(
                    old(self)@.arcount,
                    old(self)@.buf,
                    old(self)@.body + rr_wire(rr.name@, rr.class, rr.ttl, rr.rdata@),
                ),
                ..old(self)@
            }),
    {
        self.write_rr(rr);
        if self.body.len() <= self.buf.len() - 12 {
            self.arcount = self.arcount + 1;
        }
    }

    /// Finishes the message: writes it to the buffer with its counts and truncation flag, and
    /// returns the buffer with the number of bytes written, or `Truncated` where the message did
    /// not fit (the buffer then holds as much of it as fits, which may still be sent).
    pub fn finish(self) -> (r: (Vec<u8>, Result<usize, Error>))
        requires
            self@.buf.len() >= 12,
        ensures
            r.0@ == finished_buf(self@),
            is_truncated(self@) ==> r.1 == Err::<usize, Error>(Error::Truncated),
            !is_truncated(self@) ==> r.1 == Ok::<usize, Error>((12 + self@.body.len()) as usize),
    {
        let ghost v = self@;
        let trunc = self.body.len() > self.buf.len() - 12;
        let mut header = self.header;
        header.qdcount = self.qdcount;
        header.ancount = self.ancount;
        header.nscount = self.nscount;
        header.arcount = self.arcount;
        header.set_truncated(trunc);
        let mut msg: Vec<u8> = Vec::new();
        push_u16(&mut msg, header.id);
        push_u16(&mut msg, header.flags);
        push_u16(&mut msg, header.qdcount);
        push_u16(&mut msg, header.ancount);
        push_u16(&mut msg, header.nscount);
        push_u16(&mut msg, header.arcount);
        push_slice(&mut msg, self.body.as_slice());
        proof {
            assert(header == final_header(v));
            assert(msg@ =~= message_wire(v));
        }
        let mut buf = self.buf;
        let n: usize = if trunc { buf.len() } else { msg.len() };
        let mut i: usize = 0;
        while i < n
            invariant
                n <= msg@.len(),
                n <= buf@.len(),
                buf@.len() == v.buf.len(),
                i <= n,
                forall|k: int| 0 <= k < i ==> buf@[k] == msg@[k],
                forall|k: int| n <= k < buf@.len() ==> buf@[k] == v.buf[k],
            decreases n - i,
        {
            buf.set(i, msg[i]);
            i = i + 1;
        }
        proof {
            assert(buf@ =~= finished_buf(v));
        }
        if trunc {
            (buf, Err(Error::Truncated))
        } else {
            (buf, Ok(msg.len()))
        }
    }
}
} // verus!
