//! DNS message decoder and encoder.
use vstd::prelude::*;

pub mod decoder;
pub mod encoder;
pub mod error;
pub mod records;
pub mod ref_or_val;

pub use self::error::Error;

verus! {

/// DNS message operation codes.
#[allow(non_camel_case_types)]
#[derive(Clone, Copy, Debug, PartialEq, Eq, Structural)]
pub enum Opcode {
    /// Query, or response to a query.
    QUERY,
    /// Inverse query, or response to one.
    IQUERY,
    /// Server status request.
    STATUS,
    NOTIFY,
    UPDATE,
    /// A code without a name here.
    Other(u8),
}

impl Opcode {
    /// The value that stands for code `v`.
    pub open spec fn spec_from_code(v: u8) -> Opcode {
        if v == 0 {
            Opcode::QUERY
        } else if v == 1 {
            Opcode::IQUERY
        } else if v == 2 {
            Opcode::STATUS
        } else if v == 4 {
            Opcode::NOTIFY
        } else if v == 5 {
            Opcode::UPDATE
        } else {
            Opcode::Other(v)
        }
    }

    /// The code of this value.
    pub open spec fn code(self) -> u8 {
        match self {
            Opcode::QUERY => 0,
            Opcode::IQUERY => 1,
            Opcode::STATUS => 2,
            Opcode::NOTIFY => 4,
            Opcode::UPDATE => 5,
            Opcode::Other(v) => v,
        }
    }

    /// The value that stands for code `v`.
    pub fn from_code(v: u8) -> (r: Opcode)
        ensures
            r == Opcode::spec_from_code(v),
            r.code() == v,
    {
        match v {
            0 => Opcode::QUERY,
            1 => Opcode::IQUERY,
            2 => Opcode::STATUS,
            4 => Opcode::NOTIFY,
            5 => Opcode::UPDATE,
            _ => Opcode::Other(v),
        }
    }

    /// The code of this value.
    pub fn to_code(&self) -> (r: u8)
        ensures
            r == self.code(),
    {
        match self {
            Opcode::QUERY => 0,
            Opcode::IQUERY => 1,
            Opcode::STATUS => 2,
            Opcode::NOTIFY => 4,
            Opcode::UPDATE => 5,
            Opcode::Other(v) => *v,
        }
    }
}

/// Server response codes; only codes up to 15 fit in the header.
#[allow(non_camel_case_types)]
#[derive(Clone, Copy, Debug, PartialEq, Eq, Structural)]
pub enum RCode {
    /// No error.
    NO_ERROR,
    /// The query sent by the client was erroneous.
    FORM_ERR,
    /// A server-side error prevented processing of the query.
    SERV_FAIL,
    /// The queried domain name does not exist.
    NX_DOMAIN,
    /// The requested query type is not supported by the server.
    NOT_IMP,
    /// The server refused to answer the query for policy reasons.
    REFUSED,
    YX_DOMAIN,
    YX_RR_SET,
    NX_RR_SET,
    NOT_AUTH,
    NOT_ZONE,
    DSO_TYPE_NI,
    /// A code without a name here.
    Other(u8),
}

impl RCode {
    /// The value that stands for code `v`.
    pub open spec fn spec_from_code(v: u8) -> RCode {
        if v == 0 {
            RCode::NO_ERROR
        } else if v == 1 {
            RCode::FORM_ERR
        } else if v == 2 {
            RCode::SERV_FAIL
        } else if v == 3 {
            RCode::NX_DOMAIN
        } else if v == 4 {
            RCode::NOT_IMP
        } else if v == 5 {
            RCode::REFUSED
        } else if v == 6 {
            RCode::YX_DOMAIN
        } else if v == 7 {
            RCode::YX_RR_SET
        } else if v == 8 {
            RCode::NX_RR_SET
        } else if v == 9 {
            RCode::NOT_AUTH
        } else if v == 10 {
            RCode::NOT_ZONE
        } else if v == 11 {
            RCode::DSO_TYPE_NI
        } else {
            RCode::Other(v)
        }
    }

    /// The code of this value.
    pub open spec fn code(self) -> u8 {
        match self {
            RCode::NO_ERROR => 0,
            RCode::FORM_ERR => 1,
            RCode::SERV_FAIL => 2,
            RCode::NX_DOMAIN => 3,
            RCode::NOT_IMP => 4,
            RCode::REFUSED => 5,
            RCode::YX_DOMAIN => 6,
            RCode::YX_RR_SET => 7,
            RCode::NX_RR_SET => 8,
            RCode::NOT_AUTH => 9,
            RCode::NOT_ZONE => 10,
            RCode::DSO_TYPE_NI => 11,
            RCode::Other(v) => v,
        }
    }

    /// The value that stands for code `v`.
    pub fn from_code(v: u8) -> (r: RCode)
        ensures
            r == RCode::spec_from_code(v),
            r.code() == v,
    {
        match v {
            0 => RCode::NO_ERROR,
            1 => RCode::FORM_ERR,
            2 => RCode::SERV_FAIL,
            3 => RCode::NX_DOMAIN,
            4 => RCode::NOT_IMP,
            5 => RCode::REFUSED,
            6 => RCode::YX_DOMAIN,
            7 => RCode::YX_RR_SET,
            8 => RCode::NX_RR_SET,
            9 => RCode::NOT_AUTH,
            10 => RCode::NOT_ZONE,
            11 => RCode::DSO_TYPE_NI,
            _ => RCode::Other(v),
        }
    }

    /// The code of this value.
    pub fn to_code(&self) -> (r: u8)
        ensures
            r == self.code(),
    {
        match self {
            RCode::NO_ERROR => 0,
            RCode::FORM_ERR => 1,
            RCode::SERV_FAIL => 2,
            RCode::NX_DOMAIN => 3,
            RCode::NOT_IMP => 4,
            RCode::REFUSED => 5,
            RCode::YX_DOMAIN => 6,
            RCode::YX_RR_SET => 7,
            RCode::NX_RR_SET => 8,
            RCode::NOT_AUTH => 9,
            RCode::NOT_ZONE => 10,
            RCode::DSO_TYPE_NI => 11,
            RCode::Other(v) => *v,
        }
    }
}

/// Resource record types.
#[allow(non_camel_case_types)]
#[derive(Clone, Copy, Debug, PartialEq, Eq, Structural)]
pub enum Type {
    A,
    NS,
    MD,
    MF,
    CNAME,
    SOA,
    MB,
    MG,
    MR,
    NULL,
    WKS,
    PTR,
    HINFO,
    MINFO,
    MX,
    TXT,
    AAAA,
    SRV,
    /// A code without a name here.
    Other(u16),
}

impl Type {
    /// The value that stands for code `v`.
    pub open spec fn spec_from_code(v: u16) -> Type {
        if v == 1 {
            Type::A
        } else if v == 2 {
            Type::NS
        } else if v == 3 {
            Type::MD
        } else if v == 4 {
            Type::MF
        } else if v == 5 {
            Type::CNAME
        } else if v == 6 {
            Type::SOA
        } else if v == 7 {
            Type::MB
        } else if v == 8 {
            Type::MG
        } else if v == 9 {
            Type::MR
        } else if v == 10 {
            Type::NULL
        } else if v == 11 {
            Type::WKS
        } else if v == 12 {
            Type::PTR
        } else if v == 13 {
            Type::HINFO
        } else if v == 14 {
            Type::MINFO
        } else if v == 15 {
            Type::MX
        } else if v == 16 {
            Type::TXT
        } else if v == 28 {
            Type::AAAA
        } else if v == 33 {
            Type::SRV
        } else {
            Type::Other(v)
        }
    }

    /// The code of this value.
    pub open spec fn code(self) -> u16 {
        match self {
            Type::A => 1,
            Type::NS => 2,
            Type::MD => 3,
            Type::MF => 4,
            Type::CNAME => 5,
            Type::SOA => 6,
            Type::MB => 7,
            Type::MG => 8,
            Type::MR => 9,
            Type::NULL => 10,
            Type::WKS => 11,
            Type::PTR => 12,
            Type::HINFO => 13,
            Type::MINFO => 14,
            Type::MX => 15,
            Type::TXT => 16,
            Type::AAAA => 28,
            Type::SRV => 33,
            Type::Other(v) => v,
        }
    }

    /// The value that stands for code `v`.
    pub fn from_code(v: u16) -> (r: Type)
        ensures
            r == Type::spec_from_code(v),
            r.code() == v,
    {
        match v {
            1 => Type::A,
            2 => Type::NS,
            3 => Type::MD,
            4 => Type::MF,
            5 => Type::CNAME,
            6 => Type::SOA,
            7 => Type::MB,
            8 => Type::MG,
            9 => Type::MR,
            10 => Type::NULL,
            11 => Type::WKS,
            12 => Type::PTR,
            13 => Type::HINFO,
            14 => Type::MINFO,
            15 => Type::MX,
            16 => Type::TXT,
            28 => Type::AAAA,
            33 => Type::SRV,
            _ => Type::Other(v),
        }
    }

    /// The code of this value.
    pub fn to_code(&self) -> (r: u16)
        ensures
            r == self.code(),
    {
        match self {
            Type::A => 1,
            Type::NS => 2,
            Type::MD => 3,
            Type::MF => 4,
            Type::CNAME => 5,
            Type::SOA => 6,
            Type::MB => 7,
            Type::MG => 8,
            Type::MR => 9,
            Type::NULL => 10,
            Type::WKS => 11,
            Type::PTR => 12,
            Type::HINFO => 13,
            Type::MINFO => 14,
            Type::MX => 15,
            Type::TXT => 16,
            Type::AAAA => 28,
            Type::SRV => 33,
            Type::Other(v) => *v,
        }
    }
}

/// The record types that a question asks for: the record types and a few query-only codes.
#[allow(non_camel_case_types)]
#[derive(Clone, Copy, Debug, PartialEq, Eq, Structural)]
pub enum QType {
    A,
    NS,
    MD,
    MF,
    CNAME,
    SOA,
    MB,
    MG,
    MR,
    NULL,
    WKS,
    PTR,
    HINFO,
    MINFO,
    MX,
    TXT,
    AAAA,
    SRV,
    /// Zone transfer.
    AXFR,
    /// Mailbox records (MB, MG and MR).
    MAILB,
    /// Mail agent records (obsolete).
    MAILA,
    /// All record types.
    ALL,
    /// A code without a name here.
    Other(u16),
}

impl QType {
    /// The value that stands for code `v`.
    pub open spec fn spec_from_code(v: u16) -> QType {
        if v == 1 {
            QType::A
        } else if v == 2 {
            QType::NS
        } else if v == 3 {
            QType::MD
        } else if v == 4 {
            QType::MF
        } else if v == 5 {
            QType::CNAME
        } else if v == 6 {
            QType::SOA
        } else if v == 7 {
            QType::MB
        } else if v == 8 {
            QType::MG
        } else if v == 9 {
            QType::MR
        } else if v == 10 {
            QType::NULL
        } else if v == 11 {
            QType::WKS
        } else if v == 12 {
            QType::PTR
        } else if v == 13 {
            QType::HINFO
        } else if v == 14 {
            QType::MINFO
        } else if v == 15 {
            QType::MX
        } else if v == 16 {
            QType::TXT
        } else if v == 28 {
            QType::AAAA
        } else if v == 33 {
            QType::SRV
        } else if v == 252 {
            QType::AXFR
        } else if v == 253 {
            QType::MAILB
        } else if v == 254 {
            QType::MAILA
        } else if v == 255 {
            QType::ALL
        } else {
            QType::Other(v)
        }
    }

    /// The code of this value.
    pub open spec fn code(self) -> u16 {
        match self {
            QType::A => 1,
            QType::NS => 2,
            QType::MD => 3,
            QType::MF => 4,
            QType::CNAME => 5,
            QType::SOA => 6,
            QType::MB => 7,
            QType::MG => 8,
            QType::MR => 9,
            QType::NULL => 10,
            QType::WKS => 11,
            QType::PTR => 12,
            QType::HINFO => 13,
            QType::MINFO => 14,
            QType::MX => 15,
            QType::TXT => 16,
            QType::AAAA => 28,
            QType::SRV => 33,
            QType::AXFR => 252,
            QType::MAILB => 253,
            QType::MAILA => 254,
            QType::ALL => 255,
            QType::Other(v) => v,
        }
    }

    /// The value that stands for code `v`.
    pub fn from_code(v: u16) -> (r: QType)
        ensures
            r == QType::spec_from_code(v),
            r.code() == v,
    {
        match v {
            1 => QType::A,
            2 => QType::NS,
            3 => QType::MD,
            4 => QType::MF,
            5 => QType::CNAME,
            6 => QType::SOA,
            7 => QType::MB,
            8 => QType::MG,
            9 => QType::MR,
            10 => QType::NULL,
            11 => QType::WKS,
            12 => QType::PTR,
            13 => QType::HINFO,
            14 => QType::MINFO,
            15 => QType::MX,
            16 => QType::TXT,
            28 => QType::AAAA,
            33 => QType::SRV,
            252 => QType::AXFR,
            253 => QType::MAILB,
            254 => QType::MAILA,
            255 => QType::ALL,
            _ => QType::Other(v),
        }
    }

    /// The code of this value.
    pub fn to_code(&self) -> (r: u16)
        ensures
            r == self.code(),
    {
        match self {
            QType::A => 1,
            QType::NS => 2,
            QType::MD => 3,
            QType::MF => 4,
            QType::CNAME => 5,
            QType::SOA => 6,
            QType::MB => 7,
            QType::MG => 8,
            QType::MR => 9,
            QType::NULL => 10,
            QType::WKS => 11,
            QType::PTR => 12,
            QType::HINFO => 13,
            QType::MINFO => 14,
            QType::MX => 15,
            QType::TXT => 16,
            QType::AAAA => 28,
            QType::SRV => 33,
            QType::AXFR => 252,
            QType::MAILB => 253,
            QType::MAILA => 254,
            QType::ALL => 255,
            QType::Other(v) => *v,
        }
    }
}

/// Resource record classes.
#[allow(non_camel_case_types)]
#[derive(Clone, Copy, Debug, PartialEq, Eq, Structural)]
pub enum Class {
    /// The Internet.
    IN,
    /// CSNET.
    CS,
    /// Chaosnet.
    CH,
    /// Hesiod.
    HS,
    /// A code without a name here.
    Other(u16),
}

impl Class {
    /// The value that stands for code `v`.
    pub open spec fn spec_from_code(v: u16) -> Class {
        if v == 1 {
            Class::IN
        } else if v == 2 {
            Class::CS
        } else if v == 3 {
            Class::CH
        } else if v == 4 {
            Class::HS
        } else {
            Class::Other(v)
        }
    }

    /// The code of this value.
    pub open spec fn code(self) -> u16 {
        match self {
            Class::IN => 1,
            Class::CS => 2,
            Class::CH => 3,
            Class::HS => 4,
            Class::Other(v) => v,
        }
    }

    /// The value that stands for code `v`.
    pub fn from_code(v: u16) -> (r: Class)
        ensures
            r == Class::spec_from_code(v),
            r.code() == v,
    {
        match v {
            1 => Class::IN,
            2 => Class::CS,
            3 => Class::CH,
            4 => Class::HS,
            _ => Class::Other(v),
        }
    }

    /// The code of this value.
    pub fn to_code(&self) -> (r: u16)
        ensures
            r == self.code(),
    {
        match self {
            Class::IN => 1,
            Class::CS => 2,
            Class::CH => 3,
            Class::HS => 4,
            Class::Other(v) => *v,
        }
    }
}

/// The record classes that a question asks for.
#[allow(non_camel_case_types)]
#[derive(Clone, Copy, Debug, PartialEq, Eq, Structural)]
pub enum QClass {
    /// The Internet.
    IN,
    /// CSNET.
    CS,
    /// Chaosnet.
    CH,
    /// Hesiod.
    HS,
    /// All classes.
    ANY,
    /// A code without a name here.
    Other(u16),
}

impl QClass {
    /// The value that stands for code `v`.
    pub open spec fn spec_from_code(v: u16) -> QClass {
        if v == 1 {
            QClass::IN
        } else if v == 2 {
            QClass::CS
        } else if v == 3 {
            QClass::CH
        } else if v == 4 {
            QClass::HS
        } else if v == 255 {
            QClass::ANY
        } else {
            QClass::Other(v)
        }
    }

    /// The code of this value.
    pub open spec fn code(self) -> u16 {
        match self {
            QClass::IN => 1,
            QClass::CS => 2,
            QClass::CH => 3,
            QClass::HS => 4,
            QClass::ANY => 255,
            QClass::Other(v) => v,
        }
    }

    /// The value that stands for code `v`.
    pub fn from_code(v: u16) -> (r: QClass)
        ensures
            r == QClass::spec_from_code(v),
            r.code() == v,
    {
        match v {
            1 => QClass::IN,
            2 => QClass::CS,
            3 => QClass::CH,
            4 => QClass::HS,
            255 => QClass::ANY,
            _ => QClass::Other(v),
        }
    }

    /// The code of this value.
    pub fn to_code(&self) -> (r: u16)
        ensures
            r == self.code(),
    {
        match self {
            QClass::IN => 1,
            QClass::CS => 2,
            QClass::CH => 3,
            QClass::HS => 4,
            QClass::ANY => 255,
            QClass::Other(v) => *v,
        }
    }
}

impl QType {
    /// Whether a question of this type asks for records of type `ty`.
    pub open spec fn spec_matches(self, ty: Type) -> bool {
        match self {
            QType::AXFR => false,
            QType::MAILB => ty == Type::MB || ty == Type::MG || ty == Type::MR,
            QType::MAILA => false,
            QType::ALL => true,
            _ => self.code() == ty.code(),
        }
    }

    /// Whether a question of this type asks for records of type `ty`.
    ///
    /// Zone transfers and the obsolete `MAILA` match no single record type.
    pub fn matches(&self, ty: Type) -> (r: bool)
        ensures
            r == self.spec_matches(ty),
    {
        match self {
            QType::AXFR => false,
            QType::MAILB => match ty {
                Type::MB | Type::MG | Type::MR => true,
                _ => false,
            },
            QType::MAILA => false,
            QType::ALL => true,
            _ => self.to_code() == ty.to_code(),
        }
    }
}

impl QClass {
    /// Whether a question of this class asks for records of class `class`.
    pub open spec fn spec_matches(self, class: Class) -> bool {
        self == QClass::ANY || self.code() == class.code()
    }

    /// Whether a question of this class asks for records of class `class`.
    pub fn matches(&self, class: Class) -> (r: bool)
        ensures
            r == self.spec_matches(class),
    {
        match self {
            QClass::ANY => true,
            _ => self.to_code() == class.to_code(),
        }
    }
}

/// The sections of a DNS message, in the order in which they appear.
#[derive(Clone, Copy, Debug, PartialEq, Eq, Structural)]
pub enum Section {
    Question,
    Answer,
    Authority,
    Additional,
}

/// The position of a section in a message.
pub open spec fn section_index(s: Section) -> int {
    match s {
        Section::Question => 0,
        Section::Answer => 1,
        Section::Authority => 2,
        Section::Additional => 3,
    }
}

/// The section that follows `s` (the last one follows itself).
pub open spec fn next_section(s: Section) -> Section {
    match s {
        Section::Question => Section::Answer,
        Section::Answer => Section::Authority,
        _ => Section::Additional,
    }
}

/// Header flag: the message is a response.
pub const FLAG_QR: u16 = 0x8000;

/// Header flag: authoritative answer.
pub const FLAG_AA: u16 = 0x0400;

/// Header flag: the message was truncated.
pub const FLAG_TC: u16 = 0x0200;

/// Header flag: recursion desired.
pub const FLAG_RD: u16 = 0x0100;

/// Header flag: recursion available.
pub const FLAG_RA: u16 = 0x0080;

/// The bits of the header flags that hold the opcode.
pub const OPCODE_MASK: u16 = 0x7800;

/// The bits of the header flags that hold the response code.
pub const RCODE_MASK: u16 = 0x000f;

/// Whether the flag bits `mask` are set in `flags`.
pub open spec fn flag_set(flags: u16, mask: u16) -> bool {
    flags & mask != 0
}

/// `flags` with the bits of `mask` set or cleared.
pub open spec fn with_flag(flags: u16, mask: u16, on: bool) -> u16 {
    if on {
        flags | mask
    } else {
        flags & !mask
    }
}

/// The opcode held in `flags`.
pub open spec fn opcode_bits(flags: u16) -> u8 {
    ((flags & 0x7800u16) >> 11u16) as u8
}

/// `flags` with its opcode replaced by the low four bits of `op`.
pub open spec fn with_opcode(flags: u16, op: u8) -> u16 {
    (flags & !0x7800u16) | (((op as u16) << 11u16) & 0x7800u16)
}

/// The response code held in `flags`.
pub open spec fn rcode_bits(flags: u16) -> u8 {
    (flags & 0x000fu16) as u8
}

/// `flags` with its response code replaced by the low four bits of `rc`.
pub open spec fn with_rcode(flags: u16, rc: u8) -> u16 {
    (flags & !0x000fu16) | ((rc as u16) & 0x000fu16)
}

/// One of the five single-bit header flags.
pub open spec fn is_flag_mask(m: u16) -> bool {
    m == FLAG_QR || m == FLAG_AA || m == FLAG_TC || m == FLAG_RD || m == FLAG_RA
}

/// The 12-byte message header, with its fields in host byte order.
#[derive(Clone, Copy, Debug, PartialEq, Eq, Structural)]
pub struct Header {
    pub id: u16,
    pub flags: u16,
    pub qdcount: u16,
    pub ancount: u16,
    pub nscount: u16,
    pub arcount: u16,
}

impl Header {
    /// A header with every field zero: a query with opcode `QUERY` and response code `NO_ERROR`.
    pub fn new() -> (r: Header)
        ensures
            r == (Header { id: 0, flags: 0, qdcount: 0, ancount: 0, nscount: 0, arcount: 0 }),
    {
        Header { id: 0, flags: 0, qdcount: 0, ancount: 0, nscount: 0, arcount: 0 }
    }

    /// Returns the 16-bit message ID, which a server copies into its response.
    pub fn id(&self) -> (r: u16)
        ensures
            r == self.id,
    {
        self.id
    }

    /// Sets the message ID.
    pub fn set_id(&mut self, id: u16)
        ensures
            *final(self) == (Header { id, ..*old(self) }),
    {
        self.id = id;
    }

    fn set_flag(&mut self, mask: u16, on: bool)
        ensures
            *final(self) == (Header { flags: with_flag(old(self).flags, mask, on), ..*old(self) }),
    {
        if on {
            self.flags = self.flags | mask;
        } else {
            self.flags = self.flags & !mask;
        }
    }

    /// Whether the message is a query.
    pub fn is_query(&self) -> (r: bool)
        ensures
            r == !flag_set(self.flags, FLAG_QR),
    {
        !self.is_response()
    }

    /// Whether the message is a response.
    pub fn is_response(&self) -> (r: bool)
        ensures
            r == flag_set(self.flags, FLAG_QR),
    {
        self.flags & FLAG_QR != 0
    }

    /// Marks the message as a response or as a query.
    pub fn set_response(&mut self, is_response: bool)
        ensures
            *final(self) == (Header {
                flags: with_flag(old(self).flags, FLAG_QR, is_response),
                ..*old(self)
            }),
    {
        self.set_flag(FLAG_QR, is_response);
    }

    /// Whether the truncation flag is set.
    pub fn is_truncated(&self) -> (r: bool)
        ensures
            r == flag_set(self.flags, FLAG_TC),
    {
        self.flags & FLAG_TC != 0
    }

    /// Sets or clears the truncation flag.
    pub fn set_truncated(&mut self, trunc: bool)
        ensures
            *final(self) == (Header { flags: with_flag(old(self).flags, FLAG_TC, trunc), ..*old(self) }),
    {
        self.set_flag(FLAG_TC, trunc);
    }

    /// Whether the recursion-desired flag is set.
    pub fn is_recursion_desired(&self) -> (r: bool)
        ensures
            r == flag_set(self.flags, FLAG_RD),
    {
        self.flags & FLAG_RD != 0
    }

    /// Sets or clears the recursion-desired flag.
    pub fn set_recursion_desired(&mut self, rd: bool)
        ensures
            *final(self) == (Header { flags: with_flag(old(self).flags, FLAG_RD, rd), ..*old(self) }),
    {
        self.set_flag(FLAG_RD, rd);
    }

    /// Whether the recursion-available flag is set.
    pub fn is_recursion_available(&self) -> (r: bool)
        ensures
            r == flag_set(self.flags, FLAG_RA),
    {
        self.flags & FLAG_RA != 0
    }

    /// Sets or clears the recursion-available flag.
    pub fn set_recursion_available(&mut self, ra: bool)
        ensures
            *final(self) == (Header { flags: with_flag(old(self).flags, FLAG_RA, ra), ..*old(self) }),
    {
        self.set_flag(FLAG_RA, ra);
    }

    /// Whether the authoritative-answer flag is set.
    pub fn is_authority(&self) -> (r: bool)
        ensures
            r == flag_set(self.flags, FLAG_AA),
    {
        self.flags & FLAG_AA != 0
    }

    /// Sets or clears the authoritative-answer flag.
    pub fn set_authority(&mut self, aa: bool)
        ensures
            *final(self) == (Header { flags: with_flag(old(self).flags, FLAG_AA, aa), ..*old(self) }),
    {
        self.set_flag(FLAG_AA, aa);
    }

    /// Returns the opcode.
    pub fn opcode(&self) -> (r: Opcode)
        ensures
            r == Opcode::spec_from_code(opcode_bits(self.flags)),
    {
        Opcode::from_code(((self.flags & OPCODE_MASK) >> 11u16) as u8)
    }

    /// Sets the opcode; only its low four bits fit in the header.
    pub fn set_opcode(&mut self, opcode: Opcode)
        ensures
            *final(self) == (Header {
                flags: with_opcode(old(self).flags, opcode.code()),
                ..*old(self)
            }),
    {
        let op = opcode.to_code();
        self.flags = (self.flags & !OPCODE_MASK) | (((op as u16) << 11u16) & OPCODE_MASK);
    }

    /// Returns the response code.
    pub fn rcode(&self) -> (r: RCode)
        ensures
            r == RCode::spec_from_code(rcode_bits(self.flags)),
    {
        RCode::from_code((self.flags & RCODE_MASK) as u8)
    }

    /// Sets the response code; only its low four bits fit in the header.
    pub fn set_rcode(&mut self, rcode: RCode)
        ensures
            *final(self) == (Header {
                flags: with_rcode(old(self).flags, rcode.code()),
                ..*old(self)
            }),
    {
        let rc = rcode.to_code();
        self.flags = (self.flags & !RCODE_MASK) | ((rc as u16) & RCODE_MASK);
    }

    /// The number of entries in the *Question* section.
    pub fn question_count(&self) -> (r: u16)
        ensures
            r == self.qdcount,
    {
        self.qdcount
    }

    /// The number of entries in the *Answer* section.
    pub fn answer_count(&self) -> (r: u16)
        ensures
            r == self.ancount,
    {
        self.ancount
    }

    /// The number of entries in the *Authority* section.
    pub fn authoritative_count(&self) -> (r: u16)
        ensures
            r == self.nscount,
    {
        self.nscount
    }

    /// The number of entries in the *Additional Records* section.
    pub fn additional_count(&self) -> (r: u16)
        ensures
            r == self.arcount,
    {
        self.arcount
    }
}

impl Default for Header {
    fn default() -> (r: Header)
        ensures
            r == (Header { id: 0, flags: 0, qdcount: 0, ancount: 0, nscount: 0, arcount: 0 }),
    {
        Header::new()
    }
}

/// Setting a single-bit flag is seen by its getter, and leaves the other flags, the opcode and the
/// response code as they were.
pub proof fn law_flag_setter(flags: u16, mask: u16, other: u16, on: bool)
    requires
        is_flag_mask(mask),
        is_flag_mask(other),
        other != mask,
    ensures
        flag_set(with_flag(flags, mask, on), mask) == on,
        flag_set(with_flag(flags, mask, on), other) == flag_set(flags, other),
        opcode_bits(with_flag(flags, mask, on)) == opcode_bits(flags),
        rcode_bits(with_flag(flags, mask, on)) == rcode_bits(flags),
{
    assert(flag_set(with_flag(flags, mask, on), mask) == on) by (bit_vector)
        requires
            mask == 0x8000u16 || mask == 0x0400u16 || mask == 0x0200u16 || mask == 0x0100u16
                || mask == 0x0080u16,
    ;
    assert(flag_set(with_flag(flags, mask, on), other) == flag_set(flags, other)) by (bit_vector)
        requires
            mask == 0x8000u16 || mask == 0x0400u16 || mask == 0x0200u16 || mask == 0x0100u16
                || mask == 0x0080u16,
            other == 0x8000u16 || other == 0x0400u16 || other == 0x0200u16 || other == 0x0100u16
                || other == 0x0080u16,
            other != mask,
    ;
    assert(opcode_bits(with_flag(flags, mask, on)) == opcode_bits(flags)) by (bit_vector)
        requires
            mask == 0x8000u16 || mask == 0x0400u16 || mask == 0x0200u16 || mask == 0x0100u16
                || mask == 0x0080u16,
    ;
    assert(rcode_bits(with_flag(flags, mask, on)) == rcode_bits(flags)) by (bit_vector)
        requires
            mask == 0x8000u16 || mask == 0x0400u16 || mask == 0x0200u16 || mask == 0x0100u16
                || mask == 0x0080u16,
    ;
}

/// Setting the opcode is seen by its getter (up to the four bits that fit), and leaves the flags
/// and the response code as they were.
pub proof fn law_opcode_setter(flags: u16, op: u8, other: u16)
    requires
        is_flag_mask(other),
    ensures
        opcode_bits(with_opcode(flags, op)) == op % 16,
        flag_set(with_opcode(flags, op), other) == flag_set(flags, other),
        rcode_bits(with_opcode(flags, op)) == rcode_bits(flags),
{
    assert(opcode_bits(with_opcode(flags, op)) == op & 0xfu8) by (bit_vector);
    assert(op & 0xfu8 == op % 16) by (bit_vector);
    assert(flag_set(with_opcode(flags, op), other) == flag_set(flags, other)) by (bit_vector)
        requires
            other == 0x8000u16 || other == 0x0400u16 || other == 0x0200u16 || other == 0x0100u16
                || other == 0x0080u16,
    ;
    assert(rcode_bits(with_opcode(flags, op)) == rcode_bits(flags)) by (bit_vector);
}

/// Setting the response code is seen by its getter (up to the four bits that fit), and leaves the
/// flags and the opcode as they were.
pub proof fn law_rcode_setter(flags: u16, rc: u8, other: u16)
    requires
        is_flag_mask(other),
    ensures
        rcode_bits(with_rcode(flags, rc)) == rc % 16,
        flag_set(with_rcode(flags, rc), other) == flag_set(flags, other),
        opcode_bits(with_rcode(flags, rc)) == opcode_bits(flags),
{
    assert(rcode_bits(with_rcode(flags, rc)) == rc & 0xfu8) by (bit_vector);
    assert(rc & 0xfu8 == rc % 16) by (bit_vector);
    assert(flag_set(with_rcode(flags, rc), other) == flag_set(flags, other)) by (bit_vector)
        requires
            other == 0x8000u16 || other == 0x0400u16 || other == 0x0200u16 || other == 0x0100u16
                || other == 0x0080u16,
    ;
    assert(opcode_bits(with_rcode(flags, rc)) == opcode_bits(flags)) by (bit_vector);
}

} // verus!
