//! DNS name resolution: the queries a stub resolver sends and the addresses it reads back.
use crate::name::DomainName;
use crate::packet::decoder::{MessageDecoder, advance_view, header_at, rr_at};
use crate::packet::error::Error;
use crate::packet::records::{Record, RecordModel};
use crate::packet::{FLAG_QR, FLAG_RD, QType, Section, Type, flag_set};
use crate::service::discovery::{initial_view, query_fits, query_wire, encode_query_with};
use crate::IpAddress;
use vstd::prelude::*;

verus! {

/// The address that a record holds, if it is an `A` or `AAAA` record.
pub open spec fn address_of(m: RecordModel) -> Option<Seq<u8>> {
    match m {
        RecordModel::A(a) => Some(a),
        RecordModel::AAAA(a) => Some(a),
        _ => None,
    }
}

/// The octets of an IP address.
pub open spec fn ip_octets(ip: IpAddress) -> Seq<u8> {
    match ip {
        IpAddress::V4(a) => a@,
        IpAddress::V6(a) => a@,
    }
}

/// The addresses held by the `n` resource records at `p` of message `d`, and the first error
/// met, which ends the reading.
pub open spec fn addresses_at(d: Seq<u8>, p: int, n: nat) -> (Seq<Seq<u8>>, Option<Error>)
    decreases n,
{
    if n == 0 {
        (seq![], None)
    } else {
        match rr_at(d, p) {
            Err(e) => (seq![], Some(e)),
            Ok(m) => match crate::packet::records::record_at(
                Type::spec_from_code(m.1),
                d.subrange(0, m.4 + m.5),
                m.4,
            ) {
                Some(Err(e)) => (seq![], Some(e)),
                Some(Ok(r)) => {
                    let rest = addresses_at(d, m.4 + m.5, (n - 1) as nat);
                    match address_of(r) {
                        Some(a) => (seq![a] + rest.0, rest.1),
                        None => rest,
                    }
                },
                None => addresses_at(d, m.4 + m.5, (n - 1) as nat),
            },
        }
    }
}

/// What reading the answers of `d` for addresses gives: the addresses found, and the error that
/// ended the reading, if any. A message that is not a response has none.
pub open spec fn resolved(d: Seq<u8>) -> (Seq<Seq<u8>>, Option<Error>) {
    if d.len() < 12 {
        (seq![], Some(Error::Eof))
    } else if !flag_set(header_at(d).flags, FLAG_QR) {
        (seq![], None)
    } else {
        match advance_view(initial_view(d), Section::Answer) {
            Ok(v) => addresses_at(d, v.at, v.ans_remaining as nat),
            Err(e) => (seq![], Some(e)),
        }
    }
}

/// Encodes a query for the IPv4 and IPv6 addresses of `name`: two questions (`A`, then `AAAA`)
/// with recursion desired.
pub fn encode_query(name: &DomainName) -> (r: Vec<u8>)
    requires
        query_fits(name@, 2),
    ensures
        r@ == query_wire(FLAG_RD, name@, seq![QType::A, QType::AAAA]),
{
    let qtypes: [QType; 2] = [QType::A, QType::AAAA];
    proof {
        assert(qtypes@ =~= seq![QType::A, QType::AAAA]);
    }
    encode_query_with(name, qtypes.as_slice(), FLAG_RD)
}

/// Reads an answer from a DNS server, appending the addresses of its `A` and `AAAA` answers to
/// `ip_buf` in order. Reading stops at the first answer that does not decode, with its error; the
/// addresses before it stay appended.
pub fn decode_answer(msg: &[u8], ip_buf: &mut Vec<IpAddress>) -> (r: Result<(), Error>)
    ensures
        final(ip_buf)@.len() == old(ip_buf)@.len() + resolved(msg@).0.len(),
        forall|i: int| 0 <= i < old(ip_buf)@.len() ==> final(ip_buf)@[i] == old(ip_buf)@[i],
        forall|i: int|
            0 <= i < resolved(msg@).0.len() ==> ip_octets(#[trigger] final(ip_buf)@[old(ip_buf)@.len() + i])
                == resolved(msg@).0[i],
        match resolved(msg@).1 {
            Some(e) => r is Err && r->Err_0 == e,
            None => r is Ok,
        },
{
    let dec = MessageDecoder::new(msg)?;
    if !dec.header().is_response() {
        return Ok(());
    }
    proof {
        crate::packet::decoder::lemma_advance(initial_view(msg@), Section::Answer);
    }
    let mut dec = dec.answers()?;
    let ghost v0 = dec@;
    let ghost base = ip_buf@;
    let ghost mut found: Seq<Seq<u8>> = seq![];
    loop
        invariant
            dec@.section == Section::Answer,
            dec@.data == msg@,
            dec@.error is None,
            v0.error is None,
            base == old(ip_buf)@,
            ip_buf@.len() == base.len() + found.len(),
            forall|i: int| 0 <= i < base.len() ==> ip_buf@[i] == base[i],
            forall|i: int| 0 <= i < found.len() ==> ip_octets(#[trigger] ip_buf@[base.len() + i]) == found[i],
            resolved(msg@) == (found + addresses_at(msg@, dec@.at, dec@.ans_remaining as nat).0, addresses_at(
                msg@,
                dec@.at,
                dec@.ans_remaining as nat,
            ).1),
        decreases dec@.ans_remaining,
    {
        let ghost dv = dec@;
        let rr = match dec.next_rr() {
            None => {
                proof {
                    assert(found + Seq::<Seq<u8>>::empty() =~= found);
                }
                return Ok(());
            },
            Some(Err(e)) => {
                proof {
                    assert(found + Seq::<Seq<u8>>::empty() =~= found);
                }
                return Err(e);
            },
            Some(Ok(rr)) => rr,
        };
        let ghost m = rr_at(dv.data, dv.at)->Ok_0;
        match rr.as_enum() {
            Some(Ok(Record::A(a))) => {
                ip_buf.push(IpAddress::V4(a.addr));
                proof {
                    let rest = addresses_at(msg@, dec@.at, dec@.ans_remaining as nat);
                    assert(found + (seq![a.addr@] + rest.0) =~= found.push(a.addr@) + rest.0);
                    found = found.push(a.addr@);
                }
            },
            Some(Ok(Record::AAAA(a))) => {
                ip_buf.push(IpAddress::V6(a.addr));
                proof {
                    let rest = addresses_at(msg@, dec@.at, dec@.ans_remaining as nat);
                    assert(found + (seq![a.addr@] + rest.0) =~= found.push(a.addr@) + rest.0);
                    found = found.push(a.addr@);
                }
            },
            Some(Err(e)) => {
                proof {
                    assert(found + Seq::<Seq<u8>>::empty() =~= found);
                }
                return Err(e);
            },
            _ => {},
        }
    }
}

} // verus!
