//! Round-trip and safety laws of the codec, proved over the specifications the encoder and the
//! decoder meet.
use crate::name::{escape_byte, escape_bytes, label_error, valid_label, valid_name};
use crate::packet::decoder::{be16, be32, domain_name_at, name_at};
use crate::packet::encoder::{labels_wire, name_wire, strings_wire};
use crate::packet::records::{RecordModel, encodable, model_type, rdata_wire, record_at, record_end, strings_at, strings_fit};
use crate::packet::error::Error;
use crate::packet::Type;
use vstd::prelude::*;

verus! {

/// A byte that the text form of a label shows as itself: printable ASCII other than a backslash
/// or a quote.
pub open spec fn plain_byte(b: u8) -> bool {
    32 <= b <= 126 && b != 92 && b != 39 && b != 34
}

/// The text form of a label whose bytes are all plain is the label itself, so parsing that text
/// as a label gives the label back.
pub proof fn law_label_text_round_trip(l: Seq<u8>)
    requires
        valid_label(l),
        forall|i: int| 0 <= i < l.len() ==> plain_byte(#[trigger] l[i]),
    ensures
        escape_bytes(l) == l,
        label_error(escape_bytes(l)) is None,
{
    lemma_escape_plain(l);
}

proof fn lemma_escape_plain(l: Seq<u8>)
    requires
        forall|i: int| 0 <= i < l.len() ==> plain_byte(#[trigger] l[i]),
    ensures
        escape_bytes(l) == l,
    decreases l.len(),
{
    if l.len() > 0 {
        let m = l.drop_last();
        assert forall|i: int| 0 <= i < m.len() implies plain_byte(#[trigger] m[i]) by {
            assert(m[i] == l[i]);
        }
        lemma_escape_plain(m);
        assert(plain_byte(l[l.len() - 1]));
        assert(escape_byte(l.last()) =~= seq![l.last()]);
        assert(m + seq![l.last()] =~= l);
    }
}

/// The wire form of a non-empty name starts with its first label.
pub proof fn lemma_labels_wire_first(n: Seq<Seq<u8>>)
    requires
        n.len() > 0,
    ensures
        labels_wire(n) == seq![n[0].len() as u8] + n[0] + labels_wire(n.drop_first()),
    decreases n.len(),
{
    if n.len() == 1 {
        assert(n.drop_last() =~= Seq::<Seq<u8>>::empty());
        assert(n.drop_first() =~= Seq::<Seq<u8>>::empty());
        assert(labels_wire(n) =~= seq![n[0].len() as u8] + n[0] + labels_wire(n.drop_first()));
    } else {
        let m = n.drop_last();
        lemma_labels_wire_first(m);
        assert(m[0] == n[0]);
        assert(m.drop_first() =~= n.drop_first().drop_last());
        assert(n.drop_first().last() == n.last());
        assert(labels_wire(n) =~= seq![n[0].len() as u8] + n[0] + labels_wire(n.drop_first()));
    }
}

/// Decoding the uncompressed wire form of a name of valid labels, wherever it stands in a
/// message, gives its labels after those already read, and ends right after it.
pub proof fn lemma_name_parse(d: Seq<u8>, p: int, bound: int, hi: int, acc: Seq<Seq<u8>>, n: Seq<Seq<u8>>)
    requires
        valid_name(n),
        0 <= p,
        hi <= p,
        p + name_wire(n).len() <= d.len(),
        d.subrange(p, p + name_wire(n).len()) == name_wire(n),
    ensures
        name_at(d, p, bound, hi, acc) == Ok::<(Seq<Seq<u8>>, int), Error>((acc + n, p + name_wire(n).len())),
    decreases n.len(),
{
    let w = name_wire(n);
    assert(d[p] == w[0]);
    if n.len() == 0 {
        assert(w =~= seq![0u8]);
        assert(acc + n =~= acc);
    } else {
        lemma_labels_wire_first(n);
        let l = n[0];
        let rest = n.drop_first();
        assert(valid_label(l));
        let len = l.len();
        assert(w =~= seq![len as u8] + l + name_wire(rest));
        assert(d[p] == len as u8);
        assert(d.subrange(p + 1, p + 1 + len) =~= l) by {
            assert forall|i: int| 0 <= i < len implies d.subrange(p + 1, p + 1 + len)[i] == l[i] by {
                assert(d[p + 1 + i] == w[1 + i]);
            }
        }
        assert(d.subrange(p + 1 + len, p + 1 + len + name_wire(rest).len()) =~= name_wire(rest)) by {
            assert forall|i: int| 0 <= i < name_wire(rest).len() implies d.subrange(
                p + 1 + len,
                p + 1 + len + name_wire(rest).len(),
            )[i] == name_wire(rest)[i] by {
                assert(d[p + 1 + len + i] == w[1 + len + i]);
            }
        }
        assert(valid_name(rest)) by {
            assert forall|i: int| 0 <= i < rest.len() implies valid_label(rest[i]) by {
                assert(rest[i] == n[i + 1]);
            }
        }
        lemma_name_parse(d, p + 1 + len, bound, hi, acc.push(l), rest);
        assert(acc.push(l) + rest =~= acc + n);
    }
}

/// Encoding a name of valid labels that fits 255 bytes and decoding it on its own gives the name
/// back, and the decoding ends at the end of the encoding.
pub proof fn law_name_round_trip(n: Seq<Seq<u8>>)
    requires
        valid_name(n),
        name_wire(n).len() <= 255,
    ensures
        domain_name_at(name_wire(n), 0) == Ok::<(Seq<Seq<u8>>, int), Error>((n, name_wire(n).len() as int)),
{
    reveal(domain_name_at);
    let w = name_wire(n);
    assert(w.subrange(0, w.len() as int) =~= w);
    lemma_name_parse(w, 0, 0, 0, Seq::<Seq<u8>>::empty(), n);
    assert(Seq::<Seq<u8>>::empty() + n =~= n);
}

/// Decoding a name that starts at `p` never reaches past the end of the message: a name that
/// decodes ends within it.
pub proof fn law_name_within(d: Seq<u8>, p: int, bound: int, hi: int, acc: Seq<Seq<u8>>)
    requires
        hi <= d.len(),
    ensures
        name_at(d, p, bound, hi, acc) is Ok ==> name_at(d, p, bound, hi, acc)->Ok_0.1 <= d.len(),
    decreases bound, d.len() - p,
{
    if 0 <= p < d.len() {
        let b = d[p];
        if b >= 0xc0 {
            if p + 2 <= d.len() {
                let ptr = (b - 0xc0) * 256 + d[p + 1];
                if ptr < bound {
                    law_name_within(d, ptr, ptr, if hi < p + 2 { p + 2 } else { hi }, acc);
                }
            }
        } else if b < 0x40 && b != 0 && p + 1 + b <= d.len() {
            law_name_within(d, p + 1 + b, bound, hi, acc.push(d.subrange(p + 1, p + 1 + b)));
        }
    }
}


/// A name of valid labels that fits 255 bytes on the wire.
pub open spec fn name_ok(n: Seq<Seq<u8>>) -> bool {
    valid_name(n) && name_wire(n).len() <= 255
}

/// A record model that the record types can hold: addresses of 4 and 16 bytes, names of valid
/// labels within 255 bytes on the wire, and TXT entries of at most 255 bytes.
pub open spec fn model_ok(m: RecordModel) -> bool {
    match m {
        RecordModel::A(a) => a.len() == 4,
        RecordModel::AAAA(a) => a.len() == 16,
        RecordModel::CNAME(n) => name_ok(n),
        RecordModel::MX(_, n) => name_ok(n),
        RecordModel::NS(n) => name_ok(n),
        RecordModel::PTR(n) => name_ok(n),
        RecordModel::TXT(es) => strings_fit(es),
        RecordModel::SRV(_, _, _, n) => name_ok(n),
        RecordModel::SOA(m, r, ..) => name_ok(m) && name_ok(r),
    }
}

proof fn lemma_be16(d: Seq<u8>, p: int, v: u16)
    requires
        0 <= p,
        p + 2 <= d.len(),
        d[p] == (v / 256) as u8,
        d[p + 1] == (v % 256) as u8,
    ensures
        be16(d, p) == v,
{
    assert((v / 256) as int * 256 + (v % 256) as int == v as int) by (nonlinear_arith);
}

proof fn lemma_be32(d: Seq<u8>, p: int, v: u32)
    requires
        0 <= p,
        p + 4 <= d.len(),
        d[p] == (v / 16777216) as u8,
        d[p + 1] == ((v / 65536) % 256) as u8,
        d[p + 2] == ((v / 256) % 256) as u8,
        d[p + 3] == (v % 256) as u8,
    ensures
        be32(d, p) == v,
{
    assert((v / 16777216) as int * 16777216 + ((v / 65536) % 256) as int * 65536 + ((v / 256) % 256) as int * 256
        + (v % 256) as int == v as int) by (nonlinear_arith);
}

proof fn lemma_strings_wire_first(es: Seq<Seq<u8>>)
    requires
        es.len() > 0,
    ensures
        strings_wire(es) == seq![es[0].len() as u8] + es[0] + strings_wire(es.drop_first()),
    decreases es.len(),
{
    if es.len() == 1 {
        assert(es.drop_last() =~= Seq::<Seq<u8>>::empty());
        assert(es.drop_first() =~= Seq::<Seq<u8>>::empty());
        assert(strings_wire(es) =~= seq![es[0].len() as u8] + es[0] + strings_wire(es.drop_first()));
    } else {
        let m = es.drop_last();
        lemma_strings_wire_first(m);
        assert(m[0] == es[0]);
        assert(m.drop_first() =~= es.drop_first().drop_last());
        assert(es.drop_first().last() == es.last());
        assert(strings_wire(es) =~= seq![es[0].len() as u8] + es[0] + strings_wire(es.drop_first()));
    }
}

proof fn lemma_strings_parse(d: Seq<u8>, p: int, es: Seq<Seq<u8>>)
    requires
        strings_fit(es),
        0 <= p <= d.len(),
        d.subrange(p, d.len() as int) == strings_wire(es),
    ensures
        strings_at(d, p) == Ok::<Seq<Seq<u8>>, Error>(es),
    decreases es.len(),
{
    let w = strings_wire(es);
    if es.len() == 0 {
        assert(d.subrange(p, d.len() as int).len() == 0);
        assert(es =~= Seq::<Seq<u8>>::empty());
    } else {
        lemma_strings_wire_first(es);
        let e = es[0];
        let rest = es.drop_first();
        let len = e.len();
        assert(len <= 255);
        assert(w.len() == 1 + len + strings_wire(rest).len());
        assert(d.subrange(p, d.len() as int)[0] == d[p]);
        assert(d[p] == len as u8);
        assert(d.subrange(p + 1, p + 1 + len) =~= e) by {
            assert forall|i: int| 0 <= i < len implies d.subrange(p + 1, p + 1 + len)[i] == e[i] by {
                assert(d.subrange(p, d.len() as int)[1 + i] == d[p + 1 + i]);
                assert(w[1 + i] == e[i]);
            }
        }
        assert(d.subrange(p + 1 + len, d.len() as int) =~= strings_wire(rest)) by {
            assert forall|i: int| 0 <= i < strings_wire(rest).len() implies d.subrange(
                p + 1 + len,
                d.len() as int,
            )[i] == strings_wire(rest)[i] by {
                assert(d.subrange(p, d.len() as int)[1 + len + i] == d[p + 1 + len + i]);
                assert(w[1 + len + i] == strings_wire(rest)[i]);
            }
        }
        assert(strings_fit(rest)) by {
            assert forall|i: int| 0 <= i < rest.len() implies #[trigger] rest[i].len() <= 255 by {
                assert(rest[i] == es[i + 1]);
            }
        }
        lemma_strings_parse(d, p + 1 + len, rest);
        assert(seq![e] + rest =~= es);
    }
}

proof fn lemma_name_in(d: Seq<u8>, p: int, n: Seq<Seq<u8>>)
    requires
        valid_name(n),
        name_wire(n).len() <= 255,
        0 <= p,
        p + name_wire(n).len() <= d.len(),
        d.subrange(p, p + name_wire(n).len()) == name_wire(n),
    ensures
        domain_name_at(d, p) == Ok::<(Seq<Seq<u8>>, int), Error>((n, p + name_wire(n).len())),
{
    reveal(domain_name_at);
    lemma_name_parse(d, p, p, p, Seq::<Seq<u8>>::empty(), n);
    assert(Seq::<Seq<u8>>::empty() + n =~= n);
}

proof fn lemma_rt_name(n: Seq<Seq<u8>>, m: RecordModel)
    requires
        name_ok(n),
        m == RecordModel::CNAME(n) || m == RecordModel::NS(n) || m == RecordModel::PTR(n),
    ensures
        record_at(model_type(m), rdata_wire(m), 0) == Some(Ok::<RecordModel, Error>(m)),
        record_end(model_type(m), rdata_wire(m), 0) == rdata_wire(m).len(),
{
    let d = rdata_wire(m);
    assert(d == name_wire(n));
    assert(d.subrange(0, name_wire(n).len() as int) =~= name_wire(n));
    lemma_name_in(d, 0, n);
}

proof fn lemma_rt_mx(pref: u16, n: Seq<Seq<u8>>)
    requires
        name_ok(n),
    ensures
        record_at(Type::MX, rdata_wire(RecordModel::MX(pref, n)), 0) == Some(
            Ok::<RecordModel, Error>(RecordModel::MX(pref, n)),
        ),
        record_end(Type::MX, rdata_wire(RecordModel::MX(pref, n)), 0) == rdata_wire(RecordModel::MX(pref, n)).len(),
{
    let d = rdata_wire(RecordModel::MX(pref, n));
    lemma_be16(d, 0, pref);
    assert(d.subrange(2, 2 + name_wire(n).len() as int) =~= name_wire(n));
    lemma_name_in(d, 2, n);
}

proof fn lemma_rt_srv(prio: u16, weight: u16, port: u16, n: Seq<Seq<u8>>)
    requires
        name_ok(n),
    ensures
        record_at(Type::SRV, rdata_wire(RecordModel::SRV(prio, weight, port, n)), 0) == Some(
            Ok::<RecordModel, Error>(RecordModel::SRV(prio, weight, port, n)),
        ),
        record_end(Type::SRV, rdata_wire(RecordModel::SRV(prio, weight, port, n)), 0) == rdata_wire(RecordModel::SRV(prio, weight, port, n)).len(),
{
    let d = rdata_wire(RecordModel::SRV(prio, weight, port, n));
    lemma_be16(d, 0, prio);
    lemma_be16(d, 2, weight);
    lemma_be16(d, 4, port);
    assert(d.subrange(6, 6 + name_wire(n).len() as int) =~= name_wire(n));
    lemma_name_in(d, 6, n);
}

proof fn lemma_rt_soa(mn: Seq<Seq<u8>>, rn: Seq<Seq<u8>>, serial: u32, refresh: u32, retry: u32, expire: u32, min: u32)
    requires
        name_ok(mn),
        name_ok(rn),
    ensures
        record_at(Type::SOA, rdata_wire(RecordModel::SOA(mn, rn, serial, refresh, retry, expire, min)), 0)
            == Some(Ok::<RecordModel, Error>(RecordModel::SOA(mn, rn, serial, refresh, retry, expire, min))),
        record_end(Type::SOA, rdata_wire(RecordModel::SOA(mn, rn, serial, refresh, retry, expire, min)), 0) == rdata_wire(RecordModel::SOA(mn, rn, serial, refresh, retry, expire, min)).len(),
{
    let d = rdata_wire(RecordModel::SOA(mn, rn, serial, refresh, retry, expire, min));
    let w1 = name_wire(mn).len() as int;
    let w2 = name_wire(rn).len() as int;
    assert(d.subrange(0, w1) =~= name_wire(mn));
    lemma_name_in(d, 0, mn);
    assert(d.subrange(w1, w1 + w2) =~= name_wire(rn));
    lemma_name_in(d, w1, rn);
    let q = w1 + w2;
    lemma_be32(d, q, serial);
    lemma_be32(d, q + 4, refresh);
    lemma_be32(d, q + 8, retry);
    lemma_be32(d, q + 12, expire);
    lemma_be32(d, q + 16, min);
}

/// Encoding the data of a record and decoding it as a record of the same type gives the record
/// back, and the decoding reads the encoded data exactly to its end.
pub proof fn law_record_round_trip(m: RecordModel)
    requires
        model_ok(m),
    ensures
        encodable(m),
        record_at(model_type(m), rdata_wire(m), 0) == Some(Ok::<RecordModel, Error>(m)),
        record_end(model_type(m), rdata_wire(m), 0) == rdata_wire(m).len(),
{
    let d = rdata_wire(m);
    match m {
        RecordModel::A(a) => {
            assert(d.subrange(0, 4) =~= a);
        },
        RecordModel::AAAA(a) => {
            assert(d.subrange(0, 16) =~= a);
        },
        RecordModel::CNAME(n) => {
            lemma_rt_name(n, m);
        },
        RecordModel::NS(n) => {
            lemma_rt_name(n, m);
        },
        RecordModel::PTR(n) => {
            lemma_rt_name(n, m);
        },
        RecordModel::MX(pref, n) => {
            lemma_rt_mx(pref, n);
        },
        RecordModel::TXT(es) => {
            assert(d.subrange(0, d.len() as int) =~= d);
            lemma_strings_parse(d, 0, es);
        },
        RecordModel::SRV(prio, weight, port, n) => {
            lemma_rt_srv(prio, weight, port, n);
        },
        RecordModel::SOA(mn, rn, serial, refresh, retry, expire, min) => {
            lemma_rt_soa(mn, rn, serial, refresh, retry, expire, min);
        },
    }
}

} // verus!
