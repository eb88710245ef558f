//! Domain names and labels.
use crate::packet::encoder::{labels_wire, name_wire};
use crate::packet::error::Error;
use vstd::prelude::*;
use vstd::string::StringSliceAdditionalSpecFns;

verus! {

/// The byte that separates labels in the text form of a domain name.
pub const DOT: u8 = 46;

/// A label holds between 1 and 63 bytes.
pub open spec fn valid_label(b: Seq<u8>) -> bool {
    1 <= b.len() <= 63
}

/// Every label of a name is valid.
pub open spec fn valid_name(n: Seq<Seq<u8>>) -> bool {
    forall|i: int| 0 <= i < n.len() ==> #[trigger] valid_label(n[i])
}

/// The error that `Label::try_new` reports for `b`, if any.
pub open spec fn label_error(b: Seq<u8>) -> Option<Error> {
    if b.len() == 0 {
        Some(Error::InvalidEmptyLabel)
    } else if b.len() > 63 {
        Some(Error::LabelTooLong)
    } else {
        None
    }
}

/// A lowercase hexadecimal digit for `d < 16`.
pub open spec fn hex_digit(d: u8) -> u8 {
    if d < 10 { (48 + d) as u8 } else { (87 + d) as u8 }
}

/// The ASCII escape of one byte, as `u8::escape_ascii` writes it.
pub open spec fn escape_byte(b: u8) -> Seq<u8> {
    if b == 9 {
        seq![92u8, 116u8]
    } else if b == 13 {
        seq![92u8, 114u8]
    } else if b == 10 {
        seq![92u8, 110u8]
    } else if b == 92 || b == 39 || b == 34 {
        seq![92u8, b]
    } else if 32 <= b <= 126 {
        seq![b]
    } else {
        seq![92u8, 120u8, hex_digit(b / 16), hex_digit(b % 16)]
    }
}

/// The ASCII escape of a byte string.
pub open spec fn escape_bytes(s: Seq<u8>) -> Seq<u8>
    decreases s.len(),
{
    if s.len() == 0 {
        seq![]
    } else {
        escape_bytes(s.drop_last()) + escape_byte(s.last())
    }
}

/// The text form of a domain name: each label escaped and followed by a dot; the root is `.`.
pub open spec fn name_text(n: Seq<Seq<u8>>) -> Seq<u8> {
    if n.len() == 0 {
        seq![DOT]
    } else {
        labels_text(n)
    }
}

/// Each label escaped and followed by a dot.
pub open spec fn labels_text(n: Seq<Seq<u8>>) -> Seq<u8>
    decreases n.len(),
{
    if n.len() == 0 {
        seq![]
    } else {
        labels_text(n.drop_last()) + escape_bytes(n.last()) + seq![DOT]
    }
}

/// The pieces of `s[start..]` between dots, scanning from `i`.
pub open spec fn pieces_from(s: Seq<u8>, start: int, i: int) -> Seq<Seq<u8>>
    decreases s.len() - i,
{
    if i >= s.len() {
        seq![s.subrange(start, s.len() as int)]
    } else if s[i] == DOT {
        seq![s.subrange(start, i)] + pieces_from(s, i + 1, i + 1)
    } else {
        pieces_from(s, start, i + 1)
    }
}

/// The pieces of `s` between dots, where a final dot ends the last piece and opens none.
pub open spec fn split_terminator(s: Seq<u8>) -> Seq<Seq<u8>> {
    if s.len() == 0 {
        seq![]
    } else if s.last() == DOT {
        pieces_from(s.drop_last(), 0, 0)
    } else {
        pieces_from(s, 0, 0)
    }
}

/// The labels made of `ps`, or the error of the first piece that is no valid label.
pub open spec fn labels_of_pieces(ps: Seq<Seq<u8>>) -> Result<Seq<Seq<u8>>, Error>
    decreases ps.len(),
{
    if ps.len() == 0 {
        Ok(seq![])
    } else {
        match label_error(ps[0]) {
            Some(e) => Err(e),
            None => match labels_of_pieces(ps.drop_first()) {
                Ok(rest) => Ok(seq![ps[0]] + rest),
                Err(e) => Err(e),
            },
        }
    }
}

/// The most bytes a domain name may take on the wire, its terminating zero included.
pub const MAX_NAME_LEN: usize = 255;

/// `r`, where its name fits `MAX_NAME_LEN` bytes on the wire; `InvalidValue` where it does not.
pub open spec fn within_limit(r: Result<Seq<Seq<u8>>, Error>) -> Result<Seq<Seq<u8>>, Error> {
    match r {
        Ok(n) => if name_wire(n).len() <= MAX_NAME_LEN {
            Ok(n)
        } else {
            Err(Error::InvalidValue)
        },
        Err(e) => Err(e),
    }
}

/// What parsing the text `s` as a domain name gives.
pub open spec fn parse_name(s: Seq<u8>) -> Result<Seq<Seq<u8>>, Error> {
    if s == seq![DOT] {
        Ok(seq![])
    } else {
        within_limit(labels_of_pieces(split_terminator(s)))
    }
}

/// Relies on `String::from_utf8`: ASCII bytes are valid UTF-8, one character each.
#[verifier::external_body]
pub(crate) fn ascii_string(bytes: Vec<u8>) -> (r: String)
    requires
        forall|i: int| 0 <= i < bytes@.len() ==> bytes@[i] < 128,
    ensures
        r@ == bytes@.map_values(|b: u8| b as char),
{
    match String::from_utf8(bytes) {
        Ok(s) => s,
        Err(_) => String::new(),
    }
}

/// Appends the ASCII escape of `s` to `out`.
fn push_escaped(out: &mut Vec<u8>, s: &[u8])
    requires
        forall|i: int| 0 <= i < old(out)@.len() ==> old(out)@[i] < 128,
    ensures
        final(out)@ == old(out)@ + escape_bytes(s@),
        forall|i: int| 0 <= i < final(out)@.len() ==> final(out)@[i] < 128,
{
    let ghost start = out@;
    let mut i: usize = 0;
    while i < s.len()
        invariant
            i <= s@.len(),
            out@ == start + escape_bytes(s@.subrange(0, i as int)),
            forall|k: int| 0 <= k < out@.len() ==> out@[k] < 128,
        decreases s@.len() - i,
    {
        let b = s[i];
        if b == 9 {
            out.push(92);
            out.push(116);
        } else if b == 13 {
            out.push(92);
            out.push(114);
        } else if b == 10 {
            out.push(92);
            out.push(110);
        } else if b == 92 || b == 39 || b == 34 {
            out.push(92);
            out.push(b);
        } else if 32 <= b && b <= 126 {
            out.push(b);
        } else {
            let hi = b / 16;
            let lo = b % 16;
            out.push(92);
            out.push(120);
            out.push(if hi < 10 { 48 + hi } else { 87 + hi });
            out.push(if lo < 10 { 48 + lo } else { 87 + lo });
        }
        proof {
            assert(s@.subrange(0, i + 1).drop_last() =~= s@.subrange(0, i as int));
        }
        i = i + 1;
    }
    proof {
        assert(s@.subrange(0, s@.len() as int) =~= s@);
    }
}

/// A `.`-separated component of a [`DomainName`]: between 1 and 63 arbitrary bytes.
#[derive(Debug)]
pub struct Label {
    bytes: Vec<u8>,
}

impl View for Label {
    type V = Seq<u8>;

    closed spec fn view(&self) -> Seq<u8> {
        self.bytes@
    }
}

impl Label {
    /// The maximum length of a domain label.
    pub const MAX_LEN: usize = 63;

    #[verifier::type_invariant]
    spec fn inv(self) -> bool {
        valid_label(self.bytes@)
    }

    /// Creates a [`Label`] from raw bytes, which must be a valid label.
    pub fn new(label: &[u8]) -> (r: Label)
        requires
            valid_label(label@),
        ensures
            r@ == label@,
    {
        Label { bytes: vstd::slice::slice_to_vec(label) }
    }

    /// Creates a [`Label`] from raw bytes, or says why they are no valid label.
    pub fn try_new(label: &[u8]) -> (r: Result<Label, Error>)
        ensures
            match label_error(label@) {
                Some(e) => r == Err::<Label, Error>(e),
                None => r is Ok && r->Ok_0@ == label@,
            },
    {
        if label.len() == 0 {
            return Err(Error::InvalidEmptyLabel);
        }
        if label.len() > Self::MAX_LEN {
            return Err(Error::LabelTooLong);
        }
        Ok(Label { bytes: vstd::slice::slice_to_vec(label) })
    }

    /// Returns the raw bytes of this label.
    pub fn as_bytes(&self) -> (r: &[u8])
        ensures
            r@ == self@,
            valid_label(self@),
    {
        proof {
            use_type_invariant(self);
        }
        self.bytes.as_slice()
    }

    /// The label's bytes with non-printable ones escaped.
    pub fn to_string(&self) -> (r: String)
        ensures
            r@ == escape_bytes(self@).map_values(|b: u8| b as char),
    {
        let mut out: Vec<u8> = Vec::new();
        push_escaped(&mut out, self.bytes.as_slice());
        proof {
            assert(out@ =~= escape_bytes(self@));
        }
        ascii_string(out)
    }
}

impl Label {
    /// The label's bytes with non-printable ones escaped, in double quotes.
    pub fn debug_string(&self) -> (r: String)
        ensures
            r@ == (seq![34u8] + escape_bytes(self@) + seq![34u8]).map_values(|b: u8| b as char),
    {
        let mut out: Vec<u8> = Vec::new();
        out.push(34);
        push_escaped(&mut out, self.bytes.as_slice());
        out.push(34);
        proof {
            assert(out@ =~= seq![34u8] + escape_bytes(self@) + seq![34u8]);
        }
        ascii_string(out)
    }

    /// Parses a label from the bytes of `s`.
    pub fn from_str(s: &str) -> (r: Result<Label, Error>)
        ensures
            match label_error(s.spec_bytes()) {
                Some(e) => r == Err::<Label, Error>(e),
                None => r is Ok && r->Ok_0@ == s.spec_bytes(),
            },
    {
        Label::try_new(s.as_bytes())
    }
}

impl Clone for Label {
    fn clone(&self) -> (r: Self)
        ensures
            r@ == self@,
    {
        proof {
            use_type_invariant(self);
        }
        Label { bytes: vstd::slice::slice_to_vec(self.bytes.as_slice()) }
    }
}


/// `acc` followed by the labels of `r`, or the error of `r`.
pub open spec fn after_labels(acc: Seq<Seq<u8>>, r: Result<Seq<Seq<u8>>, Error>) -> Result<
    Seq<Seq<u8>>,
    Error,
> {
    match r {
        Ok(rest) => Ok(acc + rest),
        Err(e) => Err(e),
    }
}

/// Whether two byte strings are equal.
pub fn bytes_eq(a: &[u8], b: &[u8]) -> (r: bool)
    ensures
        r == (a@ == b@),
{
    if a.len() != b.len() {
        return false;
    }
    let mut i: usize = 0;
    while i < a.len()
        invariant
            a@.len() == b@.len(),
            i <= a@.len(),
            forall|k: int| 0 <= k < i ==> a@[k] == b@[k],
        decreases a@.len() - i,
    {
        if a[i] != b[i] {
            return false;
        }
        i = i + 1;
    }
    proof {
        assert(a@ =~= b@);
    }
    true
}

impl PartialEq for Label {
    fn eq(&self, other: &Label) -> (r: bool) {
        bytes_eq(self.bytes.as_slice(), other.bytes.as_slice())
    }
}

impl vstd::std_specs::cmp::PartialEqSpecImpl for Label {
    open spec fn obeys_eq_spec() -> bool {
        true
    }

    open spec fn eq_spec(&self, other: &Label) -> bool {
        self@ == other@
    }
}

impl Eq for Label {

}

/// A domain name: a sequence of labels, without the empty root label that ends it on the wire.
#[derive(Debug)]
pub struct DomainName {
    labels: Vec<Label>,
}

impl View for DomainName {
    type V = Seq<Seq<u8>>;

    closed spec fn view(&self) -> Seq<Seq<u8>> {
        self.labels@.map_values(|l: Label| l@)
    }
}

impl DomainName {
    #[verifier::type_invariant]
    spec fn inv(self) -> bool {
        valid_name(self@)
    }

    /// The root domain `.`, which has no labels.
    pub fn root() -> (r: DomainName)
        ensures
            r@ == Seq::<Seq<u8>>::empty(),
    {
        let r = DomainName { labels: Vec::new() };
        proof {
            assert(r@ =~= Seq::<Seq<u8>>::empty());
        }
        r
    }

    /// Returns the labels making up this domain name, without the trailing empty label.
    pub fn labels(&self) -> (r: &[Label])
        ensures
            r@.map_values(|l: Label| l@) == self@,
            valid_name(self@),
    {
        proof {
            use_type_invariant(self);
        }
        self.labels.as_slice()
    }

    /// Appends a label to the end of this domain name.
    pub fn push_label(&mut self, label: Label)
        ensures
            final(self)@ == old(self)@.push(label@),
            valid_name(final(self)@),
    {
        proof {
            use_type_invariant(&*self);
            use_type_invariant(&label);
        }
        let ghost before = self@;
        let mut labels: Vec<Label> = Vec::new();
        core::mem::swap(&mut self.labels, &mut labels);
        proof {
            assert(self@ =~= Seq::<Seq<u8>>::empty());
        }
        labels.push(label);
        proof {
            assert(labels@.map_values(|l: Label| l@) =~= before.push(label@));
        }
        core::mem::swap(&mut self.labels, &mut labels);
        proof {
            use_type_invariant(&*self);
        }
    }

    /// Appends the labels of `other` to the end of this domain name.
    pub fn extend(&mut self, other: &DomainName)
        ensures
            final(self)@ == old(self)@ + other@,
            valid_name(final(self)@),
    {
        proof {
            use_type_invariant(other);
        }
        let ghost before = self@;
        let mut i: usize = 0;
        while i < other.labels.len()
            invariant
                i <= other@.len(),
                other@.len() == other.labels@.len(),
                self@ == before + other@.subrange(0, i as int),
            decreases other@.len() - i,
        {
            let l = other.labels[i].clone();
            self.push_label(l);
            proof {
                assert(other@.subrange(0, i + 1) =~= other@.subrange(0, i as int).push(other@[i as int]));
            }
            i = i + 1;
        }
        proof {
            assert(other@.subrange(0, other@.len() as int) =~= other@);
            use_type_invariant(&*self);
        }
    }

    /// Builds a domain name from its labels.
    pub fn from_labels(labels: &[Label]) -> (r: DomainName)
        ensures
            r@ == labels@.map_values(|l: Label| l@),
    {
        let mut r = DomainName::root();
        let mut i: usize = 0;
        while i < labels.len()
            invariant
                i <= labels@.len(),
                r@ == labels@.subrange(0, i as int).map_values(|l: Label| l@),
            decreases labels@.len() - i,
        {
            let l = labels[i].clone();
            r.push_label(l);
            proof {
                assert(labels@.subrange(0, i + 1).map_values(|l: Label| l@) =~= labels@.subrange(
                    0,
                    i as int,
                ).map_values(|l: Label| l@).push(labels@[i as int]@));
            }
            i = i + 1;
        }
        proof {
            assert(labels@.subrange(0, labels@.len() as int) =~= labels@);
        }
        r
    }

    /// Parses a domain name as a string of `.`-separated labels; a trailing `.` is allowed. A
    /// name longer than `MAX_NAME_LEN` bytes on the wire gives `InvalidValue`.
    pub fn from_str(s: &str) -> (r: Result<DomainName, Error>)
        ensures
            match parse_name(s.spec_bytes()) {
                Ok(n) => r is Ok && r->Ok_0@ == n,
                Err(e) => r == Err::<DomainName, Error>(e),
            },
    {
        let bytes = s.as_bytes();
        let n = bytes.len();
        if n == 1 && bytes[0] == DOT {
            proof {
                assert(bytes@ =~= seq![DOT]);
            }
            return Ok(DomainName::root());
        }
        if n == 0 {
            return Ok(DomainName::root());
        }
        let end: usize = if bytes[n - 1] == DOT { n - 1 } else { n };
        let ghost t = bytes@.subrange(0, end as int);
        proof {
            if bytes[n - 1] == DOT {
                assert(t =~= bytes@.drop_last());
            } else {
                assert(t =~= bytes@);
            }
            assert(bytes@ != seq![DOT]);
        }
        let mut name = DomainName::root();
        let mut start: usize = 0;
        let mut i: usize = 0;
        while i < end
            invariant
                start <= i <= end <= bytes@.len(),
                bytes@ == s.spec_bytes(),
                t == bytes@.subrange(0, end as int),
                parse_name(bytes@) == within_limit(
                    after_labels(name@, labels_of_pieces(pieces_from(t, start as int, i as int))),
                ),
            decreases end - i,
        {
            if bytes[i] == DOT {
                let piece = vstd::slice::slice_subrange(bytes, start, i);
                let ghost rest = pieces_from(t, i + 1, i + 1);
                proof {
                    assert(piece@ =~= t.subrange(start as int, i as int));
                    let ps = pieces_from(t, start as int, i as int);
                    assert(ps == seq![piece@] + rest);
                    assert(ps[0] == piece@);
                    assert(ps.drop_first() =~= rest);
                }
                match Label::try_new(piece) {
                    Ok(l) => {
                        let ghost before = name@;
                        name.push_label(l);
                        proof {
                            match labels_of_pieces(rest) {
                                Ok(r) => {
                                    assert(before + (seq![piece@] + r) =~= before.push(piece@) + r);
                                },
                                Err(e) => {},
                            }
                        }
                    },
                    Err(e) => {
                        proof {
                            assert(labels_of_pieces(pieces_from(t, start as int, i as int)) == Err::<
                                Seq<Seq<u8>>,
                                Error,
                            >(e));
                            assert(parse_name(bytes@) == Err::<Seq<Seq<u8>>, Error>(e));
                        }
                        return Err(e);
                    },
                }
                start = i + 1;
            }
            i = i + 1;
        }
        let piece = vstd::slice::slice_subrange(bytes, start, end);
        proof {
            assert(piece@ =~= t.subrange(start as int, end as int));
            let ps = pieces_from(t, start as int, end as int);
            assert(ps == seq![piece@]);
            assert(ps.drop_first() =~= Seq::<Seq<u8>>::empty());
        }
        match Label::try_new(piece) {
            Ok(l) => {
                let ghost before = name@;
                name.push_label(l);
                proof {
                    assert(before + (seq![piece@] + Seq::<Seq<u8>>::empty()) =~= before.push(piece@));
                }
                proof {
                    let ps = pieces_from(t, start as int, end as int);
                    assert(labels_of_pieces(ps.drop_first()) == Ok::<Seq<Seq<u8>>, Error>(
                        Seq::<Seq<u8>>::empty(),
                    ));
                    assert(labels_of_pieces(ps) == Ok::<Seq<Seq<u8>>, Error>(
                        seq![piece@] + Seq::<Seq<u8>>::empty(),
                    ));
                }
                if !name.wire_len_within(MAX_NAME_LEN) {
                    return Err(Error::InvalidValue);
                }
                Ok(name)
            },
            Err(e) => {
                proof {
                    assert(labels_of_pieces(pieces_from(t, start as int, end as int)) == Err::<
                        Seq<Seq<u8>>,
                        Error,
                    >(e));
                }
                Err(e)
            },
        }
    }

    /// Whether this name takes at most `max` bytes on the wire, its terminating zero included.
    pub fn wire_len_within(&self, max: usize) -> (r: bool)
        requires
            max <= 0xffff,
        ensures
            r == (name_wire(self@).len() <= max),
    {
        proof {
            use_type_invariant(self);
        }
        let mut total: usize = 1;
        let mut i: usize = 0;
        proof {
            assert(self@.subrange(0, 0) =~= Seq::<Seq<u8>>::empty());
        }
        while i < self.labels.len()
            invariant
                max <= 0xffff,
                i <= self@.len(),
                self@.len() == self.labels@.len(),
                valid_name(self@),
                total as int == if labels_wire(self@.subrange(0, i as int)).len() + 1 <= max {
                    labels_wire(self@.subrange(0, i as int)).len() + 1int
                } else {
                    max + 1int
                },
            decreases self@.len() - i,
        {
            proof {
                let sub = self@.subrange(0, i + 1);
                assert(sub.drop_last() =~= self@.subrange(0, i as int));
                assert(sub.last() == self.labels@[i as int].bytes@);
                assert(valid_label(self@[i as int]));
            }
            let add = self.labels[i].bytes.len() + 1;
            if total + add > max {
                total = max + 1;
            } else {
                total = total + add;
            }
            i = i + 1;
        }
        proof {
            assert(self@.subrange(0, self@.len() as int) =~= self@);
        }
        total <= max
    }

    /// The text form of this name: each label escaped and followed by a dot, or `.` for the root.
    pub fn to_string(&self) -> (r: String)
        ensures
            r@ == name_text(self@).map_values(|b: u8| b as char),
    {
        let mut out: Vec<u8> = Vec::new();
        if self.labels.len() == 0 {
            out.push(DOT);
            proof {
                assert(out@ =~= name_text(self@));
            }
            return ascii_string(out);
        }
        let mut i: usize = 0;
        while i < self.labels.len()
            invariant
                i <= self@.len(),
                self@.len() == self.labels@.len(),
                out@ == labels_text(self@.subrange(0, i as int)),
                forall|k: int| 0 <= k < out@.len() ==> out@[k] < 128,
            decreases self@.len() - i,
        {
            push_escaped(&mut out, self.labels[i].bytes.as_slice());
            out.push(DOT);
            proof {
                let sub = self@.subrange(0, i + 1);
                assert(sub.drop_last() =~= self@.subrange(0, i as int));
                assert(sub.last() == self.labels@[i as int]@);
            }
            i = i + 1;
        }
        proof {
            assert(self@.subrange(0, self@.len() as int) =~= self@);
        }
        ascii_string(out)
    }
}

impl Clone for DomainName {
    fn clone(&self) -> (r: Self)
        ensures
            r@ == self@,
    {
        DomainName::from_labels(self.labels.as_slice())
    }
}

impl PartialEq for DomainName {
    fn eq(&self, other: &DomainName) -> (r: bool) {
        if self.labels.len() != other.labels.len() {
            return false;
        }
        let mut i: usize = 0;
        while i < self.labels.len()
            invariant
                self@.len() == self.labels@.len(),
                other@.len() == other.labels@.len(),
                self@.len() == other@.len(),
                i <= self@.len(),
                forall|k: int| 0 <= k < i ==> self@[k] == other@[k],
            decreases self@.len() - i,
        {
            if !bytes_eq(self.labels[i].bytes.as_slice(), other.labels[i].bytes.as_slice()) {
                proof {
                    assert(self@[i as int] == self.labels@[i as int]@);
                    assert(other@[i as int] == other.labels@[i as int]@);
                    assert(self@[i as int] != other@[i as int]);
                }
                return false;
            }
            i = i + 1;
        }
        proof {
            assert(self@ =~= other@);
        }
        true
    }
}

impl vstd::std_specs::cmp::PartialEqSpecImpl for DomainName {
    open spec fn obeys_eq_spec() -> bool {
        true
    }

    open spec fn eq_spec(&self, other: &DomainName) -> bool {
        self@ == other@
    }
}

impl Eq for DomainName {

}

} // verus!
