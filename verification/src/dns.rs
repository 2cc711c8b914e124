//! # mDNS Lite - Plain DNS names, queries and responses
//! A DNS name held as its list of labels, with the query and response
//! records that carry it.

use vstd::prelude::*;
use vstd::utf8::{encode_utf8, encode_utf8_valid_utf8, valid_utf8, valid_utf8_concat};

use crate::protocol::class::DnsClass;
use crate::protocol::name::{
    is_name_text, label_wire, labels_body, labels_text, labels_text_chars_ok, labels_wire,
    lemma_dot_valid_utf8, lemma_labels_text_ok, lemma_text_labels_of_text, name_text_ok,
    lemma_labels_body_push, lemma_labels_text_push, prepend_scan, scan_labels, split_name_text,
    strings_bytes, text_labels, MdnsNameError,
};
use crate::protocol::record_type::DnsType;
use crate::protocol::wire::extend_bytes;
use crate::text::{is_valid_utf8, str_bytes, string_bytes, string_from_utf8};

verus! {

/// Errors that can occur while building or reading a [`DnsName`].
#[derive(Clone, Copy, PartialEq, Eq, Structural, Debug)]
pub enum DnsNameError {
    /// A textual name must end with a `.`.
    MustEndWithDot,
    /// A textual name may only hold ASCII letters and digits, `-`, `_` and
    /// `.`.
    InvalidCharacter,
    /// Each label must be 63 bytes or less.
    LabelTooLong,
    /// A label's length byte points past the end of the data.
    InvalidLabelLength,
    /// A label is not valid UTF-8.
    InvalidUtf8Label,
    /// The labels do not end with a zero byte.
    InvalidEndOfName,
}

/// The error of a plain name read for an error met while reading labels.
pub open spec fn dns_error_of(e: MdnsNameError) -> DnsNameError {
    match e {
        MdnsNameError::InvalidLabelLength { .. } => DnsNameError::InvalidLabelLength,
        MdnsNameError::InvalidUtf8Label => DnsNameError::InvalidUtf8Label,
        _ => DnsNameError::InvalidEndOfName,
    }
}

/// Reading a plain name from the start of `data`: the labels, or the error
/// met first.
pub open spec fn dns_name_read(data: Seq<u8>) -> Result<Seq<Seq<u8>>, DnsNameError> {
    match scan_labels(data, 0) {
        Ok((ls, _)) => Ok(ls),
        Err(e) => Err(dns_error_of(e)),
    }
}

/// Reading a plain name from the UTF-8 bytes `b` of its textual form: its
/// labels, or the error met first.
pub open spec fn dns_name_from_text(b: Seq<u8>) -> Result<Seq<Seq<u8>>, DnsNameError> {
    if !(b.len() > 0 && b.last() == 0x2Eu8) {
        Err(DnsNameError::MustEndWithDot)
    } else if !name_text_ok(b) {
        Err(DnsNameError::InvalidCharacter)
    } else if exists|k: int| 0 <= k < text_labels(b).len() && #[trigger] text_labels(b)[k].len() > 63 {
        Err(DnsNameError::LabelTooLong)
    } else {
        Ok(text_labels(b))
    }
}

/// The text of a plain name: the labels joined by dots, then a final dot.
pub open spec fn dns_name_text(ls: Seq<Seq<u8>>) -> Seq<u8> {
    if ls.len() == 0 {
        seq![0x2Eu8]
    } else {
        labels_text(ls)
    }
}

/// Labels that a plain name can be written with and read back from: each
/// holds 1 to 255 bytes of valid UTF-8.
pub open spec fn dns_labels_fit(ls: Seq<Seq<u8>>) -> bool {
    forall|k: int| 0 <= k < ls.len() ==> 1 <= #[trigger] ls[k].len() <= 255 && valid_utf8(ls[k])
}

/// A DNS name, held as its labels.
#[derive(PartialEq, Debug)]
pub struct DnsName {
    labels: Vec<String>,
}

impl Clone for DnsName {
    fn clone(&self) -> (r: Self)
        ensures
            r@ == self@,
    {
        let mut labels: Vec<String> = Vec::new();
        let mut i: usize = 0;
        while i < self.labels.len()
            invariant
                i <= self.labels@.len(),
                labels@.len() == i,
                forall|k: int| 0 <= k < i ==> #[trigger] labels@[k]@ == self.labels@[k]@,
            decreases self.labels@.len() - i,
        {
            labels.push(self.labels[i].clone());
            i = i + 1;
        }
        assert(strings_bytes(labels@) =~= strings_bytes(self.labels@));
        DnsName { labels }
    }
}

impl View for DnsName {
    type V = Seq<Seq<u8>>;

    /// The UTF-8 bytes of each label, in order.
    closed spec fn view(&self) -> Seq<Seq<u8>> {
        strings_bytes(self.labels@)
    }
}

/// The wire form of labels that fit, found in `data` at `i`, reads back as
/// those labels, ending at its zero byte.
proof fn lemma_scan_fitting(data: Seq<u8>, i: int, ls: Seq<Seq<u8>>)
    requires
        dns_labels_fit(ls),
        0 <= i,
        i + labels_wire(ls).len() <= data.len(),
        data.subrange(i, i + labels_wire(ls).len()) == labels_wire(ls),
    ensures
        scan_labels(data, i) == Ok::<(Seq<Seq<u8>>, int), MdnsNameError>(
            (ls, i + labels_wire(ls).len() - 1),
        ),
    decreases ls.len(),
{
    let w = labels_wire(ls);
    assert(data[i] == w[0]);
    if ls.len() == 0 {
        assert(w =~= seq![0u8]);
        assert(ls =~= Seq::<Seq<u8>>::empty());
    } else {
        let l0 = ls[0];
        let n = l0.len() as int;
        let rest = ls.drop_first();
        assert(dns_labels_fit(rest)) by {
            assert forall|k: int| 0 <= k < rest.len() implies 1 <= #[trigger] rest[k].len() <= 255
                && valid_utf8(rest[k]) by {
                assert(rest[k] == ls[k + 1]);
            }
        }
        assert(w =~= label_wire(l0) + labels_wire(rest));
        assert(w[0] == n as u8);
        assert(data[i] as int == n);
        assert(data.subrange(i + 1, i + 1 + n) =~= l0) by {
            assert forall|k: int| 0 <= k < n implies data.subrange(i + 1, i + 1 + n)[k] == l0[k] by {
                assert(data[i + 1 + k] == w[1 + k]);
            }
        }
        let wr = labels_wire(rest);
        assert(data.subrange(i + 1 + n, i + 1 + n + wr.len()) =~= wr) by {
            assert forall|k: int| 0 <= k < wr.len() implies data.subrange(
                i + 1 + n,
                i + 1 + n + wr.len(),
            )[k] == wr[k] by {
                assert(data[i + 1 + n + k] == w[1 + n + k]);
            }
        }
        lemma_scan_fitting(data, i + 1 + n, rest);
        assert(seq![l0] + rest =~= ls);
    }
}

/// Writing a name whose labels each hold 1 to 255 bytes and reading it back
/// gives the same labels, whatever bytes follow.
pub proof fn law_dns_name_roundtrip(ls: Seq<Seq<u8>>, rest: Seq<u8>)
    requires
        dns_labels_fit(ls),
    ensures
        dns_name_read(labels_wire(ls) + rest) == Ok::<Seq<Seq<u8>>, DnsNameError>(ls),
{
    let w = labels_wire(ls);
    let data = w + rest;
    assert(data.subrange(0, w.len() as int) =~= w);
    lemma_scan_fitting(data, 0, ls);
}

/// Reading what `to_string` writes gives the same name, for labels of at
/// most 63 letters, digits, `-` and `_`, the last of them not empty.
pub proof fn law_dns_name_text_roundtrip(ls: Seq<Seq<u8>>)
    requires
        ls.len() > 0,
        ls.last().len() > 0,
        labels_text_chars_ok(ls),
        forall|k: int| 0 <= k < ls.len() ==> #[trigger] ls[k].len() <= 63,
    ensures
        dns_name_from_text(dns_name_text(ls)) == Ok::<Seq<Seq<u8>>, DnsNameError>(ls),
{
    lemma_labels_text_ok(ls);
    lemma_text_labels_of_text(ls);
}

impl DnsName {
    /// Creates a new [`DnsName`] from its labels, without checking them.
    pub fn new(labels: Vec<String>) -> (r: Self)
        ensures
            r@ == strings_bytes(labels@),
    {
        DnsName { labels }
    }

    /// Creates a new [`DnsName`] from its textual form, such as
    /// `instance._http._tcp.local.`.
    ///
    /// The text must end with a dot and hold only ASCII letters and digits,
    /// `-`, `_` and `.`; the trailing dots are dropped and the rest is split
    /// at each dot into labels, none of which may be longer than 63 bytes.
    pub fn from_name(name: &str) -> (r: Result<Self, DnsNameError>)
        ensures
            match dns_name_from_text(encode_utf8(name@)) {
                Ok(ls) => r matches Ok(n) && n@ == ls,
                Err(e) => r == Err::<Self, DnsNameError>(e),
            },
    {
        let bytes = str_bytes(name);
        if bytes.len() == 0 || bytes[bytes.len() - 1] != 0x2E {
            return Err(DnsNameError::MustEndWithDot);
        }
        if !is_name_text(bytes) {
            return Err(DnsNameError::InvalidCharacter);
        }
        let labels = match split_name_text(name) {
            None => {
                return Err(DnsNameError::MustEndWithDot);
            },
            Some(labels) => labels,
        };
        let ghost ls = strings_bytes(labels@);
        let mut i: usize = 0;
        while i < labels.len()
            invariant
                i <= labels@.len(),
                ls == strings_bytes(labels@),
                ls == text_labels(encode_utf8(name@)),
                encode_utf8(name@).len() > 0 && encode_utf8(name@).last() == 0x2Eu8,
                name_text_ok(encode_utf8(name@)),
                forall|k: int| 0 <= k < i ==> #[trigger] ls[k].len() <= 63,
            decreases labels@.len() - i,
        {
            if string_bytes(&labels[i]).len() > 63 {
                proof {
                    let b = encode_utf8(name@);
                    assert(text_labels(b)[i as int].len() > 63);
                }
                return Err(DnsNameError::LabelTooLong);
            }
            i = i + 1;
        }
        Ok(DnsName { labels })
    }

    /// The labels of the name, in order.
    pub fn labels(&self) -> (r: &Vec<String>)
        ensures
            strings_bytes(r@) == self@,
    {
        &self.labels
    }

    /// The name in wire format: each label's length (modulo 256) and bytes,
    /// then a zero byte.
    pub fn to_wire_format(&self) -> (r: Vec<u8>)
        ensures
            r@ == labels_wire(self@),
    {
        let ghost lb = strings_bytes(self.labels@);
        let mut bytes: Vec<u8> = Vec::new();
        let mut i: usize = 0;
        while i < self.labels.len()
            invariant
                i <= self.labels@.len(),
                lb == strings_bytes(self.labels@),
                bytes@ == labels_body(lb.take(i as int)),
            decreases self.labels@.len() - i,
        {
            let b = string_bytes(&self.labels[i]);
            assert(b@ == lb[i as int]);
            bytes.push(b.len() as u8);
            extend_bytes(&mut bytes, b);
            proof {
                lemma_labels_body_push(lb.take(i as int), lb[i as int]);
                assert(lb.take(i + 1) =~= lb.take(i as int).push(lb[i as int]));
                assert(bytes@ =~= labels_body(lb.take(i as int)) + label_wire(lb[i as int]));
            }
            i = i + 1;
        }
        assert(lb.take(self.labels@.len() as int) =~= lb);
        bytes.push(0);
        assert(bytes@ =~= labels_wire(lb));
        bytes
    }

    /// Reads a name in wire format from the start of `data`.
    ///
    /// Fails with `InvalidLabelLength` when a label runs past the end of the
    /// data, `InvalidUtf8Label` when a label is not valid UTF-8, and
    /// `InvalidEndOfName` when the data ends before the zero byte.
    pub fn from_wire_format(data: &[u8]) -> (r: Result<Self, DnsNameError>)
        ensures
            match dns_name_read(data@) {
                Ok(ls) => r matches Ok(n) && n@ == ls,
                Err(e) => r == Err::<Self, DnsNameError>(e),
            },
    {
        let mut labels: Vec<String> = Vec::new();
        let mut i: usize = 0;
        proof {
            assert(strings_bytes(labels@) =~= Seq::<Seq<u8>>::empty());
            match scan_labels(data@, 0) {
                Ok((ls, t)) => {
                    assert(Seq::<Seq<u8>>::empty() + ls =~= ls);
                },
                Err(_) => {},
            }
        }
        while i < data.len() && data[i] != 0
            invariant
                i <= data@.len(),
                scan_labels(data@, 0) == prepend_scan(strings_bytes(labels@), scan_labels(data@, i as int)),
            decreases data@.len() - i,
        {
            let len: usize = data[i] as usize;
            if len > data.len() - i - 1 {
                return Err(DnsNameError::InvalidLabelLength);
            }
            let piece = &data[(i + 1)..(i + 1 + len)];
            if !is_valid_utf8(piece) {
                return Err(DnsNameError::InvalidUtf8Label);
            }
            let label = string_from_utf8(piece);
            let ghost before = labels@;
            labels.push(label);
            proof {
                assert(strings_bytes(labels@) =~= strings_bytes(before).push(piece@));
                match scan_labels(data@, (i + 1 + len) as int) {
                    Ok((ls, t)) => {
                        assert(strings_bytes(before) + (seq![piece@] + ls) =~= strings_bytes(before).push(piece@) + ls);
                    },
                    Err(e) => {},
                }
            }
            i = i + 1 + len;
        }
        if i == data.len() {
            return Err(DnsNameError::InvalidEndOfName);
        }
        proof {
            assert(strings_bytes(labels@) + Seq::<Seq<u8>>::empty() =~= strings_bytes(labels@));
        }
        Ok(DnsName { labels })
    }

    /// The textual form of the name: the labels joined by dots, then a final
    /// dot, such as `instance._http._tcp.local.`.
    pub fn to_string(&self) -> (r: String)
        ensures
            encode_utf8(r@) == dns_name_text(self@),
    {
        let ghost ls = strings_bytes(self.labels@);
        let mut out: Vec<u8> = Vec::new();
        let mut i: usize = 0;
        proof {
            assert(ls.take(0) =~= Seq::<Seq<u8>>::empty());
            assert(out@ =~= labels_text(ls.take(0)));
        }
        while i < self.labels.len()
            invariant
                i <= self.labels@.len(),
                ls == strings_bytes(self.labels@),
                out@ == labels_text(ls.take(i as int)),
                valid_utf8(out@),
            decreases self.labels@.len() - i,
        {
            let b = string_bytes(&self.labels[i]);
            proof {
                assert(b@ == ls[i as int]);
                encode_utf8_valid_utf8(self.labels@[i as int]@);
                lemma_labels_text_push(ls.take(i as int), ls[i as int]);
                assert(ls.take(i + 1) =~= ls.take(i as int).push(ls[i as int]));
                valid_utf8_concat(out@, b@);
                lemma_dot_valid_utf8();
                valid_utf8_concat(out@ + b@, seq![0x2Eu8]);
            }
            extend_bytes(&mut out, b);
            out.push(0x2E);
            assert(out@ =~= labels_text(ls.take(i as int)) + ls[i as int] + seq![0x2Eu8]);
            i = i + 1;
        }
        assert(ls.take(self.labels@.len() as int) =~= ls);
        if self.labels.len() == 0 {
            out.push(0x2E);
            proof {
                lemma_dot_valid_utf8();
                assert(out@ =~= seq![0x2Eu8]);
            }
        }
        string_from_utf8(out.as_slice())
    }
}

impl From<Vec<String>> for DnsName {
    /// Same as [`DnsName::new`].
    fn from(labels: Vec<String>) -> (r: DnsName)
        ensures
            r@ == strings_bytes(labels@),
    {
        DnsName::new(labels)
    }
}

impl vstd::std_specs::convert::FromSpecImpl<Vec<String>> for DnsName {
    open spec fn obeys_from_spec() -> bool {
        false
    }

    open spec fn from_spec(labels: Vec<String>) -> Self {
        vstd::pervasive::arbitrary()
    }
}

impl From<DnsName> for Vec<String> {
    /// The labels of the name.
    fn from(name: DnsName) -> (r: Vec<String>)
        ensures
            strings_bytes(r@) == name@,
    {
        name.labels
    }
}

impl vstd::std_specs::convert::FromSpecImpl<DnsName> for Vec<String> {
    open spec fn obeys_from_spec() -> bool {
        false
    }

    open spec fn from_spec(name: DnsName) -> Self {
        vstd::pervasive::arbitrary()
    }
}

impl TryFrom<&str> for DnsName {
    type Error = DnsNameError;

    /// Same as [`DnsName::from_name`].
    fn try_from(name: &str) -> (r: Result<Self, DnsNameError>)
        ensures
            match dns_name_from_text(encode_utf8(name@)) {
                Ok(ls) => r matches Ok(n) && n@ == ls,
                Err(e) => r == Err::<Self, DnsNameError>(e),
            },
    {
        DnsName::from_name(name)
    }
}

impl vstd::std_specs::convert::TryFromSpecImpl<&str> for DnsName {
    open spec fn obeys_try_from_spec() -> bool {
        false
    }

    open spec fn try_from_spec(name: &str) -> Result<Self, DnsNameError> {
        vstd::pervasive::arbitrary()
    }
}

impl TryFrom<String> for DnsName {
    type Error = DnsNameError;

    /// Same as [`DnsName::from_name`].
    fn try_from(name: String) -> (r: Result<Self, DnsNameError>)
        ensures
            match dns_name_from_text(encode_utf8(name@)) {
                Ok(ls) => r matches Ok(n) && n@ == ls,
                Err(e) => r == Err::<Self, DnsNameError>(e),
            },
    {
        DnsName::from_name(name.as_str())
    }
}

impl vstd::std_specs::convert::TryFromSpecImpl<String> for DnsName {
    open spec fn obeys_try_from_spec() -> bool {
        false
    }

    open spec fn try_from_spec(name: String) -> Result<Self, DnsNameError> {
        vstd::pervasive::arbitrary()
    }
}

/// The content of a plain query.
pub struct DnsQueryModel {
    /// The labels of the name asked about.
    pub name: Seq<Seq<u8>>,
    /// The record type asked for.
    pub qtype: DnsType,
    /// The class asked for.
    pub qclass: DnsClass,
}

/// A DNS query: the name, record type and class asked about.
#[derive(PartialEq, Debug)]
pub struct Query {
    name: DnsName,
    query_type: DnsType,
    query_class: DnsClass,
}

impl Clone for Query {
    fn clone(&self) -> (r: Self)
        ensures
            r@ == self@,
    {
        Query { name: self.name.clone(), query_type: self.query_type, query_class: self.query_class }
    }
}

impl View for Query {
    type V = DnsQueryModel;

    closed spec fn view(&self) -> DnsQueryModel {
        DnsQueryModel { name: self.name@, qtype: self.query_type, qclass: self.query_class }
    }
}

impl Query {
    /// Creates a new [`Query`].
    pub fn new(name: DnsName, query_type: DnsType, query_class: DnsClass) -> (r: Self)
        ensures
            r@ == (DnsQueryModel { name: name@, qtype: query_type, qclass: query_class }),
    {
        Query { name, query_type, query_class }
    }

    /// The name asked about.
    pub fn name(&self) -> (r: &DnsName)
        ensures
            r@ == self@.name,
    {
        &self.name
    }

    /// The record type asked for.
    pub fn query_type(&self) -> (r: DnsType)
        ensures
            r == self@.qtype,
    {
        self.query_type
    }

    /// The class asked for.
    pub fn query_class(&self) -> (r: DnsClass)
        ensures
            r == self@.qclass,
    {
        self.query_class
    }
}

/// The content of a plain response.
pub struct DnsResponseModel {
    /// The labels of the name the record is about.
    pub name: Seq<Seq<u8>>,
    /// The record type.
    pub rtype: DnsType,
    /// The record class.
    pub rclass: DnsClass,
    /// The time to live, in seconds.
    pub ttl: u32,
    /// The data length the record states.
    pub data_length: u16,
    /// The record data.
    pub data: Seq<u8>,
}

/// A DNS response record.
#[derive(PartialEq, Debug)]
pub struct Response {
    name: DnsName,
    response_type: DnsType,
    response_class: DnsClass,
    ttl: u32,
    data_length: u16,
    data: Vec<u8>,
}

impl Clone for Response {
    fn clone(&self) -> (r: Self)
        ensures
            r@ == self@,
    {
        let data = self.data.clone();
        assert(data@ =~= self.data@);
        Response {
            name: self.name.clone(),
            response_type: self.response_type,
            response_class: self.response_class,
            ttl: self.ttl,
            data_length: self.data_length,
            data,
        }
    }
}

impl View for Response {
    type V = DnsResponseModel;

    closed spec fn view(&self) -> DnsResponseModel {
        DnsResponseModel {
            name: self.name@,
            rtype: self.response_type,
            rclass: self.response_class,
            ttl: self.ttl,
            data_length: self.data_length,
            data: self.data@,
        }
    }
}

impl Response {
    /// Creates a new [`Response`]; the data length is kept as given.
    pub fn new(
        name: DnsName,
        response_type: DnsType,
        response_class: DnsClass,
        ttl: u32,
        data_length: u16,
        data: Vec<u8>,
    ) -> (r: Self)
        ensures
            r@ == (DnsResponseModel {
                name: name@,
                rtype: response_type,
                rclass: response_class,
                ttl,
                data_length,
                data: data@,
            }),
    {
        Response { name, response_type, response_class, ttl, data_length, data }
    }

    /// The name the record is about.
    pub fn name(&self) -> (r: &DnsName)
        ensures
            r@ == self@.name,
    {
        &self.name
    }

    /// The record type.
    pub fn response_type(&self) -> (r: &DnsType)
        ensures
            *r == self@.rtype,
    {
        &self.response_type
    }

    /// The record class.
    pub fn response_class(&self) -> (r: &DnsClass)
        ensures
            *r == self@.rclass,
    {
        &self.response_class
    }

    /// The time to live, in seconds.
    pub fn ttl(&self) -> (r: u32)
        ensures
            r == self@.ttl,
    {
        self.ttl
    }

    /// The data length the record states.
    pub fn data_length(&self) -> (r: u16)
        ensures
            r == self@.data_length,
    {
        self.data_length
    }

    /// The record data.
    pub fn data(&self) -> (r: &Vec<u8>)
        ensures
            r@ == self@.data,
    {
        &self.data
    }

    /// Sets the time to live.
    pub fn set_ttl(&mut self, ttl: u32)
        ensures
            final(self)@ == (DnsResponseModel { ttl, ..old(self)@ }),
    {
        self.ttl = ttl;
    }

    /// Sets the data; the data length becomes its length modulo 65536.
    pub fn set_data(&mut self, data: Vec<u8>)
        ensures
            final(self)@ == (DnsResponseModel {
                data: data@,
                data_length: data@.len() as u16,
                ..old(self)@
            }),
    {
        self.data_length = data.len() as u16;
        self.data = data;
    }
}

} // verus!
