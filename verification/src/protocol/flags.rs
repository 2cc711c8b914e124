use vstd::prelude::*;

use super::wire::{u16_be_bytes, u16_from_be, u16_of_be, u16_to_be, lemma_u16_be_roundtrip};

verus! {

/// Describes the `OPCODE` field in [`MdnsFlags`].
///
/// This field indicates the kind of query contained within a packet.
#[derive(Clone, Copy, PartialEq, Eq, Structural, Hash, Debug)]
pub enum MdnsOpcode {
    /// Standard query (QUERY).
    Query,
    /// Inverse query (IQUERY).
    IQuery,
    /// Server status request (STATUS).
    Status,
    /// Unknown opcode; holds the raw 4-bit opcode number.
    Unknown(u8),
}

/// Shorter name of [`MdnsOpcode`].
pub type Opcode = MdnsOpcode;

/// Describes the `RCODE` field in [`MdnsFlags`]: the result of a query.
#[derive(Clone, Copy, PartialEq, Eq, Structural, Hash, Debug)]
pub enum Rcode {
    /// No error condition.
    NoError,
    /// Unable to interpret the query.
    FormatError,
    /// Unable to process the query due to a problem with the server.
    ServerFailure,
    /// The domain name referenced in the query does not exist.
    NameError,
    /// The name server does not support the requested kind of query.
    NotImplemented,
    /// The name server refuses to perform the specified operation.
    Refused,
    /// Unknown response code; holds the raw 4-bit response code number.
    Unknown(u8),
}

/// Name of [`Rcode`] used alongside the other `Mdns*` types.
pub type MdnsRcode = Rcode;

/// The opcode that a 4-bit field value denotes.
pub open spec fn opcode_of_bits(v: u8) -> MdnsOpcode {
    if v == 0 {
        MdnsOpcode::Query
    } else if v == 1 {
        MdnsOpcode::IQuery
    } else if v == 2 {
        MdnsOpcode::Status
    } else {
        MdnsOpcode::Unknown(v)
    }
}

/// The number that stands for an opcode.
pub open spec fn bits_of_opcode(o: MdnsOpcode) -> u8 {
    match o {
        MdnsOpcode::Query => 0,
        MdnsOpcode::IQuery => 1,
        MdnsOpcode::Status => 2,
        MdnsOpcode::Unknown(v) => v,
    }
}

/// An opcode that a 4-bit field can hold and read back unchanged: the named
/// opcodes, and `Unknown(v)` for an unnamed value `v` below 16.
pub open spec fn opcode_is_canonical(o: MdnsOpcode) -> bool {
    match o {
        MdnsOpcode::Unknown(v) => 3 <= v < 16,
        _ => true,
    }
}

/// The response code that a field value denotes.
pub open spec fn rcode_of_bits(v: u8) -> Rcode {
    if v == 0 {
        Rcode::NoError
    } else if v == 1 {
        Rcode::FormatError
    } else if v == 2 {
        Rcode::ServerFailure
    } else if v == 3 {
        Rcode::NameError
    } else if v == 4 {
        Rcode::NotImplemented
    } else if v == 5 {
        Rcode::Refused
    } else {
        Rcode::Unknown(v)
    }
}

/// The number that stands for a response code.
pub open spec fn bits_of_rcode(r: Rcode) -> u8 {
    match r {
        Rcode::NoError => 0,
        Rcode::FormatError => 1,
        Rcode::ServerFailure => 2,
        Rcode::NameError => 3,
        Rcode::NotImplemented => 4,
        Rcode::Refused => 5,
        Rcode::Unknown(v) => v,
    }
}

/// A response code that the 4-bit field can hold and read back unchanged.
pub open spec fn rcode_is_canonical(r: Rcode) -> bool {
    match r {
        Rcode::Unknown(v) => 6 <= v < 16,
        _ => true,
    }
}

impl From<u8> for MdnsOpcode {
    fn from(v: u8) -> (r: Self) {
        if v == 0 {
            MdnsOpcode::Query
        } else if v == 1 {
            MdnsOpcode::IQuery
        } else if v == 2 {
            MdnsOpcode::Status
        } else {
            MdnsOpcode::Unknown(v)
        }
    }
}

impl vstd::std_specs::convert::FromSpecImpl<u8> for MdnsOpcode {
    open spec fn obeys_from_spec() -> bool {
        true
    }

    open spec fn from_spec(v: u8) -> Self {
        opcode_of_bits(v)
    }
}

impl From<MdnsOpcode> for u8 {
    fn from(o: MdnsOpcode) -> (r: Self) {
        match o {
            MdnsOpcode::Query => 0,
            MdnsOpcode::IQuery => 1,
            MdnsOpcode::Status => 2,
            MdnsOpcode::Unknown(v) => v,
        }
    }
}

impl vstd::std_specs::convert::FromSpecImpl<MdnsOpcode> for u8 {
    open spec fn obeys_from_spec() -> bool {
        true
    }

    open spec fn from_spec(o: MdnsOpcode) -> Self {
        bits_of_opcode(o)
    }
}

impl From<u8> for Rcode {
    fn from(v: u8) -> (r: Self) {
        if v == 0 {
            Rcode::NoError
        } else if v == 1 {
            Rcode::FormatError
        } else if v == 2 {
            Rcode::ServerFailure
        } else if v == 3 {
            Rcode::NameError
        } else if v == 4 {
            Rcode::NotImplemented
        } else if v == 5 {
            Rcode::Refused
        } else {
            Rcode::Unknown(v)
        }
    }
}

impl vstd::std_specs::convert::FromSpecImpl<u8> for Rcode {
    open spec fn obeys_from_spec() -> bool {
        true
    }

    open spec fn from_spec(v: u8) -> Self {
        rcode_of_bits(v)
    }
}

impl From<Rcode> for u8 {
    fn from(r: Rcode) -> (v: Self) {
        match r {
            Rcode::NoError => 0,
            Rcode::FormatError => 1,
            Rcode::ServerFailure => 2,
            Rcode::NameError => 3,
            Rcode::NotImplemented => 4,
            Rcode::Refused => 5,
            Rcode::Unknown(v) => v,
        }
    }
}

impl vstd::std_specs::convert::FromSpecImpl<Rcode> for u8 {
    open spec fn obeys_from_spec() -> bool {
        true
    }

    open spec fn from_spec(r: Rcode) -> Self {
        bits_of_rcode(r)
    }
}

/// The opcode held in a 16-bit flags word.
pub open spec fn flags_opcode(f: u16) -> MdnsOpcode {
    opcode_of_bits(((f & 0x7800u16) >> 11u16) as u8)
}

/// The response code held in a 16-bit flags word.
pub open spec fn flags_rcode(f: u16) -> Rcode {
    rcode_of_bits((f & 0x000fu16) as u8)
}

/// Whether a single-bit field selected by `mask` is set in `f`.
pub open spec fn flag_bit(f: u16, mask: u16) -> bool {
    f & mask != 0
}

/// `f` with the single-bit field selected by `mask` set to `value`.
pub open spec fn with_flag_bit(f: u16, mask: u16, value: bool) -> u16 {
    if value {
        f | mask
    } else {
        f & !mask
    }
}

/// The 16-bit flags word with the 4-bit opcode field replaced by `o`.
pub open spec fn with_opcode(f: u16, o: MdnsOpcode) -> u16 {
    (f & !0x7800u16) | ((((bits_of_opcode(o) as u16) & 0x0fu16) << 11u16) as u16)
}

/// The 16-bit flags word with the 4-bit response code field replaced by
/// the low 4 bits of `r`.
pub open spec fn with_rcode(f: u16, r: Rcode) -> u16 {
    (f & !0x000fu16) | ((bits_of_rcode(r) as u16) & 0x000fu16)
}

/// The five single-bit fields of the flags word: QR, AA, TC, RD, RA.
pub open spec fn is_single_bit_mask(m: u16) -> bool {
    m == 0x8000 || m == 0x0400 || m == 0x0200 || m == 0x0100 || m == 0x0080
}

/// The flags in an mDNS header: structured access to the individual bits
/// and sub-fields of the 16-bit flags field.
#[derive(Clone, Copy, PartialEq, Eq, Structural, Hash, Default, Debug)]
pub struct MdnsFlags(u16);

impl View for MdnsFlags {
    type V = u16;

    closed spec fn view(&self) -> u16 {
        self.0
    }
}

impl MdnsFlags {
    /// Bitmask for the Query/Response bit.
    pub const QR_MASK: u16 = 0x8000;
    /// Bitmask for the 4-bit Opcode field.
    pub const OPCODE_MASK: u16 = 0x7800;
    /// Bitmask for the Authoritative Answer bit.
    pub const AA_MASK: u16 = 0x0400;
    /// Bitmask for the TrunCation bit.
    pub const TC_MASK: u16 = 0x0200;
    /// Bitmask for the Recursion Desired bit.
    pub const RD_MASK: u16 = 0x0100;
    /// Bitmask for the Recursion Available bit.
    pub const RA_MASK: u16 = 0x0080;
    /// Bitmask for the 4-bit Response Code field.
    pub const RCODE_MASK: u16 = 0x000f;

    /// Creates an empty set of [`MdnsFlags`]: every bit clear.
    pub fn empty() -> (r: Self)
        ensures
            r@ == 0,
    {
        MdnsFlags(0)
    }

    /// Creates an empty set of [`MdnsFlags`]; same as [`MdnsFlags::empty`].
    pub fn new() -> (r: Self)
        ensures
            r@ == 0,
    {
        MdnsFlags(0)
    }

    /// Gets the QR (Query/Response) bit.
    pub fn qr(&self) -> (r: bool)
        ensures
            r == flag_bit(self@, 0x8000),
    {
        (self.0 & Self::QR_MASK) != 0
    }

    /// Sets the QR (Query/Response) bit: `true` marks a response, `false` a
    /// query.
    pub fn set_qr(&mut self, value: bool)
        ensures
            final(self)@ == with_flag_bit(old(self)@, 0x8000, value),
    {
        if value {
            self.0 = self.0 | Self::QR_MASK;
        } else {
            self.0 = self.0 & !Self::QR_MASK;
        }
    }

    /// Gets the OPCODE field.
    pub fn opcode(&self) -> (r: MdnsOpcode)
        ensures
            r == flags_opcode(self@),
    {
        MdnsOpcode::from(((self.0 & Self::OPCODE_MASK) >> 11) as u8)
    }

    /// Sets the OPCODE field to the low 4 bits of the opcode's number.
    pub fn set_opcode(&mut self, opcode: MdnsOpcode)
        ensures
            final(self)@ == with_opcode(old(self)@, opcode),
    {
        let bits: u8 = u8::from(opcode);
        self.0 = (self.0 & !Self::OPCODE_MASK) | (((bits as u16) & 0x0f) << 11);
    }

    /// Gets the AA (Authoritative Answer) bit.
    pub fn aa(&self) -> (r: bool)
        ensures
            r == flag_bit(self@, 0x0400),
    {
        (self.0 & Self::AA_MASK) != 0
    }

    /// Sets the AA (Authoritative Answer) bit.
    pub fn set_aa(&mut self, value: bool)
        ensures
            final(self)@ == with_flag_bit(old(self)@, 0x0400, value),
    {
        if value {
            self.0 = self.0 | Self::AA_MASK;
        } else {
            self.0 = self.0 & !Self::AA_MASK;
        }
    }

    /// Gets the TC (TrunCation) bit.
    pub fn tc(&self) -> (r: bool)
        ensures
            r == flag_bit(self@, 0x0200),
    {
        (self.0 & Self::TC_MASK) != 0
    }

    /// Sets the TC (TrunCation) bit.
    pub fn set_tc(&mut self, value: bool)
        ensures
            final(self)@ == with_flag_bit(old(self)@, 0x0200, value),
    {
        if value {
            self.0 = self.0 | Self::TC_MASK;
        } else {
            self.0 = self.0 & !Self::TC_MASK;
        }
    }

    /// Gets the RD (Recursion Desired) bit.
    pub fn rd(&self) -> (r: bool)
        ensures
            r == flag_bit(self@, 0x0100),
    {
        (self.0 & Self::RD_MASK) != 0
    }

    /// Sets the RD (Recursion Desired) bit.
    pub fn set_rd(&mut self, value: bool)
        ensures
            final(self)@ == with_flag_bit(old(self)@, 0x0100, value),
    {
        if value {
            self.0 = self.0 | Self::RD_MASK;
        } else {
            self.0 = self.0 & !Self::RD_MASK;
        }
    }

    /// Gets the RA (Recursion Available) bit.
    pub fn ra(&self) -> (r: bool)
        ensures
            r == flag_bit(self@, 0x0080),
    {
        (self.0 & Self::RA_MASK) != 0
    }

    /// Sets the RA (Recursion Available) bit.
    pub fn set_ra(&mut self, value: bool)
        ensures
            final(self)@ == with_flag_bit(old(self)@, 0x0080, value),
    {
        if value {
            self.0 = self.0 | Self::RA_MASK;
        } else {
            self.0 = self.0 & !Self::RA_MASK;
        }
    }

    /// Gets the RCODE (Response Code) field.
    pub fn rcode(&self) -> (r: Rcode)
        ensures
            r == flags_rcode(self@),
    {
        Rcode::from((self.0 & Self::RCODE_MASK) as u8)
    }

    /// Sets the RCODE (Response Code) field.
    pub fn set_rcode(&mut self, rcode: Rcode)
        ensures
            final(self)@ == with_rcode(old(self)@, rcode),
    {
        let bits: u8 = u8::from(rcode);
        self.0 = (self.0 & !Self::RCODE_MASK) | ((bits as u16) & Self::RCODE_MASK);
    }
}

impl From<MdnsFlags> for u16 {
    fn from(flags: MdnsFlags) -> (r: Self) {
        flags.0
    }
}

impl vstd::std_specs::convert::FromSpecImpl<MdnsFlags> for u16 {
    open spec fn obeys_from_spec() -> bool {
        true
    }

    open spec fn from_spec(flags: MdnsFlags) -> Self {
        flags@
    }
}

impl From<u16> for MdnsFlags {
    fn from(flags: u16) -> (r: Self)
        ensures
            r@ == flags,
    {
        MdnsFlags(flags)
    }
}

impl vstd::std_specs::convert::FromSpecImpl<u16> for MdnsFlags {
    closed spec fn obeys_from_spec() -> bool {
        true
    }

    closed spec fn from_spec(flags: u16) -> Self {
        MdnsFlags(flags)
    }
}

impl From<MdnsFlags> for [u8; 2] {
    fn from(flags: MdnsFlags) -> (r: Self) {
        u16_to_be(flags.0)
    }
}

impl vstd::std_specs::convert::FromSpecImpl<MdnsFlags> for [u8; 2] {
    open spec fn obeys_from_spec() -> bool {
        true
    }

    open spec fn from_spec(flags: MdnsFlags) -> Self {
        [(flags@ / 256) as u8, (flags@ % 256) as u8]
    }
}

impl From<[u8; 2]> for MdnsFlags {
    fn from(bytes: [u8; 2]) -> (r: Self)
        ensures
            r@ == u16_from_be(bytes@[0], bytes@[1]),
    {
        MdnsFlags(u16_of_be(bytes[0], bytes[1]))
    }
}

impl vstd::std_specs::convert::FromSpecImpl<[u8; 2]> for MdnsFlags {
    closed spec fn obeys_from_spec() -> bool {
        true
    }

    closed spec fn from_spec(bytes: [u8; 2]) -> Self {
        MdnsFlags(u16_from_be(bytes@[0], bytes@[1]))
    }
}

impl MdnsFlags {
    /// The flags word whose bits are `flags`.
    pub fn from_bits(flags: u16) -> (r: Self)
        ensures
            r@ == flags,
    {
        MdnsFlags(flags)
    }

    /// The 16-bit flags word.
    pub fn bits(&self) -> (r: u16)
        ensures
            r == self@,
    {
        self.0
    }

    /// The two bytes of the flags word, most significant first.
    pub fn to_be_bytes(&self) -> (r: [u8; 2])
        ensures
            r@ == u16_be_bytes(self@),
    {
        u16_to_be(self.0)
    }

    /// The flags word whose big-endian bytes are `bytes`.
    pub fn from_be_bytes(bytes: [u8; 2]) -> (r: Self)
        ensures
            r@ == u16_from_be(bytes@[0], bytes@[1]),
    {
        MdnsFlags(u16_of_be(bytes[0], bytes[1]))
    }
}

/// Setting one of the single-bit fields (QR, AA, TC, RD, RA) reads back as
/// the value set, and leaves every other field of the flags word as it was.
pub proof fn law_flag_bit_set(f: u16, mask: u16, value: bool)
    requires
        is_single_bit_mask(mask),
    ensures
        flag_bit(with_flag_bit(f, mask, value), mask) == value,
        forall|other: u16|
            is_single_bit_mask(other) && other != mask ==> #[trigger] flag_bit(
                with_flag_bit(f, mask, value),
                other,
            ) == flag_bit(f, other),
        flags_opcode(with_flag_bit(f, mask, value)) == flags_opcode(f),
        flags_rcode(with_flag_bit(f, mask, value)) == flags_rcode(f),
{
    lemma_single_bit_masks(mask, mask);
    assert(mask != 0 ==> (f | mask) & mask != 0 && (f & !mask) & mask == 0) by (bit_vector);
    assert forall|other: u16| is_single_bit_mask(other) && other != mask implies #[trigger] flag_bit(
        with_flag_bit(f, mask, value),
        other,
    ) == flag_bit(f, other) by {
        lemma_single_bit_masks(mask, other);
        lemma_mask_frame(f, mask, other);
    }
    lemma_mask_frame(f, mask, 0x7800);
    lemma_mask_frame(f, mask, 0x000f);
}

/// The single-bit fields are disjoint from each other and from the opcode
/// and response-code fields.
proof fn lemma_single_bit_masks(m: u16, o: u16)
    requires
        is_single_bit_mask(m),
    ensures
        m != 0,
        m & 0x7800 == 0,
        m & 0x000f == 0,
        is_single_bit_mask(o) && o != m ==> m & o == 0,
{
    assert((m == 0x8000 || m == 0x0400 || m == 0x0200 || m == 0x0100 || m == 0x0080) ==> (m != 0
        && m & 0x7800 == 0 && m & 0x000f == 0 && ((o == 0x8000 || o == 0x0400 || o == 0x0200 || o
        == 0x0100 || o == 0x0080) && o != m ==> m & o == 0))) by (bit_vector);
}

/// Or-ing in or clearing the bits of `mask` leaves the bits of a disjoint
/// mask unchanged.
proof fn lemma_mask_frame(f: u16, mask: u16, other: u16)
    requires
        mask & other == 0,
    ensures
        (f | mask) & other == f & other,
        (f & !mask) & other == f & other,
{
    assert(mask & other == 0 ==> (f | mask) & other == f & other && (f & !mask) & other == f
        & other) by (bit_vector);
}

/// Setting a canonical opcode reads back as that opcode, and leaves the
/// single-bit fields and the response code as they were.
pub proof fn law_opcode_set(f: u16, o: MdnsOpcode)
    requires
        opcode_is_canonical(o),
    ensures
        flags_opcode(with_opcode(f, o)) == o,
        forall|m: u16|
            is_single_bit_mask(m) ==> #[trigger] flag_bit(with_opcode(f, o), m) == flag_bit(f, m),
        flags_rcode(with_opcode(f, o)) == flags_rcode(f),
{
    let b: u8 = bits_of_opcode(o);
    assert(b < 16);
    let g = with_opcode(f, o);
    assert(b < 16 ==> ((((f & !0x7800u16) | ((((b as u16) & 0x0fu16) << 11u16) as u16))
        & 0x7800u16) >> 11u16) as u8 == b) by (bit_vector);
    assert forall|m: u16| is_single_bit_mask(m) implies #[trigger] flag_bit(
        with_opcode(f, o),
        m,
    ) == flag_bit(f, m) by {
        lemma_single_bit_masks(m, m);
        lemma_opcode_frame(f, b, m);
    }
    assert(0x000fu16 & 0x7800u16 == 0) by (bit_vector);
    lemma_opcode_frame(f, b, 0x000f);
}

/// Replacing the opcode field leaves every other bit unchanged.
proof fn lemma_opcode_frame(f: u16, b: u8, m: u16)
    requires
        m & 0x7800 == 0,
    ensures
        ((f & !0x7800u16) | ((((b as u16) & 0x0fu16) << 11u16) as u16)) & m == f & m,
{
    assert(m & 0x7800 == 0 ==> ((f & !0x7800u16) | ((((b as u16) & 0x0fu16) << 11u16) as u16)) & m
        == f & m) by (bit_vector);
}

/// Replacing the response code field leaves every other bit unchanged.
proof fn lemma_rcode_frame(f: u16, b: u8, m: u16)
    requires
        m & 0x000f == 0,
    ensures
        ((f & !0x000fu16) | ((b as u16) & 0x000fu16)) & m == f & m,
{
    assert(m & 0x000f == 0 ==> ((f & !0x000fu16) | ((b as u16) & 0x000fu16)) & m == f & m)
        by (bit_vector);
}

/// Setting a response code changes no bit outside the response code field;
/// a canonical code reads back as itself.
pub proof fn law_rcode_set(f: u16, r: Rcode)
    ensures
        rcode_is_canonical(r) ==> flags_rcode(with_rcode(f, r)) == r,
        with_rcode(f, r) & !0x000fu16 == f & !0x000fu16,
        forall|m: u16|
            is_single_bit_mask(m) ==> #[trigger] flag_bit(with_rcode(f, r), m) == flag_bit(f, m),
        flags_opcode(with_rcode(f, r)) == flags_opcode(f),
{
    let b: u8 = bits_of_rcode(r);
    assert(b < 16 ==> (((f & !0x000fu16) | ((b as u16) & 0x000fu16)) & 0x000fu16) as u8 == b)
        by (bit_vector);
    assert(((f & !0x000fu16) | ((b as u16) & 0x000fu16)) & !0x000fu16 == f & !0x000fu16)
        by (bit_vector);
    assert forall|m: u16| is_single_bit_mask(m) implies #[trigger] flag_bit(
        with_rcode(f, r),
        m,
    ) == flag_bit(f, m) by {
        lemma_single_bit_masks(m, m);
        lemma_rcode_frame(f, b, m);
    }
    assert(0x7800u16 & 0x000fu16 == 0) by (bit_vector);
    lemma_rcode_frame(f, b, 0x7800);
}

/// The flags word survives being written as two bytes and read back.
pub proof fn law_flags_bytes_roundtrip(f: u16)
    ensures
        u16_from_be(u16_be_bytes(f)[0], u16_be_bytes(f)[1]) == f,
{
    lemma_u16_be_roundtrip(f);
}

/// The empty flags word marks a standard query with no error and every
/// single-bit field clear.
pub proof fn law_empty_flags()
    ensures
        forall|m: u16| is_single_bit_mask(m) ==> !#[trigger] flag_bit(0, m),
        flags_opcode(0) == MdnsOpcode::Query,
        flags_rcode(0) == Rcode::NoError,
{
    assert forall|m: u16| is_single_bit_mask(m) implies !#[trigger] flag_bit(0, m) by {
        assert(0u16 & m == 0) by (bit_vector);
    }
    assert(((0u16 & 0x7800u16) >> 11u16) as u8 == 0) by (bit_vector);
    assert((0u16 & 0x000fu16) as u8 == 0) by (bit_vector);
}

} // verus!
