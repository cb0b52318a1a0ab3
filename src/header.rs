//! The fixed 12-byte DNS header and its packed flag word.
use crate::binutils::{push_u16, safe_u16_read, u16_at, u16_bytes};
use crate::ParseError;
use vstd::prelude::*;

verus! {

/// Mask of the query/response bit.
pub const QR_MASK: u16 = 0b1000_0000_0000_0000;
/// Mask of the four opcode bits.
pub const OPCODE_MASK: u16 = 0b0111_1000_0000_0000;
/// Mask of the authoritative-answer bit.
pub const AA_MASK: u16 = 0b0000_0100_0000_0000;
/// Mask of the truncation bit.
pub const TC_MASK: u16 = 0b0000_0010_0000_0000;
/// Mask of the recursion-desired bit.
pub const RD_MASK: u16 = 0b0000_0001_0000_0000;
/// Mask of the recursion-available bit.
pub const RA_MASK: u16 = 0b0000_0000_1000_0000;
/// Mask of the reserved zero bit.
pub const Z_MASK: u16 = 0b0000_0000_0100_0000;
/// Mask of the authentic-data bit.
pub const AD_MASK: u16 = 0b0000_0000_0010_0000;
/// Mask of the checking-disabled bit.
pub const CD_MASK: u16 = 0b0000_0000_0001_0000;
/// Mask of the four response-code bits.
pub const RCODE_MASK: u16 = 0b0000_0000_0000_1111;

/// The value of the field under `mask`, whose lowest bit is bit `shift`.
pub open spec fn field(n: u16, mask: u16, shift: u16) -> u16 {
    (n & mask) >> shift
}

/// Extracts the field under `mask`, whose lowest bit is bit `shift`.
fn mask_shift(mask: u16, shift: u16, n: u16) -> (r: u16)
    requires
        shift < 16,
    ensures
        r == field(n, mask, shift),
{
    (n & mask) >> shift
}

/// Moves a field value back to its place in the flag word.
fn unshift(shift: u16, n: u16) -> (r: u16)
    requires
        shift < 16,
    ensures
        r == n << shift,
{
    n << shift
}

/// Query (0) or response (1) packet.
#[derive(Clone, Copy, Debug, PartialEq, Eq, Structural)]
pub enum QueryResponse {
    /// Query packet
    Query,
    /// Response packet
    Response,
}

/// Standard query (0), inverse query (1), server status query (2), notify (4), update (5), DSO (6).
#[derive(Clone, Copy, Debug, PartialEq, Eq, Structural)]
pub enum OpCode {
    /// Standard query
    Query,
    /// Inverse query
    Iquery,
    /// Server status query
    Status,
    /// Notify
    Notify,
    /// Update
    Update,
    /// DSO
    Dso,
}

/// Whether the answer is authoritative.
#[derive(Clone, Copy, Debug, PartialEq, Eq, Structural)]
pub enum AuthoritativeAnswer {
    /// The answer is not authoritative
    NonAuthoritative,
    /// The answer is authoritative
    Authoritative,
}

/// Whether the packet has been truncated.
#[derive(Clone, Copy, Debug, PartialEq, Eq, Structural)]
pub enum TrunCation {
    /// The packet has not been truncated
    NotTruncated,
    /// The packet has been truncated
    Truncated,
}

/// Whether the client desires recursion.
#[derive(Clone, Copy, Debug, PartialEq, Eq, Structural)]
pub enum RecursionDesired {
    /// Recursion is not desired
    NotDesired,
    /// Recursion is desired
    Desired,
}

/// Whether the server has recursion available.
#[derive(Clone, Copy, Debug, PartialEq, Eq, Structural)]
pub enum RecursionAvailable {
    /// Recursion is not available
    NotAvailable,
    /// Recursion is available
    Available,
}

/// The reserved bit, which should be 0.
#[derive(Clone, Copy, Debug, PartialEq, Eq, Structural)]
pub enum Zero {
    /// Standard value
    Zero,
    /// Value with no use assigned
    Reserved,
}

/// DNSSEC: whether the data has been cryptographically authenticated.
#[derive(Clone, Copy, Debug, PartialEq, Eq, Structural)]
pub enum AuthenticData {
    /// The data is not cryptographically authenticated
    NotAuthentic,
    /// The data is cryptographically authenticated
    Authentic,
}

/// DNSSEC: whether the client has disabled checking of the data.
#[derive(Clone, Copy, Debug, PartialEq, Eq, Structural)]
pub enum CheckingDisabled {
    /// Checking is enabled
    Enabled,
    /// Checking is disabled
    Disabled,
}

/// Response code.
#[derive(Clone, Copy, Debug, PartialEq, Eq, Structural)]
pub enum ResponseCode {
    /// There was no error.
    NoError,
    /// Format error: the name server was unable to interpret the query.
    FormErr,
    /// Server failure: the name server was unable to process this query.
    ServFail,
    /// Name error: the domain name referenced in the query does not exist.
    NXDomain,
    /// Not implemented: the name server does not support the requested kind of query.
    NotImp,
    /// Refused: the name server refuses to perform the specified operation.
    Refused,
}

/// The opcode with value `v`, if one is assigned.
pub open spec fn opcode_of(v: u16) -> Option<OpCode> {
    if v == 0 {
        Some(OpCode::Query)
    } else if v == 1 {
        Some(OpCode::Iquery)
    } else if v == 2 {
        Some(OpCode::Status)
    } else if v == 4 {
        Some(OpCode::Notify)
    } else if v == 5 {
        Some(OpCode::Update)
    } else if v == 6 {
        Some(OpCode::Dso)
    } else {
        None
    }
}

/// The value of an opcode.
pub open spec fn opcode_value(o: OpCode) -> u16 {
    match o {
        OpCode::Query => 0,
        OpCode::Iquery => 1,
        OpCode::Status => 2,
        OpCode::Notify => 4,
        OpCode::Update => 5,
        OpCode::Dso => 6,
    }
}

/// The response code with value `v`, if one is assigned.
pub open spec fn rcode_of(v: u16) -> Option<ResponseCode> {
    if v == 0 {
        Some(ResponseCode::NoError)
    } else if v == 1 {
        Some(ResponseCode::FormErr)
    } else if v == 2 {
        Some(ResponseCode::ServFail)
    } else if v == 3 {
        Some(ResponseCode::NXDomain)
    } else if v == 4 {
        Some(ResponseCode::NotImp)
    } else if v == 5 {
        Some(ResponseCode::Refused)
    } else {
        None
    }
}

/// The value of a response code.
pub open spec fn rcode_value(r: ResponseCode) -> u16 {
    match r {
        ResponseCode::NoError => 0,
        ResponseCode::FormErr => 1,
        ResponseCode::ServFail => 2,
        ResponseCode::NXDomain => 3,
        ResponseCode::NotImp => 4,
        ResponseCode::Refused => 5,
    }
}

/// The flags held by the flag word `n`, or the error for its first field with no meaning.
pub open spec fn flags_from_bits(n: u16) -> Result<Flags, ParseError> {
    let op = field(n, OPCODE_MASK, 11);
    let rc = field(n, RCODE_MASK, 0);
    if opcode_of(op).is_none() {
        Err(ParseError::HeaderFlag("OpCode", op))
    } else if rcode_of(rc).is_none() {
        Err(ParseError::HeaderFlag("ResponseCode", rc))
    } else {
        Ok(
            Flags {
                qr: if field(n, QR_MASK, 15) == 0 {
                    QueryResponse::Query
                } else {
                    QueryResponse::Response
                },
                opcode: opcode_of(op).unwrap(),
                aa: if field(n, AA_MASK, 10) == 0 {
                    AuthoritativeAnswer::NonAuthoritative
                } else {
                    AuthoritativeAnswer::Authoritative
                },
                tc: if field(n, TC_MASK, 9) == 0 {
                    TrunCation::NotTruncated
                } else {
                    TrunCation::Truncated
                },
                rd: if field(n, RD_MASK, 8) == 0 {
                    RecursionDesired::NotDesired
                } else {
                    RecursionDesired::Desired
                },
                ra: if field(n, RA_MASK, 7) == 0 {
                    RecursionAvailable::NotAvailable
                } else {
                    RecursionAvailable::Available
                },
                z: if field(n, Z_MASK, 6) == 0 {
                    Zero::Zero
                } else {
                    Zero::Reserved
                },
                ad: if field(n, AD_MASK, 5) == 0 {
                    AuthenticData::NotAuthentic
                } else {
                    AuthenticData::Authentic
                },
                cd: if field(n, CD_MASK, 4) == 0 {
                    CheckingDisabled::Enabled
                } else {
                    CheckingDisabled::Disabled
                },
                rcode: rcode_of(rc).unwrap(),
            },
        )
    }
}

/// The flag word that holds `f`.
pub open spec fn flags_bits(f: Flags) -> u16 {
    ((if f.qr == QueryResponse::Query { 0u16 } else { 1u16 }) << 15u16)
        | (opcode_value(f.opcode) << 11u16)
        | ((if f.aa == AuthoritativeAnswer::NonAuthoritative { 0u16 } else { 1u16 }) << 10u16)
        | ((if f.tc == TrunCation::NotTruncated { 0u16 } else { 1u16 }) << 9u16)
        | ((if f.rd == RecursionDesired::NotDesired { 0u16 } else { 1u16 }) << 8u16)
        | ((if f.ra == RecursionAvailable::NotAvailable { 0u16 } else { 1u16 }) << 7u16)
        | ((if f.z == Zero::Zero { 0u16 } else { 1u16 }) << 6u16)
        | ((if f.ad == AuthenticData::NotAuthentic { 0u16 } else { 1u16 }) << 5u16)
        | ((if f.cd == CheckingDisabled::Enabled { 0u16 } else { 1u16 }) << 4u16)
        | rcode_value(f.rcode)
}

/// DNS flags, as held in the second 16-bit word of the header.
///
/// ```text
///     +--+--+--+--+--+--+--+--+--+--+--+--+--+--+--+--+
///     |QR|   Opcode  |AA|TC|RD|RA| Z|AD|CD|   RCODE   |
///     +--+--+--+--+--+--+--+--+--+--+--+--+--+--+--+--+
/// ```
#[derive(Clone, Copy, Debug, PartialEq, Eq, Structural)]
pub struct Flags {
    /// Query (0) or response (1)
    pub qr: QueryResponse,
    /// The kind of query
    pub opcode: OpCode,
    /// The answer is authoritative.
    pub aa: AuthoritativeAnswer,
    /// The packet has been truncated.
    pub tc: TrunCation,
    /// The client desires recursion.
    pub rd: RecursionDesired,
    /// The server has recursion available.
    pub ra: RecursionAvailable,
    /// Reserved (should be 0).
    pub z: Zero,
    /// Authentic data (for DNSSEC)
    pub ad: AuthenticData,
    /// Checking disabled (for DNSSEC)
    pub cd: CheckingDisabled,
    /// Response code
    pub rcode: ResponseCode,
}

impl Flags {
    /// Decodes a flag word; an opcode or response code with no meaning is an error.
    pub fn from_bits(n: u16) -> (r: Result<Flags, ParseError>)
        ensures
            r == flags_from_bits(n),
    {
        let op = mask_shift(OPCODE_MASK, 11, n);
        let rc = mask_shift(RCODE_MASK, 0, n);
        let opcode = if op == 0 {
            OpCode::Query
        } else if op == 1 {
            OpCode::Iquery
        } else if op == 2 {
            OpCode::Status
        } else if op == 4 {
            OpCode::Notify
        } else if op == 5 {
            OpCode::Update
        } else if op == 6 {
            OpCode::Dso
        } else {
            return Err(ParseError::HeaderFlag("OpCode", op));
        };
        let rcode = if rc == 0 {
            ResponseCode::NoError
        } else if rc == 1 {
            ResponseCode::FormErr
        } else if rc == 2 {
            ResponseCode::ServFail
        } else if rc == 3 {
            ResponseCode::NXDomain
        } else if rc == 4 {
            ResponseCode::NotImp
        } else if rc == 5 {
            ResponseCode::Refused
        } else {
            return Err(ParseError::HeaderFlag("ResponseCode", rc));
        };
        Ok(
            Flags {
                qr: if mask_shift(QR_MASK, 15, n) == 0 {
                    QueryResponse::Query
                } else {
                    QueryResponse::Response
                },
                opcode,
                aa: if mask_shift(AA_MASK, 10, n) == 0 {
                    AuthoritativeAnswer::NonAuthoritative
                } else {
                    AuthoritativeAnswer::Authoritative
                },
                tc: if mask_shift(TC_MASK, 9, n) == 0 {
                    TrunCation::NotTruncated
                } else {
                    TrunCation::Truncated
                },
                rd: if mask_shift(RD_MASK, 8, n) == 0 {
                    RecursionDesired::NotDesired
                } else {
                    RecursionDesired::Desired
                },
                ra: if mask_shift(RA_MASK, 7, n) == 0 {
                    RecursionAvailable::NotAvailable
                } else {
                    RecursionAvailable::Available
                },
                z: if mask_shift(Z_MASK, 6, n) == 0 {
                    Zero::Zero
                } else {
                    Zero::Reserved
                },
                ad: if mask_shift(AD_MASK, 5, n) == 0 {
                    AuthenticData::NotAuthentic
                } else {
                    AuthenticData::Authentic
                },
                cd: if mask_shift(CD_MASK, 4, n) == 0 {
                    CheckingDisabled::Enabled
                } else {
                    CheckingDisabled::Disabled
                },
                rcode,
            },
        )
    }

    /// Encodes the flags into their 16-bit word.
    pub fn to_bits(self) -> (r: u16)
        ensures
            r == flags_bits(self),
    {
        let opcode: u16 = match self.opcode {
            OpCode::Query => 0,
            OpCode::Iquery => 1,
            OpCode::Status => 2,
            OpCode::Notify => 4,
            OpCode::Update => 5,
            OpCode::Dso => 6,
        };
        let rcode: u16 = match self.rcode {
            ResponseCode::NoError => 0,
            ResponseCode::FormErr => 1,
            ResponseCode::ServFail => 2,
            ResponseCode::NXDomain => 3,
            ResponseCode::NotImp => 4,
            ResponseCode::Refused => 5,
        };
        unshift(15, if self.qr == QueryResponse::Query { 0 } else { 1 })
            | unshift(11, opcode)
            | unshift(10, if self.aa == AuthoritativeAnswer::NonAuthoritative { 0 } else { 1 })
            | unshift(9, if self.tc == TrunCation::NotTruncated { 0 } else { 1 })
            | unshift(8, if self.rd == RecursionDesired::NotDesired { 0 } else { 1 })
            | unshift(7, if self.ra == RecursionAvailable::NotAvailable { 0 } else { 1 })
            | unshift(6, if self.z == Zero::Zero { 0 } else { 1 })
            | unshift(5, if self.ad == AuthenticData::NotAuthentic { 0 } else { 1 })
            | unshift(4, if self.cd == CheckingDisabled::Enabled { 0 } else { 1 })
            | rcode
    }
}


/// Decoding a flag word whose opcode and response code have a meaning, and then encoding
/// the flags again, gives back the very same word.
pub proof fn lemma_flags_round_trip(n: u16)
    requires
        flags_from_bits(n).is_ok(),
    ensures
        flags_bits(flags_from_bits(n).unwrap()) == n,
{
    let f = flags_from_bits(n).unwrap();
    let op = field(n, OPCODE_MASK, 11);
    let rc = field(n, RCODE_MASK, 0);
    assert(opcode_value(f.opcode) == op);
    assert(rcode_value(f.rcode) == rc);
    let b15 = field(n, QR_MASK, 15);
    let b10 = field(n, AA_MASK, 10);
    let b9 = field(n, TC_MASK, 9);
    let b8 = field(n, RD_MASK, 8);
    let b7 = field(n, RA_MASK, 7);
    let b6 = field(n, Z_MASK, 6);
    let b5 = field(n, AD_MASK, 5);
    let b4 = field(n, CD_MASK, 4);
    assert(b15 < 2 && b10 < 2 && b9 < 2 && b8 < 2 && b7 < 2 && b6 < 2 && b5 < 2 && b4 < 2)
        by (bit_vector)
        requires
            b15 == (n & 0x8000) >> 15,
            b10 == (n & 0x0400) >> 10,
            b9 == (n & 0x0200) >> 9,
            b8 == (n & 0x0100) >> 8,
            b7 == (n & 0x0080) >> 7,
            b6 == (n & 0x0040) >> 6,
            b5 == (n & 0x0020) >> 5,
            b4 == (n & 0x0010) >> 4,
    ;
    assert((b15 << 15u16) | (op << 11u16) | (b10 << 10u16) | (b9 << 9u16) | (b8 << 8u16) | (b7
        << 7u16) | (b6 << 6u16) | (b5 << 5u16) | (b4 << 4u16) | rc == n) by (bit_vector)
        requires
            b15 == (n & 0x8000) >> 15,
            op == (n & 0x7800) >> 11,
            b10 == (n & 0x0400) >> 10,
            b9 == (n & 0x0200) >> 9,
            b8 == (n & 0x0100) >> 8,
            b7 == (n & 0x0080) >> 7,
            b6 == (n & 0x0040) >> 6,
            b5 == (n & 0x0020) >> 5,
            b4 == (n & 0x0010) >> 4,
            rc == (n & 0x000F) >> 0,
    ;
}

/// Encoding flags and decoding the word gives back the same flags.
pub proof fn lemma_flags_canonical(f: Flags)
    ensures
        flags_from_bits(flags_bits(f)) == Ok::<Flags, ParseError>(f),
{
    let q: u16 = if f.qr == QueryResponse::Query { 0 } else { 1 };
    let op = opcode_value(f.opcode);
    let a: u16 = if f.aa == AuthoritativeAnswer::NonAuthoritative { 0 } else { 1 };
    let t: u16 = if f.tc == TrunCation::NotTruncated { 0 } else { 1 };
    let rd: u16 = if f.rd == RecursionDesired::NotDesired { 0 } else { 1 };
    let ra: u16 = if f.ra == RecursionAvailable::NotAvailable { 0 } else { 1 };
    let z: u16 = if f.z == Zero::Zero { 0 } else { 1 };
    let ad: u16 = if f.ad == AuthenticData::NotAuthentic { 0 } else { 1 };
    let cd: u16 = if f.cd == CheckingDisabled::Enabled { 0 } else { 1 };
    let rc = rcode_value(f.rcode);
    let n = flags_bits(f);
    assert(n == (q << 15u16) | (op << 11u16) | (a << 10u16) | (t << 9u16) | (rd << 8u16) | (ra
        << 7u16) | (z << 6u16) | (ad << 5u16) | (cd << 4u16) | rc);
    assert(field(n, QR_MASK, 15) == q && field(n, OPCODE_MASK, 11) == op && field(n, AA_MASK, 10)
        == a && field(n, TC_MASK, 9) == t && field(n, RD_MASK, 8) == rd && field(n, RA_MASK, 7)
        == ra && field(n, Z_MASK, 6) == z && field(n, AD_MASK, 5) == ad && field(n, CD_MASK, 4)
        == cd && field(n, RCODE_MASK, 0) == rc) by (bit_vector)
        requires
            q < 2 && op < 16 && a < 2 && t < 2 && rd < 2 && ra < 2 && z < 2 && ad < 2 && cd < 2
                && rc < 16,
            n == (q << 15u16) | (op << 11u16) | (a << 10u16) | (t << 9u16) | (rd << 8u16) | (ra
                << 7u16) | (z << 6u16) | (ad << 5u16) | (cd << 4u16) | rc,
    ;
}

impl TryFrom<u16> for Flags {
    type Error = ParseError;

    fn try_from(n: u16) -> (r: Result<Flags, ParseError>)
        ensures
            r == flags_from_bits(n),
    {
        Flags::from_bits(n)
    }
}

impl vstd::std_specs::convert::TryFromSpecImpl<u16> for Flags {
    open spec fn obeys_try_from_spec() -> bool {
        true
    }

    open spec fn try_from_spec(n: u16) -> Result<Flags, ParseError> {
        flags_from_bits(n)
    }
}

impl From<Flags> for u16 {
    fn from(f: Flags) -> (r: u16)
        ensures
            r == flags_bits(f),
    {
        f.to_bits()
    }
}

impl vstd::std_specs::convert::FromSpecImpl<Flags> for u16 {
    open spec fn obeys_from_spec() -> bool {
        true
    }

    open spec fn from_spec(f: Flags) -> u16 {
        flags_bits(f)
    }
}

/// A DNS header: the transaction id, the flags and the four section counts.
///
/// ```text
///     +--+--+--+--+--+--+--+--+--+--+--+--+--+--+--+--+
///     |                      ID                       |
///     +--+--+--+--+--+--+--+--+--+--+--+--+--+--+--+--+
///     |QR|   Opcode  |AA|TC|RD|RA| Z|AD|CD|   RCODE   |
///     +--+--+--+--+--+--+--+--+--+--+--+--+--+--+--+--+
///     |                    QDCOUNT                    |
///     +--+--+--+--+--+--+--+--+--+--+--+--+--+--+--+--+
///     |                    ANCOUNT                    |
///     +--+--+--+--+--+--+--+--+--+--+--+--+--+--+--+--+
///     |                    NSCOUNT                    |
///     +--+--+--+--+--+--+--+--+--+--+--+--+--+--+--+--+
///     |                    ARCOUNT                    |
///     +--+--+--+--+--+--+--+--+--+--+--+--+--+--+--+--+
/// ```
#[derive(Clone, Copy, Debug, PartialEq, Eq, Structural)]
pub struct DnsHeader {
    /// Identifier of the exchange
    pub id: u16,
    /// The flags of the header.
    pub flags: Flags,
    /// Question records count
    pub questions: u16,
    /// Answer records count
    pub answers: u16,
    /// Name server records count
    pub authority: u16,
    /// Additional records count
    pub additional: u16,
}

/// Length of the header in bytes.
pub const HEADER_SIZE: usize = 12;

/// The header that the first twelve bytes of `buf` hold, or why they hold none.
pub open spec fn header_from(buf: Seq<u8>) -> Result<DnsHeader, ParseError> {
    if buf.len() < 12 {
        Err(ParseError::HeaderLength(buf.len() as usize))
    } else {
        match flags_from_bits(u16_at(buf, 2)) {
            Err(e) => Err(e),
            Ok(flags) => Ok(
                DnsHeader {
                    id: u16_at(buf, 0),
                    flags,
                    questions: u16_at(buf, 4),
                    answers: u16_at(buf, 6),
                    authority: u16_at(buf, 8),
                    additional: u16_at(buf, 10),
                },
            ),
        }
    }
}

/// The twelve bytes that encode `h`.
pub open spec fn header_bytes(h: DnsHeader) -> Seq<u8> {
    u16_bytes(h.id) + u16_bytes(flags_bits(h.flags)) + u16_bytes(h.questions) + u16_bytes(
        h.answers,
    ) + u16_bytes(h.authority) + u16_bytes(h.additional)
}

impl DnsHeader {
    /// Parses the header at the start of `bytes`.
    pub fn parse(bytes: &[u8]) -> (r: Result<DnsHeader, ParseError>)
        ensures
            r == header_from(bytes@),
    {
        if bytes.len() < HEADER_SIZE {
            return Err(ParseError::HeaderLength(bytes.len()));
        }
        let id = safe_u16_read(bytes, 0)?;
        let flags = Flags::from_bits(safe_u16_read(bytes, 2)?)?;
        let questions = safe_u16_read(bytes, 4)?;
        let answers = safe_u16_read(bytes, 6)?;
        let authority = safe_u16_read(bytes, 8)?;
        let additional = safe_u16_read(bytes, 10)?;
        Ok(DnsHeader { id, flags, questions, answers, authority, additional })
    }

    /// Serializes the header at the end of `target`.
    pub fn serialize(&self, target: &mut Vec<u8>)
        ensures
            final(target)@ == old(target)@ + header_bytes(*self),
    {
        push_u16(target, self.id);
        push_u16(target, self.flags.to_bits());
        push_u16(target, self.questions);
        push_u16(target, self.answers);
        push_u16(target, self.authority);
        push_u16(target, self.additional);
        assert(final(target)@ =~= old(target)@ + header_bytes(*self));
    }
}

/// Encoding a header and parsing the bytes gives back the header, whatever follows it.
pub proof fn lemma_header_round_trip(h: DnsHeader, rest: Seq<u8>)
    requires
        flags_from_bits(flags_bits(h.flags)) == Ok::<Flags, ParseError>(h.flags),
    ensures
        header_from(header_bytes(h) + rest) == Ok::<DnsHeader, ParseError>(h),
{
    let b = header_bytes(h) + rest;
    assert(b.subrange(0, 2) =~= u16_bytes(h.id));
    assert(u16_at(b, 0) == h.id);
    assert(u16_at(b, 2) == flags_bits(h.flags));
    assert(u16_at(b, 4) == h.questions);
    assert(u16_at(b, 6) == h.answers);
    assert(u16_at(b, 8) == h.authority);
    assert(u16_at(b, 10) == h.additional);
}

impl<'a> TryFrom<&'a [u8]> for DnsHeader {
    type Error = ParseError;

    fn try_from(bytes: &'a [u8]) -> (r: Result<DnsHeader, ParseError>)
        ensures
            r == header_from(bytes@),
    {
        DnsHeader::parse(bytes)
    }
}

impl<'a> vstd::std_specs::convert::TryFromSpecImpl<&'a [u8]> for DnsHeader {
    open spec fn obeys_try_from_spec() -> bool {
        true
    }

    open spec fn try_from_spec(bytes: &'a [u8]) -> Result<DnsHeader, ParseError> {
        header_from(bytes@)
    }
}

impl<'a> From<&'a DnsHeader> for Vec<u8> {
    fn from(h: &'a DnsHeader) -> (r: Vec<u8>)
        ensures
            r@ == header_bytes(*h),
    {
        let mut target = Vec::with_capacity(HEADER_SIZE);
        h.serialize(&mut target);
        target
    }
}

impl<'a> vstd::std_specs::convert::FromSpecImpl<&'a DnsHeader> for Vec<u8> {
    open spec fn obeys_from_spec() -> bool {
        false
    }

    open spec fn from_spec(h: &'a DnsHeader) -> Vec<u8> {
        arbitrary()
    }
}

} // verus!
