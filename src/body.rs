//! The body of a DNS packet: questions and resource records.
use crate::binutils::{
    holds_at, lemma_holds_at_split, lemma_i32_u32, lemma_u16_at, lemma_u32_at, push_i32, push_u16,
    safe_i32_read, safe_u16_read, safe_u8_read, u16_at, u16_bytes, u32_at, u32_bytes,
};
use crate::body::name::{
    lemma_labels_bytes_len, lemma_name_round_trip, lemma_parse_name_bounds,
    lemma_parse_name_valid,
    name_bytes, parse_name, valid_labels, Name,
};
use crate::ParseError;
use vstd::prelude::*;
use vstd::slice::{slice_subrange, slice_to_vec};

/// Domain names.
pub mod name;

verus! {

/// The type of a [ResourceRecord].
#[derive(Clone, Copy, Debug, PartialEq, Eq, Structural)]
pub enum Type {
    /// A host address (IPv4)
    A,
    /// An authoritative name server
    Ns,
    /// The canonical name for an alias
    Cname,
    /// A mail exchange
    Mx,
    /// Text strings
    Txt,
    /// A host address (IPv6)
    Aaaa,
    /// A value with no meaning known here.
    Unknown(u16),
}

/// The type of a [Question]: a record type, or all of them.
#[derive(Clone, Copy, Debug, PartialEq, Eq, Structural)]
pub enum QType {
    /// A host address (IPv4)
    A,
    /// An authoritative name server
    Ns,
    /// The canonical name for an alias
    Cname,
    /// A mail exchange
    Mx,
    /// Text strings
    Txt,
    /// A host address (IPv6)
    Aaaa,
    /// All types
    All,
    /// A value with no meaning known here.
    Unknown(u16),
}

/// The DNS classes.
///
/// In practice this should always be `Class::IN`; the rest are there for completeness.
#[derive(Clone, Copy, Debug, PartialEq, Eq, Structural)]
pub enum Class {
    /// IN: the Internet
    IN,
    /// CS: the CSNET class (obsolete)
    CS,
    /// CH: the CHAOS class
    CH,
    /// HS: Hesiod
    HS,
    /// *: any class
    Any,
    /// A value with no meaning known here.
    Unknown(u16),
}

/// The record type with code `n`.
pub open spec fn type_of(n: u16) -> Type {
    if n == 1 {
        Type::A
    } else if n == 2 {
        Type::Ns
    } else if n == 5 {
        Type::Cname
    } else if n == 15 {
        Type::Mx
    } else if n == 16 {
        Type::Txt
    } else if n == 28 {
        Type::Aaaa
    } else {
        Type::Unknown(n)
    }
}

/// The code of a record type.
pub open spec fn type_code(t: Type) -> u16 {
    match t {
        Type::A => 1,
        Type::Ns => 2,
        Type::Cname => 5,
        Type::Mx => 15,
        Type::Txt => 16,
        Type::Aaaa => 28,
        Type::Unknown(n) => n,
    }
}

/// The question type with code `n`.
pub open spec fn qtype_of(n: u16) -> QType {
    if n == 1 {
        QType::A
    } else if n == 2 {
        QType::Ns
    } else if n == 5 {
        QType::Cname
    } else if n == 15 {
        QType::Mx
    } else if n == 16 {
        QType::Txt
    } else if n == 28 {
        QType::Aaaa
    } else if n == 255 {
        QType::All
    } else {
        QType::Unknown(n)
    }
}

/// The code of a question type.
pub open spec fn qtype_code(t: QType) -> u16 {
    match t {
        QType::A => 1,
        QType::Ns => 2,
        QType::Cname => 5,
        QType::Mx => 15,
        QType::Txt => 16,
        QType::Aaaa => 28,
        QType::All => 255,
        QType::Unknown(n) => n,
    }
}

/// The class with code `n`.
pub open spec fn class_of(n: u16) -> Class {
    if n == 1 {
        Class::IN
    } else if n == 2 {
        Class::CS
    } else if n == 3 {
        Class::CH
    } else if n == 4 {
        Class::HS
    } else if n == 255 {
        Class::Any
    } else {
        Class::Unknown(n)
    }
}

/// The code of a class.
pub open spec fn class_code(c: Class) -> u16 {
    match c {
        Class::IN => 1,
        Class::CS => 2,
        Class::CH => 3,
        Class::HS => 4,
        Class::Any => 255,
        Class::Unknown(n) => n,
    }
}

impl From<u16> for Type {
    fn from(n: u16) -> (r: Type)
        ensures
            r == type_of(n),
    {
        if n == 1 {
            Type::A
        } else if n == 2 {
            Type::Ns
        } else if n == 5 {
            Type::Cname
        } else if n == 15 {
            Type::Mx
        } else if n == 16 {
            Type::Txt
        } else if n == 28 {
            Type::Aaaa
        } else {
            Type::Unknown(n)
        }
    }
}

impl vstd::std_specs::convert::FromSpecImpl<u16> for Type {
    open spec fn obeys_from_spec() -> bool {
        true
    }

    open spec fn from_spec(n: u16) -> Type {
        type_of(n)
    }
}

impl From<Type> for u16 {
    fn from(t: Type) -> (r: u16)
        ensures
            r == type_code(t),
    {
        match t {
            Type::A => 1,
            Type::Ns => 2,
            Type::Cname => 5,
            Type::Mx => 15,
            Type::Txt => 16,
            Type::Aaaa => 28,
            Type::Unknown(n) => n,
        }
    }
}

impl vstd::std_specs::convert::FromSpecImpl<Type> for u16 {
    open spec fn obeys_from_spec() -> bool {
        true
    }

    open spec fn from_spec(t: Type) -> u16 {
        type_code(t)
    }
}

impl From<u16> for QType {
    fn from(n: u16) -> (r: QType)
        ensures
            r == qtype_of(n),
    {
        if n == 1 {
            QType::A
        } else if n == 2 {
            QType::Ns
        } else if n == 5 {
            QType::Cname
        } else if n == 15 {
            QType::Mx
        } else if n == 16 {
            QType::Txt
        } else if n == 28 {
            QType::Aaaa
        } else if n == 255 {
            QType::All
        } else {
            QType::Unknown(n)
        }
    }
}

impl vstd::std_specs::convert::FromSpecImpl<u16> for QType {
    open spec fn obeys_from_spec() -> bool {
        true
    }

    open spec fn from_spec(n: u16) -> QType {
        qtype_of(n)
    }
}

impl From<QType> for u16 {
    fn from(t: QType) -> (r: u16)
        ensures
            r == qtype_code(t),
    {
        match t {
            QType::A => 1,
            QType::Ns => 2,
            QType::Cname => 5,
            QType::Mx => 15,
            QType::Txt => 16,
            QType::Aaaa => 28,
            QType::All => 255,
            QType::Unknown(n) => n,
        }
    }
}

impl vstd::std_specs::convert::FromSpecImpl<QType> for u16 {
    open spec fn obeys_from_spec() -> bool {
        true
    }

    open spec fn from_spec(t: QType) -> u16 {
        qtype_code(t)
    }
}

/// The question type that asks for records of type `t`.
pub open spec fn qtype_for(t: Type) -> QType {
    match t {
        Type::A => QType::A,
        Type::Ns => QType::Ns,
        Type::Cname => QType::Cname,
        Type::Mx => QType::Mx,
        Type::Txt => QType::Txt,
        Type::Aaaa => QType::Aaaa,
        Type::Unknown(n) => QType::Unknown(n),
    }
}

/// The record type that the question type `t` asks for, or an error for `All`.
pub open spec fn type_for(t: QType) -> Result<Type, &'static str> {
    match t {
        QType::A => Ok(Type::A),
        QType::Ns => Ok(Type::Ns),
        QType::Cname => Ok(Type::Cname),
        QType::Mx => Ok(Type::Mx),
        QType::Txt => Ok(Type::Txt),
        QType::Aaaa => Ok(Type::Aaaa),
        QType::Unknown(n) => Ok(Type::Unknown(n)),
        QType::All => Err("QType is not a valid Type"),
    }
}

impl From<Type> for QType {
    fn from(t: Type) -> (r: QType)
        ensures
            r == qtype_for(t),
    {
        match t {
            Type::A => QType::A,
            Type::Ns => QType::Ns,
            Type::Cname => QType::Cname,
            Type::Mx => QType::Mx,
            Type::Txt => QType::Txt,
            Type::Aaaa => QType::Aaaa,
            Type::Unknown(n) => QType::Unknown(n),
        }
    }
}

impl vstd::std_specs::convert::FromSpecImpl<Type> for QType {
    open spec fn obeys_from_spec() -> bool {
        true
    }

    open spec fn from_spec(t: Type) -> QType {
        qtype_for(t)
    }
}

impl TryFrom<QType> for Type {
    type Error = &'static str;

    fn try_from(t: QType) -> (r: Result<Type, &'static str>)
        ensures
            r == type_for(t),
    {
        match t {
            QType::A => Ok(Type::A),
            QType::Ns => Ok(Type::Ns),
            QType::Cname => Ok(Type::Cname),
            QType::Mx => Ok(Type::Mx),
            QType::Txt => Ok(Type::Txt),
            QType::Aaaa => Ok(Type::Aaaa),
            QType::Unknown(n) => Ok(Type::Unknown(n)),
            QType::All => Err("QType is not a valid Type"),
        }
    }
}

impl vstd::std_specs::convert::TryFromSpecImpl<QType> for Type {
    open spec fn obeys_try_from_spec() -> bool {
        true
    }

    open spec fn try_from_spec(t: QType) -> Result<Type, &'static str> {
        type_for(t)
    }
}

impl From<u16> for Class {
    fn from(n: u16) -> (r: Class)
        ensures
            r == class_of(n),
    {
        if n == 1 {
            Class::IN
        } else if n == 2 {
            Class::CS
        } else if n == 3 {
            Class::CH
        } else if n == 4 {
            Class::HS
        } else if n == 255 {
            Class::Any
        } else {
            Class::Unknown(n)
        }
    }
}

impl vstd::std_specs::convert::FromSpecImpl<u16> for Class {
    open spec fn obeys_from_spec() -> bool {
        true
    }

    open spec fn from_spec(n: u16) -> Class {
        class_of(n)
    }
}

impl From<Class> for u16 {
    fn from(c: Class) -> (r: u16)
        ensures
            r == class_code(c),
    {
        match c {
            Class::IN => 1,
            Class::CS => 2,
            Class::CH => 3,
            Class::HS => 4,
            Class::Any => 255,
            Class::Unknown(n) => n,
        }
    }
}

impl vstd::std_specs::convert::FromSpecImpl<Class> for u16 {
    open spec fn obeys_from_spec() -> bool {
        true
    }

    open spec fn from_spec(c: Class) -> u16 {
        class_code(c)
    }
}

/// A question, as values: the labels of its name, its type and its class.
pub struct QuestionView {
    pub name: Seq<Seq<u8>>,
    pub qtype: QType,
    pub class: Class,
}

/// The question at `pos` in `buf` and the bytes it takes there, or why there is none.
pub open spec fn parse_question(buf: Seq<u8>, pos: int) -> Result<(QuestionView, int), ParseError> {
    match parse_name(buf, pos) {
        Err(e) => Err(e),
        Ok((name, n)) => {
            let p = pos + n;
            if p + 2 > buf.len() {
                Err(ParseError::OobRead(p as usize))
            } else if p + 4 > buf.len() {
                Err(ParseError::OobRead((p + 2) as usize))
            } else {
                Ok(
                    (
                        QuestionView {
                            name,
                            qtype: qtype_of(u16_at(buf, p)),
                            class: class_of(u16_at(buf, p + 2)),
                        },
                        n + 4,
                    ),
                )
            }
        },
    }
}

/// The wire form of a question.
pub open spec fn question_bytes(q: QuestionView) -> Seq<u8> {
    name_bytes(q.name) + u16_bytes(qtype_code(q.qtype)) + u16_bytes(class_code(q.class))
}

/// A query for a [ResourceRecord] of the given [QType] and [Class].
///
/// ```text
///    +--+--+--+--+--+--+--+--+--+--+--+--+--+--+--+--+
///    /                     QNAME                     /
///    +--+--+--+--+--+--+--+--+--+--+--+--+--+--+--+--+
///    |                     QTYPE                     |
///    +--+--+--+--+--+--+--+--+--+--+--+--+--+--+--+--+
///    |                     QCLASS                    |
///    +--+--+--+--+--+--+--+--+--+--+--+--+--+--+--+--+
/// ```
#[derive(Clone, Debug, PartialEq, Eq)]
pub struct Question {
    /// The domain name to be queried
    pub name: Name,
    /// The type of record being queried
    pub qtype: QType,
    /// The class of record being queried
    pub class: Class,
}

impl View for Question {
    type V = QuestionView;

    open spec fn view(&self) -> QuestionView {
        QuestionView { name: self.name@, qtype: self.qtype, class: self.class }
    }
}

impl Question {
    /// Parses the question that starts at `start` in `buff`, and returns it with the number
    /// of bytes it takes there.
    ///
    /// A compressed name may point back anywhere before it, so `buff` should hold the whole
    /// packet.
    pub fn parse(buff: &[u8], start: usize) -> (r: Result<(Question, usize), ParseError>)
        ensures
            match r {
                Ok((q, n)) => parse_question(buff@, start as int) == Ok::<(QuestionView, int), ParseError>((q@, n as int)),
                Err(e) => parse_question(buff@, start as int) == Err::<(QuestionView, int), ParseError>(e),
            },
            r is Ok ==> start + r->Ok_0.1 <= buff@.len(),
    {
        let blen = buff.len();
        let (name, size) = match Name::parse(buff, start) {
            Ok(parsed) => parsed,
            Err(e) => return Err(e),
        };
        assert(start + size <= blen);
        let n = start + size;
        let qtype = safe_u16_read(buff, n)?;
        let class = safe_u16_read(buff, n + 2)?;
        Ok((Question { name, qtype: QType::from(qtype), class: Class::from(class) }, size + 4))
    }

    /// Serializes the question at the end of `packet`.
    pub fn serialize(&self, packet: &mut Vec<u8>)
        ensures
            final(packet)@ == old(packet)@ + question_bytes(self@),
    {
        self.name.serialize(packet);
        push_u16(packet, u16::from(self.qtype));
        push_u16(packet, u16::from(self.class));
        assert(final(packet)@ =~= old(packet)@ + question_bytes(self@));
    }
}

/// A record preamble, as values.
pub struct PreambleView {
    pub name: Seq<Seq<u8>>,
    pub rrtype: Type,
    pub class: Class,
    pub ttl: i32,
    pub rdlen: u16,
}

/// The record data, as values.
pub enum DataView {
    A(Seq<u8>),
    Aaaa(Seq<u8>),
    Ns(Seq<Seq<u8>>),
    Cname(Seq<Seq<u8>>),
    Mx(u16, Seq<Seq<u8>>),
    Txt(Seq<u8>),
    Unknown(u16, Seq<u8>),
}

impl From<Question> for Vec<u8> {
    fn from(q: Question) -> (r: Vec<u8>)
        ensures
            r@ == question_bytes(q@),
    {
        let mut out = Vec::new();
        q.serialize(&mut out);
        assert(out@ =~= question_bytes(q@));
        out
    }
}

impl vstd::std_specs::convert::FromSpecImpl<Question> for Vec<u8> {
    open spec fn obeys_from_spec() -> bool {
        false
    }

    open spec fn from_spec(q: Question) -> Vec<u8> {
        arbitrary()
    }
}

/// A resource record, as values.
pub struct RecordView {
    pub preamble: PreambleView,
    pub data: DataView,
}

/// The record preamble at `pos` in `buf` and the bytes it takes there, or why there is none.
pub open spec fn parse_preamble(buf: Seq<u8>, pos: int) -> Result<(PreambleView, int), ParseError> {
    match parse_name(buf, pos) {
        Err(e) => Err(e),
        Ok((name, n)) => {
            let p = pos + n;
            if p + 2 > buf.len() {
                Err(ParseError::OobRead(p as usize))
            } else if p + 4 > buf.len() {
                Err(ParseError::OobRead((p + 2) as usize))
            } else if p + 8 > buf.len() {
                Err(ParseError::OobRead((p + 4) as usize))
            } else if p + 10 > buf.len() {
                Err(ParseError::OobRead((p + 8) as usize))
            } else {
                Ok(
                    (
                        PreambleView {
                            name,
                            rrtype: type_of(u16_at(buf, p)),
                            class: class_of(u16_at(buf, p + 2)),
                            ttl: u32_at(buf, p + 4) as i32,
                            rdlen: u16_at(buf, p + 8),
                        },
                        n + 10,
                    ),
                )
            }
        },
    }
}

/// The record data of type `rrtype` and length `rdlen` at `pos` in `buf`, or why there is none.
pub open spec fn parse_data(buf: Seq<u8>, pos: int, rrtype: Type, rdlen: u16) -> Result<DataView, ParseError> {
    match rrtype {
        Type::A => if pos + 4 > buf.len() {
            Err(ParseError::OobRead(pos as usize))
        } else {
            Ok(DataView::A(buf.subrange(pos, pos + 4)))
        },
        Type::Aaaa => if pos + 16 > buf.len() {
            Err(ParseError::OobRead(pos as usize))
        } else {
            Ok(DataView::Aaaa(buf.subrange(pos, pos + 16)))
        },
        Type::Ns => match parse_name(buf, pos) {
            Err(e) => Err(e),
            Ok((name, _)) => Ok(DataView::Ns(name)),
        },
        Type::Cname => match parse_name(buf, pos) {
            Err(e) => Err(e),
            Ok((name, _)) => Ok(DataView::Cname(name)),
        },
        Type::Mx => if pos + 2 > buf.len() {
            Err(ParseError::OobRead(pos as usize))
        } else {
            match parse_name(buf, pos + 2) {
                Err(e) => Err(e),
                Ok((name, _)) => Ok(DataView::Mx(u16_at(buf, pos), name)),
            }
        },
        Type::Txt => if pos + 1 > buf.len() {
            Err(ParseError::OobRead(pos as usize))
        } else if pos + 1 + buf[pos] > buf.len() {
            Err(ParseError::OobRead((pos + 1) as usize))
        } else {
            Ok(DataView::Txt(buf.subrange(pos + 1, pos + 1 + buf[pos])))
        },
        Type::Unknown(code) => if pos < 0 || pos + rdlen > buf.len() {
            Err(ParseError::OobRead(pos as usize))
        } else {
            Ok(DataView::Unknown(code, buf.subrange(pos, pos + rdlen)))
        },
    }
}

/// The resource record at `pos` in `buf` and the bytes it takes there, or why there is none.
/// The record data must lie within `buf`.
pub open spec fn parse_record(buf: Seq<u8>, pos: int) -> Result<(RecordView, int), ParseError> {
    match parse_preamble(buf, pos) {
        Err(e) => Err(e),
        Ok((preamble, n)) => {
            let d = pos + n;
            if d + preamble.rdlen > buf.len() {
                Err(ParseError::OobRead(d as usize))
            } else {
                match parse_data(buf, d, preamble.rrtype, preamble.rdlen) {
                    Err(e) => Err(e),
                    Ok(data) => Ok((RecordView { preamble, data }, n + preamble.rdlen)),
                }
            }
        },
    }
}

/// The wire form of record data.
pub open spec fn data_bytes(d: DataView) -> Seq<u8> {
    match d {
        DataView::A(a) => a,
        DataView::Aaaa(a) => a,
        DataView::Ns(n) => name_bytes(n),
        DataView::Cname(n) => name_bytes(n),
        DataView::Mx(p, n) => u16_bytes(p) + name_bytes(n),
        DataView::Txt(t) => seq![t.len() as u8] + t,
        DataView::Unknown(_, raw) => raw,
    }
}

/// The wire form of a preamble, with the data length it holds.
pub open spec fn preamble_bytes(p: PreambleView) -> Seq<u8> {
    name_bytes(p.name) + u16_bytes(type_code(p.rrtype)) + u16_bytes(class_code(p.class)) + u32_bytes(
        p.ttl as u32,
    ) + u16_bytes(p.rdlen)
}

/// `p` with its data length set to `rdlen`.
pub open spec fn with_rdlen(p: PreambleView, rdlen: u16) -> PreambleView {
    PreambleView { rdlen, ..p }
}

/// The wire form of a record: its preamble, with the length of the data as serialized, then
/// the data.
pub open spec fn record_bytes(r: RecordView) -> Seq<u8> {
    preamble_bytes(with_rdlen(r.preamble, data_bytes(r.data).len() as u16)) + data_bytes(r.data)
}

/// Record data that can be serialized: a text of at most 255 bytes, raw data of at most
/// 65535 bytes, and names that fit on the wire.
pub open spec fn data_fits(d: DataView) -> bool {
    match d {
        DataView::A(a) => a.len() == 4,
        DataView::Aaaa(a) => a.len() == 16,
        DataView::Ns(n) => valid_labels(n),
        DataView::Cname(n) => valid_labels(n),
        DataView::Mx(_, n) => valid_labels(n),
        DataView::Txt(t) => t.len() <= 255,
        DataView::Unknown(_, raw) => raw.len() <= 65535,
    }
}

/// The [ResourceRecord] preamble: what all record types share.
#[derive(Clone, Debug, PartialEq, Eq)]
pub struct RecordPreamble {
    /// The domain name the record refers to.
    pub name: Name,
    /// The record type.
    pub rrtype: Type,
    /// The record class.
    pub class: Class,
    /// How long the record may be cached before it should be fetched again.
    pub ttl: i32,
    /// The length of the record data.
    pub rdlen: u16,
}

impl View for RecordPreamble {
    type V = PreambleView;

    open spec fn view(&self) -> PreambleView {
        PreambleView {
            name: self.name@,
            rrtype: self.rrtype,
            class: self.class,
            ttl: self.ttl,
            rdlen: self.rdlen,
        }
    }
}

impl RecordPreamble {
    /// Parses the preamble that starts at `pos` in `buff`, and returns it with the number of
    /// bytes it takes there.
    pub fn parse(buff: &[u8], pos: usize) -> (r: Result<(RecordPreamble, usize), ParseError>)
        ensures
            match r {
                Ok((p, n)) => parse_preamble(buff@, pos as int) == Ok::<(PreambleView, int), ParseError>((p@, n as int)),
                Err(e) => parse_preamble(buff@, pos as int) == Err::<(PreambleView, int), ParseError>(e),
            },
            r is Ok ==> pos + r->Ok_0.1 <= buff@.len(),
    {
        let blen = buff.len();
        let (name, size) = match Name::parse(buff, pos) {
            Ok(parsed) => parsed,
            Err(e) => return Err(e),
        };
        assert(pos + size <= blen);
        let n = size + pos;
        let rrtype = safe_u16_read(buff, n)?;
        let class = safe_u16_read(buff, n + 2)?;
        let ttl = safe_i32_read(buff, n + 4)?;
        let rdlen = safe_u16_read(buff, n + 8)?;
        Ok(
            (
                RecordPreamble {
                    name,
                    rrtype: Type::from(rrtype),
                    class: Class::from(class),
                    ttl,
                    rdlen,
                },
                size + 10,
            ),
        )
    }

    /// Serializes the preamble, with the data length it holds, at the end of `packet`.
    pub fn serialize(&self, packet: &mut Vec<u8>)
        ensures
            final(packet)@ == old(packet)@ + preamble_bytes(self@),
    {
        self.name.serialize(packet);
        push_u16(packet, u16::from(self.rrtype));
        push_u16(packet, u16::from(self.class));
        push_i32(packet, self.ttl);
        push_u16(packet, self.rdlen);
        assert(final(packet)@ =~= old(packet)@ + preamble_bytes(self@));
    }
}

/// Record data whose variable-length byte strings fit their length fields: a text of at
/// most 255 bytes, raw data of at most 65535 bytes.
pub open spec fn data_sized(d: DataView) -> bool {
    match d {
        DataView::Txt(t) => t.len() <= 255,
        DataView::Unknown(_, raw) => raw.len() <= 65535,
        _ => true,
    }
}

/// The data of a [ResourceRecord], by record type.
#[derive(Clone, Debug, PartialEq, Eq)]
pub enum RecordData {
    /// A host address (IPv4).
    A([u8; 4]),
    /// A host address (IPv6).
    Aaaa([u8; 16]),
    /// An authoritative name server.
    Ns(Name),
    /// The canonical name for an alias.
    Cname(Name),
    /// Mail exchange.
    Mx {
        /// The preference given to this record among others at the same owner.
        preference: u16,
        /// A host willing to act as a mail exchange for the owner name.
        exchange: Name,
    },
    /// A text string of at most 255 bytes.
    Txt(Vec<u8>),
    /// The raw data of a record type with no meaning known here, with its type code.
    Unknown(u16, Vec<u8>),
}

impl View for RecordData {
    type V = DataView;

    open spec fn view(&self) -> DataView {
        match self {
            RecordData::A(a) => DataView::A(a@),
            RecordData::Aaaa(a) => DataView::Aaaa(a@),
            RecordData::Ns(n) => DataView::Ns(n@),
            RecordData::Cname(n) => DataView::Cname(n@),
            RecordData::Mx { preference, exchange } => DataView::Mx(*preference, exchange@),
            RecordData::Txt(t) => DataView::Txt(t@),
            RecordData::Unknown(code, raw) => DataView::Unknown(*code, raw@),
        }
    }
}

impl RecordData {
    /// Parses record data of type `rrtype` and length `rdlen` at `pos` in `buff`.
    pub fn parse(buff: &[u8], pos: usize, rrtype: Type, rdlen: u16) -> (r: Result<RecordData, ParseError>)
        ensures
            match r {
                Ok(d) => parse_data(buff@, pos as int, rrtype, rdlen) == Ok::<DataView, ParseError>(d@),
                Err(e) => parse_data(buff@, pos as int, rrtype, rdlen) == Err::<DataView, ParseError>(e),
            },
    {
        let blen = buff.len();
        match rrtype {
            Type::A => {
                if pos > blen || blen - pos < 4 {
                    return Err(ParseError::OobRead(pos));
                }
                let a: [u8; 4] = [buff[pos], buff[pos + 1], buff[pos + 2], buff[pos + 3]];
                assert(a@ =~= buff@.subrange(pos as int, pos + 4));
                Ok(RecordData::A(a))
            },
            Type::Aaaa => {
                if pos > blen || blen - pos < 16 {
                    return Err(ParseError::OobRead(pos));
                }
                let a: [u8; 16] = [
                    buff[pos],
                    buff[pos + 1],
                    buff[pos + 2],
                    buff[pos + 3],
                    buff[pos + 4],
                    buff[pos + 5],
                    buff[pos + 6],
                    buff[pos + 7],
                    buff[pos + 8],
                    buff[pos + 9],
                    buff[pos + 10],
                    buff[pos + 11],
                    buff[pos + 12],
                    buff[pos + 13],
                    buff[pos + 14],
                    buff[pos + 15],
                ];
                assert(a@ =~= buff@.subrange(pos as int, pos + 16));
                Ok(RecordData::Aaaa(a))
            },
            Type::Ns => match Name::parse(buff, pos) {
                Ok((name, _)) => Ok(RecordData::Ns(name)),
                Err(e) => Err(e),
            },
            Type::Cname => match Name::parse(buff, pos) {
                Ok((name, _)) => Ok(RecordData::Cname(name)),
                Err(e) => Err(e),
            },
            Type::Mx => {
                let preference = safe_u16_read(buff, pos)?;
                match Name::parse(buff, pos + 2) {
                    Ok((exchange, _)) => Ok(RecordData::Mx { preference, exchange }),
                    Err(e) => Err(e),
                }
            },
            Type::Txt => {
                let len = safe_u8_read(buff, pos)? as usize;
                if blen - pos - 1 < len {
                    return Err(ParseError::OobRead(pos + 1));
                }
                let text = slice_to_vec(slice_subrange(buff, pos + 1, pos + 1 + len));
                Ok(RecordData::Txt(text))
            },
            Type::Unknown(code) => {
                if pos > blen || blen - pos < rdlen as usize {
                    return Err(ParseError::OobRead(pos));
                }
                let raw = slice_to_vec(slice_subrange(buff, pos, pos + rdlen as usize));
                Ok(RecordData::Unknown(code, raw))
            },
        }
    }

    /// Serializes the data at the end of `packet`; names go uncompressed.
    pub fn serialize(&self, packet: &mut Vec<u8>)
        ensures
            final(packet)@ == old(packet)@ + data_bytes(self@),
            data_sized(self@) ==> data_fits(self@),
            data_sized(self@) ==> data_bytes(self@).len() <= 65535,
    {
        match self {
            RecordData::A(a) => {
                let mut i: usize = 0;
                while i < 4
                    invariant
                        0 <= i <= 4,
                        a@.len() == 4,
                        packet@ == old(packet)@ + a@.subrange(0, i as int),
                    decreases 4 - i,
                {
                    packet.push(a[i]);
                    assert(a@.subrange(0, i + 1) =~= a@.subrange(0, i as int).push(a@[i as int]));
                    i += 1;
                }
                assert(a@.subrange(0, 4) =~= a@);
            },
            RecordData::Aaaa(a) => {
                let mut i: usize = 0;
                while i < 16
                    invariant
                        0 <= i <= 16,
                        a@.len() == 16,
                        packet@ == old(packet)@ + a@.subrange(0, i as int),
                    decreases 16 - i,
                {
                    packet.push(a[i]);
                    assert(a@.subrange(0, i + 1) =~= a@.subrange(0, i as int).push(a@[i as int]));
                    i += 1;
                }
                assert(a@.subrange(0, 16) =~= a@);
            },
            RecordData::Ns(name) => name.serialize(packet),
            RecordData::Cname(name) => name.serialize(packet),
            RecordData::Mx { preference, exchange } => {
                push_u16(packet, *preference);
                exchange.serialize(packet);
                assert(packet@ =~= old(packet)@ + data_bytes(self@));
            },
            RecordData::Txt(text) => {
                packet.push(text.len() as u8);
                push_bytes(packet, text.as_slice());
                assert(packet@ =~= old(packet)@ + data_bytes(self@));
            },
            RecordData::Unknown(_, raw) => {
                push_bytes(packet, raw.as_slice());
            },
        }
    }
}

/// A resource record: a description of a resource, used as an answer to a question or as
/// information in the authority or additional sections of a packet.
///
/// ```text
///    +--+--+--+--+--+--+--+--+--+--+--+--+--+--+--+--+
///    /                      NAME                     /
///    +--+--+--+--+--+--+--+--+--+--+--+--+--+--+--+--+
///    |                      TYPE                     |
///    +--+--+--+--+--+--+--+--+--+--+--+--+--+--+--+--+
///    |                     CLASS                     |
///    +--+--+--+--+--+--+--+--+--+--+--+--+--+--+--+--+
///    |                      TTL                      |
///    |                                               |
///    +--+--+--+--+--+--+--+--+--+--+--+--+--+--+--+--+
///    |                   RDLENGTH                    |
///    +--+--+--+--+--+--+--+--+--+--+--+--+--+--+--+--|
///    /                     RDATA                     /
///    +--+--+--+--+--+--+--+--+--+--+--+--+--+--+--+--+
/// ```
#[derive(Clone, Debug, PartialEq, Eq)]
pub struct ResourceRecord {
    /// What every record shares, like type or class.
    pub preamble: RecordPreamble,
    /// The record data.
    pub data: RecordData,
}

impl View for ResourceRecord {
    type V = RecordView;

    open spec fn view(&self) -> RecordView {
        RecordView { preamble: self.preamble@, data: self.data@ }
    }
}

impl ResourceRecord {
    /// Parses the record that starts at `pos` in `buff`, and returns it with the number of
    /// bytes it takes there. The record data must lie within `buff`.
    pub fn parse(buff: &[u8], pos: usize) -> (r: Result<(ResourceRecord, usize), ParseError>)
        ensures
            match r {
                Ok((rr, n)) => parse_record(buff@, pos as int) == Ok::<(RecordView, int), ParseError>((rr@, n as int)),
                Err(e) => parse_record(buff@, pos as int) == Err::<(RecordView, int), ParseError>(e),
            },
            r is Ok ==> pos + r->Ok_0.1 <= buff@.len(),
    {
        let blen = buff.len();
        let (preamble, size) = match RecordPreamble::parse(buff, pos) {
            Ok(parsed) => parsed,
            Err(e) => return Err(e),
        };
        let start = pos + size;
        if blen - start < preamble.rdlen as usize {
            return Err(ParseError::OobRead(start));
        }
        let data = RecordData::parse(buff, start, preamble.rrtype, preamble.rdlen)?;
        let size = size + preamble.rdlen as usize;
        Ok((ResourceRecord { preamble, data }, size))
    }

    /// Serializes the record at the end of `packet`. The data length written is that of the
    /// data as serialized, whatever `rdlen` holds.
    pub fn serialize(&self, packet: &mut Vec<u8>)
        requires
            data_sized(self.data@),
        ensures
            final(packet)@ == old(packet)@ + record_bytes(self@),
    {
        let mut data: Vec<u8> = Vec::new();
        self.data.serialize(&mut data);
        assert(data@ =~= data_bytes(self.data@));
        self.preamble.name.serialize(packet);
        push_u16(packet, u16::from(self.preamble.rrtype));
        push_u16(packet, u16::from(self.preamble.class));
        push_i32(packet, self.preamble.ttl);
        push_u16(packet, data.len() as u16);
        push_bytes(packet, data.as_slice());
        assert(final(packet)@ =~= old(packet)@ + record_bytes(self@));
    }
}

/// A question that the wire form carries unchanged: its name makes a name, and its type and
/// class are those that their codes decode to.
pub open spec fn question_wf(q: QuestionView) -> bool {
    &&& valid_labels(q.name)
    &&& qtype_of(qtype_code(q.qtype)) == q.qtype
    &&& class_of(class_code(q.class)) == q.class
}

/// Record data of the kind that the record type calls for.
pub open spec fn data_matches(t: Type, d: DataView) -> bool {
    match (t, d) {
        (Type::A, DataView::A(_)) => true,
        (Type::Aaaa, DataView::Aaaa(_)) => true,
        (Type::Ns, DataView::Ns(_)) => true,
        (Type::Cname, DataView::Cname(_)) => true,
        (Type::Mx, DataView::Mx(_, _)) => true,
        (Type::Txt, DataView::Txt(_)) => true,
        (Type::Unknown(c), DataView::Unknown(code, _)) => c == code,
        _ => false,
    }
}

/// A record that the wire form carries unchanged, but for the data length.
pub open spec fn record_wf(r: RecordView) -> bool {
    &&& valid_labels(r.preamble.name)
    &&& type_of(type_code(r.preamble.rrtype)) == r.preamble.rrtype
    &&& class_of(class_code(r.preamble.class)) == r.preamble.class
    &&& data_matches(r.preamble.rrtype, r.data)
    &&& data_fits(r.data)
}

/// `r` with its data length set to that of its data as serialized.
pub open spec fn normalized(r: RecordView) -> RecordView {
    RecordView { preamble: with_rdlen(r.preamble, data_bytes(r.data).len() as u16), data: r.data }
}

pub proof fn lemma_name_bytes_len(ls: Seq<Seq<u8>>)
    requires
        valid_labels(ls),
    ensures
        name_bytes(ls).len() <= 255,
{
    lemma_labels_bytes_len(ls);
}

pub proof fn lemma_data_bytes_len(d: DataView)
    requires
        data_fits(d),
    ensures
        data_bytes(d).len() <= 65535,
{
    match d {
        DataView::Ns(n) => lemma_name_bytes_len(n),
        DataView::Cname(n) => lemma_name_bytes_len(n),
        DataView::Mx(_, n) => lemma_name_bytes_len(n),
        _ => {},
    }
}

/// The wire form of a question parses back to the question, and takes all its bytes.
pub proof fn lemma_question_round_trip(buf: Seq<u8>, k: int, q: QuestionView)
    requires
        holds_at(buf, k, question_bytes(q)),
        question_wf(q),
    ensures
        parse_question(buf, k) == Ok::<(QuestionView, int), ParseError>((q, question_bytes(q).len() as int)),
{
    let nb = name_bytes(q.name);
    let tb = u16_bytes(qtype_code(q.qtype));
    let cb = u16_bytes(class_code(q.class));
    lemma_holds_at_split(buf, k, nb + tb, cb);
    lemma_holds_at_split(buf, k, nb, tb);
    lemma_name_round_trip(buf, k, q.name);
    lemma_u16_at(buf, k + nb.len(), qtype_code(q.qtype));
    lemma_u16_at(buf, k + nb.len() + 2, class_code(q.class));
}

/// A question parsed from the wire is carried unchanged by its wire form.
pub proof fn lemma_parse_question_wf(buf: Seq<u8>, pos: int)
    requires
        parse_question(buf, pos) is Ok,
    ensures
        question_wf(parse_question(buf, pos)->Ok_0.0),
{
    lemma_parse_name_bounds(buf, pos);
    lemma_parse_name_valid(buf, pos);
}

/// Record data of the kind its type calls for parses back from its wire form.
pub proof fn lemma_data_round_trip(buf: Seq<u8>, k: int, t: Type, d: DataView)
    requires
        holds_at(buf, k, data_bytes(d)),
        data_matches(t, d),
        data_fits(d),
    ensures
        parse_data(buf, k, t, data_bytes(d).len() as u16) == Ok::<DataView, ParseError>(d),
{
    lemma_data_bytes_len(d);
    match d {
        DataView::Ns(n) => lemma_name_round_trip(buf, k, n),
        DataView::Cname(n) => lemma_name_round_trip(buf, k, n),
        DataView::Mx(p, n) => {
            lemma_holds_at_split(buf, k, u16_bytes(p), name_bytes(n));
            lemma_u16_at(buf, k, p);
            lemma_name_round_trip(buf, k + 2, n);
        },
        DataView::Txt(t) => {
            lemma_holds_at_split(buf, k, seq![t.len() as u8], t);
            assert(buf[k] == buf.subrange(k, k + 1)[0]);
        },
        _ => {},
    }
}

/// The wire form of a record parses back to the record with the length of its data as
/// serialized, and takes all its bytes.
pub proof fn lemma_record_round_trip(buf: Seq<u8>, k: int, r: RecordView)
    requires
        holds_at(buf, k, record_bytes(r)),
        record_wf(r),
    ensures
        parse_record(buf, k) == Ok::<(RecordView, int), ParseError>(
            (normalized(r), record_bytes(r).len() as int),
        ),
{
    let db = data_bytes(r.data);
    lemma_data_bytes_len(r.data);
    let p = with_rdlen(r.preamble, db.len() as u16);
    let nb = name_bytes(p.name);
    let tb = u16_bytes(type_code(p.rrtype));
    let cb = u16_bytes(class_code(p.class));
    let ttlb = u32_bytes(p.ttl as u32);
    let lb = u16_bytes(p.rdlen);
    assert(record_bytes(r) == nb + tb + cb + ttlb + lb + db);
    lemma_holds_at_split(buf, k, nb + tb + cb + ttlb + lb, db);
    lemma_holds_at_split(buf, k, nb + tb + cb + ttlb, lb);
    lemma_holds_at_split(buf, k, nb + tb + cb, ttlb);
    lemma_holds_at_split(buf, k, nb + tb, cb);
    lemma_holds_at_split(buf, k, nb, tb);
    lemma_name_round_trip(buf, k, p.name);
    let m = k + nb.len();
    lemma_u16_at(buf, m, type_code(p.rrtype));
    lemma_u16_at(buf, m + 2, class_code(p.class));
    lemma_u32_at(buf, m + 4, p.ttl as u32);
    lemma_i32_u32(p.ttl);
    lemma_u16_at(buf, m + 8, p.rdlen);
    assert(parse_preamble(buf, k) == Ok::<(PreambleView, int), ParseError>((p, nb.len() + 10 as int)));
    lemma_data_round_trip(buf, m + 10, p.rrtype, r.data);
}

/// A record parsed from the wire is carried unchanged by its wire form, but for the data
/// length.
pub proof fn lemma_parse_record_wf(buf: Seq<u8>, pos: int)
    requires
        parse_record(buf, pos) is Ok,
    ensures
        record_wf(parse_record(buf, pos)->Ok_0.0),
{
    lemma_parse_name_bounds(buf, pos);
    lemma_parse_name_valid(buf, pos);
    let (p, n) = parse_preamble(buf, pos)->Ok_0;
    let d = pos + n;
    match p.rrtype {
        Type::Ns => lemma_parse_name_valid(buf, d),
        Type::Cname => lemma_parse_name_valid(buf, d),
        Type::Mx => lemma_parse_name_valid(buf, d + 2),
        _ => {},
    }
}

/// Appends `bytes` to `packet`.
fn push_bytes(packet: &mut Vec<u8>, bytes: &[u8])
    ensures
        final(packet)@ == old(packet)@ + bytes@,
{
    let mut i: usize = 0;
    while i < bytes.len()
        invariant
            0 <= i <= bytes@.len(),
            packet@ == old(packet)@ + bytes@.subrange(0, i as int),
        decreases bytes@.len() - i,
    {
        packet.push(bytes[i]);
        assert(bytes@.subrange(0, i + 1) =~= bytes@.subrange(0, i as int).push(bytes@[i as int]));
        i += 1;
    }
    assert(bytes@.subrange(0, bytes@.len() as int) =~= bytes@);
}

} // verus!
