//! A DNS wire-protocol codec: bounds-checked parsing of datagrams into packets,
//! serialization of packets back into bytes, and the laws that tie the two together.
//!
//! Choices where the wire format leaves room:
//! - Labels hold letters, digits and `-` and start with a letter, whether a name comes from
//!   text or from the wire; any other label fails with `LabelContent`.
//! - A name takes at most 255 bytes on the wire, terminator included.
//! - Compression pointers are followed only backwards, at most five per name; names are
//!   always written uncompressed.
//! - Record data must lie within the datagram; a record is written with the length of its
//!   data as serialized, whatever its `rdlen` field holds.
use vstd::prelude::*;

use binutils::{holds_at, lemma_holds_at_split};
use body::name::lemma_parse_name_bounds;
use body::{
    data_bytes, data_sized, lemma_parse_question_wf, lemma_parse_record_wf,
    lemma_question_round_trip, lemma_record_round_trip, normalized, parse_question, parse_record,
    question_bytes, question_wf, record_bytes, record_wf, Question, QuestionView, RecordView,
    ResourceRecord,
};
use header::{header_bytes, header_from, lemma_flags_canonical, lemma_header_round_trip, DnsHeader};

mod binutils;
/// The header of a DNS packet.
pub mod header;
/// The body of a DNS packet.
pub mod body;
/// The decisions of the UDP serve loop.
pub mod server;

verus! {

/// An error met while parsing a byte buffer into a DNS packet or one of its parts.
#[derive(Debug, Clone, Copy, PartialEq, Eq)]
pub enum ParseError {
    /// The buffer (of the given length) is too short to hold the 12-byte header.
    HeaderLength(usize),
    /// A header flag field holds a value with no meaning assigned.
    HeaderFlag(&'static str, u16),
    /// A compression pointer points at or after its own position.
    InvalidJump,
    /// A name needs more compression pointer hops than allowed.
    ExcesiveJumps(u8),
    /// A label is longer than the buffer that holds it.
    LabelLength(usize),
    /// A label length octet starts with one of the reserved prefixes `01` or `10`.
    LabelPrefix(u8),
    /// A name would be longer, serialized, than 255 bytes.
    NameLength(usize),
    /// A read at the given position would go past the end of the buffer.
    OobRead(usize),
    /// A label holds a byte outside letters, digits and `-`, or starts with no letter.
    LabelContent,
}

/// A packet, as values.
pub struct PacketView {
    pub header: DnsHeader,
    pub questions: Seq<QuestionView>,
    pub answers: Seq<RecordView>,
    pub authority: Seq<RecordView>,
    pub additional: Seq<RecordView>,
}

/// `count` questions one after the other from `pos` in `buf`, and the position after them.
pub open spec fn parse_questions(buf: Seq<u8>, pos: int, count: nat) -> Result<(Seq<QuestionView>, int), ParseError>
    decreases count,
{
    if count == 0 {
        Ok((Seq::empty(), pos))
    } else {
        match parse_question(buf, pos) {
            Err(e) => Err(e),
            Ok((q, n)) => match parse_questions(buf, pos + n, (count - 1) as nat) {
                Err(e) => Err(e),
                Ok((qs, end)) => Ok((seq![q] + qs, end)),
            },
        }
    }
}

/// `count` records one after the other from `pos` in `buf`, and the position after them.
pub open spec fn parse_records(buf: Seq<u8>, pos: int, count: nat) -> Result<(Seq<RecordView>, int), ParseError>
    decreases count,
{
    if count == 0 {
        Ok((Seq::empty(), pos))
    } else {
        match parse_record(buf, pos) {
            Err(e) => Err(e),
            Ok((r, n)) => match parse_records(buf, pos + n, (count - 1) as nat) {
                Err(e) => Err(e),
                Ok((rs, end)) => Ok((seq![r] + rs, end)),
            },
        }
    }
}

/// The packet that `buf` holds, or the first error met while parsing it: the header, then
/// as many questions, answers, authority and additional records as the header counts.
/// Bytes after the last record are ignored.
pub open spec fn parse_packet(buf: Seq<u8>) -> Result<PacketView, ParseError> {
    match header_from(buf) {
        Err(e) => Err(e),
        Ok(h) => match parse_questions(buf, 12, h.questions as nat) {
            Err(e) => Err(e),
            Ok((qs, p1)) => match parse_records(buf, p1, h.answers as nat) {
                Err(e) => Err(e),
                Ok((an, p2)) => match parse_records(buf, p2, h.authority as nat) {
                    Err(e) => Err(e),
                    Ok((ns, p3)) => match parse_records(buf, p3, h.additional as nat) {
                        Err(e) => Err(e),
                        Ok((ar, _)) => Ok(
                            PacketView {
                                header: h,
                                questions: qs,
                                answers: an,
                                authority: ns,
                                additional: ar,
                            },
                        ),
                    },
                },
            },
        },
    }
}

/// The wire form of questions, one after the other.
pub open spec fn questions_bytes(qs: Seq<QuestionView>) -> Seq<u8>
    decreases qs.len(),
{
    if qs.len() == 0 {
        Seq::empty()
    } else {
        question_bytes(qs[0]) + questions_bytes(qs.drop_first())
    }
}

/// The wire form of records, one after the other.
pub open spec fn records_bytes(rs: Seq<RecordView>) -> Seq<u8>
    decreases rs.len(),
{
    if rs.len() == 0 {
        Seq::empty()
    } else {
        record_bytes(rs[0]) + records_bytes(rs.drop_first())
    }
}

/// The wire form of a packet: the header as it stands, then the four sections.
pub open spec fn packet_bytes(p: PacketView) -> Seq<u8> {
    header_bytes(p.header) + questions_bytes(p.questions) + records_bytes(p.answers)
        + records_bytes(p.authority) + records_bytes(p.additional)
}

/// `prefix` in front of the items of a section parse, or its error.
pub open spec fn prefixed<T>(prefix: Seq<T>, r: Result<(Seq<T>, int), ParseError>) -> Result<
    (Seq<T>, int),
    ParseError,
> {
    match r {
        Err(e) => Err(e),
        Ok((items, end)) => Ok((prefix + items, end)),
    }
}

/// The views of questions.
pub open spec fn questions_view(qs: Seq<Question>) -> Seq<QuestionView> {
    qs.map_values(|q: Question| q@)
}

/// The views of records.
pub open spec fn records_view(rs: Seq<ResourceRecord>) -> Seq<RecordView> {
    rs.map_values(|r: ResourceRecord| r@)
}

/// Records whose data can be serialized.
pub open spec fn records_sized(rs: Seq<ResourceRecord>) -> bool {
    forall|i: int| 0 <= i < rs.len() ==> data_sized(#[trigger] rs[i].data@)
}

/// Represents a complete DNS packet.
///
/// ```text
/// +---------------------+
/// |        Header       |
/// +---------------------+
/// |       Question      | the question(s) for the name server
/// +---------------------+
/// |        Answer       | records answering the question
/// +---------------------+
/// |      Authority      | records pointing toward an authority
/// +---------------------+
/// |      Additional     | records holding additional information
/// +---------------------+
/// ```
#[derive(Clone, Debug, PartialEq, Eq)]
pub struct DnsPacket {
    /// The DNS header
    pub header: DnsHeader,
    /// The question(s) for the name server
    pub questions: Vec<Question>,
    /// Records answering the question(s)
    pub answers: Vec<ResourceRecord>,
    /// Records pointing toward a domain authority
    pub authority: Vec<ResourceRecord>,
    /// Records holding additional information
    pub additional: Vec<ResourceRecord>,
}

impl View for DnsPacket {
    type V = PacketView;

    open spec fn view(&self) -> PacketView {
        PacketView {
            header: self.header,
            questions: questions_view(self.questions@),
            answers: records_view(self.answers@),
            authority: records_view(self.authority@),
            additional: records_view(self.additional@),
        }
    }
}

/// Parses `count` questions one after the other from `start`.
fn parse_question_section(buff: &[u8], start: usize, count: u16) -> (r: Result<(Vec<Question>, usize), ParseError>)
    ensures
        match r {
            Ok((qs, end)) => parse_questions(buff@, start as int, count as nat) == Ok::<(Seq<QuestionView>, int), ParseError>((questions_view(qs@), end as int)),
            Err(e) => parse_questions(buff@, start as int, count as nat) == Err::<(Seq<QuestionView>, int), ParseError>(e),
        },
        r is Ok ==> r->Ok_0.1 <= buff@.len() || (count == 0 && r->Ok_0.1 == start),
{
    let blen = buff.len();
    let mut items: Vec<Question> = Vec::new();
    let mut pos: usize = start;
    let mut i: u16 = 0;
    assert(questions_view(items@) =~= Seq::<QuestionView>::empty());
    assert(prefixed(Seq::<QuestionView>::empty(), parse_questions(buff@, pos as int, count as nat))
        =~= parse_questions(buff@, pos as int, count as nat));
    while i < count
        invariant
            i <= count,
            blen == buff@.len(),
            prefixed(questions_view(items@), parse_questions(buff@, pos as int, (count - i) as nat))
                == parse_questions(buff@, start as int, count as nat),
            pos <= buff@.len() || (i == 0 && pos == start),
        decreases count - i,
    {
        let ghost items_before = questions_view(items@);
        let (q, size) = match Question::parse(buff, pos) {
            Ok(parsed) => parsed,
            Err(e) => return Err(e),
        };
        let ghost rest = parse_questions(buff@, pos + size, (count - i - 1) as nat);
        items.push(q);
        assert(questions_view(items@) =~= items_before.push(q@));
        proof {
            match rest {
                Ok((qs, end)) => {
                    assert(items_before.push(q@) + qs =~= items_before + (seq![q@] + qs));
                },
                Err(_) => {},
            }
        }
        pos = pos + size;
        i = i + 1;
    }
    Ok((items, pos))
}

/// Parses `count` records one after the other from `start`.
fn parse_record_section(buff: &[u8], start: usize, count: u16) -> (r: Result<(Vec<ResourceRecord>, usize), ParseError>)
    ensures
        match r {
            Ok((rs, end)) => parse_records(buff@, start as int, count as nat) == Ok::<(Seq<RecordView>, int), ParseError>((records_view(rs@), end as int)),
            Err(e) => parse_records(buff@, start as int, count as nat) == Err::<(Seq<RecordView>, int), ParseError>(e),
        },
        r is Ok ==> r->Ok_0.1 <= buff@.len() || (count == 0 && r->Ok_0.1 == start),
{
    let blen = buff.len();
    let mut items: Vec<ResourceRecord> = Vec::new();
    let mut pos: usize = start;
    let mut i: u16 = 0;
    assert(records_view(items@) =~= Seq::<RecordView>::empty());
    assert(prefixed(Seq::<RecordView>::empty(), parse_records(buff@, pos as int, count as nat))
        =~= parse_records(buff@, pos as int, count as nat));
    while i < count
        invariant
            i <= count,
            blen == buff@.len(),
            prefixed(records_view(items@), parse_records(buff@, pos as int, (count - i) as nat))
                == parse_records(buff@, start as int, count as nat),
            pos <= buff@.len() || (i == 0 && pos == start),
        decreases count - i,
    {
        let ghost items_before = records_view(items@);
        let (rr, size) = match ResourceRecord::parse(buff, pos) {
            Ok(parsed) => parsed,
            Err(e) => return Err(e),
        };
        let ghost rest = parse_records(buff@, pos + size, (count - i - 1) as nat);
        items.push(rr);
        assert(records_view(items@) =~= items_before.push(rr@));
        proof {
            match rest {
                Ok((rs, end)) => {
                    assert(items_before.push(rr@) + rs =~= items_before + (seq![rr@] + rs));
                },
                Err(_) => {},
            }
        }
        pos = pos + size;
        i = i + 1;
    }
    Ok((items, pos))
}

impl DnsPacket {
    /// Parses a whole datagram: the header, then as many questions, answers, authority and
    /// additional records as the header counts. Bytes after the last record are ignored.
    pub fn parse(buff: &[u8]) -> (r: Result<DnsPacket, ParseError>)
        ensures
            match r {
                Ok(p) => parse_packet(buff@) == Ok::<PacketView, ParseError>(p@),
                Err(e) => parse_packet(buff@) == Err::<PacketView, ParseError>(e),
            },
            r is Ok ==> 12 + 5 * r->Ok_0.questions@.len() + 11 * (r->Ok_0.answers@.len()
                + r->Ok_0.authority@.len() + r->Ok_0.additional@.len()) <= buff@.len(),
    {
        let header = DnsHeader::parse(buff)?;
        let (questions, pos) = match parse_question_section(buff, 12, header.questions) {
            Ok(parsed) => parsed,
            Err(e) => return Err(e),
        };
        let (answers, pos) = match parse_record_section(buff, pos, header.answers) {
            Ok(parsed) => parsed,
            Err(e) => return Err(e),
        };
        let (authority, pos) = match parse_record_section(buff, pos, header.authority) {
            Ok(parsed) => parsed,
            Err(e) => return Err(e),
        };
        let (additional, _) = match parse_record_section(buff, pos, header.additional) {
            Ok(parsed) => parsed,
            Err(e) => return Err(e),
        };
        let packet = DnsPacket { header, questions, answers, authority, additional };
        proof {
            lemma_packet_size(buff@);
        }
        Ok(packet)
    }

    /// Serializes the packet: the header as it stands, then the four sections. Names go
    /// uncompressed, and each record carries the length of its data as serialized.
    pub fn serialize(&self, out: &mut Vec<u8>)
        requires
            records_sized(self.answers@),
            records_sized(self.authority@),
            records_sized(self.additional@),
        ensures
            final(out)@ == old(out)@ + packet_bytes(self@),
    {
        self.header.serialize(out);
        let mut i: usize = 0;
        let ghost start = out@;
        assert(self@.questions.subrange(0, 0) =~= Seq::<QuestionView>::empty());
        while i < self.questions.len()
            invariant
                0 <= i <= self.questions@.len(),
                out@ == start + questions_bytes(self@.questions.subrange(0, i as int)),
            decreases self.questions@.len() - i,
        {
            self.questions[i].serialize(out);
            proof {
                lemma_questions_bytes_push(self@.questions.subrange(0, i as int), self@.questions[i as int]);
                assert(self@.questions.subrange(0, i as int).push(self@.questions[i as int])
                    =~= self@.questions.subrange(0, i + 1));
            }
            i += 1;
        }
        assert(self@.questions.subrange(0, i as int) =~= self@.questions);
        serialize_records(&self.answers, out);
        serialize_records(&self.authority, out);
        serialize_records(&self.additional, out);
        assert(final(out)@ =~= old(out)@ + packet_bytes(self@));
    }
}

pub proof fn lemma_questions_bytes_push(qs: Seq<QuestionView>, q: QuestionView)
    ensures
        questions_bytes(qs.push(q)) == questions_bytes(qs) + question_bytes(q),
    decreases qs.len(),
{
    if qs.len() == 0 {
        assert(qs.push(q).drop_first() =~= Seq::<QuestionView>::empty());
        assert(questions_bytes(Seq::<QuestionView>::empty()) =~= Seq::<u8>::empty());
        assert(qs.push(q)[0] == q);
        assert(questions_bytes(qs.push(q)) =~= question_bytes(q));
    } else {
        lemma_questions_bytes_push(qs.drop_first(), q);
        assert(qs.push(q).drop_first() =~= qs.drop_first().push(q));
        assert(questions_bytes(qs.push(q)) =~= questions_bytes(qs) + question_bytes(q));
    }
}

pub proof fn lemma_records_bytes_push(rs: Seq<RecordView>, r: RecordView)
    ensures
        records_bytes(rs.push(r)) == records_bytes(rs) + record_bytes(r),
    decreases rs.len(),
{
    if rs.len() == 0 {
        assert(rs.push(r).drop_first() =~= Seq::<RecordView>::empty());
        assert(records_bytes(Seq::<RecordView>::empty()) =~= Seq::<u8>::empty());
        assert(rs.push(r)[0] == r);
        assert(records_bytes(rs.push(r)) =~= record_bytes(r));
    } else {
        lemma_records_bytes_push(rs.drop_first(), r);
        assert(rs.push(r).drop_first() =~= rs.drop_first().push(r));
        assert(records_bytes(rs.push(r)) =~= records_bytes(rs) + record_bytes(r));
    }
}

/// Serializes records one after the other at the end of `out`.
fn serialize_records(rs: &Vec<ResourceRecord>, out: &mut Vec<u8>)
    requires
        records_sized(rs@),
    ensures
        final(out)@ == old(out)@ + records_bytes(records_view(rs@)),
{
    let mut i: usize = 0;
    let ghost view = records_view(rs@);
    assert(view.subrange(0, 0) =~= Seq::<RecordView>::empty());
    while i < rs.len()
        invariant
            0 <= i <= rs@.len(),
            view == records_view(rs@),
            records_sized(rs@),
            out@ == old(out)@ + records_bytes(view.subrange(0, i as int)),
        decreases rs@.len() - i,
    {
        assert(data_sized(rs@[i as int].data@));
        rs[i].serialize(out);
        proof {
            lemma_records_bytes_push(view.subrange(0, i as int), view[i as int]);
            assert(view.subrange(0, i as int).push(view[i as int]) =~= view.subrange(0, i + 1));
        }
        i += 1;
    }
    assert(view.subrange(0, i as int) =~= view);
}

impl<'a> TryFrom<&'a [u8]> for DnsPacket {
    type Error = ParseError;

    fn try_from(buff: &'a [u8]) -> (r: Result<DnsPacket, ParseError>)
        ensures
            match r {
                Ok(p) => parse_packet(buff@) == Ok::<PacketView, ParseError>(p@),
                Err(e) => parse_packet(buff@) == Err::<PacketView, ParseError>(e),
            },
    {
        DnsPacket::parse(buff)
    }
}

impl<'a> vstd::std_specs::convert::TryFromSpecImpl<&'a [u8]> for DnsPacket {
    open spec fn obeys_try_from_spec() -> bool {
        false
    }

    open spec fn try_from_spec(buff: &'a [u8]) -> Result<DnsPacket, ParseError> {
        arbitrary()
    }
}

/// The bytes of a packet: its header as it stands, then the four sections, with names
/// uncompressed and each record carrying the length of its data as serialized.
pub fn bytes_from(packet: &DnsPacket) -> (r: Vec<u8>)
    requires
        records_sized(packet.answers@),
        records_sized(packet.authority@),
        records_sized(packet.additional@),
    ensures
        r@ == packet_bytes(packet@),
{
    let mut out = Vec::new();
    packet.serialize(&mut out);
    assert(out@ =~= packet_bytes(packet@));
    out
}

/// Questions that the wire form carries unchanged.
pub open spec fn questions_wf(qs: Seq<QuestionView>) -> bool {
    forall|i: int| 0 <= i < qs.len() ==> question_wf(#[trigger] qs[i])
}

/// Records that the wire form carries unchanged, but for their data lengths.
pub open spec fn records_wf(rs: Seq<RecordView>) -> bool {
    forall|i: int| 0 <= i < rs.len() ==> record_wf(#[trigger] rs[i])
}

/// Records whose data lengths are those of their data as serialized.
pub open spec fn rdlens_exact(rs: Seq<RecordView>) -> bool {
    forall|i: int| 0 <= i < rs.len() ==> (#[trigger] rs[i]).preamble.rdlen == data_bytes(rs[i].data).len()
}

/// The records `rs`, each with the length of its data as serialized.
pub open spec fn normalized_records(rs: Seq<RecordView>) -> Seq<RecordView> {
    rs.map_values(|r: RecordView| normalized(r))
}

/// The packet `p` with each record carrying the length of its data as serialized.
pub open spec fn normalized_packet(p: PacketView) -> PacketView {
    PacketView {
        header: p.header,
        questions: p.questions,
        answers: normalized_records(p.answers),
        authority: normalized_records(p.authority),
        additional: normalized_records(p.additional),
    }
}

/// A packet that the wire form carries unchanged, but for the data lengths: its header
/// counts are the lengths of its sections, and all its items are carried unchanged.
pub open spec fn packet_wf(p: PacketView) -> bool {
    &&& p.header.questions == p.questions.len()
    &&& p.header.answers == p.answers.len()
    &&& p.header.authority == p.authority.len()
    &&& p.header.additional == p.additional.len()
    &&& questions_wf(p.questions)
    &&& records_wf(p.answers)
    &&& records_wf(p.authority)
    &&& records_wf(p.additional)
}

/// Each parsed question takes at least five bytes, all within `buf`.
pub proof fn lemma_questions_span(buf: Seq<u8>, pos: int, count: nat)
    requires
        0 <= pos <= buf.len(),
        parse_questions(buf, pos, count) is Ok,
    ensures
        pos + 5 * parse_questions(buf, pos, count)->Ok_0.0.len() <= parse_questions(buf, pos, count)->Ok_0.1,
        parse_questions(buf, pos, count)->Ok_0.1 <= buf.len(),
    decreases count,
{
    if count > 0 {
        lemma_parse_name_bounds(buf, pos);
        let n = parse_question(buf, pos)->Ok_0.1;
        lemma_questions_span(buf, pos + n, (count - 1) as nat);
    }
}

/// Each parsed record takes at least eleven bytes, all within `buf`.
pub proof fn lemma_records_span(buf: Seq<u8>, pos: int, count: nat)
    requires
        0 <= pos <= buf.len(),
        parse_records(buf, pos, count) is Ok,
    ensures
        pos + 11 * parse_records(buf, pos, count)->Ok_0.0.len() <= parse_records(buf, pos, count)->Ok_0.1,
        parse_records(buf, pos, count)->Ok_0.1 <= buf.len(),
    decreases count,
{
    if count > 0 {
        lemma_parse_name_bounds(buf, pos);
        let n = parse_record(buf, pos)->Ok_0.1;
        lemma_records_span(buf, pos + n, (count - 1) as nat);
    }
}

/// A parsed packet holds no more items than its datagram has room for: twelve bytes of
/// header, at least five bytes per question and eleven per record.
pub proof fn lemma_packet_size(buf: Seq<u8>)
    requires
        parse_packet(buf) is Ok,
    ensures
        ({
            let p = parse_packet(buf)->Ok_0;
            12 + 5 * p.questions.len() + 11 * (p.answers.len() + p.authority.len()
                + p.additional.len()) <= buf.len()
        }),
{
    let h = header_from(buf)->Ok_0;
    lemma_questions_span(buf, 12, h.questions as nat);
    let p1 = parse_questions(buf, 12, h.questions as nat)->Ok_0.1;
    lemma_records_span(buf, p1, h.answers as nat);
    let p2 = parse_records(buf, p1, h.answers as nat)->Ok_0.1;
    lemma_records_span(buf, p2, h.authority as nat);
    let p3 = parse_records(buf, p2, h.authority as nat)->Ok_0.1;
    lemma_records_span(buf, p3, h.additional as nat);
}

pub proof fn lemma_questions_round_trip(buf: Seq<u8>, k: int, qs: Seq<QuestionView>)
    requires
        holds_at(buf, k, questions_bytes(qs)),
        questions_wf(qs),
    ensures
        parse_questions(buf, k, qs.len()) == Ok::<(Seq<QuestionView>, int), ParseError>(
            (qs, k + questions_bytes(qs).len()),
        ),
    decreases qs.len(),
{
    if qs.len() > 0 {
        let rest = qs.drop_first();
        lemma_holds_at_split(buf, k, question_bytes(qs[0]), questions_bytes(rest));
        assert(question_wf(qs[0]));
        lemma_question_round_trip(buf, k, qs[0]);
        assert(questions_wf(rest)) by {
            assert forall|i: int| 0 <= i < rest.len() implies question_wf(#[trigger] rest[i]) by {
                assert(rest[i] == qs[i + 1]);
            }
        }
        lemma_questions_round_trip(buf, k + question_bytes(qs[0]).len(), rest);
        assert(seq![qs[0]] + rest =~= qs);
    } else {
        assert(qs =~= Seq::<QuestionView>::empty());
    }
}

pub proof fn lemma_records_round_trip(buf: Seq<u8>, k: int, rs: Seq<RecordView>)
    requires
        holds_at(buf, k, records_bytes(rs)),
        records_wf(rs),
    ensures
        parse_records(buf, k, rs.len()) == Ok::<(Seq<RecordView>, int), ParseError>(
            (normalized_records(rs), k + records_bytes(rs).len()),
        ),
    decreases rs.len(),
{
    if rs.len() > 0 {
        let rest = rs.drop_first();
        lemma_holds_at_split(buf, k, record_bytes(rs[0]), records_bytes(rest));
        assert(record_wf(rs[0]));
        lemma_record_round_trip(buf, k, rs[0]);
        assert(records_wf(rest)) by {
            assert forall|i: int| 0 <= i < rest.len() implies record_wf(#[trigger] rest[i]) by {
                assert(rest[i] == rs[i + 1]);
            }
        }
        lemma_records_round_trip(buf, k + record_bytes(rs[0]).len(), rest);
        assert(seq![normalized(rs[0])] + normalized_records(rest) =~= normalized_records(rs));
    } else {
        assert(normalized_records(rs) =~= Seq::<RecordView>::empty());
    }
}

pub proof fn lemma_parse_questions_wf(buf: Seq<u8>, pos: int, count: nat)
    requires
        parse_questions(buf, pos, count) is Ok,
    ensures
        parse_questions(buf, pos, count)->Ok_0.0.len() == count,
        questions_wf(parse_questions(buf, pos, count)->Ok_0.0),
    decreases count,
{
    if count > 0 {
        let (q, n) = parse_question(buf, pos)->Ok_0;
        lemma_parse_question_wf(buf, pos);
        lemma_parse_questions_wf(buf, pos + n, (count - 1) as nat);
        let rest = parse_questions(buf, pos + n, (count - 1) as nat)->Ok_0.0;
        let all = seq![q] + rest;
        assert forall|i: int| 0 <= i < all.len() implies question_wf(#[trigger] all[i]) by {
            if i > 0 {
                assert(all[i] == rest[i - 1]);
            }
        }
    }
}

pub proof fn lemma_parse_records_wf(buf: Seq<u8>, pos: int, count: nat)
    requires
        parse_records(buf, pos, count) is Ok,
    ensures
        parse_records(buf, pos, count)->Ok_0.0.len() == count,
        records_wf(parse_records(buf, pos, count)->Ok_0.0),
    decreases count,
{
    if count > 0 {
        let (r, n) = parse_record(buf, pos)->Ok_0;
        lemma_parse_record_wf(buf, pos);
        lemma_parse_records_wf(buf, pos + n, (count - 1) as nat);
        let rest = parse_records(buf, pos + n, (count - 1) as nat)->Ok_0.0;
        let all = seq![r] + rest;
        assert forall|i: int| 0 <= i < all.len() implies record_wf(#[trigger] all[i]) by {
            if i > 0 {
                assert(all[i] == rest[i - 1]);
            }
        }
    }
}

/// A packet parsed from the wire is carried unchanged by its wire form, but for the data
/// lengths.
pub proof fn lemma_parse_packet_wf(buf: Seq<u8>)
    requires
        parse_packet(buf) is Ok,
    ensures
        packet_wf(parse_packet(buf)->Ok_0),
{
    let h = header_from(buf)->Ok_0;
    lemma_parse_questions_wf(buf, 12, h.questions as nat);
    let p1 = parse_questions(buf, 12, h.questions as nat)->Ok_0.1;
    lemma_parse_records_wf(buf, p1, h.answers as nat);
    let p2 = parse_records(buf, p1, h.answers as nat)->Ok_0.1;
    lemma_parse_records_wf(buf, p2, h.authority as nat);
    let p3 = parse_records(buf, p2, h.authority as nat)->Ok_0.1;
    lemma_parse_records_wf(buf, p3, h.additional as nat);
}

/// The wire form of a packet that it carries unchanged parses back to the packet, each record
/// carrying the length of its data as serialized.
/// Where each section of a packet lies in its wire form.
proof fn lemma_packet_layout(p: PacketView)
    ensures
        ({
            let buf = packet_bytes(p);
            let p1: int = 12 + questions_bytes(p.questions).len() as int;
            let p2: int = p1 + records_bytes(p.answers).len() as int;
            let p3: int = p2 + records_bytes(p.authority).len() as int;
            &&& header_bytes(p.header) + buf.subrange(12, buf.len() as int) == buf
            &&& holds_at(buf, 12, questions_bytes(p.questions))
            &&& holds_at(buf, p1, records_bytes(p.answers))
            &&& holds_at(buf, p2, records_bytes(p.authority))
            &&& holds_at(buf, p3, records_bytes(p.additional))
        }),
{
    let hb = header_bytes(p.header);
    let qb = questions_bytes(p.questions);
    let ab = records_bytes(p.answers);
    let nb = records_bytes(p.authority);
    let rb = records_bytes(p.additional);
    let buf = packet_bytes(p);
    assert(holds_at(buf, 0, buf)) by {
        assert(buf.subrange(0, buf.len() as int) =~= buf);
    }
    assert(hb.len() == 12);
    lemma_holds_at_split(buf, 0, hb + qb + ab + nb, rb);
    lemma_holds_at_split(buf, 0, hb + qb + ab, nb);
    lemma_holds_at_split(buf, 0, hb + qb, ab);
    lemma_holds_at_split(buf, 0, hb, qb);
    assert(hb + buf.subrange(12, buf.len() as int) =~= buf);
}

/// The wire form of a packet that it carries unchanged parses back to the packet, each record
/// carrying the length of its data as serialized.
#[verifier::rlimit(30)]
pub proof fn lemma_packet_round_trip(p: PacketView)
    requires
        packet_wf(p),
    ensures
        parse_packet(packet_bytes(p)) == Ok::<PacketView, ParseError>(normalized_packet(p)),
{
    let buf = packet_bytes(p);
    let p1: int = 12 + questions_bytes(p.questions).len() as int;
    let p2: int = p1 + records_bytes(p.answers).len() as int;
    let p3: int = p2 + records_bytes(p.authority).len() as int;
    lemma_packet_layout(p);
    assert(header_from(buf) == Ok::<DnsHeader, ParseError>(p.header)) by {
        lemma_flags_canonical(p.header.flags);
        lemma_header_round_trip(p.header, buf.subrange(12, buf.len() as int));
    }
    assert(parse_questions(buf, 12, p.header.questions as nat) == Ok::<(Seq<QuestionView>, int), ParseError>((p.questions, p1))) by {
        lemma_questions_round_trip(buf, 12, p.questions);
    }
    assert(parse_records(buf, p1, p.header.answers as nat) == Ok::<(Seq<RecordView>, int), ParseError>((normalized_records(p.answers), p2))) by {
        lemma_records_round_trip(buf, p1, p.answers);
    }
    assert(parse_records(buf, p2, p.header.authority as nat) == Ok::<(Seq<RecordView>, int), ParseError>((normalized_records(p.authority), p3))) by {
        lemma_records_round_trip(buf, p2, p.authority);
    }
    assert(parse_records(buf, p3, p.header.additional as nat) is Ok) by {
        lemma_records_round_trip(buf, p3, p.additional);
    }
    lemma_records_round_trip(buf, p3, p.additional);
}

/// Parsing a datagram, serializing the packet and parsing the bytes again gives back the
/// packet, with each record carrying the length of its data as serialized; where every
/// record of the datagram already carried that length (as where no record data holds a
/// compressed name), the very same packet.
pub proof fn lemma_round_trip(buf: Seq<u8>)
    requires
        parse_packet(buf) is Ok,
    ensures
        parse_packet(packet_bytes(parse_packet(buf)->Ok_0)) == Ok::<PacketView, ParseError>(
            normalized_packet(parse_packet(buf)->Ok_0),
        ),
        ({
            let p = parse_packet(buf)->Ok_0;
            rdlens_exact(p.answers) && rdlens_exact(p.authority) && rdlens_exact(p.additional)
                ==> parse_packet(packet_bytes(p)) == Ok::<PacketView, ParseError>(p)
        }),
{
    let p = parse_packet(buf)->Ok_0;
    lemma_parse_packet_wf(buf);
    lemma_packet_round_trip(p);
    if rdlens_exact(p.answers) && rdlens_exact(p.authority) && rdlens_exact(p.additional) {
        assert(normalized_records(p.answers) =~= p.answers);
        assert(normalized_records(p.authority) =~= p.authority);
        assert(normalized_records(p.additional) =~= p.additional);
    }
}

} // verus!
