use dominion::body::name::Name;
use dominion::body::{Class, QType, Question, RecordData, RecordPreamble, ResourceRecord, Type};
use dominion::ParseError;

#[test]
fn class_transformations() {
    assert_eq!(Class::IN, From::from(1u16));
    assert_eq!(Class::CS, From::from(2u16));
    assert_eq!(Class::CH, From::from(3u16));
    assert_eq!(Class::HS, From::from(4u16));
    assert_eq!(Class::Any, From::from(255u16));
    assert_eq!(Class::Unknown(225u16), From::from(225u16));

    assert_eq!(1u16, From::from(Class::IN));
    assert_eq!(2u16, From::from(Class::CS));
    assert_eq!(3u16, From::from(Class::CH));
    assert_eq!(4u16, From::from(Class::HS));
    assert_eq!(255u16, From::from(Class::Any));
    assert_eq!(225u16, From::from(Class::Unknown(225u16)));
}

#[test]
fn qtype_transformations() {
    assert_eq!(QType::A, From::from(1u16));
    assert_eq!(QType::Ns, From::from(2u16));
    assert_eq!(QType::Cname, From::from(5u16));
    assert_eq!(QType::Mx, From::from(15u16));
    assert_eq!(QType::All, From::from(255u16));
    assert_eq!(QType::Unknown(225u16), From::from(225u16));

    assert_eq!(1u16, From::from(QType::A));
    assert_eq!(2u16, From::from(QType::Ns));
    assert_eq!(5u16, From::from(QType::Cname));
    assert_eq!(15u16, From::from(QType::Mx));
    assert_eq!(255u16, From::from(QType::All));
    assert_eq!(225u16, From::from(QType::Unknown(225u16)));
}

#[test]
fn type_codes() {
    assert_eq!(Type::Txt, Type::from(16u16));
    assert_eq!(Type::Aaaa, Type::from(28u16));
    assert_eq!(Type::Unknown(255), Type::from(255u16));
    assert_eq!(28u16, u16::from(Type::Aaaa));
    assert_eq!(QType::Aaaa, QType::from(Type::Aaaa));
    assert_eq!(Type::try_from(QType::Mx), Ok(Type::Mx));
    assert!(Type::try_from(QType::All).is_err());
}

const QUESTION: [u8; 21] = [
    5, 104, 101, 108, 108, 111, 5, 119, 111, 114, 108, 100, 3, 99, 111, 109, 0, 0, 1, 0, 1,
];

#[test]
fn question_parse_and_serialize() {
    let (q, n) = Question::parse(&QUESTION[..], 0).unwrap();
    assert_eq!(n, 21);
    assert_eq!(q.qtype, QType::A);
    assert_eq!(q.class, Class::IN);
    assert_eq!(q.name.to_string(), "hello.world.com.".to_string());
    let mut out = Vec::new();
    q.serialize(&mut out);
    assert_eq!(out, QUESTION.to_vec());
    let owned: Vec<u8> = q.into();
    assert_eq!(owned, QUESTION.to_vec());
}

#[test]
fn question_truncated() {
    assert_eq!(Question::parse(&QUESTION[..18], 0).unwrap_err(), ParseError::OobRead(17));
    assert_eq!(Question::parse(&QUESTION[..20], 0).unwrap_err(), ParseError::OobRead(19));
}

fn record(name: &str, rrtype: Type, rdlen: u16, data: RecordData) -> ResourceRecord {
    ResourceRecord {
        preamble: RecordPreamble {
            name: Name::try_from(name).unwrap(),
            rrtype,
            class: Class::IN,
            ttl: -2,
            rdlen,
        },
        data,
    }
}

fn round_trip(rr: &ResourceRecord) -> (ResourceRecord, usize, Vec<u8>) {
    let mut out = Vec::new();
    rr.serialize(&mut out);
    let (back, n) = ResourceRecord::parse(&out[..], 0).unwrap();
    (back, n, out)
}

#[test]
fn record_data_round_trips() {
    let mx = Name::try_from("mail.example.com").unwrap();
    let records = [
        record("example.com", Type::A, 4, RecordData::A([204, 74, 99, 100])),
        record("example.com", Type::Aaaa, 16, RecordData::Aaaa([0x20, 1, 0xd, 0xb8, 0, 0, 0, 0, 0, 0, 0, 0, 0, 0, 0, 1])),
        record("example.com", Type::Ns, 16, RecordData::Ns(Name::try_from("ns.example.com").unwrap())),
        record("www.example.com", Type::Cname, 13, RecordData::Cname(Name::try_from("example.com").unwrap())),
        record("example.com", Type::Mx, 20, RecordData::Mx { preference: 10, exchange: mx }),
        record("example.com", Type::Txt, 6, RecordData::Txt(b"hello".to_vec())),
        record("example.com", Type::Unknown(99), 3, RecordData::Unknown(99, vec![1, 2, 3])),
    ];
    for rr in records.iter() {
        let (back, n, out) = round_trip(rr);
        assert_eq!(&back, rr);
        assert_eq!(n, out.len());
    }
}

#[test]
fn record_rdlen_is_recomputed() {
    // The preamble says 9, but the address takes 4 bytes on the wire.
    let rr = record("example.com", Type::A, 9, RecordData::A([10, 0, 0, 1]));
    let (back, n, out) = round_trip(&rr);
    assert_eq!(back.preamble.rdlen, 4);
    assert_eq!(back.data, rr.data);
    assert_eq!(n, out.len());
    let mut pre = Vec::new();
    rr.preamble.serialize(&mut pre);
    assert_eq!(&pre[pre.len() - 2..], &[0, 9]);
}

#[test]
fn record_errors() {
    let rr = record("example.com", Type::Txt, 6, RecordData::Txt(b"hello".to_vec()));
    let mut out = Vec::new();
    rr.serialize(&mut out);
    // The data would run past the buffer.
    let cut = &out[..out.len() - 1];
    assert_eq!(ResourceRecord::parse(cut, 0).unwrap_err(), ParseError::OobRead(23));
    // A cut inside the preamble.
    assert_eq!(ResourceRecord::parse(&out[..14], 0).unwrap_err(), ParseError::OobRead(13));
    assert_eq!(ResourceRecord::parse(&out[..21], 0).unwrap_err(), ParseError::OobRead(21));
}

#[test]
fn txt_length_past_rdata() {
    // rdlen 2, but the text claims 5 bytes.
    let mut bytes = vec![3, 99, 111, 109, 0, 0, 16, 0, 1, 0, 0, 0, 1, 0, 2, 5, 104];
    assert_eq!(ResourceRecord::parse(&bytes[..], 0).unwrap_err(), ParseError::OobRead(16));
    bytes.extend([101, 108, 108, 111]);
    let (rr, n) = ResourceRecord::parse(&bytes[..], 0).unwrap();
    assert_eq!(rr.data, RecordData::Txt(b"hello".to_vec()));
    assert_eq!(n, 17);
}
