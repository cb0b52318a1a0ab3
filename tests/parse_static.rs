use dominion::body::{Class, QType, RecordData};
use dominion::header::{
    AuthoritativeAnswer, OpCode, QueryResponse, RecursionAvailable, TrunCation,
};
use dominion::server::{decode_query, encode_reply};
use dominion::{bytes_from, DnsPacket, ParseError};

const REQ: [u8; 33] = [
    0x9e, 0x4c, 0x01, 0x20, 0x00, 0x01, 0x00, 0x00, 0x00, 0x00, 0x00, 0x00, // header
    5, 104, 101, 108, 108, 111, 5, 119, 111, 114, 108, 100, 3, 99, 111, 109, 0, // name
    0x00, 0x01, 0x00, 0x01, // A IN
];

const RES: [u8; 49] = [
    0x9e, 0x4c, 0x81, 0x80, 0x00, 0x01, 0x00, 0x01, 0x00, 0x00, 0x00, 0x00, // header
    5, 104, 101, 108, 108, 111, 5, 119, 111, 114, 108, 100, 3, 99, 111, 109, 0, // name
    0x00, 0x01, 0x00, 0x01, // A IN
    0xc0, 0x0c, // pointer to the question's name
    0x00, 0x01, 0x00, 0x01, 0x00, 0x00, 0x01, 0x2c, 0x00, 0x04, // A IN 300 4
    204, 74, 99, 100,
];

#[test]
fn test_parse_request() {
    let DnsPacket {
        header,
        questions,
        answers,
        authority,
        additional,
    } = DnsPacket::try_from(&REQ[..]).unwrap();

    assert_eq!(header.flags.qr, QueryResponse::Query);
    assert_eq!(header.flags.opcode, OpCode::Query);
    assert_eq!(header.flags.aa, AuthoritativeAnswer::NonAuthoritative);
    assert_eq!(header.questions, 1);
    assert_eq!(header.answers, 0);
    assert_eq!(header.authority, 0);
    assert_eq!(header.additional, 0);

    assert_eq!(questions.len(), 1);
    assert_eq!(questions[0].qtype, QType::A);
    assert_eq!(questions[0].class, Class::IN);
    assert_eq!(
        questions[0].name.to_string(),
        "hello.world.com.".to_string()
    );

    assert!(answers.is_empty());
    assert!(authority.is_empty());
    assert!(additional.is_empty());
}

#[test]
fn test_parse_response() {
    let DnsPacket {
        header,
        questions,
        answers,
        authority,
        additional,
    } = DnsPacket::try_from(&RES[..]).unwrap();

    let real_ip: [u8; 4] = [204, 74, 99, 100];
    let ip = if let RecordData::A(ip) = answers[0].data {
        ip
    } else {
        panic!()
    };

    assert_eq!(header.flags.qr, QueryResponse::Response);
    assert_eq!(header.flags.opcode, OpCode::Query);
    assert_eq!(header.flags.tc, TrunCation::NotTruncated);
    assert_eq!(header.questions, 1);
    assert_eq!(header.answers, 1);
    assert_eq!(header.authority, 0);
    assert_eq!(header.additional, 0);

    assert_eq!(questions.len(), 1);
    assert_eq!(questions[0].qtype, QType::A);
    assert_eq!(questions[0].class, Class::IN);
    assert_eq!(
        questions[0].name.to_string(),
        "hello.world.com.".to_string()
    );

    assert_eq!(answers.len(), 1);
    assert_eq!(ip, real_ip);
    assert_eq!(answers[0].preamble.rdlen, 4);
    assert_eq!(
        answers[0].preamble.name.to_string(),
        "hello.world.com.".to_string()
    );

    assert!(authority.is_empty());
    assert!(additional.is_empty());
}

#[test]
fn request_round_trip() {
    let packet = DnsPacket::try_from(&REQ[..]).unwrap();
    let bytes = bytes_from(&packet);
    assert_eq!(bytes, REQ.to_vec());
    let again = DnsPacket::try_from(&bytes[..]).unwrap();
    assert_eq!(again, packet);
}

#[test]
fn response_round_trip() {
    let packet = DnsPacket::try_from(&RES[..]).unwrap();
    let bytes = bytes_from(&packet);
    // The answer's name goes out uncompressed: 15 more bytes.
    assert_eq!(bytes.len(), RES.len() + 15);
    let again = DnsPacket::try_from(&bytes[..]).unwrap();
    assert_eq!(again, packet);
}

#[test]
fn trailing_bytes_ignored() {
    let mut long = REQ.to_vec();
    long.extend([1, 2, 3]);
    let packet = DnsPacket::try_from(&long[..]).unwrap();
    assert_eq!(packet, DnsPacket::try_from(&REQ[..]).unwrap());
}

#[test]
fn every_prefix_parses_or_fails_typed() {
    for n in 0..RES.len() {
        match DnsPacket::try_from(&RES[..n]) {
            Ok(_) => panic!("a cut datagram of {n} bytes parsed"),
            Err(ParseError::HeaderLength(len)) => assert!(n < 12 && len == n),
            Err(ParseError::OobRead(pos)) => assert!(pos <= n),
            Err(ParseError::LabelLength(_)) => {}
            Err(e) => panic!("unexpected error {e:?} at {n}"),
        }
    }
    assert!(DnsPacket::try_from(&RES[..]).is_ok());
}

#[test]
fn arbitrary_bytes_never_panic() {
    let mut seed: u32 = 12345;
    for round in 0..2000 {
        let len = (round % 97) as usize;
        let mut buf = Vec::with_capacity(len);
        for _ in 0..len {
            seed = seed.wrapping_mul(1_103_515_245).wrapping_add(12_345);
            buf.push((seed >> 16) as u8);
        }
        if buf.len() >= 12 {
            // Small counts, so that the body gets looked at.
            buf[4] = 0;
            buf[6] = 0;
            buf[8] = 0;
            buf[10] = 0;
        }
        if let Ok(p) = DnsPacket::try_from(&buf[..]) {
            let items = p.questions.len() + p.answers.len() + p.authority.len() + p.additional.len();
            assert!(12 + 5 * items <= buf.len());
        }
    }
}

#[test]
fn header_counts_beyond_data() {
    let mut req = REQ;
    req[7] = 1; // one answer that is not there
    assert_eq!(DnsPacket::try_from(&req[..]).unwrap_err(), ParseError::OobRead(33));
}

#[test]
fn echo_pipeline() {
    let query = decode_query(&REQ[..]).unwrap();
    let reply = encode_reply(Some(query)).unwrap();
    assert_eq!(reply, REQ.to_vec());
    assert!(decode_query(&REQ[..20]).is_none());
    assert!(encode_reply(None).is_none());
}

#[test]
fn oversized_reply_is_dropped() {
    let mut packet = DnsPacket::try_from(&RES[..]).unwrap();
    packet.answers[0].data = RecordData::Txt(vec![b'x'; 300]);
    assert!(encode_reply(Some(packet.clone())).is_none());
    packet.answers[0].data = RecordData::Txt(vec![b'x'; 255]);
    let bytes = encode_reply(Some(packet)).unwrap();
    let back = DnsPacket::try_from(&bytes[..]).unwrap();
    assert_eq!(back.answers[0].preamble.rdlen, 256);
}

#[test]
fn response_built_from_request() {
    let mut res = DnsPacket::try_from(&REQ[..]).unwrap();
    res.header.flags.qr = QueryResponse::Response;
    res.header.flags.ra = RecursionAvailable::Available;
    let answer = dominion::body::ResourceRecord {
        preamble: dominion::body::RecordPreamble {
            name: res.questions[0].name.clone(),
            rrtype: dominion::body::Type::A,
            class: Class::IN,
            ttl: 300,
            rdlen: 4,
        },
        data: RecordData::A([204, 74, 99, 100]),
    };
    res.header.answers = 1;
    res.answers.push(answer);
    let bytes = bytes_from(&res);
    let back = DnsPacket::try_from(&bytes[..]).unwrap();
    assert_eq!(back, res);
    assert_eq!(bytes[2], 0x81);
    assert_eq!(bytes[3], 0xa0);
}
