use dominion::header::{
    AuthoritativeAnswer, DnsHeader, Flags, OpCode, QueryResponse, ResponseCode,
};
use dominion::ParseError;

#[test]
fn serialize_header() {
    let mut used = Vec::with_capacity(12);
    let initial = vec![
        0x12u8, 0x34u8, 0u8, 0u8, 0u8, 1u8, 0u8, 2u8, 0u8, 3u8, 0u8, 4u8,
    ];
    let header = DnsHeader::try_from(&initial[..]).unwrap();
    header.serialize(&mut used);
    assert_eq!(initial, used);
}

#[test]
fn serialize_from_header() {
    let initial = vec![
        0x12u8, 0x34u8, 0u8, 0u8, 0u8, 1u8, 0u8, 2u8, 0u8, 3u8, 0u8, 4u8,
    ];
    let header = DnsHeader::try_from(&initial[..]).unwrap();
    let used = Vec::<u8>::from(&header);
    assert_eq!(initial, used);
}

#[test]
fn parse_header() {
    let buff = [
        0x12u8, 0x34u8, 0u8, 0u8, 0u8, 1u8, 0u8, 2u8, 0u8, 3u8, 0u8, 4u8,
    ];
    if let Ok(head) = DnsHeader::try_from(&buff[..]) {
        assert_eq!(head.id, 0x1234u16);
        assert_eq!(head.questions, 1u16);
        assert_eq!(head.answers, 2u16);
        assert_eq!(head.authority, 3u16);
        assert_eq!(head.additional, 4u16);
    } else {
        panic!("Test should error with small buffer");
    }
}

#[test]
fn header_err() {
    let buff = [
        0x12u8, 0x34u8, 0u8, 0u8, 0u8, 1u8, 0u8, 1u8, 0u8, 1u8, 0u8, 1u8,
    ];
    if let Ok(_) = DnsHeader::try_from(&buff[..5]) {
        panic!("Test should error with small buffer");
    }
}

#[test]
fn flags_standard_query() {
    let bits: u16 = 0b0000000000000000;
    let flags: Flags = bits.try_into().expect("Failed when transforming flags");
    let transformed: u16 = flags.into();

    assert_eq!(flags.qr, QueryResponse::Query);
    assert_eq!(flags.opcode, OpCode::Query);
    assert_eq!(transformed, bits);
}

#[test]
fn flags_inverse_query() {
    let bits: u16 = 0b0000100000000000;
    let flags: Flags = bits.try_into().expect("Failed when transforming flags");
    let transformed: u16 = flags.into();

    assert_eq!(flags.qr, QueryResponse::Query);
    assert_eq!(flags.opcode, OpCode::Iquery);
    assert_eq!(transformed, bits);
}

#[test]
fn flags_response_noerror() {
    let bits: u16 = 0b1000010000000000;
    let flags: Flags = bits.try_into().expect("Failed when transforming flags");
    let transformed: u16 = flags.into();

    assert_eq!(flags.qr, QueryResponse::Response);
    assert_eq!(flags.aa, AuthoritativeAnswer::Authoritative);
    assert_eq!(flags.rcode, ResponseCode::NoError);
    assert_eq!(transformed, bits);
}

#[test]
fn flags_response_servfail() {
    let bits: u16 = 0b1000010000000010;
    let flags: Flags = bits.try_into().expect("Failed when transforming flags");
    let transformed: u16 = flags.into();

    assert_eq!(flags.qr, QueryResponse::Response);
    assert_eq!(flags.aa, AuthoritativeAnswer::Authoritative);
    assert_eq!(flags.rcode, ResponseCode::ServFail);
    assert_eq!(transformed, bits);
}

#[test]
fn flags_response_nxdomain() {
    let bits: u16 = 0b1000010000000011;
    let flags: Flags = bits.try_into().expect("Failed when transforming flags");
    let transformed: u16 = flags.into();

    assert_eq!(flags.qr, QueryResponse::Response);
    assert_eq!(flags.aa, AuthoritativeAnswer::Authoritative);
    assert_eq!(flags.rcode, ResponseCode::NXDomain);
    assert_eq!(transformed, bits);
}

#[test]
fn flags_response_refused() {
    let bits: u16 = 0b1000010000000101;
    let flags: Flags = bits.try_into().expect("Failed when transforming flags");
    let transformed: u16 = flags.into();

    assert_eq!(flags.qr, QueryResponse::Response);
    assert_eq!(flags.aa, AuthoritativeAnswer::Authoritative);
    assert_eq!(flags.rcode, ResponseCode::Refused);
    assert_eq!(transformed, bits);
}

#[test]
fn flags_round_trip_every_accepted_word() {
    let mut accepted = 0u32;
    for bits in 0..=u16::MAX {
        match Flags::from_bits(bits) {
            Ok(flags) => {
                accepted += 1;
                assert_eq!(flags.to_bits(), bits);
            }
            Err(ParseError::HeaderFlag(_, _)) => {}
            Err(e) => panic!("unexpected error {e:?}"),
        }
    }
    // Six opcodes, six response codes, eight free bits.
    assert_eq!(accepted, 6 * 6 * 256);
}

#[test]
fn flags_reserved_values() {
    assert_eq!(
        Flags::from_bits(0b0001_1000_0000_0000),
        Err(ParseError::HeaderFlag("OpCode", 3))
    );
    assert_eq!(
        Flags::from_bits(0b0000_0000_0000_0110),
        Err(ParseError::HeaderFlag("ResponseCode", 6))
    );
    // The opcode is looked at first.
    assert_eq!(
        Flags::from_bits(0b0011_1000_0000_1111),
        Err(ParseError::HeaderFlag("OpCode", 7))
    );
}

#[test]
fn header_parse_scenario() {
    let buff = [0x12u8, 0x34, 0, 0, 0, 1, 0, 2, 0, 3, 0, 4];
    let head = DnsHeader::parse(&buff[..]).unwrap();
    assert_eq!(head.id, 0x1234);
    assert_eq!(
        (head.questions, head.answers, head.authority, head.additional),
        (1, 2, 3, 4)
    );
    assert_eq!(head.flags.qr, QueryResponse::Query);
    assert_eq!(head.flags.opcode, OpCode::Query);
    assert_eq!(head.flags.rcode, ResponseCode::NoError);
    assert_eq!(head.flags.to_bits(), 0);
}

#[test]
fn header_length_error() {
    let buff = [0u8; 11];
    assert_eq!(DnsHeader::parse(&buff[..]), Err(ParseError::HeaderLength(11)));
    assert_eq!(DnsHeader::parse(&buff[..0]), Err(ParseError::HeaderLength(0)));
}
