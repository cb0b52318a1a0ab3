//! What the UDP serve loop decides for each datagram: whether it holds a query worth
//! handing to the service, and which bytes, if any, go back to the client.
use crate::body::{data_sized, RecordData, ResourceRecord};
use crate::{bytes_from, packet_bytes, parse_packet, records_sized, DnsPacket};
use vstd::prelude::*;

verus! {

/// Size of the receive buffer of each worker: the classic limit of a DNS datagram over UDP.
pub const DATAGRAM_SIZE: usize = 512;

/// The query that a received datagram holds, or nothing where it does not parse: such a
/// datagram is dropped without an answer.
pub fn decode_query(datagram: &[u8]) -> (r: Option<DnsPacket>)
    ensures
        match parse_packet(datagram@) {
            Ok(p) => r is Some && r->Some_0@ == p,
            Err(_) => r is None,
        },
{
    match DnsPacket::parse(datagram) {
        Ok(packet) => Some(packet),
        Err(_) => None,
    }
}

/// Whether every record of `rs` can be serialized.
fn all_sized(rs: &Vec<ResourceRecord>) -> (r: bool)
    ensures
        r == records_sized(rs@),
{
    let mut i: usize = 0;
    while i < rs.len()
        invariant
            0 <= i <= rs@.len(),
            forall|j: int| 0 <= j < i ==> data_sized(#[trigger] rs@[j].data@),
        decreases rs@.len() - i,
    {
        let fits = match &rs[i].data {
            RecordData::Txt(t) => t.len() <= 255,
            RecordData::Unknown(_, raw) => raw.len() <= 65535,
            _ => true,
        };
        assert(fits == data_sized(rs@[i as int].data@));
        if !fits {
            return false;
        }
        i += 1;
    }
    true
}

/// Whether every record of `packet` can be serialized: no text longer than 255 bytes and no
/// raw data longer than 65535 bytes.
pub fn fits_wire(packet: &DnsPacket) -> (r: bool)
    ensures
        r == (records_sized(packet.answers@) && records_sized(packet.authority@) && records_sized(
            packet.additional@,
        )),
{
    all_sized(&packet.answers) && all_sized(&packet.authority) && all_sized(&packet.additional)
}

/// The bytes to send back for the service's reply: none where the service gave no reply, or
/// where the reply holds a record that cannot be serialized.
pub fn encode_reply(reply: Option<DnsPacket>) -> (r: Option<Vec<u8>>)
    ensures
        match reply {
            None => r is None,
            Some(p) => if records_sized(p.answers@) && records_sized(p.authority@) && records_sized(
                p.additional@,
            ) {
                r is Some && r->Some_0@ == packet_bytes(p@)
            } else {
                r is None
            },
        },
{
    match reply {
        None => None,
        Some(packet) => if fits_wire(&packet) {
            Some(bytes_from(&packet))
        } else {
            None
        },
    }
}

} // verus!
