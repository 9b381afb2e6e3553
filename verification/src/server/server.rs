use crate::server::text::{append_u16, append_u8, spec_decimal_u16, spec_decimal_u8};
use vstd::prelude::*;
use vstd::string::StringExecFns;

verus! {

/// Firewall mark the diagnostic redirect loop sets on every packet.
pub const FORWARD_MARK: u32 = 0x801;
/// Netfilter queue the diagnostic redirect loop binds to.
pub const QUEUE_NUM: u16 = 10;
/// Length of an IPv4 header without options.
pub const IPV4_MIN_HEADER_LEN: usize = 20;

/// An IPv4 address, by its four octets in network order.
#[derive(Clone, Copy, Debug, PartialEq, Eq, Structural)]
pub struct Ipv4Address(pub u8, pub u8, pub u8, pub u8);

/// A big-endian 16-bit field.
pub open spec fn spec_be16(hi: u8, lo: u8) -> u16 {
    (hi as nat * 256 + lo as nat) as u16
}

/// An offset as a mathematical integer.
pub open spec fn spec_offset(offset: usize) -> int {
    offset as int
}

/// The address in four consecutive bytes.
pub open spec fn spec_address_at(payload: Seq<u8>, at: int) -> Ipv4Address {
    Ipv4Address(payload[at], payload[at + 1], payload[at + 2], payload[at + 3])
}

/// An address in dotted-decimal form.
pub open spec fn spec_address_text(a: Ipv4Address) -> Seq<char> {
    spec_decimal_u8(a.0) + "."@ + spec_decimal_u8(a.1) + "."@ + spec_decimal_u8(a.2) + "."@
        + spec_decimal_u8(a.3)
}

/// The ports line of a TCP or UDP packet whose IPv4 header is `header_len` bytes long,
/// when the packet holds the ports.
pub open spec fn spec_ports_text(
    protocol_name: Seq<char>,
    payload: Seq<u8>,
    header_len: int,
    total_len: u16,
    src: Ipv4Address,
    dst: Ipv4Address,
) -> Option<Seq<char>> {
    if payload.len() < header_len + 4 {
        None
    } else {
        Some(
            protocol_name + " "@ + spec_address_text(src) + ":"@ + spec_decimal_u16(
                spec_be16(payload[header_len], payload[header_len + 1]),
            ) + " -> "@ + spec_address_text(dst) + ":"@ + spec_decimal_u16(
                spec_be16(payload[header_len + 2], payload[header_len + 3]),
            ) + " total_len="@ + spec_decimal_u16(total_len),
        )
    }
}

/// The ICMP line of a packet whose IPv4 header is `header_len` bytes long, when the packet
/// holds the type and code.
pub open spec fn spec_icmp_text(
    payload: Seq<u8>,
    header_len: int,
    total_len: u16,
    src: Ipv4Address,
    dst: Ipv4Address,
) -> Option<Seq<char>> {
    if payload.len() < header_len + 2 {
        None
    } else {
        Some(
            "icmp "@ + spec_address_text(src) + " -> "@ + spec_address_text(dst) + " type="@
                + spec_decimal_u8(payload[header_len]) + " code="@ + spec_decimal_u8(
                payload[header_len + 1],
            ) + " total_len="@ + spec_decimal_u16(total_len),
        )
    }
}

/// The header length an IPv4 packet's first byte gives (its low nibble counts 32-bit words).
pub open spec fn spec_header_len(first: u8) -> int {
    (first % 16) * 4
}

/// The description of a captured packet: `None` when it is shorter than an IPv4 header,
/// when its header length is invalid or longer than the packet, or when a TCP, UDP or ICMP
/// packet is too short for its ports or type and code.
pub open spec fn spec_describe_ipv4_packet(payload: Seq<u8>) -> Option<Seq<char>> {
    if payload.len() < IPV4_MIN_HEADER_LEN {
        None
    } else if payload[0] / 16 != 4 {
        Some("packet: non-IPv4 version "@ + spec_decimal_u8(payload[0] / 16))
    } else {
        let header_len = spec_header_len(payload[0]);
        if header_len < IPV4_MIN_HEADER_LEN || payload.len() < header_len {
            None
        } else {
            let total_len = spec_be16(payload[2], payload[3]);
            let protocol = payload[9];
            let src = spec_address_at(payload, 12);
            let dst = spec_address_at(payload, 16);
            if protocol == 1 {
                spec_icmp_text(payload, header_len, total_len, src, dst)
            } else if protocol == 6 {
                spec_ports_text("tcp"@, payload, header_len, total_len, src, dst)
            } else if protocol == 17 {
                spec_ports_text("udp"@, payload, header_len, total_len, src, dst)
            } else {
                Some(
                    "ipv4 "@ + spec_address_text(src) + " -> "@ + spec_address_text(dst) + " proto="@
                        + spec_decimal_u8(protocol) + " total_len="@ + spec_decimal_u16(total_len),
                )
            }
        }
    }
}

/// Whether a returned text is the one a spec gives.
pub open spec fn spec_text_matches(text: Option<String>, expected: Option<Seq<char>>) -> bool {
    match text {
        Some(s) => expected == Some(s@),
        None => expected is None,
    }
}

fn be16(hi: u8, lo: u8) -> (v: u16)
    ensures
        v == spec_be16(hi, lo),
{
    hi as u16 * 256 + lo as u16
}

/// The header length an IPv4 packet's first byte gives.
fn header_len_of(first: u8) -> (len: usize)
    ensures
        len == spec_header_len(first),
{
    (first % 16) as usize * 4
}

fn append_address(out: &mut String, a: Ipv4Address)
    ensures
        final(out)@ == old(out)@ + spec_address_text(a),
{
    append_u8(out, a.0);
    out.append(".");
    append_u8(out, a.1);
    out.append(".");
    append_u8(out, a.2);
    out.append(".");
    append_u8(out, a.3);
    assert(final(out)@ =~= old(out)@ + spec_address_text(a));
}

/// Describe the source and destination ports of a TCP or UDP packet.
pub fn describe_ports(
    protocol_name: &str,
    payload: &[u8],
    header_len: usize,
    total_len: u16,
    src: Ipv4Address,
    dst: Ipv4Address,
) -> (description: Option<String>)
    requires
        header_len + 4 <= usize::MAX,
    ensures
        spec_text_matches(
            description,
            spec_ports_text(protocol_name@, payload@, spec_offset(header_len), total_len, src, dst),
        ),
{
    if payload.len() < header_len + 4 {
        return None;
    }
    let src_port = be16(payload[header_len], payload[header_len + 1]);
    let dst_port = be16(payload[header_len + 2], payload[header_len + 3]);
    let mut text = String::from_str(protocol_name);
    text.append(" ");
    append_address(&mut text, src);
    text.append(":");
    append_u16(&mut text, src_port);
    text.append(" -> ");
    append_address(&mut text, dst);
    text.append(":");
    append_u16(&mut text, dst_port);
    text.append(" total_len=");
    append_u16(&mut text, total_len);
    assert(Some(text@) == spec_ports_text(protocol_name@, payload@, spec_offset(header_len), total_len, src, dst));
    Some(text)
}

/// Describe the type and code of an ICMP packet.
pub fn describe_icmp(
    payload: &[u8],
    header_len: usize,
    total_len: u16,
    src: Ipv4Address,
    dst: Ipv4Address,
) -> (description: Option<String>)
    requires
        header_len + 2 <= usize::MAX,
    ensures
        spec_text_matches(description, spec_icmp_text(payload@, spec_offset(header_len), total_len, src, dst)),
{
    if payload.len() < header_len + 2 {
        return None;
    }
    let mut text = String::from_str("icmp ");
    append_address(&mut text, src);
    text.append(" -> ");
    append_address(&mut text, dst);
    text.append(" type=");
    append_u8(&mut text, payload[header_len]);
    text.append(" code=");
    append_u8(&mut text, payload[header_len + 1]);
    text.append(" total_len=");
    append_u16(&mut text, total_len);
    assert(Some(text@) == spec_icmp_text(payload@, spec_offset(header_len), total_len, src, dst));
    Some(text)
}

/// Describe the IPv4 header of a captured packet and what follows it.
pub fn describe_ipv4_packet(payload: &[u8]) -> (description: Option<String>)
    ensures
        spec_text_matches(description, spec_describe_ipv4_packet(payload@)),
{
    if payload.len() < IPV4_MIN_HEADER_LEN {
        return None;
    }
    let version = payload[0] / 16;
    if version != 4 {
        let mut text = String::from_str("packet: non-IPv4 version ");
        append_u8(&mut text, version);
        return Some(text);
    }
    let header_len = header_len_of(payload[0]);
    if header_len < IPV4_MIN_HEADER_LEN || payload.len() < header_len {
        return None;
    }
    let total_len = be16(payload[2], payload[3]);
    let protocol = payload[9];
    let src = Ipv4Address(payload[12], payload[13], payload[14], payload[15]);
    let dst = Ipv4Address(payload[16], payload[17], payload[18], payload[19]);
    if protocol == 1 {
        describe_icmp(payload, header_len, total_len, src, dst)
    } else if protocol == 6 {
        describe_ports("tcp", payload, header_len, total_len, src, dst)
    } else if protocol == 17 {
        describe_ports("udp", payload, header_len, total_len, src, dst)
    } else {
        let mut text = String::from_str("ipv4 ");
        append_address(&mut text, src);
        text.append(" -> ");
        append_address(&mut text, dst);
        text.append(" proto=");
        append_u8(&mut text, protocol);
        text.append(" total_len=");
        append_u16(&mut text, total_len);
        assert(text@ =~= spec_describe_ipv4_packet(payload@)->Some_0);
        Some(text)
    }
}

} // verus!
