//! Stateless frame decoding: classify a raw link-layer frame and, for an
//! IPv4 frame carrying TCP or UDP, extract the flow key and the byte size
//! to record (the IPv4 total-length field, covering the whole datagram).
//!
//! Decoding never fails fatally: a frame with another link-layer type, an
//! unsupported IP protocol, or a header shorter than required is dropped
//! by returning `None`.
use vstd::prelude::*;

use crate::flow::{FlowKey, Proto};

verus! {

/// Ethertype value announcing an IPv4 payload.
pub const ETHERTYPE_IPV4: u16 = 0x0800;

/// IPv4 next-level protocol numbers for the two supported transports.
pub const IP_PROTO_TCP: u8 = 6;

pub const IP_PROTO_UDP: u8 = 17;

/// Length of the fixed link-layer (Ethernet) header.
pub const ETH_HEADER_LEN: usize = 14;

/// Minimum IPv4 header length (header length field of five 32-bit words).
pub const IPV4_MIN_HEADER_LEN: usize = 20;

/// Minimum TCP header length.
pub const TCP_MIN_HEADER_LEN: usize = 20;

/// UDP header length.
pub const UDP_HEADER_LEN: usize = 8;

/// The big-endian 16-bit value at offset `i` of `b`.
pub open spec fn be16(b: Seq<u8>, i: int) -> u16
    recommends
        0 <= i,
        i + 2 <= b.len(),
{
    (b[i] * 256 + b[i + 1]) as u16
}

/// The big-endian 32-bit value at offset `i` of `b`.
pub open spec fn be32(b: Seq<u8>, i: int) -> u32
    recommends
        0 <= i,
        i + 4 <= b.len(),
{
    (b[i] * 0x1000000 + b[i + 1] * 0x10000 + b[i + 2] * 0x100 + b[i + 3]) as u32
}

/// Whether the frame is long enough to carry a link-layer header that
/// announces an IPv4 payload.
pub open spec fn link_is_ipv4(f: Seq<u8>) -> bool {
    f.len() >= ETH_HEADER_LEN && be16(f, 12) == ETHERTYPE_IPV4
}

/// The IPv4 header length in bytes, as declared by the header-length
/// nibble of the first IPv4 header byte.
pub open spec fn ipv4_header_len(f: Seq<u8>) -> int
    recommends
        f.len() >= ETH_HEADER_LEN + 1,
{
    4 * (f[ETH_HEADER_LEN as int] & 0x0f)
}

/// Whether the frame holds a well-formed IPv4 header: an IPv4 ethertype,
/// room for the minimum header, a header-length field of at least five
/// words, and room for the declared header.
pub open spec fn ipv4_header_ok(f: Seq<u8>) -> bool {
    &&& link_is_ipv4(f)
    &&& f.len() >= ETH_HEADER_LEN + IPV4_MIN_HEADER_LEN
    &&& ipv4_header_len(f) >= IPV4_MIN_HEADER_LEN
    &&& f.len() >= ETH_HEADER_LEN + ipv4_header_len(f)
}

/// The IPv4 next-level protocol field, defined when the header is well formed.
pub open spec fn ipv4_protocol(f: Seq<u8>) -> u8
    recommends
        ipv4_header_ok(f),
{
    f[ETH_HEADER_LEN + 9]
}

/// The offset of the transport header within the frame.
pub open spec fn transport_offset(f: Seq<u8>) -> int
    recommends
        ipv4_header_ok(f),
{
    ETH_HEADER_LEN + ipv4_header_len(f)
}

/// The flow key of a well-formed IPv4 frame whose transport header fits,
/// for the given protocol tag.
pub open spec fn spec_flow_key(f: Seq<u8>, proto: Proto) -> FlowKey
    recommends
        ipv4_header_ok(f),
        transport_offset(f) + 4 <= f.len(),
{
    FlowKey {
        proto,
        src_addr: be32(f, ETH_HEADER_LEN + 12),
        dst_addr: be32(f, ETH_HEADER_LEN + 16),
        src_port: be16(f, transport_offset(f)),
        dst_port: be16(f, transport_offset(f) + 2),
    }
}

/// What decoding a raw frame yields: the flow key and the IPv4 total-length
/// field for an IPv4/TCP or IPv4/UDP frame whose headers all fit, `None`
/// for everything else.
pub open spec fn spec_decode(f: Seq<u8>) -> Option<(FlowKey, u64)> {
    if !ipv4_header_ok(f) {
        None
    } else {
        let size = be16(f, ETH_HEADER_LEN + 2) as u64;
        if ipv4_protocol(f) == IP_PROTO_TCP {
            if f.len() >= transport_offset(f) + TCP_MIN_HEADER_LEN {
                Some((spec_flow_key(f, Proto::Tcp), size))
            } else {
                None
            }
        } else if ipv4_protocol(f) == IP_PROTO_UDP {
            if f.len() >= transport_offset(f) + UDP_HEADER_LEN {
                Some((spec_flow_key(f, Proto::Udp), size))
            } else {
                None
            }
        } else {
            None
        }
    }
}

/// Law: a frame whose link-layer type is not IPv4 (or that is too short
/// to carry one) decodes to nothing, so it can never reach the
/// accumulator.
pub proof fn lemma_non_ipv4_dropped(f: Seq<u8>)
    requires
        !link_is_ipv4(f),
    ensures
        spec_decode(f) == None::<(FlowKey, u64)>,
{
}

/// Law: an IPv4 frame whose next-level protocol is neither TCP nor UDP
/// decodes to nothing, so it can never reach the accumulator.
pub proof fn lemma_unsupported_protocol_dropped(f: Seq<u8>)
    requires
        ipv4_header_ok(f),
        ipv4_protocol(f) != IP_PROTO_TCP,
        ipv4_protocol(f) != IP_PROTO_UDP,
    ensures
        spec_decode(f) == None::<(FlowKey, u64)>,
{
}

/// Law: a frame truncated at any layer — too short for the link-layer
/// header, the declared IPv4 header, or the transport header — decodes to
/// nothing rather than failing.
pub proof fn lemma_truncated_dropped(f: Seq<u8>)
    requires
        ipv4_header_ok(f) ==> f.len() < transport_offset(f) + UDP_HEADER_LEN,
    ensures
        spec_decode(f) == None::<(FlowKey, u64)>,
{
}

/// Read the big-endian 16-bit value at offset `i`.
fn rd16(b: &Vec<u8>, i: usize) -> (r: u16)
    requires
        i + 2 <= b.len(),
    ensures
        r == be16(b@, i as int),
{
    (b[i] as u16) * 256 + (b[i + 1] as u16)
}

/// Read the big-endian 32-bit value at offset `i`.
fn rd32(b: &Vec<u8>, i: usize) -> (r: u32)
    requires
        i + 4 <= b.len(),
    ensures
        r == be32(b@, i as int),
{
    (b[i] as u32) * 0x1000000 + (b[i + 1] as u32) * 0x10000 + (b[i + 2] as u32) * 0x100 + (b[i
        + 3] as u32)
}

/// Decode one captured frame. Returns the flow key and the IPv4
/// total-length field for a supported frame, `None` for a frame that is
/// not IPv4, not TCP/UDP, or truncated at any layer.
pub fn decode_frame(frame: &Vec<u8>) -> (r: Option<(FlowKey, u64)>)
    ensures
        r == spec_decode(frame@),
{
    if frame.len() < ETH_HEADER_LEN {
        return None;
    }
    let ethertype = rd16(frame, 12);
    if ethertype != ETHERTYPE_IPV4 {
        return None;
    }
    if frame.len() < ETH_HEADER_LEN + IPV4_MIN_HEADER_LEN {
        return None;
    }
    let header_len: usize = 4 * ((frame[ETH_HEADER_LEN] & 0x0f) as usize);
    if header_len < IPV4_MIN_HEADER_LEN || frame.len() < ETH_HEADER_LEN + header_len {
        return None;
    }
    let tstart: usize = ETH_HEADER_LEN + header_len;
    let protocol = frame[ETH_HEADER_LEN + 9];
    let size = rd16(frame, ETH_HEADER_LEN + 2) as u64;
    let src_addr = rd32(frame, ETH_HEADER_LEN + 12);
    let dst_addr = rd32(frame, ETH_HEADER_LEN + 16);
    if protocol == IP_PROTO_TCP {
        if frame.len() < tstart + TCP_MIN_HEADER_LEN {
            return None;
        }
        let key = FlowKey::new(Proto::Tcp, src_addr, dst_addr, rd16(frame, tstart), rd16(
            frame,
            tstart + 2,
        ));
        Some((key, size))
    } else if protocol == IP_PROTO_UDP {
        if frame.len() < tstart + UDP_HEADER_LEN {
            return None;
        }
        let key = FlowKey::new(Proto::Udp, src_addr, dst_addr, rd16(frame, tstart), rd16(
            frame,
            tstart + 2,
        ));
        Some((key, size))
    } else {
        None
    }
}

} // verus!
