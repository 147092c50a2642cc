//! Extraction of the transport payload from a captured link-layer frame.
use vstd::prelude::*;
use vstd::slice::slice_to_vec;

verus! {

/// Where the IP header starts: by link type (Ethernet 1, Linux cooked v2
/// 228, raw IP 101), otherwise guessed from an IPv4 EtherType or a loopback
/// family byte.
pub open spec fn ip_offset(link_type: u16, packet: Seq<u8>) -> int {
    if link_type == 1 {
        14
    } else if link_type == 228 {
        16
    } else if link_type == 101 {
        0
    } else if packet.len() > 14 && packet[12] == 0x08 && packet[13] == 0x00 {
        14
    } else if packet.len() > 4 && packet[0] == 0x02 {
        16
    } else {
        0
    }
}

/// The smaller of two integers.
pub open spec fn min_int(a: int, b: int) -> int {
    if a <= b {
        a
    } else {
        b
    }
}

/// The IP header length in bytes.
pub open spec fn ihl(ip: Seq<u8>) -> int {
    (ip[0] % 16) * 4
}

/// The end of the IP datagram within `ip`: its total length, cut to what was captured.
pub open spec fn ip_end(ip: Seq<u8>) -> int {
    min_int(ip[2] * 256 + ip[3], ip.len() as int)
}

/// Whether the frame is one on which taking the payload would slice out of
/// order: an IP total length below the header length, a UDP length below the
/// UDP header, or a TCP header longer than the segment.
pub open spec fn payload_out_of_order(link_type: u16, packet: Seq<u8>) -> bool {
    let o = ip_offset(link_type, packet);
    if packet.len() < o + 20 {
        false
    } else {
        let ip = packet.subrange(o, packet.len() as int);
        if ip.len() < ihl(ip) {
            false
        } else if ihl(ip) > ip_end(ip) {
            true
        } else {
            let seg = ip.subrange(ihl(ip), ip_end(ip));
            if ip[9] == 17 && seg.len() >= 8 {
                seg[4] * 256 + seg[5] < 8
            } else if ip[9] == 6 && seg.len() >= 20 {
                (seg[12] / 16) * 4 > seg.len()
            } else {
                false
            }
        }
    }
}

/// The UDP or TCP payload of a frame; `None` for a frame too short for its
/// headers or carrying another protocol.
pub open spec fn payload_of(link_type: u16, packet: Seq<u8>) -> Option<Seq<u8>> {
    let o = ip_offset(link_type, packet);
    if packet.len() < o + 20 {
        None
    } else {
        let ip = packet.subrange(o, packet.len() as int);
        if ip.len() < ihl(ip) {
            None
        } else {
            let seg = ip.subrange(ihl(ip), ip_end(ip));
            if ip[9] == 17 {
                if seg.len() < 8 {
                    None
                } else {
                    Some(seg.subrange(8, min_int(seg[4] * 256 + seg[5], seg.len() as int)))
                }
            } else if ip[9] == 6 {
                if seg.len() < 20 {
                    None
                } else {
                    Some(seg.subrange((seg[12] / 16) * 4, seg.len() as int))
                }
            } else {
                None
            }
        }
    }
}

/// Whether `extract_payload` is defined on the frame (see
/// `payload_out_of_order`).
pub fn payload_in_order(link_type: u16, packet: &[u8]) -> (r: bool)
    ensures
        r == !payload_out_of_order(link_type, packet@),
{
    let ip_offset = header_offset(link_type, packet);
    if packet.len() < ip_offset || packet.len() - ip_offset < 20 {
        return true;
    }
    let ip_data = &packet[ip_offset..packet.len()];
    let ihl = ((ip_data[0] % 16) as usize) * 4;
    if ip_data.len() < ihl {
        return true;
    }
    let total_len = (ip_data[2] as usize) * 256 + ip_data[3] as usize;
    let end = if total_len < ip_data.len() { total_len } else { ip_data.len() };
    if ihl > end {
        return false;
    }
    let ip_payload = &ip_data[ihl..end];
    if ip_data[9] == 17 && ip_payload.len() >= 8 {
        (ip_payload[4] as usize) * 256 + ip_payload[5] as usize >= 8
    } else if ip_data[9] == 6 && ip_payload.len() >= 20 {
        ((ip_payload[12] / 16) as usize) * 4 <= ip_payload.len()
    } else {
        true
    }
}

fn header_offset(link_type: u16, packet: &[u8]) -> (r: usize)
    ensures
        r == ip_offset(link_type, packet@),
{
    if link_type == 1 {
        14
    } else if link_type == 228 {
        16
    } else if link_type == 101 {
        0
    } else if packet.len() > 14 && packet[12] == 0x08 && packet[13] == 0x00 {
        14
    } else if packet.len() > 4 && packet[0] == 0x02 {
        16
    } else {
        0
    }
}

/// Extracts the UDP or TCP payload from a captured frame.
pub fn extract_payload(link_type: u16, packet: &[u8]) -> (r: Option<Vec<u8>>)
    requires
        !payload_out_of_order(link_type, packet@),
    ensures
        match r {
            Some(v) => payload_of(link_type, packet@) == Some(v@),
            None => payload_of(link_type, packet@) is None,
        },
{
    let ip_offset = header_offset(link_type, packet);
    if packet.len() < ip_offset || packet.len() - ip_offset < 20 {
        return None;
    }
    let ip_data = &packet[ip_offset..packet.len()];
    let version_ihl = ip_data[0];
    let ihl = ((version_ihl % 16) as usize) * 4;
    if ip_data.len() < ihl {
        return None;
    }
    let protocol = ip_data[9];
    let total_len = (ip_data[2] as usize) * 256 + ip_data[3] as usize;
    let end = if total_len < ip_data.len() { total_len } else { ip_data.len() };
    let ip_payload = &ip_data[ihl..end];
    if protocol == 17 {
        if ip_payload.len() < 8 {
            return None;
        }
        let udp_len = (ip_payload[4] as usize) * 256 + ip_payload[5] as usize;
        let udp_end = if udp_len < ip_payload.len() { udp_len } else { ip_payload.len() };
        Some(slice_to_vec(&ip_payload[8..udp_end]))
    } else if protocol == 6 {
        if ip_payload.len() < 20 {
            return None;
        }
        let tcp_header_len = ((ip_payload[12] / 16) as usize) * 4;
        Some(slice_to_vec(&ip_payload[tcp_header_len..ip_payload.len()]))
    } else {
        None
    }
}

/// A frame of an unknown link type is read as the link type its first bytes
/// suggest: Ethernet when it carries the IPv4 EtherType, Linux cooked when it
/// starts with a loopback family byte, raw IP otherwise.
pub proof fn lemma_unknown_link_type_is_guessed(link_type: u16, packet: Seq<u8>)
    requires
        link_type != 1 && link_type != 101 && link_type != 228,
    ensures
        ({
            let guess: u16 = if packet.len() > 14 && packet[12] == 0x08 && packet[13] == 0x00 {
                1
            } else if packet.len() > 4 && packet[0] == 0x02 {
                228
            } else {
                101
            };
            &&& payload_of(link_type, packet) == payload_of(guess, packet)
            &&& payload_out_of_order(link_type, packet) == payload_out_of_order(guess, packet)
        }),
{
}

/// Whether `hdr` is a link header of the given known link type: 14 bytes of
/// Ethernet, 16 of Linux cooked capture, none for raw IP.
pub open spec fn link_header(link_type: u16, hdr: Seq<u8>) -> bool {
    (link_type == 1 && hdr.len() == 14) || (link_type == 228 && hdr.len() == 16) || (link_type == 101
        && hdr.len() == 0)
}

/// Whether `ip` is an IPv4 header as long as its header length field says,
/// carrying `protocol`, for a datagram of `total` bytes.
pub open spec fn ip_header(ip: Seq<u8>, protocol: u8, total: int) -> bool {
    &&& ip.len() >= 20
    &&& ip.len() == 4 * (ip[0] % 16)
    &&& ip[9] == protocol
    &&& ip[2] * 256 + ip[3] == total
}

/// A TCP segment's payload is what follows its header, whose length is
/// four bytes times the data offset in the high nibble of byte 12: a frame
/// built of a link header, an IPv4 header, a TCP header with options and
/// the data yields exactly the data.
pub proof fn lemma_tcp_payload_follows_header(
    link_type: u16,
    hdr: Seq<u8>,
    ip: Seq<u8>,
    tcp: Seq<u8>,
    data: Seq<u8>,
)
    requires
        link_header(link_type, hdr),
        ip_header(ip, 6, (ip.len() + tcp.len() + data.len()) as int),
        tcp.len() >= 20,
        tcp.len() == 4 * (tcp[12] / 16),
    ensures
        payload_of(link_type, hdr + ip + tcp + data) == Some(data),
        !payload_out_of_order(link_type, hdr + ip + tcp + data),
{
    let f = hdr + ip + tcp + data;
    assert(ip_offset(link_type, f) == hdr.len());
    let o = hdr.len() as int;
    let ipd = f.subrange(o, f.len() as int);
    assert(ipd =~= ip + tcp + data);
    assert(ihl(ipd) == ip.len());
    assert(ip_end(ipd) == ipd.len());
    let seg = ipd.subrange(ihl(ipd), ip_end(ipd));
    assert(seg =~= tcp + data);
    assert(seg[12] == tcp[12]);
    assert(seg.subrange((seg[12] / 16) * 4, seg.len() as int) =~= data);
}

/// A UDP datagram's payload is what its length field covers after the
/// 8-byte header; bytes past the IP datagram (link padding) are not part
/// of it.
pub proof fn lemma_udp_payload_follows_header(
    link_type: u16,
    hdr: Seq<u8>,
    ip: Seq<u8>,
    udp: Seq<u8>,
    data: Seq<u8>,
    padding: Seq<u8>,
)
    requires
        link_header(link_type, hdr),
        ip_header(ip, 17, (ip.len() + udp.len() + data.len()) as int),
        udp.len() == 8,
        udp[4] * 256 + udp[5] == 8 + data.len(),
    ensures
        payload_of(link_type, hdr + ip + udp + data + padding) == Some(data),
        !payload_out_of_order(link_type, hdr + ip + udp + data + padding),
{
    let f = hdr + ip + udp + data + padding;
    assert(ip_offset(link_type, f) == hdr.len());
    let o = hdr.len() as int;
    let ipd = f.subrange(o, f.len() as int);
    assert(ipd =~= ip + udp + data + padding);
    assert(ihl(ipd) == ip.len());
    assert(ip_end(ipd) == ip.len() + 8 + data.len());
    let seg = ipd.subrange(ihl(ipd), ip_end(ipd));
    assert(seg =~= udp + data);
    assert(seg[4] == udp[4] && seg[5] == udp[5]);
    assert(seg.subrange(8, min_int(seg[4] * 256 + seg[5], seg.len() as int)) =~= data);
}

/// The payload is a contiguous run of the frame's bytes.
pub proof fn lemma_payload_is_part_of_frame(link_type: u16, packet: Seq<u8>)
    requires
        !payload_out_of_order(link_type, packet),
    ensures
        payload_of(link_type, packet) matches Some(x) ==> exists|i: int, j: int|
            0 <= i <= j <= packet.len() && x == #[trigger] packet.subrange(i, j),
{
    let o = ip_offset(link_type, packet);
    if let Some(x) = payload_of(link_type, packet) {
        let ip = packet.subrange(o, packet.len() as int);
        let h = ihl(ip);
        let e = ip_end(ip);
        let seg = ip.subrange(h, e);
        assert(0 <= o && 0 <= h <= e <= ip.len());
        if ip[9] == 17 {
            let ue = min_int(seg[4] * 256 + seg[5], seg.len() as int);
            assert(x =~= packet.subrange(o + h + 8, o + h + ue));
        } else {
            let t = (seg[12] / 16) * 4;
            assert(x =~= packet.subrange(o + h + t, o + e));
        }
    }
}

} // verus!
