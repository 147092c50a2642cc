use albion_packets::capture::{extract_payload, payload_in_order};

fn ipv4(protocol: u8, transport: &[u8]) -> Vec<u8> {
    let total = (20 + transport.len()) as u16;
    let mut ip = vec![0x45, 0, (total >> 8) as u8, total as u8, 0, 0, 0, 0, 64, protocol, 0, 0, 10, 0, 0, 1, 10, 0, 0, 2];
    ip.extend(transport);
    ip
}

fn udp(payload: &[u8]) -> Vec<u8> {
    let len = (8 + payload.len()) as u16;
    let mut u = vec![0x13, 0xC0, 0x13, 0xC0, (len >> 8) as u8, len as u8, 0, 0];
    u.extend(payload);
    u
}

fn tcp(payload: &[u8]) -> Vec<u8> {
    let mut t = vec![0u8; 20];
    t[12] = 5 << 4;
    t.extend(payload);
    t
}

fn ethernet(ip: &[u8]) -> Vec<u8> {
    let mut f = vec![0u8; 12];
    f.extend([0x08, 0x00]);
    f.extend(ip);
    f
}

#[test]
fn udp_over_ethernet() {
    let frame = ethernet(&ipv4(17, &udp(b"hello")));
    assert!(payload_in_order(1, &frame));
    assert_eq!(extract_payload(1, &frame), Some(b"hello".to_vec()));
}

#[test]
fn tcp_over_raw_ip() {
    let frame = ipv4(6, &tcp(b"abc"));
    assert_eq!(extract_payload(101, &frame), Some(b"abc".to_vec()));
}

#[test]
fn linux_cooked_offset() {
    let mut frame = vec![0u8; 16];
    frame.extend(ipv4(17, &udp(b"x")));
    assert_eq!(extract_payload(228, &frame), Some(b"x".to_vec()));
}

#[test]
fn unknown_link_type_guesses_ethernet() {
    let frame = ethernet(&ipv4(17, &udp(b"guess")));
    assert_eq!(extract_payload(999, &frame), Some(b"guess".to_vec()));
}

#[test]
fn unknown_link_type_guesses_loopback() {
    let mut frame = vec![0x02, 0, 0, 0, 0, 0, 0, 0, 0, 0, 0, 0, 0, 0, 0, 0];
    frame.extend(ipv4(17, &udp(b"lo")));
    assert_eq!(extract_payload(999, &frame), Some(b"lo".to_vec()));
}

#[test]
fn udp_length_cuts_trailing_bytes() {
    let mut t = udp(b"ab");
    t.extend(b"zz");
    let mut ip = ipv4(17, &t);
    ip[3] = (20 + 12) as u8;
    let frame = ethernet(&ip);
    assert_eq!(extract_payload(1, &frame), Some(b"ab".to_vec()));
}

#[test]
fn ip_total_length_cuts_padding() {
    let mut frame = ethernet(&ipv4(17, &udp(b"ab")));
    frame.extend([0xEE; 6]);
    assert_eq!(extract_payload(1, &frame), Some(b"ab".to_vec()));
}

#[test]
fn too_short_or_other_protocol() {
    assert_eq!(extract_payload(1, &[0u8; 20]), None);
    let frame = ethernet(&ipv4(1, &[0u8; 8]));
    assert_eq!(extract_payload(1, &frame), None);
    let frame = ethernet(&ipv4(17, &[0u8; 4]));
    assert_eq!(extract_payload(1, &frame), None);
}

#[test]
fn out_of_order_frames_are_detected() {
    let mut ip = ipv4(17, &udp(b"ab"));
    ip[2] = 0;
    ip[3] = 10;
    assert!(!payload_in_order(1, &ethernet(&ip)));
    let mut u = udp(b"ab");
    u[5] = 3;
    assert!(!payload_in_order(1, &ethernet(&ipv4(17, &u))));
    let mut t = tcp(b"ab");
    t[12] = 0xF0;
    assert!(!payload_in_order(1, &ethernet(&ipv4(6, &t))));
}
