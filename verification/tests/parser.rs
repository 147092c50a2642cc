use albion_packets::deserializer::PhotonValue;
use albion_packets::parser::{PhotonMessage, PhotonParser};

fn header(flags: u8, count: u8) -> Vec<u8> {
    vec![0, 1, flags, count, 0, 0, 0, 0, 0, 0, 0, 0]
}

fn command(cmd_type: u8, data: &[u8]) -> Vec<u8> {
    let len = (12 + data.len()) as u32;
    let mut v = vec![cmd_type, 0, 0, 0];
    v.extend(len.to_be_bytes());
    v.extend([0, 0, 0, 1]);
    v.extend(data);
    v
}

fn reliable(msg_type: u8, payload: &[u8]) -> Vec<u8> {
    let mut v = vec![0, msg_type];
    v.extend(payload);
    v
}

fn fragment(seq: u32, total: u32, offset: u32, data: &[u8]) -> Vec<u8> {
    let mut v = Vec::new();
    v.extend(seq.to_be_bytes());
    v.extend(2u32.to_be_bytes());
    v.extend(0u32.to_be_bytes());
    v.extend(total.to_be_bytes());
    v.extend(offset.to_be_bytes());
    v.extend(data);
    v
}

fn packet(commands: &[Vec<u8>]) -> Vec<u8> {
    let mut p = header(0, commands.len() as u8);
    for c in commands {
        p.extend(c);
    }
    p
}

fn expect_request(m: &PhotonMessage, op: u8, key: u8, val: PhotonValue) {
    match m {
        PhotonMessage::Request { op_code, params } => {
            assert_eq!(*op_code, op);
            assert_eq!(params.get(&key), Some(&val));
        }
        other => panic!("unexpected {:?}", other),
    }
}

#[test]
fn short_packet_yields_nothing() {
    let mut parser = PhotonParser::new();
    assert!(parser.receive_packet(&[0; 11]).is_empty());
}

#[test]
fn encrypted_packet() {
    let mut parser = PhotonParser::new();
    let msgs = parser.receive_packet(&header(1, 3));
    assert_eq!(msgs.len(), 1);
    assert!(matches!(msgs[0], PhotonMessage::Encrypted));
}

#[test]
fn reliable_request_and_event() {
    let mut parser = PhotonParser::new();
    let p = packet(&[
        command(6, &reliable(2, &[7, 1, 1, 3, 42])),
        command(6, &reliable(4, &[9, 1, 2, 28])),
    ]);
    let msgs = parser.receive_packet(&p);
    assert_eq!(msgs.len(), 2);
    expect_request(&msgs[0], 7, 1, PhotonValue::Byte(42));
    match &msgs[1] {
        PhotonMessage::Event { code, params } => {
            assert_eq!(*code, 9);
            assert_eq!(params.get(&2), Some(&PhotonValue::Bool(true)));
        }
        other => panic!("unexpected {:?}", other),
    }
}

#[test]
fn response_with_debug_message() {
    let mut parser = PhotonParser::new();
    let p = packet(&[command(6, &reliable(3, &[9, 2, 0, 7, 1, b'm', 1, 4, 3, 8]))]);
    let msgs = parser.receive_packet(&p);
    assert_eq!(msgs.len(), 1);
    match &msgs[0] {
        PhotonMessage::Response { op_code, return_code, debug_message, params } => {
            assert_eq!((*op_code, *return_code, debug_message.as_str()), (9, 2, "m"));
            assert_eq!(params.get(&4), Some(&PhotonValue::Byte(8)));
        }
        other => panic!("unexpected {:?}", other),
    }
}

#[test]
fn response_with_string_array_goes_to_parameter_zero() {
    let mut parser = PhotonParser::new();
    let p = packet(&[command(6, &reliable(7, &[9, 0xFF, 0xFF, 0x47, 2, 1, b'a', 1, b'b']))]);
    let msgs = parser.receive_packet(&p);
    assert_eq!(msgs.len(), 1);
    match &msgs[0] {
        PhotonMessage::Response { op_code, return_code, debug_message, params } => {
            assert_eq!((*op_code, *return_code, debug_message.as_str()), (9, -1, ""));
            assert_eq!(params.len(), 1);
            assert_eq!(
                params.get(&0),
                Some(&PhotonValue::Array(vec![PhotonValue::String("a".to_string()), PhotonValue::String("b".to_string())]))
            );
        }
        other => panic!("unexpected {:?}", other),
    }
}

#[test]
fn short_messages_are_dropped() {
    let mut parser = PhotonParser::new();
    let p = packet(&[command(6, &reliable(2, &[])), command(6, &reliable(3, &[1, 2])), command(6, &reliable(9, &[1]))]);
    assert!(parser.receive_packet(&p).is_empty());
}

#[test]
fn encrypted_message() {
    let mut parser = PhotonParser::new();
    let p = packet(&[command(6, &reliable(131, &[1, 2, 3]))]);
    let msgs = parser.receive_packet(&p);
    assert_eq!(msgs.len(), 1);
    assert!(matches!(msgs[0], PhotonMessage::Encrypted));
}

#[test]
fn unreliable_skips_sequence_number() {
    let mut parser = PhotonParser::new();
    let mut body = vec![0, 0, 0, 5];
    body.extend(reliable(2, &[7, 1, 1, 3, 42]));
    let p = packet(&[command(7, &body)]);
    let msgs = parser.receive_packet(&p);
    assert_eq!(msgs.len(), 1);
    expect_request(&msgs[0], 7, 1, PhotonValue::Byte(42));
}

#[test]
fn short_unreliable_stops_the_packet() {
    let mut parser = PhotonParser::new();
    let p = packet(&[command(7, &[0, 0]), command(6, &reliable(2, &[7, 1, 1, 3, 42]))]);
    assert!(parser.receive_packet(&p).is_empty());
}

#[test]
fn disconnect_and_unknown_commands_are_skipped() {
    let mut parser = PhotonParser::new();
    let p = packet(&[command(4, &[1, 2, 3]), command(99, &[]), command(6, &reliable(2, &[7, 1, 1, 3, 42]))]);
    let msgs = parser.receive_packet(&p);
    assert_eq!(msgs.len(), 1);
    expect_request(&msgs[0], 7, 1, PhotonValue::Byte(42));
}

#[test]
fn bad_command_length_stops_the_packet() {
    let mut parser = PhotonParser::new();
    let mut bad = command(6, &[]);
    bad[4..8].copy_from_slice(&5u32.to_be_bytes());
    let p = packet(&[bad, command(6, &reliable(2, &[7, 1, 1, 3, 42]))]);
    assert!(parser.receive_packet(&p).is_empty());
    let mut long = command(6, &reliable(2, &[7, 0]));
    long[4..8].copy_from_slice(&100u32.to_be_bytes());
    assert!(parser.receive_packet(&packet(&[long])).is_empty());
}

#[test]
fn fewer_commands_than_announced() {
    let mut parser = PhotonParser::new();
    let mut p = packet(&[command(6, &reliable(2, &[7, 1, 1, 3, 42]))]);
    p[3] = 5;
    let msgs = parser.receive_packet(&p);
    assert_eq!(msgs.len(), 1);
}

#[test]
fn fragments_in_order() {
    let mut parser = PhotonParser::new();
    let message = reliable(2, &[7, 1, 1, 3, 42]);
    let (a, b) = message.split_at(3);
    let total = message.len() as u32;
    assert!(parser.receive_packet(&packet(&[command(8, &fragment(77, total, 0, a))])).is_empty());
    let msgs = parser.receive_packet(&packet(&[command(8, &fragment(77, total, 3, b))]));
    assert_eq!(msgs.len(), 1);
    expect_request(&msgs[0], 7, 1, PhotonValue::Byte(42));
}

#[test]
fn fragments_out_of_order() {
    let mut parser = PhotonParser::new();
    let message = reliable(2, &[7, 1, 1, 3, 42]);
    let (a, b) = message.split_at(3);
    let total = message.len() as u32;
    assert!(parser.receive_packet(&packet(&[command(8, &fragment(5, total, 3, b))])).is_empty());
    let msgs = parser.receive_packet(&packet(&[command(8, &fragment(5, total, 0, a))]));
    assert_eq!(msgs.len(), 1);
    expect_request(&msgs[0], 7, 1, PhotonValue::Byte(42));
    // The sequence was removed once complete: a new first fragment starts over.
    assert!(parser.receive_packet(&packet(&[command(8, &fragment(5, total, 0, a))])).is_empty());
}

#[test]
fn other_commands_leave_pending_fragments_alone() {
    let mut parser = PhotonParser::new();
    let message = reliable(2, &[7, 1, 1, 3, 42]);
    let (a, b) = message.split_at(4);
    let total = message.len() as u32;
    assert!(parser.receive_packet(&packet(&[command(8, &fragment(6, total, 0, a))])).is_empty());
    let between = packet(&[command(4, &[]), command(6, &reliable(4, &[9])), command(1, &[1, 2])]);
    assert_eq!(parser.receive_packet(&between).len(), 1);
    let msgs = parser.receive_packet(&packet(&[command(8, &fragment(6, total, 4, b))]));
    assert_eq!(msgs.len(), 1);
    expect_request(&msgs[0], 7, 1, PhotonValue::Byte(42));
}

#[test]
fn three_fragments_in_every_order() {
    let message = reliable(2, &[7, 1, 1, 3, 42]);
    let total = message.len() as u32;
    let pieces = [(0u32, &message[0..2]), (2, &message[2..5]), (5, &message[5..])];
    let orders = [[0, 1, 2], [0, 2, 1], [1, 0, 2], [1, 2, 0], [2, 0, 1], [2, 1, 0]];
    for order in orders {
        let mut parser = PhotonParser::new();
        for (n, &k) in order.iter().enumerate() {
            let (at, data) = pieces[k];
            let msgs = parser.receive_packet(&packet(&[command(8, &fragment(40, total, at, data))]));
            if n < 2 {
                assert!(msgs.is_empty());
            } else {
                assert_eq!(msgs.len(), 1);
                expect_request(&msgs[0], 7, 1, PhotonValue::Byte(42));
            }
        }
    }
}

#[test]
fn fragments_in_one_packet_and_interleaved_sequences() {
    let mut parser = PhotonParser::new();
    let m1 = reliable(2, &[7, 1, 1, 3, 42]);
    let m2 = reliable(4, &[9, 1, 2, 28]);
    let p = packet(&[
        command(8, &fragment(1, m1.len() as u32, 0, &m1[..2])),
        command(8, &fragment(2, m2.len() as u32, 0, &m2[..1])),
        command(8, &fragment(2, m2.len() as u32, 1, &m2[1..])),
        command(8, &fragment(1, m1.len() as u32, 2, &m1[2..])),
    ]);
    let msgs = parser.receive_packet(&p);
    assert_eq!(msgs.len(), 2);
    assert!(matches!(msgs[0], PhotonMessage::Event { code: 9, .. }));
    expect_request(&msgs[1], 7, 1, PhotonValue::Byte(42));
}

#[test]
fn fragment_outside_buffer_counts_but_is_not_copied() {
    let mut parser = PhotonParser::new();
    let message = reliable(2, &[7, 1, 1, 3, 42]);
    let total = message.len() as u32;
    // Lands past the end of the buffer: not written, but its length counts,
    // so the message completes at once with zeros (type 0: nothing to deliver).
    let msgs = parser.receive_packet(&packet(&[command(8, &fragment(3, total, 100, &message))]));
    assert!(msgs.is_empty());
    let msgs = parser.receive_packet(&packet(&[command(8, &fragment(3, total, 0, &message))]));
    assert_eq!(msgs.len(), 1);
}

#[test]
fn short_fragment_header_is_skipped() {
    let mut parser = PhotonParser::new();
    let p = packet(&[command(8, &[1, 2, 3]), command(6, &reliable(2, &[7, 1, 1, 3, 42]))]);
    let msgs = parser.receive_packet(&p);
    assert_eq!(msgs.len(), 1);
}

#[test]
fn default_parser_is_empty() {
    let mut parser = PhotonParser::default();
    let message = reliable(2, &[7, 0]);
    let msgs = parser.receive_packet(&packet(&[command(8, &fragment(9, message.len() as u32, 0, &message))]));
    assert_eq!(msgs.len(), 1);
}
