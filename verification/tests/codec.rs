use rsyncd_core::frame::{msg_from_header, msg_to_header, RsyncMessage};
use rsyncd_core::socket::{ReceiveError, RsyncSocket, SendError};
use rsyncd_core::varint::{read_varlong, write_varlong};

fn encode(value: u64, min_size: usize) -> Vec<u8> {
    let mut buf = Vec::new();
    write_varlong(value, min_size, &mut buf);
    buf
}

#[test]
fn varint_zero_min3_is_three_zero_bytes() {
    assert_eq!(encode(0, 3), vec![0x00, 0x00, 0x00]);
}

#[test]
fn varint_small_value_min3() {
    // 0xFF fits the minimum width: marker byte carries the (zero) top
    // byte, then the low bytes little-endian.
    assert_eq!(encode(0xFF, 3), vec![0x00, 0xFF, 0x00]);
}

#[test]
fn varint_420_min3() {
    assert_eq!(encode(420, 3), vec![0x00, 0xA4, 0x01]);
}

#[test]
fn varint_deadbeef_min3_has_two_length_bits() {
    // Two length bits set in the marker, then the four value bytes.
    assert_eq!(encode(0xDEADBEEF, 3), vec![0xC0, 0xEF, 0xBE, 0xAD, 0xDE]);
}

#[test]
fn varint_five_ff_bytes_min3() {
    assert_eq!(
        encode(0xFF_FFFF_FFFF, 3),
        vec![0xE0, 0xFF, 0xFF, 0xFF, 0xFF, 0xFF]
    );
}

#[test]
fn varint_round_trip_samples() {
    let values = [
        0u64,
        1,
        127,
        128,
        255,
        256,
        420,
        0xDEAD,
        0xDEADBEEF,
        0xFF_FFFF_FFFF,
        u64::MAX,
    ];
    for &v in values.iter() {
        for min in 1..=8usize {
            let field = encode(v, min);
            let (decoded, used) = read_varlong(&field, min).unwrap();
            assert_eq!(decoded, v);
            assert_eq!(used, field.len());
        }
    }
}

#[test]
fn varint_round_trip_with_trailing_bytes() {
    let mut field = encode(0xDEADBEEF, 3);
    field.push(0x55);
    field.push(0x66);
    let (decoded, used) = read_varlong(&field, 3).unwrap();
    assert_eq!(decoded, 0xDEADBEEF);
    assert_eq!(used, 5);
}

#[test]
fn varint_truncated_field_is_an_error() {
    // The marker announces two extra bytes that never arrive.
    assert_eq!(
        read_varlong(&[0xC0, 0xEF, 0xBE], 3),
        Err(ReceiveError::TruncatedVarint)
    );
    assert_eq!(read_varlong(&[], 3), Err(ReceiveError::TruncatedVarint));
}

#[test]
fn data_frame_header_tag_byte_is_seven() {
    let header = msg_to_header(&RsyncMessage::Data {
        data: vec![1, 2, 3],
    });
    assert_eq!(header, [3, 0, 0, 0x07]);
}

#[test]
fn header_round_trip() {
    let header = msg_to_header(&RsyncMessage::Data {
        data: vec![0; 0x012345],
    });
    let (tag, len) = msg_from_header(&header);
    assert_eq!(tag, 0);
    assert_eq!(len, 0x012345);
}

#[test]
fn frame_round_trip_through_sockets() {
    let payload: Vec<u8> = (0u16..300).map(|x| (x % 256) as u8).collect();
    let mut sender = RsyncSocket::new();
    sender.set_multiplex_out(true);
    sender
        .send_message(&RsyncMessage::Data {
            data: payload.clone(),
        })
        .unwrap();
    let wire = sender.take_output();

    let mut receiver = RsyncSocket::new();
    receiver.set_multiplex_in(true);
    receiver.feed(&wire);
    match receiver.read_message().unwrap() {
        RsyncMessage::Data { data } => assert_eq!(data, payload),
        other => panic!("expected Data, got {:?}", other),
    }
}

#[test]
fn raw_read_while_multiplexed_is_refused() {
    let mut socket = RsyncSocket::new();
    socket.set_multiplex_in(true);
    socket.feed(b"hello\n");
    assert!(matches!(
        socket.read_raw_until(0x0A),
        Err(ReceiveError::RawReadWhileMultiplexed)
    ));
}

#[test]
fn read_message_while_not_multiplexed_is_refused() {
    let mut socket = RsyncSocket::new();
    socket.feed(&[1, 0, 0, 7, 0xAA]);
    assert!(matches!(
        socket.read_message(),
        Err(ReceiveError::ReadMessageWhileNotMultiplexed)
    ));
}

#[test]
fn non_data_while_raw_is_refused_on_send() {
    let mut socket = RsyncSocket::new();
    assert_eq!(
        socket.send_message(&RsyncMessage::Noop),
        Err(SendError::NonDataWhileNotMultiplexed)
    );
}

#[test]
fn unknown_tag_is_unsupported() {
    let mut socket = RsyncSocket::new();
    socket.set_multiplex_in(true);
    // Logical tag 18 (wire byte 25) names nothing.
    socket.feed(&[0, 0, 0, 25]);
    assert!(matches!(
        socket.read_message(),
        Err(ReceiveError::UnsupportedMessageType)
    ));
}

#[test]
fn known_non_data_tags_parse_as_their_kinds() {
    let mut socket = RsyncSocket::new();
    socket.set_multiplex_in(true);
    // Logical tag 13 is Noop (wire byte 20), no payload.
    socket.feed(&[0, 0, 0, 20]);
    assert!(matches!(socket.read_message(), Ok(RsyncMessage::Noop)));
}

#[test]
fn read_int_is_big_endian() {
    let mut socket = RsyncSocket::new();
    socket.set_multiplex_in(true);
    socket.feed(&[4, 0, 0, 7, 0x01, 0x02, 0x03, 0x04]);
    assert_eq!(socket.read_int(), Ok(0x01020304));
    socket.feed(&[4, 0, 0, 7, 0xFF, 0xFF, 0xFF, 0xFE]);
    assert_eq!(socket.read_int(), Ok(-2));
}

#[test]
fn read_int_short_payload_is_invalid() {
    let mut socket = RsyncSocket::new();
    socket.set_multiplex_in(true);
    socket.feed(&[2, 0, 0, 7, 0x01, 0x02]);
    assert_eq!(socket.read_int(), Err(ReceiveError::Invalid));
}

#[test]
fn read_raw_until_returns_line_with_delimiter() {
    let mut socket = RsyncSocket::new();
    socket.feed(b"hello\nrest");
    assert_eq!(socket.read_raw_until(0x0A).unwrap(), b"hello\n".to_vec());
    // The rest stays buffered, and with no delimiter the read reports Io.
    assert!(matches!(socket.read_raw_until(0x0A), Err(ReceiveError::Io)));
}

#[test]
fn raw_send_passes_data_verbatim() {
    let mut socket = RsyncSocket::new();
    socket.send_data(b"abc").unwrap();
    assert_eq!(socket.take_output(), b"abc".to_vec());
}

#[test]
fn wire_tag_subtraction_wraps() {
    // A wire tag byte below 7 wraps around when the offset is undone.
    let (tag, len) = msg_from_header(&[0, 0, 0, 3]);
    assert_eq!(tag, 252);
    assert_eq!(len, 0);
}

#[test]
fn session_write_varlong_matches_the_codec() {
    let mut a = Vec::new();
    rsyncd_core::session::Rsync::write_varlong(420, 3, &mut a);
    let mut b = Vec::new();
    write_varlong(420, 3, &mut b);
    assert_eq!(a, b);
}
