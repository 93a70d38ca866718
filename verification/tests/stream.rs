use bytes::BytesMut;
use ezvpn::signaling::DataMessageType;
use ezvpn::stream::{
    classify, copy_packet_to_arena, encode_server_addrs_frame, frame_body_len, prepare_ip_datagrams,
    DatagramSendOutcome, Frame, SendResult, FRAME_LEN_PREFIX, MAX_FRAME_BODY,
};
use ezvpn::virtio::VirtioNetHdr;

/// Split an encoded frame into (body_len, body), validating the prefix.
fn split_frame(buf: &[u8]) -> (usize, &[u8]) {
    let len = u32::from_be_bytes(buf[..4].try_into().expect("prefix")) as usize;
    assert_eq!(buf.len(), FRAME_LEN_PREFIX + len, "prefix matches body");
    (len, &buf[FRAME_LEN_PREFIX..])
}

#[test]
fn test_classify_empty_and_unknown() {
    assert!(classify(&[]).is_err());
    assert!(classify(&[0x7f]).is_err());
}

#[test]
fn test_server_addrs_frame_roundtrip() {
    let addrs = vec!["203.0.113.5".to_string(), "2001:db8::1".to_string()];
    let msg = serde_json::to_vec(&addrs).expect("encode message");
    let mut buf = BytesMut::new();
    let written = encode_server_addrs_frame(&mut buf, &msg).expect("encode");
    assert_eq!(written, buf.len());
    let (_, body) = split_frame(&buf);
    assert_eq!(body[0], DataMessageType::ServerAddrs.as_byte());

    match classify(body).expect("classify") {
        Frame::ServerAddrs(payload) => {
            let decoded: Vec<String> = serde_json::from_slice(payload).expect("decode body");
            assert_eq!(decoded, addrs);
        }
    }
}

#[test]
fn test_datagram_outcome_add() {
    let mut a = DatagramSendOutcome {
        sent: 1,
        dropped_too_large: 2,
        dropped_other: 3,
    };
    a.add(DatagramSendOutcome {
        sent: 10,
        dropped_too_large: 20,
        dropped_other: 30,
    });
    assert_eq!(a.sent, 11);
    assert_eq!(a.dropped_too_large, 22);
    assert_eq!(a.dropped_other, 33);
}

#[test]
fn outcomes_are_recorded() {
    let mut a = DatagramSendOutcome { sent: 0, dropped_too_large: 0, dropped_other: 0 };
    a.record(SendResult::Sent);
    a.record(SendResult::Sent);
    a.record(SendResult::TooLarge);
    a.record(SendResult::Failed);
    assert_eq!(a, DatagramSendOutcome { sent: 2, dropped_too_large: 1, dropped_other: 1 });
}

#[test]
fn control_frames_are_refused_with_a_reason() {
    assert_eq!(classify(&[]).unwrap_err().message(), "Empty frame body");
    assert_eq!(classify(&[0x7f]).unwrap_err().message(), "Unknown frame message type: 0x7f");
    assert_eq!(classify(&[0x00]).unwrap_err().message(), "Unknown frame message type: 0x00");
    assert_eq!(frame_body_len(&[0, 0, 0, 5]).unwrap(), 5);
    assert_eq!(frame_body_len(&[0, 1, 0, 11]).unwrap(), MAX_FRAME_BODY);
    assert_eq!(
        frame_body_len(&[0, 0, 0, 0]).unwrap_err().message(),
        "Invalid frame length 0 (max 65547)"
    );
    assert_eq!(
        frame_body_len(&[0, 1, 0, 12]).unwrap_err().message(),
        "Invalid frame length 65548 (max 65547)"
    );
    let mut buf = BytesMut::new();
    let err = encode_server_addrs_frame(&mut buf, &vec![0; MAX_FRAME_BODY]).unwrap_err();
    assert_eq!(err.message(), "Server addrs frame too large: 65548 > 65547");
    assert!(buf.is_empty());
}

#[test]
fn packets_are_copied_out_of_the_arena() {
    let mut arena = BytesMut::new();
    let a = copy_packet_to_arena(&mut arena, &[1, 2, 3]);
    let b = copy_packet_to_arena(&mut arena, &[9; 70_000]);
    assert_eq!(&a[..], &[1, 2, 3]);
    assert_eq!(b.len(), 70_000);
    assert!(arena.is_empty());
}

#[test]
fn datagrams_are_held_against_the_limit() {
    let mut arena = BytesMut::new();
    let mut pending = Vec::new();
    let mut outcome = DatagramSendOutcome { sent: 0, dropped_too_large: 0, dropped_other: 0 };
    prepare_ip_datagrams(|| Some(100), &mut arena, &mut pending, None, &[0x45; 100], &mut outcome);
    assert_eq!(pending.len(), 1);
    assert_eq!(&pending[0][..], &[0x45; 100]);

    let mut pending = Vec::new();
    prepare_ip_datagrams(|| Some(99), &mut arena, &mut pending, None, &[0x45; 100], &mut outcome);
    prepare_ip_datagrams(|| None, &mut arena, &mut pending, None, &[0x45; 100], &mut outcome);
    let bad = VirtioNetHdr {
        flags: 0,
        gso_type: 9,
        hdr_len: 0,
        gso_size: 0,
        csum_start: 0,
        csum_offset: 0,
        num_buffers: 0,
    };
    prepare_ip_datagrams(
        || Some(1000),
        &mut arena,
        &mut pending,
        Some(&bad),
        &[0x45; 100],
        &mut outcome,
    );
    assert!(pending.is_empty());
    assert_eq!(
        outcome,
        DatagramSendOutcome { sent: 0, dropped_too_large: 1, dropped_other: 2 }
    );
}
