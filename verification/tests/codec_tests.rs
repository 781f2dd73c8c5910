use simply_files::simply_packet::{Chunk, JsonData, Packet, PacketError};

fn enc(p: &Packet) -> Vec<u8> {
    p.to_bytes()
}

#[test]
fn binary_chunk_round_trip() {
    let p = Packet::Binary(Chunk { idx: 3, size: 5, data: vec![10, 20, 30, 40, 50] });
    let bytes = enc(&p);
    assert_eq!(bytes[0], 0);
    // big-endian u64 index 3
    assert_eq!(&bytes[1..9], &[0, 0, 0, 0, 0, 0, 0, 3]);
    // big-endian u64 size 5
    assert_eq!(&bytes[9..17], &[0, 0, 0, 0, 0, 0, 0, 5]);
    assert_eq!(&bytes[17..], &[10, 20, 30, 40, 50]);
    match Packet::from_bytes(&bytes) {
        Ok(Packet::Binary(c)) => {
            assert_eq!(c.idx, 3);
            assert_eq!(c.size, 5);
            assert_eq!(c.data, vec![10, 20, 30, 40, 50]);
        }
        other => panic!("decoded wrongly: {:?}", other.map(|p| p.packet_type())),
    }
}

#[test]
fn next_ack_round_trip() {
    let bytes = enc(&Packet::Next);
    assert_eq!(bytes, vec![2]);
    assert!(matches!(Packet::from_bytes(&bytes), Ok(Packet::Next)));
}

#[test]
fn json_envelopes_round_trip() {
    let cases: Vec<(JsonData, u8)> = vec![
        (JsonData::ConnectionAccepted, 0),
        (JsonData::InitializeUpload(b"{\"name\":\"a\"}".to_vec()), 1),
        (JsonData::ReadyForUpload(b"{\"chunk_index\":0}".to_vec()), 2),
        (JsonData::SetChunkIndex(b"{\"chunk_index\":1}".to_vec()), 3),
        (JsonData::UploadComplete(b"{}".to_vec()), 4),
    ];
    for (j, tag) in cases {
        assert_eq!(j.data_type(), tag);
        let bytes = enc(&Packet::Json(j));
        assert_eq!(bytes[0], 1);
        assert_eq!(bytes[1], tag);
        match Packet::from_bytes(&bytes) {
            Ok(Packet::Json(back)) => {
                assert_eq!(back.data_type(), tag);
                assert_eq!(back.to_bytes(), bytes[1..].to_vec());
            }
            other => panic!("decoded wrongly: {:?}", other.map(|p| p.packet_type())),
        }
    }
}

#[test]
fn truncations_of_binary_fail() {
    let p = Packet::Binary(Chunk { idx: 0, size: 3, data: vec![7, 8, 9] });
    let bytes = enc(&p);
    for m in 0..bytes.len() {
        match Packet::from_bytes(&bytes[..m]) {
            Err(PacketError::MissingBytes) | Err(PacketError::InvalidByteAccess) => {}
            other => panic!("truncation to {} did not fail: {:?}", m, other.is_ok()),
        }
    }
}

#[test]
fn truncations_of_next_and_accepted_fail() {
    for p in [Packet::Next, Packet::Json(JsonData::ConnectionAccepted)] {
        let bytes = enc(&p);
        for m in 0..bytes.len() {
            match Packet::from_bytes(&bytes[..m]) {
                Err(PacketError::MissingBytes) | Err(PacketError::InvalidByteAccess) => {}
                other => panic!("truncation to {} did not fail: {:?}", m, other.is_ok()),
            }
        }
    }
}

#[test]
fn empty_input_is_missing_bytes() {
    assert!(matches!(
        Packet::from_bytes(&[]),
        Err(PacketError::MissingBytes)
    ));
}

#[test]
fn unknown_kind_is_invalid_packet_type() {
    assert!(matches!(
        Packet::from_bytes(&[9, 0, 0]),
        Err(PacketError::InvalidPacketType)
    ));
}

#[test]
fn unknown_tag_is_invalid_data_type() {
    assert!(matches!(
        Packet::from_bytes(&[1, 9, b'{']),
        Err(PacketError::InvalidDataType)
    ));
}

#[test]
fn chunk_with_announced_size_beyond_payload_is_missing_bytes() {
    // idx 0, size 4, but only 2 payload bytes
    let mut bytes = vec![0u8];
    bytes.extend_from_slice(&[0, 0, 0, 0, 0, 0, 0, 0]);
    bytes.extend_from_slice(&[0, 0, 0, 0, 0, 0, 0, 4]);
    bytes.extend_from_slice(&[1, 2]);
    assert!(matches!(
        Packet::from_bytes(&bytes),
        Err(PacketError::MissingBytes)
    ));
}

#[test]
fn chunk_with_payload_beyond_announced_size_is_invalid_byte_access() {
    // idx 0, size 1, but 3 payload bytes
    let mut bytes = vec![0u8];
    bytes.extend_from_slice(&[0, 0, 0, 0, 0, 0, 0, 0]);
    bytes.extend_from_slice(&[0, 0, 0, 0, 0, 0, 0, 1]);
    bytes.extend_from_slice(&[1, 2, 3]);
    assert!(matches!(
        Packet::from_bytes(&bytes),
        Err(PacketError::InvalidByteAccess)
    ));
}

#[test]
fn next_with_body_is_invalid_byte_access() {
    assert!(matches!(
        Packet::from_bytes(&[2, 0]),
        Err(PacketError::InvalidByteAccess)
    ));
}

#[test]
fn connection_accepted_with_payload_is_invalid_byte_access() {
    assert!(matches!(
        Packet::from_bytes(&[1, 0, 0]),
        Err(PacketError::InvalidByteAccess)
    ));
}
