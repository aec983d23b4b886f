//! Tests for the frame layer: request assembly, response parsing and
//! transparent decompression.

use tdx::{FrameError, MessageType, RequestFrame, ResponseFrame, PREFIX};

fn sample_request(msg_type: MessageType, data: Vec<u8>) -> RequestFrame {
    RequestFrame::new(7, msg_type, data)
}

#[test]
fn test_request_frame_encode_layout() {
    let frame = sample_request(MessageType::Count, vec![0xAA, 0xBB]);
    let bytes = frame.encode();
    assert_eq!(bytes[0], PREFIX);
    assert_eq!(&bytes[1..5], &[7, 0, 0, 0]);
    assert_eq!(bytes[5], 0x01);
    // length = payload + 2, stated twice
    assert_eq!(&bytes[6..8], &[4, 0]);
    assert_eq!(&bytes[8..10], &[4, 0]);
    assert_eq!(&bytes[10..12], &[0x4E, 0x04]);
    assert_eq!(&bytes[12..], &[0xAA, 0xBB]);
}

#[test]
fn test_request_frame_round_trip_every_type() {
    let types = [
        MessageType::Connect,
        MessageType::Heart,
        MessageType::Gbbq,
        MessageType::Count,
        MessageType::Code,
        MessageType::Quote,
        MessageType::Minute,
        MessageType::CallAuction,
        MessageType::MinuteTrade,
        MessageType::HistoryMinute,
        MessageType::HistoryMinuteTrade,
        MessageType::Kline,
    ];
    for t in types {
        let frame = sample_request(t, vec![1, 2, 3, 4, 5]);
        let bytes = frame.encode();
        let back = RequestFrame::decode(&bytes).unwrap();
        assert_eq!(back.msg_id, frame.msg_id);
        assert_eq!(back.msg_type, frame.msg_type);
        assert_eq!(back.data, frame.data);
    }
}

#[test]
fn test_request_frame_decode_errors() {
    assert_eq!(RequestFrame::decode(&[0x0C, 0, 0]), Err(FrameError::InsufficientData));
    let mut bytes = sample_request(MessageType::Count, vec![]).encode();
    bytes[0] = 0x0B;
    assert_eq!(RequestFrame::decode(&bytes), Err(FrameError::InvalidPrefix));
    let mut bytes = sample_request(MessageType::Count, vec![]).encode();
    bytes[8] = 99;
    assert_eq!(RequestFrame::decode(&bytes), Err(FrameError::LengthMismatch));
    let mut bytes = sample_request(MessageType::Count, vec![]).encode();
    bytes[10] = 0x99;
    bytes[11] = 0x99;
    assert_eq!(RequestFrame::decode(&bytes), Err(FrameError::UnknownMessageType(0x9999)));
    // a frame that declares more payload than it carries
    let mut bytes = sample_request(MessageType::Count, vec![]).encode();
    bytes[6] = 50;
    bytes[8] = 50;
    assert_eq!(RequestFrame::decode(&bytes), Err(FrameError::InsufficientData));
}

fn response_bytes(msg_id: u32, control: u8, type_bytes: [u8; 2], zip: &[u8], length: u16) -> Vec<u8> {
    let mut bytes: Vec<u8> = vec![0xB1, 0xCB, 0x74, 0x00];
    bytes.push(control);
    bytes.extend_from_slice(&msg_id.to_le_bytes());
    bytes.push(0);
    bytes.extend_from_slice(&type_bytes);
    bytes.extend_from_slice(&(zip.len() as u16).to_le_bytes());
    bytes.extend_from_slice(&length.to_le_bytes());
    bytes.extend_from_slice(zip);
    bytes
}

#[test]
fn test_response_frame_plain_payload() {
    let payload: Vec<u8> = vec![0xC8, 0x01];
    let bytes = response_bytes(3, 0x10, [0x4E, 0x04], &payload, 2);
    let frame = ResponseFrame::decode(&bytes).unwrap();
    assert_eq!(frame.msg_id, 3);
    assert_eq!(frame.msg_type, MessageType::Count);
    assert_eq!(frame.zip_length, 2);
    assert_eq!(frame.length, 2);
    assert_eq!(frame.data(), &payload[..]);
    assert!(frame.is_success());
}

#[test]
fn test_response_frame_compressed_payload() {
    let payload: Vec<u8> = (0..200u8).map(|b| b % 7).collect();
    let mut encoder = flate2::write::ZlibEncoder::new(Vec::new(), flate2::Compression::default());
    std::io::Write::write_all(&mut encoder, &payload).unwrap();
    let compressed = encoder.finish().unwrap();
    assert_ne!(compressed.len(), payload.len());
    let bytes = response_bytes(9, 0x1C, [0x2D, 0x05], &compressed, payload.len() as u16);
    let frame = ResponseFrame::decode(&bytes).unwrap();
    assert_eq!(frame.msg_type, MessageType::Kline);
    assert_eq!(frame.data(), &payload[..]);
}

#[test]
fn test_response_frame_errors() {
    assert_eq!(ResponseFrame::decode(&[0xB1, 0xCB]), Err(FrameError::InsufficientData));
    let payload: Vec<u8> = vec![1, 2, 3];
    let mut bytes = response_bytes(1, 0x10, [0x4E, 0x04], &payload, 3);
    bytes[0] = 0x00;
    assert_eq!(ResponseFrame::decode(&bytes), Err(FrameError::InvalidPrefix));
    // bytes that are not zlib data at all, with lengths that demand
    // decompression
    let garbage: Vec<u8> = vec![0x00, 0x11, 0x22];
    let bytes = response_bytes(1, 0x10, [0x4E, 0x04], &garbage, 50);
    assert_eq!(ResponseFrame::decode(&bytes), Err(FrameError::DecompressionError));
    // valid zlib data that inflates to a length other than the declared one
    let mut encoder = flate2::write::ZlibEncoder::new(Vec::new(), flate2::Compression::default());
    std::io::Write::write_all(&mut encoder, &payload).unwrap();
    let compressed = encoder.finish().unwrap();
    let bytes = response_bytes(1, 0x10, [0x4E, 0x04], &compressed, 50);
    assert_eq!(ResponseFrame::decode(&bytes), Err(FrameError::LengthMismatch));
}

#[test]
fn test_response_is_success_bit() {
    let payload: Vec<u8> = vec![0, 0];
    let bytes = response_bytes(1, 0x0C, [0x4E, 0x04], &payload, 2);
    let frame = ResponseFrame::decode(&bytes).unwrap();
    assert!(!frame.is_success());
}
