//! End-to-end protocol scenarios on the recorded wire shapes: the
//! handshake, the keep-alive, the count and list requests, and a full
//! quote round.

use tdx::{Code, Connect, Count, Exchange, Heartbeat, MessageType, Quote, RequestFrame,
    ResponseFrame, PREFIX};

fn hex(s: &str) -> Vec<u8> {
    let compact: String = s.chars().filter(|c| !c.is_whitespace()).collect();
    let bytes = compact.as_bytes();
    let mut out: Vec<u8> = Vec::new();
    let mut i = 0;
    while i + 1 < bytes.len() {
        let hi = (bytes[i] as char).to_digit(16).unwrap() as u8;
        let lo = (bytes[i + 1] as char).to_digit(16).unwrap() as u8;
        out.push(hi * 16 + lo);
        i += 2;
    }
    out
}

fn wrap_response(msg_id: u32, type_bytes: [u8; 2], payload: &[u8]) -> Vec<u8> {
    let mut bytes: Vec<u8> = vec![0xB1, 0xCB, 0x74, 0x00, 0x10];
    bytes.extend_from_slice(&msg_id.to_le_bytes());
    bytes.push(0);
    bytes.extend_from_slice(&type_bytes);
    bytes.extend_from_slice(&(payload.len() as u16).to_le_bytes());
    bytes.extend_from_slice(&(payload.len() as u16).to_le_bytes());
    bytes.extend_from_slice(payload);
    bytes
}

#[test]
fn test_connect_request() {
    let request_bytes = hex("0C 01 00 00 00 01 03 00 03 00 0D 00 01");
    assert_eq!(request_bytes[0], PREFIX);
    assert_eq!(request_bytes.len(), 13);

    let frame = RequestFrame::decode(&request_bytes).unwrap();
    assert_eq!(frame.msg_id, 1);
    assert_eq!(frame.msg_type, MessageType::Connect);
    assert_eq!(frame.data, vec![0x01]);

    let connect_frame = Connect::request(1);
    let encoded = connect_frame.encode();
    assert_eq!(encoded, request_bytes);
}

#[test]
fn test_connect_response() {
    // 68 bytes of server metadata, then a GBK banner
    let mut payload: Vec<u8> = vec![0; 68];
    payload.extend_from_slice(&[0xBB, 0xB6, 0xD3, 0xAD]); // "welcome" in GBK
    let response_bytes = wrap_response(1, [0x0D, 0x00], &payload);

    let response = ResponseFrame::decode(&response_bytes).unwrap();
    assert!(response.is_success());
    assert_eq!(response.msg_type, MessageType::Connect);

    let info = Connect::decode_response(response.data()).unwrap();
    assert!(!info.is_empty());
    assert_eq!(info, "\u{6b22}\u{8fce}");
}

#[test]
fn test_heartbeat_request() {
    let request_bytes = hex("0C 02 00 00 00 01 02 00 02 00 04 00");
    assert_eq!(request_bytes[0], PREFIX);

    let frame = RequestFrame::decode(&request_bytes).unwrap();
    assert_eq!(frame.msg_type, MessageType::Heart);
    assert!(frame.data.is_empty());

    let heartbeat_frame = Heartbeat::request(2);
    let encoded = heartbeat_frame.encode();
    assert_eq!(encoded, request_bytes);
}

#[test]
fn test_count_request() {
    let count_frame = Count::request(3, Exchange::SZ);
    let encoded = count_frame.encode();
    assert_eq!(encoded[0], PREFIX);
    assert_eq!(encoded[5], 0x01);
    assert_eq!(&encoded[10..12], &[0x4E, 0x04]);
    assert_eq!(&encoded[12..], &hex("00 00 75 C7 33 01")[..]);
    assert_eq!(encoded.len(), 12 + 6);

    let frame = RequestFrame::decode(&encoded).unwrap();
    assert_eq!(frame.msg_type, MessageType::Count);
    assert_eq!(frame.data.len(), 6);
}

#[test]
fn test_count_response() {
    let payload: Vec<u8> = vec![0xC8, 0x01];
    let response_bytes = wrap_response(3, [0x4E, 0x04], &payload);
    let response = ResponseFrame::decode(&response_bytes).unwrap();
    assert!(response.is_success());
    assert_eq!(response.msg_type, MessageType::Count);

    let count = Count::decode_response(response.data()).unwrap();
    assert_eq!(count, 456);

    // boundary counts of one and zero parse as well
    assert_eq!(Count::decode_response(&[1, 0]), Ok(1));
    assert_eq!(Count::decode_response(&[0, 0]), Ok(0));
    assert!(Count::decode_response(&[7]).is_err());
}

#[test]
fn test_code_request() {
    let code_frame = Code::request(4, Exchange::SZ, 0);
    let encoded = code_frame.encode();
    assert_eq!(encoded[0], PREFIX);
    assert_eq!(encoded[5], 0x01);
    assert_eq!(&encoded[10..12], &[0x50, 0x04]);
    assert_eq!(&encoded[12..], &hex("00 00 00 00")[..]);

    let frame = RequestFrame::decode(&encoded).unwrap();
    assert_eq!(frame.msg_type, MessageType::Code);
    assert_eq!(frame.data.len(), 4);
}

#[test]
fn test_quote_request() {
    let quote_frame = Quote::request(5, &[String::from("sz000001"), String::from("sh600008")])
        .unwrap();
    let encoded = quote_frame.encode();

    let frame = RequestFrame::decode(&encoded).unwrap();
    assert_eq!(frame.msg_type, MessageType::Quote);
    assert_eq!(&frame.data[..8], &hex("05 00 00 00 00 00 00 00")[..]);
    assert_eq!(&frame.data[8..10], &[0x02, 0x00]);
    assert_eq!(&frame.data[10..], &hex("00 30 30 30 30 30 31 01 36 30 30 30 30 38")[..]);
}

#[test]
fn test_quote_response() {
    // a one-record quote payload with close 12.34 yuan
    let mut payload: Vec<u8> = vec![0, 0, 1, 0, 0];
    payload.extend_from_slice(b"000001");
    payload.extend_from_slice(&0u16.to_le_bytes());
    for d in [1234, 0, 0, 0, 0, 0, 0, 0, 0] {
        payload.extend_from_slice(&tdx::encode_varint(d));
    }
    payload.extend_from_slice(&[0, 0, 0, 0]);
    for d in [0, 0, 0, 0] {
        payload.extend_from_slice(&tdx::encode_varint(d));
    }
    for _ in 0..5 {
        for d in [0, 0, 0, 0] {
            payload.extend_from_slice(&tdx::encode_varint(d));
        }
    }
    payload.extend_from_slice(&[0, 0]);
    for d in [0, 0, 0, 0] {
        payload.extend_from_slice(&tdx::encode_varint(d));
    }
    payload.extend_from_slice(&0u16.to_le_bytes());
    payload.extend_from_slice(&0u16.to_le_bytes());

    let response_bytes = wrap_response(5, [0x3E, 0x05], &payload);
    let response = ResponseFrame::decode(&response_bytes).unwrap();
    assert!(response.is_success());
    assert_eq!(response.msg_type, MessageType::Quote);

    let quotes = Quote::decode_response(response.data()).unwrap();
    assert!(quotes.len() >= 1);
    assert_eq!(quotes[0].code, "000001");
    assert_eq!(quotes[0].k.close.0, 12_340);
}

#[test]
fn test_frame_decode_all() {
    let requests: Vec<Vec<u8>> = vec![
        Connect::request(1).encode(),
        Heartbeat::request(2).encode(),
        Count::request(3, Exchange::SZ).encode(),
        Code::request(4, Exchange::SZ, 0).encode(),
        Quote::request(5, &[String::from("sz000001")]).unwrap().encode(),
    ];
    for request_bytes in requests {
        assert_eq!(request_bytes[0], PREFIX);
        let frame = RequestFrame::decode(&request_bytes).unwrap();
        let again = frame.encode();
        assert_eq!(again, request_bytes);
    }

    let responses: Vec<Vec<u8>> = vec![
        wrap_response(3, [0x4E, 0x04], &[0xC8, 0x01]),
        wrap_response(4, [0x50, 0x04], &[0x00, 0x00]),
    ];
    for response_bytes in responses {
        let response = ResponseFrame::decode(&response_bytes).unwrap();
        assert!(response.is_success() || response.control == 0x0C);
    }
}
