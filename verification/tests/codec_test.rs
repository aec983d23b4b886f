//! Tests for the primitive codec: little-endian helpers, the signed
//! varint, and the four-byte quasi-float.

use tdx::{bytes_to_u16_le, bytes_to_u32_le, decode_price, decode_varint, decode_volume2_scaled_floor,
    encode_varint, reverse_bytes, u16_to_bytes_le, u32_to_bytes_le};

#[test]
fn test_le_helpers() {
    assert_eq!(bytes_to_u16_le(&[0xC8, 0x01]), 456);
    assert_eq!(bytes_to_u16_le(&[0x01]), 0);
    assert_eq!(bytes_to_u32_le(&[0x78, 0x56, 0x34, 0x12]), 0x12345678);
    assert_eq!(bytes_to_u32_le(&[1, 2, 3]), 0);
    assert_eq!(u16_to_bytes_le(456), [0xC8, 0x01]);
    assert_eq!(u32_to_bytes_le(0x12345678), [0x78, 0x56, 0x34, 0x12]);
    assert_eq!(reverse_bytes(&[1, 2, 3]), vec![3, 2, 1]);
}

#[test]
fn test_varint_single_byte() {
    assert_eq!(decode_varint(&[]), (0, 0));
    assert_eq!(decode_varint(&[0x01]), (1, 1));
    assert_eq!(decode_varint(&[0x3F]), (63, 1));
    // bit 6 of the first byte is the sign
    assert_eq!(decode_varint(&[0x45]), (-5, 1));
    assert_eq!(encode_varint(1), vec![0x01]);
    assert_eq!(encode_varint(-5), vec![0x45]);
    assert_eq!(encode_varint(0), vec![0x00]);
}

#[test]
fn test_varint_continuation() {
    // 1000 = 40 + 64 * 15: six low bits in the first byte, seven per
    // continuation byte
    assert_eq!(encode_varint(1000), vec![0xA8, 0x0F]);
    assert_eq!(decode_varint(&[0xA8, 0x0F]), (1000, 2));
    assert_eq!(decode_varint(&[0xA8, 0x0F, 0x77]), (1000, 2));
    assert_eq!(encode_varint(-1000), vec![0xE8, 0x0F]);
    assert_eq!(decode_varint(&[0xE8, 0x0F]), (-1000, 2));
}

#[test]
fn test_varint_round_trip_all_widths() {
    let samples: [i32; 16] = [
        0,
        1,
        -1,
        63,
        -63,
        64,
        -64,
        8191,
        -8191,
        100_000,
        -100_000,
        1_048_576,
        i32::MAX,
        i32::MIN + 1,
        i32::MIN,
        -2_000_000_000,
    ];
    for v in samples {
        let enc = encode_varint(v);
        assert!(enc.len() <= 5);
        let (back, used) = decode_varint(&enc);
        assert_eq!(back, v);
        assert_eq!(used, enc.len());
    }
}

#[test]
fn test_decode_price() {
    let enc = encode_varint(12345);
    let (p, used) = decode_price(&enc);
    assert_eq!(p.0, 12345);
    assert_eq!(used, enc.len());
}

#[test]
fn test_volume2_zero_word_is_base_case() {
    // All-zero bytes mean a mantissa of exactly 2^23 at binary exponent
    // -150: a tiny positive number, whose floor is zero, not an error.
    assert_eq!(decode_volume2_scaled_floor(&[0, 0, 0, 0], 1), 0);
    assert_eq!(decode_volume2_scaled_floor(&[0, 0, 0, 0], 1000), 0);
}

#[test]
fn test_volume2_known_values() {
    // Exponent byte 75 puts the scaled mantissa at exactly 2^23.
    assert_eq!(decode_volume2_scaled_floor(&[0, 0, 0, 75], 1), 8_388_608);
    assert_eq!(decode_volume2_scaled_floor(&[0, 0, 0, 75], 1000), 8_388_608_000);
    // A high-part byte below 0x80 contributes its value at 2^16.
    assert_eq!(decode_volume2_scaled_floor(&[0, 0, 1, 75], 1), 8_388_608 + 65_536);
    // Short input decodes to zero rather than failing.
    assert_eq!(decode_volume2_scaled_floor(&[0, 0, 0], 1), 0);
}

#[test]
fn test_volume2_matches_float_formula() {
    // Cross-check the integer decoder against the quasi-float formula
    // evaluated in floating point.
    let cases: [[u8; 4]; 6] = [
        [0x00, 0x00, 0x00, 0x00],
        [0x12, 0x34, 0x56, 0x4B],
        [0xFF, 0xFF, 0xFF, 0x4B],
        [0x00, 0x00, 0x80, 0x4B],
        [0x01, 0x02, 0x90, 0x50],
        [0x55, 0x66, 0x77, 0x45],
    ];
    for bytes in cases {
        let val = u32::from_le_bytes(bytes) as i32;
        let logpoint = (val >> 24) as i32;
        let hleax = ((val >> 16) & 0xff) as i32;
        let lheax = ((val >> 8) & 0xff) as i32;
        let lleax = (val & 0xff) as i32;
        let dw_ecx = logpoint * 2 - 0x7f;
        let dbl_xmm6 = 2_f64.powi(dw_ecx);
        let dbl_xmm4 = if hleax > 0x80 {
            dbl_xmm6 * (64.0 + (hleax & 0x7f) as f64) / 64.0
        } else {
            dbl_xmm6 * hleax as f64 / 128.0
        };
        let scale = if (hleax & 0x80) != 0 { 2.0 } else { 1.0 };
        let dbl_xmm3 = dbl_xmm6 * lheax as f64 / 32768.0 * scale;
        let dbl_xmm1 = dbl_xmm6 * lleax as f64 / 8388608.0 * scale;
        let expected = dbl_xmm6 + dbl_xmm4 + dbl_xmm3 + dbl_xmm1;
        assert!(!expected.is_nan());
        assert_eq!(decode_volume2_scaled_floor(&bytes, 1), expected as i64);
        assert_eq!(decode_volume2_scaled_floor(&bytes, 1000), (expected * 1000.0) as i64);
    }
}
