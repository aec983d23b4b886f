//! The frame layer: request frame assembly and response frame parsing,
//! including transparent decompression of compressed payloads.

use vstd::prelude::*;
use crate::codec::{le16, le32, be32, le16_bytes, le32_bytes, bytes_to_u16_le, bytes_to_u32_le,
    u16_to_bytes_le, u32_to_bytes_le};
use crate::constants::{Control, MessageType, PREFIX, PREFIX_RESP, msg_type_u16,
    is_known_msg_type};

verus! {

/// What a full read of flate2's `ZlibDecoder` yields on `data`: the
/// decompressed bytes, or nothing when the stream is not valid zlib.
pub uninterp spec fn zlib_inflated(data: Seq<u8>) -> Option<Seq<u8>>;

/// Relies on flate2's `ZlibDecoder`: reading it to the end yields the
/// complete decompression of its input, deterministically in that input,
/// or fails.
#[verifier::external_body]
fn zlib_inflate(data: &[u8]) -> (r: Option<Vec<u8>>)
    ensures
        r is Some <==> zlib_inflated(data@) is Some,
        r matches Some(v) ==> zlib_inflated(data@) matches Some(s) && v@ == s,
{
    let mut decoder = flate2::read::ZlibDecoder::new(data);
    let mut out: Vec<u8> = Vec::new();
    match std::io::Read::read_to_end(&mut decoder, &mut out) {
        Ok(_) => Some(out),
        Err(_) => None,
    }
}

/// Why a frame could not be decoded.
#[derive(Debug, Clone, Copy, PartialEq, Eq, Structural)]
pub enum FrameError {
    /// The input ends before the layout does.
    InsufficientData,
    /// The fixed prefix is wrong.
    InvalidPrefix,
    /// The two length fields of a request disagree, or a payload is not
    /// as long as its header declares.
    LengthMismatch,
    /// The message-type tag is not one the protocol knows.
    UnknownMessageType(u16),
    /// The compressed payload is not valid zlib data.
    DecompressionError,
}

/// The exact bytes of a request frame: prefix, message id, control byte,
/// the payload length plus two stated twice, the type tag, the payload.
pub open spec fn request_frame_bytes(msg_id: u32, msg_type: MessageType, data: Seq<u8>) -> Seq<
    u8,
> {
    let length = ((data.len() + 2) % 0x10000) as u16;
    seq![PREFIX] + le32_bytes(msg_id) + seq![1u8] + le16_bytes(length) + le16_bytes(length)
        + le16_bytes(msg_type_u16(msg_type) as u16) + data
}

/// A request frame: correlation id, type tag and payload.
#[derive(Debug, Clone, PartialEq, Eq)]
pub struct RequestFrame {
    pub msg_id: u32,
    pub control: Control,
    pub msg_type: MessageType,
    pub data: Vec<u8>,
}

impl RequestFrame {
    /// Builds a request frame with the fixed control byte.
    pub fn new(msg_id: u32, msg_type: MessageType, data: Vec<u8>) -> (r: RequestFrame)
        ensures
            r.msg_id == msg_id,
            r.control == Control::Control01,
            r.msg_type == msg_type,
            r.data == data,
    {
        RequestFrame { msg_id, control: Control::Control01, msg_type, data }
    }

    /// Writes the frame in its wire form.
    pub fn encode(&self) -> (r: Vec<u8>)
        ensures
            r@ == request_frame_bytes(self.msg_id, self.msg_type, self.data@),
    {
        let trimmed: usize = self.data.len() % 0x10000;
        let sum: usize = trimmed + 2;
        let length: u16 = if sum >= 0x10000 {
            (sum - 0x10000) as u16
        } else {
            sum as u16
        };
        proof {
            vstd::arithmetic::div_mod::lemma_add_mod_noop(self.data@.len() as int, 2, 0x10000);
            assert(length as int == (self.data@.len() + 2) % 0x10000);
        }
        let mut r: Vec<u8> = Vec::new();
        r.push(PREFIX);
        let id_bytes: [u8; 4] = u32_to_bytes_le(self.msg_id);
        r.extend_from_slice(id_bytes.as_slice());
        r.push(self.control.as_u8());
        let len_bytes: [u8; 2] = u16_to_bytes_le(length);
        r.extend_from_slice(len_bytes.as_slice());
        r.extend_from_slice(len_bytes.as_slice());
        let type_bytes: [u8; 2] = u16_to_bytes_le(self.msg_type.as_u16());
        r.extend_from_slice(type_bytes.as_slice());
        r.extend_from_slice(self.data.as_slice());
        proof {
            assert(r@ =~= request_frame_bytes(self.msg_id, self.msg_type, self.data@));
        }
        r
    }

    /// Reads a request frame back from its wire form: the prefix must
    /// match, the two length fields must agree, the type must be known,
    /// and the input must cover the declared payload.
    pub fn decode(bytes: &[u8]) -> (r: Result<RequestFrame, FrameError>)
        ensures
            ({
                let s = bytes@;
                let data_len = if le16(s.skip(6)) >= 2 {
                    le16(s.skip(6)) - 2
                } else {
                    0int
                };
                &&& (s.len() < 12 ==> r == Err::<RequestFrame, FrameError>(
                    FrameError::InsufficientData,
                ))
                &&& (s.len() >= 12 && s[0] != PREFIX ==> r == Err::<RequestFrame, FrameError>(
                    FrameError::InvalidPrefix,
                ))
                &&& (s.len() >= 12 && s[0] == PREFIX && le16(s.skip(6)) != le16(s.skip(8)) ==> r
                    == Err::<RequestFrame, FrameError>(FrameError::LengthMismatch))
                &&& (s.len() >= 12 && s[0] == PREFIX && le16(s.skip(6)) == le16(s.skip(8))
                    && s.len() < 12 + data_len ==> r == Err::<RequestFrame, FrameError>(
                    FrameError::InsufficientData,
                ))
                &&& (s.len() >= 12 && s[0] == PREFIX && le16(s.skip(6)) == le16(s.skip(8))
                    && s.len() >= 12 + data_len && !is_known_msg_type(le16(s.skip(10))) ==> (r
                    matches Err(e) && e == FrameError::UnknownMessageType(
                    le16(s.skip(10)) as u16,
                )))
                &&& (s.len() >= 12 && s[0] == PREFIX && le16(s.skip(6)) == le16(s.skip(8))
                    && s.len() >= 12 + data_len && is_known_msg_type(le16(s.skip(10))) ==> (r
                    matches Ok(f) && f.msg_id as int == le32(s.skip(1)) && f.control
                    == Control::Control01 && msg_type_u16(f.msg_type) == le16(s.skip(10))
                    && f.data@ == s.subrange(12, 12 + data_len)))
            }),
    {
        if bytes.len() < 12 {
            return Err(FrameError::InsufficientData);
        }
        if bytes[0] != PREFIX {
            return Err(FrameError::InvalidPrefix);
        }
        let msg_id: u32 = bytes_to_u32_le(vstd::slice::slice_subrange(bytes, 1, bytes.len()));
        let length1: u16 = bytes_to_u16_le(vstd::slice::slice_subrange(bytes, 6, bytes.len()));
        let length2: u16 = bytes_to_u16_le(vstd::slice::slice_subrange(bytes, 8, bytes.len()));
        let msg_type_val: u16 = bytes_to_u16_le(
            vstd::slice::slice_subrange(bytes, 10, bytes.len()),
        );
        proof {
                    }
        if length1 != length2 {
            return Err(FrameError::LengthMismatch);
        }
        // The declared length counts the two type bytes as well.
        let data_length: usize = if length1 >= 2 {
            (length1 - 2) as usize
        } else {
            0
        };
        if bytes.len() < 12 + data_length {
            return Err(FrameError::InsufficientData);
        }
        let msg_type: MessageType = match MessageType::from_u16(msg_type_val) {
            Some(t) => t,
            None => {
                return Err(FrameError::UnknownMessageType(msg_type_val));
            },
        };
        let data: Vec<u8> = vstd::slice::slice_to_vec(
            vstd::slice::slice_subrange(bytes, 12, 12 + data_length),
        );
        Ok(RequestFrame { msg_id, control: Control::Control01, msg_type, data })
    }
}

/// A response frame: header fields and the payload, which may still be
/// compressed.
#[derive(Debug, Clone, PartialEq, Eq)]
pub struct ResponseFrame {
    pub prefix: u32,
    pub control: u8,
    pub msg_id: u32,
    pub unknown: u8,
    pub msg_type: MessageType,
    /// Payload bytes on the wire.
    pub zip_length: u16,
    /// Payload bytes after decompression.
    pub length: u16,
    pub data: Vec<u8>,
    /// Whether the payload has been decompressed and length-checked.
    pub decompressed: bool,
}

impl ResponseFrame {
    /// Assembles a response frame from already-parsed header fields and
    /// the raw payload, not yet decompressed.
    pub fn new(
        prefix: u32,
        control: u8,
        msg_id: u32,
        unknown: u8,
        msg_type: MessageType,
        zip_length: u16,
        length: u16,
        data: Vec<u8>,
    ) -> (r: ResponseFrame)
        ensures
            r.prefix == prefix,
            r.control == control,
            r.msg_id == msg_id,
            r.unknown == unknown,
            r.msg_type == msg_type,
            r.zip_length == zip_length,
            r.length == length,
            r.data == data,
            !r.is_decompressed(),
    {
        ResponseFrame {
            prefix,
            control,
            msg_id,
            unknown,
            msg_type,
            zip_length,
            length,
            data,
            decompressed: false,
        }
    }

    /// Whether the payload has been decompressed and length-checked.
    pub open spec fn is_decompressed(&self) -> bool {
        self.decompressed
    }

    /// Inflates the payload when the two length fields differ, and checks
    /// that what is left is exactly as long as declared. Idempotent.
    pub fn decompress(&mut self) -> (r: Result<(), FrameError>)
        ensures
            old(self).is_decompressed() ==> r is Ok && *final(self) == *old(self),
            !old(self).is_decompressed() ==> {
                let inflated = if old(self).zip_length != old(self).length {
                    zlib_inflated(old(self).data@)
                } else {
                    Some(old(self).data@)
                };
                &&& (r is Ok <==> (inflated matches Some(d) && d.len() == old(self).length))
                &&& (r is Ok ==> final(self).data@ == inflated->Some_0
                    && final(self).is_decompressed())
                &&& (inflated is None ==> r == Err::<(), FrameError>(
                    FrameError::DecompressionError,
                ) && *final(self) == *old(self))
                &&& (inflated matches Some(d) && d.len() != old(self).length ==> r == Err::<
                    (),
                    FrameError,
                >(FrameError::LengthMismatch) && !final(self).is_decompressed())
                &&& final(self).prefix == old(self).prefix
                &&& final(self).control == old(self).control
                &&& final(self).msg_id == old(self).msg_id
                &&& final(self).unknown == old(self).unknown
                &&& final(self).msg_type == old(self).msg_type
                &&& final(self).zip_length == old(self).zip_length
                &&& final(self).length == old(self).length
            },
    {
        if self.decompressed {
            return Ok(());
        }
        if self.zip_length != self.length {
            match zlib_inflate(self.data.as_slice()) {
                Some(d) => {
                    self.data = d;
                },
                None => {
                    return Err(FrameError::DecompressionError);
                },
            }
        }
        if self.data.len() != self.length as usize {
            return Err(FrameError::LengthMismatch);
        }
        self.decompressed = true;
        Ok(())
    }

    /// The payload bytes as they stand.
    pub fn data(&self) -> (r: &[u8])
        ensures
            r@ == self.data@,
    {
        self.data.as_slice()
    }

    /// Reads a response frame from its wire form and decompresses its
    /// payload: the big-endian prefix must match, the input must cover
    /// the declared wire payload, the type must be known, and the payload
    /// must inflate to exactly the declared length.
    pub fn decode(bytes: &[u8]) -> (r: Result<ResponseFrame, FrameError>)
        ensures
            ({
                let s = bytes@;
                let zip = le16(s.skip(12));
                let length = le16(s.skip(14));
                let payload = s.subrange(16, 16 + zip);
                let inflated = if zip != length {
                    zlib_inflated(payload)
                } else {
                    Some(payload)
                };
                let hdr_ok = s.len() >= 16 && be32(s) == PREFIX_RESP && s.len() >= 16 + zip
                    && is_known_msg_type(le16(s.skip(10)));
                &&& (s.len() < 16 ==> r == Err::<ResponseFrame, FrameError>(
                    FrameError::InsufficientData,
                ))
                &&& (s.len() >= 16 && be32(s) != PREFIX_RESP ==> r == Err::<
                    ResponseFrame,
                    FrameError,
                >(FrameError::InvalidPrefix))
                &&& (s.len() >= 16 && be32(s) == PREFIX_RESP && s.len() < 16 + zip ==> r == Err::<
                    ResponseFrame,
                    FrameError,
                >(FrameError::InsufficientData))
                &&& (s.len() >= 16 && be32(s) == PREFIX_RESP && s.len() >= 16 + zip
                    && !is_known_msg_type(le16(s.skip(10))) ==> (r matches Err(e) && e
                    == FrameError::UnknownMessageType(le16(s.skip(10)) as u16)))
                &&& (hdr_ok ==> (r is Ok <==> (inflated matches Some(d) && d.len()
                    == length)))
                &&& (hdr_ok ==> (r matches Ok(f) ==> f.prefix == PREFIX_RESP && f.control
                    == s[4] && f.msg_id as int == le32(s.skip(5)) && f.unknown == s[9]
                    && msg_type_u16(f.msg_type) == le16(s.skip(10)) && f.zip_length as int == zip
                    && f.length as int == length && f.data@ == inflated->Some_0
                    && f.is_decompressed()))
                &&& (hdr_ok && inflated is None ==> r == Err::<ResponseFrame, FrameError>(
                    FrameError::DecompressionError,
                ))
                &&& (hdr_ok && (inflated matches Some(d) && d.len() != length) ==> r == Err::<
                    ResponseFrame,
                    FrameError,
                >(FrameError::LengthMismatch))
            }),
    {
        if bytes.len() < 16 {
            return Err(FrameError::InsufficientData);
        }
        // The prefix is stored big-endian.
        let prefix: u32 = (bytes[0] as u32) * 0x100_0000 + (bytes[1] as u32) * 0x1_0000 + (
        bytes[2] as u32) * 0x100 + bytes[3] as u32;
        if prefix != PREFIX_RESP {
            return Err(FrameError::InvalidPrefix);
        }
        let control: u8 = bytes[4];
        let msg_id: u32 = bytes_to_u32_le(vstd::slice::slice_subrange(bytes, 5, bytes.len()));
        let unknown: u8 = bytes[9];
        let msg_type_val: u16 = bytes_to_u16_le(
            vstd::slice::slice_subrange(bytes, 10, bytes.len()),
        );
        let zip_length: u16 = bytes_to_u16_le(vstd::slice::slice_subrange(bytes, 12, bytes.len()));
        let length: u16 = bytes_to_u16_le(vstd::slice::slice_subrange(bytes, 14, bytes.len()));
        if bytes.len() < 16 + zip_length as usize {
            return Err(FrameError::InsufficientData);
        }
        let msg_type: MessageType = match MessageType::from_u16(msg_type_val) {
            Some(t) => t,
            None => {
                return Err(FrameError::UnknownMessageType(msg_type_val));
            },
        };
        let data: Vec<u8> = vstd::slice::slice_to_vec(
            vstd::slice::slice_subrange(bytes, 16, 16 + zip_length as usize),
        );
        let mut frame = ResponseFrame {
            prefix,
            control,
            msg_id,
            unknown,
            msg_type,
            zip_length,
            length,
            data,
            decompressed: false,
        };
        match frame.decompress() {
            Ok(()) => Ok(frame),
            Err(e) => Err(e),
        }
    }

    /// Whether the server marked the response successful (bit 4 of the
    /// control byte).
    pub fn is_success(&self) -> (r: bool)
        ensures
            r == ((self.control as int) / 0x10 % 2 == 1),
    {
        (self.control / 0x10) % 2 == 1
    }
}

/// No two message types share a wire tag.
pub proof fn lemma_msg_type_injective(t1: MessageType, t2: MessageType)
    requires
        msg_type_u16(t1) == msg_type_u16(t2),
    ensures
        t1 == t2,
{
}

/// Law: a request frame decodes back to itself. The bytes the encoder
/// writes satisfy every check of the decoder - prefix, agreeing length
/// fields, known type, full payload - and the fields the decoder reads
/// off them are the ones encoded, so long as the payload is short enough
/// for the length field not to wrap.
#[verifier::rlimit(100)]
pub proof fn lemma_request_frame_round_trip(msg_id: u32, msg_type: MessageType, data: Seq<u8>)
    requires
        data.len() + 2 < 0x10000,
    ensures
        ({
            let s = request_frame_bytes(msg_id, msg_type, data);
            &&& s.len() == 12 + data.len()
            &&& s[0] == PREFIX
            &&& le16(s.skip(6)) == data.len() + 2
            &&& le16(s.skip(6)) == le16(s.skip(8))
            &&& le16(s.skip(10)) == msg_type_u16(msg_type)
            &&& is_known_msg_type(le16(s.skip(10)))
            &&& le32(s.skip(1)) == msg_id
            &&& s.subrange(12, 12 + data.len() as int) == data
        }),
{
    let s = request_frame_bytes(msg_id, msg_type, data);
    let length = ((data.len() + 2) % 0x10000) as u16;
    assert(length == data.len() + 2);
    assert(s.len() == 12 + data.len());
    assert(s[0] == PREFIX);
    assert(s[6] == le16_bytes(length)[0] && s[7] == le16_bytes(length)[1]);
    assert(s[8] == le16_bytes(length)[0] && s[9] == le16_bytes(length)[1]);
    assert(le16(s.skip(6)) == length % 0x100 + 0x100 * (length / 0x100));
    assert(le16(s.skip(6)) == length);
    assert(le16(s.skip(8)) == length);
    let tv = (msg_type_u16(msg_type) as u16);
    assert(s[10] == le16_bytes(tv)[0] && s[11] == le16_bytes(tv)[1]);
    assert(le16(s.skip(10)) == tv % 0x100 + 0x100 * (tv / 0x100));
    assert(le16(s.skip(10)) == msg_type_u16(msg_type));
    assert(is_known_msg_type(le16(s.skip(10))));
    assert(s[1] == le32_bytes(msg_id)[0] && s[2] == le32_bytes(msg_id)[1] && s[3] == le32_bytes(
        msg_id,
    )[2] && s[4] == le32_bytes(msg_id)[3]);
    assert(le32(s.skip(1)) == msg_id % 0x100 + 0x100 * ((msg_id / 0x100) % 0x100) + 0x10000 * ((
    msg_id / 0x10000) % 0x100) + 0x1000000 * (msg_id / 0x1000000));
    assert(le32(s.skip(1)) == msg_id);
    assert(s.subrange(12, 12 + data.len() as int) =~= data);
}

} // verus!
