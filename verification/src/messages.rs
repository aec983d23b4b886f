//! Per-message encode and decode logic: one request builder and one
//! response decoder for each message type the protocol knows.

use vstd::prelude::*;
use vstd::string::*;
use crate::codec::{le16, le32, le16_bytes, le32_bytes, bytes_to_u16_le, bytes_to_u32_le,
    u16_to_bytes_le, u32_to_bytes_le, decode_varint_at, varint_len, varint_mag, varint_value,
    vol2_scaled_floor, sat_i64, decode_volume2_scaled_floor};
use crate::constants::{Exchange, KlineType, MessageType, exchange_u8, exchange_str,
    kline_type_u8, is_intraday_kline_type};
use crate::frame::RequestFrame;
use crate::text::{lower_chars, to_ascii_lower, trimmed_nuls, gbk_decoded, gbk_to_utf8,
    utf8_lossy, utf8_lossy_chars};
use crate::types::{StockCode, Price, PriceLevel};

verus! {

/// Why a message payload could not be built or decoded.
#[derive(Debug, Clone, PartialEq, Eq)]
pub enum MessageError {
    /// The payload ends before a record does.
    InsufficientData,
    /// A symbol code has no exchange prefix or the wrong length; carries
    /// the offending code, lowercased.
    InvalidCode(String),
    /// A field violates its own format; carries a short description.
    ParseError(String),
}

// --- symbol codes ---

/// Whether a lowercased symbol is well-formed: a two-letter exchange
/// prefix and at least six more characters.
pub open spec fn code_valid(lc: Seq<char>) -> bool {
    &&& lc.len() >= 8
    &&& (lc.subrange(0, 2) == exchange_str(Exchange::SZ) || lc.subrange(0, 2) == exchange_str(
        Exchange::SH,
    ) || lc.subrange(0, 2) == exchange_str(Exchange::BJ))
}

/// The exchange a well-formed lowercased symbol names.
pub open spec fn code_exchange(lc: Seq<char>) -> Exchange {
    if lc.subrange(0, 2) == exchange_str(Exchange::SH) {
        Exchange::SH
    } else if lc.subrange(0, 2) == exchange_str(Exchange::BJ) {
        Exchange::BJ
    } else {
        Exchange::SZ
    }
}

/// The digits of a symbol: everything after the exchange prefix.
pub open spec fn code_num(lc: Seq<char>) -> Seq<char> {
    lc.skip(2)
}

/// Splits a symbol such as "sz000001" into its exchange and its digits.
/// The code is lowercased first; it is refused when shorter than two
/// characters, when its prefix names no exchange, or when it is shorter
/// than eight characters.
pub fn decode_code(code: &str) -> (r: Result<(Exchange, String), MessageError>)
    ensures
        ({
            let lc = lower_chars(code@);
            &&& (r is Ok <==> code_valid(lc))
            &&& (r matches Ok(p) ==> p.0 == code_exchange(lc) && p.1@ == code_num(lc))
            &&& (r matches Err(e) ==> e matches MessageError::InvalidCode(c) && c@ == lc)
        }),
{
    let lower: String = to_ascii_lower(code);
    let n: usize = lower.as_str().unicode_len();
    if n < 2 {
        return Err(MessageError::InvalidCode(lower));
    }
    let c0: char = lower.as_str().get_char(0);
    let c1: char = lower.as_str().get_char(1);
    let exchange: Exchange = if c0 == 's' && c1 == 'h' {
        Exchange::SH
    } else if c0 == 's' && c1 == 'z' {
        Exchange::SZ
    } else if c0 == 'b' && c1 == 'j' {
        Exchange::BJ
    } else {
        return Err(MessageError::InvalidCode(lower));
    };
    if n < 8 {
        return Err(MessageError::InvalidCode(lower));
    }
    proof {
        let lc = lower_chars(code@);
        assert(lc.subrange(0, 2) =~= seq![c0, c1]);
        assert(exchange_str(Exchange::SZ) =~= seq!['s', 'z']);
        assert(exchange_str(Exchange::SH) =~= seq!['s', 'h']);
        assert(exchange_str(Exchange::BJ) =~= seq!['b', 'j']);
        assert(code_valid(lc));
        assert(code_exchange(lc) == exchange);
    }
    let num: &str = lower.as_str().substring_char(2, n);
    Ok((exchange, num.to_owned()))
}

/// A lowercased code with the exchange prefix supplied where it is
/// missing: a leading 6 or 9 places the symbol in Shanghai, 0, 3 or 2 in
/// Shenzhen, 4 or 8 in Beijing, anything else in Shenzhen.
pub open spec fn add_prefix_chars(lc: Seq<char>) -> Seq<char> {
    if lc.len() >= 2 && (lc.subrange(0, 2) == exchange_str(Exchange::SZ) || lc.subrange(0, 2)
        == exchange_str(Exchange::SH) || lc.subrange(0, 2) == exchange_str(Exchange::BJ)) {
        lc
    } else if lc.len() >= 1 && (lc[0] == '6' || lc[0] == '9') {
        exchange_str(Exchange::SH) + lc
    } else if lc.len() >= 1 && (lc[0] == '0' || lc[0] == '3' || lc[0] == '2') {
        exchange_str(Exchange::SZ) + lc
    } else if lc.len() >= 1 && (lc[0] == '4' || lc[0] == '8') {
        exchange_str(Exchange::BJ) + lc
    } else {
        exchange_str(Exchange::SZ) + lc
    }
}

/// Lowercases a code and prepends the exchange prefix its leading digit
/// implies, when it does not already carry one.
pub fn add_prefix(code: &str) -> (r: String)
    ensures
        r@ == add_prefix_chars(lower_chars(code@)),
{
    let lower: String = to_ascii_lower(code);
    let n: usize = lower.as_str().unicode_len();
    proof {
        assert(exchange_str(Exchange::SZ) =~= seq!['s', 'z']);
        assert(exchange_str(Exchange::SH) =~= seq!['s', 'h']);
        assert(exchange_str(Exchange::BJ) =~= seq!['b', 'j']);
        reveal_strlit("sh");
        reveal_strlit("sz");
        reveal_strlit("bj");
    }
    if n >= 2 {
        let c0: char = lower.as_str().get_char(0);
        let c1: char = lower.as_str().get_char(1);
        if (c0 == 's' && (c1 == 'z' || c1 == 'h')) || (c0 == 'b' && c1 == 'j') {
            proof {
                assert(lower@.subrange(0, 2) =~= seq![c0, c1]);
            }
            return lower;
        }
        proof {
            assert(lower@.subrange(0, 2) =~= seq![c0, c1]);
        }
    }
    let head: char = if n >= 1 {
        lower.as_str().get_char(0)
    } else {
        ' '
    };
    let prefix: &str = if head == '6' || head == '9' {
        "sh"
    } else if head == '0' || head == '3' || head == '2' {
        "sz"
    } else if head == '4' || head == '8' {
        "bj"
    } else {
        "sz"
    };
    let r = prefix.to_owned().concat(lower.as_str());
    proof {
        assert(r@ =~= add_prefix_chars(lower_chars(code@)));
    }
    r
}

/// Whether a prefixed code names an ordinary stock: Shanghai symbols
/// starting 6, Shenzhen 0 or 3, Beijing 4 or 8.
pub open spec fn is_stock_chars(full: Seq<char>) -> bool {
    &&& full.len() >= 8
    &&& if full.subrange(0, 2) == exchange_str(Exchange::SH) {
        full[2] == '6'
    } else if full.subrange(0, 2) == exchange_str(Exchange::SZ) {
        full[2] == '0' || full[2] == '3'
    } else if full.subrange(0, 2) == exchange_str(Exchange::BJ) {
        full[2] == '4' || full[2] == '8'
    } else {
        false
    }
}

/// Whether a prefixed code names an exchange-traded fund: Shanghai 51,
/// 56 or 58, Shenzhen 15 or 16.
pub open spec fn is_etf_chars(full: Seq<char>) -> bool {
    &&& full.len() >= 8
    &&& if full.subrange(0, 2) == exchange_str(Exchange::SH) {
        full[2] == '5' && (full[3] == '1' || full[3] == '6' || full[3] == '8')
    } else if full.subrange(0, 2) == exchange_str(Exchange::SZ) {
        full[2] == '1' && (full[3] == '5' || full[3] == '6')
    } else {
        false
    }
}

/// Whether a prefixed code names an index: Shanghai 000 or 880, Shenzhen
/// 399, Beijing 899.
pub open spec fn is_index_chars(full: Seq<char>) -> bool {
    &&& full.len() >= 8
    &&& if full.subrange(0, 2) == exchange_str(Exchange::SH) {
        (full[2] == '0' && full[3] == '0' && full[4] == '0') || (full[2] == '8' && full[3] == '8'
            && full[4] == '0')
    } else if full.subrange(0, 2) == exchange_str(Exchange::SZ) {
        full[2] == '3' && full[3] == '9' && full[4] == '9'
    } else if full.subrange(0, 2) == exchange_str(Exchange::BJ) {
        full[2] == '8' && full[3] == '9' && full[4] == '9'
    } else {
        false
    }
}

/// Classifies the prefixed form of `code` by its exchange and leading
/// digit, as `is_stock_chars` says.
pub fn is_stock(code: &str) -> (r: bool)
    ensures
        r == is_stock_chars(add_prefix_chars(lower_chars(code@))),
{
    let full: String = add_prefix(code);
    let n: usize = full.as_str().unicode_len();
    proof {
        assert(exchange_str(Exchange::SZ) =~= seq!['s', 'z']);
        assert(exchange_str(Exchange::SH) =~= seq!['s', 'h']);
        assert(exchange_str(Exchange::BJ) =~= seq!['b', 'j']);
    }
    if n < 8 {
        return false;
    }
    let c0: char = full.as_str().get_char(0);
    let c1: char = full.as_str().get_char(1);
    let c2: char = full.as_str().get_char(2);
    proof {
        assert(full@.subrange(0, 2) =~= seq![c0, c1]);
    }
    if c0 == 's' && c1 == 'h' {
        c2 == '6'
    } else if c0 == 's' && c1 == 'z' {
        c2 == '0' || c2 == '3'
    } else if c0 == 'b' && c1 == 'j' {
        c2 == '4' || c2 == '8'
    } else {
        false
    }
}

/// Classifies the prefixed form of `code` as `is_etf_chars` says.
pub fn is_etf(code: &str) -> (r: bool)
    ensures
        r == is_etf_chars(add_prefix_chars(lower_chars(code@))),
{
    let full: String = add_prefix(code);
    let n: usize = full.as_str().unicode_len();
    proof {
        assert(exchange_str(Exchange::SZ) =~= seq!['s', 'z']);
        assert(exchange_str(Exchange::SH) =~= seq!['s', 'h']);
        assert(exchange_str(Exchange::BJ) =~= seq!['b', 'j']);
    }
    if n < 8 {
        return false;
    }
    let c0: char = full.as_str().get_char(0);
    let c1: char = full.as_str().get_char(1);
    let c2: char = full.as_str().get_char(2);
    let c3: char = full.as_str().get_char(3);
    proof {
        assert(full@.subrange(0, 2) =~= seq![c0, c1]);
    }
    if c0 == 's' && c1 == 'h' {
        c2 == '5' && (c3 == '1' || c3 == '6' || c3 == '8')
    } else if c0 == 's' && c1 == 'z' {
        c2 == '1' && (c3 == '5' || c3 == '6')
    } else {
        false
    }
}

/// Classifies the prefixed form of `code` as `is_index_chars` says.
pub fn is_index(code: &str) -> (r: bool)
    ensures
        r == is_index_chars(add_prefix_chars(lower_chars(code@))),
{
    let full: String = add_prefix(code);
    let n: usize = full.as_str().unicode_len();
    proof {
        assert(exchange_str(Exchange::SZ) =~= seq!['s', 'z']);
        assert(exchange_str(Exchange::SH) =~= seq!['s', 'h']);
        assert(exchange_str(Exchange::BJ) =~= seq!['b', 'j']);
    }
    if n < 8 {
        return false;
    }
    let c0: char = full.as_str().get_char(0);
    let c1: char = full.as_str().get_char(1);
    let c2: char = full.as_str().get_char(2);
    let c3: char = full.as_str().get_char(3);
    let c4: char = full.as_str().get_char(4);
    proof {
        assert(full@.subrange(0, 2) =~= seq![c0, c1]);
    }
    if c0 == 's' && c1 == 'h' {
        (c2 == '0' && c3 == '0' && c4 == '0') || (c2 == '8' && c3 == '8' && c4 == '0')
    } else if c0 == 's' && c1 == 'z' {
        c2 == '3' && c3 == '9' && c4 == '9'
    } else if c0 == 'b' && c1 == 'j' {
        c2 == '8' && c3 == '9' && c4 == '9'
    } else {
        false
    }
}

// --- connect and heartbeat ---

/// The connection handshake message.
pub struct Connect;

impl Connect {
    /// Builds the handshake request; its payload is the single byte 1.
    pub fn request(msg_id: u32) -> (r: RequestFrame)
        ensures
            r.msg_id == msg_id,
            r.msg_type == MessageType::Connect,
            r.data@ =~= seq![1u8],
    {
        RequestFrame::new(msg_id, MessageType::Connect, vec![0x01])
    }

    /// Reads the handshake response: 68 bytes of server metadata, then a
    /// GBK banner, which is returned transcoded.
    pub fn decode_response(data: &[u8]) -> (r: Result<String, MessageError>)
        ensures
            r is Ok <==> data@.len() >= 68,
            r matches Ok(info) ==> info@ == trimmed_nuls(gbk_decoded(data@.skip(68))),
            r is Err ==> r == Err::<String, MessageError>(MessageError::InsufficientData),
    {
        if data.len() < 68 {
            return Err(MessageError::InsufficientData);
        }
        let tail: &[u8] = vstd::slice::slice_subrange(data, 68, data.len());
        proof {
            assert(tail@ =~= data@.skip(68));
        }
        Ok(gbk_to_utf8(tail))
    }
}

/// The keep-alive message; its response carries nothing of interest.
pub struct Heartbeat;

impl Heartbeat {
    /// Builds the keep-alive request; it has no payload.
    pub fn request(msg_id: u32) -> (r: RequestFrame)
        ensures
            r.msg_id == msg_id,
            r.msg_type == MessageType::Heart,
            r.data@.len() == 0,
    {
        RequestFrame::new(msg_id, MessageType::Heart, Vec::new())
    }
}

// --- symbol count ---

/// The symbol-count message.
pub struct Count;

/// The payload of a symbol-count request: the exchange byte, a zero,
/// and a fixed four-byte tail.
pub open spec fn count_request_data(exchange: Exchange) -> Seq<u8> {
    seq![exchange_u8(exchange) as u8, 0u8, 0x75u8, 0xC7u8, 0x33u8, 0x01u8]
}

impl Count {
    /// Builds the symbol-count request for one exchange.
    pub fn request(msg_id: u32, exchange: Exchange) -> (r: RequestFrame)
        ensures
            r.msg_id == msg_id,
            r.msg_type == MessageType::Count,
            r.data@ == count_request_data(exchange),
    {
        let data: Vec<u8> = vec![exchange.as_u8(), 0x00, 0x75, 0xC7, 0x33, 0x01];
        proof {
            assert(data@ =~= count_request_data(exchange));
        }
        RequestFrame::new(msg_id, MessageType::Count, data)
    }

    /// Reads the symbol count: the payload's first two bytes,
    /// little-endian.
    pub fn decode_response(data: &[u8]) -> (r: Result<u16, MessageError>)
        ensures
            r is Ok <==> data@.len() >= 2,
            r matches Ok(count) ==> count as int == le16(data@),
            r is Err ==> r == Err::<u16, MessageError>(MessageError::InsufficientData),
    {
        if data.len() < 2 {
            return Err(MessageError::InsufficientData);
        }
        Ok(bytes_to_u16_le(data))
    }
}

// --- reading fields at offsets ---

/// Whether a varint can be read at `off`: the offset is inside the data
/// and the magnitude fits a signed 32-bit value.
pub open spec fn vi_ok(s: Seq<u8>, off: int) -> bool {
    0 <= off < s.len() && varint_mag(s.skip(off)) <= i32::MAX
}

/// The value of the varint at `off`.
pub open spec fn vi_val(s: Seq<u8>, off: int) -> int {
    varint_value(s.skip(off))
}

/// The offset just past the varint at `off`.
pub open spec fn vi_end(s: Seq<u8>, off: int) -> int {
    off + varint_len(s.skip(off))
}

/// Reads the varint at `off`, with its end offset. Fails when the data is
/// exhausted or the magnitude does not fit 32 bits.
fn read_varint(data: &[u8], off: usize) -> (r: Result<(i32, usize), MessageError>)
    requires
        off <= data@.len(),
    ensures
        r is Ok <==> vi_ok(data@, off as int),
        r matches Ok(p) ==> p.0 as int == vi_val(data@, off as int) && p.1 as int == vi_end(
            data@,
            off as int,
        ) && off < p.1 <= data@.len(),
        r matches Err(e) ==> (if off >= data@.len() {
            e == MessageError::InsufficientData
        } else {
            e is ParseError
        }),
{
    if off >= data.len() {
        return Err(MessageError::InsufficientData);
    }
    proof {
        crate::codec::lemma_varint_len_bounds(data@.skip(off as int));
        crate::codec::lemma_varint_mag_nonneg(data@.skip(off as int));
    }
    let (value, consumed) = decode_varint_at(data, off);
    // A saturated result betrays a magnitude beyond 32 bits; a plain
    // i32::MAX still has to be told apart from saturation, while i32::MIN
    // can only arise from a magnitude of at least 2^31.
    if value == i32::MIN {
        return Err(MessageError::ParseError("varint magnitude out of range".to_owned()));
    }
    if value == i32::MAX {
        if mag_overflows(data, off) {
            return Err(MessageError::ParseError("varint magnitude out of range".to_owned()));
        }
    }
    Ok((value, off + consumed))
}

/// Whether the magnitude of the varint at `off` exceeds the signed
/// 32-bit range.
fn mag_overflows(data: &[u8], off: usize) -> (r: bool)
    requires
        off < data@.len(),
    ensures
        r == (varint_mag(data@.skip(off as int)) > i32::MAX),
{
    let ghost s = data@.skip(off as int);
    proof {
        crate::codec::lemma_varint_len_bounds(s);
    }
    // Walk the varint once more, tracking the exact magnitude with a cap
    // just above the 32-bit range.
    let n: usize = data.len();
    let mut j: usize = off;
    let mut end: usize = n;
    let mut found: bool = false;
    while j < n && !found
        invariant
            off <= j <= n,
            n == data@.len(),
            off < n,
            s == data@.skip(off as int),
            !found ==> crate::codec::varint_len(s) == j - off + crate::codec::varint_len_from(
                s,
                j - off,
            ),
            !found ==> end == n,
            found ==> end as int == off + crate::codec::varint_len(s),
            found ==> off < end <= n,
        decreases (if found {
            0int
        } else {
            n - j + 1
        }),
    {
        if data[j] < 0x80 {
            end = j + 1;
            found = true;
        } else {
            j = j + 1;
        }
    }
    proof {
        if !found {
            assert(crate::codec::varint_len_from(s, n - off) == 0);
        }
    }
    let cap: u64 = 0x8000_0000;
    let mut m: u64 = 0;
    let mut k: usize = end;
    while k > off + 1
        invariant
            cap == 0x8000_0000,
            n == data@.len(),
            off < n,
            s == data@.skip(off as int),
            end as int == off + crate::codec::varint_len(s),
            off < end <= n,
            off + 1 <= k <= end,
            m == if crate::codec::varint_cont(s, k - off) <= cap {
                crate::codec::varint_cont(s, k - off)
            } else {
                cap as int
            },
            m <= cap,
        decreases k,
    {
        k = k - 1;
        let b: u64 = (data[k] % 0x80) as u64;
        let mut next: u64 = b + 0x80 * m;
        if next > cap {
            next = cap;
        }
        m = next;
    }
    let mut mag: u64 = (data[off] % 0x40) as u64 + 0x40 * m;
    if mag > cap {
        mag = cap;
    }
    proof {
        assert(mag == if varint_mag(s) <= cap {
            varint_mag(s)
        } else {
            cap as int
        });
    }
    mag > 0x7FFF_FFFF
}

/// Reads the little-endian u16 at `off`.
fn read_u16_at(data: &[u8], off: usize) -> (r: u16)
    requires
        off + 2 <= data@.len(),
    ensures
        r as int == le16(data@.skip(off as int)),
{
    let sub: &[u8] = vstd::slice::slice_subrange(data, off, data.len());
    proof {
        assert(sub@ =~= data@.skip(off as int));
    }
    bytes_to_u16_le(sub)
}

/// Reads the little-endian u32 at `off`.
fn read_u32_at(data: &[u8], off: usize) -> (r: u32)
    requires
        off + 4 <= data@.len(),
    ensures
        r as int == le32(data@.skip(off as int)),
{
    let sub: &[u8] = vstd::slice::slice_subrange(data, off, data.len());
    proof {
        assert(sub@ =~= data@.skip(off as int));
    }
    bytes_to_u32_le(sub)
}

/// Reads the four-byte quasi-float at `off`, times `k`, rounded toward
/// zero.
fn read_vol2_at(data: &[u8], off: usize, k: u64) -> (r: i64)
    requires
        off + 4 <= data@.len(),
        1 <= k <= 1000,
    ensures
        r as int == sat_i64(vol2_scaled_floor(data@.skip(off as int), k as int)),
        r >= 0,
{
    let sub: &[u8] = vstd::slice::slice_subrange(data, off, data.len());
    proof {
        assert(sub@ =~= data@.skip(off as int));
    }
    let r = decode_volume2_scaled_floor(sub, k);
    r
}

// --- symbol list ---

/// The symbol-list message; each response carries at most a thousand
/// symbols, so the listing is fetched in batches.
pub struct Code;

/// One page of the symbol list.
#[derive(Debug, Clone, PartialEq, Eq)]
pub struct CodeResponse {
    pub count: u16,
    pub codes: Vec<StockCode>,
}

/// The payload of a symbol-list request: the exchange byte, a zero, and
/// the little-endian start position.
pub open spec fn code_request_data(exchange: Exchange, start: u16) -> Seq<u8> {
    seq![exchange_u8(exchange) as u8, 0u8] + le16_bytes(start)
}

/// The signed meaning of a raw byte (two's complement).
pub open spec fn i8_of_byte(b: u8) -> int {
    if b < 0x80 {
        b as int
    } else {
        b - 0x100
    }
}

/// Whether the symbol record at index `i` of a symbol-list payload is
/// `rec`: six ASCII code bytes, the lot multiple, an eight-byte GBK name,
/// the decimal count and the raw previous close.
pub open spec fn code_rec_matches(s: Seq<u8>, i: int, rec: StockCode) -> bool {
    let b = 2 + 29 * i;
    &&& rec.code@ == utf8_lossy_chars(s.subrange(b, b + 6))
    &&& rec.multiple as int == le16(s.skip(b + 6))
    &&& rec.name@ == trimmed_nuls(gbk_decoded(s.subrange(b + 8, b + 16)))
    &&& rec.decimal as int == i8_of_byte(s[b + 20])
    &&& rec.last_price_raw as int == le32(s.skip(b + 21))
}

impl Code {
    /// Builds the symbol-list request for one exchange, starting at the
    /// given position.
    pub fn request(msg_id: u32, exchange: Exchange, start: u16) -> (r: RequestFrame)
        ensures
            r.msg_id == msg_id,
            r.msg_type == MessageType::Code,
            r.data@ == code_request_data(exchange, start),
    {
        let mut data: Vec<u8> = vec![exchange.as_u8(), 0x00];
        let start_bytes: [u8; 2] = u16_to_bytes_le(start);
        data.extend_from_slice(start_bytes.as_slice());
        proof {
            assert(data@ =~= code_request_data(exchange, start));
        }
        RequestFrame::new(msg_id, MessageType::Code, data)
    }

    /// Reads a symbol-list page: a count, then that many 29-byte records.
    pub fn decode_response(data: &[u8]) -> (r: Result<CodeResponse, MessageError>)
        ensures
            r is Ok <==> data@.len() >= 2 && 2 + 29 * le16(data@) <= data@.len(),
            r matches Ok(resp) ==> {
                &&& resp.count as int == le16(data@)
                &&& resp.codes@.len() == le16(data@)
                &&& forall|i: int|
                    0 <= i < resp.codes@.len() ==> code_rec_matches(data@, i, #[trigger] resp.codes@[i])
            },
            r is Err ==> r == Err::<CodeResponse, MessageError>(MessageError::InsufficientData),
    {
        if data.len() < 2 {
            return Err(MessageError::InsufficientData);
        }
        let count: u16 = bytes_to_u16_le(data);
        let mut codes: Vec<StockCode> = Vec::new();
        let mut offset: usize = 2;
        let mut i: usize = 0;
        while i < count as usize
            invariant
                data@.len() >= 2,
                count as int == le16(data@),
                i <= count as usize,
                offset == 2 + 29 * i,
                offset <= data@.len(),
                codes@.len() == i,
                forall|j: int| 0 <= j < i ==> code_rec_matches(data@, j, #[trigger] codes@[j]),
            decreases count as usize - i,
        {
            if offset + 29 > data.len() {
                return Err(MessageError::InsufficientData);
            }
            let code_bytes: &[u8] = vstd::slice::slice_subrange(data, offset, offset + 6);
            let code_str: String = utf8_lossy(code_bytes);
            let multiple: u16 = read_u16_at(data, offset + 6);
            let name_bytes: &[u8] = vstd::slice::slice_subrange(data, offset + 8, offset + 16);
            let name: String = gbk_to_utf8(name_bytes);
            let decimal_byte: u8 = data[offset + 20];
            let decimal: i8 = if decimal_byte < 0x80 {
                decimal_byte as i8
            } else {
                (decimal_byte as i16 - 0x100) as i8
            };
            let last_price_raw: u32 = read_u32_at(data, offset + 21);
            let rec = StockCode { name, code: code_str, multiple, decimal, last_price_raw };
            proof {
                assert(code_rec_matches(data@, i as int, rec));
            }
            codes.push(rec);
            offset = offset + 29;
            i = i + 1;
        }
        Ok(CodeResponse { count, codes })
    }
}

// --- candlestick bars ---

/// The bar-series message.
pub struct KlineMsg;

/// The payload of a bar request: exchange, a zero, six code bytes, the
/// period tag, a zero, a fixed 01 00, start and count, ten zero bytes.
pub open spec fn kline_request_data(
    exchange: Exchange,
    num: Seq<char>,
    kline_type: KlineType,
    start: u16,
    count: u16,
) -> Seq<u8> {
    seq![exchange_u8(exchange) as u8, 0u8] + vstd::utf8::encode_utf8(num) + seq![
        kline_type_u8(kline_type) as u8,
        0u8,
        1u8,
        0u8,
    ] + le16_bytes(start) + le16_bytes(count) + seq![0u8, 0u8, 0u8, 0u8, 0u8, 0u8, 0u8, 0u8, 0u8, 0u8]
}

/// The moment a bar's four-byte time field denotes. Intraday periods
/// pack year, month and day into the first word (eleven bits of year
/// offset from 2004, then month times one hundred plus day) and minutes
/// since midnight into the second; day-or-longer periods store a plain
/// YYYYMMDD and mean three in the afternoon.
pub open spec fn kline_time_secs(w: Seq<u8>, kline_type: int) -> int {
    if is_intraday_kline_type(kline_type) {
        let ymd = le16(w);
        let hm = le16(w.skip(2));
        86400 * crate::time::days_from_civil(ymd / 2048 + 2004, ymd % 2048 / 100, ymd % 2048 % 100)
            + 3600 * (hm / 60) + 60 * (hm % 60)
    } else {
        let v = le32(w);
        86400 * crate::time::days_from_civil(v / 10000, v % 10000 / 100, v % 100) + 54000
    }
}

/// Reads a bar's four-byte time field, laid out as the period tag says.
pub fn decode_kline_time(data: &[u8], kline_type: u8) -> (r: crate::types::Timestamp)
    requires
        data@.len() >= 4,
    ensures
        r.secs as int == kline_time_secs(data@, kline_type as int),
{
    match kline_type {
        0 | 1 | 2 | 3 | 4 | 7 | 8 => {
            let ymd: u16 = bytes_to_u16_le(data);
            let hm: u16 = read_u16_at(data, 2);
            let year: u16 = ymd / 2048 + 2004;
            let month: u16 = ymd % 2048 / 100;
            let day: u16 = ymd % 2048 % 100;
            crate::time::timestamp_of(
                year as i32,
                month as u32,
                day as u32,
                (hm / 60) as u32,
                (hm % 60) as u32,
                0,
            )
        },
        _ => {
            let v: u32 = bytes_to_u32_le(data);
            let year: u32 = v / 10000;
            let month: u32 = v % 10000 / 100;
            let day: u32 = v % 100;
            crate::time::timestamp_of(year as i32, month, day, 15, 0, 0)
        },
    }
}

/// `v` times one hundred, clamped to the signed 64-bit range.
pub open spec fn sat_mul100(v: int) -> int {
    if 100 * v > i64::MAX {
        i64::MAX as int
    } else {
        100 * v
    }
}

/// Whether a whole bar record can be read at `off`: the four time bytes,
/// four price varints, the volume and amount words, and for index series
/// the two extra counters.
pub open spec fn kline_rec_ok(s: Seq<u8>, off: int, is_index: bool) -> bool {
    let t = off + 4;
    &&& off + 4 <= s.len()
    &&& vi_ok(s, t)
    &&& vi_ok(s, vi_end(s, t))
    &&& vi_ok(s, vi_end(s, vi_end(s, t)))
    &&& vi_ok(s, vi_end(s, vi_end(s, vi_end(s, t))))
    &&& kline_rec_end(s, off, is_index) <= s.len()
}

/// The offset just past a bar record's four price varints.
pub open spec fn kline_prices_end(s: Seq<u8>, off: int) -> int {
    vi_end(s, vi_end(s, vi_end(s, vi_end(s, off + 4))))
}

/// The offset just past a whole bar record.
pub open spec fn kline_rec_end(s: Seq<u8>, off: int, is_index: bool) -> int {
    kline_prices_end(s, off) + 8 + if is_index {
        4int
    } else {
        0int
    }
}

/// Whether `row` is the bar read at `off` against the rolling reference
/// `last`: the four varints are deltas (open against the reference, the
/// others against reference plus open delta), the volume is scaled down
/// a hundredfold for intraday periods and up a hundredfold for index
/// series, and the amount lands in thousandths of a yuan.
pub open spec fn kline_row_matches(
    s: Seq<u8>,
    off: int,
    last: int,
    cache: crate::types::KlineCache,
    row: crate::types::Kline,
) -> bool {
    let t = off + 4;
    let d_open = vi_val(s, t);
    let e1 = vi_end(s, t);
    let d_close = vi_val(s, e1);
    let e2 = vi_end(s, e1);
    let d_high = vi_val(s, e2);
    let e3 = vi_end(s, e2);
    let d_low = vi_val(s, e3);
    let e4 = vi_end(s, e3);
    let vol_raw = sat_i64(vol2_scaled_floor(s.skip(e4), 1));
    let vol_adj = if is_intraday_kline_type(cache.kline_type as int) {
        vol_raw / 100
    } else {
        vol_raw
    };
    &&& row.time.secs as int == kline_time_secs(s.subrange(off, off + 4), cache.kline_type as int)
    &&& row.open.0 as int == last + d_open
    &&& row.close.0 as int == last + d_open + d_close
    &&& row.high.0 as int == last + d_open + d_high
    &&& row.low.0 as int == last + d_open + d_low
    &&& row.last == row.close
    &&& row.order == 0
    &&& row.volume as int == if cache.is_index {
        sat_mul100(vol_adj)
    } else {
        vol_adj
    }
    &&& row.amount.0 as int == sat_i64(vol2_scaled_floor(s.skip(e4 + 4), 1000))
    &&& row.up_count as int == if cache.is_index {
        le16(s.skip(e4 + 8))
    } else {
        0int
    }
    &&& row.down_count as int == if cache.is_index {
        le16(s.skip(e4 + 10))
    } else {
        0int
    }
}

/// When the bar record at `off` cannot be read, whether the first
/// failing field fails by exhaustion rather than by an oversized varint
/// magnitude.
pub open spec fn kline_rec_fail_trunc(s: Seq<u8>, off: int) -> bool {
    let t = off + 4;
    if off + 4 > s.len() {
        true
    } else if !vi_ok(s, t) {
        t >= s.len()
    } else if !vi_ok(s, vi_end(s, t)) {
        vi_end(s, t) >= s.len()
    } else if !vi_ok(s, vi_end(s, vi_end(s, t))) {
        vi_end(s, vi_end(s, t)) >= s.len()
    } else if !vi_ok(s, vi_end(s, vi_end(s, vi_end(s, t)))) {
        vi_end(s, vi_end(s, vi_end(s, t))) >= s.len()
    } else {
        true
    }
}

/// When `k` bar records cannot all be read from `off`, whether the first
/// failure is an exhausted payload.
pub open spec fn kline_fail_trunc(s: Seq<u8>, off: int, k: int, is_index: bool) -> bool
    decreases k,
{
    if k <= 0 {
        true
    } else if kline_rec_ok(s, off, is_index) {
        kline_fail_trunc(s, kline_rec_end(s, off, is_index), k - 1, is_index)
    } else {
        kline_rec_fail_trunc(s, off)
    }
}

/// Whether `k` bar records can be read one after another from `off`.
pub open spec fn kline_can_parse(s: Seq<u8>, off: int, k: int, is_index: bool) -> bool
    decreases k,
{
    k <= 0 || (kline_rec_ok(s, off, is_index) && kline_can_parse(
        s,
        kline_rec_end(s, off, is_index),
        k - 1,
        is_index,
    ))
}

/// Whether `rows` are exactly the `k` bar records read from `off`, the
/// rolling reference starting at `last` and moving to each bar's close.
pub open spec fn kline_rows_ok(
    s: Seq<u8>,
    off: int,
    k: int,
    last: int,
    cache: crate::types::KlineCache,
    rows: Seq<crate::types::Kline>,
) -> bool
    decreases k,
{
    if k <= 0 {
        rows.len() == 0
    } else {
        &&& rows.len() == k
        &&& kline_rec_ok(s, off, cache.is_index)
        &&& kline_row_matches(s, off, last, cache, rows[0])
        &&& kline_rows_ok(
            s,
            kline_rec_end(s, off, cache.is_index),
            k - 1,
            rows[0].close.0 as int,
            cache,
            rows.skip(1),
        )
    }
}

impl KlineMsg {
    /// Builds a bar request; at most eight hundred bars may be asked for
    /// at once, and the symbol must carry a valid exchange prefix.
    pub fn request(msg_id: u32, kline_type: KlineType, code: &str, start: u16, count: u16) -> (r:
        Result<RequestFrame, MessageError>)
        ensures
            ({
                let lc = lower_chars(code@);
                &&& (r is Ok <==> count <= 800 && code_valid(lc))
                &&& (r matches Ok(f) ==> f.msg_id == msg_id && f.msg_type == MessageType::Kline
                    && f.data@ == kline_request_data(
                    code_exchange(lc),
                    code_num(lc),
                    kline_type,
                    start,
                    count,
                ))
                &&& (count > 800 ==> (r matches Err(e) && e is ParseError))
                &&& (count <= 800 && !code_valid(lc) ==> (r matches Err(e) && e is InvalidCode))
            }),
    {
        if count > 800 {
            return Err(
                MessageError::ParseError("a batch may ask for at most 800 bars".to_owned()),
            );
        }
        let (exchange, number) = match decode_code(code) {
            Ok(p) => p,
            Err(e) => {
                return Err(e);
            },
        };
        let mut data: Vec<u8> = vec![exchange.as_u8(), 0x00];
        data.extend_from_slice(number.as_str().as_bytes());
        data.push(kline_type.as_u8());
        data.push(0x00);
        data.push(0x01);
        data.push(0x00);
        let start_bytes: [u8; 2] = u16_to_bytes_le(start);
        data.extend_from_slice(start_bytes.as_slice());
        let count_bytes: [u8; 2] = u16_to_bytes_le(count);
        data.extend_from_slice(count_bytes.as_slice());
        let zeros: [u8; 10] = [0, 0, 0, 0, 0, 0, 0, 0, 0, 0];
        data.extend_from_slice(zeros.as_slice());
        proof {
            assert(data@ =~= kline_request_data(
                code_exchange(lower_chars(code@)),
                code_num(lower_chars(code@)),
                kline_type,
                start,
                count,
            ));
        }
        Ok(RequestFrame::new(msg_id, MessageType::Kline, data))
    }

    /// Reads a bar series: a count, then that many delta-coded records,
    /// each bar's prices reconstructed against the previous bar's close
    /// (starting from zero).
    #[verifier::rlimit(100)]
    pub fn decode_response(data: &[u8], cache: crate::types::KlineCache) -> (r: Result<
        crate::types::KlineResponse,
        MessageError,
    >)
        ensures
            r is Ok <==> data@.len() >= 2 && kline_can_parse(
                data@,
                2,
                le16(data@),
                cache.is_index,
            ),
            r matches Ok(resp) ==> resp.count as int == le16(data@) && kline_rows_ok(
                data@,
                2,
                le16(data@),
                0,
                cache,
                resp.list@,
            ),
            r matches Err(e) ==> (if data@.len() < 2 || kline_fail_trunc(
                data@,
                2,
                le16(data@),
                cache.is_index,
            ) {
                e == MessageError::InsufficientData
            } else {
                e is ParseError
            }),
    {
        if data.len() < 2 {
            return Err(MessageError::InsufficientData);
        }
        let ghost s = data@;
        let ghost cnt = le16(data@);
        let count: u16 = bytes_to_u16_le(data);
        let mut list: Vec<crate::types::Kline> = Vec::new();
        let mut offset: usize = 2;
        let mut last: i64 = 0;
        let mut i: usize = 0;
        while i < count as usize
            invariant
                s == data@,
                s.len() >= 2,
                cnt == le16(s),
                count as int == cnt,
                i <= count as usize,
                2 <= offset <= s.len(),
                list@.len() == i,
                -0x1_0000_0000 * (i as int) <= last as int <= 0x1_0000_0000 * (i as int),
                kline_can_parse(s, 2, cnt, cache.is_index) <==> kline_can_parse(
                    s,
                    offset as int,
                    cnt - i,
                    cache.is_index,
                ),
                kline_fail_trunc(s, 2, cnt, cache.is_index) == kline_fail_trunc(
                    s,
                    offset as int,
                    cnt - i,
                    cache.is_index,
                ),
                forall|rest: Seq<crate::types::Kline>|
                    #[trigger] kline_rows_ok(s, offset as int, cnt - i, last as int, cache, rest)
                        ==> kline_rows_ok(s, 2, cnt, 0, cache, list@ + rest),
            decreases count as usize - i,
        {
            let ghost off0 = offset as int;
            let ghost last0 = last as int;
            let ghost list0 = list@;
            if data.len() - offset < 4 {
                return Err(MessageError::InsufficientData);
            }
            let time_window: &[u8] = vstd::slice::slice_subrange(data, offset, offset + 4);
            let time = decode_kline_time(time_window, cache.kline_type);
            let t_off: usize = offset + 4;
            let (d_open, e1) = match read_varint(data, t_off) {
                Ok(p) => p,
                Err(e) => {
                    return Err(e);
                },
            };
            let (d_close, e2) = match read_varint(data, e1) {
                Ok(p) => p,
                Err(e) => {
                    return Err(e);
                },
            };
            let (d_high, e3) = match read_varint(data, e2) {
                Ok(p) => p,
                Err(e) => {
                    return Err(e);
                },
            };
            let (d_low, e4) = match read_varint(data, e3) {
                Ok(p) => p,
                Err(e) => {
                    return Err(e);
                },
            };
            let open: i64 = last + d_open as i64;
            let close: i64 = last + d_open as i64 + d_close as i64;
            let high: i64 = last + d_open as i64 + d_high as i64;
            let low: i64 = last + d_open as i64 + d_low as i64;
            if data.len() - e4 < 4 {
                return Err(MessageError::InsufficientData);
            }
            let vol_raw: i64 = read_vol2_at(data, e4, 1);
            let vol_adj: i64 = match cache.kline_type {
                0 | 1 | 2 | 3 | 4 | 7 | 8 => vol_raw / 100,
                _ => vol_raw,
            };
            if data.len() - e4 < 8 {
                return Err(MessageError::InsufficientData);
            }
            let amount: i64 = read_vol2_at(data, e4 + 4, 1000);
            let (volume, up_count, down_count): (i64, i32, i32) = if cache.is_index {
                if data.len() - e4 < 12 {
                    return Err(MessageError::InsufficientData);
                }
                let v: i64 = if vol_adj > 0x7FFF_FFFF_FFFF_FFFF / 100 {
                    i64::MAX
                } else {
                    vol_adj * 100
                };
                let up: u16 = read_u16_at(data, e4 + 8);
                let down: u16 = read_u16_at(data, e4 + 10);
                (v, up as i32, down as i32)
            } else {
                (vol_adj, 0, 0)
            };
            let row = crate::types::Kline {
                last: Price(close),
                open: Price(open),
                high: Price(high),
                low: Price(low),
                close: Price(close),
                order: 0,
                volume,
                amount: Price(amount),
                time,
                up_count,
                down_count,
            };
            let new_offset: usize = if cache.is_index {
                e4 + 12
            } else {
                e4 + 8
            };
            proof {
                assert(time_window@ =~= s.subrange(off0, off0 + 4));
                assert(kline_rec_ok(s, off0, cache.is_index));
                assert(new_offset as int == kline_rec_end(s, off0, cache.is_index));
                assert(kline_row_matches(s, off0, last0, cache, row));
            }
            list.push(row);
            last = close;
            offset = new_offset;
            i = i + 1;
            proof {
                assert forall|rest: Seq<crate::types::Kline>|
                    #[trigger] kline_rows_ok(
                        s,
                        offset as int,
                        cnt - i,
                        last as int,
                        cache,
                        rest,
                    ) implies kline_rows_ok(s, 2, cnt, 0, cache, list@ + rest) by {
                    let ext = seq![row] + rest;
                    assert(ext[0] == row);
                    assert(ext.skip(1) =~= rest);
                    assert(kline_rows_ok(s, off0, cnt - (i - 1), last0, cache, ext));
                    assert(list0 + ext =~= list@ + rest);
                }
            }
        }
        proof {
            assert(kline_can_parse(s, offset as int, 0, cache.is_index));
            let empty: Seq<crate::types::Kline> = Seq::empty();
            assert(kline_rows_ok(s, offset as int, 0, last as int, cache, empty));
            assert(list@ + empty =~= list@);
        }
        Ok(crate::types::KlineResponse { count, list })
    }
}

// --- minute lines ---

/// The current-day minute-line message; it delegates to the historical
/// endpoint with today's date.
pub struct MinuteMsg;

/// The historical minute-line message.
pub struct HistoryMinuteMsg;

/// The payload of a current-day minute-line request: exchange, a zero,
/// six code bytes, four zero bytes.
pub open spec fn minute_request_data(exchange: Exchange, num: Seq<char>) -> Seq<u8> {
    seq![exchange_u8(exchange) as u8, 0u8] + vstd::utf8::encode_utf8(num) + seq![
        0u8,
        0u8,
        0u8,
        0u8,
    ]
}

/// The payload of a historical minute-line request: the date as a
/// little-endian YYYYMMDD word, the exchange byte, six code bytes.
pub open spec fn history_minute_request_data(date_num: u32, exchange: Exchange, num: Seq<char>) -> Seq<
    u8,
> {
    le32_bytes(date_num) + seq![exchange_u8(exchange) as u8] + vstd::utf8::encode_utf8(num)
}

/// The clock minute of sample `i` of a minute line: one minute per
/// sample from half past nine, with the lunch break bridged by a jump of
/// ninety minutes at sample 120 (11:30 to 13:01).
pub open spec fn minute_sample_minute(i: int) -> int {
    if i < 120 {
        9 * 60 + 30 + i + 1
    } else {
        11 * 60 + i + 1
    }
}

/// Whether a minute-line record can be read at `off`: a price delta, a
/// discarded field and a volume, all varints.
pub open spec fn minute_rec_ok(s: Seq<u8>, off: int) -> bool {
    &&& vi_ok(s, off)
    &&& vi_ok(s, vi_end(s, off))
    &&& vi_ok(s, vi_end(s, vi_end(s, off)))
}

/// The offset just past the minute-line record at `off`.
pub open spec fn minute_rec_end(s: Seq<u8>, off: int) -> int {
    vi_end(s, vi_end(s, vi_end(s, off)))
}

/// Whether `row` is minute-line sample `idx` read at `off` against the
/// accumulated price `last`: the emitted price is ten times the
/// accumulated delta sum, and the time label follows the clock.
pub open spec fn minute_row_matches(
    s: Seq<u8>,
    off: int,
    last: int,
    idx: int,
    row: crate::types::PriceNumber,
) -> bool {
    let d = vi_val(s, off);
    let e1 = vi_end(s, off);
    let e2 = vi_end(s, e1);
    let num = vi_val(s, e2);
    &&& row.price.0 as int == 10 * (last + d)
    &&& row.number as int == num
    &&& row.time@ == crate::text::hhmm_chars(minute_sample_minute(idx))
}

/// When the minute-line record at `off` cannot be read, whether the
/// first failing field fails by exhaustion rather than by an oversized
/// varint magnitude.
pub open spec fn minute_rec_fail_trunc(s: Seq<u8>, off: int) -> bool {
    if !vi_ok(s, off) {
        off >= s.len()
    } else if !vi_ok(s, vi_end(s, off)) {
        vi_end(s, off) >= s.len()
    } else if !vi_ok(s, vi_end(s, vi_end(s, off))) {
        vi_end(s, vi_end(s, off)) >= s.len()
    } else {
        true
    }
}

/// When `k` minute-line records cannot all be read from `off`, whether
/// the first failure is an exhausted payload.
pub open spec fn minute_fail_trunc(s: Seq<u8>, off: int, k: int) -> bool
    decreases k,
{
    if k <= 0 {
        true
    } else if minute_rec_ok(s, off) {
        minute_fail_trunc(s, minute_rec_end(s, off), k - 1)
    } else {
        minute_rec_fail_trunc(s, off)
    }
}

/// Whether `k` minute-line records can be read one after another from
/// `off`.
pub open spec fn minute_can_parse(s: Seq<u8>, off: int, k: int) -> bool
    decreases k,
{
    k <= 0 || (minute_rec_ok(s, off) && minute_can_parse(s, minute_rec_end(s, off), k - 1))
}

/// Whether `rows` are exactly the `k` minute-line records read from
/// `off`, starting at sample index `idx` with accumulated price `last`.
pub open spec fn minute_rows_ok(
    s: Seq<u8>,
    off: int,
    k: int,
    last: int,
    idx: int,
    rows: Seq<crate::types::PriceNumber>,
) -> bool
    decreases k,
{
    if k <= 0 {
        rows.len() == 0
    } else {
        &&& rows.len() == k
        &&& minute_rec_ok(s, off)
        &&& minute_row_matches(s, off, last, idx, rows[0])
        &&& minute_rows_ok(
            s,
            minute_rec_end(s, off),
            k - 1,
            last + vi_val(s, off),
            idx + 1,
            rows.skip(1),
        )
    }
}

impl MinuteMsg {
    /// Builds a current-day minute-line request; the symbol must carry a
    /// valid exchange prefix.
    pub fn request(msg_id: u32, code: &str) -> (r: Result<RequestFrame, MessageError>)
        ensures
            ({
                let lc = lower_chars(code@);
                &&& (r is Ok <==> code_valid(lc))
                &&& (r matches Ok(f) ==> f.msg_id == msg_id && f.msg_type == MessageType::Minute
                    && f.data@ == minute_request_data(code_exchange(lc), code_num(lc)))
                &&& (r matches Err(e) ==> e is InvalidCode)
            }),
    {
        let (exchange, number) = match decode_code(code) {
            Ok(p) => p,
            Err(e) => {
                return Err(e);
            },
        };
        let mut data: Vec<u8> = vec![exchange.as_u8(), 0x00];
        data.extend_from_slice(number.as_str().as_bytes());
        data.push(0x00);
        data.push(0x00);
        data.push(0x00);
        data.push(0x00);
        proof {
            assert(data@ =~= minute_request_data(
                code_exchange(lower_chars(code@)),
                code_num(lower_chars(code@)),
            ));
        }
        Ok(RequestFrame::new(msg_id, MessageType::Minute, data))
    }

    /// Reads a minute line: a count and four reserved bytes, then that
    /// many records; prices accumulate and are emitted tenfold, and each
    /// sample is stamped with the next trading minute.
    #[verifier::rlimit(100)]
    pub fn decode_response(data: &[u8]) -> (r: Result<crate::types::MinuteResponse, MessageError>)
        ensures
            r is Ok <==> data@.len() >= 6 && minute_can_parse(data@, 6, le16(data@)),
            r matches Ok(resp) ==> resp.count as int == le16(data@) && minute_rows_ok(
                data@,
                6,
                le16(data@),
                0,
                0,
                resp.list@,
            ),
            r matches Err(e) ==> (if data@.len() < 6 || minute_fail_trunc(
                data@,
                6,
                le16(data@),
            ) {
                e == MessageError::InsufficientData
            } else {
                e is ParseError
            }),
    {
        if data.len() < 6 {
            return Err(MessageError::InsufficientData);
        }
        let ghost s = data@;
        let ghost cnt = le16(data@);
        let count: u16 = bytes_to_u16_le(data);
        let mut list: Vec<crate::types::PriceNumber> = Vec::new();
        let mut offset: usize = 6;
        let mut last: i64 = 0;
        let mut i: usize = 0;
        while i < count as usize
            invariant
                s == data@,
                s.len() >= 6,
                cnt == le16(s),
                count as int == cnt,
                i <= count as usize,
                offset <= s.len(),
                list@.len() == i,
                -0x8000_0000 * (i as int) <= last as int <= 0x8000_0000 * (i as int),
                minute_can_parse(s, 6, cnt) <==> minute_can_parse(s, offset as int, cnt - i),
                minute_fail_trunc(s, 6, cnt) == minute_fail_trunc(s, offset as int, cnt - i),
                forall|rest: Seq<crate::types::PriceNumber>|
                    #[trigger] minute_rows_ok(s, offset as int, cnt - i, last as int, i as int, rest)
                        ==> minute_rows_ok(s, 6, cnt, 0, 0, list@ + rest),
            decreases count as usize - i,
        {
            let ghost off0 = offset as int;
            let ghost last0 = last as int;
            let ghost list0 = list@;
            let (d, e1) = match read_varint(data, offset) {
                Ok(p) => p,
                Err(e) => {
                    return Err(e);
                },
            };
            let (_skip, e2) = match read_varint(data, e1) {
                Ok(p) => p,
                Err(e) => {
                    return Err(e);
                },
            };
            let (number, e3) = match read_varint(data, e2) {
                Ok(p) => p,
                Err(e) => {
                    return Err(e);
                },
            };
            let acc: i64 = last + d as i64;
            let total_minutes: u64 = if i < 120 {
                9 * 60 + 30 + (i as u64) + 1
            } else {
                11 * 60 + (i as u64) + 1
            };
            let time: String = crate::text::hhmm_string(total_minutes);
            let row = crate::types::PriceNumber { time, price: Price(10 * acc), number };
            proof {
                assert(minute_rec_ok(s, off0));
                assert(e3 as int == minute_rec_end(s, off0));
                assert(minute_row_matches(s, off0, last0, i as int, row));
            }
            list.push(row);
            last = acc;
            offset = e3;
            i = i + 1;
            proof {
                assert forall|rest: Seq<crate::types::PriceNumber>|
                    #[trigger] minute_rows_ok(
                        s,
                        offset as int,
                        cnt - i,
                        last as int,
                        i as int,
                        rest,
                    ) implies minute_rows_ok(s, 6, cnt, 0, 0, list@ + rest) by {
                    let ext = seq![row] + rest;
                    assert(ext[0] == row);
                    assert(ext.skip(1) =~= rest);
                    assert(minute_rows_ok(s, off0, cnt - (i - 1), last0, i - 1, ext));
                    assert(list0 + ext =~= list@ + rest);
                }
            }
        }
        proof {
            let empty: Seq<crate::types::PriceNumber> = Seq::empty();
            assert(minute_rows_ok(s, offset as int, 0, last as int, i as int, empty));
            assert(list@ + empty =~= list@);
        }
        Ok(crate::types::MinuteResponse { count, list })
    }
}

impl HistoryMinuteMsg {
    /// Builds a historical minute-line request for a "YYYYMMDD" date; the
    /// symbol must carry a valid exchange prefix and the date must be a
    /// decimal number.
    pub fn request(msg_id: u32, date: &str, code: &str) -> (r: Result<RequestFrame, MessageError>)
        ensures
            ({
                let lc = lower_chars(code@);
                let parsed = crate::time::parse_digits(date@);
                &&& (r is Ok <==> code_valid(lc) && parsed is Some && parsed->Some_0
                    <= u32::MAX)
                &&& (r matches Ok(f) ==> f.msg_id == msg_id && f.msg_type
                    == MessageType::HistoryMinute && f.data@ == history_minute_request_data(
                    parsed->Some_0 as u32,
                    code_exchange(lc),
                    code_num(lc),
                ))
                &&& (!code_valid(lc) ==> (r matches Err(e) && e is InvalidCode))
                &&& (code_valid(lc) && !(parsed is Some && parsed->Some_0 <= u32::MAX) ==> (
                r matches Err(e) && e is ParseError))
            }),
    {
        let (exchange, number) = match decode_code(code) {
            Ok(p) => p,
            Err(e) => {
                return Err(e);
            },
        };
        let date_num: u32 = match crate::time::parse_u32_digits(date) {
            Some(v) => v,
            None => {
                return Err(MessageError::ParseError("the date is not a decimal number".to_owned()));
            },
        };
        let mut data: Vec<u8> = Vec::new();
        let date_bytes: [u8; 4] = u32_to_bytes_le(date_num);
        data.extend_from_slice(date_bytes.as_slice());
        data.push(exchange.as_u8());
        data.extend_from_slice(number.as_str().as_bytes());
        proof {
            assert(data@ =~= history_minute_request_data(
                date_num,
                code_exchange(lower_chars(code@)),
                code_num(lower_chars(code@)),
            ));
        }
        Ok(RequestFrame::new(msg_id, MessageType::HistoryMinute, data))
    }

    /// Reads a historical minute line; the layout is the current-day one.
    pub fn decode_response(data: &[u8]) -> (r: Result<crate::types::MinuteResponse, MessageError>)
        ensures
            r is Ok <==> data@.len() >= 6 && minute_can_parse(data@, 6, le16(data@)),
            r matches Ok(resp) ==> resp.count as int == le16(data@) && minute_rows_ok(
                data@,
                6,
                le16(data@),
                0,
                0,
                resp.list@,
            ),
            r matches Err(e) ==> (if data@.len() < 6 || minute_fail_trunc(
                data@,
                6,
                le16(data@),
            ) {
                e == MessageError::InsufficientData
            } else {
                e is ParseError
            }),
    {
        MinuteMsg::decode_response(data)
    }
}

// --- tick trades ---

/// The current-day tick-trade message.
pub struct TradeMsg;

/// The historical tick-trade message.
pub struct HistoryTradeMsg;

/// Context a tick-trade request leaves behind for its decoder: the day
/// the times belong to (as "YYYYMMDD") and the symbol.
#[derive(Debug, Clone, PartialEq, Eq)]
pub struct TradeCache {
    pub date: String,
    pub code: String,
}

/// The payload of a current-day tick-trade request: exchange, a zero,
/// six code bytes, start and count.
pub open spec fn trade_request_data(
    exchange: Exchange,
    num: Seq<char>,
    start: u16,
    count: u16,
) -> Seq<u8> {
    seq![exchange_u8(exchange) as u8, 0u8] + vstd::utf8::encode_utf8(num) + le16_bytes(start)
        + le16_bytes(count)
}

/// The payload of a historical tick-trade request: the date word, then
/// the current-day layout.
pub open spec fn history_trade_request_data(
    date_num: u32,
    exchange: Exchange,
    num: Seq<char>,
    start: u16,
    count: u16,
) -> Seq<u8> {
    le32_bytes(date_num) + seq![exchange_u8(exchange) as u8, 0u8] + vstd::utf8::encode_utf8(num)
        + le16_bytes(start) + le16_bytes(count)
}

/// Whether a current-day trade record can be read at `off`: two time
/// bytes, then five varints (price delta, volume, order count, status,
/// one discarded).
pub open spec fn trade_rec_ok(s: Seq<u8>, off: int) -> bool {
    let t = off + 2;
    &&& off + 2 <= s.len()
    &&& vi_ok(s, t)
    &&& vi_ok(s, vi_end(s, t))
    &&& vi_ok(s, vi_end(s, vi_end(s, t)))
    &&& vi_ok(s, vi_end(s, vi_end(s, vi_end(s, t))))
    &&& vi_ok(s, vi_end(s, vi_end(s, vi_end(s, vi_end(s, t)))))
}

/// The offset just past the current-day trade record at `off`.
pub open spec fn trade_rec_end(s: Seq<u8>, off: int) -> int {
    vi_end(s, vi_end(s, vi_end(s, vi_end(s, vi_end(s, off + 2)))))
}

/// Whether `row` is the current-day trade read at `off` against the
/// accumulated price `last`: the time is minutes since midnight on the
/// cached day, and the price moves by ten times the delta.
pub open spec fn trade_row_matches(
    s: Seq<u8>,
    off: int,
    last: int,
    date: Seq<char>,
    row: crate::types::Trade,
) -> bool {
    let tv = le16(s.skip(off));
    let t = off + 2;
    let d = vi_val(s, t);
    let e1 = vi_end(s, t);
    let vol = vi_val(s, e1);
    let e2 = vi_end(s, e1);
    let num = vi_val(s, e2);
    let e3 = vi_end(s, e2);
    let st = vi_val(s, e3);
    &&& row.time.secs as int == crate::time::datetime_secs(date, tv / 60, tv % 60, 0)
    &&& row.price.0 as int == last + 10 * d
    &&& row.volume as int == vol
    &&& row.number as int == num
    &&& row.status == crate::types::trade_status_of(st)
}

/// When the current-day trade record at `off` cannot be read, whether
/// the first failing field fails by exhaustion rather than by an
/// oversized varint magnitude.
pub open spec fn trade_rec_fail_trunc(s: Seq<u8>, off: int) -> bool {
    let t = off + 2;
    if off + 2 > s.len() {
        true
    } else if !vi_ok(s, t) {
        t >= s.len()
    } else if !vi_ok(s, vi_end(s, t)) {
        vi_end(s, t) >= s.len()
    } else if !vi_ok(s, vi_end(s, vi_end(s, t))) {
        vi_end(s, vi_end(s, t)) >= s.len()
    } else if !vi_ok(s, vi_end(s, vi_end(s, vi_end(s, t)))) {
        vi_end(s, vi_end(s, vi_end(s, t))) >= s.len()
    } else if !vi_ok(s, vi_end(s, vi_end(s, vi_end(s, vi_end(s, t))))) {
        vi_end(s, vi_end(s, vi_end(s, vi_end(s, t)))) >= s.len()
    } else {
        true
    }
}

/// When `k` current-day trade records cannot all be read from `off`,
/// whether the first failure is an exhausted payload.
pub open spec fn trade_fail_trunc(s: Seq<u8>, off: int, k: int) -> bool
    decreases k,
{
    if k <= 0 {
        true
    } else if trade_rec_ok(s, off) {
        trade_fail_trunc(s, trade_rec_end(s, off), k - 1)
    } else {
        trade_rec_fail_trunc(s, off)
    }
}

/// Whether `k` current-day trade records can be read from `off`.
pub open spec fn trade_can_parse(s: Seq<u8>, off: int, k: int) -> bool
    decreases k,
{
    k <= 0 || (trade_rec_ok(s, off) && trade_can_parse(s, trade_rec_end(s, off), k - 1))
}

/// Whether `rows` are exactly the `k` current-day trade records read
/// from `off` with accumulated price `last`.
pub open spec fn trade_rows_ok(
    s: Seq<u8>,
    off: int,
    k: int,
    last: int,
    date: Seq<char>,
    rows: Seq<crate::types::Trade>,
) -> bool
    decreases k,
{
    if k <= 0 {
        rows.len() == 0
    } else {
        &&& rows.len() == k
        &&& trade_rec_ok(s, off)
        &&& trade_row_matches(s, off, last, date, rows[0])
        &&& trade_rows_ok(
            s,
            trade_rec_end(s, off),
            k - 1,
            last + 10 * vi_val(s, off + 2),
            date,
            rows.skip(1),
        )
    }
}

/// Whether a historical trade record can be read at `off`: two time
/// bytes, then four varints (price delta, volume, status, one
/// discarded) - historical records carry no order count.
pub open spec fn htrade_rec_ok(s: Seq<u8>, off: int) -> bool {
    let t = off + 2;
    &&& off + 2 <= s.len()
    &&& vi_ok(s, t)
    &&& vi_ok(s, vi_end(s, t))
    &&& vi_ok(s, vi_end(s, vi_end(s, t)))
    &&& vi_ok(s, vi_end(s, vi_end(s, vi_end(s, t))))
}

/// The offset just past the historical trade record at `off`.
pub open spec fn htrade_rec_end(s: Seq<u8>, off: int) -> int {
    vi_end(s, vi_end(s, vi_end(s, vi_end(s, off + 2))))
}

/// Whether `row` is the historical trade read at `off`; its order count
/// is always zero.
pub open spec fn htrade_row_matches(
    s: Seq<u8>,
    off: int,
    last: int,
    date: Seq<char>,
    row: crate::types::Trade,
) -> bool {
    let tv = le16(s.skip(off));
    let t = off + 2;
    let d = vi_val(s, t);
    let e1 = vi_end(s, t);
    let vol = vi_val(s, e1);
    let e2 = vi_end(s, e1);
    let st = vi_val(s, e2);
    &&& row.time.secs as int == crate::time::datetime_secs(date, tv / 60, tv % 60, 0)
    &&& row.price.0 as int == last + 10 * d
    &&& row.volume as int == vol
    &&& row.number == 0
    &&& row.status == crate::types::trade_status_of(st)
}

/// When the historical trade record at `off` cannot be read, whether the
/// first failing field fails by exhaustion rather than by an oversized
/// varint magnitude.
pub open spec fn htrade_rec_fail_trunc(s: Seq<u8>, off: int) -> bool {
    let t = off + 2;
    if off + 2 > s.len() {
        true
    } else if !vi_ok(s, t) {
        t >= s.len()
    } else if !vi_ok(s, vi_end(s, t)) {
        vi_end(s, t) >= s.len()
    } else if !vi_ok(s, vi_end(s, vi_end(s, t))) {
        vi_end(s, vi_end(s, t)) >= s.len()
    } else if !vi_ok(s, vi_end(s, vi_end(s, vi_end(s, t)))) {
        vi_end(s, vi_end(s, vi_end(s, t))) >= s.len()
    } else {
        true
    }
}

/// When `k` historical trade records cannot all be read from `off`,
/// whether the first failure is an exhausted payload.
pub open spec fn htrade_fail_trunc(s: Seq<u8>, off: int, k: int) -> bool
    decreases k,
{
    if k <= 0 {
        true
    } else if htrade_rec_ok(s, off) {
        htrade_fail_trunc(s, htrade_rec_end(s, off), k - 1)
    } else {
        htrade_rec_fail_trunc(s, off)
    }
}

/// Whether `k` historical trade records can be read from `off`.
pub open spec fn htrade_can_parse(s: Seq<u8>, off: int, k: int) -> bool
    decreases k,
{
    k <= 0 || (htrade_rec_ok(s, off) && htrade_can_parse(s, htrade_rec_end(s, off), k - 1))
}

/// Whether `rows` are exactly the `k` historical trade records read from
/// `off` with accumulated price `last`.
pub open spec fn htrade_rows_ok(
    s: Seq<u8>,
    off: int,
    k: int,
    last: int,
    date: Seq<char>,
    rows: Seq<crate::types::Trade>,
) -> bool
    decreases k,
{
    if k <= 0 {
        rows.len() == 0
    } else {
        &&& rows.len() == k
        &&& htrade_rec_ok(s, off)
        &&& htrade_row_matches(s, off, last, date, rows[0])
        &&& htrade_rows_ok(
            s,
            htrade_rec_end(s, off),
            k - 1,
            last + 10 * vi_val(s, off + 2),
            date,
            rows.skip(1),
        )
    }
}

impl TradeMsg {
    /// Builds a current-day tick-trade request; the symbol must carry a
    /// valid exchange prefix.
    pub fn request(msg_id: u32, code: &str, start: u16, count: u16) -> (r: Result<
        RequestFrame,
        MessageError,
    >)
        ensures
            ({
                let lc = lower_chars(code@);
                &&& (r is Ok <==> code_valid(lc))
                &&& (r matches Ok(f) ==> f.msg_id == msg_id && f.msg_type
                    == MessageType::MinuteTrade && f.data@ == trade_request_data(
                    code_exchange(lc),
                    code_num(lc),
                    start,
                    count,
                ))
                &&& (r matches Err(e) ==> e is InvalidCode)
            }),
    {
        let (exchange, number) = match decode_code(code) {
            Ok(p) => p,
            Err(e) => {
                return Err(e);
            },
        };
        let mut data: Vec<u8> = vec![exchange.as_u8(), 0x00];
        data.extend_from_slice(number.as_str().as_bytes());
        let start_bytes: [u8; 2] = u16_to_bytes_le(start);
        data.extend_from_slice(start_bytes.as_slice());
        let count_bytes: [u8; 2] = u16_to_bytes_le(count);
        data.extend_from_slice(count_bytes.as_slice());
        proof {
            assert(data@ =~= trade_request_data(
                code_exchange(lower_chars(code@)),
                code_num(lower_chars(code@)),
                start,
                count,
            ));
        }
        Ok(RequestFrame::new(msg_id, MessageType::MinuteTrade, data))
    }

    /// Reads a current-day tick-trade series: a count, then that many
    /// records, prices accumulating tenfold deltas, times on the cached
    /// day.
    #[verifier::rlimit(100)]
    pub fn decode_response(data: &[u8], cache: &TradeCache) -> (r: Result<
        crate::types::TradeResponse,
        MessageError,
    >)
        ensures
            r is Ok <==> data@.len() >= 2 && trade_can_parse(data@, 2, le16(data@)),
            r matches Ok(resp) ==> resp.count as int == le16(data@) && trade_rows_ok(
                data@,
                2,
                le16(data@),
                0,
                cache.date@,
                resp.list@,
            ),
            r matches Err(e) ==> (if data@.len() < 2 || trade_fail_trunc(
                data@,
                2,
                le16(data@),
            ) {
                e == MessageError::InsufficientData
            } else {
                e is ParseError
            }),
    {
        if data.len() < 2 {
            return Err(MessageError::InsufficientData);
        }
        let ghost s = data@;
        let ghost cnt = le16(data@);
        let ghost date_chars = cache.date@;
        let count: u16 = bytes_to_u16_le(data);
        let mut list: Vec<crate::types::Trade> = Vec::new();
        let mut offset: usize = 2;
        let mut last: i64 = 0;
        let mut i: usize = 0;
        while i < count as usize
            invariant
                s == data@,
                s.len() >= 2,
                cnt == le16(s),
                date_chars == cache.date@,
                count as int == cnt,
                i <= count as usize,
                offset <= s.len(),
                list@.len() == i,
                -0x5_0000_0000 * (i as int) <= last as int <= 0x5_0000_0000 * (i as int),
                trade_can_parse(s, 2, cnt) <==> trade_can_parse(s, offset as int, cnt - i),
                trade_fail_trunc(s, 2, cnt) == trade_fail_trunc(s, offset as int, cnt - i),
                forall|rest: Seq<crate::types::Trade>|
                    #[trigger] trade_rows_ok(s, offset as int, cnt - i, last as int, date_chars, rest)
                        ==> trade_rows_ok(s, 2, cnt, 0, date_chars, list@ + rest),
            decreases count as usize - i,
        {
            let ghost off0 = offset as int;
            let ghost last0 = last as int;
            let ghost list0 = list@;
            if data.len() - offset < 2 {
                return Err(MessageError::InsufficientData);
            }
            let tv: u16 = read_u16_at(data, offset);
            let t_off: usize = offset + 2;
            let (d, e1) = match read_varint(data, t_off) {
                Ok(p) => p,
                Err(e) => {
                    return Err(e);
                },
            };
            let (volume, e2) = match read_varint(data, e1) {
                Ok(p) => p,
                Err(e) => {
                    return Err(e);
                },
            };
            let (number, e3) = match read_varint(data, e2) {
                Ok(p) => p,
                Err(e) => {
                    return Err(e);
                },
            };
            let (st, e4) = match read_varint(data, e3) {
                Ok(p) => p,
                Err(e) => {
                    return Err(e);
                },
            };
            let (_skip, e5) = match read_varint(data, e4) {
                Ok(p) => p,
                Err(e) => {
                    return Err(e);
                },
            };
            let acc: i64 = last + 10 * (d as i64);
            let status = if st == 0 {
                crate::types::TradeStatus::Buy
            } else if st == 1 {
                crate::types::TradeStatus::Sell
            } else {
                crate::types::TradeStatus::Neutral
            };
            let time = crate::time::parse_datetime(
                cache.date.as_str(),
                (tv / 60) as u32,
                (tv % 60) as u32,
                0,
            );
            let row = crate::types::Trade { time, price: Price(acc), volume, status, number };
            proof {
                assert(trade_rec_ok(s, off0));
                assert(e5 as int == trade_rec_end(s, off0));
                assert(trade_row_matches(s, off0, last0, date_chars, row));
            }
            list.push(row);
            last = acc;
            offset = e5;
            i = i + 1;
            proof {
                assert forall|rest: Seq<crate::types::Trade>|
                    #[trigger] trade_rows_ok(
                        s,
                        offset as int,
                        cnt - i,
                        last as int,
                        date_chars,
                        rest,
                    ) implies trade_rows_ok(s, 2, cnt, 0, date_chars, list@ + rest) by {
                    let ext = seq![row] + rest;
                    assert(ext[0] == row);
                    assert(ext.skip(1) =~= rest);
                    assert(trade_rows_ok(s, off0, cnt - (i - 1), last0, date_chars, ext));
                    assert(list0 + ext =~= list@ + rest);
                }
            }
        }
        proof {
            let empty: Seq<crate::types::Trade> = Seq::empty();
            assert(trade_rows_ok(s, offset as int, 0, last as int, date_chars, empty));
            assert(list@ + empty =~= list@);
        }
        Ok(crate::types::TradeResponse { count, list })
    }
}

impl HistoryTradeMsg {
    /// Builds a historical tick-trade request for a "YYYYMMDD" date; the
    /// symbol must carry a valid exchange prefix and the date must be a
    /// decimal number.
    pub fn request(msg_id: u32, date: &str, code: &str, start: u16, count: u16) -> (r: Result<
        RequestFrame,
        MessageError,
    >)
        ensures
            ({
                let lc = lower_chars(code@);
                let parsed = crate::time::parse_digits(date@);
                &&& (r is Ok <==> code_valid(lc) && parsed is Some && parsed->Some_0
                    <= u32::MAX)
                &&& (r matches Ok(f) ==> f.msg_id == msg_id && f.msg_type
                    == MessageType::HistoryMinuteTrade && f.data@ == history_trade_request_data(
                    parsed->Some_0 as u32,
                    code_exchange(lc),
                    code_num(lc),
                    start,
                    count,
                ))
                &&& (!code_valid(lc) ==> (r matches Err(e) && e is InvalidCode))
                &&& (code_valid(lc) && !(parsed is Some && parsed->Some_0 <= u32::MAX) ==> (
                r matches Err(e) && e is ParseError))
            }),
    {
        let (exchange, number) = match decode_code(code) {
            Ok(p) => p,
            Err(e) => {
                return Err(e);
            },
        };
        let date_num: u32 = match crate::time::parse_u32_digits(date) {
            Some(v) => v,
            None => {
                return Err(MessageError::ParseError("the date is not a decimal number".to_owned()));
            },
        };
        let mut data: Vec<u8> = Vec::new();
        let date_bytes: [u8; 4] = u32_to_bytes_le(date_num);
        data.extend_from_slice(date_bytes.as_slice());
        data.push(exchange.as_u8());
        data.push(0x00);
        data.extend_from_slice(number.as_str().as_bytes());
        let start_bytes: [u8; 2] = u16_to_bytes_le(start);
        data.extend_from_slice(start_bytes.as_slice());
        let count_bytes: [u8; 2] = u16_to_bytes_le(count);
        data.extend_from_slice(count_bytes.as_slice());
        proof {
            assert(data@ =~= history_trade_request_data(
                date_num,
                code_exchange(lower_chars(code@)),
                code_num(lower_chars(code@)),
                start,
                count,
            ));
        }
        Ok(RequestFrame::new(msg_id, MessageType::HistoryMinuteTrade, data))
    }

    /// Reads a historical tick-trade series: a count and four reserved
    /// bytes, then that many records without order counts.
    #[verifier::rlimit(100)]
    pub fn decode_response(data: &[u8], cache: &TradeCache) -> (r: Result<
        crate::types::TradeResponse,
        MessageError,
    >)
        ensures
            r is Ok <==> data@.len() >= 6 && htrade_can_parse(data@, 6, le16(data@)),
            r matches Ok(resp) ==> resp.count as int == le16(data@) && htrade_rows_ok(
                data@,
                6,
                le16(data@),
                0,
                cache.date@,
                resp.list@,
            ),
            r matches Err(e) ==> (if data@.len() < 6 || htrade_fail_trunc(
                data@,
                6,
                le16(data@),
            ) {
                e == MessageError::InsufficientData
            } else {
                e is ParseError
            }),
    {
        if data.len() < 6 {
            return Err(MessageError::InsufficientData);
        }
        let ghost s = data@;
        let ghost cnt = le16(data@);
        let ghost date_chars = cache.date@;
        let count: u16 = bytes_to_u16_le(data);
        let mut list: Vec<crate::types::Trade> = Vec::new();
        let mut offset: usize = 6;
        let mut last: i64 = 0;
        let mut i: usize = 0;
        while i < count as usize
            invariant
                s == data@,
                s.len() >= 6,
                cnt == le16(s),
                date_chars == cache.date@,
                count as int == cnt,
                i <= count as usize,
                offset <= s.len(),
                list@.len() == i,
                -0x5_0000_0000 * (i as int) <= last as int <= 0x5_0000_0000 * (i as int),
                htrade_can_parse(s, 6, cnt) <==> htrade_can_parse(s, offset as int, cnt - i),
                htrade_fail_trunc(s, 6, cnt) == htrade_fail_trunc(s, offset as int, cnt - i),
                forall|rest: Seq<crate::types::Trade>|
                    #[trigger] htrade_rows_ok(s, offset as int, cnt - i, last as int, date_chars, rest)
                        ==> htrade_rows_ok(s, 6, cnt, 0, date_chars, list@ + rest),
            decreases count as usize - i,
        {
            let ghost off0 = offset as int;
            let ghost last0 = last as int;
            let ghost list0 = list@;
            if data.len() - offset < 2 {
                return Err(MessageError::InsufficientData);
            }
            let tv: u16 = read_u16_at(data, offset);
            let t_off: usize = offset + 2;
            let (d, e1) = match read_varint(data, t_off) {
                Ok(p) => p,
                Err(e) => {
                    return Err(e);
                },
            };
            let (volume, e2) = match read_varint(data, e1) {
                Ok(p) => p,
                Err(e) => {
                    return Err(e);
                },
            };
            let (st, e3) = match read_varint(data, e2) {
                Ok(p) => p,
                Err(e) => {
                    return Err(e);
                },
            };
            let (_skip, e4) = match read_varint(data, e3) {
                Ok(p) => p,
                Err(e) => {
                    return Err(e);
                },
            };
            let acc: i64 = last + 10 * (d as i64);
            let status = if st == 0 {
                crate::types::TradeStatus::Buy
            } else if st == 1 {
                crate::types::TradeStatus::Sell
            } else {
                crate::types::TradeStatus::Neutral
            };
            let time = crate::time::parse_datetime(
                cache.date.as_str(),
                (tv / 60) as u32,
                (tv % 60) as u32,
                0,
            );
            let row = crate::types::Trade { time, price: Price(acc), volume, status, number: 0 };
            proof {
                assert(htrade_rec_ok(s, off0));
                assert(e4 as int == htrade_rec_end(s, off0));
                assert(htrade_row_matches(s, off0, last0, date_chars, row));
            }
            list.push(row);
            last = acc;
            offset = e4;
            i = i + 1;
            proof {
                assert forall|rest: Seq<crate::types::Trade>|
                    #[trigger] htrade_rows_ok(
                        s,
                        offset as int,
                        cnt - i,
                        last as int,
                        date_chars,
                        rest,
                    ) implies htrade_rows_ok(s, 6, cnt, 0, date_chars, list@ + rest) by {
                    let ext = seq![row] + rest;
                    assert(ext[0] == row);
                    assert(ext.skip(1) =~= rest);
                    assert(htrade_rows_ok(s, off0, cnt - (i - 1), last0, date_chars, ext));
                    assert(list0 + ext =~= list@ + rest);
                }
            }
        }
        proof {
            let empty: Seq<crate::types::Trade> = Seq::empty();
            assert(htrade_rows_ok(s, offset as int, 0, last as int, date_chars, empty));
            assert(list@ + empty =~= list@);
        }
        Ok(crate::types::TradeResponse { count, list })
    }
}

// --- call auction ---

/// The call-auction message.
pub struct CallAuctionMsg;

/// The payload of a call-auction request: exchange, a zero, six code
/// bytes, and a fixed twenty-byte tail.
pub open spec fn call_auction_request_data(exchange: Exchange, num: Seq<char>) -> Seq<u8> {
    seq![exchange_u8(exchange) as u8, 0u8] + vstd::utf8::encode_utf8(num) + seq![
        0u8, 0u8, 0u8, 0u8,
        3u8, 0u8, 0u8, 0u8,
        0u8, 0u8, 0u8, 0u8,
        0u8, 0u8, 0u8, 0u8,
        0xF4u8, 1u8, 0u8, 0u8,
    ]
}

/// The signed meaning of a little-endian 16-bit word (two's complement).
pub open spec fn i16_of(v: int) -> int {
    if v < 0x8000 {
        v
    } else {
        v - 0x1_0000
    }
}

/// Whether the auction record at index `i` of a call-auction payload is
/// `rec`, on the day numbered `today_days`: two bytes of minutes since
/// midnight, the raw price bits, the matched volume, the signed
/// unmatched volume (its sign moved to the flag), and the second in
/// byte 15.
pub open spec fn auction_rec_matches(
    s: Seq<u8>,
    i: int,
    today_days: int,
    rec: crate::types::CallAuction,
) -> bool {
    let b = 2 + 16 * i;
    let n = le16(s.skip(b));
    let unm = i16_of(le16(s.skip(b + 10)));
    &&& rec.time.secs as int == today_days * 86400 + 3600 * (n / 60) + 60 * (n % 60) + s[b + 15]
    &&& rec.price_raw_bits as int == le32(s.skip(b + 2))
    &&& rec.matched as int == le32(s.skip(b + 6))
    &&& rec.unmatched as int == if unm < 0 {
        -unm
    } else {
        unm
    }
    &&& rec.flag as int == if unm < 0 {
        -1int
    } else {
        1int
    }
}

impl CallAuctionMsg {
    /// Builds a call-auction request; the symbol must carry a valid
    /// exchange prefix.
    pub fn request(msg_id: u32, code: &str) -> (r: Result<RequestFrame, MessageError>)
        ensures
            ({
                let lc = lower_chars(code@);
                &&& (r is Ok <==> code_valid(lc))
                &&& (r matches Ok(f) ==> f.msg_id == msg_id && f.msg_type
                    == MessageType::CallAuction && f.data@ == call_auction_request_data(
                    code_exchange(lc),
                    code_num(lc),
                ))
                &&& (r matches Err(e) ==> e is InvalidCode)
            }),
    {
        let (exchange, number) = match decode_code(code) {
            Ok(p) => p,
            Err(e) => {
                return Err(e);
            },
        };
        let mut data: Vec<u8> = vec![exchange.as_u8(), 0x00];
        data.extend_from_slice(number.as_str().as_bytes());
        let tail: [u8; 20] = [
            0x00, 0x00, 0x00, 0x00, 0x03, 0x00, 0x00, 0x00, 0x00, 0x00, 0x00, 0x00, 0x00, 0x00,
            0x00, 0x00, 0xF4, 0x01, 0x00, 0x00,
        ];
        data.extend_from_slice(tail.as_slice());
        proof {
            assert(data@ =~= call_auction_request_data(
                code_exchange(lower_chars(code@)),
                code_num(lower_chars(code@)),
            ));
        }
        Ok(RequestFrame::new(msg_id, MessageType::CallAuction, data))
    }

    /// Reads a call-auction series: a count, then that many sixteen-byte
    /// records, stamped on the day numbered `today_days` (days from the
    /// epoch, which the caller takes from its clock).
    pub fn decode_response(data: &[u8], today_days: i64) -> (r: Result<
        crate::types::CallAuctionResponse,
        MessageError,
    >)
        requires
            0 <= today_days <= 0x4000_0000,
        ensures
            r is Ok <==> data@.len() >= 2 && 2 + 16 * le16(data@) <= data@.len(),
            r matches Ok(resp) ==> {
                &&& resp.count as int == le16(data@)
                &&& resp.list@.len() == le16(data@)
                &&& forall|i: int|
                    0 <= i < resp.list@.len() ==> auction_rec_matches(
                        data@,
                        i,
                        today_days as int,
                        #[trigger] resp.list@[i],
                    )
            },
            r is Err ==> r == Err::<crate::types::CallAuctionResponse, MessageError>(
                MessageError::InsufficientData,
            ),
    {
        if data.len() < 2 {
            return Err(MessageError::InsufficientData);
        }
        let count: u16 = bytes_to_u16_le(data);
        let mut list: Vec<crate::types::CallAuction> = Vec::new();
        let mut offset: usize = 2;
        let mut i: usize = 0;
        while i < count as usize
            invariant
                data@.len() >= 2,
                count as int == le16(data@),
                0 <= today_days <= 0x4000_0000,
                i <= count as usize,
                offset == 2 + 16 * i,
                offset <= data@.len(),
                list@.len() == i,
                forall|j: int|
                    0 <= j < i ==> auction_rec_matches(
                        data@,
                        j,
                        today_days as int,
                        #[trigger] list@[j],
                    ),
            decreases count as usize - i,
        {
            if data.len() - offset < 16 {
                return Err(MessageError::InsufficientData);
            }
            let n: u16 = read_u16_at(data, offset);
            let price_raw_bits: u32 = read_u32_at(data, offset + 2);
            let matched: i64 = read_u32_at(data, offset + 6) as i64;
            let unm_word: u16 = read_u16_at(data, offset + 10);
            let unm: i32 = if unm_word < 0x8000 {
                unm_word as i32
            } else {
                unm_word as i32 - 0x1_0000
            };
            let (unmatched, flag): (i64, i8) = if unm < 0 {
                (-(unm as i64), -1)
            } else {
                (unm as i64, 1)
            };
            let second: u8 = data[offset + 15];
            let time = crate::types::Timestamp {
                secs: today_days * 86400 + (n as i64 / 60) * 3600 + (n as i64 % 60) * 60
                    + second as i64,
            };
            let rec = crate::types::CallAuction { time, price_raw_bits, matched, unmatched, flag };
            proof {
                assert(auction_rec_matches(data@, i as int, today_days as int, rec));
            }
            list.push(rec);
            offset = offset + 16;
            i = i + 1;
        }
        Ok(crate::types::CallAuctionResponse { count, list })
    }
}

// --- corporate actions ---

/// The capital-structure / ex-dividend message.
pub struct GbbqMsg;

/// The payload of a corporate-action request: a fixed 01 00, the
/// exchange byte, six code bytes.
pub open spec fn gbbq_request_data(exchange: Exchange, num: Seq<char>) -> Seq<u8> {
    seq![1u8, 0u8, exchange_u8(exchange) as u8] + vstd::utf8::encode_utf8(num)
}

/// The exchange byte of a corporate-action record; an unrecognized value
/// falls back to Shenzhen.
pub open spec fn gbbq_exchange_of(b: u8) -> Exchange {
    if b == 1 {
        Exchange::SH
    } else if b == 2 {
        Exchange::BJ
    } else {
        Exchange::SZ
    }
}

/// Whether the corporate-action record at index `i` of a payload is
/// `rec`: the prefixed code, the date at three in the afternoon, the
/// category byte, and the four raw payload words (their meaning varies
/// with the category, so they are kept as read).
pub open spec fn gbbq_rec_matches(s: Seq<u8>, i: int, rec: crate::types::Gbbq) -> bool {
    let b = 11 + 29 * i;
    let v = le32(s.skip(b + 8));
    &&& rec.code@ == exchange_str(gbbq_exchange_of(s[b])) + utf8_lossy_chars(
        s.subrange(b + 1, b + 7),
    )
    &&& rec.time.secs as int == 86400 * crate::time::days_from_civil(
        v / 10000,
        v % 10000 / 100,
        v % 100,
    ) + 54000
    &&& rec.category as int == s[b + 12]
    &&& rec.c1_raw as int == le32(s.skip(b + 13))
    &&& rec.c2_raw as int == le32(s.skip(b + 17))
    &&& rec.c3_raw as int == le32(s.skip(b + 21))
    &&& rec.c4_raw as int == le32(s.skip(b + 25))
}

impl GbbqMsg {
    /// Builds a corporate-action request; the symbol must carry a valid
    /// exchange prefix.
    pub fn request(msg_id: u32, code: &str) -> (r: Result<RequestFrame, MessageError>)
        ensures
            ({
                let lc = lower_chars(code@);
                &&& (r is Ok <==> code_valid(lc))
                &&& (r matches Ok(f) ==> f.msg_id == msg_id && f.msg_type == MessageType::Gbbq
                    && f.data@ == gbbq_request_data(code_exchange(lc), code_num(lc)))
                &&& (r matches Err(e) ==> e is InvalidCode)
            }),
    {
        let (exchange, number) = match decode_code(code) {
            Ok(p) => p,
            Err(e) => {
                return Err(e);
            },
        };
        let mut data: Vec<u8> = vec![0x01, 0x00];
        data.push(exchange.as_u8());
        data.extend_from_slice(number.as_str().as_bytes());
        proof {
            assert(data@ =~= gbbq_request_data(
                code_exchange(lower_chars(code@)),
                code_num(lower_chars(code@)),
            ));
        }
        Ok(RequestFrame::new(msg_id, MessageType::Gbbq, data))
    }

    /// Reads a corporate-action series: nine reserved bytes, a count,
    /// then that many twenty-nine-byte records.
    pub fn decode_response(data: &[u8]) -> (r: Result<crate::types::GbbqResponse, MessageError>)
        ensures
            r is Ok <==> data@.len() >= 11 && 11 + 29 * le16(data@.skip(9)) <= data@.len(),
            r matches Ok(resp) ==> {
                &&& resp.count as int == le16(data@.skip(9))
                &&& resp.list@.len() == le16(data@.skip(9))
                &&& forall|i: int|
                    0 <= i < resp.list@.len() ==> gbbq_rec_matches(data@, i, #[trigger] resp.list@[i])
            },
            r is Err ==> r == Err::<crate::types::GbbqResponse, MessageError>(
                MessageError::InsufficientData,
            ),
    {
        if data.len() < 11 {
            return Err(MessageError::InsufficientData);
        }
        let count: u16 = read_u16_at(data, 9);
        let mut list: Vec<crate::types::Gbbq> = Vec::new();
        let mut offset: usize = 11;
        let mut i: usize = 0;
        while i < count as usize
            invariant
                data@.len() >= 11,
                count as int == le16(data@.skip(9)),
                i <= count as usize,
                offset == 11 + 29 * i,
                offset <= data@.len(),
                list@.len() == i,
                forall|j: int| 0 <= j < i ==> gbbq_rec_matches(data@, j, #[trigger] list@[j]),
            decreases count as usize - i,
        {
            if data.len() - offset < 29 {
                return Err(MessageError::InsufficientData);
            }
            let ex_byte: u8 = data[offset];
            let exchange: Exchange = if ex_byte == 1 {
                Exchange::SH
            } else if ex_byte == 2 {
                Exchange::BJ
            } else {
                Exchange::SZ
            };
            let code_bytes: &[u8] = vstd::slice::slice_subrange(data, offset + 1, offset + 7);
            let digits: String = utf8_lossy(code_bytes);
            let code: String = exchange.as_str().to_owned().concat(digits.as_str());
            let v: u32 = read_u32_at(data, offset + 8);
            let time = crate::time::timestamp_of(
                (v / 10000) as i32,
                v % 10000 / 100,
                v % 100,
                15,
                0,
                0,
            );
            let category: i32 = data[offset + 12] as i32;
            let c1_raw: u32 = read_u32_at(data, offset + 13);
            let c2_raw: u32 = read_u32_at(data, offset + 17);
            let c3_raw: u32 = read_u32_at(data, offset + 21);
            let c4_raw: u32 = read_u32_at(data, offset + 25);
            let rec = crate::types::Gbbq { code, time, category, c1_raw, c2_raw, c3_raw, c4_raw };
            proof {
                assert(rec.code@ =~= exchange_str(gbbq_exchange_of(data@[offset as int]))
                    + utf8_lossy_chars(data@.subrange(offset as int + 1, offset as int + 7)));
                assert(gbbq_rec_matches(data@, i as int, rec));
            }
            list.push(rec);
            offset = offset + 29;
            i = i + 1;
        }
        Ok(crate::types::GbbqResponse { count, list })
    }
}

// --- quotes ---

/// The five-depth quote message.
pub struct Quote;

/// The exchange a quote record's first byte denotes.
pub open spec fn quote_exchange_of(b: u8) -> Exchange {
    if b == 1 {
        Exchange::SH
    } else if b == 2 {
        Exchange::BJ
    } else {
        Exchange::SZ
    }
}

/// Whether a whole quote record can be read at `off`: the exchange byte,
/// six code bytes and a word, then the chain of varints, the turnover
/// word, the five depth levels, two skipped bytes, four more varints,
/// and two trailing words.
pub open spec fn quote_rec_ok(s: Seq<u8>, off: int) -> bool {
    let kb = off + 9;
    let k1 = vi_end(s, kb);
    let k2 = vi_end(s, k1);
    let k3 = vi_end(s, k2);
    let k4 = vi_end(s, k3);
    let k5 = vi_end(s, k4);
    let k6 = vi_end(s, k5);
    let k7 = vi_end(s, k6);
    let k8 = vi_end(s, k7);
    let k9 = vi_end(s, k8);
    let a0 = k9 + 4;
    let a1 = vi_end(s, a0);
    let a2 = vi_end(s, a1);
    let a3 = vi_end(s, a2);
    let a4 = vi_end(s, a3);
    let v1 = vi_end(s, a4);
    let v2 = vi_end(s, v1);
    let v3 = vi_end(s, v2);
    let v4 = vi_end(s, v3);
    let v5 = vi_end(s, v4);
    let v6 = vi_end(s, v5);
    let v7 = vi_end(s, v6);
    let v8 = vi_end(s, v7);
    let v9 = vi_end(s, v8);
    let v10 = vi_end(s, v9);
    let v11 = vi_end(s, v10);
    let v12 = vi_end(s, v11);
    let v13 = vi_end(s, v12);
    let v14 = vi_end(s, v13);
    let v15 = vi_end(s, v14);
    let v16 = vi_end(s, v15);
    let v17 = vi_end(s, v16);
    let v18 = vi_end(s, v17);
    let v19 = vi_end(s, v18);
    let v20 = vi_end(s, v19);
    let z0 = v20 + 2;
    let w1 = vi_end(s, z0);
    let w2 = vi_end(s, w1);
    let w3 = vi_end(s, w2);
    let w4 = vi_end(s, w3);
    &&& off + 9 <= s.len()
    &&& 0 <= off
    &&& s[off] < 3
    &&& vi_ok(s, kb)
    &&& vi_ok(s, k1)
    &&& vi_ok(s, k2)
    &&& vi_ok(s, k3)
    &&& vi_ok(s, k4)
    &&& vi_ok(s, k5)
    &&& vi_ok(s, k6)
    &&& vi_ok(s, k7)
    &&& vi_ok(s, k8)
    &&& k9 + 4 <= s.len()
    &&& vi_ok(s, a0)
    &&& vi_ok(s, a1)
    &&& vi_ok(s, a2)
    &&& vi_ok(s, a3)
    &&& vi_ok(s, a4)
    &&& vi_ok(s, v1)
    &&& vi_ok(s, v2)
    &&& vi_ok(s, v3)
    &&& vi_ok(s, v4)
    &&& vi_ok(s, v5)
    &&& vi_ok(s, v6)
    &&& vi_ok(s, v7)
    &&& vi_ok(s, v8)
    &&& vi_ok(s, v9)
    &&& vi_ok(s, v10)
    &&& vi_ok(s, v11)
    &&& vi_ok(s, v12)
    &&& vi_ok(s, v13)
    &&& vi_ok(s, v14)
    &&& vi_ok(s, v15)
    &&& vi_ok(s, v16)
    &&& vi_ok(s, v17)
    &&& vi_ok(s, v18)
    &&& vi_ok(s, v19)
    &&& v20 + 2 <= s.len()
    &&& vi_ok(s, z0)
    &&& vi_ok(s, w1)
    &&& vi_ok(s, w2)
    &&& vi_ok(s, w3)
    &&& w4 + 4 <= s.len()
}

/// The offset just past the quote record at `off`.
pub open spec fn quote_rec_end(s: Seq<u8>, off: int) -> int {
    let kb = off + 9;
    let k1 = vi_end(s, kb);
    let k2 = vi_end(s, k1);
    let k3 = vi_end(s, k2);
    let k4 = vi_end(s, k3);
    let k5 = vi_end(s, k4);
    let k6 = vi_end(s, k5);
    let k7 = vi_end(s, k6);
    let k8 = vi_end(s, k7);
    let k9 = vi_end(s, k8);
    let a0 = k9 + 4;
    let a1 = vi_end(s, a0);
    let a2 = vi_end(s, a1);
    let a3 = vi_end(s, a2);
    let a4 = vi_end(s, a3);
    let v1 = vi_end(s, a4);
    let v2 = vi_end(s, v1);
    let v3 = vi_end(s, v2);
    let v4 = vi_end(s, v3);
    let v5 = vi_end(s, v4);
    let v6 = vi_end(s, v5);
    let v7 = vi_end(s, v6);
    let v8 = vi_end(s, v7);
    let v9 = vi_end(s, v8);
    let v10 = vi_end(s, v9);
    let v11 = vi_end(s, v10);
    let v12 = vi_end(s, v11);
    let v13 = vi_end(s, v12);
    let v14 = vi_end(s, v13);
    let v15 = vi_end(s, v14);
    let v16 = vi_end(s, v15);
    let v17 = vi_end(s, v16);
    let v18 = vi_end(s, v17);
    let v19 = vi_end(s, v18);
    let v20 = vi_end(s, v19);
    let z0 = v20 + 2;
    let w1 = vi_end(s, z0);
    let w2 = vi_end(s, w1);
    let w3 = vi_end(s, w2);
    let w4 = vi_end(s, w3);
    w4 + 4
}

/// Whether `q` is the quote record read at `off`. The price bundle is
/// tenfold deltas against ten times the close delta; each depth level's
/// price is its tenfold delta plus the close; the turnover stays as its
/// raw word; the server-time field is captured in decimal.
pub open spec fn quote_rec_matches(s: Seq<u8>, off: int, q: crate::types::QuoteInfo) -> bool {
    let kb = off + 9;
    let k1 = vi_end(s, kb);
    let k2 = vi_end(s, k1);
    let k3 = vi_end(s, k2);
    let k4 = vi_end(s, k3);
    let k5 = vi_end(s, k4);
    let k6 = vi_end(s, k5);
    let k7 = vi_end(s, k6);
    let k8 = vi_end(s, k7);
    let k9 = vi_end(s, k8);
    let a0 = k9 + 4;
    let a1 = vi_end(s, a0);
    let a2 = vi_end(s, a1);
    let a3 = vi_end(s, a2);
    let a4 = vi_end(s, a3);
    let v1 = vi_end(s, a4);
    let v2 = vi_end(s, v1);
    let v3 = vi_end(s, v2);
    let v4 = vi_end(s, v3);
    let v5 = vi_end(s, v4);
    let v6 = vi_end(s, v5);
    let v7 = vi_end(s, v6);
    let v8 = vi_end(s, v7);
    let v9 = vi_end(s, v8);
    let v10 = vi_end(s, v9);
    let v11 = vi_end(s, v10);
    let v12 = vi_end(s, v11);
    let v13 = vi_end(s, v12);
    let v14 = vi_end(s, v13);
    let v15 = vi_end(s, v14);
    let v16 = vi_end(s, v15);
    let v17 = vi_end(s, v16);
    let v18 = vi_end(s, v17);
    let v19 = vi_end(s, v18);
    let v20 = vi_end(s, v19);
    let z0 = v20 + 2;
    let w1 = vi_end(s, z0);
    let w2 = vi_end(s, w1);
    let w3 = vi_end(s, w2);
    let w4 = vi_end(s, w3);
    let close = 10 * vi_val(s, kb);
    &&& q.exchange == quote_exchange_of(s[off])
    &&& q.code@ == trimmed_nuls(gbk_decoded(s.subrange(off + 1, off + 7)))
    &&& q.active1 as int == le16(s.skip(off + 7))
    &&& q.k.close.0 as int == close
    &&& q.k.last.0 as int == close + 10 * vi_val(s, k1)
    &&& q.k.open.0 as int == close + 10 * vi_val(s, k2)
    &&& q.k.high.0 as int == close + 10 * vi_val(s, k3)
    &&& q.k.low.0 as int == close + 10 * vi_val(s, k4)
    &&& q.server_time@ == crate::text::int_dec_chars(vi_val(s, k5))
    &&& q.total_hand as int == vi_val(s, k7)
    &&& q.intuition as int == vi_val(s, k8)
    &&& q.amount_raw as int == le32(s.skip(k9))
    &&& q.inside_dish as int == vi_val(s, a0)
    &&& q.outer_disc as int == vi_val(s, a1)
    &&& q.buy_level@[0].buy == true
    &&& q.buy_level@[0].price.0 as int == 10 * (vi_val(s, a4)) + 10 * vi_val(s, kb)
    &&& q.buy_level@[0].number as int == vi_val(s, v2)
    &&& q.sell_level@[0].buy == false
    &&& q.sell_level@[0].price.0 as int == 10 * (vi_val(s, v1)) + 10 * vi_val(s, kb)
    &&& q.sell_level@[0].number as int == vi_val(s, v3)
    &&& q.buy_level@[1].buy == true
    &&& q.buy_level@[1].price.0 as int == 10 * (vi_val(s, v4)) + 10 * vi_val(s, kb)
    &&& q.buy_level@[1].number as int == vi_val(s, v6)
    &&& q.sell_level@[1].buy == false
    &&& q.sell_level@[1].price.0 as int == 10 * (vi_val(s, v5)) + 10 * vi_val(s, kb)
    &&& q.sell_level@[1].number as int == vi_val(s, v7)
    &&& q.buy_level@[2].buy == true
    &&& q.buy_level@[2].price.0 as int == 10 * (vi_val(s, v8)) + 10 * vi_val(s, kb)
    &&& q.buy_level@[2].number as int == vi_val(s, v10)
    &&& q.sell_level@[2].buy == false
    &&& q.sell_level@[2].price.0 as int == 10 * (vi_val(s, v9)) + 10 * vi_val(s, kb)
    &&& q.sell_level@[2].number as int == vi_val(s, v11)
    &&& q.buy_level@[3].buy == true
    &&& q.buy_level@[3].price.0 as int == 10 * (vi_val(s, v12)) + 10 * vi_val(s, kb)
    &&& q.buy_level@[3].number as int == vi_val(s, v14)
    &&& q.sell_level@[3].buy == false
    &&& q.sell_level@[3].price.0 as int == 10 * (vi_val(s, v13)) + 10 * vi_val(s, kb)
    &&& q.sell_level@[3].number as int == vi_val(s, v15)
    &&& q.buy_level@[4].buy == true
    &&& q.buy_level@[4].price.0 as int == 10 * (vi_val(s, v16)) + 10 * vi_val(s, kb)
    &&& q.buy_level@[4].number as int == vi_val(s, v18)
    &&& q.sell_level@[4].buy == false
    &&& q.sell_level@[4].price.0 as int == 10 * (vi_val(s, v17)) + 10 * vi_val(s, kb)
    &&& q.sell_level@[4].number as int == vi_val(s, v19)
    &&& q.rate_raw as int == le16(s.skip(w4))
    &&& q.active2 as int == le16(s.skip(w4 + 2))
}

/// When the quote record at `off` cannot be read, whether the first
/// failing field fails by exhaustion: a bad exchange byte or an
/// oversized varint magnitude fail by value instead.
pub open spec fn quote_rec_fail_trunc(s: Seq<u8>, off: int) -> bool {
    let kb = off + 9;
    let k1 = vi_end(s, kb);
    let k2 = vi_end(s, k1);
    let k3 = vi_end(s, k2);
    let k4 = vi_end(s, k3);
    let k5 = vi_end(s, k4);
    let k6 = vi_end(s, k5);
    let k7 = vi_end(s, k6);
    let k8 = vi_end(s, k7);
    let k9 = vi_end(s, k8);
    let a0 = k9 + 4;
    let a1 = vi_end(s, a0);
    let a2 = vi_end(s, a1);
    let a3 = vi_end(s, a2);
    let a4 = vi_end(s, a3);
    let v1 = vi_end(s, a4);
    let v2 = vi_end(s, v1);
    let v3 = vi_end(s, v2);
    let v4 = vi_end(s, v3);
    let v5 = vi_end(s, v4);
    let v6 = vi_end(s, v5);
    let v7 = vi_end(s, v6);
    let v8 = vi_end(s, v7);
    let v9 = vi_end(s, v8);
    let v10 = vi_end(s, v9);
    let v11 = vi_end(s, v10);
    let v12 = vi_end(s, v11);
    let v13 = vi_end(s, v12);
    let v14 = vi_end(s, v13);
    let v15 = vi_end(s, v14);
    let v16 = vi_end(s, v15);
    let v17 = vi_end(s, v16);
    let v18 = vi_end(s, v17);
    let v19 = vi_end(s, v18);
    let v20 = vi_end(s, v19);
    let z0 = v20 + 2;
    let w1 = vi_end(s, z0);
    let w2 = vi_end(s, w1);
    let w3 = vi_end(s, w2);
    let w4 = vi_end(s, w3);
    if off + 9 > s.len() {
        true
    } else if s[off] >= 3 {
        false
    } else if !vi_ok(s, kb) {
        kb >= s.len()
    } else if !vi_ok(s, k1) {
        k1 >= s.len()
    } else if !vi_ok(s, k2) {
        k2 >= s.len()
    } else if !vi_ok(s, k3) {
        k3 >= s.len()
    } else if !vi_ok(s, k4) {
        k4 >= s.len()
    } else if !vi_ok(s, k5) {
        k5 >= s.len()
    } else if !vi_ok(s, k6) {
        k6 >= s.len()
    } else if !vi_ok(s, k7) {
        k7 >= s.len()
    } else if !vi_ok(s, k8) {
        k8 >= s.len()
    } else if k9 + 4 > s.len() {
        true
    } else if !vi_ok(s, a0) {
        a0 >= s.len()
    } else if !vi_ok(s, a1) {
        a1 >= s.len()
    } else if !vi_ok(s, a2) {
        a2 >= s.len()
    } else if !vi_ok(s, a3) {
        a3 >= s.len()
    } else if !vi_ok(s, a4) {
        a4 >= s.len()
    } else if !vi_ok(s, v1) {
        v1 >= s.len()
    } else if !vi_ok(s, v2) {
        v2 >= s.len()
    } else if !vi_ok(s, v3) {
        v3 >= s.len()
    } else if !vi_ok(s, v4) {
        v4 >= s.len()
    } else if !vi_ok(s, v5) {
        v5 >= s.len()
    } else if !vi_ok(s, v6) {
        v6 >= s.len()
    } else if !vi_ok(s, v7) {
        v7 >= s.len()
    } else if !vi_ok(s, v8) {
        v8 >= s.len()
    } else if !vi_ok(s, v9) {
        v9 >= s.len()
    } else if !vi_ok(s, v10) {
        v10 >= s.len()
    } else if !vi_ok(s, v11) {
        v11 >= s.len()
    } else if !vi_ok(s, v12) {
        v12 >= s.len()
    } else if !vi_ok(s, v13) {
        v13 >= s.len()
    } else if !vi_ok(s, v14) {
        v14 >= s.len()
    } else if !vi_ok(s, v15) {
        v15 >= s.len()
    } else if !vi_ok(s, v16) {
        v16 >= s.len()
    } else if !vi_ok(s, v17) {
        v17 >= s.len()
    } else if !vi_ok(s, v18) {
        v18 >= s.len()
    } else if !vi_ok(s, v19) {
        v19 >= s.len()
    } else if v20 + 2 > s.len() {
        true
    } else if !vi_ok(s, z0) {
        z0 >= s.len()
    } else if !vi_ok(s, w1) {
        w1 >= s.len()
    } else if !vi_ok(s, w2) {
        w2 >= s.len()
    } else if !vi_ok(s, w3) {
        w3 >= s.len()
    } else {
        true
    }
}

/// When `k` quote records cannot all be read from `off`, whether the
/// first failure is an exhausted payload.
pub open spec fn quote_fail_trunc(s: Seq<u8>, off: int, k: int) -> bool
    decreases k,
{
    if k <= 0 {
        true
    } else if quote_rec_ok(s, off) {
        quote_fail_trunc(s, quote_rec_end(s, off), k - 1)
    } else {
        quote_rec_fail_trunc(s, off)
    }
}

/// Whether `k` quote records can be read one after another from `off`.
pub open spec fn quote_can_parse(s: Seq<u8>, off: int, k: int) -> bool
    decreases k,
{
    k <= 0 || (quote_rec_ok(s, off) && quote_can_parse(s, quote_rec_end(s, off), k - 1))
}

/// Whether `rows` are exactly the `k` quote records read from `off`.
pub open spec fn quote_rows_ok(s: Seq<u8>, off: int, k: int, rows: Seq<crate::types::QuoteInfo>) -> bool
    decreases k,
{
    if k <= 0 {
        rows.len() == 0
    } else {
        &&& rows.len() == k
        &&& quote_rec_ok(s, off)
        &&& quote_rec_matches(s, off, rows[0])
        &&& quote_rows_ok(s, quote_rec_end(s, off), k - 1, rows.skip(1))
    }
}

/// The symbol items of a quote request, from index `i` on: for each
/// symbol its exchange byte and code bytes; nothing when any symbol is
/// malformed.
pub open spec fn quote_items_data(codes: Seq<String>, i: int) -> Option<Seq<u8>>
    decreases codes.len() - i,
{
    if i < 0 || i >= codes.len() {
        Some(Seq::empty())
    } else {
        let lc = lower_chars(codes[i]@);
        if !code_valid(lc) {
            None
        } else {
            match quote_items_data(codes, i + 1) {
                None => None,
                Some(rest) => Some(
                    seq![exchange_u8(code_exchange(lc)) as u8] + vstd::utf8::encode_utf8(
                        code_num(lc),
                    ) + rest,
                ),
            }
        }
    }
}

impl Quote {
    /// Builds a five-depth quote request for up to a page of symbols;
    /// each must carry a valid exchange prefix.
    pub fn request(msg_id: u32, codes: &[String]) -> (r: Result<RequestFrame, MessageError>)
        ensures
            r is Ok <==> quote_items_data(codes@, 0) is Some,
            r matches Ok(f) ==> f.msg_id == msg_id && f.msg_type == MessageType::Quote && f.data@
                == seq![5u8, 0u8, 0u8, 0u8, 0u8, 0u8, 0u8, 0u8] + le16_bytes(
                (codes@.len() % 0x10000) as u16,
            ) + quote_items_data(codes@, 0)->Some_0,
            r matches Err(e) ==> e is InvalidCode,
    {
        let mut items: Vec<u8> = Vec::new();
        let mut i: usize = 0;
        let n: usize = codes.len();
        while i < n
            invariant
                n == codes@.len(),
                i <= n,
                forall|rest: Seq<u8>|
                    #[trigger] quote_items_data(codes@, i as int) == Some(rest) ==> quote_items_data(
                        codes@,
                        0,
                    ) == Some(items@ + rest),
                quote_items_data(codes@, i as int) is Some ==> quote_items_data(codes@, 0)
                    is Some,
                quote_items_data(codes@, 0) is Some ==> quote_items_data(codes@, i as int)
                    is Some,
            decreases n - i,
        {
            let ghost items0 = items@;
            let (exchange, number) = match decode_code(codes[i].as_str()) {
                Ok(p) => p,
                Err(e) => {
                    proof {
                        assert(quote_items_data(codes@, i as int) is None);
                    }
                    return Err(e);
                },
            };
            items.push(exchange.as_u8());
            items.extend_from_slice(number.as_str().as_bytes());
            i = i + 1;
            proof {
                let lc = lower_chars(codes@[i - 1]@);
                assert forall|rest: Seq<u8>|
                    #[trigger] quote_items_data(codes@, i as int) == Some(rest) implies quote_items_data(
                    codes@,
                    0,
                ) == Some(items@ + rest) by {
                    let ext = seq![exchange_u8(code_exchange(lc)) as u8] + vstd::utf8::encode_utf8(
                        code_num(lc),
                    ) + rest;
                    assert(quote_items_data(codes@, i - 1) == Some(ext));
                    assert(items0 + ext =~= items@ + rest);
                }
            }
        }
        proof {
            let empty: Seq<u8> = Seq::empty();
            assert(quote_items_data(codes@, n as int) == Some(empty));
            assert(items@ + empty =~= items@);
        }
        let mut data: Vec<u8> = vec![0x05, 0x00, 0x00, 0x00, 0x00, 0x00, 0x00, 0x00];
        let trimmed: usize = codes.len() % 0x10000;
        let count_bytes: [u8; 2] = u16_to_bytes_le(trimmed as u16);
        data.extend_from_slice(count_bytes.as_slice());
        data.extend_from_slice(items.as_slice());
        proof {
            assert(data@ =~= seq![5u8, 0u8, 0u8, 0u8, 0u8, 0u8, 0u8, 0u8] + le16_bytes(
                (codes@.len() % 0x10000) as u16,
            ) + quote_items_data(codes@, 0)->Some_0);
        }
        Ok(RequestFrame::new(msg_id, MessageType::Quote, data))
    }

    /// Reads a quote series: two version bytes, a count, then that many
    /// records.
    /// Reads one quote record at `offset`.
    #[verifier::rlimit(100)]
    fn read_record(data: &[u8], offset: usize) -> (r: Result<(crate::types::QuoteInfo, usize), MessageError>)
        requires
            offset <= data@.len(),
        ensures
            r is Ok <==> quote_rec_ok(data@, offset as int),
            r matches Ok(p) ==> quote_rec_matches(data@, offset as int, p.0) && p.1 as int
                == quote_rec_end(data@, offset as int) && offset < p.1 <= data@.len(),
            r matches Err(e) ==> (if quote_rec_fail_trunc(data@, offset as int) {
                e == MessageError::InsufficientData
            } else {
                e is ParseError
            }),
    {
        let ghost s = data@;
        let ghost off0 = offset as int;
    if data.len() - offset < 9 {
        return Err(MessageError::InsufficientData);
    }
    let ex_byte: u8 = data[offset];
    let exchange: Exchange = match Exchange::from_u8(ex_byte) {
        Some(e) => e,
        None => {
            return Err(
                MessageError::ParseError("a quote names an unknown exchange".to_owned()),
            );
        },
    };
    let code_bytes: &[u8] = vstd::slice::slice_subrange(data, offset + 1, offset + 7);
    let code: String = gbk_to_utf8(code_bytes);
    let active1: u16 = read_u16_at(data, offset + 7);
    let kb: usize = offset + 9;
    let (d_close, k1) = match read_varint(data, kb) {
        Ok(p) => p,
        Err(e) => {
            return Err(e);
        },
    };
    let (d_last, k2) = match read_varint(data, k1) {
        Ok(p) => p,
        Err(e) => {
            return Err(e);
        },
    };
    let (d_open, k3) = match read_varint(data, k2) {
        Ok(p) => p,
        Err(e) => {
            return Err(e);
        },
    };
    let (d_high, k4) = match read_varint(data, k3) {
        Ok(p) => p,
        Err(e) => {
            return Err(e);
        },
    };
    let (d_low, k5) = match read_varint(data, k4) {
        Ok(p) => p,
        Err(e) => {
            return Err(e);
        },
    };
    let (r_srv, k6) = match read_varint(data, k5) {
        Ok(p) => p,
        Err(e) => {
            return Err(e);
        },
    };
    let (r_skip1, k7) = match read_varint(data, k6) {
        Ok(p) => p,
        Err(e) => {
            return Err(e);
        },
    };
    let (v_total, k8) = match read_varint(data, k7) {
        Ok(p) => p,
        Err(e) => {
            return Err(e);
        },
    };
    let (v_intu, k9) = match read_varint(data, k8) {
        Ok(p) => p,
        Err(e) => {
            return Err(e);
        },
    };
    let close: i64 = 10 * (d_close as i64);
    if data.len() - k9 < 4 {
        return Err(MessageError::InsufficientData);
    }
    let amount_raw: u32 = read_u32_at(data, k9);
    let a0: usize = k9 + 4;
    let (v_inside, a1) = match read_varint(data, a0) {
        Ok(p) => p,
        Err(e) => {
            return Err(e);
        },
    };
    let (v_outer, a2) = match read_varint(data, a1) {
        Ok(p) => p,
        Err(e) => {
            return Err(e);
        },
    };
    let (r_skip2, a3) = match read_varint(data, a2) {
        Ok(p) => p,
        Err(e) => {
            return Err(e);
        },
    };
    let (r_skip3, a4) = match read_varint(data, a3) {
        Ok(p) => p,
        Err(e) => {
            return Err(e);
        },
    };
    let (bd0, v1) = match read_varint(data, a4) {
        Ok(p) => p,
        Err(e) => {
            return Err(e);
        },
    };
    let (sd0, v2) = match read_varint(data, v1) {
        Ok(p) => p,
        Err(e) => {
            return Err(e);
        },
    };
    let (bn0, v3) = match read_varint(data, v2) {
        Ok(p) => p,
        Err(e) => {
            return Err(e);
        },
    };
    let (sn0, v4) = match read_varint(data, v3) {
        Ok(p) => p,
        Err(e) => {
            return Err(e);
        },
    };
    let (bd1, v5) = match read_varint(data, v4) {
        Ok(p) => p,
        Err(e) => {
            return Err(e);
        },
    };
    let (sd1, v6) = match read_varint(data, v5) {
        Ok(p) => p,
        Err(e) => {
            return Err(e);
        },
    };
    let (bn1, v7) = match read_varint(data, v6) {
        Ok(p) => p,
        Err(e) => {
            return Err(e);
        },
    };
    let (sn1, v8) = match read_varint(data, v7) {
        Ok(p) => p,
        Err(e) => {
            return Err(e);
        },
    };
    let (bd2, v9) = match read_varint(data, v8) {
        Ok(p) => p,
        Err(e) => {
            return Err(e);
        },
    };
    let (sd2, v10) = match read_varint(data, v9) {
        Ok(p) => p,
        Err(e) => {
            return Err(e);
        },
    };
    let (bn2, v11) = match read_varint(data, v10) {
        Ok(p) => p,
        Err(e) => {
            return Err(e);
        },
    };
    let (sn2, v12) = match read_varint(data, v11) {
        Ok(p) => p,
        Err(e) => {
            return Err(e);
        },
    };
    let (bd3, v13) = match read_varint(data, v12) {
        Ok(p) => p,
        Err(e) => {
            return Err(e);
        },
    };
    let (sd3, v14) = match read_varint(data, v13) {
        Ok(p) => p,
        Err(e) => {
            return Err(e);
        },
    };
    let (bn3, v15) = match read_varint(data, v14) {
        Ok(p) => p,
        Err(e) => {
            return Err(e);
        },
    };
    let (sn3, v16) = match read_varint(data, v15) {
        Ok(p) => p,
        Err(e) => {
            return Err(e);
        },
    };
    let (bd4, v17) = match read_varint(data, v16) {
        Ok(p) => p,
        Err(e) => {
            return Err(e);
        },
    };
    let (sd4, v18) = match read_varint(data, v17) {
        Ok(p) => p,
        Err(e) => {
            return Err(e);
        },
    };
    let (bn4, v19) = match read_varint(data, v18) {
        Ok(p) => p,
        Err(e) => {
            return Err(e);
        },
    };
    let (sn4, v20) = match read_varint(data, v19) {
        Ok(p) => p,
        Err(e) => {
            return Err(e);
        },
    };
    if data.len() - v20 < 2 {
        return Err(MessageError::InsufficientData);
    }
    let z0: usize = v20 + 2;
    let (r_w1, w1) = match read_varint(data, z0) {
        Ok(p) => p,
        Err(e) => {
            return Err(e);
        },
    };
    let (r_w2, w2) = match read_varint(data, w1) {
        Ok(p) => p,
        Err(e) => {
            return Err(e);
        },
    };
    let (r_w3, w3) = match read_varint(data, w2) {
        Ok(p) => p,
        Err(e) => {
            return Err(e);
        },
    };
    let (r_w4, w4) = match read_varint(data, w3) {
        Ok(p) => p,
        Err(e) => {
            return Err(e);
        },
    };
    if data.len() - w4 < 4 {
        return Err(MessageError::InsufficientData);
    }
    let rate_raw: u16 = read_u16_at(data, w4);
    let active2: u16 = read_u16_at(data, w4 + 2);
    let server_time: String = crate::text::dec_string_i32(r_srv);
    let buy_level: [PriceLevel; 5] = [
        PriceLevel { buy: true, price: Price(10 * (bd0 as i64) + close), number: bn0 },
        PriceLevel { buy: true, price: Price(10 * (bd1 as i64) + close), number: bn1 },
        PriceLevel { buy: true, price: Price(10 * (bd2 as i64) + close), number: bn2 },
        PriceLevel { buy: true, price: Price(10 * (bd3 as i64) + close), number: bn3 },
        PriceLevel { buy: true, price: Price(10 * (bd4 as i64) + close), number: bn4 },
    ];
    let sell_level: [PriceLevel; 5] = [
        PriceLevel { buy: false, price: Price(10 * (sd0 as i64) + close), number: sn0 },
        PriceLevel { buy: false, price: Price(10 * (sd1 as i64) + close), number: sn1 },
        PriceLevel { buy: false, price: Price(10 * (sd2 as i64) + close), number: sn2 },
        PriceLevel { buy: false, price: Price(10 * (sd3 as i64) + close), number: sn3 },
        PriceLevel { buy: false, price: Price(10 * (sd4 as i64) + close), number: sn4 },
    ];
    let q = crate::types::QuoteInfo {
        exchange,
        code,
        active1,
        k: crate::types::K {
            last: Price(close + 10 * (d_last as i64)),
            open: Price(close + 10 * (d_open as i64)),
            high: Price(close + 10 * (d_high as i64)),
            low: Price(close + 10 * (d_low as i64)),
            close: Price(close),
        },
        server_time,
        total_hand: v_total,
        intuition: v_intu,
        amount_raw,
        inside_dish: v_inside,
        outer_disc: v_outer,
        buy_level,
        sell_level,
        rate_raw,
        active2,
    };
        let new_offset: usize = w4 + 4;
        proof {
            assert(quote_rec_ok(s, off0));
            assert(new_offset as int == quote_rec_end(s, off0));
            assert(code@ == trimmed_nuls(gbk_decoded(s.subrange(off0 + 1, off0 + 7)))) by {
                assert(code_bytes@ =~= s.subrange(off0 + 1, off0 + 7));
            }
            assert(quote_rec_matches(s, off0, q));
        }
        Ok((q, new_offset))
    }

    /// Reads a quote series: two version bytes, a count, then that many
    /// records.
    #[verifier::rlimit(100)]
    #[verifier::spinoff_prover]
    pub fn decode_response(data: &[u8]) -> (r: Result<Vec<crate::types::QuoteInfo>, MessageError>)
        ensures
            r is Ok <==> data@.len() >= 4 && quote_can_parse(data@, 4, le16(data@.skip(2))),
            r matches Ok(list) ==> quote_rows_ok(data@, 4, le16(data@.skip(2)), list@),
            r matches Err(e) ==> (if data@.len() < 4 || quote_fail_trunc(
                data@,
                4,
                le16(data@.skip(2)),
            ) {
                e == MessageError::InsufficientData
            } else {
                e is ParseError
            }),
    {
        if data.len() < 4 {
            return Err(MessageError::InsufficientData);
        }
        let ghost s = data@;
        let ghost cnt = le16(data@.skip(2));
        let count: u16 = read_u16_at(data, 2);
        let mut list: Vec<crate::types::QuoteInfo> = Vec::new();
        let mut offset: usize = 4;
        let mut i: usize = 0;
        while i < count as usize
            invariant
                s == data@,
                s.len() >= 4,
                cnt == le16(s.skip(2)),
                count as int == cnt,
                i <= count as usize,
                offset <= s.len(),
                list@.len() == i,
                quote_can_parse(s, 4, cnt) <==> quote_can_parse(s, offset as int, cnt - i),
                quote_fail_trunc(s, 4, cnt) == quote_fail_trunc(s, offset as int, cnt - i),
                forall|rest: Seq<crate::types::QuoteInfo>|
                    #[trigger] quote_rows_ok(s, offset as int, cnt - i, rest) ==> quote_rows_ok(
                        s,
                        4,
                        cnt,
                        list@ + rest,
                    ),
            decreases count as usize - i,
        {
            let ghost off0 = offset as int;
            let ghost list0 = list@;
            let (q, new_offset) = match Quote::read_record(data, offset) {
                Ok(p) => p,
                Err(e) => {
                    return Err(e);
                },
            };
            list.push(q);
            offset = new_offset;
            i = i + 1;
            proof {
                assert forall|rest: Seq<crate::types::QuoteInfo>|
                    #[trigger] quote_rows_ok(s, offset as int, cnt - i, rest) implies quote_rows_ok(
                    s,
                    4,
                    cnt,
                    list@ + rest,
                ) by {
                    let ext = seq![q] + rest;
                    assert(ext[0] == q);
                    assert(ext.skip(1) =~= rest);
                    assert(quote_rows_ok(s, off0, cnt - (i - 1), ext));
                    assert(list0 + ext =~= list@ + rest);
                }
            }
        }
        proof {
            let empty: Seq<crate::types::QuoteInfo> = Seq::empty();
            assert(quote_rows_ok(s, offset as int, 0, empty));
            assert(list@ + empty =~= list@);
        }
        Ok(list)
    }
}

/// Law: a decoded minute line carries exactly as many samples as its
/// count says, and sample `i` is stamped with the clock label of the
/// `i`-th trading minute.
pub proof fn lemma_minute_rows_times(
    s: Seq<u8>,
    off: int,
    k: int,
    last: int,
    idx: int,
    rows: Seq<crate::types::PriceNumber>,
)
    requires
        minute_rows_ok(s, off, k, last, idx, rows),
        k >= 0,
    ensures
        rows.len() == k,
        forall|i: int|
            0 <= i < k ==> #[trigger] rows[i].time@ == crate::text::hhmm_chars(
                minute_sample_minute(idx + i),
            ),
    decreases k,
{
    if k > 0 {
        lemma_minute_rows_times(
            s,
            minute_rec_end(s, off),
            k - 1,
            last + vi_val(s, off),
            idx + 1,
            rows.skip(1),
        );
        assert forall|i: int|
            0 <= i < k implies #[trigger] rows[i].time@ == crate::text::hhmm_chars(
            minute_sample_minute(idx + i),
        ) by {
            if i > 0 {
                assert(rows.skip(1)[i - 1] == rows[i]);
            }
        }
    }
}

/// Law: the trading minutes of a minute line strictly increase with the
/// sample index, and the jump over the lunch break falls exactly at
/// sample 120: sample 119 reads half past eleven, sample 120 one past
/// one.
pub proof fn lemma_minute_times_monotonic(i: int, j: int)
    requires
        0 <= i < j,
    ensures
        minute_sample_minute(i) < minute_sample_minute(j),
        minute_sample_minute(119) == 11 * 60 + 30,
        minute_sample_minute(120) == 13 * 60 + 1,
{
}

} // verus!
