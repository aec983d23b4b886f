//! Primitive wire codec: little-endian integer views and the signed
//! variable-width integer encoding used throughout the protocol.
//!
//! A varint's first byte carries bit 7 as "more bytes follow", bit 6 as the
//! sign, and six payload bits; each continuation byte carries bit 7 as "more"
//! and seven payload bits, least significant first.

use vstd::prelude::*;

verus! {

// --- little-endian byte views ---

/// The first two bytes of `s` read as a little-endian 16-bit value.
pub open spec fn le16(s: Seq<u8>) -> int
    recommends
        s.len() >= 2,
{
    s[0] + 0x100 * s[1]
}

/// The first four bytes of `s` read as a little-endian 32-bit value.
pub open spec fn le32(s: Seq<u8>) -> int
    recommends
        s.len() >= 4,
{
    s[0] + 0x100 * s[1] + 0x10000 * s[2] + 0x1000000 * s[3]
}

/// The first four bytes of `s` read as a big-endian 32-bit value
/// (only the response frame prefix is stored this way).
pub open spec fn be32(s: Seq<u8>) -> int
    recommends
        s.len() >= 4,
{
    0x1000000 * s[0] + 0x10000 * s[1] + 0x100 * s[2] + s[3]
}

/// The two-byte little-endian form of `v`.
pub open spec fn le16_bytes(v: u16) -> Seq<u8> {
    seq![(v % 0x100) as u8, (v / 0x100) as u8]
}

/// The four-byte little-endian form of `v`.
pub open spec fn le32_bytes(v: u32) -> Seq<u8> {
    seq![
        (v % 0x100) as u8,
        ((v / 0x100) % 0x100) as u8,
        ((v / 0x10000) % 0x100) as u8,
        (v / 0x1000000) as u8,
    ]
}

/// Reads a little-endian u16 from the front of `bytes`; short input gives 0.
pub fn bytes_to_u16_le(bytes: &[u8]) -> (r: u16)
    ensures
        r as int == if bytes@.len() < 2 { 0int } else { le16(bytes@) },
{
    if bytes.len() < 2 {
        return 0;
    }
    bytes[0] as u16 + 0x100 * bytes[1] as u16
}

/// Reads a little-endian u32 from the front of `bytes`; short input gives 0.
pub fn bytes_to_u32_le(bytes: &[u8]) -> (r: u32)
    ensures
        r as int == if bytes@.len() < 4 { 0int } else { le32(bytes@) },
{
    if bytes.len() < 4 {
        return 0;
    }
    bytes[0] as u32 + 0x100 * bytes[1] as u32 + 0x10000 * bytes[2] as u32 + 0x1000000 * bytes[3]
        as u32
}

/// Writes `value` as two little-endian bytes.
pub fn u16_to_bytes_le(value: u16) -> (r: [u8; 2])
    ensures
        r@ == le16_bytes(value),
{
    let r = [(value % 0x100) as u8, (value / 0x100) as u8];
    proof {
        assert(r@ =~= le16_bytes(value));
    }
    r
}

/// Writes `value` as four little-endian bytes.
pub fn u32_to_bytes_le(value: u32) -> (r: [u8; 4])
    ensures
        r@ == le32_bytes(value),
{
    let r = [
        (value % 0x100) as u8,
        ((value / 0x100) % 0x100) as u8,
        ((value / 0x10000) % 0x100) as u8,
        (value / 0x1000000) as u8,
    ];
    proof {
        assert(r@ =~= le32_bytes(value));
    }
    r
}

/// The reversal of `bytes` (big-endian to little-endian helper).
pub fn reverse_bytes(bytes: &[u8]) -> (r: Vec<u8>)
    ensures
        r@.len() == bytes@.len(),
        forall|i: int| 0 <= i < r@.len() ==> r@[i] == bytes@[bytes@.len() - 1 - i],
{
    let mut r: Vec<u8> = Vec::new();
    let n: usize = bytes.len();
    let mut i: usize = 0;
    while i < n
        invariant
            n == bytes@.len(),
            i <= n,
            r@.len() == i,
            forall|j: int| 0 <= j < i ==> r@[j] == bytes@[n - 1 - j],
        decreases n - i,
    {
        r.push(bytes[n - 1 - i]);
        i = i + 1;
    }
    r
}

// --- the signed varint ---

/// Whether byte `b` has its "more bytes follow" bit (bit 7) set.
pub open spec fn varint_more(b: u8) -> bool {
    (b as int) / 0x80 == 1
}

/// Number of bytes a varint read starting at index `i` of `s` consumes:
/// everything up to and including the first byte without the "more" bit,
/// or the rest of `s` if every byte has it.
pub open spec fn varint_len_from(s: Seq<u8>, i: int) -> int
    decreases s.len() - i,
{
    if i < 0 || i >= s.len() {
        0
    } else if !varint_more(s[i]) {
        1
    } else {
        1 + varint_len_from(s, i + 1)
    }
}

/// Number of bytes the varint at the front of `s` consumes.
pub open spec fn varint_len(s: Seq<u8>) -> int {
    varint_len_from(s, 0)
}

/// Payload of the continuation bytes of the varint at the front of `s`,
/// starting at index `i >= 1`, in Horner form (seven bits per byte,
/// least significant first).
pub open spec fn varint_cont(s: Seq<u8>, i: int) -> int
    decreases varint_len(s) - i,
{
    if i < 1 || i >= varint_len(s) || varint_len(s) > s.len() {
        0
    } else {
        (s[i] as int) % 0x80 + 0x80 * varint_cont(s, i + 1)
    }
}

/// Magnitude of the varint at the front of `s`: six payload bits of the
/// first byte plus the continuation payload shifted past them.
pub open spec fn varint_mag(s: Seq<u8>) -> int
    recommends
        s.len() > 0,
{
    (s[0] as int) % 0x40 + 0x40 * varint_cont(s, 1)
}

/// Whether the varint at the front of `s` carries the sign bit (bit 6 of
/// the first byte).
pub open spec fn varint_negative(s: Seq<u8>) -> bool {
    s.len() > 0 && ((s[0] as int) / 0x40) % 2 == 1
}

/// Signed value of the varint at the front of `s`.
pub open spec fn varint_value(s: Seq<u8>) -> int {
    if varint_negative(s) {
        -varint_mag(s)
    } else {
        varint_mag(s)
    }
}

proof fn lemma_varint_len_from_bounds(s: Seq<u8>, i: int)
    requires
        0 <= i <= s.len(),
    ensures
        0 <= varint_len_from(s, i) <= s.len() - i,
        i < s.len() ==> varint_len_from(s, i) >= 1,
    decreases s.len() - i,
{
    if i < s.len() && varint_more(s[i]) {
        lemma_varint_len_from_bounds(s, i + 1);
    }
}

/// A varint's continuation payload is never negative.
pub proof fn lemma_varint_cont_nonneg(s: Seq<u8>, i: int)
    ensures
        varint_cont(s, i) >= 0,
    decreases varint_len(s) - i,
{
    if !(i < 1 || i >= varint_len(s) || varint_len(s) > s.len()) {
        lemma_varint_cont_nonneg(s, i + 1);
    }
}

/// A varint's magnitude is never negative.
pub proof fn lemma_varint_mag_nonneg(s: Seq<u8>)
    requires
        s.len() > 0,
    ensures
        varint_mag(s) >= 0,
{
    lemma_varint_cont_nonneg(s, 1);
}

/// The consumed length of a varint is at least one byte and at most the
/// whole input.
pub proof fn lemma_varint_len_bounds(s: Seq<u8>)
    requires
        s.len() > 0,
    ensures
        1 <= varint_len(s) <= s.len(),
{
    lemma_varint_len_from_bounds(s, 0);
}

/// Decodes the signed varint at the front of `bytes`, returning the value
/// and the number of bytes consumed. Empty input gives `(0, 0)`. When the
/// magnitude does not fit a 32-bit integer the consumed count is still
/// exact and the value saturates.
pub fn decode_varint(bytes: &[u8]) -> (r: (i32, usize))
    ensures
        bytes@.len() == 0 ==> r == (0i32, 0usize),
        bytes@.len() > 0 ==> r.1 as int == varint_len(bytes@),
        bytes@.len() > 0 && varint_mag(bytes@) <= i32::MAX ==> r.0 as int == varint_value(bytes@),
        bytes@.len() > 0 && varint_mag(bytes@) > i32::MAX && varint_negative(bytes@) ==> r.0
            == i32::MIN,
        bytes@.len() > 0 && varint_mag(bytes@) > i32::MAX && !varint_negative(bytes@) ==> r.0
            == i32::MAX,
{
    if bytes.is_empty() {
        return (0, 0);
    }
    proof {
        lemma_varint_len_bounds(bytes@);
    }
    // First pass: find how many bytes the varint occupies.
    let n: usize = bytes.len();
    let mut j: usize = 0;
    let mut consumed: usize = n;
    let mut found: bool = false;
    while j < n && !found
        invariant
            n == bytes@.len(),
            0 <= j <= n,
            !found ==> varint_len(bytes@) == j + varint_len_from(bytes@, j as int),
            !found ==> consumed == n,
            found ==> consumed as int == varint_len(bytes@),
            found ==> 1 <= consumed <= n,
        decreases (if found {
            0int
        } else {
            n - j + 1
        }),
    {
        if bytes[j] < 0x80 {
            consumed = j + 1;
            found = true;
        } else {
            j = j + 1;
        }
    }
    proof {
        if !found {
            assert(j == n);
            assert(varint_len_from(bytes@, n as int) == 0);
            assert(consumed as int == varint_len(bytes@));
        }
    }
    // Second pass: fold the continuation payload from the last byte back,
    // clamping at 2^31 so that out-of-range inputs cannot overflow.
    let cap: u64 = 0x8000_0000;
    let mut m: u64 = 0;
    let mut k: usize = consumed;
    while k > 1
        invariant
            cap == 0x8000_0000,
            n == bytes@.len(),
            1 <= consumed <= n,
            consumed as int == varint_len(bytes@),
            1 <= k <= consumed,
            m == if varint_cont(bytes@, k as int) <= cap {
                varint_cont(bytes@, k as int)
            } else {
                cap as int
            },
            m <= cap,
        decreases k,
    {
        k = k - 1;
        let b: u64 = (bytes[k] % 0x80) as u64;
        let mut next: u64 = b + 0x80 * m;
        if next > cap {
            next = cap;
        }
        m = next;
    }
    let first: u8 = bytes[0];
    let mut mag: u64 = (first % 0x40) as u64 + 0x40 * m;
    if mag > cap {
        mag = cap;
    }
    proof {
        assert(mag == if varint_mag(bytes@) <= cap {
            varint_mag(bytes@)
        } else {
            cap as int
        });
    }
    let negative: bool = (first / 0x40) % 2 == 1;
    proof {
        assert(negative == varint_negative(bytes@));
    }
    let value: i32 = if mag <= 0x7FFF_FFFF {
        if negative {
            -(mag as i32)
        } else {
            mag as i32
        }
    } else {
        if negative {
            i32::MIN
        } else {
            i32::MAX
        }
    };
    (value, consumed)
}

/// Encodes `value` as a signed varint: six payload bits plus the sign in
/// the first byte, seven payload bits in each continuation byte.
pub fn encode_varint(value: i32) -> (r: Vec<u8>)
    ensures
        1 <= r@.len() <= 5,
        varint_len(r@) == r@.len(),
        varint_mag(r@) == if value >= 0 {
            value as int
        } else {
            -(value as int)
        },
        varint_negative(r@) == (value < 0),
        varint_value(r@) == value as int,
        !varint_more(r@[r@.len() - 1]),
{
    let mag: u32 = if value >= 0 {
        value as u32
    } else {
        (-(value as i64)) as u32
    };
    let negative: bool = value < 0;
    let low6: u8 = (mag % 0x40) as u8;
    let c1: u32 = mag / 0x40;
    let d1: u8 = (c1 % 0x80) as u8;
    let c2: u32 = c1 / 0x80;
    let d2: u8 = (c2 % 0x80) as u8;
    let c3: u32 = c2 / 0x80;
    let d3: u8 = (c3 % 0x80) as u8;
    let c4: u32 = c3 / 0x80;
    let d4: u8 = (c4 % 0x80) as u8;
    let sign: u8 = if negative {
        0x40
    } else {
        0
    };
    let mut r: Vec<u8> = Vec::new();
    if c1 == 0 {
        r.push(low6 + sign);
    } else {
        r.push(low6 + sign + 0x80);
        if c2 == 0 {
            r.push(d1);
        } else {
            r.push(d1 + 0x80);
            if c3 == 0 {
                r.push(d2);
            } else {
                r.push(d2 + 0x80);
                if c4 == 0 {
                    r.push(d3);
                } else {
                    r.push(d3 + 0x80);
                    r.push(d4);
                }
            }
        }
    }
    proof {
        lemma_pow128_values();
        let c = c1 as int;
        vstd::arithmetic::div_mod::lemma_div_denominator(c, 0x80, 0x80);
        assert(c / pow128(2) == c2 as int / 0x80);
        vstd::arithmetic::div_mod::lemma_div_denominator(c, 0x4000, 0x80);
        assert(c / pow128(3) == c3 as int / 0x80);
        vstd::arithmetic::div_mod::lemma_div_denominator(c, 0x20_0000, 0x80);
        assert(c / pow128(4) == c4 as int / 0x80);
        assert(c4 < 0x80) by {
            assert(c < 0x400_0000);
        }
        assert(c / pow128(4) == 0);
        lemma_encode_shape(r@, mag as int, negative);
    }
    r
}

proof fn lemma_pow128_values()
    ensures
        pow128(0) == 1,
        pow128(1) == 0x80,
        pow128(2) == 0x4000,
        pow128(3) == 0x20_0000,
        pow128(4) == 0x1000_0000,
{
    assert(pow128(0) == 1);
    assert(pow128(1) == 0x80 * pow128(0));
    assert(pow128(2) == 0x80 * pow128(1));
    assert(pow128(3) == 0x80 * pow128(2));
    assert(pow128(4) == 0x80 * pow128(3));
}

/// A byte sequence built by the encoder decodes back to the same magnitude
/// and sign: its "more" chain covers exactly the sequence, its payload in
/// Horner form is `mag`, and bit 6 of its first byte is the sign.
proof fn lemma_encode_shape(s: Seq<u8>, mag: int, negative: bool)
    requires
        1 <= s.len() <= 5,
        0 <= mag < 0x1_0000_0000,
        s[0] as int == mag % 0x40 + (if negative {
            0x40int
        } else {
            0int
        }) + (if s.len() > 1 {
            0x80int
        } else {
            0int
        }),
        forall|i: int|
            1 <= i < s.len() ==> s[i] as int == (mag / 0x40) / pow128(i - 1) % 0x80 + (if i
                < s.len() - 1 {
                0x80int
            } else {
                0int
            }),
        (mag / 0x40) / pow128(s.len() - 1) == 0,
        s.len() > 1 ==> (mag / 0x40) / pow128(s.len() - 2) > 0,
        s.len() == 1 ==> mag / 0x40 == 0,
    ensures
        varint_len(s) == s.len(),
        varint_mag(s) == mag,
        varint_negative(s) == negative,
        !varint_more(s[s.len() - 1]),
{
    assert forall|i: int| 0 <= i < s.len() implies varint_more(s[i]) == (i < s.len() - 1) by {
        if i == 0 {
            assert((s[0] as int) / 0x80 == if s.len() > 1 {
                1int
            } else {
                0int
            });
        } else {
            assert((mag / 0x40) / pow128(i - 1) % 0x80 < 0x80);
        }
    }
    lemma_len_full(s, 0);
    assert(varint_len(s) == s.len());
    lemma_cont_horner(s, mag / 0x40, 1);
    assert(varint_cont(s, 1) == (mag / 0x40) / pow128(0));
    assert(varint_mag(s) == (s[0] as int) % 0x40 + 0x40 * varint_cont(s, 1));
    assert((s[0] as int) % 0x40 == mag % 0x40);
    assert(mag == mag % 0x40 + 0x40 * (mag / 0x40));
    assert((s[0] as int) / 0x40 % 2 == if negative {
        1int
    } else {
        0int
    });
}

/// 128 to the power `k` (0 for negative `k`), used to index the varint's
/// seven-bit payload groups.
pub open spec fn pow128(k: int) -> int
    decreases k,
{
    if k <= 0 {
        1
    } else {
        0x80 * pow128(k - 1)
    }
}

proof fn lemma_len_full(s: Seq<u8>, i: int)
    requires
        0 <= i <= s.len(),
        forall|j: int| 0 <= j < s.len() ==> varint_more(s[j]) == (j < s.len() - 1),
        s.len() >= 1,
    ensures
        varint_len_from(s, i) == s.len() - i,
    decreases s.len() - i,
{
    if i < s.len() {
        lemma_len_full(s, i + 1);
    }
}

proof fn lemma_cont_horner(s: Seq<u8>, c: int, i: int)
    requires
        1 <= i <= s.len(),
        varint_len(s) == s.len(),
        c >= 0,
        forall|j: int| 1 <= j < s.len() ==> (s[j] as int) % 0x80 == c / pow128(j - 1) % 0x80,
        c / pow128(s.len() - 1) == 0,
    ensures
        varint_cont(s, i) == c / pow128(i - 1),
    decreases s.len() - i,
{
    if i >= s.len() {
        lemma_pow128_zero_div(c, s.len() - 1, i - 1);
    } else {
        lemma_cont_horner(s, c, i + 1);
        assert(varint_cont(s, i) == (s[i] as int) % 0x80 + 0x80 * (c / pow128(i)));
        lemma_div_pow128_step(c, i - 1);
    }
}

proof fn lemma_pow128_zero_div(c: int, k: int, j: int)
    requires
        c >= 0,
        k >= 0,
        j >= k,
        c / pow128(k) == 0,
    ensures
        c / pow128(j) == 0,
    decreases j - k,
{
    lemma_pow128_pos(k);
    if j > k {
        lemma_pow128_pos(j - 1);
        lemma_pow128_zero_div(c, k, j - 1);
        lemma_div_pow128_step(c, j - 1);
        assert(c / pow128(j - 1) == (c / pow128(j - 1)) % 0x80 + 0x80 * (c / pow128(j)));
    }
}

proof fn lemma_pow128_pos(k: int)
    ensures
        pow128(k) >= 1,
    decreases (if k > 0 {
        k
    } else {
        0int
    }),
{
    if k > 0 {
        lemma_pow128_pos(k - 1);
    }
}

/// The payload-group split of `c` at position `k`: the quotient by
/// `pow128(k)` is its own low seven bits plus 0x80 times the quotient by
/// `pow128(k + 1)`.
proof fn lemma_div_pow128_step(c: int, k: int)
    requires
        c >= 0,
        k >= 0,
    ensures
        c / pow128(k) == (c / pow128(k)) % 0x80 + 0x80 * (c / pow128(k + 1)),
{
    lemma_pow128_pos(k);
    vstd::arithmetic::div_mod::lemma_div_denominator(c, pow128(k), 0x80);
    assert(c / pow128(k) / 0x80 == c / (pow128(k) * 0x80));
    assert(pow128(k) * 0x80 == pow128(k + 1)) by {
        assert(pow128(k + 1) == 0x80 * pow128(k));
    }
    let q = c / pow128(k);
    vstd::arithmetic::div_mod::lemma_fundamental_div_mod(q, 0x80);
    assert(q == 0x80 * (q / 0x80) + q % 0x80);
}

/// Decodes the signed varint found at offset `off` of `data`.
pub fn decode_varint_at(data: &[u8], off: usize) -> (r: (i32, usize))
    requires
        off <= data@.len(),
    ensures
        ({
            let s = data@.skip(off as int);
            &&& (s.len() == 0 ==> r == (0i32, 0usize))
            &&& (s.len() > 0 ==> r.1 as int == varint_len(s))
            &&& (s.len() > 0 && varint_mag(s) <= i32::MAX ==> r.0 as int == varint_value(s))
            &&& (s.len() > 0 && varint_mag(s) > i32::MAX && varint_negative(s) ==> r.0
                == i32::MIN)
            &&& (s.len() > 0 && varint_mag(s) > i32::MAX && !varint_negative(s) ==> r.0
                == i32::MAX)
        }),
{
    let sub: &[u8] = vstd::slice::slice_subrange(data, off, data.len());
    proof {
        assert(sub@ =~= data@.skip(off as int));
    }
    decode_varint(sub)
}

/// Decodes the signed varint at the front of `bytes` as a price in
/// thousandths of a yuan.
pub fn decode_price(bytes: &[u8]) -> (r: (crate::types::Price, usize))
    ensures
        bytes@.len() == 0 ==> r.0.0 == 0 && r.1 == 0,
        bytes@.len() > 0 ==> r.1 as int == varint_len(bytes@),
        bytes@.len() > 0 && varint_mag(bytes@) <= i32::MAX ==> r.0.0 as int == varint_value(
            bytes@,
        ),
        bytes@.len() > 0 && varint_mag(bytes@) > i32::MAX && varint_negative(bytes@) ==> r.0.0
            == i32::MIN as i64,
        bytes@.len() > 0 && varint_mag(bytes@) > i32::MAX && !varint_negative(bytes@) ==> r.0.0
            == i32::MAX as i64,
{
    let (value, consumed) = decode_varint(bytes);
    (crate::types::Price(value as i64), consumed)
}

// --- the four-byte quasi-float ---

/// Integer mantissa of the four-byte quasi-float at the front of `s`,
/// scaled so that the encoded value is `vol2_mantissa * 2^vol2_exp`.
/// Byte 3 holds the exponent; bytes 2, 1 and 0 hold high, middle and low
/// mantissa parts, the middle and low parts doubled when bit 7 of the
/// high part is set.
pub open spec fn vol2_mantissa(s: Seq<u8>) -> int
    recommends
        s.len() >= 4,
{
    let h = s[2] as int;
    let m = s[1] as int;
    let l = s[0] as int;
    let scale: int = if h >= 0x80 {
        2
    } else {
        1
    };
    let hi: int = if h > 0x80 {
        (0x40 + h % 0x80) * 0x2_0000
    } else {
        h * 0x1_0000
    };
    0x80_0000 + hi + m * scale * 0x100 + l * scale
}

/// Binary exponent of the four-byte quasi-float at the front of `s`,
/// relative to the scaled mantissa.
pub open spec fn vol2_exp(s: Seq<u8>) -> int
    recommends
        s.len() >= 4,
{
    2 * (s[3] as int) - 0x7f - 23
}

/// `k` times the value of the quasi-float at the front of `s`, rounded
/// toward zero (the value is never negative).
pub open spec fn vol2_scaled_floor(s: Seq<u8>, k: int) -> int
    recommends
        s.len() >= 4,
{
    let m = vol2_mantissa(s) * k;
    let e = vol2_exp(s);
    if e >= 0 {
        m * vstd::arithmetic::power2::pow2(e as nat)
    } else {
        m / vstd::arithmetic::power2::pow2((-e) as nat) as int
    }
}

/// `v` clamped from above to the largest signed 64-bit value.
pub open spec fn sat_i64(v: int) -> int {
    if v > i64::MAX {
        i64::MAX as int
    } else {
        v
    }
}

/// Two to the power `e`.
fn pow2_u64(e: u64) -> (r: u64)
    requires
        e <= 63,
    ensures
        r as int == vstd::arithmetic::power2::pow2(e as nat),
{
    let mut r: u64 = 1;
    let mut i: u64 = 0;
    proof {
        vstd::arithmetic::power2::lemma2_to64();
    }
    while i < e
        invariant
            i <= e <= 63,
            r as int == vstd::arithmetic::power2::pow2(i as nat),
        decreases e - i,
    {
        proof {
            vstd::arithmetic::power2::lemma_pow2_adds(i as nat, 1);
            vstd::arithmetic::power2::lemma2_to64();
            assert(vstd::arithmetic::power2::pow2(1) == 2);
            vstd::arithmetic::power2::lemma_pow2_strictly_increases((i + 1) as nat, 64);
            vstd::arithmetic::power2::lemma2_to64_rest();
            assert(vstd::arithmetic::power2::pow2((i + 1) as nat) < 0x1_0000_0000_0000_0000);
        }
        r = r * 2;
        i = i + 1;
    }
    r
}

/// Decodes the four-byte quasi-float at the front of `bytes` and returns
/// `k` times its value, rounded toward zero, clamped to the signed
/// 64-bit range. Short input gives 0.
pub fn decode_volume2_scaled_floor(bytes: &[u8], k: u64) -> (r: i64)
    requires
        1 <= k <= 1000,
    ensures
        r as int == if bytes@.len() < 4 {
            0int
        } else {
            sat_i64(vol2_scaled_floor(bytes@, k as int))
        },
        r >= 0,
{
    if bytes.len() < 4 {
        return 0;
    }
    let logpoint: u64 = bytes[3] as u64;
    let h: u64 = bytes[2] as u64;
    let mid: u64 = bytes[1] as u64;
    let low: u64 = bytes[0] as u64;
    let scale: u64 = if h >= 0x80 {
        2
    } else {
        1
    };
    let hi: u64 = if h > 0x80 {
        (0x40 + h % 0x80) * 0x2_0000
    } else {
        h * 0x1_0000
    };
    let mant: u64 = 0x80_0000 + hi + mid * scale * 0x100 + low * scale;
    proof {
        assert(mant as int == vol2_mantissa(bytes@));
        assert(0x80_0000 <= mant < 0x200_0000);
        vstd::arithmetic::mul::lemma_mul_upper_bound(mant as int, 0x1FF_FFFF, k as int, 1000);
        assert(mant as int * k as int <= 0x1FF_FFFF * 1000);
        vstd::arithmetic::mul::lemma_mul_left_inequality(mant as int, 1, k as int);
        assert(mant as int * k as int >= mant as int);
    }
    let mk: u64 = mant * k;
    if 2 * logpoint >= 150 {
        let e: u64 = 2 * logpoint - 150;
        proof {
            assert(e as int == vol2_exp(bytes@));
        }
        if e >= 40 {
            proof {
                lemma_vol2_saturates(mk as int, e as nat);
            }
            i64::MAX
        } else {
            let p: u64 = pow2_u64(e);
            proof {
                vstd::arithmetic::mul::lemma_mul_upper_bound(
                    mk as int,
                    0x8_0000_0000,
                    p as int,
                    0xFFFF_FFFF_FFFF_FFFF,
                );
            }
            let v: u128 = (mk as u128) * (p as u128);
            if v > 0x7FFF_FFFF_FFFF_FFFF {
                i64::MAX
            } else {
                v as i64
            }
        }
    } else {
        let d: u64 = 150 - 2 * logpoint;
        if d >= 36 {
            proof {
                vstd::arithmetic::power2::lemma_pow2_strictly_increases(35, d as nat);
                vstd::arithmetic::power2::lemma2_to64_rest();
                assert(vstd::arithmetic::power2::pow2(35) == 0x8_0000_0000);
                vstd::arithmetic::div_mod::lemma_basic_div(
                    mk as int,
                    vstd::arithmetic::power2::pow2(d as nat) as int,
                );
            }
            0
        } else {
            let p: u64 = pow2_u64(d);
            proof {
                vstd::arithmetic::power2::lemma_pow2_pos(d as nat);
            }
            (mk / p) as i64
        }
    }
}

/// A mantissa of at least 2^23 shifted left by 40 or more bits exceeds
/// the signed 64-bit range.
proof fn lemma_vol2_saturates(mk: int, e: nat)
    requires
        mk >= 0x80_0000,
        e >= 40,
    ensures
        mk * vstd::arithmetic::power2::pow2(e) > i64::MAX,
{
    vstd::arithmetic::power2::lemma_pow2_pos(e);
    if e > 40 {
        vstd::arithmetic::power2::lemma_pow2_strictly_increases(40, e);
    }
    vstd::arithmetic::power2::lemma2_to64_rest();
    assert(vstd::arithmetic::power2::pow2(40) == 0x100_0000_0000);
    let p = vstd::arithmetic::power2::pow2(e) as int;
    vstd::arithmetic::mul::lemma_mul_inequality(0x80_0000, mk, p);
    vstd::arithmetic::mul::lemma_mul_left_inequality(0x80_0000, 0x100_0000_0000, p);
    assert(mk * p >= 0x80_0000 * 0x100_0000_0000);
}

/// Law: the varint codec round-trips every 32-bit value. Bytes with the
/// shape the encoder guarantees decode, by the decoder's own contract,
/// to exactly the encoded value and consume exactly their own length;
/// the one value whose magnitude passes the 32-bit range, `i32::MIN`,
/// comes back through the decoder's saturation clause.
pub proof fn lemma_varint_round_trip(enc: Seq<u8>, v: i32)
    requires
        varint_len(enc) == enc.len(),
        varint_mag(enc) == if v >= 0 {
            v as int
        } else {
            -(v as int)
        },
        varint_negative(enc) == (v < 0),
    ensures
        v != i32::MIN ==> varint_mag(enc) <= i32::MAX && varint_value(enc) == v as int,
        v == i32::MIN ==> varint_mag(enc) > i32::MAX && varint_negative(enc),
{
}

} // verus!
