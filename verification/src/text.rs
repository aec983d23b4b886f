//! Text handling: GBK and UTF-8 bridges for the wire's string fields,
//! plus small verified builders for the strings the decoders emit.

use vstd::prelude::*;
use vstd::string::*;

verus! {

// --- trusted bridges to the outside text codecs ---

/// What encoding_rs's GBK decoder yields for `bytes` (with its WHATWG
/// byte-order-mark sniffing and replacement-character policy).
pub uninterp spec fn gbk_decoded(bytes: Seq<u8>) -> Seq<char>;

/// Relies on encoding_rs: `GBK.decode` is deterministic in its input, maps
/// empty input to empty output, and passes ASCII-only input through
/// unchanged (GBK is ASCII-compatible and no byte-order mark is ASCII).
#[verifier::external_body]
fn gbk_decode_raw(bytes: &[u8]) -> (r: String)
    ensures
        r@ == gbk_decoded(bytes@),
        bytes@.len() == 0 ==> r@.len() == 0,
        (forall|i: int| 0 <= i < bytes@.len() ==> bytes@[i] < 0x80) ==> r@ == bytes@.map_values(
            |b: u8| b as char,
        ),
{
    let (cow, _, _) = encoding_rs::GBK.decode(bytes);
    cow.into_owned()
}

/// What encoding_rs's GBK encoder yields for `s` (unmappable characters
/// become numeric character references).
pub uninterp spec fn gbk_encoded(s: Seq<char>) -> Seq<u8>;

/// Relies on encoding_rs: `GBK.encode` is deterministic in its input, maps
/// empty input to empty output, and passes ASCII-only input through
/// unchanged (GBK is ASCII-compatible).
#[verifier::external_body]
pub fn utf8_to_gbk(s: &str) -> (r: Vec<u8>)
    ensures
        r@ == gbk_encoded(s@),
        s@.len() == 0 ==> r@.len() == 0,
        (forall|i: int| 0 <= i < s@.len() ==> (s@[i] as int) < 0x80) ==> r@ == s@.map_values(
            |c: char| c as u8,
        ),
{
    let (cow, _, _) = encoding_rs::GBK.encode(s);
    cow.into_owned()
}

/// What `String::from_utf8_lossy` yields for `bytes`.
pub uninterp spec fn utf8_lossy_chars(bytes: Seq<u8>) -> Seq<char>;

/// Relies on std's `String::from_utf8_lossy`: deterministic in its input,
/// empty in, empty out, and the identity on ASCII-only input (ASCII is
/// valid UTF-8).
#[verifier::external_body]
pub(crate) fn utf8_lossy(bytes: &[u8]) -> (r: String)
    ensures
        r@ == utf8_lossy_chars(bytes@),
        bytes@.len() == 0 ==> r@.len() == 0,
        (forall|i: int| 0 <= i < bytes@.len() ==> bytes@[i] < 0x80) ==> r@ == bytes@.map_values(
            |b: u8| b as char,
        ),
{
    String::from_utf8_lossy(bytes).into_owned()
}

// --- verified string helpers ---

/// `s` with every trailing NUL character removed.
pub open spec fn trimmed_nuls(s: Seq<char>) -> Seq<char>
    decreases s.len(),
{
    if s.len() == 0 || s[s.len() - 1] != '\0' {
        s
    } else {
        trimmed_nuls(s.drop_last())
    }
}

proof fn lemma_trimmed_nuls(s: Seq<char>, k: int)
    requires
        0 <= k <= s.len(),
        forall|j: int| k <= j < s.len() ==> s[j] == '\0',
        k > 0 ==> s[k - 1] != '\0',
    ensures
        trimmed_nuls(s) == s.subrange(0, k),
    decreases s.len(),
{
    if s.len() == k {
        assert(s.subrange(0, k) =~= s);
    } else {
        assert(s[s.len() - 1] == '\0');
        lemma_trimmed_nuls(s.drop_last(), k);
        assert(s.drop_last().subrange(0, k) =~= s.subrange(0, k));
    }
}

/// Removes the trailing NUL padding the wire leaves on fixed-width text
/// fields.
pub fn trim_trailing_nuls(s: &str) -> (r: String)
    ensures
        r@ == trimmed_nuls(s@),
{
    let n: usize = s.unicode_len();
    let mut k: usize = n;
    while k > 0 && s.get_char(k - 1) == '\0'
        invariant
            k <= n,
            n == s@.len(),
            forall|j: int| k <= j < n ==> s@[j] == '\0',
        decreases k,
    {
        k = k - 1;
    }
    proof {
        lemma_trimmed_nuls(s@, k as int);
    }
    let sub: &str = s.substring_char(0, k);
    sub.to_owned()
}

/// Decodes a GBK text field: transcode to UTF-8, then drop the trailing
/// NUL padding.
pub fn gbk_to_utf8(bytes: &[u8]) -> (r: String)
    ensures
        r@ == trimmed_nuls(gbk_decoded(bytes@)),
        bytes@.len() == 0 ==> r@.len() == 0,
{
    let decoded: String = gbk_decode_raw(bytes);
    trim_trailing_nuls(decoded.as_str())
}

/// The ASCII-lowercase image of `c`: letters A through Z move down by
/// 0x20, everything else stays.
pub open spec fn lower_char(c: char) -> char {
    if 'A' <= c && c <= 'Z' {
        ((c as int) + 0x20) as char
    } else {
        c
    }
}

/// The ASCII-lowercase image of a whole string.
pub open spec fn lower_chars(s: Seq<char>) -> Seq<char> {
    s.map_values(|c: char| lower_char(c))
}

/// Lowercases the ASCII letters of `s` (symbol codes and their exchange
/// prefixes are ASCII).
pub fn to_ascii_lower(s: &str) -> (r: String)
    ensures
        r@ == lower_chars(s@),
{
    proof {
            reveal_strlit("a");
            reveal_strlit("b");
            reveal_strlit("c");
            reveal_strlit("d");
            reveal_strlit("e");
            reveal_strlit("f");
            reveal_strlit("g");
            reveal_strlit("h");
            reveal_strlit("i");
            reveal_strlit("j");
            reveal_strlit("k");
            reveal_strlit("l");
            reveal_strlit("m");
            reveal_strlit("n");
            reveal_strlit("o");
            reveal_strlit("p");
            reveal_strlit("q");
            reveal_strlit("r");
            reveal_strlit("s");
            reveal_strlit("t");
            reveal_strlit("u");
            reveal_strlit("v");
            reveal_strlit("w");
            reveal_strlit("x");
            reveal_strlit("y");
            reveal_strlit("z");
    }
    let n: usize = s.unicode_len();
    let mut out: String = String::new();
    let mut i: usize = 0;
    while i < n
        invariant
            i <= n,
            n == s@.len(),
            out@ == lower_chars(s@.subrange(0, i as int)),
        decreases n - i,
    {
        proof {
            reveal_strlit("a");
            reveal_strlit("b");
            reveal_strlit("c");
            reveal_strlit("d");
            reveal_strlit("e");
            reveal_strlit("f");
            reveal_strlit("g");
            reveal_strlit("h");
            reveal_strlit("i");
            reveal_strlit("j");
            reveal_strlit("k");
            reveal_strlit("l");
            reveal_strlit("m");
            reveal_strlit("n");
            reveal_strlit("o");
            reveal_strlit("p");
            reveal_strlit("q");
            reveal_strlit("r");
            reveal_strlit("s");
            reveal_strlit("t");
            reveal_strlit("u");
            reveal_strlit("v");
            reveal_strlit("w");
            reveal_strlit("x");
            reveal_strlit("y");
            reveal_strlit("z");
        }
        let c: char = s.get_char(i);
        if 'A' <= c && c <= 'Z' {
            let piece: &str = match c {
            'A' => "a",
            'B' => "b",
            'C' => "c",
            'D' => "d",
            'E' => "e",
            'F' => "f",
            'G' => "g",
            'H' => "h",
            'I' => "i",
            'J' => "j",
            'K' => "k",
            'L' => "l",
            'M' => "m",
            'N' => "n",
            'O' => "o",
            'P' => "p",
            'Q' => "q",
            'R' => "r",
            'S' => "s",
            'T' => "t",
            'U' => "u",
            'V' => "v",
            'W' => "w",
            'X' => "x",
            'Y' => "y",
            'Z' => "z",
                _ => "",
            };
            out.append(piece);
        } else {
            let piece: &str = s.substring_char(i, i + 1);
            proof {
                assert(piece@ =~= seq![s@[i as int]]);
            }
            out.append(piece);
        }
        proof {
            assert(out@ =~= lower_chars(s@.subrange(0, i as int + 1)));
        }
        i = i + 1;
    }
    proof {
        assert(s@.subrange(0, n as int) =~= s@);
    }
    out
}

/// The character of a single decimal digit.
pub open spec fn digit_char(d: int) -> char {
    if d == 0 {
        '0'
    } else if d == 1 {
        '1'
    } else if d == 2 {
        '2'
    } else if d == 3 {
        '3'
    } else if d == 4 {
        '4'
    } else if d == 5 {
        '5'
    } else if d == 6 {
        '6'
    } else if d == 7 {
        '7'
    } else if d == 8 {
        '8'
    } else {
        '9'
    }
}

/// One decimal digit as a string.
fn digit_str(d: u64) -> (r: &'static str)
    requires
        d < 10,
    ensures
        r@ == seq![digit_char(d as int)],
{
    proof {
        reveal_strlit("0");
        reveal_strlit("1");
        reveal_strlit("2");
        reveal_strlit("3");
        reveal_strlit("4");
        reveal_strlit("5");
        reveal_strlit("6");
        reveal_strlit("7");
        reveal_strlit("8");
        reveal_strlit("9");
    }
    let r = match d {
        0 => "0",
        1 => "1",
        2 => "2",
        3 => "3",
        4 => "4",
        5 => "5",
        6 => "6",
        7 => "7",
        8 => "8",
        _ => "9",
    };
    proof {
        assert(r@ =~= seq![digit_char(d as int)]);
    }
    r
}

/// The decimal digits of a nonnegative number, most significant first.
pub open spec fn dec_chars(v: int) -> Seq<char>
    decreases v,
{
    if v < 10 {
        seq![digit_char(v)]
    } else {
        dec_chars(v / 10).push(digit_char(v % 10))
    }
}

/// The decimal form of a signed number: a minus sign, if negative, then
/// the digits of the magnitude.
pub open spec fn int_dec_chars(v: int) -> Seq<char> {
    if v < 0 {
        seq!['-'] + dec_chars(-v)
    } else {
        dec_chars(v)
    }
}

/// Writes a nonnegative number in decimal.
pub fn dec_string_u64(v: u64) -> (r: String)
    ensures
        r@ == dec_chars(v as int),
    decreases v,
{
    if v < 10 {
        digit_str(v).to_owned()
    } else {
        let head: String = dec_string_u64(v / 10);
        let tail: &str = digit_str(v % 10);
        let r = head.concat(tail);
        proof {
            assert(r@ =~= dec_chars(v as int));
        }
        r
    }
}

/// Writes a signed 32-bit number in decimal, as the quote decoder does
/// for the server-time field.
pub fn dec_string_i32(v: i32) -> (r: String)
    ensures
        r@ == int_dec_chars(v as int),
{
    proof {
        reveal_strlit("-");
    }
    if v < 0 {
        let mag: u64 = (-(v as i64)) as u64;
        let minus: String = "-".to_owned();
        let r = minus.concat(dec_string_u64(mag).as_str());
        proof {
            assert(r@ =~= int_dec_chars(v as int));
        }
        r
    } else {
        dec_string_u64(v as u64)
    }
}

/// The decimal form of `v` padded with zeros to at least two digits
/// (what a width-two zero-padded format yields).
pub open spec fn pad2_chars(v: int) -> Seq<char> {
    if v < 100 {
        seq![digit_char(v / 10 % 10), digit_char(v % 10)]
    } else {
        dec_chars(v)
    }
}

/// Writes `v` zero-padded to at least two digits.
pub fn pad2_string(v: u64) -> (r: String)
    ensures
        r@ == pad2_chars(v as int),
{
    if v < 100 {
        let head: &str = digit_str(v / 10 % 10);
        let r = head.to_owned().concat(digit_str(v % 10));
        proof {
            assert(r@ =~= pad2_chars(v as int));
        }
        r
    } else {
        dec_string_u64(v)
    }
}

/// The decimal form of `v` padded with zeros to at least four digits
/// (what a width-four zero-padded format yields).
pub open spec fn pad4_chars(v: int) -> Seq<char> {
    if v < 10000 {
        seq![
            digit_char(v / 1000 % 10),
            digit_char(v / 100 % 10),
            digit_char(v / 10 % 10),
            digit_char(v % 10),
        ]
    } else {
        dec_chars(v)
    }
}

/// Writes `v` zero-padded to at least four digits.
pub fn pad4_string(v: u64) -> (r: String)
    ensures
        r@ == pad4_chars(v as int),
{
    if v < 10000 {
        let mut r: String = digit_str(v / 1000 % 10).to_owned();
        r.append(digit_str(v / 100 % 10));
        r.append(digit_str(v / 10 % 10));
        r.append(digit_str(v % 10));
        proof {
            assert(r@ =~= pad4_chars(v as int));
        }
        r
    } else {
        dec_string_u64(v)
    }
}

/// A minute of the day written on the clock, as "HH:MM".
pub open spec fn hhmm_chars(total_minutes: int) -> Seq<char> {
    pad2_chars(total_minutes / 60) + seq![':'] + pad2_chars(total_minutes % 60)
}

/// Writes a minute of the day as "HH:MM".
pub fn hhmm_string(total_minutes: u64) -> (r: String)
    ensures
        r@ == hhmm_chars(total_minutes as int),
{
    proof {
        reveal_strlit(":");
    }
    let mut r: String = pad2_string(total_minutes / 60);
    r.append(":");
    r.append(pad2_string(total_minutes % 60).as_str());
    proof {
        assert(r@ =~= hhmm_chars(total_minutes as int));
    }
    r
}

} // verus!
