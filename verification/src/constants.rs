//! Protocol constants: frame prefixes, message-type tags, bar periods and
//! exchange codes.

use vstd::prelude::*;

verus! {

/// Fixed first byte of every request frame.
pub const PREFIX: u8 = 0x0C;

/// Fixed four-byte prefix of every response frame, read big-endian.
pub const PREFIX_RESP: u32 = 0xB1CB7400;

/// The sixteen-bit tag that names each request/response pair.
#[derive(Debug, Clone, Copy, PartialEq, Eq, Structural)]
pub enum MessageType {
    Connect,
    Heart,
    Gbbq,
    Count,
    Code,
    Quote,
    Minute,
    CallAuction,
    MinuteTrade,
    HistoryMinute,
    HistoryMinuteTrade,
    Kline,
}

/// The wire value of each message type.
pub open spec fn msg_type_u16(t: MessageType) -> int {
    match t {
        MessageType::Connect => 0x000D,
        MessageType::Heart => 0x0004,
        MessageType::Gbbq => 0x000F,
        MessageType::Count => 0x044E,
        MessageType::Code => 0x0450,
        MessageType::Quote => 0x053E,
        MessageType::Minute => 0x051D,
        MessageType::CallAuction => 0x056A,
        MessageType::MinuteTrade => 0x0FC5,
        MessageType::HistoryMinute => 0x0FB4,
        MessageType::HistoryMinuteTrade => 0x0FB5,
        MessageType::Kline => 0x052D,
    }
}

/// Whether `value` is the wire tag of some recognized message type.
pub open spec fn is_known_msg_type(value: int) -> bool {
    exists|t: MessageType| msg_type_u16(t) == value
}

impl MessageType {
    /// The wire value of this message type.
    pub fn as_u16(self) -> (r: u16)
        ensures
            r as int == msg_type_u16(self),
    {
        match self {
            MessageType::Connect => 0x000D,
            MessageType::Heart => 0x0004,
            MessageType::Gbbq => 0x000F,
            MessageType::Count => 0x044E,
            MessageType::Code => 0x0450,
            MessageType::Quote => 0x053E,
            MessageType::Minute => 0x051D,
            MessageType::CallAuction => 0x056A,
            MessageType::MinuteTrade => 0x0FC5,
            MessageType::HistoryMinute => 0x0FB4,
            MessageType::HistoryMinuteTrade => 0x0FB5,
            MessageType::Kline => 0x052D,
        }
    }

    /// Recognizes a wire tag; any unlisted value is refused.
    pub fn from_u16(value: u16) -> (r: Option<MessageType>)
        ensures
            r matches Some(t) ==> msg_type_u16(t) == value as int,
            r is Some <==> is_known_msg_type(value as int),
    {
        let r = match value {
            0x000D => Some(MessageType::Connect),
            0x0004 => Some(MessageType::Heart),
            0x000F => Some(MessageType::Gbbq),
            0x044E => Some(MessageType::Count),
            0x0450 => Some(MessageType::Code),
            0x053E => Some(MessageType::Quote),
            0x051D => Some(MessageType::Minute),
            0x056A => Some(MessageType::CallAuction),
            0x0FC5 => Some(MessageType::MinuteTrade),
            0x0FB4 => Some(MessageType::HistoryMinute),
            0x0FB5 => Some(MessageType::HistoryMinuteTrade),
            0x052D => Some(MessageType::Kline),
            _ => None,
        };
        proof {
            match r {
                Some(t) => {
                    assert(msg_type_u16(t) == value as int);
                    assert(is_known_msg_type(value as int));
                },
                None => {
                    if is_known_msg_type(value as int) {
                        let t = choose|t: MessageType| msg_type_u16(t) == value as int;
                        match t {
                            MessageType::Connect => assert(false),
                            MessageType::Heart => assert(false),
                            MessageType::Gbbq => assert(false),
                            MessageType::Count => assert(false),
                            MessageType::Code => assert(false),
                            MessageType::Quote => assert(false),
                            MessageType::Minute => assert(false),
                            MessageType::CallAuction => assert(false),
                            MessageType::MinuteTrade => assert(false),
                            MessageType::HistoryMinute => assert(false),
                            MessageType::HistoryMinuteTrade => assert(false),
                            MessageType::Kline => assert(false),
                        }
                    }
                },
            }
        }
        r
    }
}

/// The candlestick period of a bar series; the tag controls both the
/// request byte and how the time field of each bar is laid out.
#[derive(Debug, Clone, Copy, PartialEq, Eq, Structural)]
pub enum KlineType {
    Minute5,
    Minute15,
    Minute30,
    Minute60,
    Day2,
    Week,
    Month,
    Minute,
    Minute2,
    Day,
    Quarter,
    Year,
}

/// The wire value of each period tag.
pub open spec fn kline_type_u8(t: KlineType) -> int {
    match t {
        KlineType::Minute5 => 0,
        KlineType::Minute15 => 1,
        KlineType::Minute30 => 2,
        KlineType::Minute60 => 3,
        KlineType::Day2 => 4,
        KlineType::Week => 5,
        KlineType::Month => 6,
        KlineType::Minute => 7,
        KlineType::Minute2 => 8,
        KlineType::Day => 9,
        KlineType::Quarter => 10,
        KlineType::Year => 11,
    }
}

impl KlineType {
    /// The wire value of this period tag.
    pub fn as_u8(self) -> (r: u8)
        ensures
            r as int == kline_type_u8(self),
    {
        match self {
            KlineType::Minute5 => 0,
            KlineType::Minute15 => 1,
            KlineType::Minute30 => 2,
            KlineType::Minute60 => 3,
            KlineType::Day2 => 4,
            KlineType::Week => 5,
            KlineType::Month => 6,
            KlineType::Minute => 7,
            KlineType::Minute2 => 8,
            KlineType::Day => 9,
            KlineType::Quarter => 10,
            KlineType::Year => 11,
        }
    }
}

/// Whether bars of this period carry an intraday time field (packed
/// year/month/day plus minutes since midnight) rather than a plain
/// YYYYMMDD date.
pub open spec fn is_intraday_kline_type(kline_type: int) -> bool {
    kline_type == 0 || kline_type == 1 || kline_type == 2 || kline_type == 3 || kline_type == 4
        || kline_type == 7 || kline_type == 8
}

/// One of the three exchanges a symbol can live on.
#[derive(Debug, Clone, Copy, PartialEq, Eq, Structural)]
pub enum Exchange {
    SZ,
    SH,
    BJ,
}

/// The single-byte wire value of each exchange.
pub open spec fn exchange_u8(e: Exchange) -> int {
    match e {
        Exchange::SZ => 0,
        Exchange::SH => 1,
        Exchange::BJ => 2,
    }
}

/// The two-letter symbol prefix of each exchange.
pub open spec fn exchange_str(e: Exchange) -> Seq<char> {
    match e {
        Exchange::SZ => seq!['s', 'z'],
        Exchange::SH => seq!['s', 'h'],
        Exchange::BJ => seq!['b', 'j'],
    }
}

impl Exchange {
    /// The wire value of this exchange.
    pub fn as_u8(self) -> (r: u8)
        ensures
            r as int == exchange_u8(self),
    {
        match self {
            Exchange::SZ => 0,
            Exchange::SH => 1,
            Exchange::BJ => 2,
        }
    }

    /// Recognizes a wire value; values above 2 are refused.
    pub fn from_u8(value: u8) -> (r: Option<Exchange>)
        ensures
            r matches Some(e) ==> exchange_u8(e) == value as int,
            r is Some <==> value < 3,
    {
        match value {
            0 => Some(Exchange::SZ),
            1 => Some(Exchange::SH),
            2 => Some(Exchange::BJ),
            _ => None,
        }
    }

    /// The two-letter symbol prefix of this exchange.
    pub fn as_str(self) -> (r: &'static str)
        ensures
            r@ == exchange_str(self),
    {
        proof {
            reveal_strlit("sz");
            reveal_strlit("sh");
            reveal_strlit("bj");
        }
        let r = match self {
            Exchange::SZ => "sz",
            Exchange::SH => "sh",
            Exchange::BJ => "bj",
        };
        proof {
            assert(r@ =~= exchange_str(self));
        }
        r
    }

    /// The exchange's name, as the protocol's users know it (kept in
    /// escaped form; the source stays ASCII).
    pub fn name(self) -> (r: &'static str)
        ensures
            r@.len() > 0,
            r@ == match self {
                Exchange::SZ => "\u{6df1}\u{5733}"@,
                Exchange::SH => "\u{4e0a}\u{6d77}"@,
                Exchange::BJ => "\u{5317}\u{4eac}"@,
            },
    {
        let r = match self {
            Exchange::SZ => "\u{6df1}\u{5733}",
            Exchange::SH => "\u{4e0a}\u{6d77}",
            Exchange::BJ => "\u{5317}\u{4eac}",
        };
        proof {
            reveal_strlit("\u{6df1}\u{5733}");
            reveal_strlit("\u{4e0a}\u{6d77}");
            reveal_strlit("\u{5317}\u{4eac}");
        }
        r
    }
}

/// The control byte of a request frame; every request carries 0x01.
#[derive(Debug, Clone, Copy, PartialEq, Eq, Structural)]
pub enum Control {
    Control01,
}

impl Control {
    /// The wire value of this control code.
    pub fn as_u8(self) -> (r: u8)
        ensures
            r == 1,
    {
        match self {
            Control::Control01 => 0x01,
        }
    }
}

} // verus!
