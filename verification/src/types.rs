//! Decoded data types: prices, bars, quotes, trades and corporate actions.

use vstd::prelude::*;

verus! {

/// A price in thousandths of a yuan. Everything on the wire is a delta
/// against a rolling reference; this type holds accumulated, absolute
/// values.
#[derive(Debug, Clone, Copy, PartialEq, Eq, PartialOrd, Ord, Structural)]
pub struct Price(pub i64);

impl Price {
    /// The raw value in thousandths of a yuan.
    pub fn as_i64(self) -> (r: i64)
        ensures
            r == self.0,
    {
        self.0
    }
}

/// A point in time, counted in seconds from the Unix epoch.
#[derive(Debug, Clone, Copy, PartialEq, Eq, PartialOrd, Ord, Structural)]
pub struct Timestamp {
    pub secs: i64,
}

/// One side of one depth level of a quote.
#[derive(Debug, Clone, Copy, PartialEq, Eq, Structural)]
pub struct PriceLevel {
    /// True on the buy side, false on the sell side.
    pub buy: bool,
    pub price: Price,
    /// Standing volume in lots.
    pub number: i32,
}

/// The five depth levels of one side of a quote.
pub type PriceLevels = [PriceLevel; 5];

/// The price bundle of a quote: previous close and today's open, high,
/// low and close.
#[derive(Debug, Clone, Copy, PartialEq, Eq, Structural)]
pub struct K {
    pub last: Price,
    pub open: Price,
    pub high: Price,
    pub low: Price,
    pub close: Price,
}

/// One candlestick bar.
#[derive(Debug, Clone, Copy, PartialEq, Eq, Structural)]
pub struct Kline {
    /// Close of this bar (the rolling reference after decoding it).
    pub last: Price,
    pub open: Price,
    pub high: Price,
    pub low: Price,
    pub close: Price,
    /// Always zero for bars; kept for layout parity with trades.
    pub order: i32,
    pub volume: i64,
    pub amount: Price,
    pub time: Timestamp,
    /// Rising-symbol count; meaningful only for index series.
    pub up_count: i32,
    /// Falling-symbol count; meaningful only for index series.
    pub down_count: i32,
}

impl Kline {
    /// The bar's time rendered as "YYYY-MM-DD HH:MM:SS".
    pub fn time_str(&self) -> (r: String)
        ensures
            r@ == crate::time::format_time_chars(self.time.secs as int),
    {
        crate::time::format_time(&self.time)
    }
}

/// One minute-line sample: a clock label, an accumulated price and a
/// volume.
#[derive(Debug, Clone, PartialEq, Eq)]
pub struct PriceNumber {
    /// Wall-clock label in "HH:MM" form.
    pub time: String,
    pub price: Price,
    pub number: i32,
}

/// Whether a trade hit the bid, the ask, or neither.
#[derive(Debug, Clone, Copy, PartialEq, Eq, Structural)]
pub enum TradeStatus {
    Buy,
    Sell,
    Neutral,
}

/// The status a raw wire value denotes: 0 buys, 1 sells, everything else
/// is neutral.
pub open spec fn trade_status_of(v: int) -> TradeStatus {
    if v == 0 {
        TradeStatus::Buy
    } else if v == 1 {
        TradeStatus::Sell
    } else {
        TradeStatus::Neutral
    }
}

/// One historical tick trade.
#[derive(Debug, Clone, Copy, PartialEq, Eq, Structural)]
pub struct Trade {
    pub time: Timestamp,
    pub price: Price,
    /// Traded volume in lots.
    pub volume: i32,
    pub status: TradeStatus,
    /// Order count; zero in historical data.
    pub number: i32,
}

/// One listed symbol from the stock-list endpoint.
#[derive(Debug, Clone, PartialEq, Eq)]
pub struct StockCode {
    /// Symbol name, transcoded from the wire's GBK bytes.
    pub name: String,
    /// Six-digit code.
    pub code: String,
    /// Lot multiple, typically 100.
    pub multiple: u16,
    /// Price decimal places, typically 2.
    pub decimal: i8,
    /// Previous close in the wire's four-byte quasi-float form
    /// (meaningful for indexes only; decoding it is the caller's affair).
    pub last_price_raw: u32,
}

/// One full five-depth quote.
#[derive(Debug, Clone, PartialEq, Eq)]
pub struct QuoteInfo {
    pub exchange: crate::constants::Exchange,
    pub code: String,
    pub active1: u16,
    pub k: K,
    /// Server time field, captured as the decimal form of the raw value.
    pub server_time: String,
    pub total_hand: i32,
    pub intuition: i32,
    /// Turnover in the wire's four-byte quasi-float form.
    pub amount_raw: u32,
    pub inside_dish: i32,
    pub outer_disc: i32,
    pub buy_level: PriceLevels,
    pub sell_level: PriceLevels,
    /// Rate of change times one hundred, as sent.
    pub rate_raw: u16,
    pub active2: u16,
}

/// One call-auction snapshot.
#[derive(Debug, Clone, Copy, PartialEq, Eq, Structural)]
pub struct CallAuction {
    pub time: Timestamp,
    /// Price as the wire's four-byte IEEE single, kept as raw bits
    /// (scaling to thousandths of a yuan is the caller's affair).
    pub price_raw_bits: u32,
    pub matched: i64,
    pub unmatched: i64,
    /// +1 when the unmatched side is the buy side, -1 when it sells.
    pub flag: i8,
}

/// One capital-structure or ex-dividend event. The meaning of the four
/// payload words depends on `category`; they are kept as the wire's raw
/// little-endian words, since for most categories they hold IEEE singles.
#[derive(Debug, Clone, PartialEq, Eq)]
pub struct Gbbq {
    /// Symbol with its two-letter exchange prefix.
    pub code: String,
    pub time: Timestamp,
    pub category: i32,
    pub c1_raw: u32,
    pub c2_raw: u32,
    pub c3_raw: u32,
    pub c4_raw: u32,
}

/// Whether `c` is one of the recognized corporate-action categories.
pub open spec fn is_recognized_category(c: int) -> bool {
    1 <= c <= 14
}

/// The category labels, as the protocol's users know them (kept in
/// escaped form; the source stays ASCII).
pub open spec fn category_name_spec(c: int) -> Seq<char> {
    if c == 1 {
        "\u{9664}\u{6743}\u{9664}\u{606f}"@
    } else if c == 2 {
        "\u{9001}\u{914d}\u{80a1}\u{4e0a}\u{5e02}"@
    } else if c == 3 {
        "\u{975e}\u{6d41}\u{901a}\u{80a1}\u{4e0a}\u{5e02}"@
    } else if c == 4 {
        "\u{672a}\u{77e5}\u{80a1}\u{672c}\u{53d8}\u{52a8}"@
    } else if c == 5 {
        "\u{80a1}\u{672c}\u{53d8}\u{5316}"@
    } else if c == 6 {
        "\u{589e}\u{53d1}\u{65b0}\u{80a1}"@
    } else if c == 7 {
        "\u{80a1}\u{4efd}\u{56de}\u{8d2d}"@
    } else if c == 8 {
        "\u{589e}\u{53d1}\u{65b0}\u{80a1}\u{4e0a}\u{5e02}"@
    } else if c == 9 {
        "\u{8f6c}\u{914d}\u{80a1}\u{4e0a}\u{5e02}"@
    } else if c == 10 {
        "\u{53ef}\u{8f6c}\u{503a}\u{4e0a}\u{5e02}"@
    } else if c == 11 {
        "\u{6269}\u{7f29}\u{80a1}"@
    } else if c == 12 {
        "\u{975e}\u{6d41}\u{901a}\u{80a1}\u{7f29}\u{80a1}"@
    } else if c == 13 {
        "\u{9001}\u{8ba4}\u{8d2d}\u{6743}\u{8bc1}"@
    } else if c == 14 {
        "\u{9001}\u{8ba4}\u{6cbd}\u{6743}\u{8bc1}"@
    } else {
        "\u{672a}\u{77e5}"@
    }
}

impl Gbbq {
    /// A short label for the event's category; never empty, also for
    /// unrecognized categories.
    pub fn category_name(&self) -> (r: &'static str)
        ensures
            r@ == category_name_spec(self.category as int),
            r@.len() > 0,
    {
        proof {
            reveal_strlit("\u{9664}\u{6743}\u{9664}\u{606f}");
            reveal_strlit("\u{9001}\u{914d}\u{80a1}\u{4e0a}\u{5e02}");
            reveal_strlit("\u{975e}\u{6d41}\u{901a}\u{80a1}\u{4e0a}\u{5e02}");
            reveal_strlit("\u{672a}\u{77e5}\u{80a1}\u{672c}\u{53d8}\u{52a8}");
            reveal_strlit("\u{80a1}\u{672c}\u{53d8}\u{5316}");
            reveal_strlit("\u{589e}\u{53d1}\u{65b0}\u{80a1}");
            reveal_strlit("\u{80a1}\u{4efd}\u{56de}\u{8d2d}");
            reveal_strlit("\u{589e}\u{53d1}\u{65b0}\u{80a1}\u{4e0a}\u{5e02}");
            reveal_strlit("\u{8f6c}\u{914d}\u{80a1}\u{4e0a}\u{5e02}");
            reveal_strlit("\u{53ef}\u{8f6c}\u{503a}\u{4e0a}\u{5e02}");
            reveal_strlit("\u{6269}\u{7f29}\u{80a1}");
            reveal_strlit("\u{975e}\u{6d41}\u{901a}\u{80a1}\u{7f29}\u{80a1}");
            reveal_strlit("\u{9001}\u{8ba4}\u{8d2d}\u{6743}\u{8bc1}");
            reveal_strlit("\u{9001}\u{8ba4}\u{6cbd}\u{6743}\u{8bc1}");
            reveal_strlit("\u{672a}\u{77e5}");
        }
        match self.category {
            1 => "\u{9664}\u{6743}\u{9664}\u{606f}",
            2 => "\u{9001}\u{914d}\u{80a1}\u{4e0a}\u{5e02}",
            3 => "\u{975e}\u{6d41}\u{901a}\u{80a1}\u{4e0a}\u{5e02}",
            4 => "\u{672a}\u{77e5}\u{80a1}\u{672c}\u{53d8}\u{52a8}",
            5 => "\u{80a1}\u{672c}\u{53d8}\u{5316}",
            6 => "\u{589e}\u{53d1}\u{65b0}\u{80a1}",
            7 => "\u{80a1}\u{4efd}\u{56de}\u{8d2d}",
            8 => "\u{589e}\u{53d1}\u{65b0}\u{80a1}\u{4e0a}\u{5e02}",
            9 => "\u{8f6c}\u{914d}\u{80a1}\u{4e0a}\u{5e02}",
            10 => "\u{53ef}\u{8f6c}\u{503a}\u{4e0a}\u{5e02}",
            11 => "\u{6269}\u{7f29}\u{80a1}",
            12 => "\u{975e}\u{6d41}\u{901a}\u{80a1}\u{7f29}\u{80a1}",
            13 => "\u{9001}\u{8ba4}\u{8d2d}\u{6743}\u{8bc1}",
            14 => "\u{9001}\u{8ba4}\u{6cbd}\u{6743}\u{8bc1}",
            _ => "\u{672a}\u{77e5}",
        }
    }

    /// Whether the event is a plain share-structure change.
    pub fn is_equity(&self) -> (r: bool)
        ensures
            r == (self.category == 2 || self.category == 3 || self.category == 5 || self.category
                == 7 || self.category == 8 || self.category == 9 || self.category == 10),
    {
        matches!(self.category, 2 | 3 | 5 | 7 | 8 | 9 | 10)
    }

    /// Whether the event is an ex-rights / ex-dividend record; true
    /// exactly when the category is 1.
    pub fn is_xrxd(&self) -> (r: bool)
        ensures
            r == (self.category == 1),
    {
        self.category == 1
    }
}

/// A decoded bar series with the count the server declared.
#[derive(Debug, Clone, PartialEq, Eq)]
pub struct KlineResponse {
    pub count: u16,
    pub list: Vec<Kline>,
}

/// A decoded minute-line series with the count the server declared.
#[derive(Debug, Clone, PartialEq, Eq)]
pub struct MinuteResponse {
    pub count: u16,
    pub list: Vec<PriceNumber>,
}

/// A decoded tick-trade series with the count the server declared.
#[derive(Debug, Clone, PartialEq, Eq)]
pub struct TradeResponse {
    pub count: u16,
    pub list: Vec<Trade>,
}

/// A decoded call-auction series with the count the server declared.
#[derive(Debug, Clone, PartialEq, Eq)]
pub struct CallAuctionResponse {
    pub count: u16,
    pub list: Vec<CallAuction>,
}

/// A decoded corporate-action series with the count the server declared.
#[derive(Debug, Clone, PartialEq, Eq)]
pub struct GbbqResponse {
    pub count: u16,
    pub list: Vec<Gbbq>,
}

/// Context a bar request leaves behind for its decoder: the wire does not
/// repeat the period tag or whether the symbol is an index.
#[derive(Debug, Clone, Copy, PartialEq, Eq, Structural)]
pub struct KlineCache {
    pub kline_type: u8,
    pub is_index: bool,
}

} // verus!
