//! Client library for a binary market-data protocol: request/response
//! frames, a signed variable-width integer codec, per-message encoders and
//! decoders, the calendar the wire's date fields use, and the accumulation
//! logic behind batched fetches.

pub mod batch;
pub mod codec;
pub mod constants;
pub mod frame;
pub mod messages;
pub mod text;
pub mod time;
pub mod types;

pub use batch::{code_all_step, kline_all_step, kline_until_step, scan_cut, sort_probes,
    trade_all_step};
pub use codec::{bytes_to_u16_le, bytes_to_u32_le, decode_price, decode_varint,
    decode_varint_at, decode_volume2_scaled_floor, encode_varint, reverse_bytes, u16_to_bytes_le,
    u32_to_bytes_le};
pub use constants::{Control, Exchange, KlineType, MessageType, PREFIX, PREFIX_RESP};
pub use messages::{add_prefix, decode_code, decode_kline_time, is_etf, is_index, is_stock,
    CallAuctionMsg, Code, CodeResponse, Connect, Count, GbbqMsg, Heartbeat, HistoryMinuteMsg,
    HistoryTradeMsg, KlineMsg, MessageError, MinuteMsg, Quote, TradeCache, TradeMsg};
pub use frame::{FrameError, RequestFrame, ResponseFrame};
pub use text::{gbk_to_utf8, utf8_to_gbk};
pub use time::{days_from_date, format_time, is_leap_year, parse_datetime};
pub use types::{CallAuction, CallAuctionResponse, Gbbq, GbbqResponse, K, Kline, KlineCache,
    KlineResponse, MinuteResponse, Price, PriceLevel, PriceLevels, PriceNumber, QuoteInfo,
    StockCode, Timestamp, Trade, TradeResponse, TradeStatus};
