//! Tests for the per-message encoders and decoders, on hand-built
//! payloads with known field values.

use tdx::{add_prefix, decode_code, encode_varint, is_etf, is_index, is_stock, CallAuctionMsg,
    Code, Exchange, GbbqMsg, HistoryMinuteMsg, HistoryTradeMsg, KlineCache, KlineMsg, KlineType,
    MessageError, MinuteMsg, Quote, TradeCache, TradeMsg, TradeStatus};

fn vi(v: i32) -> Vec<u8> {
    encode_varint(v)
}

#[test]
fn test_decode_code_valid() {
    let (ex, num) = decode_code("sz000001").unwrap();
    assert_eq!(ex, Exchange::SZ);
    assert_eq!(num, "000001");
    let (ex, num) = decode_code("SH600008").unwrap();
    assert_eq!(ex, Exchange::SH);
    assert_eq!(num, "600008");
    let (ex, num) = decode_code("bj430047").unwrap();
    assert_eq!(ex, Exchange::BJ);
    assert_eq!(num, "430047");
}

#[test]
fn test_decode_code_invalid() {
    assert!(matches!(decode_code("x"), Err(MessageError::InvalidCode(_))));
    assert!(matches!(decode_code("xx000001"), Err(MessageError::InvalidCode(_))));
    assert!(matches!(decode_code("sz0001"), Err(MessageError::InvalidCode(_))));
}

#[test]
fn test_add_prefix() {
    assert_eq!(add_prefix("600008"), "sh600008");
    assert_eq!(add_prefix("930001"), "sh930001");
    assert_eq!(add_prefix("000001"), "sz000001");
    assert_eq!(add_prefix("300750"), "sz300750");
    assert_eq!(add_prefix("430047"), "bj430047");
    assert_eq!(add_prefix("830799"), "bj830799");
    assert_eq!(add_prefix("SZ000001"), "sz000001");
    assert_eq!(add_prefix("777777"), "sz777777");
    assert_eq!(add_prefix(""), "sz");
}

#[test]
fn test_symbol_classification() {
    assert!(is_stock("sh600008"));
    assert!(is_stock("000001"));
    assert!(is_stock("bj430047"));
    assert!(!is_stock("sh510300"));
    assert!(is_etf("sh510300"));
    assert!(is_etf("sz159915"));
    assert!(!is_etf("sh600008"));
    assert!(is_index("sh000001"));
    assert!(is_index("sz399001"));
    assert!(is_index("sh880001"));
    assert!(!is_index("sz000001"));
}

#[test]
fn test_code_request_and_response() {
    let frame = Code::request(4, Exchange::SZ, 0);
    assert_eq!(frame.data, vec![0x00, 0x00, 0x00, 0x00]);
    assert_eq!(frame.msg_type.as_u16(), 0x0450);

    // one 29-byte record
    let mut payload: Vec<u8> = vec![1, 0];
    payload.extend_from_slice(b"000001");
    payload.extend_from_slice(&100u16.to_le_bytes());
    payload.extend_from_slice(b"PAYH\0\0\0\0");
    payload.extend_from_slice(&[0, 0, 0, 0]);
    payload.push(2);
    payload.extend_from_slice(&[0x12, 0x34, 0x56, 0x4B]);
    payload.extend_from_slice(&[0, 0, 0, 0]);
    assert_eq!(payload.len(), 2 + 29);
    let resp = Code::decode_response(&payload).unwrap();
    assert_eq!(resp.count, 1);
    assert_eq!(resp.codes.len(), 1);
    assert_eq!(resp.codes[0].code, "000001");
    assert_eq!(resp.codes[0].multiple, 100);
    assert_eq!(resp.codes[0].name, "PAYH");
    assert_eq!(resp.codes[0].decimal, 2);
    assert_eq!(resp.codes[0].last_price_raw, u32::from_le_bytes([0x12, 0x34, 0x56, 0x4B]));

    // truncated record
    let short = &payload[..20];
    assert_eq!(Code::decode_response(short), Err(MessageError::InsufficientData));
}

#[test]
fn test_kline_request_layout() {
    let frame = KlineMsg::request(6, KlineType::Day, "sz000001", 0, 800).unwrap();
    let mut expected: Vec<u8> = vec![0x00, 0x00];
    expected.extend_from_slice(b"000001");
    expected.extend_from_slice(&[9, 0x00, 0x01, 0x00]);
    expected.extend_from_slice(&0u16.to_le_bytes());
    expected.extend_from_slice(&800u16.to_le_bytes());
    expected.extend_from_slice(&[0; 10]);
    assert_eq!(frame.data, expected);
    assert!(matches!(
        KlineMsg::request(6, KlineType::Day, "sz000001", 0, 801),
        Err(MessageError::ParseError(_))
    ));
    assert!(matches!(
        KlineMsg::request(6, KlineType::Day, "000001", 0, 10),
        Err(MessageError::InvalidCode(_))
    ));
}

fn day_kline_record(date: u32, open_d: i32, close_d: i32, high_d: i32, low_d: i32) -> Vec<u8> {
    let mut rec: Vec<u8> = Vec::new();
    rec.extend_from_slice(&date.to_le_bytes());
    rec.extend_from_slice(&vi(open_d));
    rec.extend_from_slice(&vi(close_d));
    rec.extend_from_slice(&vi(high_d));
    rec.extend_from_slice(&vi(low_d));
    rec.extend_from_slice(&[0, 0, 0, 75]); // volume word: exactly 2^23
    rec.extend_from_slice(&[0, 0, 0, 75]); // amount word: exactly 2^23
    rec
}

#[test]
fn test_kline_decode_delta_accumulation() {
    let mut payload: Vec<u8> = vec![2, 0];
    payload.extend_from_slice(&day_kline_record(2024_01_05, 10_000, 500, 700, -200));
    payload.extend_from_slice(&day_kline_record(2024_01_08, -100, 50, 120, -80));
    let cache = KlineCache { kline_type: 9, is_index: false };
    let resp = KlineMsg::decode_response(&payload, cache).unwrap();
    assert_eq!(resp.count, 2);
    assert_eq!(resp.list.len(), 2);
    let a = &resp.list[0];
    assert_eq!(a.open.0, 10_000);
    assert_eq!(a.close.0, 10_500);
    assert_eq!(a.high.0, 10_700);
    assert_eq!(a.low.0, 9_800);
    assert_eq!(a.last.0, 10_500);
    assert_eq!(a.volume, 8_388_608);
    assert_eq!(a.amount.0, 8_388_608_000);
    assert_eq!(a.order, 0);
    let b = &resp.list[1];
    assert_eq!(b.open.0, 10_400);
    assert_eq!(b.close.0, 10_450);
    assert_eq!(b.high.0, 10_520);
    assert_eq!(b.low.0, 10_320);
    // prices of a well-formed stream stay nonnegative
    for k in &resp.list {
        assert!(k.open.0 >= 0 && k.close.0 >= 0 && k.high.0 >= 0 && k.low.0 >= 0);
    }
    // bar times strictly increase
    assert!(resp.list[0].time.secs < resp.list[1].time.secs);
    assert_eq!(resp.list[0].time_str(), "2024-01-05 15:00:00");
    assert_eq!(resp.list[1].time_str(), "2024-01-08 15:00:00");
}

#[test]
fn test_kline_decode_index_extras() {
    let mut payload: Vec<u8> = vec![1, 0];
    let mut rec = day_kline_record(2024_01_05, 3000, 10, 20, -20);
    rec.extend_from_slice(&55u16.to_le_bytes());
    rec.extend_from_slice(&44u16.to_le_bytes());
    payload.extend_from_slice(&rec);
    let cache = KlineCache { kline_type: 9, is_index: true };
    let resp = KlineMsg::decode_response(&payload, cache).unwrap();
    let a = &resp.list[0];
    assert_eq!(a.up_count, 55);
    assert_eq!(a.down_count, 44);
    // index volumes are scaled back up a hundredfold
    assert_eq!(a.volume, 838_860_800);
}

#[test]
fn test_kline_decode_intraday_time() {
    // packed word: year 2024 is offset 20 from 2004; month 1, day 5 pack
    // as 105; minutes word 570 reads 09:30
    let ymd: u16 = (20 << 11) + 105;
    let mut rec: Vec<u8> = Vec::new();
    rec.extend_from_slice(&ymd.to_le_bytes());
    rec.extend_from_slice(&570u16.to_le_bytes());
    rec.extend_from_slice(&vi(100));
    rec.extend_from_slice(&vi(0));
    rec.extend_from_slice(&vi(0));
    rec.extend_from_slice(&vi(0));
    rec.extend_from_slice(&[0, 0, 0, 75]);
    rec.extend_from_slice(&[0, 0, 0, 75]);
    let mut payload: Vec<u8> = vec![1, 0];
    payload.extend_from_slice(&rec);
    let cache = KlineCache { kline_type: 7, is_index: false };
    let resp = KlineMsg::decode_response(&payload, cache).unwrap();
    let a = &resp.list[0];
    assert_eq!(a.time_str(), "2024-01-05 09:30:00");
    // intraday volumes are scaled down a hundredfold
    assert_eq!(a.volume, 83_886);
}

#[test]
fn test_kline_decode_truncated() {
    let mut payload: Vec<u8> = vec![2, 0];
    payload.extend_from_slice(&day_kline_record(2024_01_05, 1, 1, 1, 1));
    // second record missing entirely
    let cache = KlineCache { kline_type: 9, is_index: false };
    assert!(KlineMsg::decode_response(&payload, cache).is_err());
}

#[test]
fn test_minute_request_and_decode() {
    let frame = MinuteMsg::request(5, "sz000001").unwrap();
    let mut expected: Vec<u8> = vec![0x00, 0x00];
    expected.extend_from_slice(b"000001");
    expected.extend_from_slice(&[0, 0, 0, 0]);
    assert_eq!(frame.data, expected);
    assert_eq!(frame.msg_type.as_u16(), 0x051D);

    let mut payload: Vec<u8> = vec![2, 0, 0, 0, 0, 0];
    payload.extend_from_slice(&vi(100));
    payload.extend_from_slice(&vi(0));
    payload.extend_from_slice(&vi(7));
    payload.extend_from_slice(&vi(-50));
    payload.extend_from_slice(&vi(0));
    payload.extend_from_slice(&vi(9));
    let resp = MinuteMsg::decode_response(&payload).unwrap();
    assert_eq!(resp.count, 2);
    assert_eq!(resp.list.len(), 2);
    assert_eq!(resp.list[0].time, "09:31");
    assert_eq!(resp.list[0].price.0, 1000);
    assert_eq!(resp.list[0].number, 7);
    assert_eq!(resp.list[1].time, "09:32");
    assert_eq!(resp.list[1].price.0, 500);
    assert_eq!(resp.list[1].number, 9);
}

#[test]
fn test_minute_decode_lunch_break() {
    let count: u16 = 125;
    let mut payload: Vec<u8> = Vec::new();
    payload.extend_from_slice(&count.to_le_bytes());
    payload.extend_from_slice(&[0, 0, 0, 0]);
    for _ in 0..count {
        payload.extend_from_slice(&vi(1));
        payload.extend_from_slice(&vi(0));
        payload.extend_from_slice(&vi(1));
    }
    let resp = MinuteMsg::decode_response(&payload).unwrap();
    assert_eq!(resp.list.len(), count as usize);
    assert_eq!(resp.list[118].time, "11:29");
    assert_eq!(resp.list[119].time, "11:30");
    assert_eq!(resp.list[120].time, "13:01");
    assert_eq!(resp.list[121].time, "13:02");
    // the clock labels strictly increase across the whole line
    let minutes: Vec<u32> = resp
        .list
        .iter()
        .map(|p| {
            let b = p.time.as_bytes();
            let h = (b[0] - b'0') as u32 * 10 + (b[1] - b'0') as u32;
            let m = (b[3] - b'0') as u32 * 10 + (b[4] - b'0') as u32;
            h * 60 + m
        })
        .collect();
    for w in minutes.windows(2) {
        assert!(w[0] < w[1]);
    }
}

#[test]
fn test_history_minute_request() {
    let frame = HistoryMinuteMsg::request(8, "20240105", "sh600008").unwrap();
    let mut expected: Vec<u8> = Vec::new();
    expected.extend_from_slice(&20240105u32.to_le_bytes());
    expected.push(0x01);
    expected.extend_from_slice(b"600008");
    assert_eq!(frame.data, expected);
    assert_eq!(frame.msg_type.as_u16(), 0x0FB4);
    assert!(matches!(
        HistoryMinuteMsg::request(8, "2024-01-05", "sh600008"),
        Err(MessageError::ParseError(_))
    ));
}

#[test]
fn test_trade_decode() {
    let frame = TradeMsg::request(9, "sz000001", 0, 10).unwrap();
    assert_eq!(frame.msg_type.as_u16(), 0x0FC5);
    let mut expected: Vec<u8> = vec![0x00, 0x00];
    expected.extend_from_slice(b"000001");
    expected.extend_from_slice(&0u16.to_le_bytes());
    expected.extend_from_slice(&10u16.to_le_bytes());
    assert_eq!(frame.data, expected);

    let cache = TradeCache { date: String::from("20240105"), code: String::from("sz000001") };
    let mut payload: Vec<u8> = vec![2, 0];
    // 09:30, delta 1000, volume 20, 3 orders, buy, one discarded field
    payload.extend_from_slice(&570u16.to_le_bytes());
    payload.extend_from_slice(&vi(1000));
    payload.extend_from_slice(&vi(20));
    payload.extend_from_slice(&vi(3));
    payload.extend_from_slice(&vi(0));
    payload.extend_from_slice(&vi(0));
    // 09:31, delta -10, volume 5, 1 order, sell
    payload.extend_from_slice(&571u16.to_le_bytes());
    payload.extend_from_slice(&vi(-10));
    payload.extend_from_slice(&vi(5));
    payload.extend_from_slice(&vi(1));
    payload.extend_from_slice(&vi(1));
    payload.extend_from_slice(&vi(0));
    let resp = TradeMsg::decode_response(&payload, &cache).unwrap();
    assert_eq!(resp.count, 2);
    assert_eq!(resp.list[0].price.0, 10_000);
    assert_eq!(resp.list[0].volume, 20);
    assert_eq!(resp.list[0].number, 3);
    assert_eq!(resp.list[0].status, TradeStatus::Buy);
    assert_eq!(resp.list[1].price.0, 9_900);
    assert_eq!(resp.list[1].status, TradeStatus::Sell);
    assert_eq!(resp.list[1].time.secs - resp.list[0].time.secs, 60);
}

#[test]
fn test_history_trade_decode() {
    let frame = HistoryTradeMsg::request(9, "20240105", "sz000001", 0, 10).unwrap();
    assert_eq!(frame.msg_type.as_u16(), 0x0FB5);
    let mut expected: Vec<u8> = Vec::new();
    expected.extend_from_slice(&20240105u32.to_le_bytes());
    expected.extend_from_slice(&[0x00, 0x00]);
    expected.extend_from_slice(b"000001");
    expected.extend_from_slice(&0u16.to_le_bytes());
    expected.extend_from_slice(&10u16.to_le_bytes());
    assert_eq!(frame.data, expected);

    let cache = TradeCache { date: String::from("20240105"), code: String::from("sz000001") };
    let mut payload: Vec<u8> = vec![1, 0, 0, 0, 0, 0];
    payload.extend_from_slice(&780u16.to_le_bytes()); // 13:00
    payload.extend_from_slice(&vi(250));
    payload.extend_from_slice(&vi(42));
    payload.extend_from_slice(&vi(2)); // neither buy nor sell
    payload.extend_from_slice(&vi(0));
    let resp = HistoryTradeMsg::decode_response(&payload, &cache).unwrap();
    assert_eq!(resp.count, 1);
    assert_eq!(resp.list[0].price.0, 2_500);
    assert_eq!(resp.list[0].volume, 42);
    assert_eq!(resp.list[0].status, TradeStatus::Neutral);
    assert_eq!(resp.list[0].number, 0);
}

#[test]
fn test_call_auction_decode() {
    let frame = CallAuctionMsg::request(11, "sz000001").unwrap();
    assert_eq!(frame.msg_type.as_u16(), 0x056A);
    assert_eq!(frame.data.len(), 2 + 6 + 20);
    assert_eq!(&frame.data[8..12], &[0, 0, 0, 0]);
    assert_eq!(frame.data[12], 0x03);
    assert_eq!(&frame.data[24..28], &[0xF4, 0x01, 0x00, 0x00]);

    let mut payload: Vec<u8> = vec![1, 0];
    payload.extend_from_slice(&565u16.to_le_bytes()); // 09:25
    payload.extend_from_slice(&10.5f32.to_le_bytes());
    payload.extend_from_slice(&1000u32.to_le_bytes());
    payload.extend_from_slice(&(-5i16).to_le_bytes());
    payload.extend_from_slice(&[0, 0, 0, 30]);
    let today_days: i64 = 19_000;
    let resp = CallAuctionMsg::decode_response(&payload, today_days).unwrap();
    assert_eq!(resp.count, 1);
    let a = &resp.list[0];
    assert_eq!(a.price_raw_bits, 10.5f32.to_bits());
    assert_eq!(f32::from_bits(a.price_raw_bits), 10.5);
    assert_eq!(a.matched, 1000);
    assert_eq!(a.unmatched, 5);
    assert_eq!(a.flag, -1);
    assert_eq!(a.time.secs, 19_000 * 86400 + 9 * 3600 + 25 * 60 + 30);
}

#[test]
fn test_gbbq_decode() {
    let frame = GbbqMsg::request(12, "sz000001").unwrap();
    assert_eq!(frame.msg_type.as_u16(), 0x000F);
    let mut expected: Vec<u8> = vec![0x01, 0x00, 0x00];
    expected.extend_from_slice(b"000001");
    assert_eq!(frame.data, expected);

    let mut payload: Vec<u8> = vec![0; 9];
    payload.extend_from_slice(&1u16.to_le_bytes());
    payload.push(0); // exchange byte
    payload.extend_from_slice(b"000001");
    payload.push(0); // reserved
    payload.extend_from_slice(&20230615u32.to_le_bytes());
    payload.push(1); // ex-rights / ex-dividend
    payload.extend_from_slice(&1.5f32.to_le_bytes());
    payload.extend_from_slice(&0.0f32.to_le_bytes());
    payload.extend_from_slice(&2.0f32.to_le_bytes());
    payload.extend_from_slice(&3.0f32.to_le_bytes());
    let resp = GbbqMsg::decode_response(&payload).unwrap();
    assert_eq!(resp.count, 1);
    let g = &resp.list[0];
    assert_eq!(g.code, "sz000001");
    assert_eq!(g.category, 1);
    assert_eq!(f32::from_bits(g.c1_raw), 1.5);
    assert_eq!(f32::from_bits(g.c3_raw), 2.0);
    assert!(g.is_xrxd());
    assert!(!g.is_equity());
    assert_eq!(g.category_name(), "\u{9664}\u{6743}\u{9664}\u{606f}");
    let day_secs = tdx::days_from_date(2023, 6, 15) * 86400 + 15 * 3600;
    assert_eq!(g.time.secs, day_secs);
}

#[test]
fn test_gbbq_category_names() {
    for c in 0..=16 {
        let g = tdx::Gbbq {
            code: String::from("sz000001"),
            time: tdx::Timestamp { secs: 0 },
            category: c,
            c1_raw: 0,
            c2_raw: 0,
            c3_raw: 0,
            c4_raw: 0,
        };
        assert!(!g.category_name().is_empty());
        assert_eq!(g.is_xrxd(), c == 1);
        assert_eq!(g.is_equity(), matches!(c, 2 | 3 | 5 | 7 | 8 | 9 | 10));
    }
}

fn quote_payload_one(close_delta: i32) -> Vec<u8> {
    let mut payload: Vec<u8> = vec![0, 0, 1, 0]; // version bytes, count 1
    payload.push(0); // Shenzhen
    payload.extend_from_slice(b"000001");
    payload.extend_from_slice(&7u16.to_le_bytes()); // active1
    payload.extend_from_slice(&vi(close_delta));
    payload.extend_from_slice(&vi(-2)); // previous close delta
    payload.extend_from_slice(&vi(-1)); // open delta
    payload.extend_from_slice(&vi(3)); // high delta
    payload.extend_from_slice(&vi(-4)); // low delta
    payload.extend_from_slice(&vi(93_000)); // server time
    payload.extend_from_slice(&vi(0)); // discarded
    payload.extend_from_slice(&vi(123_456)); // total hand
    payload.extend_from_slice(&vi(88)); // current volume
    payload.extend_from_slice(&[0x12, 0x34, 0x56, 0x4B]); // turnover word
    payload.extend_from_slice(&vi(600)); // inside
    payload.extend_from_slice(&vi(700)); // outside
    payload.extend_from_slice(&vi(0));
    payload.extend_from_slice(&vi(0));
    for level in 0..5i32 {
        payload.extend_from_slice(&vi(-1 - level)); // buy delta
        payload.extend_from_slice(&vi(1 + level)); // sell delta
        payload.extend_from_slice(&vi(10 + level)); // buy volume
        payload.extend_from_slice(&vi(20 + level)); // sell volume
    }
    payload.extend_from_slice(&[0xEE, 0xEE]); // two skipped bytes
    payload.extend_from_slice(&vi(0));
    payload.extend_from_slice(&vi(0));
    payload.extend_from_slice(&vi(0));
    payload.extend_from_slice(&vi(0));
    payload.extend_from_slice(&250u16.to_le_bytes()); // rate, in hundredths
    payload.extend_from_slice(&9u16.to_le_bytes()); // active2
    payload
}

#[test]
fn test_quote_request_layout() {
    let codes = vec![String::from("sz000001"), String::from("sh600008")];
    let frame = Quote::request(5, &codes).unwrap();
    let mut expected: Vec<u8> = vec![0x05, 0, 0, 0, 0, 0, 0, 0, 2, 0];
    expected.push(0x00);
    expected.extend_from_slice(b"000001");
    expected.push(0x01);
    expected.extend_from_slice(b"600008");
    assert_eq!(frame.data, expected);
    assert_eq!(frame.msg_type.as_u16(), 0x053E);
    let bad = vec![String::from("zz000001")];
    assert!(matches!(Quote::request(5, &bad), Err(MessageError::InvalidCode(_))));
}

#[test]
fn test_quote_decode_fields() {
    let payload = quote_payload_one(1_234);
    let quotes = Quote::decode_response(&payload).unwrap();
    assert_eq!(quotes.len(), 1);
    let q = &quotes[0];
    assert_eq!(q.exchange, Exchange::SZ);
    assert_eq!(q.code, "000001");
    assert_eq!(q.active1, 7);
    assert_eq!(q.k.close.0, 12_340);
    assert_eq!(q.k.last.0, 12_320);
    assert_eq!(q.k.open.0, 12_330);
    assert_eq!(q.k.high.0, 12_370);
    assert_eq!(q.k.low.0, 12_300);
    assert_eq!(q.server_time, "93000");
    assert_eq!(q.total_hand, 123_456);
    assert_eq!(q.intuition, 88);
    assert_eq!(q.amount_raw, u32::from_le_bytes([0x12, 0x34, 0x56, 0x4B]));
    assert_eq!(q.inside_dish, 600);
    assert_eq!(q.outer_disc, 700);
    assert_eq!(q.rate_raw, 250);
    assert_eq!(q.active2, 9);
    for j in 0..5usize {
        assert!(q.buy_level[j].buy);
        assert!(!q.sell_level[j].buy);
        assert_eq!(q.buy_level[j].price.0, q.k.close.0 - 10 * (1 + j as i64));
        assert_eq!(q.sell_level[j].price.0, q.k.close.0 + 10 * (1 + j as i64));
        assert_eq!(q.buy_level[j].number, 10 + j as i32);
        assert_eq!(q.sell_level[j].number, 20 + j as i32);
    }
    // the first depth level brackets the close on both sides
    assert!(q.buy_level[0].price.0 <= q.k.close.0);
    assert!(q.k.close.0 <= q.sell_level[0].price.0);
}

#[test]
fn test_quote_decode_truncated() {
    let payload = quote_payload_one(1_234);
    assert!(Quote::decode_response(&payload[..payload.len() - 3]).is_err());
    assert!(Quote::decode_response(&[0, 0]).is_err());
}

#[test]
fn test_kline_decode_varint_out_of_range() {
    let mut payload: Vec<u8> = vec![1, 0];
    payload.extend_from_slice(&20240105u32.to_le_bytes());
    // a five-byte varint whose magnitude passes the 32-bit range
    payload.extend_from_slice(&[0xBF, 0xFF, 0xFF, 0xFF, 0x7F]);
    payload.extend_from_slice(&vi(0));
    payload.extend_from_slice(&vi(0));
    payload.extend_from_slice(&vi(0));
    payload.extend_from_slice(&[0, 0, 0, 75]);
    payload.extend_from_slice(&[0, 0, 0, 75]);
    let cache = KlineCache { kline_type: 9, is_index: false };
    assert!(matches!(
        KlineMsg::decode_response(&payload, cache),
        Err(MessageError::ParseError(_))
    ));
}

#[test]
fn test_minute_decode_truncated() {
    assert_eq!(
        MinuteMsg::decode_response(&[2, 0, 0, 0]),
        Err(MessageError::InsufficientData)
    );
    // the count promises two records but the payload ends after one
    let mut payload: Vec<u8> = vec![2, 0, 0, 0, 0, 0];
    payload.extend_from_slice(&vi(1));
    payload.extend_from_slice(&vi(0));
    payload.extend_from_slice(&vi(1));
    assert_eq!(MinuteMsg::decode_response(&payload), Err(MessageError::InsufficientData));
}

#[test]
fn test_quote_decode_bad_exchange() {
    let mut payload = quote_payload_one(100);
    payload[4] = 9; // no such exchange
    assert!(matches!(
        Quote::decode_response(&payload),
        Err(MessageError::ParseError(_))
    ));
}
