//! Tests for the batched-fetch accumulation steps.

use tdx::{code_all_step, kline_all_step, kline_until_step, trade_all_step, CodeResponse, Kline,
    KlineResponse, Price, StockCode, Timestamp, Trade, TradeResponse, TradeStatus};

fn bar(t: i64, close: i64) -> Kline {
    Kline {
        last: Price(close),
        open: Price(close),
        high: Price(close),
        low: Price(close),
        close: Price(close),
        order: 0,
        volume: 1,
        amount: Price(close),
        time: Timestamp { secs: t },
        up_count: 0,
        down_count: 0,
    }
}

#[test]
fn test_kline_all_step_prepends_and_stops_on_short_batch() {
    let mut acc = KlineResponse { count: 0, list: Vec::new() };
    let mut start: u16 = 0;

    // a full batch does not end the loop and advances the start
    let full = KlineResponse { count: 2, list: vec![bar(300, 1), bar(400, 2)] };
    let done = kline_all_step(&mut acc, &mut start, full, 2);
    assert!(!done);
    assert_eq!(start, 2);
    assert_eq!(acc.count, 2);

    // the next (older) batch goes in front of the accumulated series
    let older = KlineResponse { count: 1, list: vec![bar(100, 3)] };
    let done = kline_all_step(&mut acc, &mut start, older, 2);
    assert!(done);
    assert_eq!(start, 2);
    assert_eq!(acc.count, 3);
    let times: Vec<i64> = acc.list.iter().map(|k| k.time.secs).collect();
    assert_eq!(times, vec![100, 300, 400]);
}

#[test]
fn test_kline_all_step_short_first_batch_terminates() {
    let mut acc = KlineResponse { count: 0, list: Vec::new() };
    let mut start: u16 = 0;
    let only = KlineResponse { count: 1, list: vec![bar(100, 1)] };
    let done = kline_all_step(&mut acc, &mut start, only, 800);
    assert!(done);
    assert_eq!(acc.list.len(), 1);
}

#[test]
fn test_kline_until_step_keeps_matching_suffix() {
    let mut acc = KlineResponse { count: 0, list: Vec::new() };
    let batch = KlineResponse {
        count: 4,
        list: vec![bar(100, 1), bar(200, 2), bar(300, 3), bar(400, 4)],
    };
    // keep only bars after time 250: the scan from the newest end stops
    // at the first older bar
    let keep = |k: &Kline| k.time.secs > 250;
    let done = kline_until_step(&mut acc, batch, 4, &keep);
    assert!(done);
    let times: Vec<i64> = acc.list.iter().map(|k| k.time.secs).collect();
    assert_eq!(times, vec![300, 400]);
    assert_eq!(acc.count, 2);
}

#[test]
fn test_kline_until_step_all_false_gives_empty_series() {
    let mut acc = KlineResponse { count: 0, list: Vec::new() };
    let batch = KlineResponse { count: 3, list: vec![bar(100, 1), bar(200, 2), bar(300, 3)] };
    let keep = |_k: &Kline| false;
    let done = kline_until_step(&mut acc, batch, 800, &keep);
    assert!(done);
    assert!(acc.list.is_empty());
    assert_eq!(acc.count, 0);
}

#[test]
fn test_kline_until_step_all_true_continues() {
    let mut acc = KlineResponse { count: 0, list: Vec::new() };
    let batch = KlineResponse { count: 2, list: vec![bar(100, 1), bar(200, 2)] };
    let keep = |_k: &Kline| true;
    // a full batch that fully matches keeps the loop going
    let done = kline_until_step(&mut acc, batch, 2, &keep);
    assert!(!done);
    assert_eq!(acc.list.len(), 2);
    // a short batch that fully matches ends it
    let tail = KlineResponse { count: 1, list: vec![bar(50, 1)] };
    let done = kline_until_step(&mut acc, tail, 2, &keep);
    assert!(done);
    assert_eq!(acc.list.len(), 3);
}

#[test]
fn test_trade_all_step() {
    let mut acc = TradeResponse { count: 0, list: Vec::new() };
    let mut start: u16 = 0;
    let t = Trade {
        time: Timestamp { secs: 1 },
        price: Price(10),
        volume: 1,
        status: TradeStatus::Buy,
        number: 1,
    };
    let resp = TradeResponse { count: 1, list: vec![t] };
    let done = trade_all_step(&mut acc, &mut start, resp, 1800);
    assert!(done);
    assert_eq!(acc.count, 1);
    assert_eq!(acc.list.len(), 1);
}

#[test]
fn test_code_all_step_appends_in_order() {
    let sc = |c: &str| StockCode {
        name: String::from("n"),
        code: String::from(c),
        multiple: 100,
        decimal: 2,
        last_price_raw: 0,
    };
    let mut acc = CodeResponse { count: 0, codes: Vec::new() };
    let mut start: u16 = 0;
    let first = CodeResponse { count: 2, codes: vec![sc("000001"), sc("000002")] };
    let done = code_all_step(&mut acc, &mut start, first, 2);
    assert!(!done);
    assert_eq!(start, 2);
    let second = CodeResponse { count: 1, codes: vec![sc("000003")] };
    let done = code_all_step(&mut acc, &mut start, second, 2);
    assert!(done);
    assert_eq!(acc.count, 3);
    let codes: Vec<&str> = acc.codes.iter().map(|c| c.code.as_str()).collect();
    assert_eq!(codes, vec!["000001", "000002", "000003"]);
}

#[test]
fn test_sort_probes() {
    let probes: Vec<(u64, usize)> = vec![(30, 0), (10, 1), (20, 2), (10, 3)];
    let sorted = tdx::sort_probes(probes);
    assert_eq!(sorted, vec![(10, 1), (10, 3), (20, 2), (30, 0)]);
    assert_eq!(tdx::sort_probes(Vec::new()), Vec::new());
}
