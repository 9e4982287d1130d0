use algo_trading::config::{
    choose_symbols, parse_bool_or, parse_symbols, to_bybit_symbol, InstrumentType, Mode,
};
use algo_trading::decimal::Decimal;
use algo_trading::md::bybit_ws::{
    classify_message, handle_orderbook_message, handle_trade_message, subscription_topics,
    MessageKind, OrderBookData, TradeData,
};
use algo_trading::md::handler::{plan_market_data, MarketDataError, MarketDataPlan};
use algo_trading::md::replay::{apply_replay_event, ReplayEvent};
use algo_trading::md::types::{OrderBook, Side, Trade};

fn d(s: &str) -> Decimal {
    Decimal::parse(s).unwrap()
}

fn entries(v: &[&[&str]]) -> Vec<Vec<String>> {
    v.iter().map(|e| e.iter().map(|s| s.to_string()).collect()).collect()
}

fn trade_data(ts: i64, side: &str, qty: &str, price: &str) -> TradeData {
    TradeData {
        timestamp: ts,
        s: "USDCUSDT".to_string(),
        side: side.to_string(),
        v: qty.to_string(),
        p: price.to_string(),
        tick_direction: None,
        i: "id".to_string(),
    }
}

#[test]
fn symbols_map_to_bybit_form() {
    assert_eq!(to_bybit_symbol("USDC/USDT"), "USDCUSDT");
    assert_eq!(to_bybit_symbol("BTCUSDT"), "BTCUSDT");
    assert_eq!(to_bybit_symbol("A/B/C"), "ABC");
}

#[test]
fn instruments_map_to_categories_and_endpoints() {
    assert_eq!(InstrumentType::Spot.category(), "spot");
    assert_eq!(InstrumentType::Perp.category(), "linear");
    assert_eq!(InstrumentType::Option.category(), "option");
    assert_eq!(
        InstrumentType::Spot.public_ws_url(),
        "wss://stream-testnet.bybit.com/v5/public/spot"
    );
    assert_eq!(
        InstrumentType::Perp.public_ws_url(),
        "wss://stream-testnet.bybit.com/v5/public/linear"
    );
    assert_eq!(
        InstrumentType::Option.public_ws_url(),
        "wss://stream-testnet.bybit.com/v5/public/option"
    );
    assert_eq!(InstrumentType::Perp.as_str(), "perp");
    assert_eq!(Mode::Replay.as_str(), "Replay");
}

#[test]
fn symbol_lists_split_on_commas_and_trim() {
    assert_eq!(parse_symbols(" USDC/USDT, BTC/USDT "), vec!["USDC/USDT", "BTC/USDT"]);
    assert_eq!(parse_symbols("USDC/USDT"), vec!["USDC/USDT"]);
    assert_eq!(parse_symbols("a,,b"), vec!["a", "", "b"]);
    assert_eq!(parse_symbols(""), vec![""]);
    assert_eq!(parse_symbols("\tx\u{3000},y\n"), vec!["x", "y"]);
}

#[test]
fn flags_parse_as_bool() {
    assert!(parse_bool_or("true", false));
    assert!(!parse_bool_or("false", true));
    assert!(parse_bool_or("yes", true));
    assert!(!parse_bool_or("TRUE", false));
}

#[test]
fn messages_are_classified_by_type_and_topic() {
    assert_eq!(classify_message(Some("snapshot"), Some("orderbook.50.X")), MessageKind::OrderBook);
    assert_eq!(classify_message(Some("delta"), Some("publicTrade.X")), MessageKind::Trade);
    assert_eq!(classify_message(Some("delta"), Some("tickers.X")), MessageKind::Other);
    assert_eq!(classify_message(Some("pong"), Some("orderbook.50.X")), MessageKind::Other);
    assert_eq!(classify_message(None, Some("orderbook.50.X")), MessageKind::Other);
    assert_eq!(classify_message(Some("snapshot"), None), MessageKind::Other);
}

#[test]
fn subscriptions_use_the_bybit_symbol() {
    assert_eq!(subscription_topics("USDC/USDT"), vec!["orderbook.50.USDCUSDT", "publicTrade.USDCUSDT"]);
}

#[test]
fn orderbook_snapshot_then_delta() {
    let mut book = OrderBook::new("USDC/USDT".to_string());
    let snapshot = OrderBookData {
        s: "USDCUSDT".to_string(),
        b: entries(&[&["0.9998", "100"], &["0.9999", "50"], &["bad"]]),
        a: entries(&[&["1.0001", "70"], &["1.0002", "x"]]),
        u: 1,
        seq: None,
    };
    handle_orderbook_message(&mut book, true, Some(1000), &snapshot);
    assert_eq!(book.timestamp, 1000);
    assert_eq!(book.bids.len(), 2);
    assert_eq!(book.bids[0].price.to_text(), "0.9999");
    assert_eq!(book.asks.len(), 1);
    let delta = OrderBookData {
        s: "USDCUSDT".to_string(),
        b: entries(&[&["0.9999", "0"]]),
        a: entries(&[&["1.0000", "5"]]),
        u: 2,
        seq: Some(3),
    };
    handle_orderbook_message(&mut book, false, Some(2000), &delta);
    assert_eq!(book.timestamp, 2000);
    assert_eq!(book.bids.len(), 1);
    assert_eq!(book.bids[0].price.to_text(), "0.9998");
    assert_eq!(book.asks[0].price.to_text(), "1.0000");
    assert_eq!(book.asks.len(), 2);
    handle_orderbook_message(&mut book, true, None, &delta);
    assert!(book.bids.is_empty());
    assert_eq!(book.asks.len(), 1);
    assert!(book.timestamp > 2000);
}

#[test]
fn trades_are_appended_and_capped() {
    let mut trades: Vec<Trade> = Vec::new();
    let data = vec![
        trade_data(1, "Buy", "1", "1.0"),
        trade_data(2, "Sell", "2", "1.1"),
        trade_data(3, "buy", "x", "1.2"),
    ];
    handle_trade_message(&mut trades, &data, 2);
    assert_eq!(trades.len(), 2);
    assert_eq!(trades[0].timestamp, 2);
    assert_eq!(trades[0].side, Side::Sell);
    assert_eq!(trades[1].side, Side::Sell);
    assert!(trades[1].quantity.is_zero());
}

#[test]
fn replay_events_update_book_and_trades() {
    let mut book = OrderBook::new("X".to_string());
    let mut trades: Vec<Trade> = Vec::new();
    let snap = ReplayEvent::OrderBookSnapshot {
        timestamp: 10,
        symbol: "X".to_string(),
        bids: vec![("0.9999".to_string(), "1".to_string()), ("0.9998".to_string(), "2".to_string())],
        asks: vec![("1.0001".to_string(), "3".to_string())],
    };
    assert_eq!(snap.timestamp(), 10);
    apply_replay_event(&mut book, &mut trades, &snap);
    assert_eq!(book.timestamp, 10);
    assert_eq!(book.bids.len(), 2);
    assert_eq!(book.asks.len(), 1);
    let t = ReplayEvent::Trade {
        timestamp: 11,
        symbol: "X".to_string(),
        price: "1.0000".to_string(),
        quantity: "9.5".to_string(),
        side: "buy".to_string(),
    };
    apply_replay_event(&mut book, &mut trades, &t);
    assert_eq!(trades.len(), 1);
    assert_eq!(trades[0].side, Side::Buy);
    assert_eq!(trades[0].quantity.to_text(), "9.5");
    assert_eq!(book.bids.len(), 2);
    let t2 = ReplayEvent::Trade {
        timestamp: 12,
        symbol: "X".to_string(),
        price: "1".to_string(),
        quantity: "1".to_string(),
        side: "SELL".to_string(),
    };
    apply_replay_event(&mut book, &mut trades, &t2);
    assert_eq!(trades[1].side, Side::Sell);
}

#[test]
fn market_data_plan_picks_first_symbol() {
    let symbols = vec!["A/B".to_string(), "C/D".to_string()];
    match plan_market_data(Mode::Live, &symbols, &None) {
        Ok(MarketDataPlan::Live { symbol }) => assert_eq!(symbol, "A/B"),
        other => panic!("unexpected {:?}", other),
    }
    match plan_market_data(Mode::Replay, &symbols, &Some("f.jsonl".to_string())) {
        Ok(MarketDataPlan::Replay { symbol, file }) => {
            assert_eq!(symbol, "A/B");
            assert_eq!(file, "f.jsonl");
        }
        other => panic!("unexpected {:?}", other),
    }
    assert_eq!(
        plan_market_data(Mode::Replay, &symbols, &None).unwrap_err(),
        MarketDataError::NoReplayFile
    );
    assert_eq!(plan_market_data(Mode::Live, &Vec::new(), &None).unwrap_err(), MarketDataError::NoSymbols);
    let _ = d("1");
}

#[test]
fn symbols_come_from_command_line_then_environment_then_default() {
    assert_eq!(
        choose_symbols(Some("BTC/USDT, ETH/USDT"), Some("SOLUSDT"), Some("X/Y")),
        vec!["BTC/USDT", "ETH/USDT"]
    );
    assert_eq!(choose_symbols(None, Some("BTCUSDT"), Some("X/Y")), vec!["BTCUSDT"]);
    assert_eq!(choose_symbols(None, None, Some(" X/Y ")), vec!["X/Y"]);
    assert_eq!(choose_symbols(None, None, None), vec!["USDC/USDT"]);
    assert_eq!(InstrumentType::Spot.symbol_variable_name(), "BYBIT_SPOT_SYMBOL");
    assert_eq!(InstrumentType::Perp.symbol_variable_name(), "BYBIT_LINEAR_SYMBOL");
    assert_eq!(InstrumentType::Option.symbol_variable_name(), "BYBIT_OPTION_SYMBOL");
}

#[test]
fn public_ws_url_honours_the_configured_endpoint() {
    assert_eq!(InstrumentType::Spot.ws_url_variable_name(), "BYBIT_WS_PUBLIC_SPOT_URL");
    assert_eq!(InstrumentType::Perp.ws_url_variable_name(), "BYBIT_WS_PUBLIC_LINEAR_URL");
    assert_eq!(InstrumentType::Option.ws_url_variable_name(), "BYBIT_WS_PUBLIC_OPTION_URL");
    assert_eq!(
        InstrumentType::Perp.choose_public_ws_url(Some("wss://example.test/linear")),
        "wss://example.test/linear"
    );
    assert_eq!(
        InstrumentType::Option.choose_public_ws_url(None),
        "wss://stream-testnet.bybit.com/v5/public/option"
    );
}
