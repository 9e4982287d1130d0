use algo_trading::config::{InstrumentType, Mode};
use algo_trading::decimal::Decimal;
use algo_trading::logging::{
    log_error, log_info, log_system_shutdown, log_system_start, log_warning, EventType,
    LogEntry, LogValue,
};
use algo_trading::md::types::{Side, Trade};
use algo_trading::signals::microstructure::{
    EventWindow, IcebergTracker, TimedWindow, MAX_TRADE_HISTORY, STUFFING_WINDOW_MS,
    TRADE_FLOW_WINDOW_MS,
};

fn trade(price: &str) -> Trade {
    Trade {
        timestamp: 0,
        price: Decimal::parse(price).unwrap(),
        quantity: Decimal::parse("1").unwrap(),
        side: Side::Buy,
    }
}

fn text(v: &LogValue) -> String {
    match v {
        LogValue::Text(s) => s.clone(),
        _ => panic!("not text"),
    }
}

#[test]
fn event_window_drops_old_events() {
    let mut w = EventWindow::new(STUFFING_WINDOW_MS);
    w.record(0);
    w.record(500);
    w.record(1000);
    assert_eq!(w.len(), 3);
    w.record(1600);
    assert_eq!(w.len(), 2);
    w.record(5000);
    assert_eq!(w.len(), 1);
}

#[test]
fn iceberg_score_follows_run_length() {
    let mut t = IcebergTracker::new();
    assert_eq!(t.observe(&Vec::new()), 0);
    assert_eq!(t.observe(&vec![trade("1.0"), trade("1.00")]), 0);
    assert_eq!(t.observe(&vec![trade("1")]), 50);
    assert_eq!(t.observe(&vec![trade("1"), trade("1.000")]), 100);
    assert_eq!(t.observe(&vec![trade("2")]), 0);
    assert_eq!(t.observe(&Vec::new()), 0);
}

#[test]
fn log_entries_carry_messages_and_values() {
    let e = log_error("main", "boom");
    assert_eq!(e.event_type, EventType::Error);
    assert_eq!(e.message, "Error in main: boom");
    assert_eq!(e.data[0].0, "context");
    assert_eq!(text(&e.data[1].1), "boom");
    let w = log_warning("ws", "closed");
    assert_eq!(w.message, "Warning in ws: closed");
    assert_eq!(w.data[1].0, "warning");
    let i = log_info("system", "ready");
    assert_eq!(i.message, "system: ready");
    assert_eq!(i.event_type.as_str(), "INFO");
    let s = log_system_shutdown("Normal completion", true);
    assert_eq!(s.message, "System shutdown: Normal completion");
    assert!(matches!(s.data[1].1, LogValue::Flag(true)));
    assert!(!s.timestamp.is_empty());
    let symbols = vec!["USDC/USDT".to_string()];
    let st = log_system_start(Mode::Live, InstrumentType::Perp, &symbols, 60, true);
    assert_eq!(st.message, "Algorithmic trading system starting");
    assert_eq!(text(&st.data[0].1), "Live");
    assert_eq!(text(&st.data[1].1), "perp");
    assert!(matches!(st.data[3].1, LogValue::Count(60)));
    assert_eq!(EventType::SystemStart.as_str(), "SYSTEM_START");
}

#[test]
fn with_data_replaces_or_appends() {
    let e = LogEntry::new(EventType::Info, "m".to_string());
    let e = e.with_data("a", LogValue::Count(1));
    let e = e.with_data("b", LogValue::Flag(false));
    let e = e.with_data("a", LogValue::Count(2));
    assert_eq!(e.data.len(), 2);
    assert_eq!(e.data[0].0, "a");
    assert!(matches!(e.data[0].1, LogValue::Count(2)));
    assert_eq!(e.data[1].0, "b");
}

#[test]
fn timed_window_drops_stale_then_keeps_the_newest() {
    let mut w: TimedWindow<u32> = TimedWindow::new(TRADE_FLOW_WINDOW_MS, 3);
    w.push(0, 10);
    w.push(1000, 11);
    w.push(6000, 12);
    w.push(7000, 13);
    w.push(8000, 14);
    w.push(9000, 15);
    w.prune(6500);
    // 0 and 1000 are more than 5000 before 6500; of the rest the newest three stay.
    assert_eq!(w.len(), 3);
    assert_eq!(*w.get(0), (7000, 13));
    assert_eq!(*w.get(2), (9000, 15));
    let mut big: TimedWindow<u8> = TimedWindow::new(TRADE_FLOW_WINDOW_MS, MAX_TRADE_HISTORY);
    for i in 0..60 {
        big.push(i, 0);
    }
    big.prune(100);
    assert_eq!(big.len(), MAX_TRADE_HISTORY);
    assert_eq!(big.get(0).0, 10);
}

#[test]
fn log_timestamps_are_utc_rfc3339() {
    let e = log_info("ctx", "msg");
    assert!(e.timestamp.len() >= 25);
    assert!(e.timestamp.ends_with("+00:00"));
    assert_eq!(&e.timestamp[10..11], "T");
}
