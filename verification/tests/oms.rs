use algo_trading::decimal::Decimal;
use algo_trading::exchange::types::{
    Fill, Order, OrderRequest, OrderSide, OrderStatus, OrderType, TimeInForce,
};
use algo_trading::exec::oms::OMS;

fn d(s: &str) -> Decimal {
    Decimal::parse(s).unwrap()
}

fn request(client_id: &str) -> OrderRequest {
    OrderRequest {
        client_order_id: client_id.to_string(),
        symbol: "USDCUSDT".to_string(),
        side: OrderSide::Buy,
        order_type: OrderType::Limit,
        quantity: d("10"),
        price: Some(d("0.9995")),
        time_in_force: TimeInForce::PostOnly,
    }
}

fn order(order_id: &str, client_id: &str, symbol: &str) -> Order {
    Order {
        order_id: order_id.to_string(),
        client_order_id: client_id.to_string(),
        symbol: symbol.to_string(),
        side: OrderSide::Buy,
        order_type: OrderType::Limit,
        quantity: d("10"),
        price: Some(d("0.9995")),
        filled_quantity: d("0"),
        average_price: None,
        status: OrderStatus::New,
        time_in_force: TimeInForce::PostOnly,
        created_at: 1,
        updated_at: 1,
    }
}

fn fill(trade_id: &str, order_id: &str, client_id: &str, qty: &str) -> Fill {
    Fill {
        trade_id: trade_id.to_string(),
        order_id: order_id.to_string(),
        client_order_id: client_id.to_string(),
        symbol: "USDCUSDT".to_string(),
        side: OrderSide::Buy,
        price: d("0.9995"),
        quantity: d(qty),
        fee: d("0.001"),
        fee_currency: "USDT".to_string(),
        is_maker: true,
        timestamp: 5,
    }
}

#[test]
fn placed_order_is_tracked_under_client_id() {
    let mut oms = OMS::new();
    let placed = oms.place_order(request("c1"), order("o1", "c1", "USDCUSDT"));
    assert_eq!(placed.order_id, "o1");
    let state = oms.get_order_state("c1").unwrap();
    assert_eq!(state.order.order_id, "o1");
    assert_eq!(state.request.client_order_id, "c1");
    assert_eq!(state.order.status, OrderStatus::New);
    assert!(oms.get_order_state("c2").is_none());
    assert_eq!(oms.get_all_orders().len(), 1);
}

#[test]
fn client_order_id_is_generated_when_missing() {
    let oms = OMS::new();
    let prepared = oms.prepare_order_request(request(""));
    let id = prepared.client_order_id.clone();
    assert!(id.starts_with("order_"));
    let uuid = &id["order_".len()..];
    assert_eq!(uuid.len(), 36);
    assert_eq!(uuid.as_bytes()[8], b'-');
    assert_eq!(uuid.as_bytes()[14], b'4');
    assert_eq!(prepared.symbol, "USDCUSDT");
    let kept = oms.prepare_order_request(request("mine"));
    assert_eq!(kept.client_order_id, "mine");
    let other = oms.generate_client_order_id("mm");
    assert!(other.starts_with("mm_"));
    assert_eq!(other.len(), 3 + 36);
    assert_ne!(oms.generate_client_order_id("mm"), other);
}

#[test]
fn fills_update_filled_quantity_and_status_once() {
    let mut oms = OMS::new();
    oms.place_order(request("c1"), order("o1", "c1", "USDCUSDT"));
    let stored = oms.process_fills(vec![fill("t1", "o1", "c1", "4")]);
    assert_eq!(stored.len(), 1);
    let state = oms.get_order_state("c1").unwrap();
    assert_eq!(state.order.filled_quantity.to_text(), "4");
    assert_eq!(state.order.status, OrderStatus::PartiallyFilled);

    // The same fill again, and a duplicate within one batch, count once.
    let stored = oms.process_fills(vec![
        fill("t1", "o1", "c1", "4"),
        fill("t2", "o1", "c1", "6"),
        fill("t2", "o1", "c1", "6"),
    ]);
    assert_eq!(stored.len(), 1);
    assert_eq!(stored[0].trade_id, "t2");
    let state = oms.get_order_state("c1").unwrap();
    assert_eq!(state.order.filled_quantity.to_text(), "10");
    assert_eq!(state.order.status, OrderStatus::Filled);
    assert_eq!(oms.get_order_fills("o1").len(), 2);
    assert!(oms.get_order_fills("o9").is_empty());
}

#[test]
fn fills_of_untracked_orders_are_recorded_only() {
    let mut oms = OMS::new();
    let stored = oms.process_fills(vec![fill("t1", "o7", "unknown", "1")]);
    assert_eq!(stored.len(), 1);
    assert_eq!(oms.get_order_fills("o7").len(), 1);
    assert!(oms.get_order_state("unknown").is_none());
    assert_eq!(oms.get_stats().total_fills, 1);
}

#[test]
fn cancel_order_finds_the_client_id() {
    let mut oms = OMS::new();
    oms.place_order(request("c1"), order("o1", "c1", "USDCUSDT"));
    oms.place_order(request("c2"), order("o2", "c2", "USDCUSDT"));
    assert_eq!(oms.find_client_order_id("o2"), Some("c2".to_string()));
    assert_eq!(oms.find_client_order_id("o9"), None);
    assert_eq!(oms.cancel_order("o1"), Some("c1".to_string()));
    assert_eq!(oms.get_order_state("c1").unwrap().order.status, OrderStatus::Cancelled);
    assert_eq!(oms.get_order_state("c2").unwrap().order.status, OrderStatus::New);
    assert_eq!(oms.cancel_order("o9"), None);
}

#[test]
fn cancel_all_orders_touches_only_the_symbol() {
    let mut oms = OMS::new();
    oms.place_order(request("c1"), order("o1", "c1", "USDCUSDT"));
    oms.place_order(request("c2"), order("o2", "c2", "BTCUSDT"));
    oms.cancel_all_orders("USDCUSDT");
    assert_eq!(oms.get_order_state("c1").unwrap().order.status, OrderStatus::Cancelled);
    assert_eq!(oms.get_order_state("c2").unwrap().order.status, OrderStatus::New);
}

#[test]
fn sync_replaces_tracked_orders_only() {
    let mut oms = OMS::new();
    oms.place_order(request("c1"), order("o1", "c1", "USDCUSDT"));
    let mut updated = order("o1", "c1", "USDCUSDT");
    updated.status = OrderStatus::PartiallyFilled;
    updated.filled_quantity = d("3");
    oms.sync_orders(vec![updated, order("o5", "c5", "USDCUSDT")]);
    let state = oms.get_order_state("c1").unwrap();
    assert_eq!(state.order.status, OrderStatus::PartiallyFilled);
    assert_eq!(state.order.filled_quantity.to_text(), "3");
    assert!(oms.get_order_state("c5").is_none());
}

#[test]
fn replace_order_tracks_the_new_order() {
    let mut oms = OMS::new();
    oms.place_order(request("c1"), order("o1", "c1", "USDCUSDT"));
    oms.replace_order(request("c2"), order("o2", "c2", "USDCUSDT"));
    assert_eq!(oms.get_order_state("c2").unwrap().order.order_id, "o2");
    assert_eq!(oms.get_all_orders().len(), 2);
}

#[test]
fn stats_count_orders_by_status() {
    let mut oms = OMS::new();
    oms.place_order(request("c1"), order("o1", "c1", "A"));
    oms.place_order(request("c2"), order("o2", "c2", "A"));
    oms.place_order(request("c3"), order("o3", "c3", "B"));
    let mut rejected = order("o4", "c4", "B");
    rejected.status = OrderStatus::Rejected;
    oms.place_order(request("c4"), rejected);
    oms.cancel_all_orders("B");
    oms.process_fills(vec![fill("t1", "o1", "c1", "10"), fill("t2", "o2", "c2", "1")]);
    let stats = oms.get_stats();
    assert_eq!(stats.total_orders, 4);
    assert_eq!(stats.filled_orders, 1);
    assert_eq!(stats.partially_filled_orders, 1);
    assert_eq!(stats.cancelled_orders, 2);
    assert_eq!(stats.active_orders, 0);
    assert_eq!(stats.total_fills, 2);
}

#[test]
fn apply_fill_reports_whether_new() {
    let mut oms = OMS::new();
    assert!(oms.apply_fill(fill("t1", "o1", "c1", "1"), 7));
    assert!(!oms.apply_fill(fill("t1", "o1", "c1", "1"), 8));
}

#[test]
fn record_order_keeps_given_times() {
    let mut oms = OMS::new();
    oms.record_order(request("c1"), order("o1", "c1", "A"), 11, 12);
    let state = oms.get_order_state("c1").unwrap();
    assert_eq!(state.created_at, 11);
    assert_eq!(state.last_update, 12);
    oms.mark_cancelled("c1", 20);
    let state = oms.get_order_state("c1").unwrap();
    assert_eq!(state.order.status, OrderStatus::Cancelled);
    assert_eq!(state.last_update, 20);
}

#[test]
fn fills_that_overflow_the_filled_quantity_stop_the_batch() {
    let mut oms = OMS::new();
    let mut big = order("o1", "c1", "USDCUSDT");
    big.filled_quantity = d("79228162514264337593543950335");
    oms.place_order(request("c1"), big);
    let huge = "79228162514264337593543950335";
    assert_eq!(oms.try_apply_fill(fill("t1", "o1", "c1", huge), 7), None);
    assert!(oms.get_order_fills("o1").is_empty());
    let batch = vec![fill("t0", "o2", "c2", "1"), fill("t1", "o1", "c1", huge)];
    assert!(oms.try_process_fills(batch).is_none());
}

#[test]
fn try_process_fills_records_new_fills_once() {
    let mut oms = OMS::new();
    oms.place_order(request("c1"), order("o1", "c1", "USDCUSDT"));
    let batch = vec![fill("t1", "o1", "c1", "4"), fill("t1", "o1", "c1", "4"), fill("t2", "o1", "c1", "6")];
    let stored = oms.try_process_fills(batch).unwrap();
    assert_eq!(stored.len(), 2);
    assert_eq!(stored[0].trade_id, "t1");
    assert_eq!(stored[1].trade_id, "t2");
    let state = oms.get_order_state("c1").unwrap();
    assert!(state.order.filled_quantity.value_eq(&d("10")));
    assert_eq!(state.order.status, OrderStatus::Filled);
    assert_eq!(oms.try_apply_fill(fill("t2", "o1", "c1", "6"), 9), Some(false));
}

#[test]
fn processing_a_batch_twice_changes_nothing() {
    let mut oms = OMS::new();
    oms.place_order(request("c1"), order("o1", "c1", "USDCUSDT"));
    let batch = || vec![fill("t1", "o1", "c1", "4"), fill("t2", "o1", "c1", "3"), fill("t3", "o9", "c9", "1")];
    let first = oms.process_fills(batch());
    assert_eq!(first.len(), 3);
    let state = oms.get_order_state("c1").unwrap();
    let second = oms.process_fills(batch());
    assert!(second.is_empty());
    let again = oms.get_order_state("c1").unwrap();
    assert!(again.order.filled_quantity.value_eq(&state.order.filled_quantity));
    assert_eq!(again.order.status, OrderStatus::PartiallyFilled);
    assert_eq!(again.last_update, state.last_update);
    assert_eq!(oms.get_order_fills("o1").len(), 2);
    assert_eq!(oms.get_stats().total_fills, 3);
}

#[test]
fn stats_agree_with_all_orders() {
    let mut oms = OMS::new();
    oms.place_order(request("c1"), order("o1", "c1", "USDCUSDT"));
    oms.place_order(request("c2"), order("o2", "c2", "USDCUSDT"));
    oms.place_order(request("c3"), order("o3", "c3", "BTCUSDT"));
    oms.cancel_order("o2");
    oms.apply_fill(fill("t1", "o3", "c3", "10"), 3);
    let all = oms.get_all_orders();
    let stats = oms.get_stats();
    let count = |st: OrderStatus| all.iter().filter(|s| s.order.status == st).count();
    assert_eq!(stats.total_orders, all.len());
    assert_eq!(stats.active_orders, count(OrderStatus::New));
    assert_eq!(stats.filled_orders, count(OrderStatus::Filled));
    assert_eq!(stats.partially_filled_orders, count(OrderStatus::PartiallyFilled));
    assert_eq!(stats.cancelled_orders, count(OrderStatus::Cancelled));
    assert_eq!(stats.active_orders, 1);
    assert_eq!(stats.filled_orders, 1);
    assert_eq!(stats.cancelled_orders, 1);
}
