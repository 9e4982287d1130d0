use algo_trading::decimal::Decimal;
use algo_trading::exchange::bybit::{
    balance_params, build_query_string, cancel_all_params, cancel_order_params, first_order,
    fills_params, generate_signature, interpret_response, open_orders_params,
    order_create_params, order_query_params, parse_balances, parse_execution, sign_get, sign_post,
    parse_execution_list, parse_order_info, parse_order_list, try_parse_balances, BybitBalance,
    BybitBalanceInfo, BybitExecution, BybitOrderInfo, ExchangeError,
};
use algo_trading::exchange::types::{
    OrderRequest, OrderSide, OrderStatus, OrderType, TimeInForce,
};
use algo_trading::text::parse_i64;
use hmac::{Hmac, Mac};
use sha2::Sha256;

fn d(s: &str) -> Decimal {
    Decimal::parse(s).unwrap()
}

fn pairs(v: &[(&str, &str)]) -> Vec<(String, String)> {
    v.iter().map(|(k, x)| (k.to_string(), x.to_string())).collect()
}

fn info() -> BybitOrderInfo {
    BybitOrderInfo {
        order_id: "o1".to_string(),
        order_link_id: Some("c1".to_string()),
        symbol: "USDCUSDT".to_string(),
        side: "Buy".to_string(),
        order_type: "Limit".to_string(),
        price: Some("0.9995".to_string()),
        qty: "10".to_string(),
        cum_exec_qty: "2.5".to_string(),
        avg_price: Some("".to_string()),
        order_status: "PartiallyFilled".to_string(),
        time_in_force: "PostOnly".to_string(),
        created_time: "1700000000000".to_string(),
        updated_time: "1700000000500".to_string(),
    }
}

fn execution() -> BybitExecution {
    BybitExecution {
        exec_id: "e1".to_string(),
        order_id: "o1".to_string(),
        order_link_id: None,
        symbol: "USDCUSDT".to_string(),
        side: "Sell".to_string(),
        exec_price: "1.0001".to_string(),
        exec_qty: "3".to_string(),
        exec_fee: "0.0003".to_string(),
        fee_rate: None,
        exec_type: "Trade".to_string(),
        exec_time: "1700000000123".to_string(),
        is_maker: false,
    }
}

#[test]
fn signature_is_hex_hmac_of_timestamp_key_window_and_params() {
    let sig = generate_signature("mykey", "secret", 1700000000000, "category=spot");
    let mut mac = Hmac::<Sha256>::new_from_slice(b"secret").unwrap();
    mac.update(b"1700000000000mykey5000category=spot");
    let expected = hex::encode(mac.finalize().into_bytes());
    assert_eq!(sig, expected);
    assert_eq!(sig.len(), 64);
    assert!(sig.chars().all(|c| c.is_ascii_hexdigit() && !c.is_ascii_uppercase()));
}

#[test]
fn query_string_is_sorted_and_joined() {
    let params = pairs(&[("symbol", "USDCUSDT"), ("category", "spot"), ("orderId", "42")]);
    assert_eq!(build_query_string(&params), "category=spot&orderId=42&symbol=USDCUSDT");
    assert_eq!(build_query_string(&Vec::new()), "");
    let one = pairs(&[("limit", "50")]);
    assert_eq!(build_query_string(&one), "limit=50");
}

#[test]
fn order_create_params_list_the_request() {
    let req = OrderRequest {
        client_order_id: "c1".to_string(),
        symbol: "USDCUSDT".to_string(),
        side: OrderSide::Sell,
        order_type: OrderType::Limit,
        quantity: d("10.50"),
        price: Some(d("1.0002")),
        time_in_force: TimeInForce::PostOnly,
    };
    let params = order_create_params("spot", &req);
    assert_eq!(
        params,
        pairs(&[
            ("category", "spot"),
            ("symbol", "USDCUSDT"),
            ("side", "Sell"),
            ("orderType", "Limit"),
            ("qty", "10.50"),
            ("timeInForce", "PostOnly"),
            ("orderLinkId", "c1"),
            ("price", "1.0002"),
        ])
    );
    let market = OrderRequest { price: None, order_type: OrderType::Market, ..req };
    assert_eq!(order_create_params("linear", &market).len(), 7);
}

#[test]
fn other_request_params() {
    assert_eq!(
        cancel_order_params("spot", "X", "7"),
        pairs(&[("category", "spot"), ("symbol", "X"), ("orderId", "7")])
    );
    assert_eq!(cancel_all_params("spot", "X"), pairs(&[("category", "spot"), ("symbol", "X")]));
    assert_eq!(open_orders_params("spot", None), pairs(&[("category", "spot")]));
    assert_eq!(
        open_orders_params("spot", Some("X")),
        pairs(&[("category", "spot"), ("symbol", "X")])
    );
    assert_eq!(
        order_query_params("option", "X", "9"),
        pairs(&[("category", "option"), ("symbol", "X"), ("orderId", "9")])
    );
    assert_eq!(
        fills_params("spot", Some("X"), 50),
        pairs(&[("category", "spot"), ("limit", "50"), ("symbol", "X")])
    );
    assert_eq!(balance_params(), pairs(&[("accountType", "UNIFIED")]));
}

#[test]
fn response_envelope() {
    assert_eq!(interpret_response(0, "OK".to_string(), Some(5)).unwrap(), 5);
    match interpret_response::<i32>(10001, "bad".to_string(), Some(5)) {
        Err(ExchangeError::Api { code, message }) => {
            assert_eq!(code, 10001);
            assert_eq!(message, "bad");
        }
        other => panic!("unexpected {:?}", other),
    }
    assert!(matches!(
        interpret_response::<i32>(0, "OK".to_string(), None),
        Err(ExchangeError::EmptyResult)
    ));
}

#[test]
fn order_info_converts() {
    let order = parse_order_info(&info()).unwrap();
    assert_eq!(order.order_id, "o1");
    assert_eq!(order.client_order_id, "c1");
    assert_eq!(order.side, OrderSide::Buy);
    assert_eq!(order.order_type, OrderType::Limit);
    assert_eq!(order.quantity.to_text(), "10");
    assert_eq!(order.price.unwrap().to_text(), "0.9995");
    assert_eq!(order.filled_quantity.to_text(), "2.5");
    assert!(order.average_price.is_none());
    assert_eq!(order.status, OrderStatus::PartiallyFilled);
    assert_eq!(order.time_in_force, TimeInForce::PostOnly);
    assert_eq!(order.created_at, 1700000000000);
    assert_eq!(order.updated_at, 1700000000500);
}

#[test]
fn order_info_unknown_texts_fall_back() {
    let mut i = info();
    i.side = "buy".to_string();
    i.order_type = "Market".to_string();
    i.order_status = "Deactivated".to_string();
    i.time_in_force = "IOC".to_string();
    i.order_link_id = None;
    let order = parse_order_info(&i).unwrap();
    assert_eq!(order.side, OrderSide::Sell);
    assert_eq!(order.order_type, OrderType::Market);
    assert_eq!(order.status, OrderStatus::Expired);
    assert_eq!(order.time_in_force, TimeInForce::IOC);
    assert_eq!(order.client_order_id, "");
}

#[test]
fn order_info_errors_name_the_first_bad_number() {
    let mut i = info();
    i.cum_exec_qty = "x".to_string();
    i.updated_time = "y".to_string();
    match parse_order_info(&i) {
        Err(ExchangeError::InvalidNumber { text }) => assert_eq!(text, "x"),
        other => panic!("unexpected {:?}", other.is_ok()),
    }
    let mut j = info();
    j.created_time = "12.5".to_string();
    assert!(matches!(parse_order_info(&j), Err(ExchangeError::InvalidNumber { .. })));
    assert!(matches!(first_order(&Vec::new()), Err(ExchangeError::OrderNotFound)));
    assert_eq!(first_order(&vec![info()]).unwrap().order_id, "o1");
    assert_eq!(parse_order_list(&vec![info(), info()]).unwrap().len(), 2);
    assert!(parse_order_list(&vec![info(), i]).is_err());
}

#[test]
fn execution_converts() {
    let fill = parse_execution(&execution()).unwrap();
    assert_eq!(fill.trade_id, "e1");
    assert_eq!(fill.client_order_id, "");
    assert_eq!(fill.side, OrderSide::Sell);
    assert_eq!(fill.price.to_text(), "1.0001");
    assert_eq!(fill.quantity.to_text(), "3");
    assert_eq!(fill.fee.to_text(), "0.0003");
    assert_eq!(fill.fee_currency, "USDT");
    assert!(!fill.is_maker);
    assert_eq!(fill.timestamp, 1700000000123);
    let mut bad = execution();
    bad.exec_fee = "fee".to_string();
    match parse_execution(&bad) {
        Err(ExchangeError::InvalidNumber { text }) => assert_eq!(text, "fee"),
        _ => panic!("expected an error"),
    }
    assert_eq!(parse_execution_list(&vec![execution()]).unwrap().len(), 1);
    assert!(parse_execution_list(&vec![execution(), bad]).is_err());
}

#[test]
fn balances_take_locked_as_total_minus_available() {
    let list = vec![
        BybitBalanceInfo {
            coin: vec![
                BybitBalance {
                    coin: "USDT".to_string(),
                    wallet_balance: "100.5".to_string(),
                    available_to_withdraw: "80".to_string(),
                },
                BybitBalance {
                    coin: "USDC".to_string(),
                    wallet_balance: "7".to_string(),
                    available_to_withdraw: "7".to_string(),
                },
            ],
        },
        BybitBalanceInfo { coin: vec![] },
    ];
    let balances = parse_balances(&list).unwrap();
    assert_eq!(balances.len(), 2);
    assert_eq!(balances[0].currency, "USDT");
    assert_eq!(balances[0].total.to_text(), "100.5");
    assert_eq!(balances[0].available.to_text(), "80");
    assert_eq!(balances[0].locked.to_text(), "20.5");
    assert_eq!(balances[1].locked.to_text(), "0");
    let bad = vec![BybitBalanceInfo {
        coin: vec![BybitBalance {
            coin: "USDT".to_string(),
            wallet_balance: "1".to_string(),
            available_to_withdraw: "?".to_string(),
        }],
    }];
    match try_parse_balances(&bad) {
        Some(Err(ExchangeError::InvalidNumber { text })) => assert_eq!(text, "?"),
        _ => panic!("expected an error"),
    }
}

#[test]
fn integers_parse_as_std_does() {
    assert_eq!(parse_i64("123"), Some(123));
    assert_eq!(parse_i64("-45"), Some(-45));
    assert_eq!(parse_i64("+7"), Some(7));
    assert_eq!(parse_i64("9223372036854775807"), Some(i64::MAX));
    assert_eq!(parse_i64("-9223372036854775808"), Some(i64::MIN));
    assert_eq!(parse_i64("9223372036854775808"), None);
    assert_eq!(parse_i64(""), None);
    assert_eq!(parse_i64("-"), None);
    assert_eq!(parse_i64("1 "), None);
    assert_eq!(parse_i64("12a"), None);
    assert_eq!(parse_i64("00012"), Some(12));
    assert_eq!(parse_i64("99999999999999999999999"), None);
}

#[test]
fn balances_whose_locked_amount_overflows_are_refused() {
    let list = vec![BybitBalanceInfo {
        coin: vec![BybitBalance {
            coin: "USDT".to_string(),
            wallet_balance: "79228162514264337593543950335".to_string(),
            available_to_withdraw: "-79228162514264337593543950335".to_string(),
        }],
    }];
    assert!(try_parse_balances(&list).is_none());
}

#[test]
fn signed_requests_sign_exactly_the_text_sent() {
    let params = vec![
        ("category".to_string(), "spot".to_string()),
        ("symbol".to_string(), "USDCUSDT".to_string()),
        ("orderId".to_string(), "a\"b".to_string()),
    ];
    let post = sign_post("key", "secret", 1700000000000, &params);
    assert_eq!(post.payload, r#"{"category":"spot","orderId":"a\"b","symbol":"USDCUSDT"}"#);
    assert_eq!(post.signature, generate_signature("key", "secret", 1700000000000, &post.payload));
    let get = sign_get("key", "secret", 1700000000000, &params);
    assert_eq!(get.payload, "category=spot&orderId=a\"b&symbol=USDCUSDT");
    assert_eq!(get.signature, generate_signature("key", "secret", 1700000000000, &get.payload));
    assert_ne!(post.signature, get.signature);
}
