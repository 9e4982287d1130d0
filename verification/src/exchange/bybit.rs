//! Bybit v5 REST: request signing, request parameters, and the conversion of
//! the exchange's replies into orders, fills and balances.
//!
//! The HTTP exchange itself and the JSON decoding are done by the caller; the
//! reply records below hold the fields of the JSON objects as text.

use hmac::{Hmac, Mac};
use sha2::Sha256;
use vstd::prelude::*;
use vstd::utf8::encode_utf8;

use crate::decimal::{
    dec_checked_sub, dec_parse, dec_to_string, decimal_checked_sub, decimal_display,
    decimal_parse, Decimal,
};
use crate::exchange::types::{
    Balance, Fill, Order, OrderRequest, OrderSide, OrderStatus, OrderType, TimeInForce,
};
use crate::text::{
    chars_of, decimal_text, nat_text, parse_i64, push_char, spec_parse_i64, str_equal,
    string_of,
};

verus! {

// ---------------------------------------------------------------------------
// Signing
// ---------------------------------------------------------------------------

/// What HMAC-SHA256 gives for a key and a message.
pub uninterp spec fn hmac_sha256(key: Seq<u8>, message: Seq<u8>) -> Seq<u8>;

/// Calls `Hmac::<Sha256>::new_from_slice(key)`, `update(message)` and
/// `finalize()`: the 32-byte HMAC-SHA256 tag, as named. An HMAC key may have
/// any length, so the constructor does not fail.
#[verifier::external_body]
fn hmac_sha256_tag(key: &[u8], message: &[u8]) -> (r: Vec<u8>)
    ensures
        r@ == hmac_sha256(key@, message@),
        r@.len() == 32,
{
    let mut mac = Hmac::<Sha256>::new_from_slice(key).expect("HMAC can take key of any size");
    mac.update(message);
    mac.finalize().into_bytes().to_vec()
}

/// The lower-case hex digit for `d < 16`.
pub open spec fn hex_digit(d: nat) -> char {
    if d < 10 {
        (48 + d) as char
    } else {
        (87 + d) as char
    }
}

/// Lower-case hex text of bytes, two digits per byte, high digit first.
pub open spec fn hex_text(bytes: Seq<u8>) -> Seq<char>
    decreases bytes.len(),
{
    if bytes.len() == 0 {
        Seq::empty()
    } else {
        hex_text(bytes.drop_last()) + seq![
            hex_digit((bytes.last() / 16) as nat),
            hex_digit((bytes.last() % 16) as nat),
        ]
    }
}

/// Calls `hex::encode`, which writes each byte as two lower-case hex digits.
#[verifier::external_body]
fn hex_encode(bytes: &[u8]) -> (r: String)
    ensures
        r@ == hex_text(bytes@),
{
    hex::encode(bytes)
}

/// The text that is signed: timestamp, API key, receive window (`5000`) and
/// the request parameters.
pub open spec fn sign_payload(timestamp: nat, api_key: Seq<char>, params: Seq<char>) -> Seq<char> {
    nat_text(timestamp) + api_key + "5000"@ + params
}

/// The request signature: the lower-case hex HMAC-SHA256, keyed with the API
/// secret, of the signed text (both taken as UTF-8).
pub fn generate_signature(api_key: &str, api_secret: &str, timestamp: u128, params: &str) -> (r:
    String)
    ensures
        r@ == hex_text(
            hmac_sha256(
                encode_utf8(api_secret@),
                encode_utf8(sign_payload(timestamp as nat, api_key@, params@)),
            ),
        ),
{
    let mut sign_str = decimal_text(timestamp);
    sign_str.append(api_key);
    sign_str.append("5000");
    sign_str.append(params);
    let tag = hmac_sha256_tag(api_secret.as_bytes(), sign_str.as_str().as_bytes());
    hex_encode(tag.as_slice())
}

// ---------------------------------------------------------------------------
// Query strings
// ---------------------------------------------------------------------------

/// `a` sorts strictly before `b` (lexicographic by character, which is the
/// byte order of their UTF-8 encodings).
pub open spec fn text_lt(a: Seq<char>, b: Seq<char>) -> bool
    decreases a.len(),
{
    if a.len() == 0 {
        b.len() > 0
    } else if b.len() == 0 {
        false
    } else if a[0] != b[0] {
        a[0] < b[0]
    } else {
        text_lt(a.drop_first(), b.drop_first())
    }
}

/// `a` sorts before or equals `b`.
pub open spec fn text_le(a: Seq<char>, b: Seq<char>) -> bool {
    a == b || text_lt(a, b)
}

/// Each text sorts before or equals every later one.
pub open spec fn texts_sorted(s: Seq<Seq<char>>) -> bool {
    forall|i: int, j: int| #![trigger s[i], s[j]] 0 <= i < j < s.len() ==> text_le(s[i], s[j])
}

/// Texts joined with `&`.
pub open spec fn join_amp(s: Seq<Seq<char>>) -> Seq<char>
    decreases s.len(),
{
    if s.len() == 0 {
        Seq::empty()
    } else if s.len() == 1 {
        s[0]
    } else {
        join_amp(s.drop_last()) + seq!['&'] + s.last()
    }
}

/// The texts of key/value pairs.
pub open spec fn pair_views(ps: Seq<(String, String)>) -> Seq<(Seq<char>, Seq<char>)> {
    ps.map_values(|p: (String, String)| (p.0@, p.1@))
}

/// `key=value` for each pair.
pub open spec fn param_texts(ps: Seq<(String, String)>) -> Seq<Seq<char>> {
    ps.map_values(|p: (String, String)| p.0@ + seq!['='] + p.1@)
}

proof fn lemma_text_lt_trans(a: Seq<char>, b: Seq<char>, c: Seq<char>)
    requires
        text_lt(a, b),
        text_lt(b, c),
    ensures
        text_lt(a, c),
    decreases a.len(),
{
    if a.len() > 0 && b.len() > 0 && c.len() > 0 && a[0] == b[0] && b[0] == c[0] {
        lemma_text_lt_trans(a.drop_first(), b.drop_first(), c.drop_first());
    }
}

proof fn lemma_text_total(a: Seq<char>, b: Seq<char>)
    ensures
        text_lt(a, b) || text_lt(b, a) || a == b,
    decreases a.len(),
{
    if a.len() > 0 && b.len() > 0 && a[0] == b[0] {
        lemma_text_total(a.drop_first(), b.drop_first());
        if a.drop_first() == b.drop_first() {
            assert(a =~= seq![a[0]] + a.drop_first());
            assert(b =~= seq![b[0]] + b.drop_first());
        }
    } else if a.len() == 0 && b.len() == 0 {
        assert(a =~= b);
    }
}

/// `a` sorts strictly before `b`.
fn text_less(a: &Vec<char>, b: &Vec<char>) -> (r: bool)
    ensures
        r == text_lt(a@, b@),
{
    let mut i: usize = 0;
    assert(a@.skip(0) =~= a@ && b@.skip(0) =~= b@);
    while i < a.len() && i < b.len()
        invariant
            i <= a@.len(),
            i <= b@.len(),
            text_lt(a@, b@) == text_lt(a@.skip(i as int), b@.skip(i as int)),
        decreases a@.len() - i,
    {
        if a[i] != b[i] {
            return a[i] < b[i];
        }
        proof {
            assert(a@.skip(i as int).drop_first() == a@.skip(i + 1));
            assert(b@.skip(i as int).drop_first() == b@.skip(i + 1));
        }
        i = i + 1;
    }
    i < b.len()
}

/// Inserts `x` into a sorted list of texts, keeping it sorted.
fn insert_sorted(list: &mut Vec<Vec<char>>, x: Vec<char>)
    requires
        texts_sorted(old(list)@.map_values(|v: Vec<char>| v@)),
    ensures
        texts_sorted(final(list)@.map_values(|v: Vec<char>| v@)),
        final(list)@.map_values(|v: Vec<char>| v@).to_multiset() == old(list)@.map_values(
            |v: Vec<char>| v@,
        ).to_multiset().insert(x@),
{
    let ghost s = list@.map_values(|v: Vec<char>| v@);
    let mut k: usize = 0;
    while k < list.len() && !text_less(&x, &list[k])
        invariant
            k <= list@.len(),
            s == list@.map_values(|v: Vec<char>| v@),
            forall|j: int| 0 <= j < k ==> !text_lt(x@, #[trigger] s[j]),
        decreases list@.len() - k,
    {
        k = k + 1;
    }
    let ghost xv = x@;
    list.insert(k, x);
    proof {
        let t = list@.map_values(|v: Vec<char>| v@);
        assert(t == s.insert(k as int, xv));
        vstd::seq_lib::to_multiset_insert(s, k as int, xv);
        assert forall|i: int, j: int| #![trigger t[i], t[j]] 0 <= i < j < t.len() implies text_le(
            t[i],
            t[j],
        ) by {
            if j < k {
                assert(t[i] == s[i] && t[j] == s[j]);
            } else if j == k {
                assert(t[i] == s[i]);
                lemma_text_total(xv, s[i]);
            } else if i == k {
                if k < s.len() {
                    assert(text_lt(xv, s[k as int]));
                    if j - 1 > k {
                        assert(text_le(s[k as int], s[j - 1]));
                        if s[k as int] != s[j - 1] {
                            lemma_text_lt_trans(xv, s[k as int], s[j - 1]);
                        }
                    }
                }
            } else if i < k {
                assert(t[i] == s[i] && t[j] == s[j - 1]);
            } else {
                assert(t[i] == s[i - 1] && t[j] == s[j - 1]);
            }
        }
    }
}

/// The query text: `key=value` for each parameter, sorted, joined with `&`.
pub fn build_query_string(params: &Vec<(String, String)>) -> (r: String)
    ensures
        exists|s: Seq<Seq<char>>|
            s.to_multiset() == param_texts(params@).to_multiset() && texts_sorted(s) && r@
                == join_amp(s),
{
    let mut items: Vec<Vec<char>> = Vec::new();
    let mut i: usize = 0;
    assert(param_texts(params@.take(0)) =~= items@.map_values(|v: Vec<char>| v@));
    while i < params.len()
        invariant
            i <= params@.len(),
            texts_sorted(items@.map_values(|v: Vec<char>| v@)),
            items@.map_values(|v: Vec<char>| v@).to_multiset() == param_texts(
                params@.take(i as int),
            ).to_multiset(),
        decreases params@.len() - i,
    {
        let mut item = chars_of(params[i].0.as_str());
        item.push('=');
        let mut value = chars_of(params[i].1.as_str());
        item.append(&mut value);
        proof {
            assert(item@ =~= params@[i as int].0@ + seq!['='] + params@[i as int].1@);
            assert(params@.take(i + 1) == params@.take(i as int).push(params@[i as int]));
            assert(param_texts(params@.take(i + 1)) =~= param_texts(params@.take(i as int)).push(
                item@,
            ));
            vstd::seq_lib::to_multiset_build(param_texts(params@.take(i as int)), item@);
        }
        insert_sorted(&mut items, item);
        i = i + 1;
    }
    assert(params@.take(params@.len() as int) == params@);
    let ghost s = items@.map_values(|v: Vec<char>| v@);
    let mut out = String::new();
    let mut j: usize = 0;
    while j < items.len()
        invariant
            j <= items@.len(),
            s == items@.map_values(|v: Vec<char>| v@),
            out@ == join_amp(s.take(j as int)),
        decreases items@.len() - j,
    {
        proof {
            assert(s.take(j + 1).drop_last() == s.take(j as int));
            assert(s.take(j + 1).last() == s[j as int]);
        }
        let ghost before = out@;
        if j > 0 {
            push_char(&mut out, '&');
        }
        let mut k: usize = 0;
        while k < items[j].len()
            invariant
                j < items@.len(),
                k <= items@[j as int]@.len(),
                out@ == (if j > 0 {
                    before.push('&')
                } else {
                    before
                }) + items@[j as int]@.take(k as int),
            decreases items@[j as int]@.len() - k,
        {
            push_char(&mut out, items[j][k]);
            proof {
                assert(items@[j as int]@.take(k + 1) == items@[j as int]@.take(k as int).push(
                    items@[j as int]@[k as int],
                ));
            }
            k = k + 1;
        }
        proof {
            assert(items@[j as int]@.take(items@[j as int]@.len() as int) == items@[j as int]@);
            if j == 0 {
                assert(before == Seq::<char>::empty());
                assert(out@ =~= s[0]);
            } else {
                assert(out@ =~= before + seq!['&'] + s[j as int]);
            }
        }
        j = j + 1;
    }
    assert(s.take(items@.len() as int) == s);
    out
}

// ---------------------------------------------------------------------------
// Request bodies and signed requests
// ---------------------------------------------------------------------------

/// What `serde_json::to_string` writes for a `serde_json::Map` whose members
/// are the key/value pairs, each value a JSON string.
pub uninterp spec fn json_object_text(pairs: Seq<(Seq<char>, Seq<char>)>) -> Seq<char>;

/// Collects the pairs into a `serde_json::Map` of string values and calls
/// `serde_json::to_string` on it (a map with string keys always serialises).
/// Claimed: the text is the named one for the pairs' texts.
#[verifier::external_body]
fn json_object_encode(pairs: &Vec<(String, String)>) -> (r: String)
    ensures
        r@ == json_object_text(pair_views(pairs@)),
{
    let map: serde_json::Map<String, serde_json::Value> = pairs
        .iter()
        .map(|(k, v)| (k.clone(), serde_json::Value::String(v.clone())))
        .collect();
    serde_json::to_string(&map).expect("a map with string keys serialises")
}

/// The request signature over a payload: the lower-case hex HMAC-SHA256,
/// keyed with the API secret, of `sign_payload`.
pub open spec fn signature_of(
    api_key: Seq<char>,
    api_secret: Seq<char>,
    timestamp: nat,
    payload: Seq<char>,
) -> Seq<char> {
    hex_text(
        hmac_sha256(encode_utf8(api_secret), encode_utf8(sign_payload(timestamp, api_key, payload))),
    )
}

/// A request ready to send: the text sent (a JSON body or a query string)
/// and its signature.
pub struct SignedRequest {
    pub payload: String,
    pub signature: String,
}

/// A POST request: the parameters as a JSON object of strings, and the
/// signature of exactly that body.
pub fn sign_post(api_key: &str, api_secret: &str, timestamp: u128, params: &Vec<(String, String)>) -> (r:
    SignedRequest)
    ensures
        r.payload@ == json_object_text(pair_views(params@)),
        r.signature@ == signature_of(api_key@, api_secret@, timestamp as nat, r.payload@),
{
    let payload = json_object_encode(params);
    let signature = generate_signature(api_key, api_secret, timestamp, payload.as_str());
    SignedRequest { payload, signature }
}

/// A GET request: the parameters as the sorted query string, and the
/// signature of exactly that query.
pub fn sign_get(api_key: &str, api_secret: &str, timestamp: u128, params: &Vec<(String, String)>) -> (r:
    SignedRequest)
    ensures
        exists|s: Seq<Seq<char>>|
            s.to_multiset() == param_texts(params@).to_multiset() && texts_sorted(s) && r.payload@
                == join_amp(s),
        r.signature@ == signature_of(api_key@, api_secret@, timestamp as nat, r.payload@),
{
    let payload = build_query_string(params);
    let signature = generate_signature(api_key, api_secret, timestamp, payload.as_str());
    SignedRequest { payload, signature }
}

// ---------------------------------------------------------------------------
// Request parameters
// ---------------------------------------------------------------------------

/// A key/value pair from texts.
fn pair(key: &str, value: String) -> (r: (String, String))
    ensures
        r.0@ == key@,
        r.1@ == value@,
{
    (string_of(key), value)
}

/// The texts of the `/v5/order/create` parameters for a request.
pub open spec fn create_order_param_texts(category: Seq<char>, request: OrderRequest) -> Seq<
    (Seq<char>, Seq<char>),
> {
    seq![
        ("category"@, category),
        ("symbol"@, request.symbol@),
        ("side"@, request.side.name()),
        ("orderType"@, request.order_type.name()),
        ("qty"@, decimal_display(request.quantity)),
        ("timeInForce"@, request.time_in_force.name()),
        ("orderLinkId"@, request.client_order_id@),
    ] + match request.price {
        Some(p) => seq![("price"@, decimal_display(p))],
        None => Seq::empty(),
    }
}

/// The create-order request sends the exchange's name of the request's
/// side (`Buy` or `Sell`), order type (`Limit` or `Market`) and time in
/// force (`GTC`, `IOC`, `FOK` or `PostOnly`); the two side names differ, so
/// the side sent is the side requested.
pub proof fn lemma_create_order_names(category: Seq<char>, request: OrderRequest)
    ensures
        create_order_param_texts(category, request)[2] == ("side"@, if request.side
            == OrderSide::Buy {
            "Buy"@
        } else {
            "Sell"@
        }),
        create_order_param_texts(category, request)[3] == ("orderType"@, if request.order_type
            == OrderType::Market {
            "Market"@
        } else {
            "Limit"@
        }),
        create_order_param_texts(category, request)[5] == ("timeInForce"@, match request.time_in_force {
            TimeInForce::GTC => "GTC"@,
            TimeInForce::IOC => "IOC"@,
            TimeInForce::FOK => "FOK"@,
            TimeInForce::PostOnly => "PostOnly"@,
        }),
        "Buy"@ != "Sell"@,
        side_from_text(request.side.name()) == request.side,
        order_type_from_text(request.order_type.name()) == request.order_type,
        time_in_force_from_text(request.time_in_force.name()) == request.time_in_force,
{
    reveal_strlit("Buy");
    reveal_strlit("Sell");
    reveal_strlit("Market");
    reveal_strlit("Limit");
    reveal_strlit("GTC");
    reveal_strlit("IOC");
    reveal_strlit("FOK");
    reveal_strlit("PostOnly");
    assert("Buy"@.len() != "Sell"@.len());
    assert("Market"@.len() != "Limit"@.len());
    assert("GTC"@[0] != "IOC"@[0] && "GTC"@[0] != "FOK"@[0] && "IOC"@[0] != "FOK"@[0]);
    assert("PostOnly"@.len() != "GTC"@.len());
}

/// Parameters of `/v5/order/create` for a request: category, symbol, side,
/// order type, quantity, time in force, client order id, and the price if the
/// request has one.
pub fn order_create_params(category: &str, request: &OrderRequest) -> (r: Vec<(String, String)>)
    ensures
        pair_views(r@) == create_order_param_texts(category@, *request),
{
    let mut params: Vec<(String, String)> = Vec::new();
    params.push(pair("category", string_of(category)));
    params.push(pair("symbol", request.symbol.clone()));
    params.push(pair("side", string_of(request.side.as_str())));
    params.push(pair("orderType", string_of(request.order_type.as_str())));
    params.push(pair("qty", dec_to_string(request.quantity)));
    params.push(pair("timeInForce", string_of(request.time_in_force.as_str())));
    params.push(pair("orderLinkId", request.client_order_id.clone()));
    match request.price {
        Some(p) => params.push(pair("price", dec_to_string(p))),
        None => {},
    }
    assert(pair_views(params@) =~= seq![
        ("category"@, category@),
        ("symbol"@, request.symbol@),
        ("side"@, request.side.name()),
        ("orderType"@, request.order_type.name()),
        ("qty"@, decimal_display(request.quantity)),
        ("timeInForce"@, request.time_in_force.name()),
        ("orderLinkId"@, request.client_order_id@),
    ] + match request.price {
        Some(p) => seq![("price"@, decimal_display(p))],
        None => Seq::empty(),
    });
    params
}

/// Parameters of `/v5/order/cancel`: category, symbol, exchange order id.
pub fn cancel_order_params(category: &str, symbol: &str, order_id: &str) -> (r: Vec<
    (String, String),
>)
    ensures
        pair_views(r@) == seq![
            ("category"@, category@),
            ("symbol"@, symbol@),
            ("orderId"@, order_id@),
        ],
{
    let mut params: Vec<(String, String)> = Vec::new();
    params.push(pair("category", string_of(category)));
    params.push(pair("symbol", string_of(symbol)));
    params.push(pair("orderId", string_of(order_id)));
    assert(pair_views(params@) =~= seq![
        ("category"@, category@),
        ("symbol"@, symbol@),
        ("orderId"@, order_id@),
    ]);
    params
}

/// Parameters of `/v5/order/cancel-all`: category and symbol.
pub fn cancel_all_params(category: &str, symbol: &str) -> (r: Vec<(String, String)>)
    ensures
        pair_views(r@) == seq![("category"@, category@), ("symbol"@, symbol@)],
{
    let mut params: Vec<(String, String)> = Vec::new();
    params.push(pair("category", string_of(category)));
    params.push(pair("symbol", string_of(symbol)));
    assert(pair_views(params@) =~= seq![("category"@, category@), ("symbol"@, symbol@)]);
    params
}

/// Parameters of the open-orders query: category, and the symbol if given.
pub fn open_orders_params(category: &str, symbol: Option<&str>) -> (r: Vec<(String, String)>)
    ensures
        pair_views(r@) == seq![("category"@, category@)] + match symbol {
            Some(s) => seq![("symbol"@, s@)],
            None => Seq::empty(),
        },
{
    let mut params: Vec<(String, String)> = Vec::new();
    params.push(pair("category", string_of(category)));
    match symbol {
        Some(s) => params.push(pair("symbol", string_of(s))),
        None => {},
    }
    assert(pair_views(params@) =~= seq![("category"@, category@)] + match symbol {
        Some(s) => seq![("symbol"@, s@)],
        None => Seq::empty(),
    });
    params
}

/// Parameters of the single-order query: category, symbol, exchange order id.
pub fn order_query_params(category: &str, symbol: &str, order_id: &str) -> (r: Vec<
    (String, String),
>)
    ensures
        pair_views(r@) == seq![
            ("category"@, category@),
            ("symbol"@, symbol@),
            ("orderId"@, order_id@),
        ],
{
    cancel_order_params(category, symbol, order_id)
}

/// Parameters of `/v5/execution/list`: category, the limit in decimal, and
/// the symbol if given.
pub fn fills_params(category: &str, symbol: Option<&str>, limit: usize) -> (r: Vec<
    (String, String),
>)
    ensures
        pair_views(r@) == seq![("category"@, category@), ("limit"@, nat_text(limit as nat))]
            + match symbol {
            Some(s) => seq![("symbol"@, s@)],
            None => Seq::empty(),
        },
{
    let mut params: Vec<(String, String)> = Vec::new();
    params.push(pair("category", string_of(category)));
    params.push(pair("limit", decimal_text(limit as u128)));
    match symbol {
        Some(s) => params.push(pair("symbol", string_of(s))),
        None => {},
    }
    assert(pair_views(params@) =~= seq![
        ("category"@, category@),
        ("limit"@, nat_text(limit as nat)),
    ] + match symbol {
        Some(s) => seq![("symbol"@, s@)],
        None => Seq::empty(),
    });
    params
}

/// Parameters of `/v5/account/wallet-balance`: the unified account.
pub fn balance_params() -> (r: Vec<(String, String)>)
    ensures
        pair_views(r@) == seq![("accountType"@, "UNIFIED"@)],
{
    let mut params: Vec<(String, String)> = Vec::new();
    params.push(pair("accountType", string_of("UNIFIED")));
    assert(pair_views(params@) =~= seq![("accountType"@, "UNIFIED"@)]);
    params
}

// ---------------------------------------------------------------------------
// Replies
// ---------------------------------------------------------------------------

/// Why a reply could not be used.
#[derive(Debug, Clone)]
pub enum ExchangeError {
    /// The exchange answered with a non-zero return code.
    Api { code: i32, message: String },
    /// The exchange answered without a result.
    EmptyResult,
    /// A number field did not parse.
    InvalidNumber { text: String },
    /// An order query found no order.
    OrderNotFound,
}

/// An order as the exchange's order queries report it.
pub struct BybitOrderInfo {
    pub order_id: String,
    pub order_link_id: Option<String>,
    pub symbol: String,
    pub side: String,
    pub order_type: String,
    pub price: Option<String>,
    pub qty: String,
    pub cum_exec_qty: String,
    pub avg_price: Option<String>,
    pub order_status: String,
    pub time_in_force: String,
    pub created_time: String,
    pub updated_time: String,
}

/// An execution as the exchange's execution list reports it.
pub struct BybitExecution {
    pub exec_id: String,
    pub order_id: String,
    pub order_link_id: Option<String>,
    pub symbol: String,
    pub side: String,
    pub exec_price: String,
    pub exec_qty: String,
    pub exec_fee: String,
    pub fee_rate: Option<String>,
    pub exec_type: String,
    pub exec_time: String,
    pub is_maker: bool,
}

/// One coin of a wallet balance reply.
pub struct BybitBalance {
    pub coin: String,
    pub wallet_balance: String,
    pub available_to_withdraw: String,
}

/// One account of a wallet balance reply.
pub struct BybitBalanceInfo {
    pub coin: Vec<BybitBalance>,
}

/// The result of a reply envelope: an API error for a non-zero return code,
/// else the result, which must be present.
pub fn interpret_response<T>(ret_code: i32, ret_msg: String, result: Option<T>) -> (r: Result<
    T,
    ExchangeError,
>)
    ensures
        ret_code != 0 ==> (r matches Err(ExchangeError::Api { code, message }) && code == ret_code
            && message == ret_msg),
        ret_code == 0 && result is None ==> (r matches Err(ExchangeError::EmptyResult)),
        ret_code == 0 && result is Some ==> r == Ok::<T, ExchangeError>(result->0),
{
    if ret_code != 0 {
        Err(ExchangeError::Api { code: ret_code, message: ret_msg })
    } else {
        match result {
            Some(t) => Ok(t),
            None => Err(ExchangeError::EmptyResult),
        }
    }
}

/// `Buy` is a buy; any other text a sell.
pub open spec fn side_from_text(t: Seq<char>) -> OrderSide {
    if t == "Buy"@ {
        OrderSide::Buy
    } else {
        OrderSide::Sell
    }
}

/// `Market` is a market order; any other text a limit order.
pub open spec fn order_type_from_text(t: Seq<char>) -> OrderType {
    if t == "Market"@ {
        OrderType::Market
    } else {
        OrderType::Limit
    }
}

/// The status named by the text; an unknown text is `Expired`.
pub open spec fn status_from_text(t: Seq<char>) -> OrderStatus {
    if t == "New"@ {
        OrderStatus::New
    } else if t == "PartiallyFilled"@ {
        OrderStatus::PartiallyFilled
    } else if t == "Filled"@ {
        OrderStatus::Filled
    } else if t == "Cancelled"@ {
        OrderStatus::Cancelled
    } else if t == "Rejected"@ {
        OrderStatus::Rejected
    } else {
        OrderStatus::Expired
    }
}

/// The time in force named by the text; an unknown text is `PostOnly`.
pub open spec fn time_in_force_from_text(t: Seq<char>) -> TimeInForce {
    if t == "GTC"@ {
        TimeInForce::GTC
    } else if t == "IOC"@ {
        TimeInForce::IOC
    } else if t == "FOK"@ {
        TimeInForce::FOK
    } else {
        TimeInForce::PostOnly
    }
}

/// The text of an optional string, empty when absent.
pub open spec fn text_or_empty(o: Option<String>) -> Seq<char> {
    match o {
        Some(s) => s@,
        None => Seq::empty(),
    }
}

/// An optional number text parsed, absent when missing or unparsable.
pub open spec fn optional_decimal(o: Option<String>) -> Option<Decimal> {
    match o {
        Some(s) => decimal_parse(s@),
        None => None,
    }
}

/// The first of the order's number fields (quantity, filled quantity,
/// creation time, update time) that does not parse.
pub open spec fn order_info_error(info: BybitOrderInfo) -> Option<Seq<char>> {
    if decimal_parse(info.qty@) is None {
        Some(info.qty@)
    } else if decimal_parse(info.cum_exec_qty@) is None {
        Some(info.cum_exec_qty@)
    } else if spec_parse_i64(info.created_time@) is None {
        Some(info.created_time@)
    } else if spec_parse_i64(info.updated_time@) is None {
        Some(info.updated_time@)
    } else {
        None
    }
}

/// The order is the conversion of the order info.
pub open spec fn order_from_info(o: Order, info: BybitOrderInfo) -> bool {
    &&& o.order_id@ == info.order_id@
    &&& o.client_order_id@ == text_or_empty(info.order_link_id)
    &&& o.symbol@ == info.symbol@
    &&& o.side == side_from_text(info.side@)
    &&& o.order_type == order_type_from_text(info.order_type@)
    &&& Some(o.quantity) == decimal_parse(info.qty@)
    &&& o.price == optional_decimal(info.price)
    &&& Some(o.filled_quantity) == decimal_parse(info.cum_exec_qty@)
    &&& o.average_price == optional_decimal(info.avg_price)
    &&& o.status == status_from_text(info.order_status@)
    &&& o.time_in_force == time_in_force_from_text(info.time_in_force@)
    &&& Some(o.created_at) == spec_parse_i64(info.created_time@)
    &&& Some(o.updated_at) == spec_parse_i64(info.updated_time@)
}

/// The reply for an order, converted: `Ok` exactly when its number fields
/// parse, else the first that does not.
pub open spec fn order_result(r: Result<Order, ExchangeError>, info: BybitOrderInfo) -> bool {
    match r {
        Ok(o) => order_info_error(info) is None && order_from_info(o, info),
        Err(e) => order_info_error(info) matches Some(t) && (e matches ExchangeError::InvalidNumber {
            text,
        } && text@ == t),
    }
}

/// The exchange's status names convert to the statuses of the same names
/// (`New`, `PartiallyFilled`, `Filled`, `Cancelled`, `Rejected`), and only
/// other texts to `Expired`; `Buy` converts to a buy and other sides to a
/// sell; `Market` to a market order and other types to a limit order; `GTC`,
/// `IOC` and `FOK` to those times in force and other texts to `PostOnly`.
pub proof fn lemma_order_info_names(o: Order, info: BybitOrderInfo)
    requires
        order_from_info(o, info),
    ensures
        info.order_status@ == "New"@ ==> o.status == OrderStatus::New,
        info.order_status@ == "PartiallyFilled"@ ==> o.status == OrderStatus::PartiallyFilled,
        info.order_status@ == "Filled"@ ==> o.status == OrderStatus::Filled,
        info.order_status@ == "Cancelled"@ ==> o.status == OrderStatus::Cancelled,
        info.order_status@ == "Rejected"@ ==> o.status == OrderStatus::Rejected,
        (info.order_status@ != "New"@ && info.order_status@ != "PartiallyFilled"@
            && info.order_status@ != "Filled"@ && info.order_status@ != "Cancelled"@
            && info.order_status@ != "Rejected"@) <==> o.status == OrderStatus::Expired,
        info.side@ == "Buy"@ <==> o.side == OrderSide::Buy,
        info.order_type@ == "Market"@ <==> o.order_type == OrderType::Market,
        info.time_in_force@ == "GTC"@ ==> o.time_in_force == TimeInForce::GTC,
        info.time_in_force@ == "IOC"@ ==> o.time_in_force == TimeInForce::IOC,
        info.time_in_force@ == "FOK"@ ==> o.time_in_force == TimeInForce::FOK,
        (info.time_in_force@ != "GTC"@ && info.time_in_force@ != "IOC"@ && info.time_in_force@
            != "FOK"@) <==> o.time_in_force == TimeInForce::PostOnly,
{
    reveal_strlit("New");
    reveal_strlit("PartiallyFilled");
    reveal_strlit("Filled");
    reveal_strlit("Cancelled");
    reveal_strlit("Rejected");
    reveal_strlit("GTC");
    reveal_strlit("IOC");
    reveal_strlit("FOK");
    assert("New"@.len() == 3 && "PartiallyFilled"@.len() == 15 && "Filled"@.len() == 6
        && "Cancelled"@.len() == 9 && "Rejected"@.len() == 8);
    assert("GTC"@[0] != "IOC"@[0] && "GTC"@[0] != "FOK"@[0] && "IOC"@[0] != "FOK"@[0]);
}

/// An execution's side `Buy` converts to a buy fill; any other to a sell.
pub proof fn lemma_execution_side(f: Fill, e: BybitExecution)
    requires
        fill_from_execution(f, e),
    ensures
        e.side@ == "Buy"@ <==> f.side == OrderSide::Buy,
        e.side@ != "Buy"@ <==> f.side == OrderSide::Sell,
{
}

/// An optional string, copied.
fn copy_optional(o: &Option<String>) -> (r: Option<String>)
    ensures
        r == *o,
{
    match o {
        Some(s) => Some(s.clone()),
        None => None,
    }
}

/// An optional number text parsed; `None` when missing or unparsable.
fn parse_optional_decimal(o: &Option<String>) -> (r: Option<Decimal>)
    ensures
        r == optional_decimal(*o),
{
    match o {
        Some(s) => dec_parse(s.as_str()),
        None => None,
    }
}

/// A required decimal field; an error naming the text when it does not parse.
fn parse_decimal_field(t: &String) -> (r: Result<Decimal, ExchangeError>)
    ensures
        decimal_parse(t@) matches Some(d) ==> r == Ok::<Decimal, ExchangeError>(d),
        decimal_parse(t@) is None ==> (r matches Err(ExchangeError::InvalidNumber { text })
            && text@ == t@),
{
    match dec_parse(t.as_str()) {
        Some(d) => Ok(d),
        None => Err(ExchangeError::InvalidNumber { text: t.clone() }),
    }
}

/// A required integer field; an error naming the text when it does not parse.
fn parse_integer_field(t: &String) -> (r: Result<i64, ExchangeError>)
    ensures
        spec_parse_i64(t@) matches Some(v) ==> r == Ok::<i64, ExchangeError>(v),
        spec_parse_i64(t@) is None ==> (r matches Err(ExchangeError::InvalidNumber { text })
            && text@ == t@),
{
    match parse_i64(t.as_str()) {
        Some(v) => Ok(v),
        None => Err(ExchangeError::InvalidNumber { text: t.clone() }),
    }
}

/// Converts an order info reply into an order.
pub fn parse_order_info(info: &BybitOrderInfo) -> (r: Result<Order, ExchangeError>)
    ensures
        order_result(r, *info),
{
    let side = if str_equal(info.side.as_str(), "Buy") {
        OrderSide::Buy
    } else {
        OrderSide::Sell
    };
    let order_type = if str_equal(info.order_type.as_str(), "Market") {
        OrderType::Market
    } else {
        OrderType::Limit
    };
    let quantity = match parse_decimal_field(&info.qty) {
        Ok(q) => q,
        Err(e) => return Err(e),
    };
    let price = parse_optional_decimal(&info.price);
    let filled_quantity = match parse_decimal_field(&info.cum_exec_qty) {
        Ok(q) => q,
        Err(e) => return Err(e),
    };
    let average_price = parse_optional_decimal(&info.avg_price);
    let st = info.order_status.as_str();
    let status = if str_equal(st, "New") {
        OrderStatus::New
    } else if str_equal(st, "PartiallyFilled") {
        OrderStatus::PartiallyFilled
    } else if str_equal(st, "Filled") {
        OrderStatus::Filled
    } else if str_equal(st, "Cancelled") {
        OrderStatus::Cancelled
    } else if str_equal(st, "Rejected") {
        OrderStatus::Rejected
    } else {
        OrderStatus::Expired
    };
    let tif = info.time_in_force.as_str();
    let time_in_force = if str_equal(tif, "GTC") {
        TimeInForce::GTC
    } else if str_equal(tif, "IOC") {
        TimeInForce::IOC
    } else if str_equal(tif, "FOK") {
        TimeInForce::FOK
    } else {
        TimeInForce::PostOnly
    };
    let created_at = match parse_integer_field(&info.created_time) {
        Ok(v) => v,
        Err(e) => return Err(e),
    };
    let updated_at = match parse_integer_field(&info.updated_time) {
        Ok(v) => v,
        Err(e) => return Err(e),
    };
    let client_order_id = match copy_optional(&info.order_link_id) {
        Some(s) => s,
        None => String::new(),
    };
    Ok(
        Order {
            order_id: info.order_id.clone(),
            client_order_id,
            symbol: info.symbol.clone(),
            side,
            order_type,
            quantity,
            price,
            filled_quantity,
            average_price,
            status,
            time_in_force,
            created_at,
            updated_at,
        },
    )
}

/// The first of the execution's number fields (price, quantity, fee, time)
/// that does not parse.
pub open spec fn execution_error(e: BybitExecution) -> Option<Seq<char>> {
    if decimal_parse(e.exec_price@) is None {
        Some(e.exec_price@)
    } else if decimal_parse(e.exec_qty@) is None {
        Some(e.exec_qty@)
    } else if decimal_parse(e.exec_fee@) is None {
        Some(e.exec_fee@)
    } else if spec_parse_i64(e.exec_time@) is None {
        Some(e.exec_time@)
    } else {
        None
    }
}

/// The fill is the conversion of the execution (fees are taken as USDT).
pub open spec fn fill_from_execution(f: Fill, e: BybitExecution) -> bool {
    &&& f.trade_id@ == e.exec_id@
    &&& f.order_id@ == e.order_id@
    &&& f.client_order_id@ == text_or_empty(e.order_link_id)
    &&& f.symbol@ == e.symbol@
    &&& f.side == side_from_text(e.side@)
    &&& Some(f.price) == decimal_parse(e.exec_price@)
    &&& Some(f.quantity) == decimal_parse(e.exec_qty@)
    &&& Some(f.fee) == decimal_parse(e.exec_fee@)
    &&& f.fee_currency@ == "USDT"@
    &&& f.is_maker == e.is_maker
    &&& Some(f.timestamp) == spec_parse_i64(e.exec_time@)
}

/// The reply for an execution, converted: `Ok` exactly when its number
/// fields parse, else the first that does not.
pub open spec fn fill_result(r: Result<Fill, ExchangeError>, e: BybitExecution) -> bool {
    match r {
        Ok(f) => execution_error(e) is None && fill_from_execution(f, e),
        Err(err) => execution_error(e) matches Some(t) && (err matches ExchangeError::InvalidNumber {
            text,
        } && text@ == t),
    }
}

/// Converts an execution reply into a fill.
pub fn parse_execution(exec: &BybitExecution) -> (r: Result<Fill, ExchangeError>)
    ensures
        fill_result(r, *exec),
{
    let side = if str_equal(exec.side.as_str(), "Buy") {
        OrderSide::Buy
    } else {
        OrderSide::Sell
    };
    let price = match parse_decimal_field(&exec.exec_price) {
        Ok(q) => q,
        Err(e) => return Err(e),
    };
    let quantity = match parse_decimal_field(&exec.exec_qty) {
        Ok(q) => q,
        Err(e) => return Err(e),
    };
    let fee = match parse_decimal_field(&exec.exec_fee) {
        Ok(q) => q,
        Err(e) => return Err(e),
    };
    let timestamp = match parse_integer_field(&exec.exec_time) {
        Ok(v) => v,
        Err(e) => return Err(e),
    };
    let client_order_id = match copy_optional(&exec.order_link_id) {
        Some(s) => s,
        None => String::new(),
    };
    Ok(
        Fill {
            trade_id: exec.exec_id.clone(),
            order_id: exec.order_id.clone(),
            client_order_id,
            symbol: exec.symbol.clone(),
            side,
            price,
            quantity,
            fee,
            fee_currency: string_of("USDT"),
            is_maker: exec.is_maker,
            timestamp,
        },
    )
}

/// Converts a list of order infos: all the orders, in order, or the error of
/// the first that does not convert.
pub fn parse_order_list(list: &Vec<BybitOrderInfo>) -> (r: Result<Vec<Order>, ExchangeError>)
    ensures
        r matches Ok(v) ==> v@.len() == list@.len() && forall|i: int|
            0 <= i < list@.len() ==> order_info_error(#[trigger] list@[i]) is None
                && order_from_info(v@[i], list@[i]),
        r is Err ==> exists|i: int|
            0 <= i < list@.len() && (forall|j: int|
                0 <= j < i ==> order_info_error(#[trigger] list@[j]) is None) && order_result(
                Err(r->Err_0),
                list@[i],
            ),
{
    let mut out: Vec<Order> = Vec::new();
    let mut i: usize = 0;
    while i < list.len()
        invariant
            i <= list@.len(),
            out@.len() == i,
            forall|j: int|
                0 <= j < i ==> order_info_error(#[trigger] list@[j]) is None && order_from_info(
                    out@[j],
                    list@[j],
                ),
        decreases list@.len() - i,
    {
        match parse_order_info(&list[i]) {
            Ok(o) => out.push(o),
            Err(e) => {
                assert(order_result(Err(e), list@[i as int]));
                return Err(e);
            },
        }
        i = i + 1;
    }
    Ok(out)
}

/// The first order of a single-order query, converted; `OrderNotFound` when
/// the list is empty.
pub fn first_order(list: &Vec<BybitOrderInfo>) -> (r: Result<Order, ExchangeError>)
    ensures
        list@.len() == 0 ==> (r matches Err(ExchangeError::OrderNotFound)),
        list@.len() > 0 ==> order_result(r, list@[0]),
{
    if list.len() == 0 {
        Err(ExchangeError::OrderNotFound)
    } else {
        parse_order_info(&list[0])
    }
}

/// Converts a list of executions: all the fills, in order, or the error of
/// the first that does not convert.
pub fn parse_execution_list(list: &Vec<BybitExecution>) -> (r: Result<Vec<Fill>, ExchangeError>)
    ensures
        r matches Ok(v) ==> v@.len() == list@.len() && forall|i: int|
            0 <= i < list@.len() ==> execution_error(#[trigger] list@[i]) is None
                && fill_from_execution(v@[i], list@[i]),
        r is Err ==> exists|i: int|
            0 <= i < list@.len() && (forall|j: int|
                0 <= j < i ==> execution_error(#[trigger] list@[j]) is None) && fill_result(
                Err(r->Err_0),
                list@[i],
            ),
{
    let mut out: Vec<Fill> = Vec::new();
    let mut i: usize = 0;
    while i < list.len()
        invariant
            i <= list@.len(),
            out@.len() == i,
            forall|j: int|
                0 <= j < i ==> execution_error(#[trigger] list@[j]) is None && fill_from_execution(
                    out@[j],
                    list@[j],
                ),
        decreases list@.len() - i,
    {
        match parse_execution(&list[i]) {
            Ok(f) => out.push(f),
            Err(e) => {
                assert(fill_result(Err(e), list@[i as int]));
                return Err(e);
            },
        }
        i = i + 1;
    }
    Ok(out)
}

/// The coins of all accounts of a wallet balance reply, in order.
pub open spec fn all_coins(list: Seq<BybitBalanceInfo>) -> Seq<BybitBalance>
    decreases list.len(),
{
    if list.len() == 0 {
        Seq::empty()
    } else {
        all_coins(list.drop_last()) + list.last().coin@
    }
}

/// One coin converted: `(available, locked, total)` with `locked = total -
/// available`, or the text of the first amount that does not parse; `None`
/// where the subtraction overflows.
pub open spec fn coin_outcome(c: BybitBalance) -> Option<Result<(Decimal, Decimal, Decimal), Seq<char>>> {
    match decimal_parse(c.wallet_balance@) {
        None => Some(Err(c.wallet_balance@)),
        Some(total) => match decimal_parse(c.available_to_withdraw@) {
            None => Some(Err(c.available_to_withdraw@)),
            Some(available) => match decimal_checked_sub(total, available) {
                Some(locked) => Some(Ok((available, locked, total))),
                None => None,
            },
        },
    }
}

/// The coins converted in order, stopping at the first that fails.
pub open spec fn coins_outcome(coins: Seq<BybitBalance>) -> Option<
    Result<Seq<(Decimal, Decimal, Decimal)>, Seq<char>>,
>
    decreases coins.len(),
{
    if coins.len() == 0 {
        Some(Ok(Seq::empty()))
    } else {
        match coins_outcome(coins.drop_last()) {
            Some(Ok(prev)) => match coin_outcome(coins.last()) {
                Some(Ok(b)) => Some(Ok(prev.push(b))),
                Some(Err(t)) => Some(Err(t)),
                None => None,
            },
            other => other,
        }
    }
}

/// The balances match the converted coins.
pub open spec fn balances_match(
    v: Seq<Balance>,
    coins: Seq<BybitBalance>,
    amounts: Seq<(Decimal, Decimal, Decimal)>,
) -> bool {
    &&& v.len() == coins.len()
    &&& amounts.len() == coins.len()
    &&& forall|i: int|
        0 <= i < v.len() ==> (#[trigger] v[i]).currency@ == coins[i].coin@ && (
        v[i].available,
        v[i].locked,
        v[i].total,
    ) == amounts[i]
}

/// The result of converting a wallet balance reply, against its outcome.
pub open spec fn balances_result(
    r: Result<Vec<Balance>, ExchangeError>,
    outcome: Result<Seq<(Decimal, Decimal, Decimal)>, Seq<char>>,
    coins: Seq<BybitBalance>,
) -> bool {
    match r {
        Ok(v) => outcome matches Ok(amounts) && balances_match(v@, coins, amounts),
        Err(e) => outcome matches Err(t) && (e matches ExchangeError::InvalidNumber { text }
            && text@ == t),
    }
}

proof fn lemma_all_coins_append(a: Seq<BybitBalanceInfo>, b: Seq<BybitBalanceInfo>)
    ensures
        all_coins(a + b) == all_coins(a) + all_coins(b),
    decreases b.len(),
{
    if b.len() == 0 {
        assert(a + b =~= a);
        assert(all_coins(a) + all_coins(b) =~= all_coins(a));
    } else {
        lemma_all_coins_append(a, b.drop_last());
        assert((a + b).drop_last() =~= a + b.drop_last());
        assert((a + b).last() == b.last());
        assert(all_coins(a) + all_coins(b.drop_last()) + b.last().coin@ =~= all_coins(a) + (
        all_coins(b.drop_last()) + b.last().coin@));
    }
}

/// Once a conversion fails, further coins do not change the outcome.
proof fn lemma_outcome_sticky(s: Seq<BybitBalance>, t: Seq<BybitBalance>)
    requires
        !(coins_outcome(s) matches Some(Ok(_))),
    ensures
        coins_outcome(s + t) == coins_outcome(s),
    decreases t.len(),
{
    if t.len() == 0 {
        assert(s + t =~= s);
    } else {
        lemma_outcome_sticky(s, t.drop_last());
        assert((s + t).drop_last() =~= s + t.drop_last());
    }
}

/// A failure at coin `j` of account `i` is the outcome of the whole reply.
proof fn lemma_failure_is_outcome(list: Seq<BybitBalanceInfo>, i: int, j: int)
    requires
        0 <= i < list.len(),
        0 <= j < list[i].coin@.len(),
        !(coins_outcome(all_coins(list.take(i)) + list[i].coin@.take(j + 1)) matches Some(Ok(_))),
    ensures
        coins_outcome(all_coins(list)) == coins_outcome(
            all_coins(list.take(i)) + list[i].coin@.take(j + 1),
        ),
{
    let p = all_coins(list.take(i)) + list[i].coin@.take(j + 1);
    let rest = list[i].coin@.skip(j + 1) + all_coins(list.skip(i + 1));
    assert(list == list.take(i + 1) + list.skip(i + 1));
    lemma_all_coins_append(list.take(i + 1), list.skip(i + 1));
    assert(list.take(i + 1).drop_last() == list.take(i));
    assert(list[i].coin@ == list[i].coin@.take(j + 1) + list[i].coin@.skip(j + 1));
    assert(all_coins(list) =~= p + rest);
    lemma_outcome_sticky(p, rest);
}

/// Converts a wallet balance reply: every coin of every account, in order,
/// with `locked = total - available`; `None` where a subtraction overflows
/// (there the conversion panics).
pub fn try_parse_balances(list: &Vec<BybitBalanceInfo>) -> (r: Option<
    Result<Vec<Balance>, ExchangeError>,
>)
    ensures
        r is None <==> coins_outcome(all_coins(list@)) is None,
        r matches Some(res) ==> balances_result(
            res,
            coins_outcome(all_coins(list@))->0,
            all_coins(list@),
        ),
{
    let mut out: Vec<Balance> = Vec::new();
    let ghost mut amounts: Seq<(Decimal, Decimal, Decimal)> = Seq::empty();
    let mut i: usize = 0;
    assert(all_coins(list@.take(0)) =~= Seq::<BybitBalance>::empty());
    while i < list.len()
        invariant
            i <= list@.len(),
            coins_outcome(all_coins(list@.take(i as int))) == Some(
                Ok::<Seq<(Decimal, Decimal, Decimal)>, Seq<char>>(amounts),
            ),
            balances_match(out@, all_coins(list@.take(i as int)), amounts),
        decreases list@.len() - i,
    {
        let ghost before = all_coins(list@.take(i as int));
        let coins = &list[i].coin;
        proof {
            assert(list@.take(i + 1).drop_last() == list@.take(i as int));
            assert(all_coins(list@.take(i + 1)) == before + coins@);
        }
        let mut j: usize = 0;
        assert(before + coins@.take(0) =~= before);
        while j < coins.len()
            invariant
                i < list@.len(),
                before == all_coins(list@.take(i as int)),
                coins@ == list@[i as int].coin@,
                j <= coins@.len(),
                coins_outcome(before + coins@.take(j as int)) == Some(
                    Ok::<Seq<(Decimal, Decimal, Decimal)>, Seq<char>>(amounts),
                ),
                balances_match(out@, before + coins@.take(j as int), amounts),
            decreases coins@.len() - j,
        {
            let c = &coins[j];
            let ghost seen = before + coins@.take(j as int);
            proof {
                assert((before + coins@.take(j + 1)).drop_last() == seen);
                assert((before + coins@.take(j + 1)).last() == coins@[j as int]);
                assert(before == all_coins(list@.take(i as int)));
                assert(coins@ == list@[i as int].coin@);
            }
            let total = match dec_parse(c.wallet_balance.as_str()) {
                Some(t) => t,
                None => {
                    proof {
                        lemma_failure_is_outcome(list@, i as int, j as int);
                    }
                    return Some(Err(ExchangeError::InvalidNumber { text: c.wallet_balance.clone() }));
                },
            };
            let available = match dec_parse(c.available_to_withdraw.as_str()) {
                Some(a) => a,
                None => {
                    proof {
                        lemma_failure_is_outcome(list@, i as int, j as int);
                    }
                    return Some(
                        Err(ExchangeError::InvalidNumber { text: c.available_to_withdraw.clone() }),
                    );
                },
            };
            let locked = match dec_checked_sub(total, available) {
                Some(l) => l,
                None => {
                    proof {
                        lemma_failure_is_outcome(list@, i as int, j as int);
                    }
                    return None;
                },
            };
            out.push(Balance { currency: c.coin.clone(), available, locked, total });
            proof {
                amounts = amounts.push((available, locked, total));
            }
            j = j + 1;
        }
        assert(coins@.take(coins@.len() as int) == coins@);
        i = i + 1;
    }
    assert(list@.take(list@.len() as int) == list@);
    Some(Ok(out))
}

/// Converts a wallet balance reply: every coin of every account, in order,
/// with `locked = total - available`, or the error of the first amount that
/// does not parse.
pub fn parse_balances(list: &Vec<BybitBalanceInfo>) -> (r: Result<Vec<Balance>, ExchangeError>)
    requires
        coins_outcome(all_coins(list@)) is Some,
    ensures
        balances_result(r, coins_outcome(all_coins(list@))->0, all_coins(list@)),
{
    match try_parse_balances(list) {
        Some(res) => res,
        None => vstd::pervasive::unreached(),
    }
}

} // verus!
