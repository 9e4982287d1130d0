//! Bybit public WebSocket feed: subscriptions and the handling of order book
//! and trade messages.
//!
//! The connection and the JSON decoding are done by the caller; the message
//! records below hold the fields of the JSON objects.

use vstd::prelude::*;

use crate::clock::utc_now_millis;
use crate::config::{to_bybit_symbol, without_char};
use crate::decimal::{dec_parse, decimal_parse, Decimal};
use crate::md::types::{side_applied, OrderBook, Side, Trade};
use crate::text::{chars_of, str_equal, string_of};

verus! {

/// The kind of a feed message.
#[derive(Debug, Clone, Copy, PartialEq, Eq, Structural)]
pub enum MessageKind {
    /// An order book snapshot or delta.
    OrderBook,
    /// A batch of public trades.
    Trade,
    /// Anything else (subscription answers, pongs, other topics).
    Other,
}

/// `p` is a prefix of `s`.
pub open spec fn has_prefix(s: Seq<char>, p: Seq<char>) -> bool {
    p.len() <= s.len() && s.take(p.len() as int) == p
}

/// The text starts with the prefix.
fn starts_with(s: &str, p: &str) -> (r: bool)
    ensures
        r == has_prefix(s@, p@),
{
    let x = chars_of(s);
    let y = chars_of(p);
    if y.len() > x.len() {
        return false;
    }
    let mut i: usize = 0;
    while i < y.len()
        invariant
            x@ == s@,
            y@ == p@,
            y@.len() <= x@.len(),
            i <= y@.len(),
            forall|j: int| 0 <= j < i ==> x@[j] == y@[j],
        decreases y@.len() - i,
    {
        if x[i] != y[i] {
            assert(s@.take(p@.len() as int)[i as int] != p@[i as int]);
            return false;
        }
        i = i + 1;
    }
    assert(s@.take(p@.len() as int) =~= p@);
    true
}

/// A message is handled when its type is `snapshot` or `delta`: order book
/// data when its topic starts with `orderbook`, trades when it starts with
/// `publicTrade`.
pub fn classify_message(msg_type: Option<&str>, topic: Option<&str>) -> (r: MessageKind)
    ensures
        r == (match (msg_type, topic) {
            (Some(t), Some(tp)) => if t@ == "snapshot"@ || t@ == "delta"@ {
                if has_prefix(tp@, "orderbook"@) {
                    MessageKind::OrderBook
                } else if has_prefix(tp@, "publicTrade"@) {
                    MessageKind::Trade
                } else {
                    MessageKind::Other
                }
            } else {
                MessageKind::Other
            },
            _ => MessageKind::Other,
        }),
{
    match (msg_type, topic) {
        (Some(t), Some(tp)) => {
            if str_equal(t, "snapshot") || str_equal(t, "delta") {
                if starts_with(tp, "orderbook") {
                    MessageKind::OrderBook
                } else if starts_with(tp, "publicTrade") {
                    MessageKind::Trade
                } else {
                    MessageKind::Other
                }
            } else {
                MessageKind::Other
            }
        },
        _ => MessageKind::Other,
    }
}

/// The topics to subscribe to for a symbol: its 50-level order book and its
/// public trades, under the symbol's Bybit form.
pub fn subscription_topics(symbol: &str) -> (r: Vec<String>)
    ensures
        r@.len() == 2,
        r@[0]@ == "orderbook.50."@ + without_char(symbol@, '/'),
        r@[1]@ == "publicTrade."@ + without_char(symbol@, '/'),
{
    let bybit_symbol = to_bybit_symbol(symbol);
    let mut book = string_of("orderbook.50.");
    book.append(bybit_symbol.as_str());
    let mut trades = string_of("publicTrade.");
    trades.append(bybit_symbol.as_str());
    let mut topics: Vec<String> = Vec::new();
    topics.push(book);
    topics.push(trades);
    topics
}

/// A decimal text parsed, zero where it does not parse.
pub open spec fn decimal_or_zero(t: Seq<char>) -> Decimal {
    match decimal_parse(t) {
        Some(d) => d,
        None => Decimal::spec_zero(),
    }
}

/// Parses a decimal, zero where it does not parse.
pub fn parse_decimal_or_zero(t: &str) -> (r: Decimal)
    ensures
        r == decimal_or_zero(t@),
{
    match dec_parse(t) {
        Some(d) => d,
        None => Decimal::zero(),
    }
}

/// The `(price, quantity)` updates of a list of `[price, quantity, ...]`
/// entries: entries with fewer than two fields are skipped, texts that do not
/// parse count as zero.
pub open spec fn entry_updates(entries: Seq<Vec<String>>) -> Seq<(Decimal, Decimal)>
    decreases entries.len(),
{
    if entries.len() == 0 {
        Seq::empty()
    } else {
        let prev = entry_updates(entries.drop_last());
        let e = entries.last()@;
        if e.len() >= 2 {
            prev.push((decimal_or_zero(e[0]@), decimal_or_zero(e[1]@)))
        } else {
            prev
        }
    }
}

/// The updates of a list of `[price, quantity, ...]` entries.
pub fn parse_entries(entries: &Vec<Vec<String>>) -> (r: Vec<(Decimal, Decimal)>)
    ensures
        r@ == entry_updates(entries@),
{
    let mut out: Vec<(Decimal, Decimal)> = Vec::new();
    let mut i: usize = 0;
    while i < entries.len()
        invariant
            i <= entries@.len(),
            out@ == entry_updates(entries@.take(i as int)),
        decreases entries@.len() - i,
    {
        assert(entries@.take(i + 1).drop_last() == entries@.take(i as int));
        assert(entries@.take(i + 1).last() == entries@[i as int]);
        let e = &entries[i];
        if e.len() >= 2 {
            let price = parse_decimal_or_zero(e[0].as_str());
            let qty = parse_decimal_or_zero(e[1].as_str());
            out.push((price, qty));
        }
        i = i + 1;
    }
    assert(entries@.take(entries@.len() as int) == entries@);
    out
}

/// The order book part of a feed message.
pub struct OrderBookData {
    /// Symbol.
    pub s: String,
    /// Bids, `[price, quantity]`.
    pub b: Vec<Vec<String>>,
    /// Asks, `[price, quantity]`.
    pub a: Vec<Vec<String>>,
    /// Update id.
    pub u: i64,
    /// Sequence number.
    pub seq: Option<i64>,
}

/// One trade of a feed message.
pub struct TradeData {
    /// Trade time.
    pub timestamp: i64,
    /// Symbol.
    pub s: String,
    /// Taker side, `Buy` or `Sell`.
    pub side: String,
    /// Quantity.
    pub v: String,
    /// Price.
    pub p: String,
    /// Tick direction.
    pub tick_direction: Option<String>,
    /// Trade id.
    pub i: String,
}

/// The book after an order book message with timestamp `ts`: a snapshot
/// starts from empty sides; the bid and ask updates are applied in order.
pub open spec fn book_message_applied(
    old_book: OrderBook,
    new_book: OrderBook,
    is_snapshot: bool,
    ts: i64,
    data: OrderBookData,
) -> bool {
    let start_bids = if is_snapshot {
        Seq::empty()
    } else {
        old_book.bids@
    };
    let start_asks = if is_snapshot {
        Seq::empty()
    } else {
        old_book.asks@
    };
    &&& new_book.wf()
    &&& new_book.symbol == old_book.symbol
    &&& new_book.timestamp == ts
    &&& side_applied(start_bids, new_book.bids@, entry_updates(data.b@), true)
    &&& side_applied(start_asks, new_book.asks@, entry_updates(data.a@), false)
}

/// Applies an order book message: a snapshot clears both sides first; the
/// timestamp becomes the message's, or the clock's when it has none; then the
/// bid and the ask entries are applied in order.
pub fn handle_orderbook_message(
    book: &mut OrderBook,
    is_snapshot: bool,
    ts: Option<i64>,
    data: &OrderBookData,
)
    requires
        old(book).wf(),
    ensures
        ts matches Some(t) ==> book_message_applied(*old(book), *final(book), is_snapshot, t, *data),
        ts is None ==> book_message_applied(
            *old(book),
            *final(book),
            is_snapshot,
            final(book).timestamp,
            *data,
        ),
{
    if is_snapshot {
        book.bids.clear();
        book.asks.clear();
    }
    book.timestamp = match ts {
        Some(t) => t,
        None => utc_now_millis(),
    };
    let bids = parse_entries(&data.b);
    let asks = parse_entries(&data.a);
    book.apply_level_updates(&bids, Side::Buy);
    book.apply_level_updates(&asks, Side::Sell);
}

/// `Buy` is a buy; any other text a sell.
pub open spec fn trade_side(t: Seq<char>) -> Side {
    if t == "Buy"@ {
        Side::Buy
    } else {
        Side::Sell
    }
}

/// The trade list after appending a trade: the oldest trade is dropped when
/// the list then holds more than `max` trades.
pub open spec fn trades_push_capped(trades: Seq<Trade>, t: Trade, max: nat) -> Seq<Trade> {
    let pushed = trades.push(t);
    if pushed.len() > max {
        pushed.drop_first()
    } else {
        pushed
    }
}

/// The trade list after appending `ts` in order, capped at `max`.
pub open spec fn trades_after(trades: Seq<Trade>, ts: Seq<Trade>, max: nat) -> Seq<Trade>
    decreases ts.len(),
{
    if ts.len() == 0 {
        trades
    } else {
        trades_push_capped(trades_after(trades, ts.drop_last(), max), ts.last(), max)
    }
}

/// A trade list that holds at most `max` trades (`max > 0`) still does after
/// more are appended, and its last trade is the last appended.
pub proof fn lemma_trades_capped(trades: Seq<Trade>, ts: Seq<Trade>, max: nat)
    requires
        max > 0,
        trades.len() <= max,
    ensures
        trades_after(trades, ts, max).len() <= max,
        ts.len() > 0 ==> trades_after(trades, ts, max).last() == ts.last(),
    decreases ts.len(),
{
    if ts.len() > 0 {
        lemma_trades_capped(trades, ts.drop_last(), max);
    }
}

/// The trade a feed trade record describes (unparsable texts count as zero).
pub open spec fn trade_of(d: TradeData) -> Trade {
    Trade {
        timestamp: d.timestamp,
        price: decimal_or_zero(d.p@),
        quantity: decimal_or_zero(d.v@),
        side: trade_side(d.side@),
    }
}

/// A feed trade whose side text is `Buy` is recorded as a buy, and one with
/// any other side text as a sell; its time, price and quantity are the
/// record's (texts that do not parse give zero).
pub proof fn lemma_trade_of_fields(d: TradeData)
    ensures
        d.side@ == "Buy"@ <==> trade_of(d).side == Side::Buy,
        d.side@ != "Buy"@ <==> trade_of(d).side == Side::Sell,
        trade_of(d).timestamp == d.timestamp,
        decimal_parse(d.p@) matches Some(p) ==> trade_of(d).price == p,
        decimal_parse(d.v@) matches Some(v) ==> trade_of(d).quantity == v,
{
}

/// Applying a trade message appends its trades in order, each recorded
/// from its feed record, and keeps at most `max` trades: the newest trade
/// held is the last of the message.
pub proof fn lemma_trade_message_last(trades: Seq<Trade>, data: Seq<TradeData>, max: nat)
    requires
        max > 0,
        trades.len() <= max,
        data.len() > 0,
    ensures
        trades_after(trades, data.map_values(|d: TradeData| trade_of(d)), max).last() == trade_of(
            data.last(),
        ),
        trades_after(trades, data.map_values(|d: TradeData| trade_of(d)), max).len() <= max,
        data.last().side@ == "Buy"@ ==> trades_after(
            trades,
            data.map_values(|d: TradeData| trade_of(d)),
            max,
        ).last().side == Side::Buy,
{
    let ts = data.map_values(|d: TradeData| trade_of(d));
    lemma_trades_capped(trades, ts, max);
    assert(ts.last() == trade_of(data.last()));
}

/// Appends a trade, dropping the oldest when more than `max` are held.
pub fn push_trade_capped(trades: &mut Vec<Trade>, trade: Trade, max: usize)
    ensures
        final(trades)@ == trades_push_capped(old(trades)@, trade, max as nat),
{
    trades.push(trade);
    if trades.len() > max {
        trades.remove(0);
        assert(final(trades)@ =~= old(trades)@.push(trade).drop_first());
    }
}

/// Applies a trade message: each trade is appended in order, the list kept
/// at no more than `max_trades` trades by dropping the oldest.
pub fn handle_trade_message(trades: &mut Vec<Trade>, data: &Vec<TradeData>, max_trades: usize)
    ensures
        final(trades)@ == trades_after(
            old(trades)@,
            data@.map_values(|d: TradeData| trade_of(d)),
            max_trades as nat,
        ),
{
    let ghost ts = data@.map_values(|d: TradeData| trade_of(d));
    let mut i: usize = 0;
    while i < data.len()
        invariant
            i <= data@.len(),
            ts == data@.map_values(|d: TradeData| trade_of(d)),
            trades@ == trades_after(old(trades)@, ts.take(i as int), max_trades as nat),
        decreases data@.len() - i,
    {
        assert(ts.take(i + 1).drop_last() == ts.take(i as int));
        let d = &data[i];
        let side = if str_equal(d.side.as_str(), "Buy") {
            Side::Buy
        } else {
            Side::Sell
        };
        let trade = Trade {
            timestamp: d.timestamp,
            price: parse_decimal_or_zero(d.p.as_str()),
            quantity: parse_decimal_or_zero(d.v.as_str()),
            side,
        };
        push_trade_capped(trades, trade, max_trades);
        i = i + 1;
    }
    assert(ts.take(data@.len() as int) == ts);
}

} // verus!
