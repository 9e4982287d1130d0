//! Replay of recorded market data events.

use vstd::prelude::*;

use crate::md::bybit_ws::{decimal_or_zero, parse_decimal_or_zero, push_trade_capped, trades_push_capped};
use crate::md::types::{side_applied, OrderBook, Side, Trade};
use crate::decimal::Decimal;
use crate::text::str_equal;

verus! {

/// The most trades a replay keeps.
pub const MAX_REPLAY_TRADES: usize = 1000usize;

/// A recorded market data event.
#[derive(Debug, Clone)]
pub enum ReplayEvent {
    OrderBookSnapshot {
        timestamp: i64,
        symbol: String,
        /// `(price, quantity)` texts.
        bids: Vec<(String, String)>,
        asks: Vec<(String, String)>,
    },
    Trade { timestamp: i64, symbol: String, price: String, quantity: String, side: String },
}

impl ReplayEvent {
    /// The event's timestamp.
    pub fn timestamp(&self) -> (r: i64)
        ensures
            r == (match *self {
                ReplayEvent::OrderBookSnapshot { timestamp, .. } => timestamp,
                ReplayEvent::Trade { timestamp, .. } => timestamp,
            }),
    {
        match self {
            ReplayEvent::OrderBookSnapshot { timestamp, .. } => *timestamp,
            ReplayEvent::Trade { timestamp, .. } => *timestamp,
        }
    }
}

/// The `(price, quantity)` updates of recorded level texts (texts that do not
/// parse count as zero).
pub open spec fn pair_updates(levels: Seq<(String, String)>) -> Seq<(Decimal, Decimal)> {
    levels.map_values(|p: (String, String)| (decimal_or_zero(p.0@), decimal_or_zero(p.1@)))
}

/// The updates of recorded level texts.
fn parse_pairs(levels: &Vec<(String, String)>) -> (r: Vec<(Decimal, Decimal)>)
    ensures
        r@ == pair_updates(levels@),
{
    let mut out: Vec<(Decimal, Decimal)> = Vec::new();
    let mut i: usize = 0;
    while i < levels.len()
        invariant
            i <= levels@.len(),
            out@ == pair_updates(levels@.take(i as int)),
        decreases levels@.len() - i,
    {
        let price = parse_decimal_or_zero(levels[i].0.as_str());
        let qty = parse_decimal_or_zero(levels[i].1.as_str());
        out.push((price, qty));
        assert(pair_updates(levels@.take(i + 1)) =~= pair_updates(levels@.take(i as int)).push(
            (price, qty),
        ));
        i = i + 1;
    }
    assert(levels@.take(levels@.len() as int) == levels@);
    out
}

/// `buy` or `Buy` is a buy; any other text a sell.
pub open spec fn replay_side(t: Seq<char>) -> Side {
    if t == "buy"@ || t == "Buy"@ {
        Side::Buy
    } else {
        Side::Sell
    }
}

/// A recorded trade whose side is `buy` or `Buy` is a buy; any other side
/// text is a sell.
pub proof fn lemma_replay_side(t: Seq<char>)
    ensures
        (t == "buy"@ || t == "Buy"@) <==> replay_side(t) == Side::Buy,
        !(t == "buy"@ || t == "Buy"@) <==> replay_side(t) == Side::Sell,
{
}

/// Applies a recorded event: a snapshot replaces both sides of the book by
/// its levels (applied in order) and sets the book's timestamp; a trade is
/// appended to the trades, keeping at most `MAX_REPLAY_TRADES`.
pub fn apply_replay_event(book: &mut OrderBook, trades: &mut Vec<Trade>, event: &ReplayEvent)
    requires
        old(book).wf(),
    ensures
        final(book).wf(),
        final(book).symbol == old(book).symbol,
        match *event {
            ReplayEvent::OrderBookSnapshot { timestamp, bids, asks, .. } => {
                &&& final(book).timestamp == timestamp
                &&& side_applied(Seq::empty(), final(book).bids@, pair_updates(bids@), true)
                &&& side_applied(Seq::empty(), final(book).asks@, pair_updates(asks@), false)
                &&& final(trades)@ == old(trades)@
            },
            ReplayEvent::Trade { timestamp, price, quantity, side, .. } => {
                &&& *final(book) == *old(book)
                &&& final(trades)@ == trades_push_capped(
                    old(trades)@,
                    Trade {
                        timestamp,
                        price: decimal_or_zero(price@),
                        quantity: decimal_or_zero(quantity@),
                        side: replay_side(side@),
                    },
                    MAX_REPLAY_TRADES as nat,
                )
            },
        },
{
    match event {
        ReplayEvent::OrderBookSnapshot { timestamp, bids, asks, .. } => {
            book.timestamp = *timestamp;
            book.bids.clear();
            book.asks.clear();
            let bid_updates = parse_pairs(bids);
            let ask_updates = parse_pairs(asks);
            book.apply_level_updates(&bid_updates, Side::Buy);
            book.apply_level_updates(&ask_updates, Side::Sell);
        },
        ReplayEvent::Trade { timestamp, price, quantity, side, .. } => {
            let side_enum = if str_equal(side.as_str(), "buy") || str_equal(side.as_str(), "Buy") {
                Side::Buy
            } else {
                Side::Sell
            };
            let trade = Trade {
                timestamp: *timestamp,
                price: parse_decimal_or_zero(price.as_str()),
                quantity: parse_decimal_or_zero(quantity.as_str()),
                side: side_enum,
            };
            push_trade_capped(trades, trade, MAX_REPLAY_TRADES);
        },
    }
}

} // verus!
