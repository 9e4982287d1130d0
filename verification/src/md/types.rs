//! Order book and trade types.
//!
//! A well-formed book keeps its bids in strictly decreasing and its asks in
//! strictly increasing order of price, so the first level of each side is the
//! best one and no price occurs twice on a side.

use vstd::prelude::*;

use crate::decimal::{
    dec_checked_add, dec_checked_div, dec_eq, dec_lt, dec_checked_mul, dec_checked_sub, decimal_checked_add,
    decimal_checked_div, decimal_checked_mul, decimal_checked_sub, Decimal,
};

verus! {

/// Order book side (bids or asks).
#[derive(Debug, Clone, Copy, PartialEq, Eq, Structural)]
pub enum Side {
    Buy,
    Sell,
}

impl Side {
    /// The lower-case name of the side.
    pub fn as_str(&self) -> (r: &'static str)
        ensures
            r@ == (match *self {
                Side::Buy => "buy"@,
                Side::Sell => "sell"@,
            }),
    {
        match self {
            Side::Buy => "buy",
            Side::Sell => "sell",
        }
    }
}

/// A price level in the order book.
#[derive(Clone, Copy)]
pub struct Level {
    pub price: Decimal,
    pub quantity: Decimal,
}

impl Level {
    pub fn new(price: Decimal, quantity: Decimal) -> (r: Level)
        ensures
            r == (Level { price, quantity }),
    {
        Level { price, quantity }
    }
}

/// Trade information.
#[derive(Clone, Copy)]
pub struct Trade {
    pub timestamp: i64,
    pub price: Decimal,
    pub quantity: Decimal,
    pub side: Side,
}

/// Order book snapshot.
#[derive(Clone)]
pub struct OrderBook {
    pub symbol: String,
    pub timestamp: i64,
    pub bids: Vec<Level>,
    pub asks: Vec<Level>,
}

/// On the side kept in decreasing order (`desc`) a price `a` is better than
/// `b` when it is higher; on the other side when it is lower.
pub open spec fn better(desc: bool, a: int, b: int) -> bool {
    if desc {
        a > b
    } else {
        a < b
    }
}

/// Whether bids (`Buy`) are kept in decreasing order.
pub open spec fn is_desc(side: Side) -> bool {
    side == Side::Buy
}

/// Every level is better than every level after it.
pub open spec fn side_sorted(levels: Seq<Level>, desc: bool) -> bool {
    forall|i: int, j: int|
        #![trigger levels[i], levels[j]]
        0 <= i < j < levels.len() ==> better(desc, levels[i].price.val(), levels[j].price.val())
}

/// `i` is the position of a level at price value `p`.
pub open spec fn at_price(levels: Seq<Level>, i: int, p: int) -> bool {
    0 <= i < levels.len() && levels[i].price.val() == p
}

/// Some level has price value `p`.
pub open spec fn has_price(levels: Seq<Level>, p: int) -> bool {
    exists|i: int| at_price(levels, i, p)
}

/// What setting the quantity at `price` to `qty` makes of a sorted side:
/// a zero quantity removes the level at that price (if any); otherwise the
/// level at that price keeps its price and takes the new quantity, or a new
/// level is inserted where the order puts it.
pub open spec fn level_update(
    old_levels: Seq<Level>,
    new_levels: Seq<Level>,
    price: Decimal,
    qty: Decimal,
    desc: bool,
) -> bool {
    if qty.val() == 0 {
        if has_price(old_levels, price.val()) {
            forall|i: int|
                #[trigger] at_price(old_levels, i, price.val()) ==> new_levels
                    == old_levels.remove(i)
        } else {
            new_levels == old_levels
        }
    } else if has_price(old_levels, price.val()) {
        forall|i: int|
            #[trigger] at_price(old_levels, i, price.val()) ==> new_levels == old_levels.update(
                i,
                Level { price: old_levels[i].price, quantity: qty },
            )
    } else {
        exists|k: int|
            0 <= k <= old_levels.len() && new_levels == old_levels.insert(
                k,
                Level { price, quantity: qty },
            )
    }
}

/// The sum, by `rust_decimal`'s checked addition from zero, of the quantities
/// of `levels`; `None` where an addition overflows.
pub open spec fn qty_sum(levels: Seq<Level>) -> Option<Decimal>
    decreases levels.len(),
{
    if levels.len() == 0 {
        Some(Decimal::spec_zero())
    } else {
        match qty_sum(levels.drop_last()) {
            Some(acc) => decimal_checked_add(acc, levels.last().quantity),
            None => None,
        }
    }
}

/// Prices on a sorted side are distinct, so at most one level has a given price.
pub proof fn lemma_unique_price(levels: Seq<Level>, desc: bool, i: int, j: int, p: int)
    requires
        side_sorted(levels, desc),
        at_price(levels, i, p),
        at_price(levels, j, p),
    ensures
        i == j,
{
    if i < j {
        assert(better(desc, levels[i].price.val(), levels[j].price.val()));
    } else if j < i {
        assert(better(desc, levels[j].price.val(), levels[i].price.val()));
    }
}

/// On a side ordered by `desc`, `a` comes before `b`.
fn price_better(desc: bool, a: Decimal, b: Decimal) -> (r: bool)
    ensures
        r == better(desc, a.val(), b.val()),
{
    if desc {
        dec_lt(b, a)
    } else {
        dec_lt(a, b)
    }
}

/// Whether every level of a side is better than every later one.
fn check_side_sorted(levels: &Vec<Level>, desc: bool) -> (r: bool)
    ensures
        r == side_sorted(levels@, desc),
{
    let n = levels.len();
    if n == 0 {
        return true;
    }
    let mut i: usize = 1;
    while i < n
        invariant
            n == levels@.len(),
            1 <= i <= n,
            side_sorted(levels@.take(i as int), desc),
        decreases n - i,
    {
        if !price_better(desc, levels[i - 1].price, levels[i].price) {
            assert(!side_sorted(levels@, desc)) by {
                assert(levels@[i - 1] == levels@[i - 1]);
            }
            return false;
        }
        proof {
            let t = levels@.take(i + 1);
            assert forall|a: int, b: int| 0 <= a < b < t.len() implies better(
                desc,
                #[trigger] t[a].price.val(),
                #[trigger] t[b].price.val(),
            ) by {
                if b < i {
                    assert(levels@.take(i as int)[a] == t[a]);
                    assert(levels@.take(i as int)[b] == t[b]);
                } else if a < i - 1 {
                    assert(levels@.take(i as int)[a] == t[a]);
                    assert(levels@.take(i as int)[i - 1] == t[i - 1]);
                }
            }
        }
        i = i + 1;
    }
    assert(levels@.take(n as int) == levels@);
    true
}

/// The mid and the spread of a well-formed book are computed from its best
/// bid, the level with the highest bid price, and its best ask, the level
/// with the lowest ask price (which are the first levels of their sides):
/// mid = (best bid + best ask) / 2, spread = (best ask - best bid) / mid *
/// 10000 where the mid is above zero.
pub proof fn lemma_metrics_use_best_levels(book: OrderBook, i: int, j: int)
    requires
        book.wf(),
        0 <= i < book.bids@.len(),
        0 <= j < book.asks@.len(),
        forall|k: int|
            0 <= k < book.bids@.len() ==> (#[trigger] book.bids@[k]).price.val()
                <= book.bids@[i].price.val(),
        forall|k: int|
            0 <= k < book.asks@.len() ==> (#[trigger] book.asks@[k]).price.val()
                >= book.asks@[j].price.val(),
    ensures
        i == 0,
        j == 0,
        book.spec_mid() == match decimal_checked_add(book.bids@[i].price, book.asks@[j].price) {
            Some(sum) => match decimal_checked_div(sum, Decimal::spec_from_u32(2)) {
                Some(mid) => Some(Some(mid)),
                None => None,
            },
            None => None,
        },
        book.spec_spread_bps() == match decimal_checked_sub(
            book.asks@[j].price,
            book.bids@[i].price,
        ) {
            Some(spread) => match decimal_checked_add(book.bids@[i].price, book.asks@[j].price) {
                Some(sum) => match decimal_checked_div(sum, Decimal::spec_from_u32(2)) {
                    Some(mid) => if mid.val() > 0 {
                        match decimal_checked_div(spread, mid) {
                            Some(q) => match decimal_checked_mul(q, Decimal::spec_from_u32(10000)) {
                                Some(bps) => Some(Some(bps)),
                                None => None,
                            },
                            None => None,
                        }
                    } else {
                        Some(None)
                    },
                    None => None,
                },
                None => None,
            },
            None => None,
        },
{
    if i != 0 {
        assert(better(true, book.bids@[0].price.val(), book.bids@[i].price.val()));
        assert(book.bids@[0].price.val() <= book.bids@[i].price.val());
    }
    if j != 0 {
        assert(better(false, book.asks@[0].price.val(), book.asks@[j].price.val()));
        assert(book.asks@[0].price.val() >= book.asks@[j].price.val());
    }
}

/// Depth grows level by level from the best: the depth of no levels is
/// zero; the depth of `n + 1` levels adds the quantity of the `(n+1)`-th
/// best level (bids for `Buy`, asks for `Sell`) to the depth of `n`; asking
/// for more levels than a side has gives the depth of the whole side.
pub proof fn lemma_depth_steps(book: OrderBook, n: usize)
    ensures
        book.spec_depth(Side::Buy, 0) == Some(Decimal::spec_zero()),
        book.spec_depth(Side::Sell, 0) == Some(Decimal::spec_zero()),
        n < book.bids@.len() && n + 1 <= usize::MAX ==> book.spec_depth(Side::Buy, (n + 1) as usize)
            == match book.spec_depth(Side::Buy, n) {
            Some(acc) => decimal_checked_add(acc, book.bids@[n as int].quantity),
            None => None,
        },
        n < book.asks@.len() && n + 1 <= usize::MAX ==> book.spec_depth(Side::Sell, (n + 1) as usize)
            == match book.spec_depth(Side::Sell, n) {
            Some(acc) => decimal_checked_add(acc, book.asks@[n as int].quantity),
            None => None,
        },
        n >= book.bids@.len() ==> book.spec_depth(Side::Buy, n) == qty_sum(book.bids@),
        n >= book.asks@.len() ==> book.spec_depth(Side::Sell, n) == qty_sum(book.asks@),
{
    assert(book.bids@.take(0) =~= Seq::<Level>::empty());
    assert(book.asks@.take(0) =~= Seq::<Level>::empty());
    assert(book.bids@.take(book.bids@.len() as int) =~= book.bids@);
    assert(book.asks@.take(book.asks@.len() as int) =~= book.asks@);
    if n < book.bids@.len() {
        assert(book.bids@.take(n + 1).drop_last() =~= book.bids@.take(n as int));
    }
    if n < book.asks@.len() {
        assert(book.asks@.take(n + 1).drop_last() =~= book.asks@.take(n as int));
    }
}

/// Sets the quantity at `price` on one sorted side (see `level_update`).
fn update_side(levels: &mut Vec<Level>, price: Decimal, qty: Decimal, desc: bool)
    requires
        side_sorted(old(levels)@, desc),
    ensures
        side_sorted(final(levels)@, desc),
        level_update(old(levels)@, final(levels)@, price, qty, desc),
{
    let ghost s = levels@;
    let len = levels.len();
    let mut i: usize = 0;
    while i < len && !dec_eq(levels[i as usize].price, price)
        invariant
            levels@ == s,
            len == s.len(),
            i <= len,
            forall|j: int| 0 <= j < i ==> s[j].price.val() != price.val(),
        decreases len - i,
    {
        i = i + 1;
    }
    if i < len {
        assert(at_price(s, i as int, price.val()));
        assert forall|j: int| #[trigger] at_price(s, j, price.val()) implies j == i by {
            lemma_unique_price(s, desc, i as int, j, price.val());
        }
        if qty.is_zero() {
            levels.remove(i);
            assert forall|a: int, b: int|
                #![trigger levels@[a], levels@[b]]
                0 <= a < b < levels@.len() implies better(
                    desc,
                    levels@[a].price.val(),
                    levels@[b].price.val(),
                ) by {
                let a0 = if a < i { a } else { a + 1 };
                let b0 = if b < i { b } else { b + 1 };
                assert(levels@[a] == s[a0] && levels@[b] == s[b0]);
                assert(better(desc, s[a0].price.val(), s[b0].price.val()));
            }
        } else {
            let old_price = levels[i].price;
            levels.set(i, Level { price: old_price, quantity: qty });
            assert forall|a: int, b: int|
                #![trigger levels@[a], levels@[b]]
                0 <= a < b < levels@.len() implies better(
                    desc,
                    levels@[a].price.val(),
                    levels@[b].price.val(),
                ) by {
                assert(levels@[a].price == s[a].price && levels@[b].price == s[b].price);
                assert(better(desc, s[a].price.val(), s[b].price.val()));
            }
        }
    } else {
        assert(!has_price(s, price.val()));
        if qty.is_zero() {
            return;
        }
        let mut k: usize = 0;
        while k < len && price_better(desc, levels[k].price, price)
            invariant
                levels@ == s,
                len == s.len(),
                k <= len,
                forall|j: int| 0 <= j < k ==> better(desc, #[trigger] s[j].price.val(), price.val()),
            decreases len - k,
        {
            k = k + 1;
        }
        assert(k < len ==> better(desc, price.val(), s[k as int].price.val())) by {
            if k < len {
                assert(s[k as int].price.val() != price.val());
            }
        }
        levels.insert(k, Level { price, quantity: qty });
        assert(levels@ == s.insert(k as int, Level { price, quantity: qty }));
        assert forall|a: int, b: int|
            #![trigger levels@[a], levels@[b]]
            0 <= a < b < levels@.len() implies better(
                desc,
                levels@[a].price.val(),
                levels@[b].price.val(),
            ) by {
            if b < k {
                assert(better(desc, s[a].price.val(), s[b].price.val()));
            } else if b == k {
                assert(better(desc, s[a].price.val(), price.val()));
            } else if a == k {
                assert(better(desc, s[k as int].price.val(), s[b - 1].price.val()) || b - 1 == k);
            } else if a < k {
                assert(better(desc, s[a].price.val(), s[b - 1].price.val()));
            } else {
                assert(better(desc, s[a - 1].price.val(), s[b - 1].price.val()));
            }
        }
    }
}

/// The side went from `old_levels` to `new_levels` by applying the
/// `(price, quantity)` updates in order, each as `level_update` says.
pub open spec fn side_applied(
    old_levels: Seq<Level>,
    new_levels: Seq<Level>,
    updates: Seq<(Decimal, Decimal)>,
    desc: bool,
) -> bool {
    exists|steps: Seq<Seq<Level>>|
        steps.len() == updates.len() + 1 && steps[0] == old_levels && steps.last() == new_levels
            && forall|i: int|
            0 <= i < updates.len() ==> level_update(
                #[trigger] steps[i],
                steps[i + 1],
                updates[i].0,
                updates[i].1,
                desc,
            )
}

/// The level at price value `x`, if the side has one.
pub open spec fn level_at(levels: Seq<Level>, x: int) -> Option<Level> {
    if has_price(levels, x) {
        Some(levels[choose|i: int| at_price(levels, i, x)])
    } else {
        None
    }
}

/// On a sorted side, the level at a price is the one at any position holding
/// that price.
proof fn lemma_level_at_index(levels: Seq<Level>, desc: bool, i: int, x: int)
    requires
        side_sorted(levels, desc),
        at_price(levels, i, x),
    ensures
        level_at(levels, x) == Some(levels[i]),
{
    let j = choose|j: int| at_price(levels, j, x);
    lemma_unique_price(levels, desc, i, j, x);
}

/// Reading after writing a level: after setting the quantity at `price`, a
/// zero quantity leaves no level at that price; any other quantity leaves a
/// level at that price with that quantity (keeping the price it was listed
/// under, if it was listed). Levels at every other price are unchanged.
pub proof fn lemma_update_then_read(
    old_levels: Seq<Level>,
    new_levels: Seq<Level>,
    price: Decimal,
    qty: Decimal,
    desc: bool,
    x: int,
)
    requires
        side_sorted(old_levels, desc),
        side_sorted(new_levels, desc),
        level_update(old_levels, new_levels, price, qty, desc),
    ensures
        x == price.val() && qty.val() == 0 ==> level_at(new_levels, x) is None,
        x == price.val() && qty.val() != 0 ==> (level_at(new_levels, x) matches Some(l) && l.quantity
            == qty && l.price.val() == x),
        x != price.val() ==> level_at(new_levels, x) == level_at(old_levels, x),
{
    let p = price.val();
    if has_price(old_levels, p) {
        let i = choose|i: int| at_price(old_levels, i, p);
        assert(at_price(old_levels, i, p));
        if qty.val() == 0 {
            assert(new_levels == old_levels.remove(i));
            if x == p {
                if has_price(new_levels, x) {
                    let j = choose|j: int| at_price(new_levels, j, x);
                    let j0 = if j < i { j } else { j + 1 };
                    assert(new_levels[j] == old_levels[j0]);
                    lemma_unique_price(old_levels, desc, i, j0, p);
                }
            } else {
                if has_price(old_levels, x) {
                    let a = choose|a: int| at_price(old_levels, a, x);
                    assert(a != i);
                    let b = if a < i { a } else { a - 1 };
                    assert(new_levels[b] == old_levels[a]);
                    assert(at_price(new_levels, b, x));
                    lemma_level_at_index(old_levels, desc, a, x);
                    lemma_level_at_index(new_levels, desc, b, x);
                } else if has_price(new_levels, x) {
                    let b = choose|b: int| at_price(new_levels, b, x);
                    let a = if b < i { b } else { b + 1 };
                    assert(new_levels[b] == old_levels[a]);
                    assert(at_price(old_levels, a, x));
                }
            }
        } else {
            assert(new_levels == old_levels.update(i, Level { price: old_levels[i].price, quantity: qty }));
            assert(at_price(new_levels, i, p));
            lemma_level_at_index(new_levels, desc, i, p);
            if x != p {
                if has_price(old_levels, x) {
                    let a = choose|a: int| at_price(old_levels, a, x);
                    assert(at_price(new_levels, a, x));
                    lemma_level_at_index(old_levels, desc, a, x);
                    lemma_level_at_index(new_levels, desc, a, x);
                } else if has_price(new_levels, x) {
                    let b = choose|b: int| at_price(new_levels, b, x);
                    assert(at_price(old_levels, b, x));
                }
            }
        }
    } else {
        if qty.val() == 0 {
            assert(new_levels == old_levels);
        } else {
            let k = choose|k: int|
                0 <= k <= old_levels.len() && new_levels == old_levels.insert(
                    k,
                    Level { price, quantity: qty },
                );
            assert(at_price(new_levels, k, p));
            lemma_level_at_index(new_levels, desc, k, p);
            if x != p {
                if has_price(old_levels, x) {
                    let a = choose|a: int| at_price(old_levels, a, x);
                    let b = if a < k { a } else { a + 1 };
                    assert(new_levels[b] == old_levels[a]);
                    assert(at_price(new_levels, b, x));
                    lemma_level_at_index(old_levels, desc, a, x);
                    lemma_level_at_index(new_levels, desc, b, x);
                } else if has_price(new_levels, x) {
                    let b = choose|b: int| at_price(new_levels, b, x);
                    assert(b != k);
                    let a = if b < k { b } else { b - 1 };
                    assert(new_levels[b] == old_levels[a]);
                    assert(at_price(old_levels, a, x));
                }
            }
        }
    }
}

/// The best level of a well-formed book's side is the best price on it: the
/// first bid is the highest bid, the first ask the lowest ask.
pub proof fn lemma_best_level_is_extreme(book: OrderBook, side: Side, i: int)
    requires
        book.wf(),
        0 < i < book.side_levels(side).len(),
    ensures
        better(
            is_desc(side),
            book.side_levels(side)[0].price.val(),
            book.side_levels(side)[i].price.val(),
        ),
{
    let s = book.side_levels(side);
    assert(better(is_desc(side), s[0].price.val(), s[i].price.val()));
}

impl OrderBook {
    /// Bids strictly decreasing and asks strictly increasing in price.
    pub open spec fn wf(&self) -> bool {
        &&& side_sorted(self.bids@, true)
        &&& side_sorted(self.asks@, false)
    }

    /// Whether the book is well formed (bids strictly descending, asks
    /// strictly ascending), as the updating functions require.
    pub fn is_well_formed(&self) -> (r: bool)
        ensures
            r == self.wf(),
    {
        check_side_sorted(&self.bids, true) && check_side_sorted(&self.asks, false)
    }

    /// The levels of one side.
    pub open spec fn side_levels(&self, side: Side) -> Seq<Level> {
        match side {
            Side::Buy => self.bids@,
            Side::Sell => self.asks@,
        }
    }

    /// The mid price `(best bid + best ask) / 2`: `None` inside where a side
    /// is empty; `None` outside where an operation overflows (there the
    /// computation panics).
    pub open spec fn spec_mid(&self) -> Option<Option<Decimal>> {
        if self.bids.len() > 0 && self.asks.len() > 0 {
            match decimal_checked_add(self.bids[0].price, self.asks[0].price) {
                Some(sum) => match decimal_checked_div(sum, Decimal::spec_from_u32(2)) {
                    Some(mid) => Some(Some(mid)),
                    None => None,
                },
                None => None,
            }
        } else {
            Some(None)
        }
    }

    /// The spread in basis points, `(ask - bid) / mid * 10000`: `None` inside
    /// where a side is empty or the mid is not above zero; `None` outside where
    /// an operation overflows.
    pub open spec fn spec_spread_bps(&self) -> Option<Option<Decimal>> {
        if self.bids.len() > 0 && self.asks.len() > 0 {
            let bid = self.bids[0].price;
            let ask = self.asks[0].price;
            match decimal_checked_sub(ask, bid) {
                Some(spread) => match decimal_checked_add(bid, ask) {
                    Some(sum) => match decimal_checked_div(sum, Decimal::spec_from_u32(2)) {
                        Some(mid) => if mid.val() > 0 {
                            match decimal_checked_div(spread, mid) {
                                Some(q) => match decimal_checked_mul(
                                    q,
                                    Decimal::spec_from_u32(10000),
                                ) {
                                    Some(bps) => Some(Some(bps)),
                                    None => None,
                                },
                                None => None,
                            }
                        } else {
                            Some(None)
                        },
                        None => None,
                    },
                    None => None,
                },
                None => None,
            }
        } else {
            Some(None)
        }
    }

    /// The total quantity of the first `n` levels of a side; `None` where the
    /// summation overflows.
    pub open spec fn spec_depth(&self, side: Side, n: usize) -> Option<Decimal> {
        let levels = self.side_levels(side);
        qty_sum(levels.take(if n < levels.len() { n as int } else { levels.len() as int }))
    }

    /// An empty book for `symbol`.
    pub fn new(symbol: String) -> (r: OrderBook)
        ensures
            r.symbol == symbol,
            r.timestamp == 0,
            r.bids@.len() == 0,
            r.asks@.len() == 0,
            r.wf(),
    {
        OrderBook { symbol, timestamp: 0, bids: Vec::new(), asks: Vec::new() }
    }

    /// The best bid: the first bid level.
    pub fn best_bid(&self) -> (r: Option<&Level>)
        ensures
            self.bids.len() == 0 ==> r is None,
            self.bids.len() > 0 ==> r == Some(&self.bids[0]),
            self.wf() && r is Some ==> forall|k: int|
                0 <= k < self.bids@.len() ==> (#[trigger] self.bids@[k]).price.val()
                    <= r->0.price.val(),
    {
        if self.bids.len() > 0 {
            Some(&self.bids[0])
        } else {
            None
        }
    }

    /// The best ask: the first ask level.
    pub fn best_ask(&self) -> (r: Option<&Level>)
        ensures
            self.asks.len() == 0 ==> r is None,
            self.asks.len() > 0 ==> r == Some(&self.asks[0]),
            self.wf() && r is Some ==> forall|k: int|
                0 <= k < self.asks@.len() ==> (#[trigger] self.asks@[k]).price.val()
                    >= r->0.price.val(),
    {
        if self.asks.len() > 0 {
            Some(&self.asks[0])
        } else {
            None
        }
    }

    /// The mid price, or `None` where a side is empty; `None` outside where
    /// the arithmetic overflows.
    pub fn try_mid_price(&self) -> (r: Option<Option<Decimal>>)
        ensures
            r == self.spec_mid(),
    {
        if self.bids.len() > 0 && self.asks.len() > 0 {
            match dec_checked_add(self.bids[0].price, self.asks[0].price) {
                Some(sum) => match dec_checked_div(sum, Decimal::from_u32(2)) {
                    Some(mid) => Some(Some(mid)),
                    None => None,
                },
                None => None,
            }
        } else {
            Some(None)
        }
    }

    /// Mid price `(best bid + best ask) / 2`, or `None` where a side is empty.
    pub fn mid_price(&self) -> (r: Option<Decimal>)
        requires
            self.spec_mid() is Some,
        ensures
            Some(r) == self.spec_mid(),
    {
        match self.try_mid_price() {
            Some(m) => m,
            None => None,
        }
    }

    /// The spread in basis points, or `None` where a side is empty or the mid
    /// is not above zero; `None` outside where the arithmetic overflows.
    pub fn try_spread_bps(&self) -> (r: Option<Option<Decimal>>)
        ensures
            r == self.spec_spread_bps(),
    {
        if self.bids.len() > 0 && self.asks.len() > 0 {
            let bid = self.bids[0].price;
            let ask = self.asks[0].price;
            match dec_checked_sub(ask, bid) {
                Some(spread) => match dec_checked_add(bid, ask) {
                    Some(sum) => match dec_checked_div(sum, Decimal::from_u32(2)) {
                        Some(mid) => if mid.is_positive() {
                            match dec_checked_div(spread, mid) {
                                Some(q) => match dec_checked_mul(q, Decimal::from_u32(10000)) {
                                    Some(bps) => Some(Some(bps)),
                                    None => None,
                                },
                                None => None,
                            }
                        } else {
                            Some(None)
                        },
                        None => None,
                    },
                    None => None,
                },
                None => None,
            }
        } else {
            Some(None)
        }
    }

    /// Spread in basis points, or `None` where a side is empty or the mid is
    /// not above zero.
    pub fn spread_bps(&self) -> (r: Option<Decimal>)
        requires
            self.spec_spread_bps() is Some,
        ensures
            Some(r) == self.spec_spread_bps(),
    {
        match self.try_spread_bps() {
            Some(s) => s,
            None => None,
        }
    }

    /// The total quantity at the first `levels` levels of a side; `None`
    /// where the summation overflows.
    pub fn try_depth_qty(&self, side: Side, levels: usize) -> (r: Option<Decimal>)
        ensures
            r == self.spec_depth(side, levels),
    {
        let book_levels = match side {
            Side::Buy => &self.bids,
            Side::Sell => &self.asks,
        };
        let n = if levels < book_levels.len() {
            levels
        } else {
            book_levels.len()
        };
        let ghost s = book_levels@;
        let mut acc: Option<Decimal> = Some(Decimal::zero());
        let mut i: usize = 0;
        while i < n
            invariant
                s == book_levels@,
                n <= s.len(),
                i <= n,
                acc == qty_sum(s.take(i as int)),
            decreases n - i,
        {
            assert(s.take(i + 1).drop_last() == s.take(i as int));
            acc = match acc {
                Some(a) => dec_checked_add(a, book_levels[i].quantity),
                None => None,
            };
            i = i + 1;
        }
        acc
    }

    /// Sets the quantity at `price` on a side: a zero quantity removes the
    /// level at that price; otherwise the level at that price takes the new
    /// quantity, or a new level is inserted in price order.
    pub fn update_level(&mut self, price: Decimal, quantity: Decimal, side: Side)
        requires
            old(self).wf(),
        ensures
            final(self).wf(),
            final(self).symbol == old(self).symbol,
            final(self).timestamp == old(self).timestamp,
            level_update(
                old(self).side_levels(side),
                final(self).side_levels(side),
                price,
                quantity,
                is_desc(side),
            ),
            side == Side::Buy ==> final(self).asks@ == old(self).asks@,
            side == Side::Sell ==> final(self).bids@ == old(self).bids@,
    {
        match side {
            Side::Buy => update_side(&mut self.bids, price, quantity, true),
            Side::Sell => update_side(&mut self.asks, price, quantity, false),
        }
    }

    /// Applies `(price, quantity)` updates to a side in order, as
    /// `update_level` does each.
    pub fn apply_level_updates(&mut self, updates: &Vec<(Decimal, Decimal)>, side: Side)
        requires
            old(self).wf(),
        ensures
            final(self).wf(),
            final(self).symbol == old(self).symbol,
            final(self).timestamp == old(self).timestamp,
            side_applied(
                old(self).side_levels(side),
                final(self).side_levels(side),
                updates@,
                is_desc(side),
            ),
            side == Side::Buy ==> final(self).asks@ == old(self).asks@,
            side == Side::Sell ==> final(self).bids@ == old(self).bids@,
    {
        let ghost mut steps: Seq<Seq<Level>> = seq![self.side_levels(side)];
        let mut i: usize = 0;
        while i < updates.len()
            invariant
                i <= updates@.len(),
                self.wf(),
                self.symbol == old(self).symbol,
                self.timestamp == old(self).timestamp,
                side == Side::Buy ==> self.asks@ == old(self).asks@,
                side == Side::Sell ==> self.bids@ == old(self).bids@,
                steps.len() == i + 1,
                steps[0] == old(self).side_levels(side),
                steps.last() == self.side_levels(side),
                forall|j: int|
                    0 <= j < i ==> level_update(
                        #[trigger] steps[j],
                        steps[j + 1],
                        updates@[j].0,
                        updates@[j].1,
                        is_desc(side),
                    ),
            decreases updates@.len() - i,
        {
            let (price, quantity) = updates[i];
            self.update_level(price, quantity, side);
            proof {
                steps = steps.push(self.side_levels(side));
            }
            i = i + 1;
        }
    }

    /// Total quantity at the first `levels` levels of a side.
    pub fn depth_qty(&self, side: Side, levels: usize) -> (r: Decimal)
        requires
            self.spec_depth(side, levels) is Some,
        ensures
            Some(r) == self.spec_depth(side, levels),
    {
        match self.try_depth_qty(side, levels) {
            Some(d) => d,
            None => Decimal::zero(),
        }
    }
}

} // verus!
