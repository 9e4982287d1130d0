//! Event-rate windows (for quote-stuffing detection), the recent-trade
//! window (for trade flow imbalance) and repeated-price tracking (for
//! iceberg detection).

use std::collections::VecDeque;
use vstd::prelude::*;

use crate::decimal::{dec_eq, Decimal};
use crate::md::types::Trade;

verus! {

/// The default window of an event window, in milliseconds.
pub const STUFFING_WINDOW_MS: i64 = 1000i64;

/// Drops timestamps from the front while they are more than `window` before
/// `now`.
pub open spec fn prune_front(s: Seq<i64>, now: i64, window: i64) -> Seq<i64>
    decreases s.len(),
{
    if s.len() > 0 && now - s[0] > window {
        prune_front(s.drop_first(), now, window)
    } else {
        s
    }
}

/// After recording an event at `now` (with a window of at least zero), the
/// events held are a suffix of those before plus the new one, the new one is
/// still held, and the oldest held is within the window of `now`.
pub proof fn lemma_window_after_record(s: Seq<i64>, now: i64, window: i64)
    requires
        window >= 0,
        s.len() > 0,
        s.last() == now,
    ensures
        ({
            let r = prune_front(s, now, window);
            &&& r.len() > 0
            &&& r.last() == now
            &&& now - r[0] <= window
            &&& exists|k: int| 0 <= k < s.len() && r == s.skip(k)
        }),
    decreases s.len(),
{
    if now - s[0] > window {
        assert(s.len() > 1);
        lemma_window_after_record(s.drop_first(), now, window);
        let k = choose|k: int|
            0 <= k < s.drop_first().len() && prune_front(s.drop_first(), now, window)
                == s.drop_first().skip(k);
        assert(s.drop_first().skip(k) == s.skip(k + 1));
    } else {
        assert(s.skip(0) == s);
    }
}

/// Timestamps of recent events, oldest first.
pub struct EventWindow {
    timestamps: VecDeque<i64>,
    window_ms: i64,
}

impl View for EventWindow {
    type V = Seq<i64>;

    closed spec fn view(&self) -> Seq<i64> {
        self.timestamps@
    }
}

impl EventWindow {
    /// The window length in milliseconds.
    pub closed spec fn spec_window(&self) -> i64 {
        self.window_ms
    }

    /// An empty window of `window_ms` milliseconds.
    pub fn new(window_ms: i64) -> (r: EventWindow)
        ensures
            r@ == Seq::<i64>::empty(),
            r.spec_window() == window_ms,
    {
        EventWindow { timestamps: VecDeque::new(), window_ms }
    }

    /// The number of events held.
    pub fn len(&self) -> (r: usize)
        ensures
            r == self@.len(),
    {
        self.timestamps.len()
    }

    /// Records an event at `timestamp`, then drops from the front the events
    /// more than the window before it.
    pub fn record(&mut self, timestamp: i64)
        ensures
            final(self).spec_window() == old(self).spec_window(),
            final(self)@ == prune_front(old(self)@.push(timestamp), timestamp, old(self).spec_window()),
    {
        let ghost pushed = self@.push(timestamp);
        self.timestamps.push_back(timestamp);
        let ghost mut k: int = 0;
        assert(pushed.skip(0) == pushed);
        while self.timestamps.len() > 0 && (timestamp as i128) - (self.timestamps[0] as i128) > (
        self.window_ms as i128)
            invariant
                0 <= k <= pushed.len(),
                self.timestamps@ == pushed.skip(k),
                self.window_ms == old(self).window_ms,
                prune_front(pushed, timestamp, self.window_ms) == prune_front(
                    pushed.skip(k),
                    timestamp,
                    self.window_ms,
                ),
            decreases self.timestamps@.len(),
        {
            proof {
                assert(pushed.skip(k)[0] == pushed[k]);
                assert(pushed.skip(k).drop_first() == pushed.skip(k + 1));
            }
            self.timestamps.pop_front();
            proof {
                k = k + 1;
            }
        }
    }
}

/// The repeated-price tracker's state after one more trade: the run grows
/// when the price equals the run's price, else a new run of one starts at
/// the trade's price.
pub open spec fn iceberg_step(state: (nat, Option<Decimal>), t: Trade) -> (nat, Option<Decimal>) {
    match state.1 {
        Some(p) => if t.price.val() == p.val() {
            ((state.0 + 1) as nat, state.1)
        } else {
            (1nat, Some(t.price))
        },
        None => (1nat, Some(t.price)),
    }
}

/// The tracker's state after trades in order.
pub open spec fn iceberg_after(state: (nat, Option<Decimal>), ts: Seq<Trade>) -> (
    nat,
    Option<Decimal>,
)
    decreases ts.len(),
{
    if ts.len() == 0 {
        state
    } else {
        iceberg_step(iceberg_after(state, ts.drop_last()), ts.last())
    }
}

/// The score, in percent, for a run of fills at one price: 100 from five
/// fills, 50 from three, else 0.
pub open spec fn iceberg_percent(run: nat) -> u8 {
    if run >= 5 {
        100
    } else if run >= 3 {
        50
    } else {
        0
    }
}

proof fn lemma_iceberg_run_bound(state: (nat, Option<Decimal>), ts: Seq<Trade>)
    ensures
        iceberg_after(state, ts).0 <= state.0 + ts.len(),
    decreases ts.len(),
{
    if ts.len() > 0 {
        lemma_iceberg_run_bound(state, ts.drop_last());
    }
}

/// After trades whose last `k` (`k >= 1`) are at one price value, the
/// tracker follows that price and its run is at least `k`; so the score is
/// at least 50 once three trades in a row share a price, and 100 once five
/// do. A trade at a price other than the tracked one restarts the run at
/// one, at the new price.
pub proof fn lemma_iceberg_run_of_equal_prices(
    state: (nat, Option<Decimal>),
    ts: Seq<Trade>,
    k: int,
)
    requires
        1 <= k <= ts.len(),
        forall|i: int|
            ts.len() - k <= i < ts.len() ==> (#[trigger] ts[i]).price.val() == ts.last().price.val(),
    ensures
        iceberg_after(state, ts).0 >= k,
        iceberg_after(state, ts).1 matches Some(p) && p.val() == ts.last().price.val(),
        k >= 3 ==> iceberg_percent(iceberg_after(state, ts).0) >= 50,
        k >= 5 ==> iceberg_percent(iceberg_after(state, ts).0) == 100,
    decreases k,
{
    let prev = iceberg_after(state, ts.drop_last());
    if k > 1 {
        assert forall|i: int|
            ts.drop_last().len() - (k - 1) <= i < ts.drop_last().len() implies (
            #[trigger] ts.drop_last()[i]).price.val() == ts.drop_last().last().price.val() by {
            assert(ts.drop_last()[i] == ts[i]);
            assert(ts.drop_last().last() == ts[ts.len() - 2]);
            assert(ts[ts.len() - 2].price.val() == ts.last().price.val());
            assert(ts[i].price.val() == ts.last().price.val());
        }
        lemma_iceberg_run_of_equal_prices(state, ts.drop_last(), k - 1);
        assert(ts.drop_last().last() == ts[ts.len() - 2]);
    }
}

/// The iceberg score is 0 for a run of fewer than three trades at one
/// price, 50 for three or four, and 100 from five.
pub proof fn lemma_iceberg_percent_thresholds(run: nat)
    ensures
        run < 3 ==> iceberg_percent(run) == 0,
        3 <= run < 5 ==> iceberg_percent(run) == 50,
        run >= 5 ==> iceberg_percent(run) == 100,
{
}

/// Pruning keeps a suffix of the items: at most `max` of them, as many as
/// that allows of those not dropped as stale; the oldest item the time rule
/// keeps is within the window of `now`.
pub proof fn lemma_prune_keeps_recent_suffix<T>(s: Seq<(i64, T)>, now: i64, window: i64, max: nat)
    ensures
        keep_last(drop_stale(s, now, window), max).len() <= max,
        keep_last(drop_stale(s, now, window), max).len() == if drop_stale(s, now, window).len()
            <= max {
            drop_stale(s, now, window).len()
        } else {
            max
        },
        exists|k: int|
            0 <= k <= s.len() && keep_last(drop_stale(s, now, window), max) == s.skip(k),
        drop_stale(s, now, window).len() > 0 ==> now - drop_stale(s, now, window)[0].0 <= window,
    decreases s.len(),
{
    lemma_drop_stale_suffix(s, now, window);
    let d = drop_stale(s, now, window);
    let k = choose|k: int| 0 <= k <= s.len() && d == s.skip(k);
    if d.len() > max {
        assert(d.skip(d.len() - max) == s.skip(k + d.len() - max));
    }
}

proof fn lemma_drop_stale_suffix<T>(s: Seq<(i64, T)>, now: i64, window: i64)
    ensures
        exists|k: int| 0 <= k <= s.len() && drop_stale(s, now, window) == s.skip(k),
        drop_stale(s, now, window).len() > 0 ==> now - drop_stale(s, now, window)[0].0 <= window,
    decreases s.len(),
{
    if s.len() > 0 && now - s[0].0 > window {
        lemma_drop_stale_suffix(s.drop_first(), now, window);
        let k = choose|k: int|
            0 <= k <= s.drop_first().len() && drop_stale(s.drop_first(), now, window)
                == s.drop_first().skip(k);
        assert(s.drop_first().skip(k) == s.skip(k + 1));
    } else {
        assert(s.skip(0) == s);
    }
}

/// A trade at a price value other than the tracked one starts a new run of
/// one at that trade's price.
pub proof fn lemma_iceberg_restart(state: (nat, Option<Decimal>), t: Trade)
    requires
        state.1 matches Some(p) ==> p.val() != t.price.val(),
    ensures
        iceberg_step(state, t) == (1nat, Some(t.price)),
{
}

/// Tracks runs of consecutive trades at one price.
pub struct IcebergTracker {
    same_side_fills: u32,
    last_fill_price: Option<Decimal>,
}

impl View for IcebergTracker {
    type V = (nat, Option<Decimal>);

    closed spec fn view(&self) -> (nat, Option<Decimal>) {
        (self.same_side_fills as nat, self.last_fill_price)
    }
}

impl IcebergTracker {
    /// No run yet.
    pub fn new() -> (r: IcebergTracker)
        ensures
            r@ == (0nat, None::<Decimal>),
    {
        IcebergTracker { same_side_fills: 0, last_fill_price: None }
    }

    /// The length of the current run.
    pub fn run_length(&self) -> (r: u32)
        ensures
            r == self@.0,
    {
        self.same_side_fills
    }

    /// Feeds the recent trades and returns the iceberg score in percent. With
    /// no trades the score is 0 and the state is kept; otherwise the trades
    /// extend or restart the run, and the score follows its length.
    pub fn observe(&mut self, recent_trades: &Vec<Trade>) -> (r: u8)
        requires
            old(self)@.0 + recent_trades@.len() <= u32::MAX,
        ensures
            recent_trades@.len() == 0 ==> r == 0 && final(self)@ == old(self)@,
            recent_trades@.len() > 0 ==> final(self)@ == iceberg_after(old(self)@, recent_trades@)
                && r == iceberg_percent(final(self)@.0),
    {
        if recent_trades.len() == 0 {
            return 0;
        }
        let ghost start = self@;
        let mut i: usize = 0;
        while i < recent_trades.len()
            invariant
                i <= recent_trades@.len(),
                start.0 + recent_trades@.len() <= u32::MAX,
                self@ == iceberg_after(start, recent_trades@.take(i as int)),
            decreases recent_trades@.len() - i,
        {
            proof {
                assert(recent_trades@.take(i + 1).drop_last() == recent_trades@.take(i as int));
                assert(recent_trades@.take(i + 1).last() == recent_trades@[i as int]);
                lemma_iceberg_run_bound(start, recent_trades@.take(i as int));
            }
            let price = recent_trades[i].price;
            match self.last_fill_price {
                Some(last) => {
                    if dec_eq(price, last) {
                        self.same_side_fills = self.same_side_fills + 1;
                    } else {
                        self.same_side_fills = 1;
                        self.last_fill_price = Some(price);
                    }
                },
                None => {
                    self.same_side_fills = 1;
                    self.last_fill_price = Some(price);
                },
            }
            i = i + 1;
        }
        assert(recent_trades@.take(recent_trades@.len() as int) == recent_trades@);
        if self.same_side_fills >= 5 {
            100
        } else if self.same_side_fills >= 3 {
            50
        } else {
            0
        }
    }
}

/// How far back the trade flow looks, in milliseconds.
pub const TRADE_FLOW_WINDOW_MS: i64 = 5000i64;

/// The most trades the trade flow keeps.
pub const MAX_TRADE_HISTORY: usize = 50usize;

/// Drops items from the front while their time is more than `window` before
/// `now`.
pub open spec fn drop_stale<T>(s: Seq<(i64, T)>, now: i64, window: i64) -> Seq<(i64, T)>
    decreases s.len(),
{
    if s.len() > 0 && now - s[0].0 > window {
        drop_stale(s.drop_first(), now, window)
    } else {
        s
    }
}

/// The last `max` items (all of them where there are no more).
pub open spec fn keep_last<T>(s: Seq<(i64, T)>, max: nat) -> Seq<(i64, T)> {
    if s.len() > max {
        s.skip(s.len() - max)
    } else {
        s
    }
}

/// Time-stamped items, oldest first, pruned on demand to a time window and a
/// maximum count.
pub struct TimedWindow<T> {
    items: VecDeque<(i64, T)>,
    window_ms: i64,
    max_len: usize,
}

impl<T> View for TimedWindow<T> {
    type V = Seq<(i64, T)>;

    closed spec fn view(&self) -> Seq<(i64, T)> {
        self.items@
    }
}

impl<T> TimedWindow<T> {
    /// The window length in milliseconds.
    pub closed spec fn spec_window(&self) -> i64 {
        self.window_ms
    }

    /// The most items kept.
    pub closed spec fn spec_max_len(&self) -> usize {
        self.max_len
    }

    /// An empty window of `window_ms` milliseconds keeping at most `max_len`
    /// items.
    pub fn new(window_ms: i64, max_len: usize) -> (r: TimedWindow<T>)
        ensures
            r@ == Seq::<(i64, T)>::empty(),
            r.spec_window() == window_ms,
            r.spec_max_len() == max_len,
    {
        TimedWindow { items: VecDeque::new(), window_ms, max_len }
    }

    /// The number of items held.
    pub fn len(&self) -> (r: usize)
        ensures
            r == self@.len(),
    {
        self.items.len()
    }

    /// The `i`-th item, oldest first.
    pub fn get(&self, i: usize) -> (r: &(i64, T))
        requires
            i < self@.len(),
        ensures
            *r == self@[i as int],
    {
        &self.items[i]
    }

    /// Appends an item stamped `timestamp`.
    pub fn push(&mut self, timestamp: i64, item: T)
        ensures
            final(self)@ == old(self)@.push((timestamp, item)),
            final(self).spec_window() == old(self).spec_window(),
            final(self).spec_max_len() == old(self).spec_max_len(),
    {
        self.items.push_back((timestamp, item));
    }

    /// Drops from the front the items more than the window before `now`,
    /// then the oldest items beyond the maximum count.
    pub fn prune(&mut self, now: i64)
        ensures
            final(self)@ == keep_last(
                drop_stale(old(self)@, now, old(self).spec_window()),
                old(self).spec_max_len() as nat,
            ),
            final(self).spec_window() == old(self).spec_window(),
            final(self).spec_max_len() == old(self).spec_max_len(),
    {
        let ghost start = self@;
        let ghost mut k: int = 0;
        assert(start.skip(0) == start);
        while self.items.len() > 0 && (now as i128) - (self.items[0].0 as i128) > (
        self.window_ms as i128)
            invariant
                0 <= k <= start.len(),
                self.items@ == start.skip(k),
                self.window_ms == old(self).window_ms,
                self.max_len == old(self).max_len,
                drop_stale(start, now, self.window_ms) == drop_stale(
                    start.skip(k),
                    now,
                    self.window_ms,
                ),
            decreases self.items@.len(),
        {
            proof {
                assert(start.skip(k)[0] == start[k]);
                assert(start.skip(k).drop_first() == start.skip(k + 1));
            }
            self.items.pop_front();
            proof {
                k = k + 1;
            }
        }
        let ghost fresh = self@;
        let ghost mut j: int = 0;
        assert(fresh.skip(0) == fresh);
        while self.items.len() > self.max_len
            invariant
                0 <= j <= fresh.len(),
                self.items@ == fresh.skip(j),
                fresh.len() > self.max_len ==> j <= fresh.len() - self.max_len,
                fresh.len() <= self.max_len ==> j == 0,
                self.window_ms == old(self).window_ms,
                self.max_len == old(self).max_len,
            decreases self.items@.len(),
        {
            proof {
                assert(fresh.skip(j).drop_first() == fresh.skip(j + 1));
            }
            self.items.pop_front();
            proof {
                j = j + 1;
            }
        }
        proof {
            if fresh.len() <= self.max_len {
                assert(fresh.skip(0) == fresh);
            }
        }
    }
}

} // verus!
