//! Order management: the orders this process placed, keyed by client order
//! id, and the fills the exchange reported, keyed by exchange order id.
//!
//! Exchange calls are made by the caller; the methods here take what the
//! exchange answered and keep the tables up to date.

use dashmap::DashMap;
use vstd::prelude::*;

use crate::clock::utc_now_millis;
use crate::decimal::{dec_checked_add, dec_lt, decimal_checked_add, Decimal};
use crate::exchange::types::{Fill, Order, OrderRequest, OrderStatus};
use crate::text::{push_char, str_equal};

verus! {

#[verifier::external_type_specification]
#[verifier::external_body]
#[verifier::reject_recursive_types(K)]
#[verifier::reject_recursive_types(V)]
#[verifier::reject_recursive_types(S)]
pub struct ExDashMap<K, V, S>(DashMap<K, V, S>);

/// Order state tracked by the order manager.
#[derive(Clone)]
pub struct OrderState {
    pub order: Order,
    pub request: OrderRequest,
    pub created_at: i64,
    pub last_update: i64,
}

/// The entries of an order table: client order id to state.
pub uninterp spec fn order_table(m: DashMap<String, OrderState>) -> Map<Seq<char>, OrderState>;

/// The entries of a fill table: exchange order id to its fills, oldest first.
pub uninterp spec fn fill_table(m: DashMap<String, Vec<Fill>>) -> Map<Seq<char>, Seq<Fill>>;

/// The texts of a sequence of strings.
pub open spec fn key_views(ks: Seq<String>) -> Seq<Seq<char>> {
    ks.map_values(|s: String| s@)
}

/// `ks` lists every key of `d` exactly once.
pub open spec fn enumerates(ks: Seq<Seq<char>>, d: Set<Seq<char>>) -> bool {
    &&& ks.no_duplicates()
    &&& forall|i: int| 0 <= i < ks.len() ==> d.contains(#[trigger] ks[i])
    &&& forall|k: Seq<char>| d.contains(k) ==> ks.contains(k)
}

/// Calls `DashMap::new`: an empty table.
#[verifier::external_body]
fn order_table_new() -> (r: DashMap<String, OrderState>)
    ensures
        order_table(r) =~= Map::empty(),
{
    DashMap::new()
}

/// Calls `DashMap::insert`: the key now maps to the value, the other entries
/// stay.
#[verifier::external_body]
fn order_table_insert(m: &mut DashMap<String, OrderState>, key: String, value: OrderState)
    ensures
        order_table(*final(m)) == order_table(*old(m)).insert(key@, value),
{
    m.insert(key, value);
}

/// Calls `DashMap::get` and clones the entry found.
#[verifier::external_body]
fn order_table_get(m: &DashMap<String, OrderState>, key: &str) -> (r: Option<OrderState>)
    ensures
        order_table(*m).contains_key(key@) ==> r == Some(order_table(*m)[key@]),
        !order_table(*m).contains_key(key@) ==> r is None,
{
    m.get(key).map(|e| e.value().clone())
}

/// Calls `DashMap::iter` and clones each key: every key once, in an order
/// that is not stated.
#[verifier::external_body]
fn order_table_keys(m: &DashMap<String, OrderState>) -> (r: Vec<String>)
    ensures
        r@.len() == order_table(*m).dom().len(),
        enumerates(key_views(r@), order_table(*m).dom()),
{
    m.iter().map(|e| e.key().clone()).collect()
}

/// Calls `DashMap::new`: an empty table.
#[verifier::external_body]
fn fill_table_new() -> (r: DashMap<String, Vec<Fill>>)
    ensures
        fill_table(r) =~= Map::empty(),
{
    DashMap::new()
}

/// Calls `DashMap::insert`: the key now maps to the fills, the other entries
/// stay.
#[verifier::external_body]
fn fill_table_insert(m: &mut DashMap<String, Vec<Fill>>, key: String, value: Vec<Fill>)
    ensures
        fill_table(*final(m)) == fill_table(*old(m)).insert(key@, value@),
{
    m.insert(key, value);
}

/// Calls `DashMap::get` and clones the fills found.
#[verifier::external_body]
fn fill_table_get(m: &DashMap<String, Vec<Fill>>, key: &str) -> (r: Option<Vec<Fill>>)
    ensures
        fill_table(*m).contains_key(key@) ==> (r is Some && r->0@ == fill_table(*m)[key@]),
        !fill_table(*m).contains_key(key@) ==> r is None,
{
    m.get(key).map(|e| e.value().clone())
}

/// Calls `DashMap::iter` and clones each key: every key once, in an order
/// that is not stated.
#[verifier::external_body]
fn fill_table_keys(m: &DashMap<String, Vec<Fill>>) -> (r: Vec<String>)
    ensures
        r@.len() == fill_table(*m).dom().len(),
        enumerates(key_views(r@), fill_table(*m).dom()),
{
    m.iter().map(|e| e.key().clone()).collect()
}

/// Hex digits as `uuid` writes them.
pub open spec fn is_lower_hex(c: char) -> bool {
    ('0' <= c && c <= '9') || ('a' <= c && c <= 'f')
}

/// The hyphenated lower-case text of a version-4 UUID.
pub open spec fn is_uuid_v4_text(s: Seq<char>) -> bool {
    &&& s.len() == 36
    &&& forall|i: int|
        0 <= i < 36 ==> if i == 8 || i == 13 || i == 18 || i == 23 {
            s[i] == '-'
        } else {
            is_lower_hex(#[trigger] s[i])
        }
    &&& s[14] == '4'
}

/// Calls `uuid::Uuid::new_v4().to_string()`. The value is random; claimed is
/// only its shape: 36 characters, hyphens at positions 8, 13, 18 and 23,
/// lower-case hex digits elsewhere, and the version digit `4` at position 14.
#[verifier::external_body]
fn new_uuid_v4_text() -> (r: String)
    ensures
        is_uuid_v4_text(r@),
{
    uuid::Uuid::new_v4().to_string()
}

/// Order statistics.
#[derive(Debug, Clone)]
pub struct OMSStats {
    pub total_orders: usize,
    pub active_orders: usize,
    pub filled_orders: usize,
    pub partially_filled_orders: usize,
    pub cancelled_orders: usize,
    pub total_fills: usize,
}

/// Order Management System.
pub struct OMS {
    orders: DashMap<String, OrderState>,
    fills: DashMap<String, Vec<Fill>>,
}

/// The orders table and the fills table.
pub type OmsView = (Map<Seq<char>, OrderState>, Map<Seq<char>, Seq<Fill>>);

impl View for OMS {
    type V = OmsView;

    closed spec fn view(&self) -> OmsView {
        (order_table(self.orders), fill_table(self.fills))
    }
}

/// The fill's trade was already recorded for its order.
pub open spec fn fill_seen(fills: Map<Seq<char>, Seq<Fill>>, f: Fill) -> bool {
    fills.contains_key(f.order_id@) && exists|j: int|
        0 <= j < fills[f.order_id@].len() && (#[trigger] fills[f.order_id@][j]).trade_id@
            == f.trade_id@
}

/// The fills recorded for an order id (none when absent).
pub open spec fn fills_for(fills: Map<Seq<char>, Seq<Fill>>, order_id: Seq<char>) -> Seq<Fill> {
    if fills.contains_key(order_id) {
        fills[order_id]
    } else {
        Seq::empty()
    }
}

/// The status after a fill: filled once the filled quantity reaches the
/// order quantity, partially filled while it is above zero, else unchanged.
pub open spec fn status_after_fill(
    filled: Decimal,
    quantity: Decimal,
    status: OrderStatus,
) -> OrderStatus {
    if filled.val() >= quantity.val() {
        OrderStatus::Filled
    } else if filled.val() > 0 {
        OrderStatus::PartiallyFilled
    } else {
        status
    }
}

/// An order state after one more fill at time `now`; `None` where adding the
/// quantity overflows.
pub open spec fn state_after_fill(st: OrderState, f: Fill, now: i64) -> Option<OrderState> {
    match decimal_checked_add(st.order.filled_quantity, f.quantity) {
        Some(filled) => Some(
            OrderState {
                order: Order {
                    filled_quantity: filled,
                    status: status_after_fill(filled, st.order.quantity, st.order.status),
                    ..st.order
                },
                last_update: now,
                ..st
            },
        ),
        None => None,
    }
}

/// The tables after processing one fill at time `now`: a fill whose trade is
/// already recorded changes nothing; otherwise it is appended to its order's
/// fills and, if its client order id is tracked, that order's filled
/// quantity and status are updated. `None` where the quantity overflows.
pub open spec fn apply_fill_spec(v: OmsView, f: Fill, now: i64) -> Option<OmsView> {
    if fill_seen(v.1, f) {
        Some(v)
    } else {
        let fills = v.1.insert(f.order_id@, fills_for(v.1, f.order_id@).push(f));
        if v.0.contains_key(f.client_order_id@) {
            match state_after_fill(v.0[f.client_order_id@], f, now) {
                Some(st) => Some((v.0.insert(f.client_order_id@, st), fills)),
                None => None,
            }
        } else {
            Some((v.0, fills))
        }
    }
}

/// The tables after processing `fills` in order, the `i`-th at time `nows[i]`.
pub open spec fn apply_fills_spec(v: OmsView, fills: Seq<Fill>, nows: Seq<i64>) -> Option<OmsView>
    decreases fills.len(),
{
    if fills.len() == 0 {
        Some(v)
    } else {
        match apply_fills_spec(v, fills.drop_last(), nows.drop_last()) {
            Some(w) => apply_fill_spec(w, fills.last(), nows.last()),
            None => None,
        }
    }
}

/// The fills among `fills` that processing records (those not seen before,
/// counting the ones recorded earlier in the same batch), in order.
pub open spec fn stored_fills(fm: Map<Seq<char>, Seq<Fill>>, fills: Seq<Fill>) -> Seq<Fill>
    decreases fills.len(),
{
    if fills.len() == 0 {
        Seq::empty()
    } else {
        let prev = stored_fills(fm, fills.drop_last());
        if fill_seen(fill_map_after(fm, fills.drop_last()), fills.last()) {
            prev
        } else {
            prev.push(fills.last())
        }
    }
}

/// The fill table after processing `fills`.
pub open spec fn fill_map_after(fm: Map<Seq<char>, Seq<Fill>>, fills: Seq<Fill>) -> Map<
    Seq<char>,
    Seq<Fill>,
>
    decreases fills.len(),
{
    if fills.len() == 0 {
        fm
    } else {
        let prev = fill_map_after(fm, fills.drop_last());
        let f = fills.last();
        if fill_seen(prev, f) {
            prev
        } else {
            prev.insert(f.order_id@, fills_for(prev, f.order_id@).push(f))
        }
    }
}

/// Every order is stored under its own client order id.
pub open spec fn orders_keyed_by_client_id(orders: Map<Seq<char>, OrderState>) -> bool {
    forall|k: Seq<char>| #[trigger] orders.contains_key(k) ==> orders[k].order.client_order_id@ == k
}


/// An order state marked cancelled at time `now`.
pub open spec fn cancelled_state(st: OrderState, now: i64) -> OrderState {
    OrderState { order: Order { status: OrderStatus::Cancelled, ..st.order }, last_update: now, ..st }
}

/// The orders table after the exchange reported `orders` (the `i`-th at time
/// `nows[i]`): each order whose client order id is tracked replaces the
/// tracked order; the others are ignored.
pub open spec fn sync_spec(
    m: Map<Seq<char>, OrderState>,
    orders: Seq<Order>,
    nows: Seq<i64>,
) -> Map<Seq<char>, OrderState>
    decreases orders.len(),
{
    if orders.len() == 0 {
        m
    } else {
        let prev = sync_spec(m, orders.drop_last(), nows.drop_last());
        let o = orders.last();
        if prev.contains_key(o.client_order_id@) {
            prev.insert(
                o.client_order_id@,
                OrderState { order: o, last_update: nows.last(), ..prev[o.client_order_id@] },
            )
        } else {
            prev
        }
    }
}

/// The number of listed keys whose order has the status.
pub open spec fn count_status(
    ks: Seq<Seq<char>>,
    m: Map<Seq<char>, OrderState>,
    status: OrderStatus,
) -> nat
    decreases ks.len(),
{
    if ks.len() == 0 {
        0
    } else {
        count_status(ks.drop_last(), m, status) + if m[ks.last()].order.status == status {
            1nat
        } else {
            0nat
        }
    }
}

/// The number of fills recorded under the listed keys.
pub open spec fn count_fills(ks: Seq<Seq<char>>, m: Map<Seq<char>, Seq<Fill>>) -> nat
    decreases ks.len(),
{
    if ks.len() == 0 {
        0
    } else {
        count_fills(ks.drop_last(), m) + m[ks.last()].len()
    }
}

/// The sum of `w` over the listed keys.
pub open spec fn sum_over(ks: Seq<Seq<char>>, w: spec_fn(Seq<char>) -> nat) -> nat
    decreases ks.len(),
{
    if ks.len() == 0 {
        0
    } else {
        sum_over(ks.drop_last(), w) + w(ks.last())
    }
}

/// The number of states with the status.
pub open spec fn count_states(a: Seq<OrderState>, status: OrderStatus) -> nat
    decreases a.len(),
{
    if a.len() == 0 {
        0
    } else {
        count_states(a.drop_last(), status) + if a.last().order.status == status {
            1nat
        } else {
            0nat
        }
    }
}

proof fn lemma_sum_concat(a: Seq<Seq<char>>, b: Seq<Seq<char>>, w: spec_fn(Seq<char>) -> nat)
    ensures
        sum_over(a + b, w) == sum_over(a, w) + sum_over(b, w),
    decreases b.len(),
{
    if b.len() == 0 {
        assert(a + b == a);
    } else {
        assert((a + b).drop_last() == a + b.drop_last());
        lemma_sum_concat(a, b.drop_last(), w);
    }
}

/// Two listings without repeats of the same keys give the same sum.
proof fn lemma_sum_any_listing(ks1: Seq<Seq<char>>, ks2: Seq<Seq<char>>, w: spec_fn(Seq<char>) -> nat)
    requires
        ks1.no_duplicates(),
        ks2.no_duplicates(),
        forall|k: Seq<char>| ks1.contains(k) <==> ks2.contains(k),
    ensures
        sum_over(ks1, w) == sum_over(ks2, w),
    decreases ks1.len(),
{
    if ks1.len() == 0 {
        if ks2.len() > 0 {
            assert(ks2.contains(ks2[0]));
        }
    } else {
        let k = ks1.last();
        assert(ks1.contains(k));
        let i = choose|i: int| 0 <= i < ks2.len() && ks2[i] == k;
        let a = ks2.subrange(0, i);
        let b = ks2.subrange(i + 1, ks2.len() as int);
        let rest1 = ks1.drop_last();
        let rest2 = a + b;
        assert(ks2 == a + (seq![k] + b));
        assert forall|x: Seq<char>| rest1.contains(x) <==> rest2.contains(x) by {
            if rest1.contains(x) {
                let j = choose|j: int| 0 <= j < rest1.len() && rest1[j] == x;
                assert(ks1[j] == x);
                assert(x != k);
                assert(ks1.contains(x));
                let l = choose|l: int| 0 <= l < ks2.len() && ks2[l] == x;
                if l < i {
                    assert(rest2[l] == x);
                } else {
                    assert(l != i);
                    assert(rest2[l - 1] == x);
                }
            }
            if rest2.contains(x) {
                let l = choose|l: int| 0 <= l < rest2.len() && rest2[l] == x;
                let l2 = if l < i { l } else { l + 1 };
                assert(ks2[l2] == x);
                assert(l2 != i);
                assert(ks2.contains(x));
                let j = choose|j: int| 0 <= j < ks1.len() && ks1[j] == x;
                assert(j != ks1.len() - 1);
                assert(rest1[j] == x);
            }
        }
        assert(rest2.no_duplicates()) by {
            assert forall|p: int, q: int| 0 <= p < rest2.len() && 0 <= q < rest2.len() && p != q
                implies rest2[p] != rest2[q] by {
                let p2 = if p < i { p } else { p + 1 };
                let q2 = if q < i { q } else { q + 1 };
                assert(rest2[p] == ks2[p2]);
                assert(rest2[q] == ks2[q2]);
            }
        }
        lemma_sum_any_listing(rest1, rest2, w);
        lemma_sum_concat(a, seq![k] + b, w);
        lemma_sum_concat(seq![k], b, w);
        lemma_sum_concat(a, b, w);
        assert(seq![k].drop_last() == Seq::<Seq<char>>::empty());
        assert(sum_over(seq![k], w) == w(k)) by {
            let one = seq![k];
            assert(one.len() == 1);
            assert(one.last() == k);
            assert(one.drop_last() =~= Seq::<Seq<char>>::empty());
            assert(sum_over(one.drop_last(), w) == 0);
        }
        assert(sum_over(ks1, w) == sum_over(rest1, w) + w(k));
        assert(sum_over(ks2, w) == sum_over(a, w) + w(k) + sum_over(b, w));
    }
}

/// The status count is the sum of a zero-one weight.
proof fn lemma_count_status_sum(ks: Seq<Seq<char>>, m: Map<Seq<char>, OrderState>, status: OrderStatus)
    ensures
        count_status(ks, m, status) == sum_over(
            ks,
            |k: Seq<char>| if m[k].order.status == status { 1nat } else { 0nat },
        ),
    decreases ks.len(),
{
    if ks.len() > 0 {
        lemma_count_status_sum(ks.drop_last(), m, status);
    }
}

/// The fill count is the sum of the list lengths.
proof fn lemma_count_fills_sum(ks: Seq<Seq<char>>, m: Map<Seq<char>, Seq<Fill>>)
    ensures
        count_fills(ks, m) == sum_over(ks, |k: Seq<char>| m[k].len()),
    decreases ks.len(),
{
    if ks.len() > 0 {
        lemma_count_fills_sum(ks.drop_last(), m);
    }
}

/// Counting orders by status gives the same number for every listing of the
/// orders' keys.
pub proof fn lemma_count_status_any_listing(
    ks1: Seq<Seq<char>>,
    ks2: Seq<Seq<char>>,
    m: Map<Seq<char>, OrderState>,
    status: OrderStatus,
)
    requires
        enumerates(ks1, m.dom()),
        enumerates(ks2, m.dom()),
    ensures
        count_status(ks1, m, status) == count_status(ks2, m, status),
{
    assert forall|k: Seq<char>| ks1.contains(k) <==> ks2.contains(k) by {
        if ks1.contains(k) {
            let j = choose|j: int| 0 <= j < ks1.len() && ks1[j] == k;
            assert(m.dom().contains(ks1[j]));
        }
        if ks2.contains(k) {
            let j = choose|j: int| 0 <= j < ks2.len() && ks2[j] == k;
            assert(m.dom().contains(ks2[j]));
        }
    }
    lemma_count_status_sum(ks1, m, status);
    lemma_count_status_sum(ks2, m, status);
    lemma_sum_any_listing(
        ks1,
        ks2,
        |k: Seq<char>| if m[k].order.status == status { 1nat } else { 0nat },
    );
}

/// Counting fills gives the same number for every listing of the fill
/// table's keys.
pub proof fn lemma_count_fills_any_listing(
    ks1: Seq<Seq<char>>,
    ks2: Seq<Seq<char>>,
    m: Map<Seq<char>, Seq<Fill>>,
)
    requires
        enumerates(ks1, m.dom()),
        enumerates(ks2, m.dom()),
    ensures
        count_fills(ks1, m) == count_fills(ks2, m),
{
    assert forall|k: Seq<char>| ks1.contains(k) <==> ks2.contains(k) by {
        if ks1.contains(k) {
            let j = choose|j: int| 0 <= j < ks1.len() && ks1[j] == k;
            assert(m.dom().contains(ks1[j]));
        }
        if ks2.contains(k) {
            let j = choose|j: int| 0 <= j < ks2.len() && ks2[j] == k;
            assert(m.dom().contains(ks2[j]));
        }
    }
    lemma_count_fills_sum(ks1, m);
    lemma_count_fills_sum(ks2, m);
    lemma_sum_any_listing(ks1, ks2, |k: Seq<char>| m[k].len());
}

/// The order states listed in key order: as many as there are orders, and
/// as many with each status as the count over the keys.
pub proof fn lemma_listed_states_match_counts(
    m: Map<Seq<char>, OrderState>,
    ks: Seq<Seq<char>>,
    a: Seq<OrderState>,
    status: OrderStatus,
)
    requires
        enumerates(ks, m.dom()),
        a.len() == ks.len(),
        forall|i: int| 0 <= i < ks.len() ==> a[i] == m[#[trigger] ks[i]],
    ensures
        a.len() == m.dom().len(),
        count_states(a, status) == count_status(ks, m, status),
    decreases ks.len(),
{
    assert(ks.to_set() =~= m.dom()) by {
        assert forall|k: Seq<char>| ks.to_set().contains(k) implies m.dom().contains(k) by {
            let j = choose|j: int| 0 <= j < ks.len() && ks[j] == k;
        }
    }
    ks.unique_seq_to_set();
    lemma_states_match_status(m, ks, a, status);
}

proof fn lemma_states_match_status(
    m: Map<Seq<char>, OrderState>,
    ks: Seq<Seq<char>>,
    a: Seq<OrderState>,
    status: OrderStatus,
)
    requires
        a.len() == ks.len(),
        forall|i: int| 0 <= i < ks.len() ==> a[i] == m[#[trigger] ks[i]],
    ensures
        count_states(a, status) == count_status(ks, m, status),
    decreases ks.len(),
{
    if ks.len() > 0 {
        assert forall|i: int| 0 <= i < ks.drop_last().len() implies a.drop_last()[i] == m[
            #[trigger] ks.drop_last()[i]
        ] by {
            assert(ks.drop_last()[i] == ks[i]);
        }
        lemma_states_match_status(m, ks.drop_last(), a.drop_last(), status);
        assert(a.last() == m[ks.last()]) by {
            assert(ks.last() == ks[ks.len() - 1]);
        }
    }
}

/// A prefix of a batch that can be processed can be processed.
proof fn lemma_apply_fills_prefix(v: OmsView, fills: Seq<Fill>, nows: Seq<i64>, n: int)
    requires
        0 <= n <= fills.len(),
        nows.len() == fills.len(),
        apply_fills_spec(v, fills, nows) is Some,
    ensures
        apply_fills_spec(v, fills.take(n), nows.take(n)) is Some,
    decreases fills.len() - n,
{
    if n < fills.len() {
        lemma_apply_fills_prefix(v, fills.drop_last(), nows.drop_last(), n);
        assert(fills.drop_last().take(n) == fills.take(n));
        assert(nows.drop_last().take(n) == nows.take(n));
    } else {
        assert(fills.take(n) == fills);
        assert(nows.take(n) == nows);
    }
}

/// Once a batch cannot be processed, neither can a longer one.
proof fn lemma_apply_fills_none_extends(v: OmsView, fills: Seq<Fill>, nows: Seq<i64>, n: int)
    requires
        0 <= n <= fills.len(),
        nows.len() == fills.len(),
        apply_fills_spec(v, fills.take(n), nows.take(n)) is None,
    ensures
        apply_fills_spec(v, fills, nows) is None,
    decreases fills.len() - n,
{
    if n < fills.len() {
        assert(fills.drop_last().take(n) == fills.take(n));
        assert(nows.drop_last().take(n) == nows.take(n));
        lemma_apply_fills_none_extends(v, fills.drop_last(), nows.drop_last(), n);
    } else {
        assert(fills.take(n) == fills);
        assert(nows.take(n) == nows);
    }
}

/// A fill, once processed, is recorded for its order.
pub proof fn lemma_fill_recorded(v: OmsView, f: Fill, now: i64)
    requires
        apply_fill_spec(v, f, now) is Some,
    ensures
        fill_seen((apply_fill_spec(v, f, now)->0).1, f),
{
    if !fill_seen(v.1, f) {
        let w = apply_fill_spec(v, f, now)->0;
        let list = fills_for(v.1, f.order_id@).push(f);
        assert(w.1[f.order_id@] == list);
        assert(list[list.len() - 1].trade_id@ == f.trade_id@);
    }
}

/// Processing a fill again changes nothing: fills are counted once, however
/// often the exchange reports them.
pub proof fn lemma_fill_idempotent(v: OmsView, f: Fill, t1: i64, t2: i64)
    requires
        apply_fill_spec(v, f, t1) is Some,
    ensures
        apply_fill_spec(apply_fill_spec(v, f, t1)->0, f, t2) == apply_fill_spec(v, f, t1),
{
    lemma_fill_recorded(v, f, t1);
}

/// A new fill for a tracked order adds its quantity to the order's filled
/// quantity and sets the status from the result; other orders are unchanged.
pub proof fn lemma_fill_updates_order(v: OmsView, f: Fill, now: i64, k: Seq<char>)
    requires
        apply_fill_spec(v, f, now) is Some,
        !fill_seen(v.1, f),
        v.0.contains_key(k),
    ensures
        k == f.client_order_id@ ==> ({
            let st = (apply_fill_spec(v, f, now)->0).0[k];
            &&& Some(st.order.filled_quantity) == decimal_checked_add(
                v.0[k].order.filled_quantity,
                f.quantity,
            )
            &&& st.order.status == status_after_fill(
                st.order.filled_quantity,
                v.0[k].order.quantity,
                v.0[k].order.status,
            )
            &&& st.order.quantity == v.0[k].order.quantity
            &&& st.last_update == now
        }),
        k != f.client_order_id@ ==> (apply_fill_spec(v, f, now)->0).0[k] == v.0[k],
{
}

/// Processing a fill keeps every fill already recorded.
proof fn lemma_seen_persists(v: OmsView, f: Fill, now: i64, g: Fill)
    requires
        apply_fill_spec(v, f, now) is Some,
        fill_seen(v.1, g),
    ensures
        fill_seen((apply_fill_spec(v, f, now)->0).1, g),
{
    if !fill_seen(v.1, f) {
        let w = apply_fill_spec(v, f, now)->0;
        let j = choose|j: int|
            0 <= j < v.1[g.order_id@].len() && (#[trigger] v.1[g.order_id@][j]).trade_id@
                == g.trade_id@;
        if g.order_id@ == f.order_id@ {
            assert(w.1[g.order_id@][j] == v.1[g.order_id@][j]);
        } else {
            assert(w.1[g.order_id@] == v.1[g.order_id@]);
        }
    }
}

/// After a batch is processed, every fill of the batch is recorded.
proof fn lemma_batch_recorded(v: OmsView, fills: Seq<Fill>, nows: Seq<i64>)
    requires
        apply_fills_spec(v, fills, nows) is Some,
    ensures
        forall|i: int|
            0 <= i < fills.len() ==> fill_seen(
                (apply_fills_spec(v, fills, nows)->0).1,
                #[trigger] fills[i],
            ),
    decreases fills.len(),
{
    if fills.len() > 0 {
        let prev = apply_fills_spec(v, fills.drop_last(), nows.drop_last())->0;
        lemma_batch_recorded(v, fills.drop_last(), nows.drop_last());
        lemma_fill_recorded(prev, fills.last(), nows.last());
        assert forall|i: int| 0 <= i < fills.len() implies fill_seen(
            (apply_fills_spec(v, fills, nows)->0).1,
            #[trigger] fills[i],
        ) by {
            if i < fills.len() - 1 {
                assert(fills.drop_last()[i] == fills[i]);
                lemma_seen_persists(prev, fills.last(), nows.last(), fills[i]);
            }
        }
    }
}

/// A batch whose fills are all recorded changes nothing and records nothing.
proof fn lemma_seen_batch_unchanged(w: OmsView, fills: Seq<Fill>, nows: Seq<i64>)
    requires
        forall|i: int| 0 <= i < fills.len() ==> fill_seen(w.1, #[trigger] fills[i]),
    ensures
        apply_fills_spec(w, fills, nows) == Some(w),
        fill_map_after(w.1, fills) == w.1,
        stored_fills(w.1, fills) == Seq::<Fill>::empty(),
    decreases fills.len(),
{
    if fills.len() > 0 {
        assert forall|i: int| 0 <= i < fills.drop_last().len() implies fill_seen(
            w.1,
            #[trigger] fills.drop_last()[i],
        ) by {
            assert(fills.drop_last()[i] == fills[i]);
        }
        lemma_seen_batch_unchanged(w, fills.drop_last(), nows.drop_last());
        assert(fill_seen(w.1, fills[fills.len() - 1]));
    }
}

/// Processing a batch of fills again changes nothing and records nothing,
/// whatever the clock reads: fills are counted once, however often the
/// exchange reports them.
pub proof fn lemma_fills_idempotent(
    v: OmsView,
    fills: Seq<Fill>,
    nows1: Seq<i64>,
    nows2: Seq<i64>,
)
    requires
        apply_fills_spec(v, fills, nows1) is Some,
    ensures
        apply_fills_spec(apply_fills_spec(v, fills, nows1)->0, fills, nows2) == apply_fills_spec(
            v,
            fills,
            nows1,
        ),
        stored_fills((apply_fills_spec(v, fills, nows1)->0).1, fills) == Seq::<Fill>::empty(),
{
    let w = apply_fills_spec(v, fills, nows1)->0;
    lemma_batch_recorded(v, fills, nows1);
    lemma_seen_batch_unchanged(w, fills, nows2);
}

/// After a fill, an order whose filled quantity reaches its quantity is
/// filled; one with a filled quantity above zero but below its quantity is
/// partially filled; otherwise its status is kept.
pub proof fn lemma_status_after_fill_thresholds(
    filled: Decimal,
    quantity: Decimal,
    status: OrderStatus,
)
    ensures
        filled.val() >= quantity.val() ==> status_after_fill(filled, quantity, status)
            == OrderStatus::Filled,
        0 < filled.val() < quantity.val() ==> status_after_fill(filled, quantity, status)
            == OrderStatus::PartiallyFilled,
        filled.val() <= 0 && filled.val() < quantity.val() ==> status_after_fill(
            filled,
            quantity,
            status,
        ) == status,
{
}

/// Reading after recording: the state of an order recorded under its client
/// order id is what was recorded; other orders are unchanged.
pub proof fn lemma_record_then_read(
    orders: Map<Seq<char>, OrderState>,
    state: OrderState,
    k: Seq<char>,
)
    ensures
        orders.insert(state.order.client_order_id@, state)[state.order.client_order_id@] == state,
        k != state.order.client_order_id@ ==> (orders.insert(
            state.order.client_order_id@,
            state,
        ).contains_key(k) == orders.contains_key(k) && orders.insert(
            state.order.client_order_id@,
            state,
        )[k] == orders[k]),
{
}

/// The orders counted as new, filled, partially filled and cancelled are
/// together at most all the orders listed.
pub proof fn lemma_status_counts_bounded(ks: Seq<Seq<char>>, m: Map<Seq<char>, OrderState>)
    ensures
        count_status(ks, m, OrderStatus::New) + count_status(ks, m, OrderStatus::Filled)
            + count_status(ks, m, OrderStatus::PartiallyFilled) + count_status(
            ks,
            m,
            OrderStatus::Cancelled,
        ) <= ks.len(),
    decreases ks.len(),
{
    if ks.len() > 0 {
        lemma_status_counts_bounded(ks.drop_last(), m);
    }
}

/// Whether the trade id occurs among the fills.
fn contains_trade(list: &Vec<Fill>, trade_id: &String) -> (r: bool)
    ensures
        r == exists|j: int| 0 <= j < list@.len() && (#[trigger] list@[j]).trade_id@ == trade_id@,
{
    let mut i: usize = 0;
    while i < list.len()
        invariant
            i <= list@.len(),
            forall|j: int| 0 <= j < i ==> (#[trigger] list@[j]).trade_id@ != trade_id@,
        decreases list@.len() - i,
    {
        if list[i].trade_id == *trade_id {
            return true;
        }
        i = i + 1;
    }
    false
}

impl OMS {
    /// The orders are stored under their client order ids.
    #[verifier::type_invariant]
    spec fn keyed_by_client_id(self) -> bool {
        orders_keyed_by_client_id(order_table(self.orders))
    }

    /// The orders are stored under their client order ids.
    spec fn wf(&self) -> bool {
        orders_keyed_by_client_id(self@.0)
    }

    /// Stores an order state under its client order id.
    fn insert_order(&mut self, key: String, state: OrderState)
        requires
            key@ == state.order.client_order_id@,
        ensures
            final(self)@.0 == old(self)@.0.insert(key@, state),
            final(self)@.1 == old(self)@.1,
    {
        proof {
            use_type_invariant(&*self);
        }
        let mut orders = order_table_new();
        std::mem::swap(&mut orders, &mut self.orders);
        order_table_insert(&mut orders, key, state);
        self.orders = orders;
    }

    /// Stores the fills of an exchange order id.
    fn insert_fills(&mut self, key: String, fills: Vec<Fill>)
        ensures
            final(self)@.1 == old(self)@.1.insert(key@, fills@),
            final(self)@.0 == old(self)@.0,
    {
        proof {
            use_type_invariant(&*self);
        }
        let mut table = fill_table_new();
        std::mem::swap(&mut table, &mut self.fills);
        fill_table_insert(&mut table, key, fills);
        self.fills = table;
    }

    /// An order manager with no orders and no fills.
    pub fn new() -> (r: OMS)
        ensures
            r@.0 == Map::<Seq<char>, OrderState>::empty(),
            r@.1 == Map::<Seq<char>, Seq<Fill>>::empty(),
    {
        OMS { orders: order_table_new(), fills: fill_table_new() }
    }

    /// Processes one fill reported at time `now` (see `apply_fill_spec`);
    /// returns whether the fill was new and so recorded.
    pub fn apply_fill(&mut self, fill: Fill, now: i64) -> (stored: bool)
        requires
            apply_fill_spec(old(self)@, fill, now) is Some,
        ensures
            Some(final(self)@) == apply_fill_spec(old(self)@, fill, now),
            stored == !fill_seen(old(self)@.1, fill),
    {
        proof {
            use_type_invariant(&*self);
        }
        let existing = fill_table_get(&self.fills, fill.order_id.as_str());
        let seen = match &existing {
            Some(list) => contains_trade(list, &fill.trade_id),
            None => false,
        };
        if seen {
            return false;
        }
        let mut list = match existing {
            Some(l) => l,
            None => Vec::new(),
        };
        list.push(fill.duplicate());
        self.insert_fills(fill.order_id.clone(), list);
        match order_table_get(&self.orders, fill.client_order_id.as_str()) {
            Some(st) => {
                let filled = match dec_checked_add(st.order.filled_quantity, fill.quantity) {
                    Some(q) => q,
                    None => {
                        return true;
                    },
                };
                let status = if !dec_lt(filled, st.order.quantity) {
                    OrderStatus::Filled
                } else if filled.is_positive() {
                    OrderStatus::PartiallyFilled
                } else {
                    st.order.status
                };
                let new_state = OrderState {
                    order: Order { filled_quantity: filled, status, ..st.order },
                    last_update: now,
                    ..st
                };
                self.insert_order(fill.client_order_id.clone(), new_state);
            },
            None => {},
        }
        true
    }
    /// Processes the fills the exchange reported, in order (see
    /// `apply_fill_spec`), reading the clock for each; returns the fills that
    /// were new and so recorded.
    pub fn process_fills(&mut self, fills: Vec<Fill>) -> (stored: Vec<Fill>)
        requires
            forall|nows: Seq<i64>|
                nows.len() == fills@.len() ==> #[trigger] apply_fills_spec(
                    old(self)@,
                    fills@,
                    nows,
                ) is Some,
        ensures
            exists|nows: Seq<i64>|
                nows.len() == fills@.len() && apply_fills_spec(old(self)@, fills@, nows) == Some(
                    final(self)@,
                ),
            stored@ == stored_fills(old(self)@.1, fills@),
    {
        proof {
            use_type_invariant(&*self);
        }
        let ghost v0 = self@;
        let ghost mut nows: Seq<i64> = Seq::empty();
        let mut stored: Vec<Fill> = Vec::new();
        let n = fills.len();
        let mut i: usize = 0;
        assert(fills@.take(0) == Seq::<Fill>::empty());
        while i < n
            invariant
                n == fills@.len(),
                i <= n,
                self.wf(),
                nows.len() == i,
                forall|ns: Seq<i64>|
                    ns.len() == fills@.len() ==> #[trigger] apply_fills_spec(v0, fills@, ns) is Some,
                apply_fills_spec(v0, fills@.take(i as int), nows) == Some(self@),
                self@.1 == fill_map_after(v0.1, fills@.take(i as int)),
                stored@ == stored_fills(v0.1, fills@.take(i as int)),
            decreases n - i,
        {
            let now = utc_now_millis();
            let ghost full = nows.push(now) + Seq::new((n - i - 1) as nat, |j: int| 0i64);
            proof {
                assert(full.len() == fills@.len());
                assert(apply_fills_spec(v0, fills@, full) is Some);
                lemma_apply_fills_prefix(v0, fills@, full, i + 1);
                assert(full.take(i + 1) == nows.push(now));
                assert(fills@.take(i + 1).drop_last() == fills@.take(i as int));
                assert(nows.push(now).drop_last() == nows);
            }
            let fill = fills[i].duplicate();
            let is_new = self.apply_fill(fill, now);
            if is_new {
                stored.push(fills[i].duplicate());
            }
            proof {
                nows = nows.push(now);
            }
            i = i + 1;
        }
        assert(fills@.take(n as int) == fills@);
        stored
    }

    /// Processes one fill at time `now` where that does not overflow (see
    /// `apply_fill_spec`): `None`, with nothing changed, where adding its
    /// quantity to its order's filled quantity overflows; otherwise whether
    /// the fill was new.
    pub fn try_apply_fill(&mut self, fill: Fill, now: i64) -> (r: Option<bool>)
        ensures
            r is None <==> apply_fill_spec(old(self)@, fill, now) is None,
            r is None ==> final(self)@ == old(self)@,
            r matches Some(stored) ==> Some(final(self)@) == apply_fill_spec(old(self)@, fill, now)
                && stored == !fill_seen(old(self)@.1, fill),
    {
        proof {
            use_type_invariant(&*self);
        }
        let existing = fill_table_get(&self.fills, fill.order_id.as_str());
        let seen = match &existing {
            Some(list) => contains_trade(list, &fill.trade_id),
            None => false,
        };
        if !seen {
            match order_table_get(&self.orders, fill.client_order_id.as_str()) {
                Some(st) => {
                    if dec_checked_add(st.order.filled_quantity, fill.quantity).is_none() {
                        return None;
                    }
                },
                None => {},
            }
        }
        Some(self.apply_fill(fill, now))
    }

    /// Processes the fills in order as `process_fills` does, stopping with
    /// `None` at the first fill whose quantity would overflow its order's
    /// filled quantity (where processing the batch panics).
    pub fn try_process_fills(&mut self, fills: Vec<Fill>) -> (r: Option<Vec<Fill>>)
        ensures
            r matches Some(stored) ==> (exists|nows: Seq<i64>|
                nows.len() == fills@.len() && apply_fills_spec(old(self)@, fills@, nows) == Some(
                    final(self)@,
                )) && stored@ == stored_fills(old(self)@.1, fills@),
            r is None ==> exists|nows: Seq<i64>|
                nows.len() == fills@.len() && apply_fills_spec(old(self)@, fills@, nows) is None,
    {
        proof {
            use_type_invariant(&*self);
        }
        let ghost v0 = self@;
        let ghost mut nows: Seq<i64> = Seq::empty();
        let mut stored: Vec<Fill> = Vec::new();
        let n = fills.len();
        let mut i: usize = 0;
        assert(fills@.take(0) == Seq::<Fill>::empty());
        while i < n
            invariant
                n == fills@.len(),
                i <= n,
                self.wf(),
                v0 == old(self)@,
                nows.len() == i,
                apply_fills_spec(v0, fills@.take(i as int), nows) == Some(self@),
                self@.1 == fill_map_after(v0.1, fills@.take(i as int)),
                stored@ == stored_fills(v0.1, fills@.take(i as int)),
            decreases n - i,
        {
            let now = utc_now_millis();
            proof {
                assert(fills@.take(i + 1).drop_last() == fills@.take(i as int));
                assert(nows.push(now).drop_last() == nows);
            }
            let fill = fills[i].duplicate();
            match self.try_apply_fill(fill, now) {
                Some(is_new) => {
                    if is_new {
                        stored.push(fills[i].duplicate());
                    }
                },
                None => {
                    proof {
                        let full = nows.push(now) + Seq::new((n - i - 1) as nat, |j: int| 0i64);
                        assert(full.take(i + 1) == nows.push(now));
                        assert(full.take(i + 1).drop_last() == nows);
                        assert(fills@.take(i + 1).last() == fills@[i as int]);
                        assert(apply_fills_spec(v0, fills@.take(i + 1), full.take(i + 1)) is None);
                        lemma_apply_fills_none_extends(v0, fills@, full, i + 1);
                        assert(full.len() == fills@.len());
                    }
                    return None;
                },
            }
            proof {
                nows = nows.push(now);
            }
            i = i + 1;
        }
        assert(fills@.take(n as int) == fills@);
        Some(stored)
    }

    /// `prefix`, an underscore and a fresh random UUID.
    pub fn generate_client_order_id(&self, prefix: &str) -> (r: String)
        ensures
            exists|u: Seq<char>| is_uuid_v4_text(u) && r@ == prefix@.push('_') + u,
    {
        let mut s = String::from_str(prefix);
        push_char(&mut s, '_');
        let u = new_uuid_v4_text();
        s.append(u.as_str());
        assert(is_uuid_v4_text(u@) && s@ == prefix@.push('_') + u@);
        s
    }

    /// The request to send: unchanged if it has a client order id, otherwise
    /// given a generated one, `order_` followed by a random UUID.
    pub fn prepare_order_request(&self, request: OrderRequest) -> (r: OrderRequest)
        ensures
            request.client_order_id@.len() > 0 ==> r == request,
            request.client_order_id@.len() == 0 ==> r == (OrderRequest {
                client_order_id: r.client_order_id,
                ..request
            }),
            request.client_order_id@.len() == 0 ==> exists|u: Seq<char>|
                is_uuid_v4_text(u) && r.client_order_id@ == "order"@.push('_') + u,
    {
        if request.client_order_id.as_str().is_empty() {
            let id = self.generate_client_order_id("order");
            OrderRequest { client_order_id: id, ..request }
        } else {
            request
        }
    }

    /// Stores the state of an order the exchange accepted, under its client
    /// order id.
    pub fn record_order(
        &mut self,
        request: OrderRequest,
        order: Order,
        created_at: i64,
        last_update: i64,
    )
        ensures
            final(self)@.0 == old(self)@.0.insert(
                order.client_order_id@,
                OrderState { order, request, created_at, last_update },
            ),
            final(self)@.1 == old(self)@.1,
    {
        proof {
            use_type_invariant(&*self);
        }
        let key = order.client_order_id.clone();
        self.insert_order(
            key,
            OrderState { order, request, created_at, last_update },
        );
    }

    /// Records an order the exchange accepted for `request`, timestamped with
    /// the clock; returns the order.
    pub fn place_order(&mut self, request: OrderRequest, placed: Order) -> (r: Order)
        ensures
            r == placed,
            exists|created_at: i64, last_update: i64|
                final(self)@.0 == old(self)@.0.insert(
                    placed.client_order_id@,
                    OrderState { order: placed, request, created_at, last_update },
                ),
            final(self)@.1 == old(self)@.1,
    {
        proof {
            use_type_invariant(&*self);
        }
        let created_at = utc_now_millis();
        let last_update = utc_now_millis();
        let order = placed.duplicate();
        self.record_order(request, order, created_at, last_update);
        placed
    }

    /// Records the order the exchange placed in place of an old one (the
    /// exchange cancels the old order and places `new_request`).
    pub fn replace_order(&mut self, new_request: OrderRequest, placed: Order) -> (r: Order)
        ensures
            r == placed,
            exists|created_at: i64, last_update: i64|
                final(self)@.0 == old(self)@.0.insert(
                    placed.client_order_id@,
                    OrderState { order: placed, request: new_request, created_at, last_update },
                ),
            final(self)@.1 == old(self)@.1,
    {
        proof {
            use_type_invariant(&*self);
        }
        self.place_order(new_request, placed)
    }

    /// The client order id of a tracked order with the exchange order id;
    /// which one, if several, is not stated.
    pub fn find_client_order_id(&self, order_id: &str) -> (r: Option<String>)
        ensures
            r matches Some(k) ==> self@.0.contains_key(k@) && self@.0[k@].order.order_id@
                == order_id@,
            r is None ==> forall|k: Seq<char>|
                #[trigger] self@.0.contains_key(k) ==> self@.0[k].order.order_id@ != order_id@,
    {
        let keys = order_table_keys(&self.orders);
        let ghost ks = key_views(keys@);
        let mut i: usize = 0;
        while i < keys.len()
            invariant
                ks == key_views(keys@),
                enumerates(ks, self@.0.dom()),
                i <= keys@.len(),
                forall|j: int| 0 <= j < i ==> self@.0[#[trigger] ks[j]].order.order_id@ != order_id@,
            decreases keys@.len() - i,
        {
            assert(self@.0.contains_key(ks[i as int]));
            match order_table_get(&self.orders, keys[i].as_str()) {
                Some(st) => {
                    if str_equal(st.order.order_id.as_str(), order_id) {
                        return Some(keys[i].clone());
                    }
                },
                None => {},
            }
            i = i + 1;
        }
        proof {
            assert forall|k: Seq<char>| #[trigger] self@.0.contains_key(k) implies self@.0[k].order.order_id@
                != order_id@ by {
                assert(ks.contains(k));
                let j = choose|j: int| 0 <= j < ks.len() && ks[j] == k;
            }
        }
        None
    }

    /// Marks a tracked order cancelled at time `now`; does nothing for an
    /// untracked client order id.
    pub fn mark_cancelled(&mut self, client_order_id: &str, now: i64)
        ensures
            old(self)@.0.contains_key(client_order_id@) ==> final(self)@.0 == old(self)@.0.insert(
                client_order_id@,
                cancelled_state(old(self)@.0[client_order_id@], now),
            ),
            !old(self)@.0.contains_key(client_order_id@) ==> final(self)@.0 == old(self)@.0,
            final(self)@.1 == old(self)@.1,
    {
        proof {
            use_type_invariant(&*self);
        }
        match order_table_get(&self.orders, client_order_id) {
            Some(st) => {
                let key = st.order.client_order_id.clone();
                let new_state = OrderState {
                    order: Order { status: OrderStatus::Cancelled, ..st.order },
                    last_update: now,
                    ..st
                };
                self.insert_order(key, new_state);
            },
            None => {},
        }
    }

    /// Marks the tracked order with the exchange order id cancelled, after
    /// the exchange cancelled it; returns its client order id, if tracked.
    pub fn cancel_order(&mut self, order_id: &str) -> (r: Option<String>)
        ensures
            r matches Some(k) ==> old(self)@.0.contains_key(k@) && old(self)@.0[k@].order.order_id@
                == order_id@,
            r matches Some(k) ==> exists|t: i64|
                final(self)@.0 == old(self)@.0.insert(k@, cancelled_state(old(self)@.0[k@], t)),
            r is None ==> forall|k: Seq<char>|
                #[trigger] old(self)@.0.contains_key(k) ==> old(self)@.0[k].order.order_id@
                    != order_id@,
            r is None ==> final(self)@.0 == old(self)@.0,
            final(self)@.1 == old(self)@.1,
    {
        proof {
            use_type_invariant(&*self);
        }
        let found = self.find_client_order_id(order_id);
        match &found {
            Some(k) => {
                let now = utc_now_millis();
                self.mark_cancelled(k.as_str(), now);
            },
            None => {},
        }
        found
    }

    /// Applies the open orders the exchange reported, reading the clock for
    /// each tracked one (see `sync_spec`).
    pub fn sync_orders(&mut self, orders: Vec<Order>)
        ensures
            exists|nows: Seq<i64>|
                nows.len() == orders@.len() && final(self)@.0 == sync_spec(
                    old(self)@.0,
                    orders@,
                    nows,
                ),
            final(self)@.1 == old(self)@.1,
    {
        proof {
            use_type_invariant(&*self);
        }
        let ghost m0 = self@.0;
        let ghost mut nows: Seq<i64> = Seq::empty();
        let n = orders.len();
        let mut i: usize = 0;
        while i < n
            invariant
                n == orders@.len(),
                i <= n,
                self.wf(),
                nows.len() == i,
                self@.0 == sync_spec(m0, orders@.take(i as int), nows),
                self@.1 == old(self)@.1,
            decreases n - i,
        {
            proof {
                assert(orders@.take(i + 1).drop_last() == orders@.take(i as int));
                assert(orders@.take(i + 1).last() == orders@[i as int]);
            }
            let ghost prev_nows = nows;
            let ghost prev_view = self@.0;
            let o = orders[i].duplicate();
            match order_table_get(&self.orders, o.client_order_id.as_str()) {
                Some(st) => {
                    let now = utc_now_millis();
                    let key = o.client_order_id.clone();
                    let new_state = OrderState { order: o, last_update: now, ..st };
                    self.insert_order(key, new_state);
                    proof {
                        nows = nows.push(now);
                        assert(nows.drop_last() == prev_nows);
                        assert(nows.last() == now);
                        assert(self@.0 == prev_view.insert(
                            o.client_order_id@,
                            OrderState { order: o, last_update: now, ..prev_view[o.client_order_id@] },
                        ));
                    }
                },
                None => {
                    proof {
                        nows = nows.push(0i64);
                        assert(nows.drop_last() == prev_nows);
                    }
                },
            }
            i = i + 1;
        }
        assert(orders@.take(n as int) == orders@);
    }

    /// Marks every tracked order for `symbol` cancelled, after the exchange
    /// cancelled all orders for it, reading the clock for each.
    pub fn cancel_all_orders(&mut self, symbol: &str)
        ensures
            final(self)@.0.dom() == old(self)@.0.dom(),
            forall|k: Seq<char>|
                #[trigger] old(self)@.0.contains_key(k) ==> if old(self)@.0[k].order.symbol@
                    == symbol@ {
                    exists|t: i64| final(self)@.0[k] == cancelled_state(old(self)@.0[k], t)
                } else {
                    final(self)@.0[k] == old(self)@.0[k]
                },
            final(self)@.1 == old(self)@.1,
    {
        proof {
            use_type_invariant(&*self);
        }
        let ghost m0 = self@.0;
        let keys = order_table_keys(&self.orders);
        let ghost ks = key_views(keys@);
        let mut i: usize = 0;
        while i < keys.len()
            invariant
                ks == key_views(keys@),
                enumerates(ks, m0.dom()),
                i <= keys@.len(),
                self.wf(),
                self@.0.dom() == m0.dom(),
                self@.1 == old(self)@.1,
                forall|j: int|
                    0 <= j < i ==> if m0[#[trigger] ks[j]].order.symbol@ == symbol@ {
                        exists|t: i64| self@.0[ks[j]] == cancelled_state(m0[ks[j]], t)
                    } else {
                        self@.0[ks[j]] == m0[ks[j]]
                    },
                forall|j: int| i <= j < ks.len() ==> self@.0[#[trigger] ks[j]] == m0[ks[j]],
            decreases keys@.len() - i,
        {
            assert(self@.0.contains_key(ks[i as int]));
            match order_table_get(&self.orders, keys[i].as_str()) {
                Some(st) => {
                    if str_equal(st.order.symbol.as_str(), symbol) {
                        let now = utc_now_millis();
                        let new_state = OrderState {
                            order: Order { status: OrderStatus::Cancelled, ..st.order },
                            last_update: now,
                            ..st
                        };
                        self.insert_order(keys[i].clone(), new_state);
                        assert(self@.0[ks[i as int]] == cancelled_state(m0[ks[i as int]], now));
                    }
                },
                None => {},
            }
            proof {
                assert forall|j: int| i < j < ks.len() implies self@.0[#[trigger] ks[j]] == m0[ks[j]] by {
                    assert(ks[j] != ks[i as int]);
                }
                assert forall|j: int| 0 <= j < i implies ks[j] != ks[i as int] by {}
            }
            i = i + 1;
        }
        proof {
            assert forall|k: Seq<char>| #[trigger] old(self)@.0.contains_key(k) implies if old(self)@.0[k].order.symbol@
                == symbol@ {
                exists|t: i64| self@.0[k] == cancelled_state(old(self)@.0[k], t)
            } else {
                self@.0[k] == old(self)@.0[k]
            } by {
                assert(ks.contains(k));
                let j = choose|j: int| 0 <= j < ks.len() && ks[j] == k;
            }
        }
    }

    /// The state of the order with the client order id, if tracked.
    pub fn get_order_state(&self, client_order_id: &str) -> (r: Option<OrderState>)
        ensures
            self@.0.contains_key(client_order_id@) ==> r == Some(self@.0[client_order_id@]),
            !self@.0.contains_key(client_order_id@) ==> r is None,
            r matches Some(st) ==> st.order.client_order_id@ == client_order_id@,
    {
        proof {
            use_type_invariant(self);
        }
        order_table_get(&self.orders, client_order_id)
    }

    /// All tracked order states, each once, in an order that is not stated.
    pub fn get_all_orders(&self) -> (r: Vec<OrderState>)
        ensures
            exists|ks: Seq<Seq<char>>|
                enumerates(ks, self@.0.dom()) && r@.len() == ks.len() && forall|i: int|
                    0 <= i < ks.len() ==> r@[i] == self@.0[#[trigger] ks[i]],
    {
        let keys = order_table_keys(&self.orders);
        let ghost ks = key_views(keys@);
        let mut out: Vec<OrderState> = Vec::new();
        let mut i: usize = 0;
        while i < keys.len()
            invariant
                ks == key_views(keys@),
                enumerates(ks, self@.0.dom()),
                i <= keys@.len(),
                out@.len() == i,
                forall|j: int| 0 <= j < i ==> out@[j] == self@.0[#[trigger] ks[j]],
            decreases keys@.len() - i,
        {
            assert(self@.0.contains_key(ks[i as int]));
            match order_table_get(&self.orders, keys[i].as_str()) {
                Some(st) => out.push(st),
                None => {},
            }
            i = i + 1;
        }
        out
    }

    /// The fills recorded for the exchange order id, oldest first.
    pub fn get_order_fills(&self, order_id: &str) -> (r: Vec<Fill>)
        ensures
            r@ == fills_for(self@.1, order_id@),
    {
        match fill_table_get(&self.fills, order_id) {
            Some(list) => list,
            None => Vec::new(),
        }
    }

    /// Counts of the tracked orders by status, and of the recorded fills (the
    /// fill count stops at `usize::MAX`).
    pub fn get_stats(&self) -> (r: OMSStats)
        ensures
            r.total_orders == self@.0.dom().len(),
            forall|ks: Seq<Seq<char>>|
                #[trigger] enumerates(ks, self@.0.dom()) ==> r.active_orders == count_status(
                    ks,
                    self@.0,
                    OrderStatus::New,
                ) && r.filled_orders == count_status(ks, self@.0, OrderStatus::Filled)
                    && r.partially_filled_orders == count_status(
                    ks,
                    self@.0,
                    OrderStatus::PartiallyFilled,
                ) && r.cancelled_orders == count_status(ks, self@.0, OrderStatus::Cancelled),
            forall|fks: Seq<Seq<char>>|
                #[trigger] enumerates(fks, self@.1.dom()) ==> r.total_fills == if count_fills(
                    fks,
                    self@.1,
                ) <= usize::MAX {
                    count_fills(fks, self@.1)
                } else {
                    usize::MAX as nat
                },
    {
        let keys = order_table_keys(&self.orders);
        let ghost ks = key_views(keys@);
        let total_orders = keys.len();
        let mut filled: usize = 0;
        let mut partially_filled: usize = 0;
        let mut cancelled: usize = 0;
        let mut active: usize = 0;
        let mut i: usize = 0;
        while i < keys.len()
            invariant
                ks == key_views(keys@),
                enumerates(ks, self@.0.dom()),
                i <= keys@.len(),
                active == count_status(ks.take(i as int), self@.0, OrderStatus::New),
                filled == count_status(ks.take(i as int), self@.0, OrderStatus::Filled),
                partially_filled == count_status(ks.take(i as int), self@.0, OrderStatus::PartiallyFilled),
                cancelled == count_status(ks.take(i as int), self@.0, OrderStatus::Cancelled),
                active <= i && filled <= i && partially_filled <= i && cancelled <= i,
            decreases keys@.len() - i,
        {
            assert(self@.0.contains_key(ks[i as int]));
            assert(ks.take(i + 1).drop_last() == ks.take(i as int));
            assert(ks.take(i + 1).last() == ks[i as int]);
            match order_table_get(&self.orders, keys[i].as_str()) {
                Some(st) => match st.order.status {
                    OrderStatus::Filled => filled = filled + 1,
                    OrderStatus::PartiallyFilled => partially_filled = partially_filled + 1,
                    OrderStatus::Cancelled => cancelled = cancelled + 1,
                    OrderStatus::New => active = active + 1,
                    _ => {},
                },
                None => {},
            }
            i = i + 1;
        }
        assert(ks.take(keys@.len() as int) == ks);
        let fkeys = fill_table_keys(&self.fills);
        let ghost fks = key_views(fkeys@);
        let mut total_fills: usize = 0;
        let mut j: usize = 0;
        while j < fkeys.len()
            invariant
                fks == key_views(fkeys@),
                enumerates(fks, self@.1.dom()),
                j <= fkeys@.len(),
                total_fills == if count_fills(fks.take(j as int), self@.1) <= usize::MAX {
                    count_fills(fks.take(j as int), self@.1)
                } else {
                    usize::MAX as nat
                },
            decreases fkeys@.len() - j,
        {
            assert(self@.1.contains_key(fks[j as int]));
            assert(fks.take(j + 1).drop_last() == fks.take(j as int));
            assert(fks.take(j + 1).last() == fks[j as int]);
            match fill_table_get(&self.fills, fkeys[j].as_str()) {
                Some(list) => total_fills = total_fills.saturating_add(list.len()),
                None => {},
            }
            j = j + 1;
        }
        assert(fks.take(fkeys@.len() as int) == fks);
        proof {
            assert forall|ks2: Seq<Seq<char>>| #[trigger] enumerates(ks2, self@.0.dom()) implies active
                == count_status(ks2, self@.0, OrderStatus::New) && filled == count_status(
                ks2,
                self@.0,
                OrderStatus::Filled,
            ) && partially_filled == count_status(ks2, self@.0, OrderStatus::PartiallyFilled)
                && cancelled == count_status(ks2, self@.0, OrderStatus::Cancelled) by {
                lemma_count_status_any_listing(ks, ks2, self@.0, OrderStatus::New);
                lemma_count_status_any_listing(ks, ks2, self@.0, OrderStatus::Filled);
                lemma_count_status_any_listing(ks, ks2, self@.0, OrderStatus::PartiallyFilled);
                lemma_count_status_any_listing(ks, ks2, self@.0, OrderStatus::Cancelled);
            }
            assert forall|fks2: Seq<Seq<char>>| #[trigger] enumerates(fks2, self@.1.dom()) implies count_fills(
                fks2,
                self@.1,
            ) == count_fills(fks, self@.1) by {
                lemma_count_fills_any_listing(fks, fks2, self@.1);
            }
        }
        OMSStats {
            total_orders,
            active_orders: active,
            filled_orders: filled,
            partially_filled_orders: partially_filled,
            cancelled_orders: cancelled,
            total_fills,
        }
    }
}

} // verus!
