//! Reading the book, and taking orders off it.

use vstd::prelude::*;

use crate::persistence::db::{Db, DbView};
use crate::persistence::ids::new_id;
use crate::persistence::market::{
    is_open_order, lemma_escrow_nonneg, lemma_granted, lemma_promise_nonneg, lemma_sides_differ,
    market_sound, order_ok, promise_qty, promised,
};
use crate::persistence::purse::{
    escrow, gold_of, grant_gold_in_tx, granted, has_character, lemma_purse_bound, order_escrow, supply_gap,
    wealth,
};
use crate::persistence::rows::{
    MarketOrder, MarketOrderView, MarketTrade, MarketTradeView, OrderRecord, OrderRecordView,
};
use crate::persistence::warehouse::{
    credited, draw_qty, draw_rows, item_stock, lands, lemma_credited, lemma_draw_qty, lemma_drawn,
    lemma_slots_le_stock, lemma_states_differ, release_locked_in_tx, released, stock, stock_key,
    total_stock, StockKey,
};
use crate::table::{
    find, least, lemma_find_is, lemma_least, lemma_sum_le, lemma_sum_prefix, lemma_sum_push,
    lemma_sum_remove, limit_rows, limited, order_rows, ordered, reverse_rows, rows_view, sum, Row,
};
use crate::text::{before, same, text_before};

verus! {

/// The state after order `k` leaves the book and what it holds in escrow goes back to its owner:
/// the unsold goods of a sell, the unspent gold of a buy.
pub open spec fn order_released(s: DbView, k: int, id: Seq<char>) -> DbView {
    let o = s.orders[k].order;
    let off = DbView { orders: s.orders.remove(k), ..s };
    if o.side == "sell"@ {
        DbView {
            warehouse: released(
                s.warehouse,
                stock_key(o.market_id, o.character_id, o.item_id),
                o.qty_remaining,
                true,
                id,
            ),
            ..off
        }
    } else {
        DbView { characters: granted(s.characters, o.character_id, o.qty_remaining * o.unit_price), ..off }
    }
}

/// Whether an order is this one, and this character's.
pub open spec fn is_own_order(character: Seq<char>, id: Seq<char>) -> spec_fn(OrderRecordView) -> bool {
    |o: OrderRecordView| o.order.id == id && o.order.character_id == character
}

/// Whether an order has expired. 0 means that it never does.
pub open spec fn is_due(now: int) -> spec_fn(OrderRecordView) -> bool {
    |o: OrderRecordView| 0 < o.expires_at <= now
}

/// Orders expire in the order of their ids.
pub open spec fn expiry_order() -> spec_fn(OrderRecordView, OrderRecordView) -> bool {
    |a: OrderRecordView, b: OrderRecordView| text_before(a.order.id, b.order.id)
}

/// The state after the first order that has expired is released.
pub open spec fn first_expired(s: DbView, now: int, id: Seq<char>) -> DbView {
    let k = least(s.orders, is_due(now), expiry_order());
    if k < s.orders.len() {
        order_released(s, k, id)
    } else {
        s
    }
}

/// The state after one expired order is released for each id, or fewer once none is left.
pub open spec fn expired(s: DbView, now: int, ids: Seq<Seq<char>>) -> DbView
    decreases ids.len(),
{
    if ids.len() == 0 {
        s
    } else {
        first_expired(expired(s, now, ids.drop_last()), now, ids.last())
    }
}

/// The orders themselves.
pub open spec fn order_views(orders: Seq<OrderRecordView>) -> Seq<MarketOrderView> {
    Seq::new(orders.len(), |i: int| orders[i].order)
}

/// Releasing an order gives its owner back exactly what it held: the state stays sound, no gold and
/// no goods are made or lost, and what is locked beyond what is promised stays as it was.
pub proof fn law_release_returns_the_escrow(s: DbView, k: int, id: Seq<char>)
    requires
        market_sound(s),
        0 <= k < s.orders.len(),
    ensures
        market_sound(order_released(s, k, id)),
        supply_gap(order_released(s, k, id)) == supply_gap(s),
        wealth(order_released(s, k, id)) == wealth(s),
        total_stock(order_released(s, k, id).warehouse) == total_stock(s.warehouse),
        forall|x: Seq<char>|
            #![trigger has_character(order_released(s, k, id).characters, x)]
            has_character(order_released(s, k, id).characters, x) == has_character(s.characters, x),
        forall|item: Seq<char>|
            #[trigger] item_stock(order_released(s, k, id).warehouse, item) == item_stock(s.warehouse, item),
        s.orders[k].order.side == "buy"@ ==> gold_of(
            order_released(s, k, id).characters,
            s.orders[k].order.character_id,
        ) == gold_of(s.characters, s.orders[k].order.character_id) + s.orders[k].order.qty_remaining
            * s.orders[k].order.unit_price,
        s.orders[k].order.side == "sell"@ ==> ({
            let o = s.orders[k].order;
            let key = stock_key(o.market_id, o.character_id, o.item_id);
            &&& stock(order_released(s, k, id).warehouse, key, "available"@) == stock(s.warehouse, key, "available"@)
                + o.qty_remaining
            &&& stock(order_released(s, k, id).warehouse, key, "locked"@) == stock(s.warehouse, key, "locked"@)
                - o.qty_remaining
        }),
        forall|key: StockKey|
            #![trigger stock(order_released(s, k, id).warehouse, key, "locked"@)]
            stock(order_released(s, k, id).warehouse, key, "locked"@) - promised(order_released(s, k, id).orders, key)
                == stock(s.warehouse, key, "locked"@) - promised(s.orders, key),
{
    let o = s.orders[k].order;
    let after = order_released(s, k, id);
    lemma_sides_differ();
    lemma_states_differ();
    assert(order_ok(s.characters, s.orders[k]));
    lemma_sum_remove(s.orders, order_escrow(), k);
    lemma_escrow_nonneg(s);
    assert(order_escrow()(s.orders[k]) <= escrow(s));
    let worth = o.qty_remaining * o.unit_price;
    assert(worth >= 0 && worth == o.unit_price * o.qty_remaining) by (nonlinear_arith)
        requires
            worth == o.qty_remaining * o.unit_price,
            o.qty_remaining > 0,
            o.unit_price >= 0,
    ;
    let key = stock_key(o.market_id, o.character_id, o.item_id);
    if o.side == "sell"@ {
        let rows0 = s.warehouse;
        let rows1 = draw_rows(rows0, key, "locked"@, o.qty_remaining);
        let rows2 = credited(rows1, key, o.qty_remaining, i64::MAX as int, id);
        assert(promised(s.orders, key) <= stock(rows0, key, "locked"@));
        lemma_promise_nonneg(s, key);
        assert(promise_qty(key)(s.orders[k]) == o.qty_remaining);
        lemma_draw_qty(rows0, key, "locked"@, o.qty_remaining);
        assert(draw_qty(rows0, key, "locked"@, o.qty_remaining) == o.qty_remaining);
        lemma_slots_le_stock(rows1, key.market, key.character);
        lemma_drawn(rows0, key, "locked"@, o.qty_remaining, key, "locked"@);
        assert(lands(rows1, key, o.qty_remaining, i64::MAX as int));
        lemma_credited(rows1, key, o.qty_remaining, i64::MAX as int, id, key, "locked"@);
        lemma_drawn(rows0, key, "locked"@, o.qty_remaining, key, "available"@);
        lemma_credited(rows1, key, o.qty_remaining, i64::MAX as int, id, key, "available"@);
        assert(after.warehouse == rows2);
        assert forall|item: Seq<char>| #[trigger] item_stock(after.warehouse, item) == item_stock(s.warehouse, item) by {
            let other = StockKey { item, ..key };
            lemma_drawn(rows0, key, "locked"@, o.qty_remaining, other, "locked"@);
            lemma_credited(rows1, key, o.qty_remaining, i64::MAX as int, id, other, "locked"@);
        }
        assert forall|other: StockKey|
            #![trigger stock(after.warehouse, other, "locked"@)]
            stock(after.warehouse, other, "locked"@) - promised(after.orders, other) == stock(
                s.warehouse,
                other,
                "locked"@,
            ) - promised(s.orders, other) by {
            lemma_drawn(rows0, key, "locked"@, o.qty_remaining, other, "locked"@);
            lemma_credited(rows1, key, o.qty_remaining, i64::MAX as int, id, other, "locked"@);
            lemma_sum_remove(s.orders, promise_qty(other), k);
        }
    } else {
        lemma_granted(s.characters, o.character_id, worth);
        assert forall|other: StockKey|
            #![trigger stock(after.warehouse, other, "locked"@)]
            stock(after.warehouse, other, "locked"@) - promised(after.orders, other) == stock(
                s.warehouse,
                other,
                "locked"@,
            ) - promised(s.orders, other) by {
            lemma_sum_remove(s.orders, promise_qty(other), k);
        }
    }
    assert forall|i: int| 0 <= i < after.orders.len() implies order_ok(after.characters, #[trigger] after.orders[i]) by {
        let j = if i < k {
            i
        } else {
            i + 1
        };
        assert(after.orders[i] == s.orders[j]);
        assert(order_ok(s.characters, s.orders[j]));
    }
    assert forall|other: StockKey| #[trigger] promised(after.orders, other) <= stock(
        after.warehouse,
        other,
        "locked"@,
    ) by {
        assert(promised(s.orders, other) <= stock(s.warehouse, other, "locked"@));
        assert(stock(after.warehouse, other, "locked"@) - promised(after.orders, other) == stock(
            s.warehouse,
            other,
            "locked"@,
        ) - promised(s.orders, other));
    }
}

/// A level of a book: a price, and how much rests at it.
#[derive(Debug, Clone, PartialEq, Eq)]
pub struct BookLevel {
    pub unit_price: i64,
    pub qty: i64,
}

impl Db {
    /// Take order `k` off the book and give its owner back what it holds in escrow. Shared by
    /// cancelling and expiry, which must release alike.
    pub(crate) fn release_order_in_tx(&mut self, k: usize, id: String)
        requires
            market_sound(old(self)@),
            k < old(self)@.orders.len(),
        ensures
            final(self)@ == order_released(old(self)@, k as int, id@),
            market_sound(final(self)@),
    {
        let ghost s = self@;
        proof {
            law_release_returns_the_escrow(s, k as int, id@);
            assert(order_ok(s.characters, s.orders[k as int]));
            lemma_escrow_nonneg(s);
            assert(order_escrow()(s.orders[k as int]) <= escrow(s));
            lemma_sides_differ();
        }
        let row = self.orders.remove(k);
        let o = row.order;
        if same(o.side.as_str(), "sell") {
            release_locked_in_tx(
                &mut self.warehouse,
                o.market_id.as_str(),
                o.character_id.as_str(),
                o.item_id.as_str(),
                o.qty_remaining,
                true,
                id,
            );
        } else {
            proof {
                lemma_purse_bound(s.characters, o.character_id@);
                assert(o.qty_remaining * o.unit_price == o.unit_price * o.qty_remaining) by (nonlinear_arith);
                assert(o.unit_price * o.qty_remaining >= 0) by (nonlinear_arith)
                    requires
                        o.unit_price >= 0,
                        o.qty_remaining > 0,
                ;
            }
            grant_gold_in_tx(&mut self.characters, o.character_id.as_str(), o.qty_remaining * o.unit_price);
        }
    }

    /// Cancel a resting order: what it holds in escrow goes back to its owner. Only the owner can;
    /// anyone else, or an unknown order, gets `None` and changes nothing.
    pub fn cancel_order(&mut self, character_id: &str, order_id: &str) -> (cancelled: Option<MarketOrder>)
        requires
            market_sound(old(self)@),
        ensures
            market_sound(final(self)@),
            ({
                let k = find(old(self)@.orders, is_own_order(character_id@, order_id@));
                match cancelled {
                    None => k == old(self)@.orders.len() && final(self)@ == old(self)@,
                    Some(o) => {
                        &&& k < old(self)@.orders.len()
                        &&& o@ == old(self)@.orders[k].order
                        &&& exists|id: Seq<char>| final(self)@ == #[trigger] order_released(old(self)@, k, id)
                    },
                }
            }),
    {
        let f = |o: &OrderRecord| -> (b: bool)
            ensures
                b == is_own_order(character_id@, order_id@)(o@),
            { same(o.order.id.as_str(), order_id) && same(o.order.character_id.as_str(), character_id) };
        let k: usize = self.orders.find(f, Ghost(is_own_order(character_id@, order_id@)));
        if k >= self.orders.len() {
            return None;
        }
        let o = self.orders.get(k).order.copy();
        let id = new_id();
        self.release_order_in_tx(k, id);
        Some(o)
    }

    /// The first order that has expired, or the number of orders.
    fn first_due(&self, now: i64) -> (k: usize)
        ensures
            k == least(self@.orders, is_due(now as int), expiry_order()),
            k <= self@.orders.len(),
    {
        let f = |o: &OrderRecord| -> (b: bool)
            ensures
                b == is_due(now as int)(o@),
            { 0 < o.expires_at && o.expires_at <= now };
        let g = |a: &OrderRecord, b: &OrderRecord| -> (r: bool)
            ensures
                r == expiry_order()(a@, b@),
            { before(a.order.id.as_str(), b.order.id.as_str()) };
        self.orders.least(f, g, Ghost(is_due(now as int)), Ghost(expiry_order()))
    }

    /// Release every order whose expiry has passed, exactly as a cancel would, and return them.
    pub fn expire_orders(&mut self, now: i64) -> (due: Vec<MarketOrder>)
        requires
            market_sound(old(self)@),
        ensures
            market_sound(final(self)@),
            rows_view(due@) == order_views(ordered(old(self)@.orders.filter(is_due(now as int)), expiry_order())),
            exists|ids: Seq<Seq<char>>| final(self)@ == #[trigger] expired(old(self)@, now as int, ids),
            find(final(self)@.orders, is_due(now as int)) == final(self)@.orders.len(),
    {
        let ghost start = self@;
        let ghost p = is_due(now as int);
        let ghost mut ids = Seq::<Seq<char>>::empty();
        let f = |o: &OrderRecord| -> (b: bool)
            ensures
                b == is_due(now as int)(o@),
            { 0 < o.expires_at && o.expires_at <= now };
        let g = |a: &OrderRecord, b: &OrderRecord| -> (r: bool)
            ensures
                r == expiry_order()(a@, b@),
            { before(a.order.id.as_str(), b.order.id.as_str()) };
        let due = orders_of(order_rows(self.orders.select(f, Ghost(p)), g, Ghost(expiry_order())));
        let mut k: usize = self.first_due(now);
        while k < self.orders.len()
            invariant
                market_sound(self@),
                self@ == expired(start, now as int, ids),
                k == least(self@.orders, is_due(now as int), expiry_order()),
                k <= self@.orders.len(),
            decreases self@.orders.len(),
        {
            let id = new_id();
            proof {
                assert(ids.push(id@).drop_last() =~= ids);
                ids = ids.push(id@);
            }
            self.release_order_in_tx(k, id);
            k = self.first_due(now);
        }
        proof {
            lemma_least(self@.orders, p, expiry_order());
            lemma_find_is(self@.orders, p, self@.orders.len() as int);
        }
        due
    }
}

/// Whether an order rests on one side of one book.
pub open spec fn on_book(o: OrderRecordView, market: Seq<char>, item: Seq<char>, side: Seq<char>) -> bool {
    o.order.market_id == market && o.order.item_id == item && o.order.side == side
}

/// What an order adds to a level of a book.
pub open spec fn level_qty(market: Seq<char>, item: Seq<char>, side: Seq<char>, price: int) -> spec_fn(
    OrderRecordView,
) -> int {
    |o: OrderRecordView|
        if on_book(o, market, item, side) && o.order.unit_price == price {
            o.order.qty_remaining
        } else {
            0
        }
}

/// What an order adds to a side of a book, at any price.
pub open spec fn side_qty(market: Seq<char>, item: Seq<char>, side: Seq<char>) -> spec_fn(OrderRecordView) -> int {
    |o: OrderRecordView|
        if on_book(o, market, item, side) {
            o.order.qty_remaining
        } else {
            0
        }
}

/// Whether an order rests at a price.
pub open spec fn quoted(
    orders: Seq<OrderRecordView>,
    market: Seq<char>,
    item: Seq<char>,
    side: Seq<char>,
    price: int,
) -> bool {
    exists|i: int|
        0 <= i < orders.len() && on_book(#[trigger] orders[i], market, item, side) && orders[i].order.unit_price == price
}

/// Whether a price has a level.
pub open spec fn has_level(levels: Seq<BookLevel>, price: int) -> bool {
    exists|j: int| 0 <= j < levels.len() && (#[trigger] levels[j]).unit_price == price
}

/// Whether one price is quoted ahead of another: asks from the cheapest, bids from the dearest.
pub open spec fn quoted_ahead(side: Seq<char>, a: int, b: int) -> bool {
    if side == "sell"@ {
        a < b
    } else {
        a > b
    }
}

/// Whether levels show a side of a book: one for each price that is quoted, best first, each with
/// all that rests at it.
pub open spec fn shows_book(
    levels: Seq<BookLevel>,
    orders: Seq<OrderRecordView>,
    market: Seq<char>,
    item: Seq<char>,
    side: Seq<char>,
) -> bool {
    &&& forall|i: int, j: int|
        0 <= i < j < levels.len() ==> quoted_ahead(
            side,
            (#[trigger] levels[i]).unit_price as int,
            (#[trigger] levels[j]).unit_price as int,
        )
    &&& forall|j: int|
        0 <= j < levels.len() ==> (#[trigger] levels[j]).qty == sum(
            orders,
            level_qty(market, item, side, levels[j].unit_price as int),
        )
    &&& forall|price: int| #[trigger] has_level(levels, price) <==> quoted(orders, market, item, side, price)
}

proof fn lemma_quoted_step(
    orders: Seq<OrderRecordView>,
    n: int,
    market: Seq<char>,
    item: Seq<char>,
    side: Seq<char>,
    price: int,
)
    requires
        0 <= n < orders.len(),
    ensures
        quoted(orders.take(n + 1), market, item, side, price) == (quoted(
            orders.take(n),
            market,
            item,
            side,
            price,
        ) || on_book(orders[n], market, item, side) && orders[n].order.unit_price == price),
{
    let a = orders.take(n);
    let b = orders.take(n + 1);
    if quoted(a, market, item, side, price) {
        let i = choose|i: int|
            0 <= i < a.len() && on_book(#[trigger] a[i], market, item, side) && a[i].order.unit_price == price;
        assert(b[i] == a[i]);
    }
    if quoted(b, market, item, side, price) {
        let i = choose|i: int|
            0 <= i < b.len() && on_book(#[trigger] b[i], market, item, side) && b[i].order.unit_price == price;
        if i < n {
            assert(a[i] == b[i]);
        } else {
            assert(b[i] == orders[n]);
        }
    }
    assert(b[n] == orders[n]);
}

impl Db {
    /// One side of a commodity's book at a market, added up by price: asks from the cheapest, bids
    /// from the dearest.
    pub fn book_for(&self, market_id: &str, item_id: &str, side: &str) -> (levels: Vec<BookLevel>)
        requires
            forall|i: int| 0 <= i < self@.orders.len() ==> (#[trigger] self@.orders[i]).order.qty_remaining >= 0,
            sum(self@.orders, side_qty(market_id@, item_id@, side@)) <= i64::MAX,
        ensures
            shows_book(levels@, self@.orders, market_id@, item_id@, side@),
    {
        let ghost m = market_id@;
        let ghost c = item_id@;
        let ghost d = side@;
        let asks: bool = same(side, "sell");
        let mut levels: Vec<BookLevel> = Vec::new();
        let mut n: usize = 0;
        proof {
            assert(self@.orders.take(0) =~= Seq::empty());
        }
        while n < self.orders.len()
            invariant
                m == market_id@,
                c == item_id@,
                d == side@,
                asks == (d == "sell"@),
                n <= self@.orders.len(),
                forall|i: int| 0 <= i < self@.orders.len() ==> (#[trigger] self@.orders[i]).order.qty_remaining >= 0,
                sum(self@.orders, side_qty(m, c, d)) <= i64::MAX,
                shows_book(levels@, self@.orders.take(n as int), m, c, d),
            decreases self@.orders.len() - n,
        {
            let ghost orders = self@.orders;
            let ghost part = orders.take(n as int);
            let ghost next = orders.take(n + 1);
            let row = self.orders.get(n);
            let ghost o = orders[n as int];
            let ghost old_levels = levels@;
            proof {
                assert(next =~= part.push(o));
                assert forall|price: int| #[trigger] sum(next, level_qty(m, c, d, price)) == sum(
                    part,
                    level_qty(m, c, d, price),
                ) + level_qty(m, c, d, price)(o) by {
                    lemma_sum_push(part, level_qty(m, c, d, price), o);
                }
                assert forall|price: int| #[trigger] quoted(next, m, c, d, price) == (quoted(part, m, c, d, price)
                    || on_book(o, m, c, d) && o.order.unit_price == price) by {
                    lemma_quoted_step(orders, n as int, m, c, d, price);
                }
            }
            if same(row.order.market_id.as_str(), market_id) && same(row.order.item_id.as_str(), item_id) && same(
                row.order.side.as_str(),
                side,
            ) {
                let price: i64 = row.order.unit_price;
                let more: i64 = row.order.qty_remaining;
                let mut at: usize = 0;
                while at < levels.len()
                    invariant_except_break
                        at <= levels.len(),
                        forall|j: int| 0 <= j < at ==> quoted_ahead(d, (#[trigger] levels@[j]).unit_price as int, price as int),
                    invariant
                        asks == (d == "sell"@),
                        levels@ == old_levels,
                    ensures
                        at <= levels.len(),
                        forall|j: int| 0 <= j < at ==> quoted_ahead(d, (#[trigger] levels@[j]).unit_price as int, price as int),
                        at < levels.len() ==> !quoted_ahead(d, levels@[at as int].unit_price as int, price as int),
                    decreases levels.len() - at,
                {
                    let p: i64 = levels[at].unit_price;
                    let ahead: bool = if asks {
                        p < price
                    } else {
                        p > price
                    };
                    if !ahead {
                        break ;
                    }
                    at = at + 1;
                }
                if at < levels.len() && levels[at].unit_price == price {
                    proof {
                        lemma_sum_push(part, level_qty(m, c, d, price as int), o);
                        lemma_level_bound(orders, m, c, d, price as int, n + 1);
                    }
                    let sum_qty: i64 = levels[at].qty + more;
                    levels.set(at, BookLevel { unit_price: price, qty: sum_qty });
                    proof {
                        assert forall|p: int| #[trigger] has_level(levels@, p) == has_level(old_levels, p) by {
                            if has_level(levels@, p) {
                                let j = choose|j: int| 0 <= j < levels@.len() && (#[trigger] levels@[j]).unit_price == p;
                                assert(old_levels[j].unit_price == p);
                            }
                            if has_level(old_levels, p) {
                                let j = choose|j: int|
                                    0 <= j < old_levels.len() && (#[trigger] old_levels[j]).unit_price == p;
                                assert(levels@[j].unit_price == p);
                            }
                        }
                        assert(has_level(old_levels, price as int)) by {
                            assert(old_levels[at as int].unit_price == price);
                        }
                    }
                } else {
                    proof {
                        assert(!has_level(old_levels, price as int)) by {
                            if has_level(old_levels, price as int) {
                                let j = choose|j: int|
                                    0 <= j < old_levels.len() && (#[trigger] old_levels[j]).unit_price == price;
                                if j > at {
                                    assert(quoted_ahead(
                                        d,
                                        old_levels[at as int].unit_price as int,
                                        old_levels[j].unit_price as int,
                                    ));
                                }
                            }
                        }
                        lemma_not_quoted(part, m, c, d, price as int);
                    }
                    levels.insert(at, BookLevel { unit_price: price, qty: more });
                    proof {
                        assert forall|p: int| #[trigger] has_level(levels@, p) == (has_level(old_levels, p) || p == price) by {
                            if has_level(levels@, p) {
                                let j = choose|j: int| 0 <= j < levels@.len() && (#[trigger] levels@[j]).unit_price == p;
                                if j < at {
                                    assert(old_levels[j].unit_price == p);
                                } else if j > at {
                                    assert(old_levels[j - 1].unit_price == p);
                                }
                            }
                            if has_level(old_levels, p) {
                                let j = choose|j: int|
                                    0 <= j < old_levels.len() && (#[trigger] old_levels[j]).unit_price == p;
                                if j < at {
                                    assert(levels@[j].unit_price == p);
                                } else {
                                    assert(levels@[j + 1].unit_price == p);
                                }
                            }
                            assert(levels@[at as int].unit_price == price);
                        }
                        assert forall|i: int, j: int| 0 <= i < j < levels@.len() implies quoted_ahead(
                            d,
                            (#[trigger] levels@[i]).unit_price as int,
                            (#[trigger] levels@[j]).unit_price as int,
                        ) by {
                            let i0 = if i <= at {
                                i
                            } else {
                                i - 1
                            };
                            let j0 = j - 1;
                            if j < at {
                                assert(levels@[i] == old_levels[i] && levels@[j] == old_levels[j]);
                            } else if j == at {
                                assert(levels@[i] == old_levels[i]);
                            } else if i < at {
                                assert(levels@[i] == old_levels[i] && levels@[j] == old_levels[j0]);
                            } else if i == at {
                                assert(levels@[j] == old_levels[j0]);
                                assert(!quoted_ahead(d, old_levels[at as int].unit_price as int, price as int));
                                if j0 > at {
                                    assert(quoted_ahead(
                                        d,
                                        old_levels[at as int].unit_price as int,
                                        old_levels[j0].unit_price as int,
                                    ));
                                }
                            } else {
                                assert(levels@[i] == old_levels[i0] && levels@[j] == old_levels[j0]);
                            }
                        }
                        assert forall|j: int| 0 <= j < levels@.len() implies (#[trigger] levels@[j]).qty == sum(
                            next,
                            level_qty(m, c, d, levels@[j].unit_price as int),
                        ) by {
                            if j < at {
                                assert(levels@[j] == old_levels[j]);
                            } else if j > at {
                                assert(levels@[j] == old_levels[j - 1]);
                            }
                        }
                    }
                }
            }
            n = n + 1;
        }
        proof {
            assert(self@.orders.take(n as int) =~= self@.orders);
        }
        levels
    }
}

/// Own orders are listed by item, then by price, then by age.
pub open spec fn own_order_before() -> spec_fn(OrderRecordView, OrderRecordView) -> bool {
    |a: OrderRecordView, b: OrderRecordView|
        if a.order.item_id != b.order.item_id {
            text_before(a.order.item_id, b.order.item_id)
        } else if a.order.unit_price != b.order.unit_price {
            a.order.unit_price < b.order.unit_price
        } else {
            a.order.created_seq < b.order.created_seq
        }
}

/// Whether a trade is of this item at this market.
pub open spec fn is_trade_of(market: Seq<char>, item: Seq<char>) -> spec_fn(MarketTradeView) -> bool {
    |t: MarketTradeView| t.market_id == market && t.item_id == item
}

pub open spec fn newer() -> spec_fn(MarketTradeView, MarketTradeView) -> bool {
    |a: MarketTradeView, b: MarketTradeView| a.created_at > b.created_at
}

/// The orders of order rows.
fn orders_of(rows: Vec<OrderRecord>) -> (out: Vec<MarketOrder>)
    ensures
        rows_view(out@) == order_views(rows_view(rows@)),
{
    let mut out: Vec<MarketOrder> = Vec::new();
    let mut i: usize = 0;
    while i < rows.len()
        invariant
            i <= rows.len(),
            out.len() == i,
            forall|j: int| 0 <= j < i ==> (#[trigger] out@[j])@ == rows@[j]@.order,
        decreases rows.len() - i,
    {
        let o = rows[i].order.copy();
        out.push(o);
        i = i + 1;
    }
    assert(rows_view(out@) =~= order_views(rows_view(rows@)));
    out
}

impl Db {
    /// A character's own resting orders at a market, by item, price and age.
    pub fn open_orders_for_character(&self, market_id: &str, character_id: &str) -> (out: Vec<MarketOrder>)
        ensures
            rows_view(out@) == order_views(
                ordered(self@.orders.filter(is_open_order(market_id@, character_id@)), own_order_before()),
            ),
    {
        let f = |o: &OrderRecord| -> (b: bool)
            ensures
                b == is_open_order(market_id@, character_id@)(o@),
            { same(o.order.market_id.as_str(), market_id) && same(o.order.character_id.as_str(), character_id) };
        let rows = self.orders.select(f, Ghost(is_open_order(market_id@, character_id@)));
        let g = |a: &OrderRecord, b: &OrderRecord| -> (r: bool)
            ensures
                r == own_order_before()(a@, b@),
            {
                if !same(a.order.item_id.as_str(), b.order.item_id.as_str()) {
                    before(a.order.item_id.as_str(), b.order.item_id.as_str())
                } else if a.order.unit_price != b.order.unit_price {
                    a.order.unit_price < b.order.unit_price
                } else {
                    a.order.created_seq < b.order.created_seq
                }
            };
        let sorted = order_rows(rows, g, Ghost(own_order_before()));
        orders_of(sorted)
    }

    /// The most recent trades of an item at a market, newest first. Trades of one second stand in
    /// the reverse of the order in which they were made.
    pub fn recent_trades(&self, market_id: &str, item_id: &str, limit: i64) -> (out: Vec<MarketTrade>)
        ensures
            rows_view(out@) == limited(
                ordered(self@.trades.filter(is_trade_of(market_id@, item_id@)).reverse(), newer()),
                limit as int,
            ),
    {
        let f = |t: &MarketTrade| -> (b: bool)
            ensures
                b == is_trade_of(market_id@, item_id@)(t@),
            { same(t.market_id.as_str(), market_id) && same(t.item_id.as_str(), item_id) };
        let rows = self.trades.select(f, Ghost(is_trade_of(market_id@, item_id@)));
        let rows = reverse_rows(rows);
        let g = |a: &MarketTrade, b: &MarketTrade| -> (r: bool)
            ensures
                r == newer()(a@, b@),
            { a.created_at > b.created_at };
        let sorted = order_rows(rows, g, Ghost(newer()));
        limit_rows(sorted, limit)
    }
}

/// Nothing rests at a price that is not quoted.
proof fn lemma_not_quoted(
    orders: Seq<OrderRecordView>,
    market: Seq<char>,
    item: Seq<char>,
    side: Seq<char>,
    price: int,
)
    requires
        !quoted(orders, market, item, side, price),
    ensures
        sum(orders, level_qty(market, item, side, price)) == 0,
    decreases orders.len(),
{
    if orders.len() > 0 {
        let head = orders.drop_last();
        if quoted(head, market, item, side, price) {
            let i = choose|i: int|
                0 <= i < head.len() && on_book(#[trigger] head[i], market, item, side) && head[i].order.unit_price
                    == price;
            assert(orders[i] == head[i]);
        }
        lemma_not_quoted(head, market, item, side, price);
        assert(orders[orders.len() - 1] == orders.last());
    }
}

/// What rests at a level is no more than what rests on the side.
proof fn lemma_level_bound(
    orders: Seq<OrderRecordView>,
    market: Seq<char>,
    item: Seq<char>,
    side: Seq<char>,
    price: int,
    n: int,
)
    requires
        0 <= n <= orders.len(),
        forall|i: int| 0 <= i < orders.len() ==> (#[trigger] orders[i]).order.qty_remaining >= 0,
    ensures
        sum(orders.take(n), level_qty(market, item, side, price)) <= sum(orders, side_qty(market, item, side)),
{
    lemma_sum_le(orders.take(n), level_qty(market, item, side, price), side_qty(market, item, side));
    lemma_sum_prefix(orders, side_qty(market, item, side), n);
}

} // verus!
