//! The health of the books: what must hold of every market at all times, and what is wrong where it does not.

use vstd::prelude::*;

use vstd::string::StringExecFns;

use crate::numerals::{numeral, write_number};
use crate::persistence::db::{Db, DbView};
use crate::persistence::rows::{
    MarketOrder, MarketOrderView, OrderRecord, OrderRecordView, WarehouseItem, WarehouseItemView,
};
use crate::persistence::storage_fees::names_view;
use crate::table::{rows_view, sum};
use crate::tally::{law_sorted_names, note_name, sorted_names};
use crate::text::{pairs_view, same};

verus! {

/// How much of an item a warehouse row holds in escrow at a market.
pub open spec fn locked_at(market: Seq<char>, item: Seq<char>) -> spec_fn(WarehouseItemView) -> int {
    |w: WarehouseItemView|
        if w.market_id == market && w.item_id == item && w.state == "locked"@ {
            w.qty
        } else {
            0
        }
}

/// How much of an item an open sell order promises at a market.
pub open spec fn promised_at(market: Seq<char>, item: Seq<char>) -> spec_fn(OrderRecordView) -> int {
    |o: OrderRecordView|
        if o.order.market_id == market && o.order.item_id == item && o.order.side == "sell"@ {
            o.order.qty_remaining
        } else {
            0
        }
}

/// What is escrowed of every item at every market can be counted.
pub open spec fn escrow_countable(s: DbView) -> bool {
    &&& forall|market: Seq<char>, item: Seq<char>|
        i64::MIN <= #[trigger] sum(s.warehouse, locked_at(market, item)) <= i64::MAX
    &&& forall|market: Seq<char>, item: Seq<char>|
        i64::MIN <= #[trigger] sum(s.orders, promised_at(market, item)) <= i64::MAX
}

/// The markets of what is in escrow, in the warehouses and on the books.
pub open spec fn escrow_markets(s: DbView) -> Seq<Seq<char>> {
    Seq::new(s.warehouse.len(), |i: int| s.warehouse[i].market_id) + Seq::new(
        s.orders.len(),
        |i: int| s.orders[i].order.market_id,
    )
}

pub open spec fn is_locked_at(market: Seq<char>) -> spec_fn(WarehouseItemView) -> bool {
    |w: WarehouseItemView| w.market_id == market && w.state == "locked"@
}

pub open spec fn is_sell_at(market: Seq<char>) -> spec_fn(OrderRecordView) -> bool {
    |o: OrderRecordView| o.order.market_id == market && o.order.side == "sell"@
}

/// The items in escrow at a market: what is locked in its warehouses, and what is on sale on its book.
pub open spec fn escrow_items(s: DbView, market: Seq<char>) -> Seq<Seq<char>> {
    let locked = s.warehouse.filter(is_locked_at(market));
    let sells = s.orders.filter(is_sell_at(market));
    Seq::new(locked.len(), |i: int| locked[i].item_id) + Seq::new(sells.len(), |i: int| sells[i].order.item_id)
}

/// Every item in escrow at a market, by name, with what the book promises of it and what is locked.
pub open spec fn reconciled(s: DbView, market: Seq<char>) -> Seq<(Seq<char>, int, int)> {
    let items = sorted_names(escrow_items(s, market));
    Seq::new(
        items.len(),
        |i: int|
            (
                items[i].0,
                sum(s.orders, promised_at(market, items[i].0)),
                sum(s.warehouse, locked_at(market, items[i].0)),
            ),
    )
}

/// The view of a reconciliation.
pub open spec fn lines_view(v: Seq<(String, i64, i64)>) -> Seq<(Seq<char>, int, int)> {
    Seq::new(v.len(), |i: int| (v[i].0@, v[i].1 as int, v[i].2 as int))
}

pub open spec fn drift_text(market: Seq<char>, item: Seq<char>, book: int, locked: int) -> Seq<char> {
    "escrow drift at "@ + market + "/"@ + item + ": open sells promise "@ + numeral(book) + ", warehouse holds "@
        + numeral(locked)
}

/// What is wrong with the escrow of a market, over its reconciliation.
pub open spec fn drifts(market: Seq<char>, lines: Seq<(Seq<char>, int, int)>) -> Seq<Seq<char>>
    decreases lines.len(),
{
    if lines.len() == 0 {
        Seq::empty()
    } else {
        let head = drifts(market, lines.drop_last());
        let (item, book, locked) = lines.last();
        if book != locked {
            head.push(drift_text(market, item, book, locked))
        } else {
            head
        }
    }
}

/// What is wrong with the escrow of these markets.
pub open spec fn escrow_problems(s: DbView, markets: Seq<(Seq<char>, int)>) -> Seq<Seq<char>>
    decreases markets.len(),
{
    if markets.len() == 0 {
        Seq::empty()
    } else {
        escrow_problems(s, markets.drop_last()) + drifts(markets.last().0, reconciled(s, markets.last().0))
    }
}

/// An order that rests at nothing, or at more than it was for.
pub open spec fn is_nonsense(o: MarketOrderView) -> bool {
    o.qty_remaining <= 0 || o.qty_remaining > o.qty_total
}

pub open spec fn nonsense_text(o: MarketOrderView) -> Seq<char> {
    "order "@ + o.id + " rests at "@ + numeral(o.qty_remaining) + " of "@ + numeral(o.qty_total)
}

/// What is wrong with the quantities of the orders.
pub open spec fn nonsense_problems(orders: Seq<OrderRecordView>) -> Seq<Seq<char>>
    decreases orders.len(),
{
    if orders.len() == 0 {
        Seq::empty()
    } else {
        let head = nonsense_problems(orders.drop_last());
        if is_nonsense(orders.last().order) {
            head.push(nonsense_text(orders.last().order))
        } else {
            head
        }
    }
}

/// A bid that rests against another owner's ask, though it pays at least as much.
pub open spec fn crossed(b: MarketOrderView, a: MarketOrderView) -> bool {
    &&& b.market_id == a.market_id
    &&& b.item_id == a.item_id
    &&& b.side == "buy"@
    &&& a.side == "sell"@
    &&& b.character_id != a.character_id
    &&& b.unit_price >= a.unit_price
}

/// Orders `i` and `j` cross, for an item at a market.
pub open spec fn crossed_at(orders: Seq<OrderRecordView>, market: Seq<char>, item: Seq<char>, i: int, j: int) -> bool {
    &&& 0 <= i < orders.len()
    &&& 0 <= j < orders.len()
    &&& orders[i].order.market_id == market
    &&& orders[i].order.item_id == item
    &&& crossed(orders[i].order, orders[j].order)
}

pub open spec fn has_cross(orders: Seq<OrderRecordView>, market: Seq<char>, item: Seq<char>) -> bool {
    exists|i: int, j: int| #[trigger] crossed_at(orders, market, item, i, j)
}

/// The highest bid and the lowest ask of what crosses.
pub open spec fn is_widest(
    orders: Seq<OrderRecordView>,
    market: Seq<char>,
    item: Seq<char>,
    bid: int,
    ask: int,
) -> bool {
    &&& exists|i: int, j: int|
        #[trigger] crossed_at(orders, market, item, i, j) && orders[i].order.unit_price == bid
    &&& exists|i: int, j: int|
        #[trigger] crossed_at(orders, market, item, i, j) && orders[j].order.unit_price == ask
    &&& forall|i: int, j: int|
        #[trigger] crossed_at(orders, market, item, i, j) ==> orders[i].order.unit_price <= bid && orders[j].order.unit_price
            >= ask
}

pub open spec fn widest(orders: Seq<OrderRecordView>, market: Seq<char>, item: Seq<char>) -> (int, int) {
    choose|p: (int, int)| is_widest(orders, market, item, p.0, p.1)
}

pub open spec fn crossed_text(market: Seq<char>, item: Seq<char>, bid: int, ask: int) -> Seq<char> {
    "crossed book at "@ + market + "/"@ + item + ": a bid at "@ + numeral(bid)
        + " rests against another player's ask at "@ + numeral(ask)
}

pub open spec fn is_order_at(market: Seq<char>) -> spec_fn(OrderRecordView) -> bool {
    |o: OrderRecordView| o.order.market_id == market
}

/// The items that a market's orders are for.
pub open spec fn order_items(orders: Seq<OrderRecordView>, market: Seq<char>) -> Seq<Seq<char>> {
    let own = orders.filter(is_order_at(market));
    Seq::new(own.len(), |i: int| own[i].order.item_id)
}

/// What is crossed at a market, over the items of its orders.
pub open spec fn crosses_at(orders: Seq<OrderRecordView>, market: Seq<char>, items: Seq<(Seq<char>, int)>) -> Seq<
    Seq<char>,
>
    decreases items.len(),
{
    if items.len() == 0 {
        Seq::empty()
    } else {
        let head = crosses_at(orders, market, items.drop_last());
        let item = items.last().0;
        if has_cross(orders, market, item) {
            let (bid, ask) = widest(orders, market, item);
            head.push(crossed_text(market, item, bid, ask))
        } else {
            head
        }
    }
}

/// What is crossed at these markets.
pub open spec fn cross_problems(orders: Seq<OrderRecordView>, markets: Seq<(Seq<char>, int)>) -> Seq<Seq<char>>
    decreases markets.len(),
{
    if markets.len() == 0 {
        Seq::empty()
    } else {
        cross_problems(orders, markets.drop_last()) + crosses_at(
            orders,
            markets.last().0,
            sorted_names(order_items(orders, markets.last().0)),
        )
    }
}

/// Everything that is wrong with the books.
pub open spec fn problems(s: DbView) -> Seq<Seq<char>> {
    let markets = sorted_names(escrow_markets(s));
    escrow_problems(s, markets) + nonsense_problems(s.orders) + cross_problems(s.orders, markets)
}

/// The books are in order: locked stock is what open sells promise, for every item at every market; every order
/// rests at something and at no more than it was for; and no bid rests against another owner's ask.
pub open spec fn healthy(s: DbView) -> bool {
    &&& forall|market: Seq<char>, item: Seq<char>|
        #[trigger] sum(s.warehouse, locked_at(market, item)) == sum(s.orders, promised_at(market, item))
    &&& forall|i: int| 0 <= i < s.orders.len() ==> !is_nonsense((#[trigger] s.orders[i]).order)
    &&& forall|i: int, j: int|
        0 <= i < s.orders.len() && 0 <= j < s.orders.len() ==> !crossed(
            (#[trigger] s.orders[i]).order,
            (#[trigger] s.orders[j]).order,
        )
}

fn is_cross(b: &MarketOrder, a: &MarketOrder) -> (yes: bool)
    ensures
        yes == crossed(b@, a@),
{
    b.unit_price >= a.unit_price && same(b.side.as_str(), "buy") && same(a.side.as_str(), "sell") && same(
        b.market_id.as_str(),
        a.market_id.as_str(),
    ) && same(b.item_id.as_str(), a.item_id.as_str()) && !same(b.character_id.as_str(), a.character_id.as_str())
}

impl Db {
    /// The markets of what is in escrow, by name.
    fn markets_in_escrow(&self) -> (names: Vec<(String, i64)>)
        ensures
            pairs_view(names@) == sorted_names(escrow_markets(self@)),
    {
        let ghost all = escrow_markets(self@);
        let mut names: Vec<(String, i64)> = Vec::new();
        let mut i: usize = 0;
        assert(all.take(0) =~= Seq::empty());
        assert(pairs_view(names@) =~= sorted_names(all.take(0)));
        while i < self.warehouse.len()
            invariant
                i <= self@.warehouse.len(),
                all == escrow_markets(self@),
                pairs_view(names@) == sorted_names(all.take(i as int)),
            decreases self@.warehouse.len() - i,
        {
            note_name(&mut names, self.warehouse.get(i).market_id.as_str(), Ghost(all.take(i as int)));
            assert(all.take(i as int).push(all[i as int]) =~= all.take(i + 1));
            i = i + 1;
        }
        let n: usize = self.warehouse.len();
        let mut j: usize = 0;
        while j < self.orders.len()
            invariant
                j <= self@.orders.len(),
                n == self@.warehouse.len(),
                all == escrow_markets(self@),
                pairs_view(names@) == sorted_names(all.take(n + j)),
            decreases self@.orders.len() - j,
        {
            note_name(&mut names, self.orders.get(j).order.market_id.as_str(), Ghost(all.take(n + j)));
            assert(all.take(n + j).push(all[n + j]) =~= all.take(n + j + 1));
            j = j + 1;
        }
        assert(all.take(n + j) =~= all);
        names
    }

    /// The items in escrow at a market, by name.
    fn items_in_escrow(&self, market_id: &str) -> (names: Vec<(String, i64)>)
        ensures
            pairs_view(names@) == sorted_names(escrow_items(self@, market_id@)),
    {
        let f = |w: &WarehouseItem| -> (b: bool)
            ensures
                b == is_locked_at(market_id@)(w@),
            { same(w.market_id.as_str(), market_id) && same(w.state.as_str(), "locked") };
        let locked = self.warehouse.select(f, Ghost(is_locked_at(market_id@)));
        let g = |o: &OrderRecord| -> (b: bool)
            ensures
                b == is_sell_at(market_id@)(o@),
            { same(o.order.market_id.as_str(), market_id) && same(o.order.side.as_str(), "sell") };
        let sells = self.orders.select(g, Ghost(is_sell_at(market_id@)));
        let ghost all = escrow_items(self@, market_id@);
        let ghost rows = rows_view(locked@);
        let ghost asks = rows_view(sells@);
        let mut names: Vec<(String, i64)> = Vec::new();
        let mut i: usize = 0;
        assert(all.take(0) =~= Seq::empty());
        assert(pairs_view(names@) =~= sorted_names(all.take(0)));
        while i < locked.len()
            invariant
                i <= locked.len(),
                rows == rows_view(locked@),
                rows == self@.warehouse.filter(is_locked_at(market_id@)),
                all == escrow_items(self@, market_id@),
                pairs_view(names@) == sorted_names(all.take(i as int)),
            decreases locked.len() - i,
        {
            assert(rows[i as int] == locked@[i as int]@);
            note_name(&mut names, locked[i].item_id.as_str(), Ghost(all.take(i as int)));
            assert(all.take(i as int).push(all[i as int]) =~= all.take(i + 1));
            i = i + 1;
        }
        let n: usize = locked.len();
        let mut j: usize = 0;
        while j < sells.len()
            invariant
                j <= sells.len(),
                n == rows.len(),
                rows == self@.warehouse.filter(is_locked_at(market_id@)),
                asks == rows_view(sells@),
                asks == self@.orders.filter(is_sell_at(market_id@)),
                all == escrow_items(self@, market_id@),
                pairs_view(names@) == sorted_names(all.take(n + j)),
            decreases sells.len() - j,
        {
            assert(asks[j as int] == sells@[j as int]@);
            note_name(&mut names, sells[j].order.item_id.as_str(), Ghost(all.take(n + j)));
            assert(all.take(n + j).push(all[n + j]) =~= all.take(n + j + 1));
            j = j + 1;
        }
        assert(all.take(n + j) =~= all);
        names
    }

    /// What is escrowed at a market: for every item on sale on its book or locked in its warehouses, by name,
    /// how much the open sells promise and how much is locked. The two must be equal.
    pub fn escrow_reconciliation(&self, market_id: &str) -> (out: Vec<(String, i64, i64)>)
        requires
            escrow_countable(self@),
        ensures
            lines_view(out@) == reconciled(self@, market_id@),
    {
        let names = self.items_in_escrow(market_id);
        let ghost items = pairs_view(names@);
        let mut out: Vec<(String, i64, i64)> = Vec::new();
        let mut i: usize = 0;
        while i < names.len()
            invariant
                i <= names.len(),
                escrow_countable(self@),
                items == pairs_view(names@),
                out.len() == i,
                forall|j: int|
                    0 <= j < i ==> {
                        &&& (#[trigger] out@[j]).0@ == items[j].0
                        &&& out@[j].1 == sum(self@.orders, promised_at(market_id@, items[j].0))
                        &&& out@[j].2 == sum(self@.warehouse, locked_at(market_id@, items[j].0))
                    },
            decreases names.len() - i,
        {
            let item = &names[i].0;
            assert(items[i as int].0 == item@);
            assert(i64::MIN <= sum(self@.orders, promised_at(market_id@, item@)) <= i64::MAX);
            assert(i64::MIN <= sum(self@.warehouse, locked_at(market_id@, item@)) <= i64::MAX);
            let f = |o: &OrderRecord| -> (n: i64)
                ensures
                    n == promised_at(market_id@, item@)(o@),
                {
                    if same(o.order.market_id.as_str(), market_id) && same(
                        o.order.item_id.as_str(),
                        item.as_str(),
                    ) && same(o.order.side.as_str(), "sell") {
                        o.order.qty_remaining
                    } else {
                        0
                    }
                };
            let book: i64 = self.orders.sum(f, Ghost(promised_at(market_id@, item@)));
            let g = |w: &WarehouseItem| -> (n: i64)
                ensures
                    n == locked_at(market_id@, item@)(w@),
                {
                    if same(w.market_id.as_str(), market_id) && same(w.item_id.as_str(), item.as_str()) && same(
                        w.state.as_str(),
                        "locked",
                    ) {
                        w.qty
                    } else {
                        0
                    }
                };
            let locked: i64 = self.warehouse.sum(g, Ghost(locked_at(market_id@, item@)));
            out.push((item.clone(), book, locked));
            i = i + 1;
        }
        assert(lines_view(out@) =~= reconciled(self@, market_id@));
        out
    }

    /// Report what is wrong with the escrow of a market.
    fn report_drift(&self, market_id: &str, out: &mut Vec<String>)
        requires
            escrow_countable(self@),
        ensures
            names_view(final(out)@) == names_view(old(out)@) + drifts(market_id@, reconciled(self@, market_id@)),
    {
        let ghost was = names_view(out@);
        let lines = self.escrow_reconciliation(market_id);
        let ghost all = reconciled(self@, market_id@);
        let mut i: usize = 0;
        assert(all.take(0) =~= Seq::empty());
        assert(was + drifts(market_id@, all.take(0)) =~= was);
        while i < lines.len()
            invariant
                i <= lines.len(),
                all == lines_view(lines@),
                names_view(out@) == was + drifts(market_id@, all.take(i as int)),
            decreases lines.len() - i,
        {
            let (item, book, locked) = (&lines[i].0, lines[i].1, lines[i].2);
            let ghost before = out@;
            assert(all.take(i + 1).drop_last() =~= all.take(i as int));
            assert(all.take(i + 1).last() == (item@, book as int, locked as int));
            if book != locked {
                let mut text = "escrow drift at ".to_string();
                text.append(market_id);
                text.append("/");
                text.append(item.as_str());
                text.append(": open sells promise ");
                write_number(&mut text, book);
                text.append(", warehouse holds ");
                write_number(&mut text, locked);
                out.push(text);
                assert(names_view(out@) =~= names_view(before).push(text@));
            }
            assert(names_view(out@) =~= was + drifts(market_id@, all.take(i + 1)));
            i = i + 1;
        }
        assert(all.take(i as int) =~= all);
    }

    /// Report the orders that rest at a quantity that makes no sense.
    fn report_nonsense(&self, out: &mut Vec<String>)
        ensures
            names_view(final(out)@) == names_view(old(out)@) + nonsense_problems(self@.orders),
    {
        let ghost was = names_view(out@);
        let ghost all = self@.orders;
        let mut i: usize = 0;
        assert(all.take(0) =~= Seq::empty());
        assert(was + nonsense_problems(all.take(0)) =~= was);
        while i < self.orders.len()
            invariant
                i <= self@.orders.len(),
                all == self@.orders,
                names_view(out@) == was + nonsense_problems(all.take(i as int)),
            decreases self@.orders.len() - i,
        {
            let ghost before = out@;
            let o = &self.orders.get(i).order;
            assert(all.take(i + 1).drop_last() =~= all.take(i as int));
            assert(all.take(i + 1).last().order == o@);
            if o.qty_remaining <= 0 || o.qty_remaining > o.qty_total {
                let mut text = "order ".to_string();
                text.append(o.id.as_str());
                text.append(" rests at ");
                write_number(&mut text, o.qty_remaining);
                text.append(" of ");
                write_number(&mut text, o.qty_total);
                out.push(text);
                assert(names_view(out@) =~= names_view(before).push(text@));
            }
            assert(names_view(out@) =~= was + nonsense_problems(all.take(i + 1)));
            i = i + 1;
        }
        assert(all.take(i as int) =~= all);
    }

    /// The items that a market's orders are for, by name.
    fn items_on_order(&self, market_id: &str) -> (names: Vec<(String, i64)>)
        ensures
            pairs_view(names@) == sorted_names(order_items(self@.orders, market_id@)),
    {
        let g = |o: &OrderRecord| -> (b: bool)
            ensures
                b == is_order_at(market_id@)(o@),
            { same(o.order.market_id.as_str(), market_id) };
        let rows = self.orders.select(g, Ghost(is_order_at(market_id@)));
        let ghost own = rows_view(rows@);
        let ghost all = order_items(self@.orders, market_id@);
        let mut names: Vec<(String, i64)> = Vec::new();
        let mut i: usize = 0;
        assert(all.take(0) =~= Seq::empty());
        assert(pairs_view(names@) =~= sorted_names(all.take(0)));
        while i < rows.len()
            invariant
                i <= rows.len(),
                own == rows_view(rows@),
                own == self@.orders.filter(is_order_at(market_id@)),
                all == order_items(self@.orders, market_id@),
                pairs_view(names@) == sorted_names(all.take(i as int)),
            decreases rows.len() - i,
        {
            assert(own[i as int] == rows@[i as int]@);
            note_name(&mut names, rows[i].order.item_id.as_str(), Ghost(all.take(i as int)));
            assert(all.take(i as int).push(all[i as int]) =~= all.take(i + 1));
            i = i + 1;
        }
        assert(all.take(i as int) =~= all);
        names
    }

    /// The highest bid and the lowest ask of what crosses, for an item at a market.
    fn widest_cross(&self, market_id: &str, item_id: &str) -> (out: Option<(i64, i64)>)
        ensures
            out is Some == has_cross(self@.orders, market_id@, item_id@),
            out matches Some((bid, ask)) ==> is_widest(
                self@.orders,
                market_id@,
                item_id@,
                bid as int,
                ask as int,
            ),
    {
        let ghost orders = self@.orders;
        let n: usize = self.orders.len();
        let mut out: Option<(i64, i64)> = None;
        let mut i: usize = 0;
        while i < n
            invariant
                i <= n,
                n == orders.len(),
                orders == self@.orders,
                widest_so_far(orders, market_id@, item_id@, i as int, 0, opt_prices(out)),
            decreases n - i,
        {
            let b = &self.orders.get(i).order;
            if same(b.market_id.as_str(), market_id) && same(b.item_id.as_str(), item_id) {
                let mut j: usize = 0;
                while j < n
                    invariant
                        i < n,
                        j <= n,
                        n == orders.len(),
                        orders == self@.orders,
                        b@ == orders[i as int].order,
                        b@.market_id == market_id@,
                        b@.item_id == item_id@,
                        widest_so_far(orders, market_id@, item_id@, i as int, j as int, opt_prices(out)),
                    decreases n - j,
                {
                    let a = &self.orders.get(j).order;
                    let ghost was = opt_prices(out);
                    if is_cross(b, a) {
                        assert(crossed_at(orders, market_id@, item_id@, i as int, j as int));
                        let (bid, ask): (i64, i64) = match out {
                            None => (b.unit_price, a.unit_price),
                            Some((bid, ask)) => (
                                if b.unit_price > bid {
                                    b.unit_price
                                } else {
                                    bid
                                },
                                if a.unit_price < ask {
                                    a.unit_price
                                } else {
                                    ask
                                },
                            ),
                        };
                        out = Some((bid, ask));
                    }
                    proof {
                        lemma_widest_step(
                            orders,
                            market_id@,
                            item_id@,
                            i as int,
                            j as int,
                            was,
                            opt_prices(out),
                        );
                    }
                    j = j + 1;
                }
            }
            proof {
                lemma_widest_row(orders, market_id@, item_id@, i as int, opt_prices(out));
            }
            i = i + 1;
        }
        proof {
            lemma_widest_done(orders, market_id@, item_id@, opt_prices(out));
        }
        out
    }

    /// Report what is crossed at a market.
    fn report_crosses(&self, market_id: &str, out: &mut Vec<String>)
        ensures
            names_view(final(out)@) == names_view(old(out)@) + crosses_at(
                self@.orders,
                market_id@,
                sorted_names(order_items(self@.orders, market_id@)),
            ),
    {
        let ghost was = names_view(out@);
        let names = self.items_on_order(market_id);
        let ghost all = pairs_view(names@);
        let mut i: usize = 0;
        assert(all.take(0) =~= Seq::empty());
        assert(was + crosses_at(self@.orders, market_id@, all.take(0)) =~= was);
        while i < names.len()
            invariant
                i <= names.len(),
                all == pairs_view(names@),
                names_view(out@) == was + crosses_at(self@.orders, market_id@, all.take(i as int)),
            decreases names.len() - i,
        {
            let item = &names[i].0;
            let ghost before = out@;
            assert(all.take(i + 1).drop_last() =~= all.take(i as int));
            assert(all.take(i + 1).last().0 == item@);
            match self.widest_cross(market_id, item.as_str()) {
                Some((bid, ask)) => {
                    proof {
                        lemma_widest_is(self@.orders, market_id@, item@, bid as int, ask as int);
                    }
                    let mut text = "crossed book at ".to_string();
                    text.append(market_id);
                    text.append("/");
                    text.append(item.as_str());
                    text.append(": a bid at ");
                    write_number(&mut text, bid);
                    text.append(" rests against another player's ask at ");
                    write_number(&mut text, ask);
                    out.push(text);
                    assert(names_view(out@) =~= names_view(before).push(text@));
                },
                None => {},
            }
            assert(names_view(out@) =~= was + crosses_at(self@.orders, market_id@, all.take(i + 1)));
            i = i + 1;
        }
        assert(all.take(i as int) =~= all);
    }

    /// What is wrong with the books, in words; nothing means that they are healthy. Across every market: locked
    /// stock must be what open sells promise, orders must rest at sensible quantities, and no bid may rest
    /// against another owner's ask. Orders of one owner may cross: nobody trades with themselves.
    pub fn book_health(&self) -> (out: Vec<String>)
        requires
            escrow_countable(self@),
        ensures
            names_view(out@) == problems(self@),
            out@.len() == 0 <==> healthy(self@),
    {
        let markets = self.markets_in_escrow();
        let ghost all = pairs_view(markets@);
        let mut out: Vec<String> = Vec::new();
        let mut i: usize = 0;
        assert(all.take(0) =~= Seq::empty());
        assert(names_view(out@) =~= escrow_problems(self@, all.take(0)));
        while i < markets.len()
            invariant
                i <= markets.len(),
                escrow_countable(self@),
                all == pairs_view(markets@),
                names_view(out@) == escrow_problems(self@, all.take(i as int)),
            decreases markets.len() - i,
        {
            assert(all.take(i + 1).drop_last() =~= all.take(i as int));
            assert(all.take(i + 1).last().0 == markets@[i as int].0@);
            self.report_drift(markets[i].0.as_str(), &mut out);
            i = i + 1;
        }
        assert(all.take(i as int) =~= all);
        self.report_nonsense(&mut out);
        let ghost so_far = names_view(out@);
        let mut j: usize = 0;
        assert(so_far + cross_problems(self@.orders, all.take(0)) =~= so_far);
        while j < markets.len()
            invariant
                j <= markets.len(),
                all == pairs_view(markets@),
                names_view(out@) == so_far + cross_problems(self@.orders, all.take(j as int)),
            decreases markets.len() - j,
        {
            assert(all.take(j + 1).drop_last() =~= all.take(j as int));
            assert(all.take(j + 1).last().0 == markets@[j as int].0@);
            let ghost head = cross_problems(self@.orders, all.take(j as int));
            let ghost tail = crosses_at(
                self@.orders,
                markets@[j as int].0@,
                sorted_names(order_items(self@.orders, markets@[j as int].0@)),
            );
            self.report_crosses(markets[j].0.as_str(), &mut out);
            assert((so_far + head) + tail =~= so_far + (head + tail));
            j = j + 1;
        }
        assert(all.take(j as int) =~= all);
        proof {
            law_no_problems_means_healthy(self@);
        }
        out
    }
}

pub open spec fn opt_prices(o: Option<(i64, i64)>) -> Option<(int, int)> {
    match o {
        Some((bid, ask)) => Some((bid as int, ask as int)),
        None => None,
    }
}

/// Pair `(x, y)` comes before `(i, j)` where pairs are gone through row by row.
spec fn pair_before(x: int, y: int, i: int, j: int) -> bool {
    x < i || x == i && y < j
}

/// The widest of the crossing pairs before `(i, j)`.
spec fn widest_so_far(
    orders: Seq<OrderRecordView>,
    market: Seq<char>,
    item: Seq<char>,
    i: int,
    j: int,
    out: Option<(int, int)>,
) -> bool {
    match out {
        None => forall|x: int, y: int| #[trigger] crossed_at(orders, market, item, x, y) ==> !pair_before(x, y, i, j),
        Some((bid, ask)) => {
            &&& exists|x: int, y: int|
                #[trigger] crossed_at(orders, market, item, x, y) && orders[x].order.unit_price == bid
            &&& exists|x: int, y: int|
                #[trigger] crossed_at(orders, market, item, x, y) && orders[y].order.unit_price == ask
            &&& forall|x: int, y: int|
                #[trigger] crossed_at(orders, market, item, x, y) && pair_before(x, y, i, j) ==> {
                    &&& orders[x].order.unit_price <= bid
                    &&& orders[y].order.unit_price >= ask
                }
        },
    }
}

proof fn lemma_widest_step(
    orders: Seq<OrderRecordView>,
    market: Seq<char>,
    item: Seq<char>,
    i: int,
    j: int,
    was: Option<(int, int)>,
    now: Option<(int, int)>,
)
    requires
        widest_so_far(orders, market, item, i, j, was),
        0 <= i < orders.len(),
        0 <= j < orders.len(),
        !crossed_at(orders, market, item, i, j) ==> now == was,
        crossed_at(orders, market, item, i, j) ==> now == Some(
            match was {
                None => (orders[i].order.unit_price, orders[j].order.unit_price),
                Some((bid, ask)) => (
                    if orders[i].order.unit_price > bid {
                        orders[i].order.unit_price
                    } else {
                        bid
                    },
                    if orders[j].order.unit_price < ask {
                        orders[j].order.unit_price
                    } else {
                        ask
                    },
                ),
            },
        ),
    ensures
        widest_so_far(orders, market, item, i, j + 1, now),
{
}

proof fn lemma_widest_row(
    orders: Seq<OrderRecordView>,
    market: Seq<char>,
    item: Seq<char>,
    i: int,
    out: Option<(int, int)>,
)
    requires
        0 <= i < orders.len(),
        widest_so_far(orders, market, item, i, orders.len() as int, out) || widest_so_far(
            orders,
            market,
            item,
            i,
            0,
            out,
        ) && !(orders[i].order.market_id == market && orders[i].order.item_id == item),
    ensures
        widest_so_far(orders, market, item, i + 1, 0, out),
{
}

proof fn lemma_widest_done(
    orders: Seq<OrderRecordView>,
    market: Seq<char>,
    item: Seq<char>,
    out: Option<(int, int)>,
)
    requires
        widest_so_far(orders, market, item, orders.len() as int, 0, out),
    ensures
        out is Some == has_cross(orders, market, item),
        out matches Some((bid, ask)) ==> is_widest(orders, market, item, bid, ask),
{
}

proof fn lemma_widest_is(orders: Seq<OrderRecordView>, market: Seq<char>, item: Seq<char>, bid: int, ask: int)
    requires
        is_widest(orders, market, item, bid, ask),
    ensures
        widest(orders, market, item) == (bid, ask),
{
    let p = (bid, ask);
    assert(is_widest(orders, market, item, p.0, p.1));
    let q = widest(orders, market, item);
    assert(is_widest(orders, market, item, q.0, q.1));
}

proof fn lemma_drifts(market: Seq<char>, lines: Seq<(Seq<char>, int, int)>)
    ensures
        drifts(market, lines).len() == 0 <==> forall|i: int|
            0 <= i < lines.len() ==> (#[trigger] lines[i]).1 == lines[i].2,
    decreases lines.len(),
{
    if lines.len() > 0 {
        let head = lines.drop_last();
        lemma_drifts(market, head);
        if drifts(market, lines).len() == 0 {
            assert forall|i: int| 0 <= i < lines.len() implies (#[trigger] lines[i]).1 == lines[i].2 by {
                if i < head.len() {
                    assert(head[i] == lines[i]);
                }
            }
        }
        if forall|i: int| 0 <= i < lines.len() ==> (#[trigger] lines[i]).1 == lines[i].2 {
            assert forall|i: int| 0 <= i < head.len() implies (#[trigger] head[i]).1 == head[i].2 by {
                assert(head[i] == lines[i]);
            }
            assert(lines[lines.len() - 1].1 == lines[lines.len() - 1].2);
        }
    }
}

proof fn lemma_escrow_problems(s: DbView, markets: Seq<(Seq<char>, int)>)
    ensures
        escrow_problems(s, markets).len() == 0 <==> forall|i: int|
            0 <= i < markets.len() ==> drifts((#[trigger] markets[i]).0, reconciled(s, markets[i].0)).len() == 0,
    decreases markets.len(),
{
    if markets.len() > 0 {
        let head = markets.drop_last();
        lemma_escrow_problems(s, head);
        if escrow_problems(s, markets).len() == 0 {
            assert forall|i: int| 0 <= i < markets.len() implies drifts(
                (#[trigger] markets[i]).0,
                reconciled(s, markets[i].0),
            ).len() == 0 by {
                if i < head.len() {
                    assert(head[i] == markets[i]);
                }
            }
        }
        if forall|i: int|
            0 <= i < markets.len() ==> drifts((#[trigger] markets[i]).0, reconciled(s, markets[i].0)).len()
                == 0 {
            assert forall|i: int| 0 <= i < head.len() implies drifts(
                (#[trigger] head[i]).0,
                reconciled(s, head[i].0),
            ).len() == 0 by {
                assert(head[i] == markets[i]);
            }
            assert(drifts(markets[markets.len() - 1].0, reconciled(s, markets[markets.len() - 1].0)).len() == 0);
        }
    }
}

proof fn lemma_nonsense(orders: Seq<OrderRecordView>)
    ensures
        nonsense_problems(orders).len() == 0 <==> forall|i: int|
            0 <= i < orders.len() ==> !is_nonsense((#[trigger] orders[i]).order),
    decreases orders.len(),
{
    if orders.len() > 0 {
        let head = orders.drop_last();
        lemma_nonsense(head);
        if nonsense_problems(orders).len() == 0 {
            assert forall|i: int| 0 <= i < orders.len() implies !is_nonsense((#[trigger] orders[i]).order) by {
                if i < head.len() {
                    assert(head[i] == orders[i]);
                }
            }
        }
        if forall|i: int| 0 <= i < orders.len() ==> !is_nonsense((#[trigger] orders[i]).order) {
            assert forall|i: int| 0 <= i < head.len() implies !is_nonsense((#[trigger] head[i]).order) by {
                assert(head[i] == orders[i]);
            }
            assert(!is_nonsense(orders[orders.len() - 1].order));
        }
    }
}

proof fn lemma_crosses_at(orders: Seq<OrderRecordView>, market: Seq<char>, items: Seq<(Seq<char>, int)>)
    ensures
        crosses_at(orders, market, items).len() == 0 <==> forall|i: int|
            0 <= i < items.len() ==> !has_cross(orders, market, (#[trigger] items[i]).0),
    decreases items.len(),
{
    if items.len() > 0 {
        let head = items.drop_last();
        lemma_crosses_at(orders, market, head);
        if crosses_at(orders, market, items).len() == 0 {
            assert forall|i: int| 0 <= i < items.len() implies !has_cross(orders, market, (#[trigger] items[i]).0) by {
                if i < head.len() {
                    assert(head[i] == items[i]);
                }
            }
        }
        if forall|i: int| 0 <= i < items.len() ==> !has_cross(orders, market, (#[trigger] items[i]).0) {
            assert forall|i: int| 0 <= i < head.len() implies !has_cross(orders, market, (#[trigger] head[i]).0) by {
                assert(head[i] == items[i]);
            }
            assert(!has_cross(orders, market, items[items.len() - 1].0));
        }
    }
}

proof fn lemma_cross_problems(orders: Seq<OrderRecordView>, markets: Seq<(Seq<char>, int)>)
    ensures
        cross_problems(orders, markets).len() == 0 <==> forall|i: int|
            0 <= i < markets.len() ==> crosses_at(
                orders,
                (#[trigger] markets[i]).0,
                sorted_names(order_items(orders, markets[i].0)),
            ).len() == 0,
    decreases markets.len(),
{
    if markets.len() > 0 {
        let head = markets.drop_last();
        lemma_cross_problems(orders, head);
        if cross_problems(orders, markets).len() == 0 {
            assert forall|i: int| 0 <= i < markets.len() implies crosses_at(
                orders,
                (#[trigger] markets[i]).0,
                sorted_names(order_items(orders, markets[i].0)),
            ).len() == 0 by {
                if i < head.len() {
                    assert(head[i] == markets[i]);
                }
            }
        }
        if forall|i: int|
            0 <= i < markets.len() ==> crosses_at(
                orders,
                (#[trigger] markets[i]).0,
                sorted_names(order_items(orders, markets[i].0)),
            ).len() == 0 {
            assert forall|i: int| 0 <= i < head.len() implies crosses_at(
                orders,
                (#[trigger] head[i]).0,
                sorted_names(order_items(orders, head[i].0)),
            ).len() == 0 by {
                assert(head[i] == markets[i]);
            }
            let last = markets[markets.len() - 1];
            assert(crosses_at(orders, last.0, sorted_names(order_items(orders, last.0))).len() == 0);
        }
    }
}

/// What has no row of a kind adds up to nothing.
proof fn lemma_sum_zero<A>(s: Seq<A>, f: spec_fn(A) -> int)
    requires
        forall|i: int| 0 <= i < s.len() ==> f(#[trigger] s[i]) == 0,
    ensures
        sum(s, f) == 0,
    decreases s.len(),
{
    if s.len() > 0 {
        assert(f(s[s.len() - 1]) == 0);
        assert forall|i: int| 0 <= i < s.drop_last().len() implies f(#[trigger] s.drop_last()[i]) == 0 by {
            assert(s.drop_last()[i] == s[i]);
        }
        lemma_sum_zero(s.drop_last(), f);
    }
}

/// What is not in escrow at a market is neither promised nor locked there.
proof fn lemma_not_in_escrow(s: DbView, market: Seq<char>, item: Seq<char>)
    requires
        !escrow_items(s, market).contains(item),
    ensures
        sum(s.warehouse, locked_at(market, item)) == 0,
        sum(s.orders, promised_at(market, item)) == 0,
{
    let locked = s.warehouse.filter(is_locked_at(market));
    let sells = s.orders.filter(is_sell_at(market));
    let all = escrow_items(s, market);
    assert forall|i: int| 0 <= i < s.warehouse.len() implies locked_at(market, item)(#[trigger] s.warehouse[i])
        == 0 by {
        let w = s.warehouse[i];
        if w.market_id == market && w.item_id == item && w.state == "locked"@ {
            broadcast use vstd::seq_lib::group_filter_ensures;
            assert(is_locked_at(market)(w));
            assert(s.warehouse.contains(w));
            assert(locked.contains(w));
            let j = choose|j: int| 0 <= j < locked.len() && locked[j] == w;
            assert(all[j] == item);
        }
    }
    assert forall|i: int| 0 <= i < s.orders.len() implies promised_at(market, item)(#[trigger] s.orders[i]) == 0 by {
        let o = s.orders[i];
        if o.order.market_id == market && o.order.item_id == item && o.order.side == "sell"@ {
            broadcast use vstd::seq_lib::group_filter_ensures;
            assert(is_sell_at(market)(o));
            assert(s.orders.contains(o));
            assert(sells.contains(o));
            let j = choose|j: int| 0 <= j < sells.len() && sells[j] == o;
            assert(all[locked.len() + j] == item);
        }
    }
    lemma_sum_zero(s.warehouse, locked_at(market, item));
    lemma_sum_zero(s.orders, promised_at(market, item));
}

/// A market that is nowhere in escrow has nothing in escrow.
proof fn lemma_no_market(s: DbView, market: Seq<char>, item: Seq<char>)
    requires
        !escrow_markets(s).contains(market),
    ensures
        sum(s.warehouse, locked_at(market, item)) == 0,
        sum(s.orders, promised_at(market, item)) == 0,
        !has_cross(s.orders, market, item),
{
    let all = escrow_markets(s);
    assert forall|i: int| 0 <= i < s.warehouse.len() implies (#[trigger] s.warehouse[i]).market_id != market by {
        assert(all[i] == s.warehouse[i].market_id);
    }
    assert forall|i: int| 0 <= i < s.orders.len() implies (#[trigger] s.orders[i]).order.market_id != market by {
        assert(all[s.warehouse.len() + i] == s.orders[i].order.market_id);
    }
    lemma_sum_zero(s.warehouse, locked_at(market, item));
    lemma_sum_zero(s.orders, promised_at(market, item));
}

/// Nothing is reported exactly where the books are healthy.
pub proof fn law_no_problems_means_healthy(s: DbView)
    ensures
        problems(s).len() == 0 <==> healthy(s),
{
    let markets = sorted_names(escrow_markets(s));
    lemma_escrow_problems(s, markets);
    lemma_nonsense(s.orders);
    lemma_cross_problems(s.orders, markets);
    if problems(s).len() == 0 {
        assert(escrow_problems(s, markets).len() == 0 && nonsense_problems(s.orders).len() == 0 && cross_problems(
            s.orders,
            markets,
        ).len() == 0);
        assert forall|market: Seq<char>, item: Seq<char>|
            #[trigger] sum(s.warehouse, locked_at(market, item)) == sum(s.orders, promised_at(market, item)) by {
            law_sorted_names(escrow_markets(s), market);
            if escrow_markets(s).contains(market) {
                let i = choose|i: int| 0 <= i < markets.len() && (#[trigger] markets[i]).0 == market;
                assert(drifts(markets[i].0, reconciled(s, markets[i].0)).len() == 0);
                lemma_drifts(market, reconciled(s, market));
                law_sorted_names(escrow_items(s, market), item);
                if escrow_items(s, market).contains(item) {
                    let items = sorted_names(escrow_items(s, market));
                    let j = choose|j: int| 0 <= j < items.len() && (#[trigger] items[j]).0 == item;
                    let line = reconciled(s, market)[j];
                    assert(line.1 == line.2);
                } else {
                    lemma_not_in_escrow(s, market, item);
                }
            } else {
                lemma_no_market(s, market, item);
            }
        }
        assert forall|i: int, j: int| 0 <= i < s.orders.len() && 0 <= j < s.orders.len() implies !crossed(
            (#[trigger] s.orders[i]).order,
            (#[trigger] s.orders[j]).order,
        ) by {
            if crossed(s.orders[i].order, s.orders[j].order) {
                let market = s.orders[i].order.market_id;
                let item = s.orders[i].order.item_id;
                assert(crossed_at(s.orders, market, item, i, j));
                assert(has_cross(s.orders, market, item));
                law_sorted_names(escrow_markets(s), market);
                if !escrow_markets(s).contains(market) {
                    lemma_no_market(s, market, item);
                }
                let m = choose|m: int| 0 <= m < markets.len() && (#[trigger] markets[m]).0 == market;
                let items = sorted_names(order_items(s.orders, market));
                assert(crosses_at(s.orders, markets[m].0, sorted_names(order_items(s.orders, markets[m].0))).len()
                    == 0);
                lemma_crosses_at(s.orders, market, items);
                let own = s.orders.filter(is_order_at(market));
                assert(own.contains(s.orders[i])) by {
                    broadcast use vstd::seq_lib::group_filter_ensures;
                    assert(is_order_at(market)(s.orders[i]));
                    assert(s.orders.contains(s.orders[i]));
                }
                let p = choose|p: int| 0 <= p < own.len() && own[p] == s.orders[i];
                assert(order_items(s.orders, market)[p] == item);
                law_sorted_names(order_items(s.orders, market), item);
                let q = choose|q: int| 0 <= q < items.len() && (#[trigger] items[q]).0 == item;
                assert(!has_cross(s.orders, market, items[q].0));
            }
        }
    }
    if healthy(s) {
        assert forall|i: int| 0 <= i < markets.len() implies drifts(
            (#[trigger] markets[i]).0,
            reconciled(s, markets[i].0),
        ).len() == 0 by {
            let market = markets[i].0;
            lemma_drifts(market, reconciled(s, market));
            assert forall|j: int| 0 <= j < reconciled(s, market).len() implies (#[trigger] reconciled(
                s,
                market,
            )[j]).1 == reconciled(s, market)[j].2 by {
                let item = sorted_names(escrow_items(s, market))[j].0;
                assert(sum(s.warehouse, locked_at(market, item)) == sum(s.orders, promised_at(market, item)));
            }
        }
        assert forall|i: int| 0 <= i < markets.len() implies crosses_at(
            s.orders,
            (#[trigger] markets[i]).0,
            sorted_names(order_items(s.orders, markets[i].0)),
        ).len() == 0 by {
            let market = markets[i].0;
            let items = sorted_names(order_items(s.orders, market));
            lemma_crosses_at(s.orders, market, items);
            assert forall|j: int| 0 <= j < items.len() implies !has_cross(s.orders, market, (#[trigger] items[j]).0) by {
                if has_cross(s.orders, market, items[j].0) {
                    let (x, y) = choose|x: int, y: int| crossed_at(s.orders, market, items[j].0, x, y);
                    assert(crossed(s.orders[x].order, s.orders[y].order));
                }
            }
        }
    }
}

} // verus!
