//! Trading keeps the books healthy.

use vstd::prelude::*;

use crate::market_config::{fair, MarketConfig};
use crate::persistence::book::{law_release_returns_the_escrow, order_released};
use crate::persistence::db::DbView;
use crate::persistence::health::{crossed, healthy, is_nonsense, locked_at, promised_at};
use crate::persistence::market::{
    admitted, best, concluded, escrowed, fill_best, lemma_best, lemma_concluded_sound, lemma_listed_sound,
    listed, market_sound, min, order_filled, placed, promise_qty, promised, sweep_sound, swept, swept_out,
    tallied, FillIds, PlaceIds, Sweep, Terms,
};
use crate::persistence::market_laws::{law_book_never_crosses, law_placing_conserves, law_sweep, uncrossed};
use crate::persistence::purse::{claimed, has_character};
use crate::persistence::rows::{OrderRecordView, WarehouseItemView};
use crate::persistence::soundness::law_other_business_keeps_the_market_sound;
use crate::persistence::warehouse::{stock, stock_key, stock_qty, StockKey};
use crate::table::{lemma_sum_same, sum};
use crate::world::tools::is_tool;

verus! {

/// A number that goes with one name, and 0 with the others.
spec fn at_name(name: Seq<char>, n: int) -> spec_fn(Seq<char>) -> int {
    |c: Seq<char>|
        if c == name {
            n
        } else {
            0
        }
}

proof fn lemma_at_name(names: Seq<Seq<char>>, name: Seq<char>, n: int)
    requires
        names.no_duplicates(),
    ensures
        sum(names, at_name(name, n)) == if names.contains(name) {
            n
        } else {
            0
        },
    decreases names.len(),
{
    if names.len() > 0 {
        let head = names.drop_last();
        assert(head.no_duplicates()) by {
            assert forall|i: int, j: int| 0 <= i < head.len() && 0 <= j < head.len() && i != j implies head[i]
                != head[j] by {
                assert(head[i] == names[i] && head[j] == names[j]);
            }
        }
        lemma_at_name(head, name, n);
        if names.last() == name {
            if head.contains(name) {
                let i = choose|i: int| 0 <= i < head.len() && head[i] == name;
                assert(names[i] == names[names.len() - 1]);
            }
            assert(names.contains(name));
        } else {
            if names.contains(name) {
                let i = choose|i: int| 0 <= i < names.len() && names[i] == name;
                assert(head[i] == name);
            }
            if head.contains(name) {
                let i = choose|i: int| 0 <= i < head.len() && head[i] == name;
                assert(names[i] == name);
            }
        }
    }
}

proof fn lemma_sum_both(names: Seq<Seq<char>>, f: spec_fn(Seq<char>) -> int, g: spec_fn(Seq<char>) -> int, h: spec_fn(
    Seq<char>,
) -> int)
    requires
        forall|c: Seq<char>| #[trigger] h(c) == f(c) + g(c),
    ensures
        sum(names, h) == sum(names, f) + sum(names, g),
    decreases names.len(),
{
    if names.len() > 0 {
        lemma_sum_both(names.drop_last(), f, g, h);
    }
}

/// What an owner has locked of an item at a market.
spec fn locked_of(rows: Seq<WarehouseItemView>, market: Seq<char>, item: Seq<char>) -> spec_fn(Seq<char>) -> int {
    |c: Seq<char>| stock(rows, stock_key(market, c, item), "locked"@)
}

/// What an owner has promised of an item at a market.
spec fn promised_of(orders: Seq<OrderRecordView>, market: Seq<char>, item: Seq<char>) -> spec_fn(Seq<char>) -> int {
    |c: Seq<char>| promised(orders, stock_key(market, c, item))
}

/// What is locked of an item at a market is what its owners have locked of it.
proof fn lemma_locked_by_owner(rows: Seq<WarehouseItemView>, market: Seq<char>, item: Seq<char>, names: Seq<Seq<char>>)
    requires
        names.no_duplicates(),
        forall|i: int| 0 <= i < rows.len() ==> names.contains((#[trigger] rows[i]).character_id),
    ensures
        sum(rows, locked_at(market, item)) == sum(names, locked_of(rows, market, item)),
    decreases rows.len(),
{
    if rows.len() == 0 {
        assert forall|i: int| 0 <= i < names.len() implies locked_of(rows, market, item)(#[trigger] names[i])
            == at_name(Seq::empty(), 0)(names[i]) by {}
        lemma_sum_same(names, locked_of(rows, market, item), at_name(Seq::empty(), 0));
        lemma_at_name(names, Seq::empty(), 0);
    } else {
        let head = rows.drop_last();
        let last = rows.last();
        let n = locked_at(market, item)(last);
        assert forall|i: int| 0 <= i < head.len() implies names.contains((#[trigger] head[i]).character_id) by {
            assert(head[i] == rows[i]);
        }
        lemma_locked_by_owner(head, market, item, names);
        assert(names.contains(rows[rows.len() - 1].character_id));
        assert forall|c: Seq<char>| #[trigger] locked_of(rows, market, item)(c) == locked_of(head, market, item)(c)
            + at_name(last.character_id, n)(c) by {
            assert(stock(rows, stock_key(market, c, item), "locked"@) == stock(
                head,
                stock_key(market, c, item),
                "locked"@,
            ) + stock_qty(stock_key(market, c, item), "locked"@)(last));
        }
        lemma_sum_both(
            names,
            locked_of(head, market, item),
            at_name(last.character_id, n),
            locked_of(rows, market, item),
        );
        lemma_at_name(names, last.character_id, n);
    }
}

/// What is promised of an item at a market is what its owners have promised of it.
proof fn lemma_promised_by_owner(orders: Seq<OrderRecordView>, market: Seq<char>, item: Seq<char>, names: Seq<Seq<char>>)
    requires
        names.no_duplicates(),
        forall|i: int| 0 <= i < orders.len() ==> names.contains((#[trigger] orders[i]).order.character_id),
    ensures
        sum(orders, promised_at(market, item)) == sum(names, promised_of(orders, market, item)),
    decreases orders.len(),
{
    if orders.len() == 0 {
        assert forall|i: int| 0 <= i < names.len() implies promised_of(orders, market, item)(#[trigger] names[i])
            == at_name(Seq::empty(), 0)(names[i]) by {}
        lemma_sum_same(names, promised_of(orders, market, item), at_name(Seq::empty(), 0));
        lemma_at_name(names, Seq::empty(), 0);
    } else {
        let head = orders.drop_last();
        let last = orders.last();
        let n = promised_at(market, item)(last);
        assert forall|i: int| 0 <= i < head.len() implies names.contains((#[trigger] head[i]).order.character_id) by {
            assert(head[i] == orders[i]);
        }
        lemma_promised_by_owner(head, market, item, names);
        assert(names.contains(orders[orders.len() - 1].order.character_id));
        assert forall|c: Seq<char>| #[trigger] promised_of(orders, market, item)(c) == promised_of(head, market, item)(c)
            + at_name(last.order.character_id, n)(c) by {
            assert(promised(orders, stock_key(market, c, item)) == promised(head, stock_key(market, c, item))
                + promise_qty(stock_key(market, c, item))(last));
        }
        lemma_sum_both(
            names,
            promised_of(head, market, item),
            at_name(last.order.character_id, n),
            promised_of(orders, market, item),
        );
        lemma_at_name(names, last.order.character_id, n);
    }
}

/// The names of a list, each once.
spec fn once_each(list: Seq<Seq<char>>) -> Seq<Seq<char>>
    decreases list.len(),
{
    if list.len() == 0 {
        Seq::empty()
    } else {
        let head = once_each(list.drop_last());
        if head.contains(list.last()) {
            head
        } else {
            head.push(list.last())
        }
    }
}

proof fn lemma_once_each(list: Seq<Seq<char>>)
    ensures
        once_each(list).no_duplicates(),
        forall|i: int| 0 <= i < list.len() ==> once_each(list).contains(#[trigger] list[i]),
    decreases list.len(),
{
    if list.len() > 0 {
        lemma_once_each(list.drop_last());
        let head = once_each(list.drop_last());
        let all = once_each(list);
        assert forall|i: int| 0 <= i < list.len() implies all.contains(#[trigger] list[i]) by {
            if i < list.len() - 1 {
                assert(list.drop_last()[i] == list[i]);
                let j = choose|j: int| 0 <= j < head.len() && head[j] == list[i];
                assert(all[j] == list[i]);
            } else if !head.contains(list.last()) {
                assert(all[head.len() as int] == list[i]);
            }
        }
    }
}

/// Everyone who owns a row or an order.
spec fn owners(rows: Seq<WarehouseItemView>, orders: Seq<OrderRecordView>) -> Seq<Seq<char>> {
    Seq::new(rows.len(), |i: int| rows[i].character_id) + Seq::new(
        orders.len(),
        |i: int| orders[i].order.character_id,
    )
}

/// What is locked beyond what is promised.
pub open spec fn slack(s: DbView, market: Seq<char>, item: Seq<char>) -> int {
    sum(s.warehouse, locked_at(market, item)) - sum(s.orders, promised_at(market, item))
}

/// Where no owner's locked stock drifts from what that owner promised, the market's does not.
proof fn lemma_slack_by_owner(s: DbView, t: DbView, market: Seq<char>, item: Seq<char>)
    requires
        forall|key: StockKey|
            #![trigger stock(t.warehouse, key, "locked"@)]
            stock(t.warehouse, key, "locked"@) - promised(t.orders, key) == stock(s.warehouse, key, "locked"@)
                - promised(s.orders, key),
    ensures
        slack(t, market, item) == slack(s, market, item),
{
    let mine = owners(s.warehouse, s.orders);
    let all = mine + owners(t.warehouse, t.orders);
    let names = once_each(all);
    lemma_once_each(all);
    assert forall|i: int| 0 <= i < s.warehouse.len() implies names.contains((#[trigger] s.warehouse[i]).character_id) by {
        assert(all[i] == s.warehouse[i].character_id);
    }
    assert forall|i: int| 0 <= i < s.orders.len() implies names.contains((#[trigger] s.orders[i]).order.character_id) by {
        assert(all[s.warehouse.len() + i] == s.orders[i].order.character_id);
    }
    assert forall|i: int| 0 <= i < t.warehouse.len() implies names.contains((#[trigger] t.warehouse[i]).character_id) by {
        assert(all[mine.len() + i] == t.warehouse[i].character_id);
    }
    assert forall|i: int| 0 <= i < t.orders.len() implies names.contains((#[trigger] t.orders[i]).order.character_id) by {
        assert(all[mine.len() + t.warehouse.len() + i] == t.orders[i].order.character_id);
    }
    lemma_locked_by_owner(s.warehouse, market, item, names);
    lemma_locked_by_owner(t.warehouse, market, item, names);
    lemma_promised_by_owner(s.orders, market, item, names);
    lemma_promised_by_owner(t.orders, market, item, names);
    let before = |c: Seq<char>| locked_of(s.warehouse, market, item)(c) + promised_of(t.orders, market, item)(c);
    let after = |c: Seq<char>| locked_of(t.warehouse, market, item)(c) + promised_of(s.orders, market, item)(c);
    lemma_sum_both(names, locked_of(s.warehouse, market, item), promised_of(t.orders, market, item), before);
    lemma_sum_both(names, locked_of(t.warehouse, market, item), promised_of(s.orders, market, item), after);
    assert forall|i: int| 0 <= i < names.len() implies before(#[trigger] names[i]) == after(names[i]) by {
        let key = stock_key(market, names[i], item);
        assert(stock(t.warehouse, key, "locked"@) - promised(t.orders, key) == stock(s.warehouse, key, "locked"@)
            - promised(s.orders, key));
    }
    lemma_sum_same(names, before, after);
}

/// Every order rests at something, and at no more than it was for.
pub open spec fn sensible(orders: Seq<OrderRecordView>) -> bool {
    forall|i: int| 0 <= i < orders.len() ==> !is_nonsense((#[trigger] orders[i]).order)
}

proof fn lemma_fill_sensible(w: Sweep, t: Terms, cfg: MarketConfig, ids: FillIds)
    requires
        sweep_sound(w, t),
        sensible(w.db.orders),
    ensures
        sensible(fill_best(w, t, cfg, ids).db.orders),
{
    if !swept_out(w, t, cfg) {
        lemma_best(w.db.orders, w.db.orders.len() as int, t);
        let k = best(w.db.orders, w.db.orders.len() as int, t)->0;
        let o = w.db.orders[k];
        let take = min(w.want, o.order.qty_remaining);
        let after = fill_best(w, t, cfg, ids).db.orders;
        assert(after == order_filled(w.db.orders, k, take));
        assert(!is_nonsense(o.order));
        assert forall|i: int| 0 <= i < after.len() implies !is_nonsense((#[trigger] after[i]).order) by {
            if o.order.qty_remaining - take > 0 {
                if i != k {
                    assert(after[i] == w.db.orders[i]);
                }
            } else {
                let j = if i < k {
                    i
                } else {
                    i + 1
                };
                assert(after[i] == w.db.orders[j]);
            }
        }
    }
}

proof fn lemma_sweep_sensible(start: Sweep, t: Terms, cfg: MarketConfig, ids: Seq<FillIds>)
    requires
        sweep_sound(start, t),
        fair(cfg),
        tallied(start, start, t),
        start.fills.len() == 0,
        sensible(start.db.orders),
    ensures
        sensible(swept(start, t, cfg, ids).db.orders),
    decreases ids.len(),
{
    if ids.len() > 0 {
        lemma_sweep_sensible(start, t, cfg, ids.drop_last());
        law_sweep(start, t, cfg, ids.drop_last());
        lemma_fill_sensible(swept(start, t, cfg, ids.drop_last()), t, cfg, ids.last());
    }
}

/// Placing an order keeps the books healthy: what is locked stays what is promised, every order rests at a sensible
/// quantity, and no bid rests against another owner's ask.
pub proof fn law_placing_keeps_the_books_healthy(
    s: DbView,
    t: Terms,
    qty: int,
    cfg: MarketConfig,
    command: Seq<char>,
    ids: PlaceIds,
)
    requires
        market_sound(s),
        healthy(s),
        fair(cfg),
        t.side == "buy"@ || t.side == "sell"@,
        t.side == "sell"@ ==> t.price >= 0,
        !is_tool(t.item),
        has_character(s.characters, t.character),
    ensures
        healthy(placed(s, t, qty, cfg, command, ids).db),
{
    let p = placed(s, t, qty, cfg, command, ids).db;
    let begun = DbView { commands: claimed(s.commands, command, t.character, t.now), ..s };
    law_placing_conserves(s, t, qty, cfg, command, ids);
    lemma_uncrossed(s.orders);
    law_book_never_crosses(s, t, qty, cfg, command, ids);
    lemma_uncrossed(p.orders);
    assert forall|market: Seq<char>, item: Seq<char>|
        #[trigger] sum(p.warehouse, locked_at(market, item)) == sum(p.orders, promised_at(market, item)) by {
        lemma_slack_by_owner(s, p, market, item);
        assert(sum(s.warehouse, locked_at(market, item)) == sum(s.orders, promised_at(market, item)));
    }
    let e = escrowed(begun, t, qty, cfg, ids.slot);
    if admitted(s, t, cfg, command) && !e.unaffordable && e.qty > 0 {
        assert(market_sound(begun)) by {
            law_other_business_keeps_the_market_sound(s, begun);
        }
        lemma_listed_sound(begun, t, qty, cfg, ids.slot);
        let start = listed(e, t, cfg);
        assert(sensible(start.db.orders));
        lemma_sweep_sensible(start, t, cfg, ids.fills);
        let w = swept(start, t, cfg, ids.fills);
        law_sweep(start, t, cfg, ids.fills);
        lemma_concluded_sound(w, t, ids.order);
        assert(sensible(concluded(w, t, ids.order).orders));
    }
    assert(sensible(p.orders));
}

/// Taking an order off the book keeps the books healthy.
pub proof fn law_releasing_keeps_the_books_healthy(s: DbView, k: int, id: Seq<char>)
    requires
        market_sound(s),
        healthy(s),
        0 <= k < s.orders.len(),
    ensures
        healthy(order_released(s, k, id)),
{
    let t = order_released(s, k, id);
    law_release_returns_the_escrow(s, k, id);
    assert forall|market: Seq<char>, item: Seq<char>|
        #[trigger] sum(t.warehouse, locked_at(market, item)) == sum(t.orders, promised_at(market, item)) by {
        lemma_slack_by_owner(s, t, market, item);
        assert(sum(s.warehouse, locked_at(market, item)) == sum(s.orders, promised_at(market, item)));
    }
    assert(t.orders == s.orders.remove(k));
    assert forall|i: int| 0 <= i < t.orders.len() implies !is_nonsense((#[trigger] t.orders[i]).order) by {
        let a = if i < k {
            i
        } else {
            i + 1
        };
        assert(t.orders[i] == s.orders[a]);
    }
    assert forall|i: int, j: int| 0 <= i < t.orders.len() && 0 <= j < t.orders.len() implies !crossed(
        (#[trigger] t.orders[i]).order,
        (#[trigger] t.orders[j]).order,
    ) by {
        let a = if i < k {
            i
        } else {
            i + 1
        };
        let b = if j < k {
            j
        } else {
            j + 1
        };
        assert(t.orders[i] == s.orders[a] && t.orders[j] == s.orders[b]);
    }
}

/// No two orders cross exactly where no bid reaches another owner's ask.
proof fn lemma_uncrossed(orders: Seq<OrderRecordView>)
    ensures
        uncrossed(orders) <==> forall|i: int, j: int|
            0 <= i < orders.len() && 0 <= j < orders.len() ==> !crossed(
                (#[trigger] orders[i]).order,
                (#[trigger] orders[j]).order,
            ),
{
}

} // verus!
