//! What the ledger, the fees and the check of the books tell, in numbers.

use vstd::prelude::*;

use crate::persistence::db::DbView;
use crate::persistence::health::{
    crossed, escrow_items, healthy, is_locked_at, is_nonsense, is_sell_at, law_no_problems_means_healthy,
    locked_at, problems, promised_at, reconciled,
};
use crate::persistence::purse::{
    burned, claimed, fee_gold, fee_kind, fresh_command, gold_of, has_character, is_command, is_fee_at,
    ledger_amount, ledger_reason, lemma_paid, minted, order_escrow, purse_gold, supply_gap,
};
use crate::persistence::rows::{
    CharacterRecordView, CommandRecordView, FeeRecordView, LedgerRecordView, OrderRecordView,
    WarehouseItemView,
};
use crate::table::{find, lemma_filter_contains, lemma_find, lemma_sum_filter, lemma_sum_same, qty_if, sum};
use crate::tally::{
    amount, law_sorted_names, law_tally_sums_by_name, lookup, qty_under, sorted_names, tallied_by,
};

verus! {

/// Gold that is made is in its owner's purse and on the ledger under its reason, and nowhere else. Nothing is made of an
/// amount that is not positive.
pub proof fn law_what_minting_does(
    s: DbView,
    id: Seq<char>,
    gold: int,
    reason: Seq<char>,
    now: int,
    who: Seq<char>,
)
    requires
        has_character(s.characters, id),
    ensures
        ({
            let t = minted(s, id, gold, reason, now);
            &&& gold <= 0 ==> t == s
            &&& gold > 0 ==> {
                &&& t.ledger == s.ledger.push(LedgerRecordView { character_id: id, amount: gold, reason, created_at: now })
                &&& gold_of(t.characters, who) == gold_of(s.characters, who) + if who == id {
                    gold
                } else {
                    0
                }
                &&& t == (DbView { characters: t.characters, ledger: t.ledger, ..s })
            }
        }),
{
    lemma_paid(s.characters, id, gold);
}

/// A fee leaves its payer's purse, is recorded under its kind and taken off the ledger, and touches nothing else.
pub proof fn law_what_burning_does(
    s: DbView,
    market: Seq<char>,
    id: Seq<char>,
    kind: Seq<char>,
    gold: int,
    trade: Option<Seq<char>>,
    now: int,
    who: Seq<char>,
)
    requires
        has_character(s.characters, id),
    ensures
        ({
            let t = burned(s, market, id, kind, gold, trade, now);
            &&& gold <= 0 ==> t == s
            &&& gold > 0 ==> {
                &&& t.ledger == s.ledger.push(
                    LedgerRecordView { character_id: id, amount: -gold, reason: "market_fee"@, created_at: now },
                )
                &&& t.fees == s.fees.push(
                    FeeRecordView { market_id: market, character_id: id, kind, gold, trade_id: trade, created_at: now },
                )
                &&& gold_of(t.characters, who) == gold_of(s.characters, who) - if who == id {
                    gold
                } else {
                    0
                }
                &&& t == (DbView { characters: t.characters, ledger: t.ledger, fees: t.fees, ..s })
            }
        }),
{
    lemma_paid(s.characters, id, -gold);
}

/// A command that was claimed is not fresh again, a command without an id always is, and claiming one changes no other.
pub proof fn law_a_command_is_claimed_once(
    commands: Seq<CommandRecordView>,
    id: Seq<char>,
    character: Seq<char>,
    now: int,
    other: Seq<char>,
)
    ensures
        fresh_command(commands, id) <==> id.len() == 0 || forall|i: int|
            0 <= i < commands.len() ==> (#[trigger] commands[i]).command_id != id,
        id.len() > 0 ==> !fresh_command(claimed(commands, id, character, now), id),
        other != id ==> fresh_command(claimed(commands, id, character, now), other) == fresh_command(commands, other),
{
    let after = claimed(commands, id, character, now);
    lemma_find(commands, is_command(id));
    lemma_find(commands, is_command(other));
    lemma_find(after, is_command(id));
    lemma_find(after, is_command(other));
    if id.len() > 0 {
        assert(after[after.len() - 1].command_id == id);
        assert(is_command(id)(after[after.len() - 1]));
    }
    let k = find(commands, is_command(id));
    if k < commands.len() {
        assert(commands[k].command_id == id);
    }
    assert forall|i: int| 0 <= i < commands.len() && k == commands.len() implies (#[trigger] commands[i]).command_id != id by {
        assert(!is_command(id)(commands[i]));
    }
    if other != id {
        let m = find(commands, is_command(other));
        if m < commands.len() {
            assert(is_command(other)(after[m]));
        } else {
            assert forall|i: int| 0 <= i < after.len() implies !is_command(other)(#[trigger] after[i]) by {
                if i < commands.len() {
                    assert(!is_command(other)(commands[i]));
                }
            }
        }
    }
}

/// The gap between the gold on the ledger and the gold that is there: in purses, and at their price in orders to buy.
pub proof fn law_the_gap_counts_purses_and_orders(s: DbView)
    ensures
        supply_gap(s) == sum(s.ledger, |l: LedgerRecordView| l.amount) - sum(s.characters, |c: CharacterRecordView| c.gold) - sum(
            s.orders,
            |o: OrderRecordView|
                if o.order.side == "buy"@ {
                    o.order.unit_price * o.order.qty_remaining
                } else {
                    0
                },
        ),
{
    lemma_sum_same(s.ledger, |l: LedgerRecordView| l.amount, ledger_amount());
    lemma_sum_same(s.characters, |c: CharacterRecordView| c.gold, purse_gold());
    lemma_sum_same(
        s.orders,
        |o: OrderRecordView|
            if o.order.side == "buy"@ {
                o.order.unit_price * o.order.qty_remaining
            } else {
                0
            },
        order_escrow(),
    );
}

/// Gold by reason: under each reason all that the ledger says under it, and no reason that it does not name.
pub proof fn law_gold_is_told_by_reason(s: DbView, reason: Seq<char>)
    ensures
        ({
            let out = tallied_by(s.ledger, ledger_reason(), ledger_amount());
            &&& amount(out, reason) == sum(
                s.ledger,
                |l: LedgerRecordView|
                    if l.reason == reason {
                        l.amount
                    } else {
                        0
                    },
            )
            &&& lookup(out, reason) is Some <==> exists|i: int|
                0 <= i < s.ledger.len() && (#[trigger] s.ledger[i]).reason == reason
        }),
{
    law_tally_sums_by_name(s.ledger, ledger_reason(), ledger_amount(), reason);
    lemma_sum_same(
        s.ledger,
        |l: LedgerRecordView|
            if l.reason == reason {
                l.amount
            } else {
                0
            },
        qty_under(ledger_reason(), ledger_amount(), reason),
    );
    let named = ledger_reason();
    if exists|i: int| 0 <= i < s.ledger.len() && (#[trigger] s.ledger[i]).reason == reason {
        let i = choose|i: int| 0 <= i < s.ledger.len() && (#[trigger] s.ledger[i]).reason == reason;
        assert(named(s.ledger[i]) == reason);
    }
    if exists|i: int| 0 <= i < s.ledger.len() && named(#[trigger] s.ledger[i]) == reason {
        let i = choose|i: int| 0 <= i < s.ledger.len() && named(#[trigger] s.ledger[i]) == reason;
        assert(s.ledger[i].reason == reason);
    }
}

/// Fees by kind: under each kind all that was paid of it at the market.
pub proof fn law_fees_are_told_by_kind(s: DbView, market: Seq<char>, kind: Seq<char>)
    ensures
        amount(tallied_by(s.fees.filter(is_fee_at(market)), fee_kind(), fee_gold()), kind) == sum(
            s.fees,
            |f: FeeRecordView|
                if f.market_id == market && f.kind == kind {
                    f.gold
                } else {
                    0
                },
        ),
{
    let own = s.fees.filter(is_fee_at(market));
    let g = qty_under(fee_kind(), fee_gold(), kind);
    law_tally_sums_by_name(own, fee_kind(), fee_gold(), kind);
    lemma_sum_filter(s.fees, is_fee_at(market), g);
    lemma_sum_same(
        s.fees,
        |f: FeeRecordView|
            if f.market_id == market && f.kind == kind {
                f.gold
            } else {
                0
            },
        qty_if(is_fee_at(market), g),
    );
}

/// The reconciliation of a market has a line for each item that is locked or promised there, and no other: what the orders to
/// sell promise of it, and what is locked of it.
pub proof fn law_the_reconciliation_is_complete(s: DbView, market: Seq<char>, item: Seq<char>, i: int)
    ensures
        ({
            let lines = reconciled(s, market);
            let locked = exists|k: int|
                0 <= k < s.warehouse.len() && (#[trigger] s.warehouse[k]).market_id == market && s.warehouse[k].item_id == item
                    && s.warehouse[k].state == "locked"@;
            let sold = exists|k: int|
                0 <= k < s.orders.len() && (#[trigger] s.orders[k]).order.market_id == market && s.orders[k].order.item_id == item
                    && s.orders[k].order.side == "sell"@;
            &&& (exists|n: int| 0 <= n < lines.len() && (#[trigger] lines[n]).0 == item) <==> locked || sold
            &&& 0 <= i < lines.len() ==> {
                &&& lines[i].1 == sum(
                    s.orders,
                    |o: OrderRecordView|
                        if o.order.market_id == market && o.order.item_id == lines[i].0 && o.order.side == "sell"@ {
                            o.order.qty_remaining
                        } else {
                            0
                        },
                )
                &&& lines[i].2 == sum(
                    s.warehouse,
                    |w: WarehouseItemView|
                        if w.market_id == market && w.item_id == lines[i].0 && w.state == "locked"@ {
                            w.qty
                        } else {
                            0
                        },
                )
            }
        }),
{
    let lines = reconciled(s, market);
    let names = escrow_items(s, market);
    let items = sorted_names(names);
    let a = s.warehouse.filter(is_locked_at(market));
    let b = s.orders.filter(is_sell_at(market));
    law_sorted_names(names, item);
    if exists|n: int| 0 <= n < lines.len() && (#[trigger] lines[n]).0 == item {
        let n = choose|n: int| 0 <= n < lines.len() && (#[trigger] lines[n]).0 == item;
        assert(items[n].0 == item);
        assert(names.contains(item));
        let m = choose|m: int| 0 <= m < names.len() && names[m] == item;
        if m < a.len() {
            assert(a.contains(a[m]));
            lemma_filter_contains(s.warehouse, is_locked_at(market), a[m]);
            let k = choose|k: int| 0 <= k < s.warehouse.len() && s.warehouse[k] == a[m];
            assert(s.warehouse[k].market_id == market);
        } else {
            assert(b.contains(b[m - a.len()]));
            lemma_filter_contains(s.orders, is_sell_at(market), b[m - a.len()]);
            let k = choose|k: int| 0 <= k < s.orders.len() && s.orders[k] == b[m - a.len()];
            assert(s.orders[k].order.market_id == market);
        }
    }
    if exists|k: int|
        0 <= k < s.warehouse.len() && (#[trigger] s.warehouse[k]).market_id == market && s.warehouse[k].item_id == item
            && s.warehouse[k].state == "locked"@ {
        let k = choose|k: int|
            0 <= k < s.warehouse.len() && (#[trigger] s.warehouse[k]).market_id == market && s.warehouse[k].item_id == item
                && s.warehouse[k].state == "locked"@;
        lemma_filter_contains(s.warehouse, is_locked_at(market), s.warehouse[k]);
        assert(s.warehouse.contains(s.warehouse[k]));
        let m = choose|m: int| 0 <= m < a.len() && a[m] == s.warehouse[k];
        assert(names[m] == item);
        assert(names.contains(item));
    }
    if exists|k: int|
        0 <= k < s.orders.len() && (#[trigger] s.orders[k]).order.market_id == market && s.orders[k].order.item_id == item
            && s.orders[k].order.side == "sell"@ {
        let k = choose|k: int|
            0 <= k < s.orders.len() && (#[trigger] s.orders[k]).order.market_id == market && s.orders[k].order.item_id == item
                && s.orders[k].order.side == "sell"@;
        lemma_filter_contains(s.orders, is_sell_at(market), s.orders[k]);
        assert(s.orders.contains(s.orders[k]));
        let m = choose|m: int| 0 <= m < b.len() && b[m] == s.orders[k];
        assert(names[a.len() + m] == item);
        assert(names.contains(item));
    }
    if names.contains(item) {
        let n = choose|n: int| 0 <= n < items.len() && (#[trigger] items[n]).0 == item;
        assert(lines[n].0 == item);
    }
    if 0 <= i < lines.len() {
        lemma_sum_same(
            s.orders,
            |o: OrderRecordView|
                if o.order.market_id == market && o.order.item_id == lines[i].0 && o.order.side == "sell"@ {
                    o.order.qty_remaining
                } else {
                    0
                },
            promised_at(market, items[i].0),
        );
        lemma_sum_same(
            s.warehouse,
            |w: WarehouseItemView|
                if w.market_id == market && w.item_id == lines[i].0 && w.state == "locked"@ {
                    w.qty
                } else {
                    0
                },
            locked_at(market, items[i].0),
        );
    }
}

/// No problem is reported exactly when at every market, of every item, as much is locked as the orders to sell promise; when
/// every order still has something to trade, and no more than it had; and when no order to buy would pay an order to sell of
/// somebody else's its price.
pub proof fn law_no_problem_means_the_books_are_right(s: DbView)
    ensures
        problems(s).len() == 0 <==> {
            &&& forall|market: Seq<char>, item: Seq<char>| #[trigger] locks_match(s, market, item)
            &&& forall|i: int|
                0 <= i < s.orders.len() ==> 0 < (#[trigger] s.orders[i]).order.qty_remaining <= s.orders[i].order.qty_total
            &&& forall|i: int, j: int|
                0 <= i < s.orders.len() && 0 <= j < s.orders.len() && (#[trigger] s.orders[i]).order.side == "buy"@ && (
                #[trigger] s.orders[j]).order.side == "sell"@ && s.orders[i].order.market_id == s.orders[j].order.market_id
                    && s.orders[i].order.item_id == s.orders[j].order.item_id && s.orders[i].order.character_id
                    != s.orders[j].order.character_id ==> s.orders[i].order.unit_price < s.orders[j].order.unit_price
        },
{
    law_no_problems_means_healthy(s);
    assert forall|market: Seq<char>, item: Seq<char>| #[trigger]
        locks_match(s, market, item) == (sum(s.warehouse, locked_at(market, item)) == sum(s.orders, promised_at(market, item))) by {
        lemma_sum_same(
            s.warehouse,
            |w: WarehouseItemView|
                if w.market_id == market && w.item_id == item && w.state == "locked"@ {
                    w.qty
                } else {
                    0
                },
            locked_at(market, item),
        );
        lemma_sum_same(
            s.orders,
            |o: OrderRecordView|
                if o.order.market_id == market && o.order.item_id == item && o.order.side == "sell"@ {
                    o.order.qty_remaining
                } else {
                    0
                },
            promised_at(market, item),
        );
    }
    if healthy(s) {
        assert forall|market: Seq<char>, item: Seq<char>| #[trigger] locks_match(s, market, item) by {
            assert(sum(s.warehouse, locked_at(market, item)) == sum(s.orders, promised_at(market, item)));
        }
        assert forall|i: int| 0 <= i < s.orders.len() implies 0 < (#[trigger] s.orders[i]).order.qty_remaining
            <= s.orders[i].order.qty_total by {
            assert(!is_nonsense(s.orders[i].order));
        }
        assert forall|i: int, j: int|
            0 <= i < s.orders.len() && 0 <= j < s.orders.len() && (#[trigger] s.orders[i]).order.side == "buy"@ && (
            #[trigger] s.orders[j]).order.side == "sell"@ && s.orders[i].order.market_id == s.orders[j].order.market_id
                && s.orders[i].order.item_id == s.orders[j].order.item_id && s.orders[i].order.character_id
                != s.orders[j].order.character_id implies s.orders[i].order.unit_price < s.orders[j].order.unit_price by {
            assert(!crossed(s.orders[i].order, s.orders[j].order));
        }
    }
    if forall|market: Seq<char>, item: Seq<char>| #[trigger] locks_match(s, market, item) {
        assert forall|market: Seq<char>, item: Seq<char>| #[trigger]
            sum(s.warehouse, locked_at(market, item)) == sum(s.orders, promised_at(market, item)) by {
            assert(locks_match(s, market, item));
        }
    }
}

/// Whether as much of an item is locked at a market as the orders to sell promise.
pub open spec fn locks_match(s: DbView, market: Seq<char>, item: Seq<char>) -> bool {
    sum(
        s.warehouse,
        |w: WarehouseItemView|
            if w.market_id == market && w.item_id == item && w.state == "locked"@ {
                w.qty
            } else {
                0
            },
    ) == sum(
        s.orders,
        |o: OrderRecordView|
            if o.order.market_id == market && o.order.item_id == item && o.order.side == "sell"@ {
                o.order.qty_remaining
            } else {
                0
            },
    )
}

} // verus!
