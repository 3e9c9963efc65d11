//! What a day of storage costs each holder, in numbers.

use vstd::prelude::*;

use crate::market_config::MarketConfig;
use crate::persistence::db::DbView;
use crate::persistence::purse::{gold_of, has_character, lemma_paid, lemma_purse_bound, solvent};
use crate::persistence::rows::{FeeRecordView, WarehouseAccountView, WarehouseItemView};
use crate::persistence::storage_fees::{
    account_sound, arrears_of, charge_holder, charge_holders, chargeable, charged_at, holders, holds_slot,
    is_account, law_a_round_of_charges, law_one_charge, lemma_account_push, lemma_account_update,
    lemma_holders, lemma_holders_known, payable, seen_at, settled,
};
use crate::persistence::warehouse::used_slots;
use crate::table::{find, lemma_filter_all, lemma_find, lemma_sum_push, sum};

verus! {

/// The gold that a character has paid a market for storage.
pub open spec fn storage_paid(fees: Seq<FeeRecordView>, market: Seq<char>, who: Seq<char>) -> int {
    sum(
        fees,
        |f: FeeRecordView|
            if f.market_id == market && f.character_id == who && f.kind == "storage"@ {
                f.gold
            } else {
                0
            },
    )
}

/// Whether `t` is what one round makes of a holder of `slots` slots in `s`.
/// Whoever was never charged starts with a clean account. Within a day of the last charge nothing changes. Whoever has not
/// been seen since is not billed. Whoever has been is billed for each slot: the purse pays as much as it holds, as a storage
/// fee, and the rest is owed, up to the cap.
pub open spec fn one_days_bill(
    s: DbView,
    t: DbView,
    market: Seq<char>,
    who: Seq<char>,
    slots: int,
    cfg: MarketConfig,
    now: int,
) -> bool {
    let last = charged_at(s.storage_accounts, market, who);
    let was = arrears_of(s.storage_accounts, market, who);
    let owed = arrears_of(t.storage_accounts, market, who);
    let purse = gold_of(s.characters, who);
    let spent = purse - gold_of(t.characters, who);
    let due = slots * cfg.storage_fee_per_slot_per_day;
    let cap = cfg.storage_arrears_cap_days * cfg.storage_fee_per_slot_per_day;
    &&& storage_paid(t.fees, market, who) == storage_paid(s.fees, market, who) + spent
    &&& if last > 0 && now - last < 86_400 {
        spent == 0 && owed == was && charged_at(t.storage_accounts, market, who) == last
    } else if last == 0 {
        spent == 0 && owed == 0 && charged_at(t.storage_accounts, market, who) == now
    } else if seen_at(s.characters, who) <= last {
        spent == 0 && owed == was && charged_at(t.storage_accounts, market, who) == now
    } else {
        &&& spent <= due && spent <= purse && (spent == due || spent == purse)
        &&& cap >= 0 ==> owed <= was + due - spent && owed <= cap && (owed == was + due - spent || owed == cap)
        &&& cap < 0 ==> owed == 0
        &&& was >= 0 && owed > was ==> gold_of(t.characters, who) == 0
        &&& charged_at(t.storage_accounts, market, who) == now
    }
}

/// Whether nothing happened to a character's purse and account at a market.
pub open spec fn not_billed(s: DbView, t: DbView, market: Seq<char>, who: Seq<char>) -> bool {
    &&& gold_of(t.characters, who) == gold_of(s.characters, who)
    &&& arrears_of(t.storage_accounts, market, who) == arrears_of(s.storage_accounts, market, who)
    &&& charged_at(t.storage_accounts, market, who) == charged_at(s.storage_accounts, market, who)
    &&& storage_paid(t.fees, market, who) == storage_paid(s.fees, market, who)
}

/// What one charge does to the holder and to anyone else.
pub proof fn law_one_days_bill(
    s: DbView,
    market: Seq<char>,
    who: Seq<char>,
    slots: int,
    cfg: MarketConfig,
    now: int,
    other: Seq<char>,
)
    requires
        account_sound(s, market, who, cfg),
        solvent(s.characters),
        has_character(s.characters, who),
        slots >= 0,
        cfg.storage_fee_per_slot_per_day > 0,
        now > 0,
    ensures
        one_days_bill(s, charge_holder(s, market, who, slots, cfg, now).db, market, who, slots, cfg, now),
        charge_holder(s, market, who, slots, cfg, now).paid == gold_of(s.characters, who) - gold_of(
            charge_holder(s, market, who, slots, cfg, now).db.characters,
            who,
        ),
        other != who ==> not_billed(s, charge_holder(s, market, who, slots, cfg, now).db, market, other),
{
    let c = charge_holder(s, market, who, slots, cfg, now);
    let k = find(s.storage_accounts, is_account(market, who));
    let fee = cfg.storage_fee_per_slot_per_day as int;
    let due = slots * fee;
    let pay = payable(s, who, due);
    lemma_find(s.storage_accounts, is_account(market, who));
    lemma_purse_bound(s.characters, who);
    assert(due >= 0) by (nonlinear_arith)
        requires
            due == slots * fee,
            slots >= 0,
            fee > 0,
    ;
    law_one_charge(s, market, who, slots, cfg, now, now, other);
    lemma_paid(s.characters, who, -pay);
    let row = FeeRecordView {
        market_id: market,
        character_id: who,
        kind: "storage"@,
        gold: pay,
        trade_id: None,
        created_at: now,
    };
    lemma_storage_paid(s.fees, row, market, who);
    lemma_storage_paid(s.fees, row, market, other);
    if k < s.storage_accounts.len() {
        lemma_account_update(s.storage_accounts, market, who, c.db.storage_accounts[k], other);
    } else {
        lemma_account_push(
            s.storage_accounts,
            market,
            who,
            WarehouseAccountView { market_id: market, character_id: who, last_charged_at: now, arrears: 0 },
            other,
        );
    }
}

proof fn lemma_storage_paid(fees: Seq<FeeRecordView>, f: FeeRecordView, market: Seq<char>, who: Seq<char>)
    ensures
        storage_paid(fees.push(f), market, who) == storage_paid(fees, market, who) + if f.market_id == market
            && f.character_id == who && f.kind == "storage"@ {
            f.gold
        } else {
            0
        },
{
    let g = |f: FeeRecordView|
        if f.market_id == market && f.character_id == who && f.kind == "storage"@ {
            f.gold
        } else {
            0
        };
    lemma_sum_push(fees, g, f);
}

/// A round bills whoever holds a slot at the market, once, for the slots they hold, and nobody else.
pub proof fn law_a_round_bills_each_holder_once(s: DbView, market: Seq<char>, cfg: MarketConfig, now: int, other: Seq<char>)
    requires
        chargeable(s, market, cfg, now),
    ensures
        ({
            let c = charge_holders(s, market, holders(s.warehouse, market), cfg, now);
            let slots = s.warehouse.filter(|r: WarehouseItemView| r.market_id == market && r.character_id == other).len();
            if slots > 0 {
                one_days_bill(s, c.db, market, other, slots as int, cfg, now)
            } else {
                not_billed(s, c.db, market, other)
            }
        }),
{
    let who = holders(s.warehouse, market);
    let p = |r: WarehouseItemView| r.market_id == market && r.character_id == other;
    lemma_holders(s.warehouse, market);
    lemma_holders_known(s, market);
    lemma_slots(s.warehouse, market, other);
    assert(who.contains(other) <==> s.warehouse.filter(p).len() > 0) by {
        lemma_filter_all(s.warehouse, p);
        broadcast use vstd::seq_lib::group_filter_ensures;

        if who.contains(other) {
            let i = choose|i: int| 0 <= i < who.len() && who[i] == other;
            assert(holds_slot(s.warehouse, market, who[i]));
            let j = choose|j: int|
                0 <= j < s.warehouse.len() && (#[trigger] s.warehouse[j]).market_id == market && s.warehouse[j].character_id
                    == other;
            assert(p(s.warehouse[j]));
            assert(s.warehouse.filter(p).contains(s.warehouse[j]));
        }
        if s.warehouse.filter(p).len() > 0 {
            let r = s.warehouse.filter(p)[0];
            let j = choose|j: int| 0 <= j < s.warehouse.len() && s.warehouse[j] == r;
            lemma_every_holder(s.warehouse, market, j);
        }
    }
    lemma_round(s, market, who, cfg, now, other);
}

proof fn lemma_round(s: DbView, market: Seq<char>, who: Seq<Seq<char>>, cfg: MarketConfig, now: int, other: Seq<char>)
    requires
        chargeable(s, market, cfg, now),
        who.no_duplicates(),
        forall|i: int| 0 <= i < who.len() ==> has_character(s.characters, #[trigger] who[i]),
    ensures
        ({
            let c = charge_holders(s, market, who, cfg, now);
            if who.contains(other) {
                one_days_bill(s, c.db, market, other, used_slots(s.warehouse, market, other), cfg, now)
            } else {
                not_billed(s, c.db, market, other)
            }
        }),
        forall|x: Seq<char>| #[trigger]
            seen_at(charge_holders(s, market, who, cfg, now).db.characters, x) == seen_at(s.characters, x),
    decreases who.len(),
{
    if who.len() > 0 {
        let head = who.drop_last();
        let last = who.last();
        assert forall|i: int| 0 <= i < head.len() implies has_character(s.characters, #[trigger] head[i]) by {
            assert(head[i] == who[i]);
        }
        assert(!head.contains(last)) by {
            if head.contains(last) {
                let i = choose|i: int| 0 <= i < head.len() && head[i] == last;
                assert(who[i] == who[who.len() - 1]);
            }
        }
        lemma_round(s, market, head, cfg, now, other);
        lemma_round(s, market, head, cfg, now, last);
        law_a_round_of_charges(s, market, head, cfg, now, last);
        let b = charge_holders(s, market, head, cfg, now);
        let slots = used_slots(s.warehouse, market, last);
        assert(has_character(s.characters, who[who.len() - 1]));
        assert(has_character(b.db.characters, last));
        lemma_slots(s.warehouse, market, last);
        law_one_days_bill(b.db, market, last, slots, cfg, now, other);
        law_one_charge(b.db, market, last, slots, cfg, now, now, other);
        assert(seen_at(b.db.characters, last) == seen_at(s.characters, last));
        if who.contains(other) && other != last {
            let i = choose|i: int| 0 <= i < who.len() && who[i] == other;
            assert(head[i] == other);
        }
        if head.contains(other) {
            let i = choose|i: int| 0 <= i < head.len() && head[i] == other;
            assert(who[i] == other);
        }
        assert(who[who.len() - 1] == last);
    }
}

pub proof fn lemma_slots(rows: Seq<WarehouseItemView>, market: Seq<char>, who: Seq<char>)
    ensures
        used_slots(rows, market, who) == rows.filter(
            |r: WarehouseItemView| r.market_id == market && r.character_id == who,
        ).len(),
    decreases rows.len(),
{
    let p = |r: WarehouseItemView| r.market_id == market && r.character_id == who;
    reveal(Seq::filter);
    if rows.len() > 0 {
        lemma_slots(rows.drop_last(), market, who);
    }
}

proof fn lemma_every_holder(rows: Seq<WarehouseItemView>, market: Seq<char>, j: int)
    requires
        0 <= j < rows.len(),
        rows[j].market_id == market,
    ensures
        holders(rows, market).contains(rows[j].character_id),
    decreases rows.len(),
{
    let head = rows.drop_last();
    let before = holders(head, market);
    let after = holders(rows, market);
    let who = rows[j].character_id;
    if j < head.len() {
        lemma_every_holder(head, market, j);
        let i = choose|i: int| 0 <= i < before.len() && before[i] == head[j].character_id;
        assert(after[i] == who);
    } else if before.contains(who) {
        let i = choose|i: int| 0 <= i < before.len() && before[i] == who;
        assert(after[i] == who);
    } else {
        assert(after[after.len() - 1] == who);
    }
}

/// Settling pays what is owed as far as the purse stretches: the arrears and the purse fall by the lesser of the two, which
/// is a storage fee. Nobody else pays or owes anything by it.
pub proof fn law_settling_pays_the_lesser(s: DbView, market: Seq<char>, who: Seq<char>, now: int, other: Seq<char>)
    requires
        solvent(s.characters),
        has_character(s.characters, who),
        arrears_of(s.storage_accounts, market, who) >= 0,
    ensures
        ({
            let t = settled(s, market, who, now);
            let owed = arrears_of(s.storage_accounts, market, who);
            let purse = gold_of(s.characters, who);
            let spent = purse - gold_of(t.characters, who);
            &&& spent <= owed && spent <= purse && (spent == owed || spent == purse)
            &&& arrears_of(t.storage_accounts, market, who) == owed - spent
            &&& charged_at(t.storage_accounts, market, who) == charged_at(s.storage_accounts, market, who)
            &&& storage_paid(t.fees, market, who) == storage_paid(s.fees, market, who) + spent
            &&& other != who ==> not_billed(s, t, market, other)
        }),
{
    let k = find(s.storage_accounts, is_account(market, who));
    let owed = arrears_of(s.storage_accounts, market, who);
    let pay = payable(s, who, owed);
    let t = settled(s, market, who, now);
    lemma_purse_bound(s.characters, who);
    lemma_find(s.storage_accounts, is_account(market, who));
    lemma_paid(s.characters, who, -pay);
    let row = FeeRecordView {
        market_id: market,
        character_id: who,
        kind: "storage"@,
        gold: pay,
        trade_id: None,
        created_at: now,
    };
    lemma_storage_paid(s.fees, row, market, who);
    lemma_storage_paid(s.fees, row, market, other);
    if owed > 0 && pay > 0 {
        lemma_account_update(s.storage_accounts, market, who, t.storage_accounts[k], other);
    }
}

} // verus!
