//! What holding stock in a warehouse costs.

use vstd::prelude::*;

use crate::market_config::MarketConfig;
use crate::persistence::db::{Db, DbView};
use crate::persistence::inventory::lemma_sum_constant;
use crate::persistence::market::DbError;
use crate::persistence::purse::{
    burned, find_character, gold_of, has_character, is_character, law_burning_is_ledgered, lemma_paid,
    lemma_purse_bound, paid, purse_gold, purses, solvent, supply_gap, wealth,
};
use crate::persistence::rows::{
    CharacterRecordView, WarehouseAccount, WarehouseAccountView, WarehouseItemView,
};
use crate::persistence::warehouse::{is_slot, slots_used, used_slots};
use crate::table::{count, find, lemma_find, lemma_find_is, lemma_sum_le, lemma_sum_nonneg, sum};
use crate::text::same;

verus! {

/// The seconds of a day.
pub const DAY: i64 = 86_400;

pub open spec fn is_account(market: Seq<char>, character: Seq<char>) -> spec_fn(WarehouseAccountView) -> bool {
    |a: WarehouseAccountView| a.market_id == market && a.character_id == character
}

/// What a character owes a market for storage; 0 without an account.
pub open spec fn arrears_of(accounts: Seq<WarehouseAccountView>, market: Seq<char>, character: Seq<char>) -> int {
    let k = find(accounts, is_account(market, character));
    if k < accounts.len() {
        accounts[k].arrears
    } else {
        0
    }
}

/// When a character was last charged by a market; 0 without an account.
pub open spec fn charged_at(accounts: Seq<WarehouseAccountView>, market: Seq<char>, character: Seq<char>) -> int {
    let k = find(accounts, is_account(market, character));
    if k < accounts.len() {
        accounts[k].last_charged_at
    } else {
        0
    }
}

/// When a character was last seen; 0 when there is no such character.
pub open spec fn seen_at(characters: Seq<CharacterRecordView>, id: Seq<char>) -> int {
    let k = find(characters, is_character(id));
    if k < characters.len() {
        characters[k].last_seen
    } else {
        0
    }
}

pub open spec fn at_least_zero(n: int) -> int {
    if n > 0 {
        n
    } else {
        0
    }
}

pub open spec fn lesser(a: int, b: int) -> int {
    if a <= b {
        a
    } else {
        b
    }
}

/// How much of what is owed a character can pay.
pub open spec fn payable(s: DbView, character: Seq<char>, owed: int) -> int {
    lesser(owed, at_least_zero(gold_of(s.characters, character)))
}

/// The state after arrears are paid down as far as the purse stretches.
pub open spec fn settled(s: DbView, market: Seq<char>, character: Seq<char>, now: int) -> DbView {
    let k = find(s.storage_accounts, is_account(market, character));
    let owed = arrears_of(s.storage_accounts, market, character);
    let pay = payable(s, character, owed);
    if owed <= 0 || pay <= 0 {
        s
    } else {
        let a = s.storage_accounts[k];
        DbView {
            storage_accounts: s.storage_accounts.update(
                k,
                WarehouseAccountView { arrears: a.arrears - pay, ..a },
            ),
            ..burned(s, market, character, "storage"@, pay, None, now)
        }
    }
}

/// What charging one holder comes to.
pub struct Charge {
    pub db: DbView,
    pub paid: int,
    pub accrued: int,
}

/// Charging one holder of `slots` slots for a day. The first time only starts the clock; within a day
/// of the last charge nothing happens; a holder who has not been seen since is not charged, and the
/// clock moves on; what the purse does not cover becomes arrears, up to a cap.
pub open spec fn charge_holder(
    s: DbView,
    market: Seq<char>,
    who: Seq<char>,
    slots: int,
    cfg: MarketConfig,
    now: int,
) -> Charge {
    let k = find(s.storage_accounts, is_account(market, who));
    let last = charged_at(s.storage_accounts, market, who);
    let arrears = arrears_of(s.storage_accounts, market, who);
    let a = s.storage_accounts[k];
    let fee = cfg.storage_fee_per_slot_per_day as int;
    let due = slots * fee;
    let pay = payable(s, who, due);
    let cap = at_least_zero(cfg.storage_arrears_cap_days * fee);
    let owed = lesser(arrears + at_least_zero(due - pay), cap);
    if last > 0 && now - last < DAY {
        Charge { db: s, paid: 0, accrued: 0 }
    } else if last == 0 {
        Charge {
            db: DbView {
                storage_accounts: s.storage_accounts.push(
                    WarehouseAccountView { market_id: market, character_id: who, last_charged_at: now, arrears: 0 },
                ),
                ..s
            },
            paid: 0,
            accrued: 0,
        }
    } else if seen_at(s.characters, who) <= last {
        Charge {
            db: DbView {
                storage_accounts: s.storage_accounts.update(k, WarehouseAccountView { last_charged_at: now, ..a }),
                ..s
            },
            paid: 0,
            accrued: 0,
        }
    } else {
        Charge {
            db: DbView {
                storage_accounts: s.storage_accounts.update(
                    k,
                    WarehouseAccountView { last_charged_at: now, arrears: owed, ..a },
                ),
                ..burned(s, market, who, "storage"@, pay, None, now)
            },
            paid: at_least_zero(pay),
            accrued: at_least_zero(owed - arrears),
        }
    }
}

/// Whoever holds stock at a market, each once, in the order of their first slots.
pub open spec fn holders(rows: Seq<WarehouseItemView>, market: Seq<char>) -> Seq<Seq<char>>
    decreases rows.len(),
{
    if rows.len() == 0 {
        Seq::empty()
    } else {
        let before = holders(rows.drop_last(), market);
        let r = rows.last();
        if r.market_id == market && !before.contains(r.character_id) {
            before.push(r.character_id)
        } else {
            before
        }
    }
}

/// Charging some holders, one after the other.
pub open spec fn charge_holders(
    s: DbView,
    market: Seq<char>,
    who: Seq<Seq<char>>,
    cfg: MarketConfig,
    now: int,
) -> Charge
    decreases who.len(),
{
    if who.len() == 0 {
        Charge { db: s, paid: 0, accrued: 0 }
    } else {
        let before = charge_holders(s, market, who.drop_last(), cfg, now);
        let last = charge_holder(
            before.db,
            market,
            who.last(),
            used_slots(s.warehouse, market, who.last()),
            cfg,
            now,
        );
        Charge { db: last.db, paid: before.paid + last.paid, accrued: before.accrued + last.accrued }
    }
}

/// An account that exists has been charged, owes nothing negative, and can owe one more charge without
/// losing count.
pub open spec fn account_sound(s: DbView, market: Seq<char>, who: Seq<char>, cfg: MarketConfig) -> bool {
    let k = find(s.storage_accounts, is_account(market, who));
    k < s.storage_accounts.len() ==> {
        &&& s.storage_accounts[k].last_charged_at != 0
        &&& s.storage_accounts[k].arrears >= 0
        &&& s.storage_accounts[k].arrears + s.warehouse.len() * cfg.storage_fee_per_slot_per_day <= i64::MAX
    }
}

/// Whoever holds stock at a market is a character.
pub open spec fn holders_known(s: DbView, market: Seq<char>) -> bool {
    forall|i: int|
        0 <= i < s.warehouse.len() && (#[trigger] s.warehouse[i]).market_id == market ==> has_character(
            s.characters,
            s.warehouse[i].character_id,
        )
}

/// Whether a holder has been charged within a day of `now`.
pub open spec fn up_to_date(s: DbView, market: Seq<char>, who: Seq<char>, now: int) -> bool {
    let last = charged_at(s.storage_accounts, market, who);
    last > 0 && now - last < DAY
}

/// Changing one account leaves every other as it was.
pub proof fn lemma_account_update(
    accounts: Seq<WarehouseAccountView>,
    market: Seq<char>,
    who: Seq<char>,
    a: WarehouseAccountView,
    other: Seq<char>,
)
    requires
        find(accounts, is_account(market, who)) < accounts.len(),
        a.market_id == market,
        a.character_id == who,
    ensures
        ({
            let k = find(accounts, is_account(market, who));
            let after = accounts.update(k, a);
            &&& find(after, is_account(market, who)) == k
            &&& other != who ==> charged_at(after, market, other) == charged_at(accounts, market, other)
            &&& other != who ==> arrears_of(after, market, other) == arrears_of(accounts, market, other)
            &&& other != who ==> find(after, is_account(market, other)) == find(accounts, is_account(market, other))
        }),
{
    let k = find(accounts, is_account(market, who));
    let after = accounts.update(k, a);
    lemma_find(accounts, is_account(market, who));
    assert forall|i: int| 0 <= i < k implies !is_account(market, who)(#[trigger] after[i]) by {
        assert(!is_account(market, who)(accounts[i]));
    }
    lemma_find_is(after, is_account(market, who), k);
    if other != who {
        let m = find(accounts, is_account(market, other));
        lemma_find(accounts, is_account(market, other));
        assert forall|i: int| 0 <= i < m implies !is_account(market, other)(#[trigger] after[i]) by {
            assert(!is_account(market, other)(accounts[i]));
        }
        lemma_find_is(after, is_account(market, other), m);
    }
}

pub proof fn lemma_account_push(
    accounts: Seq<WarehouseAccountView>,
    market: Seq<char>,
    who: Seq<char>,
    a: WarehouseAccountView,
    other: Seq<char>,
)
    requires
        find(accounts, is_account(market, who)) == accounts.len(),
        a.market_id == market,
        a.character_id == who,
    ensures
        find(accounts.push(a), is_account(market, who)) == accounts.len(),
        other != who ==> charged_at(accounts.push(a), market, other) == charged_at(accounts, market, other),
        other != who ==> arrears_of(accounts.push(a), market, other) == arrears_of(accounts, market, other),
        other != who ==> (find(accounts.push(a), is_account(market, other)) < accounts.push(a).len()) == (find(
            accounts,
            is_account(market, other),
        ) < accounts.len()),
{
    let after = accounts.push(a);
    lemma_find(accounts, is_account(market, who));
    assert forall|i: int| 0 <= i < accounts.len() implies !is_account(market, who)(#[trigger] after[i]) by {
        assert(!is_account(market, who)(accounts[i]));
    }
    lemma_find_is(after, is_account(market, who), accounts.len() as int);
    if other != who {
        let m = find(accounts, is_account(market, other));
        lemma_find(accounts, is_account(market, other));
        let m1 = if m < accounts.len() {
            m
        } else {
            after.len() as int
        };
        assert forall|i: int| 0 <= i < m1 implies !is_account(market, other)(#[trigger] after[i]) by {
            if i < accounts.len() {
                assert(!is_account(market, other)(accounts[i]));
            }
        }
        lemma_find_is(after, is_account(market, other), m1);
    }
}

/// What one charge keeps: no gold is made or lost but what is burned, no purse is overdrawn, no goods
/// move, arrears never pass the cap by it, a holder who has not been seen since the last charge pays
/// nothing, and one who was charged is up to date for the rest of the day.
pub proof fn law_one_charge(
    s: DbView,
    market: Seq<char>,
    who: Seq<char>,
    slots: int,
    cfg: MarketConfig,
    now: int,
    later: int,
    other: Seq<char>,
)
    requires
        account_sound(s, market, who, cfg),
        solvent(s.characters),
        has_character(s.characters, who),
        slots >= 0,
        cfg.storage_fee_per_slot_per_day > 0,
        0 < now <= later < now + DAY,
    ensures
        ({
            let c = charge_holder(s, market, who, slots, cfg, now);
            &&& supply_gap(c.db) == supply_gap(s)
            &&& wealth(c.db) == wealth(s) - c.paid
            &&& solvent(c.db.characters)
            &&& c.db.warehouse == s.warehouse && c.db.orders == s.orders && c.db.listings == s.listings
            &&& c.db.inventory == s.inventory && c.db.storage == s.storage
            &&& c.paid >= 0 && c.accrued >= 0
            &&& arrears_of(c.db.storage_accounts, market, who) <= at_least_zero(
                cfg.storage_arrears_cap_days * cfg.storage_fee_per_slot_per_day,
            ) || arrears_of(c.db.storage_accounts, market, who) == arrears_of(s.storage_accounts, market, who)
            &&& later == now || !up_to_date(s, market, who, now) ==> up_to_date(c.db, market, who, later)
            &&& up_to_date(s, market, other, later) ==> up_to_date(c.db, market, other, later)
            &&& other != who && account_sound(s, market, other, cfg) ==> account_sound(c.db, market, other, cfg)
            &&& other != who ==> charged_at(c.db.storage_accounts, market, other) == charged_at(
                s.storage_accounts,
                market,
                other,
            )
            &&& other != who ==> arrears_of(c.db.storage_accounts, market, other) == arrears_of(
                s.storage_accounts,
                market,
                other,
            )
            &&& c.accrued <= slots * cfg.storage_fee_per_slot_per_day
            &&& seen_at(s.characters, who) <= charged_at(s.storage_accounts, market, who) ==> c.paid == 0 && c.accrued
                == 0 && c.db.characters == s.characters
            &&& forall|x: Seq<char>|
                #![trigger has_character(c.db.characters, x)]
                has_character(c.db.characters, x) == has_character(s.characters, x)
            &&& forall|x: Seq<char>| #[trigger] seen_at(c.db.characters, x) == seen_at(s.characters, x)
        }),
{
    let c = charge_holder(s, market, who, slots, cfg, now);
    let k = find(s.storage_accounts, is_account(market, who));
    lemma_find(s.storage_accounts, is_account(market, who));
    let last = charged_at(s.storage_accounts, market, who);
    let fee = cfg.storage_fee_per_slot_per_day as int;
    let due = slots * fee;
    assert(due >= 0) by (nonlinear_arith)
        requires
            due == slots * fee,
            slots >= 0,
            fee > 0,
    ;
    lemma_purse_bound(s.characters, who);
    let pay = payable(s, who, due);
    if k < s.storage_accounts.len() {
        assert(s.storage_accounts[k].last_charged_at != 0);
    }
    law_burning_is_ledgered(s, market, who, "storage"@, pay, None, now);
    lemma_paid(s.characters, who, -pay);
    lemma_seen(s.characters, who, -pay);
    if k < s.storage_accounts.len() {
        let a = s.storage_accounts[k];
        lemma_account_update(
            s.storage_accounts,
            market,
            who,
            WarehouseAccountView { last_charged_at: now, ..a },
            other,
        );
        let owed = lesser(
            arrears_of(s.storage_accounts, market, who) + at_least_zero(due - pay),
            at_least_zero(cfg.storage_arrears_cap_days * fee),
        );
        lemma_account_update(
            s.storage_accounts,
            market,
            who,
            WarehouseAccountView { last_charged_at: now, arrears: owed, ..a },
            other,
        );
    } else {
        lemma_account_push(
            s.storage_accounts,
            market,
            who,
            WarehouseAccountView { market_id: market, character_id: who, last_charged_at: now, arrears: 0 },
            other,
        );
    }
}

/// Paying does not change when anyone was seen.
proof fn lemma_seen(characters: Seq<CharacterRecordView>, id: Seq<char>, amount: int)
    ensures
        forall|x: Seq<char>|
            #[trigger] seen_at(paid(characters, id, amount), x) == seen_at(characters, x),
{
    let after = paid(characters, id, amount);
    lemma_find(characters, is_character(id));
    assert forall|x: Seq<char>| #[trigger] seen_at(after, x) == seen_at(characters, x) by {
        lemma_find(characters, is_character(x));
        let j = find(characters, is_character(x));
        assert forall|i: int| 0 <= i < j implies !is_character(x)(#[trigger] after[i]) by {
            assert(!is_character(x)(characters[i]));
        }
        lemma_find_is(after, is_character(x), j);
    }
}

/// How many slots some holders use together.
pub open spec fn slots_of(rows: Seq<WarehouseItemView>, market: Seq<char>, who: Seq<Seq<char>>) -> int
    decreases who.len(),
{
    if who.len() == 0 {
        0
    } else {
        slots_of(rows, market, who.drop_last()) + used_slots(rows, market, who.last())
    }
}

/// Whether a row is a slot of one of some holders.
spec fn is_slot_of(market: Seq<char>, who: Seq<Seq<char>>) -> spec_fn(WarehouseItemView) -> bool {
    |r: WarehouseItemView| r.market_id == market && who.contains(r.character_id)
}

proof fn lemma_slots_of(rows: Seq<WarehouseItemView>, market: Seq<char>, who: Seq<Seq<char>>)
    requires
        who.no_duplicates(),
    ensures
        0 <= slots_of(rows, market, who) <= rows.len(),
        slots_of(rows, market, who) == count(rows, is_slot_of(market, who)),
    decreases who.len(),
{
    let f = |r: WarehouseItemView|
        if is_slot_of(market, who)(r) {
            1int
        } else {
            0int
        };
    let one = |r: WarehouseItemView| 1int;
    assert(count(rows, is_slot_of(market, who)) == sum(rows, f));
    lemma_sum_nonneg(rows, f);
    lemma_sum_le(rows, f, one);
    lemma_sum_constant(rows, one, 1);
    if who.len() == 0 {
        lemma_sum_constant(rows, f, 0);
        assert(rows.len() * 0 == 0) by (nonlinear_arith);
    } else {
        let head = who.drop_last();
        lemma_slots_of(rows, market, head);
        lemma_slots_step(rows, market, who);
    }
}

proof fn lemma_slots_step(rows: Seq<WarehouseItemView>, market: Seq<char>, who: Seq<Seq<char>>)
    requires
        who.no_duplicates(),
        who.len() > 0,
    ensures
        count(rows, is_slot_of(market, who)) == count(rows, is_slot_of(market, who.drop_last())) + count(
            rows,
            is_slot(market, who.last()),
        ),
    decreases rows.len(),
{
    if rows.len() > 0 {
        lemma_slots_step(rows.drop_last(), market, who);
        let r = rows.last();
        let head = who.drop_last();
        if who.contains(r.character_id) {
            let i = choose|i: int| 0 <= i < who.len() && who[i] == r.character_id;
            if i < head.len() {
                assert(head[i] == r.character_id);
            }
        }
        if head.contains(r.character_id) {
            let i = choose|i: int| 0 <= i < head.len() && head[i] == r.character_id;
            assert(who[i] == r.character_id);
            assert(who[who.len() - 1] == who.last());
        }
        assert(who[who.len() - 1] == who.last());
    }
}

/// Whether someone holds a slot at a market.
pub open spec fn holds_slot(rows: Seq<WarehouseItemView>, market: Seq<char>, who: Seq<char>) -> bool {
    exists|j: int| 0 <= j < rows.len() && (#[trigger] rows[j]).market_id == market && rows[j].character_id == who
}

/// The holders of a market are each named once, and hold a slot there.
pub proof fn lemma_holders(rows: Seq<WarehouseItemView>, market: Seq<char>)
    ensures
        holders(rows, market).no_duplicates(),
        forall|i: int|
            0 <= i < holders(rows, market).len() ==> holds_slot(rows, market, #[trigger] holders(rows, market)[i]),
    decreases rows.len(),
{
    if rows.len() > 0 {
        let head = rows.drop_last();
        lemma_holders(head, market);
        let before = holders(head, market);
        let after = holders(rows, market);
        assert forall|i: int| 0 <= i < after.len() implies holds_slot(rows, market, #[trigger] after[i]) by {
            if i < before.len() {
                assert(after[i] == before[i]);
                let j = choose|j: int|
                    0 <= j < head.len() && (#[trigger] head[j]).market_id == market && head[j].character_id
                        == before[i];
                assert(rows[j] == head[j]);
            } else {
                assert(rows[rows.len() - 1] == rows.last());
            }
        }
        assert forall|i: int, j: int| 0 <= i < after.len() && 0 <= j < after.len() && i != j implies after[i]
            != after[j] by {
            if i == before.len() {
                assert(before[j] == after[j]);
                assert(before.contains(before[j]));
            } else if j == before.len() {
                assert(before[i] == after[i]);
                assert(before.contains(before[i]));
            }
        }
    }
}

/// Everything a round of charges needs of the state that it starts from.
pub open spec fn chargeable(s: DbView, market: Seq<char>, cfg: MarketConfig, now: int) -> bool {
    &&& cfg.storage_fee_per_slot_per_day > 0
    &&& now > 0
    &&& solvent(s.characters)
    &&& purses(s) <= i64::MAX
    &&& holders_known(s, market)
    &&& forall|who: Seq<char>| #[trigger] account_sound(s, market, who, cfg)
    &&& s.warehouse.len() * cfg.storage_fee_per_slot_per_day <= i64::MAX
    &&& i64::MIN <= cfg.storage_arrears_cap_days * cfg.storage_fee_per_slot_per_day <= i64::MAX
}

/// What charging some holders keeps: no gold is made or lost but what is taken and burned, no purse is overdrawn, no goods
/// move, whoever owed no more than the cap still does not, and whoever was charged is up to date.
pub proof fn law_a_round_of_charges(
    s: DbView,
    market: Seq<char>,
    who: Seq<Seq<char>>,
    cfg: MarketConfig,
    now: int,
    other: Seq<char>,
)
    requires
        chargeable(s, market, cfg, now),
        who.no_duplicates(),
        forall|i: int| 0 <= i < who.len() ==> has_character(s.characters, #[trigger] who[i]),
    ensures
        ({
            let c = charge_holders(s, market, who, cfg, now);
            &&& supply_gap(c.db) == supply_gap(s)
            &&& wealth(c.db) == wealth(s) - c.paid
            &&& purses(c.db) == purses(s) - c.paid
            &&& solvent(c.db.characters)
            &&& c.db.warehouse == s.warehouse && c.db.orders == s.orders && c.db.listings == s.listings
            &&& c.db.inventory == s.inventory && c.db.storage == s.storage
            &&& 0 <= c.paid <= purses(s)
            &&& 0 <= c.accrued <= slots_of(s.warehouse, market, who) * cfg.storage_fee_per_slot_per_day
            &&& forall|x: Seq<char>|
                #![trigger has_character(c.db.characters, x)]
                has_character(c.db.characters, x) == has_character(s.characters, x)
            &&& ({
                let cap = at_least_zero(cfg.storage_arrears_cap_days * cfg.storage_fee_per_slot_per_day);
                arrears_of(s.storage_accounts, market, other) <= cap ==> arrears_of(
                    c.db.storage_accounts,
                    market,
                    other,
                ) <= cap
            })
            &&& !who.contains(other) ==> account_sound(c.db, market, other, cfg)
            &&& who.contains(other) ==> up_to_date(c.db, market, other, now)
        }),
    decreases who.len(),
{
    let c = charge_holders(s, market, who, cfg, now);
    lemma_sum_nonneg(s.characters, purse_gold());
    if who.len() > 0 {
        let head = who.drop_last();
        let last = who.last();
        assert forall|i: int| 0 <= i < head.len() implies has_character(s.characters, #[trigger] head[i]) by {
            assert(head[i] == who[i]);
        }
        assert(!head.contains(last)) by {
            if head.contains(last) {
                let i = choose|i: int| 0 <= i < head.len() && head[i] == last;
                assert(who[i] == who[who.len() - 1]);
            }
        }
        law_a_round_of_charges(s, market, head, cfg, now, other);
        law_a_round_of_charges(s, market, head, cfg, now, last);
        let b = charge_holders(s, market, head, cfg, now);
        let slots = used_slots(s.warehouse, market, last);
        assert(has_character(s.characters, who[who.len() - 1]));
        assert(has_character(b.db.characters, last));
        assert(slots >= 0) by {
            let f = |r: WarehouseItemView|
                if is_slot(market, last)(r) {
                    1int
                } else {
                    0int
                };
            lemma_sum_nonneg(s.warehouse, f);
        }
        law_one_charge(b.db, market, last, slots, cfg, now, now, other);
        law_one_charge(b.db, market, last, slots, cfg, now, now, last);
        let fee = cfg.storage_fee_per_slot_per_day as int;
        assert(slots_of(s.warehouse, market, who) * fee == slots_of(s.warehouse, market, head) * fee + slots * fee)
            by (nonlinear_arith)
            requires
                slots_of(s.warehouse, market, who) == slots_of(s.warehouse, market, head) + slots,
        ;
        lemma_purse_bound(c.db.characters, last);
        if who.contains(other) && other != last {
            let i = choose|i: int| 0 <= i < who.len() && who[i] == other;
            assert(head[i] == other);
        }
        if head.contains(other) {
            let i = choose|i: int| 0 <= i < head.len() && head[i] == other;
            assert(who[i] == other);
        }
        if !who.contains(other) {
            assert(other != last) by {
                assert(who[who.len() - 1] == last);
            }
        }
    } else {
        assert(0 * cfg.storage_fee_per_slot_per_day == 0) by (nonlinear_arith);
    }
}

/// Charging a market twice at one time charges it once: the second round changes nothing and takes
/// nothing.
pub proof fn law_charging_twice_charges_once(s: DbView, market: Seq<char>, cfg: MarketConfig, now: int)
    requires
        chargeable(s, market, cfg, now),
    ensures
        ({
            let who = holders(s.warehouse, market);
            let first = charge_holders(s, market, who, cfg, now);
            let second = charge_holders(first.db, market, holders(first.db.warehouse, market), cfg, now);
            second.db == first.db && second.paid == 0 && second.accrued == 0
        }),
{
    let who = holders(s.warehouse, market);
    lemma_holders(s.warehouse, market);
    lemma_holders_known(s, market);
    let first = charge_holders(s, market, who, cfg, now);
    law_a_round_of_charges(s, market, who, cfg, now, Seq::empty());
    assert forall|i: int| 0 <= i < who.len() implies up_to_date(first.db, market, #[trigger] who[i], now) by {
        law_a_round_of_charges(s, market, who, cfg, now, who[i]);
        assert(who.contains(who[i]));
    }
    lemma_nothing_due(first.db, market, who, cfg, now);
}

pub proof fn lemma_holders_known(s: DbView, market: Seq<char>)
    requires
        holders_known(s, market),
    ensures
        forall|i: int|
            0 <= i < holders(s.warehouse, market).len() ==> has_character(
                s.characters,
                #[trigger] holders(s.warehouse, market)[i],
            ),
{
    lemma_holders(s.warehouse, market);
    let who = holders(s.warehouse, market);
    assert forall|i: int| 0 <= i < who.len() implies has_character(s.characters, #[trigger] who[i]) by {
        let j = choose|j: int|
            0 <= j < s.warehouse.len() && (#[trigger] s.warehouse[j]).market_id == market
                && s.warehouse[j].character_id == who[i];
        assert(s.warehouse[j].market_id == market);
    }
}

/// Charging holders who are all up to date does nothing.
proof fn lemma_nothing_due(s: DbView, market: Seq<char>, who: Seq<Seq<char>>, cfg: MarketConfig, now: int)
    requires
        forall|i: int| 0 <= i < who.len() ==> up_to_date(s, market, #[trigger] who[i], now),
    ensures
        charge_holders(s, market, who, cfg, now) == (Charge { db: s, paid: 0, accrued: 0 }),
    decreases who.len(),
{
    if who.len() > 0 {
        let head = who.drop_last();
        assert forall|i: int| 0 <= i < head.len() implies up_to_date(s, market, #[trigger] head[i], now) by {
            assert(head[i] == who[i]);
        }
        lemma_nothing_due(s, market, head, cfg, now);
        assert(up_to_date(s, market, who[who.len() - 1], now));
    }
}

/// Settling arrears moves no gold without the ledger, and takes off what is owed exactly what is paid.
pub proof fn law_settling_pays_down(s: DbView, market: Seq<char>, character: Seq<char>, now: int)
    requires
        solvent(s.characters),
        has_character(s.characters, character),
    ensures
        ({
            let owed = arrears_of(s.storage_accounts, market, character);
            let t = settled(s, market, character, now);
            let left = arrears_of(t.storage_accounts, market, character);
            &&& supply_gap(t) == supply_gap(s)
            &&& solvent(t.characters)
            &&& owed > 0 ==> gold_of(s.characters, character) - gold_of(t.characters, character) == owed - left
            &&& owed > 0 ==> left == at_least_zero(owed - gold_of(s.characters, character))
        }),
{
    let k = find(s.storage_accounts, is_account(market, character));
    let owed = arrears_of(s.storage_accounts, market, character);
    let pay = payable(s, character, owed);
    lemma_purse_bound(s.characters, character);
    lemma_find(s.storage_accounts, is_account(market, character));
    law_burning_is_ledgered(s, market, character, "storage"@, pay, None, now);
    lemma_paid(s.characters, character, -pay);
    if owed > 0 && pay > 0 {
        let a = s.storage_accounts[k];
        lemma_account_update(
            s.storage_accounts,
            market,
            character,
            WarehouseAccountView { arrears: a.arrears - pay, ..a },
            character,
        );
    }
}

impl Db {
    fn find_account(&self, market_id: &str, character_id: &str) -> (k: usize)
        ensures
            k == find(self@.storage_accounts, is_account(market_id@, character_id@)),
            k <= self@.storage_accounts.len(),
            k < self@.storage_accounts.len() ==> is_account(market_id@, character_id@)(
                self@.storage_accounts[k as int],
            ),
    {
        let f = |a: &WarehouseAccount| -> (b: bool)
            ensures
                b == is_account(market_id@, character_id@)(a@),
            { same(a.market_id.as_str(), market_id) && same(a.character_id.as_str(), character_id) };
        self.storage_accounts.find(f, Ghost(is_account(market_id@, character_id@)))
    }

    /// What a character owes a market for storage.
    pub fn warehouse_arrears(&self, market_id: &str, character_id: &str) -> (owed: i64)
        ensures
            owed == arrears_of(self@.storage_accounts, market_id@, character_id@),
    {
        let k: usize = self.find_account(market_id, character_id);
        if k < self.storage_accounts.len() {
            self.storage_accounts.get(k).arrears
        } else {
            0
        }
    }

    /// Pay down storage arrears as far as the purse stretches, and return what is still owed.
    pub fn settle_warehouse_arrears(&mut self, market_id: &str, character_id: &str, now: i64) -> (out: Result<i64, DbError>)
        ensures
            ({
                let s = old(self)@;
                let owed = arrears_of(s.storage_accounts, market_id@, character_id@);
                &&& out is Err == (owed > 0 && !has_character(s.characters, character_id@))
                &&& out matches Err(e) ==> e is RowNotFound && final(self)@ == s
                &&& out matches Ok(left) ==> {
                    &&& final(self)@ == settled(s, market_id@, character_id@, now as int)
                    &&& left == if owed > 0 {
                        owed - payable(s, character_id@, owed)
                    } else {
                        0
                    }
                }
            }),
    {
        let k: usize = self.find_account(market_id, character_id);
        let owed: i64 = if k < self.storage_accounts.len() {
            self.storage_accounts.get(k).arrears
        } else {
            0
        };
        if owed <= 0 {
            return Ok(0);
        }
        let at: usize = find_character(&self.characters, character_id);
        if at >= self.characters.len() {
            return Err(DbError::RowNotFound);
        }
        let gold: i64 = self.characters.get(at).gold;
        let purse: i64 = if gold > 0 {
            gold
        } else {
            0
        };
        let pay: i64 = if owed <= purse {
            owed
        } else {
            purse
        };
        if pay > 0 {
            self.burn_fee_in_tx(market_id, character_id, "storage", pay, None, now);
            let a = self.storage_accounts.get_mut(k);
            a.arrears = a.arrears - pay;
        }
        Ok(owed - pay)
    }

    /// Whoever holds stock at a market, each once.
    fn market_holders(&self, market_id: &str) -> (out: Vec<String>)
        ensures
            names_view(out@) == holders(self@.warehouse, market_id@),
    {
        let mut out: Vec<String> = Vec::new();
        let mut i: usize = 0;
        proof {
            assert(self@.warehouse.take(0) =~= Seq::empty());
            assert(names_view(out@) =~= Seq::empty());
        }
        while i < self.warehouse.len()
            invariant
                i <= self@.warehouse.len(),
                names_view(out@) == holders(self@.warehouse.take(i as int), market_id@),
            decreases self@.warehouse.len() - i,
        {
            proof {
                assert(self@.warehouse.take(i + 1).drop_last() =~= self@.warehouse.take(i as int));
            }
            let r = self.warehouse.get(i);
            if same(r.market_id.as_str(), market_id) && !has_name(&out, r.character_id.as_str()) {
                let ghost before = out@;
                let who = r.character_id.clone();
                out.push(who);
                assert(names_view(out@) =~= names_view(before).push(r@.character_id));
            }
            i = i + 1;
        }
        assert(self@.warehouse.take(i as int) =~= self@.warehouse);
        out
    }

    /// Charge one day's storage at a market to everyone who holds stock there. Returns the gold that
    /// was charged and the gold that was added to arrears. A rate of 0 does nothing at all.
    pub fn charge_storage(&mut self, market_id: &str, cfg: &MarketConfig, now: i64) -> (out: (i64, i64))
        requires
            cfg.storage_fee_per_slot_per_day > 0 ==> chargeable(old(self)@, market_id@, *cfg, now as int),
        ensures
            cfg.storage_fee_per_slot_per_day <= 0 ==> out.0 == 0 && out.1 == 0 && final(self)@ == old(self)@,
            cfg.storage_fee_per_slot_per_day > 0 ==> ({
                let c = charge_holders(
                    old(self)@,
                    market_id@,
                    holders(old(self)@.warehouse, market_id@),
                    *cfg,
                    now as int,
                );
                final(self)@ == c.db && out.0 == c.paid && out.1 == c.accrued
            }),
    {
        if cfg.storage_fee_per_slot_per_day <= 0 {
            return (0, 0);
        }
        let ghost s = self@;
        let ghost m = market_id@;
        let who = self.market_holders(market_id);
        let ghost all = names_view(who@);
        let cap: i64 = cfg.storage_arrears_cap_days * cfg.storage_fee_per_slot_per_day;
        let mut charged: i64 = 0;
        let mut accrued: i64 = 0;
        let mut i: usize = 0;
        proof {
            lemma_holders(s.warehouse, m);
            lemma_holders_known(s, m);
            assert(all.take(0) =~= Seq::empty());
        }
        while i < who.len()
            invariant
                i <= who.len(),
                m == market_id@,
                all == names_view(who@),
                all.no_duplicates(),
                forall|j: int| 0 <= j < all.len() ==> has_character(s.characters, #[trigger] all[j]),
                chargeable(s, m, *cfg, now as int),
                cap == cfg.storage_arrears_cap_days * cfg.storage_fee_per_slot_per_day,
                ({
                    let c = charge_holders(s, m, all.take(i as int), *cfg, now as int);
                    self@ == c.db && charged == c.paid && accrued == c.accrued
                }),
            decreases who.len() - i,
        {
            let name = who[i].as_str();
            let ghost head = all.take(i as int);
            let ghost next = all.take(i + 1);
            let ghost cur = self@;
            proof {
                assert(next.drop_last() =~= head);
                assert(next.last() == name@);
                assert forall|j: int| 0 <= j < next.len() implies has_character(s.characters, #[trigger] next[j]) by {
                    assert(next[j] == all[j]);
                }
                assert forall|j: int| 0 <= j < head.len() implies has_character(s.characters, #[trigger] head[j]) by {
                    assert(head[j] == all[j]);
                }
                law_a_round_of_charges(s, m, head, *cfg, now as int, name@);
                law_a_round_of_charges(s, m, next, *cfg, now as int, name@);
                assert(!head.contains(name@)) by {
                    if head.contains(name@) {
                        let j = choose|j: int| 0 <= j < head.len() && head[j] == name@;
                        assert(all[j] == all[i as int]);
                    }
                }
                lemma_slots_of(s.warehouse, m, next);
                let fee = cfg.storage_fee_per_slot_per_day as int;
                let n = slots_of(s.warehouse, m, next);
                assert(n * fee <= s.warehouse.len() * fee) by (nonlinear_arith)
                    requires
                        n <= s.warehouse.len(),
                        fee > 0,
                ;
                lemma_slots_of(s.warehouse, m, head);
                lemma_purse_bound(cur.characters, name@);
                assert(has_character(s.characters, all[i as int]));
                assert(has_character(cur.characters, name@));
            }
            let slots: usize = slots_used(&self.warehouse, market_id, name);
            proof {
                let fee = cfg.storage_fee_per_slot_per_day as int;
                assert(0 <= slots <= s.warehouse.len()) by {
                    assert(slots_of(s.warehouse, m, next) == slots_of(s.warehouse, m, head) + slots);
                }
                assert(0 <= slots * fee <= s.warehouse.len() * fee) by (nonlinear_arith)
                    requires
                        0 <= slots <= s.warehouse.len(),
                        fee > 0,
                ;
                assert(slots <= i64::MAX) by (nonlinear_arith)
                    requires
                        slots * fee <= i64::MAX,
                        fee > 0,
                        slots >= 0,
                ;
            }
            let k: usize = self.find_account(market_id, name);
            let (last, arrears): (i64, i64) = if k < self.storage_accounts.len() {
                let a = self.storage_accounts.get(k);
                (a.last_charged_at, a.arrears)
            } else {
                (0, 0)
            };
            if last > 0 && now - last < DAY {
                i = i + 1;
                continue ;
            }
            let at: usize = find_character(&self.characters, name);
            if last == 0 {
                self.storage_accounts.push(
                    WarehouseAccount {
                        market_id: market_id.to_string(),
                        character_id: name.to_string(),
                        last_charged_at: now,
                        arrears: 0,
                    },
                );
                i = i + 1;
                continue ;
            }
            if self.characters.get(at).last_seen <= last {
                let a = self.storage_accounts.get_mut(k);
                a.last_charged_at = now;
                i = i + 1;
                continue ;
            }
            let due: i64 = slots as i64 * cfg.storage_fee_per_slot_per_day;
            let purse: i64 = self.characters.get(at).gold;
            let pay: i64 = if due <= purse {
                due
            } else {
                purse
            };
            if pay > 0 {
                self.burn_fee_in_tx(market_id, name, "storage", pay, None, now);
                charged = charged + pay;
            }
            let more: i64 = arrears + (due - pay);
            let most: i64 = if cap > 0 {
                cap
            } else {
                0
            };
            let owed: i64 = if more <= most {
                more
            } else {
                most
            };
            if owed > arrears {
                accrued = accrued + (owed - arrears);
            }
            let a = self.storage_accounts.get_mut(k);
            a.last_charged_at = now;
            a.arrears = owed;
            i = i + 1;
        }
        assert(all.take(i as int) =~= all);
        (charged, accrued)
    }
}

/// The texts of a list of names.
pub open spec fn names_view(names: Seq<String>) -> Seq<Seq<char>> {
    Seq::new(names.len(), |i: int| names[i]@)
}

/// Whether a name is in a list.
pub fn has_name(names: &Vec<String>, name: &str) -> (yes: bool)
    ensures
        yes == names_view(names@).contains(name@),
{
    let mut i: usize = 0;
    while i < names.len()
        invariant
            i <= names.len(),
            forall|j: int| 0 <= j < i ==> (#[trigger] names_view(names@)[j]) != name@,
        decreases names.len() - i,
    {
        if same(names[i].as_str(), name) {
            assert(names_view(names@)[i as int] == name@);
            return true;
        }
        i = i + 1;
    }
    false
}

} // verus!
