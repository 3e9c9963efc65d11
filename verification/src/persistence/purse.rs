//! Purses, the fee ledger and the ledger of the money supply.

use vstd::prelude::*;

use crate::persistence::db::{Db, DbView};
use crate::persistence::rows::{
    CharacterRecord, CharacterRecordView, CommandRecord, CommandRecordView, FeeRecord, FeeRecordView,
    LedgerRecord, LedgerRecordView, OrderRecordView,
};
use crate::table::{
    find, lemma_find, lemma_find_is, lemma_sum_nonneg, lemma_sum_push, lemma_sum_update, rows_view, sum,
    Table,
};
use crate::tally::{add_named, amount, in_name_order, lemma_added, tallied_by};
use crate::text::{opt_str, own_opt, pairs_view, same};

verus! {

/// Whether a row is the character with this id.
pub open spec fn is_character(id: Seq<char>) -> spec_fn(CharacterRecordView) -> bool {
    |c: CharacterRecordView| c.character.id == id
}

/// Whether the character exists.
pub open spec fn has_character(characters: Seq<CharacterRecordView>, id: Seq<char>) -> bool {
    find(characters, is_character(id)) < characters.len()
}

/// The gold in a character's purse; 0 when there is no such character.
pub open spec fn gold_of(characters: Seq<CharacterRecordView>, id: Seq<char>) -> int {
    let k = find(characters, is_character(id));
    if k < characters.len() {
        characters[k].gold
    } else {
        0
    }
}

/// The characters after `amount`, which may be negative, is added to one purse.
pub open spec fn paid(characters: Seq<CharacterRecordView>, id: Seq<char>, amount: int) -> Seq<
    CharacterRecordView,
> {
    let k = find(characters, is_character(id));
    if k < characters.len() {
        characters.update(
            k,
            CharacterRecordView { gold: characters[k].gold + amount, ..characters[k] },
        )
    } else {
        characters
    }
}

/// The characters after gold that already exists is moved into one purse.
pub open spec fn granted(characters: Seq<CharacterRecordView>, id: Seq<char>, amount: int) -> Seq<
    CharacterRecordView,
> {
    if amount <= 0 {
        characters
    } else {
        paid(characters, id, amount)
    }
}

/// The ledger of the money supply after a change is recorded.
pub open spec fn ledgered(
    ledger: Seq<LedgerRecordView>,
    id: Seq<char>,
    amount: int,
    reason: Seq<char>,
    now: int,
) -> Seq<LedgerRecordView> {
    if amount == 0 {
        ledger
    } else {
        ledger.push(LedgerRecordView { character_id: id, amount, reason, created_at: now })
    }
}

/// The state after gold is created in a purse.
pub open spec fn minted(s: DbView, id: Seq<char>, amount: int, reason: Seq<char>, now: int) -> DbView {
    if amount <= 0 {
        s
    } else {
        DbView {
            characters: granted(s.characters, id, amount),
            ledger: ledgered(s.ledger, id, amount, reason, now),
            ..s
        }
    }
}

/// The state after a market fee is burned out of a purse.
pub open spec fn burned(
    s: DbView,
    market: Seq<char>,
    id: Seq<char>,
    kind: Seq<char>,
    gold: int,
    trade: Option<Seq<char>>,
    now: int,
) -> DbView {
    if gold <= 0 {
        s
    } else {
        DbView {
            characters: paid(s.characters, id, -gold),
            fees: s.fees.push(
                FeeRecordView {
                    market_id: market,
                    character_id: id,
                    kind,
                    gold,
                    trade_id: trade,
                    created_at: now,
                },
            ),
            ledger: ledgered(s.ledger, id, -gold, "market_fee"@, now),
            ..s
        }
    }
}

/// Whether a command may run: it carries no id, or an id not seen before.
pub open spec fn is_command(id: Seq<char>) -> spec_fn(CommandRecordView) -> bool {
    |c: CommandRecordView| c.command_id == id
}

pub open spec fn fresh_command(commands: Seq<CommandRecordView>, id: Seq<char>) -> bool {
    id.len() == 0 || find(commands, is_command(id)) == commands.len()
}

/// The commands after one that may run is claimed.
pub open spec fn claimed(
    commands: Seq<CommandRecordView>,
    id: Seq<char>,
    character: Seq<char>,
    now: int,
) -> Seq<CommandRecordView> {
    if id.len() == 0 {
        commands
    } else {
        commands.push(CommandRecordView { command_id: id, character_id: character, created_at: now })
    }
}

pub open spec fn purse_gold() -> spec_fn(CharacterRecordView) -> int {
    |c: CharacterRecordView| c.gold
}

pub open spec fn order_escrow() -> spec_fn(OrderRecordView) -> int {
    |o: OrderRecordView|
        if o.order.side == "buy"@ {
            o.order.unit_price * o.order.qty_remaining
        } else {
            0
        }
}

pub open spec fn ledger_amount() -> spec_fn(LedgerRecordView) -> int {
    |l: LedgerRecordView| l.amount
}

pub open spec fn ledger_reason() -> spec_fn(LedgerRecordView) -> Seq<char> {
    |l: LedgerRecordView| l.reason
}

pub open spec fn fee_kind() -> spec_fn(FeeRecordView) -> Seq<char> {
    |f: FeeRecordView| f.kind
}

pub open spec fn is_fee_at(market: Seq<char>) -> spec_fn(FeeRecordView) -> bool {
    |f: FeeRecordView| f.market_id == market
}

/// Whether every running total by name can be counted.
pub open spec fn countable<A>(rows: Seq<A>, name: spec_fn(A) -> Seq<char>, qty: spec_fn(A) -> int) -> bool {
    forall|n: int, key: Seq<char>|
        0 <= n <= rows.len() ==> i64::MIN <= #[trigger] amount(tallied_by(rows.take(n), name, qty), key) <= i64::MAX
}

pub open spec fn fee_gold() -> spec_fn(FeeRecordView) -> int {
    |f: FeeRecordView| f.gold
}

/// All the gold in purses.
pub open spec fn purses(s: DbView) -> int {
    sum(s.characters, purse_gold())
}

/// All the gold that open buy orders hold in escrow.
pub open spec fn escrow(s: DbView) -> int {
    sum(s.orders, order_escrow())
}

/// All the gold there is: in purses, and escrowed.
pub open spec fn wealth(s: DbView) -> int {
    purses(s) + escrow(s)
}

/// Everything ever created minus everything ever destroyed.
pub open spec fn supply(s: DbView) -> int {
    sum(s.ledger, ledger_amount())
}

/// What the ledger says there is, minus what there is.
pub open spec fn supply_gap(s: DbView) -> int {
    supply(s) - wealth(s)
}

/// No purse is overdrawn.
pub open spec fn solvent(characters: Seq<CharacterRecordView>) -> bool {
    forall|i: int| 0 <= i < characters.len() ==> (#[trigger] characters[i]).gold >= 0
}

pub proof fn lemma_paid(characters: Seq<CharacterRecordView>, id: Seq<char>, amount: int)
    ensures
        paid(characters, id, amount).len() == characters.len(),
        has_character(characters, id) ==> sum(paid(characters, id, amount), purse_gold()) == sum(
            characters,
            purse_gold(),
        ) + amount,
        has_character(characters, id) ==> gold_of(paid(characters, id, amount), id) == gold_of(
            characters,
            id,
        ) + amount,
        solvent(characters) && gold_of(characters, id) + amount >= 0 ==> solvent(
            paid(characters, id, amount),
        ),
        forall|other: Seq<char>|
            #![trigger has_character(paid(characters, id, amount), other)]
            has_character(paid(characters, id, amount), other) == has_character(characters, other),
        forall|other: Seq<char>|
            #![trigger gold_of(paid(characters, id, amount), other)]
            other != id ==> gold_of(paid(characters, id, amount), other) == gold_of(characters, other),
{
    let k = find(characters, is_character(id));
    let after = paid(characters, id, amount);
    lemma_find(characters, is_character(id));
    if k < characters.len() {
        lemma_sum_update(
            characters,
            purse_gold(),
            k,
            CharacterRecordView { gold: characters[k].gold + amount, ..characters[k] },
        );
    }
    assert forall|other: Seq<char>| find(after, is_character(other)) == #[trigger] find(
        characters,
        is_character(other),
    ) by {
        lemma_find(characters, is_character(other));
        let j = find(characters, is_character(other));
        assert forall|i: int| 0 <= i < j implies !is_character(other)(#[trigger] after[i]) by {
            assert(!is_character(other)(characters[i]));
        }
        lemma_find_is(after, is_character(other), j);
    }
    assert forall|other: Seq<char>| other != id implies #[trigger] gold_of(after, other) == gold_of(
        characters,
        other,
    ) by {
        lemma_find(characters, is_character(other));
        assert(find(after, is_character(other)) == find(characters, is_character(other)));
    }
}

/// A purse holds no more than all purses together.
pub proof fn lemma_purse_bound(characters: Seq<CharacterRecordView>, id: Seq<char>)
    requires
        solvent(characters),
    ensures
        0 <= gold_of(characters, id) <= sum(characters, purse_gold()),
{
    lemma_find(characters, is_character(id));
    assert forall|i: int| 0 <= i < characters.len() implies purse_gold()(#[trigger] characters[i]) >= 0 by {}
    lemma_sum_nonneg(characters, purse_gold());
    let k = find(characters, is_character(id));
    if k < characters.len() {
        assert(purse_gold()(characters[k]) == characters[k].gold);
    }
}

pub proof fn lemma_ledgered(
    ledger: Seq<LedgerRecordView>,
    id: Seq<char>,
    amount: int,
    reason: Seq<char>,
    now: int,
)
    ensures
        sum(ledgered(ledger, id, amount, reason, now), ledger_amount()) == sum(
            ledger,
            ledger_amount(),
        ) + amount,
{
    lemma_sum_push(
        ledger,
        ledger_amount(),
        LedgerRecordView { character_id: id, amount, reason, created_at: now },
    );
}

/// Creating gold for an existing character leaves no gap between the ledger and the world.
pub proof fn law_minting_is_ledgered(s: DbView, id: Seq<char>, amount: int, reason: Seq<char>, now: int)
    requires
        has_character(s.characters, id),
    ensures
        supply_gap(minted(s, id, amount, reason, now)) == supply_gap(s),
        amount >= 0 ==> wealth(minted(s, id, amount, reason, now)) == wealth(s) + amount,
{
    lemma_paid(s.characters, id, amount);
    lemma_ledgered(s.ledger, id, amount, reason, now);
}

/// Burning a fee out of an existing purse takes it out of the world and out of the supply, and
/// the fee ledger records exactly that much.
pub proof fn law_burning_is_ledgered(
    s: DbView,
    market: Seq<char>,
    id: Seq<char>,
    kind: Seq<char>,
    gold: int,
    trade: Option<Seq<char>>,
    now: int,
)
    requires
        has_character(s.characters, id),
    ensures
        supply_gap(burned(s, market, id, kind, gold, trade, now)) == supply_gap(s),
        gold >= 0 ==> wealth(burned(s, market, id, kind, gold, trade, now)) == wealth(s) - gold,
        gold >= 0 ==> sum(burned(s, market, id, kind, gold, trade, now).fees, fee_gold()) == sum(
            s.fees,
            fee_gold(),
        ) + gold,
{
    lemma_paid(s.characters, id, -gold);
    lemma_ledgered(s.ledger, id, -gold, "market_fee"@, now);
    lemma_sum_push(
        s.fees,
        fee_gold(),
        FeeRecordView { market_id: market, character_id: id, kind, gold, trade_id: trade, created_at: now },
    );
}

/// Where a character stands in the table.
pub fn find_character(characters: &Table<CharacterRecord>, id: &str) -> (k: usize)
    ensures
        k == find(characters@, is_character(id@)),
        k <= characters@.len(),
        k < characters@.len() ==> characters@[k as int].character.id == id@,
{
    let f = |c: &CharacterRecord| -> (b: bool)
        ensures
            b == (c@.character.id == id@),
        { same(c.character.id.as_str(), id) };
    characters.find(f, Ghost(is_character(id@)))
}

/// Add `amount`, which may be negative, to a purse.
pub fn pay_in_tx(characters: &mut Table<CharacterRecord>, id: &str, amount: i64)
    requires
        amount > 0 ==> gold_of(old(characters)@, id@) + amount <= i64::MAX,
        amount < 0 ==> gold_of(old(characters)@, id@) + amount >= i64::MIN,
    ensures
        final(characters)@ == paid(old(characters)@, id@, amount as int),
{
    let k: usize = find_character(characters, id);
    if k < characters.len() {
        let c = characters.get_mut(k);
        c.gold = c.gold + amount;
    }
}

/// Move gold that already exists into a purse. Nothing is written on the ledger: this pays out
/// escrow or proceeds. An amount that is not positive changes nothing.
pub fn grant_gold_in_tx(characters: &mut Table<CharacterRecord>, id: &str, amount: i64)
    requires
        gold_of(old(characters)@, id@) + amount <= i64::MAX,
    ensures
        final(characters)@ == granted(old(characters)@, id@, amount as int),
{
    if amount <= 0 {
        return ;
    }
    pay_in_tx(characters, id, amount);
}

/// Record a change of the money supply: positive creates gold, negative destroys it.
pub fn ledger_gold_in_tx(
    ledger: &mut Table<LedgerRecord>,
    character_id: &str,
    amount: i64,
    reason: &str,
    now: i64,
)
    ensures
        final(ledger)@ == ledgered(old(ledger)@, character_id@, amount as int, reason@, now as int),
{
    if amount == 0 {
        return ;
    }
    ledger.push(
        LedgerRecord {
            character_id: character_id.to_string(),
            amount,
            reason: reason.to_string(),
            created_at: now,
        },
    );
}

impl Db {
    /// Create gold in a purse and record it on the ledger. Only genuine faucets come through here.
    pub fn mint_gold_in_tx(&mut self, character_id: &str, amount: i64, reason: &str, now: i64)
        requires
            gold_of(old(self)@.characters, character_id@) + amount <= i64::MAX,
        ensures
            final(self)@ == minted(old(self)@, character_id@, amount as int, reason@, now as int),
    {
        if amount <= 0 {
            return ;
        }
        grant_gold_in_tx(&mut self.characters, character_id, amount);
        ledger_gold_in_tx(&mut self.ledger, character_id, amount, reason, now);
    }

    /// Burn gold out of the economy as a market fee: it leaves the purse and goes nowhere, so the
    /// two ledgers are its only record.
    pub fn burn_fee_in_tx(
        &mut self,
        market_id: &str,
        character_id: &str,
        kind: &str,
        gold: i64,
        trade_id: Option<&str>,
        now: i64,
    )
        requires
            gold > 0 ==> gold_of(old(self)@.characters, character_id@) - gold >= i64::MIN,
        ensures
            final(self)@ == burned(
                old(self)@,
                market_id@,
                character_id@,
                kind@,
                gold as int,
                opt_str(trade_id),
                now as int,
            ),
    {
        if gold <= 0 {
            return ;
        }
        pay_in_tx(&mut self.characters, character_id, -gold);
        self.fees.push(
            FeeRecord {
                market_id: market_id.to_string(),
                character_id: character_id.to_string(),
                kind: kind.to_string(),
                gold,
                trade_id: own_opt(trade_id),
                created_at: now,
            },
        );
        ledger_gold_in_tx(&mut self.ledger, character_id, -gold, "market_fee", now);
    }

    /// Whether a command may run.
    pub fn is_fresh_command(&self, command_id: &str) -> (ok: bool)
        ensures
            ok == fresh_command(self@.commands, command_id@),
    {
        if command_id.is_empty() {
            return true;
        }
        let f = |c: &CommandRecord| -> (b: bool)
            ensures
                b == (c@.command_id == command_id@),
            { same(c.command_id.as_str(), command_id) };
        let k: usize = self.commands.find(f, Ghost(is_command(command_id@)));
        k == self.commands.len()
    }

    /// Claim a command, unless its id has been seen before. A command without an id always runs.
    pub fn claim_command_in_tx(&mut self, command_id: &str, character_id: &str, now: i64) -> (ok: bool)
        ensures
            ok == fresh_command(old(self)@.commands, command_id@),
            final(self)@ == (DbView {
                commands: if ok {
                    claimed(old(self)@.commands, command_id@, character_id@, now as int)
                } else {
                    old(self)@.commands
                },
                ..old(self)@
            }),
    {
        if !self.is_fresh_command(command_id) {
            return false;
        }
        if command_id.is_empty() {
            return true;
        }
        self.commands.push(
            CommandRecord {
                command_id: command_id.to_string(),
                character_id: character_id.to_string(),
                created_at: now,
            },
        );
        true
    }

    /// A character's gold; 0 when there is no such character.
    pub fn character_gold(&self, character_id: &str) -> (gold: i64)
        ensures
            gold == gold_of(self@.characters, character_id@),
    {
        let k: usize = find_character(&self.characters, character_id);
        if k < self.characters.len() {
            self.characters.get(k).gold
        } else {
            0
        }
    }

    /// All the gold that was burned as market fees, at every market.
    pub fn total_fees_burned(&self) -> (total: i64)
        requires
            i64::MIN <= sum(self@.fees, fee_gold()) <= i64::MAX,
        ensures
            total == sum(self@.fees, fee_gold()),
    {
        let f = |r: &FeeRecord| -> (n: i64)
            ensures
                n == fee_gold()(r@),
            { r.gold };
        self.fees.sum(f, Ghost(fee_gold()))
    }

    /// The money supply: all gold ever created minus all ever destroyed.
    pub fn gold_supply(&self) -> (total: i64)
        requires
            i64::MIN <= supply(self@) <= i64::MAX,
        ensures
            total == supply(self@),
    {
        let f = |r: &LedgerRecord| -> (n: i64)
            ensures
                n == ledger_amount()(r@),
            { r.amount };
        self.ledger.sum(f, Ghost(ledger_amount()))
    }

    /// What the ledger says there is, minus what is in purses and in escrow. It stays zero: a gap
    /// means that gold was made or lost without the ledger.
    pub fn gold_supply_gap(&self) -> (gap: i64)
        requires
            i64::MIN <= supply(self@) <= i64::MAX,
            i64::MIN <= purses(self@) <= i64::MAX,
            i64::MIN <= escrow(self@) <= i64::MAX,
            i64::MIN <= supply_gap(self@) <= i64::MAX,
            forall|i: int|
                0 <= i < self@.orders.len() ==> i64::MIN <= order_escrow()(#[trigger] self@.orders[i]) <= i64::MAX,
        ensures
            gap == supply_gap(self@),
    {
        let f = |r: &CharacterRecord| -> (n: i64)
            ensures
                n == purse_gold()(r@),
            { r.gold };
        let purses: i64 = self.characters.sum(f, Ghost(purse_gold()));
        let mut escrow: i128 = 0;
        let mut i: usize = 0;
        while i < self.orders.len()
            invariant
                i <= self@.orders.len(),
                -(i * 0x8000_0000_0000_0000) <= escrow <= i * 0x8000_0000_0000_0000,
                escrow == sum(self@.orders.take(i as int), order_escrow()),
                forall|i: int|
                    0 <= i < self@.orders.len() ==> i64::MIN <= order_escrow()(#[trigger] self@.orders[i]) <= i64::MAX,
            decreases self@.orders.len() - i,
        {
            proof {
                assert(self@.orders.take(i + 1).drop_last() =~= self@.orders.take(i as int));
                assert(i64::MIN <= order_escrow()(self@.orders[i as int]) <= i64::MAX);
            }
            let o = self.orders.get(i);
            if same(o.order.side.as_str(), "buy") {
                let worth: i64 = o.order.unit_price * o.order.qty_remaining;
                escrow = escrow + worth as i128;
            }
            i = i + 1;
        }
        assert(self@.orders.take(i as int) =~= self@.orders);
        let supply: i64 = self.gold_supply();
        (supply as i128 - purses as i128 - escrow) as i64
    }

    /// Gold created and destroyed, added up by reason, in the order of the reasons.
    pub fn gold_by_reason(&self) -> (out: Vec<(String, i64)>)
        requires
            countable(self@.ledger, ledger_reason(), ledger_amount()),
        ensures
            pairs_view(out@) == tallied_by(self@.ledger, ledger_reason(), ledger_amount()),
    {
        let mut out: Vec<(String, i64)> = Vec::new();
        let mut i: usize = 0;
        proof {
            assert(self@.ledger.take(0) =~= Seq::empty());
            assert(pairs_view(out@) =~= tallied_by(self@.ledger.take(0), ledger_reason(), ledger_amount()));
        }
        while i < self.ledger.len()
            invariant
                i <= self@.ledger.len(),
                countable(self@.ledger, ledger_reason(), ledger_amount()),
                in_name_order(pairs_view(out@)),
                pairs_view(out@) == tallied_by(self@.ledger.take(i as int), ledger_reason(), ledger_amount()),
            decreases self@.ledger.len() - i,
        {
            let r = self.ledger.get(i);
            proof {
                let next = self@.ledger.take(i + 1);
                assert(next.drop_last() =~= self@.ledger.take(i as int));
                assert(i64::MIN <= amount(tallied_by(next, ledger_reason(), ledger_amount()), r.reason@) <= i64::MAX);
                lemma_added(pairs_view(out@), r.reason@, r.amount as int);
            }
            add_named(&mut out, r.reason.as_str(), r.amount);
            i = i + 1;
        }
        assert(self@.ledger.take(i as int) =~= self@.ledger);
        out
    }

    /// Fees burned at one market, added up by kind, in the order of the kinds.
    pub fn fees_by_kind(&self, market_id: &str) -> (out: Vec<(String, i64)>)
        requires
            countable(self@.fees.filter(is_fee_at(market_id@)), fee_kind(), fee_gold()),
        ensures
            pairs_view(out@) == tallied_by(self@.fees.filter(is_fee_at(market_id@)), fee_kind(), fee_gold()),
    {
        let f = |r: &FeeRecord| -> (b: bool)
            ensures
                b == is_fee_at(market_id@)(r@),
            { same(r.market_id.as_str(), market_id) };
        let rows = self.fees.select(f, Ghost(is_fee_at(market_id@)));
        let ghost all = rows_view(rows@);
        let mut out: Vec<(String, i64)> = Vec::new();
        let mut i: usize = 0;
        proof {
            assert(all.take(0) =~= Seq::empty());
            assert(pairs_view(out@) =~= tallied_by(all.take(0), fee_kind(), fee_gold()));
        }
        while i < rows.len()
            invariant
                i <= rows.len(),
                all == rows_view(rows@),
                countable(all, fee_kind(), fee_gold()),
                in_name_order(pairs_view(out@)),
                pairs_view(out@) == tallied_by(all.take(i as int), fee_kind(), fee_gold()),
            decreases rows.len() - i,
        {
            let r = &rows[i];
            proof {
                let next = all.take(i + 1);
                assert(next.drop_last() =~= all.take(i as int));
                assert(next.last() == r@);
                assert(i64::MIN <= amount(tallied_by(next, fee_kind(), fee_gold()), r.kind@) <= i64::MAX);
                lemma_added(pairs_view(out@), r.kind@, r.gold as int);
            }
            add_named(&mut out, r.kind.as_str(), r.gold);
            i = i + 1;
        }
        assert(all.take(i as int) =~= all);
        out
    }
}

} // verus!
