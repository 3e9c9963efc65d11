//! What a market charges, how much it lets a trader hold, and the bounds it keeps prices in.

use vstd::prelude::*;

use vstd::arithmetic::div_mod::lemma_fundamental_div_mod;

verus! {

/// The standing bid and ask that the provisioner keeps for one commodity.
#[derive(Debug, Clone, PartialEq, Eq)]
pub struct ProvisionerBounds {
    /// The price it always buys at.
    pub floor: i64,
    /// The price it sells at, while it has stock.
    pub ceiling: i64,
    /// The size of its standing bid.
    pub bid_qty: i64,
    /// The stock it starts with, once per market.
    pub seed_stock: i64,
}

/// The tuning of a market.
#[derive(Debug, Clone, PartialEq, Eq)]
pub struct MarketConfig {
    /// How many orders one character may have resting at one market.
    pub max_open_orders: i64,
    /// How many slots a character's warehouse has.
    pub warehouse_slots: i64,
    /// The listing fee is `listing_fee_num / listing_fee_den` of the value, and at least
    /// `listing_fee_min_gold`.
    pub listing_fee_min_gold: i64,
    pub listing_fee_num: i64,
    pub listing_fee_den: i64,
    /// The sale tax is `sale_tax_num / sale_tax_den` of the value.
    pub sale_tax_num: i64,
    pub sale_tax_den: i64,
    /// What one occupied slot costs for one day; 0 turns storage fees off.
    pub storage_fee_per_slot_per_day: i64,
    /// Unpaid storage stops growing at this many days of one slot.
    pub storage_arrears_cap_days: i64,
    /// The length of a candle of price history.
    pub candle_interval_secs: i64,
    /// The commodities that the provisioner deals in.
    pub provisioner: Vec<(String, ProvisionerBounds)>,
}

/// What is paid for a bounty.
#[derive(Debug, Clone, PartialEq, Eq)]
pub struct BountyConfig {
    pub item_id: String,
    pub required: i64,
    pub gold: i64,
}

/// `value * num / den`, rounded up.
pub open spec fn share_up(value: int, num: int, den: int) -> int {
    (value * num + den - 1) / den
}

/// The fee for listing something of a value.
pub open spec fn listing_fee_of(cfg: MarketConfig, value: int) -> int {
    let share = share_up(value, cfg.listing_fee_num as int, cfg.listing_fee_den as int);
    if value <= 0 {
        0
    } else if share < cfg.listing_fee_min_gold {
        cfg.listing_fee_min_gold as int
    } else {
        share
    }
}

/// The tax on a sale of a value.
pub open spec fn sale_tax_of(cfg: MarketConfig, value: int) -> int {
    if value <= 0 {
        0
    } else {
        share_up(value, cfg.sale_tax_num as int, cfg.sale_tax_den as int)
    }
}

/// The fee shares are fractions, and the least fee is not negative.
pub open spec fn fair(cfg: MarketConfig) -> bool {
    &&& cfg.listing_fee_min_gold >= 0
    &&& 0 <= cfg.listing_fee_num <= cfg.listing_fee_den
    &&& cfg.listing_fee_den > 0
    &&& 0 <= cfg.sale_tax_num <= cfg.sale_tax_den
    &&& cfg.sale_tax_den > 0
}

/// A rounded-up fraction of a value lies between 0 and the value.
pub proof fn lemma_share_up(value: int, num: int, den: int)
    requires
        value >= 0,
        0 <= num <= den,
        den > 0,
    ensures
        0 <= share_up(value, num, den) <= value,
        share_up(value, num, den) * den >= value * num,
        (share_up(value, num, den) - 1) * den < value * num,
        value > 0 && num > 0 ==> share_up(value, num, den) >= 1,
{
    let q = share_up(value, num, den);
    let x = value * num + den - 1;
    lemma_fundamental_div_mod(x, den);
    assert(x == den * q + x % den);
    assert(0 <= x % den < den);
    assert(q * den >= value * num) by (nonlinear_arith)
        requires
            value * num + den - 1 == den * q + x % den,
            x % den < den,
    ;
    assert((q - 1) * den < value * num) by (nonlinear_arith)
        requires
            value * num + den - 1 == den * q + x % den,
            0 <= x % den,
            den > 0,
    ;
    assert(value * num <= value * den) by (nonlinear_arith)
        requires
            value >= 0,
            num <= den,
    ;
    assert(0 <= value * num) by (nonlinear_arith)
        requires
            value >= 0,
            num >= 0,
    ;
    assert(q <= value) by (nonlinear_arith)
        requires
            (q - 1) * den < value * num,
            value * num <= value * den,
            den > 0,
    ;
    assert(q >= 0) by (nonlinear_arith)
        requires
            q * den >= value * num,
            value * num >= 0,
            den > 0,
    ;
    if value > 0 && num > 0 {
        assert(value * num >= 1) by (nonlinear_arith)
            requires
                value > 0,
                num > 0,
        ;
        assert(q >= 1) by (nonlinear_arith)
            requires
                q * den >= value * num,
                value * num >= 1,
                den > 0,
        ;
    }
}

/// A fee is never negative; it is never zero on a positive amount unless it is turned off; and the
/// tax is never more than the sale brings.
pub proof fn law_fees_are_bounded(cfg: MarketConfig, value: int)
    requires
        fair(cfg),
    ensures
        0 <= listing_fee_of(cfg, value),
        value > 0 && (cfg.listing_fee_min_gold > 0 || cfg.listing_fee_num > 0) ==> listing_fee_of(cfg, value) > 0,
        0 <= sale_tax_of(cfg, value),
        value >= 0 ==> sale_tax_of(cfg, value) <= value,
        value > 0 && cfg.sale_tax_num > 0 ==> sale_tax_of(cfg, value) > 0,
        value >= 0 && listing_fee_of(cfg, value) > cfg.listing_fee_min_gold ==> listing_fee_of(cfg, value) <= value,
{
    if value > 0 {
        lemma_share_up(value, cfg.listing_fee_num as int, cfg.listing_fee_den as int);
        lemma_share_up(value, cfg.sale_tax_num as int, cfg.sale_tax_den as int);
    }
}

/// Fees are rounded up: the tax is the least whole number of coins that covers its share of the sale, and the listing fee
/// the least that covers its share of the value and the least fee. Nothing is charged on nothing.
pub proof fn law_fees_are_rounded_up(cfg: MarketConfig, value: int)
    requires
        fair(cfg),
    ensures
        value <= 0 ==> listing_fee_of(cfg, value) == 0 && sale_tax_of(cfg, value) == 0,
        value > 0 ==> {
            &&& sale_tax_of(cfg, value) * cfg.sale_tax_den >= value * cfg.sale_tax_num
            &&& (sale_tax_of(cfg, value) - 1) * cfg.sale_tax_den < value * cfg.sale_tax_num
            &&& listing_fee_of(cfg, value) * cfg.listing_fee_den >= value * cfg.listing_fee_num
            &&& listing_fee_of(cfg, value) >= cfg.listing_fee_min_gold
            &&& listing_fee_of(cfg, value) > cfg.listing_fee_min_gold ==> (listing_fee_of(cfg, value) - 1)
                * cfg.listing_fee_den < value * cfg.listing_fee_num
        },
{
    if value > 0 {
        let num = cfg.listing_fee_num as int;
        let den = cfg.listing_fee_den as int;
        lemma_share_up(value, num, den);
        lemma_share_up(value, cfg.sale_tax_num as int, cfg.sale_tax_den as int);
        let share = share_up(value, num, den);
        let fee = listing_fee_of(cfg, value);
        assert(fee * den >= value * num) by (nonlinear_arith)
            requires
                share * den >= value * num,
                fee >= share,
                den > 0,
        ;
    }
}

/// A larger value never costs a smaller fee.
pub proof fn lemma_listing_fee_grows(cfg: MarketConfig, a: int, b: int)
    requires
        fair(cfg),
        0 <= a <= b,
    ensures
        listing_fee_of(cfg, a) <= listing_fee_of(cfg, b),
{
    law_fees_are_bounded(cfg, b);
    if a > 0 {
        let num = cfg.listing_fee_num as int;
        let den = cfg.listing_fee_den as int;
        lemma_share_up(a, num, den);
        lemma_share_up(b, num, den);
        let p = share_up(a, num, den);
        let q = share_up(b, num, den);
        assert(p <= q) by (nonlinear_arith)
            requires
                (p - 1) * den < a * num,
                q * den >= b * num,
                a <= b,
                num >= 0,
                den > 0,
        ;
    }
}

/// Splitting one order into two never makes the fees smaller.
pub proof fn law_splitting_never_dodges_a_fee(cfg: MarketConfig, a: int, b: int)
    requires
        fair(cfg),
        a >= 0,
        b >= 0,
    ensures
        listing_fee_of(cfg, a + b) <= listing_fee_of(cfg, a) + listing_fee_of(cfg, b),
        sale_tax_of(cfg, a + b) <= sale_tax_of(cfg, a) + sale_tax_of(cfg, b),
{
    lemma_share_subadditive(a, b, cfg.listing_fee_num as int, cfg.listing_fee_den as int);
    lemma_share_subadditive(a, b, cfg.sale_tax_num as int, cfg.sale_tax_den as int);
    law_fees_are_bounded(cfg, a);
    law_fees_are_bounded(cfg, b);
}

proof fn lemma_share_subadditive(a: int, b: int, num: int, den: int)
    requires
        a >= 0,
        b >= 0,
        0 <= num <= den,
        den > 0,
    ensures
        share_up(a + b, num, den) <= share_up(a, num, den) + share_up(b, num, den),
{
    lemma_share_up(a, num, den);
    lemma_share_up(b, num, den);
    lemma_share_up(a + b, num, den);
    let p = share_up(a, num, den);
    let q = share_up(b, num, den);
    let r = share_up(a + b, num, den);
    assert((a + b) * num == a * num + b * num) by (nonlinear_arith);
    assert(r <= p + q) by (nonlinear_arith)
        requires
            (r - 1) * den < a * num + b * num,
            p * den >= a * num,
            q * den >= b * num,
            den > 0,
    ;
}

/// `value * num / den`, rounded up.
fn share(value: i64, num: i64, den: i64) -> (r: i64)
    requires
        value >= 0,
        0 <= num <= den,
        den > 0,
    ensures
        r == share_up(value as int, num as int, den as int),
{
    proof {
        lemma_share_up(value as int, num as int, den as int);
        assert(0 <= value * num <= 0x7fff_ffff_ffff_ffff * 0x7fff_ffff_ffff_ffff) by (nonlinear_arith)
            requires
                0 <= value <= 0x7fff_ffff_ffff_ffff,
                0 <= num <= 0x7fff_ffff_ffff_ffff,
        ;
    }
    let x: i128 = value as i128 * num as i128 + (den as i128 - 1);
    (x / den as i128) as i64
}

impl MarketConfig {
    /// The fee for posting something of this value: rounded up, at least the minimum, and nothing
    /// on a value that is not positive.
    pub fn listing_fee(&self, value: i64) -> (fee: i64)
        requires
            fair(*self),
        ensures
            fee == listing_fee_of(*self, value as int),
    {
        if value <= 0 {
            return 0;
        }
        let share: i64 = share(value, self.listing_fee_num, self.listing_fee_den);
        if share < self.listing_fee_min_gold {
            self.listing_fee_min_gold
        } else {
            share
        }
    }

    /// The tax on a sale of this value, rounded up.
    pub fn sale_tax(&self, value: i64) -> (tax: i64)
        requires
            fair(*self),
        ensures
            tax == sale_tax_of(*self, value as int),
    {
        if value <= 0 {
            return 0;
        }
        share(value, self.sale_tax_num, self.sale_tax_den)
    }

    /// Whether the fee shares are fractions and the least fee is not negative.
    pub fn is_fair(&self) -> (ok: bool)
        ensures
            ok == fair(*self),
    {
        self.listing_fee_min_gold >= 0 && 0 <= self.listing_fee_num && self.listing_fee_num
            <= self.listing_fee_den && self.listing_fee_den > 0 && 0 <= self.sale_tax_num && self.sale_tax_num
            <= self.sale_tax_den && self.sale_tax_den > 0
    }
}

impl Default for MarketConfig {
    fn default() -> (cfg: MarketConfig)
        ensures
            fair(cfg),
            cfg.max_open_orders == 40,
            cfg.warehouse_slots == 60,
            cfg.listing_fee_min_gold == 1,
            cfg.listing_fee_num == 1,
            cfg.listing_fee_den == 100,
            cfg.sale_tax_num == 2,
            cfg.sale_tax_den == 100,
            cfg.storage_fee_per_slot_per_day == 0,
            cfg.storage_arrears_cap_days == 7,
            cfg.candle_interval_secs == 3600,
            cfg.provisioner@.len() == 0,
    {
        MarketConfig {
            max_open_orders: 40,
            warehouse_slots: 60,
            listing_fee_min_gold: 1,
            listing_fee_num: 1,
            listing_fee_den: 100,
            sale_tax_num: 2,
            sale_tax_den: 100,
            storage_fee_per_slot_per_day: 0,
            storage_arrears_cap_days: 7,
            candle_interval_secs: 3600,
            provisioner: Vec::new(),
        }
    }
}

impl Default for BountyConfig {
    fn default() -> (cfg: BountyConfig)
        ensures
            cfg.item_id@ == "dog_pelt"@,
            cfg.required == 10,
            cfg.gold == 100,
    {
        BountyConfig { item_id: "dog_pelt".to_string(), required: 10, gold: 100 }
    }
}

} // verus!
