//! Rules of trade that depend on no market's tuning.

use vstd::prelude::*;

use vstd::arithmetic::div_mod::lemma_fundamental_div_mod;

verus! {

/// The opening second of the interval that a moment falls in; the moment itself when there is no
/// interval.
pub open spec fn bucket_of(at: int, interval: int) -> int {
    if interval <= 0 {
        at
    } else {
        (at / interval) * interval
    }
}

/// A moment falls in exactly one interval: at or after its opening second, and before the next.
pub proof fn law_bucket_floors(at: int, interval: int)
    requires
        interval > 0,
    ensures
        bucket_of(at, interval) <= at < bucket_of(at, interval) + interval,
        bucket_of(bucket_of(at, interval), interval) == bucket_of(at, interval),
        forall|b: int|
            #[trigger] bucket_of(b, interval) == b && b <= at < b + interval ==> b == bucket_of(at, interval),
{
    lemma_fundamental_div_mod(at, interval);
    assert((at / interval) * interval == interval * (at / interval)) by (nonlinear_arith);
    let q = at / interval;
    assert((q * interval) / interval == q) by (nonlinear_arith)
        requires
            interval > 0,
    ;
    assert forall|b: int| #[trigger] bucket_of(b, interval) == b && b <= at < b + interval implies b == bucket_of(
        at,
        interval,
    ) by {
        let r = b / interval;
        assert(r == q) by (nonlinear_arith)
            requires
                r * interval == b,
                b <= at < b + interval,
                q * interval <= at < q * interval + interval,
                interval > 0,
        ;
    }
}

/// Later moments fall in the same interval or in a later one.
pub proof fn lemma_bucket_monotone(a: int, b: int, interval: int)
    requires
        interval > 0,
        a <= b,
    ensures
        bucket_of(a, interval) <= bucket_of(b, interval),
{
    let p = a / interval;
    let q = b / interval;
    assert(p <= q) by (nonlinear_arith)
        requires
            p == a / interval,
            q == b / interval,
            a <= b,
            interval > 0,
    ;
    assert(p * interval <= q * interval) by (nonlinear_arith)
        requires
            p <= q,
            interval > 0,
    ;
}

/// The interval a moment belongs to, by its opening second. Flooring puts a moment on a boundary into
/// the interval that it opens.
pub fn candle_bucket(at: i64, interval_secs: i64) -> (start: i64)
    requires
        bucket_of(at as int, interval_secs as int) >= i64::MIN,
    ensures
        start == bucket_of(at as int, interval_secs as int),
{
    if interval_secs <= 0 {
        return at;
    }
    proof {
        law_bucket_floors(at as int, interval_secs as int);
        assert(i64::MIN <= at as int / interval_secs as int <= i64::MAX) by (nonlinear_arith)
            requires
                i64::MIN <= at <= i64::MAX,
                interval_secs > 0,
        ;
    }
    let q: i64 = at.checked_div_euclid(interval_secs).unwrap();
    q * interval_secs
}

/// Why an order was refused.
#[derive(Debug, Clone, Copy, PartialEq, Eq)]
pub enum OrderReject {
    NotACommodity,
    BadPrice,
    BadQty,
    TooManyOrders,
    RateLimited,
    CannotAffordFee,
}

impl OrderReject {
    pub open spec fn spec_code(self) -> Seq<char> {
        match self {
            OrderReject::NotACommodity => "not_a_commodity"@,
            OrderReject::BadPrice => "bad_price"@,
            OrderReject::BadQty => "bad_qty"@,
            OrderReject::TooManyOrders => "too_many_orders"@,
            OrderReject::RateLimited => "rate_limited"@,
            OrderReject::CannotAffordFee => "cannot_afford_fee"@,
        }
    }

    pub open spec fn spec_detail(self) -> Seq<char> {
        match self {
            OrderReject::NotACommodity => "that item is sold on the listing board, not the book"@,
            OrderReject::BadPrice => "price must be a positive whole number of gold"@,
            OrderReject::BadQty => "order size is out of bounds"@,
            OrderReject::TooManyOrders => "you have too many orders resting at this market"@,
            OrderReject::RateLimited => "slow down — too many market commands"@,
            OrderReject::CannotAffordFee => "not enough gold to cover the listing fee"@,
        }
    }

    /// A stable code.
    pub fn code(self) -> (text: &'static str)
        ensures
            text@ == self.spec_code(),
    {
        match self {
            OrderReject::NotACommodity => "not_a_commodity",
            OrderReject::BadPrice => "bad_price",
            OrderReject::BadQty => "bad_qty",
            OrderReject::TooManyOrders => "too_many_orders",
            OrderReject::RateLimited => "rate_limited",
            OrderReject::CannotAffordFee => "cannot_afford_fee",
        }
    }

    /// What to tell the player.
    pub fn detail(self) -> (text: &'static str)
        ensures
            text@ == self.spec_detail(),
    {
        match self {
            OrderReject::NotACommodity => "that item is sold on the listing board, not the book",
            OrderReject::BadPrice => "price must be a positive whole number of gold",
            OrderReject::BadQty => "order size is out of bounds",
            OrderReject::TooManyOrders => "you have too many orders resting at this market",
            OrderReject::RateLimited => "slow down — too many market commands",
            OrderReject::CannotAffordFee => "not enough gold to cover the listing fee",
        }
    }
}

} // verus!
