//! What a candle says of the trades that it was made of.

use vstd::prelude::*;

use crate::persistence::candles::{
    candle_at, candle_of, candle_views, first_trade, in_span, is_before, is_candle, is_history_of, is_in,
    is_stale, key_of, last_trade, lemma_ordered_filter, lemma_rolled, opens_before, rolled, rolled_up,
    trade_qty, traded_before, trades_in, CandleKey,
};
use crate::persistence::db::DbView;
use crate::persistence::home_laws::lemma_shown;
use crate::persistence::rows::{CandleRecordView, MarketTradeView};
use crate::table::{
    find, in_order, law_ordered, law_page, lemma_filter_contains, lemma_find, lemma_find_is,
    lemma_sum_filter, lemma_sum_same, limited, not, ordered, orders_rows, put_in, qty_if, sum,
};
use crate::world::trading::{bucket_of, law_bucket_floors};

verus! {

/// Whether a trade was made in the interval that a candle opens, and in a span of time, of the candle's item at its market.
pub open spec fn made_in(r: CandleRecordView, t: MarketTradeView, interval: int, from: int, to: int) -> bool {
    &&& t.market_id == r.market_id
    &&& t.item_id == r.item_id
    &&& from <= t.created_at < to
    &&& r.candle.bucket_start <= t.created_at < r.candle.bucket_start + interval
}

proof fn lemma_put_in_ends(s: Seq<MarketTradeView>, a: MarketTradeView)
    requires
        in_order(s, traded_before()),
    ensures
        ({
            let t = put_in(s, a, traded_before());
            &&& t.len() == s.len() + 1
            &&& t[0] == if s.len() == 0 || a.created_at < s[0].created_at {
                a
            } else {
                s[0]
            }
            &&& t[s.len() as int] == if s.len() == 0 || a.created_at >= s.last().created_at {
                a
            } else {
                s.last()
            }
        }),
    decreases s.len(),
{
    if s.len() == 0 || !traded_before()(a, s.last()) {
        if s.len() > 1 {
            assert(!traded_before()(s[s.len() - 1], s[0]));
        }
    } else {
        let u = s.drop_last();
        assert forall|i: int, j: int| 0 <= i < j < u.len() implies !traded_before()(#[trigger] u[j], #[trigger] u[i]) by {
            assert(u[i] == s[i] && u[j] == s[j]);
        }
        lemma_put_in_ends(u, a);
    }
}

proof fn lemma_put_in_sum(s: Seq<MarketTradeView>, a: MarketTradeView, f: spec_fn(MarketTradeView) -> int)
    ensures
        sum(put_in(s, a, traded_before()), f) == sum(s, f) + f(a),
    decreases s.len(),
{
    let t = put_in(s, a, traded_before());
    if s.len() == 0 || !traded_before()(a, s.last()) {
        assert(t.drop_last() =~= s);
    } else {
        lemma_put_in_sum(s.drop_last(), a, f);
        assert(t.drop_last() =~= put_in(s.drop_last(), a, traded_before()));
    }
}

proof fn lemma_ordered_sum(s: Seq<MarketTradeView>, f: spec_fn(MarketTradeView) -> int)
    ensures
        sum(ordered(s, traded_before()), f) == sum(s, f),
    decreases s.len(),
{
    if s.len() > 0 {
        lemma_ordered_sum(s.drop_last(), f);
        lemma_put_in_sum(ordered(s.drop_last(), traded_before()), s.last(), f);
    }
}

/// The first and the last of the trades that satisfy a predicate, in the order of time and then of the ledger.
proof fn lemma_ends(s: Seq<MarketTradeView>, p: spec_fn(MarketTradeView) -> bool)
    ensures
        ({
            let sub = ordered(s.filter(p), traded_before());
            sub.len() > 0 ==> {
                &&& exists|a: int| 0 <= a < s.len() && is_first(s, p, a) && sub[0] == #[trigger] s[a]
                &&& exists|b: int| 0 <= b < s.len() && is_last(s, p, b) && sub.last() == #[trigger] s[b]
            }
        }),
        ordered(s.filter(p), traded_before()).len() == 0 ==> forall|i: int| 0 <= i < s.len() ==> !p(#[trigger] s[i]),
    decreases s.len(),
{
    reveal(Seq::filter);
    if s.len() > 0 {
        let head = s.drop_last();
        let n = s.len() - 1;
        lemma_ends(head, p);
        let was = ordered(head.filter(p), traded_before());
        let sub = ordered(s.filter(p), traded_before());
        law_ordered(head.filter(p), traded_before());
        assert forall|i: int| 0 <= i < n implies head[i] == #[trigger] s[i] by {}
        if p(s[n]) {
            assert(s.filter(p).drop_last() =~= head.filter(p));
            assert(s.filter(p).last() == s[n]);
            assert(sub == put_in(was, s[n], traded_before()));
            lemma_put_in_ends(was, s[n]);
        } else {
            assert(s.filter(p) == head.filter(p));
        }
        if sub.len() > 0 {
            if was.len() == 0 {
                assert(is_first(s, p, n) && is_last(s, p, n));
            } else {
                let a = choose|a: int| 0 <= a < head.len() && is_first(head, p, a) && was[0] == #[trigger] head[a];
                let b = choose|b: int| 0 <= b < head.len() && is_last(head, p, b) && was.last() == #[trigger] head[b];
                if p(s[n]) && s[n].created_at < was[0].created_at {
                    assert forall|j: int| 0 <= j < s.len() && p(#[trigger] s[j]) implies s[n].created_at < s[j].created_at
                        || (s[n].created_at == s[j].created_at && n <= j) by {
                        if j < n {
                            assert(head[j] == s[j]);
                        }
                    }
                    assert(is_first(s, p, n));
                    assert(sub[0] == s[n]);
                } else {
                    assert forall|j: int| 0 <= j < s.len() && p(#[trigger] s[j]) implies s[a].created_at < s[j].created_at
                        || (s[a].created_at == s[j].created_at && a <= j) by {
                        if j < n {
                            assert(head[j] == s[j]);
                        }
                    }
                    assert(is_first(s, p, a));
                    assert(sub[0] == s[a]);
                }
                if p(s[n]) && s[n].created_at >= was.last().created_at {
                    assert forall|j: int| 0 <= j < s.len() && p(#[trigger] s[j]) implies s[j].created_at < s[n].created_at
                        || (s[j].created_at == s[n].created_at && j <= n) by {
                        if j < n {
                            assert(head[j] == s[j]);
                        }
                    }
                    assert(is_last(s, p, n));
                    assert(sub.last() == s[n]);
                } else {
                    assert forall|j: int| 0 <= j < s.len() && p(#[trigger] s[j]) implies s[j].created_at < s[b].created_at
                        || (s[j].created_at == s[b].created_at && j <= b) by {
                        if j < n {
                            assert(head[j] == s[j]);
                        }
                    }
                    assert(is_last(s, p, b));
                    assert(sub.last() == s[b]);
                }
            }
        }
    }
}

/// Whether a row of the ledger comes first of those that satisfy a predicate, by time and then by its place.
pub open spec fn is_first(s: Seq<MarketTradeView>, p: spec_fn(MarketTradeView) -> bool, a: int) -> bool {
    &&& p(s[a])
    &&& forall|j: int|
        0 <= j < s.len() && p(#[trigger] s[j]) ==> s[a].created_at < s[j].created_at || (s[a].created_at
            == s[j].created_at && a <= j)
}

/// Whether a row of the ledger comes last of those that satisfy a predicate, by time and then by its place.
pub open spec fn is_last(s: Seq<MarketTradeView>, p: spec_fn(MarketTradeView) -> bool, b: int) -> bool {
    &&& p(s[b])
    &&& forall|j: int|
        0 <= j < s.len() && p(#[trigger] s[j]) ==> s[j].created_at < s[b].created_at || (s[j].created_at
            == s[b].created_at && j <= b)
}

/// What a candle of a run of trades says.
proof fn lemma_candle_stats(run: Seq<MarketTradeView>, interval: int)
    ensures
        candle_of(run, interval) is Some == (run.len() > 0),
        candle_of(run, interval) matches Some(c) ==> {
            &&& c.open == run[0].unit_price
            &&& c.close == run.last().unit_price
            &&& c.volume == sum(run, trade_qty())
            &&& c.trades == run.len()
            &&& c.bucket_start == bucket_of(run[0].created_at, interval)
            &&& forall|i: int| 0 <= i < run.len() ==> c.low <= (#[trigger] run[i]).unit_price <= c.high
            &&& exists|i: int| 0 <= i < run.len() && (#[trigger] run[i]).unit_price == c.low
            &&& exists|i: int| 0 <= i < run.len() && (#[trigger] run[i]).unit_price == c.high
        },
    decreases run.len(),
{
    if run.len() > 0 {
        let head = run.drop_last();
        let n = run.len() - 1;
        lemma_candle_stats(head, interval);
        let c = candle_of(run, interval)->0;
        assert forall|i: int| 0 <= i < n implies head[i] == #[trigger] run[i] by {}
        if n > 0 {
            let was = candle_of(head, interval)->0;
            assert(head[0] == run[0]);
            assert(was.volume == sum(head, trade_qty()));
            let l = choose|i: int| 0 <= i < head.len() && (#[trigger] head[i]).unit_price == was.low;
            let h = choose|i: int| 0 <= i < head.len() && (#[trigger] head[i]).unit_price == was.high;
            assert(run[l].unit_price == was.low && run[h].unit_price == was.high);
            assert forall|i: int| 0 <= i < run.len() implies c.low <= (#[trigger] run[i]).unit_price <= c.high by {
                if i < n {
                    assert(was.low <= head[i].unit_price <= was.high);
                }
            }
            if run[n].unit_price < was.low {
                assert(run[n].unit_price == c.low);
            } else {
                assert(run[l].unit_price == c.low);
            }
            if run[n].unit_price > was.high {
                assert(run[n].unit_price == c.high);
            } else {
                assert(run[h].unit_price == c.high);
            }
        } else {
            assert(run[0].unit_price == c.low && run[0].unit_price == c.high);
            assert(sum(head, trade_qty()) == 0);
            assert(run[0] == run.last());
        }
    }
}

/// No two candles of a roll-up are of the same item, market and interval.
proof fn lemma_rolled_once(trades: Seq<MarketTradeView>, interval: int)
    ensures
        forall|i: int, j: int|
            0 <= i < j < rolled(trades, interval).len() ==> record_key(#[trigger] rolled(trades, interval)[i]) != record_key(
                #[trigger] rolled(trades, interval)[j],
            ),
    decreases trades.len(),
{
    if trades.len() > 0 {
        let before = rolled(trades.drop_last(), interval);
        let rows = rolled(trades, interval);
        let t = trades.last();
        let own = is_candle(key_of(t, interval), interval);
        lemma_rolled_once(trades.drop_last(), interval);
        lemma_rolled(trades.drop_last(), interval, key_of(t, interval));
        lemma_find(before, own);
        let k = find(before, own);
        assert forall|i: int| 0 <= i < before.len() implies record_key(#[trigger] rows[i]) == record_key(before[i]) by {}
        assert forall|i: int, j: int| 0 <= i < j < rows.len() implies record_key(#[trigger] rows[i]) != record_key(
            #[trigger] rows[j],
        ) by {
            if j < before.len() {
                assert(record_key(before[i]) != record_key(before[j]));
            } else {
                assert(!own(before[i]));
                assert(before[i].interval_secs == interval);
                assert(record_key(rows[j]) == key_of(t, interval));
            }
        }
    }
}

/// What a cached candle is of.
pub open spec fn record_key(r: CandleRecordView) -> CandleKey {
    CandleKey { market: r.market_id, item: r.item_id, bucket: r.candle.bucket_start }
}

/// Every trade is in a candle of its item, market and interval.
proof fn lemma_rolled_covers(trades: Seq<MarketTradeView>, interval: int, k: int)
    requires
        0 <= k < trades.len(),
    ensures
        exists|i: int|
            0 <= i < rolled(trades, interval).len() && record_key(#[trigger] rolled(trades, interval)[i]) == key_of(
                trades[k],
                interval,
            ),
    decreases trades.len(),
{
    let before = rolled(trades.drop_last(), interval);
    let rows = rolled(trades, interval);
    let t = trades.last();
    let own = is_candle(key_of(t, interval), interval);
    let at = find(before, own);
    lemma_find(before, own);
    if k == trades.len() - 1 {
        if at < before.len() {
            assert(record_key(rows[at]) == key_of(t, interval));
        } else {
            assert(record_key(rows[before.len() as int]) == key_of(t, interval));
        }
    } else {
        lemma_rolled_covers(trades.drop_last(), interval, k);
        let i = choose|i: int|
            0 <= i < before.len() && record_key(#[trigger] before[i]) == key_of(trades.drop_last()[k], interval);
        assert(record_key(rows[i]) == record_key(before[i]));
    }
}

/// What a roll-up writes: each candle that it adds opens an interval, and says of exactly the trades of its item at its
/// market, in that interval and in the range, the least and the greatest price, the price of the first and of the last in
/// the order of time and then of the ledger, how much was traded in all and how often.
pub proof fn law_a_candle_sums_up_its_trades(s: DbView, interval: int, from: int, to: int, k: int)
    requires
        interval > 0,
        s.candle_rows.filter(not(is_stale(interval, from, to))).len() <= k < rolled_up(s, interval, from, to).len(),
    ensures
        ({
            let r = rolled_up(s, interval, from, to)[k];
            let c = r.candle;
            let mine = |t: MarketTradeView| made_in(r, t, interval, from, to);
            &&& r.interval_secs == interval
            &&& c.bucket_start % interval == 0
            &&& forall|i: int|
                0 <= i < s.trades.len() && mine(#[trigger] s.trades[i]) ==> c.low <= s.trades[i].unit_price <= c.high
            &&& exists|i: int| 0 <= i < s.trades.len() && mine(#[trigger] s.trades[i]) && s.trades[i].unit_price == c.low
            &&& exists|i: int| 0 <= i < s.trades.len() && mine(#[trigger] s.trades[i]) && s.trades[i].unit_price == c.high
            &&& exists|a: int|
                0 <= a < s.trades.len() && is_first(s.trades, mine, a) && (#[trigger] s.trades[a]).unit_price == c.open
            &&& exists|b: int|
                0 <= b < s.trades.len() && is_last(s.trades, mine, b) && (#[trigger] s.trades[b]).unit_price == c.close
            &&& c.volume == sum(
                s.trades,
                |t: MarketTradeView|
                    if made_in(r, t, interval, from, to) {
                        t.qty
                    } else {
                        0
                    },
            )
            &&& c.trades == sum(
                s.trades,
                |t: MarketTradeView|
                    if made_in(r, t, interval, from, to) {
                        1int
                    } else {
                        0int
                    },
            )
        }),
{
    let kept = s.candle_rows.filter(not(is_stale(interval, from, to)));
    let sel = trades_in(s.trades, from, to);
    let fresh = rolled(sel, interval);
    let r = rolled_up(s, interval, from, to)[k];
    let at = k - kept.len();
    assert(r == fresh[at]);
    let c = r.candle;
    let key = record_key(r);
    let mine = |t: MarketTradeView| made_in(r, t, interval, from, to);
    lemma_rolled(sel, interval, key);
    lemma_rolled_once(sel, interval);
    assert(fresh[at].interval_secs == interval);
    let q = is_candle(key, interval);
    assert forall|i: int| 0 <= i < at implies !q(#[trigger] fresh[i]) by {
        assert(record_key(fresh[i]) != record_key(fresh[at]));
    }
    lemma_find_is(fresh, q, at);
    assert(candle_at(fresh, key, interval) == Some(c));
    let span = in_span(from, to);
    let p = is_in(key, interval);
    assert(orders_rows(traded_before()));
    lemma_ordered_filter(s.trades.filter(span), traded_before(), p);
    lemma_filter_both(s.trades, span, p);
    let both = |t: MarketTradeView| span(t) && p(t);
    let run = ordered(s.trades.filter(both), traded_before());
    assert(candle_of(run, interval) == Some(c));
    lemma_candle_stats(run, interval);
    law_ordered(s.trades.filter(both), traded_before());
    lemma_ends(s.trades, both);
    let a0 = choose|a: int| 0 <= a < s.trades.len() && is_first(s.trades, both, a) && run[0] == #[trigger] s.trades[a];
    law_bucket_floors(s.trades[a0].created_at, interval);
    assert(bucket_of(c.bucket_start, interval) == c.bucket_start);
    assert(c.bucket_start % interval == 0) by (nonlinear_arith)
        requires
            (c.bucket_start / interval) * interval == c.bucket_start,
            interval > 0,
    ;
    assert forall|t: MarketTradeView| #[trigger] both(t) == mine(t) by {
        law_bucket_floors(t.created_at, interval);
    }
    assert forall|i: int| 0 <= i < s.trades.len() implies both(#[trigger] s.trades[i]) == mine(s.trades[i]) by {}
    assert forall|i: int| 0 <= i < s.trades.len() && mine(#[trigger] s.trades[i]) implies c.low <= s.trades[i].unit_price
        <= c.high by {
        lemma_in_run(s.trades, both, i);
        let j = choose|j: int| 0 <= j < run.len() && run[j] == s.trades[i];
        assert(c.low <= run[j].unit_price <= c.high);
    }
    let l = choose|i: int| 0 <= i < run.len() && (#[trigger] run[i]).unit_price == c.low;
    let h = choose|i: int| 0 <= i < run.len() && (#[trigger] run[i]).unit_price == c.high;
    lemma_from_run(s.trades, both, l);
    lemma_from_run(s.trades, both, h);
    let li = choose|i: int| 0 <= i < s.trades.len() && both(s.trades[i]) && #[trigger] s.trades[i] == run[l];
    let hi = choose|i: int| 0 <= i < s.trades.len() && both(s.trades[i]) && #[trigger] s.trades[i] == run[h];
    assert(mine(s.trades[li]) && mine(s.trades[hi]));
    let b0 = choose|b: int| 0 <= b < s.trades.len() && is_last(s.trades, both, b) && run.last() == #[trigger] s.trades[b];
    assert(is_first(s.trades, mine, a0)) by {
        assert forall|j: int| 0 <= j < s.trades.len() && mine(#[trigger] s.trades[j]) implies s.trades[a0].created_at
            < s.trades[j].created_at || (s.trades[a0].created_at == s.trades[j].created_at && a0 <= j) by {
            assert(both(s.trades[j]));
        }
    }
    assert(is_last(s.trades, mine, b0)) by {
        assert forall|j: int| 0 <= j < s.trades.len() && mine(#[trigger] s.trades[j]) implies s.trades[j].created_at
            < s.trades[b0].created_at || (s.trades[j].created_at == s.trades[b0].created_at && j <= b0) by {
            assert(both(s.trades[j]));
        }
    }
    let vol = |t: MarketTradeView|
        if made_in(r, t, interval, from, to) {
            t.qty
        } else {
            0
        };
    let num = |t: MarketTradeView|
        if made_in(r, t, interval, from, to) {
            1int
        } else {
            0int
        };
    let one = |t: MarketTradeView| 1int;
    lemma_ordered_sum(s.trades.filter(both), trade_qty());
    lemma_ordered_sum(s.trades.filter(both), one);
    lemma_sum_filter(s.trades, both, trade_qty());
    lemma_sum_filter(s.trades, both, one);
    lemma_ones(run, one);
    lemma_sum_same(s.trades, qty_if(both, trade_qty()), vol);
    lemma_sum_same(s.trades, qty_if(both, one), num);
}

proof fn lemma_ones(run: Seq<MarketTradeView>, one: spec_fn(MarketTradeView) -> int)
    requires
        forall|t: MarketTradeView| #[trigger] one(t) == 1,
    ensures
        sum(run, one) == run.len(),
    decreases run.len(),
{
    if run.len() > 0 {
        lemma_ones(run.drop_last(), one);
    }
}

proof fn lemma_filter_both(s: Seq<MarketTradeView>, p: spec_fn(MarketTradeView) -> bool, q: spec_fn(MarketTradeView) -> bool)
    ensures
        s.filter(p).filter(q) == s.filter(|t: MarketTradeView| p(t) && q(t)),
    decreases s.len(),
{
    reveal(Seq::filter);
    let r = |t: MarketTradeView| p(t) && q(t);
    if s.len() > 0 {
        let head = s.drop_last();
        lemma_filter_both(head, p, q);
        if p(s.last()) {
            assert(s.filter(p) == head.filter(p).push(s.last()));
            head.filter(p).lemma_filter_push(s.last(), q);
        }
        assert(s.filter(r) == if r(s.last()) {
            head.filter(r).push(s.last())
        } else {
            head.filter(r)
        });
    }
}

proof fn lemma_in_run(s: Seq<MarketTradeView>, p: spec_fn(MarketTradeView) -> bool, i: int)
    requires
        0 <= i < s.len(),
        p(s[i]),
    ensures
        ordered(s.filter(p), traded_before()).contains(s[i]),
{
    broadcast use vstd::seq_lib::group_filter_ensures;
    let f = s.filter(p);
    let run = ordered(f, traded_before());
    law_ordered(f, traded_before());
    assert(f.contains(s[i]));
    f.to_multiset_ensures();
    run.to_multiset_ensures();
    assert(f.to_multiset().count(s[i]) > 0);
    assert(run.to_multiset().count(s[i]) > 0);
}

proof fn lemma_from_run(s: Seq<MarketTradeView>, p: spec_fn(MarketTradeView) -> bool, j: int)
    requires
        0 <= j < ordered(s.filter(p), traded_before()).len(),
    ensures
        exists|i: int|
            0 <= i < s.len() && p(s[i]) && #[trigger] s[i] == ordered(s.filter(p), traded_before())[j],
{
    broadcast use vstd::seq_lib::group_filter_ensures;
    let f = s.filter(p);
    let run = ordered(f, traded_before());
    law_ordered(f, traded_before());
    f.to_multiset_ensures();
    run.to_multiset_ensures();
    assert(run.contains(run[j]));
    assert(run.to_multiset().count(run[j]) > 0);
    assert(f.to_multiset().count(run[j]) > 0);
    assert(f.contains(run[j]));
    s.lemma_filter_contains_rev(p, run[j]);
    let k = choose|k: int| 0 <= k < f.len() && f[k] == run[j];
    assert(p(f[k]));
}

/// A roll-up misses no trade: each one in its range is in a candle that it writes, and in no other.
pub proof fn law_every_trade_is_in_one_candle(s: DbView, interval: int, from: int, to: int, i: int)
    requires
        interval > 0,
        0 <= i < s.trades.len(),
        from <= s.trades[i].created_at < to,
    ensures
        ({
            let kept = s.candle_rows.filter(not(is_stale(interval, from, to))).len() as int;
            let rows = rolled_up(s, interval, from, to);
            &&& exists|k: int| kept <= k < rows.len() && made_in(#[trigger] rows[k], s.trades[i], interval, from, to)
            &&& forall|k: int, m: int|
                kept <= k < m < rows.len() ==> !(made_in(#[trigger] rows[k], s.trades[i], interval, from, to) && made_in(
                    #[trigger] rows[m],
                    s.trades[i],
                    interval,
                    from,
                    to,
                ))
        }),
{
    let kept = s.candle_rows.filter(not(is_stale(interval, from, to)));
    let rows = rolled_up(s, interval, from, to);
    let sel = trades_in(s.trades, from, to);
    let fresh = rolled(sel, interval);
    let t = s.trades[i];
    lemma_in_run(s.trades, in_span(from, to), i);
    let j = choose|j: int| 0 <= j < sel.len() && sel[j] == t;
    lemma_rolled_covers(sel, interval, j);
    law_bucket_floors(t.created_at, interval);
    let k = choose|k: int| 0 <= k < fresh.len() && record_key(#[trigger] fresh[k]) == key_of(t, interval);
    assert(rows[kept.len() + k] == fresh[k]);
    assert(made_in(rows[kept.len() + k], t, interval, from, to));
    lemma_rolled_once(sel, interval);
    assert forall|a: int, b: int| kept.len() <= a < b < rows.len() implies !(made_in(
        #[trigger] rows[a],
        t,
        interval,
        from,
        to,
    ) && made_in(#[trigger] rows[b], t, interval, from, to)) by {
        if made_in(rows[a], t, interval, from, to) && made_in(rows[b], t, interval, from, to) {
            lemma_opens(s, interval, from, to, a);
            lemma_opens(s, interval, from, to, b);
            assert(rows[a] == fresh[a - kept.len()] && rows[b] == fresh[b - kept.len()]);
            assert(record_key(fresh[a - kept.len()]) != record_key(fresh[b - kept.len()]));
        }
    }
}

proof fn lemma_opens(s: DbView, interval: int, from: int, to: int, k: int)
    requires
        interval > 0,
        s.candle_rows.filter(not(is_stale(interval, from, to))).len() <= k < rolled_up(s, interval, from, to).len(),
    ensures
        ({
            let b = rolled_up(s, interval, from, to)[k].candle.bucket_start;
            bucket_of(b, interval) == b
        }),
{
    law_a_candle_sums_up_its_trades(s, interval, from, to, k);
    let b = rolled_up(s, interval, from, to)[k].candle.bucket_start;
    assert((b / interval) * interval == b) by (nonlinear_arith)
        requires
            b % interval == 0,
            interval > 0,
    ;
}

/// A chart shows the candles of an item at a market, of one interval, that open within the span, all of them and no others,
/// the earliest first.
pub proof fn law_a_chart_shows_its_span(
    rows: Seq<CandleRecordView>,
    market: Seq<char>,
    item: Seq<char>,
    interval: int,
    from: int,
    to: int,
    x: CandleRecordView,
    i: int,
    j: int,
)
    ensures
        ({
            let own = ordered(rows.filter(is_history_of(market, item, interval, from, to)), opens_before());
            let out = candle_views(own);
            &&& own.contains(x) <==> rows.contains(x) && x.market_id == market && x.item_id == item && x.interval_secs == interval
                && from <= x.candle.bucket_start < to
            &&& out.len() == own.len()
            &&& 0 <= i < out.len() ==> out[i] == own[i].candle
            &&& 0 <= i < j < out.len() ==> out[i].bucket_start <= out[j].bucket_start
        }),
{
    let p = is_history_of(market, item, interval, from, to);
    let own = ordered(rows.filter(p), opens_before());
    assert(orders_rows(opens_before()));
    lemma_shown(rows, p, opens_before(), x);
    law_page(rows.filter(p), opens_before(), -1, x);
    assert(limited(own, -1) == own);
    if 0 <= i < j < own.len() {
        assert(!opens_before()(own[j], own[i]));
    }
}

/// Pruning drops the candles that open before a time, of every item and interval, and no others.
pub proof fn law_pruning_drops_the_old(rows: Seq<CandleRecordView>, before: int, x: CandleRecordView)
    ensures
        rows.filter(not(is_before(before))).contains(x) <==> rows.contains(x) && x.candle.bucket_start >= before,
{
    lemma_filter_contains(rows, not(is_before(before)), x);
}

/// The first and the last trade span all trades, and are among them.
pub proof fn law_the_span_of_all_trades(trades: Seq<MarketTradeView>)
    requires
        trades.len() > 0,
    ensures
        forall|i: int| 0 <= i < trades.len() ==> first_trade(trades) <= (#[trigger] trades[i]).created_at <= last_trade(trades),
        exists|i: int| 0 <= i < trades.len() && (#[trigger] trades[i]).created_at == first_trade(trades),
        exists|i: int| 0 <= i < trades.len() && (#[trigger] trades[i]).created_at == last_trade(trades),
    decreases trades.len(),
{
    let z = trades.len() - 1;
    assert(trades[z] == trades.last());
    if trades.len() > 1 {
        let head = trades.drop_last();
        law_the_span_of_all_trades(head);
        let a = choose|i: int| 0 <= i < head.len() && (#[trigger] head[i]).created_at == first_trade(head);
        let b = choose|i: int| 0 <= i < head.len() && (#[trigger] head[i]).created_at == last_trade(head);
        assert(trades[a] == head[a] && trades[b] == head[b]);
        assert forall|i: int| 0 <= i < trades.len() implies first_trade(trades) <= (#[trigger] trades[i]).created_at
            <= last_trade(trades) by {
            if i < z {
                assert(head[i] == trades[i]);
            }
        }
    }
}

} // verus!
