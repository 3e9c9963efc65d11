//! Price history, derived from the trade ledger.

use vstd::prelude::*;

use crate::persistence::db::{Db, DbView};
use crate::persistence::rows::{
    Candle, CandleRecord, CandleRecordView, CandleView, MarketTrade, MarketTradeView,
};
use crate::table::{
    find, in_order, law_ordered, lemma_filter_all, lemma_find, lemma_find_is, lemma_ordered_contains,
    lemma_sum_filter, lemma_sum_le, lemma_sum_nonneg, lemma_sum_prefix, lemma_sum_push, not, order_rows,
    ordered, orders_rows, put_in, qty_if, rows_view, sum, Row, Table,
};
use crate::text::same;
use crate::world::trading::{bucket_of, candle_bucket, law_bucket_floors, lemma_bucket_monotone};

verus! {

/// What a candle is of: an item at a market, in one interval.
pub struct CandleKey {
    pub market: Seq<char>,
    pub item: Seq<char>,
    pub bucket: int,
}

pub open spec fn key_of(t: MarketTradeView, interval: int) -> CandleKey {
    CandleKey { market: t.market_id, item: t.item_id, bucket: bucket_of(t.created_at, interval) }
}

/// Whether a trade belongs to a candle.
pub open spec fn is_in(key: CandleKey, interval: int) -> spec_fn(MarketTradeView) -> bool {
    |t: MarketTradeView| key_of(t, interval) == key
}

/// Whether a trade was made in a span of time.
pub open spec fn in_span(from: int, to: int) -> spec_fn(MarketTradeView) -> bool {
    |t: MarketTradeView| from <= t.created_at < to
}

pub open spec fn traded_before() -> spec_fn(MarketTradeView, MarketTradeView) -> bool {
    |a: MarketTradeView, b: MarketTradeView| a.created_at < b.created_at
}

/// The candle of a first trade.
pub open spec fn started(t: MarketTradeView, interval: int) -> CandleView {
    CandleView {
        bucket_start: bucket_of(t.created_at, interval),
        open: t.unit_price,
        high: t.unit_price,
        low: t.unit_price,
        close: t.unit_price,
        volume: t.qty,
        trades: 1,
    }
}

/// A candle after one more trade.
pub open spec fn extended(c: CandleView, t: MarketTradeView) -> CandleView {
    CandleView {
        high: if t.unit_price > c.high {
            t.unit_price
        } else {
            c.high
        },
        low: if t.unit_price < c.low {
            t.unit_price
        } else {
            c.low
        },
        close: t.unit_price,
        volume: c.volume + t.qty,
        trades: c.trades + 1,
        ..c
    }
}

/// The candle of a run of trades; none when there are none.
pub open spec fn candle_of(trades: Seq<MarketTradeView>, interval: int) -> Option<CandleView>
    decreases trades.len(),
{
    if trades.len() == 0 {
        None
    } else {
        match candle_of(trades.drop_last(), interval) {
            None => Some(started(trades.last(), interval)),
            Some(c) => Some(extended(c, trades.last())),
        }
    }
}

/// Whether a row is the candle of this key.
pub open spec fn is_candle(key: CandleKey, interval: int) -> spec_fn(CandleRecordView) -> bool {
    |r: CandleRecordView|
        {
            &&& r.market_id == key.market
            &&& r.item_id == key.item
            &&& r.interval_secs == interval
            &&& r.candle.bucket_start == key.bucket
        }
}

/// The candle of a key, if there is one.
pub open spec fn candle_at(rows: Seq<CandleRecordView>, key: CandleKey, interval: int) -> Option<CandleView> {
    let k = find(rows, is_candle(key, interval));
    if k < rows.len() {
        Some(rows[k].candle)
    } else {
        None
    }
}

/// The candles after one more trade.
pub open spec fn rolled_into(rows: Seq<CandleRecordView>, t: MarketTradeView, interval: int) -> Seq<CandleRecordView> {
    let k = find(rows, is_candle(key_of(t, interval), interval));
    if k < rows.len() {
        rows.update(k, CandleRecordView { candle: extended(rows[k].candle, t), ..rows[k] })
    } else {
        rows.push(
            CandleRecordView {
                market_id: t.market_id,
                item_id: t.item_id,
                interval_secs: interval,
                candle: started(t, interval),
            },
        )
    }
}

/// The candles of a run of trades.
pub open spec fn rolled(trades: Seq<MarketTradeView>, interval: int) -> Seq<CandleRecordView>
    decreases trades.len(),
{
    if trades.len() == 0 {
        Seq::empty()
    } else {
        rolled_into(rolled(trades.drop_last(), interval), trades.last(), interval)
    }
}

/// The trades of a span, in the order in which they were made.
pub open spec fn trades_in(trades: Seq<MarketTradeView>, from: int, to: int) -> Seq<MarketTradeView> {
    ordered(trades.filter(in_span(from, to)), traded_before())
}

/// Whether a cached candle lies in the range that a roll-up recomputes.
pub open spec fn is_stale(interval: int, from: int, to: int) -> spec_fn(CandleRecordView) -> bool {
    |r: CandleRecordView|
        r.interval_secs == interval && bucket_of(from, interval) <= r.candle.bucket_start < to
}

/// The cached candles after the range `[from, to)` is recomputed from the trade ledger.
pub open spec fn rolled_up(s: DbView, interval: int, from: int, to: int) -> Seq<CandleRecordView> {
    s.candle_rows.filter(not(is_stale(interval, from, to))) + rolled(trades_in(s.trades, from, to), interval)
}

pub open spec fn is_interval(interval: int) -> spec_fn(CandleRecordView) -> bool {
    |r: CandleRecordView| r.interval_secs == interval
}

pub open spec fn trade_qty() -> spec_fn(MarketTradeView) -> int {
    |t: MarketTradeView| t.qty
}

/// Trades can be counted and added up.
pub open spec fn trades_sound(trades: Seq<MarketTradeView>) -> bool {
    &&& forall|i: int| 0 <= i < trades.len() ==> (#[trigger] trades[i]).qty >= 0
    &&& sum(trades, trade_qty()) <= i64::MAX
    &&& trades.len() <= i64::MAX
}

/// Each candle is made of exactly its own trades, in order.
pub proof fn lemma_rolled(trades: Seq<MarketTradeView>, interval: int, key: CandleKey)
    ensures
        candle_at(rolled(trades, interval), key, interval) == candle_of(trades.filter(is_in(key, interval)), interval),
        forall|i: int|
            0 <= i < rolled(trades, interval).len() ==> (#[trigger] rolled(trades, interval)[i]).interval_secs
                == interval,
    decreases trades.len(),
{
    reveal(Seq::filter);
    let p = is_in(key, interval);
    let q = is_candle(key, interval);
    let rows = rolled(trades, interval);
    if trades.len() == 0 {
        lemma_find(rows, q);
    } else {
        let head = trades.drop_last();
        let t = trades.last();
        let before = rolled(head, interval);
        lemma_rolled(head, interval, key);
        lemma_rolled(head, interval, key_of(t, interval));
        let own = is_candle(key_of(t, interval), interval);
        let k = find(before, own);
        lemma_find(before, own);
        lemma_find(before, q);
        let m = find(before, q);
        if key_of(t, interval) == key {
            assert(trades.filter(p).drop_last() =~= head.filter(p));
            assert(trades.filter(p).last() == t);
            assert forall|i: int| 0 <= i < k implies !q(#[trigger] rows[i]) by {
                assert(!q(before[i]));
            }
            lemma_find_is(rows, q, k);
        } else {
            let m1 = if m < before.len() {
                m
            } else {
                rows.len() as int
            };
            assert forall|i: int| 0 <= i < m1 implies !q(#[trigger] rows[i]) by {
                if i < before.len() {
                    assert(!q(before[i]));
                    if i == k {
                        assert(own(before[k]));
                    }
                }
            }
            if m < before.len() {
                if m == k {
                    assert(own(before[k]) && q(before[k]));
                }
                assert(rows[m] == before[m]);
            }
            lemma_find_is(rows, q, m1);
        }
    }
}

/// Selecting from rows put in order is putting selected rows in order.
pub proof fn lemma_ordered_filter<A>(s: Seq<A>, before: spec_fn(A, A) -> bool, p: spec_fn(A) -> bool)
    requires
        orders_rows(before),
    ensures
        ordered(s, before).filter(p) == ordered(s.filter(p), before),
    decreases s.len(),
{
    reveal(Seq::filter);
    if s.len() > 0 {
        let head = s.drop_last();
        lemma_ordered_filter(head, before, p);
        law_ordered(head, before);
        lemma_put_in_filter(ordered(head, before), s.last(), before, p);
        if p(s.last()) {
            assert(s.filter(p).drop_last() =~= head.filter(p));
            assert(s.filter(p).last() == s.last());
        }
    }
}

proof fn lemma_put_in_filter<A>(s: Seq<A>, a: A, before: spec_fn(A, A) -> bool, p: spec_fn(A) -> bool)
    requires
        orders_rows(before),
        in_order(s, before),
    ensures
        put_in(s, a, before).filter(p) == if p(a) {
            put_in(s.filter(p), a, before)
        } else {
            s.filter(p)
        },
    decreases s.len(),
{
    reveal(Seq::filter);
    if s.len() == 0 || !before(a, s.last()) {
        s.lemma_filter_push(a, p);
        if p(a) {
            let kept = s.filter(p);
            if kept.len() > 0 {
                lemma_filter_all(s, p);
                let x = kept.last();
                assert(s.contains(kept[kept.len() - 1]));
                let j = choose|j: int| 0 <= j < s.len() && s[j] == x;
                if j < s.len() - 1 {
                    assert(!before(s[s.len() - 1], s[j]));
                }
                assert(!before(a, x));
            }
        }
    } else {
        let u = s.drop_last();
        assert forall|i: int, j: int| 0 <= i < j < u.len() implies !before(#[trigger] u[j], #[trigger] u[i]) by {
            assert(u[i] == s[i] && u[j] == s[j]);
        }
        lemma_put_in_filter(u, a, before, p);
        put_in(u, a, before).lemma_filter_push(s.last(), p);
        u.lemma_filter_push(s.last(), p);
        assert(s =~= u.push(s.last()));
        if p(s.last()) {
            let kept = s.filter(p);
            assert(kept == u.filter(p).push(s.last()));
            assert(kept.drop_last() =~= u.filter(p));
        } else if p(a) {
            lemma_put_in_behind(u.filter(p), a, before);
        }
    }
}

proof fn lemma_put_in_behind<A>(s: Seq<A>, a: A, before: spec_fn(A, A) -> bool)
    ensures
        put_in(s, a, before).len() == s.len() + 1,
    decreases s.len(),
{
    if s.len() == 0 || !before(a, s.last()) {
    } else {
        lemma_put_in_behind(s.drop_last(), a, before);
    }
}

proof fn lemma_traded_before_orders()
    ensures
        orders_rows(traded_before()),
{
}

/// Selecting twice is selecting by both.
proof fn lemma_filter_twice<A>(s: Seq<A>, p: spec_fn(A) -> bool, q: spec_fn(A) -> bool)
    requires
        forall|i: int| 0 <= i < s.len() && q(#[trigger] s[i]) ==> p(s[i]),
    ensures
        s.filter(p).filter(q) == s.filter(q),
    decreases s.len(),
{
    reveal(Seq::filter);
    if s.len() > 0 {
        let head = s.drop_last();
        assert forall|i: int| 0 <= i < head.len() && q(#[trigger] head[i]) implies p(head[i]) by {
            assert(head[i] == s[i]);
        }
        lemma_filter_twice(head, p, q);
        assert(s[s.len() - 1] == s.last());
        if p(s.last()) {
            head.filter(p).lemma_filter_push(s.last(), q);
        }
    }
}

/// A roll-up recomputes each candle whose whole interval lies in its range from all the trades of that
/// interval, and leaves no candle where there was no trade. What was cached for it before does not
/// matter, so that rolling up twice is the same as once, and piecewise the same as at one go.
pub proof fn law_a_rolled_candle_is_its_trades(s: DbView, interval: int, from: int, to: int, key: CandleKey)
    requires
        interval > 0,
        bucket_of(key.bucket, interval) == key.bucket,
        from <= key.bucket,
        key.bucket + interval <= to || (forall|i: int|
            0 <= i < s.trades.len() ==> (#[trigger] s.trades[i]).created_at < to) && key.bucket < to,
    ensures
        candle_at(rolled_up(s, interval, from, to), key, interval) == candle_of(
            ordered(s.trades.filter(is_in(key, interval)), traded_before()),
            interval,
        ),
{
    let p = in_span(from, to);
    let q = is_in(key, interval);
    let sel = trades_in(s.trades, from, to);
    let fresh = rolled(sel, interval);
    let kept = s.candle_rows.filter(not(is_stale(interval, from, to)));
    let rows = kept + fresh;
    let c = is_candle(key, interval);
    lemma_traded_before_orders();
    lemma_rolled(sel, interval, key);
    lemma_ordered_filter(s.trades.filter(p), traded_before(), q);
    assert forall|i: int| 0 <= i < s.trades.len() && q(#[trigger] s.trades[i]) implies p(s.trades[i]) by {
        law_bucket_floors(s.trades[i].created_at, interval);
    }
    lemma_filter_twice(s.trades, p, q);
    law_bucket_floors(from, interval);
    lemma_filter_all(s.candle_rows, not(is_stale(interval, from, to)));
    assert forall|i: int| 0 <= i < kept.len() implies !c(#[trigger] kept[i]) by {
        assert(not(is_stale(interval, from, to))(kept[i]));
    }
    lemma_find(fresh, c);
    let m = find(fresh, c);
    assert forall|i: int| 0 <= i < kept.len() + m implies !c(#[trigger] rows[i]) by {
        if i < kept.len() {
            assert(rows[i] == kept[i]);
        } else {
            assert(rows[i] == fresh[i - kept.len()]);
        }
    }
    if m < fresh.len() {
        assert(rows[kept.len() + m] == fresh[m]);
    }
    lemma_find_is(rows, c, kept.len() + m);
}

/// A roll-up leaves the candles outside its range as they were.
pub proof fn law_a_roll_up_touches_only_its_range(s: DbView, interval: int, from: int, to: int, key: CandleKey, other: int)
    requires
        interval > 0,
        other != interval || key.bucket < bucket_of(from, interval) || key.bucket >= to,
    ensures
        candle_at(rolled_up(s, interval, from, to), key, other) == candle_at(s.candle_rows, key, other),
{
    let sel = trades_in(s.trades, from, to);
    let fresh = rolled(sel, interval);
    let stale = is_stale(interval, from, to);
    let kept = s.candle_rows.filter(not(stale));
    let rows = kept + fresh;
    let c = is_candle(key, other);
    lemma_kept_candle(s.candle_rows, stale, c);
    lemma_rolled(sel, interval, key);
    lemma_trades_in(s.trades, from, to);
    lemma_rolled_range(sel, interval, from, to);
    lemma_find(kept, c);
    let m = find(kept, c);
    let m1 = if m < kept.len() {
        m
    } else {
        rows.len() as int
    };
    assert forall|i: int| 0 <= i < m1 implies !c(#[trigger] rows[i]) by {
        if i < kept.len() {
            assert(rows[i] == kept[i]);
        } else {
            assert(rows[i] == fresh[i - kept.len()]);
            assert(fresh[i - kept.len()].interval_secs == interval);
            assert(bucket_of(from, interval) <= fresh[i - kept.len()].candle.bucket_start < to);
        }
    }
    if m < kept.len() {
        assert(rows[m] == kept[m]);
    }
    lemma_find_is(rows, c, m1);
}

/// Deleting other rows leaves the first row of a kind as it was.
proof fn lemma_kept_candle(rows: Seq<CandleRecordView>, gone: spec_fn(CandleRecordView) -> bool, c: spec_fn(CandleRecordView) -> bool)
    requires
        forall|i: int| 0 <= i < rows.len() && c(#[trigger] rows[i]) ==> !gone(rows[i]),
    ensures
        ({
            let kept = rows.filter(not(gone));
            let k = find(rows, c);
            let m = find(kept, c);
            (k < rows.len()) == (m < kept.len()) && (k < rows.len() ==> kept[m] == rows[k])
        }),
    decreases rows.len(),
{
    reveal(Seq::filter);
    let kept = rows.filter(not(gone));
    lemma_find(rows, c);
    lemma_find(kept, c);
    if rows.len() > 0 {
        let head = rows.drop_last();
        assert forall|i: int| 0 <= i < head.len() && c(#[trigger] head[i]) implies !gone(head[i]) by {
            assert(head[i] == rows[i]);
        }
        lemma_kept_candle(head, gone, c);
        lemma_find(head, c);
        let kh = head.filter(not(gone));
        lemma_find(kh, c);
        assert(rows[rows.len() - 1] == rows.last());
        if !gone(rows.last()) {
            assert(kept =~= kh.push(rows.last()));
            assert(kept.drop_last() =~= kh);
        }
    }
}

/// The trades of a span were made in it.
proof fn lemma_trades_in(trades: Seq<MarketTradeView>, from: int, to: int)
    ensures
        forall|i: int|
            0 <= i < trades_in(trades, from, to).len() ==> from <= (#[trigger] trades_in(
                trades,
                from,
                to,
            )[i]).created_at < to && trades.contains(trades_in(trades, from, to)[i]),
{
    let p = in_span(from, to);
    let sel = trades_in(trades, from, to);
    lemma_traded_before_orders();
    lemma_filter_all(trades, p);
    lemma_ordered_contains(trades.filter(p), traded_before());
    assert forall|i: int| 0 <= i < sel.len() implies from <= (#[trigger] sel[i]).created_at < to && trades.contains(
        sel[i],
    ) by {
        assert(trades.filter(p).contains(sel[i]));
        let j = choose|j: int| 0 <= j < trades.filter(p).len() && trades.filter(p)[j] == sel[i];
        assert(p(trades.filter(p)[j]));
    }
}

/// Every candle of a span lies in the range that the span covers.
proof fn lemma_rolled_range(trades: Seq<MarketTradeView>, interval: int, from: int, to: int)
    requires
        interval > 0,
        forall|i: int| 0 <= i < trades.len() ==> from <= (#[trigger] trades[i]).created_at < to,
    ensures
        forall|i: int|
            0 <= i < rolled(trades, interval).len() ==> bucket_of(from, interval) <= (#[trigger] rolled(
                trades,
                interval,
            )[i]).candle.bucket_start < to,
    decreases trades.len(),
{
    if trades.len() > 0 {
        let head = trades.drop_last();
        let t = trades.last();
        assert forall|i: int| 0 <= i < head.len() implies from <= (#[trigger] head[i]).created_at < to by {
            assert(head[i] == trades[i]);
        }
        lemma_rolled_range(head, interval, from, to);
        let before = rolled(head, interval);
        let after = rolled(trades, interval);
        lemma_find(before, is_candle(key_of(t, interval), interval));
        assert(from <= trades[trades.len() - 1].created_at < to);
        law_bucket_floors(t.created_at, interval);
        lemma_bucket_monotone(from, t.created_at, interval);
        assert forall|i: int| 0 <= i < after.len() implies bucket_of(from, interval) <= (#[trigger] after[i]).candle.bucket_start
            < to by {
            if i < before.len() {
                assert(bucket_of(from, interval) <= before[i].candle.bucket_start < to);
            }
        }
    }
}

/// A candle counts as many trades, and as much volume, as the trades it is made of.
proof fn lemma_rolled_bounds(trades: Seq<MarketTradeView>, interval: int)
    requires
        forall|i: int| 0 <= i < trades.len() ==> (#[trigger] trades[i]).qty >= 0,
    ensures
        rolled(trades, interval).len() <= trades.len(),
        forall|i: int|
            0 <= i < rolled(trades, interval).len() ==> {
                let c = (#[trigger] rolled(trades, interval)[i]).candle;
                0 <= c.volume <= sum(trades, trade_qty()) && 1 <= c.trades <= trades.len()
            },
    decreases trades.len(),
{
    if trades.len() > 0 {
        let head = trades.drop_last();
        assert forall|i: int| 0 <= i < head.len() implies (#[trigger] head[i]).qty >= 0 by {
            assert(head[i] == trades[i]);
        }
        lemma_rolled_bounds(head, interval);
        lemma_sum_nonneg(head, trade_qty());
        assert(trades[trades.len() - 1].qty >= 0);
        let before = rolled(head, interval);
        let after = rolled(trades, interval);
        lemma_find(before, is_candle(key_of(trades.last(), interval), interval));
        assert forall|i: int| 0 <= i < after.len() implies {
            let c = (#[trigger] after[i]).candle;
            0 <= c.volume <= sum(trades, trade_qty()) && 1 <= c.trades <= trades.len()
        } by {
            if i < before.len() {
                let c = before[i].candle;
                assert(0 <= c.volume && 1 <= c.trades);
            }
        }
    }
}

/// Putting rows in order does not change their sum.
proof fn lemma_ordered_sum<A>(s: Seq<A>, before: spec_fn(A, A) -> bool, f: spec_fn(A) -> int)
    ensures
        sum(ordered(s, before), f) == sum(s, f),
        ordered(s, before).len() == s.len(),
    decreases s.len(),
{
    if s.len() > 0 {
        lemma_ordered_sum(s.drop_last(), before, f);
        lemma_put_in_sum(ordered(s.drop_last(), before), s.last(), before, f);
    }
}

proof fn lemma_put_in_sum<A>(s: Seq<A>, a: A, before: spec_fn(A, A) -> bool, f: spec_fn(A) -> int)
    ensures
        sum(put_in(s, a, before), f) == sum(s, f) + f(a),
        put_in(s, a, before).len() == s.len() + 1,
    decreases s.len(),
{
    if s.len() == 0 || !before(a, s.last()) {
        lemma_sum_push(s, f, a);
    } else {
        lemma_put_in_sum(s.drop_last(), a, before, f);
        lemma_sum_push(put_in(s.drop_last(), a, before), f, s.last());
    }
}

/// The trades of a span are fewer than all, and add up to less.
proof fn lemma_span_bounds(trades: Seq<MarketTradeView>, from: int, to: int)
    requires
        trades_sound(trades),
    ensures
        trades_sound(trades_in(trades, from, to)),
{
    let p = in_span(from, to);
    let sel = trades_in(trades, from, to);
    lemma_trades_in(trades, from, to);
    lemma_ordered_sum(trades.filter(p), traded_before(), trade_qty());
    lemma_sum_filter(trades, p, trade_qty());
    lemma_sum_le(trades, qty_if(p, trade_qty()), trade_qty());
    lemma_filter_all(trades, p);
    assert forall|i: int| 0 <= i < sel.len() implies (#[trigger] sel[i]).qty >= 0 by {
        assert(trades.contains(sel[i]));
        let j = choose|j: int| 0 <= j < trades.len() && trades[j] == sel[i];
        assert(trades[j].qty >= 0);
    }
}

pub open spec fn is_history_of(market: Seq<char>, item: Seq<char>, interval: int, from: int, to: int) -> spec_fn(
    CandleRecordView,
) -> bool {
    |r: CandleRecordView|
        {
            &&& r.market_id == market
            &&& r.item_id == item
            &&& r.interval_secs == interval
            &&& from <= r.candle.bucket_start < to
        }
}

pub open spec fn opens_before() -> spec_fn(CandleRecordView, CandleRecordView) -> bool {
    |a: CandleRecordView, b: CandleRecordView| a.candle.bucket_start < b.candle.bucket_start
}

pub open spec fn candle_views(rows: Seq<CandleRecordView>) -> Seq<CandleView> {
    Seq::new(rows.len(), |i: int| rows[i].candle)
}

pub open spec fn is_before(before: int) -> spec_fn(CandleRecordView) -> bool {
    |r: CandleRecordView| r.candle.bucket_start < before
}

/// The earliest moment of any trade; 0 when there is none.
pub open spec fn first_trade(trades: Seq<MarketTradeView>) -> int
    decreases trades.len(),
{
    if trades.len() == 0 {
        0
    } else if trades.len() == 1 || trades.last().created_at < first_trade(trades.drop_last()) {
        trades.last().created_at
    } else {
        first_trade(trades.drop_last())
    }
}

/// The latest moment of any trade; 0 when there is none.
pub open spec fn last_trade(trades: Seq<MarketTradeView>) -> int
    decreases trades.len(),
{
    if trades.len() == 0 {
        0
    } else if trades.len() == 1 || trades.last().created_at > last_trade(trades.drop_last()) {
        trades.last().created_at
    } else {
        last_trade(trades.drop_last())
    }
}

/// Every trade lies between the first and the last.
pub proof fn lemma_trade_span(trades: Seq<MarketTradeView>)
    ensures
        forall|i: int|
            0 <= i < trades.len() ==> first_trade(trades) <= (#[trigger] trades[i]).created_at <= last_trade(trades),
        trades.len() > 0 ==> exists|i: int|
            0 <= i < trades.len() && (#[trigger] trades[i]).created_at == first_trade(trades),
    decreases trades.len(),
{
    if trades.len() > 1 {
        let head = trades.drop_last();
        lemma_trade_span(head);
        assert forall|i: int| 0 <= i < trades.len() implies first_trade(trades) <= (#[trigger] trades[i]).created_at
            <= last_trade(trades) by {
            if i < head.len() {
                assert(head[i] == trades[i]);
            }
        }
        let j = choose|j: int| 0 <= j < head.len() && (#[trigger] head[j]).created_at == first_trade(head);
        assert(trades[j] == head[j]);
        assert(trades[trades.len() - 1] == trades.last());
    } else if trades.len() == 1 {
        assert(trades[0] == trades.last());
    }
}

impl Db {
    /// Recompute the candles that cover `[from, to)` from the trade ledger, in place of what was
    /// cached for them. Returns how many were written. Running it twice gives the same candles.
    pub fn roll_up_candles(&mut self, interval_secs: i64, from: i64, to: i64) -> (written: i64)
        requires
            trades_sound(old(self)@.trades),
            interval_secs > 0 && from < to ==> bucket_of(from as int, interval_secs as int) >= i64::MIN,
        ensures
            interval_secs <= 0 || to <= from ==> written == 0 && final(self)@ == old(self)@,
            interval_secs > 0 && from < to ==> {
                &&& written == rolled(
                    trades_in(old(self)@.trades, from as int, to as int),
                    interval_secs as int,
                ).len()
                &&& final(self)@ == (DbView {
                    candle_rows: rolled_up(old(self)@, interval_secs as int, from as int, to as int),
                    ..old(self)@
                })
            },
    {
        if interval_secs <= 0 || to <= from {
            return 0;
        }
        let ghost s = self@;
        let ghost interval = interval_secs as int;
        let ghost sel = trades_in(s.trades, from as int, to as int);
        let f = |t: &MarketTrade| -> (b: bool)
            ensures
                b == in_span(from as int, to as int)(t@),
            { from <= t.created_at && t.created_at < to };
        let picked = self.trades.select(f, Ghost(in_span(from as int, to as int)));
        let g = |a: &MarketTrade, b: &MarketTrade| -> (r: bool)
            ensures
                r == traded_before()(a@, b@),
            { a.created_at < b.created_at };
        let trades = order_rows(picked, g, Ghost(traded_before()));
        proof {
            lemma_span_bounds(s.trades, from as int, to as int);
            lemma_trades_in(s.trades, from as int, to as int);
        }
        let mut fresh: Table<CandleRecord> = Table::new();
        let mut i: usize = 0;
        proof {
            assert(sel.take(0) =~= Seq::empty());
        }
        while i < trades.len()
            invariant
                i <= trades.len(),
                sel == rows_view(trades@),
                trades_sound(sel),
                interval == interval_secs,
                interval > 0,
                bucket_of(from as int, interval) >= i64::MIN,
                forall|j: int| 0 <= j < sel.len() ==> from <= (#[trigger] sel[j]).created_at < to,
                fresh@ == rolled(sel.take(i as int), interval),
            decreases trades.len() - i,
        {
            let t = &trades[i];
            let ghost part = sel.take(i as int);
            let ghost next = sel.take(i + 1);
            proof {
                assert(sel[i as int] == t@);
                assert(next =~= part.push(t@));
                assert(next.drop_last() =~= part);
                lemma_bucket_monotone(from as int, t.created_at as int, interval);
                assert forall|j: int| 0 <= j < next.len() implies (#[trigger] next[j]).qty >= 0 by {
                    assert(next[j] == sel[j]);
                }
                assert forall|j: int| 0 <= j < part.len() implies (#[trigger] part[j]).qty >= 0 by {
                    assert(part[j] == sel[j]);
                }
                lemma_rolled_bounds(part, interval);
                lemma_sum_push(part, trade_qty(), t@);
                lemma_sum_prefix(sel, trade_qty(), i + 1);
            }
            let bucket: i64 = candle_bucket(t.created_at, interval_secs);
            let h = |r: &CandleRecord| -> (b: bool)
                ensures
                    b == is_candle(key_of(t@, interval_secs as int), interval_secs as int)(r@),
                {
                    same(r.market_id.as_str(), t.market_id.as_str()) && same(
                        r.item_id.as_str(),
                        t.item_id.as_str(),
                    ) && r.interval_secs == interval_secs && r.candle.bucket_start == bucket
                };
            let k: usize = fresh.find(h, Ghost(is_candle(key_of(t@, interval), interval)));
            if k < fresh.len() {
                let r = fresh.get_mut(k);
                if t.unit_price > r.candle.high {
                    r.candle.high = t.unit_price;
                }
                if t.unit_price < r.candle.low {
                    r.candle.low = t.unit_price;
                }
                r.candle.close = t.unit_price;
                r.candle.volume = r.candle.volume + t.qty;
                r.candle.trades = r.candle.trades + 1;
            } else {
                fresh.push(
                    CandleRecord {
                        market_id: t.market_id.clone(),
                        item_id: t.item_id.clone(),
                        interval_secs,
                        candle: Candle {
                            bucket_start: bucket,
                            open: t.unit_price,
                            high: t.unit_price,
                            low: t.unit_price,
                            close: t.unit_price,
                            volume: t.qty,
                            trades: 1,
                        },
                    },
                );
            }
            i = i + 1;
        }
        proof {
            assert(sel.take(i as int) =~= sel);
            lemma_rolled_bounds(sel, interval);
        }
        let first: i64 = candle_bucket(from, interval_secs);
        let stale = |r: &CandleRecord| -> (b: bool)
            ensures
                b == is_stale(interval_secs as int, from as int, to as int)(r@),
            { r.interval_secs == interval_secs && first <= r.candle.bucket_start && r.candle.bucket_start < to };
        self.candle_rows.delete_where(stale, Ghost(is_stale(interval, from as int, to as int)));
        let written: i64 = fresh.len() as i64;
        self.candle_rows.append(fresh);
        written
    }

    /// Rebuild every candle of an interval from the whole trade ledger. Returns how many were written.
    pub fn rebuild_all_candles(&mut self, interval_secs: i64) -> (written: i64)
        requires
            trades_sound(old(self)@.trades),
            last_trade(old(self)@.trades) < i64::MAX,
            interval_secs > 0 ==> bucket_of(first_trade(old(self)@.trades), interval_secs as int) >= i64::MIN,
        ensures
            ({
                let s = old(self)@;
                let cleared = DbView {
                    candle_rows: s.candle_rows.filter(not(is_interval(interval_secs as int))),
                    ..s
                };
                let from = first_trade(s.trades);
                let to = last_trade(s.trades) + 1;
                if s.trades.len() == 0 || interval_secs <= 0 {
                    written == 0 && final(self)@ == cleared
                } else {
                    &&& written == rolled(trades_in(s.trades, from, to), interval_secs as int).len()
                    &&& final(self)@ == (DbView {
                        candle_rows: rolled_up(cleared, interval_secs as int, from, to),
                        ..s
                    })
                }
            }),
    {
        let ghost s = self@;
        let stale = |r: &CandleRecord| -> (b: bool)
            ensures
                b == is_interval(interval_secs as int)(r@),
            { r.interval_secs == interval_secs };
        self.candle_rows.delete_where(stale, Ghost(is_interval(interval_secs as int)));
        if self.trades.len() == 0 {
            return 0;
        }
        let mut first: i64 = self.trades.get(0).created_at;
        let mut last: i64 = first;
        let mut i: usize = 1;
        proof {
            assert(s.trades.take(1).last() == s.trades[0]);
            lemma_trade_span(s.trades);
        }
        while i < self.trades.len()
            invariant
                1 <= i <= self@.trades.len(),
                first == first_trade(self@.trades.take(i as int)),
                last == last_trade(self@.trades.take(i as int)),
            decreases self@.trades.len() - i,
        {
            proof {
                assert(self@.trades.take(i + 1).drop_last() =~= self@.trades.take(i as int));
            }
            let at: i64 = self.trades.get(i).created_at;
            if at < first {
                first = at;
            }
            if at > last {
                last = at;
            }
            i = i + 1;
        }
        proof {
            assert(self@.trades.take(i as int) =~= s.trades);
            assert(s.trades[0].created_at <= last_trade(s.trades));
        }
        self.roll_up_candles(interval_secs, first, last + 1)
    }

    /// The candles of an item at a market that open in `[from, to)`, oldest first. An interval without
    /// trades has no candle.
    pub fn candles(&self, market_id: &str, item_id: &str, interval_secs: i64, from: i64, to: i64) -> (out: Vec<Candle>)
        ensures
            rows_view(out@) == candle_views(
                ordered(
                    self@.candle_rows.filter(
                        is_history_of(market_id@, item_id@, interval_secs as int, from as int, to as int),
                    ),
                    opens_before(),
                ),
            ),
    {
        let f = |r: &CandleRecord| -> (b: bool)
            ensures
                b == is_history_of(market_id@, item_id@, interval_secs as int, from as int, to as int)(r@),
            {
                same(r.market_id.as_str(), market_id) && same(r.item_id.as_str(), item_id) && r.interval_secs
                    == interval_secs && from <= r.candle.bucket_start && r.candle.bucket_start < to
            };
        let rows = self.candle_rows.select(
            f,
            Ghost(is_history_of(market_id@, item_id@, interval_secs as int, from as int, to as int)),
        );
        let g = |a: &CandleRecord, b: &CandleRecord| -> (r: bool)
            ensures
                r == opens_before()(a@, b@),
            { a.candle.bucket_start < b.candle.bucket_start };
        let sorted = order_rows(rows, g, Ghost(opens_before()));
        let mut out: Vec<Candle> = Vec::new();
        let mut i: usize = 0;
        while i < sorted.len()
            invariant
                i <= sorted.len(),
                out.len() == i,
                forall|j: int| 0 <= j < i ==> (#[trigger] out@[j])@ == sorted@[j]@.candle,
            decreases sorted.len() - i,
        {
            let c = sorted[i].candle.copy();
            out.push(c);
            i = i + 1;
        }
        assert(rows_view(out@) =~= candle_views(rows_view(sorted@)));
        out
    }

    /// Drop the candles that open before a moment. The trade ledger is never touched, so that what is
    /// dropped can be rebuilt. Returns how many were dropped.
    pub fn prune_candles(&mut self, before: i64) -> (pruned: u64)
        ensures
            final(self)@ == (DbView {
                candle_rows: old(self)@.candle_rows.filter(not(is_before(before as int))),
                ..old(self)@
            }),
            pruned == old(self)@.candle_rows.len() - final(self)@.candle_rows.len(),
    {
        let n: usize = self.candle_rows.len();
        let f = |r: &CandleRecord| -> (b: bool)
            ensures
                b == is_before(before as int)(r@),
            { r.candle.bucket_start < before };
        proof {
            lemma_filter_all(self@.candle_rows, not(is_before(before as int)));
        }
        self.candle_rows.delete_where(f, Ghost(is_before(before as int)));
        (n - self.candle_rows.len()) as u64
    }
}

/// A rebuild gives each candle all of its trades: whatever rolling up interval by interval has cached,
/// a rebuild from scratch reproduces it.
pub proof fn law_a_rebuild_reproduces_every_candle(s: DbView, interval: int, key: CandleKey)
    requires
        interval > 0,
        s.trades.len() > 0,
        bucket_of(key.bucket, interval) == key.bucket,
    ensures
        ({
            let cleared = DbView { candle_rows: s.candle_rows.filter(not(is_interval(interval))), ..s };
            candle_at(
                rolled_up(cleared, interval, first_trade(s.trades), last_trade(s.trades) + 1),
                key,
                interval,
            ) == candle_of(ordered(s.trades.filter(is_in(key, interval)), traded_before()), interval)
        }),
{
    let cleared = DbView { candle_rows: s.candle_rows.filter(not(is_interval(interval))), ..s };
    let from = first_trade(s.trades);
    let to = last_trade(s.trades) + 1;
    let p = in_span(from, to);
    let q = is_in(key, interval);
    let c = is_candle(key, interval);
    let sel = trades_in(s.trades, from, to);
    let fresh = rolled(sel, interval);
    let kept = cleared.candle_rows.filter(not(is_stale(interval, from, to)));
    let rows = kept + fresh;
    lemma_trade_span(s.trades);
    lemma_traded_before_orders();
    lemma_rolled(sel, interval, key);
    lemma_ordered_filter(s.trades.filter(p), traded_before(), q);
    lemma_filter_twice(s.trades, p, q);
    lemma_filter_all(s.candle_rows, not(is_interval(interval)));
    lemma_filter_all(cleared.candle_rows, not(is_stale(interval, from, to)));
    assert forall|i: int| 0 <= i < kept.len() implies !c(#[trigger] kept[i]) by {
        assert(cleared.candle_rows.contains(kept[i]));
        let j = choose|j: int| 0 <= j < cleared.candle_rows.len() && cleared.candle_rows[j] == kept[i];
        assert(not(is_interval(interval))(cleared.candle_rows[j]));
    }
    lemma_find(fresh, c);
    let m = find(fresh, c);
    assert forall|i: int| 0 <= i < kept.len() + m implies !c(#[trigger] rows[i]) by {
        if i < kept.len() {
            assert(rows[i] == kept[i]);
        } else {
            assert(rows[i] == fresh[i - kept.len()]);
        }
    }
    if m < fresh.len() {
        assert(rows[kept.len() + m] == fresh[m]);
    }
    lemma_find_is(rows, c, kept.len() + m);
}

} // verus!
