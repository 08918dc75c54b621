//! Laws relating the extractor, the aggregator and the statistics engine,
//! stated and proved over the same spec functions their contracts use.
use vstd::prelude::*;

use crate::dates::{date_key, Date};
use crate::extract::{
    count_entries, extraction_ok, last_level, level_pairs, lookup_count, resolved_count,
};
use crate::stats::{best_of, stats_spec, sum_counts};
use crate::types::{BestDayView, DayView, StatsView};
use crate::stats::day_pos;
use crate::weeks::{day_parses, day_weekday, flatten_weeks, kept_days, weeks_ok};

verus! {

/// A date with a recorded level occurs among the pairings.
proof fn lemma_last_level_occurs(ps: Seq<(Seq<char>, char)>, d: Seq<char>)
    requires
        last_level(ps, d) is Some,
    ensures
        exists|p: int| 0 <= p < ps.len() && (#[trigger] ps[p]).0 == d,
    decreases ps.len(),
{
    if ps.len() > 0 {
        if ps.last().0 == d {
            assert(ps[ps.len() - 1].0 == d);
        } else {
            lemma_last_level_occurs(ps.drop_last(), d);
            let rest = ps.drop_last();
            let p = choose|p: int| 0 <= p < rest.len() && (#[trigger] rest[p]).0 == d;
            assert(ps[p].0 == d);
        }
    }
}

/// Extraction completeness: when the text holds no literal-count entry and
/// the pairings name pairwise distinct dates, extraction yields exactly one
/// record per pairing, each carrying the estimate for its level.
pub proof fn lemma_extraction_completeness(s: Seq<char>, days: Seq<DayView>)
    requires
        extraction_ok(s, days),
        count_entries(s).len() == 0,
        forall|pa: int, pb: int|
            0 <= pa < pb < level_pairs(s).len() ==> (#[trigger] level_pairs(s)[pa]).0 != (
            #[trigger] level_pairs(s)[pb]).0,
    ensures
        days.len() == level_pairs(s).len(),
        forall|i: int|
            0 <= i < days.len() ==> (#[trigger] days[i]).count == crate::spec_estimate(
                days[i].level,
            ),
{
    // with no literal counts, every count resolves to the estimate
    assert forall|i: int| 0 <= i < days.len() implies (#[trigger] days[i]).count
        == crate::spec_estimate(days[i].level) by {
        assert(lookup_count(count_entries(s), days[i].date) is None);
        assert(days[i].count == resolved_count(s, days[i].date, days[i].level));
    }
    // both date lists are duplicate-free and hold the same dates
    let dd = days.map_values(|d: DayView| d.date);
    let pd = level_pairs(s).map_values(|p: (Seq<char>, char)| p.0);
    assert forall|i: int, j: int| 0 <= i < j < dd.len() implies dd[i] != dd[j] by {
        assert(date_key(days[i].date) < date_key(days[j].date));
    }
    assert(dd.no_duplicates());
    assert(pd.no_duplicates());
    assert forall|x: Seq<char>| dd.to_set().contains(x) implies pd.to_set().contains(x) by {
        let i = choose|i: int| 0 <= i < dd.len() && dd[i] == x;
        lemma_last_level_occurs(level_pairs(s), days[i].date);
        let p = choose|p: int| 0 <= p < level_pairs(s).len() && (#[trigger] level_pairs(s)[p]).0
            == x;
        assert(pd[p] == x);
    }
    assert forall|x: Seq<char>| pd.to_set().contains(x) implies dd.to_set().contains(x) by {
        let p = choose|p: int| 0 <= p < pd.len() && pd[p] == x;
        assert(level_pairs(s)[p].0 == x);
        let i = choose|i: int| 0 <= i < days.len() && days[i].date == (level_pairs(s)[p]).0;
        assert(dd[i] == x);
    }
    assert(dd.to_set() =~= pd.to_set());
    dd.unique_seq_to_set();
    pd.unique_seq_to_set();
    assert(days.len() == dd.len() && level_pairs(s).len() == pd.len());
}

/// Count precedence: a record whose date carries a literal-count entry
/// returns that literal count, not the estimate.
pub proof fn lemma_count_precedence(s: Seq<char>, days: Seq<DayView>, i: int)
    requires
        extraction_ok(s, days),
        0 <= i < days.len(),
        lookup_count(count_entries(s), days[i].date) is Some,
    ensures
        days[i].count == lookup_count(count_entries(s), days[i].date)->0,
{
    assert(days[i].count == resolved_count(s, days[i].date, days[i].level));
}

/// Offset of week `w` within the flattened day list.
pub open spec fn week_offset(ws: Seq<Seq<DayView>>, w: int) -> int
    decreases w,
{
    if w <= 0 {
        0
    } else {
        week_offset(ws, w - 1) + ws[w - 1].len()
    }
}

/// The offset only depends on the weeks before `w`.
proof fn lemma_week_offset_drop_last(ws: Seq<Seq<DayView>>, w: int)
    requires
        0 <= w < ws.len(),
    ensures
        week_offset(ws.drop_last(), w) == week_offset(ws, w),
    decreases w,
{
    if w > 0 {
        lemma_week_offset_drop_last(ws, w - 1);
        assert(ws.drop_last()[w - 1] == ws[w - 1]);
    }
}

/// Each week is a contiguous slice of the flattened day list, at its offset.
proof fn lemma_flatten_slice(ws: Seq<Seq<DayView>>, w: int)
    requires
        0 <= w < ws.len(),
    ensures
        week_offset(ws, w) >= 0,
        week_offset(ws, w) + ws[w].len() <= flatten_weeks(ws).len(),
        forall|j: int|
            0 <= j < ws[w].len() ==> flatten_weeks(ws)[week_offset(ws, w) + j] == (
            #[trigger] ws[w][j]),
        w == ws.len() - 1 ==> week_offset(ws, w) + ws[w].len() == flatten_weeks(ws).len(),
    decreases ws.len(),
{
    let f = flatten_weeks(ws);
    let rest = ws.drop_last();
    assert(f == flatten_weeks(rest) + ws.last());
    if w == ws.len() - 1 {
        assert forall|v: int| 0 <= v < rest.len() implies week_offset(ws, v + 1) == week_offset(
            ws,
            v,
        ) + rest[v].len() by {}
        assert(week_offset(ws, w) == flatten_weeks(rest).len()) by {
            lemma_flatten_len(ws, w);
        }
        assert forall|j: int| 0 <= j < ws[w].len() implies f[week_offset(ws, w) + j] == (
        #[trigger] ws[w][j]) by {}
    } else {
        lemma_flatten_slice(rest, w);
        lemma_week_offset_drop_last(ws, w);
        assert(rest[w] == ws[w]);
        assert forall|j: int| 0 <= j < ws[w].len() implies f[week_offset(ws, w) + j] == (
        #[trigger] ws[w][j]) by {
            assert(flatten_weeks(rest)[week_offset(rest, w) + j] == rest[w][j]);
        }
    }
}

/// When the day after `x` is a Sunday, `x` is a Saturday.
proof fn lemma_weekday_succ(x: int)
    requires
        x >= 0,
        (x + 1 + 6) % 7 == 0,
    ensures
        (x + 6) % 7 == 6,
{
    let t = x + 6;
    vstd::arithmetic::div_mod::lemma_fundamental_div_mod(t, 7);
    if t % 7 < 6 {
        vstd::arithmetic::div_mod::lemma_fundamental_div_mod_converse_mod(
            t + 1,
            7,
            t / 7,
            t % 7 + 1,
        );
    }
}

/// Grouping determinism, boundary half: over a gapless day list (each record
/// one day after the one before), every week but the last ends on a Saturday.
/// (The other half — every week but the first begins on a Sunday, and
/// concatenating the weeks reproduces the list — is what `group_into_weeks`
/// ensures for every input.) A gap with no Sunday record in reach keeps the
/// open week running, so a gapped list may end a week on another weekday.
pub proof fn lemma_weeks_end_on_saturday(ws: Seq<Seq<DayView>>, days: Seq<DayView>)
    requires
        weeks_ok(ws),
        flatten_weeks(ws) == days,
        forall|k: int| 0 <= k < days.len() - 1 ==> day_pos(days[k + 1]) == day_pos(
            #[trigger] days[k]) + 1,
        forall|k: int| 0 <= k < days.len() ==> day_pos(#[trigger] days[k]) >= 0,
    ensures
        forall|w: int|
            0 <= w < ws.len() - 1 ==> day_weekday((#[trigger] ws[w])[ws[w].len() - 1]) == 6,
{
    assert forall|w: int| 0 <= w < ws.len() - 1 implies day_weekday(
        (#[trigger] ws[w])[ws[w].len() - 1],
    ) == 6 by {
        lemma_flatten_slice(ws, w);
        lemma_flatten_slice(ws, w + 1);
        let off = week_offset(ws, w);
        let a = ws[w][ws[w].len() - 1];
        let b = ws[w + 1][0];
        let k = off + ws[w].len() - 1;
        assert(days[k] == a);
        assert(week_offset(ws, w + 1) == off + ws[w].len());
        assert(days[k + 1] == b);
        assert(day_pos(b) == day_pos(a) + 1);
        assert(day_weekday(b) == 0);
        lemma_weekday_succ(day_pos(a));
    }
}

/// Along a gapless day list, positions advance with indices.
proof fn lemma_pos_progression(days: Seq<DayView>, a: int, j: int)
    requires
        forall|k: int| 0 <= k < days.len() - 1 ==> day_pos(days[k + 1]) == day_pos(
            #[trigger] days[k]) + 1,
        0 <= a,
        0 <= j,
        a + j < days.len(),
    ensures
        day_pos(days[a + j]) == day_pos(days[a]) + j,
    decreases j,
{
    if j > 0 {
        lemma_pos_progression(days, a, j - 1);
    }
}

/// Seven days after day `s` of weekday `w`, the weekday repeats; in between
/// it takes each value once.
proof fn lemma_weekday_offset(s: int, j: int)
    requires
        s >= 0,
        0 <= j < 7,
        (s + 6) % 7 == 0,
    ensures
        (s + j + 6) % 7 == j,
{
    vstd::arithmetic::div_mod::lemma_fundamental_div_mod(s + 6, 7);
    vstd::arithmetic::div_mod::lemma_fundamental_div_mod_converse_mod(
        s + j + 6,
        7,
        (s + 6) / 7,
        j,
    );
}

/// Week sizes over a gapless day list: no week outgrows the calendar week,
/// and every week between the first and the last holds exactly seven days.
/// (Starting at a Sunday and ending at a Saturday, with one record per day,
/// leaves no other size; the first and last week may be partial.)
pub proof fn lemma_weeks_hold_seven_days(ws: Seq<Seq<DayView>>, days: Seq<DayView>)
    requires
        weeks_ok(ws),
        flatten_weeks(ws) == days,
        forall|k: int| 0 <= k < days.len() - 1 ==> day_pos(days[k + 1]) == day_pos(
            #[trigger] days[k]) + 1,
        forall|k: int| 0 <= k < days.len() ==> day_pos(#[trigger] days[k]) >= 0,
    ensures
        forall|w: int| 0 <= w < ws.len() ==> (#[trigger] ws[w]).len() <= 7,
        forall|w: int| 1 <= w < ws.len() - 1 ==> (#[trigger] ws[w]).len() == 7,
{
    assert forall|w: int| 0 <= w < ws.len() implies (#[trigger] ws[w]).len() <= 7 by {
        lemma_flatten_slice(ws, w);
        let off = week_offset(ws, w);
        let start = day_pos(days[off]);
        let wd0 = (start + 6) % 7;
        vstd::arithmetic::div_mod::lemma_fundamental_div_mod(start + 6, 7);
        if ws[w].len() > 7 {
            // seven or fewer steps ahead a Sunday stands inside the week
            let j = if wd0 == 0 {
                7int
            } else {
                7 - wd0
            };
            lemma_pos_progression(days, off, j);
            assert(days[off + j] == ws[w][j]);
            assert(day_pos(days[off + j]) == start + j);
            vstd::arithmetic::div_mod::lemma_fundamental_div_mod_converse_mod(
                start + j + 6,
                7,
                (start + 6) / 7 + 1,
                0,
            );
            assert(day_weekday(ws[w][j]) == 0);
            assert(false);
        }
    }
    lemma_weeks_end_on_saturday(ws, days);
    assert forall|w: int| 1 <= w < ws.len() - 1 implies (#[trigger] ws[w]).len() == 7 by {
        lemma_flatten_slice(ws, w);
        let off = week_offset(ws, w);
        let start = day_pos(days[off]);
        let len = ws[w].len() as int;
        assert(day_weekday(ws[w][0]) == 0);
        assert(day_weekday(ws[w][len - 1]) == 6);
        lemma_pos_progression(days, off, len - 1);
        assert(days[off + (len - 1)] == ws[w][len - 1]);
        lemma_weekday_offset(start, len - 1);
    }
}

/// Sum of the counts of a sequence of weeks.
pub open spec fn sum_weeks(ws: Seq<Seq<DayView>>) -> int
    decreases ws.len(),
{
    if ws.len() == 0 {
        0
    } else {
        sum_weeks(ws.drop_last()) + sum_counts(ws.last())
    }
}

/// Sums of counts add over concatenation.
proof fn lemma_sum_concat(a: Seq<DayView>, b: Seq<DayView>)
    ensures
        sum_counts(a + b) == sum_counts(a) + sum_counts(b),
    decreases b.len(),
{
    if b.len() == 0 {
        assert(a + b =~= a);
    } else {
        lemma_sum_concat(a, b.drop_last());
        assert((a + b).drop_last() =~= a + b.drop_last());
        assert((a + b).last() == b.last());
    }
}

/// The flattened weeks sum to the sum over the weeks.
proof fn lemma_sum_flatten(ws: Seq<Seq<DayView>>)
    ensures
        sum_counts(flatten_weeks(ws)) == sum_weeks(ws),
    decreases ws.len(),
{
    if ws.len() > 0 {
        lemma_sum_flatten(ws.drop_last());
        lemma_sum_concat(flatten_weeks(ws.drop_last()), ws.last());
    }
}

/// When every record's date parses, grouping keeps them all.
proof fn lemma_kept_all(s: Seq<DayView>)
    requires
        forall|k: int| 0 <= k < s.len() ==> day_parses(#[trigger] s[k]),
    ensures
        kept_days(s) == s,
    decreases s.len(),
{
    if s.len() > 0 {
        lemma_kept_all(s.drop_last());
        assert(kept_days(s) =~= s);
    }
}

/// Statistics totals: over weeks grouped from a day list whose dates all
/// parse, the sum over all weeks of each week's counts equals the total of
/// the statistics. (A record whose date does not parse is dropped by the
/// grouping but still counted in the total, so the law asks for parseable
/// dates.)
pub proof fn lemma_statistics_totals(days: Seq<DayView>, ws: Seq<Seq<DayView>>, today: Date)
    requires
        flatten_weeks(ws) == kept_days(days),
        forall|k: int| 0 <= k < days.len() ==> day_parses(#[trigger] days[k]),
        sum_counts(days) <= u32::MAX,
    ensures
        sum_weeks(ws) == sum_counts(days),
        stats_spec(days, today).total_contributions == sum_weeks(ws),
{
    lemma_kept_all(days);
    lemma_sum_flatten(ws);
    crate::stats::lemma_sum_nonneg(days);
}

/// Index `i` holds the first maximum of the list.
pub open spec fn is_first_max(s: Seq<DayView>, i: int) -> bool {
    &&& 0 <= i < s.len()
    &&& forall|j: int| 0 <= j < s.len() ==> (#[trigger] s[j]).count <= s[i].count
    &&& forall|j: int| 0 <= j < i ==> (#[trigger] s[j]).count < s[i].count
}

/// Best-day tie-break: on a non-empty list, the best day is the first record
/// carrying the maximum count in the given order — a later tie never
/// displaces it.
pub proof fn lemma_best_day_first_max(s: Seq<DayView>)
    requires
        s.len() > 0,
    ensures
        exists|i: int|
            #[trigger] is_first_max(s, i) && best_of(s) == (BestDayView {
                date: s[i].date,
                count: s[i].count,
            }),
    decreases s.len(),
{
    if s.len() == 1 {
        assert(is_first_max(s, 0));
    } else {
        let rest = s.drop_last();
        lemma_best_day_first_max(rest);
        let i0 = choose|i0: int|
            #[trigger] is_first_max(rest, i0) && best_of(rest) == (BestDayView {
                date: rest[i0].date,
                count: rest[i0].count,
            });
        if s.last().count > best_of(rest).count {
            assert(is_first_max(s, s.len() - 1)) by {
                assert(forall|j: int|
                    0 <= j < s.len() - 1 ==> (#[trigger] s[j]).count == rest[j].count);
            }
        } else {
            assert(s[i0] == rest[i0]);
            assert(is_first_max(s, i0)) by {
                assert(forall|j: int|
                    0 <= j < s.len() - 1 ==> (#[trigger] s[j]).count == rest[j].count);
            }
        }
    }
}

/// Idempotence: the statistics are a function of the day list and the
/// reference day alone — two runs over the same inputs agree.
pub proof fn lemma_analyze_deterministic(days: Seq<DayView>, today: Date, a: StatsView, b: StatsView)
    requires
        a == stats_spec(days, today),
        b == stats_spec(days, today),
    ensures
        a == b,
{
}

/// The weeks before `w` flatten to exactly `week_offset(ws, w)` records.
proof fn lemma_flatten_len(ws: Seq<Seq<DayView>>, w: int)
    requires
        0 <= w < ws.len(),
    ensures
        week_offset(ws, w) + ws[w].len() <= flatten_weeks(ws).len(),
        w == ws.len() - 1 ==> week_offset(ws, w) == flatten_weeks(ws.drop_last()).len()
            && week_offset(ws, w) + ws[w].len() == flatten_weeks(ws).len(),
    decreases ws.len(),
{
    let rest = ws.drop_last();
    assert(flatten_weeks(ws) == flatten_weeks(rest) + ws.last());
    if w == ws.len() - 1 {
        if w == 0 {
            assert(flatten_weeks(rest) =~= Seq::<DayView>::empty());
        } else {
            lemma_flatten_len(rest, w - 1);
            lemma_week_offset_drop_last(ws, w - 1);
            assert(rest[w - 1] == ws[w - 1]);
        }
    } else {
        lemma_flatten_len(rest, w);
        lemma_week_offset_drop_last(ws, w);
        assert(rest[w] == ws[w]);
    }
}

} // verus!
