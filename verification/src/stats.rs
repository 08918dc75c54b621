//! The statistics engine: total, best day (first maximum), and the two streak
//! measures, all pure functions of the day list and a caller-supplied
//! reference day — the engine reads no clock.
use vstd::prelude::*;

use crate::dates::{date_index, Date};
use crate::extract::days_view;
use crate::types::{
    empty_streak, BestDay, BestDayView, ContributionDay, ContributionStats, DayView, StatsView,
    Streak, StreakView,
};
use crate::weeks::day_parses;

verus! {

/// Sum of the counts of a day list.
pub open spec fn sum_counts(s: Seq<DayView>) -> int
    decreases s.len(),
{
    if s.len() == 0 {
        0
    } else {
        sum_counts(s.drop_last()) + s.last().count
    }
}

/// The first day with the maximum count, scanning left to right; an empty
/// list gives the empty sentinel. A later day replaces the best seen only
/// when its count is strictly greater.
pub open spec fn best_of(s: Seq<DayView>) -> BestDayView
    decreases s.len(),
{
    if s.len() == 0 {
        BestDayView { date: Seq::empty(), count: 0 }
    } else if s.len() == 1 {
        BestDayView { date: s[0].date, count: s[0].count }
    } else {
        let prev = best_of(s.drop_last());
        if s.last().count > prev.count {
            BestDayView { date: s.last().date, count: s.last().count }
        } else {
            prev
        }
    }
}

/// The calendar position of a record: its date's day index, when the date
/// parses.
pub open spec fn day_pos(d: DayView) -> int {
    date_index(crate::dates::spec_parse_date(d.date)->0)
}

/// The backward walk of the current streak. `i` is the position under
/// examination, `st` what has been collected (`st.count == 0`: the streak has
/// not started), `last` the day index of the most recently collected record.
/// Records whose date does not parse are skipped. Before the streak starts,
/// a record with contributions starts it only if it lies on the reference day
/// or the day before; a zero-count record is stepped over only while the walk
/// has not yet passed the day before the reference day. Once started, each
/// earlier record must be active and lie exactly one day earlier, and the
/// first record breaking that ends the walk.
pub open spec fn cur_walk(s: Seq<DayView>, i: int, today: int, st: StreakView, last: int) -> StreakView
    decreases i + 1,
{
    if i < 0 {
        st
    } else {
        let d = s[i];
        if !day_parses(d) {
            cur_walk(s, i - 1, today, st, last)
        } else {
            let di = day_pos(d);
            if d.count > 0 {
                if st.count == 0 {
                    if di == today || di == today - 1 {
                        cur_walk(
                            s,
                            i - 1,
                            today,
                            (StreakView { count: 1, start_date: d.date, end_date: d.date }),
                            di,
                        )
                    } else {
                        st
                    }
                } else {
                    if di == last - 1 {
                        cur_walk(
                            s,
                            i - 1,
                            today,
                            (StreakView {
                                count: (st.count + 1) as u32,
                                start_date: d.date,
                                end_date: st.end_date,
                            }),
                            di,
                        )
                    } else {
                        st
                    }
                }
            } else if st.count > 0 {
                st
            } else if di < today - 1 {
                st
            } else {
                cur_walk(s, i - 1, today, st, last)
            }
        }
    }
}

/// The current streak of a day list relative to a reference day.
pub open spec fn current_streak_spec(s: Seq<DayView>, today: Date) -> StreakView {
    cur_walk(s, s.len() - 1, date_index(today), empty_streak(), 0)
}

/// The forward walk of the longest streak. `best` is the best run seen,
/// `cur`/`start` the open run's length and anchor (`started` tells whether a
/// run is open), `last` the day index of the last record processed. An active
/// record extends the open run when it lies exactly one day after the last
/// processed record, and starts a fresh run otherwise; a zero-count record
/// closes the run; records whose date does not parse are skipped. Whenever
/// the open run grows past the best seen, it becomes the best, anchored at
/// its start and ending here.
pub open spec fn longest_walk(
    s: Seq<DayView>,
    i: int,
    best: StreakView,
    cur: u32,
    start: Seq<char>,
    started: bool,
    last: Option<int>,
) -> StreakView
    decreases s.len() - i,
{
    if i < 0 || i >= s.len() {
        best
    } else {
        let d = s[i];
        if !day_parses(d) {
            longest_walk(s, i + 1, best, cur, start, started, last)
        } else {
            let di = day_pos(d);
            if d.count > 0 {
                let consec = last is Some && di == last->0 + 1;
                let ncur = if consec && started {
                    (cur + 1) as u32
                } else {
                    1u32
                };
                let nstart = if consec && started {
                    start
                } else {
                    d.date
                };
                let nbest = if ncur > best.count {
                    (StreakView { count: ncur, start_date: nstart, end_date: d.date })
                } else {
                    best
                };
                longest_walk(s, i + 1, nbest, ncur, nstart, true, Some(di))
            } else {
                longest_walk(s, i + 1, best, 0, Seq::empty(), false, Some(di))
            }
        }
    }
}

/// The longest streak of a day list.
pub open spec fn longest_streak_spec(s: Seq<DayView>) -> StreakView {
    longest_walk(s, 0, empty_streak(), 0, Seq::empty(), false, None)
}

/// The statistics of a day list relative to a reference day.
pub open spec fn stats_spec(s: Seq<DayView>, today: Date) -> StatsView {
    StatsView {
        total_contributions: sum_counts(s) as u32,
        best_day: best_of(s),
        current_streak: current_streak_spec(s, today),
        longest_streak: longest_streak_spec(s),
    }
}

/// A sum of counts is never negative.
pub proof fn lemma_sum_nonneg(s: Seq<DayView>)
    ensures
        sum_counts(s) >= 0,
    decreases s.len(),
{
    if s.len() > 0 {
        lemma_sum_nonneg(s.drop_last());
    }
}

/// A prefix never sums to more than the whole list.
proof fn lemma_sum_prefix(s: Seq<DayView>, i: int)
    requires
        0 <= i <= s.len(),
    ensures
        sum_counts(s.take(i)) <= sum_counts(s),
        sum_counts(s.take(i)) >= 0,
    decreases s.len() - i,
{
    lemma_sum_nonneg(s.take(i));
    if i == s.len() {
        assert(s.take(i) =~= s);
    } else {
        lemma_sum_prefix(s, i + 1);
        assert(s.take(i + 1).drop_last() =~= s.take(i));
        assert(sum_counts(s.take(i + 1)) == sum_counts(s.take(i)) + s[i].count);
    }
}

/// Sums the counts of a day list, reporting a total too large for the count
/// field instead of computing statistics on it; callers use it to establish
/// the bound `calculate_stats` asks for.
#[verifier::loop_isolation(false)]
pub fn checked_total(days: &Vec<ContributionDay>) -> (r: Option<u32>)
    ensures
        match r {
            Some(t) => t as int == sum_counts(days_view(days@)),
            None => sum_counts(days_view(days@)) > u32::MAX,
        },
{
    let ghost dv = days_view(days@);
    let mut total: u32 = 0;
    let mut i: usize = 0;
    proof {
        assert(dv.take(0) =~= Seq::<DayView>::empty());
    }
    while i < days.len()
        invariant
            i <= days@.len(),
            dv == days_view(days@),
            total as int == sum_counts(dv.take(i as int)),
        decreases days@.len() - i as int,
    {
        proof {
            assert(dv.take(i as int + 1).drop_last() =~= dv.take(i as int));
            assert(dv.take(i as int + 1).last() == dv[i as int]);
        }
        let c = days[i].count;
        if total > u32::MAX - c {
            proof {
                lemma_sum_prefix(dv, i as int + 1);
            }
            return None;
        }
        total = total + c;
        i = i + 1;
    }
    assert(dv.take(days@.len() as int) =~= dv);
    Some(total)
}

/// Computes the current streak: the run of consecutive active days ending on
/// the reference day or the day before it, scanning backward from the most
/// recent record.
pub fn calculate_current_streak(days: &Vec<ContributionDay>, today: Date) -> (st: Streak)
    requires
        today.valid(),
        days@.len() <= u32::MAX,
    ensures
        st@ == current_streak_spec(days_view(days@), today),
{
    let ghost dv = days_view(days@);
    let today_di = crate::dates::day_index_of(&today);
    let mut count: u32 = 0;
    let mut start_s = String::new();
    let mut end_s = String::new();
    let mut last_di: u32 = 0;
    let ghost mut glast: int = 0;
    let mut i = days.len();
    proof {
        assert(StreakView { count: 0, start_date: start_s@, end_date: end_s@ } == empty_streak());
    }
    while i > 0
        invariant
            i <= days@.len(),
            days@.len() <= u32::MAX,
            dv == days_view(days@),
            today_di as int == date_index(today),
            count as int <= days@.len() - i as int,
            count == 0 ==> start_s@ == Seq::<char>::empty() && end_s@ == Seq::<char>::empty()
                && glast == 0,
            count > 0 ==> glast == last_di as int,
            current_streak_spec(dv, today) == cur_walk(
                dv,
                i as int - 1,
                date_index(today),
                (StreakView { count, start_date: start_s@, end_date: end_s@ }),
                glast,
            ),
        ensures
            current_streak_spec(dv, today) == (StreakView {
                count,
                start_date: start_s@,
                end_date: end_s@,
            }),
        decreases i,
    {
        let idx = i - 1;
        let ghost d = dv[idx as int];
        assert(d == days@[idx as int]@);
        match crate::dates::parse_date_str(days[idx].date.as_str()) {
            None => {
                assert(!day_parses(d));
            },
            Some(date) => {
                let di = crate::dates::day_index_of(&date);
                assert(di as int == day_pos(d));
                if days[idx].count > 0 {
                    if count == 0 {
                        if di == today_di || di + 1 == today_di {
                            count = 1;
                            start_s = days[idx].date.clone();
                            end_s = days[idx].date.clone();
                            last_di = di;
                            proof {
                                glast = di as int;
                            }
                        } else {
                            break ;
                        }
                    } else {
                        if di + 1 == last_di {
                            count = count + 1;
                            start_s = days[idx].date.clone();
                            last_di = di;
                            proof {
                                glast = di as int;
                            }
                        } else {
                            break ;
                        }
                    }
                } else if count > 0 {
                    break ;
                } else if di + 1 < today_di {
                    break ;
                }
            },
        }
        i = idx;
    }
    Streak { count, start_date: start_s, end_date: end_s }
}

/// Computes the longest streak: the longest run of consecutive active days
/// anywhere in the list, scanning forward.
#[verifier::loop_isolation(false)]
pub fn calculate_longest_streak(days: &Vec<ContributionDay>) -> (st: Streak)
    requires
        days@.len() <= u32::MAX,
    ensures
        st@ == longest_streak_spec(days_view(days@)),
{
    let ghost dv = days_view(days@);
    let mut best_count: u32 = 0;
    let mut best_start = String::new();
    let mut best_end = String::new();
    let mut cur: u32 = 0;
    let mut cur_start = String::new();
    let mut started = false;
    let mut last_di: u32 = 0;
    let ghost mut glast: Option<int> = None;
    let mut i: usize = 0;
    proof {
        assert(StreakView { count: 0, start_date: best_start@, end_date: best_end@ }
            == empty_streak());
    }
    while i < days.len()
        invariant
            i <= days@.len(),
            dv == days_view(days@),
            cur as int <= i as int,
            !started ==> cur == 0 && cur_start@ == Seq::<char>::empty(),
            last_di < 3700000,
            glast is Some ==> glast->0 == last_di as int,
            started ==> glast is Some,
            longest_streak_spec(dv) == longest_walk(
                dv,
                i as int,
                (StreakView { count: best_count, start_date: best_start@, end_date: best_end@ }),
                cur,
                cur_start@,
                started,
                glast,
            ),
        decreases days@.len() - i as int,
    {
        let ghost d = dv[i as int];
        assert(d == days@[i as int]@);
        match crate::dates::parse_date_str(days[i].date.as_str()) {
            None => {
                assert(!day_parses(d));
            },
            Some(date) => {
                let di = crate::dates::day_index_of(&date);
                assert(di as int == day_pos(d));
                if days[i].count > 0 {
                    let consec = started && last_di + 1 == di;
                    if consec {
                        cur = cur + 1;
                    } else {
                        cur = 1;
                        cur_start = days[i].date.clone();
                    }
                    if cur > best_count {
                        best_count = cur;
                        best_start = cur_start.clone();
                        best_end = days[i].date.clone();
                    }
                    started = true;
                    last_di = di;
                    proof {
                        glast = Some(di as int);
                    }
                } else {
                    cur = 0;
                    cur_start = String::new();
                    started = false;
                    last_di = di;
                    proof {
                        glast = Some(di as int);
                    }
                }
            },
        }
        i = i + 1;
    }
    Streak { count: best_count, start_date: best_start, end_date: best_end }
}

/// Computes the statistics of a day list: the total, the best day (first
/// maximum on ties), and the two streaks, relative to the caller's reference
/// day. The total must fit the count field.
#[verifier::loop_isolation(false)]
pub fn calculate_stats(days: &Vec<ContributionDay>, today: Date) -> (stats: ContributionStats)
    requires
        today.valid(),
        days@.len() <= u32::MAX,
        sum_counts(days_view(days@)) <= u32::MAX,
    ensures
        stats@ == stats_spec(days_view(days@), today),
{
    let ghost dv = days_view(days@);
    let mut total: u32 = 0;
    let mut i: usize = 0;
    proof {
        assert(dv.take(0) =~= Seq::<DayView>::empty());
    }
    while i < days.len()
        invariant
            i <= days@.len(),
            dv == days_view(days@),
            total as int == sum_counts(dv.take(i as int)),
        decreases days@.len() - i as int,
    {
        proof {
            lemma_sum_prefix(dv, i as int + 1);
            assert(dv.take(i as int + 1).drop_last() =~= dv.take(i as int));
            assert(dv.take(i as int + 1).last() == dv[i as int]);
        }
        total = total + days[i].count;
        i = i + 1;
    }
    assert(dv.take(days@.len() as int) =~= dv);
    let best_day = if days.len() == 0 {
        BestDay { date: String::new(), count: 0 }
    } else {
        let mut best_date = days[0].date.clone();
        let mut best_count = days[0].count;
        let mut k: usize = 1;
        proof {
            assert(dv.take(1) =~= seq![dv[0]]);
            assert(best_of(dv.take(1)) == (BestDayView { date: dv[0].date, count: dv[0].count }));
        }
        while k < days.len()
            invariant
                1 <= k <= days@.len(),
                dv == days_view(days@),
                best_of(dv.take(k as int)) == (BestDayView { date: best_date@, count: best_count }),
            decreases days@.len() - k as int,
        {
            proof {
                assert(dv.take(k as int + 1).drop_last() =~= dv.take(k as int));
                assert(dv.take(k as int + 1).last() == dv[k as int]);
            }
            if days[k].count > best_count {
                best_date = days[k].date.clone();
                best_count = days[k].count;
            }
            k = k + 1;
        }
        BestDay { date: best_date, count: best_count }
    };
    let current_streak = calculate_current_streak(days, today);
    let longest_streak = calculate_longest_streak(days);
    ContributionStats { total_contributions: total, best_day, current_streak, longest_streak }
}

} // verus!
