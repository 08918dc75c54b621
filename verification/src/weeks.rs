//! The aggregator: partitions a chronologically ordered day list into
//! Sunday-start calendar weeks, the first and last possibly partial.
use vstd::prelude::*;

use crate::dates::{date_weekday, spec_parse_date};
use crate::extract::days_view;
use crate::types::{ContributionDay, ContributionWeek, DayView};

verus! {

/// Whether a record carries a parseable calendar date.
pub open spec fn day_parses(d: DayView) -> bool {
    spec_parse_date(d.date) is Some
}

/// The weekday of a record with a parseable date, `0` = Sunday.
pub open spec fn day_weekday(d: DayView) -> int {
    date_weekday(spec_parse_date(d.date)->0)
}

/// The records grouping keeps: those whose date parses. Records with an
/// unparseable date are silently dropped, never aborting the grouping.
pub open spec fn kept_days(s: Seq<DayView>) -> Seq<DayView>
    decreases s.len(),
{
    if s.len() == 0 {
        Seq::empty()
    } else if day_parses(s.last()) {
        kept_days(s.drop_last()).push(s.last())
    } else {
        kept_days(s.drop_last())
    }
}

/// The day records of a sequence of weeks, in order.
pub open spec fn flatten_weeks(ws: Seq<Seq<DayView>>) -> Seq<DayView>
    decreases ws.len(),
{
    if ws.len() == 0 {
        Seq::empty()
    } else {
        flatten_weeks(ws.drop_last()) + ws.last()
    }
}

/// The views of a sequence of weeks.
pub open spec fn weeks_view(ws: Seq<ContributionWeek>) -> Seq<Seq<DayView>> {
    ws.map_values(|w: ContributionWeek| w@)
}

/// The shape of a Sunday-start partition: every week is non-empty and made of
/// parseable records, every week after the first starts on a Sunday, and no
/// week holds a Sunday anywhere but in front.
pub open spec fn weeks_ok(ws: Seq<Seq<DayView>>) -> bool {
    &&& forall|w: int| 0 <= w < ws.len() ==> (#[trigger] ws[w]).len() > 0
    &&& forall|w: int, j: int|
        0 <= w < ws.len() && 0 <= j < ws[w].len() ==> day_parses(#[trigger] ws[w][j])
    &&& forall|w: int| 1 <= w < ws.len() ==> day_weekday((#[trigger] ws[w])[0]) == 0
    &&& forall|w: int, j: int|
        0 <= w < ws.len() && 1 <= j < ws[w].len() ==> day_weekday(#[trigger] ws[w][j]) != 0
}

/// One more record either joins the kept records or is dropped.
proof fn lemma_kept_push(s: Seq<DayView>, d: DayView)
    ensures
        kept_days(s.push(d)) == if day_parses(d) {
            kept_days(s).push(d)
        } else {
            kept_days(s)
        },
{
    assert(s.push(d).drop_last() =~= s);
    assert(s.push(d).last() == d);
}

/// One more week extends the flattened records by that week.
proof fn lemma_flatten_push(ws: Seq<Seq<DayView>>, w: Seq<DayView>)
    ensures
        flatten_weeks(ws.push(w)) == flatten_weeks(ws) + w,
{
    assert(ws.push(w).drop_last() =~= ws);
    assert(ws.push(w).last() == w);
}

/// Groups records into Sunday-start weeks: walking in the given order, a
/// record whose weekday is Sunday closes the open week (when non-empty) and
/// starts the next; records whose date does not parse are dropped. The weeks
/// hold exactly the kept records, in order, and every week after the first
/// begins with the Sunday that opened it. Empty input gives empty output.
#[verifier::loop_isolation(false)]
pub fn group_into_weeks(days: Vec<ContributionDay>) -> (weeks: Vec<ContributionWeek>)
    ensures
        flatten_weeks(weeks_view(weeks@)) == kept_days(days_view(days@)),
        weeks_ok(weeks_view(weeks@)),
{
    let ghost dv = days_view(days@);
    let mut weeks: Vec<ContributionWeek> = Vec::new();
    let mut current: Vec<ContributionDay> = Vec::new();
    let mut idx: usize = 0;
    proof {
        assert(dv.take(0) =~= Seq::<DayView>::empty());
        assert(flatten_weeks(weeks_view(weeks@)) + days_view(current@) =~= kept_days(dv.take(0)));
    }
    while idx < days.len()
        invariant
            idx <= days.len(),
            dv == days_view(days@),
            flatten_weeks(weeks_view(weeks@)) + days_view(current@) == kept_days(
                dv.take(idx as int),
            ),
            weeks_ok(weeks_view(weeks@)),
            forall|j: int| 0 <= j < current@.len() ==> day_parses((#[trigger] current@[j])@),
            forall|j: int| 1 <= j < current@.len() ==> day_weekday(current@[j]@) != 0,
            weeks@.len() > 0 ==> current@.len() > 0 && day_weekday(current@[0]@) == 0,
        decreases days@.len() - idx as int,
    {
        let ghost d = dv[idx as int];
        assert(d == days@[idx as int]@);
        proof {
            assert(dv.take(idx as int + 1) =~= dv.take(idx as int).push(d));
            lemma_kept_push(dv.take(idx as int), d);
        }
        match crate::dates::parse_date_str(days[idx].date.as_str()) {
            Some(date) => {
                let wd = crate::dates::weekday_of_date(&date);
                if wd == 0 && current.len() > 0 {
                    let ghost wv = weeks_view(weeks@);
                    let ghost cv = days_view(current@);
                    let closed = ContributionWeek { days: current };
                    current = Vec::new();
                    proof {
                        assert(closed@ == cv);
                    }
                    weeks.push(closed);
                    proof {
                        assert(weeks_view(weeks@) =~= wv.push(cv));
                        lemma_flatten_push(wv, cv);
                        assert(days_view(current@) =~= Seq::<DayView>::empty());
                        assert(flatten_weeks(weeks_view(weeks@)) + days_view(current@)
                            =~= kept_days(dv.take(idx as int)));
                    }
                }
                let ghost cv2 = days_view(current@);
                current.push(days[idx].clone());
                proof {
                    assert(days_view(current@) =~= cv2.push(d));
                    assert(flatten_weeks(weeks_view(weeks@)) + days_view(current@) =~= kept_days(
                        dv.take(idx as int + 1),
                    ));
                }
            },
            None => {
                assert(!day_parses(d));
            },
        }
        idx = idx + 1;
    }
    assert(dv.take(days@.len() as int) =~= dv);
    if current.len() > 0 {
        let ghost wv = weeks_view(weeks@);
        let ghost cv = days_view(current@);
        let closed = ContributionWeek { days: current };
        proof {
            assert(closed@ == cv);
        }
        weeks.push(closed);
        proof {
            assert(weeks_view(weeks@) =~= wv.push(cv));
            lemma_flatten_push(wv, cv);
        }
    } else {
        assert(days_view(current@) =~= Seq::<DayView>::empty());
        assert(flatten_weeks(weeks_view(weeks@)) =~= kept_days(dv));
    }
    weeks
}

} // verus!
