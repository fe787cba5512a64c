//! The forecast series with its temperature aggregates: the highest and the
//! lowest temperature of each day and of the whole series.
use vstd::prelude::*;
use crate::weather::{gather_5day_forecast, spec_gather, ForecastPeriod, ForecastSample};

verus! {

/// Whether an aggregate looks at a sample: `day` restricts it to one day of
/// the month, `afternoon` to the samples that start after hour 12.
pub open spec fn spec_counts(s: ForecastSample, day: Option<u32>, afternoon: bool) -> bool {
    &&& day matches Some(d) ==> s.time.day == d
    &&& afternoon ==> s.time.hour > 12
}

/// The highest (`highest`) or the lowest temperature among the samples that
/// count, or `None` where none counts.
pub open spec fn spec_extreme(
    s: Seq<ForecastSample>,
    day: Option<u32>,
    afternoon: bool,
    highest: bool,
) -> Option<i32>
    decreases s.len(),
{
    if s.len() == 0 {
        None
    } else {
        let rest = spec_extreme(s.drop_last(), day, afternoon, highest);
        let t = s.last().temp_f;
        if !spec_counts(s.last(), day, afternoon) {
            rest
        } else {
            match rest {
                None => Some(t),
                Some(m) => Some(if (highest && t > m) || (!highest && t < m) {
                    t
                } else {
                    m
                }),
            }
        }
    }
}

/// The highest temperature of a day: over all of its samples.
pub open spec fn spec_day_high(s: Seq<ForecastSample>, day: u32) -> Option<i32> {
    spec_extreme(s, Some(day), false, true)
}

/// The lowest temperature of a day: over its samples after hour 12 only, so
/// that the low of the night before does not count for the day.
pub open spec fn spec_day_low(s: Seq<ForecastSample>, day: u32) -> Option<i32> {
    spec_extreme(s, Some(day), true, false)
}

/// Low and high of a day, where the day has both.
pub open spec fn spec_daily(s: Seq<ForecastSample>, day: u32) -> Option<(i32, i32)> {
    match (spec_day_low(s, day), spec_day_high(s, day)) {
        (Some(low), Some(high)) => Some((low, high)),
        _ => None,
    }
}

/// Lowest and highest temperature of the whole series; `None` for an empty
/// series.
pub open spec fn spec_week(s: Seq<ForecastSample>) -> Option<(i32, i32)> {
    match (spec_extreme(s, None, false, false), spec_extreme(s, None, false, true)) {
        (Some(low), Some(high)) => Some((low, high)),
        _ => None,
    }
}

/// What an aggregate is: `None` exactly where no sample counts; otherwise
/// the temperature of a sample that counts, which no other such sample
/// exceeds (or, for the lowest, falls below).
pub proof fn lemma_extreme(s: Seq<ForecastSample>, day: Option<u32>, afternoon: bool, highest: bool)
    ensures
        match spec_extreme(s, day, afternoon, highest) {
            None => forall|i: int| 0 <= i < s.len() ==> !spec_counts(#[trigger] s[i], day, afternoon),
            Some(m) => {
                &&& exists|i: int|
                    0 <= i < s.len() && spec_counts(#[trigger] s[i], day, afternoon) && s[i].temp_f
                        == m
                &&& forall|i: int|
                    0 <= i < s.len() && spec_counts(#[trigger] s[i], day, afternoon) ==> (if highest {
                        s[i].temp_f <= m
                    } else {
                        s[i].temp_f >= m
                    })
            },
        },
    decreases s.len(),
{
    if s.len() > 0 {
        let front = s.drop_last();
        lemma_extreme(front, day, afternoon, highest);
        assert forall|i: int| 0 <= i < front.len() implies front[i] == s[i] by {}
        match spec_extreme(front, day, afternoon, highest) {
            None => {},
            Some(m) => {
                let w = choose|i: int|
                    0 <= i < front.len() && spec_counts(#[trigger] front[i], day, afternoon)
                        && front[i].temp_f == m;
                assert(spec_counts(s[w], day, afternoon) && s[w].temp_f == m);
            },
        }
        if spec_counts(s.last(), day, afternoon) {
            assert(s[s.len() - 1] == s.last());
        }
    }
}

/// A day that has a low has a high, and has a sample.
pub proof fn lemma_daily_has_sample(s: Seq<ForecastSample>, day: u32)
    requires
        spec_day_low(s, day) is Some,
    ensures
        spec_day_high(s, day) is Some,
        exists|i: int| 0 <= i < s.len() && (#[trigger] s[i]).time.day == day,
{
    lemma_extreme(s, Some(day), true, false);
    lemma_extreme(s, Some(day), false, true);
    let m = spec_day_low(s, day)->Some_0;
    let w = choose|i: int|
        0 <= i < s.len() && spec_counts(#[trigger] s[i], Some(day), true) && s[i].temp_f == m;
    assert(spec_counts(s[w], Some(day), false));
}

fn extreme(samples: &Vec<ForecastSample>, day: Option<u32>, afternoon: bool, highest: bool) -> (r:
    Option<i32>)
    ensures
        r == spec_extreme(samples@, day, afternoon, highest),
{
    let n = samples.len();
    let mut best: Option<i32> = None;
    let mut i: usize = 0;
    while i < n
        invariant
            i <= n,
            n == samples@.len(),
            best == spec_extreme(samples@.take(i as int), day, afternoon, highest),
        decreases n - i,
    {
        let s = samples[i];
        proof {
            assert(samples@.take(i + 1).drop_last() =~= samples@.take(i as int));
            assert(samples@.take(i + 1).last() == s);
        }
        let on_day = match day {
            Some(d) => s.time.day == d,
            None => true,
        };
        if on_day && (!afternoon || s.time.hour > 12) {
            best = match best {
                None => Some(s.temp_f),
                Some(m) => Some(if (highest && s.temp_f > m) || (!highest && s.temp_f < m) {
                    s.temp_f
                } else {
                    m
                }),
            };
        }
        i += 1;
    }
    proof {
        assert(samples@.take(n as int) =~= samples@);
    }
    best
}

/// Low and high of one day of the month.
#[derive(Clone, Copy, Debug, PartialEq, Eq, Structural)]
pub struct DayTemps {
    pub day: u32,
    pub low: i32,
    pub high: i32,
}

/// What the first entry for `day` at or after `from` holds.
pub open spec fn spec_find(table: Seq<DayTemps>, from: int, day: u32) -> Option<(i32, i32)>
    decreases table.len() - from,
{
    if from < 0 || from >= table.len() {
        None
    } else if table[from].day == day {
        Some((table[from].low, table[from].high))
    } else {
        spec_find(table, from + 1, day)
    }
}

proof fn lemma_find(table: Seq<DayTemps>, from: int, day: u32)
    requires
        0 <= from,
    ensures
        match spec_find(table, from, day) {
            None => forall|j: int| from <= j < table.len() ==> (#[trigger] table[j]).day != day,
            Some(v) => exists|j: int|
                from <= j < table.len() && (#[trigger] table[j]).day == day && v == (
                    table[j].low,
                    table[j].high,
                ),
        },
    decreases table.len() - from,
{
    if from < table.len() && table[from].day != day {
        lemma_find(table, from + 1, day);
    }
}

fn find(table: &Vec<DayTemps>, day: u32) -> (r: Option<(i32, i32)>)
    ensures
        r == spec_find(table@, 0, day),
{
    let n = table.len();
    let mut j: usize = 0;
    while j < n
        invariant
            j <= n,
            n == table@.len(),
            spec_find(table@, 0, day) == spec_find(table@, j as int, day),
        decreases n - j,
    {
        if table[j].day == day {
            return Some((table[j].low, table[j].high));
        }
        j += 1;
    }
    None
}

/// A forecast series together with the table of its daily lows and highs.
/// The table is made once, when the value is made, and everything that
/// shows a day's temperatures reads it.
pub struct Forecast5Day {
    samples: Vec<ForecastSample>,
    daily: Vec<DayTemps>,
}

impl View for Forecast5Day {
    type V = Seq<ForecastSample>;

    closed spec fn view(&self) -> Seq<ForecastSample> {
        self.samples@
    }
}

impl Forecast5Day {
    #[verifier::type_invariant]
    closed spec fn inv(self) -> bool {
        forall|day: u32| spec_find(self.daily@, 0, day) == #[trigger] spec_daily(self.samples@, day)
    }

    /// The forecast for a series of samples.
    pub fn from_samples(samples: Vec<ForecastSample>) -> (f: Forecast5Day)
        ensures
            f@ == samples@,
    {
        let n = samples.len();
        let mut daily: Vec<DayTemps> = Vec::new();
        let mut i: usize = 0;
        while i < n
            invariant
                i <= n,
                n == samples@.len(),
                forall|j: int|
                    0 <= j < daily@.len() ==> spec_daily(samples@, (#[trigger] daily@[j]).day)
                        == Some((daily@[j].low, daily@[j].high)),
                forall|k: int|
                    0 <= k < i && spec_daily(samples@, (#[trigger] samples@[k]).time.day) is Some
                        ==> exists|j: int|
                        0 <= j < daily@.len() && (#[trigger] daily@[j]).day == samples@[k].time.day,
            decreases n - i,
        {
            let day = samples[i].time.day;
            let ghost before = daily@;
            if find(&daily, day).is_none() {
                let low = extreme(&samples, Some(day), true, false);
                let high = extreme(&samples, Some(day), false, true);
                match (low, high) {
                    (Some(low), Some(high)) => {
                        daily.push(DayTemps { day, low, high });
                        proof {
                            assert(daily@[before.len() as int].day == day);
                        }
                    },
                    _ => {},
                }
            } else {
                proof {
                    lemma_find(before, 0, day);
                }
            }
            proof {
                assert forall|k: int|
                    0 <= k < i + 1 && spec_daily(
                        samples@,
                        (#[trigger] samples@[k]).time.day,
                    ) is Some implies exists|j: int|
                    0 <= j < daily@.len() && (#[trigger] daily@[j]).day
                        == samples@[k].time.day by {
                    if k < i {
                        let j = choose|j: int|
                            0 <= j < before.len() && (#[trigger] before[j]).day
                                == samples@[k].time.day;
                        assert(daily@[j].day == samples@[k].time.day);
                    }
                }
            }
            i += 1;
        }
        proof {
            assert forall|day: u32|
                spec_find(daily@, 0, day) == #[trigger] spec_daily(samples@, day) by {
                lemma_find(daily@, 0, day);
                if spec_daily(samples@, day) is Some {
                    lemma_daily_has_sample(samples@, day);
                    let k = choose|k: int|
                        0 <= k < samples@.len() && (#[trigger] samples@[k]).time.day == day;
                    let j = choose|j: int|
                        0 <= j < daily@.len() && (#[trigger] daily@[j]).day == samples@[k].time.day;
                    assert(daily@[j].day == day);
                }
            }
        }
        Forecast5Day { samples, daily }
    }

    /// The forecast for an hourly forecast, averaged into samples.
    pub fn new(hourly: &Vec<ForecastPeriod>) -> (f: Forecast5Day)
        ensures
            f@ == spec_gather(hourly@),
    {
        Forecast5Day::from_samples(gather_5day_forecast(hourly))
    }

    /// The series that the graph shows.
    pub fn filtered_forecast(&self) -> (s: &Vec<ForecastSample>)
        ensures
            s@ == self@,
    {
        &self.samples
    }

    /// Low and high of a day of the month, from the table; `None` where the
    /// day has no sample after hour 12.
    pub fn daily_minmax_temps(&self, day: u32) -> (r: Option<(i32, i32)>)
        ensures
            r == spec_daily(self@, day),
    {
        proof {
            use_type_invariant(self);
        }
        find(&self.daily, day)
    }

    /// Lowest and highest temperature of the series.
    pub fn week_minmax_temps(&self) -> (r: Option<(i32, i32)>)
        ensures
            r == spec_week(self@),
    {
        let low = extreme(&self.samples, None, false, false);
        let high = extreme(&self.samples, None, false, true);
        match (low, high) {
            (Some(low), Some(high)) => Some((low, high)),
            _ => None,
        }
    }
}

} // verus!
