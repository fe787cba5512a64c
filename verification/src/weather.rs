//! Weather records: the current conditions, the hourly forecast and the
//! series of averaged samples that the graph shows.
use vstd::prelude::*;

verus! {

/// The conditions at the time of rendering.
#[derive(Debug)]
pub struct CurrentWeather {
    pub description: String,
    pub temp_f: i32,
    pub rain_in: u32,
}

#[derive(Clone, Copy, Debug, PartialEq, Eq, Structural)]
pub enum Weekday {
    Mon,
    Tue,
    Wed,
    Thu,
    Fri,
    Sat,
    Sun,
}

impl Weekday {
    /// The first letter of the weekday's English name.
    pub open spec fn spec_initial(self) -> char {
        match self {
            Weekday::Mon => 'M',
            Weekday::Tue => 'T',
            Weekday::Wed => 'W',
            Weekday::Thu => 'T',
            Weekday::Fri => 'F',
            Weekday::Sat => 'S',
            Weekday::Sun => 'S',
        }
    }
}

/// A point in time as the forecast states it: the seconds since the Unix
/// epoch, and the calendar fields that it has in the forecast's own UTC
/// offset.
#[derive(Clone, Copy, Debug, PartialEq, Eq, Structural)]
pub struct Timestamp {
    pub epoch_secs: i64,
    /// Day of the month, 1 to 31.
    pub day: u32,
    /// Hour of the day, 0 to 23.
    pub hour: u32,
    pub weekday: Weekday,
}

/// One period of the hourly forecast.
#[derive(Debug)]
pub struct ForecastPeriod {
    pub period_name: Option<String>,
    pub start_time: Timestamp,
    pub end_time: Timestamp,
    pub temp_f: i32,
    /// Percentage out of 100.
    pub rain_prob: u64,
    pub wind_speed: u64,
    pub short_desc: String,
    pub long_desc: Option<String>,
}

/// One sample of the series that the graph shows: the start of a span of
/// hours with the mean temperature and the mean chance of rain in it.
#[derive(Clone, Copy, Debug, PartialEq, Eq, Structural)]
pub struct ForecastSample {
    pub time: Timestamp,
    pub temp_f: i32,
    pub rain_prob: u64,
}

/// Hours that one sample averages.
pub const SPAN: usize = 4;

/// Seconds from the first sample within which a sample is kept: five days.
pub const HORIZON_SECS: i64 = 432000;

/// Sum of the temperatures of the periods `from .. to`.
pub open spec fn spec_temp_sum(p: Seq<ForecastPeriod>, from: int, to: int) -> int
    decreases to - from,
{
    if to <= from {
        0
    } else {
        spec_temp_sum(p, from, to - 1) + p[to - 1].temp_f
    }
}

/// Sum of the chances of rain of the periods `from .. to`.
pub open spec fn spec_rain_sum(p: Seq<ForecastPeriod>, from: int, to: int) -> int
    decreases to - from,
{
    if to <= from {
        0
    } else {
        spec_rain_sum(p, from, to - 1) + p[to - 1].rain_prob
    }
}

/// The quotient of `a` by a positive `b`, rounded towards zero.
pub open spec fn spec_div_to_zero(a: int, b: int) -> int {
    if a >= 0 {
        a / b
    } else {
        -((-a) / b)
    }
}

/// The sample for the `k`-th span of four periods; the last span may be
/// shorter. It starts where its first period starts and holds the means of
/// the span, both rounded towards zero.
pub open spec fn spec_span_sample(p: Seq<ForecastPeriod>, k: int) -> ForecastSample {
    let from = SPAN * k;
    let to = if from + SPAN <= p.len() {
        from + SPAN
    } else {
        p.len() as int
    };
    ForecastSample {
        time: p[from].start_time,
        temp_f: spec_div_to_zero(spec_temp_sum(p, from, to), to - from) as i32,
        rain_prob: (spec_rain_sum(p, from, to) / (to - from)) as u64,
    }
}

/// The samples of all spans, before any is dropped.
pub open spec fn spec_span_samples(p: Seq<ForecastPeriod>) -> Seq<ForecastSample> {
    Seq::new(((p.len() + SPAN - 1) / (SPAN as int)) as nat, |k: int| spec_span_sample(p, k))
}

/// Whether a sample starts less than five days after `start`.
pub open spec fn spec_in_horizon(start: Timestamp, s: ForecastSample) -> bool {
    s.time.epoch_secs - start.epoch_secs < HORIZON_SECS
}

/// The series for an hourly forecast: one sample for every four periods,
/// those left out that start five days or more after the first.
pub open spec fn spec_gather(p: Seq<ForecastPeriod>) -> Seq<ForecastSample> {
    let all = spec_span_samples(p);
    all.filter(|s: ForecastSample| spec_in_horizon(all[0].time, s))
}

proof fn lemma_sums_bounded(p: Seq<ForecastPeriod>, from: int, to: int)
    requires
        0 <= from <= to <= p.len(),
    ensures
        (to - from) * i32::MIN <= spec_temp_sum(p, from, to) <= (to - from) * i32::MAX,
        0 <= spec_rain_sum(p, from, to) <= (to - from) * u64::MAX,
    decreases to - from,
{
    if from < to {
        lemma_sums_bounded(p, from, to - 1);
    }
}

fn span_sample(hourly: &Vec<ForecastPeriod>, k: usize) -> (s: ForecastSample)
    requires
        SPAN * k < hourly@.len(),
    ensures
        s == spec_span_sample(hourly@, k as int),
{
    let n = hourly.len();
    let from: usize = SPAN * k;
    let to: usize = if n - from >= SPAN { from + SPAN } else { n };
    let mut temps: i64 = 0;
    let mut rains: u128 = 0;
    let mut j: usize = from;
    while j < to
        invariant
            from <= j <= to <= n,
            to - from <= SPAN,
            n == hourly@.len(),
            temps == spec_temp_sum(hourly@, from as int, j as int),
            rains == spec_rain_sum(hourly@, from as int, j as int),
        decreases to - j,
    {
        proof {
            lemma_sums_bounded(hourly@, from as int, j as int);
        }
        temps = temps + hourly[j].temp_f as i64;
        rains = rains + hourly[j].rain_prob as u128;
        j += 1;
    }
    proof {
        lemma_sums_bounded(hourly@, from as int, to as int);
    }
    let len = to - from;
    let temp: i64 = temps / (len as i64);
    let rain: u128 = rains / (len as u128);
    ForecastSample { time: hourly[from].start_time, temp_f: temp as i32, rain_prob: rain as u64 }
}

/// Averages an hourly forecast into the series that the graph shows; see
/// [`spec_gather`]. An empty forecast gives an empty series.
pub fn gather_5day_forecast(hourly: &Vec<ForecastPeriod>) -> (out: Vec<ForecastSample>)
    ensures
        out@ == spec_gather(hourly@),
{
    let n = hourly.len();
    let count: usize = n / SPAN + if n % SPAN != 0 { 1usize } else { 0usize };
    let ghost all = spec_span_samples(hourly@);
    let mut spans: Vec<ForecastSample> = Vec::new();
    let mut k: usize = 0;
    while k < count
        invariant
            k <= count,
            n == hourly@.len(),
            count == (n + SPAN - 1) / (SPAN as int),
            all == spec_span_samples(hourly@),
            spans@ == all.take(k as int),
        decreases count - k,
    {
        let s = span_sample(hourly, k);
        spans.push(s);
        proof {
            assert(spans@ =~= all.take(k + 1));
        }
        k += 1;
    }
    proof {
        assert(spans@ =~= all);
    }
    let mut out: Vec<ForecastSample> = Vec::new();
    if count == 0 {
        proof {
            assert(all.filter(|s: ForecastSample| spec_in_horizon(all[0].time, s)) =~= Seq::<
                ForecastSample,
            >::empty());
        }
        return out;
    }
    let start = spans[0].time;
    let ghost keep = |s: ForecastSample| spec_in_horizon(all[0].time, s);
    let mut i: usize = 0;
    while i < count
        invariant
            i <= count,
            count == all.len(),
            spans@ == all,
            start == all[0].time,
            keep == (|s: ForecastSample| spec_in_horizon(all[0].time, s)),
            out@ == all.take(i as int).filter(keep),
        decreases count - i,
    {
        let s = spans[i];
        proof {
            assert(all.take(i + 1) =~= all.take(i as int).push(s));
            all.take(i as int).lemma_filter_push(s, keep);
        }
        if (s.time.epoch_secs as i128) - (start.epoch_secs as i128) < HORIZON_SECS as i128 {
            out.push(s);
        }
        i += 1;
    }
    proof {
        assert(all.take(count as int) =~= all);
    }
    out
}

} // verus!
