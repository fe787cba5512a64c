use halldisplay::{
    gather_5day_forecast, Forecast5Day, ForecastPeriod, ForecastSample, Timestamp, Weekday,
};

fn at(day: u32, hour: u32) -> Timestamp {
    Timestamp {
        epoch_secs: (day as i64) * 86400 + (hour as i64) * 3600,
        day,
        hour,
        weekday: Weekday::Mon,
    }
}

fn sample(day: u32, hour: u32, temp_f: i32) -> ForecastSample {
    ForecastSample { time: at(day, hour), temp_f, rain_prob: 0 }
}

fn period(day: u32, hour: u32, temp_f: i32, rain_prob: u64) -> ForecastPeriod {
    ForecastPeriod {
        period_name: None,
        start_time: at(day, hour),
        end_time: at(day, hour + 1),
        temp_f,
        rain_prob,
        wind_speed: 0,
        short_desc: String::new(),
        long_desc: None,
    }
}

#[test]
fn high_counts_all_samples_low_only_the_afternoon() {
    let f = Forecast5Day::from_samples(vec![
        sample(19, 3, 30),
        sample(19, 9, 80),
        sample(19, 12, 20),
        sample(19, 13, 55),
        sample(19, 21, 60),
        sample(20, 0, 10),
    ]);
    // hour 12 itself does not count for the low, hour 13 does
    assert_eq!(f.daily_minmax_temps(19), Some((55, 80)));
}

#[test]
fn day_without_an_afternoon_sample_has_no_entry() {
    let f = Forecast5Day::from_samples(vec![sample(19, 13, 50), sample(20, 0, 10), sample(20, 12, 90)]);
    assert_eq!(f.daily_minmax_temps(19), Some((50, 50)));
    assert_eq!(f.daily_minmax_temps(20), None);
    assert_eq!(f.daily_minmax_temps(21), None);
}

#[test]
fn days_are_told_apart_by_day_of_month() {
    let f = Forecast5Day::from_samples(vec![
        sample(1, 15, 40),
        sample(2, 15, 50),
        sample(1, 18, 70),
        sample(2, 18, 45),
    ]);
    assert_eq!(f.daily_minmax_temps(1), Some((40, 70)));
    assert_eq!(f.daily_minmax_temps(2), Some((45, 50)));
}

#[test]
fn week_low_and_high() {
    let f = Forecast5Day::from_samples(vec![sample(1, 0, 50), sample(1, 3, 60), sample(1, 6, 40)]);
    assert_eq!(f.week_minmax_temps(), Some((40, 60)));
    assert_eq!(Forecast5Day::from_samples(vec![sample(1, 0, -7)]).week_minmax_temps(), Some((-7, -7)));
    assert_eq!(Forecast5Day::from_samples(vec![]).week_minmax_temps(), None);
}

#[test]
fn forecast_keeps_its_series() {
    let samples = vec![sample(1, 0, 50), sample(1, 3, 60)];
    let f = Forecast5Day::from_samples(samples.clone());
    assert_eq!(f.filtered_forecast(), &samples);
}

#[test]
fn gather_averages_spans_of_four() {
    let hourly = vec![
        period(1, 0, 10, 0),
        period(1, 1, 20, 10),
        period(1, 2, 30, 20),
        period(1, 3, 41, 33),
        period(1, 4, 50, 100),
        period(1, 5, 51, 99),
    ];
    let got = gather_5day_forecast(&hourly);
    assert_eq!(
        got,
        vec![
            ForecastSample { time: at(1, 0), temp_f: 25, rain_prob: 15 },
            ForecastSample { time: at(1, 4), temp_f: 50, rain_prob: 99 },
        ]
    );
}

#[test]
fn gather_rounds_means_towards_zero() {
    let hourly = vec![period(1, 0, -1, 0), period(1, 1, -2, 0), period(1, 2, -2, 0), period(1, 3, -2, 0)];
    assert_eq!(gather_5day_forecast(&hourly)[0].temp_f, -1);
}

#[test]
fn gather_does_not_overflow() {
    let hourly = vec![
        period(1, 0, i32::MAX, u64::MAX),
        period(1, 1, i32::MAX, u64::MAX),
        period(1, 2, i32::MAX, u64::MAX),
        period(1, 3, i32::MAX, u64::MAX),
        period(1, 4, i32::MIN, 0),
        period(1, 5, i32::MIN, 0),
    ];
    let got = gather_5day_forecast(&hourly);
    assert_eq!(got[0].temp_f, i32::MAX);
    assert_eq!(got[0].rain_prob, u64::MAX);
    assert_eq!(got[1].temp_f, i32::MIN);
}

#[test]
fn gather_drops_what_starts_five_days_after_the_first() {
    let mut hourly = Vec::new();
    for h in 0..(6 * 24) {
        hourly.push(period(1 + h / 24, h % 24, 50, 0));
    }
    let got = gather_5day_forecast(&hourly);
    assert_eq!(got.len(), 5 * 6);
    assert_eq!(got[0].time, at(1, 0));
    assert_eq!(got[29].time, at(5, 20));
    let exactly = vec![period(1, 0, 1, 0), period(1, 1, 1, 0), period(1, 2, 1, 0), period(1, 3, 1, 0), period(6, 0, 2, 0)];
    assert_eq!(gather_5day_forecast(&exactly).len(), 1);
    let mut just_before = period(5, 23, 2, 0);
    just_before.start_time.epoch_secs = 86400 + 432000 - 1;
    let kept = vec![period(1, 0, 1, 0), period(1, 1, 1, 0), period(1, 2, 1, 0), period(1, 3, 1, 0), just_before];
    assert_eq!(gather_5day_forecast(&kept).len(), 2);
}

#[test]
fn gather_of_nothing_is_nothing() {
    assert_eq!(gather_5day_forecast(&vec![]), vec![]);
    assert_eq!(Forecast5Day::new(&vec![]).filtered_forecast().len(), 0);
}

#[test]
fn forecast_from_hourly_periods() {
    let mut hourly = Vec::new();
    for h in 0..48 {
        hourly.push(period(1 + h / 24, h % 24, h as i32, 0));
    }
    let f = Forecast5Day::new(&hourly);
    assert_eq!(f.filtered_forecast().len(), 12);
    // day 1: means 1, 5, 9, 13, 17, 21 at hours 0, 4, ..., 20
    assert_eq!(f.daily_minmax_temps(1), Some((17, 21)));
    assert_eq!(f.daily_minmax_temps(2), Some((41, 45)));
    assert_eq!(f.week_minmax_temps(), Some((1, 45)));
}
