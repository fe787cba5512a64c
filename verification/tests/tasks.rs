use halldisplay::{date_label, sorted_order, Date, Task};

fn date(year: i32, month: u32, day: u32) -> Date {
    let d = chrono::NaiveDate::from_ymd_opt(year, month, day).unwrap();
    Date { day_number: chrono::Datelike::num_days_from_ce(&d), month, day }
}

fn task(due: Date, description: &str) -> Task {
    Task { due_date: due, description: description.to_string() }
}

#[test]
fn due_dates_relative_to_today() {
    let today = date(2023, 5, 20);
    assert_eq!(date_label(date(2023, 5, 19), today), "yesterday");
    assert_eq!(date_label(date(2023, 5, 20), today), "today");
    assert_eq!(date_label(date(2023, 5, 21), today), "tomorrow");
    assert_eq!(date_label(date(2023, 5, 25), today), "5/25");
}

#[test]
fn any_earlier_date_reads_yesterday() {
    let today = date(2023, 5, 20);
    assert_eq!(date_label(date(2023, 1, 1), today), "yesterday");
    assert_eq!(date_label(date(2022, 12, 31), today), "yesterday");
}

#[test]
fn tomorrow_across_month_and_year() {
    assert_eq!(date_label(date(2023, 6, 1), date(2023, 5, 31)), "tomorrow");
    assert_eq!(date_label(date(2024, 1, 1), date(2023, 12, 31)), "tomorrow");
    assert_eq!(date_label(date(2024, 2, 29), date(2024, 2, 28)), "tomorrow");
    assert_eq!(date_label(date(2024, 3, 1), date(2024, 2, 28)), "3/1");
    assert_eq!(date_label(date(2024, 12, 31), date(2024, 2, 28)), "12/31");
}

#[test]
fn day_number_limits() {
    let last = Date { day_number: i32::MAX, month: 10, day: 9 };
    let first = Date { day_number: i32::MIN, month: 1, day: 2 };
    assert_eq!(date_label(last, last), "today");
    assert_eq!(date_label(first, last), "yesterday");
    assert_eq!(date_label(last, first), "10/9");
}

#[test]
fn tasks_are_shown_by_due_date() {
    let tasks = vec![
        task(date(2023, 5, 20), "test task"),
        task(date(2023, 5, 19), "task 2"),
        task(date(2023, 5, 21), "task 3"),
    ];
    assert_eq!(sorted_order(&tasks), vec![1, 0, 2]);
}

#[test]
fn tasks_due_on_the_same_day_keep_their_order() {
    let d = date(2023, 5, 20);
    let e = date(2023, 5, 19);
    let tasks = vec![task(d, "a"), task(e, "b"), task(d, "c"), task(e, "d"), task(d, "e")];
    assert_eq!(sorted_order(&tasks), vec![1, 3, 0, 2, 4]);
    assert_eq!(sorted_order(&vec![]), vec![]);
}
