use latency_channels::stats::largest_delay;
use latency_channels::stats::sort_delays;
use latency_channels::stats::summarize;
use latency_channels::stats::total_delay;
use latency_channels::stats::DelayReport;

#[test]
fn summarize_sorts_and_reports() {
    let mut delays: Vec<u128> = vec![7, 1, 9, 3, 3];
    let report = summarize(&mut delays);
    assert_eq!(delays, vec![1, 3, 3, 7, 9]);
    assert_eq!(report, DelayReport { max: 9, average: 4, median: 3 });
}

#[test]
fn summarize_even_length_takes_upper_middle() {
    let mut delays: Vec<u128> = vec![40, 10, 30, 20];
    let report = summarize(&mut delays);
    assert_eq!(report.median, 30);
    assert_eq!(report.average, 25);
    assert_eq!(report.max, 40);
}

#[test]
fn summarize_truncates_average() {
    let mut delays: Vec<u128> = vec![1, 2];
    let report = summarize(&mut delays);
    assert_eq!(report, DelayReport { max: 2, average: 1, median: 2 });
}

#[test]
fn summarize_single_delay() {
    let mut delays: Vec<u128> = vec![12];
    assert_eq!(summarize(&mut delays), DelayReport { max: 12, average: 12, median: 12 });
}

#[test]
fn report_ignores_arrival_order() {
    let mut a: Vec<u128> = vec![5, 0, 8, 8, 2, 11];
    let mut b: Vec<u128> = vec![11, 8, 2, 0, 8, 5];
    assert_eq!(summarize(&mut a), summarize(&mut b));
    assert_eq!(a, b);
}

#[test]
fn report_bounds_hold() {
    let mut delays: Vec<u128> = vec![100, 3, 4, 5, 6];
    let report = summarize(&mut delays);
    let smallest = delays[0];
    assert!(smallest <= report.median && report.median <= report.max);
    assert!(smallest <= report.average && report.average <= report.max);
    assert_eq!(report.max, *delays.last().unwrap());
}

#[test]
fn total_delay_sums_or_overflows() {
    assert_eq!(total_delay(&vec![]), Some(0));
    assert_eq!(total_delay(&vec![1, 2, 3]), Some(6));
    assert_eq!(total_delay(&vec![u128::MAX, 0]), Some(u128::MAX));
    assert_eq!(total_delay(&vec![u128::MAX, 1]), None);
}

#[test]
fn largest_delay_of_empty_and_nonempty() {
    assert_eq!(largest_delay(&vec![]), None);
    assert_eq!(largest_delay(&vec![4, 17, 2]), Some(17));
    assert_eq!(largest_delay(&vec![0]), Some(0));
}

#[test]
fn sort_delays_orders_with_duplicates() {
    let mut delays: Vec<u128> = vec![3, 1, 2, 1, 0, 3];
    sort_delays(&mut delays);
    assert_eq!(delays, vec![0, 1, 1, 2, 3, 3]);
    let mut empty: Vec<u128> = vec![];
    sort_delays(&mut empty);
    assert!(empty.is_empty());
}
