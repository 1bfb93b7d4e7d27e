use ln_routing_replay::report::{results_complete, totals_can_be_counted, ReportRow};
use ln_routing_replay::simulation::{do_setup, State, CATEGORIES};

fn state(result_count: [u64; 8]) -> State {
    State { network: do_setup().network, result_count }
}

fn check(
    row: &ReportRow,
    name: &str,
    failure: (&[usize], u64),
    success: (&[usize], u64),
) {
    assert_eq!(row.name, name);
    assert_eq!((&row.failure_categories[..], row.failure_count), failure);
    assert_eq!((&row.success_categories[..], row.success_count), success);
}

#[test]
fn each_model_is_reported_by_data_and_in_total() {
    let reports = results_complete(state([1, 2, 4, 8, 16, 32, 64, 128]));
    assert_eq!(reports.len(), 2);
    let historical = &reports[0];
    assert_eq!(historical.by_data.len(), 2);
    check(
        &historical.by_data[0],
        "Historical Model  (w/ some channel hist)",
        (&[0], 1),
        (&[1], 2),
    );
    check(
        &historical.by_data[1],
        "Historical Model  (w/ insufficient data)",
        (&[2], 4),
        (&[3], 8),
    );
    check(&historical.total, "Historical Model ", (&[0, 2], 5), (&[1, 3], 10));
    let live = &reports[1];
    assert_eq!(live.by_data.len(), 2);
    check(&live.by_data[0], "Live Bounds Model (w/ some channel hist)", (&[4], 16), (&[5], 32));
    check(&live.by_data[1], "Live Bounds Model (w/ insufficient data)", (&[6], 64), (&[7], 128));
    check(&live.total, "Live Bounds Model", (&[4, 6], 80), (&[5, 7], 160));
}

#[test]
fn the_total_of_a_model_adds_its_rows_up() {
    for report in results_complete(state([9, 8, 7, 6, 5, 4, 3, 2])) {
        let (with, without) = (&report.by_data[0], &report.by_data[1]);
        assert_eq!(report.total.failure_count, with.failure_count + without.failure_count);
        assert_eq!(report.total.success_count, with.success_count + without.success_count);
    }
}

#[test]
fn every_category_stands_in_one_row() {
    let mut seen = [0; CATEGORIES];
    for report in results_complete(state([0; 8])) {
        for row in &report.by_data {
            for category in row.failure_categories.iter().chain(&row.success_categories) {
                seen[*category] += 1;
            }
        }
    }
    assert_eq!(seen, [1; CATEGORIES]);
}

#[test]
fn balanced_counts_give_both_models_the_same_totals() {
    let reports = results_complete(state([1, 2, 4, 8, 3, 5, 2, 5]));
    assert_eq!(reports[0].total.failure_count, reports[1].total.failure_count);
    assert_eq!(reports[0].total.success_count, reports[1].total.success_count);
}

#[test]
fn counts_that_are_too_large_are_told() {
    assert!(totals_can_be_counted(&[0; 8]));
    assert!(totals_can_be_counted(&[u64::MAX, u64::MAX, 0, 0, u64::MAX, u64::MAX, 0, 0]));
    for category in 0..4 {
        let mut counts = [0; 8];
        let low = [0, 1, 4, 5][category];
        counts[low] = u64::MAX;
        counts[low + 2] = 1;
        assert!(!totals_can_be_counted(&counts));
    }
}

#[test]
fn the_rows_of_a_model_depend_on_its_own_categories() {
    let a = results_complete(state([1, 2, 3, 4, 5, 6, 7, 8]));
    let b = results_complete(state([1, 2, 3, 4, 50, 60, 70, 80]));
    let c = results_complete(state([10, 20, 30, 40, 5, 6, 7, 8]));
    assert_eq!(format!("{:?}", a[0]), format!("{:?}", b[0]));
    assert_eq!(format!("{:?}", a[1]), format!("{:?}", c[1]));
}
