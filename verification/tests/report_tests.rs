use memreport::aggregate::aggregate;
use memreport::aggregate::bytes_to_mb;
use memreport::report::render_report;
use memreport::report::ReportError;
use memreport::stats::checked_sum;
use memreport::stats::compute_statistics;
use memreport::stats::mean;
use memreport::stats::std_deviation;
use memreport::stats::try_std_deviation;
use memreport::text::format_mb;
use memreport::text::i64_to_string;
use memreport::text::tier_of;
use memreport::text::Tier;
use memreport::ProcessSample;

const MB: i64 = 1048576;

fn sample(name: &str, bytes: i64) -> ProcessSample {
    ProcessSample { command_name: name.to_string(), resident_bytes: bytes }
}

#[test]
fn bytes_to_mb_truncates() {
    assert_eq!(bytes_to_mb(&0), 0);
    assert_eq!(bytes_to_mb(&(MB - 1)), 0);
    assert_eq!(bytes_to_mb(&MB), 1);
    assert_eq!(bytes_to_mb(&(10 * MB + MB / 2)), 10);
}

#[test]
fn mean_of_three_values() {
    let values = vec![10, 20, 30];
    assert_eq!(mean(&values), 20);
}

#[test]
fn mean_truncates() {
    let values = vec![1, 2];
    assert_eq!(mean(&values), 1);
}

#[test]
fn std_deviation_of_three_values() {
    // variance = floor((100 + 0 + 100) / 3) = 66, std-dev = floor(sqrt(66)) = 8
    let values = vec![10, 20, 30];
    assert_eq!(std_deviation(&values), 8);
}

#[test]
fn std_deviation_of_equal_values_is_zero() {
    let values = vec![7, 7, 7];
    assert_eq!(std_deviation(&values), 0);
}

#[test]
fn try_std_deviation_matches_std_deviation() {
    let values = vec![10, 20, 30];
    assert_eq!(try_std_deviation(&values), Some(8));
}

#[test]
fn try_std_deviation_detects_overflow() {
    // the two values are far enough apart that a squared difference from
    // the mean cannot fit in an i64
    let values = vec![1, 1 << 42];
    assert_eq!(try_std_deviation(&values), None);
}

#[test]
fn compute_statistics_combines_mean_and_std_deviation() {
    let stats = compute_statistics(&vec![10, 20, 30]).unwrap();
    assert_eq!(stats.mean, 20);
    assert_eq!(stats.standard_deviation, 8);
    assert!(compute_statistics(&vec![1, 1 << 42]).is_none());
}

#[test]
fn checked_sum_adds_and_detects_overflow() {
    assert_eq!(checked_sum(&vec![1, 2, 3]), Some(6));
    assert_eq!(checked_sum(&vec![i64::MAX, 1]), None);
}

#[test]
fn i64_to_string_renders_decimal() {
    assert_eq!(i64_to_string(0), "0");
    assert_eq!(i64_to_string(7), "7");
    assert_eq!(i64_to_string(12345), "12345");
    assert_eq!(i64_to_string(i64::MAX), "9223372036854775807");
}

#[test]
fn tiers_around_mean_and_stddev() {
    // mean 20, std-dev 8: ties go to the lower tier
    assert_eq!(tier_of(20, 20, 8), Tier::Normal);
    assert_eq!(tier_of(21, 20, 8), Tier::Elevated);
    assert_eq!(tier_of(28, 20, 8), Tier::Elevated);
    assert_eq!(tier_of(29, 20, 8), Tier::High);
    assert_eq!(tier_of(0, 20, 8), Tier::Normal);
}

#[test]
fn format_mb_normal_is_plain() {
    assert_eq!(format_mb(20, 20, 8), "20 MB");
}

#[test]
fn format_mb_elevated_is_yellow() {
    assert_eq!(format_mb(21, 20, 8), "\u{1b}[33m21 MB\u{1b}[0m");
}

#[test]
fn format_mb_high_is_red() {
    assert_eq!(format_mb(29, 20, 8), "\u{1b}[31m29 MB\u{1b}[0m");
}

#[test]
fn format_mb_agrees_with_ansi_term() {
    assert_eq!(format_mb(29, 20, 8), ansi_term::Colour::Red.paint("29 MB").to_string());
    assert_eq!(format_mb(28, 20, 8), ansi_term::Colour::Yellow.paint("28 MB").to_string());
}

#[test]
fn aggregate_sums_repeated_names() {
    let samples = vec![
        sample("a", 5 * MB),
        sample("b", 15 * MB),
        sample("a", 5 * MB),
    ];
    let mut entries: Vec<(String, i64)> = aggregate(&samples)
        .into_iter()
        .map(|e| (e.command_name, e.resident_megabytes))
        .collect();
    entries.sort();
    assert_eq!(entries, vec![("a".to_string(), 10), ("b".to_string(), 15)]);
}

#[test]
fn aggregate_floors_after_summing() {
    // two samples of 0.75 MB each: floor(1.5 MB) = 1, not 0 + 0
    let samples = vec![sample("a", 3 * MB / 4), sample("a", 3 * MB / 4)];
    let entries = aggregate(&samples);
    assert_eq!(entries.len(), 1);
    assert_eq!(entries[0].resident_megabytes, 1);
}

#[test]
fn aggregate_excludes_zero_rss() {
    let samples = vec![sample("a", 0)];
    let entries = aggregate(&samples);
    assert_eq!(entries.len(), 0);
}

#[test]
fn aggregate_zero_rss_does_not_disturb_totals() {
    let samples = vec![sample("a", 0), sample("a", 2 * MB), sample("b", 0)];
    let entries = aggregate(&samples);
    assert_eq!(entries.len(), 1);
    assert_eq!(entries[0].command_name, "a");
    assert_eq!(entries[0].resident_megabytes, 2);
}

#[test]
fn report_end_to_end() {
    let samples = vec![
        sample("a", 5 * MB),
        sample("b", 15 * MB),
        sample("a", 5 * MB),
    ];
    // aggregated {a: 10, b: 15}, mean 12, variance floor((4 + 9) / 2) = 6,
    // std-dev floor(sqrt(6)) = 2
    let lines = render_report(&samples).unwrap();
    assert_eq!(lines.len(), 5);
    assert_eq!(lines[0], "a: 10 MB");
    // 15 > 12 + 2, so the value is painted red
    assert_eq!(lines[1], "b: \u{1b}[31m15 MB\u{1b}[0m");
    assert_eq!(lines[2], "");
    assert_eq!(lines[3], "Mean: 12 MB std-dev: 2");
    assert_eq!(lines[4], "Total Memory Used: 25 MB");
}

#[test]
fn report_rows_sorted_ascending() {
    let samples = vec![
        sample("c", 3 * MB),
        sample("a", 1 * MB),
        sample("b", 2 * MB),
    ];
    // mean 2, variance floor((1 + 0 + 1) / 3) = 0, std-dev 0
    let lines = render_report(&samples).unwrap();
    assert_eq!(lines.len(), 6);
    assert_eq!(lines[0], "a: 1 MB");
    assert_eq!(lines[1], "b: 2 MB");
    assert_eq!(lines[2], "c: \u{1b}[31m3 MB\u{1b}[0m");
    assert_eq!(lines[3], "");
    assert_eq!(lines[4], "Mean: 2 MB std-dev: 0");
    assert_eq!(lines[5], "Total Memory Used: 6 MB");
}

#[test]
fn report_total_consistent_with_rows() {
    // per-name byte totals truncate before anything else: 1.5 MB becomes 1,
    // 2.5 MB becomes 2, and the printed total is 1 + 2 = 3, not floor(4.0)
    let samples = vec![sample("x", 3 * MB / 2), sample("y", 5 * MB / 2)];
    let lines = render_report(&samples).unwrap();
    assert_eq!(lines.len(), 5);
    assert_eq!(lines[0], "x: 1 MB");
    // 2 > 1 + 0, so y is painted red
    assert_eq!(lines[1], "y: \u{1b}[31m2 MB\u{1b}[0m");
    assert_eq!(lines[3], "Mean: 1 MB std-dev: 0");
    assert_eq!(lines[4], "Total Memory Used: 3 MB");
}

#[test]
fn report_of_empty_input_is_an_error() {
    let samples: Vec<ProcessSample> = Vec::new();
    assert_eq!(render_report(&samples), Err(ReportError::EmptyPopulation));
}

#[test]
fn report_of_only_zero_rss_is_an_error() {
    let samples = vec![sample("a", 0), sample("b", 0)];
    assert_eq!(render_report(&samples), Err(ReportError::EmptyPopulation));
}

#[test]
fn report_statistics_overflow_is_an_error() {
    let samples = vec![sample("big", 1 << 62), sample("small", MB)];
    assert_eq!(render_report(&samples), Err(ReportError::StatisticsOverflow));
}
