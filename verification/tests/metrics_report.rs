use gh_summary::data::CodeMetrics;
use gh_summary::metrics::{
    mock_metrics, total_additions, total_changed_files, total_deletions,
};
use gh_summary::report::{code_metrics_line, summary_lines};

fn triple(additions: i32, deletions: i32, changed_files: i32) -> CodeMetrics {
    CodeMetrics { additions, deletions, changed_files }
}

#[test]
fn totals_sum_every_entry() {
    let metrics = vec![triple(10, 3, 2), triple(5, 1, 1), triple(0, 7, 4)];
    assert_eq!(total_additions(&metrics), 15);
    assert_eq!(total_deletions(&metrics), 11);
    assert_eq!(total_changed_files(&metrics), 7);
}

#[test]
fn totals_of_empty_listing_are_zero() {
    let metrics: Vec<CodeMetrics> = Vec::new();
    assert_eq!(total_additions(&metrics), 0);
    assert_eq!(total_deletions(&metrics), 0);
    assert_eq!(total_changed_files(&metrics), 0);
}

#[test]
fn totals_ignore_entry_order() {
    let a = vec![triple(10, 3, 2), triple(5, 1, 1), triple(0, 7, 4)];
    let mut b = a.clone();
    b.reverse();
    assert_eq!(total_additions(&a), total_additions(&b));
    assert_eq!(total_deletions(&a), total_deletions(&b));
    assert_eq!(total_changed_files(&a), total_changed_files(&b));
}

#[test]
fn totals_agree_with_summing_parts() {
    let first = vec![triple(10, 3, 2)];
    let second = vec![triple(5, 1, 1), triple(2, 2, 2)];
    let mut whole = first.clone();
    whole.extend(second.clone());
    assert_eq!(
        total_additions(&whole),
        total_additions(&first) + total_additions(&second)
    );
    assert_eq!(
        total_deletions(&whole),
        total_deletions(&first) + total_deletions(&second)
    );
    assert_eq!(
        total_changed_files(&whole),
        total_changed_files(&first) + total_changed_files(&second)
    );
}

#[test]
fn mock_metrics_follow_the_position_formula() {
    let m0 = mock_metrics(0);
    assert_eq!(m0.additions, 50);
    assert_eq!(m0.deletions, 20);
    assert_eq!(m0.changed_files, 3);

    let m7 = mock_metrics(7);
    assert_eq!(m7.additions, 211);
    assert_eq!(m7.deletions, 69);
    assert_eq!(m7.changed_files, 5);

    let m5 = mock_metrics(5);
    assert_eq!(m5.changed_files, 3);
}

#[test]
fn code_metrics_line_holds_the_three_totals() {
    let metrics = vec![triple(50, 20, 3), triple(73, 27, 4)];
    let line = code_metrics_line("  Code changes:", &metrics);
    assert_eq!(
        line,
        String::from("  Code changes:    + 123  - 47  files: 7")
    );
}

#[test]
fn summary_labels_positive_net_with_a_plus() {
    let metrics = vec![triple(10, 3, 2)];
    let lines = summary_lines(&metrics);
    assert_eq!(
        lines,
        vec![
            String::from("Total lines added:   10"),
            String::from("Total lines deleted: 3"),
            String::from("Total files changed: 2"),
            String::from("Net contribution:    + 7"),
        ]
    );
}

#[test]
fn summary_labels_balanced_net_as_cleanup() {
    let metrics = vec![triple(5, 5, 1)];
    let lines = summary_lines(&metrics);
    assert_eq!(
        lines[3],
        String::from("Net contribution:    0 (cleanup/refactoring)")
    );
}

#[test]
fn summary_labels_negative_net_as_cleanup() {
    let metrics = vec![triple(3, 10, 1)];
    let lines = summary_lines(&metrics);
    assert_eq!(
        lines[3],
        String::from("Net contribution:    -7 (cleanup/refactoring)")
    );
}

#[test]
fn one_line_above_balance_is_positive() {
    let metrics = vec![triple(6, 5, 1)];
    let lines = summary_lines(&metrics);
    assert_eq!(lines[3], String::from("Net contribution:    + 1"));
}
