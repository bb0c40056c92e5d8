use gh_summary::order::{sort_urls, str_leq};
use gh_summary::report::{activity_header, compact_line, pad_label, rule_line, user_line, verbose_lines};
use gh_summary::text::{chars_to_string, fmt_i64, fmt_usize, str_chars, trim_str};

#[test]
fn lexicographic_comparison() {
    assert!(str_leq("abc", "abd"));
    assert!(str_leq("abc", "abc"));
    assert!(str_leq("ab", "abc"));
    assert!(!str_leq("abd", "abc"));
    assert!(!str_leq("b", "azzz"));
    assert!(str_leq("", "a"));
}

#[test]
fn sorting_is_lexicographic() {
    let urls = vec![
        String::from("https://github.com/z/last/pull/1"),
        String::from("https://github.com/a/first/pull/2"),
        String::from("https://github.com/m/middle/pull/3"),
    ];
    let sorted = sort_urls(&urls);
    assert_eq!(
        sorted,
        vec![
            String::from("https://github.com/a/first/pull/2"),
            String::from("https://github.com/m/middle/pull/3"),
            String::from("https://github.com/z/last/pull/1"),
        ]
    );
}

#[test]
fn sorting_ignores_input_order() {
    let a = vec![
        String::from("https://github.com/x/one/pull/1"),
        String::from("https://github.com/y/two/pull/2"),
        String::from("https://github.com/w/nil/pull/3"),
    ];
    let mut b = a.clone();
    b.reverse();
    assert_eq!(sort_urls(&a), sort_urls(&b));
}

#[test]
fn sorting_keeps_duplicates() {
    let urls = vec![
        String::from("https://github.com/a/a/pull/1"),
        String::from("https://github.com/a/a/pull/1"),
    ];
    let sorted = sort_urls(&urls);
    assert_eq!(sorted.len(), 2);
    assert_eq!(sorted[0], sorted[1]);
}

#[test]
fn labels_are_padded_to_nineteen_columns() {
    assert_eq!(pad_label("PRs opened:"), String::from("PRs opened:        "));
    assert_eq!(pad_label(""), String::from("                   "));
    assert_eq!(
        pad_label("a label longer than nineteen"),
        String::from("a label longer than nineteen")
    );
}

#[test]
fn decimal_formatting() {
    assert_eq!(fmt_usize(0), String::from("0"));
    assert_eq!(fmt_usize(7), String::from("7"));
    assert_eq!(fmt_usize(12345), String::from("12345"));
    assert_eq!(fmt_i64(-45), String::from("-45"));
    assert_eq!(fmt_i64(0), String::from("0"));
    assert_eq!(fmt_i64(1000000), String::from("1000000"));
    assert_eq!(fmt_i64(i64::MIN), String::from("-9223372036854775808"));
    assert_eq!(fmt_i64(i64::MAX), String::from("9223372036854775807"));
}

#[test]
fn compact_line_reports_counts_and_repositories() {
    let urls = vec![
        String::from("https://github.com/acme/widgets/pull/1"),
        String::from("https://github.com/acme/widgets/pull/2"),
        String::from("https://github.com/acme/tools/issues/5"),
    ];
    let line = compact_line("PRs opened:", &urls);
    assert_eq!(line, String::from("PRs opened:        3 across 2 repositories"));
}

#[test]
fn compact_line_uses_singular_for_one_repository() {
    let urls = vec![String::from("https://github.com/acme/widgets/pull/1")];
    let line = compact_line("PRs opened:", &urls);
    assert_eq!(line, String::from("PRs opened:        1 across 1 repository"));
}

#[test]
fn compact_line_counts_malformed_urls_in_the_total_only() {
    let urls = vec![
        String::from("https://github.com/acme/widgets/pull/1"),
        String::from("nonsense"),
    ];
    let line = compact_line("PRs opened:", &urls);
    assert_eq!(line, String::from("PRs opened:        2 across 1 repository"));
}

#[test]
fn verbose_lines_hold_count_and_sorted_bullets() {
    let urls = vec![
        String::from("https://github.com/acme/widgets/pull/2"),
        String::from("https://github.com/acme/tools/issues/5"),
        String::from("https://github.com/acme/widgets/pull/1"),
    ];
    let lines = verbose_lines("PRs opened:", &urls);
    assert_eq!(
        lines,
        vec![
            String::from("PRs opened:        3"),
            String::from("  - https://github.com/acme/tools/issues/5"),
            String::from("  - https://github.com/acme/widgets/pull/1"),
            String::from("  - https://github.com/acme/widgets/pull/2"),
        ]
    );
}

#[test]
fn verbose_lines_for_empty_category_is_header_alone() {
    let urls: Vec<String> = Vec::new();
    let lines = verbose_lines("Issues opened:", &urls);
    assert_eq!(lines, vec![String::from("Issues opened:     0")]);
}

#[test]
fn verbose_lines_ignore_input_order() {
    let a = vec![
        String::from("https://github.com/p/q/pull/1"),
        String::from("https://github.com/p/q/pull/2"),
    ];
    let b = vec![
        String::from("https://github.com/p/q/pull/2"),
        String::from("https://github.com/p/q/pull/1"),
    ];
    assert_eq!(verbose_lines("x:", &a), verbose_lines("x:", &b));
}

#[test]
fn report_frame_lines() {
    assert_eq!(rule_line(), "=".repeat(50));
    assert_eq!(user_line("alice"), String::from("GitHub User: alice"));
    assert_eq!(
        activity_header("2024-05-01"),
        String::from("GitHub Activity since 2024-05-01:")
    );
}

#[test]
fn characters_round_trip_through_vectors() {
    let s = "h\u{e9}llo \u{1F600} world";
    let chars = str_chars(s);
    assert_eq!(chars.len(), 13);
    assert_eq!(chars_to_string(&chars), String::from(s));
}

#[test]
fn trimming_strips_surrounding_white_space_only() {
    assert_eq!(trim_str("  a b  "), String::from("a b"));
    assert_eq!(trim_str("\t\r\n"), String::from(""));
    assert_eq!(trim_str(""), String::from(""));
    assert_eq!(trim_str("x"), String::from("x"));
}
