use gh_summary::repo::{count_distinct_repos, extract_repo};

#[test]
fn extracts_owner_and_repo_from_github_url() {
    let r = extract_repo("https://github.com/octo/widgets/pull/17");
    assert_eq!(r, Some(String::from("octo/widgets")));
}

#[test]
fn extracts_from_minimal_five_segment_url() {
    let r = extract_repo("https://github.com/octo/widgets");
    assert_eq!(r, Some(String::from("octo/widgets")));
}

#[test]
fn rejects_wrong_host() {
    assert_eq!(extract_repo("https://gitlab.com/octo/widgets/pull/17"), None);
}

#[test]
fn rejects_too_few_segments() {
    assert_eq!(extract_repo("https://github.com/octo"), None);
    assert_eq!(extract_repo("https://github.com/"), None);
    assert_eq!(extract_repo("github.com/octo/widgets"), None);
}

#[test]
fn rejects_plain_text() {
    assert_eq!(extract_repo("not a url"), None);
    assert_eq!(extract_repo(""), None);
}

#[test]
fn counts_distinct_repositories() {
    let urls = vec![
        String::from("https://github.com/octo/widgets/pull/1"),
        String::from("https://github.com/octo/widgets/pull/2"),
        String::from("https://github.com/octo/tools/issues/5"),
    ];
    assert_eq!(count_distinct_repos(&urls), 2);
}

#[test]
fn malformed_urls_leave_the_distinct_count_alone() {
    let urls = vec![
        String::from("https://github.com/octo/widgets/pull/1"),
        String::from("not a url"),
        String::from("https://example.org/octo/widgets/pull/2"),
    ];
    assert_eq!(count_distinct_repos(&urls), 1);
    assert_eq!(urls.len(), 3);
}

#[test]
fn distinct_count_ignores_input_order() {
    let a = vec![
        String::from("https://github.com/a/one/pull/1"),
        String::from("https://github.com/b/two/pull/2"),
        String::from("https://github.com/a/one/pull/3"),
    ];
    let b = vec![
        String::from("https://github.com/a/one/pull/3"),
        String::from("https://github.com/a/one/pull/1"),
        String::from("https://github.com/b/two/pull/2"),
    ];
    assert_eq!(count_distinct_repos(&a), count_distinct_repos(&b));
    assert_eq!(count_distinct_repos(&a), 2);
}

#[test]
fn empty_list_has_no_repositories() {
    let urls: Vec<String> = Vec::new();
    assert_eq!(count_distinct_repos(&urls), 0);
}
