use gh_summary::data::{Item, Items};
use gh_summary::json::parse_url_items;
use gh_summary::query::{
    auth_hint, comments_args, current_user_args, decode_url_response, get_current_user,
    gh_failed_message, gh_not_found_message, gh_spawn_error_message, pr_details, pr_reviews_args,
    search_issues_args, search_prs_args,
};

const PARSE_ERROR: &str = "Failed to parse JSON: expected an array of url records";

#[test]
fn decodes_a_single_record() {
    let urls = decode_url_response("[{\"url\":\"https://github.com/a/b/pull/1\"}]").unwrap();
    assert_eq!(urls, vec![String::from("https://github.com/a/b/pull/1")]);
}

#[test]
fn decodes_many_records_in_order() {
    let text = " [ {\"url\" : \"second\"} ,\t{ \"url\": \"first\" } ]\n";
    let urls = decode_url_response(text).unwrap();
    assert_eq!(urls, vec![String::from("second"), String::from("first")]);
}

#[test]
fn decodes_the_empty_array() {
    let urls = decode_url_response("[]").unwrap();
    assert!(urls.is_empty());
    let urls = decode_url_response("  [  ]  ").unwrap();
    assert!(urls.is_empty());
}

#[test]
fn decodes_simple_escapes() {
    let urls = decode_url_response("[{\"url\":\"a\\\"b\\\\c\\/d\\n\\t\\r\\b\\f\"}]").unwrap();
    assert_eq!(urls, vec![String::from("a\"b\\c/d\n\t\r\u{0008}\u{000C}")]);
}

#[test]
fn decodes_unicode_escapes() {
    let urls = decode_url_response("[{\"url\":\"a\\u0041\\u00e9\"}]").unwrap();
    assert_eq!(urls, vec![String::from("aA\u{e9}")]);
}

#[test]
fn decodes_surrogate_pairs() {
    let urls = decode_url_response("[{\"url\":\"x\\uD83D\\uDE00y\"}]").unwrap();
    assert_eq!(urls, vec![String::from("x\u{1F600}y")]);
}

#[test]
fn rejects_a_lone_surrogate() {
    assert_eq!(
        decode_url_response("[{\"url\":\"\\uD83Dx\"}]"),
        Err(String::from(PARSE_ERROR))
    );
    assert_eq!(
        decode_url_response("[{\"url\":\"\\uDE00\"}]"),
        Err(String::from(PARSE_ERROR))
    );
}

#[test]
fn rejects_text_that_is_no_array() {
    assert_eq!(decode_url_response(""), Err(String::from(PARSE_ERROR)));
    assert_eq!(decode_url_response("{}"), Err(String::from(PARSE_ERROR)));
    assert_eq!(decode_url_response("null"), Err(String::from(PARSE_ERROR)));
    assert_eq!(decode_url_response("garbage"), Err(String::from(PARSE_ERROR)));
}

#[test]
fn rejects_records_without_a_url_member() {
    assert_eq!(decode_url_response("[{}]"), Err(String::from(PARSE_ERROR)));
    assert_eq!(
        decode_url_response("[{\"link\":\"x\"}]"),
        Err(String::from(PARSE_ERROR))
    );
}

#[test]
fn rejects_unterminated_text() {
    assert_eq!(
        decode_url_response("[{\"url\":\"x\"}"),
        Err(String::from(PARSE_ERROR))
    );
    assert_eq!(
        decode_url_response("[{\"url\":\"x}]"),
        Err(String::from(PARSE_ERROR))
    );
}

#[test]
fn rejects_trailing_garbage() {
    assert_eq!(
        decode_url_response("[{\"url\":\"x\"}] tail"),
        Err(String::from(PARSE_ERROR))
    );
}

#[test]
fn rejects_bad_escapes_and_control_characters() {
    assert_eq!(
        decode_url_response("[{\"url\":\"\\q\"}]"),
        Err(String::from(PARSE_ERROR))
    );
    assert_eq!(
        decode_url_response("[{\"url\":\"a\nb\"}]"),
        Err(String::from(PARSE_ERROR))
    );
    assert_eq!(
        decode_url_response("[{\"url\":\"\\u12G4\"}]"),
        Err(String::from(PARSE_ERROR))
    );
}

#[test]
fn parse_url_items_wraps_the_records() {
    let items = parse_url_items("[{\"url\":\"one\"},{\"url\":\"two\"}]").unwrap();
    let urls = items.into_urls();
    assert_eq!(urls, vec![String::from("one"), String::from("two")]);
}

#[test]
fn into_urls_extracts_in_order() {
    let items = Items(vec![
        Item { url: String::from("a") },
        Item { url: String::from("b") },
    ]);
    assert_eq!(items.into_urls(), vec![String::from("a"), String::from("b")]);
}

#[test]
fn identity_is_the_trimmed_answer() {
    assert_eq!(get_current_user(" alice\n"), String::from("alice"));
    assert_eq!(get_current_user("bob"), String::from("bob"));
    assert_eq!(get_current_user("  \t \n"), String::from(""));
    assert_eq!(get_current_user("a b"), String::from("a b"));
}

#[test]
fn identity_query_arguments() {
    assert_eq!(
        current_user_args(),
        vec![
            String::from("api"),
            String::from("user"),
            String::from("--jq"),
            String::from(".login"),
        ]
    );
}

#[test]
fn pull_request_search_arguments() {
    assert_eq!(
        search_prs_args("alice", "--created", "2024-05-01"),
        vec![
            String::from("search"),
            String::from("prs"),
            String::from("--author=alice"),
            String::from("--created"),
            String::from(">=2024-05-01"),
            String::from("--json=url"),
            String::from("--limit=1000"),
        ]
    );
}

#[test]
fn issue_search_arguments() {
    assert_eq!(
        search_issues_args("alice", "--closed", "2024-05-01"),
        vec![
            String::from("search"),
            String::from("issues"),
            String::from("--author=alice"),
            String::from("--closed"),
            String::from(">=2024-05-01"),
            String::from("--json=url"),
            String::from("--limit=1000"),
        ]
    );
}

#[test]
fn review_query_arguments() {
    assert_eq!(
        pr_reviews_args("alice", "2024-05-01"),
        vec![
            String::from("search"),
            String::from("prs"),
            String::from("--reviewed-by=alice"),
            String::from("--updated"),
            String::from(">=2024-05-01"),
            String::from("--json=url"),
            String::from("--limit=1000"),
        ]
    );
}

#[test]
fn comment_query_arguments() {
    assert_eq!(
        comments_args("alice", "2024-05-01"),
        vec![
            String::from("search"),
            String::from("issues"),
            String::from("--commenter=alice"),
            String::from("--created"),
            String::from(">=2024-05-01"),
            String::from("--json=url"),
            String::from("--limit=1000"),
        ]
    );
}

#[test]
fn detailed_listing_pairs_urls_with_mock_metrics() {
    let urls = vec![
        String::from("https://github.com/a/b/pull/1"),
        String::from("https://github.com/a/b/pull/2"),
    ];
    let details = pr_details(&urls);
    assert_eq!(details.len(), 2);
    assert_eq!(details[0].0, urls[0]);
    assert_eq!(details[1].0, urls[1]);
    assert_eq!(details[0].2.additions, 50);
    assert_eq!(details[0].2.deletions, 20);
    assert_eq!(details[0].2.changed_files, 3);
    assert_eq!(details[1].2.additions, 73);
    assert_eq!(details[1].2.deletions, 27);
    assert_eq!(details[1].2.changed_files, 4);
}

#[test]
fn records_may_carry_extra_members() {
    let urls = decode_url_response("[{\"url\":\"a\",\"n\":1}]").unwrap();
    assert_eq!(urls, vec![String::from("a")]);
    let urls = decode_url_response("[{\"state\":\"open\",\"url\":\"b\"}]").unwrap();
    assert_eq!(urls, vec![String::from("b")]);
    let urls =
        decode_url_response("[{\"a\":true,\"url\":\"c\",\"b\":null,\"c\":false}]").unwrap();
    assert_eq!(urls, vec![String::from("c")]);
}

#[test]
fn extra_members_may_hold_numbers_of_every_shape() {
    let text = "[{\"url\":\"u\",\"a\":0,\"b\":-12,\"c\":3.5,\"d\":1e9,\"e\":-0.25E-2}]";
    let urls = decode_url_response(text).unwrap();
    assert_eq!(urls, vec![String::from("u")]);
}

#[test]
fn extra_members_may_hold_nested_values() {
    let text =
        "[{\"extra\":{\"a\":[1,{\"b\":[]},\"s\"],\"c\":{}},\"url\":\"u\",\"tail\":[[],[null]]}]";
    let urls = decode_url_response(text).unwrap();
    assert_eq!(urls, vec![String::from("u")]);
}

#[test]
fn extra_members_allow_white_space_everywhere() {
    let text = "[ { \"n\" : [ 1 , 2 ] , \"url\" : \"u\" , \"m\" : { \"k\" : true } } ]";
    let urls = decode_url_response(text).unwrap();
    assert_eq!(urls, vec![String::from("u")]);
}

#[test]
fn rejects_a_second_url_member() {
    assert_eq!(
        decode_url_response("[{\"url\":\"a\",\"url\":\"b\"}]"),
        Err(String::from(PARSE_ERROR))
    );
}

#[test]
fn rejects_malformed_extra_values() {
    assert_eq!(
        decode_url_response("[{\"url\":\"a\",\"n\":01}]"),
        Err(String::from(PARSE_ERROR))
    );
    assert_eq!(
        decode_url_response("[{\"url\":\"a\",\"n\":}]"),
        Err(String::from(PARSE_ERROR))
    );
    assert_eq!(
        decode_url_response("[{\"url\":\"a\",\"n\":[1,}]"),
        Err(String::from(PARSE_ERROR))
    );
    assert_eq!(
        decode_url_response("[{\"url\":\"a\",\"n\":tru}]"),
        Err(String::from(PARSE_ERROR))
    );
    assert_eq!(
        decode_url_response("[{\"url\":\"a\",\"n\":1,}]"),
        Err(String::from(PARSE_ERROR))
    );
    assert_eq!(
        decode_url_response("[{\"url\":\"a\" \"n\":1}]"),
        Err(String::from(PARSE_ERROR))
    );
}

#[test]
fn rejects_a_record_whose_url_is_no_string() {
    assert_eq!(
        decode_url_response("[{\"url\":1}]"),
        Err(String::from(PARSE_ERROR))
    );
    assert_eq!(
        decode_url_response("[{\"url\":null}]"),
        Err(String::from(PARSE_ERROR))
    );
}

#[test]
fn runner_messages() {
    assert_eq!(
        gh_not_found_message(),
        String::from(
            "GitHub CLI (gh) not found. Please install it from https://cli.github.com/ and make sure it's in your PATH."
        )
    );
    assert_eq!(
        gh_failed_message("boom\n"),
        String::from("gh command failed: boom\n")
    );
    assert_eq!(
        gh_spawn_error_message("permission denied"),
        String::from("Failed to execute gh command: permission denied")
    );
    assert_eq!(
        auth_hint(),
        String::from("Make sure you're authenticated with 'gh auth login'")
    );
}
