use github_action_committer_coverage_stats::config::parse_files;
use github_action_committer_coverage_stats::decimal::parse_u32;
use github_action_committer_coverage_stats::github::{
    decimal_string, must_get_name, parse_pr_number_from_ref, GitHubClient, GithubUser,
};

#[test]
fn test_parse_files() {
    let files = "file1,file2,file3";
    let expected = vec!["file1".to_string(), "file2".to_string(), "file3".to_string()];
    assert_eq!(parse_files(files), expected);
}

#[test]
fn parse_files_keeps_empty_pieces() {
    assert_eq!(vec!["".to_string()], parse_files(""));
    assert_eq!(vec!["a".to_string(), "".to_string()], parse_files("a,"));
}

#[test]
fn test_parse_pull_request_number_from_ref() {
    assert_eq!(parse_pr_number_from_ref("715/merge"), Some(715));
}

#[test]
fn pull_request_number_needs_a_slash_and_a_number() {
    assert_eq!(None, parse_pr_number_from_ref("715"));
    assert_eq!(None, parse_pr_number_from_ref("refs/pull/715/merge"));
    assert_eq!(Some(3), parse_pr_number_from_ref("3/a/b"));
    assert_eq!(None, parse_pr_number_from_ref("/merge"));
}

#[test]
fn decimal_parsing_follows_the_u32_rules() {
    assert_eq!(Some(5), parse_u32(b"+5"));
    assert_eq!(Some(7), parse_u32(b"007"));
    assert_eq!(None, parse_u32(b""));
    assert_eq!(None, parse_u32(b"+"));
    assert_eq!(None, parse_u32(b"-1"));
    assert_eq!(None, parse_u32(b" 1"));
    assert_eq!(Some(4294967295), parse_u32(b"4294967295"));
    assert_eq!(None, parse_u32(b"4294967296"));
}

#[test]
fn decimal_text_of_numbers() {
    assert_eq!("0", decimal_string(0));
    assert_eq!("715", decimal_string(715));
    assert_eq!("4294967295", decimal_string(u32::MAX as u64));
    assert_eq!("18446744073709551615", decimal_string(u64::MAX));
}

fn client() -> GitHubClient {
    GitHubClient::new("https://api.github.com", "owner/repo", "SECRET-REDACTED")
}

#[test]
fn comment_url_of_a_pull_request() {
    assert_eq!(
        "https://api.github.com/repos/owner/repo/issues/42/comments",
        client().create_pr_comment_url(42)
    );
}

#[test]
fn user_display_links_avatar_and_name() {
    let c = client();
    assert_eq!(
        "<a href=\"https://github.com/ann\"><img src=\"https://a/1\" width=\"20\"/></a> | ann",
        c.create_user_display("ann", "https://github.com/ann", "https://a/1")
    );
    assert_eq!(
        "<a href=\"https://github.com\"><img src=\"https://avatars.githubusercontent.com/u/1234567890?v=4\" width=\"20\"/></a> | unknown",
        c.create_unknown_user_display(&None)
    );
    assert!(c.create_unknown_user_display(&Some("Ann".to_string())).ends_with("| Ann"));
    assert_eq!("unknown", must_get_name(&None));
}

#[test]
fn cache_remembers_the_latest_answer() {
    let mut c = client();
    assert!(c.get_cached_user("a@x.org").is_none());
    c.store_cache_user("a@x.org", &Some(GithubUser::new("ann", "https://a/1", "https://github.com/ann")));
    assert_eq!("ann", c.get_cached_user("a@x.org").unwrap().username);
    c.store_cache_user("b@x.org", &None);
    assert!(c.get_cached_user("b@x.org").is_none());
    assert_eq!(Some(None), c.get_cached_record("b@x.org").map(|u| u.map(|u| u.username)));
    assert!(c.get_cached_record("c@x.org").is_none());
    c.store_cache_user("a@x.org", &None);
    assert!(c.get_cached_user("a@x.org").is_none());
    assert_eq!("owner/repo", c.get_repo());
}

#[test]
fn request_addresses_and_bodies() {
    let c = client();
    assert_eq!("https://api.github.com/search/users?q=a@x.org", c.create_search_user_url("a@x.org"));
    assert_eq!("https://api.github.com/graphql", c.create_graphql_url());
    assert_eq!("{\"body\":\"hi \\\"there\\\"\"}", c.create_comment_request_body("hi \"there\""));
    assert_eq!("{\"body\":\"a\\u001f\\n\\\\ \\b\"}", c.create_comment_request_body("a\u{1f}\n\\ \u{8}"));
    let body = c.create_graphql_blame_request_body("src/a.rs").unwrap();
    assert!(body.starts_with("{\"query\":\"\\nquery {\\n  repository(\\n      owner:\\\"owner\\\""));
    assert!(body.contains("name:\\\"repo\\\""));
    assert!(body.contains("blame(path: \\\"src/a.rs\\\")"));
    let bad = GitHubClient::new("https://api.github.com", "norepo", "");
    assert!(bad.create_graphql_blame_request_body("a").is_none());
}
