use github_action_committer_coverage_stats::analysis::CommitterCoverageSummary;
use github_action_committer_coverage_stats::github::{GitHubClient, GithubUser};
use github_action_committer_coverage_stats::report::{best_first, format_percent, is_valid_email};

fn client() -> GitHubClient {
    GitHubClient::new("https://api.github.com", "owner/repo", "")
}

#[test]
fn percent_has_two_decimals() {
    assert_eq!("66.67", format_percent(6667));
    assert_eq!("0.00", format_percent(0));
    assert_eq!("100.00", format_percent(10000));
    assert_eq!("5.05", format_percent(505));
}

#[test]
fn email_validity() {
    assert!(is_valid_email("user@example.com"));
    assert!(!is_valid_email("unknown"));
    assert!(!is_valid_email(""));
}

fn summary() -> CommitterCoverageSummary {
    let mut s = CommitterCoverageSummary::default();
    s.create_user_stat_if_not_exists("low@x.org", None);
    s.create_user_stat_if_not_exists("high@x.org", Some("High".to_string()));
    s.create_user_stat_if_not_exists("mid@x.org", None);
    s.set_user_stat("low@x.org", 4, 1).unwrap();
    s.set_user_stat("high@x.org", 2, 2).unwrap();
    s.set_user_stat("mid@x.org", 3, 2).unwrap();
    s
}

#[test]
fn best_coverage_first() {
    let s = summary();
    assert_eq!(vec![1, 2, 0], best_first(s.get_user_stats()));
}

#[test]
fn report_text() {
    let s = summary();
    let c = client();
    let users: Vec<String> = s.get_user_stats().iter().map(|u| format!("{}", u.get_email().clone().unwrap())).collect();
    let text = c.create_summary_content(&s, 8000, &users);
    let expected = "# Committer Coverage Report\nTotal coverage: 0 / 0 (0.00%)\n\n\
|  | **User** | **Lines** | **Covered** | **% Covered** |\n|--|------|-------:|---------:|-----------|\n\
| high@x.org | 2 | 2 | 100.00 ✅ |\n\
| mid@x.org | 3 | 2 | 66.67 ❌ |\n\
| low@x.org | 4 | 1 | 25.00 ❌ |\n\
\n⭐ [github-action-committer-coverage-stats](https://github.com/petrabarus/github-action-committer-coverage-stats)";
    assert_eq!(expected, text);
}

#[test]
fn row_user_display_uses_the_lookup_only_for_valid_emails() {
    let s = summary();
    let c = client();
    let high = s.get_user_stat("high@x.org").unwrap();
    let found = Ok(Some(GithubUser::new("hi", "https://a/2", "https://github.com/hi")));
    assert_eq!(
        "<a href=\"https://github.com/hi\"><img src=\"https://a/2\" width=\"20\"/></a> | hi",
        c.create_summary_content_table_row_user_display(high, &found)
    );
    assert!(c.create_summary_content_table_row_user_display(high, &Ok(None)).ends_with("| High"));
    assert!(c.create_summary_content_table_row_user_display(high, &Err("down".to_string())).ends_with("| High"));
    let mut odd = CommitterCoverageSummary::default();
    odd.create_user_stat_if_not_exists("not-an-email", None);
    let stat = odd.get_user_stat("not-an-email").unwrap();
    assert!(c.create_summary_content_table_row_user_display(stat, &found).ends_with("| unknown"));
}

#[test]
fn threshold_is_compared_exactly() {
    let mut s = CommitterCoverageSummary::default();
    s.create_user_stat_if_not_exists("a@x.org", None);
    s.set_user_stat("a@x.org", 100000, 79996).unwrap();
    let c = client();
    let text = c.create_summary_content(&s, 8000, &vec!["a".to_string()]);
    assert!(text.contains("| a | 100000 | 79996 | 80.00 ❌ |"));
}

#[test]
fn ties_keep_their_order() {
    let mut s = CommitterCoverageSummary::default();
    for e in ["a@x.org", "b@x.org", "c@x.org"] {
        s.create_user_stat_if_not_exists(e, None);
    }
    s.set_user_stat("a@x.org", 2, 1).unwrap();
    s.set_user_stat("b@x.org", 1, 1).unwrap();
    s.set_user_stat("c@x.org", 4, 2).unwrap();
    assert_eq!(vec![1, 0, 2], best_first(s.get_user_stats()));
}
