use github_action_committer_coverage_stats::analysis::{
    attribute_document, CommitterCoverageSummary, CommitterCoverageUserStat,
};
use github_action_committer_coverage_stats::cobertura::Provider;
use github_action_committer_coverage_stats::coverage::FileCoverage;
use github_action_committer_coverage_stats::git::{BlameError, BlameFile, BlameLine, BlameProvider};
use std::collections::BTreeMap;

#[test]
fn test_committer_coverage_user_stat_percent_covered() {
    let user_stat = CommitterCoverageUserStat::new("user@example.com", None, 100, 50);
    assert_eq!(user_stat.get_percent_covered() as f32 / 100.0, 50.0);

    let user_stat = CommitterCoverageUserStat::new("user2@example.com", None, 0, 0);
    assert_eq!(user_stat.get_percent_covered() as f32 / 100.0, 0.0);
}

#[test]
fn test_committer_coverage_summary_set_user_stat() {
    let mut summary = CommitterCoverageSummary::default();

    let email = "user@example.com";
    summary.create_user_stat_if_not_exists(email, None);
    summary.set_user_stat(email, 10, 5).expect("User does not exist");
    let user_stat = summary.get_user_stat(email).unwrap();

    assert_eq!(10, user_stat.get_lines());
    assert_eq!(5, user_stat.get_covered());
}

#[test]
fn test_calculate_by_lines() {
    let mut summary = CommitterCoverageSummary::default();
    let coverage_lines: BTreeMap<u32, bool> =
        vec![(1, true), (2, false), (3, true), (4, false), (5, true)].into_iter().collect();

    let blame_lines: BTreeMap<u32, BlameLine> = vec![1, 2, 3, 4, 5]
        .iter()
        .map(|i| {
            (
                *i,
                BlameLine::new(
                    *i,
                    format!("commit{}", i).as_str(),
                    Some(format!("user{}", i)),
                    Some(format!("user{}", i)),
                ),
            )
        })
        .collect();

    CommitterCoverageSummary::calculate_by_lines(&coverage_lines, &blame_lines, &mut summary);

    assert_eq!(5, summary.get_lines());
    assert_eq!(3, summary.get_covered());
    assert_eq!(5, summary.get_user_stats().len());
    for stat in summary.get_user_stats() {
        assert_eq!(1, stat.get_lines());
    }
}

fn blame_of(entries: &[(u32, Option<&str>, Option<&str>)]) -> BTreeMap<u32, BlameLine> {
    entries
        .iter()
        .map(|(line, email, name)| {
            (
                *line,
                BlameLine::new(*line, "c0ffee", email.map(|e| e.to_string()), name.map(|n| n.to_string())),
            )
        })
        .collect()
}

#[test]
fn fold_counts_only_lines_in_both_maps() {
    let mut summary = CommitterCoverageSummary::default();
    let coverage: BTreeMap<u32, bool> = vec![(1, true), (2, true), (3, false), (7, true)].into_iter().collect();
    let blame = blame_of(&[(2, Some("a@x.org"), None), (3, Some("a@x.org"), None), (4, Some("b@x.org"), None), (7, Some("b@x.org"), None)]);
    CommitterCoverageSummary::calculate_by_lines(&coverage, &blame, &mut summary);
    assert_eq!(3, summary.get_lines());
    assert_eq!(2, summary.get_covered());
    let a = summary.get_user_stat("a@x.org").unwrap();
    assert_eq!((2, 1), (a.get_lines(), a.get_covered()));
    let b = summary.get_user_stat("b@x.org").unwrap();
    assert_eq!((1, 1), (b.get_lines(), b.get_covered()));
    assert_eq!(6667, summary.get_percent_covered());
}

#[test]
fn fold_with_no_common_line_changes_nothing() {
    let mut summary = CommitterCoverageSummary::default();
    let coverage: BTreeMap<u32, bool> = vec![(1, true)].into_iter().collect();
    let blame = blame_of(&[(2, Some("a@x.org"), None)]);
    CommitterCoverageSummary::calculate_by_lines(&coverage, &blame, &mut summary);
    assert_eq!(0, summary.get_lines());
    assert_eq!(0, summary.get_percent_covered());
    assert!(summary.get_user_stats().is_empty());
}

#[test]
fn fold_keeps_authors_without_email_apart() {
    let mut summary = CommitterCoverageSummary::default();
    let coverage: BTreeMap<u32, bool> = vec![(1, true), (2, false)].into_iter().collect();
    let blame = blame_of(&[(1, None, Some("ghost")), (2, Some("unknown"), None)]);
    CommitterCoverageSummary::calculate_by_lines(&coverage, &blame, &mut summary);
    assert_eq!(2, summary.get_user_stats().len());
    let named = summary.get_user_stat("unknown").unwrap();
    assert_eq!(1, named.get_lines());
    assert_eq!(0, named.get_covered());
    let anonymous = summary.get_user_stats().iter().find(|s| s.get_email().is_none()).unwrap();
    assert_eq!(Some("ghost".to_string()), anonymous.get_name().clone());
    assert_eq!(1, anonymous.get_covered());
}

#[test]
fn fold_keeps_first_name_that_is_not_empty() {
    let mut summary = CommitterCoverageSummary::default();
    let coverage: BTreeMap<u32, bool> = vec![(1, true), (2, true), (3, true)].into_iter().collect();
    let blame = blame_of(&[(1, Some("a@x.org"), Some("")), (2, Some("a@x.org"), Some("Ann")), (3, Some("a@x.org"), Some("Anna"))]);
    CommitterCoverageSummary::calculate_by_lines(&coverage, &blame, &mut summary);
    let a = summary.get_user_stat("a@x.org").unwrap();
    assert_eq!(Some("Ann".to_string()), a.get_name().clone());
    assert_eq!(3, a.get_lines());
}

#[test]
fn percentages_do_not_depend_on_increment_order() {
    let mut first = CommitterCoverageSummary::default();
    let mut second = CommitterCoverageSummary::default();
    for s in [&mut first, &mut second] {
        s.create_user_stat_if_not_exists("a@x.org", None);
        s.create_user_stat_if_not_exists("b@x.org", None);
    }
    first.incr_user_line_cover("a@x.org", true);
    first.incr_user_line_cover("b@x.org", false);
    first.incr_user_line_cover("a@x.org", false);
    second.incr_user_line_cover("a@x.org", false);
    second.incr_user_line_cover("a@x.org", true);
    second.incr_user_line_cover("b@x.org", false);
    assert_eq!(first.get_percent_covered(), second.get_percent_covered());
    assert_eq!(3333, first.get_percent_covered());
    let a1 = first.get_user_stat("a@x.org").unwrap().get_percent_covered();
    let a2 = second.get_user_stat("a@x.org").unwrap().get_percent_covered();
    assert_eq!(a1, a2);
    assert_eq!(5000, a1);
}

#[test]
fn percentage_rounds_to_nearest_hundredth() {
    assert_eq!(6667, CommitterCoverageUserStat::new("a@x.org", None, 3, 2).get_percent_covered());
    assert_eq!(3333, CommitterCoverageUserStat::new("a@x.org", None, 3, 1).get_percent_covered());
    assert_eq!(10000, CommitterCoverageUserStat::new("a@x.org", None, 7, 7).get_percent_covered());
}

#[test]
fn creating_a_stat_twice_changes_nothing() {
    let mut summary = CommitterCoverageSummary::default();
    summary.create_user_stat_if_not_exists("a@x.org", Some("Ann".to_string()));
    summary.set_user_stat("a@x.org", 4, 3).unwrap();
    summary.create_user_stat_if_not_exists("a@x.org", Some("Other".to_string()));
    assert_eq!(1, summary.get_user_stats().len());
    let a = summary.get_user_stat("a@x.org").unwrap();
    assert_eq!((4, 3), (a.get_lines(), a.get_covered()));
    assert_eq!(Some("Ann".to_string()), a.get_name().clone());
}

#[test]
fn reset_sets_counts_to_zero_and_leaves_others() {
    let mut summary = CommitterCoverageSummary::default();
    summary.create_user_stat_if_not_exists("a@x.org", None);
    summary.create_user_stat_if_not_exists("b@x.org", None);
    summary.set_user_stat("a@x.org", 4, 3).unwrap();
    summary.set_user_stat("b@x.org", 2, 1).unwrap();
    summary.reset_user("a@x.org").unwrap();
    let a = summary.get_user_stat("a@x.org").unwrap();
    assert_eq!((0, 0), (a.get_lines(), a.get_covered()));
    let b = summary.get_user_stat("b@x.org").unwrap();
    assert_eq!((2, 1), (b.get_lines(), b.get_covered()));
}

#[test]
fn reset_of_unknown_author_fails() {
    let mut summary = CommitterCoverageSummary::default();
    let err = summary.reset_user("nobody@x.org").unwrap_err();
    assert_eq!("User nobody@x.org does not exist", err);
    assert!(summary.get_user_stats().is_empty());
}

#[test]
fn set_of_unknown_author_fails() {
    let mut summary = CommitterCoverageSummary::default();
    assert!(summary.set_user_stat("nobody@x.org", 1, 1).is_err());
    assert!(summary.get_user_stat("nobody@x.org").is_none());
}

struct FixedBlame;

impl BlameProvider for FixedBlame {
    fn get_file_blame(&self, path: &str) -> Result<BlameFile, BlameError> {
        match path {
            "generated.rs" => Err(BlameError::NotTracked("not in tree".to_string())),
            "broken.rs" => Err(BlameError::Failed("disk on fire".to_string())),
            _ => {
                let mut b = BlameFile::new_from_path(path);
                b.add_line(1, "c1", Some("a@x.org".to_string()), Some("Ann".to_string()));
                b.add_line(2, "c2", Some("b@x.org".to_string()), None);
                Ok(b)
            }
        }
    }
}

fn document(files: &[&str]) -> String {
    let mut doc = String::from("<coverage><packages><package><classes>");
    for f in files {
        doc.push_str(&format!(
            "<class filename=\"{}\"><lines><line number=\"1\" hits=\"3\"/><line number=\"2\" hits=\"0\"/></lines></class>",
            f
        ));
    }
    doc.push_str("</classes></package></packages></coverage>");
    doc
}

#[test]
fn run_skips_untracked_files() {
    let provider = Provider::load_from_file("coverage.xml").unwrap();
    let doc = document(&["a.rs", "generated.rs", "b.rs"]);
    let report = attribute_document(&provider, doc.as_bytes(), &FixedBlame).0.unwrap();
    assert_eq!(vec!["generated.rs".to_string()], report.skipped);
    assert!(!report.truncated);
    assert_eq!(4, report.summary.get_lines());
    assert_eq!(2, report.summary.get_covered());
    assert_eq!(2, report.summary.get_user_stat("a@x.org").unwrap().get_covered());
}

#[test]
fn run_stops_on_other_blame_failure() {
    let provider = Provider::load_from_file("coverage.xml").unwrap();
    let doc = document(&["a.rs", "broken.rs"]);
    let err = CommitterCoverageSummary::from_coverage_file_and_blame(&provider, doc.as_bytes(), &FixedBlame)
        .0
        .err()
        .unwrap();
    assert_eq!("Failed to get blame file broken.rs: disk on fire", err);
}

#[test]
fn fold_file_follows_the_lookup_outcome() {
    let mut summary = CommitterCoverageSummary::default();
    let mut file = FileCoverage::new_from_path("a.rs");
    file.add_line(1, true);
    let skipped = CommitterCoverageSummary::fold_file(&mut summary, &file, &Err(BlameError::NotTracked(String::new())));
    assert_eq!(Ok(false), skipped);
    assert_eq!(0, summary.get_lines());
    let folded = CommitterCoverageSummary::fold_file(&mut summary, &file, &FixedBlame.get_file_blame("a.rs"));
    assert_eq!(Ok(true), folded);
    assert_eq!(1, summary.get_lines());
    assert!(CommitterCoverageSummary::fold_file(&mut summary, &file, &Err(BlameError::Failed("x".to_string()))).is_err());
    assert_eq!(1, summary.get_lines());
}

#[test]
fn room_check_counts_only_what_the_fold_adds() {
    let mut summary = CommitterCoverageSummary::default();
    summary.create_user_stat_if_not_exists("a@x.org", None);
    summary.create_user_stat_if_not_exists("full@x.org", None);
    summary.set_user_stat("a@x.org", u32::MAX - 1, 0).unwrap();
    summary.set_user_stat("full@x.org", u32::MAX, u32::MAX).unwrap();
    let one: BTreeMap<u32, bool> = vec![(1, true), (2, false)].into_iter().collect();
    let blame = blame_of(&[(1, Some("a@x.org"), None)]);
    assert!(summary.fits_record(&one, &blame));
    let blame_two = blame_of(&[(1, Some("a@x.org"), None), (2, Some("a@x.org"), None)]);
    assert!(!summary.fits_record(&one, &blame_two));
}

#[test]
fn run_over_document_without_record_succeeds() {
    let provider = Provider::load_from_file("coverage.xml").unwrap();
    let doc = document(&[]);
    let summary = CommitterCoverageSummary::from_coverage_file_and_blame(&provider, doc.as_bytes(), &FixedBlame).0.unwrap();
    assert_eq!(0, summary.get_lines());
    assert!(summary.get_user_stats().is_empty());
}


#[test]
fn increment_needs_room_only_for_its_author() {
    let mut summary = CommitterCoverageSummary::default();
    summary.create_user_stat_if_not_exists("full@x.org", None);
    summary.create_user_stat_if_not_exists("a@x.org", None);
    summary.set_user_stat("full@x.org", u32::MAX, u32::MAX).unwrap();
    summary.incr_user_line_cover("a@x.org", true);
    assert_eq!(1, summary.get_user_stat("a@x.org").unwrap().get_lines());
    assert_eq!(u32::MAX, summary.get_user_stat("full@x.org").unwrap().get_lines());
}
