use github_action_committer_coverage_stats::git::{blame_error_of, BlameError, BlameFile, BlameLine};

#[test]
fn blame_line_keeps_its_fields() {
    let b = BlameLine::new(7, "abc", Some("a@x.org".to_string()), None);
    assert_eq!(7, b.get_line());
    assert_eq!("abc", b.get_commit());
    assert_eq!(&Some("a@x.org".to_string()), b.get_email());
    assert_eq!(&None, b.get_name());
}

#[test]
fn hunks_number_lines_one_after_another() {
    let mut file = BlameFile::new_from_path("src/lib.rs");
    let mut line_num: u32 = 0;
    file.add_hunk(&mut line_num, "c1", &Some("a@x.org".to_string()), &Some("Ann".to_string()), 3);
    file.add_hunk(&mut line_num, "c2", &None, &None, 2);
    assert_eq!(5, line_num);
    assert_eq!("src/lib.rs", file.get_path());
    let lines = file.get_lines();
    assert_eq!(5, lines.len());
    assert_eq!("c1", lines[&3].get_commit());
    assert_eq!("c2", lines[&4].get_commit());
    assert_eq!(&None, lines[&5].get_email());
    assert_eq!(5, lines[&5].get_line());
}

#[test]
fn lines_from_vec_keep_the_later_duplicate() {
    let mut file = BlameFile::new_from_path("a.rs");
    file.add_line(9, "old", None, None);
    file.set_lines_from_vec(vec![
        BlameLine::new(1, "first", None, None),
        BlameLine::new(2, "x", None, None),
        BlameLine::new(1, "second", None, None),
    ]);
    let lines = file.get_lines();
    assert_eq!(2, lines.len());
    assert_eq!("second", lines[&1].get_commit());
    assert!(!lines.contains_key(&9));
}

#[test]
fn missing_author_parts_read_unknown() {
    let b = BlameLine::new(1, "abc", None, Some("Ann".to_string()));
    assert_eq!("unknown", b.must_get_email());
    assert_eq!("Ann", b.must_get_name());
}

#[test]
fn untracked_paths_are_told_apart() {
    let e = blame_error_of("Failed to get blame: the path 'gen.rs' does not exist in the given tree".to_string());
    assert!(matches!(e, BlameError::NotTracked(_)));
    let e = blame_error_of("Failed to get blame: corrupt object".to_string());
    assert!(matches!(e, BlameError::Failed(ref m) if m == "Failed to get blame: corrupt object"));
}
