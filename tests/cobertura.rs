use github_action_committer_coverage_stats::cobertura::{
    CoverageFileIterator, Provider, ReadEventReturn, XmlAttribute, XmlElement, XmlEvent,
};
use github_action_committer_coverage_stats::coverage::{Coverage, CoverageProvider, FileCoverage};

fn wrap(classes: &str) -> String {
    format!(
        "<?xml version=\"1.0\"?>\n<coverage line-rate=\"0.5\">\n <sources><source>.</source></sources>\n <packages>\n  <package name=\"p\">\n   <classes>\n{}\n   </classes>\n  </package>\n </packages>\n</coverage>\n",
        classes
    )
}

fn lines_of(f: &FileCoverage) -> Vec<(u32, bool)> {
    f.get_lines().iter().map(|(k, v)| (*k, *v)).collect()
}

#[test]
fn test_get_name() {
    let provider = Provider::load_from_file("test").unwrap();
    assert_eq!(provider.get_name(), "cobertura");
}

#[test]
fn coverage_names_its_provider() {
    let coverage = Coverage::new_from_path("coverage.xml").unwrap();
    assert_eq!("coverage.xml", coverage.get_path());
    assert_eq!("cobertura", coverage.get_name());
}

#[test]
fn reader_yields_one_record_per_class() {
    let doc = wrap(
        "<class name=\"a\" filename=\"src/a.rs\"><methods/><lines><line number=\"1\" hits=\"1\"/><line number=\"2\" hits=\"0\"/></lines></class>\n\
         <class name=\"b\" filename=\"src/b.rs\"><lines><line number=\"10\" hits=\"4\"/></lines></class>\n\
         <class name=\"c\" filename=\"src/c.rs\"><lines></lines></class>\n\
         <class name=\"d\" filename=\"src/d.rs\"><lines><line number=\"3\" hits=\"0\" branch=\"false\"/></lines></class>",
    );
    let mut it = CoverageFileIterator::new(doc.as_bytes());
    let files = it.collect_files();
    assert_eq!(4, files.len());
    let paths: Vec<&str> = files.iter().map(|f| f.get_path()).collect();
    assert_eq!(vec!["src/a.rs", "src/b.rs", "src/c.rs", "src/d.rs"], paths);
    assert_eq!(vec![(1, true), (2, false)], lines_of(&files[0]));
    assert_eq!(vec![(10, true)], lines_of(&files[1]));
    assert!(lines_of(&files[2]).is_empty());
    assert_eq!(vec![(3, false)], lines_of(&files[3]));
    assert!(!it.is_truncated());
    assert!(it.next_file().is_none());
}

#[test]
fn reader_drops_line_zero() {
    let doc = wrap(
        "<class filename=\"z.rs\"><lines><line number=\"0\" hits=\"5\"/><line number=\"4\" hits=\"1\"/></lines></class>",
    );
    let files = CoverageFileIterator::new(doc.as_bytes()).collect_files();
    assert_eq!(1, files.len());
    assert_eq!(vec![(4, true)], lines_of(&files[0]));
}

#[test]
fn reader_drops_lines_with_missing_or_bad_attributes() {
    let doc = wrap(
        "<class filename=\"m.rs\"><lines><line number=\"1\"/><line hits=\"2\"/><line number=\"x\" hits=\"1\"/><line number=\"+6\" hits=\"many\"/><line number=\"7\" hits=\"2\"/></lines></class>",
    );
    let files = CoverageFileIterator::new(doc.as_bytes()).collect_files();
    assert_eq!(vec![(6, false), (7, true)], lines_of(&files[0]));
}

#[test]
fn reader_ignores_lines_outside_the_line_band() {
    let doc = wrap(
        "<class filename=\"deep.rs\"><methods><method><lines><line number=\"9\" hits=\"1\"/></lines></method></methods><lines><line number=\"2\" hits=\"1\"/></lines></class>",
    );
    let files = CoverageFileIterator::new(doc.as_bytes()).collect_files();
    assert_eq!(vec![(2, true)], lines_of(&files[0]));
}

#[test]
fn truncated_document_gives_fewer_records() {
    let doc = wrap(
        "<class filename=\"a.rs\"><lines><line number=\"1\" hits=\"1\"/></lines></class>\n\
         <class filename=\"b.rs\"><lines><line number=\"1\" hits=\"1\"/></lines></class>",
    );
    let cut = &doc.as_bytes()[..doc.find("<class filename=\"b.rs\"").unwrap() + 30];
    let mut it = CoverageFileIterator::new(cut);
    let files = it.collect_files();
    assert_eq!(1, files.len());
    assert_eq!("a.rs", files[0].get_path());
    assert!(it.is_truncated());
}

#[test]
fn malformed_document_ends_the_sequence() {
    let doc = wrap(
        "<class filename=\"a.rs\"><lines><line number=\"1\" hits=\"1\"/></lines></class>\n\
         <class filename=\"b.rs\"><lines></wrong></class>\n\
         <class filename=\"c.rs\"><lines></lines></class>",
    );
    let mut it = CoverageFileIterator::new(doc.as_bytes());
    let files = it.collect_files();
    assert_eq!(1, files.len());
    assert!(it.is_truncated());
}

#[test]
fn class_without_filename_is_dropped() {
    let doc = wrap("<class name=\"x\"><lines><line number=\"1\" hits=\"1\"/></lines></class><class filename=\"b.rs\"></class>");
    let files = CoverageFileIterator::new(doc.as_bytes()).collect_files();
    assert_eq!(1, files.len());
    assert_eq!("b.rs", files[0].get_path());
    assert!(lines_of(&files[0]).is_empty());
}

#[test]
fn empty_document_has_no_record() {
    let mut it = CoverageFileIterator::new(&[]);
    assert!(it.next_file().is_none());
    assert!(!it.is_truncated());
}

fn element(name: &str, attrs: &[(&str, &str)]) -> XmlElement {
    XmlElement {
        name: name.as_bytes().to_vec(),
        attributes: attrs
            .iter()
            .map(|(k, v)| Some(XmlAttribute { key: k.as_bytes().to_vec(), value: v.as_bytes().to_vec() }))
            .collect(),
    }
}

#[test]
fn events_drive_the_depth() {
    let mut it = CoverageFileIterator::new(&[]);
    let mut file = FileCoverage::default();
    for _ in 0..4 {
        assert_eq!(ReadEventReturn::Continue, it.apply_event(&XmlEvent::Start(element("x", &[])), &mut file));
    }
    let class = XmlEvent::Start(element("class", &[("filename", "f.rs")]));
    assert_eq!(ReadEventReturn::Continue, it.apply_event(&class, &mut file));
    assert_eq!("f.rs", file.get_path());
    let line = XmlEvent::Empty(element("line", &[("number", "3"), ("hits", "0")]));
    assert_eq!(ReadEventReturn::Continue, it.apply_event(&line, &mut file));
    assert_eq!(ReadEventReturn::Continue, it.apply_event(&XmlEvent::Other, &mut file));
    assert_eq!(ReadEventReturn::Return, it.apply_event(&XmlEvent::End(b"class".to_vec()), &mut file));
    assert_eq!(vec![(3, false)], lines_of(&file));
    let unreadable = XmlElement { name: b"line".to_vec(), attributes: vec![None] };
    assert_eq!(ReadEventReturn::Continue, it.apply_event(&XmlEvent::Start(unreadable), &mut file));
    assert_eq!(ReadEventReturn::End, it.apply_event(&XmlEvent::Eof, &mut file));
    assert_eq!(ReadEventReturn::End, it.apply_event(&XmlEvent::Malformed, &mut file));
}

#[test]
fn file_coverage_discards_line_zero() {
    let mut f = FileCoverage::new_from_path("a.rs");
    f.add_line(0, true);
    f.add_line(2, true);
    f.add_line(2, false);
    assert_eq!(vec![(2, false)], lines_of(&f));
    f.reset();
    assert_eq!("", f.get_path());
    assert!(f.get_lines().is_empty());
}

#[test]
fn badly_formed_attributes_drop_only_their_entry() {
    let doc = wrap(
        "<class filename=\"a.rs\"><lines><line number=\"1\" hits=\"1\" x/><line number=\"2\" hits=\"1\"/></lines></class>\n\
         <class filename=\"b.rs\" y><lines><line number=\"5\" hits=\"1\"/></lines></class>\n\
         <class filename=\"c.rs\"><lines><line number=\"3\" hits=\"0\"/></lines></class>",
    );
    let mut it = CoverageFileIterator::new(doc.as_bytes());
    let files = it.collect_files();
    let paths: Vec<&str> = files.iter().map(|f| f.get_path()).collect();
    assert_eq!(vec!["a.rs", "c.rs"], paths);
    assert_eq!(vec![(2, true)], lines_of(&files[0]));
    assert_eq!(vec![(3, false)], lines_of(&files[1]));
    assert!(!it.is_truncated());
}
