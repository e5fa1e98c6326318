use ekuke::case::{case_file, case_root, case_status, export_path, CaseMetadata, CasePaths};

#[test]
fn case_layout_under_root() {
    let p = CasePaths::from_root("/tmp/cases/c1");
    assert_eq!(p.root, "/tmp/cases/c1");
    assert_eq!(p.db, "/tmp/cases/c1/data/ekuke.db");
    assert_eq!(p.search, "/tmp/cases/c1/search.idx");
    assert_eq!(p.attachments, "/tmp/cases/c1/attachments");
}

#[test]
fn case_files() {
    assert_eq!(case_root("/tmp/cases", "abc"), "/tmp/cases/abc");
    assert_eq!(case_file("/tmp/cases/abc"), "/tmp/cases/abc/case.json");
    assert_eq!(export_path("/tmp/cases", "abc"), "/tmp/cases/abc.ekuke");
    assert_eq!(case_status(None), "open");
    assert_eq!(case_status(Some("closed")), "closed");
}

#[test]
fn new_case_metadata() {
    let m = CaseMetadata::new("Op X", "Anon");
    assert_eq!(m.name, "Op X");
    assert_eq!(m.author, "Anon");
    assert_eq!(m.description, "");
    assert_eq!(m.version, "0.1.0");
    assert_eq!(m.created_at, m.updated_at);
    assert_eq!(m.id.len(), 36);
    assert_eq!(m.id.chars().nth(14), Some('4'));
    assert!(matches!(m.id.chars().nth(19), Some('8' | '9' | 'a' | 'b')));
}
