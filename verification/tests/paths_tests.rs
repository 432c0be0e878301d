use remove_dxf::model::RETENTION_SECS;
use remove_dxf::paths::{dir_matches, is_dxf_file_name, log_sibling_name, log_sibling_path};
use remove_dxf::sweep::{filter_dxf_folders, WalkDecision};

fn p(segs: &[&str]) -> Vec<String> {
    segs.iter().map(|s| s.to_string()).collect()
}

#[test]
fn dir_matches_fab_then_dxf() {
    assert!(dir_matches(&p(&["JobA", "Fab", "Sub", "DXF"])));
}

#[test]
fn dir_matches_adjacent_fab_dxf() {
    assert!(dir_matches(&p(&["Fab", "DXF"])));
}

#[test]
fn dir_matches_needs_fab_before_dxf() {
    assert!(!dir_matches(&p(&["DXF", "Fab"])));
    assert!(!dir_matches(&p(&["Jobs", "DXF"])));
}

#[test]
fn dir_matches_needs_final_dxf() {
    assert!(!dir_matches(&p(&["Fab", "DXF", "Extra"])));
    assert!(!dir_matches(&p(&["JobA", "Fab", "Sub"])));
}

#[test]
fn dir_matches_single_segment() {
    assert!(!dir_matches(&p(&["DXF"])));
    assert!(!dir_matches(&p(&["Fab"])));
}

#[test]
fn dir_matches_is_case_sensitive() {
    assert!(!dir_matches(&p(&["fab", "DXF"])));
    assert!(!dir_matches(&p(&["Fab", "dxf"])));
    assert!(!dir_matches(&p(&["FAB", "DXF"])));
}

#[test]
fn dxf_name_accepts_lower_case_extension() {
    assert!(is_dxf_file_name(&"part1.dxf".to_string()));
    assert!(is_dxf_file_name(&"a.b.dxf".to_string()));
    assert!(is_dxf_file_name(&".dxf".to_string()));
}

#[test]
fn dxf_name_rejects_other_names() {
    assert!(!is_dxf_file_name(&"part1.DXF".to_string()));
    assert!(!is_dxf_file_name(&"dxf".to_string()));
    assert!(!is_dxf_file_name(&"part1.log".to_string()));
    assert!(!is_dxf_file_name(&"".to_string()));
}

#[test]
fn log_sibling_name_replaces_extension() {
    assert_eq!(log_sibling_name(&"part1.dxf".to_string()), "part1.log");
    assert_eq!(log_sibling_name(&"a.b.dxf".to_string()), "a.b.log");
}

#[test]
fn log_sibling_path_keeps_directory() {
    let sibling = log_sibling_path(&p(&["JobA", "Fab", "DXF", "part1.dxf"]));
    assert_eq!(sibling, p(&["JobA", "Fab", "DXF", "part1.log"]));
}

#[test]
fn walk_decision_skips_files_as_entries() {
    assert_eq!(filter_dxf_folders(false, Some(0)), WalkDecision::SkipEntry);
    assert_eq!(filter_dxf_folders(false, None), WalkDecision::SkipEntry);
}

#[test]
fn walk_decision_prunes_fresh_directories() {
    assert_eq!(filter_dxf_folders(true, Some(0)), WalkDecision::SkipSubtree);
    assert_eq!(
        filter_dxf_folders(true, Some(RETENTION_SECS - 1)),
        WalkDecision::SkipSubtree
    );
}

#[test]
fn walk_decision_visits_old_directories() {
    assert_eq!(filter_dxf_folders(true, Some(RETENTION_SECS)), WalkDecision::Visit);
    assert_eq!(filter_dxf_folders(true, Some(RETENTION_SECS + 1)), WalkDecision::Visit);
}

#[test]
fn walk_decision_visits_when_age_unreadable() {
    assert_eq!(filter_dxf_folders(true, None), WalkDecision::Visit);
}
