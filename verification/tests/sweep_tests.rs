use remove_dxf::model::Entry;
use remove_dxf::sweep::{
    after_sweep, check_listing, find_candidates, is_candidate, is_pruned, plan_deletions,
    remove_file, remove_files, sweep_count,
};

/// 70 days in seconds: well past the 60-day retention window.
const OLD: u64 = 70 * 24 * 60 * 60;

/// 10 days in seconds: within the retention window.
const FRESH: u64 = 10 * 24 * 60 * 60;

fn p(segs: &[&str]) -> Vec<String> {
    segs.iter().map(|s| s.to_string()).collect()
}

fn dir(segs: &[&str], elapsed: Option<u64>) -> Entry {
    Entry { path: p(segs), is_dir: true, elapsed_secs: elapsed }
}

fn file(segs: &[&str], elapsed: Option<u64>) -> Entry {
    Entry { path: p(segs), is_dir: false, elapsed_secs: elapsed }
}

fn paths_of(entries: &Vec<Entry>) -> Vec<Vec<String>> {
    entries.iter().map(|e| e.path.clone()).collect()
}

/// The tree of the mixed-age scenario: JobA's DXF folder was touched 10 days
/// ago, JobB's 70 days ago, and JobB's part2.dxf has no companion log.
fn mixed_age_listing() -> Vec<Entry> {
    vec![
        dir(&["JobA"], Some(OLD)),
        dir(&["JobA", "Fab"], Some(OLD)),
        dir(&["JobA", "Fab", "Sub"], Some(OLD)),
        dir(&["JobA", "Fab", "Sub", "DXF"], Some(FRESH)),
        file(&["JobA", "Fab", "Sub", "DXF", "part1.dxf"], Some(OLD)),
        file(&["JobA", "Fab", "Sub", "DXF", "part1.log"], Some(OLD)),
        dir(&["JobB"], Some(OLD)),
        dir(&["JobB", "Fab"], Some(OLD)),
        dir(&["JobB", "Fab", "DXF"], Some(OLD)),
        file(&["JobB", "Fab", "DXF", "part2.dxf"], Some(OLD)),
    ]
}

/// The same tree with JobA's DXF folder also 70 days old.
fn all_old_listing() -> Vec<Entry> {
    let mut l = mixed_age_listing();
    l[3] = dir(&["JobA", "Fab", "Sub", "DXF"], Some(OLD));
    l
}

#[test]
fn listing_is_well_formed() {
    assert!(check_listing(&mixed_age_listing()));
    assert!(check_listing(&all_old_listing()));
}

#[test]
fn check_listing_rejects_duplicates() {
    let l = vec![dir(&["JobA"], Some(OLD)), file(&["JobA"], Some(OLD))];
    assert!(!check_listing(&l));
    let l2 = vec![file(&[], Some(OLD))];
    assert!(!check_listing(&l2));
}

#[test]
fn fresh_directory_prunes_itself_and_descendants() {
    let l = mixed_age_listing();
    assert!(is_pruned(&l, &p(&["JobA", "Fab", "Sub", "DXF"])));
    assert!(is_pruned(&l, &p(&["JobA", "Fab", "Sub", "DXF", "part1.dxf"])));
    assert!(!is_pruned(&l, &p(&["JobA", "Fab", "Sub"])));
    assert!(!is_pruned(&l, &p(&["JobB", "Fab", "DXF"])));
}

#[test]
fn candidates_of_mixed_age_tree() {
    let l = mixed_age_listing();
    assert!(!is_candidate(&l, &p(&["JobA", "Fab", "Sub", "DXF"])));
    assert!(is_candidate(&l, &p(&["JobB", "Fab", "DXF"])));
    assert_eq!(find_candidates(&l), vec![p(&["JobB", "Fab", "DXF"])]);
}

#[test]
fn candidates_of_all_old_tree() {
    let l = all_old_listing();
    assert_eq!(
        find_candidates(&l),
        vec![p(&["JobA", "Fab", "Sub", "DXF"]), p(&["JobB", "Fab", "DXF"])]
    );
}

#[test]
fn unreadable_age_gives_no_prune_signal() {
    let mut l = all_old_listing();
    l[3] = dir(&["JobA", "Fab", "Sub", "DXF"], None);
    assert!(is_candidate(&l, &p(&["JobA", "Fab", "Sub", "DXF"])));
}

#[test]
fn mixed_age_tree_counts_nothing() {
    let l = mixed_age_listing();
    assert_eq!(sweep_count(&l), 0);
}

#[test]
fn mixed_age_tree_removes_only_the_unpaired_file() {
    let l = mixed_age_listing();
    assert_eq!(plan_deletions(&l), vec![p(&["JobB", "Fab", "DXF", "part2.dxf"])]);
    let left = after_sweep(&l);
    let left_paths = paths_of(&left);
    assert!(left_paths.contains(&p(&["JobA", "Fab", "Sub", "DXF", "part1.dxf"])));
    assert!(left_paths.contains(&p(&["JobA", "Fab", "Sub", "DXF", "part1.log"])));
    assert!(!left_paths.contains(&p(&["JobB", "Fab", "DXF", "part2.dxf"])));
}

#[test]
fn all_old_tree_counts_the_paired_file() {
    let l = all_old_listing();
    assert_eq!(sweep_count(&l), 1);
    assert_eq!(
        plan_deletions(&l),
        vec![
            p(&["JobA", "Fab", "Sub", "DXF", "part1.dxf"]),
            p(&["JobB", "Fab", "DXF", "part2.dxf"]),
        ]
    );
    let left = after_sweep(&l);
    let left_paths = paths_of(&left);
    assert!(!left_paths.contains(&p(&["JobA", "Fab", "Sub", "DXF", "part1.dxf"])));
    assert!(!left_paths.contains(&p(&["JobA", "Fab", "Sub", "DXF", "part1.log"])));
    assert!(!left_paths.contains(&p(&["JobB", "Fab", "DXF", "part2.dxf"])));
    assert!(left_paths.contains(&p(&["JobB", "Fab", "DXF"])));
}

#[test]
fn missing_log_means_removed_but_not_counted() {
    let l = vec![
        dir(&["Job", "Fab"], Some(OLD)),
        dir(&["Job", "Fab", "DXF"], Some(OLD)),
        file(&["Job", "Fab", "DXF", "name.dxf"], Some(OLD)),
    ];
    assert_eq!(plan_deletions(&l), vec![p(&["Job", "Fab", "DXF", "name.dxf"])]);
    assert_eq!(sweep_count(&l), 0);
    let left_paths = paths_of(&after_sweep(&l));
    assert!(!left_paths.contains(&p(&["Job", "Fab", "DXF", "name.dxf"])));
}

#[test]
fn second_run_finds_nothing() {
    for l in [mixed_age_listing(), all_old_listing()] {
        let left = after_sweep(&l);
        assert_eq!(sweep_count(&left), 0);
        assert!(plan_deletions(&left).is_empty());
        assert_eq!(paths_of(&after_sweep(&left)), paths_of(&left));
    }
}

#[test]
fn remove_file_needs_both_files() {
    let l = all_old_listing();
    assert!(remove_file(&l, &p(&["JobA", "Fab", "Sub", "DXF", "part1.dxf"])));
    assert!(!remove_file(&l, &p(&["JobB", "Fab", "DXF", "part2.dxf"])));
    assert!(!remove_file(&l, &p(&["JobB", "Fab", "DXF", "other.dxf"])));
}

#[test]
fn remove_files_counts_one_directory() {
    let l = all_old_listing();
    assert_eq!(remove_files(&l, &p(&["JobA", "Fab", "Sub", "DXF"])), 1);
    assert_eq!(remove_files(&l, &p(&["JobB", "Fab", "DXF"])), 0);
    assert_eq!(remove_files(&l, &p(&["JobB"])), 0);
}

#[test]
fn scan_reaches_any_depth_below_a_candidate() {
    let l = vec![
        dir(&["Job", "Fab"], Some(OLD)),
        dir(&["Job", "Fab", "DXF"], Some(OLD)),
        dir(&["Job", "Fab", "DXF", "nested"], Some(OLD)),
        file(&["Job", "Fab", "DXF", "nested", "deep.dxf"], Some(OLD)),
        file(&["Job", "Fab", "DXF", "nested", "deep.log"], Some(OLD)),
    ];
    assert_eq!(sweep_count(&l), 1);
    assert_eq!(remove_files(&l, &p(&["Job", "Fab", "DXF"])), 1);
}

#[test]
fn file_ages_are_never_consulted() {
    // The known, documented risk: an old DXF directory passes the age check,
    // and the scan then removes even a freshly written file beneath it.
    let l = vec![
        dir(&["Job", "Fab"], Some(OLD)),
        dir(&["Job", "Fab", "DXF"], Some(OLD)),
        file(&["Job", "Fab", "DXF", "new.dxf"], Some(0)),
        file(&["Job", "Fab", "DXF", "new.log"], Some(0)),
    ];
    assert_eq!(sweep_count(&l), 1);
    assert_eq!(plan_deletions(&l), vec![p(&["Job", "Fab", "DXF", "new.dxf"])]);
}

#[test]
fn nested_candidates_remove_each_file_once() {
    let l = vec![
        dir(&["Fab"], Some(OLD)),
        dir(&["Fab", "DXF"], Some(OLD)),
        dir(&["Fab", "DXF", "DXF"], Some(OLD)),
        file(&["Fab", "DXF", "DXF", "part.dxf"], Some(OLD)),
        file(&["Fab", "DXF", "DXF", "part.log"], Some(OLD)),
    ];
    assert_eq!(
        find_candidates(&l),
        vec![p(&["Fab", "DXF"]), p(&["Fab", "DXF", "DXF"])]
    );
    assert_eq!(sweep_count(&l), 1);
    assert_eq!(plan_deletions(&l), vec![p(&["Fab", "DXF", "DXF", "part.dxf"])]);
}

#[test]
fn directories_named_like_dxf_files_stay() {
    let l = vec![
        dir(&["Fab"], Some(OLD)),
        dir(&["Fab", "DXF"], Some(OLD)),
        dir(&["Fab", "DXF", "folder.dxf"], Some(OLD)),
        file(&["Fab", "DXF", "folder.dxf", "inner.dxf"], Some(OLD)),
        file(&["Fab", "DXF", "folder.dxf", "inner.log"], Some(OLD)),
    ];
    let plan = plan_deletions(&l);
    assert_eq!(plan, vec![p(&["Fab", "DXF", "folder.dxf", "inner.dxf"])]);
    assert_eq!(sweep_count(&l), 1);
    let left_paths = paths_of(&after_sweep(&l));
    assert!(left_paths.contains(&p(&["Fab", "DXF", "folder.dxf"])));
}

#[test]
fn pruning_hides_old_descendants_of_fresh_directories() {
    let l = vec![
        dir(&["Job"], Some(FRESH)),
        dir(&["Job", "Fab"], Some(OLD)),
        dir(&["Job", "Fab", "DXF"], Some(OLD)),
        file(&["Job", "Fab", "DXF", "part.dxf"], Some(OLD)),
        file(&["Job", "Fab", "DXF", "part.log"], Some(OLD)),
    ];
    assert!(find_candidates(&l).is_empty());
    assert!(plan_deletions(&l).is_empty());
    assert_eq!(sweep_count(&l), 0);
}
