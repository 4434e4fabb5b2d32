use msv_supervisor::watch::{
    path_before, path_eq, path_starts_with, scan_step, should_include_path, snapshot_diff,
    FileStamp, PathMetadata, PathPart, PathSet, ScanStep, Snapshot, WatchBatch, WatchEvent,
    WatchPolicy, WatchRescanReason, WATCH_BATCH_PATH_LIMIT, WATCH_RESCAN_ENTRY_LIMIT,
};

fn path(text: &str) -> Vec<PathPart> {
    let mut parts = Vec::new();
    if text.starts_with('/') {
        parts.push(PathPart::Root);
    }
    for piece in text.split('/').filter(|p| !p.is_empty()) {
        parts.push(match piece {
            "." => PathPart::Current,
            ".." => PathPart::Parent,
            name => PathPart::Name(name.as_bytes().to_vec()),
        });
    }
    parts
}

fn text(parts: &[PathPart]) -> String {
    let mut out = String::new();
    for part in parts {
        match part {
            PathPart::Root => out.push('/'),
            PathPart::Current => out.push_str("./"),
            PathPart::Parent => out.push_str("../"),
            PathPart::Name(bytes) => {
                out.push_str(std::str::from_utf8(bytes).unwrap());
                out.push('/');
            }
        }
    }
    out.pop();
    if out.is_empty() {
        out.push('/');
    }
    out
}

fn policy(roots: &[&str], exclusions: &[&str], recursive: bool, debounce_ms: u64) -> WatchPolicy {
    WatchPolicy {
        roots: roots.iter().map(|r| path(r)).collect(),
        recursive,
        exclusions: exclusions.iter().map(|e| path(e)).collect(),
        follow_symlinks: false,
        debounce_ms,
    }
}

fn stamp(len: u64) -> FileStamp {
    FileStamp { is_dir: false, len, modified: Some(1_000) }
}

#[test]
fn paths_are_ordered_component_by_component() {
    assert!(path_before(&path("/a/b"), &path("/a-b")));
    assert!(!path_before(&path("/a-b"), &path("/a/b")));
    assert!(path_before(&path("/a"), &path("/a/b")));
    assert!(path_before(&path("/Z"), &path("/a")));
    assert!(!path_before(&path("/a"), &path("/a")));
    let p = std::path::Path::new("/a/b");
    let q = std::path::Path::new("/a-b");
    assert_eq!(p < q, path_before(&path("/a/b"), &path("/a-b")));
}

#[test]
fn prefixes_are_whole_components() {
    assert!(path_starts_with(&path("/srv/app/log"), &path("/srv/app")));
    assert!(!path_starts_with(&path("/srv/application"), &path("/srv/app")));
    assert!(path_starts_with(&path("/srv/app"), &path("/srv/app")));
    assert!(path_eq(&path("/x/y"), &path("/x/y")));
    assert!(!path_eq(&path("/x/y"), &path("/x")));
}

#[test]
fn changed_paths_need_a_root_no_exclusion_and_no_link() {
    let p = policy(&["/srv/app"], &["/srv/app/logs"], true, 0);
    assert!(should_include_path(&path("/srv/app/main.rs"), &p, Some(false)));
    assert!(should_include_path(&path("/srv/app/gone.rs"), &p, None));
    assert!(!should_include_path(&path("/srv/app/link"), &p, Some(true)));
    assert!(!should_include_path(&path("/srv/app/logs/today"), &p, Some(false)));
    assert!(!should_include_path(&path("/srv/other"), &p, Some(false)));
}

#[test]
fn rescans_skip_exclusions_links_and_missing_paths() {
    let p = policy(&["/r"], &["/r/skip"], true, 0);
    let found = PathMetadata::Found { is_symlink: false, is_dir: true };
    assert_eq!(scan_step(WATCH_RESCAN_ENTRY_LIMIT, &path("/r"), &p, found), ScanStep::TooMany);
    assert_eq!(scan_step(0, &path("/r/skip/x"), &p, found), ScanStep::Skip);
    assert_eq!(scan_step(0, &path("/r/a"), &p, PathMetadata::Missing), ScanStep::Skip);
    assert_eq!(scan_step(0, &path("/r/a"), &p, PathMetadata::Unreadable), ScanStep::InspectFailed);
    assert_eq!(
        scan_step(0, &path("/r/a"), &p, PathMetadata::Found { is_symlink: true, is_dir: true }),
        ScanStep::Skip
    );
    assert_eq!(scan_step(0, &path("/r/a"), &p, found), ScanStep::Record { recurse: true });
    let flat = policy(&["/r"], &[], false, 0);
    assert_eq!(scan_step(0, &path("/r/a"), &flat, found), ScanStep::Record { recurse: false });
}

#[test]
fn path_sets_keep_order_and_no_duplicates() {
    let mut set = PathSet::new();
    set.insert(path("/b"));
    set.insert(path("/a/z"));
    set.insert(path("/b"));
    set.insert(path("/a"));
    assert_eq!(set.len(), 3);
    let first_two: Vec<String> = set.first(2).iter().map(|p| text(p)).collect();
    assert_eq!(first_two, vec!["/a", "/a/z"]);
    let all: Vec<String> = set.take_all().iter().map(|p| text(p)).collect();
    assert_eq!(all, vec!["/a", "/a/z", "/b"]);
    assert_eq!(set.len(), 0);
}

#[test]
fn a_diff_lists_added_removed_and_modified_paths_in_order() {
    let mut before = Snapshot::new();
    before.record(path("/r/keep"), stamp(1));
    before.record(path("/r/gone"), stamp(1));
    before.record(path("/r/edit"), stamp(1));
    let mut after = Snapshot::new();
    after.record(path("/r/keep"), stamp(1));
    after.record(path("/r/edit"), stamp(2));
    after.record(path("/r/new"), stamp(5));
    after.record(path("/r/new"), stamp(6));
    assert_eq!(after.len(), 3);
    let diff: Vec<String> = snapshot_diff(&before, &after).iter().map(|p| text(p)).collect();
    assert_eq!(diff, vec!["/r/edit", "/r/gone", "/r/new"]);
    assert!(snapshot_diff(&after, &after).is_empty());
}

#[test]
fn a_diff_reports_at_most_one_batch() {
    let before = Snapshot::new();
    let mut after = Snapshot::new();
    for i in 0..(WATCH_BATCH_PATH_LIMIT + 5) {
        after.record(path(&format!("/r/{i:05}")), stamp(i as u64));
    }
    let diff = snapshot_diff(&before, &after);
    assert_eq!(diff.len(), WATCH_BATCH_PATH_LIMIT);
    assert_eq!(text(&diff[0]), "/r/00000");
    assert_eq!(text(&diff[WATCH_BATCH_PATH_LIMIT - 1]), format!("/r/{:05}", WATCH_BATCH_PATH_LIMIT - 1));
}

fn changed(paths: &[&str]) -> WatchEvent {
    WatchEvent::Paths(paths.iter().map(|p| (path(p), Some(false))).collect())
}

#[test]
fn a_batch_waits_for_its_debounce() {
    let p = policy(&["/r"], &[], true, 100);
    let mut batch = WatchBatch::new();
    let events = vec![WatchEvent::Access, changed(&["/r/b", "/elsewhere", "/r/a"])];
    assert_eq!(batch.absorb(&events, false, &p, 1_000), None);
    assert!(batch.ready(50_000, 100).is_empty());
    assert_eq!(batch.absorb(&vec![changed(&["/r/c"])], false, &p, 60_000), None);
    assert!(batch.ready(100_999, 100).is_empty());
    let ready: Vec<String> = batch.ready(101_000, 100).iter().map(|p| text(p)).collect();
    assert_eq!(ready, vec!["/r/a", "/r/b", "/r/c"]);
    assert!(batch.ready(500_000, 100).is_empty());
}

#[test]
fn lost_notices_ask_for_a_rescan() {
    let p = policy(&["/r"], &[], true, 0);
    let mut batch = WatchBatch::new();
    assert_eq!(
        batch.absorb(&vec![WatchEvent::Other], false, &p, 0),
        Some(WatchRescanReason::BackendOverflow)
    );
    assert_eq!(
        batch.absorb(&vec![WatchEvent::Failed], false, &p, 0),
        Some(WatchRescanReason::BackendRestart)
    );
    assert_eq!(batch.absorb(&Vec::new(), true, &p, 0), Some(WatchRescanReason::ChannelOverflow));
    batch.rescanned();
    assert!(batch.ready(0, 0).is_empty());
}

#[test]
fn a_full_batch_asks_for_a_rescan() {
    let p = policy(&["/r"], &[], true, 0);
    let mut batch = WatchBatch::new();
    let many: Vec<String> = (0..WATCH_BATCH_PATH_LIMIT + 1).map(|i| format!("/r/{i}")).collect();
    let refs: Vec<&str> = many.iter().map(|s| s.as_str()).collect();
    assert_eq!(
        batch.absorb(&vec![changed(&refs)], false, &p, 0),
        Some(WatchRescanReason::ChannelOverflow)
    );
    assert_eq!(batch.ready(0, 0).len(), WATCH_BATCH_PATH_LIMIT);
}

#[test]
fn a_diff_is_the_same_both_ways() {
    let mut a = Snapshot::new();
    a.record(path("/r/keep"), stamp(1));
    a.record(path("/r/gone"), stamp(1));
    a.record(path("/r/edit"), stamp(1));
    let mut b = Snapshot::new();
    b.record(path("/r/keep"), stamp(1));
    b.record(path("/r/edit"), stamp(2));
    b.record(path("/r/new"), stamp(5));
    let ab: Vec<String> = snapshot_diff(&a, &b).iter().map(|p| text(p)).collect();
    let ba: Vec<String> = snapshot_diff(&b, &a).iter().map(|p| text(p)).collect();
    assert_eq!(ab, ba);
}
