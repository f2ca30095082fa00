use media_catalog::catalog::{get_video_tree, CatalogEntry, CatalogStore, StoreError, VideoMetadata};
use media_catalog::media::{classify_entry, EntryKind, FileKind};
use media_catalog::pipeline::TaskType;
use media_catalog::reconcile::{build_entry, derivation_job, is_record_changed, is_under, known_metadata, reconcile, DirectorySync, SyncError, SyncReport};

fn no_meta() -> VideoMetadata {
    VideoMetadata { duration: None, width: None, height: None, thumbnail_path: None }
}

fn full_meta() -> VideoMetadata {
    VideoMetadata {
        duration: Some("00:01:00".to_string()),
        width: Some(1920),
        height: Some(1080),
        thumbnail_path: Some("thumbnails/x.jpg".to_string()),
    }
}

fn file(parent: &str, name: &str, created: &str) -> CatalogEntry {
    build_entry(parent, name, EntryKind::File(FileKind::Mp4), created.to_string(), Some(2048), full_meta(), 1)
}

fn paths(store: &CatalogStore) -> Vec<String> {
    let mut v: Vec<String> = store.all_entries().into_iter().map(|e| e.path).collect();
    v.sort();
    v
}

#[test]
fn new_deleted_and_unchanged_files() {
    let mut store = CatalogStore::new();
    store.insert(file("/media", "b.mp4", "2024-01-01 00:00:00")).unwrap();
    store.insert(file("/media", "c.mp4", "2024-01-02 00:00:00")).unwrap();
    let observed = vec![file("/media", "a.mp4", "2024-01-03 00:00:00"), file("/media", "c.mp4", "2024-01-02 00:00:00")];
    let report = reconcile(&mut store, &observed, &Vec::new());
    assert_eq!(report, SyncReport { inserted: 1, replaced: 0, deleted: 1, skipped: 1, errors: 0 });
    assert_eq!(paths(&store), vec!["/media/a.mp4".to_string(), "/media/c.mp4".to_string()]);
    assert!(store.get_video_by_path("/media/b.mp4").is_none());
}

#[test]
fn hls_directory_is_one_leaf() {
    let children: Vec<String> = ["index.m3u8", "seg0.ts", "seg1.ts", "seg2.ts"].iter().map(|s| s.to_string()).collect();
    let kind = classify_entry(true, "show1", &children).unwrap();
    assert_eq!(kind, EntryKind::HlsContainer);
    let none: Vec<String> = Vec::new();
    for c in &children {
        assert_eq!(classify_entry(false, c, &none), None);
    }
    let mut store = CatalogStore::new();
    let observed = vec![build_entry("/media", "show1", kind, String::new(), None, no_meta(), 1)];
    let report = reconcile(&mut store, &observed, &Vec::new());
    assert_eq!(report.inserted, 1);
    assert_eq!(store.count_all(), 1);
    assert_eq!(store.get_video_by_path("/media/show1").unwrap().kind, EntryKind::HlsContainer);
    assert!(store.get_children("/media/show1").is_empty());
    assert!(store.get_video_by_path("/media/show1/index.m3u8").is_none());
}

#[test]
fn second_pass_skips_everything() {
    let mut store = CatalogStore::new();
    let observed = vec![
        file("/media", "a.mp4", "t1"),
        file("/media", "b.mp4", "t2"),
        build_entry("/media", "s.srt", EntryKind::File(FileKind::Subtitle), "t3".to_string(), Some(10), no_meta(), 1),
    ];
    let first = reconcile(&mut store, &observed, &Vec::new());
    assert_eq!(first.inserted, 3);
    let second = reconcile(&mut store, &observed, &Vec::new());
    assert_eq!(second, SyncReport { inserted: 0, replaced: 0, deleted: 0, skipped: 3, errors: 0 });
}

#[test]
fn catalog_matches_observed_set() {
    let mut store = CatalogStore::new();
    store.insert(file("/media", "old.mp4", "t0")).unwrap();
    let observed = vec![
        build_entry("/media", "season", EntryKind::Directory, "t".to_string(), None, no_meta(), 2),
        file("/media/season", "e1.mp4", "t1"),
        file("/media", "x.mp4", "t2"),
    ];
    reconcile(&mut store, &observed, &Vec::new());
    assert_eq!(
        paths(&store),
        vec!["/media/season".to_string(), "/media/season/e1.mp4".to_string(), "/media/x.mp4".to_string()]
    );
    let roots = store.get_root_videos("/media");
    assert_eq!(roots.len(), 2);
    let kids = store.get_children("/media/season");
    assert_eq!(kids.len(), 1);
    assert_eq!(kids[0].path, "/media/season/e1.mp4");
}

#[test]
fn changed_rows_are_replaced() {
    let mut store = CatalogStore::new();
    store.insert(file("/media", "a.mp4", "t1")).unwrap();
    let bare = build_entry("/media", "b.mp4", EntryKind::File(FileKind::Mp4), "t2".to_string(), None, no_meta(), 1);
    store.insert(bare).unwrap();
    let observed = vec![file("/media", "a.mp4", "t9"), file("/media", "b.mp4", "t2")];
    let report = reconcile(&mut store, &observed, &Vec::new());
    assert_eq!(report.replaced, 2);
    assert_eq!(store.get_video_by_path("/media/a.mp4").unwrap().created_at, "t9");
    assert_eq!(store.get_video_by_path("/media/b.mp4").unwrap().width, Some(1920));
}

#[test]
fn missing_attributes_alone_do_not_change_a_row() {
    let old = file("/media", "a.mp4", "t1");
    let new = build_entry("/media", "a.mp4", EntryKind::File(FileKind::Mp4), "t1".to_string(), Some(2048), no_meta(), 2);
    assert!(!is_record_changed(&new, &old));
    assert!(is_record_changed(&old, &new));
}

#[test]
fn duplicate_insert_is_refused() {
    let mut store = CatalogStore::new();
    assert!(store.insert(file("/media", "a.mp4", "t1")).is_ok());
    assert_eq!(store.insert(file("/media", "a.mp4", "t2")), Err(StoreError::DuplicatePath));
    assert_eq!(store.count_all(), 1);
    assert_eq!(store.get_video_by_path("/media/a.mp4").unwrap().created_at, "t1");
}

#[test]
fn delete_and_metadata_updates() {
    let mut store = CatalogStore::new();
    let bare = build_entry("/media", "a.mp4", EntryKind::File(FileKind::Mp4), "t".to_string(), None, no_meta(), 1);
    store.insert(bare).unwrap();
    assert!(store.update_derived("/media/a.mp4", full_meta()));
    let e = store.get_video_by_path("/media/a.mp4").unwrap();
    assert_eq!(e.height, Some(1080));
    assert_eq!(e.duration, Some("00:01:00".to_string()));
    assert!(store.delete("/media/a.mp4"));
    assert!(!store.delete("/media/a.mp4"));
    assert!(!store.update_derived("/media/a.mp4", full_meta()));
    assert_eq!(store.count_all(), 0);
}

#[test]
fn built_entries() {
    let e = build_entry("/media", "s.vtt", EntryKind::File(FileKind::Subtitle), "t".to_string(), Some(1536), no_meta(), 7);
    assert_eq!(e.path, "/media/s.vtt");
    assert_eq!(e.parent_path, "/media");
    assert_eq!(e.subtitle, Some("/media/s.vtt".to_string()));
    assert_eq!(e.size, Some("1.50 KB".to_string()));
    assert_eq!(e.last_synced, 7);
}

#[test]
fn jobs_for_entries() {
    let bare = build_entry("/media", "a.mp4", EntryKind::File(FileKind::Mp4), "t".to_string(), None, no_meta(), 1);
    match derivation_job(&bare, "thumbnails/a.jpg") {
        Some(TaskType::ExtractMetadata { video_path, thumbnail_path }) => {
            assert_eq!(video_path, "/media/a.mp4");
            assert_eq!(thumbnail_path, "thumbnails/a.jpg");
        }
        other => panic!("unexpected job {:?}", other),
    }
    assert!(derivation_job(&file("/media", "a.mp4", "t"), "thumbnails/a.jpg").is_none());
    let img = build_entry("/media", "c.png", EntryKind::File(FileKind::Image), "t".to_string(), None, no_meta(), 1);
    assert!(matches!(derivation_job(&img, "thumbnails/c.jpg"), Some(TaskType::GenerateThumbnail { .. })));
    let dir = build_entry("/media", "d", EntryKind::Directory, "t".to_string(), None, no_meta(), 1);
    assert!(derivation_job(&dir, "thumbnails/d.jpg").is_none());
    let hls = build_entry("/media", "show", EntryKind::HlsContainer, "t".to_string(), None, no_meta(), 1);
    assert!(matches!(derivation_job(&hls, "thumbnails/show.jpg"), Some(TaskType::GenerateThumbnail { .. })));
}

#[test]
fn scan_errors_are_reported() {
    let mut store = CatalogStore::new();
    store.insert(file("/media/a", "x.mp4", "t")).unwrap();
    store.insert(file("/media", "b.mp4", "t")).unwrap();
    store.insert(file("/media", "gone.mp4", "t")).unwrap();
    store.insert(file("/media/ab", "y.mp4", "t")).unwrap();
    let unread = vec!["/media/a".to_string(), "/media/b.mp4".to_string(), "/media/c".to_string()];
    let report = reconcile(&mut store, &Vec::new(), &unread);
    assert_eq!(report, SyncReport { inserted: 0, replaced: 0, deleted: 2, skipped: 0, errors: 3 });
    assert!(store.get_video_by_path("/media/a/x.mp4").is_some());
    assert!(store.get_video_by_path("/media/b.mp4").is_some());
    assert!(store.get_video_by_path("/media/gone.mp4").is_none());
    assert!(store.get_video_by_path("/media/ab/y.mp4").is_none());
}

#[test]
fn under_paths() {
    assert!(is_under("/media/a/x.mp4", "/media/a"));
    assert!(is_under("/media/a", "/media/a"));
    assert!(!is_under("/media/ab", "/media/a"));
    assert!(!is_under("/media", "/media/a"));
}

#[test]
fn forced_rebuild_inserts_everything_again() {
    let mut store = CatalogStore::new();
    let observed = vec![file("/media", "a.mp4", "t1"), file("/media", "b.mp4", "t2")];
    let none: Vec<String> = Vec::new();
    DirectorySync::initialize_from_directory_with_progress(&mut store, &vec![true], &observed, &none, false).unwrap();
    let again = DirectorySync::initialize_from_directory_with_progress(&mut store, &vec![true], &observed, &none, true);
    assert_eq!(again, Ok(SyncReport { inserted: 2, replaced: 0, deleted: 0, skipped: 0, errors: 0 }));
    let mut empty = CatalogStore::new();
    empty.insert(file("/media", "a.mp4", "t1")).unwrap();
    empty.clear();
    assert_eq!(empty.count_all(), 0);
}

#[test]
fn tree_of_roots_and_children() {
    let mut store = CatalogStore::new();
    store.insert(build_entry("public", "season", EntryKind::Directory, "t".to_string(), None, no_meta(), 1)).unwrap();
    store.insert(file("public/season", "e1.mp4", "t")).unwrap();
    store.insert(file("public/season", "e2.mp4", "t")).unwrap();
    store.insert(build_entry("public", "show", EntryKind::HlsContainer, "t".to_string(), None, no_meta(), 1)).unwrap();
    store.insert(file("public", "a.mp4", "t")).unwrap();
    let tree = get_video_tree(&store, "public");
    assert_eq!(tree.len(), 3);
    let season = tree.iter().find(|n| n.entry.name == "season").unwrap();
    assert_eq!(season.children.len(), 2);
    let show = tree.iter().find(|n| n.entry.name == "show").unwrap();
    assert!(show.children.is_empty());
}

#[test]
fn missing_root_or_duplicate_observation_changes_nothing() {
    let mut store = CatalogStore::new();
    store.insert(file("/media", "a.mp4", "t1")).unwrap();
    let none: Vec<String> = Vec::new();
    let observed = vec![file("/media", "b.mp4", "t2")];
    let r = DirectorySync::initialize_from_directory_with_progress(&mut store, &vec![true, false], &observed, &none, false);
    assert_eq!(r, Err(SyncError::MissingRoot(1)));
    assert!(store.get_video_by_path("/media/a.mp4").is_some());
    let twice = vec![file("/media", "b.mp4", "t2"), file("/media", "b.mp4", "t3")];
    let r = DirectorySync::initialize_from_directory_with_progress(&mut store, &vec![true], &twice, &none, true);
    assert_eq!(r, Err(SyncError::DuplicatePath));
    assert_eq!(store.count_all(), 1);
}

#[test]
fn children_are_served_by_kind_then_name() {
    let mut store = CatalogStore::new();
    store.insert(file("/m", "b.mp4", "t")).unwrap();
    store.insert(build_entry("/m", "z.png", EntryKind::File(FileKind::Image), "t".to_string(), None, no_meta(), 1)).unwrap();
    store.insert(build_entry("/m", "show", EntryKind::HlsContainer, "t".to_string(), None, no_meta(), 1)).unwrap();
    store.insert(file("/m", "a.mp4", "t")).unwrap();
    store.insert(build_entry("/m", "s.srt", EntryKind::File(FileKind::Subtitle), "t".to_string(), None, no_meta(), 1)).unwrap();
    let names: Vec<String> = store.get_children("/m").into_iter().map(|e| e.name).collect();
    assert_eq!(names, vec!["s.srt", "a.mp4", "b.mp4", "z.png", "show"]);
    let roots: Vec<String> = store.get_root_videos("/m").into_iter().map(|e| e.name).collect();
    assert_eq!(roots, names);
}

#[test]
fn known_attributes_are_reused() {
    let header = Some(("00:02:00".to_string(), 640, 480));
    let m = known_metadata(EntryKind::File(FileKind::Mp4), Some("t/a.jpg".to_string()), header.clone(), None);
    assert_eq!((m.duration, m.width, m.height, m.thumbnail_path), (Some("00:02:00".to_string()), Some(640), Some(480), Some("t/a.jpg".to_string())));
    let m = known_metadata(EntryKind::File(FileKind::Mp4), None, header, None);
    assert_eq!((m.duration, m.width, m.thumbnail_path), (None, None, None));
    let m = known_metadata(EntryKind::HlsContainer, None, None, Some("00:10:00".to_string()));
    assert_eq!(m.duration, Some("00:10:00".to_string()));
    let m = known_metadata(EntryKind::File(FileKind::Image), None, None, Some("00:10:00".to_string()));
    assert_eq!(m.duration, None);
}
