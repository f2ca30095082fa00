use media_catalog::media::{
    classify_directory, classify_entry, descends_into, has_m3u8_file, has_video_file, extension_of, file_kind, is_video_or_container,
    is_video_related_path, kind_label, thumbnail_action, DirClass, EntryKind, FileKind,
    ThumbnailAction,
};

fn names(v: &[&str]) -> Vec<String> {
    v.iter().map(|s| s.to_string()).collect()
}

#[test]
fn extensions() {
    assert_eq!(extension_of("a.mp4"), Some("mp4"));
    assert_eq!(extension_of("archive.tar.gz"), Some("gz"));
    assert_eq!(extension_of(".hidden"), None);
    assert_eq!(extension_of("noext"), None);
    assert_eq!(extension_of("trailing."), Some(""));
}

#[test]
fn file_kinds_by_extension() {
    assert_eq!(file_kind("movie.MP4"), FileKind::Mp4);
    assert_eq!(file_kind("subs.srt"), FileKind::Subtitle);
    assert_eq!(file_kind("subs.vtt"), FileKind::Subtitle);
    assert_eq!(file_kind("cover.PNG"), FileKind::Image);
    assert_eq!(file_kind("seg0.ts"), FileKind::Unknown);
    assert_eq!(file_kind("notes.txt"), FileKind::Unknown);
}

#[test]
fn directory_classes() {
    assert_eq!(classify_directory(&names(&["index.m3u8", "a.ts", "b.mp4"])), DirClass::HlsContainer);
    assert_eq!(classify_directory(&names(&["a.mp4", "b.txt"])), DirClass::Container);
    assert_eq!(classify_directory(&names(&["b.txt", "c.jpg"])), DirClass::Skip);
    assert_eq!(classify_directory(&names(&[])), DirClass::Skip);
}

#[test]
fn entry_classification() {
    let none: Vec<String> = Vec::new();
    assert_eq!(classify_entry(false, "a.mp4", &none), Some(EntryKind::File(FileKind::Mp4)));
    assert_eq!(classify_entry(false, "seg.ts", &none), None);
    assert_eq!(classify_entry(false, "index.m3u8", &none), None);
    assert_eq!(classify_entry(true, "show", &names(&["index.m3u8"])), Some(EntryKind::HlsContainer));
    assert_eq!(classify_entry(true, "season", &names(&["e1.mp4"])), Some(EntryKind::Directory));
    assert_eq!(classify_entry(true, "empty", &none), None);
}

#[test]
fn related_paths_and_listings() {
    assert!(is_video_related_path(true, "anything"));
    assert!(is_video_related_path(false, "x.gif"));
    assert!(!is_video_related_path(false, "x.ts"));
    let none: Vec<String> = Vec::new();
    assert!(is_video_or_container(false, true, "x.ts", &none));
    assert!(is_video_or_container(false, true, "x.M3U8", &none));
    assert!(!is_video_or_container(false, true, "x.txt", &none));
    assert!(!is_video_or_container(false, false, "x.mp4", &none));
    assert!(is_video_or_container(true, false, "d", &names(&["a.mp4"])));
    assert!(!is_video_or_container(true, false, "d", &names(&["a.txt"])));
}

#[test]
fn labels_and_thumbnail_actions() {
    assert_eq!(kind_label(EntryKind::HlsContainer), "hls_directory");
    assert_eq!(kind_label(EntryKind::File(FileKind::Subtitle)), "subtitle");
    assert_eq!(thumbnail_action("a.mkv"), ThumbnailAction::VideoFrame);
    assert_eq!(thumbnail_action("a.jpeg"), ThumbnailAction::ScaledImage);
    assert_eq!(thumbnail_action("a.ts"), ThumbnailAction::MediaPlaceholder);
    assert_eq!(thumbnail_action("a.doc"), ThumbnailAction::FilePlaceholder);
}

#[test]
fn directory_content_checks() {
    assert!(has_m3u8_file(&names(&["a.ts", "INDEX.M3U8"])));
    assert!(!has_m3u8_file(&names(&["a.ts"])));
    assert!(has_video_file(&names(&["x.Mp4"])));
    assert!(!has_video_file(&names(&["x.mp3"])));
    assert!(descends_into(EntryKind::Directory));
    assert!(!descends_into(EntryKind::HlsContainer));
    assert!(!descends_into(EntryKind::File(FileKind::Mp4)));
}

#[test]
fn selection_of_a_listing() {
    use_selection();
}

fn item(parent: &str, name: &str, is_dir: bool, children: &[&str]) -> media_catalog::snapshot::FsItem {
    media_catalog::snapshot::FsItem { parent: parent.to_string(), name: name.to_string(), is_dir, child_names: names(children) }
}

fn use_selection() {
    let roots = vec!["/media".to_string()];
    let items = vec![
        item("/media", "a.mp4", false, &[]),
        item("/media", "show1", true, &["index.m3u8", "s0.ts"]),
        item("/media/show1", "index.m3u8", false, &[]),
        item("/media/show1", "s0.ts", false, &[]),
        item("/media", "season", true, &["e1.mp4", "extras"]),
        item("/media/season", "e1.mp4", false, &[]),
        item("/media/season", "extras", true, &["x.mp4"]),
        item("/media/season/extras", "x.mp4", false, &[]),
        item("/media", "notes", true, &["n.txt", "deep"]),
        item("/media/notes", "deep", true, &["d.mp4"]),
        item("/media/notes/deep", "d.mp4", false, &[]),
        item("/media", "readme.txt", false, &[]),
    ];
    let kinds = media_catalog::snapshot::select(&roots, &items);
    let picked: Vec<String> = items.iter().zip(&kinds).filter(|(_, k)| k.is_some()).map(|(i, _)| format!("{}/{}", i.parent, i.name)).collect();
    assert_eq!(picked, vec!["/media/a.mp4", "/media/show1", "/media/season", "/media/season/e1.mp4", "/media/season/extras", "/media/season/extras/x.mp4"]);
    assert_eq!(kinds[1], Some(EntryKind::HlsContainer));
}
