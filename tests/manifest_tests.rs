use media_catalog::catalog::{delete_video, CatalogStore, DeleteError, VideoMetadata};
use media_catalog::manifest::first_segment;
use media_catalog::media::{EntryKind, FileKind};
use media_catalog::reconcile::build_entry;

#[test]
fn first_segment_of_a_manifest() {
    let m = "#EXTM3U\n#EXT-X-VERSION:3\n#EXTINF:10.0,\n  seg000.ts\r\n#EXTINF:9.5,\nseg001.ts\n";
    assert_eq!(first_segment(m), Some("seg000.ts".to_string()));
    assert_eq!(first_segment("#EXTM3U\nlast.ts"), Some("last.ts".to_string()));
    assert_eq!(first_segment("#EXTM3U\n#EXT-X-ENDLIST\n"), None);
    assert_eq!(first_segment(""), None);
    assert_eq!(first_segment("a.tsx\nb.ts"), Some("b.ts".to_string()));
}

#[test]
fn deleting_a_cataloged_video() {
    let mut store = CatalogStore::new();
    let meta = VideoMetadata { duration: None, width: None, height: None, thumbnail_path: None };
    store.insert(build_entry("public", "clip.mp4", EntryKind::File(FileKind::Mp4), "t".to_string(), None, meta, 1)).unwrap();
    assert_eq!(delete_video(&mut store, "public/clip.mp4"), Ok(Some("clip.jpg".to_string())));
    assert_eq!(delete_video(&mut store, "public/clip.mp4"), Err(DeleteError::NotFound));
    assert_eq!(store.count_all(), 0);
}
