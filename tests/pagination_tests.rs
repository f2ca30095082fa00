use media_catalog::catalog::{CatalogEntry, VideoMetadata};
use media_catalog::media::{EntryKind, FileKind};
use media_catalog::pagination::{
    contains_text, default_page, default_page_size, get_root_videos_paginated, pagination_info, validate_pagination, PageError,
};
use media_catalog::reconcile::build_entry;
use media_catalog::sorting::{sort_choice, sort_entries, text_le, SortField, SortOrder};

fn entry(name: &str) -> CatalogEntry {
    let meta = VideoMetadata { duration: None, width: None, height: None, thumbnail_path: None };
    build_entry("public", name, EntryKind::File(FileKind::Mp4), "t".to_string(), None, meta, 1)
}

fn items(n: usize) -> Vec<CatalogEntry> {
    (0..n).map(|i| entry(&format!("v{}.mp4", i))).collect()
}

#[test]
fn defaults_and_validation() {
    assert_eq!(default_page(), 1);
    assert_eq!(default_page_size(), 20);
    assert_eq!(validate_pagination(0, 10), Err(PageError::PageZero));
    assert_eq!(validate_pagination(1, 0), Err(PageError::PageSizeZero));
    assert_eq!(validate_pagination(1, 1001), Err(PageError::PageSizeTooLarge));
    assert_eq!(validate_pagination(1, 1000), Ok(()));
}

#[test]
fn page_info() {
    let i = pagination_info(2, 10, 25);
    assert_eq!((i.total_pages, i.has_next, i.has_prev), (3, true, true));
    let i = pagination_info(1, 10, 0);
    assert_eq!((i.total_pages, i.has_next, i.has_prev), (0, false, false));
    let i = pagination_info(3, 10, 30);
    assert_eq!((i.total_pages, i.has_next), (3, false));
}

#[test]
fn pages_of_a_listing() {
    let page = get_root_videos_paginated(items(25), 3, 10, None, None, None).unwrap();
    assert_eq!(page.videos.len(), 5);
    assert_eq!(page.videos[0].name, "v20.mp4");
    assert_eq!(page.pagination.total, 25);
    let beyond = get_root_videos_paginated(items(25), 4, 10, None, None, None).unwrap();
    assert!(beyond.videos.is_empty());
    assert!(matches!(get_root_videos_paginated(items(3), 0, 10, None, None, None), Err(PageError::PageZero)));
}

#[test]
fn search_filters_by_name_or_path() {
    let list = vec![entry("Holiday.mp4"), entry("work.mp4"), entry("holiday2.mp4")];
    let page = get_root_videos_paginated(list, 1, 10, Some("HOLI"), Some("name"), Some("asc")).unwrap();
    assert_eq!(page.pagination.total, 2);
    assert_eq!(page.videos[1].name, "holiday2.mp4");
    let all = get_root_videos_paginated(items(4), 1, 10, Some(""), None, None).unwrap();
    assert_eq!(all.pagination.total, 4);
    assert!(contains_text("public/Work.mp4", "work"));
    assert!(!contains_text("abc", "abcd"));
}

fn sized(name: &str, created: &str, size: Option<&str>) -> CatalogEntry {
    let meta = VideoMetadata { duration: None, width: None, height: None, thumbnail_path: None };
    let mut e = build_entry("public", name, EntryKind::File(FileKind::Mp4), created.to_string(), None, meta, 1);
    e.size = size.map(|s| s.to_string());
    e
}

#[test]
fn listings_are_ordered() {
    let list = || vec![sized("b.mp4", "2024-02", Some("2.00 KB")), sized("a.mp4", "2024-03", None), sized("c.mp4", "2024-01", Some("1.00 KB"))];
    let names = |p: media_catalog::pagination::PaginatedVideoList| p.videos.into_iter().map(|e| e.name).collect::<Vec<_>>();
    assert_eq!(names(get_root_videos_paginated(list(), 1, 10, None, None, None).unwrap()), vec!["a.mp4", "b.mp4", "c.mp4"]);
    assert_eq!(names(get_root_videos_paginated(list(), 1, 10, None, Some("name"), Some("ASC")).unwrap()), vec!["a.mp4", "b.mp4", "c.mp4"]);
    assert_eq!(names(get_root_videos_paginated(list(), 1, 10, None, Some("name"), None).unwrap()), vec!["c.mp4", "b.mp4", "a.mp4"]);
    assert_eq!(names(get_root_videos_paginated(list(), 1, 10, None, None, Some("asc")).unwrap()), vec!["c.mp4", "b.mp4", "a.mp4"]);
    assert_eq!(names(get_root_videos_paginated(list(), 1, 10, None, Some("size"), Some("asc")).unwrap()), vec!["a.mp4", "c.mp4", "b.mp4"]);
    assert_eq!(names(get_root_videos_paginated(list(), 1, 10, None, Some("bogus"), Some("asc")).unwrap()), vec!["a.mp4", "b.mp4", "c.mp4"]);
    assert_eq!(names(get_root_videos_paginated(list(), 2, 2, None, Some("name"), Some("asc")).unwrap()), vec!["c.mp4"]);
}

#[test]
fn sorting_helpers() {
    assert_eq!(sort_choice(None, None), (SortField::CreatedAt, SortOrder::Desc));
    assert_eq!(sort_choice(Some("duration"), Some("Asc")), (SortField::Duration, SortOrder::Asc));
    assert_eq!(sort_choice(Some("Name"), Some("asc")), (SortField::CreatedAt, SortOrder::Desc));
    assert!(text_le("abc", "abd"));
    assert!(text_le("ab", "abc"));
    assert!(!text_le("b", "abc"));
    assert!(text_le("", ""));
    let sorted = sort_entries(vec![sized("z", "1", None), sized("y", "1", None), sized("x", "0", None)], SortField::CreatedAt, SortOrder::Asc);
    let names: Vec<String> = sorted.into_iter().map(|e| e.name).collect();
    assert_eq!(names, vec!["x", "z", "y"]);
}

#[test]
fn listing_serves_large_pages() {
    let page = get_root_videos_paginated(items(3), 1, 5000, None, None, None).unwrap();
    assert_eq!(page.videos.len(), 3);
    assert_eq!(page.pagination.total_pages, 1);
    assert!(matches!(get_root_videos_paginated(items(3), 1, 0, None, None, None), Err(PageError::PageSizeZero)));
}
