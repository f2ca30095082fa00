use media_catalog::paths::{
    get_correct_thumbnail_path, get_thumbnail_web_path, get_web_path, join_path, relative_path,
    thumbnail_file_name, thumbnail_path_for, to_forward_slashes, TreeBuilder,
};

#[test]
fn joining_and_parents() {
    assert_eq!(join_path("/media", "a.mp4"), "/media/a.mp4");
    assert_eq!(TreeBuilder::get_parent_path("public/show/a.mp4"), Some("public/show".to_string()));
    assert_eq!(TreeBuilder::get_parent_path("/a"), Some("/".to_string()));
    assert_eq!(TreeBuilder::get_parent_path("a"), Some("".to_string()));
    assert_eq!(TreeBuilder::get_parent_path("/"), None);
    assert_eq!(TreeBuilder::get_parent_path(""), None);
}

#[test]
fn thumbnail_locations() {
    assert_eq!(get_correct_thumbnail_path("show/a.mp4"), "thumbnails/show/a.jpg");
    assert_eq!(get_correct_thumbnail_path("show.v1/clip"), "thumbnails/show.v1/clip.jpg");
    assert_eq!(get_correct_thumbnail_path("a.b.mp4"), "thumbnails/a.b.jpg");
    assert_eq!(relative_path("/media/show/a.mp4", "/media"), "show/a.mp4");
    assert_eq!(relative_path("/other/a.mp4", "/media"), "a.mp4");
    assert_eq!(thumbnail_path_for("/media/show/a.mp4", "/media"), "thumbnails/show/a.jpg");
}

#[test]
fn web_paths() {
    assert_eq!(get_web_path("show\\a.mp4"), "/public/show/a.mp4");
    assert_eq!(get_web_path("public/a.mp4"), "/public/a.mp4");
    assert_eq!(to_forward_slashes("a\\b\\c"), "a/b/c");
    assert_eq!(get_thumbnail_web_path("show/a.mp4", true), Some("/thumbnails/show/a.jpg".to_string()));
    assert_eq!(get_thumbnail_web_path("show/a.mp4", false), None);
}

#[test]
fn thumbnail_names_of_deleted_files() {
    assert_eq!(thumbnail_file_name("public/show/a.mp4"), Some("a.jpg".to_string()));
    assert_eq!(thumbnail_file_name("public/.hidden"), Some(".hidden.jpg".to_string()));
    assert_eq!(thumbnail_file_name("public/"), None);
}
