//! Classification of directory entries into catalog kinds.
use vstd::prelude::*;
use crate::text::{eq_ignore_ascii_case, str_eq_ignore_case};

verus! {

/// The kind of a cataloged regular file.
#[derive(Clone, Copy, Debug, PartialEq, Eq, Structural)]
pub enum FileKind {
    Mp4,
    Subtitle,
    Image,
    Unknown,
}

/// The kind of a catalog entry.
#[derive(Clone, Copy, Debug, PartialEq, Eq, Structural)]
pub enum EntryKind {
    File(FileKind),
    /// A directory holding media files; its children are cataloged too.
    Directory,
    /// A directory holding a streaming manifest; cataloged as one leaf.
    HlsContainer,
}

/// How a directory is treated by a scan.
#[derive(Clone, Copy, Debug, PartialEq, Eq, Structural)]
pub enum DirClass {
    HlsContainer,
    Container,
    Skip,
}

/// Index of the last occurrence of `c` in `s`, or -1.
pub open spec fn last_index_of(s: Seq<char>, c: char) -> int
    decreases s.len(),
{
    if s.len() == 0 {
        -1
    } else if s.last() == c {
        s.len() - 1
    } else {
        last_index_of(s.drop_last(), c)
    }
}

proof fn lemma_last_index_of(s: Seq<char>, c: char)
    ensures
        -1 <= last_index_of(s, c) < s.len(),
        last_index_of(s, c) >= 0 ==> s[last_index_of(s, c)] == c,
        forall|j: int| last_index_of(s, c) < j < s.len() ==> s[j] != c,
        forall|j: int| 0 <= j < s.len() && s[j] == c ==> j <= last_index_of(s, c),
    decreases s.len(),
{
    if s.len() > 0 && s.last() != c {
        let t = s.drop_last();
        lemma_last_index_of(t, c);
        assert(last_index_of(s, c) == last_index_of(t, c));
        assert forall|j: int| 0 <= j < t.len() implies t[j] == s[j] by {}
        assert(s[s.len() - 1] != c);
    }
}

/// Bounds on `last_index_of`.
pub proof fn lemma_last_index_of_bounds(s: Seq<char>, c: char)
    ensures
        -1 <= last_index_of(s, c) < s.len(),
        last_index_of(s, c) >= 0 ==> s[last_index_of(s, c)] == c,
{
    lemma_last_index_of(s, c);
}

/// The extension of a file name: what follows its last dot, where that dot
/// is not the name's first character.
pub open spec fn extension(name: Seq<char>) -> Option<Seq<char>> {
    let k = last_index_of(name, '.');
    if k > 0 {
        Some(name.subrange(k + 1, name.len() as int))
    } else {
        None
    }
}

/// Whether `name` has an extension equal to `ext` up to ASCII case.
pub open spec fn has_ext(name: Seq<char>, ext: Seq<char>) -> bool {
    match extension(name) {
        Some(e) => eq_ignore_ascii_case(e, ext),
        None => false,
    }
}

pub open spec fn mp4() -> Seq<char> { seq!['m', 'p', '4'] }
pub open spec fn m3u8() -> Seq<char> { seq!['m', '3', 'u', '8'] }
pub open spec fn ts() -> Seq<char> { seq!['t', 's'] }
pub open spec fn vtt() -> Seq<char> { seq!['v', 't', 't'] }
pub open spec fn srt() -> Seq<char> { seq!['s', 'r', 't'] }
pub open spec fn jpg() -> Seq<char> { seq!['j', 'p', 'g'] }
pub open spec fn png() -> Seq<char> { seq!['p', 'n', 'g'] }
pub open spec fn gif() -> Seq<char> { seq!['g', 'i', 'f'] }

/// The kind that a file's extension gives it.
pub open spec fn file_kind_spec(name: Seq<char>) -> FileKind {
    if has_ext(name, mp4()) {
        FileKind::Mp4
    } else if has_ext(name, vtt()) || has_ext(name, srt()) {
        FileKind::Subtitle
    } else if has_ext(name, jpg()) || has_ext(name, png()) || has_ext(name, gif()) {
        FileKind::Image
    } else {
        FileKind::Unknown
    }
}

/// Whether a file is one that the catalog holds: a video, a subtitle or an
/// image. Streaming manifests and segments are not among them.
pub open spec fn is_catalog_file_spec(name: Seq<char>) -> bool {
    file_kind_spec(name) != FileKind::Unknown
}

/// Whether a file is media of any kind, streaming manifests and segments
/// included.
pub open spec fn is_media_file_spec(name: Seq<char>) -> bool {
    is_catalog_file_spec(name) || has_ext(name, m3u8()) || has_ext(name, ts())
}

/// Finds the last occurrence of `c` in `s`.
pub fn find_last(s: &str, c: char) -> (r: Option<usize>)
    ensures
        match r {
            Some(k) => k as int == last_index_of(s@, c),
            None => last_index_of(s@, c) == -1,
        },
{
    proof { lemma_last_index_of(s@, c); }
    let n = s.unicode_len();
    let mut i: usize = n;
    while i > 0
        invariant
            n == s@.len(),
            i <= n,
            forall|j: int| i <= j < n ==> s@[j] != c,
            last_index_of(s@, c) < i,
        decreases i,
    {
        proof { lemma_last_index_of(s@, c); }
        let ch = s.get_char(i - 1);
        if ch == c {
            assert(s@[i - 1] == c);
            return Some(i - 1);
        }
        assert(s@[i - 1] != c);
        i = i - 1;
    }
    None
}

/// The extension of a file name.
pub fn extension_of(name: &str) -> (r: Option<&str>)
    ensures
        match r {
            Some(e) => extension(name@) == Some(e@),
            None => extension(name@).is_none(),
        },
{
    proof { lemma_last_index_of(name@, '.'); }
    let n = name.unicode_len();
    match find_last(name, '.') {
        Some(k) => {
            if k > 0 {
                Some(name.substring_char(k + 1, n))
            } else {
                None
            }
        },
        None => None,
    }
}

/// Whether `name` has the extension `ext`, up to ASCII case.
pub fn name_has_ext(name: &str, ext: &str) -> (r: bool)
    ensures
        r == has_ext(name@, ext@),
{
    match extension_of(name) {
        Some(e) => str_eq_ignore_case(e, ext),
        None => false,
    }
}

/// The kind that a file's extension gives it.
pub fn file_kind(name: &str) -> (r: FileKind)
    ensures
        r == file_kind_spec(name@),
{
    proof {
        reveal_strlit("mp4");
        reveal_strlit("vtt");
        reveal_strlit("srt");
        reveal_strlit("jpg");
        reveal_strlit("png");
        reveal_strlit("gif");
    }
    if name_has_ext(name, "mp4") {
        FileKind::Mp4
    } else if name_has_ext(name, "vtt") || name_has_ext(name, "srt") {
        FileKind::Subtitle
    } else if name_has_ext(name, "jpg") || name_has_ext(name, "png") || name_has_ext(name, "gif") {
        FileKind::Image
    } else {
        FileKind::Unknown
    }
}

/// Whether a changed path is worth a new scan: a directory, or a file that
/// the catalog would hold.
pub fn is_video_related_path(is_dir: bool, name: &str) -> (r: bool)
    ensures
        r == (is_dir || is_catalog_file_spec(name@)),
{
    if is_dir {
        return true;
    }
    match file_kind(name) {
        FileKind::Unknown => false,
        _ => true,
    }
}

/// Whether some name in `names` has the extension `ext`.
pub open spec fn any_has_ext(names: Seq<String>, ext: Seq<char>) -> bool {
    exists|i: int| 0 <= i < names.len() && has_ext(#[trigger] names[i]@, ext)
}

/// Whether some name in `names` has the extension `ext`, up to ASCII case.
pub fn contains_ext(names: &Vec<String>, ext: &str) -> (r: bool)
    ensures
        r == any_has_ext(names@, ext@),
{
    let mut i: usize = 0;
    while i < names.len()
        invariant
            i <= names@.len(),
            forall|j: int| 0 <= j < i ==> !has_ext(#[trigger] names@[j]@, ext@),
        decreases names@.len() - i,
    {
        if name_has_ext(names[i].as_str(), ext) {
            return true;
        }
        i = i + 1;
    }
    false
}

/// Whether a streaming manifest is among a directory's immediate children.
pub fn has_m3u8_file(child_names: &Vec<String>) -> (r: bool)
    ensures
        r == any_has_ext(child_names@, m3u8()),
{
    proof { reveal_strlit("m3u8"); }
    contains_ext(child_names, "m3u8")
}

/// Whether an MP4 is among a directory's immediate children.
pub fn has_video_file(child_names: &Vec<String>) -> (r: bool)
    ensures
        r == any_has_ext(child_names@, mp4()),
{
    proof { reveal_strlit("mp4"); }
    contains_ext(child_names, "mp4")
}

/// How a directory whose immediate children are named `names` is treated:
/// a manifest among them makes it a streaming container, else an MP4 among
/// them makes it a container to descend into, else it is skipped.
pub open spec fn dir_class_spec(names: Seq<String>) -> DirClass {
    if any_has_ext(names, m3u8()) {
        DirClass::HlsContainer
    } else if any_has_ext(names, mp4()) {
        DirClass::Container
    } else {
        DirClass::Skip
    }
}

/// Classifies a directory by the names of its immediate children.
pub fn classify_directory(child_names: &Vec<String>) -> (r: DirClass)
    ensures
        r == dir_class_spec(child_names@),
{
    proof {
        reveal_strlit("m3u8");
        reveal_strlit("mp4");
    }
    if has_m3u8_file(child_names) {
        DirClass::HlsContainer
    } else if has_video_file(child_names) {
        DirClass::Container
    } else {
        DirClass::Skip
    }
}

/// The catalog kind of a directory entry, or `None` for one that the catalog
/// does not hold.
pub open spec fn entry_kind_spec(is_dir: bool, name: Seq<char>, child_names: Seq<String>) -> Option<EntryKind> {
    if is_dir {
        match dir_class_spec(child_names) {
            DirClass::HlsContainer => Some(EntryKind::HlsContainer),
            DirClass::Container => Some(EntryKind::Directory),
            DirClass::Skip => None,
        }
    } else if is_catalog_file_spec(name) {
        Some(EntryKind::File(file_kind_spec(name)))
    } else {
        None
    }
}

/// Classifies a directory entry; `child_names` lists a directory's immediate
/// children and is not read for a file.
pub fn classify_entry(is_dir: bool, name: &str, child_names: &Vec<String>) -> (r: Option<EntryKind>)
    ensures
        r == entry_kind_spec(is_dir, name@, child_names@),
{
    if is_dir {
        match classify_directory(child_names) {
            DirClass::HlsContainer => Some(EntryKind::HlsContainer),
            DirClass::Container => Some(EntryKind::Directory),
            DirClass::Skip => None,
        }
    } else {
        let k = file_kind(name);
        match k {
            FileKind::Unknown => None,
            _ => Some(EntryKind::File(k)),
        }
    }
}

/// Whether a scan descends into an entry of this kind: only into plain
/// containers; a streaming container is a leaf.
pub fn descends_into(kind: EntryKind) -> (r: bool)
    ensures
        r == (kind == EntryKind::Directory),
{
    match kind {
        EntryKind::Directory => true,
        _ => false,
    }
}

/// Whether a path is a video file or a directory with video content, as a
/// listing shows it: a directory counts when a manifest or an MP4 is among
/// its immediate children, a file when it is media of any kind.
pub fn is_video_or_container(is_dir: bool, is_file: bool, name: &str, child_names: &Vec<String>) -> (r: bool)
    ensures
        r == if is_dir {
            dir_class_spec(child_names@) != DirClass::Skip
        } else {
            is_file && is_media_file_spec(name@)
        },
{
    proof {
        reveal_strlit("m3u8");
        reveal_strlit("ts");
    }
    if is_dir {
        match classify_directory(child_names) {
            DirClass::Skip => false,
            _ => true,
        }
    } else if is_file {
        match file_kind(name) {
            FileKind::Unknown => name_has_ext(name, "m3u8") || name_has_ext(name, "ts"),
            _ => true,
        }
    } else {
        false
    }
}

/// The name under which a kind is stored and served.
pub open spec fn kind_label_spec(kind: EntryKind) -> Seq<char> {
    match kind {
        EntryKind::File(FileKind::Mp4) => seq!['m', 'p', '4'],
        EntryKind::File(FileKind::Subtitle) => seq!['s', 'u', 'b', 't', 'i', 't', 'l', 'e'],
        EntryKind::File(FileKind::Image) => seq!['i', 'm', 'a', 'g', 'e'],
        EntryKind::File(FileKind::Unknown) => seq!['u', 'n', 'k', 'n', 'o', 'w', 'n'],
        EntryKind::Directory => seq!['d', 'i', 'r', 'e', 'c', 't', 'o', 'r', 'y'],
        EntryKind::HlsContainer => seq!['h', 'l', 's', '_', 'd', 'i', 'r', 'e', 'c', 't', 'o', 'r', 'y'],
    }
}

/// The name under which a kind is stored and served.
pub fn kind_label(kind: EntryKind) -> (r: &'static str)
    ensures
        r@ == kind_label_spec(kind),
{
    proof {
        reveal_strlit("mp4");
        reveal_strlit("subtitle");
        reveal_strlit("image");
        reveal_strlit("unknown");
        reveal_strlit("directory");
        reveal_strlit("hls_directory");
    }
    match kind {
        EntryKind::File(FileKind::Mp4) => "mp4",
        EntryKind::File(FileKind::Subtitle) => "subtitle",
        EntryKind::File(FileKind::Image) => "image",
        EntryKind::File(FileKind::Unknown) => "unknown",
        EntryKind::Directory => "directory",
        EntryKind::HlsContainer => "hls_directory",
    }
}

/// How a file's thumbnail is made.
#[derive(Clone, Copy, Debug, PartialEq, Eq, Structural)]
pub enum ThumbnailAction {
    /// A still frame of the video.
    VideoFrame,
    /// A scaled copy of the image.
    ScaledImage,
    /// A placeholder labelled as media.
    MediaPlaceholder,
    /// A placeholder labelled as a file.
    FilePlaceholder,
}

pub open spec fn is_video_ext(name: Seq<char>) -> bool {
    has_ext(name, mp4()) || has_ext(name, seq!['a', 'v', 'i']) || has_ext(name, seq!['m', 'k', 'v'])
        || has_ext(name, seq!['m', 'o', 'v']) || has_ext(name, m3u8())
}

pub open spec fn is_image_ext(name: Seq<char>) -> bool {
    has_ext(name, jpg()) || has_ext(name, seq!['j', 'p', 'e', 'g']) || has_ext(name, png()) || has_ext(name, gif())
}

/// How the thumbnail of a file named `name` is made: videos and manifests
/// by a frame, images by scaling, segments and subtitles by a media
/// placeholder, anything else by a file placeholder.
pub open spec fn thumbnail_action_spec(name: Seq<char>) -> ThumbnailAction {
    if is_video_ext(name) {
        ThumbnailAction::VideoFrame
    } else if is_image_ext(name) {
        ThumbnailAction::ScaledImage
    } else if has_ext(name, ts()) || has_ext(name, vtt()) || has_ext(name, srt()) {
        ThumbnailAction::MediaPlaceholder
    } else {
        ThumbnailAction::FilePlaceholder
    }
}

fn is_video_name(name: &str) -> (r: bool)
    ensures
        r == is_video_ext(name@),
{
    proof {
        reveal_strlit("mp4");
        reveal_strlit("avi");
        reveal_strlit("mkv");
        reveal_strlit("mov");
        reveal_strlit("m3u8");
    }
    name_has_ext(name, "mp4") || name_has_ext(name, "avi") || name_has_ext(name, "mkv")
        || name_has_ext(name, "mov") || name_has_ext(name, "m3u8")
}

fn is_image_name(name: &str) -> (r: bool)
    ensures
        r == is_image_ext(name@),
{
    proof {
        reveal_strlit("jpg");
        reveal_strlit("jpeg");
        reveal_strlit("png");
        reveal_strlit("gif");
    }
    name_has_ext(name, "jpg") || name_has_ext(name, "jpeg") || name_has_ext(name, "png")
        || name_has_ext(name, "gif")
}

fn is_media_side_name(name: &str) -> (r: bool)
    ensures
        r == (has_ext(name@, ts()) || has_ext(name@, vtt()) || has_ext(name@, srt())),
{
    proof {
        reveal_strlit("ts");
        reveal_strlit("vtt");
        reveal_strlit("srt");
    }
    name_has_ext(name, "ts") || name_has_ext(name, "vtt") || name_has_ext(name, "srt")
}

/// How the thumbnail of a file named `name` is made.
pub fn thumbnail_action(name: &str) -> (r: ThumbnailAction)
    ensures
        r == thumbnail_action_spec(name@),
{
    if is_video_name(name) {
        ThumbnailAction::VideoFrame
    } else if is_image_name(name) {
        ThumbnailAction::ScaledImage
    } else if is_media_side_name(name) {
        ThumbnailAction::MediaPlaceholder
    } else {
        ThumbnailAction::FilePlaceholder
    }
}

} // verus!
