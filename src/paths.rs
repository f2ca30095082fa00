//! Catalog paths: joining, parents, derived-thumbnail locations and the web
//! paths under which files are served. Paths use `/` as separator.
use vstd::prelude::*;
use crate::media::{last_index_of, find_last};

verus! {

pub open spec fn sep() -> Seq<char> { seq!['/'] }

/// `parent` and `name` joined by one separator.
pub open spec fn join_spec(parent: Seq<char>, name: Seq<char>) -> Seq<char> {
    parent + sep() + name
}

/// Joins a directory path and an entry name.
pub fn join_path(parent: &str, name: &str) -> (r: String)
    ensures
        r@ == join_spec(parent@, name@),
{
    proof { reveal_strlit("/"); }
    let mut s = String::from_str(parent);
    s.append("/");
    s.append(name);
    s
}

/// The parent of a path: what stands before its last separator ("/" for a
/// path directly under the file-system root, "" for a bare name); none for
/// the empty path and for "/" itself.
pub open spec fn parent_spec(path: Seq<char>) -> Option<Seq<char>> {
    let k = last_index_of(path, '/');
    if path.len() == 0 {
        None
    } else if k > 0 {
        Some(path.subrange(0, k))
    } else if k == 0 {
        if path.len() > 1 { Some(sep()) } else { None }
    } else {
        Some(Seq::empty())
    }
}

/// Builds parent links between catalog paths.
pub struct TreeBuilder;

impl TreeBuilder {
    /// The parent of a path.
    pub fn get_parent_path(path: &str) -> (r: Option<String>)
        ensures
            match r {
                Some(p) => parent_spec(path@) == Some(p@),
                None => parent_spec(path@).is_none(),
            },
    {
        proof {
            reveal_strlit("/");
            crate::media::lemma_last_index_of_bounds(path@, '/');
        }
        let n = path.unicode_len();
        if n == 0 {
            return None;
        }
        match find_last(path, '/') {
            Some(k) => {
                if k > 0 {
                    Some(String::from_str(path.substring_char(0, k)))
                } else if n > 1 {
                    Some(String::from_str("/"))
                } else {
                    None
                }
            },
            None => Some(String::new()),
        }
    }
}

/// Whether `pat` occurs in `s` at position `i`.
pub open spec fn occurs_at(s: Seq<char>, i: int, pat: Seq<char>) -> bool {
    0 <= i && i + pat.len() <= s.len() && s.subrange(i, i + pat.len()) == pat
}

/// Whether `pat` occurs in `s` at position `i`.
pub fn matches_at(s: &str, i: usize, pat: &str) -> (r: bool)
    ensures
        r == occurs_at(s@, i as int, pat@),
{
    let n = s.unicode_len();
    let m = pat.unicode_len();
    if i > n || m > n - i {
        return false;
    }
    let mut j: usize = 0;
    while j < m
        invariant
            n == s@.len(),
            m == pat@.len(),
            i + m <= n,
            j <= m,
            forall|t: int| 0 <= t < j ==> s@[i + t] == #[trigger] pat@[t],
        decreases m - j,
    {
        if s.get_char(i + j) != pat.get_char(j) {
            assert(s@.subrange(i as int, i + m)[j as int] != pat@[j as int]);
            return false;
        }
        j = j + 1;
    }
    assert(s@.subrange(i as int, i + m) =~= pat@);
    true
}

/// The relative path with the extension of its last component replaced by
/// `.jpg` (added where it has none).
pub open spec fn with_jpg(rel: Seq<char>) -> Seq<char> {
    let slash = last_index_of(rel, '/');
    let dot = last_index_of(rel, '.');
    if dot > slash + 1 {
        rel.subrange(0, dot) + seq!['.', 'j', 'p', 'g']
    } else {
        rel + seq!['.', 'j', 'p', 'g']
    }
}

/// The directory in which derived thumbnails are kept.
pub open spec fn thumbnails_dir() -> Seq<char> {
    seq!['t', 'h', 'u', 'm', 'b', 'n', 'a', 'i', 'l', 's']
}

/// The thumbnail location of a file at `rel` under its root: the same
/// relative path under the thumbnails directory, with a `.jpg` extension.
pub open spec fn thumbnail_spec(rel: Seq<char>) -> Seq<char> {
    join_spec(thumbnails_dir(), with_jpg(rel))
}

fn replace_ext_jpg(rel: &str) -> (r: String)
    ensures
        r@ == with_jpg(rel@),
{
    proof {
        reveal_strlit(".jpg");
        crate::media::lemma_last_index_of_bounds(rel@, '/');
        crate::media::lemma_last_index_of_bounds(rel@, '.');
    }
    let n = rel.unicode_len();
    let slash = find_last(rel, '/');
    let dot = find_last(rel, '.');
    let keep: Option<usize> = match dot {
        Some(d) => match slash {
            Some(sl) => if d > sl + 1 { Some(d) } else { None },
            None => if d > 0 { Some(d) } else { None },
        },
        None => None,
    };
    match keep {
        Some(d) => {
            let mut s = String::from_str(rel.substring_char(0, d));
            s.append(".jpg");
            s
        },
        None => {
            let mut s = String::from_str(rel);
            s.append(".jpg");
            s
        },
    }
}

/// The thumbnail location for a file at `relative_path` under its root.
pub fn get_correct_thumbnail_path(relative_path: &str) -> (r: String)
    ensures
        r@ == thumbnail_spec(relative_path@),
{
    proof { reveal_strlit("thumbnails"); }
    let j = replace_ext_jpg(relative_path);
    join_path("thumbnails", j.as_str())
}

/// The path of `path` relative to `root`; for a path outside `root`, its
/// last component.
pub open spec fn relative_spec(path: Seq<char>, root: Seq<char>) -> Seq<char> {
    if occurs_at(path, 0, root + sep()) {
        path.subrange(root.len() as int + 1, path.len() as int)
    } else {
        path.subrange(last_index_of(path, '/') + 1, path.len() as int)
    }
}

/// The path of `path` relative to `root`.
pub fn relative_path(path: &str, root: &str) -> (r: String)
    ensures
        r@ == relative_spec(path@, root@),
{
    proof { crate::media::lemma_last_index_of_bounds(path@, '/'); }
    let mut prefix = String::from_str(root);
    proof { reveal_strlit("/"); }
    prefix.append("/");
    let n = path.unicode_len();
    assert(prefix@ == root@ + sep());
    if matches_at(path, 0, prefix.as_str()) {
        let m = root.unicode_len();
        String::from_str(path.substring_char(m + 1, n))
    } else {
        match find_last(path, '/') {
            Some(k) => String::from_str(path.substring_char(k + 1, n)),
            None => {
                assert(path@.subrange(0, n as int) =~= path@);
                String::from_str(path)
            },
        }
    }
}

/// The thumbnail location of the file at `path` under the root `root`.
pub fn thumbnail_path_for(path: &str, root: &str) -> (r: String)
    ensures
        r@ == thumbnail_spec(relative_spec(path@, root@)),
{
    let rel = relative_path(path, root);
    get_correct_thumbnail_path(rel.as_str())
}

/// `s` with every backslash turned into a forward slash.
pub open spec fn slashes(s: Seq<char>) -> Seq<char> {
    Seq::new(s.len(), |i: int| if s[i] == '\\' { '/' } else { s[i] })
}

/// Turns every backslash of `s` into a forward slash.
pub fn to_forward_slashes(s: &str) -> (r: String)
    ensures
        r@ == slashes(s@),
{
    proof { reveal_strlit("/"); }
    let n = s.unicode_len();
    let mut out = String::new();
    let mut i: usize = 0;
    while i < n
        invariant
            n == s@.len(),
            i <= n,
            out@ == slashes(s@).subrange(0, i as int),
        decreases n - i,
    {
        proof { reveal_strlit("/"); }
        let c = s.get_char(i);
        if c == '\\' {
            out.append("/");
        } else {
            out.append(s.substring_char(i, i + 1));
        }
        assert(out@ =~= slashes(s@).subrange(0, i + 1));
        i = i + 1;
    }
    assert(out@ =~= slashes(s@));
    out
}

pub open spec fn public_seg() -> Seq<char> { seq!['p', 'u', 'b', 'l', 'i', 'c', '/'] }

/// `s` with every occurrence of `public/` removed, scanning left to right.
pub open spec fn strip_public(s: Seq<char>) -> Seq<char>
    decreases s.len(),
{
    if s.len() == 0 {
        s
    } else if occurs_at(s, 0, public_seg()) {
        strip_public(s.subrange(7, s.len() as int))
    } else {
        seq![s[0]] + strip_public(s.subrange(1, s.len() as int))
    }
}

fn strip_public_segments(s: &str) -> (r: String)
    ensures
        r@ == strip_public(s@),
{
    proof { reveal_strlit("public/"); }
    let n = s.unicode_len();
    let mut out = String::new();
    let mut i: usize = 0;
    assert(s@.subrange(0, n as int) =~= s@);
    assert(out@ =~= Seq::<char>::empty());
    while i < n
        invariant
            n == s@.len(),
            i <= n,
            out@ + strip_public(s@.subrange(i as int, n as int)) == strip_public(s@),
        decreases n - i,
    {
        proof { reveal_strlit("public/"); }
        assert("public/"@ =~= public_seg());
        let ghost rest = s@.subrange(i as int, n as int);
        if matches_at(s, i, "public/") {
            assert(occurs_at(rest, 0, public_seg())) by {
                assert(rest.subrange(0, 7) =~= s@.subrange(i as int, i + 7));
            }
            assert(rest.subrange(7, rest.len() as int) =~= s@.subrange(i + 7, n as int));
            i = i + 7;
        } else {
            assert(!occurs_at(rest, 0, public_seg())) by {
                if rest.len() >= 7 {
                    assert(rest.subrange(0, 7) =~= s@.subrange(i as int, i + 7));
                }
            }
            assert(rest.subrange(1, rest.len() as int) =~= s@.subrange(i + 1, n as int));
            let piece = s.substring_char(i, i + 1);
            out.append(piece);
            assert(out@ + strip_public(s@.subrange(i + 1, n as int)) =~= strip_public(s@));
            i = i + 1;
        }
    }
    assert(s@.subrange(n as int, n as int) =~= Seq::<char>::empty());
    out
}

pub open spec fn public_root() -> Seq<char> { seq!['/', 'p', 'u', 'b', 'l', 'i', 'c', '/'] }

/// The web path of a file at `rel` under the public directory: backslashes
/// become slashes and `public/` segments are dropped, under `/public/`.
pub open spec fn web_path_spec(rel: Seq<char>) -> Seq<char> {
    public_root() + strip_public(slashes(rel))
}

/// The web path of a file at `relative_path` under the public directory.
pub fn get_web_path(relative_path: &str) -> (r: String)
    ensures
        r@ == web_path_spec(relative_path@),
{
    proof { reveal_strlit("/public/"); }
    let fwd = to_forward_slashes(relative_path);
    let stripped = strip_public_segments(fwd.as_str());
    let mut s = String::from_str("/public/");
    s.append(stripped.as_str());
    s
}

pub open spec fn thumbnails_root() -> Seq<char> {
    seq!['/', 't', 'h', 'u', 'm', 'b', 'n', 'a', 'i', 'l', 's', '/']
}

/// The web path of the thumbnail of a file at `rel`, when that thumbnail
/// exists.
pub open spec fn thumbnail_web_path_spec(rel: Seq<char>, exists: bool) -> Option<Seq<char>> {
    if exists {
        Some(thumbnails_root() + slashes(with_jpg(rel)))
    } else {
        None
    }
}

/// The web path of the thumbnail of a file at `relative_path`, given whether
/// that thumbnail exists on disk.
pub fn get_thumbnail_web_path(relative_path: &str, thumbnail_exists: bool) -> (r: Option<String>)
    ensures
        match r {
            Some(p) => thumbnail_web_path_spec(relative_path@, thumbnail_exists) == Some(p@),
            None => thumbnail_web_path_spec(relative_path@, thumbnail_exists).is_none(),
        },
{
    if !thumbnail_exists {
        return None;
    }
    proof { reveal_strlit("/thumbnails/"); }
    let j = replace_ext_jpg(relative_path);
    let fwd = to_forward_slashes(j.as_str());
    let mut s = String::from_str("/thumbnails/");
    s.append(fwd.as_str());
    Some(s)
}

/// The name of the thumbnail that a deleted file leaves behind: the stem
/// of its last component (what precedes that component's last dot, where
/// the dot is not its first character) with `.jpg`; none for an empty stem.
pub open spec fn thumbnail_name_spec(path: Seq<char>) -> Option<Seq<char>> {
    let name = path.subrange(last_index_of(path, '/') + 1, path.len() as int);
    let dot = last_index_of(name, '.');
    let stem = if dot > 0 { name.subrange(0, dot) } else { name };
    if stem.len() == 0 {
        None
    } else {
        Some(stem + seq!['.', 'j', 'p', 'g'])
    }
}

/// The name of the thumbnail that a deleted file leaves behind.
pub fn thumbnail_file_name(path: &str) -> (r: Option<String>)
    ensures
        match r {
            Some(t) => thumbnail_name_spec(path@) == Some(t@),
            None => thumbnail_name_spec(path@).is_none(),
        },
{
    proof {
        reveal_strlit(".jpg");
        crate::media::lemma_last_index_of_bounds(path@, '/');
    }
    let n = path.unicode_len();
    let start: usize = match find_last(path, '/') {
        Some(k) => k + 1,
        None => 0,
    };
    let name = path.substring_char(start, n);
    proof { crate::media::lemma_last_index_of_bounds(name@, '.'); }
    let stem: &str = match find_last(name, '.') {
        Some(d) => if d > 0 { name.substring_char(0, d) } else { name },
        None => name,
    };
    if stem.unicode_len() == 0 {
        None
    } else {
        let mut t = String::from_str(stem);
        t.append(".jpg");
        Some(t)
    }
}

} // verus!
