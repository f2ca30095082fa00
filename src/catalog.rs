//! The catalog store: one entry per path, with the lookups that the
//! reconciliation pass and the read side need.
use vstd::prelude::*;
use crate::media::EntryKind;
use crate::text::str_eq;
use crate::paths::{thumbnail_file_name, thumbnail_name_spec};
use crate::sorting::{in_order, is_sorted, sort_entries, lemma_reordered, SortField, SortOrder};

verus! {

/// One cataloged file-system entry.
#[derive(Debug)]
pub struct CatalogEntry {
    /// Unique identity of the entry.
    pub path: String,
    pub name: String,
    pub kind: EntryKind,
    pub parent_path: String,
    pub size: Option<String>,
    pub created_at: String,
    pub duration: Option<String>,
    pub width: Option<i32>,
    pub height: Option<i32>,
    pub thumbnail: Option<String>,
    pub subtitle: Option<String>,
    /// The pass that last wrote the entry.
    pub last_synced: u64,
}

/// Copies an optional string.
pub fn copy_opt_string(o: &Option<String>) -> (r: Option<String>)
    ensures
        r == *o,
{
    match o {
        Some(s) => Some(s.clone()),
        None => None,
    }
}

impl CatalogEntry {
    /// A field-for-field copy of the entry.
    pub fn duplicate(&self) -> (r: CatalogEntry)
        ensures
            r == *self,
    {
        CatalogEntry {
            path: self.path.clone(),
            name: self.name.clone(),
            kind: self.kind,
            parent_path: self.parent_path.clone(),
            size: copy_opt_string(&self.size),
            created_at: self.created_at.clone(),
            duration: copy_opt_string(&self.duration),
            width: self.width,
            height: self.height,
            thumbnail: copy_opt_string(&self.thumbnail),
            subtitle: copy_opt_string(&self.subtitle),
            last_synced: self.last_synced,
        }
    }
}

/// Why a write to the store was refused.
#[derive(Clone, Copy, Debug, PartialEq, Eq, Structural)]
pub enum StoreError {
    /// An entry with this path is already cataloged.
    DuplicatePath,
}

/// What a finished derivation job found out about a file.
#[derive(Debug)]
pub struct VideoMetadata {
    pub duration: Option<String>,
    pub width: Option<i32>,
    pub height: Option<i32>,
    pub thumbnail_path: Option<String>,
}

/// The paths of a sequence of entries, in order.
pub open spec fn paths_of(s: Seq<CatalogEntry>) -> Seq<Seq<char>> {
    s.map_values(|e: CatalogEntry| e.path@)
}

/// The entry with the derived attributes of `m` filled in: each attribute
/// that the job found replaces the one held, and the others are kept.
pub open spec fn with_metadata(e: CatalogEntry, m: VideoMetadata) -> CatalogEntry {
    CatalogEntry {
        duration: if m.duration.is_some() { m.duration } else { e.duration },
        width: if m.width.is_some() { m.width } else { e.width },
        height: if m.height.is_some() { m.height } else { e.height },
        thumbnail: if m.thumbnail_path.is_some() { m.thumbnail_path } else { e.thumbnail },
        ..e
    }
}

/// Whether an entry is a child of `parent`.
pub open spec fn child_of(parent: Seq<char>) -> spec_fn(CatalogEntry) -> bool {
    |e: CatalogEntry| e.parent_path@ == parent
}

proof fn lemma_filter_children(s: Seq<CatalogEntry>, parent: Seq<char>)
    requires
        paths_of(s).no_duplicates(),
    ensures
        forall|k: int| 0 <= k < s.filter(child_of(parent)).len()
            ==> s.contains(#[trigger] s.filter(child_of(parent))[k]),
        forall|j: int| 0 <= j < s.len() && (#[trigger] s[j]).parent_path@ == parent
            ==> s.filter(child_of(parent)).contains(s[j]),
        paths_of(s.filter(child_of(parent))).no_duplicates(),
    decreases s.len(),
{
    broadcast use vstd::seq_lib::group_filter_ensures;
    if s.len() > 0 {
        let t = s.drop_last();
        assert(paths_of(t) =~= paths_of(s).drop_last());
        lemma_filter_children(t, parent);
        reveal(Seq::filter);
        let ft = t.filter(child_of(parent));
        let fs = s.filter(child_of(parent));
        if child_of(parent)(s.last()) {
            assert(fs == ft.push(s.last()));
            assert forall|a: int, b: int| 0 <= a < fs.len() && 0 <= b < fs.len() && a != b
                implies paths_of(fs)[a] != paths_of(fs)[b] by {
                if a < ft.len() && b < ft.len() {
                    assert(paths_of(ft)[a] != paths_of(ft)[b]);
                } else if a < ft.len() {
                    assert(t.contains(ft[a]));
                    let j = choose|j: int| 0 <= j < t.len() && t[j] == ft[a];
                    assert(paths_of(s)[j] != paths_of(s)[s.len() - 1]);
                } else if b < ft.len() {
                    assert(t.contains(ft[b]));
                    let j = choose|j: int| 0 <= j < t.len() && t[j] == ft[b];
                    assert(paths_of(s)[j] != paths_of(s)[s.len() - 1]);
                }
            }
        } else {
            assert(fs == ft);
        }
    }
}

/// The catalog: entries keyed by path, at most one per path.
pub struct CatalogStore {
    entries: Vec<CatalogEntry>,
    index: Ghost<Map<Seq<char>, CatalogEntry>>,
}

impl View for CatalogStore {
    type V = Map<Seq<char>, CatalogEntry>;

    closed spec fn view(&self) -> Map<Seq<char>, CatalogEntry> {
        self.index@
    }
}

impl CatalogStore {
    /// The store's invariant: the map view holds exactly the stored entries,
    /// each under its own path, and no path is stored twice.
    pub closed spec fn wf(&self) -> bool {
        &&& paths_of(self.entries@).no_duplicates()
        &&& self.index@.dom() == paths_of(self.entries@).to_set()
        &&& forall|i: int| 0 <= i < self.entries@.len()
            ==> self.index@[(#[trigger] self.entries@[i]).path@] == self.entries@[i]
    }

    /// Every entry is stored under its own path, and the store is finite.
    pub proof fn lemma_keys(&self)
        requires
            self.wf(),
        ensures
            self@.dom().finite(),
            forall|p: Seq<char>| #[trigger] self@.contains_key(p) ==> self@[p].path@ == p,
    {
        assert forall|p: Seq<char>| #[trigger] self@.contains_key(p) implies self@[p].path@ == p by {
            assert(paths_of(self.entries@).to_set().contains(p));
            let i = choose|i: int| 0 <= i < self.entries@.len() && paths_of(self.entries@)[i] == p;
            assert(self.index@[self.entries@[i].path@] == self.entries@[i]);
        }
    }

    /// An empty catalog.
    pub fn new() -> (r: CatalogStore)
        ensures
            r.wf(),
            r@ == Map::<Seq<char>, CatalogEntry>::empty(),
    {
        let r = CatalogStore { entries: Vec::new(), index: Ghost(Map::empty()) };
        assert(paths_of(r.entries@).to_set() =~= Set::empty());
        r
    }

    /// Removes every entry.
    pub fn clear(&mut self)
        ensures
            final(self).wf(),
            final(self)@ == Map::<Seq<char>, CatalogEntry>::empty(),
    {
        self.entries = Vec::new();
        self.index = Ghost(Map::empty());
        assert(paths_of(self.entries@).to_set() =~= Set::empty());
    }

    /// The number of cataloged entries.
    pub fn count_all(&self) -> (r: usize)
        requires
            self.wf(),
        ensures
            r as nat == self@.dom().len(),
    {
        proof {
            paths_of(self.entries@).unique_seq_to_set();
        }
        self.entries.len()
    }

    fn find(&self, path: &str) -> (r: Option<usize>)
        requires
            self.wf(),
        ensures
            match r {
                Some(i) => i < self.entries@.len() && self.entries@[i as int].path@ == path@,
                None => !self@.contains_key(path@),
            },
    {
        let mut i: usize = 0;
        while i < self.entries.len()
            invariant
                i <= self.entries@.len(),
                forall|j: int| 0 <= j < i ==> (#[trigger] self.entries@[j]).path@ != path@,
            decreases self.entries@.len() - i,
        {
            if str_eq(self.entries[i].path.as_str(), path) {
                return Some(i);
            }
            i = i + 1;
        }
        proof {
            if self@.contains_key(path@) {
                assert(paths_of(self.entries@).to_set().contains(path@));
                let j = choose|j: int| 0 <= j < self.entries@.len() && paths_of(self.entries@)[j] == path@;
                assert(self.entries@[j].path@ == path@);
            }
        }
        None
    }

    /// Whether an entry with this path is cataloged.
    pub fn contains_path(&self, path: &str) -> (r: bool)
        requires
            self.wf(),
        ensures
            r == self@.contains_key(path@),
    {
        match self.find(path) {
            Some(i) => {
                assert(paths_of(self.entries@)[i as int] == path@);
                true
            },
            None => false,
        }
    }

    /// The entry cataloged under `path`, if any.
    pub fn get_video_by_path(&self, path: &str) -> (r: Option<&CatalogEntry>)
        requires
            self.wf(),
        ensures
            match r {
                Some(e) => self@.contains_key(path@) && *e == self@[path@],
                None => !self@.contains_key(path@),
            },
    {
        match self.find(path) {
            Some(i) => {
                assert(paths_of(self.entries@)[i as int] == path@);
                Some(&self.entries[i])
            },
            None => None,
        }
    }

    /// Catalogs a new entry. An entry whose path is already cataloged is
    /// refused and the store is left as it was.
    pub fn insert(&mut self, e: CatalogEntry) -> (r: Result<(), StoreError>)
        requires
            old(self).wf(),
        ensures
            final(self).wf(),
            old(self)@.contains_key(e.path@) ==> r == Err::<(), StoreError>(StoreError::DuplicatePath)
                && final(self)@ == old(self)@,
            !old(self)@.contains_key(e.path@) ==> r is Ok
                && final(self)@ == old(self)@.insert(e.path@, e),
    {
        if self.contains_path(e.path.as_str()) {
            return Err(StoreError::DuplicatePath);
        }
        let ghost p = e.path@;
        let ghost old_entries = self.entries@;
        self.entries.push(e);
        self.index = Ghost(self.index@.insert(p, e));
        proof {
            assert(paths_of(self.entries@) =~= paths_of(old_entries).push(p));
            assert(!paths_of(old_entries).contains(p)) by {
                if paths_of(old_entries).contains(p) {
                    assert(paths_of(old_entries).to_set().contains(p));
                }
            }
            let ps = paths_of(old_entries);
            let ns = paths_of(self.entries@);
            assert forall|q: Seq<char>| #[trigger] ns.to_set().contains(q)
                <==> ps.to_set().insert(p).contains(q) by {
                if ns.to_set().contains(q) {
                    let i = choose|i: int| 0 <= i < ns.len() && ns[i] == q;
                    if i < ps.len() {
                        assert(ps[i] == q);
                    }
                }
                if ps.to_set().contains(q) {
                    let i = choose|i: int| 0 <= i < ps.len() && ps[i] == q;
                    assert(ns[i] == q);
                }
                if q == p {
                    assert(ns[ps.len() as int] == q);
                }
            }
            assert(ns.to_set() =~= ps.to_set().insert(p));
            assert forall|i: int| 0 <= i < self.entries@.len()
                implies self.index@[(#[trigger] self.entries@[i]).path@] == self.entries@[i] by {
                if i < old_entries.len() {
                    assert(paths_of(old_entries)[i] == old_entries[i].path@);
                }
            }
        }
        Ok(())
    }

    /// Removes the entry cataloged under `path`; reports whether there was one.
    pub fn delete(&mut self, path: &str) -> (r: bool)
        requires
            old(self).wf(),
        ensures
            final(self).wf(),
            r == old(self)@.contains_key(path@),
            final(self)@ == old(self)@.remove(path@),
    {
        match self.find(path) {
            Some(k) => {
                let ghost old_entries = self.entries@;
                let ghost ps = paths_of(old_entries);
                self.entries.remove(k);
                self.index = Ghost(self.index@.remove(path@));
                proof {
                    assert(ps[k as int] == path@);
                    assert(paths_of(self.entries@) =~= ps.remove(k as int));
                    assert forall|i: int, j: int|
                        0 <= i < self.entries@.len() && 0 <= j < self.entries@.len() && i != j
                        implies paths_of(self.entries@)[i] != paths_of(self.entries@)[j] by {
                        let oi = if i < k { i } else { i + 1 };
                        let oj = if j < k { j } else { j + 1 };
                        assert(ps[oi] != ps[oj]);
                    }
                    assert forall|q: Seq<char>| #[trigger] paths_of(self.entries@).to_set().contains(q)
                        <==> ps.to_set().remove(path@).contains(q) by {
                        if paths_of(self.entries@).to_set().contains(q) {
                            let i = choose|i: int| 0 <= i < self.entries@.len() && paths_of(self.entries@)[i] == q;
                            let oi = if i < k { i } else { i + 1 };
                            assert(ps[oi] == q);
                            assert(oi != k);
                        }
                        if ps.to_set().remove(path@).contains(q) {
                            let oi = choose|oi: int| 0 <= oi < ps.len() && ps[oi] == q;
                            assert(oi != k);
                            let i = if oi < k { oi } else { oi - 1 };
                            assert(paths_of(self.entries@)[i] == q);
                        }
                    }
                    assert(paths_of(self.entries@).to_set() =~= ps.to_set().remove(path@));
                    assert forall|i: int| 0 <= i < self.entries@.len()
                        implies self.index@[(#[trigger] self.entries@[i]).path@] == self.entries@[i] by {
                        let oi = if i < k { i } else { i + 1 };
                        assert(self.entries@[i] == old_entries[oi]);
                        assert(ps[oi] != ps[k as int]);
                    }
                }
                true
            },
            None => {
                assert(self.index@.remove(path@) =~= self.index@);
                false
            },
        }
    }

    /// Fills in the derived attributes that a finished job found for the
    /// entry at `path`. A result for a path that is no longer cataloged
    /// changes nothing.
    pub fn update_derived(&mut self, path: &str, meta: VideoMetadata) -> (r: bool)
        requires
            old(self).wf(),
        ensures
            final(self).wf(),
            r == old(self)@.contains_key(path@),
            r ==> final(self)@ == old(self)@.insert(path@, with_metadata(old(self)@[path@], meta)),
            !r ==> final(self)@ == old(self)@,
    {
        match self.find(path) {
            Some(k) => {
                let ghost old_entries = self.entries@;
                let e = self.entries[k].duplicate();
                let ghost ge = e;
                let updated = CatalogEntry {
                    duration: if meta.duration.is_some() { meta.duration } else { e.duration },
                    width: if meta.width.is_some() { meta.width } else { e.width },
                    height: if meta.height.is_some() { meta.height } else { e.height },
                    thumbnail: if meta.thumbnail_path.is_some() { meta.thumbnail_path } else { e.thumbnail },
                    ..e
                };
                assert(updated == with_metadata(ge, meta));
                assert(paths_of(old_entries)[k as int] == path@);
                self.entries.set(k, updated);
                self.index = Ghost(self.index@.insert(path@, with_metadata(ge, meta)));
                proof {
                    assert(paths_of(self.entries@) =~= paths_of(old_entries));
                    assert forall|i: int| 0 <= i < self.entries@.len()
                        implies self.index@[(#[trigger] self.entries@[i]).path@] == self.entries@[i] by {
                        if i != k {
                            assert(paths_of(old_entries)[i] != paths_of(old_entries)[k as int]);
                        }
                    }
                    assert(self.index@.dom() =~= paths_of(self.entries@).to_set());
                }
                true
            },
            None => false,
        }
    }

    /// Whether `p` names an entry of `m` that is a child of `parent`.
    pub open spec fn is_child(m: Map<Seq<char>, CatalogEntry>, parent: Seq<char>, p: Seq<char>) -> bool {
        m.contains_key(p) && m[p].parent_path@ == parent
    }

    /// The entries whose parent is `parent`, each once, in the served order
    /// (kind name descending, then name ascending). A streaming container
    /// has no cataloged children, so for one the list is empty.
    pub fn get_children(&self, parent: &str) -> (r: Vec<CatalogEntry>)
        requires
            self.wf(),
        ensures
            self@.contains_key(parent@) && self@[parent@].kind == EntryKind::HlsContainer ==> r@.len() == 0,
            !(self@.contains_key(parent@) && self@[parent@].kind == EntryKind::HlsContainer) ==> {
                &&& forall|i: int| 0 <= i < r@.len()
                    ==> Self::is_child(self@, parent@, (#[trigger] r@[i]).path@) && self@[r@[i].path@] == r@[i]
                &&& forall|p: Seq<char>| Self::is_child(self@, parent@, p)
                    ==> exists|i: int| 0 <= i < r@.len() && (#[trigger] r@[i]).path@ == p
                &&& paths_of(r@).no_duplicates()
                &&& is_sorted(r@, SortField::Kind, SortOrder::Asc)
            },
    {
        match self.get_video_by_path(parent) {
            Some(e) => {
                if e.kind == EntryKind::HlsContainer {
                    return Vec::new();
                }
            },
            None => {},
        }
        self.listing_under(parent)
    }

    /// The entries directly under a root's mount prefix, each once, in the
    /// served order.
    pub fn get_root_videos(&self, root: &str) -> (r: Vec<CatalogEntry>)
        requires
            self.wf(),
        ensures
            forall|i: int| 0 <= i < r@.len()
                ==> Self::is_child(self@, root@, (#[trigger] r@[i]).path@) && self@[r@[i].path@] == r@[i],
            forall|p: Seq<char>| Self::is_child(self@, root@, p)
                ==> exists|i: int| 0 <= i < r@.len() && (#[trigger] r@[i]).path@ == p,
            paths_of(r@).no_duplicates(),
            is_sorted(r@, SortField::Kind, SortOrder::Asc),
    {
        self.listing_under(root)
    }

    fn listing_under(&self, parent: &str) -> (r: Vec<CatalogEntry>)
        requires
            self.wf(),
        ensures
            forall|i: int| 0 <= i < r@.len()
                ==> Self::is_child(self@, parent@, (#[trigger] r@[i]).path@) && self@[r@[i].path@] == r@[i],
            forall|p: Seq<char>| Self::is_child(self@, parent@, p)
                ==> exists|i: int| 0 <= i < r@.len() && (#[trigger] r@[i]).path@ == p,
            paths_of(r@).no_duplicates(),
            is_sorted(r@, SortField::Kind, SortOrder::Asc),
    {
        let found = self.entries_under(parent);
        let ghost r1 = found@;
        let r = sort_entries(found, SortField::Kind, SortOrder::Asc);
        proof {
            lemma_reordered(r1, r@);
            assert forall|i: int| 0 <= i < r@.len()
                implies Self::is_child(self@, parent@, (#[trigger] r@[i]).path@) && self@[r@[i].path@] == r@[i] by {
                assert(r@.contains(r@[i]));
                let j = choose|j: int| 0 <= j < r1.len() && r1[j] == r@[i];
            }
            assert forall|p: Seq<char>| Self::is_child(self@, parent@, p)
                implies exists|i: int| 0 <= i < r@.len() && (#[trigger] r@[i]).path@ == p by {
                let j = choose|j: int| 0 <= j < r1.len() && (#[trigger] r1[j]).path@ == p;
                assert(r1.contains(r1[j]));
                let i = choose|i: int| 0 <= i < r@.len() && r@[i] == r1[j];
            }
        }
        r
    }

    fn entries_under(&self, parent: &str) -> (r: Vec<CatalogEntry>)
        requires
            self.wf(),
        ensures
            forall|i: int| 0 <= i < r@.len()
                ==> Self::is_child(self@, parent@, (#[trigger] r@[i]).path@) && self@[r@[i].path@] == r@[i],
            forall|p: Seq<char>| Self::is_child(self@, parent@, p)
                ==> exists|i: int| 0 <= i < r@.len() && (#[trigger] r@[i]).path@ == p,
            paths_of(r@).no_duplicates(),
    {
        let mut r: Vec<CatalogEntry> = Vec::new();
        let mut i: usize = 0;
        proof {
            reveal(Seq::filter);
            assert(self.entries@.subrange(0, 0) =~= Seq::<CatalogEntry>::empty());
        }
        while i < self.entries.len()
            invariant
                i <= self.entries@.len(),
                r@ == self.entries@.subrange(0, i as int).filter(child_of(parent@)),
            decreases self.entries@.len() - i,
        {
            proof {
                reveal(Seq::filter);
                assert(self.entries@.subrange(0, i + 1).drop_last() =~= self.entries@.subrange(0, i as int));
            }
            if str_eq(self.entries[i].parent_path.as_str(), parent) {
                let e = self.entries[i].duplicate();
                r.push(e);
            }
            i = i + 1;
        }
        proof {
            let s = self.entries@;
            assert(s.subrange(0, s.len() as int) =~= s);
            lemma_filter_children(s, parent@);
            assert forall|k: int| 0 <= k < r@.len()
                implies Self::is_child(self@, parent@, (#[trigger] r@[k]).path@) && self@[r@[k].path@] == r@[k] by {
                let j = choose|j: int| 0 <= j < s.len() && s[j] == r@[k];
                assert(paths_of(s)[j] == s[j].path@);
                assert(self.index@[s[j].path@] == s[j]);
            }
            assert forall|p: Seq<char>| Self::is_child(self@, parent@, p)
                implies exists|i: int| 0 <= i < r@.len() && (#[trigger] r@[i]).path@ == p by {
                assert(paths_of(s).to_set().contains(p));
                let j = choose|j: int| 0 <= j < s.len() && paths_of(s)[j] == p;
                assert(self.index@[s[j].path@] == s[j]);
                assert(r@.contains(s[j]));
                let k = choose|k: int| 0 <= k < r@.len() && r@[k] == s[j];
                assert(r@[k].path@ == p);
            }
        }
        r
    }

    /// Every cataloged entry, each once.
    pub fn all_entries(&self) -> (r: Vec<CatalogEntry>)
        requires
            self.wf(),
        ensures
            forall|i: int| 0 <= i < r@.len()
                ==> self@.contains_key((#[trigger] r@[i]).path@) && self@[r@[i].path@] == r@[i],
            forall|p: Seq<char>| self@.contains_key(p)
                ==> exists|i: int| 0 <= i < r@.len() && (#[trigger] r@[i]).path@ == p,
            paths_of(r@).no_duplicates(),
    {
        let mut r: Vec<CatalogEntry> = Vec::new();
        let mut i: usize = 0;
        while i < self.entries.len()
            invariant
                i <= self.entries@.len(),
                r@ == self.entries@.subrange(0, i as int),
            decreases self.entries@.len() - i,
        {
            let e = self.entries[i].duplicate();
            r.push(e);
            assert(r@ =~= self.entries@.subrange(0, i + 1));
            i = i + 1;
        }
        assert(r@ =~= self.entries@);
        proof {
            assert forall|i: int| 0 <= i < r@.len()
                implies self@.contains_key((#[trigger] r@[i]).path@) && self@[r@[i].path@] == r@[i] by {
                assert(paths_of(self.entries@)[i] == r@[i].path@);
            }
            assert forall|p: Seq<char>| self@.contains_key(p)
                implies exists|i: int| 0 <= i < r@.len() && (#[trigger] r@[i]).path@ == p by {
                assert(paths_of(self.entries@).to_set().contains(p));
                let j = choose|j: int| 0 <= j < self.entries@.len() && paths_of(self.entries@)[j] == p;
                assert(r@[j].path@ == p);
            }
            assert(paths_of(r@) =~= paths_of(self.entries@));
        }
        r
    }
}

/// Why a delete request was refused.
#[derive(Clone, Copy, Debug, PartialEq, Eq, Structural)]
pub enum DeleteError {
    /// No entry is cataloged under the path.
    NotFound,
}

/// Removes the entry cataloged under `path` at a user's request. On success
/// it returns the name of the thumbnail to remove alongside the file (the
/// file's stem with `.jpg`), if the name has a stem.
pub fn delete_video(store: &mut CatalogStore, path: &str) -> (r: Result<Option<String>, DeleteError>)
    requires
        old(store).wf(),
    ensures
        final(store).wf(),
        !old(store)@.contains_key(path@) ==> r == Err::<Option<String>, DeleteError>(DeleteError::NotFound)
            && final(store)@ == old(store)@,
        old(store)@.contains_key(path@) ==> final(store)@ == old(store)@.remove(path@) && match r {
            Ok(Some(t)) => thumbnail_name_spec(path@) == Some(t@),
            Ok(None) => thumbnail_name_spec(path@).is_none(),
            Err(_) => false,
        },
{
    if store.delete(path) {
        Ok(thumbnail_file_name(path))
    } else {
        Err(DeleteError::NotFound)
    }
}

/// A root-level entry with the entries directly under it.
#[derive(Debug)]
pub struct TreeNode {
    pub entry: CatalogEntry,
    pub children: Vec<CatalogEntry>,
}

/// The entries directly under the mount prefix `root`, each once and in
/// the served order, each with its own children attached, each once and in
/// the served order (none for a streaming container).
pub fn get_video_tree(store: &CatalogStore, root: &str) -> (r: Vec<TreeNode>)
    requires
        store.wf(),
    ensures
        forall|i: int| 0 <= i < r@.len() ==> {
            let node = #[trigger] r@[i];
            &&& CatalogStore::is_child(store@, root@, node.entry.path@)
            &&& store@[node.entry.path@] == node.entry
            &&& node.entry.kind == EntryKind::HlsContainer ==> node.children@.len() == 0
            &&& node.entry.kind != EntryKind::HlsContainer ==> {
                &&& forall|j: int| 0 <= j < node.children@.len()
                    ==> CatalogStore::is_child(store@, node.entry.path@, (#[trigger] node.children@[j]).path@)
                        && store@[node.children@[j].path@] == node.children@[j]
                &&& forall|p: Seq<char>| CatalogStore::is_child(store@, node.entry.path@, p)
                    ==> exists|j: int| 0 <= j < node.children@.len() && (#[trigger] node.children@[j]).path@ == p
            }
        },
        forall|p: Seq<char>| CatalogStore::is_child(store@, root@, p)
            ==> exists|i: int| 0 <= i < r@.len() && (#[trigger] r@[i]).entry.path@ == p,
        forall|i: int, j: int| 0 <= i < j < r@.len() ==> {
            &&& (#[trigger] r@[i]).entry.path@ != (#[trigger] r@[j]).entry.path@
            &&& in_order(r@[i].entry, r@[j].entry, SortField::Kind, SortOrder::Asc)
        },
        forall|i: int| 0 <= i < r@.len() ==> {
            &&& paths_of((#[trigger] r@[i]).children@).no_duplicates()
            &&& is_sorted(r@[i].children@, SortField::Kind, SortOrder::Asc)
        },
{
    let roots = store.get_root_videos(root);
    let mut nodes: Vec<TreeNode> = Vec::new();
    let mut roots = roots;
    let ghost all = roots@;
    let ghost total = roots@.len();
    let mut k: usize = 0;
    let count = roots.len();
    assert(all.subrange(0, total as int) =~= all);
    while roots.len() > 0
        invariant
            store.wf(),
            total == count,
            total == all.len(),
            k + roots@.len() == total,
            roots@ == all.subrange(k as int, total as int),
            nodes@.len() == k,
            forall|i: int| 0 <= i < all.len()
                ==> CatalogStore::is_child(store@, root@, (#[trigger] all[i]).path@) && store@[all[i].path@] == all[i],
            forall|i: int| 0 <= i < k ==> (#[trigger] nodes@[i]).entry == all[i],
            paths_of(all).no_duplicates(),
            is_sorted(all, SortField::Kind, SortOrder::Asc),
            forall|i: int| 0 <= i < k ==> {
                &&& paths_of((#[trigger] nodes@[i]).children@).no_duplicates()
                &&& is_sorted(nodes@[i].children@, SortField::Kind, SortOrder::Asc)
            },
            forall|i: int| 0 <= i < k ==> {
                let node = #[trigger] nodes@[i];
                &&& node.entry.kind == EntryKind::HlsContainer ==> node.children@.len() == 0
                &&& node.entry.kind != EntryKind::HlsContainer ==> {
                    &&& forall|j: int| 0 <= j < node.children@.len()
                        ==> CatalogStore::is_child(store@, node.entry.path@, (#[trigger] node.children@[j]).path@)
                            && store@[node.children@[j].path@] == node.children@[j]
                    &&& forall|p: Seq<char>| CatalogStore::is_child(store@, node.entry.path@, p)
                        ==> exists|j: int| 0 <= j < node.children@.len() && (#[trigger] node.children@[j]).path@ == p
                }
            },
        decreases roots@.len(),
    {
        assert(roots@[0] == all[k as int]);
        let entry = roots.remove(0);
        let children = store.get_children(entry.path.as_str());
        proof {
            assert(store@.contains_key(entry.path@) && store@[entry.path@] == entry);
            if children@.len() == 0 {
                assert(paths_of(children@) =~= Seq::<Seq<char>>::empty());
            }
        }
        nodes.push(TreeNode { entry, children });
        k = k + 1;
        assert(roots@ =~= all.subrange(k as int, total as int));
    }
    proof {
        assert forall|p: Seq<char>| CatalogStore::is_child(store@, root@, p)
            implies exists|i: int| 0 <= i < nodes@.len() && (#[trigger] nodes@[i]).entry.path@ == p by {
            let i = choose|i: int| 0 <= i < all.len() && (#[trigger] all[i]).path@ == p;
            assert(nodes@[i].entry == all[i]);
        }
        assert forall|i: int, j: int| 0 <= i < j < nodes@.len() implies {
            &&& (#[trigger] nodes@[i]).entry.path@ != (#[trigger] nodes@[j]).entry.path@
            &&& in_order(nodes@[i].entry, nodes@[j].entry, SortField::Kind, SortOrder::Asc)
        } by {
            assert(nodes@[i].entry == all[i] && nodes@[j].entry == all[j]);
            assert(paths_of(all)[i] != paths_of(all)[j]);
        }
    }
    nodes
}

} // verus!
