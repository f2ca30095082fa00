//! The reconciliation pass: compares what a scan observed with the catalog
//! and applies inserts, replacements and deletions so that the catalog
//! matches the file system.
use vstd::prelude::*;
use crate::catalog::{CatalogEntry, CatalogStore, VideoMetadata, paths_of};
use crate::format::{format_size, size_text};
use crate::media::{EntryKind, FileKind};
use crate::paths::{join_path, join_spec, occurs_at, matches_at};
use crate::text::str_eq;
use crate::watcher::{first_missing, find_missing};
use crate::snapshot::{FsItem, item_path, selection};
use crate::pipeline::TaskType;

verus! {

/// What a pass does with one observed entry.
#[derive(Clone, Copy, Debug, PartialEq, Eq, Structural)]
pub enum Decision {
    /// The path is not cataloged: the entry is added.
    Insert,
    /// The cataloged row differs: it is deleted and the entry inserted.
    Replace,
    /// The cataloged row stands as it is.
    Skip,
}

/// Counts of what one reconciliation pass did.
#[derive(Clone, Copy, Debug, PartialEq, Eq, Structural)]
pub struct SyncReport {
    pub inserted: usize,
    pub replaced: usize,
    pub deleted: usize,
    pub skipped: usize,
    pub errors: usize,
}

/// Whether a cataloged row is out of date with respect to what the scan
/// observed: the name or the creation time differ, or a derived attribute
/// that the row lacks has since become available.
pub open spec fn changed(new: CatalogEntry, old: CatalogEntry) -> bool {
    ||| new.name@ != old.name@
    ||| new.created_at@ != old.created_at@
    ||| (old.width.is_none() && new.width.is_some())
    ||| (old.height.is_none() && new.height.is_some())
    ||| (old.thumbnail.is_none() && new.thumbnail.is_some())
}

/// The decision for an observed entry against the catalog `m`.
pub open spec fn decide(m: Map<Seq<char>, CatalogEntry>, e: CatalogEntry) -> Decision {
    if !m.contains_key(e.path@) {
        Decision::Insert
    } else if changed(e, m[e.path@]) {
        Decision::Replace
    } else {
        Decision::Skip
    }
}

/// The catalog after one observed entry is applied.
pub open spec fn apply_one(m: Map<Seq<char>, CatalogEntry>, e: CatalogEntry) -> Map<Seq<char>, CatalogEntry> {
    if decide(m, e) == Decision::Skip {
        m
    } else {
        m.insert(e.path@, e)
    }
}

/// The catalog after the observed entries are applied in order.
pub open spec fn apply_all(m: Map<Seq<char>, CatalogEntry>, obs: Seq<CatalogEntry>) -> Map<Seq<char>, CatalogEntry>
    decreases obs.len(),
{
    if obs.len() == 0 {
        m
    } else {
        apply_one(apply_all(m, obs.drop_last()), obs.last())
    }
}

/// How many of the observed entries were decided `d`, in order.
pub open spec fn count_decisions(m: Map<Seq<char>, CatalogEntry>, obs: Seq<CatalogEntry>, d: Decision) -> nat
    decreases obs.len(),
{
    if obs.len() == 0 {
        0
    } else {
        count_decisions(m, obs.drop_last(), d)
            + if decide(apply_all(m, obs.drop_last()), obs.last()) == d { 1nat } else { 0nat }
    }
}

/// The set of observed paths.
pub open spec fn observed_paths(obs: Seq<CatalogEntry>) -> Set<Seq<char>> {
    paths_of(obs).to_set()
}

/// Whether `p` is the path `u` or lies under the directory `u`.
pub open spec fn under(p: Seq<char>, u: Seq<char>) -> bool {
    p == u || (u.len() < p.len() && occurs_at(p, 0, u) && p[u.len() as int] == '/')
}

/// Whether `p` is, or lies under, a path that the scan could not read.
pub open spec fn unread_covers(p: Seq<char>, unread: Seq<String>) -> bool {
    exists|i: int| 0 <= i < unread.len() && under(p, #[trigger] unread[i]@)
}

/// The paths whose rows a pass keeps: those observed, and those the scan
/// could not read, which are left for a later pass.
pub open spec fn kept_paths(obs: Seq<CatalogEntry>, unread: Seq<String>) -> Set<Seq<char>> {
    Set::new(|p: Seq<char>| observed_paths(obs).contains(p) || unread_covers(p, unread))
}

/// The catalog after a complete pass: the observed entries applied, then
/// every row removed whose path was neither observed nor left unread.
pub open spec fn reconciled(m: Map<Seq<char>, CatalogEntry>, obs: Seq<CatalogEntry>, unread: Seq<String>) -> Map<Seq<char>, CatalogEntry> {
    apply_all(m, obs).restrict(kept_paths(obs, unread))
}

/// Applying observed entries catalogs exactly the old paths and the
/// observed ones, each entry under its own path.
pub proof fn lemma_apply_all_dom(m: Map<Seq<char>, CatalogEntry>, obs: Seq<CatalogEntry>)
    requires
        m.dom().finite(),
        forall|p: Seq<char>| #[trigger] m.contains_key(p) ==> m[p].path@ == p,
    ensures
        apply_all(m, obs).dom() == m.dom().union(observed_paths(obs)),
        apply_all(m, obs).dom().finite(),
        forall|p: Seq<char>| #[trigger] apply_all(m, obs).contains_key(p) ==> apply_all(m, obs)[p].path@ == p,
    decreases obs.len(),
{
    if obs.len() > 0 {
        lemma_apply_all_dom(m, obs.drop_last());
        let ps = paths_of(obs);
        let qs = paths_of(obs.drop_last());
        assert(qs =~= ps.drop_last());
        assert forall|p: Seq<char>| #[trigger] observed_paths(obs).contains(p)
            <==> observed_paths(obs.drop_last()).insert(obs.last().path@).contains(p) by {
            if observed_paths(obs).contains(p) {
                let i = choose|i: int| 0 <= i < ps.len() && ps[i] == p;
                if i < ps.len() - 1 {
                    assert(qs[i] == p);
                }
            }
            if observed_paths(obs.drop_last()).contains(p) {
                let i = choose|i: int| 0 <= i < qs.len() && qs[i] == p;
                assert(ps[i] == p);
            }
            if p == obs.last().path@ {
                assert(ps[ps.len() - 1] == p);
            }
        }
        assert(observed_paths(obs) =~= observed_paths(obs.drop_last()).insert(obs.last().path@));
        assert(apply_all(m, obs).dom() =~= m.dom().union(observed_paths(obs)));
    }
}

/// Whether the cataloged row `old` is out of date with respect to `new`.
pub fn is_record_changed(new: &CatalogEntry, old: &CatalogEntry) -> (r: bool)
    ensures
        r == changed(*new, *old),
{
    new.name != old.name
        || new.created_at != old.created_at
        || (old.width.is_none() && new.width.is_some())
        || (old.height.is_none() && new.height.is_some())
        || (old.thumbnail.is_none() && new.thumbnail.is_some())
}

/// Whether some observed entry has the path `path`.
fn is_observed(observed: &Vec<CatalogEntry>, path: &str) -> (r: bool)
    ensures
        r == observed_paths(observed@).contains(path@),
{
    let mut i: usize = 0;
    while i < observed.len()
        invariant
            i <= observed@.len(),
            forall|j: int| 0 <= j < i ==> (#[trigger] observed@[j]).path@ != path@,
        decreases observed@.len() - i,
    {
        if crate::text::str_eq(observed[i].path.as_str(), path) {
            assert(paths_of(observed@)[i as int] == path@);
            return true;
        }
        i = i + 1;
    }
    proof {
        if paths_of(observed@).contains(path@) {
            let j = choose|j: int| 0 <= j < observed@.len() && paths_of(observed@)[j] == path@;
            assert(observed@[j].path@ == path@);
        }
    }
    false
}

/// The catalog entry for a scanned file-system entry named `name` in the
/// directory `parent`: its path joins the two, a subtitle points at itself,
/// the size is shown in display form, and the derived attributes are those
/// already known (from an existing thumbnail, or none).
pub fn build_entry(
    parent: &str,
    name: &str,
    kind: EntryKind,
    created_at: String,
    size_bytes: Option<u64>,
    derived: VideoMetadata,
    pass: u64,
) -> (r: CatalogEntry)
    ensures
        r.path@ == join_spec(parent@, name@),
        r.name@ == name@,
        r.kind == kind,
        r.parent_path@ == parent@,
        r.created_at == created_at,
        match size_bytes {
            Some(b) => (r.size matches Some(t) && t@ == size_text(b as nat)),
            None => r.size is None,
        },
        kind == EntryKind::File(FileKind::Subtitle) ==> (r.subtitle matches Some(t) && t@ == r.path@),
        kind != EntryKind::File(FileKind::Subtitle) ==> r.subtitle is None,
        r.duration == derived.duration,
        r.width == derived.width,
        r.height == derived.height,
        r.thumbnail == derived.thumbnail_path,
        r.last_synced == pass,
{
    let path = join_path(parent, name);
    let size = match size_bytes {
        Some(b) => Some(format_size(b)),
        None => None,
    };
    let subtitle = if kind == EntryKind::File(FileKind::Subtitle) { Some(path.clone()) } else { None };
    CatalogEntry {
        path,
        name: String::from_str(name),
        kind,
        parent_path: String::from_str(parent),
        size,
        created_at,
        duration: derived.duration,
        width: derived.width,
        height: derived.height,
        thumbnail: derived.thumbnail_path,
        subtitle,
        last_synced: pass,
    }
}

/// What is already known of an entry's derived attributes before any job
/// runs: a thumbnail that exists on disk is reused; for an MP4 with such a
/// thumbnail, the duration and dimensions its header gives; for a
/// streaming container, the duration its manifest gives.
pub open spec fn known_metadata_spec(
    kind: EntryKind,
    existing_thumbnail: Option<Seq<char>>,
    header: Option<(Seq<char>, i32, i32)>,
    manifest_duration: Option<Seq<char>>,
) -> (Option<Seq<char>>, Option<Seq<char>>, Option<i32>, Option<i32>) {
    let from_header = kind == EntryKind::File(FileKind::Mp4) && existing_thumbnail is Some && header is Some;
    (
        existing_thumbnail,
        if from_header { Some(header.unwrap().0) } else if kind == EntryKind::HlsContainer { manifest_duration } else { None },
        if from_header { Some(header.unwrap().1) } else { None },
        if from_header { Some(header.unwrap().2) } else { None },
    )
}

/// What is already known of an entry's derived attributes; see
/// `known_metadata_spec`.
pub fn known_metadata(
    kind: EntryKind,
    existing_thumbnail: Option<String>,
    header: Option<(String, i32, i32)>,
    manifest_duration: Option<String>,
) -> (r: VideoMetadata)
    ensures
        ({
            let k = known_metadata_spec(
                kind,
                match existing_thumbnail { Some(s) => Some(s@), None => None },
                match header { Some(h) => Some((h.0@, h.1, h.2)), None => None },
                match manifest_duration { Some(s) => Some(s@), None => None },
            );
            &&& (match r.thumbnail_path { Some(s) => Some(s@), None => None }) == k.0
            &&& (match r.duration { Some(s) => Some(s@), None => None }) == k.1
            &&& r.width == k.2
            &&& r.height == k.3
        }),
{
    let is_mp4 = kind == EntryKind::File(FileKind::Mp4);
    let is_hls = kind == EntryKind::HlsContainer;
    let has_thumb = existing_thumbnail.is_some();
    match header {
        Some((d, w, h)) if is_mp4 && has_thumb => VideoMetadata {
            duration: Some(d),
            width: Some(w),
            height: Some(h),
            thumbnail_path: existing_thumbnail,
        },
        _ => VideoMetadata {
            duration: if is_hls { manifest_duration } else { None },
            width: None,
            height: None,
            thumbnail_path: existing_thumbnail,
        },
    }
}

/// The derivation job, if any, that a written entry needs: an MP4 that
/// lacks a thumbnail, duration or dimensions is probed and thumbnailed; any
/// other file, and any streaming container, that lacks a thumbnail gets
/// one; plain directories get none.
pub open spec fn needs_job(e: CatalogEntry) -> Option<bool> {
    match e.kind {
        EntryKind::File(FileKind::Mp4) =>
            if e.thumbnail is None || e.duration is None || e.width is None || e.height is None {
                Some(true)
            } else {
                None
            },
        EntryKind::Directory => None,
        _ => if e.thumbnail is None { Some(false) } else { None },
    }
}

/// The derivation job that an entry needs, writing its thumbnail to
/// `thumbnail_path`.
pub fn derivation_job(e: &CatalogEntry, thumbnail_path: &str) -> (r: Option<TaskType>)
    ensures
        match needs_job(*e) {
            Some(true) => (r matches Some(TaskType::ExtractMetadata { video_path, thumbnail_path: t })
                && video_path@ == e.path@ && t@ == thumbnail_path@),
            Some(false) => (r matches Some(TaskType::GenerateThumbnail { video_path, thumbnail_path: t })
                && video_path@ == e.path@ && t@ == thumbnail_path@),
            None => r is None,
        },
{
    match e.kind {
        EntryKind::File(FileKind::Mp4) => {
            if e.thumbnail.is_none() || e.duration.is_none() || e.width.is_none() || e.height.is_none() {
                Some(TaskType::ExtractMetadata {
                    video_path: e.path.clone(),
                    thumbnail_path: String::from_str(thumbnail_path),
                })
            } else {
                None
            }
        },
        EntryKind::Directory => None,
        _ => {
            if e.thumbnail.is_none() {
                Some(TaskType::GenerateThumbnail {
                    video_path: e.path.clone(),
                    thumbnail_path: String::from_str(thumbnail_path),
                })
            } else {
                None
            }
        },
    }
}

/// Applies the observed entries to the catalog in order; returns how many
/// were inserted, replaced and skipped.
fn apply_observations(store: &mut CatalogStore, observed: &Vec<CatalogEntry>) -> (r: (usize, usize, usize))
    requires
        old(store).wf(),
    ensures
        final(store).wf(),
        final(store)@ == apply_all(old(store)@, observed@),
        r.0 as nat == count_decisions(old(store)@, observed@, Decision::Insert),
        r.1 as nat == count_decisions(old(store)@, observed@, Decision::Replace),
        r.2 as nat == count_decisions(old(store)@, observed@, Decision::Skip),
{
    let ghost m0 = store@;
    let mut inserted: usize = 0;
    let mut replaced: usize = 0;
    let mut skipped: usize = 0;
    let mut i: usize = 0;
    assert(observed@.subrange(0, 0) =~= Seq::<CatalogEntry>::empty());
    while i < observed.len()
        invariant
            store.wf(),
            i <= observed@.len(),
            store@ == apply_all(m0, observed@.subrange(0, i as int)),
            inserted as nat == count_decisions(m0, observed@.subrange(0, i as int), Decision::Insert),
            replaced as nat == count_decisions(m0, observed@.subrange(0, i as int), Decision::Replace),
            skipped as nat == count_decisions(m0, observed@.subrange(0, i as int), Decision::Skip),
            inserted + replaced + skipped == i,
        decreases observed@.len() - i,
    {
        let e = &observed[i];
        let ghost pre = observed@.subrange(0, i as int);
        let ghost next = observed@.subrange(0, i + 1);
        assert(next.drop_last() =~= pre);
        assert(next.last() == *e);
        let state: Option<bool> = match store.get_video_by_path(e.path.as_str()) {
            None => None,
            Some(row) => Some(is_record_changed(e, row)),
        };
        match state {
            None => {
                let _ = store.insert(e.duplicate());
                inserted = inserted + 1;
            },
            Some(true) => {
                let _ = store.delete(e.path.as_str());
                let _ = store.insert(e.duplicate());
                assert(store@ =~= apply_all(m0, pre).insert(e.path@, *e));
                replaced = replaced + 1;
            },
            Some(false) => {
                skipped = skipped + 1;
            },
        }
        i = i + 1;
    }
    assert(observed@.subrange(0, observed@.len() as int) =~= observed@);
    (inserted, replaced, skipped)
}

/// Whether `path` is the path `dir` or lies under the directory `dir`.
pub fn is_under(path: &str, dir: &str) -> (r: bool)
    ensures
        r == under(path@, dir@),
{
    let n = path.unicode_len();
    let m = dir.unicode_len();
    if str_eq(path, dir) {
        return true;
    }
    if m >= n {
        return false;
    }
    matches_at(path, 0, dir) && path.get_char(m) == '/'
}

fn is_unread(unread: &Vec<String>, path: &str) -> (r: bool)
    ensures
        r == unread_covers(path@, unread@),
{
    let mut i: usize = 0;
    while i < unread.len()
        invariant
            i <= unread@.len(),
            forall|k: int| 0 <= k < i ==> !under(path@, #[trigger] unread@[k]@),
        decreases unread@.len() - i,
    {
        if is_under(path, unread[i].as_str()) {
            return true;
        }
        i = i + 1;
    }
    false
}

/// Deletes every cataloged row whose path is not kept; returns how many
/// were deleted.
fn delete_unobserved(store: &mut CatalogStore, observed: &Vec<CatalogEntry>, unread: &Vec<String>) -> (deleted: usize)
    requires
        old(store).wf(),
    ensures
        final(store).wf(),
        final(store)@ == old(store)@.restrict(kept_paths(observed@, unread@)),
        deleted as nat == old(store)@.dom().difference(kept_paths(observed@, unread@)).len(),
{
    let ghost a = store@;
    let ghost obs_set = kept_paths(observed@, unread@);
    let all = store.all_entries();
    let mut deleted: usize = 0;
    let ghost mut gone: Set<Seq<char>> = Set::empty();
    let mut j: usize = 0;
    while j < all.len()
        invariant
            store.wf(),
            j <= all@.len(),
            forall|k: int| 0 <= k < all@.len() ==> a.contains_key((#[trigger] all@[k]).path@),
            forall|p: Seq<char>| a.contains_key(p) ==> exists|k: int| 0 <= k < all@.len() && (#[trigger] all@[k]).path@ == p,
            paths_of(all@).no_duplicates(),
            obs_set == kept_paths(observed@, unread@),
            gone.finite(),
            deleted as nat == gone.len(),
            deleted <= j,
            store@ == a.remove_keys(gone),
            forall|p: Seq<char>| gone.contains(p) ==> a.contains_key(p) && !obs_set.contains(p),
            forall|k: int| 0 <= k < j && !obs_set.contains((#[trigger] all@[k]).path@) ==> gone.contains(all@[k].path@),
            forall|p: Seq<char>| #[trigger] gone.contains(p) ==> exists|k: int| 0 <= k < j && all@[k].path@ == p,
        decreases all@.len() - j,
    {
        let path = all[j].path.as_str();
        if !is_observed(observed, path) && !is_unread(unread, path) {
            proof {
                assert forall|k: int| 0 <= k < j implies all@[k].path@ != all@[j as int].path@ by {
                    assert(paths_of(all@)[k] != paths_of(all@)[j as int]);
                }
                assert(!gone.contains(path@));
            }
            store.delete(path);
            proof {
                gone = gone.insert(path@);
            }
            assert(store@ =~= a.remove_keys(gone));
            deleted = deleted + 1;
        }
        j = j + 1;
    }
    proof {
        assert(gone =~= a.dom().difference(obs_set));
        assert(store@ =~= a.restrict(obs_set));
    }
    deleted
}

/// Runs one reconciliation pass of the catalog against the entries that a
/// scan of the configured roots observed. Each observed entry is inserted
/// when its path is new, replaced (deleted, then inserted whole) when the
/// cataloged row is out of date, and skipped otherwise. `unread` lists the
/// entries and directories that the scan could not read: rows at or under
/// them stay as they were, left for a later pass, and each counts as an
/// error. Every other row whose path was not observed is deleted.
pub fn reconcile(store: &mut CatalogStore, observed: &Vec<CatalogEntry>, unread: &Vec<String>) -> (r: SyncReport)
    requires
        old(store).wf(),
    ensures
        final(store).wf(),
        final(store)@ == reconciled(old(store)@, observed@, unread@),
        r.inserted as nat == count_decisions(old(store)@, observed@, Decision::Insert),
        r.replaced as nat == count_decisions(old(store)@, observed@, Decision::Replace),
        r.skipped as nat == count_decisions(old(store)@, observed@, Decision::Skip),
        r.deleted as nat == old(store)@.dom().difference(kept_paths(observed@, unread@)).len(),
        r.errors == unread@.len(),
{
    let ghost m0 = store@;
    proof {
        store.lemma_keys();
        lemma_apply_all_dom(m0, observed@);
    }
    let (inserted, replaced, skipped) = apply_observations(store, observed);
    let deleted = delete_unobserved(store, observed, unread);
    proof {
        let keep = kept_paths(observed@, unread@);
        assert(apply_all(m0, observed@).dom().difference(keep) =~= m0.dom().difference(keep));
    }
    SyncReport { inserted, replaced, deleted, skipped, errors: unread.len() }
}

/// Why a pass was refused; the catalog is then left as it was.
#[derive(Clone, Copy, Debug, PartialEq, Eq, Structural)]
pub enum SyncError {
    /// The configured root at this position does not exist.
    MissingRoot(usize),
    /// Two observed entries have the same path, which no scan produces.
    DuplicatePath,
}

/// Whether two observed entries share a path.
pub fn has_duplicate_paths(observed: &Vec<CatalogEntry>) -> (r: bool)
    ensures
        r == !paths_of(observed@).no_duplicates(),
{
    let n = observed.len();
    let mut i: usize = 0;
    while i < n
        invariant
            n == observed@.len(),
            i <= n,
            forall|a: int, b: int| 0 <= a < i && a < b < n ==> observed@[a].path@ != observed@[b].path@,
        decreases n - i,
    {
        let mut j: usize = i + 1;
        while j < n
            invariant
                n == observed@.len(),
                i < n,
                i + 1 <= j <= n,
                forall|a: int, b: int| 0 <= a < i && a < b < n ==> observed@[a].path@ != observed@[b].path@,
                forall|b: int| i < b < j ==> observed@[i as int].path@ != observed@[b].path@,
            decreases n - j,
        {
            if str_eq(observed[i].path.as_str(), observed[j].path.as_str()) {
                proof {
                    assert(paths_of(observed@)[i as int] == paths_of(observed@)[j as int]);
                }
                return true;
            }
            j = j + 1;
        }
        i = i + 1;
    }
    proof {
        assert forall|a: int, b: int| 0 <= a < paths_of(observed@).len() && 0 <= b < paths_of(observed@).len() && a != b
            implies paths_of(observed@)[a] != paths_of(observed@)[b] by {
            if a < b {
                assert(observed@[a].path@ != observed@[b].path@);
            } else {
                assert(observed@[b].path@ != observed@[a].path@);
            }
        }
    }
    false
}

/// Synchronizes the catalog with the file system.
pub struct DirectorySync;

impl DirectorySync {
    /// A pass over the observed entries of the configured roots, of which
    /// `root_exists` tells which exist. A missing root refuses the pass, as
    /// do two observations of one path; the catalog is then unchanged.
    /// With `force`, the catalog is first emptied, so that every observed
    /// entry is inserted anew.
    pub fn initialize_from_directory_with_progress(
        store: &mut CatalogStore,
        root_exists: &Vec<bool>,
        observed: &Vec<CatalogEntry>,
        unread: &Vec<String>,
        force: bool,
    ) -> (r: Result<SyncReport, SyncError>)
        requires
            old(store).wf(),
        ensures
            final(store).wf(),
            first_missing(root_exists@) matches Some(i) ==> r == Err::<SyncReport, SyncError>(SyncError::MissingRoot(i as usize))
                && final(store)@ == old(store)@,
            first_missing(root_exists@) is None && !paths_of(observed@).no_duplicates()
                ==> r == Err::<SyncReport, SyncError>(SyncError::DuplicatePath) && final(store)@ == old(store)@,
            first_missing(root_exists@) is None && paths_of(observed@).no_duplicates() ==> (r matches Ok(rep) && {
                let start = if force { Map::<Seq<char>, CatalogEntry>::empty() } else { old(store)@ };
                &&& final(store)@ == reconciled(start, observed@, unread@)
                &&& rep.inserted as nat == count_decisions(start, observed@, Decision::Insert)
                &&& rep.replaced as nat == count_decisions(start, observed@, Decision::Replace)
                &&& rep.skipped as nat == count_decisions(start, observed@, Decision::Skip)
                &&& rep.deleted as nat == start.dom().difference(kept_paths(observed@, unread@)).len()
                &&& rep.errors == unread@.len()
            }),
    {
        match find_missing(root_exists) {
            Some(i) => return Err(SyncError::MissingRoot(i)),
            None => {},
        }
        if has_duplicate_paths(observed) {
            return Err(SyncError::DuplicatePath);
        }
        if force {
            store.clear();
        }
        Ok(reconcile(store, observed, unread))
    }
}

/// After observed entries with distinct paths are applied, each of them is
/// cataloged under its path by a row that is not out of date with respect
/// to it.
proof fn lemma_applied_current(m: Map<Seq<char>, CatalogEntry>, obs: Seq<CatalogEntry>)
    requires
        paths_of(obs).no_duplicates(),
    ensures
        forall|k: int| 0 <= k < obs.len() ==> {
            &&& apply_all(m, obs).contains_key((#[trigger] obs[k]).path@)
            &&& !changed(obs[k], apply_all(m, obs)[obs[k].path@])
        },
    decreases obs.len(),
{
    if obs.len() > 0 {
        let t = obs.drop_last();
        assert(paths_of(t) =~= paths_of(obs).drop_last());
        lemma_applied_current(m, t);
        assert forall|k: int| 0 <= k < obs.len() implies {
            &&& apply_all(m, obs).contains_key((#[trigger] obs[k]).path@)
            &&& !changed(obs[k], apply_all(m, obs)[obs[k].path@])
        } by {
            if k < obs.len() - 1 {
                assert(t[k] == obs[k]);
                assert(paths_of(obs)[k] != paths_of(obs)[obs.len() - 1]);
            }
        }
    }
}

/// Observed entries that the catalog already holds, each by a row that is
/// not out of date, are all skipped and change nothing.
proof fn lemma_all_current(m: Map<Seq<char>, CatalogEntry>, obs: Seq<CatalogEntry>)
    requires
        forall|k: int| 0 <= k < obs.len() ==> {
            &&& m.contains_key((#[trigger] obs[k]).path@)
            &&& !changed(obs[k], m[obs[k].path@])
        },
    ensures
        apply_all(m, obs) == m,
        count_decisions(m, obs, Decision::Insert) == 0,
        count_decisions(m, obs, Decision::Replace) == 0,
        count_decisions(m, obs, Decision::Skip) == obs.len(),
    decreases obs.len(),
{
    if obs.len() > 0 {
        let t = obs.drop_last();
        assert forall|k: int| 0 <= k < t.len() implies {
            &&& m.contains_key((#[trigger] t[k]).path@)
            &&& !changed(t[k], m[t[k].path@])
        } by {
            assert(t[k] == obs[k]);
        }
        lemma_all_current(m, t);
        assert(obs.last() == obs[obs.len() - 1]);
    }
}

/// Running a pass twice in succession on the same observations and the same
/// unread paths: the second pass inserts, replaces and deletes nothing,
/// skips every observed entry, and leaves the catalog as the first pass
/// left it.
pub proof fn lemma_reconcile_idempotent(store: &CatalogStore, obs: Seq<CatalogEntry>, unread: Seq<String>)
    requires
        store.wf(),
        paths_of(obs).no_duplicates(),
    ensures
        count_decisions(reconciled(store@, obs, unread), obs, Decision::Insert) == 0,
        count_decisions(reconciled(store@, obs, unread), obs, Decision::Replace) == 0,
        count_decisions(reconciled(store@, obs, unread), obs, Decision::Skip) == obs.len(),
        reconciled(store@, obs, unread).dom().difference(kept_paths(obs, unread)).len() == 0,
        reconciled(reconciled(store@, obs, unread), obs, unread) == reconciled(store@, obs, unread),
{
    let m = store@;
    let keep = kept_paths(obs, unread);
    let m1 = reconciled(m, obs, unread);
    store.lemma_keys();
    lemma_apply_all_dom(m, obs);
    lemma_applied_current(m, obs);
    assert forall|k: int| 0 <= k < obs.len() implies {
        &&& m1.contains_key((#[trigger] obs[k]).path@)
        &&& !changed(obs[k], m1[obs[k].path@])
    } by {
        assert(paths_of(obs)[k] == obs[k].path@);
        assert(observed_paths(obs).contains(obs[k].path@));
        assert(keep.contains(obs[k].path@));
    }
    lemma_all_current(m1, obs);
    assert(m1.restrict(keep) =~= m1);
    assert(m1.dom().difference(keep) =~= Set::<Seq<char>>::empty());
}

/// After a pass the catalog holds exactly the observed paths and the
/// cataloged paths at or under unread ones, each entry under its own path;
/// when everything was read, exactly the observed paths.
pub proof fn lemma_reconcile_converges(store: &CatalogStore, obs: Seq<CatalogEntry>, unread: Seq<String>)
    requires
        store.wf(),
    ensures
        reconciled(store@, obs, unread).dom() == observed_paths(obs).union(
            Set::new(|p: Seq<char>| store@.contains_key(p) && unread_covers(p, unread)),
        ),
        unread.len() == 0 ==> reconciled(store@, obs, unread).dom() == observed_paths(obs),
        forall|p: Seq<char>| #[trigger] reconciled(store@, obs, unread).contains_key(p)
            ==> reconciled(store@, obs, unread)[p].path@ == p,
{
    store.lemma_keys();
    lemma_apply_all_dom(store@, obs);
    assert(reconciled(store@, obs, unread).dom() =~= observed_paths(obs).union(
        Set::new(|p: Seq<char>| store@.contains_key(p) && unread_covers(p, unread)),
    ));
    if unread.len() == 0 {
        assert(reconciled(store@, obs, unread).dom() =~= observed_paths(obs));
    }
}

/// A cataloged path that the scan no longer observes, and that lies under
/// no unread path, is gone after the pass, and with it every attribute of
/// its row.
pub proof fn lemma_reconcile_deletes(store: &CatalogStore, obs: Seq<CatalogEntry>, unread: Seq<String>, p: Seq<char>)
    requires
        store.wf(),
        store@.contains_key(p),
        !observed_paths(obs).contains(p),
        !unread_covers(p, unread),
    ensures
        !reconciled(store@, obs, unread).contains_key(p),
{
}

/// A cataloged path at or under one the scan could not read, and not
/// observed, keeps its row unchanged, to be reconciled by a later pass.
pub proof fn lemma_reconcile_keeps_unread(store: &CatalogStore, obs: Seq<CatalogEntry>, unread: Seq<String>, p: Seq<char>)
    requires
        store.wf(),
        store@.contains_key(p),
        !observed_paths(obs).contains(p),
        unread_covers(p, unread),
    ensures
        reconciled(store@, obs, unread).contains_key(p),
        reconciled(store@, obs, unread)[p] == store@[p],
{
    lemma_untouched(store@, obs, p);
}

/// An observed path that the catalog lacks is inserted with the observed
/// entry, and the rows of the other observed paths are kept or replaced
/// by what was observed.
pub proof fn lemma_reconcile_entries(store: &CatalogStore, obs: Seq<CatalogEntry>, unread: Seq<String>)
    requires
        store.wf(),
        paths_of(obs).no_duplicates(),
    ensures
        forall|k: int| 0 <= k < obs.len() ==> {
            let e = #[trigger] obs[k];
            let row = reconciled(store@, obs, unread)[e.path@];
            &&& reconciled(store@, obs, unread).contains_key(e.path@)
            &&& (row == e || (store@.contains_key(e.path@) && row == store@[e.path@] && !changed(e, row)))
        },
{
    let m = store@;
    lemma_entries_rows(m, obs);
    assert forall|k: int| 0 <= k < obs.len() implies kept_paths(obs, unread).contains((#[trigger] obs[k]).path@) by {
        assert(paths_of(obs)[k] == obs[k].path@);
        assert(observed_paths(obs).contains(obs[k].path@));
    }
}

proof fn lemma_entries_rows(m: Map<Seq<char>, CatalogEntry>, obs: Seq<CatalogEntry>)
    requires
        paths_of(obs).no_duplicates(),
    ensures
        forall|k: int| 0 <= k < obs.len() ==> {
            let e = #[trigger] obs[k];
            let row = apply_all(m, obs)[e.path@];
            &&& apply_all(m, obs).contains_key(e.path@)
            &&& (row == e || (m.contains_key(e.path@) && row == m[e.path@] && !changed(e, row)))
        },
    decreases obs.len(),
{
    if obs.len() > 0 {
        let t = obs.drop_last();
        assert(paths_of(t) =~= paths_of(obs).drop_last());
        lemma_entries_rows(m, t);
        assert(!paths_of(t).contains(obs.last().path@)) by {
            if paths_of(t).contains(obs.last().path@) {
                let j = choose|j: int| 0 <= j < paths_of(t).len() && paths_of(t)[j] == obs.last().path@;
                assert(paths_of(obs)[j] == paths_of(obs)[obs.len() - 1]);
            }
        }
        lemma_untouched(m, t, obs.last().path@);
        assert forall|k: int| 0 <= k < obs.len() implies {
            let e = #[trigger] obs[k];
            let row = apply_all(m, obs)[e.path@];
            &&& apply_all(m, obs).contains_key(e.path@)
            &&& (row == e || (m.contains_key(e.path@) && row == m[e.path@] && !changed(e, row)))
        } by {
            if k < obs.len() - 1 {
                assert(t[k] == obs[k]);
                assert(paths_of(obs)[k] != paths_of(obs)[obs.len() - 1]);
            }
        }
    }
}

/// A path that no applied entry has keeps its row.
proof fn lemma_untouched(m: Map<Seq<char>, CatalogEntry>, obs: Seq<CatalogEntry>, p: Seq<char>)
    requires
        !paths_of(obs).contains(p),
    ensures
        apply_all(m, obs).contains_key(p) == m.contains_key(p),
        m.contains_key(p) ==> apply_all(m, obs)[p] == m[p],
    decreases obs.len(),
{
    if obs.len() > 0 {
        let t = obs.drop_last();
        assert(paths_of(t) =~= paths_of(obs).drop_last());
        assert(paths_of(obs)[obs.len() - 1] == obs.last().path@);
        lemma_untouched(m, t, p);
    }
}

/// When the observations are exactly the entries that `select` picks from
/// a listing of the roots (each read, none unread), the catalog after the
/// pass holds exactly the paths of those entries: the classifiable entries
/// under the roots, with streaming containers as leaves.
pub proof fn lemma_pass_catalogs_listing(
    store: &CatalogStore,
    roots: Seq<String>,
    items: Seq<FsItem>,
    obs: Seq<CatalogEntry>,
)
    requires
        store.wf(),
        selection(roots, items).len() == items.len(),
        forall|i: int| 0 <= i < obs.len() ==> exists|k: int| 0 <= k < items.len()
            && selection(roots, items)[k] && (#[trigger] obs[i]).path@ == item_path(items[k]),
        forall|k: int| 0 <= k < items.len() && #[trigger] selection(roots, items)[k]
            ==> exists|i: int| 0 <= i < obs.len() && (#[trigger] obs[i]).path@ == item_path(items[k]),
    ensures
        forall|p: Seq<char>| #[trigger] reconciled(store@, obs, Seq::empty()).contains_key(p)
            <==> exists|k: int| 0 <= k < items.len() && selection(roots, items)[k] && p == item_path(items[k]),
{
    lemma_reconcile_converges(store, obs, Seq::empty());
    assert forall|p: Seq<char>| #[trigger] reconciled(store@, obs, Seq::empty()).contains_key(p)
        <==> exists|k: int| 0 <= k < items.len() && selection(roots, items)[k] && p == item_path(items[k]) by {
        if observed_paths(obs).contains(p) {
            let i = choose|i: int| 0 <= i < paths_of(obs).len() && paths_of(obs)[i] == p;
            assert(obs[i].path@ == p);
        }
        if exists|k: int| 0 <= k < items.len() && selection(roots, items)[k] && p == item_path(items[k]) {
            let k = choose|k: int| 0 <= k < items.len() && selection(roots, items)[k] && p == item_path(items[k]);
            let i = choose|i: int| 0 <= i < obs.len() && (#[trigger] obs[i]).path@ == item_path(items[k]);
            assert(paths_of(obs)[i] == p);
        }
    }
}

} // verus!
