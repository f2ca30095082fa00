//! Which entries of a listed directory tree the catalog holds. A listing
//! names every entry under the roots, a directory before its contents; an
//! entry is cataloged when it is classifiable and its directory is a root
//! or a cataloged plain container, so that streaming containers are leaves
//! and skipped directories hide what they hold.
use vstd::prelude::*;
use crate::media::{classify_entry, entry_kind_spec, EntryKind};
use crate::paths::{join_path, join_spec};
use crate::text::str_eq;

verus! {

/// One listed file-system entry.
#[derive(Debug)]
pub struct FsItem {
    /// The catalog path of the directory that holds it.
    pub parent: String,
    pub name: String,
    pub is_dir: bool,
    /// For a directory, the names of its immediate children.
    pub child_names: Vec<String>,
}

/// The catalog path of a listed entry.
pub open spec fn item_path(it: FsItem) -> Seq<char> {
    join_spec(it.parent@, it.name@)
}

/// The catalog kind of a listed entry, if the catalog holds such entries.
pub open spec fn item_kind(it: FsItem) -> Option<EntryKind> {
    entry_kind_spec(it.is_dir, it.name@, it.child_names@)
}

/// Whether some root is the path `p`.
pub open spec fn is_root(roots: Seq<String>, p: Seq<char>) -> bool {
    exists|r: int| 0 <= r < roots.len() && #[trigger] roots[r]@ == p
}

/// Whether the entry at position `k` is a plain container that `prev`
/// marks as cataloged and whose path is `p`.
pub open spec fn container_at(items: Seq<FsItem>, prev: Seq<bool>, k: int, p: Seq<char>) -> bool {
    &&& 0 <= k < prev.len()
    &&& k < items.len()
    &&& prev[k]
    &&& item_kind(items[k]) == Some(EntryKind::Directory)
    &&& item_path(items[k]) == p
}

/// Whether the entry at position `k` is cataloged, given in `prev` which of
/// the entries before it are: it is classifiable, and its directory is a
/// root or a cataloged plain container listed before it.
pub open spec fn chosen(roots: Seq<String>, items: Seq<FsItem>, prev: Seq<bool>, k: int) -> bool {
    &&& item_kind(items[k]) is Some
    &&& (is_root(roots, items[k].parent@)
        || exists|j: int| 0 <= j < k && #[trigger] container_at(items, prev, j, items[k].parent@))
}

/// Which of the first `k` listed entries are cataloged.
pub open spec fn selection_upto(roots: Seq<String>, items: Seq<FsItem>, k: nat) -> Seq<bool>
    decreases k,
{
    if k == 0 {
        Seq::empty()
    } else {
        let prev = selection_upto(roots, items, (k - 1) as nat);
        prev.push(chosen(roots, items, prev, k - 1))
    }
}

proof fn lemma_selection_len(roots: Seq<String>, items: Seq<FsItem>, k: nat)
    ensures
        selection_upto(roots, items, k).len() == k,
    decreases k,
{
    if k > 0 {
        lemma_selection_len(roots, items, (k - 1) as nat);
    }
}

/// Which listed entries are cataloged.
pub open spec fn selection(roots: Seq<String>, items: Seq<FsItem>) -> Seq<bool> {
    selection_upto(roots, items, items.len())
}

fn is_root_path(roots: &Vec<String>, p: &str) -> (r: bool)
    ensures
        r == is_root(roots@, p@),
{
    let mut i: usize = 0;
    while i < roots.len()
        invariant
            i <= roots@.len(),
            forall|k: int| 0 <= k < i ==> (#[trigger] roots@[k])@ != p@,
        decreases roots@.len() - i,
    {
        if str_eq(roots[i].as_str(), p) {
            return true;
        }
        i = i + 1;
    }
    false
}

/// For each listed entry, its kind when the catalog holds it, and none
/// otherwise.
pub fn select(roots: &Vec<String>, items: &Vec<FsItem>) -> (r: Vec<Option<EntryKind>>)
    ensures
        r@.len() == items@.len(),
        selection(roots@, items@).len() == items@.len(),
        forall|k: int| 0 <= k < items@.len() ==>
            #[trigger] r@[k] == if selection(roots@, items@)[k] { item_kind(items@[k]) } else { None },
{
    let n = items.len();
    let mut r: Vec<Option<EntryKind>> = Vec::new();
    let mut paths: Vec<String> = Vec::new();
    let ghost mut sel: Seq<bool> = Seq::empty();
    let mut k: usize = 0;
    while k < n
        invariant
            n == items@.len(),
            k <= n,
            r@.len() == k,
            paths@.len() == k,
            sel == selection_upto(roots@, items@, k as nat),
            sel.len() == k,
            forall|j: int| 0 <= j < k ==> (#[trigger] paths@[j])@ == item_path(items@[j]),
            forall|j: int| 0 <= j < k ==>
                #[trigger] r@[j] == if sel[j] { item_kind(items@[j]) } else { None },
        decreases n - k,
    {
        let kind = classify_entry(items[k].is_dir, items[k].name.as_str(), &items[k].child_names);
        let mut reach = is_root_path(roots, items[k].parent.as_str());
        let mut j: usize = 0;
        while j < k && !reach
            invariant
                n == items@.len(),
                k < n,
                j <= k,
                r@.len() == k,
                paths@.len() == k,
                sel.len() == k,
                forall|i: int| 0 <= i < k ==> (#[trigger] paths@[i])@ == item_path(items@[i]),
                forall|i: int| 0 <= i < k ==>
                    #[trigger] r@[i] == if sel[i] { item_kind(items@[i]) } else { None },
                reach ==> (is_root(roots@, items@[k as int].parent@)
                    || exists|i: int| 0 <= i < k && #[trigger] container_at(items@, sel, i, items@[k as int].parent@)),
                !reach ==> !is_root(roots@, items@[k as int].parent@)
                    && forall|i: int| 0 <= i < j ==> !#[trigger] container_at(items@, sel, i, items@[k as int].parent@),
            decreases k - j,
        {
            let dir = match r[j] {
                Some(EntryKind::Directory) => true,
                _ => false,
            };
            if dir && str_eq(paths[j].as_str(), items[k].parent.as_str()) {
                proof {
                    assert(r@[j as int] == Some(EntryKind::Directory));
                    assert(container_at(items@, sel, j as int, items@[k as int].parent@));
                }
                reach = true;
            } else {
                proof {
                    if container_at(items@, sel, j as int, items@[k as int].parent@) {
                        assert(r@[j as int] == Some(EntryKind::Directory));
                    }
                }
            }
            j = j + 1;
        }
        let ghost c = chosen(roots@, items@, sel, k as int);
        proof {
            lemma_selection_len(roots@, items@, k as nat);
            assert(kind == item_kind(items@[k as int]));
            assert(c == (item_kind(items@[k as int]) is Some && reach));
        }
        let picked = if reach { kind } else { None };
        r.push(picked);
        paths.push(join_path(items[k].parent.as_str(), items[k].name.as_str()));
        proof {
            sel = sel.push(c);
        }
        k = k + 1;
    }
    proof {
        lemma_selection_len(roots@, items@, n as nat);
    }
    r
}

} // verus!
