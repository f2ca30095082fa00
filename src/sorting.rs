//! Ordering of listed entries by a chosen field and direction. Text is
//! compared character by character by code point; an absent value comes
//! before every present one.
use vstd::prelude::*;
use crate::catalog::{CatalogEntry, paths_of};
use crate::media::{kind_label, kind_label_spec};
use crate::text::{eq_ignore_ascii_case, str_eq, str_eq_ignore_case};

verus! {

/// The field a listing is ordered by.
#[derive(Clone, Copy, Debug, PartialEq, Eq, Structural)]
pub enum SortField {
    Name,
    Path,
    CreatedAt,
    Size,
    Duration,
    /// The kind's stored name in descending order, then the name in
    /// ascending order: the order in which listings are served.
    Kind,
}

/// The direction of an ordering.
#[derive(Clone, Copy, Debug, PartialEq, Eq, Structural)]
pub enum SortOrder {
    Asc,
    Desc,
}

/// Whether `x` comes no later than `y` in code-point order.
pub open spec fn lex_le(x: Seq<char>, y: Seq<char>) -> bool
    decreases x.len(),
{
    if x.len() == 0 {
        true
    } else if y.len() == 0 {
        false
    } else if (x[0] as u32) != (y[0] as u32) {
        (x[0] as u32) < (y[0] as u32)
    } else {
        lex_le(x.subrange(1, x.len() as int), y.subrange(1, y.len() as int))
    }
}

proof fn lemma_lex_total(x: Seq<char>, y: Seq<char>)
    ensures
        lex_le(x, y) || lex_le(y, x),
    decreases x.len(),
{
    if x.len() > 0 && y.len() > 0 && (x[0] as u32) == (y[0] as u32) {
        lemma_lex_total(x.subrange(1, x.len() as int), y.subrange(1, y.len() as int));
    }
}

proof fn lemma_lex_trans(x: Seq<char>, y: Seq<char>, z: Seq<char>)
    requires
        lex_le(x, y),
        lex_le(y, z),
    ensures
        lex_le(x, z),
    decreases x.len(),
{
    if x.len() > 0 && y.len() > 0 && z.len() > 0 && (x[0] as u32) == (y[0] as u32) && (y[0] as u32) == (z[0] as u32) {
        lemma_lex_trans(
            x.subrange(1, x.len() as int),
            y.subrange(1, y.len() as int),
            z.subrange(1, z.len() as int),
        );
    }
}

/// Whether the key `a` comes no later than `b`: absent keys come first.
pub open spec fn key_le(a: Option<Seq<char>>, b: Option<Seq<char>>) -> bool {
    match (a, b) {
        (None, _) => true,
        (Some(_), None) => false,
        (Some(x), Some(y)) => lex_le(x, y),
    }
}

/// The key of an entry for a field.
pub open spec fn sort_key(e: CatalogEntry, f: SortField) -> Option<Seq<char>> {
    match f {
        SortField::Name => Some(e.name@),
        SortField::Path => Some(e.path@),
        SortField::CreatedAt => Some(e.created_at@),
        SortField::Size => match e.size { Some(s) => Some(s@), None => None },
        SortField::Duration => match e.duration { Some(s) => Some(s@), None => None },
        SortField::Kind => Some(kind_label_spec(e.kind)),
    }
}

/// Whether `a` may stand before `b` in the served order: a greater kind
/// name first, and among equal kind names, the smaller name first.
pub open spec fn listing_le(a: CatalogEntry, b: CatalogEntry) -> bool {
    let la = kind_label_spec(a.kind);
    let lb = kind_label_spec(b.kind);
    if !lex_le(la, lb) {
        true
    } else if !lex_le(lb, la) {
        false
    } else {
        lex_le(a.name@, b.name@)
    }
}

/// Whether `a` may stand before `b` in a listing ordered by `f` and `o`.
pub open spec fn in_order(a: CatalogEntry, b: CatalogEntry, f: SortField, o: SortOrder) -> bool {
    if f == SortField::Kind {
        match o {
            SortOrder::Asc => listing_le(a, b),
            SortOrder::Desc => listing_le(b, a),
        }
    } else {
        match o {
            SortOrder::Asc => key_le(sort_key(a, f), sort_key(b, f)),
            SortOrder::Desc => key_le(sort_key(b, f), sort_key(a, f)),
        }
    }
}

proof fn lemma_listing_total(a: CatalogEntry, b: CatalogEntry)
    ensures
        listing_le(a, b) || listing_le(b, a),
{
    lemma_lex_total(kind_label_spec(a.kind), kind_label_spec(b.kind));
    lemma_lex_total(a.name@, b.name@);
}

proof fn lemma_listing_trans(a: CatalogEntry, b: CatalogEntry, c: CatalogEntry)
    requires
        listing_le(a, b),
        listing_le(b, c),
    ensures
        listing_le(a, c),
{
    let la = kind_label_spec(a.kind);
    let lb = kind_label_spec(b.kind);
    let lc = kind_label_spec(c.kind);
    lemma_lex_total(la, lb);
    lemma_lex_total(lb, lc);
    lemma_lex_total(la, lc);
    if lex_le(la, lc) && lex_le(lc, lb) {
        lemma_lex_trans(la, lc, lb);
    }
    if lex_le(lb, la) && lex_le(la, lc) {
        lemma_lex_trans(lb, la, lc);
    }
    if lex_le(lc, la) && lex_le(la, lb) {
        lemma_lex_trans(lc, la, lb);
    }
    if lex_le(lb, lc) && lex_le(lc, la) {
        lemma_lex_trans(lb, lc, la);
    }
    if lex_le(la, lb) && lex_le(lb, lc) {
        lemma_lex_trans(la, lb, lc);
    }
    if lex_le(lc, lb) && lex_le(lb, la) {
        lemma_lex_trans(lc, lb, la);
    }
    if lex_le(a.name@, b.name@) && lex_le(b.name@, c.name@) {
        lemma_lex_trans(a.name@, b.name@, c.name@);
    }
}

proof fn lemma_in_order_total(a: CatalogEntry, b: CatalogEntry, f: SortField, o: SortOrder)
    ensures
        in_order(a, b, f, o) || in_order(b, a, f, o),
{
    if f == SortField::Kind {
        lemma_listing_total(a, b);
        return;
    }
    match (sort_key(a, f), sort_key(b, f)) {
        (Some(x), Some(y)) => lemma_lex_total(x, y),
        _ => {},
    }
}

proof fn lemma_in_order_trans(a: CatalogEntry, b: CatalogEntry, c: CatalogEntry, f: SortField, o: SortOrder)
    requires
        in_order(a, b, f, o),
        in_order(b, c, f, o),
    ensures
        in_order(a, c, f, o),
{
    if f == SortField::Kind {
        match o {
            SortOrder::Asc => lemma_listing_trans(a, b, c),
            SortOrder::Desc => lemma_listing_trans(c, b, a),
        }
        return;
    }
    match (sort_key(a, f), sort_key(b, f), sort_key(c, f)) {
        (Some(x), Some(y), Some(z)) => match o {
            SortOrder::Asc => lemma_lex_trans(x, y, z),
            SortOrder::Desc => lemma_lex_trans(z, y, x),
        },
        _ => {},
    }
}

/// Whether `s` is ordered by `f` and `o`.
pub open spec fn is_sorted(s: Seq<CatalogEntry>, f: SortField, o: SortOrder) -> bool {
    forall|a: int, b: int| 0 <= a < b < s.len() ==> in_order(#[trigger] s[a], #[trigger] s[b], f, o)
}

/// Compares two texts in code-point order.
pub fn text_le(a: &str, b: &str) -> (r: bool)
    ensures
        r == lex_le(a@, b@),
{
    let n = a.unicode_len();
    let m = b.unicode_len();
    let mut i: usize = 0;
    assert(a@.subrange(0, n as int) =~= a@);
    assert(b@.subrange(0, m as int) =~= b@);
    while i < n && i < m
        invariant
            n == a@.len(),
            m == b@.len(),
            i <= n,
            i <= m,
            lex_le(a@, b@) == lex_le(a@.subrange(i as int, n as int), b@.subrange(i as int, m as int)),
        decreases n - i,
    {
        let ca = a.get_char(i);
        let cb = b.get_char(i);
        let ghost x = a@.subrange(i as int, n as int);
        let ghost y = b@.subrange(i as int, m as int);
        assert(x[0] == ca && y[0] == cb);
        if (ca as u32) != (cb as u32) {
            return (ca as u32) < (cb as u32);
        }
        assert(x.subrange(1, x.len() as int) =~= a@.subrange(i + 1, n as int));
        assert(y.subrange(1, y.len() as int) =~= b@.subrange(i + 1, m as int));
        i = i + 1;
    }
    i == n
}

fn key_text_le(a: Option<&str>, b: Option<&str>) -> (r: bool)
    ensures
        r == key_le(
            match a { Some(s) => Some(s@), None => None },
            match b { Some(s) => Some(s@), None => None },
        ),
{
    match (a, b) {
        (None, _) => true,
        (Some(_), None) => false,
        (Some(x), Some(y)) => text_le(x, y),
    }
}

fn key_of(e: &CatalogEntry, f: SortField) -> (r: Option<&str>)
    ensures
        match r { Some(s) => Some(s@), None => None } == sort_key(*e, f),
{
    match f {
        SortField::Name => Some(e.name.as_str()),
        SortField::Path => Some(e.path.as_str()),
        SortField::CreatedAt => Some(e.created_at.as_str()),
        SortField::Size => match &e.size { Some(s) => Some(s.as_str()), None => None },
        SortField::Duration => match &e.duration { Some(s) => Some(s.as_str()), None => None },
        SortField::Kind => Some(kind_label(e.kind)),
    }
}

fn listing_in_order(a: &CatalogEntry, b: &CatalogEntry) -> (r: bool)
    ensures
        r == listing_le(*a, *b),
{
    let la = kind_label(a.kind);
    let lb = kind_label(b.kind);
    if !text_le(la, lb) {
        true
    } else if !text_le(lb, la) {
        false
    } else {
        text_le(a.name.as_str(), b.name.as_str())
    }
}

/// Whether `a` may stand before `b` in a listing ordered by `f` and `o`.
pub fn entry_in_order(a: &CatalogEntry, b: &CatalogEntry, f: SortField, o: SortOrder) -> (r: bool)
    ensures
        r == in_order(*a, *b, f, o),
{
    if f == SortField::Kind {
        return match o {
            SortOrder::Asc => listing_in_order(a, b),
            SortOrder::Desc => listing_in_order(b, a),
        };
    }
    match o {
        SortOrder::Asc => key_text_le(key_of(a, f), key_of(b, f)),
        SortOrder::Desc => key_text_le(key_of(b, f), key_of(a, f)),
    }
}

/// Orders entries by `f` and `o`; entries with equal keys keep their
/// relative order.
pub fn sort_entries(items: Vec<CatalogEntry>, f: SortField, o: SortOrder) -> (r: Vec<CatalogEntry>)
    ensures
        is_sorted(r@, f, o),
        r@.to_multiset() == items@.to_multiset(),
{
    broadcast use vstd::seq_lib::group_to_multiset_ensures;
    let ghost orig = items@;
    let mut items = items;
    let mut out: Vec<CatalogEntry> = Vec::new();
    assert(orig.to_multiset() =~= out@.to_multiset().add(items@.to_multiset()));
    while items.len() > 0
        invariant
            is_sorted(out@, f, o),
            orig.to_multiset() == out@.to_multiset().add(items@.to_multiset()),
        decreases items@.len(),
    {
        let ghost before_items = items@;
        let x = items.remove(0);
        let mut j: usize = 0;
        while j < out.len() && entry_in_order(&out[j], &x, f, o)
            invariant
                j <= out@.len(),
                forall|k: int| 0 <= k < j ==> in_order(#[trigger] out@[k], x, f, o),
            decreases out@.len() - j,
        {
            j = j + 1;
        }
        let ghost before = out@;
        proof {
            if j < before.len() {
                lemma_in_order_total(before[j as int], x, f, o);
            }
        }
        out.insert(j, x);
        proof {
            assert(out@ =~= before.insert(j as int, x));
            assert forall|a: int, b: int| 0 <= a < b < out@.len() implies in_order(#[trigger] out@[a], #[trigger] out@[b], f, o) by {
                if b < j {
                    assert(in_order(before[a], before[b], f, o));
                } else if b == j {
                    assert(in_order(before[a], x, f, o));
                } else if a == j {
                    if b - 1 > j {
                        assert(in_order(before[j as int], before[b - 1], f, o));
                        lemma_in_order_trans(x, before[j as int], before[b - 1], f, o);
                    }
                } else if a < j {
                    assert(in_order(before[a], before[b - 1], f, o));
                } else {
                    assert(in_order(before[a - 1], before[b - 1], f, o));
                }
            }
            assert(before_items.remove(0) == items@);
            assert(before_items[0] == x);
            vstd::seq_lib::to_multiset_insert(before, j as int, x);
            vstd::seq_lib::to_multiset_remove(before_items, 0);
            assert(before_items.contains(x));
            vstd::seq_lib::to_multiset_contains(before_items, x);
            assert(before_items.to_multiset().count(x) > 0);
            assert(orig.to_multiset() =~= out@.to_multiset().add(items@.to_multiset()));
        }
    }
    assert(items@.to_multiset() =~= vstd::multiset::Multiset::<CatalogEntry>::empty());
    out
}

/// The valid field names.
pub open spec fn field_named(name: Seq<char>) -> Option<SortField> {
    if name == seq!['n', 'a', 'm', 'e'] {
        Some(SortField::Name)
    } else if name == seq!['p', 'a', 't', 'h'] {
        Some(SortField::Path)
    } else if name == seq!['c', 'r', 'e', 'a', 't', 'e', 'd', '_', 'a', 't'] {
        Some(SortField::CreatedAt)
    } else if name == seq!['s', 'i', 'z', 'e'] {
        Some(SortField::Size)
    } else if name == seq!['d', 'u', 'r', 'a', 't', 'i', 'o', 'n'] {
        Some(SortField::Duration)
    } else {
        None
    }
}

fn field_of(name: &str) -> (r: Option<SortField>)
    ensures
        r == field_named(name@),
{
    proof {
        reveal_strlit("name");
        reveal_strlit("path");
        reveal_strlit("created_at");
        reveal_strlit("size");
        reveal_strlit("duration");
    }
    assert("name"@ =~= seq!['n', 'a', 'm', 'e']);
    assert("path"@ =~= seq!['p', 'a', 't', 'h']);
    assert("created_at"@ =~= seq!['c', 'r', 'e', 'a', 't', 'e', 'd', '_', 'a', 't']);
    assert("size"@ =~= seq!['s', 'i', 'z', 'e']);
    assert("duration"@ =~= seq!['d', 'u', 'r', 'a', 't', 'i', 'o', 'n']);
    if str_eq(name, "name") {
        Some(SortField::Name)
    } else if str_eq(name, "path") {
        Some(SortField::Path)
    } else if str_eq(name, "created_at") {
        Some(SortField::CreatedAt)
    } else if str_eq(name, "size") {
        Some(SortField::Size)
    } else if str_eq(name, "duration") {
        Some(SortField::Duration)
    } else {
        None
    }
}

/// The direction a request names: ascending for `asc` in any case,
/// descending otherwise.
pub open spec fn order_named(o: Seq<char>) -> SortOrder {
    if eq_ignore_ascii_case(o, seq!['a', 's', 'c']) { SortOrder::Asc } else { SortOrder::Desc }
}

/// The ordering a listing request asks for: a known field in the named
/// direction (descending when none is named); creation time when the
/// field is absent, in the named direction; creation time descending when
/// the field is unknown.
pub open spec fn sort_choice_spec(sort_by: Option<Seq<char>>, sort_order: Option<Seq<char>>) -> (SortField, SortOrder) {
    match sort_by {
        Some(name) => match field_named(name) {
            Some(f) => (f, match sort_order { Some(o) => order_named(o), None => SortOrder::Desc }),
            None => (SortField::CreatedAt, SortOrder::Desc),
        },
        None => (SortField::CreatedAt, match sort_order { Some(o) => order_named(o), None => SortOrder::Desc }),
    }
}

/// The ordering a listing request asks for.
pub fn sort_choice(sort_by: Option<&str>, sort_order: Option<&str>) -> (r: (SortField, SortOrder))
    ensures
        r == sort_choice_spec(
            match sort_by { Some(s) => Some(s@), None => None },
            match sort_order { Some(s) => Some(s@), None => None },
        ),
{
    proof { reveal_strlit("asc"); }
    assert("asc"@ =~= seq!['a', 's', 'c']);
    let order = match sort_order {
        Some(o) => if str_eq_ignore_case(o, "asc") { SortOrder::Asc } else { SortOrder::Desc },
        None => SortOrder::Desc,
    };
    match sort_by {
        Some(name) => match field_of(name) {
            Some(f) => (f, order),
            None => (SortField::CreatedAt, SortOrder::Desc),
        },
        None => (SortField::CreatedAt, order),
    }
}

/// A reordering of entries with distinct paths holds the same entries and
/// still has distinct paths.
pub proof fn lemma_reordered(r1: Seq<CatalogEntry>, r2: Seq<CatalogEntry>)
    requires
        r2.to_multiset() == r1.to_multiset(),
        paths_of(r1).no_duplicates(),
    ensures
        forall|x: CatalogEntry| r2.contains(x) <==> r1.contains(x),
        paths_of(r2).no_duplicates(),
{
    broadcast use vstd::seq_lib::group_to_multiset_ensures;
    assert forall|x: CatalogEntry| r2.contains(x) <==> r1.contains(x) by {
        vstd::seq_lib::to_multiset_contains(r1, x);
        vstd::seq_lib::to_multiset_contains(r2, x);
    }
    assert(r1.no_duplicates()) by {
        assert forall|i: int, j: int| 0 <= i < r1.len() && 0 <= j < r1.len() && i != j implies r1[i] != r1[j] by {
            assert(paths_of(r1)[i] != paths_of(r1)[j]);
        }
    }
    r1.lemma_multiset_has_no_duplicates();
    r2.lemma_multiset_has_no_duplicates_conv();
    assert forall|a: int, b: int| 0 <= a < r2.len() && 0 <= b < r2.len() && a != b
        implies paths_of(r2)[a] != paths_of(r2)[b] by {
        assert(r2.contains(r2[a]) && r2.contains(r2[b]));
        let i = choose|i: int| 0 <= i < r1.len() && r1[i] == r2[a];
        let j = choose|j: int| 0 <= j < r1.len() && r1[j] == r2[b];
        assert(r2[a] != r2[b]);
        if i != j {
            assert(paths_of(r1)[i] != paths_of(r1)[j]);
        }
    }
}

} // verus!
