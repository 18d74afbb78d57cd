//! The tracked-file store: the sorted list of tracked files, made complete
//! with the directories above them, and the set of canonical paths.

use crate::package::{Package, PackageView};
use crate::packagefile::{
    at_path, bare_entry, entries_at, entries_of, lemma_entries_at, PackageFile, PackageFileView,
};
use crate::path::{
    covers, covers_at, dir_at, is_ancestor, lemma_ancestor_transitive, lemma_covered_below,
    lemma_path_trichotomy, lemma_uncovered_below_members, path_le, path_lt, uncovered,
    uncovered_below,
};
use crate::sort::{
    holds_key, keys_of, lemma_map_values_multiset, sort_by_key, sorted_by_key, Keyed,
};
use vstd::multiset::{group_multiset_axioms, Multiset};
use vstd::prelude::*;
use vstd::seq_lib::group_to_multiset_ensures;

verus! {

/// The paths of a list of entries, in the list's order.
pub open spec fn entry_paths(es: Seq<PackageFileView>) -> Seq<Seq<u8>> {
    es.map_values(|e: PackageFileView| e.path)
}

/// One owner-less entry for each path of a list.
pub open spec fn bare_entries(ps: Seq<Seq<u8>>) -> Seq<PackageFileView> {
    ps.map_values(|p: Seq<u8>| bare_entry(p))
}

/// `a` is a directory that is missing among the paths `ps`: it lies above
/// one of them, the root included, and is none of them.
pub open spec fn is_missing_dir(a: Seq<u8>, ps: Seq<Seq<u8>>) -> bool {
    !ps.contains(a) && exists|i: int| 0 <= i < ps.len() && is_ancestor(a, #[trigger] ps[i])
}

/// What the store holds under the path `k`, in its order, for a list of
/// tracked files: one owner-less entry where `k` is a directory that is
/// missing, and else the tracked files with the path `k`, in their order.
pub open spec fn stored_at(input: Seq<PackageFileView>, k: Seq<u8>) -> Seq<PackageFileView> {
    if is_missing_dir(k, entry_paths(input)) {
        seq![bare_entry(k)]
    } else {
        entries_at(input, k)
    }
}

/// How often the store holds the entry `e` for a list of tracked files: as
/// often as the list does, and once more where `e` is the owner-less entry
/// of a directory that is missing.
pub open spec fn store_count(input: Seq<PackageFileView>, e: PackageFileView) -> nat {
    input.to_multiset().count(e) + if e == bare_entry(e.path) && is_missing_dir(
        e.path,
        entry_paths(input),
    ) {
        1nat
    } else {
        0nat
    }
}

/// `stored` holds what the store holds for the tracked files `input`: the
/// files themselves, each as often as `input` holds it, and one owner-less
/// entry for each directory above a tracked path that is no tracked path.
pub open spec fn is_store_of(stored: Seq<PackageFileView>, input: Seq<PackageFileView>) -> bool {
    forall|e: PackageFileView| #[trigger] stored.to_multiset().count(e) == store_count(input, e)
}

/// Every directory above a path of the list is a path of the list.
pub open spec fn ancestor_complete(ps: Seq<Seq<u8>>) -> bool {
    forall|i: int, a: Seq<u8>|
        0 <= i < ps.len() && #[trigger] is_ancestor(a, ps[i]) ==> ps.contains(a)
}

/// Every owner of an entry is a position in a list of `n` packages.
pub open spec fn owners_valid(es: Seq<PackageFileView>, n: nat) -> bool {
    forall|i: int| 0 <= i < es.len() ==> match (#[trigger] es[i]).package {
        Some(k) => k < n,
        None => true,
    }
}

/// No entry of the list is without owner and yet carries an attribute.
pub open spec fn all_well_formed(es: Seq<PackageFileView>) -> bool {
    forall|i: int| 0 <= i < es.len() ==> (#[trigger] es[i]).well_formed()
}

/// Each path of the list stands before the greater ones: the list is in
/// order and holds no path twice.
pub open spec fn strictly_increasing(ps: Seq<Seq<u8>>) -> bool {
    forall|i: int, j: int| 0 <= i < j < ps.len() ==> path_lt(ps[i], ps[j])
}

/// The path that was accounted for last when the scan reaches `ps[i]`: the
/// path before it, and the empty path, which nothing covers, at the start.
spec fn cursor_before(ps: Seq<Seq<u8>>, i: int) -> Seq<u8> {
    if i <= 0 {
        Seq::empty()
    } else {
        ps[i - 1]
    }
}

/// The directories that one scan over `ps` notes: for each path in turn,
/// the directories above it that neither are the path before it nor lie
/// above that path. Among them is every directory that is missing; some
/// may be noted twice, and some may be paths of the list.
spec fn scanned_dirs(ps: Seq<Seq<u8>>) -> Seq<Seq<u8>>
    decreases ps.len(),
{
    if ps.len() == 0 {
        Seq::empty()
    } else {
        scanned_dirs(ps.drop_last()) + uncovered(ps.last(), cursor_before(ps, ps.len() - 1))
    }
}

/// An entry's path as it is after symbolic links were followed.
pub enum Resolution {
    /// The links were followed, and this is the path that they lead to.
    Canonical(Vec<u8>),
    /// The path could not be followed to its end; the entry stands under
    /// the path that was recorded.
    Unresolved,
}

/// The path under which entry `i` is found again: the canonical path where
/// one is given for it, else the recorded one.
pub open spec fn resolved_path(resolved: Seq<Resolution>, es: Seq<PackageFileView>, i: int) -> Seq<
    u8,
> {
    if i < resolved.len() {
        match resolved[i] {
            Resolution::Canonical(p) => p@,
            Resolution::Unresolved => es[i].path,
        }
    } else {
        es[i].path
    }
}

/// The paths under which the entries are found again.
pub open spec fn resolved_paths(resolved: Seq<Resolution>, es: Seq<PackageFileView>) -> Set<
    Seq<u8>,
> {
    Set::new(|p: Seq<u8>| exists|i: int| 0 <= i < es.len() && resolved_path(resolved, es, i) == p)
}

/// A member of a list is a member of the list with more behind it.
proof fn lemma_contains_left<A>(x: Seq<A>, y: Seq<A>, a: A)
    requires
        x.contains(a),
    ensures
        (x + y).contains(a),
{
    let i = choose|i: int| 0 <= i < x.len() && x[i] == a;
    assert((x + y)[i] == a);
}

/// A member of a list is a member of the list with more before it.
proof fn lemma_contains_right<A>(x: Seq<A>, y: Seq<A>, a: A)
    requires
        y.contains(a),
    ensures
        (x + y).contains(a),
{
    let i = choose|i: int| 0 <= i < y.len() && y[i] == a;
    assert((x + y)[x.len() + i] == a);
}

/// A member of two lists put together is a member of one of them.
proof fn lemma_contains_split<A>(x: Seq<A>, y: Seq<A>, a: A)
    requires
        (x + y).contains(a),
    ensures
        x.contains(a) || y.contains(a),
{
    let i = choose|i: int| 0 <= i < (x + y).len() && (x + y)[i] == a;
    if i < x.len() {
        assert(x[i] == a);
    } else {
        assert(y[i - x.len()] == a);
    }
}

/// No directory above a path covers the empty path.
proof fn lemma_nothing_covers_empty(a: Seq<u8>, p: Seq<u8>)
    requires
        is_ancestor(a, p),
    ensures
        !covers(a, Seq::<u8>::empty()),
{
}

/// Each directory that the scan notes lies above a path of the list.
proof fn lemma_scanned_are_ancestors(ps: Seq<Seq<u8>>, m: Seq<u8>)
    requires
        scanned_dirs(ps).contains(m),
    ensures
        exists|i: int| 0 <= i < ps.len() && is_ancestor(m, ps[i]),
    decreases ps.len(),
{
    if ps.len() > 0 {
        let n = ps.len() as int;
        let init = ps.drop_last();
        let q = cursor_before(ps, n - 1);
        lemma_contains_split(scanned_dirs(init), uncovered(ps.last(), q), m);
        if scanned_dirs(init).contains(m) {
            lemma_scanned_are_ancestors(init, m);
            let i = choose|i: int| 0 <= i < init.len() && is_ancestor(m, init[i]);
            assert(is_ancestor(m, ps[i]));
        } else {
            if ps.last().len() > 0 {
                lemma_uncovered_below_members(ps.last(), q, ps.last().len() - 1);
            }
            assert(is_ancestor(m, ps[n - 1]));
        }
    }
}

/// Each directory above a path of the list is a path of the list or one
/// of the directories that the scan notes.
proof fn lemma_ancestors_tracked(ps: Seq<Seq<u8>>, i: int, a: Seq<u8>)
    requires
        0 <= i < ps.len(),
        is_ancestor(a, ps[i]),
    ensures
        (ps + scanned_dirs(ps)).contains(a),
    decreases ps.len(),
{
    let n = ps.len() as int;
    let init = ps.drop_last();
    let p = ps[n - 1];
    let q = cursor_before(ps, n - 1);
    let found = uncovered(p, q);
    assert(scanned_dirs(ps) == scanned_dirs(init) + found);
    if i < n - 1 || (covers(a, q) && a != q) {
        let j = if i < n - 1 {
            i
        } else {
            n - 2
        };
        if i == n - 1 {
            lemma_nothing_covers_empty(a, p);
        }
        lemma_ancestors_tracked(init, j, a);
        lemma_contains_split(init, scanned_dirs(init), a);
        if init.contains(a) {
            let k = choose|k: int| 0 <= k < init.len() && init[k] == a;
            assert(ps[k] == a);
            lemma_contains_left(ps, scanned_dirs(ps), a);
        } else {
            lemma_contains_left(scanned_dirs(init), found, a);
            lemma_contains_right(ps, scanned_dirs(ps), a);
        }
    } else if a == q {
        lemma_nothing_covers_empty(a, p);
        assert(ps[n - 2] == a);
        lemma_contains_left(ps, scanned_dirs(ps), a);
    } else {
        lemma_uncovered_below_members(p, q, p.len() - 1);
        assert(found.contains(a));
        lemma_contains_right(scanned_dirs(init), found, a);
        lemma_contains_right(ps, scanned_dirs(ps), a);
    }
}

/// No path of the list stands before a smaller one.
pub open spec fn in_path_order(ps: Seq<Seq<u8>>) -> bool {
    forall|i: int, j: int| 0 <= i < j < ps.len() ==> crate::path::path_le(ps[i], ps[j])
}

/// The text that stands for an owner in a report.
pub open spec fn owner_text(packages: Seq<PackageView>, idx: Option<usize>, with_version: bool) -> Seq<
    char,
> {
    match idx {
        Some(i) => if with_version {
            packages[i as int].name_arch()
        } else {
            packages[i as int].name_ver_arch()
        },
        None => seq!['N', 'o', 'n', 'e'],
    }
}

/// Two lists with the same members have the same set of members.
proof fn lemma_same_members<A>(x: Seq<A>, y: Seq<A>)
    requires
        x.to_multiset() == y.to_multiset(),
    ensures
        x.to_set() == y.to_set(),
{
    broadcast use group_to_multiset_ensures;

    assert forall|a: A| x.to_set().contains(a) == y.to_set().contains(a) by {
        assert(x.contains(a) <==> x.to_multiset().count(a) > 0);
        assert(y.contains(a) <==> y.to_multiset().count(a) > 0);
    }
    assert(x.to_set() =~= y.to_set());
}

/// The directories that are missing are those that the scan notes and
/// that are no paths of the list.
proof fn lemma_scan_finds_missing(ps: Seq<Seq<u8>>, a: Seq<u8>)
    ensures
        is_missing_dir(a, ps) <==> scanned_dirs(ps).contains(a) && !ps.contains(a),
{
    if is_missing_dir(a, ps) {
        let i = choose|i: int| 0 <= i < ps.len() && is_ancestor(a, #[trigger] ps[i]);
        lemma_ancestors_tracked(ps, i, a);
        lemma_contains_split(ps, scanned_dirs(ps), a);
    }
    if scanned_dirs(ps).contains(a) {
        lemma_scanned_are_ancestors(ps, a);
    }
}

/// Two lists with the same members have the same members.
proof fn lemma_contains_by_members<A>(x: Seq<A>, y: Seq<A>, a: A)
    requires
        x.to_multiset() == y.to_multiset(),
    ensures
        x.contains(a) == y.contains(a),
{
    broadcast use group_to_multiset_ensures;

    assert(x.contains(a) <==> x.to_multiset().count(a) > 0);
    assert(y.contains(a) <==> y.to_multiset().count(a) > 0);
}

/// Which directories are missing depends on the members of the list
/// alone, not on their order.
proof fn lemma_missing_by_members(x: Seq<Seq<u8>>, y: Seq<Seq<u8>>, a: Seq<u8>)
    requires
        x.to_multiset() == y.to_multiset(),
    ensures
        is_missing_dir(a, x) == is_missing_dir(a, y),
{
    lemma_contains_by_members(x, y, a);
    if is_missing_dir(a, x) {
        let i = choose|i: int| 0 <= i < x.len() && is_ancestor(a, #[trigger] x[i]);
        assert(x.contains(x[i]));
        lemma_contains_by_members(x, y, x[i]);
        let j = choose|j: int| 0 <= j < y.len() && y[j] == x[i];
        assert(is_ancestor(a, y[j]));
    }
    if is_missing_dir(a, y) {
        let i = choose|i: int| 0 <= i < y.len() && is_ancestor(a, #[trigger] y[i]);
        assert(y.contains(y[i]));
        lemma_contains_by_members(x, y, y[i]);
        let j = choose|j: int| 0 <= j < x.len() && x[j] == y[i];
        assert(is_ancestor(a, x[j]));
    }
}

/// Among the owner-less entries of a list of paths that holds no path
/// twice, one has the path `k` where the list holds `k`, and none has
/// where it does not.
proof fn lemma_bare_at(ps: Seq<Seq<u8>>, k: Seq<u8>)
    requires
        strictly_increasing(ps),
    ensures
        entries_at(bare_entries(ps), k) == if ps.contains(k) {
            seq![bare_entry(k)]
        } else {
            Seq::<PackageFileView>::empty()
        },
    decreases ps.len(),
{
    reveal(Seq::filter);
    if ps.len() > 0 {
        let init = ps.drop_last();
        let last = ps.last();
        assert forall|i: int, j: int| 0 <= i < j < init.len() implies path_lt(init[i], init[j]) by {
            assert(path_lt(ps[i], ps[j]));
        }
        lemma_bare_at(init, k);
        assert(bare_entries(ps) =~= bare_entries(init).push(bare_entry(last)));
        bare_entries(init).lemma_filter_push(bare_entry(last), at_path(k));
        if init.contains(k) {
            let i = choose|i: int| 0 <= i < init.len() && init[i] == k;
            assert(ps[i] == k);
            assert(path_lt(ps[i], ps[ps.len() - 1]));
            lemma_path_trichotomy(k, k);
            assert(last != k);
        } else if last == k {
            assert(ps[ps.len() - 1] == k);
            assert(Seq::<PackageFileView>::empty().push(bare_entry(k)) =~= seq![bare_entry(k)]);
        } else {
            if ps.contains(k) {
                let i = choose|i: int| 0 <= i < ps.len() && ps[i] == k;
                assert(init[i] == k);
            }
        }
    } else {
        assert(bare_entries(ps) =~= Seq::<PackageFileView>::empty());
    }
}

/// A list without an entry of the path `k` has no entries with the path.
proof fn lemma_none_at(es: Seq<PackageFileView>, k: Seq<u8>)
    requires
        !entry_paths(es).contains(k),
    ensures
        entries_at(es, k) == Seq::<PackageFileView>::empty(),
    decreases es.len(),
{
    reveal(Seq::filter);
    if es.len() > 0 {
        let init = es.drop_last();
        assert(entry_paths(es)[es.len() - 1] == es.last().path);
        if entry_paths(init).contains(k) {
            let i = choose|i: int| 0 <= i < init.len() && entry_paths(init)[i] == k;
            assert(entry_paths(es)[i] == k);
        }
        lemma_none_at(init, k);
    }
}

/// A list holds an entry as often as its entries with the entry's path do.
proof fn lemma_count_by_path(es: Seq<PackageFileView>, e: PackageFileView)
    ensures
        es.to_multiset().count(e) == entries_at(es, e.path).to_multiset().count(e),
    decreases es.len(),
{
    broadcast use group_to_multiset_ensures, group_multiset_axioms;

    reveal(Seq::filter);
    if es.len() > 0 {
        let init = es.drop_last();
        let last = es.last();
        assert(es =~= init.push(last));
        lemma_count_by_path(init, e);
        init.lemma_filter_push(last, at_path(e.path));
        vstd::seq_lib::to_multiset_build(init, last);
        vstd::seq_lib::to_multiset_build(entries_at(init, e.path), last);
    } else {
        assert(es.to_multiset() =~= Multiset::<PackageFileView>::empty());
        assert(entries_at(es, e.path) =~= Seq::<PackageFileView>::empty());
    }
}

/// A list that holds under each path what the store holds under it holds
/// what the store holds.
pub proof fn lemma_store_by_path(input: Seq<PackageFileView>, stored: Seq<PackageFileView>)
    requires
        forall|k: Seq<u8>| #[trigger] entries_at(stored, k) == stored_at(input, k),
    ensures
        is_store_of(stored, input),
{
    broadcast use group_to_multiset_ensures, group_multiset_axioms;

    assert forall|e: PackageFileView| #[trigger]
        stored.to_multiset().count(e) == store_count(input, e) by {
        let k = e.path;
        lemma_count_by_path(stored, e);
        lemma_count_by_path(input, e);
        assert(entries_at(stored, k) == stored_at(input, k));
        if is_missing_dir(k, entry_paths(input)) {
            lemma_none_at(input, k);
            let one = seq![bare_entry(k)];
            assert(one =~= Seq::<PackageFileView>::empty().push(bare_entry(k)));
            vstd::seq_lib::to_multiset_build(Seq::<PackageFileView>::empty(), bare_entry(k));
            assert(Seq::<PackageFileView>::empty().to_multiset() =~= Multiset::<
                PackageFileView,
            >::empty());
        }
    }
}

/// Each entry of the store is one of the tracked files or the owner-less
/// entry of a directory that is missing, and each tracked file is an
/// entry of the store.
pub proof fn lemma_store_members(input: Seq<PackageFileView>, stored: Seq<PackageFileView>)
    requires
        is_store_of(stored, input),
    ensures
        forall|i: int|
            0 <= i < stored.len() ==> input.contains(#[trigger] stored[i]) || (stored[i]
                == bare_entry(stored[i].path) && is_missing_dir(
                stored[i].path,
                entry_paths(input),
            )),
        forall|i: int| 0 <= i < input.len() ==> stored.contains(#[trigger] input[i]),
        forall|a: Seq<u8>|
            is_missing_dir(a, entry_paths(input)) ==> #[trigger] stored.contains(bare_entry(a)),
{
    broadcast use group_to_multiset_ensures;

    assert forall|i: int| 0 <= i < stored.len() implies input.contains(#[trigger] stored[i]) || (
    stored[i] == bare_entry(stored[i].path) && is_missing_dir(
        stored[i].path,
        entry_paths(input),
    )) by {
        let e = stored[i];
        assert(stored.contains(e));
        assert(stored.to_multiset().count(e) == store_count(input, e));
        if input.to_multiset().count(e) > 0 {
            assert(input.contains(e));
        }
    }
    assert forall|i: int| 0 <= i < input.len() implies stored.contains(#[trigger] input[i]) by {
        let e = input[i];
        assert(input.contains(e));
        assert(stored.to_multiset().count(e) == store_count(input, e));
    }
    assert forall|a: Seq<u8>| is_missing_dir(a, entry_paths(input)) implies #[trigger]
        stored.contains(bare_entry(a)) by {
        assert(stored.to_multiset().count(bare_entry(a)) == store_count(input, bare_entry(a)));
    }
}

/// What the store holds has valid owners where the tracked files had, and
/// holds no owner-less entry with attributes where the tracked files held
/// none.
proof fn lemma_store_keeps_validity(
    input: Seq<PackageFileView>,
    stored: Seq<PackageFileView>,
    n: nat,
)
    requires
        is_store_of(stored, input),
    ensures
        owners_valid(input, n) ==> owners_valid(stored, n),
        all_well_formed(input) ==> all_well_formed(stored),
{
    lemma_store_members(input, stored);
    if owners_valid(input, n) {
        assert forall|i: int| 0 <= i < stored.len() implies match (#[trigger] stored[i]).package {
            Some(k) => k < n,
            None => true,
        } by {
            let e = stored[i];
            if input.contains(e) {
                let j = choose|j: int| 0 <= j < input.len() && input[j] == e;
                assert(input[j].package == e.package);
            }
        }
    }
    if all_well_formed(input) {
        assert forall|i: int| 0 <= i < stored.len() implies (#[trigger] stored[i]).well_formed() by {
            let e = stored[i];
            if input.contains(e) {
                let j = choose|j: int| 0 <= j < input.len() && input[j] == e;
                assert(input[j].well_formed());
            }
        }
    }
}

/// The store holds every directory above each of its paths, the root
/// included, whatever the tracked files were: any arrangement of what the
/// store holds for them is complete.
pub proof fn lemma_store_ancestor_complete(
    input: Seq<PackageFileView>,
    stored: Seq<PackageFileView>,
)
    requires
        is_store_of(stored, input),
    ensures
        ancestor_complete(entry_paths(stored)),
{
    lemma_store_members(input, stored);
    let ps = entry_paths(input);
    let sp = entry_paths(stored);
    assert forall|i: int, a: Seq<u8>| 0 <= i < sp.len() && #[trigger] is_ancestor(
        a,
        sp[i],
    ) implies sp.contains(a) by {
        let e = stored[i];
        // `a` lies above a tracked path
        let j = if input.contains(e) {
            let j = choose|j: int| 0 <= j < input.len() && input[j] == e;
            assert(ps[j] == e.path);
            j
        } else {
            let j = choose|j: int| 0 <= j < ps.len() && is_ancestor(e.path, #[trigger] ps[j]);
            lemma_ancestor_transitive(a, e.path, ps[j]);
            j
        };
        assert(is_ancestor(a, ps[j]));
        if ps.contains(a) {
            let t = choose|t: int| 0 <= t < ps.len() && ps[t] == a;
            assert(stored.contains(input[t]));
            let u = choose|u: int| 0 <= u < stored.len() && stored[u] == input[t];
            assert(sp[u] == a);
        } else {
            assert(is_missing_dir(a, ps));
            assert(stored.contains(bare_entry(a)));
            let u = choose|u: int| 0 <= u < stored.len() && stored[u] == bare_entry(a);
            assert(sp[u] == a);
        }
    }
}

/// No store holds an owner-less entry that the tracked files did not hold
/// for a path that is tracked.
pub proof fn lemma_no_entry_for_tracked_dir(
    input: Seq<PackageFileView>,
    stored: Seq<PackageFileView>,
    k: Seq<u8>,
)
    requires
        is_store_of(stored, input),
        entry_paths(input).contains(k),
    ensures
        stored.to_multiset().count(bare_entry(k)) == input.to_multiset().count(bare_entry(k)),
{
}

/// Appends to `dirs` each directory above `p` that neither is `q` nor lies
/// above `q`, the longest first.
fn push_uncovered(dirs: &mut Vec<Vec<u8>>, p: &[u8], q: &[u8])
    ensures
        keys_of(final(dirs)@) == keys_of(old(dirs)@) + uncovered(p@, q@),
{
    let ghost start = keys_of(dirs@);
    if p.len() == 0 {
        assert(start + Seq::<Seq<u8>>::empty() =~= start);
        return ;
    }
    let mut k: usize = p.len() - 1;
    while k > 0
        invariant
            k < p.len(),
            start == keys_of(old(dirs)@),
            start + uncovered(p@, q@) == keys_of(dirs@) + uncovered_below(p@, q@, k as int),
        decreases k,
    {
        if dir_at(p, k) {
            if covers_at(p, k, q) {
                proof {
                    lemma_covered_below(p@, q@, k as int, k as int);
                    assert(keys_of(dirs@) + Seq::<Seq<u8>>::empty() =~= keys_of(dirs@));
                }
                return ;
            }
            let dir = vstd::slice::slice_to_vec(vstd::slice::slice_subrange(p, 0, k));
            proof {
                let rest = uncovered_below(p@, q@, k - 1);
                assert(keys_of(dirs@.push(dir)) =~= keys_of(dirs@).push(dir@));
                assert(keys_of(dirs@).push(dir@) + rest =~= keys_of(dirs@) + (seq![dir@] + rest));
            }
            dirs.push(dir);
        }
        k -= 1;
    }
    assert(keys_of(dirs@) + Seq::<Seq<u8>>::empty() =~= keys_of(dirs@));
}

/// Scans the sorted files once and notes, for each in turn, the
/// directories above it that neither are the file before it nor lie above
/// that file.
fn scan_dirs(sorted: &Vec<PackageFile>) -> (dirs: Vec<Vec<u8>>)
    ensures
        keys_of(dirs@) == scanned_dirs(keys_of(sorted@)),
{
    let ghost ps = keys_of(sorted@);
    let mut dirs: Vec<Vec<u8>> = Vec::new();
    let start: Vec<u8> = Vec::new();
    assert(start@ =~= Seq::<u8>::empty());
    assert(ps.take(0) =~= Seq::<Seq<u8>>::empty());
    assert(keys_of(dirs@) =~= scanned_dirs(ps.take(0)));
    let mut i: usize = 0;
    while i < sorted.len()
        invariant
            i <= sorted.len(),
            ps == keys_of(sorted@),
            start@ == Seq::<u8>::empty(),
            keys_of(dirs@) == scanned_dirs(ps.take(i as int)),
        decreases sorted.len() - i,
    {
        if i == 0 {
            push_uncovered(&mut dirs, sorted[i].path().as_slice(), start.as_slice());
        } else {
            push_uncovered(&mut dirs, sorted[i].path().as_slice(), sorted[i - 1].path().as_slice());
        }
        proof {
            let now = ps.take(i + 1);
            assert(now.drop_last() =~= ps.take(i as int));
            assert(now.last() == ps[i as int]);
            assert(cursor_before(now, i as int) == cursor_before(ps, i as int));
        }
        i += 1;
    }
    assert(ps.take(i as int) =~= ps);
    dirs
}

/// Makes the owner-less entries of the directories that are missing: of
/// the directories that the scan noted, each one that is no path of the
/// sorted files, once, in the order of the paths.
fn missing_entries(sorted: &Vec<PackageFile>, noted: Vec<Vec<u8>>) -> (add: Vec<PackageFile>)
    requires
        sorted_by_key(sorted@),
    ensures
        entries_of(add@) == bare_entries(keys_of(add@)),
        strictly_increasing(keys_of(add@)),
        forall|a: Seq<u8>| #[trigger]
            keys_of(add@).contains(a) <==> keys_of(noted@).contains(a) && !keys_of(
                sorted@,
            ).contains(a),
{
    let ghost listed_paths = keys_of(sorted@);
    let ghost wanted = keys_of(noted@);
    let dirs = sort_by_key(noted);
    let ghost ds = keys_of(dirs@);
    proof {
        lemma_map_values_multiset(dirs@, noted@, |x: Vec<u8>| x.key());
        assert(ds =~= dirs@.map_values(|x: Vec<u8>| x.key()));
        assert(wanted =~= noted@.map_values(|x: Vec<u8>| x.key()));
    }
    let mut add: Vec<PackageFile> = Vec::new();
    let mut j: usize = 0;
    assert(entries_of(add@) =~= bare_entries(keys_of(add@)));
    while j < dirs.len()
        invariant
            j <= dirs.len(),
            sorted_by_key(sorted@),
            sorted_by_key(dirs@),
            listed_paths == keys_of(sorted@),
            ds == keys_of(dirs@),
            add.len() <= j,
            entries_of(add@) == bare_entries(keys_of(add@)),
            strictly_increasing(keys_of(add@)),
            forall|t: int|
                0 <= t < add.len() && j > 0 ==> path_le(
                    #[trigger] keys_of(add@)[t],
                    ds[j - 1],
                ),
            forall|t: int|
                0 <= t < add.len() ==> ds.contains(#[trigger] keys_of(add@)[t]) && !listed_paths.contains(
                    keys_of(add@)[t],
                ),
            forall|t: int|
                0 <= t < j && !listed_paths.contains(#[trigger] ds[t]) ==> keys_of(add@).contains(ds[t]),
        decreases dirs.len() - j,
    {
        let dir = dirs[j].as_slice();
        assert(dir@ == ds[j as int]);
        let again = j > 0 && crate::bytes::bytes_equal(dirs[j - 1].as_slice(), dir);
        let ghost before = keys_of(add@);
        let listed = holds_key(sorted, dir);
        proof {
            if listed {
                let i = choose|i: int| 0 <= i < sorted.len() && (#[trigger] sorted@[i]).key() == dir@;
                assert(listed_paths[i] == dir@);
            }
            if listed_paths.contains(dir@) {
                let i = choose|i: int| 0 <= i < listed_paths.len() && listed_paths[i] == dir@;
                assert(sorted@[i].key() == dir@);
            }
            if j > 0 {
                assert(path_le(dirs@[j - 1].key(), dirs@[j as int].key()));
            }
        }
        if !again && !listed {
            let entry = PackageFile::synthesized(vstd::slice::slice_to_vec(dir));
            proof {
                let after = before.push(dir@);
                assert(keys_of(add@.push(entry)) =~= after);
                assert(entries_of(add@.push(entry)) =~= entries_of(add@).push(entry@));
                assert(bare_entries(after) =~= bare_entries(before).push(bare_entry(dir@)));
                assert forall|s: int, t: int| 0 <= s < t < after.len() implies path_lt(
                    after[s],
                    after[t],
                ) by {
                    if t == before.len() {
                        assert(path_le(before[s], ds[j - 1]));
                        lemma_path_trichotomy(ds[j - 1], dir@);
                        crate::path::lemma_path_le_transitive(before[s], ds[j - 1], dir@);
                    } else {
                        assert(path_lt(before[s], before[t]));
                    }
                }
                assert forall|t: int| 0 <= t < after.len() implies path_le(
                    #[trigger] after[t],
                    ds[j as int],
                ) by {
                    if t < before.len() {
                        assert(path_le(before[t], ds[j - 1]));
                        crate::path::lemma_path_le_transitive(before[t], ds[j - 1], dir@);
                    }
                }
                assert forall|t: int| 0 <= t < after.len() implies ds.contains(#[trigger] after[t])
                    && !listed_paths.contains(after[t]) by {
                    if t < before.len() {
                        assert(after[t] == before[t]);
                    }
                }
                assert forall|t: int| 0 <= t < j + 1 && !listed_paths.contains(
                    #[trigger] ds[t],
                ) implies after.contains(ds[t]) by {
                    if t < j {
                        assert(before.contains(ds[t]));
                        let u = choose|u: int| 0 <= u < before.len() && before[u] == ds[t];
                        assert(after[u] == ds[t]);
                    } else {
                        assert(after[before.len() as int] == ds[t]);
                    }
                }
            }
            add.push(entry);
        } else {
            proof {
                assert forall|t: int| 0 <= t < before.len() implies path_le(
                    #[trigger] before[t],
                    ds[j as int],
                ) by {
                    assert(path_le(before[t], ds[j - 1]));
                    crate::path::lemma_path_le_transitive(before[t], ds[j - 1], dir@);
                }
                assert forall|t: int| 0 <= t < j + 1 && !listed_paths.contains(
                    #[trigger] ds[t],
                ) implies before.contains(ds[t]) by {
                    if t == j {
                        assert(!listed_paths.contains(ds[j - 1]));
                    }
                }
            }
        }
        j += 1;
    }
    proof {
        let kept = keys_of(add@);
        assert forall|a: Seq<u8>| #[trigger]
            kept.contains(a) <==> wanted.contains(a) && !listed_paths.contains(a) by {
            lemma_contains_by_members(ds, wanted, a);
            if kept.contains(a) {
                let t = choose|t: int| 0 <= t < kept.len() && kept[t] == a;
                assert(ds.contains(kept[t]));
            }
            if ds.contains(a) && !listed_paths.contains(a) {
                let t = choose|t: int| 0 <= t < ds.len() && ds[t] == a;
                assert(kept.contains(ds[t]));
            }
        }
    }
    add
}

/// The tracked-file store. Its files stand in byte-lexicographic order of
/// their paths, and every directory above a tracked path is tracked.
pub struct PackageDb {
    packages: Vec<Package>,
    files: Vec<PackageFile>,
    cset: Vec<Vec<u8>>,
    ignores: Vec<String>,
}

impl PackageDb {
    #[verifier::type_invariant]
    spec fn valid(&self) -> bool {
        &&& sorted_by_key(self.files@)
        &&& ancestor_complete(entry_paths(entries_of(self.files@)))
        &&& owners_valid(entries_of(self.files@), self.packages@.len())
        &&& sorted_by_key(self.cset@)
    }

    /// The packages, in the order in which they were handed in.
    pub closed spec fn packages_view(&self) -> Seq<PackageView> {
        self.packages@.map_values(|p: Package| p@)
    }

    /// The tracked files, in the store's order.
    pub closed spec fn files_view(&self) -> Seq<PackageFileView> {
        entries_of(self.files@)
    }

    /// The ignore patterns that came with the package manager.
    pub closed spec fn ignores_view(&self) -> Seq<Seq<char>> {
        self.ignores@.map_values(|s: String| s@)
    }

    /// The paths under which tracked entries are found again.
    pub closed spec fn canonical_paths(&self) -> Set<Seq<u8>> {
        keys_of(self.cset@).to_set()
    }

    /// Builds the store from what the package manager recorded. The files
    /// are sorted by path; one scan over them notes the directories above
    /// them that the file before does not account for; of these, each
    /// directory that is no tracked path gets one owner-less entry; and the
    /// whole is sorted again. So the store holds the tracked files, each
    /// as it was, and one owner-less entry for each directory, the root
    /// included, that lies above a tracked path and is no tracked path.
    /// Until `set_canonical` is called, each entry is found again under the
    /// path that was recorded for it.
    pub fn new(packages: Vec<Package>, files: Vec<PackageFile>, ignores: Vec<String>) -> (db:
        PackageDb)
        requires
            owners_valid(entries_of(files@), packages@.len()),
        ensures
            db.packages_view() == packages@.map_values(|p: Package| p@),
            db.ignores_view() == ignores@.map_values(|s: String| s@),
            is_store_of(db.files_view(), entries_of(files@)),
            in_path_order(entry_paths(db.files_view())),
            forall|k: Seq<u8>| #[trigger]
                entries_at(db.files_view(), k) == stored_at(entries_of(files@), k),
            ancestor_complete(entry_paths(db.files_view())),
            owners_valid(db.files_view(), packages@.len()),
            all_well_formed(entries_of(files@)) ==> all_well_formed(db.files_view()),
            db.canonical_paths() == entry_paths(db.files_view()).to_set(),
    {
        let ghost input = entries_of(files@);
        let mut sorted = sort_by_key(files);
        let ghost first = sorted@;
        let noted = scan_dirs(&sorted);
        let ghost scanned = keys_of(noted@);
        let mut add = missing_entries(&sorted, noted);
        let ghost added = add@;
        let ghost dirs = keys_of(added);
        proof {
            lemma_map_values_multiset(first, files@, |f: PackageFile| f.key());
            assert(keys_of(first) =~= first.map_values(|f: PackageFile| f.key()));
            assert(entry_paths(input) =~= files@.map_values(|f: PackageFile| f.key()));
            assert forall|a: Seq<u8>| #[trigger]
                dirs.contains(a) <==> is_missing_dir(a, entry_paths(input)) by {
                lemma_scan_finds_missing(keys_of(first), a);
                lemma_missing_by_members(keys_of(first), entry_paths(input), a);
            }
        }
        sorted.append(&mut add);
        let ghost joined = sorted@;
        let all = sort_by_key(sorted);
        let ghost stored = entries_of(all@);
        proof {
            assert forall|k: Seq<u8>| #[trigger] entries_at(stored, k) == stored_at(input, k) by {
                Seq::filter_distributes_over_add(first, added, crate::sort::has_key(k));
                assert(crate::sort::with_key(all@, k) == crate::sort::with_key(joined, k));
                assert(crate::sort::with_key(first, k) == crate::sort::with_key(files@, k));
                lemma_entries_at(all@, k);
                lemma_entries_at(files@, k);
                lemma_entries_at(added, k);
                let kept_first = crate::sort::with_key(first, k);
                let kept_added = crate::sort::with_key(added, k);
                assert(entries_of(kept_first + kept_added) =~= entries_of(kept_first) + entries_of(
                    kept_added,
                ));
                lemma_bare_at(dirs, k);
                if dirs.contains(k) {
                    lemma_none_at(input, k);
                    assert(Seq::<PackageFileView>::empty() + seq![bare_entry(k)] =~= seq![
                        bare_entry(k),
                    ]);
                } else {
                    assert(entries_at(input, k) + Seq::<PackageFileView>::empty() =~= entries_at(
                        input,
                        k,
                    ));
                }
            }
            lemma_store_by_path(input, stored);
            lemma_store_ancestor_complete(input, stored);
            lemma_store_keeps_validity(input, stored, packages@.len());
            assert(keys_of(all@) =~= entry_paths(stored));
        }
        let mut raw: Vec<Vec<u8>> = Vec::new();
        let mut j: usize = 0;
        assert(keys_of(raw@) =~= entry_paths(stored).take(0));
        while j < all.len()
            invariant
                j <= all.len(),
                stored == entries_of(all@),
                keys_of(raw@) == entry_paths(stored).take(j as int),
            decreases all.len() - j,
        {
            let copy = vstd::slice::slice_to_vec(all[j].path().as_slice());
            proof {
                assert(stored[j as int] == all@[j as int]@);
                assert(copy.key() == stored[j as int].path);
                assert(keys_of(raw@.push(copy)) =~= keys_of(raw@).push(copy.key()));
                assert(entry_paths(stored).take(j + 1) =~= entry_paths(stored).take(j as int).push(
                    stored[j as int].path,
                ));
            }
            raw.push(copy);
            j += 1;
        }
        assert(entry_paths(stored).take(j as int) =~= entry_paths(stored));
        let ghost raw_paths = raw@;
        let cset = sort_by_key(raw);
        proof {
            lemma_map_values_multiset(cset@, raw_paths, |x: Vec<u8>| x.key());
            lemma_same_members(keys_of(cset@), keys_of(raw_paths));
            assert forall|a: int, b: int| 0 <= a < b < entry_paths(stored).len() implies crate::path::path_le(
                entry_paths(stored)[a],
                entry_paths(stored)[b],
            ) by {
                assert(crate::path::path_le(all@[a].key(), all@[b].key()));
            }
        }
        PackageDb { packages, files: all, cset, ignores }
    }

    /// Replaces the paths under which the entries are found again: entry
    /// `i` is found under the canonical path that `resolved[i]` gives, and
    /// under its recorded path where `resolved` gives none for it.
    pub fn set_canonical(&mut self, resolved: &Vec<Resolution>)
        ensures
            final(self).canonical_paths() == resolved_paths(resolved@, old(self).files_view()),
            final(self).files_view() == old(self).files_view(),
            final(self).packages_view() == old(self).packages_view(),
            final(self).ignores_view() == old(self).ignores_view(),
    {
        proof {
            use_type_invariant(&*self);
        }
        let ghost es = entries_of(self.files@);
        let mut list: Vec<Vec<u8>> = Vec::new();
        let mut i: usize = 0;
        while i < self.files.len()
            invariant
                i <= self.files.len(),
                es == entries_of(self.files@),
                list.len() == i,
                forall|k: int| 0 <= k < i ==> (#[trigger] list@[k])@ == resolved_path(resolved@, es, k),
            decreases self.files.len() - i,
        {
            let copy = if i < resolved.len() {
                match &resolved[i] {
                    Resolution::Canonical(p) => vstd::slice::slice_to_vec(p.as_slice()),
                    Resolution::Unresolved => vstd::slice::slice_to_vec(
                        self.files[i].path().as_slice(),
                    ),
                }
            } else {
                vstd::slice::slice_to_vec(self.files[i].path().as_slice())
            };
            list.push(copy);
            i += 1;
        }
        let ghost listed = list@;
        let cset = sort_by_key(list);
        proof {
            lemma_map_values_multiset(cset@, listed, |x: Vec<u8>| x.key());
            lemma_same_members(keys_of(cset@), keys_of(listed));
            let want = resolved_paths(resolved@, es);
            assert forall|p: Seq<u8>| keys_of(listed).to_set().contains(p) == want.contains(p) by {
                if keys_of(listed).contains(p) {
                    let k = choose|k: int| 0 <= k < keys_of(listed).len() && keys_of(listed)[k] == p;
                    assert(listed[k]@ == resolved_path(resolved@, es, k));
                }
                if want.contains(p) {
                    let k = choose|k: int| 0 <= k < es.len() && resolved_path(resolved@, es, k) == p;
                    assert(listed[k]@ == p);
                    assert(keys_of(listed)[k] == p);
                }
            }
            assert(keys_of(listed).to_set() =~= want);
        }
        self.cset = cset;
    }

    /// The packages.
    pub fn packages(&self) -> (packages: &Vec<Package>)
        ensures
            packages@.map_values(|p: Package| p@) == self.packages_view(),
    {
        &self.packages
    }

    /// The tracked files, sorted by path and complete with the directories
    /// above them.
    pub fn files(&self) -> (files: &Vec<PackageFile>)
        ensures
            entries_of(files@) == self.files_view(),
            in_path_order(entry_paths(self.files_view())),
            ancestor_complete(entry_paths(self.files_view())),
            owners_valid(self.files_view(), self.packages_view().len()),
    {
        proof {
            use_type_invariant(self);
            let ps = entry_paths(entries_of(self.files@));
            assert forall|a: int, b: int| 0 <= a < b < ps.len() implies crate::path::path_le(
                ps[a],
                ps[b],
            ) by {
                assert(crate::path::path_le(self.files@[a].key(), self.files@[b].key()));
            }
        }
        &self.files
    }

    /// The ignore patterns that came with the package manager.
    pub fn ignores(&self) -> (ignores: &Vec<String>)
        ensures
            ignores@.map_values(|s: String| s@) == self.ignores_view(),
    {
        &self.ignores
    }

    /// The text that stands for an owner in a report: `None` for an entry
    /// without owner; else the package's name and architecture, with the
    /// version between them unless `with_version` is set.
    pub fn package_to_string(&self, idx: Option<usize>, with_version: bool) -> (text: String)
        requires
            match idx {
                Some(i) => i < self.packages_view().len(),
                None => true,
            },
        ensures
            text@ == owner_text(self.packages_view(), idx, with_version),
    {
        match idx {
            Some(i) => {
                if with_version {
                    self.packages[i].name_arch()
                } else {
                    self.packages[i].name_ver_arch()
                }
            },
            None => {
                proof {
                    reveal_strlit("None");
                }
                assert("None"@ =~= seq!['N', 'o', 'n', 'e']);
                "None".to_owned()
            },
        }
    }

    /// Tells whether a tracked entry is found under the path.
    pub fn find_canonical(&self, path: &[u8]) -> (found: bool)
        ensures
            found == self.canonical_paths().contains(path@),
    {
        proof {
            use_type_invariant(self);
        }
        let found = holds_key(&self.cset, path);
        proof {
            let keys = keys_of(self.cset@);
            if found {
                let i = choose|i: int| 0 <= i < self.cset.len() && (#[trigger] self.cset@[i]).key()
                    == path@;
                assert(keys[i] == path@);
            }
            if keys.contains(path@) {
                let i = choose|i: int| 0 <= i < keys.len() && keys[i] == path@;
                assert(self.cset@[i].key() == path@);
            }
        }
        found
    }
}

} // verus!
