//! The difference between two snapshots of the bundles.

use crate::svc::certificates::pathmap::{Listing, PathMap};
use crate::svc::certificates::Metadata;
use std::fmt::Debug;
use vstd::prelude::*;

verus! {

// -------------------------------------------------------------------------------------
// Diff

/// The paths that were added, deleted and modified between two snapshots.
/// The lists stand for sets; [`Diff::distinct`] says that they hold nothing
/// twice, which [`create`] ensures of what it returns.
#[derive(Debug)]
pub struct Diff<T> where T: PartialEq + Eq + Debug + Clone {
    pub added: Vec<T>,
    pub deleted: Vec<T>,
    pub modified: Vec<T>,
}

impl<T> Clone for Diff<T> where T: PartialEq + Eq + Debug + Clone {
    fn clone(&self) -> (copy: Self)
        ensures
            copy.added.len() == self.added.len(),
            copy.deleted.len() == self.deleted.len(),
            copy.modified.len() == self.modified.len(),
            forall|i: int|
                0 <= i < self.added.len() ==> cloned(self.added[i], #[trigger] copy.added[i]),
            forall|i: int|
                0 <= i < self.deleted.len() ==> cloned(self.deleted[i], #[trigger] copy.deleted[i]),
            forall|i: int|
                0 <= i < self.modified.len() ==> cloned(
                    self.modified[i],
                    #[trigger] copy.modified[i],
                ),
    {
        Diff {
            added: self.added.clone(),
            deleted: self.deleted.clone(),
            modified: self.modified.clone(),
        }
    }
}

impl<T> Diff<T> where T: PartialEq + Eq + Debug + Clone {
    pub fn new(added: Vec<T>, modified: Vec<T>, deleted: Vec<T>) -> (diff: Diff<T>)
        ensures
            diff.added == added,
            diff.modified == modified,
            diff.deleted == deleted,
    {
        Self { added, modified, deleted }
    }
}

impl<T> Diff<T> where T: PartialEq + Eq + Debug + Clone + DeepView {
    /// The three lists stand for three sets that share nothing: no item
    /// stands twice in the lists taken together.
    pub open spec fn distinct(&self) -> bool {
        (self.added.deep_view() + self.deleted.deep_view()
            + self.modified.deep_view()).no_duplicates()
    }
}

// -------------------------------------------------------------------------------------
// What a diff is

/// The keys of `new` that `current` lacks.
pub open spec fn added_paths<K, V>(current: Map<K, V>, new: Map<K, V>) -> Set<K> {
    new.dom().difference(current.dom())
}

/// The keys of `current` that `new` lacks.
pub open spec fn deleted_paths<K, V>(current: Map<K, V>, new: Map<K, V>) -> Set<K> {
    current.dom().difference(new.dom())
}

/// The keys of both under which the two hold unequal values.
pub open spec fn modified_paths<K, V>(current: Map<K, V>, new: Map<K, V>) -> Set<K> {
    Set::new(|k: K| current.dom().contains(k) && new.dom().contains(k) && current[k] != new[k])
}

/// The keys of both under which the two hold equal values.
pub open spec fn unchanged_paths<K, V>(current: Map<K, V>, new: Map<K, V>) -> Set<K> {
    Set::new(|k: K| current.dom().contains(k) && new.dom().contains(k) && current[k] == new[k])
}

/// Holds of the paths that `other` lacks.
pub open spec fn absent_from<V>(other: Map<Seq<char>, V>) -> spec_fn(Seq<char>) -> bool {
    |p: Seq<char>| !other.contains_key(p)
}

/// Holds of the paths that `new` has too, with another value than `current`.
pub open spec fn changed_in<V>(current: Map<Seq<char>, V>, new: Map<Seq<char>, V>) -> spec_fn(
    Seq<char>,
) -> bool {
    |p: Seq<char>| new.contains_key(p) && current[p] != new[p]
}

/// The added paths, in the order in which `new` lists them.
pub open spec fn added_order<V>(current: Listing<V>, new: Listing<V>) -> Seq<Seq<char>> {
    new.paths.filter(absent_from(current.map))
}

/// The deleted paths, in the order in which `current` lists them.
pub open spec fn deleted_order<V>(current: Listing<V>, new: Listing<V>) -> Seq<Seq<char>> {
    current.paths.filter(absent_from(new.map))
}

/// The modified paths, in the order in which `current` lists them.
pub open spec fn modified_order<V>(current: Listing<V>, new: Listing<V>) -> Seq<Seq<char>> {
    current.paths.filter(changed_in(current.map, new.map))
}

/// Keeping some of a list of distinct paths gives distinct paths: those of
/// the list that were kept.
pub proof fn lemma_filter_distinct(paths: Seq<Seq<char>>, keep: spec_fn(Seq<char>) -> bool)
    requires
        paths.no_duplicates(),
    ensures
        paths.filter(keep).no_duplicates(),
        forall|p: Seq<char>| paths.filter(keep).contains(p) <==> (paths.contains(p) && keep(p)),
    decreases paths.len(),
{
    reveal(Seq::filter);
    if paths.len() > 0 {
        let front = paths.drop_last();
        let last = paths.last();
        lemma_filter_distinct(front, keep);
        let kept = front.filter(keep);
        assert forall|p: Seq<char>| paths.contains(p) <==> (front.contains(p) || p == last) by {
            if paths.contains(p) {
                let i = paths.index_of(p);
                if i < front.len() {
                    assert(front[i] == p);
                }
            }
            if front.contains(p) {
                let i = front.index_of(p);
                assert(paths[i] == p);
            }
            assert(paths[paths.len() - 1] == last);
        }
        assert(!front.contains(last)) by {
            if front.contains(last) {
                let i = front.index_of(last);
                assert(paths[i] == paths[paths.len() - 1]);
            }
        }
        if keep(last) {
            let all = kept.push(last);
            assert forall|p: Seq<char>| all.contains(p) <==> (kept.contains(p) || p == last) by {
                if kept.contains(p) {
                    assert(all[kept.index_of(p)] == p);
                }
                assert(all[kept.len() as int] == last);
            }
        }
    }
}

/// The ordered lists of a diff enumerate its three sets, each path once.
pub proof fn lemma_orders<V>(current: Listing<V>, new: Listing<V>)
    requires
        current.valid(),
        new.valid(),
    ensures
        added_order(current, new).no_duplicates(),
        deleted_order(current, new).no_duplicates(),
        modified_order(current, new).no_duplicates(),
        added_order(current, new).to_set() == added_paths(current.map, new.map),
        deleted_order(current, new).to_set() == deleted_paths(current.map, new.map),
        modified_order(current, new).to_set() == modified_paths(current.map, new.map),
{
    lemma_filter_distinct(new.paths, absent_from(current.map));
    lemma_filter_distinct(current.paths, absent_from(new.map));
    lemma_filter_distinct(current.paths, changed_in(current.map, new.map));
}

/// No path stands twice in the three ordered lists of a diff taken together.
pub proof fn lemma_orders_apart<V>(current: Listing<V>, new: Listing<V>)
    requires
        current.valid(),
        new.valid(),
    ensures
        (added_order(current, new) + deleted_order(current, new) + modified_order(
            current,
            new,
        )).no_duplicates(),
{
    let added = added_order(current, new);
    let deleted = deleted_order(current, new);
    let modified = modified_order(current, new);
    lemma_orders(current, new);
    assert forall|i: int, j: int| 0 <= i < added.len() && 0 <= j < deleted.len() implies added[i]
        != deleted[j] by {
        assert(added.to_set().contains(added[i]));
        assert(deleted.to_set().contains(deleted[j]));
    }
    vstd::seq_lib::lemma_no_dup_in_concat(added, deleted);
    assert forall|i: int, j: int|
        0 <= i < (added + deleted).len() && 0 <= j < modified.len() implies (added + deleted)[i]
        != modified[j] by {
        assert(modified.to_set().contains(modified[j]));
        if i < added.len() {
            assert(added.to_set().contains(added[i]));
        } else {
            assert(deleted.to_set().contains(deleted[i - added.len()]));
        }
    }
    vstd::seq_lib::lemma_no_dup_in_concat(added + deleted, modified);
}

/// Added, deleted, modified and unchanged paths are disjoint two by two, and
/// together they are the keys of the two maps.
pub proof fn lemma_diff_partitions<K, V>(current: Map<K, V>, new: Map<K, V>)
    ensures
        added_paths(current, new).disjoint(deleted_paths(current, new)),
        added_paths(current, new).disjoint(modified_paths(current, new)),
        added_paths(current, new).disjoint(unchanged_paths(current, new)),
        deleted_paths(current, new).disjoint(modified_paths(current, new)),
        deleted_paths(current, new).disjoint(unchanged_paths(current, new)),
        modified_paths(current, new).disjoint(unchanged_paths(current, new)),
        added_paths(current, new).intersect(deleted_paths(current, new)) == Set::<K>::empty(),
        added_paths(current, new).union(deleted_paths(current, new)).union(
            modified_paths(current, new),
        ).union(unchanged_paths(current, new)) == current.dom().union(new.dom()),
{
}

/// A map differs from itself in nothing.
pub proof fn lemma_diff_of_same<K, V>(snapshot: Map<K, V>)
    ensures
        added_paths(snapshot, snapshot) == Set::<K>::empty(),
        deleted_paths(snapshot, snapshot) == Set::<K>::empty(),
        modified_paths(snapshot, snapshot) == Set::<K>::empty(),
        unchanged_paths(snapshot, snapshot) == snapshot.dom(),
{
}

/// Between a listing and itself no path is added, deleted or modified.
pub proof fn lemma_orders_of_same<V>(snapshot: Listing<V>)
    requires
        snapshot.valid(),
    ensures
        added_order(snapshot, snapshot) == Seq::<Seq<char>>::empty(),
        deleted_order(snapshot, snapshot) == Seq::<Seq<char>>::empty(),
        modified_order(snapshot, snapshot) == Seq::<Seq<char>>::empty(),
{
    lemma_filter_distinct(snapshot.paths, absent_from(snapshot.map));
    let gone = snapshot.paths.filter(absent_from(snapshot.map));
    let changed = snapshot.paths.filter(changed_in(snapshot.map, snapshot.map));
    if gone.len() > 0 {
        assert(gone.contains(gone[0]));
    }
    if changed.len() > 0 {
        assert(changed.contains(changed[0]));
    }
}

// -------------------------------------------------------------------------------------
// Helpers

/// Compares two snapshots. Added paths come in the order of `new`, deleted
/// and modified ones in the order of `current`.
pub fn create(current: &PathMap<Metadata>, new: &PathMap<Metadata>) -> (diff: Diff<String>)
    ensures
        diff.added.deep_view() == added_order(current@, new@),
        diff.deleted.deep_view() == deleted_order(current@, new@),
        diff.modified.deep_view() == modified_order(current@, new@),
        diff.added.deep_view().to_set() == added_paths(current@.map, new@.map),
        diff.deleted.deep_view().to_set() == deleted_paths(current@.map, new@.map),
        diff.modified.deep_view().to_set() == modified_paths(current@.map, new@.map),
        diff.added.deep_view().no_duplicates(),
        diff.deleted.deep_view().no_duplicates(),
        diff.modified.deep_view().no_duplicates(),
        diff.distinct(),
{
    let mut added: Vec<String> = Vec::new();
    let mut deleted: Vec<String> = Vec::new();
    let mut modified: Vec<String> = Vec::new();

    let new_len = new.len();
    let mut i: usize = 0;
    while i < new_len
        invariant
            i <= new_len,
            new_len == new@.paths.len(),
            added.deep_view() == new@.paths.take(i as int).filter(absent_from(current@.map)),
        decreases new_len - i,
    {
        if let Some((path, _)) = new.entry(i) {
            if !current.contains_key(path) {
                added.push(path.clone());
            }
            proof {
                assert(new@.paths.take(i + 1) =~= new@.paths.take(i as int).push(path@));
                new@.paths.take(i as int).lemma_filter_push(path@, absent_from(current@.map));
            }
        }
        i += 1;
    }
    assert(new@.paths.take(new_len as int) =~= new@.paths);

    let current_len = current.len();
    let mut j: usize = 0;
    while j < current_len
        invariant
            j <= current_len,
            current_len == current@.paths.len(),
            deleted.deep_view() == current@.paths.take(j as int).filter(absent_from(new@.map)),
            modified.deep_view() == current@.paths.take(j as int).filter(
                changed_in(current@.map, new@.map),
            ),
        decreases current_len - j,
    {
        if let Some((path, old)) = current.entry(j) {
            match new.get(path) {
                None => {
                    deleted.push(path.clone());
                },
                Some(fresh) => {
                    if !(old == fresh) {
                        modified.push(path.clone());
                    }
                },
            }
            proof {
                assert(current@.paths.take(j + 1) =~= current@.paths.take(j as int).push(path@));
                current@.paths.take(j as int).lemma_filter_push(path@, absent_from(new@.map));
                current@.paths.take(j as int).lemma_filter_push(
                    path@,
                    changed_in(current@.map, new@.map),
                );
            }
        }
        j += 1;
    }
    assert(current@.paths.take(current_len as int) =~= current@.paths);
    proof {
        lemma_orders(current@, new@);
        lemma_orders_apart(current@, new@);
    }
    Diff::new(added, modified, deleted)
}

} // verus!
