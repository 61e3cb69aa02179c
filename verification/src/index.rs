//! A spatial index over the positions of the dots: built once per tick, then
//! only read.

use vstd::prelude::*;
use vstd::multiset::Multiset;
use crate::geometry::{
    distance_squared, lemma_distance_squared_nonnegative, points_in_range, within, Vec2,
};

verus! {

/// A k-d tree of the `kd_tree` crate over points with a handle each. Verus
/// does not look inside it: all that is known of it is what the functions
/// below state of `kd_entries`.
#[verifier::external_body]
pub struct KdStore {
    tree: kd_tree::KdTree2<([i128; 2], usize)>,
}

/// The entries that a tree holds, each with its two coordinates and its
/// handle, as often as it holds them.
pub uninterp spec fn kd_entries(store: KdStore) -> Multiset<(i64, i64, usize)>;

/// The point of an entry.
pub open spec fn entry_point(entry: (i64, i64, usize)) -> Vec2 {
    Vec2 { x: entry.0, y: entry.1 }
}

/// Every entry of the multiset has its coordinates within `COORD_MAX` of the
/// origin.
pub open spec fn entries_in_range(entries: Multiset<(i64, i64, usize)>) -> bool {
    forall|e: (i64, i64, usize)| #[trigger] entries.count(e) > 0 ==> entry_point(e).in_range()
}

/// Calls `KdTree::build`, which orders the entries it is given into a tree
/// and neither adds nor drops one.
#[verifier::external_body]
fn kd_build(entries: Vec<(i64, i64, usize)>) -> (store: KdStore)
    ensures
        kd_entries(store) == entries@.to_multiset(),
{
    let items = entries.into_iter().map(|e| ([e.0 as i128, e.1 as i128], e.2)).collect();
    KdStore { tree: kd_tree::KdTree::build(items) }
}

/// Calls `KdTree::within_radius`, which returns the entries whose squared
/// distance from `center` is less than the square of `radius`, each as often
/// as the tree holds it, in no stated order. The bounds keep the crate's
/// 128-bit arithmetic from overflowing.
#[verifier::external_body]
fn kd_within_radius(store: &KdStore, center: Vec2, radius: i64) -> (found: Vec<(i64, i64, usize)>)
    requires
        0 <= radius,
        center.in_range(),
        entries_in_range(kd_entries(*store)),
    ensures
        forall|e: (i64, i64, usize)|
            #[trigger] found@.to_multiset().count(e) == if within(
                entry_point(e),
                center,
                radius as int,
            ) {
                kd_entries(*store).count(e)
            } else {
                0
            },
{
    let query = [center.x as i128, center.y as i128];
    let items = store.tree.within_radius(&query, radius as i128);
    items.into_iter().map(|e| (e.0[0] as i64, e.0[1] as i64, e.1)).collect()
}

/// Calls `KdTree::nearest`, which returns nothing for an empty tree and
/// otherwise an entry than which none lies closer to `point`. The bounds keep
/// the crate's 128-bit arithmetic from overflowing.
#[verifier::external_body]
fn kd_nearest(store: &KdStore, point: Vec2) -> (found: Option<(i64, i64, usize)>)
    requires
        point.in_range(),
        entries_in_range(kd_entries(*store)),
    ensures
        found is None <==> kd_entries(*store).len() == 0,
        found matches Some(e) ==> kd_entries(*store).count(e) > 0 && forall|o: (i64, i64, usize)|
            #[trigger] kd_entries(*store).count(o) > 0 ==> distance_squared(entry_point(e), point)
                <= distance_squared(entry_point(o), point),
{
    let query = [point.x as i128, point.y as i128];
    store.tree.nearest(&query).map(|n| (n.item.0[0] as i64, n.item.0[1] as i64, n.item.1))
}

/// The entries that stand for a sequence of positions: each position with
/// its place in the sequence as its handle.
pub open spec fn entries_of(points: Seq<Vec2>) -> Seq<(i64, i64, usize)> {
    Seq::new(points.len(), |i: int| (points[i].x, points[i].y, i as usize))
}

/// A snapshot of positions that answers which of them lie near a point. The
/// handle of a position is its place in the sequence the index was built from.
pub struct NNTree {
    store: KdStore,
    points: Ghost<Seq<Vec2>>,
}

impl View for NNTree {
    type V = Seq<Vec2>;

    /// The positions that the index was built from, by handle.
    closed spec fn view(&self) -> Seq<Vec2> {
        self.points@
    }
}

impl NNTree {
    /// The tree holds the entries of the positions, and none of them is
    /// out of range.
    #[verifier::type_invariant]
    spec fn inv(self) -> bool {
        &&& self.points@.len() <= usize::MAX
        &&& points_in_range(self.points@)
        &&& kd_entries(self.store) == entries_of(self.points@).to_multiset()
    }

    /// Builds the index of the given positions.
    pub fn rebuild(positions: &Vec<Vec2>) -> (tree: NNTree)
        requires
            points_in_range(positions@),
        ensures
            tree@ == positions@,
    {
        let mut entries: Vec<(i64, i64, usize)> = Vec::new();
        let mut i: usize = 0;
        while i < positions.len()
            invariant
                i <= positions.len(),
                entries.len() == i,
                forall|j: int|
                    0 <= j < i ==> #[trigger] entries[j] == (positions[j].x, positions[j].y, j as usize),
            decreases positions.len() - i,
        {
            entries.push((positions[i].x, positions[i].y, i));
            i = i + 1;
        }
        assert(entries@ =~= entries_of(positions@));
        NNTree { store: kd_build(entries), points: Ghost(positions@) }
    }

    /// The number of positions in the index.
    pub closed spec fn spec_len(&self) -> nat {
        self.points@.len()
    }

    /// The handles of all positions that lie strictly closer to `center` than
    /// `radius`, each once, in no particular order. A position at exactly
    /// `radius` is left out, so a radius of zero or less finds nothing.
    pub fn query_radius(&self, center: Vec2, radius: i64) -> (handles: Vec<usize>)
        requires
            center.in_range(),
        ensures
            handles@.no_duplicates(),
            forall|h: usize|
                #[trigger] handles@.contains(h) <==> h < self@.len() && within(
                    self@[h as int],
                    center,
                    radius as int,
                ),
    {
        proof {
            use_type_invariant(self);
        }
        let mut handles: Vec<usize> = Vec::new();
        if radius <= 0 {
            proof {
                assert forall|h: usize| h < self@.len() implies !within(
                    self@[h as int],
                    center,
                    radius as int,
                ) by {
                    lemma_distance_squared_nonnegative(self@[h as int], center);
                }
            }
            return handles;
        }
        let ghost entries = entries_of(self.points@);
        proof {
            lemma_entries(self.points@);
        }
        let found = kd_within_radius(&self.store, center, radius);
        proof {
            found@.to_multiset_ensures();
            entries.to_multiset_ensures();
            assert forall|x: (i64, i64, usize)| found@.to_multiset().contains(x) implies found@.to_multiset().count(x) == 1 by {
                assert(found@.to_multiset().count(x) > 0);
                assert(entries.to_multiset().contains(x));
            }
            found@.lemma_multiset_has_no_duplicates_conv();
        }
        let mut i: usize = 0;
        while i < found.len()
            invariant
                i <= found.len(),
                handles.len() == i,
                forall|j: int| 0 <= j < i ==> #[trigger] handles[j] == found[j].2,
            decreases found.len() - i,
        {
            handles.push(found[i].2);
            i = i + 1;
        }
        proof {
            assert forall|j: int| 0 <= j < found.len() implies {
                let e = #[trigger] found@[j];
                e.2 < self.points@.len() && e == entries[e.2 as int]
                    && within(entry_point(e), center, radius as int)
            } by {
                let e = found@[j];
                assert(found@.contains(e));
                assert(found@.to_multiset().count(e) > 0);
                assert(entries.contains(e));
            }
            assert forall|a: int, b: int|
                0 <= a < handles.len() && 0 <= b < handles.len() && a != b implies handles[a] != handles[b] by {
                if handles[a] == handles[b] {
                    assert(found@[a] == entries[found@[a].2 as int]);
                    assert(found@[b] == entries[found@[b].2 as int]);
                    assert(found@[a] == found@[b]);
                }
            }
            assert forall|h: usize|
                h < self@.len() && within(self@[h as int], center, radius as int) implies handles@.contains(h) by {
                let e = entries[h as int];
                assert(entries.contains(e));
                assert(entries.to_multiset().count(e) > 0);
                assert(entry_point(e) == self@[h as int]);
                assert(found@.to_multiset().count(e) > 0);
                assert(found@.contains(e));
                let j = choose|j: int| 0 <= j < found@.len() && found@[j] == e;
                assert(handles@[j] == h);
            }
            assert forall|h: usize| handles@.contains(h) implies h < self@.len() && within(
                self@[h as int],
                center,
                radius as int,
            ) by {
                let j = choose|j: int| 0 <= j < handles@.len() && handles@[j] == h;
                assert(found@[j].2 == h);
                assert(entry_point(found@[j]) == self@[h as int]);
            }
        }
        handles
    }

    /// The position closest to `point` and its handle, or nothing if the
    /// index is empty. Of several positions equally close, any one.
    pub fn query_nearest(&self, point: Vec2) -> (nearest: Option<(Vec2, usize)>)
        requires
            point.in_range(),
        ensures
            nearest is None <==> self@.len() == 0,
            nearest matches Some((position, handle)) ==> handle < self@.len() && self@[handle as int]
                == position && forall|i: int|
                0 <= i < self@.len() ==> distance_squared(position, point) <= distance_squared(
                    #[trigger] self@[i],
                    point,
                ),
    {
        proof {
            use_type_invariant(self);
            lemma_entries(self.points@);
            entries_of(self.points@).to_multiset_ensures();
        }
        let ghost entries = entries_of(self.points@);
        match kd_nearest(&self.store, point) {
            None => None,
            Some(e) => {
                proof {
                    assert(entries.contains(e));
                    assert forall|i: int| 0 <= i < self@.len() implies distance_squared(
                        entry_point(e),
                        point,
                    ) <= distance_squared(#[trigger] self@[i], point) by {
                        let o = entries[i];
                        assert(entries.contains(o));
                        assert(entries.to_multiset().count(o) > 0);
                        assert(entry_point(o) == self@[i]);
                    }
                }
                Some((Vec2 { x: e.0, y: e.1 }, e.2))
            },
        }
    }
}

/// The entries of a sequence of positions are all different, each occurs
/// once among them, and they are in range where the positions are.
proof fn lemma_entries(points: Seq<Vec2>)
    requires
        points.len() <= usize::MAX,
        points_in_range(points),
    ensures
        entries_of(points).no_duplicates(),
        forall|x: (i64, i64, usize)|
            entries_of(points).to_multiset().contains(x) ==> entries_of(points).to_multiset().count(
                x,
            ) == 1,
        entries_in_range(entries_of(points).to_multiset()),
        forall|x: (i64, i64, usize)|
            entries_of(points).contains(x) ==> x.2 < points.len() && x == entries_of(points)[x.2 as int],
{
    let entries = entries_of(points);
    assert forall|i: int, j: int| 0 <= i < entries.len() && 0 <= j < entries.len() && i != j implies entries[i] != entries[j] by {
        assert(entries[i].2 == i);
        assert(entries[j].2 == j);
    }
    entries.lemma_multiset_has_no_duplicates();
    entries.to_multiset_ensures();
    assert forall|e: (i64, i64, usize)| #[trigger] entries.to_multiset().count(e) > 0 implies entry_point(e).in_range() by {
        assert(entries.contains(e));
        let i = choose|i: int| 0 <= i < entries.len() && entries[i] == e;
        assert(entry_point(e) == points[i]);
    }
    assert forall|x: (i64, i64, usize)| entries.contains(x) implies x.2 < points.len() && x == entries[x.2 as int] by {
        let i = choose|i: int| 0 <= i < entries.len() && entries[i] == x;
        assert(x.2 == i);
    }
}

} // verus!
