//! The pools that a tree is built from.
//!
//! While one level of a tree is built, the points not yet given to a node
//! wait in an `UncoveredData`. A center is taken out of it, the distances
//! from that center to the others are measured, and those nearer than a
//! radius follow the center into a `CoveredData`.

use crate::distance::{is_nan, larger, less_than, lt, max, order_key, NEG_INFINITY};
use crate::errors::MalwareBrotResult;
use crate::PointIndex;
use rand::{thread_rng, Rng};
use vstd::prelude::*;

verus! {

/// A covered point: its index, and the bits of its distance to the center
/// that covers it.
pub type Member = (PointIndex, u32);

/// A center and the points it covers, each with its distance to the center.
/// The center is not among them.
#[derive(Debug)]
pub struct CoveredData {
    dists: Vec<u32>,
    coverage: Vec<PointIndex>,
    center_index: PointIndex,
}

/// Points not yet covered at the scale that is being built.
#[derive(Debug)]
pub struct UncoveredData {
    coverage: Vec<PointIndex>,
}

/// What a `CoveredData` holds.
pub struct CoveredView {
    /// Index of the center.
    pub center_index: PointIndex,
    /// The covered points, in order.
    pub members: Seq<Member>,
}

/// The points of a list, each with the distance that stands at its place in
/// a second list.
pub open spec fn with_dists(coverage: Seq<PointIndex>, dists: Seq<u32>) -> Seq<Member>
    recommends
        coverage.len() == dists.len(),
{
    Seq::new(coverage.len(), |i: int| (coverage[i], dists[i]))
}

/// The indexes of members, in order.
pub open spec fn indexes_of(members: Seq<Member>) -> Seq<PointIndex> {
    members.map_values(|m: Member| m.0)
}

/// Tells the members that are nearer than `thresh`.
pub open spec fn is_close(thresh: u32) -> spec_fn(Member) -> bool {
    |m: Member| less_than(m.1, thresh)
}

/// Tells the members that are not nearer than `thresh`: those at that
/// distance, those beyond it, and those whose distance is no number.
pub open spec fn is_far(thresh: u32) -> spec_fn(Member) -> bool {
    |m: Member| !less_than(m.1, thresh)
}

/// The largest of the distances of members, as `CoveredData::max_distance`
/// finds it: from negative infinity on, each member in turn takes the place
/// of what was found when it is larger.
pub open spec fn farthest(members: Seq<Member>) -> u32
    decreases members.len(),
{
    if members.len() == 0 {
        NEG_INFINITY
    } else {
        larger(farthest(members.drop_last()), members.last().1)
    }
}

impl CoveredView {
    /// The members nearer than `thresh`, in order, around the same center.
    pub open spec fn close(self, thresh: u32) -> CoveredView {
        CoveredView {
            center_index: self.center_index,
            members: self.members.filter(is_close(thresh)),
        }
    }

    /// The indexes of the members not nearer than `thresh`, in order.
    pub open spec fn far(self, thresh: u32) -> Seq<PointIndex> {
        indexes_of(self.members.filter(is_far(thresh)))
    }
}

impl View for CoveredData {
    type V = CoveredView;

    closed spec fn view(&self) -> CoveredView {
        CoveredView {
            center_index: self.center_index,
            members: with_dists(self.coverage@, self.dists@),
        }
    }
}

impl View for UncoveredData {
    type V = Seq<PointIndex>;

    closed spec fn view(&self) -> Seq<PointIndex> {
        self.coverage@
    }
}

impl Clone for CoveredData {
    fn clone(&self) -> (data: Self)
        ensures
            data@ == self@,
    {
        proof {
            use_type_invariant(self);
        }
        CoveredData {
            dists: self.dists.clone(),
            coverage: self.coverage.clone(),
            center_index: self.center_index,
        }
    }
}

impl Clone for UncoveredData {
    fn clone(&self) -> (pool: Self)
        ensures
            pool@ == self@,
    {
        UncoveredData { coverage: self.coverage.clone() }
    }
}

/// Divides points by their distances in one pass: the indexes and the
/// distances of those nearer than `thresh`, and the indexes of the others.
fn partition(coverage: &Vec<PointIndex>, dists: &[u32], thresh: u32) -> (parts: (
    Vec<PointIndex>,
    Vec<u32>,
    Vec<PointIndex>,
))
    requires
        coverage.len() == dists.len(),
    ensures
        parts.0.len() == parts.1.len(),
        parts.0.len() <= coverage.len(),
        with_dists(parts.0@, parts.1@) == with_dists(coverage@, dists@).filter(is_close(thresh)),
        parts.2@ == indexes_of(with_dists(coverage@, dists@).filter(is_far(thresh))),
{
    let ghost all = with_dists(coverage@, dists@);
    let mut close_index: Vec<PointIndex> = Vec::with_capacity(coverage.len());
    let mut close_dist: Vec<u32> = Vec::with_capacity(coverage.len());
    let mut far: Vec<PointIndex> = Vec::new();
    let mut i: usize = 0;
    proof {
        reveal(Seq::filter);
        assert(all.take(0).filter(is_close(thresh)) == Seq::<Member>::empty());
        assert(all.take(0).filter(is_far(thresh)) == Seq::<Member>::empty());
    }
    while i < coverage.len()
        invariant
            i <= coverage.len() == dists.len(),
            all == with_dists(coverage@, dists@),
            close_index.len() == close_dist.len(),
            close_index.len() <= i,
            with_dists(close_index@, close_dist@) == all.take(i as int).filter(is_close(thresh)),
            far@ == indexes_of(all.take(i as int).filter(is_far(thresh))),
        decreases coverage.len() - i,
    {
        let ghost before_close = with_dists(close_index@, close_dist@);
        if lt(dists[i], thresh) {
            close_index.push(coverage[i]);
            close_dist.push(dists[i]);
        } else {
            far.push(coverage[i]);
        }
        proof {
            reveal(Seq::filter);
            let next = all.take(i + 1);
            assert(next.drop_last() == all.take(i as int));
            assert(next.last() == (coverage@[i as int], dists@[i as int]));
            if less_than(dists@[i as int], thresh) {
                assert(with_dists(close_index@, close_dist@) == before_close.push(next.last()));
            } else {
                assert(far@ == indexes_of(next.filter(is_far(thresh))));
            }
        }
        i = i + 1;
    }
    assert(all.take(i as int) == all);
    (close_index, close_dist, far)
}

impl CoveredData {
    #[verifier::type_invariant]
    spec fn aligned(self) -> bool {
        self.coverage.len() == self.dists.len() && self.coverage.len() < usize::MAX
    }

    /// Puts a center together with the points it covers and their distances
    /// to it, which stand in the same order as the points.
    pub fn new(center_index: PointIndex, coverage: Vec<PointIndex>, dists: Vec<u32>) -> (data:
        CoveredData)
        requires
            coverage.len() == dists.len(),
            coverage.len() < usize::MAX,
        ensures
            data@ == (CoveredView { center_index, members: with_dists(coverage@, dists@) }),
    {
        CoveredData { dists, coverage, center_index }
    }

    /// Index of the center.
    pub fn center_index(&self) -> (index: PointIndex)
        ensures
            index == self@.center_index,
    {
        self.center_index
    }

    /// The indexes of the covered points, in order.
    pub fn coverage(&self) -> (coverage: &[PointIndex])
        ensures
            coverage@ == indexes_of(self@.members),
    {
        proof {
            use_type_invariant(self);
            assert(self.coverage@ == indexes_of(with_dists(self.coverage@, self.dists@)));
        }
        self.coverage.as_slice()
    }

    /// The distances of the covered points to the center, in the order of
    /// the points.
    pub fn dists(&self) -> (dists: &[u32])
        ensures
            dists@ == self@.members.map_values(|m: Member| m.1),
    {
        proof {
            use_type_invariant(self);
            assert(self.dists@ == with_dists(self.coverage@, self.dists@).map_values(
                |m: Member| m.1,
            ));
        }
        self.dists.as_slice()
    }

    /// Divides the covered points at a distance: those nearer than `thresh`
    /// stay with the center, in their order, and the others leave as
    /// uncovered, in their order. A point at exactly `thresh` leaves.
    pub fn split(self, thresh: u32) -> (result: MalwareBrotResult<(CoveredData, UncoveredData)>)
        ensures
            result is Ok,
            result->Ok_0.0@ == self@.close(thresh),
            result->Ok_0.1@ == self@.far(thresh),
    {
        proof {
            use_type_invariant(&self);
        }
        let (close_index, close_dist, far) = partition(
            &self.coverage,
            self.dists.as_slice(),
            thresh,
        );
        let close = CoveredData {
            coverage: close_index,
            dists: close_dist,
            center_index: self.center_index,
        };
        let new_far = UncoveredData { coverage: far };
        Ok((close, new_far))
    }

    /// The indexes of the covered points, in order; the center is not among
    /// them.
    pub fn to_indexes(self) -> (indexes: Vec<PointIndex>)
        ensures
            indexes@ == indexes_of(self@.members),
    {
        proof {
            use_type_invariant(&self);
            assert(self.coverage@ == indexes_of(with_dists(self.coverage@, self.dists@)));
        }
        self.coverage
    }

    /// The largest distance from the center to a covered point, passing over
    /// distances that are no number; negative infinity where there is none.
    pub fn max_distance(&self) -> (distance: u32)
        ensures
            distance == farthest(self@.members),
    {
        proof {
            use_type_invariant(self);
        }
        let ghost members = with_dists(self.coverage@, self.dists@);
        let mut distance: u32 = NEG_INFINITY;
        let mut i: usize = 0;
        while i < self.dists.len()
            invariant
                i <= self.dists.len() == self.coverage.len(),
                members == with_dists(self.coverage@, self.dists@),
                distance == farthest(members.take(i as int)),
            decreases self.dists.len() - i,
        {
            assert(members.take(i + 1).drop_last() == members.take(i as int));
            distance = max(distance, self.dists[i]);
            i = i + 1;
        }
        assert(members.take(i as int) == members);
        distance
    }

    /// The number of points, the center counted.
    pub fn len(&self) -> (len: usize)
        ensures
            len == self@.members.len() + 1,
    {
        proof {
            use_type_invariant(self);
        }
        self.coverage.len() + 1
    }
}

/// `rand::thread_rng` and `Rng::gen_range` from 0 to `bound`: a position
/// below `bound`, whichever the generator of the thread gives. The range must
/// not be empty, or `gen_range` panics. Nothing is said of the chances, nor
/// of a system that cannot seed the generator.
#[verifier::external_body]
fn random_below(bound: usize) -> (position: usize)
    requires
        bound > 0,
    ensures
        position < bound,
{
    thread_rng().gen_range(0, bound)
}

impl UncoveredData {
    /// Makes a pool of the given points.
    pub fn new(coverage: Vec<PointIndex>) -> (pool: UncoveredData)
        ensures
            pool@ == coverage@,
    {
        UncoveredData { coverage }
    }

    /// Takes a member out of the pool, each with the same chance, to be the
    /// next center. The others keep their order.
    pub fn pick_center(&mut self) -> (center_index: PointIndex)
        requires
            old(self)@.len() > 0,
        ensures
            exists|position: int|
                0 <= position < old(self)@.len() && center_index == #[trigger] old(
                    self,
                )@[position] && final(self)@ == old(self)@.remove(position),
    {
        let position: usize = random_below(self.coverage.len());
        self.coverage.remove(position)
    }

    /// Takes the last member out of the pool to be the center: the choice
    /// for the root, where nothing is left to chance.
    pub fn last_center(&mut self) -> (center_index: PointIndex)
        requires
            old(self)@.len() > 0,
        ensures
            center_index == old(self)@.last(),
            final(self)@ == old(self)@.drop_last(),
    {
        let position: usize = self.coverage.len() - 1;
        self.coverage.remove(position)
    }

    /// Gives the members nearer than `radius` to a center. `dists` holds the
    /// distance of each member to that center, in the order of the pool.
    /// The near ones leave the pool and are returned with the center, in
    /// their order; the others stay, in their order. A member at exactly
    /// `radius` stays.
    pub fn cover(&mut self, center_index: PointIndex, dists: &[u32], radius: u32) -> (close:
        CoveredData)
        requires
            dists@.len() == old(self)@.len(),
            old(self)@.len() < usize::MAX,
        ensures
            close@ == (CoveredView {
                center_index,
                members: with_dists(old(self)@, dists@),
            }).close(radius),
            final(self)@ == (CoveredView {
                center_index,
                members: with_dists(old(self)@, dists@),
            }).far(radius),
    {
        let (close_index, close_dist, far) = partition(&self.coverage, dists, radius);
        self.coverage = far;
        CoveredData { coverage: close_index, dists: close_dist, center_index }
    }

    /// The members, in order, while they stay in the pool.
    pub fn indexes(&self) -> (indexes: &[PointIndex])
        ensures
            indexes@ == self@,
    {
        self.coverage.as_slice()
    }

    /// The members, in order.
    pub fn to_indexes(self) -> (indexes: Vec<PointIndex>)
        ensures
            indexes@ == self@,
    {
        self.coverage
    }

    /// The number of members.
    pub fn len(&self) -> (len: usize)
        ensures
            len == self@.len(),
    {
        self.coverage.len()
    }
}

/// Distances stand in ascending order when each is a number and none is
/// followed by a smaller one.
pub open spec fn ascending(s: Seq<(u32, usize)>) -> bool {
    &&& forall|i: int| 0 <= i < s.len() ==> !is_nan((#[trigger] s[i]).0)
    &&& forall|i: int, j: int|
        #![trigger s[i], s[j]]
        0 <= i < j < s.len() ==> order_key(s[i].0) <= order_key(s[j].0)
}

/// Searches distances in ascending order for the place of `thresh`, halving
/// the range at each step. Before the place returned nothing is larger than
/// `thresh`, from it on nothing is smaller, and where `thresh` occurs the
/// place is one where it stands. Of other lists only the range of the result
/// is told.
pub fn find_split(dist_indexes: &[(u32, usize)], thresh: u32) -> (split: usize)
    requires
        dist_indexes@.len() > 0,
    ensures
        split <= dist_indexes@.len(),
        ascending(dist_indexes@) && !is_nan(thresh) ==> {
            &&& forall|i: int|
                0 <= i < split ==> order_key((#[trigger] dist_indexes@[i]).0) <= order_key(thresh)
            &&& forall|i: int|
                split <= i < dist_indexes@.len() ==> order_key(thresh) <= order_key(
                    (#[trigger] dist_indexes@[i]).0,
                )
            &&& (exists|i: int|
                0 <= i < dist_indexes@.len() && order_key((#[trigger] dist_indexes@[i]).0)
                    == order_key(thresh)) ==> split < dist_indexes@.len() && order_key(
                dist_indexes@[split as int].0,
            ) == order_key(thresh)
        },
{
    let ghost s = dist_indexes@;
    let ghost sorted = ascending(s) && !is_nan(thresh);
    let mut smaller: usize = 0;
    let mut larger: usize = dist_indexes.len() - 1;
    while smaller <= larger
        invariant
            s == dist_indexes@,
            sorted == (ascending(s) && !is_nan(thresh)),
            smaller <= larger + 1,
            larger < s.len(),
            sorted ==> forall|i: int|
                0 <= i < smaller ==> order_key((#[trigger] s[i]).0) < order_key(thresh),
            sorted ==> forall|i: int|
                larger < i < s.len() ==> order_key(thresh) < order_key((#[trigger] s[i]).0),
        decreases larger + 1 - smaller,
    {
        let m: usize = smaller + (larger - smaller) / 2;
        if lt(dist_indexes[m].0, thresh) {
            assert(sorted ==> forall|i: int|
                0 <= i < m + 1 ==> order_key((#[trigger] s[i]).0) < order_key(thresh)) by {
                if sorted {
                    assert forall|i: int| 0 <= i < m + 1 implies order_key((#[trigger] s[i]).0)
                        < order_key(thresh) by {
                        if i < m {
                            assert(order_key(s[i].0) <= order_key(s[m as int].0));
                        }
                    }
                }
            }
            smaller = m + 1;
        } else if lt(thresh, dist_indexes[m].0) {
            assert(sorted ==> forall|i: int|
                m <= i < s.len() ==> order_key(thresh) < order_key((#[trigger] s[i]).0)) by {
                if sorted {
                    assert forall|i: int| m <= i < s.len() implies order_key(thresh) < order_key(
                        (#[trigger] s[i]).0,
                    ) by {
                        if m < i {
                            assert(order_key(s[m as int].0) <= order_key(s[i].0));
                        }
                    }
                }
            }
            if m == 0 {
                return 0;
            }
            larger = m - 1;
        } else {
            proof {
                if sorted {
                    assert forall|i: int| 0 <= i < m implies order_key((#[trigger] s[i]).0)
                        <= order_key(thresh) by {
                        assert(order_key(s[i].0) <= order_key(s[m as int].0));
                    }
                    assert forall|i: int| m <= i < s.len() implies order_key(thresh) <= order_key(
                        (#[trigger] s[i]).0,
                    ) by {
                        if m < i {
                            assert(order_key(s[m as int].0) <= order_key(s[i].0));
                        }
                    }
                }
            }
            return m;
        }
    }
    smaller
}

/// Whether a point is a member with a distance that is not less than a
/// threshold.
pub open spec fn has_far_member(members: Seq<Member>, index: PointIndex, thresh: u32) -> bool {
    exists|j: int|
        0 <= j < members.len() && (#[trigger] members[j]).0 == index && !less_than(
            members[j].1,
            thresh,
        )
}

/// Every member is either nearer than a threshold or not: the two parts of a
/// division have together as many members as there were.
pub proof fn division_keeps_count(members: Seq<Member>, thresh: u32)
    ensures
        members.filter(is_close(thresh)).len() + members.filter(is_far(thresh)).len()
            == members.len(),
    decreases members.len(),
{
    reveal(Seq::filter);
    if members.len() > 0 {
        division_keeps_count(members.drop_last(), thresh);
    }
}

/// What `split` does to a covered set: each point that stays is a member
/// that was there, with its distance, and that distance is less than the
/// threshold; each point that leaves was a member whose distance is not less
/// than the threshold; no member is lost and none is added.
pub proof fn split_divides_by_distance(data: CoveredView, thresh: u32)
    ensures
        forall|i: int|
            0 <= i < data.close(thresh).members.len() ==> {
                &&& less_than((#[trigger] data.close(thresh).members[i]).1, thresh)
                &&& data.members.contains(data.close(thresh).members[i])
            },
        forall|i: int|
            0 <= i < data.far(thresh).len() ==> has_far_member(
                data.members,
                #[trigger] data.far(thresh)[i],
                thresh,
            ),
        data.close(thresh).members.len() + data.far(thresh).len() == data.members.len(),
        data.close(thresh).center_index == data.center_index,
{
    let close = data.members.filter(is_close(thresh));
    let far = data.members.filter(is_far(thresh));
    division_keeps_count(data.members, thresh);
    assert forall|i: int| 0 <= i < close.len() implies less_than((#[trigger] close[i]).1, thresh)
        && data.members.contains(close[i]) by {
        data.members.lemma_filter_pred(is_close(thresh), i);
        assert(close.contains(close[i]));
        data.members.lemma_filter_contains_rev(is_close(thresh), close[i]);
    }
    assert forall|i: int| 0 <= i < data.far(thresh).len() implies has_far_member(
        data.members,
        #[trigger] data.far(thresh)[i],
        thresh,
    ) by {
        data.members.lemma_filter_pred(is_far(thresh), i);
        assert(far.contains(far[i]));
        data.members.lemma_filter_contains_rev(is_far(thresh), far[i]);
        let j = choose|j: int| 0 <= j < data.members.len() && data.members[j] == far[i];
        assert(data.members[j].0 == data.far(thresh)[i]);
    }
}

/// Where no member is nearer than the threshold, `split` keeps none and all
/// of them leave, in their order.
pub proof fn split_without_close_members(data: CoveredView, thresh: u32)
    requires
        forall|i: int| 0 <= i < data.members.len() ==> !less_than(data.members[i].1, thresh),
    ensures
        data.close(thresh).members.len() == 0,
        data.far(thresh) == indexes_of(data.members),
    decreases data.members.len(),
{
    reveal(Seq::filter);
    if data.members.len() > 0 {
        let rest = CoveredView { members: data.members.drop_last(), ..data };
        split_without_close_members(rest, thresh);
        assert(data.far(thresh) == rest.far(thresh).push(data.members.last().0));
        assert(indexes_of(data.members) == indexes_of(rest.members).push(data.members.last().0));
    } else {
        assert(data.far(thresh) == indexes_of(data.members));
    }
}

/// No distance that is zero or more is less than a threshold that is zero or
/// less: with such a threshold `split` lets every such member leave.
pub proof fn nothing_is_nearer_than_zero(dist: u32, thresh: u32)
    requires
        is_nan(dist) || order_key(dist) >= 0,
        is_nan(thresh) || order_key(thresh) <= 0,
    ensures
        !less_than(dist, thresh),
{
}

/// What taking a center out of a pool and covering around it does, for a
/// pool in which no point stands twice, whichever member is taken and
/// whatever the distances are: the center is neither among the covered
/// points nor among those that stay; no point is in both; and the two
/// together are the pool without the center.
pub proof fn pick_center_divides_pool(
    pool: Seq<PointIndex>,
    position: int,
    dists: Seq<u32>,
    radius: u32,
)
    requires
        pool.no_duplicates(),
        0 <= position < pool.len(),
        dists.len() == pool.len() - 1,
    ensures
        ({
            let center = pool[position];
            let rest = CoveredView {
                center_index: center,
                members: with_dists(pool.remove(position), dists),
            };
            let close = indexes_of(rest.close(radius).members);
            let far = rest.far(radius);
            &&& !close.contains(center)
            &&& !far.contains(center)
            &&& forall|x: PointIndex| !(close.contains(x) && far.contains(x))
            &&& forall|x: PointIndex|
                (close.contains(x) || far.contains(x)) <==> (pool.contains(x) && x != center)
            &&& close.len() + far.len() == pool.len() - 1
        }),
{
    let center = pool[position];
    let others = pool.remove(position);
    let members = with_dists(others, dists);
    let near = members.filter(is_close(radius));
    let beyond = members.filter(is_far(radius));
    let close = indexes_of(near);
    let far = indexes_of(beyond);
    division_keeps_count(members, radius);
    // What stands in either part stands among the others, with its distance.
    assert forall|x: PointIndex| close.contains(x) implies exists|j: int|
        0 <= j < others.len() && others[j] == x && less_than(dists[j], radius) by {
        let i = choose|i: int| 0 <= i < close.len() && close[i] == x;
        members.lemma_filter_pred(is_close(radius), i);
        assert(near.contains(near[i]));
        members.lemma_filter_contains_rev(is_close(radius), near[i]);
        let j = choose|j: int| 0 <= j < members.len() && members[j] == near[i];
        assert(others[j] == x && less_than(dists[j], radius));
    }
    assert forall|x: PointIndex| far.contains(x) implies exists|j: int|
        0 <= j < others.len() && others[j] == x && !less_than(dists[j], radius) by {
        let i = choose|i: int| 0 <= i < far.len() && far[i] == x;
        members.lemma_filter_pred(is_far(radius), i);
        assert(beyond.contains(beyond[i]));
        members.lemma_filter_contains_rev(is_far(radius), beyond[i]);
        let j = choose|j: int| 0 <= j < members.len() && members[j] == beyond[i];
        assert(others[j] == x && !less_than(dists[j], radius));
    }
    // The others are the pool without the place of the center.
    assert forall|j: int| 0 <= j < others.len() implies others[j] != center && pool.contains(
        #[trigger] others[j],
    ) by {
        if j < position {
            assert(others[j] == pool[j]);
        } else {
            assert(others[j] == pool[j + 1]);
        }
    }
    assert forall|x: PointIndex| pool.contains(x) && x != center implies close.contains(x)
        || far.contains(x) by {
        let p = choose|p: int| 0 <= p < pool.len() && pool[p] == x;
        let j = if p < position {
            p
        } else {
            p - 1
        };
        assert(others[j] == x);
        assert(members[j] == (x, dists[j]));
        if less_than(dists[j], radius) {
            members.lemma_filter_contains(is_close(radius), j);
            let i = choose|i: int| 0 <= i < near.len() && near[i] == members[j];
            assert(close[i] == x);
        } else {
            members.lemma_filter_contains(is_far(radius), j);
            let i = choose|i: int| 0 <= i < beyond.len() && beyond[i] == members[j];
            assert(far[i] == x);
        }
    }
    assert forall|x: PointIndex| !(close.contains(x) && far.contains(x)) by {
        if close.contains(x) && far.contains(x) {
            let a = choose|j: int|
                0 <= j < others.len() && others[j] == x && less_than(dists[j], radius);
            let b = choose|j: int|
                0 <= j < others.len() && others[j] == x && !less_than(dists[j], radius);
            let pa = if a < position {
                a
            } else {
                a + 1
            };
            let pb = if b < position {
                b
            } else {
                b + 1
            };
            assert(pool[pa] == x && pool[pb] == x);
        }
    }
}

/// What `max_distance` returns is a number as large as every distance that
/// is one, and it is negative infinity or the distance of a member.
pub proof fn farthest_is_an_upper_bound(members: Seq<Member>)
    ensures
        !is_nan(farthest(members)),
        forall|i: int|
            0 <= i < members.len() ==> !less_than(farthest(members), (#[trigger] members[i]).1),
        farthest(members) == NEG_INFINITY || exists|i: int|
            0 <= i < members.len() && (#[trigger] members[i]).1 == farthest(members),
    decreases members.len(),
{
    if members.len() > 0 {
        let rest = members.drop_last();
        farthest_is_an_upper_bound(rest);
        assert forall|i: int| 0 <= i < members.len() implies !less_than(
            farthest(members),
            (#[trigger] members[i]).1,
        ) by {
            if i < members.len() - 1 {
                assert(rest[i] == members[i]);
            }
        }
        if farthest(members) != NEG_INFINITY {
            if farthest(members) == members.last().1 {
                assert(members[members.len() - 1].1 == farthest(members));
            } else {
                let i = choose|i: int| 0 <= i < rest.len() && (#[trigger] rest[i]).1 == farthest(rest);
                assert(members[i].1 == farthest(members));
            }
        }
    }
}

} // verus!
