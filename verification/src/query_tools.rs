//! What a nearest-neighbour query carries from node to node: the best
//! points found so far, at most `k` of them, and the nodes that wait to be
//! expanded.

use crate::distance::{key, order_key};
use crate::{NodeAddress, PointIndex};
use vstd::prelude::*;

verus! {

/// A point offered as a neighbour: the bits of its distance to the query
/// point, then its index.
pub type Candidate = (u32, PointIndex);

/// A node that waits to be expanded.
#[derive(Debug)]
pub struct QueryAddress {
    /// The node.
    pub address: NodeAddress,
    /// Bits of the distance from the query point to the center of the node.
    pub dist_to_center: u32,
    /// The node that offered it, where that is told.
    pub parent: Option<NodeAddress>,
}

/// The state of a query.
#[derive(Debug)]
pub struct KnnQueryHeap {
    k: usize,
    scale_base: u32,
    best: Vec<Candidate>,
    nodes: Vec<QueryAddress>,
}

/// What a `KnnQueryHeap` holds.
pub struct HeapView {
    /// How many points are kept at most.
    pub k: nat,
    /// Bits of the base of the scales.
    pub scale_base: u32,
    /// The points kept, nearest first.
    pub best: Seq<Candidate>,
    /// The nodes that wait, in the order they were offered.
    pub nodes: Seq<QueryAddress>,
}

/// The shorter of two lengths: how far two aligned lists go together.
pub open spec fn common_len(a: nat, b: nat) -> nat {
    if a <= b {
        a
    } else {
        b
    }
}

/// Candidates stand in order when no distance is followed by a nearer one.
pub open spec fn in_order(s: Seq<Candidate>) -> bool {
    forall|i: int, j: int|
        #![trigger s[i], s[j]]
        0 <= i < j < s.len() ==> order_key(s[i].0) <= order_key(s[j].0)
}

/// Where a candidate at `dist` goes in: behind the last one that is not
/// farther than it.
pub open spec fn slot(s: Seq<Candidate>, dist: u32) -> nat
    decreases s.len(),
{
    if s.len() == 0 {
        0
    } else if order_key(s.last().0) <= order_key(dist) {
        s.len()
    } else {
        slot(s.drop_last(), dist)
    }
}

/// The first `k` of a list, or all of it if it has no more.
pub open spec fn cut(s: Seq<Candidate>, k: nat) -> Seq<Candidate> {
    if s.len() > k {
        s.take(k as int)
    } else {
        s
    }
}

/// The list after one candidate is offered: it goes into its slot, and what
/// then stands beyond the first `k` is dropped.
pub open spec fn offer(s: Seq<Candidate>, k: nat, c: Candidate) -> Seq<Candidate> {
    cut(s.insert(slot(s, c.0) as int, c), k)
}

/// The list after the first `n` points of two aligned lists are offered, one
/// after the other.
pub open spec fn offer_first(
    s: Seq<Candidate>,
    k: nat,
    indexes: Seq<PointIndex>,
    dists: Seq<u32>,
    n: nat,
) -> Seq<Candidate>
    decreases n,
{
    if n == 0 {
        s
    } else {
        offer(
            offer_first(s, k, indexes, dists, (n - 1) as nat),
            k,
            (dists[n - 1], indexes[n - 1]),
        )
    }
}

/// The list after the points of two aligned lists are offered, as far as
/// both lists reach.
pub open spec fn offer_each(
    s: Seq<Candidate>,
    k: nat,
    indexes: Seq<PointIndex>,
    dists: Seq<u32>,
) -> Seq<Candidate> {
    offer_first(s, k, indexes, dists, common_len(indexes.len(), dists.len()))
}

/// The entries that stand for the nodes of two aligned lists, as far as both
/// lists reach, each with the same parent.
pub open spec fn queued(
    addresses: Seq<NodeAddress>,
    dists: Seq<u32>,
    parent: Option<NodeAddress>,
) -> Seq<QueryAddress> {
    Seq::new(
        common_len(addresses.len(), dists.len()),
        |i: int| QueryAddress { address: addresses[i], dist_to_center: dists[i], parent },
    )
}

impl HeapView {
    /// What holds of every query: the points kept stand in order, and they
    /// are at most `k`.
    pub open spec fn well_formed(self) -> bool {
        in_order(self.best) && self.best.len() <= self.k
    }

    /// The state after points are offered.
    pub open spec fn push_outliers(self, indexes: Seq<PointIndex>, dists: Seq<u32>) -> HeapView {
        HeapView { best: offer_each(self.best, self.k, indexes, dists), ..self }
    }

    /// The state after nodes are offered.
    pub open spec fn push_nodes(
        self,
        addresses: Seq<NodeAddress>,
        dists: Seq<u32>,
        parent: Option<NodeAddress>,
    ) -> HeapView {
        HeapView { nodes: self.nodes + queued(addresses, dists, parent), ..self }
    }
}

/// A slot lies within the list; behind it every candidate is farther than
/// `dist`, and just before it stands one that is not. In an ordered list
/// none before it is farther.
pub proof fn slot_divides(s: Seq<Candidate>, dist: u32)
    ensures
        slot(s, dist) <= s.len(),
        forall|i: int|
            slot(s, dist) <= i < s.len() ==> order_key(dist) < order_key((#[trigger] s[i]).0),
        slot(s, dist) > 0 ==> order_key(s[slot(s, dist) - 1].0) <= order_key(dist),
        in_order(s) ==> forall|i: int|
            0 <= i < slot(s, dist) ==> order_key((#[trigger] s[i]).0) <= order_key(dist),
    decreases s.len(),
{
    if s.len() > 0 && order_key(s.last().0) > order_key(dist) {
        slot_divides(s.drop_last(), dist);
        assert forall|i: int| slot(s, dist) <= i < s.len() implies order_key(dist) < order_key(
            (#[trigger] s[i]).0,
        ) by {
            if i < s.len() - 1 {
                assert(s[i] == s.drop_last()[i]);
            }
        }
        if in_order(s) {
            assert(in_order(s.drop_last())) by {
                assert forall|i: int, j: int|
                    #![trigger s.drop_last()[i], s.drop_last()[j]]
                    0 <= i < j < s.drop_last().len() implies order_key(s.drop_last()[i].0)
                    <= order_key(s.drop_last()[j].0) by {
                    assert(s.drop_last()[i] == s[i]);
                    assert(s.drop_last()[j] == s[j]);
                }
            }
            assert forall|i: int| 0 <= i < slot(s, dist) implies order_key((#[trigger] s[i]).0)
                <= order_key(dist) by {
                assert(s[i] == s.drop_last()[i]);
            }
        }
    } else if s.len() > 0 {
        if in_order(s) {
            assert forall|i: int| 0 <= i < slot(s, dist) implies order_key((#[trigger] s[i]).0)
                <= order_key(dist) by {
                if i < s.len() - 1 {
                    assert(order_key(s[i].0) <= order_key(s[s.len() - 1].0));
                }
            }
        }
    }
}

/// Offering a candidate to an ordered list leaves an ordered list, and one
/// of at most `k` candidates if it had no more before.
pub proof fn offer_keeps_order(s: Seq<Candidate>, k: nat, c: Candidate)
    requires
        in_order(s),
    ensures
        in_order(offer(s, k, c)),
        s.len() <= k ==> offer(s, k, c).len() <= k,
        offer(s, k, c).len() <= s.len() + 1,
        s.len() < k ==> offer(s, k, c).len() == s.len() + 1,
        s.len() == k ==> offer(s, k, c).len() == k,
{
    slot_divides(s, c.0);
    let p = slot(s, c.0) as int;
    let t = s.insert(p, c);
    assert(in_order(t)) by {
        assert forall|i: int, j: int| #![trigger t[i], t[j]] 0 <= i < j < t.len() implies order_key(
            t[i].0,
        ) <= order_key(t[j].0) by {
            let a = if i < p {
                i
            } else {
                i - 1
            };
            let b = if j < p {
                j
            } else {
                j - 1
            };
            if i != p {
                assert(t[i] == s[a]);
            }
            if j != p {
                assert(t[j] == s[b]);
            }
            if i != p && j != p {
                assert(order_key(s[a].0) <= order_key(s[b].0));
            }
        }
    }
    let u = offer(s, k, c);
    assert forall|i: int, j: int| #![trigger u[i], u[j]] 0 <= i < j < u.len() implies order_key(
        u[i].0,
    ) <= order_key(u[j].0) by {
        assert(u[i] == t[i]);
        assert(u[j] == t[j]);
    }
}

impl View for KnnQueryHeap {
    type V = HeapView;

    closed spec fn view(&self) -> HeapView {
        HeapView {
            k: self.k as nat,
            scale_base: self.scale_base,
            best: self.best@,
            nodes: self.nodes@,
        }
    }
}

/// Offers one candidate to a list of at most `k`.
fn offer_into(best: &mut Vec<Candidate>, k: usize, dist: u32, index: PointIndex)
    requires
        in_order(old(best)@),
        old(best)@.len() <= k,
    ensures
        final(best)@ == offer(old(best)@, k as nat, (dist, index)),
        in_order(final(best)@),
        final(best)@.len() <= k,
{
    let d: i64 = key(dist);
    let mut p: usize = best.len();
    assert(best@.take(p as int) == best@);
    while p > 0 && key(best[p - 1].0) > d
        invariant
            p <= best@.len(),
            d == order_key(dist),
            slot(best@, dist) == slot(best@.take(p as int), dist),
        decreases p,
    {
        assert(best@.take(p as int).drop_last() == best@.take(p - 1));
        p = p - 1;
    }
    proof {
        offer_keeps_order(best@, k as nat, (dist, index));
        assert(best@.take(best@.len() as int) == best@);
        if p > 0 {
            assert(best@.take(p as int).last() == best@[p - 1]);
        }
    }
    if p < k {
        best.insert(p, (dist, index));
        if best.len() > k {
            best.truncate(k);
        }
    } else {
        // The candidate is as far as all `k` that are kept, or farther.
        assert(best@.insert(p as int, (dist, index)).take(k as int) == best@);
    }
}

impl KnnQueryHeap {
    #[verifier::type_invariant]
    spec fn kept_in_order(self) -> bool {
        in_order(self.best@) && self.best@.len() <= self.k
    }

    /// Creates the state of a query for the `k` nearest points, in a tree
    /// whose scales have the base `scale_base`.
    pub fn new(k: usize, scale_base: u32) -> (heap: KnnQueryHeap)
        ensures
            heap@ == (HeapView {
                k: k as nat,
                scale_base,
                best: Seq::empty(),
                nodes: Seq::empty(),
            }),
    {
        KnnQueryHeap { k, scale_base, best: Vec::new(), nodes: Vec::new() }
    }

    /// Offers points with their distances. Of all points offered so far the
    /// `k` nearest stay, nearest first; among equally near ones the one
    /// offered first comes first and stays longest.
    pub fn push_outliers(&mut self, indexes: &[PointIndex], dists: &[u32])
        ensures
            final(self)@ == old(self)@.push_outliers(indexes@, dists@),
    {
        proof {
            use_type_invariant(&*self);
        }
        let k: usize = self.k;
        let count: usize = if indexes.len() <= dists.len() {
            indexes.len()
        } else {
            dists.len()
        };
        let mut best: Vec<Candidate> = Vec::new();
        core::mem::swap(&mut self.best, &mut best);
        let mut i: usize = 0;
        while i < count
            invariant
                i <= count,
                count == common_len(indexes@.len(), dists@.len()),
                in_order(best@),
                best@.len() <= k,
                best@ == offer_first(old(self)@.best, k as nat, indexes@, dists@, i as nat),
            decreases count - i,
        {
            offer_into(&mut best, k, dists[i], indexes[i]);
            i = i + 1;
        }
        self.best = best;
    }

    /// Offers nodes with the distances to their centers, and the node that
    /// offers them. They wait in the order they come.
    pub fn push_nodes(
        &mut self,
        addresses: &[NodeAddress],
        dists: &[u32],
        parent: Option<NodeAddress>,
    )
        ensures
            final(self)@ == old(self)@.push_nodes(addresses@, dists@, parent),
    {
        proof {
            use_type_invariant(&*self);
        }
        let count: usize = if addresses.len() <= dists.len() {
            addresses.len()
        } else {
            dists.len()
        };
        let mut nodes: Vec<QueryAddress> = Vec::new();
        core::mem::swap(&mut self.nodes, &mut nodes);
        let mut i: usize = 0;
        while i < count
            invariant
                i <= count,
                count == common_len(addresses@.len(), dists@.len()),
                nodes@ == old(self)@.nodes + queued(addresses@, dists@, parent).take(i as int),
            decreases count - i,
        {
            nodes.push(QueryAddress { address: addresses[i], dist_to_center: dists[i], parent });
            i = i + 1;
        }
        assert(queued(addresses@, dists@, parent).take(i as int) == queued(
            addresses@,
            dists@,
            parent,
        ));
        self.nodes = nodes;
    }

    /// How many points the query keeps at most.
    pub fn k(&self) -> (k: usize)
        ensures
            k == self@.k,
    {
        self.k
    }

    /// Bits of the base of the scales.
    pub fn scale_base(&self) -> (scale_base: u32)
        ensures
            scale_base == self@.scale_base,
    {
        self.scale_base
    }

    /// The nodes that wait to be expanded, in the order they were offered.
    pub fn nodes(&self) -> (nodes: &[QueryAddress])
        ensures
            nodes@ == self@.nodes,
    {
        self.nodes.as_slice()
    }

    /// How many nodes wait to be expanded.
    pub fn node_len(&self) -> (len: usize)
        ensures
            len == self@.nodes.len(),
    {
        self.nodes.len()
    }

    /// How many points are kept.
    pub fn len(&self) -> (len: usize)
        ensures
            len == self@.best.len(),
            self@.well_formed(),
    {
        proof {
            use_type_invariant(self);
        }
        self.best.len()
    }

    /// The points kept, each with its distance, nearest first.
    pub fn unpack(self) -> (result: Vec<Candidate>)
        ensures
            result@ == self@.best,
            self@.well_formed(),
    {
        proof {
            use_type_invariant(&self);
        }
        self.best
    }
}

/// The points of two aligned lists as candidates, in the order of the lists
/// and as far as both reach.
pub open spec fn offers(indexes: Seq<PointIndex>, dists: Seq<u32>) -> Seq<Candidate> {
    Seq::new(common_len(indexes.len(), dists.len()), |i: int| (dists[i], indexes[i]))
}

/// All the points of two aligned lists in the order of their distances: what
/// a query keeps of them when it has room for every one.
pub open spec fn ranked(indexes: Seq<PointIndex>, dists: Seq<u32>) -> Seq<Candidate> {
    offer_each(Seq::empty(), common_len(indexes.len(), dists.len()), indexes, dists)
}

/// The slot of a distance in the first `m` candidates of an ordered list is
/// its slot in the whole list, or `m` where that lies further back.
proof fn slot_in_prefix(s: Seq<Candidate>, dist: u32, m: nat)
    requires
        in_order(s),
        m <= s.len(),
    ensures
        slot(s.take(m as int), dist) == if slot(s, dist) <= m {
            slot(s, dist)
        } else {
            m
        },
    decreases m,
{
    slot_divides(s, dist);
    let t = s.take(m as int);
    if m > 0 {
        assert(t.last() == s[m - 1]);
        if order_key(t.last().0) <= order_key(dist) {
            // Nothing at or behind the slot of the whole list is this near.
            assert(slot(s, dist) >= m);
        } else {
            assert(t.drop_last() == s.take(m - 1));
            slot_in_prefix(s, dist, (m - 1) as nat);
            if slot(s, dist) >= m {
                assert(order_key(s[m - 1].0) <= order_key(dist));
            }
        }
    }
}

/// To offer a candidate and then cut at a smaller bound is to cut first and
/// then offer under that bound.
proof fn cut_then_offer(s: Seq<Candidate>, k: nat, room: nat, c: Candidate)
    requires
        in_order(s),
        k <= room,
    ensures
        cut(offer(s, room, c), k) == offer(cut(s, k), k, c),
{
    slot_divides(s, c.0);
    let p = slot(s, c.0);
    if s.len() > k {
        slot_in_prefix(s, c.0, k);
        let left = cut(offer(s, room, c), k);
        let right = offer(cut(s, k), k, c);
        assert(left.len() == k);
        assert(right.len() == k);
        assert forall|i: int| 0 <= i < k implies left[i] == right[i] by {
            assert(left[i] == s.insert(p as int, c)[i]);
            if p <= k {
                assert(right[i] == s.take(k as int).insert(p as int, c)[i]);
            } else {
                assert(right[i] == s.take(k as int).insert(k as int, c)[i]);
            }
        }
        assert(left == right);
    } else {
        assert(cut(s, k) == s);
        assert(cut(offer(s, room, c), k) == cut(s.insert(p as int, c), k));
    }
}

/// A run of offers keeps the order of an ordered list, and each offer adds
/// one candidate until the list holds `k`.
pub proof fn offers_keep_order(
    s: Seq<Candidate>,
    k: nat,
    indexes: Seq<PointIndex>,
    dists: Seq<u32>,
    n: nat,
)
    requires
        in_order(s),
    ensures
        in_order(offer_first(s, k, indexes, dists, n)),
        offer_first(s, k, indexes, dists, n).len() <= s.len() + n,
        s.len() <= k ==> offer_first(s, k, indexes, dists, n).len() == if s.len() + n <= k {
            s.len() + n
        } else {
            k
        },
    decreases n,
{
    if n > 0 {
        offers_keep_order(s, k, indexes, dists, (n - 1) as nat);
        offer_keeps_order(
            offer_first(s, k, indexes, dists, (n - 1) as nat),
            k,
            (dists[n - 1], indexes[n - 1]),
        );
    }
}

/// A smaller bound only cuts: what a run of offers leaves under the bound
/// `k` is the first `k` of what it leaves under any larger bound.
proof fn bound_only_cuts(
    s: Seq<Candidate>,
    k: nat,
    room: nat,
    indexes: Seq<PointIndex>,
    dists: Seq<u32>,
    n: nat,
)
    requires
        in_order(s),
        k <= room,
    ensures
        cut(offer_first(s, room, indexes, dists, n), k) == offer_first(
            cut(s, k),
            k,
            indexes,
            dists,
            n,
        ),
    decreases n,
{
    if n > 0 {
        let before = offer_first(s, room, indexes, dists, (n - 1) as nat);
        offers_keep_order(s, room, indexes, dists, (n - 1) as nat);
        bound_only_cuts(s, k, room, indexes, dists, (n - 1) as nat);
        cut_then_offer(before, k, room, (dists[n - 1], indexes[n - 1]));
    }
}

/// With room for every offer none is dropped: the candidates kept are the
/// offers, each as often as it was made.
proof fn ranked_holds_every_offer(indexes: Seq<PointIndex>, dists: Seq<u32>, n: nat)
    requires
        n <= common_len(indexes.len(), dists.len()),
    ensures
        offer_first(
            Seq::empty(),
            common_len(indexes.len(), dists.len()),
            indexes,
            dists,
            n,
        ).to_multiset() == offers(indexes, dists).take(n as int).to_multiset(),
    decreases n,
{
    broadcast use vstd::seq_lib::group_to_multiset_ensures;

    let room = common_len(indexes.len(), dists.len());
    let all = offers(indexes, dists);
    if n > 0 {
        let before = offer_first(Seq::<Candidate>::empty(), room, indexes, dists, (n - 1) as nat);
        let c = (dists[n - 1], indexes[n - 1]);
        ranked_holds_every_offer(indexes, dists, (n - 1) as nat);
        offers_keep_order(Seq::<Candidate>::empty(), room, indexes, dists, (n - 1) as nat);
        slot_divides(before, c.0);
        assert(offer(before, room, c) == before.insert(slot(before, c.0) as int, c));
        assert(all.take(n as int) == all.take(n - 1).push(c));
    } else {
        assert(all.take(0) == Seq::<Candidate>::empty());
    }
}

/// Tells the candidates that stand at one place of the order of distances.
pub open spec fn at_place(place: int) -> spec_fn(Candidate) -> bool {
    |c: Candidate| order_key(c.0) == place
}

/// A candidate that goes into its slot comes behind every candidate as near
/// as itself, and the others keep their order among themselves.
proof fn slot_is_behind_ties(s: Seq<Candidate>, c: Candidate, place: int)
    requires
        in_order(s),
    ensures
        s.insert(slot(s, c.0) as int, c).filter(at_place(place)) == if order_key(c.0) == place {
            s.filter(at_place(place)).push(c)
        } else {
            s.filter(at_place(place))
        },
{
    slot_divides(s, c.0);
    let p = slot(s, c.0) as int;
    let front = s.take(p);
    let back = s.skip(p);
    let pred = at_place(place);
    assert(s == front + back);
    assert(s.insert(p, c) == front.push(c) + back);
    Seq::filter_distributes_over_add(front, back, pred);
    Seq::filter_distributes_over_add(front.push(c), back, pred);
    assert(front.push(c).filter(pred) == if pred(c) {
        front.filter(pred).push(c)
    } else {
        front.filter(pred)
    }) by {
        reveal(Seq::filter);
        assert(front.push(c).drop_last() == front);
    }
    if order_key(c.0) == place {
        if back.filter(pred).len() > 0 {
            let found = back.filter(pred)[0];
            back.lemma_filter_pred(pred, 0);
            assert(back.filter(pred).contains(found));
            back.lemma_filter_contains_rev(pred, found);
            let i = choose|i: int| 0 <= i < back.len() && back[i] == found;
            assert(back[i] == s[p + i]);
        }
        assert(back.filter(pred) == Seq::<Candidate>::empty());
        assert(front.filter(pred).push(c) + Seq::<Candidate>::empty() == front.filter(pred).push(
            c,
        ));
        assert(front.filter(pred) + Seq::<Candidate>::empty() == front.filter(pred));
    }
}

/// With room for every offer, the candidates at one distance stand in the
/// order in which they were offered.
proof fn ranked_keeps_ties(indexes: Seq<PointIndex>, dists: Seq<u32>, n: nat, place: int)
    requires
        n <= common_len(indexes.len(), dists.len()),
    ensures
        offer_first(
            Seq::empty(),
            common_len(indexes.len(), dists.len()),
            indexes,
            dists,
            n,
        ).filter(at_place(place)) == offers(indexes, dists).take(n as int).filter(
            at_place(place),
        ),
    decreases n,
{
    let room = common_len(indexes.len(), dists.len());
    let all = offers(indexes, dists);
    if n > 0 {
        let before = offer_first(Seq::<Candidate>::empty(), room, indexes, dists, (n - 1) as nat);
        let c = (dists[n - 1], indexes[n - 1]);
        ranked_keeps_ties(indexes, dists, (n - 1) as nat, place);
        offers_keep_order(Seq::<Candidate>::empty(), room, indexes, dists, (n - 1) as nat);
        slot_divides(before, c.0);
        assert(offer(before, room, c) == before.insert(slot(before, c.0) as int, c));
        slot_is_behind_ties(before, c, place);
        assert(all.take(n as int).drop_last() == all.take(n - 1));
        assert(all.take(n as int).last() == c);
        reveal(Seq::filter);
    } else {
        reveal(Seq::filter);
        assert(all.take(0) == Seq::<Candidate>::empty());
    }
}

/// What a query keeps of the points it is offered, from its start: the `k`
/// nearest of them, nearest first. They are the first `k` of the ranking of
/// all the offers; that ranking stands in order, holds each offer as often
/// as it was made, and holds the offers at one distance in the order in
/// which they were made.
pub proof fn heap_keeps_the_nearest(k: nat, indexes: Seq<PointIndex>, dists: Seq<u32>)
    ensures
        offer_each(Seq::empty(), k, indexes, dists) == cut(ranked(indexes, dists), k),
        in_order(ranked(indexes, dists)),
        ranked(indexes, dists).to_multiset() == offers(indexes, dists).to_multiset(),
        ranked(indexes, dists).len() == common_len(indexes.len(), dists.len()),
        forall|place: int|
            #![trigger at_place(place)]
            ranked(indexes, dists).filter(at_place(place)) == offers(indexes, dists).filter(
                at_place(place),
            ),
{
    let n = common_len(indexes.len(), dists.len());
    let none = Seq::<Candidate>::empty();
    assert forall|place: int| #![trigger at_place(place)] ranked(indexes, dists).filter(
        at_place(place),
    ) == offers(indexes, dists).filter(at_place(place)) by {
        ranked_keeps_ties(indexes, dists, n, place);
        assert(offers(indexes, dists).take(n as int) == offers(indexes, dists));
    }
    offers_keep_order(none, n, indexes, dists, n);
    offers_keep_order(none, k, indexes, dists, n);
    ranked_holds_every_offer(indexes, dists, n);
    assert(offers(indexes, dists).take(n as int) == offers(indexes, dists));
    if k <= n {
        bound_only_cuts(none, k, n, indexes, dists, n);
    } else {
        bound_only_cuts(none, n, k, indexes, dists, n);
    }
}

/// A run of offers reads its two lists only as far as it goes: lists that
/// agree on their first `n` places leave the same candidates.
proof fn offers_read_a_prefix(
    s: Seq<Candidate>,
    k: nat,
    indexes: Seq<PointIndex>,
    dists: Seq<u32>,
    other_indexes: Seq<PointIndex>,
    other_dists: Seq<u32>,
    n: nat,
)
    requires
        forall|j: int| 0 <= j < n ==> indexes[j] == other_indexes[j] && dists[j] == other_dists[j],
    ensures
        offer_first(s, k, indexes, dists, n) == offer_first(s, k, other_indexes, other_dists, n),
    decreases n,
{
    if n > 0 {
        offers_read_a_prefix(s, k, indexes, dists, other_indexes, other_dists, (n - 1) as nat);
    }
}

/// The second of two runs of offers goes on where the first one ended.
proof fn offers_go_on(
    s: Seq<Candidate>,
    k: nat,
    indexes: Seq<PointIndex>,
    dists: Seq<u32>,
    more_indexes: Seq<PointIndex>,
    more_dists: Seq<u32>,
    n: nat,
)
    requires
        indexes.len() == dists.len(),
        n <= common_len(more_indexes.len(), more_dists.len()),
    ensures
        offer_first(s, k, indexes + more_indexes, dists + more_dists, indexes.len() + n)
            == offer_first(offer_each(s, k, indexes, dists), k, more_indexes, more_dists, n),
    decreases n,
{
    if n > 0 {
        offers_go_on(s, k, indexes, dists, more_indexes, more_dists, (n - 1) as nat);
        assert((indexes + more_indexes)[indexes.len() + n - 1] == more_indexes[n - 1]);
        assert((dists + more_dists)[indexes.len() + n - 1] == more_dists[n - 1]);
    } else {
        offers_read_a_prefix(
            s,
            k,
            indexes + more_indexes,
            dists + more_dists,
            indexes,
            dists,
            indexes.len(),
        );
    }
}

/// Points offered in two calls are kept as if they had been offered in one
/// call, the points of the second call behind those of the first: a query
/// keeps the nearest of all the points it was offered so far.
pub proof fn two_calls_offer_as_one(
    heap: HeapView,
    indexes: Seq<PointIndex>,
    dists: Seq<u32>,
    more_indexes: Seq<PointIndex>,
    more_dists: Seq<u32>,
)
    requires
        indexes.len() == dists.len(),
    ensures
        heap.push_outliers(indexes, dists).push_outliers(more_indexes, more_dists)
            == heap.push_outliers(indexes + more_indexes, dists + more_dists),
{
    offers_go_on(
        heap.best,
        heap.k,
        indexes,
        dists,
        more_indexes,
        more_dists,
        common_len(more_indexes.len(), more_dists.len()),
    );
}

} // verus!
