//! The region quadtree: a recursive spatial index over particles confined
//! to a boundary, supporting insertion, range queries and a full reset.
//!
//! A node keeps raw points until its capacity is exhausted; the overflow
//! insertion subdivides it into four quarters that tile the boundary
//! exactly, and every later insertion is delegated to the first quarter
//! whose (inclusive) boundary contains the point. The index is rebuilt
//! from scratch every frame, so nodes hold copies of particles, never
//! long-lived references.

use vstd::prelude::*;
use vstd::seq_lib::group_filter_ensures;
use vstd::seq_lib::group_to_multiset_ensures;
use vstd::seq_lib::lemma_multiset_commutative;
use vstd::multiset::group_multiset_axioms;
use crate::geom::{Boundary, Position, lemma_quadrants_wf, lemma_quadrants_partition};
use crate::particle::Particle;

verus! {

/// The predicate a range query filters by: inclusive membership of the
/// particle's position in the query window.
pub open spec fn in_range(range: Boundary) -> spec_fn(Particle) -> bool {
    |p: Particle| range.contains_spec(p.position)
}

/// A quadtree node. `points` holds the particles accepted before the node
/// subdivided; once `is_divided` is true the four children are present and
/// every further particle is delegated to them.
pub struct QuadTree {
    pub boundary: Boundary,
    pub capacity: usize,
    pub points: Vec<Particle>,
    pub is_divided: bool,
    pub top_left: Option<Box<QuadTree>>,
    pub top_right: Option<Box<QuadTree>>,
    pub bottom_left: Option<Box<QuadTree>>,
    pub bottom_right: Option<Box<QuadTree>>,
}

/// The particles stored in an optional subtree, in visit order.
pub open spec fn opt_points(o: Option<Box<QuadTree>>) -> Seq<Particle>
    decreases o,
{
    match o {
        Some(t) => t.all_points(),
        None => Seq::empty(),
    }
}

/// A present, well-formed child on the given quarter, inheriting the
/// parent's capacity.
pub open spec fn child_wf(o: Option<Box<QuadTree>>, b: Boundary, capacity: usize) -> bool
    decreases o,
{
    match o {
        Some(t) => t.wf() && t.boundary == b && t.capacity == capacity,
        None => false,
    }
}

/// A fresh subdivision child: an empty, undivided node on the given
/// quarter.
pub open spec fn empty_leaf(o: Option<Box<QuadTree>>, b: Boundary, capacity: usize) -> bool {
    match o {
        Some(t) => {
            &&& t.boundary == b
            &&& t.capacity == capacity
            &&& !t.is_divided
            &&& t.points@.len() == 0
            &&& t.top_left is None
            &&& t.top_right is None
            &&& t.bottom_left is None
            &&& t.bottom_right is None
        },
        None => false,
    }
}

impl QuadTree {
    /// Every particle stored in this subtree, the node's own points first,
    /// then the four children north-west, north-east, south-west,
    /// south-east.
    pub open spec fn all_points(self) -> Seq<Particle>
        decreases self,
    {
        self.points@ + opt_points(self.top_left) + opt_points(self.top_right)
            + opt_points(self.bottom_left) + opt_points(self.bottom_right)
    }

    /// Well-formedness: the boundary is a proper rectangle, the capacity is
    /// positive, the node holds at most `capacity` raw points, each inside
    /// the node's boundary, and the children exist exactly when the node is
    /// divided, in which case they sit on the four exact quarters of the
    /// boundary and are themselves well formed.
    pub open spec fn wf(self) -> bool
        decreases self,
    {
        &&& self.boundary.wf()
        &&& 1 <= self.capacity
        &&& self.points@.len() <= self.capacity
        &&& (forall|i: int|
            0 <= i < self.points@.len() ==> self.boundary.contains_spec(
                #[trigger] self.points@[i].position,
            ))
        &&& (if self.is_divided {
            &&& child_wf(self.top_left, self.boundary.nw_spec(), self.capacity)
            &&& child_wf(self.top_right, self.boundary.ne_spec(), self.capacity)
            &&& child_wf(self.bottom_left, self.boundary.sw_spec(), self.capacity)
            &&& child_wf(self.bottom_right, self.boundary.se_spec(), self.capacity)
        } else {
            &&& self.top_left is None
            &&& self.top_right is None
            &&& self.bottom_left is None
            &&& self.bottom_right is None
        })
    }

    /// Builds an empty node. A zero capacity or a malformed boundary is a
    /// configuration error and is rejected here, at construction.
    pub fn new(boundary: Boundary, capacity: usize) -> (t: QuadTree)
        requires
            boundary.wf(),
            1 <= capacity,
        ensures
            t.wf(),
            t.boundary == boundary,
            t.capacity == capacity,
            !t.is_divided,
            t.points@ == Seq::<Particle>::empty(),
            t.all_points() == Seq::<Particle>::empty(),
    {
        let t = QuadTree {
            boundary,
            capacity,
            points: Vec::new(),
            is_divided: false,
            top_left: None,
            top_right: None,
            bottom_left: None,
            bottom_right: None,
        };
        proof {
            assert(t.all_points() =~= Seq::<Particle>::empty());
        }
        t
    }

    /// Inclusive test of a point against this node's boundary.
    pub fn within_boundary(&self, point: &Position) -> (r: bool)
        requires
            self.boundary.wf(),
        ensures
            r == self.boundary.contains_spec(*point),
    {
        self.boundary.contains(point)
    }

    /// Inclusive overlap test between a query window and this node's
    /// boundary.
    pub fn does_range_overlap(&self, range: &Boundary) -> (r: bool)
        requires
            self.boundary.wf(),
            range.wf(),
        ensures
            r == range.overlaps_spec(self.boundary),
    {
        range.overlaps(&self.boundary)
    }

    /// Splits an undivided node into four children on the exact quarters of
    /// its boundary, each empty and inheriting the parent's capacity. The
    /// node's own points stay where they are.
    pub fn subdivide(&mut self)
        requires
            old(self).wf(),
            !old(self).is_divided,
        ensures
            final(self).wf(),
            final(self).is_divided,
            final(self).boundary == old(self).boundary,
            final(self).capacity == old(self).capacity,
            final(self).points == old(self).points,
            final(self).all_points() == old(self).all_points(),
            empty_leaf(final(self).top_left, old(self).boundary.nw_spec(), old(self).capacity),
            empty_leaf(final(self).top_right, old(self).boundary.ne_spec(), old(self).capacity),
            empty_leaf(final(self).bottom_left, old(self).boundary.sw_spec(), old(self).capacity),
            empty_leaf(final(self).bottom_right, old(self).boundary.se_spec(), old(self).capacity),
    {
        proof {
            lemma_quadrants_wf(self.boundary);
        }
        let x = self.boundary.x;
        let y = self.boundary.y;
        let w = self.boundary.width;
        let h = self.boundary.height;

        let top_left = QuadTree::new(
            Boundary { x, y, width: w / 2, height: h / 2 },
            self.capacity,
        );
        let top_right = QuadTree::new(
            Boundary { x: x + w / 2, y, width: w - w / 2, height: h / 2 },
            self.capacity,
        );
        let bottom_left = QuadTree::new(
            Boundary { x, y: y + h / 2, width: w / 2, height: h - h / 2 },
            self.capacity,
        );
        let bottom_right = QuadTree::new(
            Boundary { x: x + w / 2, y: y + h / 2, width: w - w / 2, height: h - h / 2 },
            self.capacity,
        );

        self.top_left = Some(Box::new(top_left));
        self.top_right = Some(Box::new(top_right));
        self.bottom_left = Some(Box::new(bottom_left));
        self.bottom_right = Some(Box::new(bottom_right));
        self.is_divided = true;
        proof {
            assert(self.all_points() =~= old(self).all_points());
        }
    }

    /// Attempts to place a particle into this subtree.
    ///
    /// A particle outside the boundary is handed back unchanged and the
    /// tree is untouched. A particle inside the boundary is always stored,
    /// exactly once: an undivided node with room appends it to its own
    /// list; a full undivided node subdivides first; a divided node
    /// delegates to its children in the fixed order north-west,
    /// north-east, south-west, south-east, and the first child whose
    /// quarter contains the point accepts it.
    pub fn insert(&mut self, particle: Particle) -> (r: Option<Particle>)
        requires
            old(self).wf(),
        ensures
            final(self).wf(),
            final(self).boundary == old(self).boundary,
            final(self).capacity == old(self).capacity,
            !old(self).boundary.contains_spec(particle.position) ==> r == Some(particle)
                && *final(self) == *old(self),
            old(self).boundary.contains_spec(particle.position) ==> (r is None)
                && final(self).all_points().to_multiset()
                == old(self).all_points().to_multiset().insert(particle),
            old(self).boundary.contains_spec(particle.position) && !old(self).is_divided
                && old(self).points@.len() < old(self).capacity ==> !final(self).is_divided
                && final(self).points@ == old(self).points@.push(particle),
            old(self).boundary.contains_spec(particle.position) && !old(self).is_divided
                && old(self).points@.len() == old(self).capacity ==> final(self).is_divided,
            old(self).is_divided ==> final(self).is_divided,
        decreases *old(self),
    {
        if !self.boundary.contains(&particle.position) {
            return Some(particle);
        }
        if !self.is_divided {
            if self.points.len() < self.capacity {
                proof {
                    assert(old(self).all_points() =~= old(self).points@);
                }
                self.points.push(particle);
                proof {
                    broadcast use group_to_multiset_ensures;

                    assert(self.all_points() =~= self.points@);
                }
                return None;
            }
            self.subdivide();
            let ghost mid = *self;
            proof {
                lemma_quadrants_partition(self.boundary);
                assert(opt_points(mid.top_left) =~= Seq::<Particle>::empty());
                assert(opt_points(mid.top_right) =~= Seq::<Particle>::empty());
                assert(opt_points(mid.bottom_left) =~= Seq::<Particle>::empty());
                assert(opt_points(mid.bottom_right) =~= Seq::<Particle>::empty());
            }
            let mut r = Self::try_place(&mut self.top_left, particle);
            if r.is_some() {
                r = Self::try_place(&mut self.top_right, particle);
            }
            if r.is_some() {
                r = Self::try_place(&mut self.bottom_left, particle);
            }
            if r.is_some() {
                r = Self::try_place(&mut self.bottom_right, particle);
            }
            proof {
                lemma_insert_one_branch(mid, *self, particle);
            }
            return r;
        }
        proof {
            lemma_quadrants_partition(self.boundary);
        }
        let mut r = Self::insert_child(&mut self.top_left, particle);
        if r.is_some() {
            r = Self::insert_child(&mut self.top_right, particle);
        }
        if r.is_some() {
            r = Self::insert_child(&mut self.bottom_left, particle);
        }
        if r.is_some() {
            r = Self::insert_child(&mut self.bottom_right, particle);
        }
        proof {
            lemma_insert_one_branch(*old(self), *self, particle);
        }
        r
    }

    /// Places a particle directly into a fresh, undivided child with room,
    /// if the child's quarter contains it.
    fn try_place(child: &mut Option<Box<QuadTree>>, particle: Particle) -> (r: Option<Particle>)
        requires
            old(child).is_some(),
            old(child).unwrap().wf(),
            !old(child).unwrap().is_divided,
            old(child).unwrap().points@.len() < old(child).unwrap().capacity,
        ensures
            final(child).is_some(),
            final(child).unwrap().wf(),
            !final(child).unwrap().is_divided,
            final(child).unwrap().boundary == old(child).unwrap().boundary,
            final(child).unwrap().capacity == old(child).unwrap().capacity,
            old(child).unwrap().boundary.contains_spec(particle.position) ==> r is None
                && opt_points(*final(child)).to_multiset() == opt_points(
                *old(child),
            ).to_multiset().insert(particle),
            !old(child).unwrap().boundary.contains_spec(particle.position) ==> r == Some(particle)
                && *final(child) == *old(child),
    {
        let mut c = child.take().unwrap();
        if c.boundary.contains(&particle.position) {
            proof {
                broadcast use group_to_multiset_ensures;

                assert(c.all_points() =~= c.points@);
            }
            c.points.push(particle);
            proof {
                assert(c.all_points() =~= c.points@);
            }
            *child = Some(c);
            None
        } else {
            *child = Some(c);
            Some(particle)
        }
    }

    /// Delegates an insertion to a present child subtree.
    fn insert_child(child: &mut Option<Box<QuadTree>>, particle: Particle) -> (r: Option<Particle>)
        requires
            old(child).is_some(),
            old(child).unwrap().wf(),
        ensures
            final(child).is_some(),
            final(child).unwrap().wf(),
            final(child).unwrap().boundary == old(child).unwrap().boundary,
            final(child).unwrap().capacity == old(child).unwrap().capacity,
            old(child).unwrap().boundary.contains_spec(particle.position) ==> r is None
                && opt_points(*final(child)).to_multiset() == opt_points(
                *old(child),
            ).to_multiset().insert(particle),
            !old(child).unwrap().boundary.contains_spec(particle.position) ==> r == Some(particle)
                && *final(child) == *old(child),
        decreases *old(child),
    {
        let mut c = child.take().unwrap();
        let r = c.insert(particle);
        *child = Some(c);
        r
    }

    /// Collects every stored particle whose position lies inside the query
    /// window, descending only into nodes whose boundary overlaps it.
    pub fn query(&self, range: &Boundary) -> (found: Vec<Particle>)
        requires
            self.wf(),
            range.wf(),
        ensures
            found@ == self.all_points().filter(in_range(*range)),
        decreases self,
    {
        let mut found: Vec<Particle> = Vec::new();
        if !self.does_range_overlap(range) {
            proof {
                lemma_no_overlap_filter_empty(*self, *range);
            }
            return found;
        }
        let ghost pred = in_range(*range);
        let mut i: usize = 0;
        while i < self.points.len()
            invariant
                self.wf(),
                range.wf(),
                i <= self.points@.len(),
                found@ == self.points@.take(i as int).filter(pred),
                pred == in_range(*range),
            decreases self.points@.len() - i,
        {
            proof {
                reveal(Seq::filter);
                assert(self.points@.take(i as int + 1).drop_last() =~= self.points@.take(i as int));
                assert(self.points@.take(i as int + 1).last() == self.points@[i as int]);
            }
            if range.contains(&self.points[i].position) {
                found.push(self.points[i]);
            }
            i += 1;
        }
        proof {
            assert(self.points@.take(self.points@.len() as int) =~= self.points@);
        }
        if self.is_divided {
            match &self.top_left {
                Some(c) => {
                    let mut sub = c.query(range);
                    found.append(&mut sub);
                },
                None => {},
            }
            match &self.top_right {
                Some(c) => {
                    let mut sub = c.query(range);
                    found.append(&mut sub);
                },
                None => {},
            }
            match &self.bottom_left {
                Some(c) => {
                    let mut sub = c.query(range);
                    found.append(&mut sub);
                },
                None => {},
            }
            match &self.bottom_right {
                Some(c) => {
                    let mut sub = c.query(range);
                    found.append(&mut sub);
                },
                None => {},
            }
        }
        proof {
            broadcast use vstd::prelude::Seq::filter_distributes_over_add;

            if !self.is_divided {
                assert(opt_points(self.top_left).filter(pred) =~= Seq::<Particle>::empty()) by {
                    reveal(Seq::filter);
                }
                assert(opt_points(self.top_right).filter(pred) =~= Seq::<Particle>::empty()) by {
                    reveal(Seq::filter);
                }
                assert(opt_points(self.bottom_left).filter(pred) =~= Seq::<Particle>::empty()) by {
                    reveal(Seq::filter);
                }
                assert(opt_points(self.bottom_right).filter(pred) =~= Seq::<Particle>::empty())
                    by {
                    reveal(Seq::filter);
                }
            }
            assert(found@ =~= self.all_points().filter(pred));
        }
        found
    }

    /// Resets the node and releases all descendants: afterwards the node
    /// is undivided, holds no points, and keeps its boundary and capacity.
    pub fn clear_quadtree(&mut self)
        requires
            old(self).wf(),
        ensures
            final(self).wf(),
            final(self).boundary == old(self).boundary,
            final(self).capacity == old(self).capacity,
            !final(self).is_divided,
            final(self).points@ == Seq::<Particle>::empty(),
            final(self).all_points() == Seq::<Particle>::empty(),
    {
        self.points.clear();
        self.is_divided = false;
        self.top_left = None;
        self.top_right = None;
        self.bottom_left = None;
        self.bottom_right = None;
        proof {
            assert(self.all_points() =~= Seq::<Particle>::empty());
        }
    }
}

/// The multiset of stored particles splits into the node's own points and
/// the four children's contents.
proof fn lemma_all_points_split(t: QuadTree)
    ensures
        t.all_points().to_multiset() == t.points@.to_multiset().add(
            opt_points(t.top_left).to_multiset(),
        ).add(opt_points(t.top_right).to_multiset()).add(
            opt_points(t.bottom_left).to_multiset(),
        ).add(opt_points(t.bottom_right).to_multiset()),
{
    broadcast use lemma_multiset_commutative;

    assert(t.all_points() == t.points@ + opt_points(t.top_left) + opt_points(t.top_right)
        + opt_points(t.bottom_left) + opt_points(t.bottom_right));
}

/// One optional subtree gained exactly the given particle.
spec fn child_gained(pre_o: Option<Box<QuadTree>>, post_o: Option<Box<QuadTree>>, particle: Particle) -> bool {
    opt_points(post_o).to_multiset() == opt_points(pre_o).to_multiset().insert(particle)
}

/// One optional subtree kept its contents unchanged.
spec fn child_kept(pre_o: Option<Box<QuadTree>>, post_o: Option<Box<QuadTree>>) -> bool {
    opt_points(post_o) == opt_points(pre_o)
}

/// Exactly one of the four children gained the particle; the others kept
/// their contents.
spec fn one_child_gained(pre: QuadTree, post: QuadTree, particle: Particle) -> bool {
    ||| (child_gained(pre.top_left, post.top_left, particle) && child_kept(
        pre.top_right,
        post.top_right,
    ) && child_kept(pre.bottom_left, post.bottom_left) && child_kept(
        pre.bottom_right,
        post.bottom_right,
    ))
    ||| (child_kept(pre.top_left, post.top_left) && child_gained(
        pre.top_right,
        post.top_right,
        particle,
    ) && child_kept(pre.bottom_left, post.bottom_left) && child_kept(
        pre.bottom_right,
        post.bottom_right,
    ))
    ||| (child_kept(pre.top_left, post.top_left) && child_kept(pre.top_right, post.top_right)
        && child_gained(pre.bottom_left, post.bottom_left, particle) && child_kept(
        pre.bottom_right,
        post.bottom_right,
    ))
    ||| (child_kept(pre.top_left, post.top_left) && child_kept(pre.top_right, post.top_right)
        && child_kept(pre.bottom_left, post.bottom_left) && child_gained(
        pre.bottom_right,
        post.bottom_right,
        particle,
    ))
}

/// After an insertion that changed exactly one child's contents by one
/// particle (and nothing else), the whole subtree's contents changed by
/// that particle.
proof fn lemma_insert_one_branch(pre: QuadTree, post: QuadTree, particle: Particle)
    requires
        post.points@ == pre.points@,
        one_child_gained(pre, post, particle),
    ensures
        post.all_points().to_multiset() == pre.all_points().to_multiset().insert(particle),
{
    broadcast use group_multiset_axioms;

    lemma_all_points_split(pre);
    lemma_all_points_split(post);
    assert(post.all_points().to_multiset() =~= pre.all_points().to_multiset().insert(particle));
}

/// Every particle stored anywhere in a well-formed subtree lies inside the
/// subtree's boundary.
pub proof fn lemma_all_points_in_boundary(t: QuadTree)
    requires
        t.wf(),
    ensures
        forall|i: int|
            0 <= i < t.all_points().len() ==> t.boundary.contains_spec(
                #[trigger] t.all_points()[i].position,
            ),
    decreases t,
{
    lemma_quadrants_wf(t.boundary);
    if t.is_divided {
        match t.top_left {
            Some(c) => lemma_all_points_in_boundary(*c),
            None => (),
        }
        match t.top_right {
            Some(c) => lemma_all_points_in_boundary(*c),
            None => (),
        }
        match t.bottom_left {
            Some(c) => lemma_all_points_in_boundary(*c),
            None => (),
        }
        match t.bottom_right {
            Some(c) => lemma_all_points_in_boundary(*c),
            None => (),
        }
    }
    assert forall|i: int| 0 <= i < t.all_points().len() implies t.boundary.contains_spec(
        #[trigger] t.all_points()[i].position,
    ) by {
        let n0 = t.points@.len() as int;
        let n1 = n0 + opt_points(t.top_left).len();
        let n2 = n1 + opt_points(t.top_right).len();
        let n3 = n2 + opt_points(t.bottom_left).len();
        if i < n0 {
            assert(t.all_points()[i] == t.points@[i]);
        } else if i < n1 {
            assert(t.all_points()[i] == opt_points(t.top_left)[i - n0]);
        } else if i < n2 {
            assert(t.all_points()[i] == opt_points(t.top_right)[i - n1]);
        } else if i < n3 {
            assert(t.all_points()[i] == opt_points(t.bottom_left)[i - n2]);
        } else {
            assert(t.all_points()[i] == opt_points(t.bottom_right)[i - n3]);
        }
    }
}

/// A node whose boundary does not overlap the query window contributes
/// nothing to the query: none of its stored particles can be in the
/// window.
proof fn lemma_no_overlap_filter_empty(t: QuadTree, range: Boundary)
    requires
        t.wf(),
        !range.overlaps_spec(t.boundary),
    ensures
        t.all_points().filter(in_range(range)) == Seq::<Particle>::empty(),
{
    lemma_all_points_in_boundary(t);
    assert forall|i: int| 0 <= i < t.all_points().len() implies !in_range(range)(
        #[trigger] t.all_points()[i],
    ) by {
        assert(t.boundary.contains_spec(t.all_points()[i].position));
    }
    lemma_filter_none(t.all_points(), in_range(range));
}

/// Filtering with a predicate that holds nowhere gives the empty sequence.
proof fn lemma_filter_none<A>(s: Seq<A>, pred: spec_fn(A) -> bool)
    requires
        forall|i: int| 0 <= i < s.len() ==> !pred(#[trigger] s[i]),
    ensures
        s.filter(pred) == Seq::<A>::empty(),
    decreases s.len(),
{
    reveal(Seq::filter);
    if s.len() > 0 {
        assert(!pred(s.last()));
        lemma_filter_none(s.drop_last(), pred);
    }
}

/// Filtering with a predicate that holds everywhere keeps the sequence
/// unchanged.
proof fn lemma_filter_all<A>(s: Seq<A>, pred: spec_fn(A) -> bool)
    requires
        forall|i: int| 0 <= i < s.len() ==> pred(#[trigger] s[i]),
    ensures
        s.filter(pred) == s,
    decreases s.len(),
{
    reveal(Seq::filter);
    if s.len() > 0 {
        assert(pred(s.last()));
        lemma_filter_all(s.drop_last(), pred);
        assert(s.drop_last().push(s.last()) =~= s);
    }
}

/// Every element of a filtered sequence comes from the original sequence.
proof fn lemma_filter_subset<A>(s: Seq<A>, pred: spec_fn(A) -> bool, i: int)
    requires
        0 <= i < s.filter(pred).len(),
    ensures
        s.contains(s.filter(pred)[i]),
    decreases s.len(),
{
    reveal(Seq::filter);
    if s.len() > 0 {
        let sub = s.drop_last().filter(pred);
        if i < sub.len() {
            lemma_filter_subset(s.drop_last(), pred, i);
            let j = choose|j: int| 0 <= j < s.drop_last().len() && s.drop_last()[j] == sub[i];
            assert(s[j] == s.filter(pred)[i]);
        } else {
            assert(s[s.len() - 1] == s.filter(pred)[i]);
        }
    }
}

/// Membership in a filtered sequence is exactly membership in the original
/// sequence together with the predicate.
pub proof fn lemma_filter_contains_iff<A>(s: Seq<A>, pred: spec_fn(A) -> bool, x: A)
    ensures
        s.filter(pred).contains(x) <==> (s.contains(x) && pred(x)),
{
    broadcast use group_filter_ensures;

    if s.filter(pred).contains(x) {
        let i = choose|i: int| 0 <= i < s.filter(pred).len() && s.filter(pred)[i] == x;
        lemma_filter_subset(s, pred, i);
    }
    if s.contains(x) && pred(x) {
        let i = choose|i: int| 0 <= i < s.len() && s[i] == x;
        s.lemma_filter_contains(pred, i);
    }
}

/// Containment law: every particle stored in a well-formed tree lies in
/// the root boundary, so a query over the root's own boundary returns the
/// stored particles exactly — each exactly once, in visit order.
pub proof fn lemma_query_root_returns_all(t: QuadTree)
    requires
        t.wf(),
    ensures
        t.all_points().filter(in_range(t.boundary)) == t.all_points(),
{
    lemma_all_points_in_boundary(t);
    assert forall|i: int| 0 <= i < t.all_points().len() implies in_range(t.boundary)(
        #[trigger] t.all_points()[i],
    ) by {
        assert(t.boundary.contains_spec(t.all_points()[i].position));
    }
    lemma_filter_all(t.all_points(), in_range(t.boundary));
}

/// Range-query soundness: a particle value appears in the result of a
/// query exactly when it is stored in the tree and its position lies
/// within the window's inclusive bounds — no false negatives and no false
/// positives.
pub proof fn lemma_range_query_soundness(t: QuadTree, range: Boundary, p: Particle)
    requires
        t.wf(),
    ensures
        t.all_points().filter(in_range(range)).contains(p) <==> (t.all_points().contains(p)
            && range.contains_spec(p.position)),
{
    lemma_filter_contains_iff(t.all_points(), in_range(range), p);
}

/// Capacity law: an undivided node never holds more than its capacity in
/// raw points; the insertion that would exceed it subdivides the node
/// first (see the contract of `insert`).
pub proof fn lemma_capacity_invariant(t: QuadTree)
    requires
        t.wf(),
        !t.is_divided,
    ensures
        t.points@.len() <= t.capacity,
{
}

} // verus!
