use vstd::prelude::*;
use vstd::multiset::Multiset;
use crate::geometry::{circles_overlap, dist2, Rectangle2D, Vec2, MAX_COORD};

verus! {

broadcast use vstd::seq_lib::group_to_multiset_ensures, vstd::multiset::group_multiset_axioms;

/// A node holding more records than this splits, if it is above the deepest level.
pub const CQT_MAX_OBJECTS_PER_NODE: usize = 60;

/// Nodes of this level never split.
pub const CQT_MAX_LEVELS: i32 = 6;

/// An entity's record in the index: its id, the centre of its circle and its radius.
#[derive(Clone, Copy, Debug, PartialEq, Eq, Structural)]
pub struct EntityBody {
    pub entity: usize,
    pub position: Vec2,
    pub radius: i64,
}

impl EntityBody {
    pub open spec fn valid(&self) -> bool {
        self.position.valid() && 0 <= self.radius <= MAX_COORD
    }
}

/// The quadrant of `b` that wholly holds the circle of radius `r` about `p`:
/// 0 upper right, 1 upper left, 2 lower left, 3 lower right (the larger `y`
/// being upper), or -1 where the circle reaches a midline. The comparisons are
/// strict, so a circle that touches a midline stays ambiguous.
pub open spec fn quadrant(b: Rectangle2D, p: Vec2, r: int) -> int {
    let mx = 2 * b.x + b.width;
    let my = 2 * b.y + b.height;
    let top = 2 * (p.y - r) > my;
    let bottom = 2 * (p.y + r) < my;
    if 2 * (p.x + r) < mx {
        if top {
            1
        } else if bottom {
            2
        } else {
            -1
        }
    } else if 2 * (p.x - r) > mx {
        if top {
            0
        } else if bottom {
            3
        } else {
            -1
        }
    } else {
        -1
    }
}

proof fn lemma_square_exceeds(a: int, s: int)
    requires
        0 <= s,
        s < a || a < -s,
    ensures
        a * a > s * s,
{
    if s < a {
        assert(a * a > s * s) by (nonlinear_arith)
            requires
                0 <= s < a,
        ;
    } else {
        assert(a * a > s * s) by (nonlinear_arith)
            requires
                0 <= s,
                a < -s,
        ;
    }
}

/// Circles that lie wholly within two different quadrants of one rectangle do
/// not overlap.
pub proof fn lemma_quadrants_apart(b: Rectangle2D, p: Vec2, r: int, q: Vec2, s: int)
    requires
        0 <= r,
        0 <= s,
        0 <= quadrant(b, p, r) < 4,
        0 <= quadrant(b, q, s) < 4,
        quadrant(b, p, r) != quadrant(b, q, s),
    ensures
        !circles_overlap(p, r, q, s),
{
    let dx = p.x - q.x;
    let dy = p.y - q.y;
    let i = quadrant(b, p, r);
    let j = quadrant(b, q, s);
    let left_p = i == 1 || i == 2;
    let left_q = j == 1 || j == 2;
    if left_p != left_q {
        lemma_square_exceeds(dx, r + s);
        assert(dy * dy >= 0) by (nonlinear_arith);
    } else {
        lemma_square_exceeds(dy, r + s);
        assert(dx * dx >= 0) by (nonlinear_arith);
    }
}

/// The records of `s` that `quadrant` sends to `i` within `b`, in order.
pub open spec fn sorted_to(s: Seq<EntityBody>, b: Rectangle2D, i: int) -> Seq<EntityBody>
    decreases s.len(),
{
    if s.len() == 0 {
        Seq::<EntityBody>::empty()
    } else {
        let rest = sorted_to(s.drop_last(), b, i);
        if quadrant(b, s.last().position, s.last().radius as int) == i {
            rest.push(s.last())
        } else {
            rest
        }
    }
}

/// The bounds of quadrant `i` of `b`, in the numbering of `quadrant`: the
/// left and lower halves take the smaller half of an odd extent.
pub open spec fn quarter(b: Rectangle2D, i: int) -> Rectangle2D {
    let w = b.width / 2;
    let h = b.height / 2;
    let right = i == 0 || i == 3;
    let upper = i == 0 || i == 1;
    Rectangle2D {
        x: (if right { b.x + w } else { b.x as int }) as i64,
        y: (if upper { b.y + h } else { b.y as int }) as i64,
        width: (if right { b.width - w } else { w }) as i64,
        height: (if upper { b.height - h } else { h }) as i64,
    }
}

/// The circle of radius `r` about `p` lies wholly within `b`.
pub open spec fn covers(b: Rectangle2D, p: Vec2, r: int) -> bool {
    &&& b.x <= p.x - r && p.x + r <= b.x + b.width
    &&& b.y <= p.y - r && p.y + r <= b.y + b.height
}

/// A circle within `b` that `quadrant` sends to `i` lies within quadrant `i`'s
/// bounds.
pub proof fn lemma_quarter_covers(b: Rectangle2D, p: Vec2, r: int)
    requires
        b.valid(),
        covers(b, p, r),
        0 <= quadrant(b, p, r) < 4,
    ensures
        covers(quarter(b, quadrant(b, p, r)), p, r),
{
}

/// A node of a quadtree over entity records; a split node has four children,
/// in the order of `quadrant`.
pub struct CollisionQuadtree {
    pub level: i32,
    pub entities: Vec<EntityBody>,
    pub bounds: Rectangle2D,
    pub nodes: Vec<CollisionQuadtree>,
    pub is_split: bool,
}

impl CollisionQuadtree {
    pub open spec fn child(&self, i: int) -> CollisionQuadtree {
        self.nodes@[i]
    }

    /// Every record held in this node and below it.
    pub open spec fn held(&self) -> Multiset<EntityBody>
        decreases self,
    {
        let own = self.entities@.to_multiset();
        if self.is_split && self.nodes@.len() == 4 {
            own.add(self.nodes@[0].held()).add(self.nodes@[1].held()).add(
                self.nodes@[2].held(),
            ).add(self.nodes@[3].held())
        } else {
            own
        }
    }

    /// Every record below child `i` lies wholly within quadrant `i`.
    pub open spec fn placed(&self, i: int) -> bool {
        forall|x: EntityBody| #[trigger]
            self.child(i).held().count(x) > 0 ==> quadrant(
                self.bounds,
                x.position,
                x.radius as int,
            ) == i
    }

    /// Every record below child `i` that lies within this node's bounds lies
    /// within the child's bounds: the child covers what it holds.
    pub open spec fn covered(&self, i: int) -> bool {
        forall|x: EntityBody| #[trigger]
            self.child(i).held().count(x) > 0 && covers(
                self.bounds,
                x.position,
                x.radius as int,
            ) ==> covers(self.child(i).bounds, x.position, x.radius as int)
    }

    /// Child `i` is one level down, over `quarter(bounds, i)`, placed and
    /// covering.
    pub open spec fn child_ok(&self, i: int) -> bool {
        &&& self.child(i).level == self.level + 1
        &&& self.child(i).bounds == quarter(self.bounds, i)
        &&& self.placed(i)
        &&& self.covered(i)
    }

    /// The shape of this node alone: valid bounds and records, no children or
    /// four, and placed children one level down, below the deepest level.
    pub open spec fn shape_ok(&self) -> bool {
        &&& self.bounds.valid()
        &&& forall|k: int|
            0 <= k < self.entities@.len() ==> #[trigger] self.entities@[k].valid()
        &&& self.is_split ==> self.nodes@.len() == 4
        &&& !self.is_split ==> self.nodes@.len() == 0
        &&& self.is_split ==> {
            &&& self.level < CQT_MAX_LEVELS
            &&& self.child_ok(0) && self.child_ok(1) && self.child_ok(2) && self.child_ok(3)
        }
    }

    /// What holds of this node alone: its shape; a node that is not split,
    /// above the deepest level, holds no more than the capacity; and a split
    /// node keeps only records that straddle a midline.
    pub open spec fn node_ok(&self) -> bool {
        &&& self.shape_ok()
        &&& !self.is_split && self.level < CQT_MAX_LEVELS ==> self.entities@.len()
            <= CQT_MAX_OBJECTS_PER_NODE
        &&& self.is_split ==> forall|k: int|
            0 <= k < self.entities@.len() ==> quadrant(
                self.bounds,
                #[trigger] self.entities@[k].position,
                self.entities@[k].radius as int,
            ) == -1
    }

    /// Well-formedness of the whole tree.
    pub open spec fn wf(&self) -> bool
        decreases self,
    {
        &&& self.node_ok()
        &&& self.is_split ==> {
            &&& self.nodes@[0].wf()
            &&& self.nodes@[1].wf()
            &&& self.nodes@[2].wf()
            &&& self.nodes@[3].wf()
        }
    }

    /// `a` and `b` have the same shape: at every node the same level, bounds
    /// and split flag, and children of the same shape.
    pub open spec fn same_shape(a: CollisionQuadtree, b: CollisionQuadtree) -> bool
        decreases a,
    {
        &&& a.level == b.level && a.bounds == b.bounds && a.is_split == b.is_split
        &&& a.nodes@.len() == b.nodes@.len()
        &&& (a.is_split && a.nodes@.len() == 4) ==> {
            &&& Self::same_shape(a.nodes@[0], b.nodes@[0])
            &&& Self::same_shape(a.nodes@[1], b.nodes@[1])
            &&& Self::same_shape(a.nodes@[2], b.nodes@[2])
            &&& Self::same_shape(a.nodes@[3], b.nodes@[3])
        }
    }

    /// Every split node below holds more records than the capacity: no node
    /// split but by overflowing. Trees grown from empty by `insert` are
    /// minimal.
    pub open spec fn minimal(&self) -> bool
        decreases self,
    {
        &&& self.is_split ==> self.held().len() > CQT_MAX_OBJECTS_PER_NODE
        &&& (self.is_split && self.nodes@.len() == 4) ==> {
            &&& self.nodes@[0].minimal()
            &&& self.nodes@[1].minimal()
            &&& self.nodes@[2].minimal()
            &&& self.nodes@[3].minimal()
        }
    }

    /// No node holds a record of its own.
    pub open spec fn all_empty(&self) -> bool
        decreases self,
    {
        &&& self.entities@.len() == 0
        &&& (self.is_split && self.nodes@.len() == 4) ==> {
            &&& self.nodes@[0].all_empty()
            &&& self.nodes@[1].all_empty()
            &&& self.nodes@[2].all_empty()
            &&& self.nodes@[3].all_empty()
        }
    }

    /// What `retrieve` appends: the records found below the one child that
    /// wholly holds the query circle, if the node is split and there is one,
    /// followed by this node's own records.
    pub open spec fn retrieved(&self, p: Vec2, r: int) -> Seq<EntityBody>
        decreases self,
    {
        let i = quadrant(self.bounds, p, r);
        if self.is_split && 0 <= i < 4 && self.nodes@.len() == 4 {
            self.nodes@[i].retrieved(p, r) + self.entities@
        } else {
            self.entities@
        }
    }

    /// The records held below the four children of a split node.
    pub open spec fn children_held(&self) -> Multiset<EntityBody> {
        self.nodes@[0].held().add(self.nodes@[1].held()).add(self.nodes@[2].held()).add(
            self.nodes@[3].held(),
        )
    }

    proof fn lemma_held_split(&self)
        requires
            self.is_split,
            self.nodes@.len() == 4,
        ensures
            self.held() =~= self.entities@.to_multiset().add(self.children_held()),
    {
    }

    /// At every split node on the way down, the query circle lies wholly within
    /// one quadrant: the query does not straddle a seam of the tree.
    pub open spec fn seam_free(&self, p: Vec2, r: int) -> bool
        decreases self,
    {
        let i = quadrant(self.bounds, p, r);
        if self.is_split && self.nodes@.len() == 4 {
            0 <= i < 4 && self.nodes@[i].seam_free(p, r)
        } else {
            true
        }
    }

    /// What `retrieve` returns is held in the tree.
    pub proof fn lemma_retrieved_held(&self, p: Vec2, r: int)
        requires
            self.wf(),
        ensures
            forall|x: EntityBody| #[trigger]
                self.retrieved(p, r).contains(x) ==> self.held().count(x) > 0,
        decreases self,
    {
        let i = quadrant(self.bounds, p, r);
        if self.is_split && 0 <= i < 4 {
            self.lemma_held_split();
            self.nodes@[i].lemma_retrieved_held(p, r);
            assert forall|x: EntityBody| #[trigger]
                self.retrieved(p, r).contains(x) implies self.held().count(x) > 0 by {
                let s = self.retrieved(p, r);
                let k = choose|k: int| 0 <= k < s.len() && s[k] == x;
                let c = self.nodes@[i].retrieved(p, r);
                if k < c.len() {
                    assert(c.contains(x));
                } else {
                    assert(self.entities@[k - c.len()] == x);
                    assert(self.entities@.contains(x));
                }
            }
        }
    }

    /// Coverage of the index: a record held anywhere in the tree whose circle
    /// overlaps the query circle is retrieved, whenever the query does not
    /// straddle a seam. (A query that straddles a seam may miss records held
    /// below the seam.)
    pub proof fn lemma_retrieve_covers(&self, e: EntityBody, p: Vec2, r: int)
        requires
            self.wf(),
            self.held().count(e) > 0,
            0 <= r,
            circles_overlap(e.position, e.radius as int, p, r),
            self.seam_free(p, r),
        ensures
            self.retrieved(p, r).contains(e),
        decreases self,
    {
        if self.entities@.contains(e) {
            let k = choose|k: int| 0 <= k < self.entities@.len() && self.entities@[k] == e;
            let s = self.retrieved(p, r);
            assert(s[s.len() - self.entities@.len() + k] == e);
        } else {
            self.lemma_held_split();
            let i = quadrant(self.bounds, p, r);
            let j: int = if self.nodes@[0].held().count(e) > 0 {
                0
            } else if self.nodes@[1].held().count(e) > 0 {
                1
            } else if self.nodes@[2].held().count(e) > 0 {
                2
            } else {
                3
            };
            assert(self.child(j).held().count(e) > 0);
            assert(quadrant(self.bounds, e.position, e.radius as int) == j);
            assert(0 <= e.radius) by {
                self.child(j).lemma_held_valid(e);
            }
            if i != j {
                lemma_quadrants_apart(self.bounds, e.position, e.radius as int, p, r);
            }
            self.nodes@[i].lemma_retrieve_covers(e, p, r);
            let c = self.nodes@[i].retrieved(p, r);
            let k = choose|k: int| 0 <= k < c.len() && c[k] == e;
            assert(self.retrieved(p, r)[k] == e);
        }
    }

    /// In a minimal well-formed tree a node is split exactly when it holds more
    /// records than the capacity and lies above the deepest level.
    pub proof fn lemma_split_exactly(&self)
        requires
            self.wf(),
            self.minimal(),
        ensures
            self.is_split <==> (self.held().len() > CQT_MAX_OBJECTS_PER_NODE && self.level
                < CQT_MAX_LEVELS),
    {
    }

    /// Every record held in a well-formed tree is valid.
    pub proof fn lemma_held_valid(&self, e: EntityBody)
        requires
            self.wf(),
            self.held().count(e) > 0,
        ensures
            e.valid(),
        decreases self,
    {
        if self.entities@.contains(e) {
            let k = choose|k: int| 0 <= k < self.entities@.len() && self.entities@[k] == e;
            assert(self.entities@[k].valid());
        } else {
            self.lemma_held_split();
            if self.nodes@[0].held().count(e) > 0 {
                self.nodes@[0].lemma_held_valid(e);
            } else if self.nodes@[1].held().count(e) > 0 {
                self.nodes@[1].lemma_held_valid(e);
            } else if self.nodes@[2].held().count(e) > 0 {
                self.nodes@[2].lemma_held_valid(e);
            } else {
                self.nodes@[3].lemma_held_valid(e);
            }
        }
    }

    pub fn new(lvl: i32, bounds: Rectangle2D) -> (r: CollisionQuadtree)
        requires
            bounds.valid(),
        ensures
            r.wf(),
            r.level == lvl,
            r.bounds == bounds,
            !r.is_split,
            r.entities@ == Seq::<EntityBody>::empty(),
            r.nodes@ == Seq::<CollisionQuadtree>::empty(),
            r.held() =~= Multiset::<EntityBody>::empty(),
            r.minimal(),
    {
        let r = CollisionQuadtree {
            level: lvl,
            entities: Vec::new(),
            bounds: bounds,
            nodes: Vec::new(),
            is_split: false,
        };
        assert(r.entities@ =~= Seq::<EntityBody>::empty());
        assert(r.nodes@ =~= Seq::<CollisionQuadtree>::empty());
        r
    }

    /// The index of the quadrant that wholly holds the circle of radius
    /// `radius` about `p`, or -1.
    pub fn find_index(&self, p: Vec2, radius: i64) -> (r: i32)
        requires
            self.bounds.valid(),
            p.valid(),
            0 <= radius <= MAX_COORD,
        ensures
            r == quadrant(self.bounds, p, radius as int),
    {
        let mx = 2 * self.bounds.x + self.bounds.width;
        let my = 2 * self.bounds.y + self.bounds.height;
        let top = 2 * (p.y - radius) > my;
        let bottom = 2 * (p.y + radius) < my;
        if 2 * (p.x + radius) < mx {
            if top {
                1
            } else if bottom {
                2
            } else {
                -1
            }
        } else if 2 * (p.x - radius) > mx {
            if top {
                0
            } else if bottom {
                3
            } else {
                -1
            }
        } else {
            -1
        }
    }

    /// Appends to `returned` the records that may meet the circle of radius
    /// `radius` about `p` (see `retrieved`).
    pub fn retrieve(&self, p: Vec2, radius: i64, returned: &mut Vec<EntityBody>)
        requires
            self.wf(),
            p.valid(),
            0 <= radius <= MAX_COORD,
        ensures
            final(returned)@ == old(returned)@ + self.retrieved(p, radius as int),
        decreases self,
    {
        let i = self.find_index(p, radius);
        if i != -1 && self.is_split {
            self.nodes[i as usize].retrieve(p, radius, returned);
        }
        let n = self.entities.len();
        let ghost start = returned@;
        let mut k: usize = 0;
        while k < n
            invariant
                n == self.entities@.len(),
                k <= n,
                returned@ == start + self.entities@.subrange(0, k as int),
            decreases n - k,
        {
            returned.push(self.entities[k]);
            k = k + 1;
            assert(returned@ =~= start + self.entities@.subrange(0, k as int));
        }
        assert(self.entities@.subrange(0, n as int) =~= self.entities@);
        assert(returned@ =~= old(returned)@ + self.retrieved(p, radius as int));
    }

    /// Empties every node's own list and keeps the shape of the tree.
    pub fn clear(&mut self)
        requires
            old(self).wf(),
        ensures
            final(self).wf(),
            final(self).held() =~= Multiset::<EntityBody>::empty(),
            final(self).all_empty(),
            Self::same_shape(*final(self), *old(self)),
            final(self).level == old(self).level,
            final(self).bounds == old(self).bounds,
            final(self).is_split == old(self).is_split,
        decreases CQT_MAX_LEVELS - self.level,
    {
        self.entities.clear();
        if self.is_split {
            self.nodes[0].clear();
            self.nodes[1].clear();
            self.nodes[2].clear();
            self.nodes[3].clear();
            proof {
                self.lemma_held_split();
            }
        }
        assert(self.entities@.to_multiset() =~= Multiset::<EntityBody>::empty());
    }

    /// Gives a node that is not split its four empty children.
    fn split(&mut self)
        requires
            old(self).bounds.valid(),
            !old(self).is_split,
            old(self).nodes@.len() == 0,
            old(self).level < CQT_MAX_LEVELS,
        ensures
            final(self).is_split,
            final(self).nodes@.len() == 4,
            final(self).level == old(self).level,
            final(self).bounds == old(self).bounds,
            final(self).entities@ == old(self).entities@,
            forall|i: int|
                0 <= i < 4 ==> {
                    &&& (#[trigger] final(self).child(i)).wf()
                    &&& final(self).child(i).held() =~= Multiset::<EntityBody>::empty()
                    &&& final(self).child(i).level == old(self).level + 1
                    &&& final(self).child(i).bounds == quarter(old(self).bounds, i)
                    &&& final(self).child(i).minimal()
                },
    {
        let x = self.bounds.x;
        let y = self.bounds.y;
        let w = self.bounds.width / 2;
        let h = self.bounds.height / 2;
        let w2 = self.bounds.width - w;
        let h2 = self.bounds.height - h;
        let lvl = self.level + 1;
        self.nodes.push(
            CollisionQuadtree::new(lvl, Rectangle2D { x: x + w, y: y + h, width: w2, height: h2 }),
        );
        self.nodes.push(
            CollisionQuadtree::new(lvl, Rectangle2D { x: x, y: y + h, width: w, height: h2 }),
        );
        self.nodes.push(
            CollisionQuadtree::new(lvl, Rectangle2D { x: x, y: y, width: w, height: h }),
        );
        self.nodes.push(
            CollisionQuadtree::new(lvl, Rectangle2D { x: x + w, y: y, width: w2, height: h }),
        );
        self.is_split = true;
    }

    /// Adds `e` to the tree: into the one child whose quadrant wholly holds its
    /// circle, if the node is split and there is one, else into this node's
    /// own list; a node whose own list then grows past the capacity, above the
    /// deepest level, splits and hands its records down where they fit.
    pub fn insert(&mut self, e: EntityBody)
        requires
            old(self).wf(),
            e.valid(),
        ensures
            final(self).wf(),
            final(self).held() =~= old(self).held().insert(e),
            final(self).level == old(self).level,
            final(self).bounds == old(self).bounds,
            old(self).is_split ==> final(self).is_split,
            old(self).minimal() ==> final(self).minimal(),
            ({
                let i = quadrant(old(self).bounds, e.position, e.radius as int);
                old(self).is_split && i != -1 ==> {
                    &&& final(self).entities@ == old(self).entities@
                    &&& final(self).nodes@.len() == 4
                    &&& final(self).child(i).held() =~= old(self).child(i).held().insert(e)
                    &&& forall|j: int|
                        0 <= j < 4 && j != i ==> #[trigger] final(self).child(j) == old(
                            self,
                        ).child(j)
                }
            }),
            ({
                let i = quadrant(old(self).bounds, e.position, e.radius as int);
                !(old(self).is_split && i != -1) && (old(self).entities@.len()
                    < CQT_MAX_OBJECTS_PER_NODE || old(self).level >= CQT_MAX_LEVELS) ==> {
                    &&& final(self).entities@ == old(self).entities@.push(e)
                    &&& final(self).is_split == old(self).is_split
                    &&& final(self).nodes@ == old(self).nodes@
                }
            }),
            ({
                let i = quadrant(old(self).bounds, e.position, e.radius as int);
                let all = old(self).entities@.push(e);
                !(old(self).is_split && i != -1) && old(self).entities@.len()
                    >= CQT_MAX_OBJECTS_PER_NODE && old(self).level < CQT_MAX_LEVELS ==> {
                    &&& final(self).is_split
                    &&& final(self).nodes@.len() == 4
                    &&& final(self).entities@ == sorted_to(all, old(self).bounds, -1)
                    &&& forall|j: int|
                        0 <= j < 4 ==> (#[trigger] final(self).child(j)).held() =~= (if old(
                            self,
                        ).is_split {
                            old(self).child(j).held()
                        } else {
                            Multiset::<EntityBody>::empty()
                        }).add(sorted_to(all, old(self).bounds, j).to_multiset())
                }
            }),
        decreases CQT_MAX_LEVELS - self.level, 1int,
    {
        if self.is_split {
            let index = self.find_index(e.position, e.radius);
            if index != -1 {
                assert(self.child_ok(index as int));
                let ghost before = *self;
                proof {
                    before.lemma_held_split();
                }
                self.nodes[index as usize].insert(e);
                proof {
                    self.lemma_held_split();
                    assert(self.children_held() =~= before.children_held().insert(e));
                    assert forall|x: EntityBody| #[trigger]
                        self.child(index as int).held().count(x) > 0 implies quadrant(
                        self.bounds,
                        x.position,
                        x.radius as int,
                    ) == index as int by {
                        if x != e {
                            assert(before.child(index as int).held().count(x) > 0);
                        }
                    }
                    assert(self.placed(0) && self.placed(1) && self.placed(2) && self.placed(3));
                }
                return;
            }
        }
        let ghost before = *self;
        self.entities.push(e);
        proof {
            if self.is_split {
                before.lemma_held_split();
                self.lemma_held_split();
            }
            assert(self.entities@ == before.entities@.push(e));
        }
        if self.entities.len() > CQT_MAX_OBJECTS_PER_NODE && self.level < CQT_MAX_LEVELS {
            if !self.is_split {
                self.split();
                proof {
                    self.lemma_held_split();
                    assert(self.child(0).wf() && self.child(1).wf() && self.child(2).wf()
                        && self.child(3).wf());
                    assert(self.children_held() =~= Multiset::<EntityBody>::empty());
                }
            }
            self.redistribute();
        }
    }

    /// Hands every record of this split node's own list that fits wholly within
    /// one quadrant down to that child.
    fn redistribute(&mut self)
        requires
            old(self).shape_ok(),
            old(self).is_split,
            old(self).nodes@[0].wf(),
            old(self).nodes@[1].wf(),
            old(self).nodes@[2].wf(),
            old(self).nodes@[3].wf(),
        ensures
            final(self).wf(),
            final(self).held() =~= old(self).held(),
            final(self).level == old(self).level,
            final(self).bounds == old(self).bounds,
            final(self).is_split,
            final(self).nodes@.len() == 4,
            old(self).held().len() > CQT_MAX_OBJECTS_PER_NODE && old(self).nodes@[0].minimal()
                && old(self).nodes@[1].minimal() && old(self).nodes@[2].minimal()
                && old(self).nodes@[3].minimal() ==> final(self).minimal(),
            final(self).entities@ == sorted_to(old(self).entities@, old(self).bounds, -1),
            forall|i: int|
                0 <= i < 4 ==> (#[trigger] final(self).child(i)).held() =~= old(self).child(
                    i,
                ).held().add(sorted_to(old(self).entities@, old(self).bounds, i).to_multiset()),
        decreases CQT_MAX_LEVELS - self.level, 0int,
    {
        let ghost start = *self;
        let mut new_entities: Vec<EntityBody> = Vec::new();
        let n = self.entities.len();
        let mut k: usize = 0;
        while k < n
            invariant
                n == self.entities@.len(),
                k <= n,
                self.entities@ == start.entities@,
                self.level == start.level,
                self.level == old(self).level,
                self.level < CQT_MAX_LEVELS,
                self.bounds == start.bounds,
                self.shape_ok(),
                self.is_split,
                self.nodes@[0].wf(),
                self.nodes@[1].wf(),
                self.nodes@[2].wf(),
                self.nodes@[3].wf(),
                forall|j: int|
                    0 <= j < new_entities@.len() ==> (#[trigger] new_entities@[j]).valid()
                        && quadrant(
                        self.bounds,
                        new_entities@[j].position,
                        new_entities@[j].radius as int,
                    ) == -1,
                self.children_held().add(new_entities@.to_multiset()) =~= start.children_held().add(
                    self.entities@.subrange(0, k as int).to_multiset(),
                ),
                new_entities@ == sorted_to(self.entities@.subrange(0, k as int), self.bounds, -1),
                start.nodes@[0].minimal() && start.nodes@[1].minimal() && start.nodes@[2].minimal()
                    && start.nodes@[3].minimal() ==> self.nodes@[0].minimal()
                    && self.nodes@[1].minimal() && self.nodes@[2].minimal()
                    && self.nodes@[3].minimal(),
                forall|j: int|
                    0 <= j < 4 ==> (#[trigger] self.child(j)).held() =~= start.child(j).held().add(
                        sorted_to(self.entities@.subrange(0, k as int), self.bounds, j).to_multiset(),
                    ),
            decreases n - k,
        {
            let e2 = self.entities[k];
            assert(self.entities@[k as int].valid());
            let i = self.find_index(e2.position, e2.radius);
            let ghost before = *self;
            let ghost before_new = new_entities@;
            if i != -1 {
                assert(self.child_ok(i as int));
                assert(self.nodes@[i as int].level == start.level + 1);
                self.nodes[i as usize].insert(e2);
                proof {
                    assert(self.children_held() =~= before.children_held().insert(e2));
                    assert(self.children_held().add(new_entities@.to_multiset()) =~= before.children_held().add(
                        before_new.to_multiset()).insert(e2));
                    assert forall|x: EntityBody| #[trigger]
                        self.child(i as int).held().count(x) > 0 implies quadrant(
                        self.bounds,
                        x.position,
                        x.radius as int,
                    ) == i as int by {
                        if x != e2 {
                            assert(before.child(i as int).held().count(x) > 0);
                        }
                    }
                    assert(self.placed(0) && self.placed(1) && self.placed(2) && self.placed(3));
                }
            } else {
                new_entities.push(e2);
                proof {
                    assert(new_entities@ == before_new.push(e2));
                    assert(self.children_held().add(new_entities@.to_multiset()) =~= before.children_held().add(
                        before_new.to_multiset()).insert(e2));
                }
            }
            proof {
                let sub = self.entities@.subrange(0, k as int);
                assert(self.entities@.subrange(0, k + 1).drop_last() =~= sub);
                assert(self.entities@.subrange(0, k + 1).last() == e2);
                assert forall|j: int| 0 <= j < 4 implies (#[trigger] self.child(j)).held()
                    =~= start.child(j).held().add(
                    sorted_to(self.entities@.subrange(0, k + 1), self.bounds, j).to_multiset(),
                ) by {
                    if j == i as int {
                        assert(sorted_to(self.entities@.subrange(0, k + 1), self.bounds, j)
                            == sorted_to(sub, self.bounds, j).push(e2));
                    } else {
                        assert(self.child(j) == before.child(j));
                        assert(sorted_to(self.entities@.subrange(0, k + 1), self.bounds, j)
                            == sorted_to(sub, self.bounds, j));
                    }
                }
                assert(self.entities@.subrange(0, k + 1) =~= self.entities@.subrange(
                    0,
                    k as int,
                ).push(e2));
                assert(self.entities@.subrange(0, k + 1).to_multiset() =~= self.entities@.subrange(
                    0,
                    k as int,
                ).to_multiset().insert(e2));
            }
            k = k + 1;
        }
        proof {
            assert(self.entities@.subrange(0, n as int) =~= self.entities@);
            start.lemma_held_split();
        }
        let ghost mid = *self;
        let ghost moved = new_entities@;
        assert(mid.children_held().add(moved.to_multiset()) =~= start.children_held().add(
            start.entities@.to_multiset(),
        ));
        self.entities = new_entities;
        proof {
            self.lemma_held_split();
            assert(self.children_held() == mid.children_held());
            assert(self.entities@ == moved);
            assert(start.held() == start.entities@.to_multiset().add(start.children_held()));
            assert(self.held() == moved.to_multiset().add(mid.children_held()));
            assert(mid.children_held().add(moved.to_multiset()) == start.children_held().add(
                start.entities@.to_multiset(),
            ));
            assert(moved.to_multiset().add(mid.children_held()) =~= mid.children_held().add(
                moved.to_multiset(),
            ));
            assert(start.entities@.to_multiset().add(start.children_held())
                =~= start.children_held().add(start.entities@.to_multiset()));
            assert(self.held() =~= start.held());
        }
    }
}

} // verus!
