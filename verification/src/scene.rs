//! The scene graph: nodes with children, an optional camera and mesh each,
//! and the bookkeeping of which cached world transforms are still valid.
//! Nodes and cameras are named by their index in the graph; the matrices
//! themselves are kept by the caller, who asks the graph which of them
//! must be computed again.

use vstd::prelude::*;

verus! {

struct NodeRecord {
    parent: Option<usize>,
    children: Vec<usize>,
    camera: Option<usize>,
    has_mesh: bool,
    global_cached: bool,
    normal_cached: bool,
}

/// Nodes and the cameras attached to them.
pub struct SceneGraph {
    nodes: Vec<NodeRecord>,
    camera_nodes: Vec<Option<usize>>,
    rank: Ghost<Seq<nat>>,
    rank_bound: Ghost<nat>,
}

impl SceneGraph {
    pub closed spec fn node_count(&self) -> nat {
        self.nodes@.len()
    }

    pub closed spec fn camera_count(&self) -> nat {
        self.camera_nodes@.len()
    }

    /// The children of node `n`, in the order they were added.
    pub closed spec fn children(&self, n: int) -> Seq<usize> {
        self.nodes@[n].children@
    }

    /// The node that most recently took `n` as a child.
    pub closed spec fn parent(&self, n: int) -> Option<usize> {
        self.nodes@[n].parent
    }

    /// The camera attached to node `n`.
    pub closed spec fn camera(&self, n: int) -> Option<usize> {
        self.nodes@[n].camera
    }

    pub closed spec fn has_mesh(&self, n: int) -> bool {
        self.nodes@[n].has_mesh
    }

    /// Whether the world transform of node `n` is cached.
    pub closed spec fn global_cached(&self, n: int) -> bool {
        self.nodes@[n].global_cached
    }

    /// Whether the normal transform of node `n` is cached.
    pub closed spec fn normal_cached(&self, n: int) -> bool {
        self.nodes@[n].normal_cached
    }

    /// The node camera `c` was last attached to.
    pub closed spec fn camera_node(&self, c: int) -> Option<usize> {
        self.camera_nodes@[c]
    }

    /// A height of node `n` that strictly decreases from a node to its children.
    pub closed spec fn rank(&self, n: int) -> nat {
        self.rank@[n]
    }

    /// An upper bound of every rank.
    pub closed spec fn rank_bound(&self) -> nat {
        self.rank_bound@
    }

    /// Structural consistency: indices in range, children of lower rank
    /// (so the child relation has no cycle), and a node is among the
    /// children of its parent.
    pub closed spec fn structure_ok(&self) -> bool {
        &&& self.rank@.len() == self.nodes@.len()
        &&& self.nodes@.len() <= usize::MAX
        &&& self.camera_nodes@.len() <= usize::MAX
        &&& 0 < self.rank_bound@
        &&& forall|n: int| 0 <= n < self.nodes@.len() ==> #[trigger] self.rank@[n] < self.rank_bound@
        &&& forall|n: int, i: int|
            0 <= n < self.nodes@.len() && 0 <= i < self.nodes@[n].children@.len() ==> {
                let c = #[trigger] self.nodes@[n].children@[i];
                &&& c < self.nodes@.len()
                &&& self.rank@[c as int] < self.rank@[n]
            }
        &&& forall|n: int| 0 <= n < self.nodes@.len() ==> {
            let rec = #[trigger] self.nodes@[n];
            &&& (rec.parent matches Some(p) ==> p < self.nodes@.len() && self.nodes@[p as int].children@.contains(n as usize))
            &&& (rec.camera matches Some(c) ==> c < self.camera_nodes@.len())
        }
        &&& forall|c: int| 0 <= c < self.camera_nodes@.len() ==> (#[trigger] self.camera_nodes@[c] matches Some(n) ==> n < self.nodes@.len())
    }

    /// A world transform is only cached when its parent's is, and a normal
    /// transform only when the node's world transform is.
    pub closed spec fn caches_ok(&self) -> bool {
        forall|n: int| 0 <= n < self.nodes@.len() ==> {
            let rec = #[trigger] self.nodes@[n];
            &&& (rec.global_cached && rec.parent is Some ==> self.nodes@[rec.parent->0 as int].global_cached)
            &&& (rec.normal_cached ==> rec.global_cached)
        }
    }

    pub open spec fn wf(&self) -> bool {
        self.structure_ok() && self.caches_ok()
    }

    pub proof fn lemma_child(&self, n: int, i: int)
        requires
            self.structure_ok(),
            0 <= n < self.node_count(),
            0 <= i < self.children(n).len(),
        ensures
            self.children(n)[i] < self.node_count(),
            self.rank(self.children(n)[i] as int) < self.rank(n),
    {
        let c = self.nodes@[n].children@[i];
    }

    /// Whether `b` is `a` or lies below it, following children.
    pub open spec fn reaches(&self, a: int, b: int) -> bool
        decreases self.rank(a),
        when self.structure_ok() && 0 <= a < self.node_count()
    {
        a == b || exists|i: int|
            0 <= i < self.children(a).len() && self.reaches(#[trigger] self.children(a)[i] as int, b)
    }
}


impl SceneGraph {
    /// Whether some node at or below `n` holds a camera.
    pub open spec fn subtree_has_camera(&self, n: int) -> bool
        decreases self.rank(n),
        when self.structure_ok() && 0 <= n < self.node_count()
    {
        self.camera(n) is Some || exists|i: int|
            0 <= i < self.children(n).len() && self.subtree_has_camera(#[trigger] self.children(n)[i] as int)
    }

    /// The graph's structure and caches agree with `other`'s on every node.
    pub open spec fn same_nodes(&self, other: &SceneGraph) -> bool {
        &&& self.node_count() == other.node_count()
        &&& forall|n: int| 0 <= n < self.node_count() ==> {
            &&& #[trigger] self.children(n) == other.children(n)
            &&& self.parent(n) == other.parent(n)
            &&& self.camera(n) == other.camera(n)
            &&& self.has_mesh(n) == other.has_mesh(n)
            &&& self.global_cached(n) == other.global_cached(n)
            &&& self.normal_cached(n) == other.normal_cached(n)
        }
    }

    /// An empty graph.
    pub fn new() -> (r: SceneGraph)
        ensures
            r.wf(),
            r.node_count() == 0,
            r.camera_count() == 0,
    {
        SceneGraph { nodes: Vec::new(), camera_nodes: Vec::new(), rank: Ghost(Seq::empty()), rank_bound: Ghost(1) }
    }

    /// Registers a camera, not yet attached to a node; returns its index.
    pub fn add_camera(&mut self) -> (r: usize)
        requires
            old(self).wf(),
            old(self).camera_count() < usize::MAX,
        ensures
            final(self).wf(),
            r == old(self).camera_count(),
            final(self).camera_count() == old(self).camera_count() + 1,
            final(self).camera_node(r as int) is None,
            forall|c: int| 0 <= c < old(self).camera_count() ==> #[trigger] final(self).camera_node(c) == old(self).camera_node(c),
            final(self).same_nodes(old(self)),
    {
        let r = self.camera_nodes.len();
        self.camera_nodes.push(None);
        r
    }

    /// Adds a node without parent or children, holding `camera` (which is
    /// then attached to it) and maybe a mesh; returns its index.
    pub fn add_node(&mut self, camera: Option<usize>, has_mesh: bool) -> (r: usize)
        requires
            old(self).wf(),
            old(self).node_count() < usize::MAX,
            camera matches Some(c) ==> c < old(self).camera_count(),
        ensures
            final(self).wf(),
            r == old(self).node_count(),
            final(self).node_count() == old(self).node_count() + 1,
            final(self).children(r as int).len() == 0,
            final(self).parent(r as int) is None,
            final(self).camera(r as int) == camera,
            final(self).has_mesh(r as int) == has_mesh,
            !final(self).global_cached(r as int),
            !final(self).normal_cached(r as int),
            forall|n: int| 0 <= n < old(self).node_count() ==> {
                &&& #[trigger] final(self).children(n) == old(self).children(n)
                &&& final(self).parent(n) == old(self).parent(n)
                &&& final(self).camera(n) == old(self).camera(n)
                &&& final(self).has_mesh(n) == old(self).has_mesh(n)
                &&& final(self).global_cached(n) == old(self).global_cached(n)
                &&& final(self).normal_cached(n) == old(self).normal_cached(n)
            },
            final(self).camera_count() == old(self).camera_count(),
            forall|c: int| 0 <= c < old(self).camera_count() ==> #[trigger] final(self).camera_node(c) == if camera is Some && camera->0 == c {
                Some(r)
            } else {
                old(self).camera_node(c)
            },
    {
        let r = self.nodes.len();
        self.nodes.push(NodeRecord {
            parent: None,
            children: Vec::new(),
            camera,
            has_mesh,
            global_cached: false,
            normal_cached: false,
        });
        self.rank = Ghost(self.rank@.push(0));
        if let Some(c) = camera {
            self.camera_nodes.set(c, Some(r));
        }
        proof {
            assert forall|n: int, i: int|
                0 <= n < self.nodes@.len() && 0 <= i < self.nodes@[n].children@.len() implies {
                    let c = #[trigger] self.nodes@[n].children@[i];
                    &&& c < self.nodes@.len()
                    &&& self.rank@[c as int] < self.rank@[n]
                } by {
                old(self).lemma_child(n, i);
            }
            assert forall|n: int| 0 <= n < self.nodes@.len() implies {
                let rec = #[trigger] self.nodes@[n];
                &&& (rec.parent matches Some(p) ==> p < self.nodes@.len() && self.nodes@[p as int].children@.contains(n as usize))
                &&& (rec.camera matches Some(c) ==> c < self.camera_nodes@.len())
            } by {
                if n < r {
                    assert(self.nodes@[n] == old(self).nodes@[n]);
                }
            }
            assert forall|n: int| 0 <= n < self.nodes@.len() implies #[trigger] self.rank@[n] < self.rank_bound@ by {
                if n < r {
                    assert(self.rank@[n] == old(self).rank@[n]);
                }
            }
            assert forall|n: int| 0 <= n < self.nodes@.len() implies {
                let rec = #[trigger] self.nodes@[n];
                &&& (rec.global_cached && rec.parent is Some ==> self.nodes@[rec.parent->0 as int].global_cached)
                &&& (rec.normal_cached ==> rec.global_cached)
            } by {
                if n < r {
                    assert(self.nodes@[n] == old(self).nodes@[n]);
                }
            }
        }
        r
    }

    /// Whether `node` is `ancestor` or lies below it.
    pub fn is_ancestor_of(&self, ancestor: usize, node: usize) -> (r: bool)
        requires
            self.structure_ok(),
            ancestor < self.node_count(),
        ensures
            r == self.reaches(ancestor as int, node as int),
        decreases self.rank(ancestor as int),
    {
        if ancestor == node {
            return true;
        }
        let children = &self.nodes[ancestor].children;
        let mut i: usize = 0;
        while i < children.len()
            invariant
                self.structure_ok(),
                ancestor < self.node_count(),
                ancestor != node,
                *children == self.nodes@[ancestor as int].children,
                i <= children@.len(),
                forall|j: int| 0 <= j < i ==> !self.reaches(#[trigger] self.children(ancestor as int)[j] as int, node as int),
            decreases children@.len() - i,
        {
            proof {
                self.lemma_child(ancestor as int, i as int);
            }
            if self.is_ancestor_of(children[i], node) {
                return true;
            }
            i += 1;
        }
        false
    }

    /// Whether some node at or below `n` holds a camera.
    pub fn has_some_camera(&self, n: usize) -> (r: bool)
        requires
            self.structure_ok(),
            n < self.node_count(),
        ensures
            r == self.subtree_has_camera(n as int),
            self.camera(n as int) is Some ==> r,
            r <==> exists|x: int| 0 <= x < self.node_count() && self.reaches(n as int, x) && #[trigger] self.camera(x) is Some,
        decreases self.rank(n as int),
    {
        proof {
            self.law_camera_at_or_below(n as int);
        }
        if self.nodes[n].camera.is_some() {
            return true;
        }
        let children = &self.nodes[n].children;
        let mut i: usize = 0;
        while i < children.len()
            invariant
                self.structure_ok(),
                n < self.node_count(),
                self.camera(n as int) is None,
                *children == self.nodes@[n as int].children,
                i <= children@.len(),
                forall|j: int| 0 <= j < i ==> !self.subtree_has_camera(#[trigger] self.children(n as int)[j] as int),
            decreases children@.len() - i,
        {
            proof {
                self.lemma_child(n as int, i as int);
            }
            if self.has_some_camera(children[i]) {
                return true;
            }
            i += 1;
        }
        false
    }
}


impl SceneGraph {
    /// Whether resetting the caches of `a` reaches `x`: `x` is `a`, or lies
    /// below a child of `a` while `a` held a cached world transform.
    pub open spec fn invalidates(&self, a: int, x: int) -> bool
        decreases self.rank(a),
        when self.structure_ok() && 0 <= a < self.node_count()
    {
        a == x || (self.global_cached(a) && exists|i: int|
            0 <= i < self.children(a).len() && self.invalidates(#[trigger] self.children(a)[i] as int, x))
    }

    /// Whether resetting one of the first `k` children of `n` reaches `x`.
    pub open spec fn invalidated_by_children(&self, n: int, k: int, x: int) -> bool {
        exists|j: int| 0 <= j < k && self.invalidates(#[trigger] self.children(n)[j] as int, x)
    }

    /// Both graphs have the same nodes, links, cameras, meshes and ranks;
    /// only cache flags may differ.
    pub closed spec fn same_structure(&self, other: &SceneGraph) -> bool {
        &&& self.nodes@.len() == other.nodes@.len()
        &&& self.rank@ == other.rank@
        &&& self.rank_bound@ == other.rank_bound@
        &&& self.camera_nodes@ == other.camera_nodes@
        &&& forall|n: int| 0 <= n < self.nodes@.len() ==> {
            &&& (#[trigger] self.nodes@[n]).children@ == other.nodes@[n].children@
            &&& self.nodes@[n].parent == other.nodes@[n].parent
            &&& self.nodes@[n].camera == other.nodes@[n].camera
            &&& self.nodes@[n].has_mesh == other.nodes@[n].has_mesh
        }
    }

    pub proof fn lemma_same_structure(&self, other: &SceneGraph)
        requires
            self.same_structure(other),
            other.structure_ok(),
        ensures
            self.structure_ok(),
            self.node_count() == other.node_count(),
            self.camera_count() == other.camera_count(),
            forall|n: int| 0 <= n < self.node_count() ==> {
                &&& #[trigger] self.children(n) == other.children(n)
                &&& self.parent(n) == other.parent(n)
                &&& self.camera(n) == other.camera(n)
                &&& self.has_mesh(n) == other.has_mesh(n)
                &&& self.rank(n) == other.rank(n)
            },
            forall|c: int| 0 <= c < self.camera_count() ==> #[trigger] self.camera_node(c) == other.camera_node(c),
    {
        assert forall|n: int, i: int|
            0 <= n < self.nodes@.len() && 0 <= i < self.nodes@[n].children@.len() implies {
                let c = #[trigger] self.nodes@[n].children@[i];
                &&& c < self.nodes@.len()
                &&& self.rank@[c as int] < self.rank@[n]
            } by {
            assert(self.nodes@[n].children@ == other.nodes@[n].children@);
            other.lemma_child(n, i);
        }
        assert forall|n: int| 0 <= n < self.nodes@.len() implies {
            let rec = #[trigger] self.nodes@[n];
            &&& (rec.parent matches Some(p) ==> p < self.nodes@.len() && self.nodes@[p as int].children@.contains(n as usize))
            &&& (rec.camera matches Some(c) ==> c < self.camera_nodes@.len())
        } by {
            let rec = other.nodes@[n];
            if rec.parent is Some {
                let p = rec.parent->0 as int;
                assert(self.nodes@[p].children@ == other.nodes@[p].children@);
            }
        }
    }

    /// Resetting from `a` only reaches nodes of no higher rank.
    proof fn lemma_invalidates_rank(&self, a: int, x: int)
        requires
            self.structure_ok(),
            0 <= a < self.node_count(),
            self.invalidates(a, x),
        ensures
            0 <= x < self.node_count(),
            self.rank(x) <= self.rank(a),
        decreases self.rank(a),
    {
        if a != x {
            let i = choose|i: int| 0 <= i < self.children(a).len() && self.invalidates(#[trigger] self.children(a)[i] as int, x);
            self.lemma_child(a, i);
            self.lemma_invalidates_rank(self.children(a)[i] as int, x);
        }
    }

    /// What resetting from `a` reaches is closed under going to the
    /// children of cached nodes.
    proof fn lemma_invalidates_step(&self, a: int, y: int, k: int)
        requires
            self.structure_ok(),
            0 <= a < self.node_count(),
            self.invalidates(a, y),
            self.global_cached(y),
            0 <= y < self.node_count(),
            0 <= k < self.children(y).len(),
        ensures
            self.invalidates(a, self.children(y)[k] as int),
        decreases self.rank(a),
    {
        self.lemma_child(y, k);
        let c = self.children(y)[k] as int;
        if a == y {
            assert(self.invalidates(c, c));
            assert(self.invalidates(a, c));
        } else {
            let i = choose|i: int| 0 <= i < self.children(a).len() && self.invalidates(#[trigger] self.children(a)[i] as int, y);
            self.lemma_child(a, i);
            self.lemma_invalidates_step(self.children(a)[i] as int, y, k);
        }
    }

    /// A set closed under the children of cached nodes (up to rank
    /// `bound`) holds everything that resetting from one of its members reaches.
    proof fn lemma_closed_reach(&self, set: spec_fn(int) -> bool, bound: nat, b: int, x: int)
        requires
            self.structure_ok(),
            0 <= b < self.node_count(),
            self.rank(b) <= bound,
            set(b),
            self.invalidates(b, x),
            forall|y: int, k: int|
                0 <= y < self.node_count() && set(y) && self.global_cached(y) && self.rank(y) <= bound && 0 <= k
                    < self.children(y).len() ==> set(#[trigger] self.children(y)[k] as int),
        ensures
            set(x),
        decreases self.rank(b),
    {
        if b != x {
            let i = choose|i: int| 0 <= i < self.children(b).len() && self.invalidates(#[trigger] self.children(b)[i] as int, x);
            self.lemma_child(b, i);
            self.lemma_closed_reach(set, bound, self.children(b)[i] as int, x);
        }
    }

    /// Clearing the world-transform flags of a closed set does not change
    /// what resetting reaches outside that set.
    proof fn lemma_invalidates_transfer(
        s0: &SceneGraph,
        s: &SceneGraph,
        set: spec_fn(int) -> bool,
        bound: nat,
        a: int,
        x: int,
    )
        requires
            s0.structure_ok(),
            s.same_structure(s0),
            0 <= a < s0.node_count(),
            s0.rank(a) <= bound,
            !set(x),
            forall|y: int| 0 <= y < s0.node_count() ==> #[trigger] s.global_cached(y) == (s0.global_cached(y) && !set(y)),
            forall|y: int, k: int|
                0 <= y < s0.node_count() && set(y) && s0.global_cached(y) && s0.rank(y) <= bound && 0 <= k
                    < s0.children(y).len() ==> set(#[trigger] s0.children(y)[k] as int),
        ensures
            s.invalidates(a, x) == s0.invalidates(a, x),
        decreases s0.rank(a),
    {
        s.lemma_same_structure(s0);
        if a != x {
            assert forall|i: int| 0 <= i < s0.children(a).len() implies s.invalidates(#[trigger] s0.children(a)[i] as int, x)
                == s0.invalidates(s0.children(a)[i] as int, x) by {
                s0.lemma_child(a, i);
                Self::lemma_invalidates_transfer(s0, s, set, bound, s0.children(a)[i] as int, x);
            }
            assert(s.children(a) == s0.children(a));
            if s0.global_cached(a) && set(a) && s0.invalidates(a, x) {
                s0.lemma_closed_reach(set, bound, a, x);
            }
        }
    }

    /// The cache flags of `self` are those of `s0` with `n` and everything
    /// reached from the first `k` children of `n` cleared.
    pub open spec fn cleared_through_children(&self, s0: &SceneGraph, n: int, k: int) -> bool {
        &&& forall|x: int| 0 <= x < s0.node_count() ==> #[trigger] self.global_cached(x) == (s0.global_cached(x) && x != n
            && !s0.invalidated_by_children(n, k, x))
        &&& forall|x: int| 0 <= x < s0.node_count() ==> #[trigger] self.normal_cached(x) == (s0.normal_cached(x) && x != n
            && !s0.invalidated_by_children(n, k, x))
    }

    /// The cache flags of `self` are those of `s0` with everything that
    /// resetting `n` reaches cleared.
    pub open spec fn reset_from(&self, s0: &SceneGraph, n: int) -> bool {
        &&& forall|x: int| 0 <= x < s0.node_count() ==> #[trigger] self.global_cached(x) == (s0.global_cached(x)
            && !s0.invalidates(n, x))
        &&& forall|x: int| 0 <= x < s0.node_count() ==> #[trigger] self.normal_cached(x) == (s0.normal_cached(x)
            && !s0.invalidates(n, x))
    }

    /// The loop of [`SceneGraph::reset_rec`] over the children of `n`,
    /// from the `i`-th on.
    fn reset_children(&mut self, n: usize, i: usize, Ghost(s0): Ghost<SceneGraph>)
        requires
            s0.structure_ok(),
            old(self).same_structure(&s0),
            n < s0.node_count(),
            s0.global_cached(n as int),
            i <= s0.children(n as int).len(),
            old(self).cleared_through_children(&s0, n as int, i as int),
        ensures
            final(self).same_structure(&s0),
            final(self).cleared_through_children(&s0, n as int, s0.children(n as int).len() as int),
        decreases s0.rank(n as int), s0.children(n as int).len() - i,
    {
        proof {
            old(self).lemma_same_structure(&s0);
        }
        if i == self.nodes[n].children.len() {
            return;
        }
        let c = self.nodes[n].children[i];
        proof {
            s0.lemma_child(n as int, i as int);
        }
        let ghost s_i = *self;
        let ghost set = |y: int| y == n || s0.invalidated_by_children(n as int, i as int, y);
        self.reset_rec(c);
        proof {
            assert(s0.children(n as int)[i as int] == c);
            assert forall|y: int, k: int|
                0 <= y < s0.node_count() && set(y) && s0.global_cached(y) && s0.rank(y) <= s0.rank(c as int) && 0 <= k
                    < s0.children(y).len() implies set(#[trigger] s0.children(y)[k] as int) by {
                if y != n {
                    let j = choose|j: int| 0 <= j < i && s0.invalidates(#[trigger] s0.children(n as int)[j] as int, y);
                    s0.lemma_child(n as int, j);
                    s0.lemma_invalidates_step(s0.children(n as int)[j] as int, y, k);
                }
            }
            assert forall|x: int| 0 <= x < s0.node_count() implies (s_i.invalidates(c as int, x) || set(x)) == (
            s0.invalidated_by_children(n as int, i + 1, x) || x == n) by {
                if set(x) {
                    if x != n {
                        let j = choose|j: int| 0 <= j < i && s0.invalidates(#[trigger] s0.children(n as int)[j] as int, x);
                        assert(0 <= j < i + 1 && s0.invalidates(s0.children(n as int)[j] as int, x));
                    }
                } else {
                    Self::lemma_invalidates_transfer(&s0, &s_i, set, s0.rank(c as int), c as int, x);
                    if s0.invalidates(c as int, x) {
                        assert(0 <= i < i + 1 && s0.invalidates(s0.children(n as int)[i as int] as int, x));
                    } else {
                        assert forall|j: int| 0 <= j < i + 1 implies !s0.invalidates(#[trigger] s0.children(n as int)[j] as int, x) by {
                            if j < i {
                                assert(!(0 <= j < i && s0.invalidates(s0.children(n as int)[j] as int, x)));
                            }
                        }
                    }
                }
            }
            assert(self.cleared_through_children(&s0, n as int, i + 1));
        }
        self.reset_children(n, i + 1, Ghost(s0));
    }

    /// Clears the cached transforms of `n` and, when its world transform
    /// was cached, resets its children in turn.
    fn reset_rec(&mut self, n: usize)
        requires
            old(self).structure_ok(),
            n < old(self).node_count(),
        ensures
            final(self).same_structure(old(self)),
            final(self).reset_from(old(self), n as int),
        decreases old(self).rank(n as int), old(self).children(n as int).len() + 1,
    {
        let ghost s0 = *self;
        let was_present = self.nodes[n].global_cached;
        self.nodes[n].normal_cached = false;
        self.nodes[n].global_cached = false;
        if was_present {
            assert(self.cleared_through_children(&s0, n as int, 0));
            self.reset_children(n, 0, Ghost(s0));
        }
        proof {
            assert forall|x: int| 0 <= x < s0.node_count() implies s0.invalidates(n as int, x) == (x == n || (was_present
                && s0.invalidated_by_children(n as int, s0.children(n as int).len() as int, x))) by {}
            if !was_present {
                assert forall|x: int| 0 <= x < s0.node_count() && x != n implies self.nodes@[x] == s0.nodes@[x] by {}
            }
        }
    }
}



impl SceneGraph {
    /// Node `n` was most recently added as a child of `p`, so its rank is lower.
    pub proof fn lemma_parent(&self, n: int)
        requires
            self.structure_ok(),
            0 <= n < self.node_count(),
            self.parent(n) is Some,
        ensures
            self.parent(n)->0 < self.node_count(),
            self.rank(n) < self.rank(self.parent(n)->0 as int),
            exists|k: int| 0 <= k < self.children(self.parent(n)->0 as int).len()
                && #[trigger] self.children(self.parent(n)->0 as int)[k] == n,
    {
        let rec = self.nodes@[n];
        let p = rec.parent->0 as int;
        assert(self.nodes@[p].children@.contains(n as usize));
        let k = choose|k: int| 0 <= k < self.nodes@[p].children@.len() && self.nodes@[p].children@[k] == n as usize;
        self.lemma_child(p, k);
    }

    /// Resetting from `n` in a consistent graph leaves a consistent graph.
    proof fn lemma_reset_keeps_caches(&self, s0: &SceneGraph, n: int)
        requires
            s0.wf(),
            0 <= n < s0.node_count(),
            self.same_structure(s0),
            self.reset_from(s0, n),
        ensures
            self.wf(),
    {
        self.lemma_same_structure(s0);
        assert forall|x: int| 0 <= x < self.nodes@.len() implies {
            let rec = #[trigger] self.nodes@[x];
            &&& (rec.global_cached && rec.parent is Some ==> self.nodes@[rec.parent->0 as int].global_cached)
            &&& (rec.normal_cached ==> rec.global_cached)
        } by {
            assert(self.global_cached(x) == (s0.global_cached(x) && !s0.invalidates(n, x)));
            assert(self.normal_cached(x) == (s0.normal_cached(x) && !s0.invalidates(n, x)));
            assert(s0.nodes@[x].normal_cached ==> s0.nodes@[x].global_cached);
            if self.global_cached(x) && self.parent(x) is Some {
                let p = self.parent(x)->0 as int;
                assert(s0.nodes@[x].global_cached && s0.nodes@[x].parent is Some ==> s0.nodes@[p].global_cached);
                s0.lemma_parent(x);
                let k = choose|k: int| 0 <= k < s0.children(p).len() && #[trigger] s0.children(p)[k] == x;
                if s0.invalidates(n, p) {
                    s0.lemma_invalidates_step(n, p, k);
                }
                assert(self.global_cached(p));
            }
        }
    }

    /// Clears the cached transforms of `n` and of every node whose world
    /// transform was computed through it: called whenever the local
    /// transform of `n` changes.
    pub fn reset_transforms(&mut self, n: usize)
        requires
            old(self).wf(),
            n < old(self).node_count(),
        ensures
            final(self).wf(),
            final(self).same_structure(old(self)),
            final(self).reset_from(old(self), n as int),
    {
        self.reset_rec(n);
        proof {
            self.lemma_reset_keeps_caches(old(self), n as int);
        }
    }

    /// The nodes whose world transforms must be computed to get the one of
    /// `n`: the uncached nodes on the way up from `n`, topmost first.
    pub open spec fn uncached_chain(&self, n: int) -> Seq<usize>
        decreases self.rank_bound() - self.rank(n),
        when self.structure_ok() && 0 <= n < self.node_count()
    {
        if self.global_cached(n) {
            Seq::empty()
        } else {
            match self.parent(n) {
                Some(p) => {
                    proof {
                        self.lemma_parent(n);
                        self.lemma_rank_bound(p as int);
                    }
                    self.uncached_chain(p as int).push(n as usize)
                },
                None => seq![n as usize],
            }
        }
    }

    pub proof fn lemma_rank_bound(&self, n: int)
        requires
            self.structure_ok(),
            0 <= n < self.node_count(),
        ensures
            self.rank(n) < self.rank_bound(),
    {
        assert(self.rank@[n] < self.rank_bound@);
    }

    /// Every node of the chain of `n` is a valid node, and `n` is its last.
    proof fn lemma_chain(&self, n: int)
        requires
            self.structure_ok(),
            0 <= n < self.node_count(),
        ensures
            forall|i: int| 0 <= i < self.uncached_chain(n).len() ==> #[trigger] self.uncached_chain(n)[i] < self.node_count(),
            !self.global_cached(n) ==> self.uncached_chain(n).len() > 0 && self.uncached_chain(n).last() == n,
        decreases self.rank_bound() - self.rank(n),
    {
        if !self.global_cached(n) {
            if let Some(p) = self.parent(n) {
                self.lemma_parent(n);
                self.lemma_rank_bound(p as int);
                self.lemma_chain(p as int);
            }
        }
    }

    proof fn lemma_chain_contains(&self, n: int, x: int)
        requires
            self.structure_ok(),
            0 <= n < self.node_count(),
            0 <= x < self.node_count(),
            !self.global_cached(n),
        ensures
            self.uncached_chain(n).contains(x as usize) == (x == n || (self.parent(n) is Some
                && self.uncached_chain(self.parent(n)->0 as int).contains(x as usize))),
    {
        if self.parent(n) is Some {
            let p = self.parent(n)->0;
            self.lemma_parent(n);
            self.lemma_rank_bound(p as int);
            let pc = self.uncached_chain(p as int);
            assert(self.uncached_chain(n) == pc.push(n as usize));
            let pcn = pc.push(n as usize);
            if pcn.contains(x as usize) && x != n {
                let k = choose|k: int| 0 <= k < pcn.len() && #[trigger] pcn[k] == x as usize;
                assert(pc[k] == x as usize);
            }
            if pc.contains(x as usize) {
                let k = choose|k: int| 0 <= k < pc.len() && #[trigger] pc[k] == x as usize;
                assert(pcn[k] == x as usize);
            }
            assert(pcn[pc.len() as int] == n as usize);
        } else {
            assert(self.uncached_chain(n) == seq![n as usize]);
            assert(seq![n as usize][0] == n as usize);
        }
    }

    /// Marks the world transforms of `n` and of its uncached ancestors as
    /// cached, and returns the nodes whose transforms the caller has to
    /// compute, each after its parent.
    pub fn global_transform(&mut self, n: usize) -> (plan: Vec<usize>)
        requires
            old(self).wf(),
            n < old(self).node_count(),
        ensures
            final(self).wf(),
            final(self).same_structure(old(self)),
            plan@ == old(self).uncached_chain(n as int),
            final(self).global_cached(n as int),
            forall|x: int| 0 <= x < old(self).node_count() ==> #[trigger] final(self).global_cached(x) == (old(self).global_cached(x)
                || old(self).uncached_chain(n as int).contains(x as usize)),
            forall|x: int| 0 <= x < old(self).node_count() ==> #[trigger] final(self).normal_cached(x) == old(self).normal_cached(x),
        decreases old(self).rank_bound() - old(self).rank(n as int),
    {
        if self.nodes[n].global_cached {
            return Vec::new();
        }
        let ghost s0 = *self;
        let mut plan = match self.nodes[n].parent {
            Some(p) => {
                proof {
                    self.lemma_parent(n as int);
                    self.lemma_rank_bound(p as int);
                }
                self.global_transform(p)
            },
            None => Vec::new(),
        };
        let ghost s1 = *self;
        proof {
            s1.lemma_same_structure(&s0);
        }
        self.nodes[n].global_cached = true;
        plan.push(n);
        proof {
            s0.lemma_chain(n as int);
            assert(plan@ =~= s0.uncached_chain(n as int));
            assert(self.same_structure(&s0));
            self.lemma_same_structure(&s0);
            assert forall|x: int| 0 <= x < self.nodes@.len() implies {
                let rec = #[trigger] self.nodes@[x];
                &&& (rec.global_cached && rec.parent is Some ==> self.nodes@[rec.parent->0 as int].global_cached)
                &&& (rec.normal_cached ==> rec.global_cached)
            } by {
                if x != n {
                    assert(self.nodes@[x] == s1.nodes@[x]);
                    assert(s1.nodes@[x].global_cached && s1.nodes@[x].parent is Some ==> s1.nodes@[s1.nodes@[x].parent->0 as int].global_cached);
                    assert(s1.nodes@[x].normal_cached ==> s1.nodes@[x].global_cached);
                }
            }
            assert forall|x: int| 0 <= x < s0.node_count() implies #[trigger] self.global_cached(x) == (s0.global_cached(x)
                || s0.uncached_chain(n as int).contains(x as usize)) by {
                s0.lemma_chain_contains(n as int, x);
                if x != n {
                    assert(self.nodes@[x] == s1.nodes@[x]);
                    if s0.parent(n as int) is Some {
                        assert(s1.global_cached(x) == (s0.global_cached(x) || s0.uncached_chain(s0.parent(n as int)->0 as int).contains(x as usize)));
                    } else {
                        assert(s1.global_cached(x) == s0.global_cached(x));
                    }
                }
            }
            assert forall|x: int| 0 <= x < s0.node_count() implies #[trigger] self.normal_cached(x) == s0.normal_cached(x) by {
                if x != n {
                    assert(self.nodes@[x] == s1.nodes@[x]);
                } 
                assert(s1.normal_cached(x) == s0.normal_cached(x));
            }
        }
        plan
    }

    /// Marks the normal transform of `n` as cached, together with the world
    /// transforms it is computed from. Returns the world transforms to
    /// compute, and whether the normal transform itself must be computed.
    #[verifier::rlimit(40)]
    pub fn normal_transform(&mut self, n: usize) -> (r: (Vec<usize>, bool))
        requires
            old(self).wf(),
            n < old(self).node_count(),
        ensures
            final(self).wf(),
            final(self).same_structure(old(self)),
            final(self).normal_cached(n as int),
            old(self).normal_cached(n as int) ==> r.0@ == Seq::<usize>::empty() && !r.1 && *final(self) == *old(self),
            !old(self).normal_cached(n as int) ==> {
                &&& r.0@ == old(self).uncached_chain(n as int)
                &&& r.1
                &&& forall|x: int| 0 <= x < old(self).node_count() ==> #[trigger] final(self).global_cached(x) == (
                old(self).global_cached(x) || old(self).uncached_chain(n as int).contains(x as usize))
                &&& forall|x: int| 0 <= x < old(self).node_count() ==> #[trigger] final(self).normal_cached(x) == (
                old(self).normal_cached(x) || x == n)
            },
    {
        if self.nodes[n].normal_cached {
            return (Vec::new(), false);
        }
        let plan = self.global_transform(n);
        let ghost s1 = *self;
        self.nodes[n].normal_cached = true;
        proof {
            assert(self.same_structure(&s1));
            self.lemma_same_structure(&s1);
            s1.lemma_same_structure(old(self));
            assert forall|x: int| 0 <= x < self.nodes@.len() implies {
                let rec = #[trigger] self.nodes@[x];
                &&& (rec.global_cached && rec.parent is Some ==> self.nodes@[rec.parent->0 as int].global_cached)
                &&& (rec.normal_cached ==> rec.global_cached)
            } by {
                if x != n {
                    assert(self.nodes@[x] == s1.nodes@[x]);
                    assert(s1.nodes@[x].global_cached && s1.nodes@[x].parent is Some ==> s1.nodes@[s1.nodes@[x].parent->0 as int].global_cached);
                    assert(s1.nodes@[x].normal_cached ==> s1.nodes@[x].global_cached);
                } else {
                    assert(s1.global_cached(n as int));
                    assert(s1.nodes@[x].global_cached && s1.nodes@[x].parent is Some ==> s1.nodes@[s1.nodes@[x].parent->0 as int].global_cached);
                }
            }
            assert forall|x: int| 0 <= x < old(self).node_count() implies #[trigger] self.global_cached(x) == s1.global_cached(x) by {
                if x != n { assert(self.nodes@[x] == s1.nodes@[x]); }
            }
            assert forall|x: int| 0 <= x < old(self).node_count() implies #[trigger] self.normal_cached(x) == (
                old(self).normal_cached(x) || x == n) by {
                assert(s1.normal_cached(x) == old(self).normal_cached(x));
                if x != n { assert(self.nodes@[x] == s1.nodes@[x]); }
            }
        }
        (plan, true)
    }
}


impl SceneGraph {
    /// Whether a child of `y` reaches `b`, so `y` does too.
    pub proof fn lemma_reaches_from_child(&self, y: int, i: int, b: int)
        requires
            self.structure_ok(),
            0 <= y < self.node_count(),
            0 <= i < self.children(y).len(),
            self.reaches(self.children(y)[i] as int, b),
        ensures
            self.reaches(y, b),
    {
        self.lemma_child(y, i);
    }

    /// Both graphs have the same number of nodes and cameras, the same
    /// links and ranks.
    closed spec fn same_links(&self, other: &SceneGraph) -> bool {
        &&& self.nodes@.len() == other.nodes@.len()
        &&& self.camera_nodes@.len() == other.camera_nodes@.len()
        &&& self.rank@ == other.rank@
        &&& self.rank_bound@ == other.rank_bound@
        &&& forall|n: int| 0 <= n < self.nodes@.len() ==> {
            &&& (#[trigger] self.nodes@[n]).children@ == other.nodes@[n].children@
            &&& self.nodes@[n].parent == other.nodes@[n].parent
        }
    }

    /// Only cameras and cache flags changed: the structure stays consistent
    /// when the cameras are in range.
    proof fn lemma_links_structure(&self, other: &SceneGraph)
        requires
            other.structure_ok(),
            self.same_links(other),
            forall|n: int| 0 <= n < self.nodes@.len() ==> ((#[trigger] self.nodes@[n]).camera matches Some(c) ==> c
                < self.camera_nodes@.len()),
            forall|c: int| 0 <= c < self.camera_nodes@.len() ==> (#[trigger] self.camera_nodes@[c] matches Some(n)
                ==> n < self.nodes@.len()),
        ensures
            self.structure_ok(),
    {
        assert forall|n: int, i: int|
            0 <= n < self.nodes@.len() && 0 <= i < self.nodes@[n].children@.len() implies {
                let c = #[trigger] self.nodes@[n].children@[i];
                &&& c < self.nodes@.len()
                &&& self.rank@[c as int] < self.rank@[n]
            } by {
            assert(self.nodes@[n].children@ == other.nodes@[n].children@);
            other.lemma_child(n, i);
        }
        assert forall|x: int| 0 <= x < self.nodes@.len() implies {
            let rec = #[trigger] self.nodes@[x];
            &&& (rec.parent matches Some(p) ==> p < self.nodes@.len() && self.nodes@[p as int].children@.contains(x as usize))
            &&& (rec.camera matches Some(c) ==> c < self.camera_nodes@.len())
        } by {
            let rec = other.nodes@[x];
            assert(rec.parent matches Some(p) ==> p < other.nodes@.len() && other.nodes@[p as int].children@.contains(x as usize));
            if rec.parent is Some {
                assert(self.nodes@[rec.parent->0 as int].children@ == other.nodes@[rec.parent->0 as int].children@);
            }
        }
        assert forall|n: int| 0 <= n < self.nodes@.len() implies #[trigger] self.rank@[n] < self.rank_bound@ by {
            assert(other.rank@[n] < other.rank_bound@);
        }
    }

    /// Same links and same cache flags keep the caches consistent.
    proof fn lemma_links_caches(&self, other: &SceneGraph)
        requires
            other.structure_ok(),
            other.caches_ok(),
            self.same_links(other),
            forall|n: int| 0 <= n < self.nodes@.len() ==> (#[trigger] self.nodes@[n]).global_cached
                == other.nodes@[n].global_cached && self.nodes@[n].normal_cached == other.nodes@[n].normal_cached,
        ensures
            self.caches_ok(),
    {
        assert forall|x: int| 0 <= x < self.nodes@.len() implies {
            let rec = #[trigger] self.nodes@[x];
            &&& (rec.global_cached && rec.parent is Some ==> self.nodes@[rec.parent->0 as int].global_cached)
            &&& (rec.normal_cached ==> rec.global_cached)
        } by {
            let rec = other.nodes@[x];
            assert(rec.global_cached && rec.parent is Some ==> other.nodes@[rec.parent->0 as int].global_cached);
            assert(rec.normal_cached ==> rec.global_cached);
            assert(rec.parent matches Some(p) ==> p < other.nodes@.len() && other.nodes@[p as int].children@.contains(x as usize));
            if rec.parent is Some {
                assert(self.nodes@[rec.parent->0 as int].global_cached == other.nodes@[rec.parent->0 as int].global_cached);
            }
        }
    }

    /// The ranks after linking `child` below `parent`: every node that
    /// reaches `parent` is raised above `child`.
    closed spec fn raised_ranks(s0: &SceneGraph, parent: int, child: int) -> Seq<nat> {
        Seq::new(
            s0.rank@.len(),
            |x: int| if s0.reaches(x, parent) { s0.rank@[x] + s0.rank@[child] + 1 } else { s0.rank@[x] },
        )
    }

    proof fn lemma_add_child_structure(&self, s0: &SceneGraph, parent: int, child: int)
        requires
            s0.structure_ok(),
            0 <= parent < s0.node_count(),
            0 <= child < s0.node_count(),
            !s0.reaches(child, parent),
            self.nodes@.len() == s0.nodes@.len(),
            self.camera_nodes@ == s0.camera_nodes@,
            self.rank@ == Self::raised_ranks(s0, parent, child),
            self.rank_bound@ == s0.rank_bound@ + s0.rank@[child] + 1,
            self.nodes@[parent].children@ == s0.nodes@[parent].children@.push(child as usize),
            self.nodes@[child].parent == Some(parent as usize),
            forall|n: int| 0 <= n < self.nodes@.len() ==> {
                &&& (n != parent ==> (#[trigger] self.nodes@[n]).children@ == s0.nodes@[n].children@)
                &&& (n != child ==> self.nodes@[n].parent == s0.nodes@[n].parent)
                &&& self.nodes@[n].camera == s0.nodes@[n].camera
            },
        ensures
            self.structure_ok(),
    {
        assert(s0.reaches(parent, parent));
        assert forall|n: int| 0 <= n < self.nodes@.len() implies #[trigger] self.rank@[n] < self.rank_bound@ by {
            s0.lemma_rank_bound(n);
            s0.lemma_rank_bound(child);
        }
        assert forall|n: int, i: int|
            0 <= n < self.nodes@.len() && 0 <= i < self.nodes@[n].children@.len() implies {
                let c = #[trigger] self.nodes@[n].children@[i];
                &&& c < self.nodes@.len()
                &&& self.rank@[c as int] < self.rank@[n]
            } by {
            if n == parent && i == s0.children(n).len() {
                assert(self.nodes@[n].children@[i] == child);
            } else {
                assert(self.nodes@[n].children@[i] == s0.children(n)[i]);
                s0.lemma_child(n, i);
                let c = s0.children(n)[i] as int;
                if s0.reaches(c, parent) {
                    s0.lemma_reaches_from_child(n, i, parent);
                }
            }
        }
        assert forall|n: int| 0 <= n < self.nodes@.len() implies {
            let rec = #[trigger] self.nodes@[n];
            &&& (rec.parent matches Some(p) ==> p < self.nodes@.len() && self.nodes@[p as int].children@.contains(n as usize))
            &&& (rec.camera matches Some(c) ==> c < self.camera_nodes@.len())
        } by {
            if n == child {
                assert(self.nodes@[parent].children@.last() == child as usize);
            } else {
                let rec = s0.nodes@[n];
                assert(rec.parent matches Some(p) ==> p < s0.nodes@.len() && s0.nodes@[p as int].children@.contains(n as usize));
                assert(rec.camera matches Some(c) ==> c < s0.camera_nodes@.len());
                if rec.parent is Some {
                    let p = rec.parent->0 as int;
                    let k = choose|k: int| 0 <= k < s0.nodes@[p].children@.len() && s0.nodes@[p].children@[k] == n as usize;
                    assert(self.nodes@[p].children@[k] == n as usize);
                }
            }
        }
    }

    proof fn lemma_add_child_caches(&self, s1: &SceneGraph, child: int)
        requires
            s1.structure_ok(),
            s1.caches_ok(),
            0 <= child < s1.nodes@.len(),
            !s1.nodes@[child].global_cached,
            self.nodes@.len() == s1.nodes@.len(),
            forall|n: int| 0 <= n < self.nodes@.len() ==> {
                &&& (n != child ==> (#[trigger] self.nodes@[n]).parent == s1.nodes@[n].parent)
                &&& self.nodes@[n].global_cached == s1.nodes@[n].global_cached
                &&& self.nodes@[n].normal_cached == s1.nodes@[n].normal_cached
            },
        ensures
            self.caches_ok(),
    {
        assert forall|x: int| 0 <= x < self.nodes@.len() implies {
            let rec = #[trigger] self.nodes@[x];
            &&& (rec.global_cached && rec.parent is Some ==> self.nodes@[rec.parent->0 as int].global_cached)
            &&& (rec.normal_cached ==> rec.global_cached)
        } by {
            let rec = s1.nodes@[x];
            assert(rec.global_cached && rec.parent is Some ==> s1.nodes@[rec.parent->0 as int].global_cached);
            assert(rec.normal_cached ==> rec.global_cached);
            assert(rec.parent matches Some(p) ==> p < s1.nodes@.len() && s1.nodes@[p as int].children@.contains(x as usize));
            if x != child && rec.parent is Some {
                assert(self.nodes@[rec.parent->0 as int].global_cached == s1.nodes@[rec.parent->0 as int].global_cached);
            }
        }
    }

    /// Makes `child` a child of `parent`: it is appended to the children of
    /// `parent`, `parent` becomes its parent, and its cached transforms (and
    /// those computed through them) are cleared. Linking a node below one
    /// of its own descendants (or itself) is refused by the precondition,
    /// as it would make the graph cyclic.
    pub fn add_child(&mut self, parent: usize, child: usize)
        requires
            old(self).wf(),
            parent < old(self).node_count(),
            child < old(self).node_count(),
            !old(self).reaches(child as int, parent as int),
        ensures
            final(self).wf(),
            final(self).node_count() == old(self).node_count(),
            final(self).camera_count() == old(self).camera_count(),
            final(self).children(parent as int) == old(self).children(parent as int).push(child),
            final(self).parent(child as int) == Some(parent),
            forall|n: int| 0 <= n < old(self).node_count() ==> {
                &&& (n != parent ==> #[trigger] final(self).children(n) == old(self).children(n))
                &&& (n != child ==> final(self).parent(n) == old(self).parent(n))
                &&& final(self).camera(n) == old(self).camera(n)
                &&& final(self).has_mesh(n) == old(self).has_mesh(n)
            },
            forall|c: int| 0 <= c < old(self).camera_count() ==> #[trigger] final(self).camera_node(c) == old(self).camera_node(c),
            final(self).reset_from(old(self), child as int),
    {
        let ghost s0 = *self;
        self.reset_rec(child);
        proof {
            self.lemma_reset_keeps_caches(&s0, child as int);
            self.lemma_same_structure(&s0);
            assert(s0.invalidates(child as int, child as int));
            assert(!self.global_cached(child as int));
        }
        let ghost s1 = *self;
        self.nodes[parent].children.push(child);
        self.nodes[child].parent = Some(parent);
        self.rank = Ghost(Self::raised_ranks(&s0, parent as int, child as int));
        self.rank_bound = Ghost(s0.rank_bound@ + s0.rank@[child as int] + 1);
        proof {
            assert forall|n: int| 0 <= n < self.nodes@.len() implies {
                &&& (n != parent ==> (#[trigger] self.nodes@[n]).children@ == s0.nodes@[n].children@)
                &&& (n != child ==> self.nodes@[n].parent == s0.nodes@[n].parent)
                &&& self.nodes@[n].camera == s0.nodes@[n].camera
            } by {
                assert(s1.nodes@[n].children@ == s0.nodes@[n].children@);
            }
            self.lemma_add_child_structure(&s0, parent as int, child as int);
            self.lemma_add_child_caches(&s1, child as int);
            assert forall|x: int| 0 <= x < s0.node_count() implies #[trigger] self.global_cached(x) == (s0.global_cached(x)
                && !s0.invalidates(child as int, x)) by {
                assert(self.global_cached(x) == s1.global_cached(x));
            }
            assert forall|x: int| 0 <= x < s0.node_count() implies #[trigger] self.normal_cached(x) == (s0.normal_cached(x)
                && !s0.invalidates(child as int, x)) by {
                assert(self.normal_cached(x) == s1.normal_cached(x));
            }
        }
    }

    /// The nodes' links, meshes and cache flags are those of `other`.
    pub open spec fn keeps_links_and_caches(&self, other: &SceneGraph) -> bool {
        &&& self.node_count() == other.node_count()
        &&& forall|x: int| 0 <= x < other.node_count() ==> #[trigger] self.children(x) == other.children(x)
        &&& forall|x: int| 0 <= x < other.node_count() ==> #[trigger] self.parent(x) == other.parent(x)
        &&& forall|x: int| 0 <= x < other.node_count() ==> #[trigger] self.has_mesh(x) == other.has_mesh(x)
        &&& forall|x: int| 0 <= x < other.node_count() ==> #[trigger] self.global_cached(x) == other.global_cached(x)
        &&& forall|x: int| 0 <= x < other.node_count() ==> #[trigger] self.normal_cached(x) == other.normal_cached(x)
    }

    /// Attaches camera `camera` to node `n`, replacing the camera `n` had.
    pub fn attach_camera(&mut self, n: usize, camera: usize)
        requires
            old(self).wf(),
            n < old(self).node_count(),
            camera < old(self).camera_count(),
        ensures
            final(self).wf(),
            final(self).camera(n as int) == Some(camera),
            final(self).camera_node(camera as int) == Some(n),
            final(self).node_count() == old(self).node_count(),
            final(self).camera_count() == old(self).camera_count(),
            forall|x: int| 0 <= x < old(self).node_count() && x != n ==> #[trigger] final(self).camera(x) == old(self).camera(x),
            final(self).keeps_links_and_caches(old(self)),
            forall|c: int| 0 <= c < old(self).camera_count() && c != camera ==> #[trigger] final(self).camera_node(c) == old(self).camera_node(c),
    {
        self.nodes[n].camera = Some(camera);
        self.camera_nodes.set(camera, Some(n));
        proof {
            assert forall|x: int| 0 <= x < old(self).node_count() && x != n implies #[trigger] self.nodes@[x] == old(self).nodes@[x] by {}
            assert forall|x: int| 0 <= x < self.nodes@.len() implies ((#[trigger] self.nodes@[x]).camera matches Some(c) ==> c
                < self.camera_nodes@.len()) by {
                assert(old(self).nodes@[x].camera matches Some(c) ==> c < old(self).camera_nodes@.len());
            }
            assert forall|c: int| 0 <= c < self.camera_nodes@.len() implies (#[trigger] self.camera_nodes@[c] matches Some(m)
                ==> m < self.nodes@.len()) by {
                assert(old(self).camera_nodes@[c] matches Some(m) ==> m < old(self).nodes@.len());
            }
            self.lemma_links_structure(old(self));
            self.lemma_links_caches(old(self));
        }
    }

    /// Moves the camera of `from`, if it has one, to `to`.
    pub fn transfer_camera(&mut self, from: usize, to: usize)
        requires
            old(self).wf(),
            from < old(self).node_count(),
            to < old(self).node_count(),
        ensures
            final(self).wf(),
            final(self).node_count() == old(self).node_count(),
            final(self).camera_count() == old(self).camera_count(),
            old(self).camera(from as int) is None ==> *final(self) == *old(self),
            old(self).camera(from as int) matches Some(c) ==> {
                &&& final(self).camera(to as int) == Some(c)
                &&& (from != to ==> final(self).camera(from as int) is None)
                &&& final(self).camera_node(c as int) == Some(to)
                &&& forall|x: int| 0 <= x < old(self).node_count() && x != from && x != to ==> #[trigger] final(self).camera(x)
                    == old(self).camera(x)
                &&& forall|d: int| 0 <= d < old(self).camera_count() && d != c ==> #[trigger] final(self).camera_node(d)
                    == old(self).camera_node(d)
            },
            final(self).keeps_links_and_caches(old(self)),
    {
        if let Some(camera) = self.nodes[from].camera {
            self.nodes[from].camera = None;
            proof {
                assert forall|x: int| 0 <= x < self.nodes@.len() implies ((#[trigger] self.nodes@[x]).camera matches Some(c) ==> c
                    < self.camera_nodes@.len()) by {
                    assert(old(self).nodes@[x].camera matches Some(c) ==> c < old(self).camera_nodes@.len());
                }
                assert forall|c: int| 0 <= c < self.camera_nodes@.len() implies (#[trigger] self.camera_nodes@[c] matches Some(m)
                    ==> m < self.nodes@.len()) by {
                    assert(old(self).camera_nodes@[c] matches Some(m) ==> m < old(self).nodes@.len());
                }
                self.lemma_links_structure(old(self));
                self.lemma_links_caches(old(self));
                assert(camera < old(self).camera_count()) by {
                    assert(old(self).nodes@[from as int].camera matches Some(c) ==> c < old(self).camera_nodes@.len());
                }
                assert forall|x: int| 0 <= x < old(self).node_count() && x != from implies #[trigger] self.nodes@[x] == old(self).nodes@[x] by {}
                assert(self.keeps_links_and_caches(old(self)));
                assert forall|x: int| 0 <= x < old(self).node_count() && x != from implies #[trigger] self.camera(x) == old(self).camera(x) by {
                    assert(self.nodes@[x] == old(self).nodes@[x]);
                }
            }
            let ghost mid = *self;
            self.attach_camera(to, camera);
            proof {
                assert(self.keeps_links_and_caches(old(self)));
                assert forall|x: int| 0 <= x < old(self).node_count() && x != from && x != to implies #[trigger] self.camera(x)
                    == old(self).camera(x) by {
                    assert(mid.children(x) == old(self).children(x));
                }
            }
        }
    }

    /// The camera attached to node `n`.
    pub fn camera_of(&self, n: usize) -> (r: Option<usize>)
        requires
            n < self.node_count(),
        ensures
            r == self.camera(n as int),
    {
        self.nodes[n].camera
    }

    /// Whether node `n` holds a mesh.
    pub fn mesh_of(&self, n: usize) -> (r: bool)
        requires
            n < self.node_count(),
        ensures
            r == self.has_mesh(n as int),
    {
        self.nodes[n].has_mesh
    }

    /// The node camera `c` is attached to.
    pub fn node_of_camera(&self, c: usize) -> (r: Option<usize>)
        requires
            c < self.camera_count(),
        ensures
            r == self.camera_node(c as int),
    {
        self.camera_nodes[c]
    }

    /// The parent of node `n`.
    pub fn parent_of(&self, n: usize) -> (r: Option<usize>)
        requires
            n < self.node_count(),
        ensures
            r == self.parent(n as int),
    {
        self.nodes[n].parent
    }

    /// The children of node `n`.
    pub fn children_of(&self, n: usize) -> (r: &[usize])
        requires
            n < self.node_count(),
        ensures
            r@ == self.children(n as int),
    {
        self.nodes[n].children.as_slice()
    }

    /// The number of nodes.
    pub fn len(&self) -> (r: usize)
        ensures
            r == self.node_count(),
    {
        self.nodes.len()
    }
}


impl SceneGraph {
    /// Length of the longest downward path from `n`, in edges.
    pub open spec fn depth(&self, n: int) -> nat
        decreases self.rank(n), 1int, 0int,
        when self.structure_ok() && 0 <= n < self.node_count()
    {
        self.children_depth(n, self.children(n).len() as int)
    }

    /// One more than the largest depth among the first `k` children of
    /// `n`; zero when `k` is zero.
    pub open spec fn children_depth(&self, n: int, k: int) -> nat
        decreases self.rank(n), 0int, k,
        when self.structure_ok() && 0 <= n < self.node_count() && k <= self.children(n).len()
    {
        if k <= 0 {
            0
        } else {
            proof {
                self.lemma_child(n, k - 1);
            }
            let d = self.depth(self.children(n)[k - 1] as int) + 1;
            let rest = self.children_depth(n, k - 1);
            if d > rest {
                d
            } else {
                rest
            }
        }
    }

    /// The nodes at or below `n`.
    pub open spec fn reach_set(&self, n: int) -> Set<int> {
        Set::new(|x: int| 0 <= x < self.node_count() && self.reaches(n, x))
    }

    /// Everything below `a` has a rank no higher than `a`'s.
    pub proof fn lemma_reaches_rank(&self, a: int, x: int)
        requires
            self.structure_ok(),
            0 <= a < self.node_count(),
            self.reaches(a, x),
        ensures
            self.rank(x) <= self.rank(a) || x == a,
            x != a ==> 0 <= x < self.node_count() && self.rank(x) < self.rank(a),
        decreases self.rank(a),
    {
        if a != x {
            let i = choose|i: int| 0 <= i < self.children(a).len() && self.reaches(#[trigger] self.children(a)[i] as int, x);
            self.lemma_child(a, i);
            self.lemma_reaches_rank(self.children(a)[i] as int, x);
        }
    }

    /// A positive children depth is reached by one of the children.
    proof fn lemma_children_depth_witness(&self, n: int, k: int)
        requires
            self.structure_ok(),
            0 <= n < self.node_count(),
            0 <= k <= self.children(n).len(),
            self.children_depth(n, k) > 0,
        ensures
            exists|j: int| 0 <= j < k && self.children_depth(n, k) == self.depth(#[trigger] self.children(n)[j] as int) + 1,
        decreases k,
    {
        if k > 0 {
            self.lemma_child(n, k - 1);
            let d = self.depth(self.children(n)[k - 1] as int) + 1;
            if d <= self.children_depth(n, k - 1) {
                self.lemma_children_depth_witness(n, k - 1);
                let j = choose|j: int| 0 <= j < k - 1 && self.children_depth(n, k - 1) == self.depth(#[trigger] self.children(n)[j] as int) + 1;
                assert(0 <= j < k && self.children_depth(n, k) == self.depth(self.children(n)[j] as int) + 1);
            } else {
                assert(self.children_depth(n, k) == self.depth(self.children(n)[k - 1] as int) + 1);
            }
        }
    }

    /// The depth of `n` is less than the number of nodes at or below it,
    /// hence less than the number of nodes.
    pub proof fn lemma_depth_bound(&self, n: int)
        requires
            self.structure_ok(),
            0 <= n < self.node_count(),
        ensures
            self.reach_set(n).finite(),
            self.depth(n) < self.reach_set(n).len(),
            self.reach_set(n).len() <= self.node_count(),
            self.depth(n) < self.node_count(),
        decreases self.rank(n),
    {
        let r = self.reach_set(n);
        vstd::set_lib::lemma_int_range(0, self.node_count() as int);
        assert(r.subset_of(vstd::set_lib::set_int_range(0, self.node_count() as int)));
        vstd::set_lib::lemma_len_subset(r, vstd::set_lib::set_int_range(0, self.node_count() as int));
        assert(r.contains(n));
        if self.depth(n) == 0 {
            assert(r.remove(n).len() == r.len() - 1);
        } else {
            self.lemma_children_depth_witness(n, self.children(n).len() as int);
            let j = choose|j: int| 0 <= j < self.children(n).len() && self.depth(n) == self.depth(#[trigger] self.children(n)[j] as int) + 1;
            self.lemma_child(n, j);
            let c = self.children(n)[j] as int;
            self.lemma_depth_bound(c);
            let rc = self.reach_set(c);
            assert forall|x: int| #[trigger] rc.contains(x) implies r.contains(x) && x != n by {
                self.lemma_reaches_from_child(n, j, x);
                self.lemma_reaches_rank(c, x);
            }
            assert(rc.insert(n).subset_of(r));
            vstd::set_lib::lemma_len_subset(rc.insert(n), r);
        }
    }

    /// Length of the longest downward path from `n`.
    pub fn depth_of(&self, n: usize) -> (r: usize)
        requires
            self.structure_ok(),
            n < self.node_count(),
        ensures
            r == self.depth(n as int),
        decreases self.rank(n as int),
    {
        let children = &self.nodes[n].children;
        let mut best: usize = 0;
        let mut i: usize = 0;
        while i < children.len()
            invariant
                self.structure_ok(),
                n < self.node_count(),
                *children == self.nodes@[n as int].children,
                i <= children@.len(),
                best == self.children_depth(n as int, i as int),
            decreases children@.len() - i,
        {
            let c = children[i];
            proof {
                self.lemma_child(n as int, i as int);
                self.lemma_depth_bound(c as int);
            }
            let d = self.depth_of(c) + 1;
            if d > best {
                best = d;
            }
            i += 1;
        }
        best
    }

    /// Largest depth among `nodes`, zero when there is none.
    pub open spec fn max_depth(&self, nodes: Seq<usize>) -> nat
        decreases nodes.len(),
    {
        if nodes.len() == 0 {
            0
        } else {
            let d = self.depth(nodes.last() as int);
            let rest = self.max_depth(nodes.drop_last());
            if d > rest {
                d
            } else {
                rest
            }
        }
    }

    /// Largest depth among `nodes`, zero when there is none.
    pub fn max_depth_of(&self, nodes: &[usize]) -> (r: usize)
        requires
            self.structure_ok(),
            forall|i: int| 0 <= i < nodes@.len() ==> #[trigger] nodes@[i] < self.node_count(),
        ensures
            r == self.max_depth(nodes@),
    {
        let mut best: usize = 0;
        let mut i: usize = 0;
        while i < nodes.len()
            invariant
                self.structure_ok(),
                forall|j: int| 0 <= j < nodes@.len() ==> #[trigger] nodes@[j] < self.node_count(),
                i <= nodes@.len(),
                best == self.max_depth(nodes@.take(i as int)),
            decreases nodes@.len() - i,
        {
            let d = self.depth_of(nodes[i]);
            assert(nodes@.take(i + 1).drop_last() =~= nodes@.take(i as int));
            if d > best {
                best = d;
            }
            i += 1;
        }
        assert(nodes@.take(nodes@.len() as int) =~= nodes@);
        best
    }
}


impl SceneGraph {
    /// Number of downward paths from `n` (the node itself counts as one).
    pub open spec fn tree_size(&self, n: int) -> nat
        decreases self.rank(n), 1int, 0int,
        when self.structure_ok() && 0 <= n < self.node_count()
    {
        1 + self.children_size(n, self.children(n).len() as int)
    }

    /// Sum of the tree sizes of the first `k` children of `n`.
    pub open spec fn children_size(&self, n: int, k: int) -> nat
        decreases self.rank(n), 0int, k,
        when self.structure_ok() && 0 <= n < self.node_count() && k <= self.children(n).len()
    {
        if k <= 0 {
            0
        } else {
            proof {
                self.lemma_child(n, k - 1);
            }
            self.children_size(n, k - 1) + self.tree_size(self.children(n)[k - 1] as int)
        }
    }

    /// Sum of the tree sizes of the queued nodes.
    pub open spec fn queue_size(&self, queue: Seq<usize>) -> nat
        decreases queue.len(),
    {
        if queue.len() == 0 {
            0
        } else {
            self.tree_size(queue[0] as int) + self.queue_size(queue.drop_first())
        }
    }

    /// All queued nodes are nodes of the graph.
    pub open spec fn valid_queue(&self, queue: Seq<usize>) -> bool {
        forall|i: int| 0 <= i < queue.len() ==> #[trigger] queue[i] < self.node_count()
    }

    proof fn lemma_queue_size_concat(&self, a: Seq<usize>, b: Seq<usize>)
        ensures
            self.queue_size(a + b) == self.queue_size(a) + self.queue_size(b),
        decreases a.len(),
    {
        if a.len() > 0 {
            assert((a + b).drop_first() =~= a.drop_first() + b);
            assert((a + b)[0] == a[0]);
            self.lemma_queue_size_concat(a.drop_first(), b);
        } else {
            assert(a + b =~= b);
        }
    }

    proof fn lemma_queue_size_children(&self, n: int, k: int)
        requires
            self.structure_ok(),
            0 <= n < self.node_count(),
            0 <= k <= self.children(n).len(),
        ensures
            self.queue_size(self.children(n).take(k)) == self.children_size(n, k),
        decreases k,
    {
        if k > 0 {
            let kids = self.children(n);
            self.lemma_queue_size_children(n, k - 1);
            assert(kids.take(k) =~= kids.take(k - 1) + seq![kids[k - 1]]);
            self.lemma_queue_size_concat(kids.take(k - 1), seq![kids[k - 1]]);
            assert(seq![kids[k - 1]].drop_first() =~= Seq::<usize>::empty());
            assert(self.queue_size(seq![kids[k - 1]]) == self.tree_size(kids[k - 1] as int) + self.queue_size(Seq::<usize>::empty()));
            self.lemma_child(n, k - 1);
            assert(self.children_size(n, k) == self.children_size(n, k - 1) + self.tree_size(kids[k - 1] as int));
        } else {
            assert(self.children(n).take(k) =~= Seq::<usize>::empty());
        }
    }

    /// Taking the first queued node and queueing its children makes the
    /// queue smaller by one.
    pub proof fn lemma_queue_step(&self, queue: Seq<usize>)
        requires
            self.structure_ok(),
            queue.len() > 0,
            self.valid_queue(queue),
        ensures
            self.queue_size(queue.drop_first() + self.children(queue[0] as int)) + 1 == self.queue_size(queue),
            self.valid_queue(queue.drop_first() + self.children(queue[0] as int)),
    {
        let n = queue[0] as int;
        let kids = self.children(n);
        self.lemma_queue_size_concat(queue.drop_first(), kids);
        self.lemma_queue_size_children(n, kids.len() as int);
        assert(kids.take(kids.len() as int) =~= kids);
        let next = queue.drop_first() + kids;
        assert forall|i: int| 0 <= i < next.len() implies #[trigger] next[i] < self.node_count() by {
            if i >= queue.len() - 1 {
                self.lemma_child(n, i - (queue.len() - 1));
            } else {
                assert(next[i] == queue[i + 1]);
            }
        }
    }

    /// The nodes below the queued ones in breadth-first order: the first
    /// queued node, then (breadth-first) the rest of the queue followed by
    /// its children. A node below several queued nodes appears once per
    /// path that leads to it.
    pub open spec fn breadth_first(&self, queue: Seq<usize>) -> Seq<usize>
        decreases self.queue_size(queue),
        when self.structure_ok() && self.valid_queue(queue)
    {
        if queue.len() == 0 {
            Seq::empty()
        } else {
            proof {
                self.lemma_queue_step(queue);
            }
            seq![queue[0]] + self.breadth_first(queue.drop_first() + self.children(queue[0] as int))
        }
    }

    /// `n` and every node below it, in breadth-first order starting at `n`.
    pub fn descendants(&self, n: usize) -> (r: Vec<usize>)
        requires
            self.structure_ok(),
            n < self.node_count(),
        ensures
            r@ == self.breadth_first(seq![n]),
    {
        let mut result: Vec<usize> = Vec::new();
        let mut queue: Vec<usize> = Vec::new();
        queue.push(n);
        let mut head: usize = 0;
        assert(queue@.skip(0) =~= seq![n]);
        assert(result@ + self.breadth_first(queue@.skip(0)) =~= self.breadth_first(seq![n]));
        while head < queue.len()
            invariant
                self.structure_ok(),
                n < self.node_count(),
                head <= queue@.len(),
                self.valid_queue(queue@),
                result@ + self.breadth_first(queue@.skip(head as int)) == self.breadth_first(seq![n]),
            decreases self.queue_size(queue@.skip(head as int)),
        {
            let ghost rest = queue@.skip(head as int);
            let node = queue[head];
            proof {
                assert(rest[0] == node);
                assert forall|i: int| 0 <= i < rest.len() implies #[trigger] rest[i] < self.node_count() by {
                    assert(rest[i] == queue@[head + i]);
                }
                self.lemma_queue_step(rest);
            }
            head += 1;
            result.push(node);
            let children = &self.nodes[node].children;
            let ghost before = queue@;
            let mut i: usize = 0;
            while i < children.len()
                invariant
                    self.structure_ok(),
                    node < self.node_count(),
                    *children == self.nodes@[node as int].children,
                    i <= children@.len(),
                    queue@ == before + children@.take(i as int),
                    self.valid_queue(before),
                decreases children@.len() - i,
            {
                queue.push(children[i]);
                assert(children@.take(i as int).push(children@[i as int]) =~= children@.take(i + 1));
                i += 1;
            }
            proof {
                assert(children@.take(children@.len() as int) =~= children@);
                assert(queue@.skip(head as int) =~= rest.drop_first() + self.children(node as int));
                assert(self.breadth_first(rest) == seq![node] + self.breadth_first(rest.drop_first() + self.children(node as int)));
                assert(result@ + self.breadth_first(queue@.skip(head as int)) =~= self.breadth_first(seq![n]));
                assert forall|k: int| 0 <= k < queue@.len() implies #[trigger] queue@[k] < self.node_count() by {
                    if k >= before.len() {
                        self.lemma_child(node as int, k - before.len());
                    }
                }
            }
        }
        proof {
            assert(queue@.skip(head as int) =~= Seq::<usize>::empty());
            assert(result@ =~= self.breadth_first(seq![n]));
        }
        result
    }
}


impl SceneGraph {
    /// Whether `a` is `x` or an ancestor of `x` through parent links: the
    /// nodes whose local transforms the world transform of `x` depends on.
    pub open spec fn above(&self, x: int, a: int) -> bool
        decreases self.rank_bound() - self.rank(x),
        when self.structure_ok() && 0 <= x < self.node_count()
    {
        x == a || match self.parent(x) {
            Some(p) => {
                proof {
                    self.lemma_parent(x);
                    self.lemma_rank_bound(p as int);
                }
                self.above(p as int, a)
            },
            None => false,
        }
    }

    /// A cached world transform was computed from cached transforms all
    /// the way up: every node above a cached node is cached.
    pub proof fn law_cached_ancestors(&self, x: int, a: int)
        requires
            self.wf(),
            0 <= x < self.node_count(),
            self.global_cached(x),
            self.above(x, a),
        ensures
            self.global_cached(a),
        decreases self.rank_bound() - self.rank(x),
    {
        if x != a {
            let p = self.parent(x)->0 as int;
            self.lemma_parent(x);
            self.lemma_rank_bound(p);
            let rec = self.nodes@[x];
            assert(rec.global_cached && rec.parent is Some ==> self.nodes@[rec.parent->0 as int].global_cached);
            self.law_cached_ancestors(p, a);
        }
    }

    /// The transforms planned for `n` come each right after its parent's,
    /// and the first one's parent, if any, already has a cached transform:
    /// computing them in order only ever reads computed transforms.
    pub proof fn law_plan_parent_first(&self, n: int, k: int)
        requires
            self.structure_ok(),
            0 <= n < self.node_count(),
            0 <= k < self.uncached_chain(n).len(),
        ensures
            k > 0 ==> self.parent(self.uncached_chain(n)[k] as int) == Some(self.uncached_chain(n)[k - 1]),
            k == 0 ==> (self.parent(self.uncached_chain(n)[0] as int) matches Some(p) ==> self.global_cached(
                p as int,
            )),
        decreases self.rank_bound() - self.rank(n),
    {
        let c = self.uncached_chain(n);
        if let Some(p) = self.parent(n) {
            self.lemma_parent(n);
            self.lemma_rank_bound(p as int);
            let pc = self.uncached_chain(p as int);
            assert(c == pc.push(n as usize));
            if k < pc.len() {
                self.law_plan_parent_first(p as int, k);
                assert(c[k] == pc[k]);
                if k > 0 {
                    assert(c[k - 1] == pc[k - 1]);
                }
            } else {
                assert(c[k] == n as usize);
                self.lemma_chain(p as int);
                if k > 0 {
                    assert(c[k - 1] == pc.last());
                } else {
                    assert(pc.len() == 0);
                }
            }
        } else {
            assert(c == seq![n as usize]);
        }
    }

    /// Once the world transform of `n` is cached, nothing is planned for it
    /// until a reset clears it.
    pub proof fn law_cached_plans_nothing(&self, n: int)
        requires
            self.structure_ok(),
            0 <= n < self.node_count(),
            self.global_cached(n),
        ensures
            self.uncached_chain(n) == Seq::<usize>::empty(),
    {
    }

    /// A node has a camera at or below it exactly when some node that it
    /// reaches (itself included) holds a camera; in particular a node that
    /// holds a camera has one.
    pub proof fn law_camera_at_or_below(&self, n: int)
        requires
            self.structure_ok(),
            0 <= n < self.node_count(),
        ensures
            self.camera(n) is Some ==> self.subtree_has_camera(n),
            self.subtree_has_camera(n) <==> exists|x: int|
                0 <= x < self.node_count() && self.reaches(n, x) && #[trigger] self.camera(x) is Some,
        decreases self.rank(n),
    {
        if self.camera(n) is Some {
            assert(self.reaches(n, n));
        } else {
            let kids = self.children(n);
            assert forall|i: int| 0 <= i < kids.len() implies (self.subtree_has_camera(#[trigger] kids[i] as int)
                <==> exists|x: int| 0 <= x < self.node_count() && self.reaches(kids[i] as int, x) && #[trigger] self.camera(x) is Some) by {
                self.lemma_child(n, i);
                self.law_camera_at_or_below(kids[i] as int);
            }
            if self.subtree_has_camera(n) {
                let i = choose|i: int| 0 <= i < kids.len() && self.subtree_has_camera(#[trigger] kids[i] as int);
                let x = choose|x: int| 0 <= x < self.node_count() && self.reaches(kids[i] as int, x) && #[trigger] self.camera(x) is Some;
                assert(self.reaches(n, x));
            }
            if exists|x: int| 0 <= x < self.node_count() && self.reaches(n, x) && #[trigger] self.camera(x) is Some {
                let x = choose|x: int| 0 <= x < self.node_count() && self.reaches(n, x) && #[trigger] self.camera(x) is Some;
                assert(x != n);
                let i = choose|i: int| 0 <= i < kids.len() && self.reaches(#[trigger] kids[i] as int, x);
                assert(self.subtree_has_camera(kids[i] as int));
            }
        }
    }

    /// After the transforms of `n` are reset, no node whose world transform
    /// depends on `n` keeps a cached one.
    pub proof fn law_reset_clears_dependents(before: &SceneGraph, after: &SceneGraph, n: int, x: int)
        requires
            before.wf(),
            after.wf(),
            after.same_structure(before),
            after.reset_from(before, n),
            0 <= n < before.node_count(),
            0 <= x < after.node_count(),
            after.above(x, n),
        ensures
            !after.global_cached(x),
    {
        after.lemma_same_structure(before);
        assert(before.invalidates(n, n));
        assert(!after.global_cached(n));
        if after.global_cached(x) {
            after.law_cached_ancestors(x, n);
        }
    }

    /// No node lies below one of its own children: the graph has no cycle.
    pub proof fn law_acyclic(&self, n: int, i: int)
        requires
            self.structure_ok(),
            0 <= n < self.node_count(),
            0 <= i < self.children(n).len(),
        ensures
            !self.reaches(self.children(n)[i] as int, n),
    {
        self.lemma_child(n, i);
        if self.reaches(self.children(n)[i] as int, n) {
            self.lemma_reaches_rank(self.children(n)[i] as int, n);
        }
    }

    /// Every node below a queued node occurs in the breadth-first listing.
    pub proof fn lemma_breadth_first_complete(&self, queue: Seq<usize>, i: int, x: usize)
        requires
            self.structure_ok(),
            self.valid_queue(queue),
            0 <= i < queue.len(),
            self.reaches(queue[i] as int, x as int),
        ensures
            self.breadth_first(queue).contains(x),
        decreases self.queue_size(queue),
    {
        self.lemma_queue_step(queue);
        let n = queue[0] as int;
        let kids = self.children(n);
        let next = queue.drop_first() + kids;
        let bf = self.breadth_first(queue);
        assert(bf == seq![queue[0]] + self.breadth_first(next));
        if i == 0 && x as int == n {
            assert(bf[0] == x);
        } else {
            let j: int = if i > 0 {
                assert(next[i - 1] == queue[i]);
                i - 1
            } else {
                let k = choose|k: int| 0 <= k < kids.len() && self.reaches(#[trigger] kids[k] as int, x as int);
                assert(next[queue.len() - 1 + k] == kids[k]);
                queue.len() - 1 + k
            };
            self.lemma_breadth_first_complete(next, j, x);
            let k = choose|k: int| 0 <= k < self.breadth_first(next).len() && self.breadth_first(next)[k] == x;
            assert(bf[k + 1] == x);
        }
    }

    /// Every node of the breadth-first listing lies below a queued node.
    pub proof fn lemma_breadth_first_sound(&self, queue: Seq<usize>, k: int)
        requires
            self.structure_ok(),
            self.valid_queue(queue),
            0 <= k < self.breadth_first(queue).len(),
        ensures
            exists|i: int| 0 <= i < queue.len() && self.reaches(#[trigger] queue[i] as int, self.breadth_first(queue)[k] as int),
        decreases self.queue_size(queue),
    {
        if queue.len() == 0 {
            assert(self.breadth_first(queue) =~= Seq::<usize>::empty());
        } else {
            self.lemma_queue_step(queue);
            let n = queue[0] as int;
            let kids = self.children(n);
            let next = queue.drop_first() + kids;
            let bf = self.breadth_first(queue);
            assert(bf == seq![queue[0]] + self.breadth_first(next));
            let x = bf[k];
            if k == 0 {
                assert(self.reaches(queue[0] as int, x as int));
            } else {
                assert(self.breadth_first(next)[k - 1] == x);
                self.lemma_breadth_first_sound(next, k - 1);
                let j = choose|j: int| 0 <= j < next.len() && self.reaches(#[trigger] next[j] as int, x as int);
                if j < queue.len() - 1 {
                    assert(next[j] == queue[j + 1]);
                    assert(self.reaches(queue[j + 1] as int, x as int));
                } else {
                    let c = j - (queue.len() - 1);
                    assert(next[j] == kids[c]);
                    self.lemma_reaches_from_child(n, c, x as int);
                    assert(self.reaches(queue[0] as int, x as int));
                }
            }
        }
    }

    /// The nodes at or below `n` that hold a mesh, in breadth-first order.
    pub fn mesh_nodes(&self, n: usize) -> (r: Vec<usize>)
        requires
            self.structure_ok(),
            n < self.node_count(),
        ensures
            r@ == self.breadth_first(seq![n]).filter(|x: usize| self.has_mesh(x as int)),
    {
        let all = self.descendants(n);
        let ghost pred = |x: usize| self.has_mesh(x as int);
        let mut r: Vec<usize> = Vec::new();
        let mut i: usize = 0;
        while i < all.len()
            invariant
                self.structure_ok(),
                n < self.node_count(),
                all@ == self.breadth_first(seq![n]),
                pred == (|x: usize| self.has_mesh(x as int)),
                i <= all@.len(),
                r@ == all@.take(i as int).filter(pred),
            decreases all@.len() - i,
        {
            let x = all[i];
            proof {
                assert(all@.contains(x));
                self.law_descendants_are_reachable(n, x);
                self.lemma_reaches_rank(n as int, x as int);
                assert(all@.take(i + 1) =~= all@.take(i as int).push(x));
                all@.take(i as int).lemma_filter_push(x, pred);
            }
            if self.mesh_of(x) {
                r.push(x);
            }
            i += 1;
        }
        assert(all@.take(all@.len() as int) =~= all@);
        r
    }

    /// The descendants of `n` are exactly the nodes at or below `n`.
    pub proof fn law_descendants_are_reachable(&self, n: usize, x: usize)
        requires
            self.structure_ok(),
            n < self.node_count(),
        ensures
            self.breadth_first(seq![n]).contains(x) <==> self.reaches(n as int, x as int),
    {
        let q = seq![n];
        assert(q[0] == n);
        if self.reaches(n as int, x as int) {
            self.lemma_breadth_first_complete(q, 0, x);
        }
        let bf = self.breadth_first(q);
        if bf.contains(x) {
            let k = choose|k: int| 0 <= k < bf.len() && bf[k] == x;
            self.lemma_breadth_first_sound(q, k);
        }
    }
}

/// A scene: the root nodes that are drawn, each with everything below it.
pub struct Scene {
    nodes: Vec<usize>,
}

impl Scene {
    /// The root nodes, in the order they were added.
    pub closed spec fn roots(&self) -> Seq<usize> {
        self.nodes@
    }

    /// Every root is a node of `graph`.
    pub open spec fn valid_in(&self, graph: &SceneGraph) -> bool {
        graph.valid_queue(self.roots())
    }

    pub fn new(nodes: Vec<usize>) -> (r: Scene)
        ensures
            r.roots() == nodes@,
    {
        Scene { nodes }
    }

    pub fn add_root_node(&mut self, node: usize)
        ensures
            final(self).roots() == old(self).roots().push(node),
    {
        self.nodes.push(node);
    }

    pub fn root_nodes(&self) -> (r: &[usize])
        ensures
            r@ == self.roots(),
    {
        self.nodes.as_slice()
    }

    /// Whether `node` is one of the roots or lies below one.
    pub fn contains_node(&self, graph: &SceneGraph, node: usize) -> (r: bool)
        requires
            graph.structure_ok(),
            self.valid_in(graph),
        ensures
            r == exists|i: int| 0 <= i < self.roots().len() && graph.reaches(#[trigger] self.roots()[i] as int, node as int),
    {
        let mut i: usize = 0;
        while i < self.nodes.len()
            invariant
                graph.structure_ok(),
                self.valid_in(graph),
                i <= self.roots().len(),
                forall|j: int| 0 <= j < i ==> !graph.reaches(#[trigger] self.roots()[j] as int, node as int),
            decreases self.roots().len() - i,
        {
            if graph.is_ancestor_of(self.nodes[i], node) {
                return true;
            }
            i += 1;
        }
        false
    }

    /// Whether the node that camera `camera` is attached to is in the scene.
    pub fn contains_camera(&self, graph: &SceneGraph, camera: usize) -> (r: bool)
        requires
            graph.structure_ok(),
            self.valid_in(graph),
            camera < graph.camera_count(),
        ensures
            r == (graph.camera_node(camera as int) matches Some(n) && exists|i: int|
                0 <= i < self.roots().len() && graph.reaches(#[trigger] self.roots()[i] as int, n as int)),
    {
        match graph.node_of_camera(camera) {
            Some(n) => self.contains_node(graph, n),
            None => false,
        }
    }

    /// Whether some node of the scene holds a camera.
    pub fn has_some_camera(&self, graph: &SceneGraph) -> (r: bool)
        requires
            graph.structure_ok(),
            self.valid_in(graph),
        ensures
            r == exists|i: int| 0 <= i < self.roots().len() && graph.subtree_has_camera(#[trigger] self.roots()[i] as int),
            forall|i: int| 0 <= i < self.roots().len() && #[trigger] graph.camera(self.roots()[i] as int) is Some ==> r,
    {
        proof {
            assert forall|i: int| 0 <= i < self.roots().len() && #[trigger] graph.camera(self.roots()[i] as int) is Some
                implies graph.subtree_has_camera(self.roots()[i] as int) by {
                assert(self.roots()[i] < graph.node_count());
                graph.law_camera_at_or_below(self.roots()[i] as int);
            }
        }
        let mut i: usize = 0;
        while i < self.nodes.len()
            invariant
                graph.structure_ok(),
                self.valid_in(graph),
                i <= self.roots().len(),
                forall|j: int| 0 <= j < i ==> !graph.subtree_has_camera(#[trigger] self.roots()[j] as int),
            decreases self.roots().len() - i,
        {
            if graph.has_some_camera(self.nodes[i]) {
                return true;
            }
            i += 1;
        }
        false
    }

    /// The largest depth among the roots.
    pub fn depth(&self, graph: &SceneGraph) -> (r: usize)
        requires
            graph.structure_ok(),
            self.valid_in(graph),
        ensures
            r == graph.max_depth(self.roots()),
    {
        graph.max_depth_of(self.nodes.as_slice())
    }
}

} // verus!
