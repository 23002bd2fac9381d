use vstd::prelude::*;

verus! {

/// What drawing a node takes: its vertex array object and the number of
/// indices to draw from it.
#[derive(Clone, Copy, Debug, PartialEq, Eq)]
pub struct DrawCall {
    pub vao_id: u32,
    pub index_count: i32,
}

/// One event of a depth-first walk of the scene graph. A node's children are
/// walked between its `Enter` and its `Leave`, so a renderer can keep a stack
/// of transformations: compose on `Enter`, pop on `Leave`.
#[derive(Clone, Copy, Debug, PartialEq, Eq)]
pub enum Visit {
    /// The walk reaches `node`; `draw` says what to draw there, if anything.
    Enter { node: usize, draw: Option<DrawCall> },
    /// The walk is done with `node` and its children.
    Leave { node: usize },
}

/// The value of one node: the mesh it draws and its children, in order.
pub struct NodeView {
    pub vao_id: u32,
    pub index_count: i32,
    pub children: Seq<usize>,
}

/// A node of the scene graph. Its transformation (position, rotation,
/// reference point) is kept by the renderer under the same index.
pub struct SceneNode {
    vao_id: u32,
    index_count: i32,
    children: Vec<usize>,
}

impl View for SceneNode {
    type V = NodeView;

    closed spec fn view(&self) -> NodeView {
        NodeView { vao_id: self.vao_id, index_count: self.index_count, children: self.children@ }
    }
}

/// The scene graph: nodes addressed by index, each with a list of children.
pub struct SceneGraph {
    nodes: Vec<SceneNode>,
}

impl View for SceneGraph {
    type V = Seq<NodeView>;

    closed spec fn view(&self) -> Seq<NodeView> {
        self.nodes@.map_values(|n: SceneNode| n@)
    }
}

/// Every child index names a node of the graph.
pub open spec fn graph_wf(g: Seq<NodeView>) -> bool {
    forall|i: int, j: int|
        0 <= i < g.len() && 0 <= j < g[i].children.len() ==> #[trigger] g[i].children[j] < g.len()
}

/// What a node draws: only a node with a positive index count is drawn.
pub open spec fn draw_of(n: NodeView) -> Option<DrawCall> {
    if n.index_count > 0 {
        Some(DrawCall { vao_id: n.vao_id, index_count: n.index_count })
    } else {
        None
    }
}

/// The walk from `node`, going at most `depth` nodes deep; `None` where some
/// path from `node` is longer than that.
pub open spec fn spec_walk(g: Seq<NodeView>, node: usize, depth: nat) -> Option<Seq<Visit>>
    decreases depth, 0nat,
{
    if depth == 0 {
        None
    } else {
        match spec_walk_children(g, g[node as int].children, (depth - 1) as nat) {
            Some(inner) => Some(
                seq![Visit::Enter { node, draw: draw_of(g[node as int]) }] + inner + seq![
                    Visit::Leave { node },
                ],
            ),
            None => None,
        }
    }
}

/// The walks from `children`, one after the other.
pub open spec fn spec_walk_children(g: Seq<NodeView>, children: Seq<usize>, depth: nat) -> Option<
    Seq<Visit>,
>
    decreases depth, children.len(),
{
    if children.len() == 0 {
        Some(Seq::empty())
    } else {
        match (
            spec_walk_children(g, children.drop_last(), depth),
            spec_walk(g, children.last(), depth),
        ) {
            (Some(a), Some(b)) => Some(a + b),
            _ => None,
        }
    }
}

/// Every child has a larger index than its parent, as when each node is
/// attached below nodes made before it. Such a graph has no cycle.
pub open spec fn children_after_parents(g: Seq<NodeView>) -> bool {
    forall|i: int, j: int|
        0 <= i < g.len() && 0 <= j < g[i].children.len() ==> #[trigger] g[i].children[j] > i
}

/// From a node, a walk as deep as the nodes from it to the end of the graph
/// never runs out of depth when children come after their parents.
pub proof fn lemma_walk_some(g: Seq<NodeView>, node: usize, depth: nat)
    requires
        graph_wf(g),
        children_after_parents(g),
        node < g.len(),
        node + depth >= g.len(),
    ensures
        spec_walk(g, node, depth) is Some,
    decreases depth, 0nat,
{
    let cs = g[node as int].children;
    assert forall|j: int| 0 <= j < cs.len() implies node < #[trigger] cs[j] < g.len() by {
        assert(g[node as int].children[j] > node);
    }
    lemma_walk_children_some(g, cs, node, (depth - 1) as nat);
}

/// The children part of `lemma_walk_some`.
pub proof fn lemma_walk_children_some(g: Seq<NodeView>, cs: Seq<usize>, parent: usize, depth: nat)
    requires
        graph_wf(g),
        children_after_parents(g),
        forall|j: int| 0 <= j < cs.len() ==> parent < #[trigger] cs[j] < g.len(),
        parent + 1 + depth >= g.len(),
    ensures
        spec_walk_children(g, cs, depth) is Some,
    decreases depth, cs.len(),
{
    if cs.len() > 0 {
        let rest = cs.drop_last();
        assert forall|j: int| 0 <= j < rest.len() implies parent < #[trigger] rest[j] < g.len() by {
            assert(rest[j] == cs[j]);
        }
        lemma_walk_children_some(g, rest, parent, depth);
        assert(parent < cs[cs.len() - 1]);
        lemma_walk_some(g, cs.last(), depth);
    }
}

/// A graph whose children come after their parents walks without running
/// out of depth from any node, when the walk may go as deep as the graph has nodes.
pub proof fn lemma_ordered_graph_walks(g: Seq<NodeView>, root: usize)
    requires
        graph_wf(g),
        children_after_parents(g),
        root < g.len(),
    ensures
        spec_walk(g, root, g.len()) is Some,
{
    lemma_walk_some(g, root, g.len());
}

impl SceneGraph {
    /// Well-formedness: every child index names a node.
    pub open spec fn wf(&self) -> bool {
        graph_wf(self@)
    }

    #[verifier::type_invariant]
    spec fn children_exist(&self) -> bool {
        graph_wf(self@)
    }

    /// An empty graph.
    pub fn new() -> (g: SceneGraph)
        ensures
            g.wf(),
            g@ == Seq::<NodeView>::empty(),
    {
        let g = SceneGraph { nodes: Vec::new() };
        assert(g@ =~= Seq::<NodeView>::empty());
        g
    }

    /// Number of nodes.
    pub fn len(&self) -> (n: usize)
        ensures
            n == self@.len(),
    {
        self.nodes.len()
    }

    /// Adds a node without children that draws `index_count` indices from
    /// vertex array `vao_id` (nothing where `index_count` is not positive),
    /// and returns its index.
    pub fn add_node(&mut self, vao_id: u32, index_count: i32) -> (id: usize)
        ensures
            final(self).wf(),
            id == old(self)@.len(),
            final(self)@ == old(self)@.push(
                NodeView { vao_id, index_count, children: Seq::empty() },
            ),
    {
        proof {
            use_type_invariant(&*self);
        }
        let ghost old_g = self@;
        let node = SceneNode { vao_id, index_count, children: Vec::new() };
        let mut nodes: Vec<SceneNode> = Vec::new();
        std::mem::swap(&mut nodes, &mut self.nodes);
        assert(nodes@.map_values(|n: SceneNode| n@) == old_g);
        nodes.push(node);
        let ghost new_g = old_g.push(NodeView { vao_id, index_count, children: Seq::empty() });
        assert(nodes@.map_values(|n: SceneNode| n@) =~= new_g);
        assert forall|i: int, j: int|
            0 <= i < new_g.len() && 0 <= j < new_g[i].children.len() implies
            #[trigger] new_g[i].children[j] < new_g.len() by {
            assert(i < old_g.len());
            assert(new_g[i] == old_g[i]);
        }
        let id: usize = nodes.len() - 1;
        self.nodes = nodes;
        id
    }

    /// Attaches `child` as the last child of `parent`.
    pub fn add_child(&mut self, parent: usize, child: usize)
        requires
            parent < old(self)@.len(),
            child < old(self)@.len(),
        ensures
            final(self).wf(),
            final(self)@ == old(self)@.update(
                parent as int,
                NodeView { children: old(self)@[parent as int].children.push(child), ..old(self)@[parent as int] },
            ),
    {
        proof {
            use_type_invariant(&*self);
        }
        let ghost old_g = self@;
        let mut nodes: Vec<SceneNode> = Vec::new();
        std::mem::swap(&mut nodes, &mut self.nodes);
        assert(nodes@.map_values(|n: SceneNode| n@) == old_g);
        let mut node = nodes.remove(parent);
        node.children.push(child);
        nodes.insert(parent, node);
        let ghost new_node = NodeView {
            children: old_g[parent as int].children.push(child),
            ..old_g[parent as int]
        };
        let ghost new_g = old_g.update(parent as int, new_node);
        assert(nodes@.map_values(|n: SceneNode| n@) =~= new_g);
        assert forall|i: int, j: int|
            0 <= i < new_g.len() && 0 <= j < new_g[i].children.len() implies
            #[trigger] new_g[i].children[j] < new_g.len() by {
            if i != parent {
                assert(new_g[i] == old_g[i]);
            } else if j < old_g[i].children.len() {
                assert(new_g[i].children[j] == old_g[i].children[j]);
            }
        }
        self.nodes = nodes;
    }

    /// The vertex array and index count of a node.
    pub fn draw_call(&self, node: usize) -> (r: (u32, i32))
        requires
            node < self@.len(),
        ensures
            r == (self@[node as int].vao_id, self@[node as int].index_count),
    {
        (self.nodes[node].vao_id, self.nodes[node].index_count)
    }

    /// The children of a node, in order.
    pub fn children(&self, node: usize) -> (r: &Vec<usize>)
        requires
            node < self@.len(),
        ensures
            r@ == self@[node as int].children,
    {
        &self.nodes[node].children
    }

    fn walk_into(&self, node: usize, depth: usize, out: &mut Vec<Visit>) -> (ok: bool)
        requires
            self.wf(),
            node < self@.len(),
        ensures
            ok == spec_walk(self@, node, depth as nat) is Some,
            ok ==> final(out)@ == old(out)@ + spec_walk(self@, node, depth as nat).unwrap(),
        decreases depth, 0nat,
    {
        if depth == 0 {
            return false;
        }
        let ghost g = self@;
        let ghost base = out@;
        let n = &self.nodes[node];
        assert(n@ == g[node as int]);
        let draw = if n.index_count > 0 {
            Some(DrawCall { vao_id: n.vao_id, index_count: n.index_count })
        } else {
            None
        };
        out.push(Visit::Enter { node, draw });
        let ghost head = out@;
        let len: usize = n.children.len();
        let mut i: usize = 0;
        while i < len
            invariant
                self.wf(),
                g == self@,
                node < g.len(),
                n@ == g[node as int],
                len == n.children@.len(),
                0 < depth,
                i <= len,
                spec_walk_children(g, n.children@.take(i as int), (depth - 1) as nat) is Some,
                out@ == head + spec_walk_children(
                    g,
                    n.children@.take(i as int),
                    (depth - 1) as nat,
                ).unwrap(),
            decreases len - i,
        {
            let c: usize = n.children[i];
            assert(c < g.len()) by {
                assert(g[node as int].children[i as int] == c);
            }
            let ok = self.walk_into(c, depth - 1, out);
            assert(n.children@.take(i + 1).drop_last() =~= n.children@.take(i as int));
            assert(n.children@.take(i + 1).last() == c);
            if !ok {
                proof {
                    lemma_walk_children_none_extends(
                        g,
                        n.children@,
                        (i + 1) as nat,
                        (depth - 1) as nat,
                    );
                }
                assert(n.children@.take(len as int) =~= n.children@);
                return false;
            }
            proof {
                vstd::seq_lib::lemma_concat_associative(
                    head,
                    spec_walk_children(g, n.children@.take(i as int), (depth - 1) as nat).unwrap(),
                    spec_walk(g, c, (depth - 1) as nat).unwrap(),
                );
            }
            i = i + 1;
        }
        assert(n.children@.take(len as int) =~= n.children@);
        out.push(Visit::Leave { node });
        assert(out@ =~= base + spec_walk(g, node, depth as nat).unwrap());
        true
    }

    /// The depth-first walk of the scene from `root`: for each node, its
    /// `Enter` (with what to draw there), the walks of its children in
    /// order, then its `Leave`. `None` exactly when a cycle can be reached
    /// from `root`, where the walk would never end.
    pub fn draw_walk(&self, root: usize) -> (r: Option<Vec<Visit>>)
        requires
            root < self@.len(),
        ensures
            match r {
                Some(v) => spec_walk(self@, root, self@.len()) == Some(v@),
                None => spec_walk(self@, root, self@.len()) is None,
            },
            r is None <==> reaches_cycle(self@, root),
            r matches Some(v) ==> open_nodes(Seq::empty(), v@) == Some(Seq::<usize>::empty()),
            r matches Some(v) ==> enters_draw_own_mesh(self@, v@),
    {
        proof {
            use_type_invariant(self);
            lemma_walk_none_iff_cycle(self@, root);
            if spec_walk(self@, root, self@.len()) is Some {
                lemma_walk_draws_own_mesh(self@, root, self@.len());
                lemma_walk_well_nested(self@, root, self@.len(), Seq::empty());
            }
        }
        let mut out: Vec<Visit> = Vec::new();
        let ok = self.walk_into(root, self.nodes.len(), &mut out);
        if ok {
            assert(out@ =~= spec_walk(self@, root, self@.len()).unwrap());
            Some(out)
        } else {
            None
        }
    }
}

/// `p` is a path through the graph: it names nodes, and each next node is a
/// child of the one before.
pub open spec fn is_path(g: Seq<NodeView>, p: Seq<usize>) -> bool {
    &&& p.len() >= 1
    &&& forall|i: int| 0 <= i < p.len() ==> #[trigger] p[i] < g.len()
    &&& forall|i: int| 0 <= i < p.len() - 1 ==> #[trigger] path_step(g, p, i)
}

/// The node after position `i` of `p` is a child of the node at `i`.
pub open spec fn path_step(g: Seq<NodeView>, p: Seq<usize>, i: int) -> bool {
    g[p[i] as int].children.contains(p[i + 1])
}

/// Some path from `node` passes more than `depth` nodes.
pub open spec fn has_path_longer_than(g: Seq<NodeView>, node: usize, depth: nat) -> bool {
    exists|p: Seq<usize>| is_path(g, p) && p[0] == node && #[trigger] p.len() > depth
}

/// The walk from a node runs out of depth exactly when some path from the
/// node passes more nodes than the depth allows.
pub proof fn lemma_walk_none_iff_long_path(g: Seq<NodeView>, node: usize, depth: nat)
    requires
        graph_wf(g),
        node < g.len(),
    ensures
        spec_walk(g, node, depth) is None <==> has_path_longer_than(g, node, depth),
{
    if spec_walk(g, node, depth) is None {
        lemma_walk_none_gives_path(g, node, depth);
    }
    if has_path_longer_than(g, node, depth) {
        let p = choose|p: Seq<usize>| is_path(g, p) && p[0] == node && #[trigger] p.len() > depth;
        lemma_path_gives_walk_none(g, p, depth);
    }
}

proof fn lemma_walk_none_gives_path(g: Seq<NodeView>, node: usize, depth: nat)
    requires
        graph_wf(g),
        node < g.len(),
        spec_walk(g, node, depth) is None,
    ensures
        has_path_longer_than(g, node, depth),
    decreases depth,
{
    if depth == 0 {
        let p = seq![node];
        assert(is_path(g, p));
        assert(p[0] == node && p.len() > depth);
    } else {
        let cs = g[node as int].children;
        let j = lemma_children_none_gives_child(g, cs, (depth - 1) as nat);
        let c = cs[j];
        assert(c < g.len()) by {
            assert(g[node as int].children[j] == c);
        }
        lemma_walk_none_gives_path(g, c, (depth - 1) as nat);
        let q = choose|q: Seq<usize>|
            is_path(g, q) && q[0] == c && #[trigger] q.len() > (depth - 1) as nat;
        let p = seq![node] + q;
        assert forall|i: int| 0 <= i < p.len() implies #[trigger] p[i] < g.len() by {
            if i > 0 {
                assert(p[i] == q[i - 1]);
            }
        }
        assert forall|i: int| 0 <= i < p.len() - 1 implies #[trigger] path_step(g, p, i) by {
            if i == 0 {
                assert(p[1] == c);
                assert(cs[j] == c);
            } else {
                assert(path_step(g, q, i - 1));
                assert(p[i] == q[i - 1]);
                assert(p[i + 1] == q[i]);
            }
        }
        assert(is_path(g, p) && p[0] == node && p.len() > depth);
    }
}

proof fn lemma_children_none_gives_child(g: Seq<NodeView>, cs: Seq<usize>, depth: nat) -> (j: int)
    requires
        spec_walk_children(g, cs, depth) is None,
    ensures
        0 <= j < cs.len(),
        spec_walk(g, cs[j], depth) is None,
    decreases cs.len(),
{
    if spec_walk(g, cs.last(), depth) is None {
        (cs.len() - 1) as int
    } else {
        let k = lemma_children_none_gives_child(g, cs.drop_last(), depth);
        assert(cs.drop_last()[k] == cs[k]);
        k
    }
}

proof fn lemma_child_none_gives_children_none(g: Seq<NodeView>, cs: Seq<usize>, depth: nat, j: int)
    requires
        0 <= j < cs.len(),
        spec_walk(g, cs[j], depth) is None,
    ensures
        spec_walk_children(g, cs, depth) is None,
    decreases cs.len(),
{
    if j < cs.len() - 1 {
        assert(cs.drop_last()[j] == cs[j]);
        lemma_child_none_gives_children_none(g, cs.drop_last(), depth, j);
    }
}

proof fn lemma_path_gives_walk_none(g: Seq<NodeView>, p: Seq<usize>, depth: nat)
    requires
        graph_wf(g),
        is_path(g, p),
        p.len() > depth,
    ensures
        spec_walk(g, p[0], depth) is None,
    decreases depth,
{
    if depth > 0 {
        let v = p[0];
        assert(p[0] < g.len());
        let cs = g[v as int].children;
        assert(path_step(g, p, 0));
        assert(cs.contains(p[1]));
        let j = choose|j: int| 0 <= j < cs.len() && cs[j] == p[1];
        let q = p.drop_first();
        assert forall|i: int| 0 <= i < q.len() implies #[trigger] q[i] < g.len() by {
            assert(q[i] == p[i + 1]);
        }
        assert forall|i: int| 0 <= i < q.len() - 1 implies #[trigger] path_step(g, q, i) by {
            assert(path_step(g, p, i + 1));
            assert(q[i] == p[i + 1]);
            assert(q[i + 1] == p[i + 2]);
        }
        lemma_path_gives_walk_none(g, q, (depth - 1) as nat);
        lemma_child_none_gives_children_none(g, cs, (depth - 1) as nat, j);
    }
}

/// A cycle can be reached from `root`: some path from `root` ends at a node
/// from which a path of at least one step leads back to it.
pub open spec fn reaches_cycle(g: Seq<NodeView>, root: usize) -> bool {
    exists|p: Seq<usize>, c: Seq<usize>|
        #![trigger is_path(g, p), is_path(g, c)]
        is_path(g, p) && p[0] == root && is_path(g, c) && c.len() >= 2 && c[0] == p.last()
            && c.last() == p.last()
}

/// A part of a path is a path.
proof fn lemma_subpath(g: Seq<NodeView>, q: Seq<usize>, a: int, b: int)
    requires
        is_path(g, q),
        0 <= a < b <= q.len(),
    ensures
        is_path(g, q.subrange(a, b)),
{
    let r = q.subrange(a, b);
    assert forall|i: int| 0 <= i < r.len() implies #[trigger] r[i] < g.len() by {
        assert(r[i] == q[a + i]);
    }
    assert forall|i: int| 0 <= i < r.len() - 1 implies #[trigger] path_step(g, r, i) by {
        assert(path_step(g, q, a + i));
        assert(r[i] == q[a + i]);
        assert(r[i + 1] == q[a + i + 1]);
    }
}

/// Two paths that meet end to start join into one.
proof fn lemma_join_paths(g: Seq<NodeView>, a: Seq<usize>, b: Seq<usize>)
    requires
        is_path(g, a),
        is_path(g, b),
        a.last() == b[0],
    ensures
        is_path(g, a + b.drop_first()),
        (a + b.drop_first())[0] == a[0],
        (a + b.drop_first()).last() == b.last(),
        (a + b.drop_first()).len() == a.len() + b.len() - 1,
{
    let r = a + b.drop_first();
    assert forall|i: int| 0 <= i < r.len() implies #[trigger] r[i] < g.len() by {
        if i >= a.len() {
            assert(r[i] == b[i - a.len() + 1]);
        }
    }
    assert forall|i: int| 0 <= i < r.len() - 1 implies #[trigger] path_step(g, r, i) by {
        if i < a.len() - 1 {
            assert(path_step(g, a, i));
        } else {
            let k = i - a.len() + 1;
            assert(path_step(g, b, k));
            assert(r[i] == b[k]);
            assert(r[i + 1] == b[k + 1]);
        }
    }
    if b.len() > 1 {
        assert(r.last() == b[b.len() - 1]);
    }
}

/// Going round a reachable cycle makes paths from the root as long as wanted.
proof fn lemma_pump_cycle(g: Seq<NodeView>, p: Seq<usize>, c: Seq<usize>, k: nat)
    requires
        is_path(g, p),
        is_path(g, c),
        c.len() >= 2,
        c[0] == p.last(),
        c.last() == p.last(),
    ensures
        has_path_longer_than(g, p[0], k),
    decreases (if p.len() > k { 0 } else { k + 1 - p.len() }),
{
    if p.len() > k {
        assert(is_path(g, p) && p[0] == p[0] && p.len() > k);
    } else {
        lemma_join_paths(g, p, c);
        let p2 = p + c.drop_first();
        lemma_pump_cycle(g, p2, c, k);
    }
}

/// A sequence of more than `n` indices below `n` repeats one.
proof fn lemma_pigeonhole(q: Seq<usize>, n: nat) -> (r: (int, int))
    requires
        q.len() > n,
        forall|i: int| 0 <= i < q.len() ==> #[trigger] q[i] < n,
    ensures
        0 <= r.0 < r.1 < q.len(),
        q[r.0] == q[r.1],
{
    let w = q.map_values(|x: usize| x as int);
    if w.no_duplicates() {
        w.unique_seq_to_set();
        vstd::set_lib::lemma_int_range(0, n as int);
        assert forall|x: int| w.to_set().contains(x) implies vstd::set_lib::set_int_range(
            0,
            n as int,
        ).contains(x) by {
            let i = choose|i: int| 0 <= i < w.len() && w[i] == x;
            assert(q[i] < n);
        }
        vstd::set_lib::lemma_len_subset(w.to_set(), vstd::set_lib::set_int_range(0, n as int));
        assert(false);
    }
    let (i, j) = choose|i: int, j: int| 0 <= i < w.len() && 0 <= j < w.len() && i != j && w[i] == w[j];
    if i < j {
        (i, j)
    } else {
        (j, i)
    }
}

/// The walk from `root`, as deep as the graph has nodes, runs out of depth
/// exactly when a cycle can be reached from `root`.
pub proof fn lemma_walk_none_iff_cycle(g: Seq<NodeView>, root: usize)
    requires
        graph_wf(g),
        root < g.len(),
    ensures
        spec_walk(g, root, g.len()) is None <==> reaches_cycle(g, root),
{
    lemma_walk_none_iff_long_path(g, root, g.len());
    if has_path_longer_than(g, root, g.len()) {
        let q = choose|q: Seq<usize>| is_path(g, q) && q[0] == root && #[trigger] q.len() > g.len();
        let (i, j) = lemma_pigeonhole(q, g.len());
        lemma_subpath(g, q, 0, i + 1);
        lemma_subpath(g, q, i, j + 1);
        let p = q.subrange(0, i + 1);
        let c = q.subrange(i, j + 1);
        assert(p[0] == root && c[0] == p.last() && c.last() == p.last() && c.len() >= 2);
        assert(is_path(g, p) && is_path(g, c));
    }
    if reaches_cycle(g, root) {
        let (p, c) = choose|p: Seq<usize>, c: Seq<usize>|
            #![trigger is_path(g, p), is_path(g, c)]
            is_path(g, p) && p[0] == root && is_path(g, c) && c.len() >= 2 && c[0] == p.last()
                && c.last() == p.last();
        lemma_pump_cycle(g, p, c, g.len());
    }
}

/// The stack of open nodes after the visits `vs`, starting from `st`: `Enter`
/// opens a node, `Leave` must close the node opened last. `None` where a
/// `Leave` closes anything else.
pub open spec fn open_nodes(st: Seq<usize>, vs: Seq<Visit>) -> Option<Seq<usize>>
    decreases vs.len(),
{
    if vs.len() == 0 {
        Some(st)
    } else {
        match open_nodes(st, vs.drop_last()) {
            Some(t) => match vs.last() {
                Visit::Enter { node, .. } => Some(t.push(node)),
                Visit::Leave { node } => if t.len() > 0 && t.last() == node {
                    Some(t.drop_last())
                } else {
                    None
                },
            },
            None => None,
        }
    }
}

proof fn lemma_open_nodes_concat(st: Seq<usize>, a: Seq<Visit>, b: Seq<Visit>)
    ensures
        open_nodes(st, a + b) == match open_nodes(st, a) {
            Some(t) => open_nodes(t, b),
            None => None,
        },
    decreases b.len(),
{
    if b.len() == 0 {
        assert(a + b =~= a);
    } else {
        assert((a + b).drop_last() =~= a + b.drop_last());
        assert((a + b).last() == b.last());
        lemma_open_nodes_concat(st, a, b.drop_last());
        if open_nodes(st, a) is None {
            assert(open_nodes(st, a + b.drop_last()) is None);
        }
    }
}

/// Walks are well nested: every `Leave` closes the node whose `Enter` is the
/// latest still open, and a walk closes every node it opens, so a renderer
/// that pushes a transformation on `Enter` and pops on `Leave` pops its own.
pub proof fn lemma_walk_well_nested(g: Seq<NodeView>, node: usize, depth: nat, st: Seq<usize>)
    requires
        spec_walk(g, node, depth) is Some,
    ensures
        open_nodes(st, spec_walk(g, node, depth).unwrap()) == Some(st),
    decreases depth, 0nat,
{
    let inner = spec_walk_children(g, g[node as int].children, (depth - 1) as nat).unwrap();
    let enter = seq![Visit::Enter { node, draw: draw_of(g[node as int]) }];
    let leave = seq![Visit::Leave { node }];
    lemma_walk_children_well_nested(g, g[node as int].children, (depth - 1) as nat, st.push(node));
    assert(open_nodes(st, enter) == Some(st.push(node))) by {
        assert(enter.drop_last() =~= Seq::<Visit>::empty());
        assert(open_nodes(st, enter.drop_last()) == Some(st));
        assert(enter.last() == Visit::Enter { node, draw: draw_of(g[node as int]) });
    }
    lemma_open_nodes_concat(st, enter, inner);
    lemma_open_nodes_concat(st, enter + inner, leave);
    assert(open_nodes(st.push(node), leave) == Some(st)) by {
        assert(leave.drop_last() =~= Seq::<Visit>::empty());
        assert(open_nodes(st.push(node), leave.drop_last()) == Some(st.push(node)));
        assert(leave.last() == Visit::Leave { node });
        assert(st.push(node).drop_last() =~= st);
    }
}

proof fn lemma_walk_children_well_nested(
    g: Seq<NodeView>,
    cs: Seq<usize>,
    depth: nat,
    st: Seq<usize>,
)
    requires
        spec_walk_children(g, cs, depth) is Some,
    ensures
        open_nodes(st, spec_walk_children(g, cs, depth).unwrap()) == Some(st),
    decreases depth, cs.len(),
{
    if cs.len() > 0 {
        let a = spec_walk_children(g, cs.drop_last(), depth).unwrap();
        let b = spec_walk(g, cs.last(), depth).unwrap();
        lemma_walk_children_well_nested(g, cs.drop_last(), depth, st);
        lemma_walk_well_nested(g, cs.last(), depth, st);
        lemma_open_nodes_concat(st, a, b);
    }
}

/// Every `Enter` in `w` draws the node's own mesh: the node's vertex array
/// with all of its index count where that count is positive, and nothing
/// where it is not.
pub open spec fn enters_draw_own_mesh(g: Seq<NodeView>, w: Seq<Visit>) -> bool {
    forall|i: int|
        0 <= i < w.len() ==> match #[trigger] w[i] {
            Visit::Enter { node, draw } => if g[node as int].index_count > 0 {
                draw == Some(
                    DrawCall {
                        vao_id: g[node as int].vao_id,
                        index_count: g[node as int].index_count,
                    },
                )
            } else {
                draw is None
            },
            Visit::Leave { .. } => true,
        }
}

proof fn lemma_own_mesh_concat(g: Seq<NodeView>, a: Seq<Visit>, b: Seq<Visit>)
    requires
        enters_draw_own_mesh(g, a),
        enters_draw_own_mesh(g, b),
    ensures
        enters_draw_own_mesh(g, a + b),
{
    assert forall|i: int| 0 <= i < (a + b).len() implies match #[trigger] (a + b)[i] {
        Visit::Enter { node, draw } => if g[node as int].index_count > 0 {
            draw == Some(
                DrawCall { vao_id: g[node as int].vao_id, index_count: g[node as int].index_count },
            )
        } else {
            draw is None
        },
        Visit::Leave { .. } => true,
    } by {
        if i < a.len() {
            assert((a + b)[i] == a[i]);
        } else {
            assert((a + b)[i] == b[i - a.len()]);
        }
    }
}

/// Every node the walk enters draws its own mesh, whole: its vertex array
/// and all its indices where its index count is positive, nothing otherwise.
pub proof fn lemma_walk_draws_own_mesh(g: Seq<NodeView>, node: usize, depth: nat)
    requires
        spec_walk(g, node, depth) is Some,
    ensures
        enters_draw_own_mesh(g, spec_walk(g, node, depth).unwrap()),
    decreases depth, 0nat,
{
    let inner = spec_walk_children(g, g[node as int].children, (depth - 1) as nat).unwrap();
    let enter = seq![Visit::Enter { node, draw: draw_of(g[node as int]) }];
    let leave = seq![Visit::Leave { node }];
    lemma_children_draw_own_mesh(g, g[node as int].children, (depth - 1) as nat);
    assert(enters_draw_own_mesh(g, enter)) by {
        assert forall|i: int| 0 <= i < enter.len() implies match #[trigger] enter[i] {
            Visit::Enter { node, draw } => if g[node as int].index_count > 0 {
                draw == Some(
                    DrawCall {
                        vao_id: g[node as int].vao_id,
                        index_count: g[node as int].index_count,
                    },
                )
            } else {
                draw is None
            },
            Visit::Leave { .. } => true,
        } by {
            assert(enter[i] == Visit::Enter { node, draw: draw_of(g[node as int]) });
        }
    }
    assert(enters_draw_own_mesh(g, leave)) by {
        assert forall|i: int| 0 <= i < leave.len() implies match #[trigger] leave[i] {
            Visit::Enter { node, draw } => if g[node as int].index_count > 0 {
                draw == Some(
                    DrawCall {
                        vao_id: g[node as int].vao_id,
                        index_count: g[node as int].index_count,
                    },
                )
            } else {
                draw is None
            },
            Visit::Leave { .. } => true,
        } by {
            assert(leave[i] == Visit::Leave { node });
        }
    }
    lemma_own_mesh_concat(g, enter, inner);
    lemma_own_mesh_concat(g, enter + inner, leave);
}

proof fn lemma_children_draw_own_mesh(g: Seq<NodeView>, cs: Seq<usize>, depth: nat)
    requires
        spec_walk_children(g, cs, depth) is Some,
    ensures
        enters_draw_own_mesh(g, spec_walk_children(g, cs, depth).unwrap()),
    decreases depth, cs.len(),
{
    if cs.len() == 0 {
        assert(enters_draw_own_mesh(g, Seq::<Visit>::empty()));
    } else {
        lemma_children_draw_own_mesh(g, cs.drop_last(), depth);
        lemma_walk_draws_own_mesh(g, cs.last(), depth);
        lemma_own_mesh_concat(
            g,
            spec_walk_children(g, cs.drop_last(), depth).unwrap(),
            spec_walk(g, cs.last(), depth).unwrap(),
        );
    }
}

/// The nodes of the lunar-surface scene: the terrain below an empty root,
/// the helicopter body on the terrain, and the door and both rotors on the body.
#[derive(Clone, Copy, Debug, PartialEq, Eq)]
pub struct HelicopterScene {
    pub root: usize,
    pub terrain: usize,
    pub body: usize,
    pub door: usize,
    pub main_rotor: usize,
    pub tail_rotor: usize,
}

/// The shape of the lunar-surface scene, given what each mesh draws.
pub open spec fn helicopter_scene_view(
    terrain: DrawCall,
    body: DrawCall,
    door: DrawCall,
    main_rotor: DrawCall,
    tail_rotor: DrawCall,
) -> Seq<NodeView> {
    seq![
        NodeView { vao_id: 0, index_count: -1i32, children: seq![1usize] },
        NodeView { vao_id: terrain.vao_id, index_count: terrain.index_count, children: seq![2usize] },
        NodeView { vao_id: body.vao_id, index_count: body.index_count, children: seq![3usize, 4, 5] },
        NodeView { vao_id: door.vao_id, index_count: door.index_count, children: seq![] },
        NodeView {
            vao_id: main_rotor.vao_id,
            index_count: main_rotor.index_count,
            children: seq![],
        },
        NodeView {
            vao_id: tail_rotor.vao_id,
            index_count: tail_rotor.index_count,
            children: seq![],
        },
    ]
}

/// Builds the lunar-surface scene from the meshes' vertex arrays and index
/// counts. Its walk from the root never runs out of depth.
pub fn build_helicopter_scene(
    terrain: DrawCall,
    body: DrawCall,
    door: DrawCall,
    main_rotor: DrawCall,
    tail_rotor: DrawCall,
) -> (r: (SceneGraph, HelicopterScene))
    ensures
        r.0.wf(),
        r.0@ == helicopter_scene_view(terrain, body, door, main_rotor, tail_rotor),
        r.1 == (HelicopterScene {
            root: 0,
            terrain: 1,
            body: 2,
            door: 3,
            main_rotor: 4,
            tail_rotor: 5,
        }),
        children_after_parents(r.0@),
        spec_walk(r.0@, r.1.root, r.0@.len()) is Some,
{
    let mut g = SceneGraph::new();
    let root: usize = g.add_node(0, -1);
    let t: usize = g.add_node(terrain.vao_id, terrain.index_count);
    let b: usize = g.add_node(body.vao_id, body.index_count);
    let d: usize = g.add_node(door.vao_id, door.index_count);
    let m: usize = g.add_node(main_rotor.vao_id, main_rotor.index_count);
    let tr: usize = g.add_node(tail_rotor.vao_id, tail_rotor.index_count);
    g.add_child(root, t);
    g.add_child(t, b);
    g.add_child(b, d);
    g.add_child(b, m);
    g.add_child(b, tr);
    let ghost v = helicopter_scene_view(terrain, body, door, main_rotor, tail_rotor);
    assert(g@[0].children =~= v[0].children);
    assert(g@[1].children =~= v[1].children);
    assert(g@[2].children =~= v[2].children);
    assert(g@[3].children =~= v[3].children);
    assert(g@[4].children =~= v[4].children);
    assert(g@[5].children =~= v[5].children);
    assert(g@ =~= v);
    assert forall|i: int, j: int|
        0 <= i < g@.len() && 0 <= j < g@[i].children.len() implies #[trigger] g@[i].children[j]
        > i by {
        if i == 2 {
            assert(j == 0 || j == 1 || j == 2);
        }
    }
    proof {
        lemma_ordered_graph_walks(g@, root);
    }
    let ids = HelicopterScene { root, terrain: t, body: b, door: d, main_rotor: m, tail_rotor: tr };
    (g, ids)
}

/// Once the walks of a prefix of `cs` fail, so do the walks of a longer prefix.
pub proof fn lemma_walk_children_none_extends(
    g: Seq<NodeView>,
    cs: Seq<usize>,
    k: nat,
    depth: nat,
)
    requires
        k <= cs.len(),
        spec_walk_children(g, cs.take(k as int), depth) is None,
    ensures
        spec_walk_children(g, cs, depth) is None,
    decreases cs.len() - k,
{
    if k < cs.len() {
        assert(cs.take(k + 1int).drop_last() =~= cs.take(k as int));
        lemma_walk_children_none_extends(g, cs, k + 1, depth);
    } else {
        assert(cs.take(k as int) =~= cs);
    }
}

} // verus!
