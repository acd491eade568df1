//! A quadtree kept in an arena: nodes are addressed by index, a node names its
//! parent by index, and the four children of a split node occupy four
//! consecutive slots. Slots are never reused or moved, so an index stays
//! valid for the lifetime of the tree; a merge only detaches the children.
use vstd::prelude::*;

verus! {

/// One of the four sub-regions a node splits into, in child order.
#[derive(Clone, Copy, Debug, PartialEq, Eq, Structural)]
pub enum Quadrant {
    TopLeft,
    TopRight,
    BottomLeft,
    BottomRight,
}

/// The quadrant of the child stored at offset `k` from the first child.
pub open spec fn quadrant_at(k: int) -> Quadrant {
    if k == 0 {
        Quadrant::TopLeft
    } else if k == 1 {
        Quadrant::TopRight
    } else if k == 2 {
        Quadrant::BottomLeft
    } else {
        Quadrant::BottomRight
    }
}

/// A payload that knows how to derive the payload of each of its children.
pub trait Splittable: Sized {
    /// The deepest level at which a payload of this type can stand.
    spec fn depth_limit() -> nat;

    /// Whether this payload is consistent for a node at `level`.
    spec fn valid_at(&self, level: nat) -> bool;

    /// The payload of the child in `quadrant`, standing at `level`.
    spec fn child_spec(&self, quadrant: Quadrant, level: nat) -> Self;

    proof fn lemma_child_valid(&self, quadrant: Quadrant, level: nat)
        requires
            self.valid_at(level),
            level < Self::depth_limit(),
        ensures
            self.child_spec(quadrant, level + 1).valid_at(level + 1),
    ;

    /// Derives the payload of the child in `quadrant` at `level`.
    fn split(&self, quadrant: Quadrant, level: u8) -> (r: Self)
        requires
            0 < level <= Self::depth_limit(),
            self.valid_at((level - 1) as nat),
        ensures
            r == self.child_spec(quadrant, level as nat),
    ;
}

/// The slot of the child in quadrant `quadrant_at(k)` that a split of slot
/// `i` of `nodes` adds.
pub open spec fn new_child_of<T: Splittable>(nodes: Seq<TreeNode<T>>, i: int, k: int) -> TreeNode<T> {
    let e = nodes[i];
    TreeNode {
        level: (e.level + 1) as u8,
        parent: Some(i as usize),
        first_child: None,
        node: e.node.child_spec(quadrant_at(k), (e.level + 1) as nat),
    }
}

/// The arena `nodes` after a split of slot `i`: the slot names its first
/// child, and the four children are appended in quadrant order.
pub open spec fn split_seq<T: Splittable>(nodes: Seq<TreeNode<T>>, i: int) -> Seq<TreeNode<T>> {
    let e = nodes[i];
    let n = nodes.len();
    nodes.update(
        i,
        TreeNode { level: e.level, parent: e.parent, first_child: Some(n as usize), node: e.node },
    ) + seq![
        new_child_of(nodes, i, 0),
        new_child_of(nodes, i, 1),
        new_child_of(nodes, i, 2),
        new_child_of(nodes, i, 3),
    ]
}

/// The arena `nodes` after a merge of slot `i`: the slot no longer names children.
pub open spec fn merge_seq<T>(nodes: Seq<TreeNode<T>>, i: int) -> Seq<TreeNode<T>> {
    let e = nodes[i];
    nodes.update(i, TreeNode { level: e.level, parent: e.parent, first_child: None, node: e.node })
}

/// The nodes below slot `i` of `nodes`, in depth-first order, each child
/// before its own descendants; `fuel` bounds the depth explored.
#[verifier::opaque]
pub open spec fn descendants_in<T>(nodes: Seq<TreeNode<T>>, i: int, fuel: nat) -> Seq<usize>
    decreases fuel,
{
    if fuel == 0 {
        seq![]
    } else {
        match nodes[i].first_child {
            None => seq![],
            Some(f) => seq![f] + descendants_in(nodes, f as int, (fuel - 1) as nat) + seq![(f + 1) as usize]
                + descendants_in(nodes, f + 1, (fuel - 1) as nat) + seq![(f + 2) as usize]
                + descendants_in(nodes, f + 2, (fuel - 1) as nat) + seq![(f + 3) as usize]
                + descendants_in(nodes, f + 3, (fuel - 1) as nat),
        }
    }
}

proof fn lemma_descendants_of_leaf<T>(nodes: Seq<TreeNode<T>>, i: int, fuel: nat)
    requires
        nodes[i].first_child is None,
    ensures
        descendants_in(nodes, i, fuel) == Seq::<usize>::empty(),
{
    reveal(descendants_in);
}

proof fn lemma_descendants_of_split<T>(nodes: Seq<TreeNode<T>>, i: int, fuel: nat)
    requires
        fuel > 0,
        nodes[i].first_child is Some,
    ensures
        ({
            let f = nodes[i].first_child.unwrap();
            let d = (fuel - 1) as nat;
            descendants_in(nodes, i, fuel) == seq![f] + descendants_in(nodes, f as int, d) + seq![
                (f + 1) as usize,
            ] + descendants_in(nodes, f + 1, d) + seq![(f + 2) as usize] + descendants_in(nodes, f + 2, d)
                + seq![(f + 3) as usize] + descendants_in(nodes, f + 3, d)
        }),
{
    reveal(descendants_in);
}

/// A slot of the arena.
pub struct TreeNode<T> {
    /// Depth from the root of the tree.
    pub level: u8,
    /// Index of the containing node; `None` for the root.
    pub parent: Option<usize>,
    /// Index of the first of the four children, while the node is split.
    pub first_child: Option<usize>,
    pub node: T,
}

/// A quadtree whose slot 0 is the root.
pub struct QuadTree<T> {
    pub nodes: Vec<TreeNode<T>>,
    /// The subdivision ceiling: no node at this level splits.
    pub max_depth: u8,
}

impl<T: Splittable> QuadTree<T> {
    /// Slot `c` is a child of slot `i`.
    pub open spec fn child_of(&self, c: int, i: int) -> bool {
        &&& 0 <= c < self.nodes@.len()
        &&& self.nodes@[c].parent == Some(i as usize)
        &&& self.nodes@[c].level == self.nodes@[i].level + 1
    }

    /// Slot `i` is consistent: its level is within the ceiling, its payload
    /// fits its level, only the root lacks a parent, a parent stands before
    /// its children, and a split node's four children follow it, each naming
    /// it as parent one level deeper.
    pub open spec fn node_ok(&self, i: int) -> bool {
        let e = self.nodes@[i];
        &&& e.level <= self.max_depth
        &&& e.node.valid_at(e.level as nat)
        &&& (i == 0 <==> e.parent is None)
        &&& (e.parent matches Some(p) ==> p < i)
        &&& (e.first_child matches Some(f) ==> {
            &&& i < f
            &&& f + 4 <= self.nodes@.len()
            &&& e.level < self.max_depth
            &&& self.child_of(f as int, i)
            &&& self.child_of(f + 1, i)
            &&& self.child_of(f + 2, i)
            &&& self.child_of(f + 3, i)
        })
    }

    /// Every slot is consistent, and the ceiling is within the payload's limit.
    pub open spec fn wf(&self) -> bool {
        &&& self.nodes@.len() >= 1
        &&& self.max_depth as nat <= T::depth_limit()
        &&& forall|i: int| 0 <= i < self.nodes@.len() ==> #[trigger] self.node_ok(i)
    }

    pub open spec fn is_leaf(&self, i: int) -> bool {
        self.nodes@[i].first_child is None
    }

    /// A split of slot `i` is possible: it is a leaf above the depth ceiling
    /// and the arena has room for four more slots.
    pub open spec fn can_split(&self, i: int) -> bool {
        &&& self.is_leaf(i)
        &&& self.nodes@[i].level < self.max_depth
        &&& self.nodes@.len() + 4 <= usize::MAX
    }

    /// The slot of the child in quadrant `quadrant_at(k)` that a split of `i` adds.
    pub open spec fn new_child(&self, i: int, k: int) -> TreeNode<T> {
        new_child_of(self.nodes@, i, k)
    }

    /// The arena after a split of slot `i`.
    pub open spec fn split_nodes(&self, i: int) -> Seq<TreeNode<T>> {
        split_seq(self.nodes@, i)
    }

    /// The arena after a merge of slot `i`.
    pub open spec fn merge_nodes(&self, i: int) -> Seq<TreeNode<T>> {
        merge_seq(self.nodes@, i)
    }

    /// Slot `i` hangs from the root through a chain of current children.
    pub open spec fn attached(&self, i: int) -> bool
        decreases i,
    {
        if i <= 0 {
            i == 0
        } else {
            match self.nodes@[i].parent {
                None => false,
                Some(p) => {
                    &&& p < i
                    &&& self.nodes@[p as int].first_child matches Some(f)
                    &&& f <= i < f + 4
                    &&& self.attached(p as int)
                },
            }
        }
    }

    /// The nodes below slot `i`, at most `fuel` levels down.
    pub open spec fn descendants_fuel(&self, i: int, fuel: nat) -> Seq<usize> {
        descendants_in(self.nodes@, i, fuel)
    }

    /// Every node below slot `i`.
    pub open spec fn descendants(&self, i: int) -> Seq<usize> {
        self.descendants_fuel(i, (self.max_depth - self.nodes@[i].level) as nat)
    }

    /// A tree of one leaf, at `level`, holding `node`.
    pub fn new(depth: u8, level: u8, node: T) -> (r: QuadTree<T>)
        requires
            level <= depth,
            depth as nat <= T::depth_limit(),
            node.valid_at(level as nat),
        ensures
            r.wf(),
            r.max_depth == depth,
            r.nodes@.len() == 1,
            r.nodes@[0] == (TreeNode { level, parent: None, first_child: None, node }),
    {
        let mut nodes: Vec<TreeNode<T>> = Vec::new();
        nodes.push(TreeNode { level, parent: None, first_child: None, node });
        let r = QuadTree { nodes, max_depth: depth };
        assert(r.node_ok(0));
        r
    }

    pub fn len(&self) -> (r: usize)
        ensures
            r == self.nodes@.len(),
    {
        self.nodes.len()
    }

    /// Splits slot `i` into four children, one per quadrant, or does nothing
    /// and returns false where the node is already split, stands at the depth
    /// ceiling, or the arena is full.
    pub fn split(&mut self, i: usize) -> (r: bool)
        requires
            old(self).wf(),
            i < old(self).nodes@.len(),
        ensures
            final(self).wf(),
            final(self).max_depth == old(self).max_depth,
            r == old(self).can_split(i as int),
            r ==> final(self).nodes@ == old(self).split_nodes(i as int),
            !r ==> final(self).nodes@ == old(self).nodes@,
    {
        let n = self.nodes.len();
        if self.nodes[i].first_child.is_some() || self.nodes[i].level >= self.max_depth
            || n > usize::MAX - 4 {
            return false;
        }
        let ghost old_tree = *self;
        let level = self.nodes[i].level;
        let child_level = level + 1;
        proof {
            assert(old_tree.node_ok(i as int));
        }
        let a = self.nodes[i].node.split(Quadrant::TopLeft, child_level);
        let b = self.nodes[i].node.split(Quadrant::TopRight, child_level);
        let c = self.nodes[i].node.split(Quadrant::BottomLeft, child_level);
        let d = self.nodes[i].node.split(Quadrant::BottomRight, child_level);
        self.nodes[i].first_child = Some(n);
        self.nodes.push(TreeNode { level: child_level, parent: Some(i), first_child: None, node: a });
        self.nodes.push(TreeNode { level: child_level, parent: Some(i), first_child: None, node: b });
        self.nodes.push(TreeNode { level: child_level, parent: Some(i), first_child: None, node: c });
        self.nodes.push(TreeNode { level: child_level, parent: Some(i), first_child: None, node: d });
        proof {
            let e = old_tree.nodes@[i as int];
            assert(self.nodes@ =~= old_tree.split_nodes(i as int));
            e.node.lemma_child_valid(Quadrant::TopLeft, level as nat);
            e.node.lemma_child_valid(Quadrant::TopRight, level as nat);
            e.node.lemma_child_valid(Quadrant::BottomLeft, level as nat);
            e.node.lemma_child_valid(Quadrant::BottomRight, level as nat);
            assert forall|j: int| 0 <= j < self.nodes@.len() implies #[trigger] self.node_ok(j) by {
                if j < n {
                    assert(old_tree.node_ok(j));
                }
            }
        }
        true
    }

    /// Detaches the four children of slot `i`, returning their indices, or
    /// returns `None` where `i` is a leaf. The payload of `i` is kept; the
    /// detached slots stay in the arena but no longer hang from the root.
    pub fn merge(&mut self, i: usize) -> (r: Option<[usize; 4]>)
        requires
            old(self).wf(),
            i < old(self).nodes@.len(),
        ensures
            final(self).wf(),
            final(self).max_depth == old(self).max_depth,
            final(self).nodes@ == old(self).merge_nodes(i as int),
            r is None <==> old(self).is_leaf(i as int),
            r matches Some(c) ==> old(self).nodes@[i as int].first_child == Some(c[0]) && c@ == seq![
                c[0],
                (c[0] + 1) as usize,
                (c[0] + 2) as usize,
                (c[0] + 3) as usize,
            ],
    {
        let ghost old_tree = *self;
        let r = self.children(i);
        self.nodes[i].first_child = None;
        proof {
            assert(self.nodes@ =~= old_tree.merge_nodes(i as int));
            assert forall|j: int| 0 <= j < self.nodes@.len() implies #[trigger] self.node_ok(j) by {
                assert(old_tree.node_ok(j));
            }
        }
        r
    }

    /// The indices of the four children of slot `i`, in quadrant order.
    pub fn children(&self, i: usize) -> (r: Option<[usize; 4]>)
        requires
            self.wf(),
            i < self.nodes@.len(),
        ensures
            r is None <==> self.is_leaf(i as int),
            r matches Some(c) ==> self.nodes@[i as int].first_child == Some(c[0]) && c@ == seq![
                c[0],
                (c[0] + 1) as usize,
                (c[0] + 2) as usize,
                (c[0] + 3) as usize,
            ],
    {
        let len = self.nodes.len();
        match self.nodes[i].first_child {
            None => None,
            Some(f) => {
                proof {
                    assert(self.node_ok(i as int));
                    assert(f + 4 <= len);
                }
                let c = [f, f + 1, f + 2, f + 3];
                assert(c@ =~= seq![f, (f + 1) as usize, (f + 2) as usize, (f + 3) as usize]);
                Some(c)
            },
        }
    }

    /// The index of the node that contains slot `i`; `None` at the root.
    pub fn parent(&self, i: usize) -> (r: Option<usize>)
        requires
            i < self.nodes@.len(),
        ensures
            r == self.nodes@[i as int].parent,
    {
        self.nodes[i].parent
    }

    pub fn has_children(&self, i: usize) -> (r: bool)
        requires
            i < self.nodes@.len(),
        ensures
            r == !self.is_leaf(i as int),
    {
        self.nodes[i].first_child.is_some()
    }

    /// The payload of slot `i`.
    pub fn node(&self, i: usize) -> (r: &T)
        requires
            i < self.nodes@.len(),
        ensures
            *r == self.nodes@[i as int].node,
    {
        &self.nodes[i].node
    }

    pub fn level(&self, i: usize) -> (r: u8)
        requires
            i < self.nodes@.len(),
        ensures
            r == self.nodes@[i as int].level,
    {
        self.nodes[i].level
    }

    /// Whether slot `i` still hangs from the root, or was detached by a merge.
    pub fn is_attached(&self, i: usize) -> (r: bool)
        requires
            self.wf(),
        ensures
            r == (i < self.nodes@.len() && self.attached(i as int)),
        decreases i,
    {
        if i >= self.nodes.len() {
            return false;
        }
        if i == 0 {
            return true;
        }
        proof {
            assert(self.node_ok(i as int));
        }
        match self.nodes[i].parent {
            None => false,
            Some(p) => {
                match self.nodes[p].first_child {
                    None => false,
                    Some(f) => {
                        if f <= i && i - f < 4 {
                            self.is_attached(p)
                        } else {
                            false
                        }
                    },
                }
            },
        }
    }

    /// Replaces the payload of slot `i`.
    pub fn set_node(&mut self, i: usize, node: T)
        requires
            old(self).wf(),
            i < old(self).nodes@.len(),
            node.valid_at(old(self).nodes@[i as int].level as nat),
        ensures
            final(self).wf(),
            final(self).max_depth == old(self).max_depth,
            final(self).nodes@ == old(self).nodes@.update(
                i as int,
                TreeNode {
                    level: old(self).nodes@[i as int].level,
                    parent: old(self).nodes@[i as int].parent,
                    first_child: old(self).nodes@[i as int].first_child,
                    node,
                },
            ),
    {
        let ghost old_tree = *self;
        self.nodes[i].node = node;
        proof {
            assert forall|j: int| 0 <= j < self.nodes@.len() implies #[trigger] self.node_ok(j) by {
                assert(old_tree.node_ok(j));
            }
        }
    }

    /// Appends to `out` every node below slot `i`, in depth-first order.
    #[verifier::rlimit(100)]
    #[verifier::spinoff_prover]
    pub fn collect_descendants(&self, i: usize, out: &mut Vec<usize>)
        requires
            self.wf(),
            i < self.nodes@.len(),
        ensures
            final(out)@ == old(out)@ + self.descendants(i as int),
        decreases self.max_depth - self.nodes@[i as int].level,
    {
        proof {
            assert(self.node_ok(i as int));
        }
        let ghost fuel = (self.max_depth - self.nodes@[i as int].level) as nat;
        let len = self.nodes.len();
        match self.nodes[i].first_child {
            None => {
                proof {
                    lemma_descendants_of_leaf(self.nodes@, i as int, fuel);
                }
                assert(old(out)@ + self.descendants(i as int) =~= old(out)@);
            },
            Some(f) => {
                let ghost start = out@;
                let ghost d = (fuel - 1) as nat;
                proof {
                    assert(f + 4 <= len);
                    assert(fuel > 0);
                    assert(self.child_of(f as int, i as int));
                    assert(self.child_of(f + 1, i as int));
                    assert(self.child_of(f + 2, i as int));
                    assert(self.child_of(f + 3, i as int));
                }
                let ghost d0 = self.descendants_fuel(f as int, d);
                let ghost d1 = self.descendants_fuel(f + 1, d);
                let ghost d2 = self.descendants_fuel(f + 2, d);
                let ghost d3 = self.descendants_fuel(f + 3, d);
                out.push(f);
                self.collect_descendants(f, out);
                let ghost s0 = out@;
                assert(s0 == start + seq![f] + d0);
                out.push(f + 1);
                self.collect_descendants(f + 1, out);
                let ghost s1 = out@;
                assert(s1 == s0 + seq![(f + 1) as usize] + d1);
                out.push(f + 2);
                self.collect_descendants(f + 2, out);
                let ghost s2 = out@;
                assert(s2 == s1 + seq![(f + 2) as usize] + d2);
                out.push(f + 3);
                self.collect_descendants(f + 3, out);
                proof {
                    assert(out@ == s2 + seq![(f + 3) as usize] + d3);
                    lemma_descendants_of_split(self.nodes@, i as int, fuel);
                    assert(self.descendants(i as int) == seq![f] + d0 + seq![(f + 1) as usize] + d1
                        + seq![(f + 2) as usize] + d2 + seq![(f + 3) as usize] + d3);
                    assert(out@ =~= start + self.descendants(i as int));
                }
            },
        }
    }
}

/// Splitting a node below the depth ceiling and merging it straight away
/// leaves that node as it was: a leaf with the same level, parent and payload.
pub proof fn lemma_split_then_merge<T: Splittable>(
    before: QuadTree<T>,
    split: QuadTree<T>,
    merged: QuadTree<T>,
    i: int,
)
    requires
        before.wf(),
        0 <= i < before.nodes@.len(),
        before.can_split(i),
        split.nodes@ == before.split_nodes(i),
        merged.nodes@ == split.merge_nodes(i),
    ensures
        merged.nodes@[i] == before.nodes@[i],
        merged.is_leaf(i),
{
}

/// After a split, the node has children, and each of the four names the
/// split node as its parent.
pub proof fn lemma_split_children_parent<T: Splittable>(before: QuadTree<T>, split: QuadTree<T>, i: int)
    requires
        before.wf(),
        0 <= i < before.nodes@.len(),
        before.can_split(i),
        split.nodes@ == before.split_nodes(i),
    ensures
        !split.is_leaf(i),
        split.nodes@[i].first_child matches Some(f) && forall|k: int|
            0 <= k < 4 ==> #[trigger] split.nodes@[f + k].parent == Some(i as usize),
{
    let n = before.nodes@.len();
    assert(split.nodes@[i].first_child == Some(n as usize));
    assert forall|k: int| 0 <= k < 4 implies #[trigger] split.nodes@[n + k].parent == Some(i as usize) by {
        assert(split.nodes@[n + k] == before.new_child(i, k));
    }
}


} // verus!
