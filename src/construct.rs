use vstd::prelude::*;
use crate::damage::RestyleDamage;
use crate::flow::{FlowTree, FlowData, FlowFlags, leaf_marks_consistent, lemma_same_shape_wf};

verus! {

/// How a styled node is laid out.
#[derive(Clone, Copy, Debug, PartialEq, Eq, Structural)]
pub enum Display {
    /// The node and its whole subtree generate no flows.
    Hidden,
    Block,
}

/// A node of the styled document tree with its resolved style.
#[derive(Clone, Copy, Debug, PartialEq, Eq, Structural)]
pub struct StyledNode {
    /// Opaque handle of the node.
    pub node: u64,
    /// Index of the parent node; the root names itself.
    pub parent: usize,
    pub display: Display,
    /// Descendants are painted clipped to the node's box.
    pub clips: bool,
    /// Damage the style system recorded for the node.
    pub damage: RestyleDamage,
    pub min_width: u32,
    pub content_height: u32,
    pub inset: u32,
}

/// The styled document tree, in an arena where node 0 is the root and
/// every other node comes after its parent.
pub struct StyledTree {
    pub nodes: Vec<StyledNode>,
}

impl StyledTree {
    pub open spec fn len(&self) -> int {
        self.nodes@.len() as int
    }

    pub open spec fn parent(&self, i: int) -> int {
        self.nodes@[i].parent as int
    }

    pub open spec fn wf(&self) -> bool {
        &&& 1 <= self.len() < usize::MAX - 1
        &&& self.parent(0) == 0
        &&& forall|j: int| 1 <= j < self.len() ==> #[trigger] self.parent(j) < j
    }
}

/// Node `i` generates a flow: it and all of its ancestors are displayed.
pub open spec fn generates(s: StyledTree, i: int) -> bool
    decreases i,
{
    s.nodes@[i].display != Display::Hidden && (i == 0 || (0 <= s.parent(i) < i && generates(s, s.parent(i))))
}

/// The flow built for styled node `sn`, before its leaf marks are set.
pub open spec fn flow_of(sn: StyledNode, parent: usize, flags: FlowFlags) -> FlowData {
    FlowData {
        node: sn.node,
        parent,
        damage: sn.damage,
        flags,
        min_width: sn.min_width,
        content_height: sn.content_height,
        inset: sn.inset,
    }
}

/// A constructed flow tree, with the index of the styled node behind each flow.
pub struct Construction {
    pub tree: FlowTree,
    pub origin: Vec<usize>,
}

/// A construction error.
#[derive(Clone, Copy, Debug, PartialEq, Eq, Structural)]
pub enum ConstructionError {
    /// The root node generates no flow.
    NoFlowAtRoot,
}

/// `c` is the flow tree of `s`: one flow for each generating node, in
/// document order, parent links following the document's, each flow's data
/// taken from its node and marked leaf exactly when it has no children.
pub open spec fn constructed_from(s: StyledTree, c: Construction) -> bool {
    let t = c.tree;
    let o = c.origin@;
    &&& t.wf()
    &&& leaf_marks_consistent(t)
    &&& o.len() == t.len()
    &&& o[0] == 0
    &&& forall|k: int| 0 <= k < o.len() ==> (#[trigger] o[k]) < s.len() && generates(s, o[k] as int)
    &&& forall|k1: int, k2: int| 0 <= k1 < k2 < o.len() ==> #[trigger] o[k1] < #[trigger] o[k2]
    &&& forall|i: int| 0 <= i < s.len() && generates(s, i) ==> #[trigger] o.contains(i as usize)
    &&& forall|k: int| 1 <= k < o.len() ==> o[t.parent(k)] as int == s.parent(#[trigger] o[k] as int)
    &&& forall|k: int|
        0 <= k < o.len() ==> #[trigger] t.flows@[k] == flow_of(s.nodes@[o[k] as int], t.flows@[k].parent,
            FlowFlags { is_leaf: t.kids(k).len() == 0, is_nonleaf: t.kids(k).len() != 0, inorder: false,
                clips: s.nodes@[o[k] as int].clips })
}

/// Builds the flow tree of a styled tree: every displayed node whose
/// ancestors are all displayed gets a flow under the flow of its parent.
/// Fails when the root itself generates no flow.
pub fn construct_flow_tree(s: &StyledTree) -> (r: Result<Construction, ConstructionError>)
    requires
        s.wf(),
    ensures
        r is Err <==> s.nodes@[0].display == Display::Hidden,
        r matches Err(e) ==> e == ConstructionError::NoFlowAtRoot,
        r matches Ok(c) ==> constructed_from(*s, c),
{
    let n = s.nodes.len();
    let root = s.nodes[0];
    if matches!(root.display, Display::Hidden) {
        return Err(ConstructionError::NoFlowAtRoot);
    }
    
    let mut tree = FlowTree::new(FlowData {
        node: root.node,
        parent: 0,
        damage: root.damage,
        flags: FlowFlags { is_leaf: false, is_nonleaf: false, inorder: false, clips: root.clips },
        min_width: root.min_width,
        content_height: root.content_height,
        inset: root.inset,
    });
    let mut origin: Vec<usize> = Vec::new();
    origin.push(0);
    // The flow of each node seen so far, if it has one.
    let mut slot: Vec<Option<usize>> = Vec::new();
    slot.push(Some(0));
    let mut i: usize = 1;
    while i < n
        invariant
            s.wf(),
            n == s.len(),
            1 <= i <= n,
            tree.wf(),
            tree.len() <= i,
            slot@.len() == i,
            origin@.len() == tree.len(),
            origin@[0] == 0,
            forall|k: int| 0 <= k < origin@.len() ==> (#[trigger] origin@[k]) < i && generates(*s, origin@[k] as int),
            forall|k1: int, k2: int| 0 <= k1 < k2 < origin@.len() ==> #[trigger] origin@[k1] < #[trigger] origin@[k2],
            forall|j: int| 0 <= j < i ==> (#[trigger] slot@[j] is Some) == generates(*s, j),
            forall|j: int| 0 <= j < i && slot@[j] is Some ==> {
                let k = #[trigger] slot@[j]->Some_0 as int;
                0 <= k < origin@.len() && origin@[k] == j
            },
            forall|k: int| 1 <= k < origin@.len() ==> origin@[tree.parent(k)] as int == s.parent(#[trigger] origin@[k] as int),
            forall|k: int|
                0 <= k < origin@.len() ==> #[trigger] tree.flows@[k] == flow_of(s.nodes@[origin@[k] as int],
                    tree.flows@[k].parent, FlowFlags { is_leaf: false, is_nonleaf: false, inorder: false,
                    clips: s.nodes@[origin@[k] as int].clips }),
        decreases n - i,
    {
        let sn = s.nodes[i];
        let p = sn.parent;
        assert(s.parent(i as int) < i);
        let mut next: Option<usize> = None;
        if !matches!(sn.display, Display::Hidden) {
            if let Some(pf) = slot[p] {
                let ghost before = tree;
                let id = tree.add_child(pf, FlowData {
                    node: sn.node,
                    parent: 0,
                    damage: sn.damage,
                    flags: FlowFlags { is_leaf: false, is_nonleaf: false, inorder: false, clips: sn.clips },
                    min_width: sn.min_width,
                    content_height: sn.content_height,
                    inset: sn.inset,
                });
                origin.push(i);
                next = Some(id);
                proof {
                    assert forall|k: int| 0 <= k < before.len() implies #[trigger] tree.parent(k) == before.parent(k) by {
                        assert(tree.flows@[k] == before.flows@[k]);
                    }
                }
            }
        }
        slot.push(next);
        proof {
            assert(generates(*s, i as int) == (sn.display != Display::Hidden && slot@[p as int] is Some));
        }
        i = i + 1;
    }
    proof {
        assert forall|j: int| 0 <= j < n && generates(*s, j) implies #[trigger] origin@.contains(j as usize) by {
            let k = slot@[j]->Some_0 as int;
            assert(origin@[k] == j);
        }
    }
    let ghost built = tree;
    let m = tree.flows.len();
    let mut k: usize = 0;
    while k < m
        invariant
            built.wf(),
            m == built.len(),
            0 <= k <= m,
            tree.flows@.len() == m,
            tree.children@ == built.children@,
            forall|j: int| 0 <= j < m ==> #[trigger] tree.flows@[j].parent == built.flows@[j].parent,
            forall|j: int| 0 <= j < k ==> #[trigger] tree.flows@[j] == (FlowData {
                flags: FlowFlags { is_leaf: built.kids(j).len() == 0, is_nonleaf: built.kids(j).len() != 0, inorder: false,
                    clips: built.flows@[j].flags.clips },
                ..built.flows@[j] }),
            forall|j: int| k <= j < m ==> #[trigger] tree.flows@[j] == built.flows@[j],
        decreases m - k,
    {
        let f = tree.flows[k];
        let leaf = tree.children[k].len() == 0;
        tree.flows.set(k, FlowData { flags: FlowFlags { is_leaf: leaf, is_nonleaf: !leaf, inorder: false, clips: f.flags.clips }, ..f });
        k = k + 1;
    }
    proof {
        lemma_same_shape_wf(built, tree);
        assert forall|j: int| 0 <= j < m implies #[trigger] tree.parent(j) == built.parent(j) by {
            assert(tree.flows@[j].parent == built.flows@[j].parent);
        }
        assert forall|j: int| 0 <= j < m implies #[trigger] tree.kids(j) == built.kids(j) by {}
    }
    Ok(Construction { tree, origin })
}

} // verus!
