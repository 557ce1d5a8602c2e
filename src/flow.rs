use vstd::prelude::*;
use crate::damage::{RestyleDamage, damage_union, no_damage, all_damage, up_image, down_image};

verus! {

/// The kind of a flow, fixed when the tree is built.
#[derive(Clone, Copy, Debug, PartialEq, Eq, Structural)]
pub struct FlowFlags {
    /// The flow has no children.
    pub is_leaf: bool,
    /// The flow may have children.
    pub is_nonleaf: bool,
    /// The flow's heights are assigned by a separate in-order mechanism.
    pub inorder: bool,
    /// The flow clips the painting of its descendants to its own box.
    pub clips: bool,
}

/// The base record of one flow in the arena.
#[derive(Clone, Copy, Debug, PartialEq, Eq, Structural)]
pub struct FlowData {
    /// Opaque handle of the styled node that produced the flow.
    pub node: u64,
    /// Index of the parent flow; the root names itself.
    pub parent: usize,
    /// What must be recomputed for this flow.
    pub damage: RestyleDamage,
    /// Leaf / non-leaf / in-order marks.
    pub flags: FlowFlags,
    /// Width the flow's own content needs.
    pub min_width: u32,
    /// Height of the flow's own content, above its children.
    pub content_height: u32,
    /// Horizontal offset of the children inside the flow.
    pub inset: u32,
}

/// A flow tree held in an arena. Flow 0 is the root, and every other flow
/// comes after its parent, so index order is a preorder-compatible order and
/// its reverse lets every child come before its parent.
pub struct FlowTree {
    pub flows: Vec<FlowData>,
    /// The children of each flow, by index.
    pub children: Vec<Vec<usize>>,
}

impl FlowTree {
    pub open spec fn len(&self) -> int {
        self.flows@.len() as int
    }

    pub open spec fn parent(&self, i: int) -> int {
        self.flows@[i].parent as int
    }

    pub open spec fn kids(&self, i: int) -> Seq<usize> {
        self.children@[i]@
    }

    /// The arena describes one tree rooted at flow 0, and the children
    /// lists are exactly the inverse of the parent links.
    pub open spec fn wf(&self) -> bool {
        &&& 1 <= self.len() < usize::MAX
        &&& self.children@.len() == self.len()
        &&& self.parent(0) == 0
        &&& forall|j: int| 1 <= j < self.len() ==> #[trigger] self.parent(j) < j
        &&& forall|i: int| 0 <= i < self.len() ==> (#[trigger] self.kids(i)).no_duplicates()
        &&& forall|i: int, k: int|
            0 <= i < self.len() && 0 <= k < self.kids(i).len() ==> {
                let c = #[trigger] self.kids(i)[k] as int;
                0 < c < self.len() && self.parent(c) == i
            }
        &&& forall|j: int| 1 <= j < self.len() ==> self.kids(#[trigger] self.parent(j)).contains(j as usize)
    }

    /// A tree of one flow, the root.
    pub fn new(root: FlowData) -> (t: FlowTree)
        ensures
            t.wf(),
            t.len() == 1,
            t.flows@[0] == (FlowData { parent: 0, ..root }),
            t.kids(0).len() == 0,
    {
        let mut flows: Vec<FlowData> = Vec::new();
        flows.push(FlowData { parent: 0, ..root });
        let mut children: Vec<Vec<usize>> = Vec::new();
        children.push(Vec::new());
        FlowTree { flows, children }
    }

    /// Appends `data` as the last child of flow `parent` and returns its index.
    pub fn add_child(&mut self, parent: usize, data: FlowData) -> (id: usize)
        requires
            old(self).wf(),
            parent < old(self).len(),
            old(self).len() + 1 < usize::MAX,
        ensures
            final(self).wf(),
            id == old(self).len(),
            final(self).flows@ == old(self).flows@.push(FlowData { parent, ..data }),
            final(self).kids(parent as int) == old(self).kids(parent as int).push(id),
            final(self).kids(id as int).len() == 0,
            forall|i: int| 0 <= i < old(self).len() && i != parent ==> final(self).kids(i) == old(self).kids(i),
    {
        let id = self.flows.len();
        self.flows.push(FlowData { parent, ..data });
        let mut kids = self.children[parent].clone();
        assert(kids@ =~= old(self).kids(parent as int));
        kids.push(id);
        self.children.set(parent, kids);
        self.children.push(Vec::new());
        proof {
            let t = *old(self);
            assert forall|j: int| 0 <= j < t.len() implies #[trigger] self.parent(j) == t.parent(j) by {
                assert(self.flows@[j] == t.flows@[j]);
            }
            assert(self.parent(id as int) == parent);
            assert forall|j: int| 1 <= j < self.len() implies #[trigger] self.parent(j) < j by {
                if j < t.len() {
                    assert(self.parent(j) == t.parent(j));
                }
            }
            assert forall|i: int| 0 <= i < self.len() implies (#[trigger] self.kids(i)).no_duplicates() by {
                if i == id as int {
                    assert(self.kids(i).len() == 0);
                } else if i != parent as int {
                    assert(self.kids(i) == t.kids(i));
                } else {
                    assert(self.kids(i) == t.kids(i).push(id));
                    assert(!t.kids(i).contains(id)) by {
                        if t.kids(i).contains(id) {
                            let k = choose|k: int| 0 <= k < t.kids(i).len() && t.kids(i)[k] == id;
                            assert(t.kids(i)[k] < t.len());
                        }
                    }
                    assert(t.kids(i).no_duplicates());
                }
            }
            assert forall|i: int, k: int|
                0 <= i < self.len() && 0 <= k < self.kids(i).len() implies {
                    let c = #[trigger] self.kids(i)[k] as int;
                    0 < c < self.len() && self.parent(c) == i
                } by {
                if i < t.len() && !(i == parent as int && k == t.kids(i).len()) {
                    assert(self.kids(i)[k] == t.kids(i)[k]);
                    let c = t.kids(i)[k] as int;
                    assert(t.parent(c) == i);
                    assert(self.parent(c) == t.parent(c));
                }
            }
            assert forall|j: int| 1 <= j < self.len() implies self.kids(#[trigger] self.parent(j)).contains(j as usize) by {
                if j == id as int {
                    assert(self.kids(parent as int)[t.kids(parent as int).len() as int] == id);
                } else {
                    assert(t.parent(j) == self.parent(j));
                    assert(t.kids(t.parent(j)).contains(j as usize));
                    let k = choose|k: int| 0 <= k < t.kids(t.parent(j)).len() && t.kids(t.parent(j))[k] == j as usize;
                    assert(self.kids(self.parent(j))[k] == j as usize);
                }
            }
        }
        id
    }

    /// Number of flows in the tree.
    pub fn size(&self) -> (n: usize)
        ensures
            n == self.len(),
    {
        self.flows.len()
    }

    /// The base record of flow `i`.
    pub fn flow(&self, i: usize) -> (d: FlowData)
        requires
            i < self.len(),
        ensures
            d == self.flows@[i as int],
    {
        self.flows[i]
    }
}

/// Two arenas with the same parent links and children lists are both trees
/// or neither.
pub proof fn lemma_same_shape_wf(a: FlowTree, b: FlowTree)
    requires
        a.wf(),
        b.flows@.len() == a.flows@.len(),
        b.children@ == a.children@,
        forall|j: int| 0 <= j < a.len() ==> #[trigger] b.flows@[j].parent == a.flows@[j].parent,
    ensures
        b.wf(),
{
    assert forall|j: int| 0 <= j < a.len() implies #[trigger] b.parent(j) == a.parent(j) by {
        assert(b.flows@[j].parent == a.flows@[j].parent);
    }
    assert forall|i: int| 0 <= i < b.len() implies b.kids(i) == a.kids(i) by {}
    assert forall|i: int, k: int|
        0 <= i < b.len() && 0 <= k < b.kids(i).len() implies {
            let c = #[trigger] b.kids(i)[k] as int;
            0 < c < b.len() && b.parent(c) == i
        } by {
        assert(b.kids(i) == a.kids(i));
        let c = a.kids(i)[k] as int;
        assert(b.parent(c) == a.parent(c));
    }
    assert forall|j: int| 1 <= j < b.len() implies b.kids(#[trigger] b.parent(j)).contains(j as usize) by {
        assert(b.parent(j) == a.parent(j));
        assert(a.kids(a.parent(j)).contains(j as usize));
        assert(b.kids(b.parent(j)) == a.kids(a.parent(j)));
    }
}

/// Damage of flow `i` after the top-down pass: its own damage, what its
/// parent hands down, and the complete set when `all` is raised.
pub open spec fn pushed_damage(t: FlowTree, all: bool, i: int) -> RestyleDamage
    decreases i,
{
    let own = damage_union(t.flows@[i].damage, if all { all_damage() } else { no_damage() });
    if 0 < i && 0 <= t.parent(i) < i {
        damage_union(down_image(pushed_damage(t, all, t.parent(i))), own)
    } else {
        own
    }
}

/// The damage recorded on each flow of `t`, by index.
pub open spec fn damages(t: FlowTree) -> Seq<RestyleDamage> {
    Seq::new(t.flows@.len(), |j: int| t.flows@[j].damage)
}

/// Damage of flow `i` after the bottom-up pass over a tree shaped like `t`
/// whose flows carry damage `d`: its own damage together with the upward
/// image of the final damage of each child.
pub open spec fn pulled_damage(t: FlowTree, d: Seq<RestyleDamage>, i: int) -> RestyleDamage
    decreases t.len() - i, t.kids(i).len() + 1,
{
    if 0 <= i < t.len() {
        damage_union(d[i], kids_up_damage(t, d, i, t.kids(i).len() as int))
    } else {
        no_damage()
    }
}

/// Union of the upward images of the final damage of the first `k`
/// children of flow `i`.
pub open spec fn kids_up_damage(t: FlowTree, d: Seq<RestyleDamage>, i: int, k: int) -> RestyleDamage
    decreases t.len() - i, k,
{
    if k <= 0 || k > t.kids(i).len() || i < 0 {
        no_damage()
    } else {
        let c = t.kids(i)[k - 1] as int;
        let prev = kids_up_damage(t, d, i, k - 1);
        if i < c < t.len() {
            damage_union(prev, up_image(pulled_damage(t, d, c)))
        } else {
            prev
        }
    }
}

/// Damage of every flow after the top-down pass.
pub open spec fn pushed_damages(t: FlowTree, all: bool) -> Seq<RestyleDamage> {
    Seq::new(t.flows@.len(), |j: int| pushed_damage(t, all, j))
}

/// `d` holds the same tree as `t`, with damage `dmg(j)` on each flow `j`.
pub open spec fn same_tree_with_damage(d: FlowTree, t: FlowTree, dmg: spec_fn(int) -> RestyleDamage) -> bool {
    &&& d.flows@.len() == t.flows@.len()
    &&& d.children@ == t.children@
    &&& forall|j: int|
        0 <= j < t.len() ==> #[trigger] d.flows@[j] == (FlowData { damage: dmg(j), ..t.flows@[j] })
}

/// Top-down pass: every flow takes on what its parent hands down, and the
/// complete damage set when `all_style_damage` is raised.
pub fn push_damage_down(t: &mut FlowTree, all_style_damage: bool)
    requires
        old(t).wf(),
    ensures
        final(t).wf(),
        same_tree_with_damage(*final(t), *old(t), |j: int| pushed_damage(*old(t), all_style_damage, j)),
{
    let ghost t0 = *t;
    let n = t.flows.len();
    let extra = if all_style_damage { RestyleDamage::all() } else { RestyleDamage::none() };
    let mut i: usize = 0;
    while i < n
        invariant
            t0.wf(),
            n == t0.len(),
            extra == (if all_style_damage { all_damage() } else { no_damage() }),
            0 <= i <= n,
            t.flows@.len() == n,
            t.children@ == t0.children@,
            forall|j: int| 0 <= j < i ==> #[trigger] t.flows@[j] == (FlowData {
                damage: pushed_damage(t0, all_style_damage, j), ..t0.flows@[j] }),
            forall|j: int| i <= j < n ==> #[trigger] t.flows@[j] == t0.flows@[j],
        decreases n - i,
    {
        let f = t.flows[i];
        let mut d = f.damage.union(extra);
        if i > 0 {
            let p = f.parent;
            assert(t0.parent(i as int) < i);
            d = t.flows[p].damage.propagate_down().union(d);
        }
        t.flows.set(i, FlowData { damage: d, ..f });
        i = i + 1;
    }
    proof {
        assert forall|j: int| 0 <= j < n implies #[trigger] t.flows@[j].parent == t0.flows@[j].parent by {
            assert(t.flows@[j] == (FlowData { damage: pushed_damage(t0, all_style_damage, j), ..t0.flows@[j] }));
        }
        lemma_same_shape_wf(t0, *t);
    }
}

/// Bottom-up pass: every flow takes on the upward image of the final
/// damage of each of its children, children first.
pub fn pull_damage_up(t: &mut FlowTree)
    requires
        old(t).wf(),
    ensures
        final(t).wf(),
        same_tree_with_damage(*final(t), *old(t), |j: int| pulled_damage(*old(t), damages(*old(t)), j)),
{
    let ghost t0 = *t;
    let ghost d0 = damages(t0);
    let n = t.flows.len();
    let mut i: usize = n;
    while i > 0
        invariant
            t0.wf(),
            d0 == damages(t0),
            n == t0.len(),
            0 <= i <= n,
            t.flows@.len() == n,
            t.children@ == t0.children@,
            forall|j: int| i <= j < n ==> #[trigger] t.flows@[j] == (FlowData {
                damage: pulled_damage(t0, d0, j), ..t0.flows@[j] }),
            forall|j: int| 0 <= j < i ==> #[trigger] t.flows@[j] == t0.flows@[j],
        decreases i,
    {
        let m = i - 1;
        let nk = t.children[m].len();
        let mut acc = RestyleDamage::none();
        let mut k: usize = 0;
        while k < nk
            invariant
                t0.wf(),
                n == t0.len(),
                i <= n,
                m == i - 1,
                t.flows@.len() == n,
                t.children@ == t0.children@,
                nk == t0.kids(m as int).len(),
                0 <= k <= nk,
                acc == kids_up_damage(t0, d0, m as int, k as int),
                forall|j: int| i <= j < n ==> #[trigger] t.flows@[j] == (FlowData {
                    damage: pulled_damage(t0, d0, j), ..t0.flows@[j] }),
            decreases nk - k,
        {
            let c = t.children[m][k];
            assert(t0.kids(m as int)[k as int] == c);
            assert(t.flows@[c as int].damage == pulled_damage(t0, d0, c as int));
            acc = acc.union(t.flows[c].damage.propagate_up());
            k = k + 1;
        }
        let f = t.flows[m];
        assert(f.damage == d0[m as int]);
        t.flows.set(m, FlowData { damage: f.damage.union(acc), ..f });
        i = m;
    }
    proof {
        assert forall|j: int| 0 <= j < n implies #[trigger] t.flows@[j].parent == t0.flows@[j].parent by {
            assert(t.flows@[j] == (FlowData { damage: pulled_damage(t0, d0, j), ..t0.flows@[j] }));
        }
        lemma_same_shape_wf(t0, *t);
    }
}

/// Both propagation passes: the top-down push, then the bottom-up pull.
pub fn propagate_damage(t: &mut FlowTree, all_style_damage: bool)
    requires
        old(t).wf(),
    ensures
        final(t).wf(),
        same_tree_with_damage(
            *final(t),
            *old(t),
            |j: int| pulled_damage(*old(t), pushed_damages(*old(t), all_style_damage), j),
        ),
{
    let ghost t0 = *t;
    push_damage_down(t, all_style_damage);
    let ghost t1 = *t;
    proof {
        assert(damages(t1) =~= pushed_damages(t0, all_style_damage)) by {
            assert forall|j: int| 0 <= j < t0.len() implies damages(t1)[j] == pushed_damages(t0, all_style_damage)[j] by {
                assert(t1.flows@[j] == (FlowData { damage: pushed_damage(t0, all_style_damage, j), ..t0.flows@[j] }));
            }
        }
        assert(t1.children@ == t0.children@);
        assert forall|j: int| 0 <= j < t0.len() implies #[trigger] t1.kids(j) == t0.kids(j) by {}
    }
    pull_damage_up(t);
    proof {
        lemma_pulled_same_shape(t1, t0, pushed_damages(t0, all_style_damage));
        assert forall|j: int| 0 <= j < t0.len() implies #[trigger] t.flows@[j] == (FlowData {
            damage: pulled_damage(t0, pushed_damages(t0, all_style_damage), j), ..t0.flows@[j] }) by {
            assert(t.flows@[j] == (FlowData { damage: pulled_damage(t1, damages(t1), j), ..t1.flows@[j] }));
            assert(t1.flows@[j] == (FlowData { damage: pushed_damage(t0, all_style_damage, j), ..t0.flows@[j] }));
        }
    }
}

/// The pull depends on the children lists and the length only.
pub proof fn lemma_pulled_same_shape(a: FlowTree, b: FlowTree, d: Seq<RestyleDamage>)
    requires
        a.children@ == b.children@,
        a.flows@.len() == b.flows@.len(),
    ensures
        forall|i: int| #[trigger] pulled_damage(a, d, i) == pulled_damage(b, d, i),
{
    assert forall|i: int| #[trigger] pulled_damage(a, d, i) == pulled_damage(b, d, i) by {
        lemma_pulled_same_shape_at(a, b, d, i);
    }
}

proof fn lemma_pulled_same_shape_at(a: FlowTree, b: FlowTree, d: Seq<RestyleDamage>, i: int)
    requires
        a.children@ == b.children@,
        a.flows@.len() == b.flows@.len(),
    ensures
        pulled_damage(a, d, i) == pulled_damage(b, d, i),
    decreases a.len() - i, a.kids(i).len() + 1,
{
    if 0 <= i < a.len() {
        lemma_kids_up_same_shape_at(a, b, d, i, a.kids(i).len() as int);
    }
}

proof fn lemma_kids_up_same_shape_at(a: FlowTree, b: FlowTree, d: Seq<RestyleDamage>, i: int, k: int)
    requires
        a.children@ == b.children@,
        a.flows@.len() == b.flows@.len(),
    ensures
        kids_up_damage(a, d, i, k) == kids_up_damage(b, d, i, k),
    decreases a.len() - i, k,
{
    if k <= 0 || k > a.kids(i).len() || i < 0 {
    } else {
        lemma_kids_up_same_shape_at(a, b, d, i, k - 1);
        let c = a.kids(i)[k - 1] as int;
        if i < c < a.len() {
            lemma_pulled_same_shape_at(a, b, d, c);
        }
    }
}

/// With the all-style-damage flag raised, every flow leaves the top-down
/// pass with the complete damage set, whatever damage it came in with, and
/// keeps it through the bottom-up pass.
pub proof fn lemma_all_style_damage_reaches_every_flow(t: FlowTree, i: int)
    requires
        t.wf(),
        0 <= i < t.len(),
    ensures
        pushed_damage(t, true, i) == all_damage(),
        pulled_damage(t, pushed_damages(t, true), i) == all_damage(),
{
    assert(pushed_damages(t, true)[i] == pushed_damage(t, true, i));
}

/// The final damage of a flow after both passes is the union of what its
/// parent's final top-down damage hands down, its own damage (the complete
/// set when `all` is raised), and the upward images of its children's final
/// damage.
pub proof fn lemma_propagation_composition(t: FlowTree, all: bool, i: int)
    requires
        t.wf(),
        0 <= i < t.len(),
    ensures
        pulled_damage(t, pushed_damages(t, all), i) == damage_union(
            damage_union(
                if i > 0 { down_image(pushed_damage(t, all, t.parent(i))) } else { no_damage() },
                damage_union(t.flows@[i].damage, if all { all_damage() } else { no_damage() }),
            ),
            kids_up_damage(t, pushed_damages(t, all), i, t.kids(i).len() as int),
        ),
{
    assert(pushed_damages(t, all)[i] == pushed_damage(t, all, i));
}

/// Every flow is marked exactly one of leaf and non-leaf.
pub open spec fn leaf_marks_consistent(t: FlowTree) -> bool {
    forall|j: int| 0 <= j < t.len() ==> (#[trigger] t.flows@[j]).flags.is_leaf != t.flows@[j].flags.is_nonleaf
}

/// Checks the marks of every flow, in preorder: true when each is marked
/// exactly one of leaf and non-leaf.
pub fn verify_flow_tree(t: &FlowTree) -> (ok: bool)
    ensures
        ok == leaf_marks_consistent(*t),
{
    let mut i: usize = 0;
    while i < t.flows.len()
        invariant
            0 <= i <= t.len(),
            forall|j: int| 0 <= j < i ==> (#[trigger] t.flows@[j]).flags.is_leaf != t.flows@[j].flags.is_nonleaf,
        decreases t.len() - i,
    {
        let f = t.flows[i].flags;
        if f.is_leaf == f.is_nonleaf {
            return false;
        }
        i = i + 1;
    }
    true
}

} // verus!
