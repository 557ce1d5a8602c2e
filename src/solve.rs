use vstd::prelude::*;
use crate::flow::FlowTree;
use crate::schedule::{valid_postorder, lemma_kid_before, sequential_postorder, postorder_schedule};

verus! {

/// `a + b`, held at the largest `u32`.
pub open spec fn sat_add(a: int, b: int) -> int {
    if a + b > u32::MAX { u32::MAX as int } else { a + b }
}

/// `a - b`, held at zero.
pub open spec fn sat_sub(a: int, b: int) -> int {
    if a < b { 0 } else { a - b }
}

pub open spec fn max(a: int, b: int) -> int {
    if a >= b { a } else { b }
}

/// Preferred width of flow `i`: what its own content needs, or the widest
/// preferred width among its children.
pub open spec fn pref_width(t: FlowTree, i: int) -> int
    decreases t.len() - i, t.kids(i).len() + 1,
{
    if 0 <= i < t.len() {
        max(t.flows@[i].min_width as int, kids_pref_width(t, i, t.kids(i).len() as int))
    } else {
        0
    }
}

/// Widest preferred width among the first `k` children of flow `i`.
pub open spec fn kids_pref_width(t: FlowTree, i: int, k: int) -> int
    decreases t.len() - i, k,
{
    if k <= 0 || k > t.kids(i).len() || i < 0 {
        0
    } else {
        let c = t.kids(i)[k - 1] as int;
        let prev = kids_pref_width(t, i, k - 1);
        if i < c < t.len() {
            max(prev, pref_width(t, c))
        } else {
            prev
        }
    }
}

/// Width assigned to flow `i`: the root gets the viewport width, a child
/// what is left of its parent's width inside the parent's inset; a flow is
/// never narrower than its preferred width.
pub open spec fn assigned_width(t: FlowTree, viewport: int, i: int) -> int
    decreases i,
{
    let avail = if 0 < i && 0 <= t.parent(i) < i {
        sat_sub(assigned_width(t, viewport, t.parent(i)), t.flows@[t.parent(i)].inset as int)
    } else {
        viewport
    };
    max(avail, pref_width(t, i))
}

/// Height of flow `i`: its own content with its children stacked below.
/// A flow marked for in-order processing is left at zero here.
pub open spec fn flow_height(t: FlowTree, i: int) -> int
    decreases t.len() - i, t.kids(i).len() + 1,
{
    if 0 <= i < t.len() && !t.flows@[i].flags.inorder {
        sat_add(t.flows@[i].content_height as int, kids_height(t, i, t.kids(i).len() as int))
    } else {
        0
    }
}

/// Total height of the first `k` children of flow `i`.
pub open spec fn kids_height(t: FlowTree, i: int, k: int) -> int
    decreases t.len() - i, k,
{
    if k <= 0 || k > t.kids(i).len() || i < 0 {
        0
    } else {
        let c = t.kids(i)[k - 1] as int;
        let prev = kids_height(t, i, k - 1);
        if i < c < t.len() {
            sat_add(prev, flow_height(t, c))
        } else {
            prev
        }
    }
}

/// Overflow width of flow `i`: its own width, or the farthest right edge
/// reached by a child's overflow, offset by the inset. A flow marked for
/// in-order processing is left at zero here.
pub open spec fn overflow_width(t: FlowTree, viewport: int, i: int) -> int
    decreases t.len() - i, t.kids(i).len() + 1,
{
    if 0 <= i < t.len() && !t.flows@[i].flags.inorder {
        max(assigned_width(t, viewport, i), kids_overflow_width(t, viewport, i, t.kids(i).len() as int))
    } else {
        0
    }
}

/// Farthest right edge reached by the overflow of the first `k` children of
/// flow `i`.
pub open spec fn kids_overflow_width(t: FlowTree, viewport: int, i: int, k: int) -> int
    decreases t.len() - i, k,
{
    if k <= 0 || k > t.kids(i).len() || i < 0 {
        0
    } else {
        let c = t.kids(i)[k - 1] as int;
        let prev = kids_overflow_width(t, viewport, i, k - 1);
        if i < c < t.len() {
            max(prev, sat_add(t.flows@[i].inset as int, overflow_width(t, viewport, c)))
        } else {
            prev
        }
    }
}

/// Position of flow `i` among its parent's children.
pub open spec fn kid_index(t: FlowTree, i: int) -> int {
    choose|k: int| 0 <= k < t.kids(t.parent(i)).len() && t.kids(t.parent(i))[k] == i as usize
}

/// Left edge of flow `i`: its parent's left edge moved right by the
/// parent's inset.
pub open spec fn flow_x(t: FlowTree, i: int) -> int
    decreases i,
{
    if 0 < i && 0 <= t.parent(i) < i {
        sat_add(flow_x(t, t.parent(i)), t.flows@[t.parent(i)].inset as int)
    } else {
        0
    }
}

/// Top edge of flow `i`: below its parent's own content and below the
/// siblings that come before it.
pub open spec fn flow_y(t: FlowTree, i: int) -> int
    decreases i,
{
    if 0 < i && 0 <= t.parent(i) < i {
        let p = t.parent(i);
        sat_add(sat_add(flow_y(t, p), t.flows@[p].content_height as int), kids_height(t, p, kid_index(t, i)))
    } else {
        0
    }
}

/// The solved geometry of one flow.
#[derive(Clone, Copy, Debug, PartialEq, Eq, Structural)]
pub struct FlowGeometry {
    pub x: u32,
    pub y: u32,
    pub pref_width: u32,
    pub width: u32,
    pub height: u32,
    pub overflow_width: u32,
}

/// `g` holds, flow by flow, the geometry that the three passes define for
/// `t` in a viewport `viewport` wide.
pub open spec fn geometry_matches(t: FlowTree, viewport: int, g: Seq<FlowGeometry>) -> bool {
    &&& g.len() == t.len()
    &&& forall|j: int|
        0 <= j < t.len() ==> {
            &&& (#[trigger] g[j]).x as int == flow_x(t, j)
            &&& g[j].y as int == flow_y(t, j)
            &&& g[j].pref_width as int == pref_width(t, j)
            &&& g[j].width as int == assigned_width(t, viewport, j)
            &&& g[j].height as int == flow_height(t, j)
            &&& g[j].overflow_width as int == overflow_width(t, viewport, j)
        }
}

/// Solved geometry is unique: any two results that meet the solvers'
/// contracts for the same tree and viewport are identical, whatever order
/// or worker count produced them.
pub proof fn lemma_solved_geometry_unique(t: FlowTree, viewport: int, g1: Seq<FlowGeometry>, g2: Seq<FlowGeometry>)
    requires
        geometry_matches(t, viewport, g1),
        geometry_matches(t, viewport, g2),
    ensures
        g1 == g2,
{
    assert forall|j: int| 0 <= j < g1.len() implies g1[j] == g2[j] by {
        assert(g1[j].pref_width == g2[j].pref_width && g1[j].x == g2[j].x);
    }
    assert(g1 =~= g2);
}

fn max_u32(a: u32, b: u32) -> (r: u32)
    ensures
        r as int == max(a as int, b as int),
{
    if a >= b { a } else { b }
}

fn sat_add_u32(a: u32, b: u32) -> (r: u32)
    ensures
        r as int == sat_add(a as int, b as int),
{
    if a > u32::MAX - b { u32::MAX } else { a + b }
}

fn zeros(n: usize) -> (v: Vec<u32>)
    ensures
        v@.len() == n,
        forall|j: int| 0 <= j < n ==> #[trigger] v@[j] == 0,
{
    let mut v: Vec<u32> = Vec::new();
    let mut i: usize = 0;
    while i < n
        invariant
            0 <= i <= n,
            v@.len() == i,
            forall|j: int| 0 <= j < i ==> #[trigger] v@[j] == 0,
        decreases n - i,
    {
        v.push(0);
        i = i + 1;
    }
    v
}

/// The first pass: preferred widths bubble up from the leaves.
pub struct BubbleWidthsTraversal;

impl BubbleWidthsTraversal {
    /// Computes the preferred width of flow `i` once its children's are final.
    pub fn process(&self, t: &FlowTree, pref: &mut Vec<u32>, i: usize)
        requires
            t.wf(),
            i < t.len(),
            old(pref)@.len() == t.len(),
            forall|k: int| 0 <= k < t.kids(i as int).len()
                ==> old(pref)@[#[trigger] t.kids(i as int)[k] as int] as int == pref_width(*t, t.kids(i as int)[k] as int),
        ensures
            final(pref)@.len() == t.len(),
            final(pref)@[i as int] as int == pref_width(*t, i as int),
            forall|j: int| 0 <= j < t.len() && j != i ==> #[trigger] final(pref)@[j] == old(pref)@[j],
    {
        let nk = t.children[i].len();
        let mut acc: u32 = 0;
        let mut k: usize = 0;
        while k < nk
            invariant
                t.wf(),
                i < t.len(),
                nk == t.kids(i as int).len(),
                0 <= k <= nk,
                pref@.len() == t.len(),
                acc as int == kids_pref_width(*t, i as int, k as int),
                forall|kk: int| 0 <= kk < t.kids(i as int).len()
                    ==> pref@[#[trigger] t.kids(i as int)[kk] as int] as int == pref_width(*t, t.kids(i as int)[kk] as int),
            decreases nk - k,
        {
            let c = t.children[i][k];
            assert(t.kids(i as int)[k as int] == c);
            acc = max_u32(acc, pref[c]);
            k = k + 1;
        }
        pref.set(i, max_u32(t.flows[i].min_width, acc));
    }
}

/// First pass, postorder: every flow's preferred width from its children's.
pub fn bubble_widths(t: &FlowTree, order: &Vec<usize>) -> (pref: Vec<u32>)
    requires
        t.wf(),
        valid_postorder(*t, order@),
    ensures
        pref@.len() == t.len(),
        forall|j: int| 0 <= j < t.len() ==> #[trigger] pref@[j] as int == pref_width(*t, j),
{
    let n = t.flows.len();
    let traversal = BubbleWidthsTraversal;
    let mut pref = zeros(n);
    let mut p: usize = 0;
    while p < order.len()
        invariant
            t.wf(),
            valid_postorder(*t, order@),
            n == t.len(),
            pref@.len() == n,
            0 <= p <= order@.len(),
            forall|q: int| 0 <= q < p ==> #[trigger] pref@[order@[q] as int] as int == pref_width(*t, order@[q] as int),
        decreases order@.len() - p,
    {
        let m = order[p];
        proof {
            assert forall|k: int| 0 <= k < t.kids(m as int).len()
                implies pref@[#[trigger] t.kids(m as int)[k] as int] as int == pref_width(*t, t.kids(m as int)[k] as int) by {
                let q = lemma_kid_before(*t, order@, p as int, k);
                assert(pref@[order@[q] as int] as int == pref_width(*t, order@[q] as int));
            }
        }
        traversal.process(t, &mut pref, m);
        proof {
            assert forall|q: int| 0 <= q < p + 1 implies #[trigger] pref@[order@[q] as int] as int == pref_width(*t, order@[q] as int) by {
                if q < p {
                    assert(order@[q] != order@[p as int]);
                }
            }
        }
        p = p + 1;
    }
    proof {
        assert forall|j: int| 0 <= j < n implies #[trigger] pref@[j] as int == pref_width(*t, j) by {
            assert(order@.contains(j as usize));
            let q = choose|q: int| 0 <= q < order@.len() && order@[q] == j as usize;
            assert(pref@[order@[q] as int] as int == pref_width(*t, order@[q] as int));
        }
    }
    pref
}

fn sat_sub_u32(a: u32, b: u32) -> (r: u32)
    ensures
        r as int == sat_sub(a as int, b as int),
{
    if a < b { 0 } else { a - b }
}

/// Second pass, preorder: every flow's width from its parent's, parents
/// first.
pub fn assign_widths(t: &FlowTree, viewport: u32, pref: &Vec<u32>) -> (widths: Vec<u32>)
    requires
        t.wf(),
        pref@.len() == t.len(),
        forall|j: int| 0 <= j < t.len() ==> #[trigger] pref@[j] as int == pref_width(*t, j),
    ensures
        widths@.len() == t.len(),
        forall|j: int| 0 <= j < t.len() ==> #[trigger] widths@[j] as int == assigned_width(*t, viewport as int, j),
{
    let n = t.flows.len();
    let mut widths: Vec<u32> = Vec::new();
    let mut i: usize = 0;
    while i < n
        invariant
            t.wf(),
            n == t.len(),
            pref@.len() == n,
            forall|j: int| 0 <= j < n ==> #[trigger] pref@[j] as int == pref_width(*t, j),
            0 <= i <= n,
            widths@.len() == i,
            forall|j: int| 0 <= j < i ==> #[trigger] widths@[j] as int == assigned_width(*t, viewport as int, j),
        decreases n - i,
    {
        let avail = if i == 0 {
            viewport
        } else {
            let par = t.flows[i].parent;
            assert(t.parent(i as int) < i);
            sat_sub_u32(widths[par], t.flows[par].inset)
        };
        widths.push(max_u32(avail, pref[i]));
        i = i + 1;
    }
    widths
}

/// The third pass: heights and overflow from the leaves up, for a viewport
/// `viewport_width` wide.
pub struct AssignHeightsAndStoreOverflowTraversal {
    pub viewport_width: u32,
}

impl AssignHeightsAndStoreOverflowTraversal {
    /// Flows marked for in-order processing are left to that mechanism.
    pub fn should_process(&self, t: &FlowTree, i: usize) -> (r: bool)
        requires
            i < t.len(),
        ensures
            r == !t.flows@[i as int].flags.inorder,
    {
        !t.flows[i].flags.inorder
    }

    /// Computes the height and overflow of flow `i` once its children's
    /// are final; a flow that is not to be processed gets zero.
    pub fn process(&self, t: &FlowTree, widths: &Vec<u32>, heights: &mut Vec<u32>, overflow: &mut Vec<u32>, i: usize)
        requires
            t.wf(),
            i < t.len(),
            widths@.len() == t.len(),
            forall|j: int| 0 <= j < t.len() ==> #[trigger] widths@[j] as int == assigned_width(*t, self.viewport_width as int, j),
            old(heights)@.len() == t.len(),
            old(overflow)@.len() == t.len(),
            forall|k: int| 0 <= k < t.kids(i as int).len()
                ==> old(heights)@[#[trigger] t.kids(i as int)[k] as int] as int == flow_height(*t, t.kids(i as int)[k] as int),
            forall|k: int| 0 <= k < t.kids(i as int).len()
                ==> old(overflow)@[#[trigger] t.kids(i as int)[k] as int] as int
                    == overflow_width(*t, self.viewport_width as int, t.kids(i as int)[k] as int),
        ensures
            final(heights)@.len() == t.len(),
            final(overflow)@.len() == t.len(),
            final(heights)@[i as int] as int == flow_height(*t, i as int),
            final(overflow)@[i as int] as int == overflow_width(*t, self.viewport_width as int, i as int),
            forall|j: int| 0 <= j < t.len() && j != i ==> #[trigger] final(heights)@[j] == old(heights)@[j],
            forall|j: int| 0 <= j < t.len() && j != i ==> #[trigger] final(overflow)@[j] == old(overflow)@[j],
    {
        if !self.should_process(t, i) {
            heights.set(i, 0);
            overflow.set(i, 0);
            return;
        }
        let f = t.flows[i];
        let nk = t.children[i].len();
        let mut h: u32 = 0;
        let mut o: u32 = 0;
        let mut k: usize = 0;
        while k < nk
            invariant
                t.wf(),
                i < t.len(),
                f == t.flows@[i as int],
                nk == t.kids(i as int).len(),
                0 <= k <= nk,
                heights@.len() == t.len(),
                overflow@.len() == t.len(),
                h as int == kids_height(*t, i as int, k as int),
                o as int == kids_overflow_width(*t, self.viewport_width as int, i as int, k as int),
                forall|kk: int| 0 <= kk < t.kids(i as int).len()
                    ==> heights@[#[trigger] t.kids(i as int)[kk] as int] as int == flow_height(*t, t.kids(i as int)[kk] as int),
                forall|kk: int| 0 <= kk < t.kids(i as int).len()
                    ==> overflow@[#[trigger] t.kids(i as int)[kk] as int] as int
                        == overflow_width(*t, self.viewport_width as int, t.kids(i as int)[kk] as int),
            decreases nk - k,
        {
            let c = t.children[i][k];
            assert(t.kids(i as int)[k as int] == c);
            h = sat_add_u32(h, heights[c]);
            o = max_u32(o, sat_add_u32(f.inset, overflow[c]));
            k = k + 1;
        }
        heights.set(i, sat_add_u32(f.content_height, h));
        overflow.set(i, max_u32(widths[i], o));
    }
}

/// Third pass, postorder: every flow's height and overflow from its
/// children's. Flows marked for in-order processing are skipped.
pub fn assign_heights_and_store_overflow(t: &FlowTree, viewport: u32, widths: &Vec<u32>, order: &Vec<usize>)
    -> (r: (Vec<u32>, Vec<u32>))
    requires
        t.wf(),
        valid_postorder(*t, order@),
        widths@.len() == t.len(),
        forall|j: int| 0 <= j < t.len() ==> #[trigger] widths@[j] as int == assigned_width(*t, viewport as int, j),
    ensures
        r.0@.len() == t.len(),
        r.1@.len() == t.len(),
        forall|j: int| 0 <= j < t.len() ==> #[trigger] r.0@[j] as int == flow_height(*t, j),
        forall|j: int| 0 <= j < t.len() ==> #[trigger] r.1@[j] as int == overflow_width(*t, viewport as int, j),
{
    let n = t.flows.len();
    let traversal = AssignHeightsAndStoreOverflowTraversal { viewport_width: viewport };
    let mut heights = zeros(n);
    let mut overflow = zeros(n);
    let mut p: usize = 0;
    while p < order.len()
        invariant
            t.wf(),
            valid_postorder(*t, order@),
            n == t.len(),
            traversal.viewport_width == viewport,
            widths@.len() == n,
            forall|j: int| 0 <= j < n ==> #[trigger] widths@[j] as int == assigned_width(*t, viewport as int, j),
            heights@.len() == n,
            overflow@.len() == n,
            0 <= p <= order@.len(),
            forall|q: int| 0 <= q < p ==> #[trigger] heights@[order@[q] as int] as int == flow_height(*t, order@[q] as int),
            forall|q: int| 0 <= q < p ==> #[trigger] overflow@[order@[q] as int] as int == overflow_width(*t, viewport as int, order@[q] as int),
        decreases order@.len() - p,
    {
        let m = order[p];
        proof {
            assert forall|k: int| 0 <= k < t.kids(m as int).len()
                implies heights@[#[trigger] t.kids(m as int)[k] as int] as int == flow_height(*t, t.kids(m as int)[k] as int) by {
                let q = lemma_kid_before(*t, order@, p as int, k);
                assert(heights@[order@[q] as int] as int == flow_height(*t, order@[q] as int));
            }
            assert forall|k: int| 0 <= k < t.kids(m as int).len()
                implies overflow@[#[trigger] t.kids(m as int)[k] as int] as int
                    == overflow_width(*t, viewport as int, t.kids(m as int)[k] as int) by {
                let q = lemma_kid_before(*t, order@, p as int, k);
                assert(overflow@[order@[q] as int] as int == overflow_width(*t, viewport as int, order@[q] as int));
            }
        }
        traversal.process(t, widths, &mut heights, &mut overflow, m);
        proof {
            assert forall|q: int| 0 <= q < p + 1 implies #[trigger] heights@[order@[q] as int] as int == flow_height(*t, order@[q] as int) by {
                if q < p {
                    assert(order@[q] != order@[p as int]);
                }
            }
            assert forall|q: int| 0 <= q < p + 1 implies #[trigger] overflow@[order@[q] as int] as int == overflow_width(*t, viewport as int, order@[q] as int) by {
                if q < p {
                    assert(order@[q] != order@[p as int]);
                }
            }
        }
        p = p + 1;
    }
    proof {
        assert forall|j: int| 0 <= j < n implies #[trigger] heights@[j] as int == flow_height(*t, j) by {
            assert(order@.contains(j as usize));
            let q = choose|q: int| 0 <= q < order@.len() && order@[q] == j as usize;
            assert(heights@[order@[q] as int] as int == flow_height(*t, order@[q] as int));
        }
        assert forall|j: int| 0 <= j < n implies #[trigger] overflow@[j] as int == overflow_width(*t, viewport as int, j) by {
            assert(order@.contains(j as usize));
            let q = choose|q: int| 0 <= q < order@.len() && order@[q] == j as usize;
            assert(overflow@[order@[q] as int] as int == overflow_width(*t, viewport as int, order@[q] as int));
        }
    }
    (heights, overflow)
}

fn gather_geometry(t: &FlowTree, viewport: u32, pref: &Vec<u32>, widths: &Vec<u32>, heights: &Vec<u32>, overflow: &Vec<u32>)
    -> (g: Vec<FlowGeometry>)
    requires
        t.wf(),
        heights@.len() == t.len(),
        forall|j: int| 0 <= j < t.len() ==> #[trigger] heights@[j] as int == flow_height(*t, j),
        pref@.len() == t.len(),
        widths@.len() == t.len(),
        heights@.len() == t.len(),
        overflow@.len() == t.len(),
        forall|j: int| 0 <= j < t.len() ==> #[trigger] pref@[j] as int == pref_width(*t, j),
        forall|j: int| 0 <= j < t.len() ==> #[trigger] widths@[j] as int == assigned_width(*t, viewport as int, j),
        forall|j: int| 0 <= j < t.len() ==> #[trigger] heights@[j] as int == flow_height(*t, j),
        forall|j: int| 0 <= j < t.len() ==> #[trigger] overflow@[j] as int == overflow_width(*t, viewport as int, j),
    ensures
        geometry_matches(*t, viewport as int, g@),
{
    let (xs, ys) = assign_positions(t, heights);
    let n = t.flows.len();
    let mut g: Vec<FlowGeometry> = Vec::new();
    let mut i: usize = 0;
    while i < n
        invariant
            n == t.len(),
            xs@.len() == n,
            ys@.len() == n,
            forall|j: int| 0 <= j < n ==> #[trigger] xs@[j] as int == flow_x(*t, j),
            forall|j: int| 0 <= j < n ==> #[trigger] ys@[j] as int == flow_y(*t, j),
            pref@.len() == n,
            widths@.len() == n,
            heights@.len() == n,
            overflow@.len() == n,
            forall|j: int| 0 <= j < n ==> #[trigger] pref@[j] as int == pref_width(*t, j),
            forall|j: int| 0 <= j < n ==> #[trigger] widths@[j] as int == assigned_width(*t, viewport as int, j),
            forall|j: int| 0 <= j < n ==> #[trigger] heights@[j] as int == flow_height(*t, j),
            forall|j: int| 0 <= j < n ==> #[trigger] overflow@[j] as int == overflow_width(*t, viewport as int, j),
            0 <= i <= n,
            g@.len() == i,
            forall|j: int|
                0 <= j < i ==> {
                    &&& (#[trigger] g@[j]).x as int == flow_x(*t, j)
                    &&& g@[j].y as int == flow_y(*t, j)
                    &&& g@[j].pref_width as int == pref_width(*t, j)
                    &&& g@[j].width as int == assigned_width(*t, viewport as int, j)
                    &&& g@[j].height as int == flow_height(*t, j)
                    &&& g@[j].overflow_width as int == overflow_width(*t, viewport as int, j)
                },
        decreases n - i,
    {
        g.push(FlowGeometry { x: xs[i], y: ys[i], pref_width: pref[i], width: widths[i], height: heights[i], overflow_width: overflow[i] });
        i = i + 1;
    }
    g
}

proof fn lemma_kid_index(t: FlowTree, p: int, k: int)
    requires
        t.wf(),
        0 <= p < t.len(),
        0 <= k < t.kids(p).len(),
    ensures
        t.parent(t.kids(p)[k] as int) == p,
        kid_index(t, t.kids(p)[k] as int) == k,
{
    let c = t.kids(p)[k] as int;
    assert(t.parent(c) == p);
    let k2 = kid_index(t, c);
    assert(t.kids(p).no_duplicates());
    assert(t.kids(p)[k2] == t.kids(p)[k]);
}

/// Positions of every flow, parents first: each child's left edge from its
/// parent's, and its top edge below the parent's content and the earlier
/// siblings.
fn assign_positions(t: &FlowTree, heights: &Vec<u32>) -> (r: (Vec<u32>, Vec<u32>))
    requires
        t.wf(),
        heights@.len() == t.len(),
        forall|j: int| 0 <= j < t.len() ==> #[trigger] heights@[j] as int == flow_height(*t, j),
    ensures
        r.0@.len() == t.len(),
        r.1@.len() == t.len(),
        forall|j: int| 0 <= j < t.len() ==> #[trigger] r.0@[j] as int == flow_x(*t, j),
        forall|j: int| 0 <= j < t.len() ==> #[trigger] r.1@[j] as int == flow_y(*t, j),
{
    let n = t.flows.len();
    let mut xs = zeros(n);
    let mut ys = zeros(n);
    let mut i: usize = 0;
    while i < n
        invariant
            t.wf(),
            n == t.len(),
            heights@.len() == n,
            forall|j: int| 0 <= j < n ==> #[trigger] heights@[j] as int == flow_height(*t, j),
            xs@.len() == n,
            ys@.len() == n,
            0 <= i <= n,
            xs@[0] == 0 && ys@[0] == 0,
            forall|j: int| 1 <= j < n && t.parent(j) < i ==> #[trigger] xs@[j] as int == flow_x(*t, j),
            forall|j: int| 1 <= j < n && t.parent(j) < i ==> #[trigger] ys@[j] as int == flow_y(*t, j),
        decreases n - i,
    {
        let f = t.flows[i];
        let nk = t.children[i].len();
        let bx = sat_add_u32(xs[i], f.inset);
        let by = sat_add_u32(ys[i], f.content_height);
        proof {
            if i > 0 {
                assert(t.parent(i as int) < i);
            }
        }
        assert(xs@[i as int] as int == flow_x(*t, i as int));
        assert(ys@[i as int] as int == flow_y(*t, i as int));
        let mut acc: u32 = 0;
        let mut k: usize = 0;
        while k < nk
            invariant
                t.wf(),
                n == t.len(),
                0 <= i < n,
                f == t.flows@[i as int],
                nk == t.kids(i as int).len(),
                heights@.len() == n,
                forall|j: int| 0 <= j < n ==> #[trigger] heights@[j] as int == flow_height(*t, j),
                xs@.len() == n,
                ys@.len() == n,
                bx as int == sat_add(flow_x(*t, i as int), f.inset as int),
                by as int == sat_add(flow_y(*t, i as int), f.content_height as int),
                0 <= k <= nk,
                acc as int == kids_height(*t, i as int, k as int),
                xs@[0] == 0 && ys@[0] == 0,
                forall|j: int| 1 <= j < n && t.parent(j) < i ==> #[trigger] xs@[j] as int == flow_x(*t, j),
                forall|j: int| 1 <= j < n && t.parent(j) < i ==> #[trigger] ys@[j] as int == flow_y(*t, j),
                forall|kk: int| 0 <= kk < k ==> #[trigger] xs@[t.kids(i as int)[kk] as int] as int == flow_x(*t, t.kids(i as int)[kk] as int),
                forall|kk: int| 0 <= kk < k ==> #[trigger] ys@[t.kids(i as int)[kk] as int] as int == flow_y(*t, t.kids(i as int)[kk] as int),
            decreases nk - k,
        {
            let c = t.children[i][k];
            proof {
                lemma_kid_index(*t, i as int, k as int);
                assert(0 < c < n);
            }
            xs.set(c, bx);
            ys.set(c, sat_add_u32(by, acc));
            acc = sat_add_u32(acc, heights[c]);
            proof {
                assert forall|kk: int| 0 <= kk < k + 1 implies #[trigger] xs@[t.kids(i as int)[kk] as int] as int == flow_x(*t, t.kids(i as int)[kk] as int)
                    && ys@[t.kids(i as int)[kk] as int] as int == flow_y(*t, t.kids(i as int)[kk] as int) by {
                    if kk < k {
                        assert(t.kids(i as int)[kk] != c);
                    }
                }
            }
            k = k + 1;
        }
        proof {
            assert forall|j: int| 1 <= j < n && t.parent(j) < i + 1 implies #[trigger] xs@[j] as int == flow_x(*t, j)
                && ys@[j] as int == flow_y(*t, j) by {
                if t.parent(j) == i {
                    assert(t.kids(i as int).contains(j as usize));
                    let kk = choose|kk: int| 0 <= kk < t.kids(i as int).len() && t.kids(i as int)[kk] == j as usize;
                    assert(xs@[t.kids(i as int)[kk] as int] as int == flow_x(*t, t.kids(i as int)[kk] as int));
                    assert(ys@[t.kids(i as int)[kk] as int] as int == flow_y(*t, t.kids(i as int)[kk] as int));
                }
            }
        }
        i = i + 1;
    }
    proof {
        assert forall|j: int| 0 <= j < n implies #[trigger] xs@[j] as int == flow_x(*t, j) by {
            if j > 0 {
                assert(t.parent(j) < j);
            }
        }
        assert forall|j: int| 0 <= j < n implies #[trigger] ys@[j] as int == flow_y(*t, j) by {
            if j > 0 {
                assert(t.parent(j) < j);
            }
        }
    }
    (xs, ys)
}

/// Solves the tree's geometry with the three passes run one after the
/// other, each postorder pass children first in reverse index order.
pub fn solve_constraints(t: &FlowTree, viewport: u32) -> (g: Vec<FlowGeometry>)
    requires
        t.wf(),
    ensures
        geometry_matches(*t, viewport as int, g@),
{
    let order = sequential_postorder(t);
    let pref = bubble_widths(t, &order);
    let widths = assign_widths(t, viewport, &pref);
    let (heights, overflow) = assign_heights_and_store_overflow(t, viewport, &widths, &order);
    gather_geometry(t, viewport, &pref, &widths, &heights, &overflow)
}

/// Solves the tree's geometry with the postorder passes handed out to a
/// pool of `workers` workers; width assignment stays one top-down pass. One
/// worker is the sequential solver. The result is the same for every
/// worker count.
pub fn solve_constraints_parallel(t: &FlowTree, viewport: u32, workers: usize) -> (g: Vec<FlowGeometry>)
    requires
        t.wf(),
        workers >= 1,
    ensures
        geometry_matches(*t, viewport as int, g@),
{
    if workers == 1 {
        return solve_constraints(t, viewport);
    }
    let bubble_order = postorder_schedule(t, workers);
    let pref = bubble_widths(t, &bubble_order);
    let widths = assign_widths(t, viewport, &pref);
    let height_order = postorder_schedule(t, workers);
    let (heights, overflow) = assign_heights_and_store_overflow(t, viewport, &widths, &height_order);
    gather_geometry(t, viewport, &pref, &widths, &heights, &overflow)
}

} // verus!
