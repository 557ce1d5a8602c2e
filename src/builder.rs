use vstd::prelude::*;
use crate::flow::FlowTree;
use crate::solve::FlowGeometry;
use crate::display::{Rect, ItemKind, BaseItem, DisplayItem, DisplayList, DisplayListCollection, collection_wf, rect_wf};

verus! {

/// A color with 8-bit channels.
#[derive(Clone, Copy, Debug, PartialEq, Eq, Structural)]
pub struct Color {
    pub r: u8,
    pub g: u8,
    pub b: u8,
    pub a: u8,
}

pub open spec fn opaque_white() -> Color {
    Color { r: 255, g: 255, b: 255, a: 255 }
}

/// A color shows through nothing when its alpha is zero.
pub open spec fn is_transparent(c: Color) -> bool {
    c.a == 0
}

/// The kind of a document element, as far as the canvas background cares.
#[derive(Clone, Copy, Debug, PartialEq, Eq, Structural)]
pub enum ElementKind {
    Html,
    Body,
    Other,
}

/// An element of the document with its resolved background color.
#[derive(Clone, Copy, Debug, PartialEq, Eq, Structural)]
pub struct BackgroundCandidate {
    pub kind: ElementKind,
    pub color: Color,
}

/// The canvas background for elements in document order: the first
/// non-transparent background of an html or body element, or opaque white
/// when there is none.
pub open spec fn canvas_background(s: Seq<BackgroundCandidate>) -> Color
    decreases s.len(),
{
    if s.len() == 0 {
        opaque_white()
    } else if s[0].kind != ElementKind::Other && !is_transparent(s[0].color) {
        s[0].color
    } else {
        canvas_background(s.drop_first())
    }
}

impl Color {
    /// Opaque white, the default canvas background.
    pub fn white() -> (c: Color)
        ensures
            c == opaque_white(),
    {
        Color { r: 255, g: 255, b: 255, a: 255 }
    }
}

/// Picks the canvas background from the document's elements, given in
/// document (preorder) order.
pub fn select_background_color(elements: &Vec<BackgroundCandidate>) -> (c: Color)
    ensures
        c == canvas_background(elements@),
{
    let mut i: usize = 0;
    assert(elements@.subrange(0, elements@.len() as int) =~= elements@);
    while i < elements.len()
        invariant
            0 <= i <= elements@.len(),
            canvas_background(elements@) == canvas_background(elements@.subrange(i as int, elements@.len() as int)),
        decreases elements@.len() - i,
    {
        let e = elements[i];
        assert(elements@.subrange(i as int, elements@.len() as int).drop_first()
            =~= elements@.subrange(i + 1, elements@.len() as int));
        if e.kind != ElementKind::Other && e.color.a != 0 {
            return e.color;
        }
        i = i + 1;
    }
    assert(elements@.subrange(i as int, elements@.len() as int).len() == 0);
    Color::white()
}

/// The border box of a flow from its solved geometry.
pub open spec fn flow_bounds(g: FlowGeometry) -> Rect {
    Rect { x: g.x as i64, y: g.y as i64, w: g.width as i64, h: g.height as i64 }
}

/// The outermost proper ancestor of flow `j` that clips its descendants.
pub open spec fn clip_root(t: FlowTree, j: int) -> Option<int>
    decreases j,
{
    if 0 < j && 0 <= t.parent(j) < j {
        let p = t.parent(j);
        if clip_root(t, p) is Some {
            clip_root(t, p)
        } else if t.flows@[p].flags.clips {
            Some(p)
        } else {
            None
        }
    } else {
        None
    }
}

/// The item of flow `j`: its border box, tagged with its node.
pub open spec fn flow_item(t: FlowTree, g: Seq<FlowGeometry>, j: int) -> BaseItem {
    BaseItem { bounds: flow_bounds(g[j]), node: t.flows@[j].node }
}

/// Items of the first `k` flows whose outermost clipping ancestor is `a`,
/// in preorder.
pub open spec fn clipped_items(t: FlowTree, g: Seq<FlowGeometry>, a: int, k: int) -> Seq<BaseItem>
    decreases k,
{
    if k <= 0 {
        Seq::empty()
    } else {
        let prev = clipped_items(t, g, a, k - 1);
        if clip_root(t, k - 1) == Some(a) { prev.push(flow_item(t, g, k - 1)) } else { prev }
    }
}

/// A display item seen as its kind, its base and its nested items.
pub open spec fn item_view(it: DisplayItem) -> (ItemKind, BaseItem, Seq<BaseItem>) {
    (it.kind, it.base, it.children@)
}

/// The top-level items for the first `k` flows: each flow outside every
/// clipping ancestor paints a solid-color item, followed, when it clips, by
/// a clip item over its box holding the items of all its descendants.
pub open spec fn top_items(t: FlowTree, g: Seq<FlowGeometry>, k: int) -> Seq<(ItemKind, BaseItem, Seq<BaseItem>)>
    decreases k,
{
    if k <= 0 {
        Seq::empty()
    } else {
        let prev = top_items(t, g, k - 1);
        let j = k - 1;
        if clip_root(t, j) is None {
            let solid = prev.push((ItemKind::SolidColor, flow_item(t, g, j), Seq::empty()));
            if t.flows@[j].flags.clips {
                solid.push((ItemKind::Clip, flow_item(t, g, j), clipped_items(t, g, j, t.len())))
            } else {
                solid
            }
        } else {
            prev
        }
    }
}

/// `c` is the display list of `t` with solved geometry `g`: one list of
/// the top-level items, in preorder.
pub open spec fn display_list_of(t: FlowTree, g: Seq<FlowGeometry>, c: DisplayListCollection) -> bool {
    &&& c.lists@.len() == 1
    &&& c.lists@[0].items@.len() == top_items(t, g, t.len()).len()
    &&& forall|i: int| 0 <= i < c.lists@[0].items@.len() ==> item_view(#[trigger] c.lists@[0].items@[i])
        == top_items(t, g, t.len())[i]
}

/// `r@[j]` is the outermost clipping ancestor of each flow `j`.
pub open spec fn clip_roots_match(t: FlowTree, r: Seq<Option<usize>>, k: int) -> bool {
    forall|j: int| 0 <= j < k ==> match #[trigger] r[j] {
        Some(a) => clip_root(t, j) == Some(a as int),
        None => clip_root(t, j) is None,
    }
}

fn clip_roots(t: &FlowTree) -> (r: Vec<Option<usize>>)
    requires
        t.wf(),
    ensures
        r@.len() == t.len(),
        clip_roots_match(*t, r@, t.len()),
{
    let n = t.flows.len();
    let mut r: Vec<Option<usize>> = Vec::new();
    r.push(None);
    let mut i: usize = 1;
    while i < n
        invariant
            t.wf(),
            n == t.len(),
            1 <= i <= n,
            r@.len() == i,
            clip_roots_match(*t, r@, i as int),
        decreases n - i,
    {
        let p = t.flows[i].parent;
        assert(t.parent(i as int) < i);
        let root = match r[p] {
            Some(a) => Some(a),
            None => if t.flows[p].flags.clips { Some(p) } else { None },
        };
        r.push(root);
        proof {
            assert forall|j: int| 0 <= j < i + 1 implies match #[trigger] r@[j] {
                Some(a) => clip_root(*t, j) == Some(a as int),
                None => clip_root(*t, j) is None,
            } by {
                if j < i {
                    assert(r@[j] == r@.drop_last()[j]);
                }
            }
        }
        i = i + 1;
    }
    r
}

fn collect_clipped(t: &FlowTree, g: &Vec<FlowGeometry>, roots: &Vec<Option<usize>>, a: usize) -> (v: Vec<BaseItem>)
    requires
        g@.len() == t.len(),
        roots@.len() == t.len(),
        clip_roots_match(*t, roots@, t.len()),
    ensures
        v@ == clipped_items(*t, g@, a as int, t.len()),
{
    let mut v: Vec<BaseItem> = Vec::new();
    let mut k: usize = 0;
    while k < g.len()
        invariant
            g@.len() == t.len(),
            roots@.len() == t.len(),
            clip_roots_match(*t, roots@, t.len()),
            0 <= k <= t.len(),
            v@ == clipped_items(*t, g@, a as int, k as int),
        decreases t.len() - k,
    {
        let in_clip = match roots[k] {
            Some(b) => b == a,
            None => false,
        };
        assert(in_clip == (clip_root(*t, k as int) == Some(a as int)));
        if in_clip {
            let geo = g[k];
            v.push(BaseItem {
                bounds: Rect { x: geo.x as i64, y: geo.y as i64, w: geo.width as i64, h: geo.height as i64 },
                node: t.flows[k].node,
            });
        }
        k = k + 1;
    }
    v
}

/// Builds the display list of a solved flow tree: for every flow in
/// preorder that no ancestor clips, a solid-color item over its border box
/// tagged with its node, and after it, for a flow that clips, a clip item
/// holding the items of all its descendants.
pub fn build_display_list(t: &FlowTree, g: &Vec<FlowGeometry>) -> (c: DisplayListCollection)
    requires
        t.wf(),
        g@.len() == t.len(),
    ensures
        collection_wf(c),
        display_list_of(*t, g@, c),
{
    let roots = clip_roots(t);
    let mut items: Vec<DisplayItem> = Vec::new();
    let mut i: usize = 0;
    while i < g.len()
        invariant
            t.wf(),
            g@.len() == t.len(),
            roots@.len() == t.len(),
            clip_roots_match(*t, roots@, t.len()),
            0 <= i <= g@.len(),
            items@.len() == top_items(*t, g@, i as int).len(),
            forall|j: int| 0 <= j < items@.len() ==> item_view(#[trigger] items@[j]) == top_items(*t, g@, i as int)[j],
            forall|j: int| 0 <= j < items@.len() ==> rect_wf((#[trigger] items@[j]).base.bounds)
                && forall|k: int| 0 <= k < items@[j].children@.len() ==> rect_wf(#[trigger] items@[j].children@[k].bounds),
        decreases g@.len() - i,
    {
        let ghost before = items@;
        if roots[i].is_none() {
            let geo = g[i];
            let bounds = Rect { x: geo.x as i64, y: geo.y as i64, w: geo.width as i64, h: geo.height as i64 };
            let base = BaseItem { bounds, node: t.flows[i].node };
            items.push(DisplayItem { kind: ItemKind::SolidColor, base, children: Vec::new() });
            if t.flows[i].flags.clips {
                let nested = collect_clipped(t, g, &roots, i);
                proof {
                    let cl = clipped_items(*t, g@, i as int, t.len());
                    assert forall|k: int| 0 <= k < cl.len() implies rect_wf(#[trigger] cl[k].bounds) by {
                        lemma_clipped_items_wf(*t, g@, i as int, t.len());
                    }
                }
                items.push(DisplayItem { kind: ItemKind::Clip, base, children: nested });
            }
        }
        proof {
            let top = top_items(*t, g@, i + 1);
            assert forall|j: int| 0 <= j < items@.len() implies item_view(#[trigger] items@[j]) == top[j] by {
                if j < before.len() {
                    assert(items@[j] == before[j]);
                }
            }
            assert forall|j: int| 0 <= j < items@.len() implies rect_wf((#[trigger] items@[j]).base.bounds)
                && forall|k: int| 0 <= k < items@[j].children@.len() ==> rect_wf(#[trigger] items@[j].children@[k].bounds) by {
                if j < before.len() {
                    assert(items@[j] == before[j]);
                }
            }
        }
        i = i + 1;
    }
    let mut lists: Vec<DisplayList> = Vec::new();
    lists.push(DisplayList { items });
    let c = DisplayListCollection { lists };
    assert forall|l: int, j: int|
        0 <= l < c.lists@.len() && 0 <= j < c.lists@[l].items@.len() implies {
            let it = #[trigger] c.lists@[l].items@[j];
            &&& rect_wf(it.base.bounds)
            &&& forall|k: int| 0 <= k < it.children@.len() ==> rect_wf(#[trigger] it.children@[k].bounds)
        } by {
        assert(c.lists@[l].items@[j] == items@[j]);
    }
    c
}

proof fn lemma_clipped_items_wf(t: FlowTree, g: Seq<FlowGeometry>, a: int, k: int)
    ensures
        forall|m: int| 0 <= m < clipped_items(t, g, a, k).len() ==> rect_wf(#[trigger] clipped_items(t, g, a, k)[m].bounds),
    decreases k,
{
    if k > 0 {
        lemma_clipped_items_wf(t, g, a, k - 1);
        let prev = clipped_items(t, g, a, k - 1);
        let cur = clipped_items(t, g, a, k);
        assert forall|m: int| 0 <= m < cur.len() implies rect_wf(#[trigger] cur[m].bounds) by {
            if m < prev.len() {
                assert(cur[m] == prev[m]);
            }
        }
    }
}

} // verus!
