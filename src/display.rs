use vstd::prelude::*;

verus! {

/// Coordinates of display items stay within this distance of the origin.
pub const COORD_LIMIT: i64 = 1099511627776;

/// An axis-aligned rectangle in app units.
#[derive(Clone, Copy, Debug, PartialEq, Eq, Structural)]
pub struct Rect {
    pub x: i64,
    pub y: i64,
    pub w: i64,
    pub h: i64,
}

/// Sizes are non-negative and both edges lie within the coordinate limit.
pub open spec fn rect_wf(r: Rect) -> bool {
    &&& -COORD_LIMIT <= r.x && 0 <= r.w && r.x + r.w <= COORD_LIMIT
    &&& -COORD_LIMIT <= r.y && 0 <= r.h && r.y + r.h <= COORD_LIMIT
}

pub open spec fn min(a: int, b: int) -> int {
    if a <= b { a } else { b }
}

pub open spec fn max(a: int, b: int) -> int {
    if a >= b { a } else { b }
}

/// The smallest rectangle holding both `a` and `b`.
pub open spec fn rect_union(a: Rect, b: Rect) -> Rect {
    let x0 = min(a.x as int, b.x as int);
    let y0 = min(a.y as int, b.y as int);
    let x1 = max(a.x + a.w, b.x + b.w);
    let y1 = max(a.y + a.h, b.y + b.h);
    Rect { x: x0 as i64, y: y0 as i64, w: (x1 - x0) as i64, h: (y1 - y0) as i64 }
}

/// The point lies inside `r`: left and top edges included, right and
/// bottom edges excluded.
pub open spec fn rect_contains(r: Rect, px: int, py: int) -> bool {
    r.x <= px < r.x + r.w && r.y <= py < r.y + r.h
}

pub open spec fn zero_rect() -> Rect {
    Rect { x: 0, y: 0, w: 0, h: 0 }
}

impl Rect {
    /// The empty rectangle at the origin.
    pub fn zero() -> (r: Rect)
        ensures
            r == zero_rect(),
    {
        Rect { x: 0, y: 0, w: 0, h: 0 }
    }

    /// The smallest rectangle holding `self` and `other`.
    pub fn union(&self, other: &Rect) -> (r: Rect)
        requires
            rect_wf(*self),
            rect_wf(*other),
        ensures
            r == rect_union(*self, *other),
            rect_wf(r),
    {
        let x0 = if self.x <= other.x { self.x } else { other.x };
        let y0 = if self.y <= other.y { self.y } else { other.y };
        let x1 = if self.x + self.w >= other.x + other.w { self.x + self.w } else { other.x + other.w };
        let y1 = if self.y + self.h >= other.y + other.h { self.y + self.h } else { other.y + other.h };
        Rect { x: x0, y: y0, w: x1 - x0, h: y1 - y0 }
    }

    /// True when the point lies inside the rectangle.
    pub fn contains_point(&self, px: i64, py: i64) -> (r: bool)
        requires
            rect_wf(*self),
        ensures
            r == rect_contains(*self, px as int, py as int),
    {
        self.x <= px && px < self.x + self.w && self.y <= py && py < self.y + self.h
    }
}

/// What a display item paints.
#[derive(Clone, Copy, Debug, PartialEq, Eq, Structural)]
pub enum ItemKind {
    SolidColor,
    Text,
    Image,
    Border,
    /// A clipping container: it paints nothing itself and holds a nested list.
    Clip,
}

/// The part every display item has: its bounds and the opaque handle of
/// the node that produced it.
#[derive(Clone, Copy, Debug, PartialEq, Eq, Structural)]
pub struct BaseItem {
    pub bounds: Rect,
    pub node: u64,
}

/// One paintable item. A clip item owns the nested items it clips.
#[derive(Clone, Debug)]
pub struct DisplayItem {
    pub kind: ItemKind,
    pub base: BaseItem,
    pub children: Vec<BaseItem>,
}

/// Items in paint order: later items paint over earlier ones.
#[derive(Clone, Debug)]
pub struct DisplayList {
    pub items: Vec<DisplayItem>,
}

/// Display lists in paint order.
#[derive(Clone, Debug)]
pub struct DisplayListCollection {
    pub lists: Vec<DisplayList>,
}

/// Every bounds rectangle of the collection, nested ones included, is well formed.
pub open spec fn collection_wf(c: DisplayListCollection) -> bool {
    forall|l: int, i: int|
        0 <= l < c.lists@.len() && 0 <= i < c.lists@[l].items@.len() ==> {
            let it = #[trigger] c.lists@[l].items@[i];
            &&& rect_wf(it.base.bounds)
            &&& forall|k: int| 0 <= k < it.children@.len() ==> rect_wf(#[trigger] it.children@[k].bounds)
        }
}

/// Bounds of the items of `s` produced by `node`, in paint order.
pub open spec fn leaf_matches(s: Seq<BaseItem>, node: u64) -> Seq<Rect>
    decreases s.len(),
{
    if s.len() == 0 {
        Seq::empty()
    } else {
        let prev = leaf_matches(s.drop_last(), node);
        if s.last().node == node { prev.push(s.last().bounds) } else { prev }
    }
}

/// Bounds produced by `node` in one item: its nested items first, then the
/// item itself.
pub open spec fn item_matches(it: DisplayItem, node: u64) -> Seq<Rect> {
    let nested = leaf_matches(it.children@, node);
    if it.base.node == node { nested.push(it.base.bounds) } else { nested }
}

/// Bounds produced by `node` in a list of items, in paint order.
pub open spec fn list_matches(s: Seq<DisplayItem>, node: u64) -> Seq<Rect>
    decreases s.len(),
{
    if s.len() == 0 {
        Seq::empty()
    } else {
        list_matches(s.drop_last(), node) + item_matches(s.last(), node)
    }
}

/// Bounds produced by `node` over all lists, in paint order.
pub open spec fn collection_matches(s: Seq<DisplayList>, node: u64) -> Seq<Rect>
    decreases s.len(),
{
    if s.len() == 0 {
        Seq::empty()
    } else {
        collection_matches(s.drop_last(), node) + list_matches(s.last().items@, node)
    }
}

/// Union of a non-empty sequence of rectangles, folded from the left.
pub open spec fn union_fold(s: Seq<Rect>) -> Rect
    decreases s.len(),
{
    if s.len() <= 1 {
        s[0]
    } else {
        rect_union(union_fold(s.drop_last()), s.last())
    }
}

/// Union of the rectangles of `s`; the zero rectangle when there are none.
pub open spec fn union_all(s: Seq<Rect>) -> Rect {
    if s.len() == 0 { zero_rect() } else { union_fold(s) }
}

proof fn lemma_leaf_matches_wf(s: Seq<BaseItem>, node: u64)
    requires
        forall|k: int| 0 <= k < s.len() ==> rect_wf(#[trigger] s[k].bounds),
    ensures
        forall|k: int| 0 <= k < leaf_matches(s, node).len() ==> rect_wf(#[trigger] leaf_matches(s, node)[k]),
    decreases s.len(),
{
    if s.len() > 0 {
        let r = s.drop_last();
        assert forall|k: int| 0 <= k < r.len() implies rect_wf(#[trigger] r[k].bounds) by {
            assert(r[k] == s[k]);
        }
        lemma_leaf_matches_wf(r, node);
        assert(rect_wf(s[s.len() - 1].bounds));
        let m = leaf_matches(s, node);
        let p = leaf_matches(r, node);
        assert forall|k: int| 0 <= k < m.len() implies rect_wf(#[trigger] m[k]) by {
            if k < p.len() {
                assert(m[k] == p[k]);
            }
        }
    }
}

/// Every rectangle that `content_boxes` reports for `node`, in scan order:
/// each list in paint order, each item's nested items before the item.
pub fn content_boxes(c: &DisplayListCollection, node: u64) -> (boxes: Vec<Rect>)
    ensures
        boxes@ == collection_matches(c.lists@, node),
{
    let mut boxes: Vec<Rect> = Vec::new();
    let mut l: usize = 0;
    while l < c.lists.len()
        invariant
            0 <= l <= c.lists@.len(),
            boxes@ == collection_matches(c.lists@.take(l as int), node),
        decreases c.lists@.len() - l,
    {
        let items = &c.lists[l].items;
        let ghost before = boxes@;
        let mut i: usize = 0;
        while i < items.len()
            invariant
                0 <= l < c.lists@.len(),
                items@ == c.lists@[l as int].items@,
                0 <= i <= items@.len(),
                boxes@ == before + list_matches(items@.take(i as int), node),
            decreases items@.len() - i,
        {
            let it = &items[i];
            let ghost mid = boxes@;
            let mut k: usize = 0;
            while k < it.children.len()
                invariant
                    it.children@ == items@[i as int].children@,
                    0 <= k <= it.children@.len(),
                    boxes@ == mid + leaf_matches(it.children@.take(k as int), node),
                decreases it.children@.len() - k,
            {
                let ch = it.children[k];
                assert(it.children@.take(k + 1).drop_last() =~= it.children@.take(k as int));
                if ch.node == node {
                    boxes.push(ch.bounds);
                }
                assert(boxes@ =~= mid + leaf_matches(it.children@.take(k + 1), node));
                k = k + 1;
            }
            assert(it.children@.take(k as int) =~= it.children@);
            if it.base.node == node {
                boxes.push(it.base.bounds);
            }
            assert(items@.take(i + 1).drop_last() =~= items@.take(i as int));
            assert(boxes@ =~= before + list_matches(items@.take(i + 1), node));
            i = i + 1;
        }
        assert(items@.take(i as int) =~= items@);
        assert(c.lists@.take(l + 1).drop_last() =~= c.lists@.take(l as int));
        l = l + 1;
    }
    assert(c.lists@.take(l as int) =~= c.lists@);
    boxes
}

pub open spec fn items_wf(s: Seq<DisplayItem>) -> bool {
    forall|i: int|
        0 <= i < s.len() ==> {
            let it = #[trigger] s[i];
            &&& rect_wf(it.base.bounds)
            &&& forall|k: int| 0 <= k < it.children@.len() ==> rect_wf(#[trigger] it.children@[k].bounds)
        }
}

proof fn lemma_list_matches_wf(s: Seq<DisplayItem>, node: u64)
    requires
        items_wf(s),
    ensures
        forall|k: int| 0 <= k < list_matches(s, node).len() ==> rect_wf(#[trigger] list_matches(s, node)[k]),
    decreases s.len(),
{
    if s.len() > 0 {
        let r = s.drop_last();
        assert(items_wf(r)) by {
            assert forall|i: int| 0 <= i < r.len() implies r[i] == s[i] by {}
        }
        lemma_list_matches_wf(r, node);
        let it = s.last();
        assert(items_wf(s));
        assert(rect_wf(s[s.len() - 1].base.bounds));
        lemma_leaf_matches_wf(it.children@, node);
        let m = list_matches(s, node);
        let p = list_matches(r, node);
        let q = item_matches(it, node);
        let lm = leaf_matches(it.children@, node);
        assert(m == p + q);
        assert forall|k: int| 0 <= k < m.len() implies rect_wf(#[trigger] m[k]) by {
            if k < p.len() {
                assert(m[k] == p[k]);
            } else {
                assert(m[k] == q[k - p.len()]);
                if k - p.len() < lm.len() {
                    assert(q[k - p.len()] == lm[k - p.len()]);
                }
            }
        }
    }
}

proof fn lemma_collection_matches_wf(s: Seq<DisplayList>, node: u64)
    requires
        forall|l: int| 0 <= l < s.len() ==> items_wf(#[trigger] s[l].items@),
    ensures
        forall|k: int| 0 <= k < collection_matches(s, node).len() ==> rect_wf(#[trigger] collection_matches(s, node)[k]),
    decreases s.len(),
{
    if s.len() > 0 {
        let r = s.drop_last();
        assert forall|l: int| 0 <= l < r.len() implies items_wf(#[trigger] r[l].items@) by {
            assert(r[l] == s[l]);
        }
        lemma_collection_matches_wf(r, node);
        assert(items_wf(s[s.len() - 1].items@));
        lemma_list_matches_wf(s.last().items@, node);
        let m = collection_matches(s, node);
        let p = collection_matches(r, node);
        let q = list_matches(s.last().items@, node);
        assert forall|k: int| 0 <= k < m.len() implies rect_wf(#[trigger] m[k]) by {
            if k < p.len() {
                assert(m[k] == p[k]);
            } else {
                assert(m[k] == q[k - p.len()]);
            }
        }
    }
}

proof fn lemma_collection_wf_lists(c: DisplayListCollection)
    requires
        collection_wf(c),
    ensures
        forall|l: int| 0 <= l < c.lists@.len() ==> items_wf(#[trigger] c.lists@[l].items@),
{
    assert forall|l: int| 0 <= l < c.lists@.len() implies items_wf(#[trigger] c.lists@[l].items@) by {
        assert forall|i: int| 0 <= i < c.lists@[l].items@.len() implies {
            let it = #[trigger] c.lists@[l].items@[i];
            &&& rect_wf(it.base.bounds)
            &&& forall|k: int| 0 <= k < it.children@.len() ==> rect_wf(#[trigger] it.children@[k].bounds)
        } by {
            let it = c.lists@[l].items@[i];
            assert(rect_wf(it.base.bounds));
        }
    }
}

/// The union of the bounds of every item, nested ones included, produced
/// by `node`; the zero rectangle when `node` produced none.
pub fn content_box(c: &DisplayListCollection, node: u64) -> (r: Rect)
    requires
        collection_wf(*c),
    ensures
        r == union_all(collection_matches(c.lists@, node)),
{
    let boxes = content_boxes(c, node);
    proof {
        lemma_collection_wf_lists(*c);
        lemma_collection_matches_wf(c.lists@, node);
    }
    if boxes.len() == 0 {
        return Rect::zero();
    }
    let mut acc = boxes[0];
    let mut i: usize = 1;
    assert(boxes@.take(1).len() == 1);
    while i < boxes.len()
        invariant
            1 <= i <= boxes@.len(),
            forall|k: int| 0 <= k < boxes@.len() ==> rect_wf(#[trigger] boxes@[k]),
            acc == union_fold(boxes@.take(i as int)),
            rect_wf(acc),
        decreases boxes@.len() - i,
    {
        assert(boxes@.take(i + 1).drop_last() =~= boxes@.take(i as int));
        acc = acc.union(&boxes[i]);
        i = i + 1;
    }
    assert(boxes@.take(i as int) =~= boxes@);
    acc
}

/// The topmost item of `s` whose bounds hold the point.
pub open spec fn hit_leaves(s: Seq<BaseItem>, px: int, py: int) -> Option<u64>
    decreases s.len(),
{
    if s.len() == 0 {
        None
    } else if rect_contains(s.last().bounds, px, py) {
        Some(s.last().node)
    } else {
        hit_leaves(s.drop_last(), px, py)
    }
}

/// The first hit inside a clip item's nested items, clip items taken
/// topmost first.
pub open spec fn hit_clips(s: Seq<DisplayItem>, px: int, py: int) -> Option<u64>
    decreases s.len(),
{
    if s.len() == 0 {
        None
    } else if s.last().kind == ItemKind::Clip && hit_leaves(s.last().children@, px, py).is_some() {
        hit_leaves(s.last().children@, px, py)
    } else {
        hit_clips(s.drop_last(), px, py)
    }
}

/// The topmost item of `s`, clip items left out, whose bounds hold the point.
pub open spec fn hit_plain(s: Seq<DisplayItem>, px: int, py: int) -> Option<u64>
    decreases s.len(),
{
    if s.len() == 0 {
        None
    } else if s.last().kind != ItemKind::Clip && rect_contains(s.last().base.bounds, px, py) {
        Some(s.last().base.node)
    } else {
        hit_plain(s.drop_last(), px, py)
    }
}

/// Hit test within one list: clipped contents first, then the other items.
pub open spec fn hit_list(s: Seq<DisplayItem>, px: int, py: int) -> Option<u64> {
    if hit_clips(s, px, py).is_some() { hit_clips(s, px, py) } else { hit_plain(s, px, py) }
}

/// Hit test over the lists, the topmost list first.
pub open spec fn hit_collection(s: Seq<DisplayList>, px: int, py: int) -> Option<u64>
    decreases s.len(),
{
    if s.len() == 0 {
        None
    } else if hit_list(s.last().items@, px, py).is_some() {
        hit_list(s.last().items@, px, py)
    } else {
        hit_collection(s.drop_last(), px, py)
    }
}

fn hit_test_leaves(s: &Vec<BaseItem>, px: i64, py: i64) -> (r: Option<u64>)
    requires
        forall|k: int| 0 <= k < s@.len() ==> rect_wf(#[trigger] s@[k].bounds),
    ensures
        r == hit_leaves(s@, px as int, py as int),
{
    let mut i: usize = s.len();
    assert(s@.take(i as int) =~= s@);
    while i > 0
        invariant
            0 <= i <= s@.len(),
            forall|k: int| 0 <= k < s@.len() ==> rect_wf(#[trigger] s@[k].bounds),
            hit_leaves(s@, px as int, py as int) == hit_leaves(s@.take(i as int), px as int, py as int),
        decreases i,
    {
        assert(s@.take(i as int).drop_last() =~= s@.take(i - 1));
        assert(s@.take(i as int).last() == s@[i - 1]);
        if s[i - 1].bounds.contains_point(px, py) {
            return Some(s[i - 1].node);
        }
        i = i - 1;
    }
    None
}

fn hit_test_list(s: &Vec<DisplayItem>, px: i64, py: i64) -> (r: Option<u64>)
    requires
        items_wf(s@),
    ensures
        r == hit_list(s@, px as int, py as int),
{
    let mut i: usize = s.len();
    assert(s@.take(i as int) =~= s@);
    while i > 0
        invariant
            0 <= i <= s@.len(),
            items_wf(s@),
            hit_clips(s@, px as int, py as int) == hit_clips(s@.take(i as int), px as int, py as int),
        decreases i,
    {
        assert(s@.take(i as int).drop_last() =~= s@.take(i - 1));
        assert(s@.take(i as int).last() == s@[i - 1]);
        let it = &s[i - 1];
        if it.kind == ItemKind::Clip {
            assert(items_wf(s@));
            assert(rect_wf(s@[i - 1].base.bounds));
            let r = hit_test_leaves(&it.children, px, py);
            if r.is_some() {
                return r;
            }
        }
        i = i - 1;
    }
    let mut i: usize = s.len();
    assert(s@.take(i as int) =~= s@);
    while i > 0
        invariant
            0 <= i <= s@.len(),
            items_wf(s@),
            hit_clips(s@, px as int, py as int).is_none(),
            hit_plain(s@, px as int, py as int) == hit_plain(s@.take(i as int), px as int, py as int),
        decreases i,
    {
        assert(s@.take(i as int).drop_last() =~= s@.take(i - 1));
        assert(s@.take(i as int).last() == s@[i - 1]);
        let it = &s[i - 1];
        assert(rect_wf(s@[i - 1].base.bounds));
        if it.kind != ItemKind::Clip && it.base.bounds.contains_point(px, py) {
            return Some(it.base.node);
        }
        i = i - 1;
    }
    None
}

/// The node of the topmost item whose bounds hold the point, or `None`
/// when no item does. Lists are taken topmost first; within a list the
/// contents of clip items are matched before the other items.
pub fn hit_test(c: &DisplayListCollection, px: i64, py: i64) -> (r: Option<u64>)
    requires
        collection_wf(*c),
    ensures
        r == hit_collection(c.lists@, px as int, py as int),
{
    proof {
        lemma_collection_wf_lists(*c);
    }
    let mut l: usize = c.lists.len();
    assert(c.lists@.take(l as int) =~= c.lists@);
    while l > 0
        invariant
            0 <= l <= c.lists@.len(),
            forall|m: int| 0 <= m < c.lists@.len() ==> items_wf(#[trigger] c.lists@[m].items@),
            hit_collection(c.lists@, px as int, py as int) == hit_collection(c.lists@.take(l as int), px as int, py as int),
        decreases l,
    {
        assert(c.lists@.take(l as int).drop_last() =~= c.lists@.take(l - 1));
        assert(c.lists@.take(l as int).last() == c.lists@[l - 1]);
        assert(items_wf(c.lists@[l - 1].items@));
        let r = hit_test_list(&c.lists[l - 1].items, px, py);
        if r.is_some() {
            return r;
        }
        l = l - 1;
    }
    None
}

} // verus!
