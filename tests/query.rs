use layout_engine::display::{content_box, content_boxes, hit_test, BaseItem, DisplayItem, DisplayList,
    DisplayListCollection, ItemKind, Rect};

const A: u64 = 1;
const B: u64 = 2;
const C: u64 = 3;

fn rect(x: i64, y: i64, w: i64, h: i64) -> Rect {
    Rect { x, y, w, h }
}

fn item(bounds: Rect, node: u64) -> DisplayItem {
    DisplayItem { kind: ItemKind::SolidColor, base: BaseItem { bounds, node }, children: Vec::new() }
}

fn three_items() -> DisplayListCollection {
    DisplayListCollection {
        lists: vec![DisplayList {
            items: vec![item(rect(0, 0, 10, 10), C), item(rect(5, 5, 10, 10), A), item(rect(20, 20, 5, 5), B)],
        }],
    }
}

#[test]
fn content_box_of_a_node_with_one_item() {
    assert_eq!(content_box(&three_items(), A), rect(5, 5, 10, 10));
    assert_eq!(content_box(&three_items(), B), rect(20, 20, 5, 5));
}

#[test]
fn content_boxes_of_a_node_with_one_item() {
    assert_eq!(content_boxes(&three_items(), A), vec![rect(5, 5, 10, 10)]);
}

#[test]
fn hit_test_takes_the_item_painted_last() {
    let c = three_items();
    assert_eq!(hit_test(&c, 7, 7), Some(A));
    assert_eq!(hit_test(&c, 1, 1), Some(C));
    assert_eq!(hit_test(&c, 22, 22), Some(B));
    assert_eq!(hit_test(&c, 100, 100), None);
}

#[test]
fn hit_test_edges() {
    let c = three_items();
    assert_eq!(hit_test(&c, 15, 15), None);
    assert_eq!(hit_test(&c, 14, 14), Some(A));
    assert_eq!(hit_test(&c, 0, 0), Some(C));
}

#[test]
fn content_box_of_a_node_without_items_is_zero() {
    assert_eq!(content_box(&three_items(), 99), rect(0, 0, 0, 0));
    assert!(content_boxes(&three_items(), 99).is_empty());
}

#[test]
fn content_box_unions_items_across_lists_and_clips() {
    let clip = DisplayItem {
        kind: ItemKind::Clip,
        base: BaseItem { bounds: rect(-10, 0, 5, 5), node: 7 },
        children: vec![BaseItem { bounds: rect(-8, -4, 2, 2), node: A }],
    };
    let c = DisplayListCollection {
        lists: vec![
            DisplayList { items: vec![item(rect(0, 0, 4, 4), A), clip] },
            DisplayList { items: vec![item(rect(30, 40, 10, 10), A)] },
        ],
    };
    assert_eq!(content_box(&c, A), rect(-8, -4, 48, 54));
    assert_eq!(content_boxes(&c, A), vec![rect(0, 0, 4, 4), rect(-8, -4, 2, 2), rect(30, 40, 10, 10)]);
    assert_eq!(content_boxes(&c, 7), vec![rect(-10, 0, 5, 5)]);
}

#[test]
fn hit_test_matches_clipped_contents_before_other_items() {
    let clip = DisplayItem {
        kind: ItemKind::Clip,
        base: BaseItem { bounds: rect(0, 0, 100, 100), node: 7 },
        children: vec![BaseItem { bounds: rect(0, 0, 10, 10), node: B }],
    };
    let c = DisplayListCollection {
        lists: vec![DisplayList { items: vec![clip, item(rect(0, 0, 50, 50), A)] }],
    };
    assert_eq!(hit_test(&c, 5, 5), Some(B));
    assert_eq!(hit_test(&c, 20, 20), Some(A));
    assert_eq!(hit_test(&c, 60, 60), None);
}

#[test]
fn hit_test_takes_the_topmost_list_first() {
    let c = DisplayListCollection {
        lists: vec![
            DisplayList { items: vec![item(rect(0, 0, 10, 10), A)] },
            DisplayList { items: vec![item(rect(0, 0, 5, 5), B)] },
        ],
    };
    assert_eq!(hit_test(&c, 2, 2), Some(B));
    assert_eq!(hit_test(&c, 7, 7), Some(A));
}

#[test]
fn rect_union_and_containment() {
    let u = rect(0, 0, 10, 10).union(&rect(5, -5, 20, 3));
    assert_eq!(u, rect(0, -5, 25, 15));
    assert!(rect(0, 0, 10, 10).contains_point(9, 0));
    assert!(!rect(0, 0, 10, 10).contains_point(10, 0));
    assert_eq!(Rect::zero(), rect(0, 0, 0, 0));
}
