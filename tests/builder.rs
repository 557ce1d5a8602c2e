use layout_engine::builder::build_display_list;
use layout_engine::damage::RestyleDamage;
use layout_engine::display::{hit_test, BaseItem, ItemKind, Rect};
use layout_engine::flow::{FlowData, FlowFlags, FlowTree};
use layout_engine::solve::solve_constraints;

fn flow(node: u64, content_height: u32, inset: u32, clips: bool) -> FlowData {
    FlowData {
        node,
        parent: 0,
        damage: RestyleDamage::none(),
        flags: FlowFlags { is_leaf: false, is_nonleaf: true, inorder: false, clips },
        min_width: 0,
        content_height,
        inset,
    }
}

#[test]
fn one_solid_item_per_flow_without_clipping() {
    let mut t = FlowTree::new(flow(1, 10, 0, false));
    t.add_child(0, flow(2, 5, 0, false));
    let g = solve_constraints(&t, 50);
    let c = build_display_list(&t, &g);
    assert_eq!(c.lists.len(), 1);
    let items = &c.lists[0].items;
    assert_eq!(items.len(), 2);
    assert_eq!(items[0].kind, ItemKind::SolidColor);
    assert_eq!(items[0].base, BaseItem { bounds: Rect { x: 0, y: 0, w: 50, h: 15 }, node: 1 });
    assert_eq!(items[1].base, BaseItem { bounds: Rect { x: 0, y: 10, w: 50, h: 5 }, node: 2 });
    assert!(items[1].children.is_empty());
}

#[test]
fn clipping_flow_nests_all_its_descendants() {
    // 0 -> 1 (clips) -> 2 (clips) -> 3, and 0 -> 4.
    let mut t = FlowTree::new(flow(10, 1, 0, false));
    let a = t.add_child(0, flow(11, 2, 1, true));
    let b = t.add_child(a, flow(12, 3, 1, true));
    t.add_child(b, flow(13, 4, 0, false));
    t.add_child(0, flow(14, 5, 0, false));
    let g = solve_constraints(&t, 20);
    let c = build_display_list(&t, &g);
    let items = &c.lists[0].items;
    let kinds: Vec<ItemKind> = items.iter().map(|i| i.kind).collect();
    assert_eq!(kinds, vec![ItemKind::SolidColor, ItemKind::SolidColor, ItemKind::Clip, ItemKind::SolidColor]);
    assert_eq!(items[1].base.node, 11);
    assert_eq!(items[2].base.node, 11);
    let nested: Vec<u64> = items[2].children.iter().map(|i| i.node).collect();
    assert_eq!(nested, vec![12, 13]);
    assert_eq!(items[3].base.node, 14);
    assert_eq!(items[2].children[1].bounds, Rect { x: 2, y: 6, w: 18, h: 4 });
    // The nested flow is found before the clipping flow's own item.
    assert_eq!(hit_test(&c, 5, 7), Some(13));
    assert_eq!(hit_test(&c, 0, 1), Some(11));
}
