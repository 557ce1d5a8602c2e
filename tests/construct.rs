use layout_engine::construct::{construct_flow_tree, ConstructionError, Display, StyledNode, StyledTree};
use layout_engine::damage::RestyleDamage;
use layout_engine::flow::verify_flow_tree;

fn node(id: u64, parent: usize, display: Display) -> StyledNode {
    StyledNode {
        node: id,
        parent,
        display,
        clips: false,
        damage: RestyleDamage { repaint: id % 2 == 0, bubble_widths: false, reflow: false },
        min_width: id as u32 * 10,
        content_height: id as u32,
        inset: 1,
    }
}

#[test]
fn hidden_subtrees_generate_no_flows() {
    let s = StyledTree {
        nodes: vec![
            node(100, 0, Display::Block),
            node(101, 0, Display::Block),
            node(102, 1, Display::Hidden),
            node(103, 2, Display::Block),
            node(104, 0, Display::Block),
            node(105, 4, Display::Block),
        ],
    };
    let c = construct_flow_tree(&s).unwrap();
    assert_eq!(c.origin, vec![0, 1, 4, 5]);
    let t = &c.tree;
    assert_eq!(t.size(), 4);
    assert_eq!(t.flow(1).parent, 0);
    assert_eq!(t.flow(2).parent, 0);
    assert_eq!(t.flow(3).parent, 2);
    assert_eq!(t.flow(3).node, 105);
    assert_eq!(t.flow(3).min_width, 1050);
    assert_eq!(t.flow(2).damage, RestyleDamage { repaint: true, bubble_widths: false, reflow: false });
    assert!(t.flow(1).flags.is_leaf && !t.flow(1).flags.is_nonleaf);
    assert!(t.flow(0).flags.is_nonleaf && !t.flow(0).flags.is_leaf);
    assert!(t.flow(3).flags.is_leaf);
    assert!(verify_flow_tree(t));
}

#[test]
fn hidden_root_is_an_error() {
    let s = StyledTree { nodes: vec![node(1, 0, Display::Hidden), node(2, 0, Display::Block)] };
    assert!(matches!(construct_flow_tree(&s), Err(ConstructionError::NoFlowAtRoot)));
}

#[test]
fn single_node_document() {
    let s = StyledTree { nodes: vec![node(7, 0, Display::Block)] };
    let c = construct_flow_tree(&s).unwrap();
    assert_eq!(c.origin, vec![0]);
    assert!(c.tree.flow(0).flags.is_leaf);
}
