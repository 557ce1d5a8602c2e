use layout_engine::damage::RestyleDamage;
use layout_engine::flow::{propagate_damage, push_damage_down, pull_damage_up, verify_flow_tree, FlowData, FlowFlags, FlowTree};
use layout_engine::schedule::leaf_set;

fn dmg(repaint: bool, bubble_widths: bool, reflow: bool) -> RestyleDamage {
    RestyleDamage { repaint, bubble_widths, reflow }
}

fn flow(node: u64, leaf: bool, damage: RestyleDamage) -> FlowData {
    FlowData {
        node,
        parent: 0,
        damage,
        flags: FlowFlags { is_leaf: leaf, is_nonleaf: !leaf, inorder: false, clips: false },
        min_width: 0,
        content_height: 0,
        inset: 0,
    }
}

/// 0 -> 1 -> 2, and 0 -> 3.
fn chain_tree(d: [RestyleDamage; 4]) -> FlowTree {
    let mut t = FlowTree::new(flow(10, false, d[0]));
    let a = t.add_child(0, flow(11, false, d[1]));
    t.add_child(a, flow(12, true, d[2]));
    t.add_child(0, flow(13, true, d[3]));
    t
}

#[test]
fn building_links_parents_and_children() {
    let t = chain_tree([RestyleDamage::none(); 4]);
    assert_eq!(t.size(), 4);
    assert_eq!(t.flow(2).parent, 1);
    assert_eq!(t.flow(3).parent, 0);
    assert_eq!(t.children[0], vec![1, 3]);
    assert_eq!(t.children[1], vec![2]);
    assert_eq!(leaf_set(&t), vec![2, 3]);
}

#[test]
fn mixed_damage_propagates_down_then_up() {
    let mut t = chain_tree([dmg(false, false, false), dmg(false, false, true), dmg(false, true, false), dmg(true, false, false)]);
    propagate_damage(&mut t, false);
    assert_eq!(t.flow(0).damage, dmg(false, true, false));
    assert_eq!(t.flow(1).damage, dmg(false, true, true));
    assert_eq!(t.flow(2).damage, dmg(false, true, true));
    assert_eq!(t.flow(3).damage, dmg(true, false, false));
}

#[test]
fn top_down_pass_alone() {
    let mut t = chain_tree([dmg(false, false, true), dmg(false, false, false), dmg(true, false, false), dmg(false, true, false)]);
    push_damage_down(&mut t, false);
    assert_eq!(t.flow(0).damage, dmg(false, false, true));
    assert_eq!(t.flow(1).damage, dmg(false, false, true));
    assert_eq!(t.flow(2).damage, dmg(true, false, true));
    assert_eq!(t.flow(3).damage, dmg(false, true, true));
}

#[test]
fn bottom_up_pass_alone() {
    let mut t = chain_tree([dmg(false, false, false), dmg(false, false, false), dmg(true, true, true), dmg(true, false, false)]);
    pull_damage_up(&mut t);
    assert_eq!(t.flow(2).damage, dmg(true, true, true));
    assert_eq!(t.flow(1).damage, dmg(false, true, false));
    assert_eq!(t.flow(0).damage, dmg(false, true, false));
    assert_eq!(t.flow(3).damage, dmg(true, false, false));
}

#[test]
fn all_style_damage_reaches_every_flow() {
    let mut t = chain_tree([dmg(false, false, false), dmg(true, false, false), dmg(false, false, false), dmg(false, true, false)]);
    propagate_damage(&mut t, true);
    for i in 0..4 {
        assert_eq!(t.flow(i).damage, RestyleDamage::all());
    }
}

#[test]
fn no_damage_stays_empty() {
    let mut t = chain_tree([RestyleDamage::none(); 4]);
    propagate_damage(&mut t, false);
    for i in 0..4 {
        assert!(t.flow(i).damage.is_empty());
    }
}

#[test]
fn propagation_keeps_the_tree_and_its_other_fields() {
    let mut t = chain_tree([RestyleDamage::all(); 4]);
    propagate_damage(&mut t, false);
    assert_eq!(t.flow(2).node, 12);
    assert_eq!(t.flow(2).parent, 1);
    assert_eq!(t.children[0], vec![1, 3]);
}

#[test]
fn verification_accepts_consistent_marks() {
    let t = chain_tree([RestyleDamage::none(); 4]);
    assert!(verify_flow_tree(&t));
}

#[test]
fn verification_rejects_a_flow_with_both_or_neither_mark() {
    let mut t = chain_tree([RestyleDamage::none(); 4]);
    let mut bad = flow(14, true, RestyleDamage::none());
    bad.flags.is_nonleaf = true;
    t.add_child(3, bad);
    assert!(!verify_flow_tree(&t));
    let mut t2 = chain_tree([RestyleDamage::none(); 4]);
    let mut unmarked = flow(15, true, RestyleDamage::none());
    unmarked.flags.is_leaf = false;
    unmarked.flags.is_nonleaf = false;
    t2.add_child(0, unmarked);
    assert!(!verify_flow_tree(&t2));
}
