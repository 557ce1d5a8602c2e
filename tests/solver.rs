use layout_engine::damage::RestyleDamage;
use layout_engine::flow::{FlowData, FlowFlags, FlowTree};
use layout_engine::schedule::{postorder_schedule, sequential_postorder};
use layout_engine::solve::{assign_heights_and_store_overflow, assign_widths, bubble_widths, solve_constraints,
    solve_constraints_parallel, AssignHeightsAndStoreOverflowTraversal, BubbleWidthsTraversal, FlowGeometry};

fn flow(min_width: u32, content_height: u32, inset: u32, leaf: bool) -> FlowData {
    FlowData {
        node: 0,
        parent: 0,
        damage: RestyleDamage::none(),
        flags: FlowFlags { is_leaf: leaf, is_nonleaf: !leaf, inorder: false, clips: false },
        min_width,
        content_height,
        inset,
    }
}

/// 0 -> 1 -> 2, and 0 -> 3.
fn small_tree() -> FlowTree {
    let mut t = FlowTree::new(flow(100, 10, 5, false));
    let a = t.add_child(0, flow(50, 20, 2, false));
    t.add_child(a, flow(300, 7, 0, true));
    t.add_child(0, flow(0, 15, 0, true));
    t
}

/// A complete tree of the given depth and fan-out.
fn wide_tree(depth: u32, fan: u32) -> FlowTree {
    let mut t = FlowTree::new(flow(10, 1, 1, false));
    let mut level = vec![0usize];
    for d in 0..depth {
        let mut next = Vec::new();
        for &p in &level {
            for k in 0..fan {
                let leaf = d + 1 == depth;
                let id = t.add_child(p, flow(5 * (k + 1) + d * 7, k + d + 1, k % 3, leaf));
                next.push(id);
            }
        }
        level = next;
    }
    t
}

fn check_postorder(t: &FlowTree, order: &[usize]) {
    let n = t.size();
    assert_eq!(order.len(), n);
    let mut pos = vec![usize::MAX; n];
    for (q, &j) in order.iter().enumerate() {
        assert!(j < n);
        assert_eq!(pos[j], usize::MAX, "flow {} visited twice", j);
        pos[j] = q;
    }
    for j in 1..n {
        assert!(pos[j] < pos[t.flow(j).parent], "flow {} visited after its parent", j);
    }
}

#[test]
fn sequential_solution_on_a_small_tree() {
    let g = solve_constraints(&small_tree(), 200);
    assert_eq!(g[0], FlowGeometry { x: 0, y: 0, pref_width: 300, width: 300, height: 52, overflow_width: 307 });
    assert_eq!(g[1], FlowGeometry { x: 5, y: 10, pref_width: 300, width: 300, height: 27, overflow_width: 302 });
    assert_eq!(g[2], FlowGeometry { x: 7, y: 30, pref_width: 300, width: 300, height: 7, overflow_width: 300 });
    assert_eq!(g[3], FlowGeometry { x: 5, y: 37, pref_width: 0, width: 295, height: 15, overflow_width: 295 });
}

#[test]
fn viewport_wider_than_content() {
    let mut t = FlowTree::new(flow(40, 3, 10, false));
    t.add_child(0, flow(20, 4, 0, true));
    let g = solve_constraints(&t, 1000);
    assert_eq!(g[0].width, 1000);
    assert_eq!(g[1].width, 990);
    assert_eq!(g[0].pref_width, 40);
    assert_eq!(g[0].height, 7);
    assert_eq!(g[1].y, 3);
}

#[test]
fn in_order_flows_are_skipped_by_the_height_pass() {
    let mut t = FlowTree::new(flow(10, 10, 0, false));
    let mut f = flow(10, 50, 0, true);
    f.flags.inorder = true;
    t.add_child(0, f);
    t.add_child(0, flow(10, 5, 0, true));
    let g = solve_constraints(&t, 10);
    assert_eq!(g[1].height, 0);
    assert_eq!(g[1].overflow_width, 0);
    assert_eq!(g[0].height, 15);
}

#[test]
fn heights_saturate_at_the_largest_value() {
    let mut t = FlowTree::new(flow(0, u32::MAX - 1, 0, false));
    t.add_child(0, flow(0, 5, 0, true));
    let g = solve_constraints(&t, 0);
    assert_eq!(g[0].height, u32::MAX);
}

#[test]
fn single_flow_tree() {
    let t = FlowTree::new(flow(7, 9, 3, true));
    let g = solve_constraints(&t, 4);
    assert_eq!(g, vec![FlowGeometry { x: 0, y: 0, pref_width: 7, width: 7, height: 9, overflow_width: 7 }]);
}

#[test]
fn parallel_solving_matches_sequential_at_every_worker_count() {
    for t in [small_tree(), wide_tree(3, 3), wide_tree(4, 2)] {
        let seq = solve_constraints(&t, 120);
        for workers in [1usize, 2, 8] {
            assert_eq!(solve_constraints_parallel(&t, 120, workers), seq);
        }
    }
}

#[test]
fn schedule_visits_each_flow_once_after_its_children() {
    for t in [small_tree(), wide_tree(3, 3), wide_tree(2, 5), FlowTree::new(flow(1, 1, 1, true))] {
        for workers in [1usize, 2, 3, 8] {
            check_postorder(&t, &postorder_schedule(&t, workers));
        }
        check_postorder(&t, &sequential_postorder(&t));
    }
}

#[test]
fn sequential_order_is_reverse_index_order() {
    assert_eq!(sequential_postorder(&small_tree()), vec![3, 2, 1, 0]);
}

#[test]
fn traversal_steps_process_one_flow() {
    let t = small_tree();
    let mut pref = vec![0u32, 0, 300, 0];
    BubbleWidthsTraversal.process(&t, &mut pref, 1);
    assert_eq!(pref, vec![0, 300, 300, 0]);
    let widths = vec![300u32, 300, 300, 295];
    let step = AssignHeightsAndStoreOverflowTraversal { viewport_width: 200 };
    assert!(step.should_process(&t, 2));
    let mut heights = vec![0u32, 0, 7, 0];
    let mut overflow = vec![0u32, 0, 300, 0];
    step.process(&t, &widths, &mut heights, &mut overflow, 1);
    assert_eq!(heights, vec![0, 27, 7, 0]);
    assert_eq!(overflow, vec![0, 302, 300, 0]);
}

#[test]
fn passes_run_separately() {
    let t = small_tree();
    let order = sequential_postorder(&t);
    let pref = bubble_widths(&t, &order);
    assert_eq!(pref, vec![300, 300, 300, 0]);
    let widths = assign_widths(&t, 200, &pref);
    assert_eq!(widths, vec![300, 300, 300, 295]);
    let (heights, overflow) = assign_heights_and_store_overflow(&t, 200, &widths, &postorder_schedule(&t, 2));
    assert_eq!(heights, vec![52, 27, 7, 15]);
    assert_eq!(overflow, vec![307, 302, 300, 295]);
}

#[test]
fn in_order_flag_stops_processing() {
    let mut f = flow(1, 1, 0, true);
    f.flags.inorder = true;
    let mut t = FlowTree::new(flow(1, 1, 0, false));
    t.add_child(0, f);
    let step = AssignHeightsAndStoreOverflowTraversal { viewport_width: 5 };
    assert!(step.should_process(&t, 0));
    assert!(!step.should_process(&t, 1));
}
