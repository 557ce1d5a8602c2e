use layout_engine::builder::{select_background_color, BackgroundCandidate, Color, ElementKind};
use layout_engine::damage::RestyleDamage;
use layout_engine::display::Rect;
use layout_engine::flow::{FlowData, FlowFlags, FlowTree};
use layout_engine::task::{needs_selector_matching, DamageLevel, LayoutQuery, LayoutTask, MessageKind,
    ProtocolError, QueryResponse, ReflowError, ReflowGoal, TaskAction, TaskState};

fn flow(node: u64, min_width: u32, content_height: u32, leaf: bool) -> FlowData {
    FlowData {
        node,
        parent: 0,
        damage: RestyleDamage::none(),
        flags: FlowFlags { is_leaf: leaf, is_nonleaf: !leaf, inorder: false, clips: false },
        min_width,
        content_height,
        inset: 0,
    }
}

fn page() -> FlowTree {
    let mut t = FlowTree::new(flow(100, 10, 10, false));
    t.add_child(0, flow(101, 30, 20, true));
    t.add_child(0, flow(102, 40, 5, true));
    t
}

const TRANSPARENT: Color = Color { r: 0, g: 0, b: 0, a: 0 };
const BLUE: Color = Color { r: 0, g: 0, b: 255, a: 255 };
const WHITE: Color = Color { r: 255, g: 255, b: 255, a: 255 };

#[test]
fn background_skips_transparent_candidates() {
    let els = vec![
        BackgroundCandidate { kind: ElementKind::Html, color: TRANSPARENT },
        BackgroundCandidate { kind: ElementKind::Body, color: BLUE },
    ];
    assert_eq!(select_background_color(&els), BLUE);
}

#[test]
fn background_defaults_to_opaque_white() {
    let els = vec![
        BackgroundCandidate { kind: ElementKind::Html, color: TRANSPARENT },
        BackgroundCandidate { kind: ElementKind::Body, color: Color { r: 9, g: 9, b: 9, a: 0 } },
    ];
    assert_eq!(select_background_color(&els), WHITE);
    assert_eq!(select_background_color(&Vec::new()), WHITE);
}

#[test]
fn background_ignores_other_elements() {
    let red = Color { r: 255, g: 0, b: 0, a: 255 };
    let els = vec![
        BackgroundCandidate { kind: ElementKind::Other, color: red },
        BackgroundCandidate { kind: ElementKind::Body, color: BLUE },
        BackgroundCandidate { kind: ElementKind::Html, color: red },
    ];
    assert_eq!(select_background_color(&els), BLUE);
}

#[test]
fn new_task_pool_depends_on_thread_count() {
    assert_eq!(LayoutTask::new(1, 1).parallel_workers, None);
    assert_eq!(LayoutTask::new(1, 0).parallel_workers, None);
    assert_eq!(LayoutTask::new(1, 4).parallel_workers, Some(4));
    let t = LayoutTask::new(9, 2);
    assert_eq!(t.id, 9);
    assert_eq!(t.state, TaskState::Running);
    assert!(t.display_list_collection.is_none());
}

#[test]
fn running_task_accepts_every_message() {
    let mut t = LayoutTask::new(1, 1);
    assert_eq!(t.handle_message(MessageKind::AddStylesheet), Ok(TaskAction::AddStylesheet));
    assert_eq!(t.handle_message(MessageKind::Reflow), Ok(TaskAction::Reflow));
    assert_eq!(t.handle_message(MessageKind::Query), Ok(TaskAction::Query));
    assert_eq!(t.handle_message(MessageKind::ReapLayoutData), Ok(TaskAction::ReapLayoutData));
    assert_eq!(t.state, TaskState::Running);
}

#[test]
fn exit_protocol_after_prepare_to_exit() {
    let mut t = LayoutTask::new(1, 4);
    assert_eq!(t.handle_message(MessageKind::PrepareToExit), Ok(TaskAction::AcknowledgePrepareToExit));
    assert_eq!(t.state, TaskState::PreparingToExit);
    assert_eq!(t.handle_message(MessageKind::ReapLayoutData), Ok(TaskAction::ReapLayoutData));
    assert_eq!(t.state, TaskState::PreparingToExit);
    for m in [MessageKind::AddStylesheet, MessageKind::Reflow, MessageKind::Query, MessageKind::PrepareToExit] {
        assert_eq!(t.handle_message(m), Err(ProtocolError::UnexpectedWhilePreparingToExit));
        assert_eq!(t.state, TaskState::PreparingToExit);
    }
    assert_eq!(t.handle_message(MessageKind::ExitNow), Ok(TaskAction::Exit { shutdown_pool: true }));
    assert_eq!(t.state, TaskState::Exited);
    assert_eq!(t.handle_message(MessageKind::ReapLayoutData), Err(ProtocolError::AfterExit));
}

#[test]
fn exit_now_without_pool() {
    let mut t = LayoutTask::new(1, 1);
    assert_eq!(t.handle_message(MessageKind::ExitNow), Ok(TaskAction::Exit { shutdown_pool: false }));
}

#[test]
fn selector_matching_is_skipped_for_geometry_only_damage() {
    assert!(!needs_selector_matching(DamageLevel::ReflowOnly));
    assert!(needs_selector_matching(DamageLevel::MatchSelectors));
    assert!(needs_selector_matching(DamageLevel::ContentChanged));
}

#[test]
fn reflow_for_display_caches_lists_and_answers_queries() {
    let mut task = LayoutTask::new(3, 2);
    let mut tree = page();
    let els = vec![BackgroundCandidate { kind: ElementKind::Body, color: BLUE }];
    let out = task.handle_reflow(&mut tree, DamageLevel::ReflowOnly, ReflowGoal::ForDisplay, 80, 60, &els).unwrap();
    let layer = out.render.unwrap();
    assert_eq!((layer.width, layer.height, layer.color), (80, 35, BLUE));
    assert_eq!((task.screen_width, task.screen_height), (80, 60));
    // The window size changed, so every flow is fully damaged.
    for i in 0..3 {
        assert_eq!(tree.flow(i).damage, RestyleDamage::all());
    }
    match task.handle_query(LayoutQuery::ContentBox(102)) {
        QueryResponse::ContentBox(r) => assert_eq!(r, Rect { x: 0, y: 30, w: 80, h: 5 }),
        _ => panic!("wrong response kind"),
    }
    match task.handle_query(LayoutQuery::ContentBoxes(101)) {
        QueryResponse::ContentBoxes(v) => assert_eq!(v, vec![Rect { x: 0, y: 10, w: 80, h: 20 }]),
        _ => panic!("wrong response kind"),
    }
    match task.handle_query(LayoutQuery::HitTest(5, 12)) {
        QueryResponse::HitTest(h) => assert_eq!(h, Some(101)),
        _ => panic!("wrong response kind"),
    }
    match task.handle_query(LayoutQuery::HitTest(500, 500)) {
        QueryResponse::HitTest(h) => assert_eq!(h, None),
        _ => panic!("wrong response kind"),
    }
}

#[test]
fn reflow_without_display_goal_keeps_the_cache() {
    let mut task = LayoutTask::new(3, 1);
    task.screen_width = 80;
    task.screen_height = 60;
    let mut tree = page();
    let out = task.handle_reflow(&mut tree, DamageLevel::MatchSelectors, ReflowGoal::Other, 80, 60, &Vec::new()).unwrap();
    assert!(out.render.is_none());
    assert!(task.display_list_collection.is_none());
    assert_eq!(out.geometry.len(), 3);
    assert_eq!(out.geometry[0].height, 35);
    // Same window size and no content change: no damage was forced.
    for i in 0..3 {
        assert!(tree.flow(i).damage.is_empty());
    }
}

#[test]
fn content_change_forces_full_damage() {
    let mut task = LayoutTask::new(3, 1);
    task.screen_width = 80;
    task.screen_height = 60;
    let mut tree = page();
    task.handle_reflow(&mut tree, DamageLevel::ContentChanged, ReflowGoal::Other, 80, 60, &Vec::new()).unwrap();
    assert_eq!(tree.flow(2).damage, RestyleDamage::all());
}

#[test]
fn malformed_tree_is_refused_when_checking() {
    let mut task = LayoutTask::new(3, 1);
    task.check_flow_trees = true;
    let mut tree = page();
    let mut bad = flow(103, 1, 1, true);
    bad.flags.is_nonleaf = true;
    tree.add_child(0, bad);
    let r = task.handle_reflow(&mut tree, DamageLevel::ContentChanged, ReflowGoal::ForDisplay, 80, 60, &Vec::new());
    assert!(matches!(r, Err(ReflowError::MalformedFlowTree)));
    assert_eq!((task.screen_width, task.screen_height), (0, 0));
    assert!(task.display_list_collection.is_none());
}

#[test]
fn layout_context_carries_screen_and_root() {
    let mut task = LayoutTask::new(3, 1);
    task.screen_width = 7;
    task.screen_height = 8;
    let c = task.build_layout_context(42);
    assert_eq!((c.screen_width, c.screen_height, c.reflow_root), (7, 8, 42));
}
