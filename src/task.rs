use vstd::prelude::*;
use crate::flow::{FlowTree, propagate_damage, verify_flow_tree, leaf_marks_consistent, same_tree_with_damage,
    pulled_damage, pushed_damages};
use crate::solve::{FlowGeometry, geometry_matches, solve_constraints, solve_constraints_parallel};
use crate::display::{DisplayListCollection, Rect, collection_wf, content_box, content_boxes, hit_test,
    union_all, collection_matches, hit_collection};
use crate::builder::{Color, BackgroundCandidate, canvas_background, select_background_color, build_display_list,
    display_list_of};

verus! {

/// Where the task is in its life.
#[derive(Clone, Copy, Debug, PartialEq, Eq, Structural)]
pub enum TaskState {
    /// Every kind of message is accepted.
    Running,
    /// Only per-node data release and the final exit are accepted.
    PreparingToExit,
    /// The task has shut down.
    Exited,
}

/// The kind of an inbound message; its payload stays with the caller.
#[derive(Clone, Copy, Debug, PartialEq, Eq, Structural)]
pub enum MessageKind {
    AddStylesheet,
    Reflow,
    Query,
    ReapLayoutData,
    PrepareToExit,
    ExitNow,
}

/// What the caller must do for a message that was accepted.
#[derive(Clone, Copy, Debug, PartialEq, Eq, Structural)]
pub enum TaskAction {
    /// Merge the stylesheet into the style collection.
    AddStylesheet,
    /// Run a reflow.
    Reflow,
    /// Answer the query from the cached display lists.
    Query,
    /// Release the node's layout-side data.
    ReapLayoutData,
    /// Acknowledge the request to prepare for exit.
    AcknowledgePrepareToExit,
    /// Shut down: stop the worker pool when `shutdown_pool`, then complete
    /// the exit handshake with the renderer.
    Exit { shutdown_pool: bool },
}

/// A message the protocol does not allow in the current state.
#[derive(Clone, Copy, Debug, PartialEq, Eq, Structural)]
pub enum ProtocolError {
    /// A message other than data release or exit after exit preparation began.
    UnexpectedWhilePreparingToExit,
    /// A message after the task exited.
    AfterExit,
}

/// The next state and the action for `msg` in `state`.
pub open spec fn transition(state: TaskState, msg: MessageKind, has_pool: bool) -> Result<(TaskState, TaskAction), ProtocolError> {
    match state {
        TaskState::Running => match msg {
            MessageKind::AddStylesheet => Ok((TaskState::Running, TaskAction::AddStylesheet)),
            MessageKind::Reflow => Ok((TaskState::Running, TaskAction::Reflow)),
            MessageKind::Query => Ok((TaskState::Running, TaskAction::Query)),
            MessageKind::ReapLayoutData => Ok((TaskState::Running, TaskAction::ReapLayoutData)),
            MessageKind::PrepareToExit => Ok((TaskState::PreparingToExit, TaskAction::AcknowledgePrepareToExit)),
            MessageKind::ExitNow => Ok((TaskState::Exited, TaskAction::Exit { shutdown_pool: has_pool })),
        },
        TaskState::PreparingToExit => match msg {
            MessageKind::ReapLayoutData => Ok((TaskState::PreparingToExit, TaskAction::ReapLayoutData)),
            MessageKind::ExitNow => Ok((TaskState::Exited, TaskAction::Exit { shutdown_pool: has_pool })),
            _ => Err(ProtocolError::UnexpectedWhilePreparingToExit),
        },
        TaskState::Exited => Err(ProtocolError::AfterExit),
    }
}

/// Once exit preparation has begun, data release is accepted and keeps the
/// task waiting, exit is accepted and ends it, and every other message is
/// refused.
pub proof fn lemma_exit_protocol(msg: MessageKind, has_pool: bool)
    ensures
        transition(TaskState::PreparingToExit, msg, has_pool) is Ok
            <==> (msg == MessageKind::ReapLayoutData || msg == MessageKind::ExitNow),
        msg == MessageKind::ReapLayoutData ==> transition(TaskState::PreparingToExit, msg, has_pool)
            == Ok::<(TaskState, TaskAction), ProtocolError>((TaskState::PreparingToExit, TaskAction::ReapLayoutData)),
        msg == MessageKind::ExitNow ==> transition(TaskState::PreparingToExit, msg, has_pool)
            == Ok::<(TaskState, TaskAction), ProtocolError>((TaskState::Exited, TaskAction::Exit { shutdown_pool: has_pool })),
        transition(TaskState::Running, MessageKind::PrepareToExit, has_pool)
            == Ok::<(TaskState, TaskAction), ProtocolError>((TaskState::PreparingToExit, TaskAction::AcknowledgePrepareToExit)),
{
}

/// How much of the document changed before a reflow.
#[derive(Clone, Copy, Debug, PartialEq, Eq, Structural)]
pub enum DamageLevel {
    /// Geometry only: selector matching is skipped.
    ReflowOnly,
    /// Styles must be matched again.
    MatchSelectors,
    /// Content changed: styles are matched again and every flow is damaged.
    ContentChanged,
}

/// Why a reflow was asked for.
#[derive(Clone, Copy, Debug, PartialEq, Eq, Structural)]
pub enum ReflowGoal {
    /// The result is painted: a display list is built and cached.
    ForDisplay,
    /// Only geometry is wanted.
    Other,
}

/// What the renderer receives after a reflow for display.
#[derive(Clone, Copy, Debug, PartialEq, Eq, Structural)]
pub struct RenderLayer {
    /// Size of the root flow.
    pub width: u32,
    pub height: u32,
    /// The canvas background.
    pub color: Color,
}

/// The result of a reflow.
pub struct ReflowOutcome {
    pub geometry: Vec<FlowGeometry>,
    /// Present for a reflow for display.
    pub render: Option<RenderLayer>,
}

/// A reflow that found the flow tree malformed.
#[derive(Clone, Copy, Debug, PartialEq, Eq, Structural)]
pub enum ReflowError {
    /// Some flow is not marked exactly one of leaf and non-leaf.
    MalformedFlowTree,
}

/// A geometry query against the cached display lists.
#[derive(Clone, Copy, Debug, PartialEq, Eq, Structural)]
pub enum LayoutQuery {
    ContentBox(u64),
    ContentBoxes(u64),
    HitTest(i64, i64),
}

/// The answer to a query.
pub enum QueryResponse {
    ContentBox(Rect),
    ContentBoxes(Vec<Rect>),
    /// The node hit, or `None` for no hit.
    HitTest(Option<u64>),
}

/// What every traversal of one reflow shares, read-only.
#[derive(Clone, Copy, Debug, PartialEq, Eq, Structural)]
pub struct LayoutContext {
    pub screen_width: u32,
    pub screen_height: u32,
    /// Opaque handle of the node the reflow starts from.
    pub reflow_root: u64,
}

/// Selector matching runs before a reflow unless only geometry changed.
pub open spec fn needs_selector_matching_spec(level: DamageLevel) -> bool {
    level != DamageLevel::ReflowOnly
}

/// Whether styles must be matched again before the flow tree is built.
pub fn needs_selector_matching(level: DamageLevel) -> (r: bool)
    ensures
        r == needs_selector_matching_spec(level),
{
    !matches!(level, DamageLevel::ReflowOnly)
}

/// The layout task of one pipeline.
pub struct LayoutTask {
    /// The pipeline the task belongs to.
    pub id: u64,
    pub state: TaskState,
    pub screen_width: u32,
    pub screen_height: u32,
    /// Size of the worker pool; `None` when solving sequentially.
    pub parallel_workers: Option<usize>,
    /// Check the flow tree's leaf marks before each reflow.
    pub check_flow_trees: bool,
    /// The display lists of the last reflow for display.
    pub display_list_collection: Option<DisplayListCollection>,
}

impl LayoutTask {
    /// A pool exists only with two or more workers, and cached display
    /// lists are well formed.
    pub open spec fn wf(&self) -> bool {
        &&& (self.parallel_workers matches Some(w) ==> w >= 2)
        &&& (self.display_list_collection matches Some(c) ==> collection_wf(c))
    }

    /// A running task with an empty screen and no cached display lists; it
    /// solves with a pool of `layout_threads` workers when that is two or
    /// more, sequentially otherwise.
    pub fn new(id: u64, layout_threads: usize) -> (t: LayoutTask)
        ensures
            t.wf(),
            t.id == id,
            t.state == TaskState::Running,
            t.screen_width == 0 && t.screen_height == 0,
            t.parallel_workers == (if layout_threads >= 2 { Some(layout_threads) } else { None::<usize> }),
            !t.check_flow_trees,
            t.display_list_collection.is_none(),
    {
        LayoutTask {
            id,
            state: TaskState::Running,
            screen_width: 0,
            screen_height: 0,
            parallel_workers: if layout_threads >= 2 { Some(layout_threads) } else { None },
            check_flow_trees: false,
            display_list_collection: None,
        }
    }

    /// The shared context for a reflow from `reflow_root`.
    pub fn build_layout_context(&self, reflow_root: u64) -> (c: LayoutContext)
        ensures
            c == (LayoutContext { screen_width: self.screen_width, screen_height: self.screen_height, reflow_root }),
    {
        LayoutContext { screen_width: self.screen_width, screen_height: self.screen_height, reflow_root }
    }

    /// Steps the message protocol: returns the action for `msg` and moves to
    /// the next state, or refuses a message the current state does not allow
    /// and stays where it is.
    pub fn handle_message(&mut self, msg: MessageKind) -> (r: Result<TaskAction, ProtocolError>)
        ensures
            match transition(old(self).state, msg, old(self).parallel_workers.is_some()) {
                Ok((s, a)) => r == Ok::<TaskAction, ProtocolError>(a) && final(self).state == s,
                Err(e) => r == Err::<TaskAction, ProtocolError>(e) && final(self).state == old(self).state,
            },
            final(self).id == old(self).id,
            final(self).screen_width == old(self).screen_width,
            final(self).screen_height == old(self).screen_height,
            final(self).parallel_workers == old(self).parallel_workers,
            final(self).check_flow_trees == old(self).check_flow_trees,
            final(self).display_list_collection == old(self).display_list_collection,
    {
        let has_pool = self.parallel_workers.is_some();
        match self.state {
            TaskState::Running => match msg {
                MessageKind::AddStylesheet => Ok(TaskAction::AddStylesheet),
                MessageKind::Reflow => Ok(TaskAction::Reflow),
                MessageKind::Query => Ok(TaskAction::Query),
                MessageKind::ReapLayoutData => Ok(TaskAction::ReapLayoutData),
                MessageKind::PrepareToExit => {
                    self.state = TaskState::PreparingToExit;
                    Ok(TaskAction::AcknowledgePrepareToExit)
                },
                MessageKind::ExitNow => {
                    self.state = TaskState::Exited;
                    Ok(TaskAction::Exit { shutdown_pool: has_pool })
                },
            },
            TaskState::PreparingToExit => match msg {
                MessageKind::ReapLayoutData => Ok(TaskAction::ReapLayoutData),
                MessageKind::ExitNow => {
                    self.state = TaskState::Exited;
                    Ok(TaskAction::Exit { shutdown_pool: has_pool })
                },
                _ => Err(ProtocolError::UnexpectedWhilePreparingToExit),
            },
            TaskState::Exited => Err(ProtocolError::AfterExit),
        }
    }

    /// Runs one reflow over a constructed flow tree: checks its leaf marks
    /// when asked to, propagates damage (every flow is damaged when content
    /// changed or the window was resized), solves the geometry, and for a
    /// reflow for display builds and caches the display list and picks the
    /// canvas background from `elements`, given in document order.
    pub fn handle_reflow(
        &mut self,
        tree: &mut FlowTree,
        level: DamageLevel,
        goal: ReflowGoal,
        window_width: u32,
        window_height: u32,
        elements: &Vec<BackgroundCandidate>,
    ) -> (r: Result<ReflowOutcome, ReflowError>)
        requires
            old(self).wf(),
            old(tree).wf(),
        ensures
            final(self).wf(),
            final(self).id == old(self).id,
            final(self).state == old(self).state,
            final(self).parallel_workers == old(self).parallel_workers,
            final(self).check_flow_trees == old(self).check_flow_trees,
            old(self).check_flow_trees && !leaf_marks_consistent(*old(tree)) ==> {
                &&& r == Err::<ReflowOutcome, ReflowError>(ReflowError::MalformedFlowTree)
                &&& *final(tree) == *old(tree)
                &&& *final(self) == *old(self)
            },
            !(old(self).check_flow_trees && !leaf_marks_consistent(*old(tree))) ==> {
                let all = level == DamageLevel::ContentChanged || window_width != old(self).screen_width
                    || window_height != old(self).screen_height;
                &&& r is Ok
                &&& final(self).screen_width == window_width
                &&& final(self).screen_height == window_height
                &&& final(tree).wf()
                &&& same_tree_with_damage(*final(tree), *old(tree),
                    |j: int| pulled_damage(*old(tree), pushed_damages(*old(tree), all), j))
                &&& geometry_matches(*final(tree), window_width as int, r->Ok_0.geometry@)
                &&& goal == ReflowGoal::ForDisplay ==> {
                    &&& r->Ok_0.render == Some(RenderLayer {
                        width: r->Ok_0.geometry@[0].width,
                        height: r->Ok_0.geometry@[0].height,
                        color: canvas_background(elements@),
                    })
                    &&& final(self).display_list_collection matches Some(c)
                        && display_list_of(*final(tree), r->Ok_0.geometry@, c)
                }
                &&& goal != ReflowGoal::ForDisplay ==> {
                    &&& r->Ok_0.render.is_none()
                    &&& final(self).display_list_collection == old(self).display_list_collection
                }
            },
    {
        if self.check_flow_trees && !verify_flow_tree(tree) {
            return Err(ReflowError::MalformedFlowTree);
        }
        let all_style_damage = matches!(level, DamageLevel::ContentChanged)
            || window_width != self.screen_width || window_height != self.screen_height;
        self.screen_width = window_width;
        self.screen_height = window_height;
        propagate_damage(tree, all_style_damage);
        let geometry = match self.parallel_workers {
            None => solve_constraints(tree, window_width),
            Some(workers) => solve_constraints_parallel(tree, window_width, workers),
        };
        let render = if matches!(goal, ReflowGoal::ForDisplay) {
            let collection = build_display_list(tree, &geometry);
            let color = select_background_color(elements);
            self.display_list_collection = Some(collection);
            Some(RenderLayer { width: geometry[0].width, height: geometry[0].height, color })
        } else {
            None
        };
        Ok(ReflowOutcome { geometry, render })
    }

    /// Answers a geometry query from the cached display lists.
    pub fn handle_query(&self, query: LayoutQuery) -> (r: QueryResponse)
        requires
            self.wf(),
            self.display_list_collection.is_some(),
        ensures
            ({
                let c = self.display_list_collection->Some_0;
                match query {
                    LayoutQuery::ContentBox(node) => r matches QueryResponse::ContentBox(b)
                        && b == union_all(collection_matches(c.lists@, node)),
                    LayoutQuery::ContentBoxes(node) => r matches QueryResponse::ContentBoxes(v)
                        && v@ == collection_matches(c.lists@, node),
                    LayoutQuery::HitTest(x, y) => r matches QueryResponse::HitTest(h)
                        && h == hit_collection(c.lists@, x as int, y as int),
                }
            }),
    {
        let c = match &self.display_list_collection {
            Some(c) => c,
            None => {
                return QueryResponse::HitTest(None);
            },
        };
        match query {
            LayoutQuery::ContentBox(node) => QueryResponse::ContentBox(content_box(c, node)),
            LayoutQuery::ContentBoxes(node) => QueryResponse::ContentBoxes(content_boxes(c, node)),
            LayoutQuery::HitTest(x, y) => QueryResponse::HitTest(hit_test(c, x, y)),
        }
    }
}

} // verus!
