use vstd::prelude::*;

use crate::context::{Context, Output};
use crate::dag::{dag_get, dag_next, next_model, opt_service, Dag, NextModel};
use crate::error::Error;
use crate::graph::{find_gnode, graph_next, Graph};
use crate::plan::{NextPlan, PlanError, ServiceEntityJson, ServiceModel};
use crate::status::{next_status, CtxStatus, StatusEvent};

verus! {

/// A plan of either kind.
#[derive(Debug)]
pub enum AnyPlan {
    Dag(Dag),
    Graph(Graph),
}

/// What a plan answers when a node finishes, in the model: the new plan or
/// the missing node.
pub open spec fn plan_next(p: AnyPlan, name: Seq<char>) -> Result<NextModel, Seq<char>> {
    match p {
        AnyPlan::Dag(d) => match dag_next(d@, name) {
            Ok((_, m)) => Ok(m),
            Err(e) => Err(e),
        },
        AnyPlan::Graph(g) => match graph_next(g@, name) {
            Ok((_, m)) => Ok(m),
            Err(e) => Err(e),
        },
    }
}

/// The plan after node `name` finished.
pub open spec fn plan_after(p: AnyPlan, q: AnyPlan, name: Seq<char>) -> bool {
    match (p, q) {
        (AnyPlan::Dag(d), AnyPlan::Dag(d2)) => dag_next(d@, name) matches Ok((x, _)) ==> d2@ == x,
        (AnyPlan::Graph(g), AnyPlan::Graph(g2)) => graph_next(g@, name) matches Ok((x, _)) ==> g2@ == x,
        _ => false,
    }
}

/// `q` is `p` with the successors of node `name` replaced by `to`.
pub open spec fn plan_set_to(p: AnyPlan, q: AnyPlan, name: Seq<char>, to: Seq<Seq<char>>) -> bool {
    match (p, q) {
        (AnyPlan::Dag(d), AnyPlan::Dag(d2)) => d2@ == match crate::dag::find_node(d@.nodes, name) {
            None => d@,
            Some(k) => crate::dag::DagModel {
                nodes: d@.nodes.update(k, crate::dag::DagNodeModel { to, ..d@.nodes[k] }),
                ..d@
            },
        },
        (AnyPlan::Graph(g), AnyPlan::Graph(g2)) => g2@ == match find_gnode(g@.nodes, name) {
            None => g@,
            Some(k) => crate::graph::GraphModel {
                nodes: g@.nodes.update(k, crate::graph::GraphNodeModel { to, ..g@.nodes[k] }),
                ..g@
            },
        },
        _ => false,
    }
}

pub open spec fn plan_start(p: AnyPlan) -> Seq<char> {
    match p {
        AnyPlan::Dag(d) => d@.start,
        AnyPlan::Graph(g) => g@.start,
    }
}

pub open spec fn plan_end(p: AnyPlan) -> Seq<char> {
    match p {
        AnyPlan::Dag(d) => d@.end,
        AnyPlan::Graph(g) => g@.end,
    }
}

/// The service a plan hands out for node `name`: a DAG hands it out once,
/// a graph hands out a copy each time.
pub open spec fn plan_get(p: AnyPlan, name: Seq<char>) -> Option<ServiceModel> {
    match p {
        AnyPlan::Dag(d) => dag_get(d@, name).1,
        AnyPlan::Graph(g) => match find_gnode(g@.nodes, name) {
            Some(k) => Some(g@.nodes[k].service),
            None => None,
        },
    }
}

impl AnyPlan {
    pub fn start_node_name(&self) -> (r: String)
        ensures
            r@ == plan_start(*self),
    {
        match self {
            AnyPlan::Dag(d) => d.start_node_name().clone(),
            AnyPlan::Graph(g) => g.start_node_name().clone(),
        }
    }

    pub fn end_node_name(&self) -> (r: String)
        ensures
            r@ == plan_end(*self),
    {
        match self {
            AnyPlan::Dag(d) => d.end_node_name().clone(),
            AnyPlan::Graph(g) => g.end_node_name().clone(),
        }
    }

    /// The service of node `name`.
    pub fn get(&mut self, name: &String) -> (r: Option<ServiceEntityJson>)
        ensures
            opt_service(r) == plan_get(*old(self), name@),
            plan_start(*final(self)) == plan_start(*old(self)),
            plan_end(*final(self)) == plan_end(*old(self)),
    {
        match self {
            AnyPlan::Dag(d) => d.get(name),
            AnyPlan::Graph(g) => g.get_service_entity(name),
        }
    }

    /// Reports that node `name` finished.
    pub fn next(&mut self, name: &String) -> (r: Result<NextPlan, PlanError>)
        ensures
            match plan_next(*old(self), name@) {
                Ok(m) => r matches Ok(p) && next_model(p) == m,
                Err(e) => r matches Err(PlanError::NodeNotFound(x)) && x@ == e,
            },
            plan_after(*old(self), *final(self), name@),
            plan_start(*final(self)) == plan_start(*old(self)),
            plan_end(*final(self)) == plan_end(*old(self)),
    {
        match self {
            AnyPlan::Dag(d) => d.next(name),
            AnyPlan::Graph(g) => g.next(name),
        }
    }

    /// Rewrites the successors of node `name`: conditional routing.
    pub fn set_to(&mut self, name: &String, to: Vec<String>)
        ensures
            plan_set_to(*old(self), *final(self), name@, crate::plan::names(to@)),
            plan_start(*final(self)) == plan_start(*old(self)),
            plan_end(*final(self)) == plan_end(*old(self)),
    {
        match self {
            AnyPlan::Dag(d) => d.set_to(name, to),
            AnyPlan::Graph(g) => g.set_to(name, to),
        }
    }
}

/// Where a dispatch goes next along the middleware chain.
#[derive(Debug, PartialEq, Eq)]
pub enum Step {
    /// Call the middleware at this index; the entity's index moves past it.
    Middleware(usize),
    /// The chain is done: call the node's service.
    Service,
}

/// One step of the middleware chain: index `i` of a chain of `len`.
pub fn next_step(middle_index: usize, len: usize) -> (r: Result<Step, Error>)
    ensures
        middle_index < len ==> r == Ok::<Step, Error>(Step::Middleware(middle_index)),
        middle_index == len ==> r == Ok::<Step, Error>(Step::Service),
        middle_index > len ==> r == Err::<Step, Error>(Error::NextNodeNull),
{
    if middle_index < len {
        Ok(Step::Middleware(middle_index))
    } else if middle_index == len {
        Ok(Step::Service)
    } else {
        Err(Error::NextNodeNull)
    }
}

/// What the driver does after a node finished.
#[derive(Debug)]
pub enum Dispatch {
    /// The end node finished: the run succeeded.
    Finished,
    /// This branch stops here; others may still run.
    Quiesce,
    /// These nodes are ready: dispatch each.
    Spawn(Vec<ServiceEntityJson>),
    /// The run failed, or had already ended: dispatch nothing.
    Stop,
}

pub open spec fn dispatch_len(d: Dispatch) -> nat {
    match d {
        Dispatch::Spawn(v) => v.len() as nat,
        _ => 0,
    }
}

/// The status after a branch ended with `d`, with `left` branches still in
/// flight: when no branch is left and the end was not reached, the run has
/// deadlocked and fails.
pub open spec fn settle(s: CtxStatus, left: nat, d: Dispatch) -> CtxStatus {
    if left == 0 && !(d is Finished) {
        next_status(s, StatusEvent::Fail)
    } else {
        s
    }
}

/// Starts a run: seeds the input and hands out the start node's service. A
/// plan whose start node holds no service fails with `NodeEntityNotFound`.
pub fn begin_run<T>(ctx: &mut Context<T>, plan: &mut AnyPlan, input: Output<T>) -> (r: Result<ServiceEntityJson, Error>)
    requires
        old(ctx).wf(),
    ensures
        final(ctx).wf(),
        final(ctx).input == Some(input),
        final(ctx).status == old(ctx).status,
        final(ctx).vars == old(ctx).vars,
        match plan_get(*old(plan), plan_start(*old(plan))) {
            Some(s) => r matches Ok(x) && x@ == s && final(ctx).branches == 1,
            None => r matches Err(Error::NodeEntityNotFound(n)) && n@ == plan_start(*old(plan)),
        },
{
    ctx.insert_input(input);
    let start = plan.start_node_name();
    match plan.get(&start) {
        Some(se) => {
            ctx.branches = 1;
            Ok(se)
        },
        None => Err(Error::NodeEntityNotFound(start)),
    }
}

/// What the terminal middleware decides once node `node` has run, given what
/// its service returned: the output is stored under the node's name before
/// anything else; then the plan answers. The end finishes the run; ready
/// successors are handed back to be dispatched; an error fails the run. The
/// branch count goes down by one and up by the number of nodes handed back;
/// when it reaches zero before the end, the run fails as deadlocked.
pub fn complete_node<T>(
    ctx: &mut Context<T>,
    plan: &mut AnyPlan,
    node: &String,
    out: Result<Output<T>, Error>,
) -> (r: Dispatch)
    requires
        old(ctx).wf(),
        old(ctx).branches > 0,
    ensures
        final(ctx).wf(),
        final(ctx).branches == if old(ctx).branches - 1 + dispatch_len(r) <= usize::MAX {
            old(ctx).branches - 1 + dispatch_len(r)
        } else {
            usize::MAX as int
        },
        // a node whose service failed ends the run in error
        out is Err ==> r is Stop && final(ctx).status == next_status(old(ctx).status, StatusEvent::Fail)
            && final(ctx).vars == old(ctx).vars,
        // the output of a node is stored before any successor is handed out
        out is Ok && !old(ctx).vars.has(node@) ==> final(ctx).vars.get(node@) == Some(out->Ok_0),
        r is Spawn ==> final(ctx).vars.has(node@),
        // an output is written once: a second one for the same node changes nothing stored
        old(ctx).vars.has(node@) ==> final(ctx).vars == old(ctx).vars,
        forall|n: Seq<char>| n != node@ ==> final(ctx).vars.get(n) == old(ctx).vars.get(n),
        out is Ok && old(ctx).vars.has(node@) ==> r is Stop && final(ctx).status == next_status(
            old(ctx).status,
            StatusEvent::Fail,
        ),
        out is Ok && !old(ctx).vars.has(node@) ==> match plan_next(*old(plan), node@) {
            Err(e) => r is Stop && final(ctx).status == next_status(old(ctx).status, StatusEvent::Fail),
            Ok(NextModel::End) => r is Finished && final(ctx).status == next_status(
                old(ctx).status,
                StatusEvent::Succeed,
            ),
            Ok(NextModel::Wait) => r is Quiesce && final(ctx).status == settle(
                old(ctx).status,
                (old(ctx).branches - 1) as nat,
                r,
            ),
            Ok(NextModel::Nodes(l)) => if l.len() == 0 {
                r is Quiesce && final(ctx).status == settle(
                    old(ctx).status,
                    (old(ctx).branches - 1) as nat,
                    r,
                )
            } else {
                r matches Dispatch::Spawn(v) && v@.map_values(|s: ServiceEntityJson| s@) == l
                    && final(ctx).status == old(ctx).status
            },
        },
        plan_start(*final(plan)) == plan_start(*old(plan)),
        plan_end(*final(plan)) == plan_end(*old(plan)),
{
    let left = ctx.branches - 1;
    ctx.branches = left;
    let o = match out {
        Err(e) => {
            ctx.set_error(e);
            return Dispatch::Stop;
        },
        Ok(o) => o,
    };
    match ctx.vars.insert(node.clone(), o) {
        Err(e) => {
            ctx.set_error(e);
            return Dispatch::Stop;
        },
        Ok(()) => {},
    }
    let d = match plan.next(node) {
        Err(PlanError::NodeNotFound(n)) => {
            ctx.set_error(Error::NodeEntityNotFound(n));
            return Dispatch::Stop;
        },
        Ok(NextPlan::End) => {
            ctx.success();
            return Dispatch::Finished;
        },
        Ok(NextPlan::Wait) => Dispatch::Quiesce,
        Ok(NextPlan::Nodes(l)) => {
            if l.len() == 0 {
                Dispatch::Quiesce
            } else {
                ctx.branches = if l.len() <= usize::MAX - left {
                    left + l.len()
                } else {
                    usize::MAX
                };
                return Dispatch::Spawn(l);
            }
        },
    };
    if left == 0 {
        ctx.set_error(Error::DeadlockedPlan);
    }
    d
}

/// Ends a run once the completion signal came and the post-hooks ran
/// (`post_hook_error` is the message of the first that failed). A failed
/// post-hook replaces the result; a successful run hands back the end node's
/// output; a failed run hands back its first error. The status is closed.
pub fn finish_run<T>(ctx: &mut Context<T>, plan: &AnyPlan, post_hook_error: Option<String>) -> (r: Result<Output<T>, Error>)
    requires
        old(ctx).wf(),
    ensures
        final(ctx).wf(),
        final(ctx).status == next_status(old(ctx).status, StatusEvent::Close),
        match post_hook_error {
            Some(m) => r == Err::<Output<T>, Error>(Error::EndCallbackError(m)),
            None => if old(ctx).status is Success {
                match old(ctx).vars.get(plan_end(*plan)) {
                    Some(o) => r == Ok::<Output<T>, Error>(o),
                    None => r matches Err(Error::Unknown(_)),
                }
            } else {
                match old(ctx).error {
                    Some(e) => r == Err::<Output<T>, Error>(e),
                    None => r matches Err(Error::Unknown(_)),
                }
            },
        },
{
    let status = ctx.status;
    ctx.status.close();
    if let Some(m) = post_hook_error {
        return Err(Error::EndCallbackError(m));
    }
    if status == CtxStatus::Success {
        let end = plan.end_node_name();
        match ctx.vars.remove(&end) {
            Some(o) => Ok(o),
            None => Err(Error::Unknown(String::from_str("not found result"))),
        }
    } else {
        match ctx.take_error() {
            Some(e) => Err(e),
            None => Err(Error::Unknown(String::from_str("not found error"))),
        }
    }
}

/// When the last branch in flight stops without the end node having
/// finished, a run that is still going fails (as deadlocked) rather than
/// waiting forever.
pub proof fn lemma_deadlock_detected(s: CtxStatus, d: Dispatch)
    requires
        s is Init || s is Running,
        !(d is Finished),
    ensures
        settle(s, 0, d) is Error,
{
}

/// A branch that fails before the end node ran makes the run end in Error:
/// whatever happens afterwards, the status stays Error until it is closed.
pub proof fn lemma_failed_branch_fails_run(s: CtxStatus, evs: Seq<StatusEvent>)
    requires
        s is Init || s is Running,
    ensures
        ({
            let after = crate::status::replay(next_status(s, StatusEvent::Fail), evs);
            after is Error || after is Over
        }),
{
    crate::status::lemma_status_monotone(next_status(s, StatusEvent::Fail), evs);
}

} // verus!
