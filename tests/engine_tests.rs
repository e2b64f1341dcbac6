use flowrun::context::{Context, Output, Vars};
use flowrun::dag::{Dag, DagNode};
use flowrun::engine::{begin_run, complete_node, finish_run, next_step, AnyPlan, Dispatch, Step};
use flowrun::error::Error;
use flowrun::graph::{Graph, GraphNode};
use flowrun::input::{JsonInput, Tran};
use flowrun::json::JsonValue;
use flowrun::plan::ServiceEntityJson;
use flowrun::services::{Batch, BatchRun, End, Start, Workflow, WorkflowError, WorkflowPlan};
use flowrun::status::{CompletionPoll, CtxStatus};
use flowrun::transform::InputError;
use std::collections::VecDeque;

fn s(x: &str) -> String {
    x.to_string()
}

fn obj(entries: Vec<(&str, JsonValue)>) -> JsonValue {
    JsonValue::Object(entries.into_iter().map(|(k, v)| (s(k), v)).collect())
}

fn same(a: &JsonValue, b: &JsonValue) -> bool {
    a.json_eq(b)
}

fn edges(list: &[(&str, &str)]) -> Vec<(String, String)> {
    list.iter().map(|(a, b)| (s(a), s(b))).collect()
}

fn gnode(name: &str, service: &str, input: JsonInput) -> GraphNode {
    GraphNode::new(s(name), ServiceEntityJson::new(s(service), input))
}

/// Runs a plan to completion on one thread; `service` computes each node's output.
fn drive(
    plan: AnyPlan,
    input: JsonValue,
    service: &dyn Fn(&ServiceEntityJson, &Vars<()>) -> Result<Output<()>, Error>,
) -> (Result<Output<()>, Error>, Vec<String>, Context<()>) {
    let mut plan = plan;
    let mut ctx: Context<()> = Context::new();
    let mut ran = vec![];
    let first = match begin_run(&mut ctx, &mut plan, Output::value(input)) {
        Ok(se) => se,
        Err(e) => return (Err(e), ran, ctx),
    };
    assert_eq!(ctx.status.poll_completion(), CompletionPoll::Pending);
    assert!(ctx.status.gate_open());
    let mut queue = VecDeque::from(vec![first]);
    while let Some(se) = queue.pop_front() {
        ran.push(se.node_name.clone());
        let out = service(&se, &ctx.vars);
        match complete_node(&mut ctx, &mut plan, &se.node_name, out) {
            Dispatch::Spawn(list) => queue.extend(list),
            _ => {}
        }
    }
    let r = finish_run(&mut ctx, &plan, None);
    (r, ran, ctx)
}

fn rules(pairs: Vec<(&str, Tran)>) -> JsonInput {
    let mut ji = JsonInput::new();
    for (k, t) in pairs {
        ji = ji.add_transform_rule(s(k), t);
    }
    ji
}

/// Start builds its output from the input; every other node builds its
/// input from its rules and hands it back as output.
fn json_services(se: &ServiceEntityJson, vars: &Vars<()>, input: &JsonValue) -> Result<Output<()>, Error> {
    let texts = vec![];
    let ji = se.config.deep_clone();
    let r = if se.service_name == "start" {
        Start::input(ji, Some(input.deep_clone()), vars, &texts)
    } else {
        ji.transform(obj(vec![]), vars, None, &texts).map(End::call)
    };
    r.map(Output::value).map_err(|e| Error::Wrapped(format!("{:?}", e)))
}

#[test]
fn linear_two_node_run() {
    let g = Graph::new()
        .nodes(vec![
            gnode("start", "start", rules(vec![("msg", Tran::quote(s("msg")))])),
            gnode("end", "end", rules(vec![("msg", Tran::quote(s("start.msg")))])),
        ])
        .edges(edges(&[("start", "end")]))
        .check()
        .unwrap();
    let input = obj(vec![("msg", JsonValue::Str(s("hi")))]);
    let (r, ran, ctx) = drive(AnyPlan::Graph(g), input.deep_clone(), &|se, vars| json_services(se, vars, &input));
    let out = r.ok().unwrap().as_val();
    assert!(same(&out, &obj(vec![("msg", JsonValue::Str(s("hi")))])));
    assert_eq!(ran, vec![s("start"), s("end")]);
    assert_eq!(ctx.status, CtxStatus::Over);
}

#[test]
fn diamond_dag_join_runs_end_once() {
    let mk = |name: &str, service: &str, ji: JsonInput| {
        DagNode::new(s(name)).set_service_entity(ServiceEntityJson::new(s(service), ji))
    };
    let d = Dag::new()
        .nodes(vec![
            mk("start", "start", JsonInput::new()),
            mk("m1", "m", rules(vec![("a", Tran::value(JsonValue::Number(1)))])),
            mk("m2", "m", rules(vec![("a", Tran::value(JsonValue::Number(2)))])),
            mk("end", "end", rules(vec![("answer1", Tran::quote(s("m1.a"))), ("answer2", Tran::quote(s("m2.a")))])),
        ])
        .edges(edges(&[("start", "m1"), ("start", "m2"), ("m1", "end"), ("m2", "end")]))
        .check()
        .unwrap();
    let input = obj(vec![]);
    let (r, ran, _) = drive(AnyPlan::Dag(d), obj(vec![]), &|se, vars| json_services(se, vars, &input));
    let out = r.ok().unwrap().as_val();
    assert!(same(&out, &obj(vec![("answer1", JsonValue::Number(1)), ("answer2", JsonValue::Number(2))])));
    assert_eq!(ran.iter().filter(|x| *x == "end").count(), 1);
}

#[test]
fn conditional_routing_runs_chosen_branch() {
    for (number, expect) in [(1000i64, 1001i64), (5, 4)] {
        let g = Graph::new()
            .nodes(vec![
                gnode("start", "start", JsonInput::new()),
                gnode("select", "flow_select", JsonInput::new()),
                gnode("A", "add", JsonInput::new()),
                gnode("B", "sub", JsonInput::new()),
                gnode("end", "end", JsonInput::new()),
            ])
            .edges(edges(&[("start", "select"), ("select", "A"), ("select", "B"), ("A", "end"), ("B", "end")]))
            .check()
            .unwrap();
        let mut plan = AnyPlan::Graph(g);
        let mut ctx: Context<()> = Context::new();
        let first = begin_run(&mut ctx, &mut plan, Output::value(obj(vec![("number", JsonValue::Number(number))]))).ok().unwrap();
        ctx.status.poll_completion();
        let mut queue = VecDeque::from(vec![first]);
        let mut ran = vec![];
        while let Some(se) = queue.pop_front() {
            ran.push(se.node_name.clone());
            let n = ctx.vars.get_var_field(&s("start"), "number");
            let out = match se.service_name.as_str() {
                "start" => Output::value(ctx.take_input().unwrap().as_val()),
                "flow_select" => {
                    let cfg = flowrun::select::SelectCfg {
                        conditions: flowrun::select::SelectNode::Greater(n.unwrap(), JsonValue::Number(666)),
                        true_to_nodes: vec![s("A")],
                        false_to_nodes: vec![s("B")],
                    };
                    let (b, to) = flowrun::select::Select::route(cfg).unwrap();
                    plan.set_to(&se.node_name, to);
                    Output::value(JsonValue::Bool(b))
                }
                "add" | "sub" => {
                    let x = match n.unwrap() {
                        JsonValue::Number(x) => x,
                        _ => panic!(),
                    };
                    Output::value(JsonValue::Number(if se.service_name == "add" { x + 1 } else { x - 1 }))
                }
                _ => {
                    let a = ctx.vars.get_var_field(&s("A"), "*");
                    let b = ctx.vars.get_var_field(&s("B"), "*");
                    Output::value(a.or(b).unwrap())
                }
            };
            if let Dispatch::Spawn(l) = complete_node(&mut ctx, &mut plan, &se.node_name, Ok(out)) {
                queue.extend(l);
            }
        }
        let r = finish_run(&mut ctx, &plan, None).ok().unwrap().as_val();
        assert!(same(&r, &JsonValue::Number(expect)));
        let chosen = if number > 666 { "A" } else { "B" };
        let other = if number > 666 { "B" } else { "A" };
        assert!(ran.contains(&s(chosen)));
        assert!(!ran.contains(&s(other)));
    }
}

#[test]
fn service_error_ends_run_with_that_error() {
    let g = Graph::new()
        .nodes(vec![gnode("start", "start", JsonInput::new()), gnode("boom", "boom", JsonInput::new()), gnode("end", "end", JsonInput::new())])
        .edges(edges(&[("start", "boom"), ("boom", "end")]))
        .check()
        .unwrap();
    let (r, ran, _) = drive(AnyPlan::Graph(g), obj(vec![("trigger", JsonValue::Bool(true))]), &|se, _| {
        if se.service_name == "boom" {
            Err(Error::Wrapped(s("triggered")))
        } else {
            Ok(Output::value(JsonValue::Null))
        }
    });
    assert_eq!(r.err().unwrap(), Error::Wrapped(s("triggered")));
    assert!(!ran.contains(&s("end")));
}

#[test]
fn post_hook_error_replaces_result() {
    let mut ctx: Context<()> = Context::new();
    let g = Graph::new().nodes(vec![gnode("start", "start", JsonInput::new()), gnode("end", "end", JsonInput::new())]).edges(edges(&[("start", "end")]));
    let plan = AnyPlan::Graph(g);
    ctx.success();
    let r = finish_run(&mut ctx, &plan, Some(s("hook failed")));
    assert_eq!(r.err().unwrap(), Error::EndCallbackError(s("hook failed")));
}

#[test]
fn missing_start_service_is_node_entity_not_found() {
    let d = Dag::new().edges(edges(&[("start", "end")]));
    let mut plan = AnyPlan::Dag(d);
    let mut ctx: Context<()> = Context::new();
    let r = begin_run(&mut ctx, &mut plan, Output::value(JsonValue::Null));
    assert_eq!(r.err().unwrap(), Error::NodeEntityNotFound(s("start")));
}

#[test]
fn start_output_stored_before_successors_dispatch() {
    let g = Graph::new()
        .nodes(vec![gnode("start", "start", JsonInput::new()), gnode("x", "unknown", JsonInput::new()), gnode("end", "end", JsonInput::new())])
        .edges(edges(&[("start", "x"), ("x", "end")]))
        .check()
        .unwrap();
    let mut plan = AnyPlan::Graph(g);
    let mut ctx: Context<()> = Context::new();
    let first = begin_run(&mut ctx, &mut plan, Output::value(JsonValue::Number(1))).ok().unwrap();
    ctx.status.poll_completion();
    let d = complete_node(&mut ctx, &mut plan, &first.node_name, Ok(Output::value(JsonValue::Number(1))));
    let spawned = match d {
        Dispatch::Spawn(l) => l,
        _ => panic!("expected successors"),
    };
    // The loader has no "unknown" service: the run fails, and start's output is already stored.
    assert_eq!(spawned[0].service_name, "unknown");
    assert!(ctx.vars.get_var_field(&s("start"), "*").is_some());
    assert!(ctx.set_error(Error::ServiceNotFound(s("unknown"))));
    assert_eq!(finish_run(&mut ctx, &plan, None).err().unwrap(), Error::ServiceNotFound(s("unknown")));
}

#[test]
fn rewrite_to_nothing_deadlocks() {
    let g = Graph::new()
        .nodes(vec![gnode("start", "start", JsonInput::new()), gnode("select", "flow_select", JsonInput::new()), gnode("end", "end", JsonInput::new())])
        .edges(edges(&[("start", "select"), ("select", "end")]))
        .check()
        .unwrap();
    let mut plan = AnyPlan::Graph(g);
    let mut ctx: Context<()> = Context::new();
    let first = begin_run(&mut ctx, &mut plan, Output::value(JsonValue::Null)).ok().unwrap();
    ctx.status.poll_completion();
    let d = complete_node(&mut ctx, &mut plan, &first.node_name, Ok(Output::value(JsonValue::Null)));
    assert!(matches!(d, Dispatch::Spawn(_)));
    plan.set_to(&s("select"), vec![]);
    let d = complete_node(&mut ctx, &mut plan, &s("select"), Ok(Output::value(JsonValue::Null)));
    assert!(matches!(d, Dispatch::Quiesce));
    assert_eq!(ctx.status, CtxStatus::Error);
    assert_eq!(ctx.error, Some(Error::DeadlockedPlan));
}

#[test]
fn join_with_one_failing_predecessor_ends_in_error() {
    let g = Graph::new()
        .nodes(vec![gnode("start", "start", JsonInput::new()), gnode("a", "a", JsonInput::new()), gnode("b", "b", JsonInput::new()), gnode("end", "end", JsonInput::new())])
        .edges(edges(&[("start", "a"), ("start", "b"), ("a", "end"), ("b", "end")]))
        .check()
        .unwrap();
    let mut plan = AnyPlan::Graph(g);
    let mut ctx: Context<()> = Context::new();
    let first = begin_run(&mut ctx, &mut plan, Output::value(JsonValue::Null)).ok().unwrap();
    ctx.status.poll_completion();
    let d = complete_node(&mut ctx, &mut plan, &first.node_name, Ok(Output::value(JsonValue::Null)));
    assert!(matches!(d, Dispatch::Spawn(ref l) if l.len() == 2));
    let d = complete_node(&mut ctx, &mut plan, &s("a"), Err(Error::Wrapped(s("a failed"))));
    assert!(matches!(d, Dispatch::Stop));
    assert_eq!(ctx.status, CtxStatus::Error);
    // the other predecessor finishing later does not change the outcome
    complete_node(&mut ctx, &mut plan, &s("b"), Ok(Output::value(JsonValue::Null)));
    assert_eq!(ctx.status, CtxStatus::Error);
    assert_eq!(finish_run(&mut ctx, &plan, None).err().unwrap(), Error::Wrapped(s("a failed")));
}

#[test]
fn node_output_written_once() {
    let mut vars: Vars<()> = Vars::new();
    assert!(vars.insert(s("n"), Output::value(JsonValue::Number(1))).is_ok());
    assert_eq!(vars.insert(s("n"), Output::value(JsonValue::Number(2))), Err(Error::VarRewritten(s("n"))));
    assert!(same(&vars.get_var_field(&s("n"), "*").unwrap(), &JsonValue::Number(1)));
    assert!(vars.remove(&s("n")).is_some());
    assert!(vars.remove(&s("n")).is_none());
}

#[test]
fn status_transitions() {
    let mut st = CtxStatus::new();
    assert!(!st.gate_open());
    assert_eq!(st.poll_completion(), CompletionPoll::Pending);
    assert_eq!(st.poll_completion(), CompletionPoll::AbnormalRunning);
    assert!(st.set_error());
    assert_eq!(st, CtxStatus::Error);
    assert!(!st.success());
    assert_eq!(st, CtxStatus::Error);
    assert_eq!(st.poll_completion(), CompletionPoll::Ready);
    st.close();
    assert_eq!(st, CtxStatus::Over);
    assert_eq!(st.poll_completion(), CompletionPoll::AbnormalOver);
    assert!(!st.set_error());
    assert_eq!(st, CtxStatus::Over);
}

#[test]
fn first_error_wins() {
    let mut ctx: Context<()> = Context::new();
    ctx.status.poll_completion();
    assert!(ctx.set_error(Error::Wrapped(s("first"))));
    assert!(!ctx.set_error(Error::Wrapped(s("second"))));
    assert_eq!(ctx.error, Some(Error::Wrapped(s("first"))));
}

#[test]
fn middleware_steps() {
    assert_eq!(next_step(0, 2), Ok(Step::Middleware(0)));
    assert_eq!(next_step(2, 2), Ok(Step::Service));
    assert_eq!(next_step(3, 2), Err(Error::NextNodeNull));
}

#[test]
fn start_without_rules_stores_input_verbatim() {
    let vars: Vars<()> = Vars::new();
    let input = obj(vec![("q", JsonValue::Str(s("x")))]);
    let r = Start::input(JsonInput::new(), Some(input.deep_clone()), &vars, &vec![]).ok().unwrap();
    assert!(same(&r, &input));
    let r = Start::input(JsonInput::new(), None, &vars, &vec![]).ok().unwrap();
    assert!(same(&r, &JsonValue::Null));
}

#[test]
fn transform_quotes_and_defaults() {
    let mut vars: Vars<()> = Vars::new();
    vars.insert(s("test_node"), Output::value(obj(vec![
        ("code", JsonValue::Number(1)),
        ("message", JsonValue::Str(s("success"))),
        ("data", obj(vec![("list", JsonValue::Array(vec![JsonValue::Number(1), JsonValue::Number(2), JsonValue::Number(3)]))])),
    ]))).unwrap();
    let ji = JsonInput::new()
        .skip_null_quote()
        .set_default_json(obj(vec![("code", JsonValue::Number(2)), ("map", obj(vec![("code2", JsonValue::Str(s("${{test_node.code}}")))]))]))
        .add_transform_value(s("name"), JsonValue::Str(s("helloworld")))
        .add_transform_quote(s("message"), s("test_node.message"))
        .add_transform_quote(s("code"), s("test_node.code_v2"))
        .add_transform_quote(s("map.code1"), s("test_node.code"))
        .add_transform_quote(s("list"), s("test_node.data.list"));
    let base = obj(vec![("name", JsonValue::Str(s(""))), ("code", JsonValue::Number(0)), ("list", JsonValue::Array(vec![])), ("map", obj(vec![]))]);
    let r = ji.transform(base, &vars, None, &vec![]).ok().unwrap();
    assert!(same(&r.get_val("code").unwrap(), &JsonValue::Number(2)));
    assert!(same(&r.get_val("name").unwrap(), &JsonValue::Str(s("helloworld"))));
    assert!(same(&r.get_val("map.code2").unwrap(), &JsonValue::Number(1)));
    assert!(same(&r.get_val("map.code1").unwrap(), &JsonValue::Number(1)));
    assert!(same(&r.get_val("list").unwrap(), &JsonValue::Array(vec![JsonValue::Number(1), JsonValue::Number(2), JsonValue::Number(3)])));
}

#[test]
fn transform_missing_quote_fails_unless_skipped() {
    let vars: Vars<()> = Vars::new();
    let ji = JsonInput::new().add_transform_quote(s("a"), s("nobody.x"));
    assert_eq!(ji.transform(obj(vec![]), &vars, None, &vec![]).err().unwrap(), InputError::Missing(s("nobody.x")));
    let ji = JsonInput::new().skip_null_quote().add_transform_quote(s("a"), s("nobody.x"));
    assert!(same(&ji.transform(obj(vec![]), &vars, None, &vec![]).ok().unwrap(), &obj(vec![])));
}

#[test]
fn transform_typed_output_tolerated_when_skipping() {
    let mut vars: Vars<i32> = Vars::new();
    vars.insert(s("t"), Output::new(5)).unwrap();
    let ji = JsonInput::new().skip_null_quote().add_transform_quote(s("a"), s("t.field"));
    assert!(same(&ji.transform(obj(vec![]), &vars, None, &vec![]).ok().unwrap(), &obj(vec![])));
}

#[test]
fn transform_formats_tokens_with_given_text() {
    let vars: Vars<()> = Vars::new();
    let ji = JsonInput::new().set_default_json(obj(vec![("greet", JsonValue::Str(s("hi ${{who}}!")))]));
    let texts = vec![(s("who"), s("\"bob\""))];
    let r = ji.transform(obj(vec![]), &vars, None, &texts).ok().unwrap();
    assert!(same(&r, &obj(vec![("greet", JsonValue::Str(s("hi \"bob\"!")))])));
}

#[test]
fn start_quotes_from_input() {
    let vars: Vars<()> = Vars::new();
    let ji = JsonInput::new().add_transform_quote(s("query"), s("query"));
    let input = obj(vec![("query", JsonValue::Str(s("q"))), ("other", JsonValue::Number(1))]);
    let r = Start::input(ji, Some(input), &vars, &vec![]).ok().unwrap();
    assert!(same(&r, &obj(vec![("query", JsonValue::Str(s("q")))])));
}

#[test]
fn batch_sub_input() {
    let ji = Batch::make_sub_input_from_format(obj(vec![("a", JsonValue::Null)]), 3, JsonValue::Number(7));
    let vars: Vars<()> = Vars::new();
    let r = ji.transform(obj(vec![]), &vars, None, &vec![]).ok().unwrap();
    assert!(same(&r, &obj(vec![("a", JsonValue::Null), ("input", JsonValue::Number(7)), ("index", JsonValue::Number(3))])));
}

#[test]
fn workflow_plan_choice() {
    let w = Workflow::new();
    let _ = w;
    assert_eq!(Workflow::plan_for(WorkflowPlan::Nil, s("wf")).err().unwrap(), WorkflowError::PlanNil(s("wf")));
    assert_eq!(Workflow::plan_for(WorkflowPlan::Graph, s("wf")).err().unwrap(), WorkflowError::GraphUnsupported(s("wf")));
    assert!(Workflow::plan_for(WorkflowPlan::Dag(Dag::new()), s("wf")).is_ok());
}

#[test]
fn error_messages() {
    assert_eq!(Error::ServiceNotFound(s("x")).message(), "Service[x] not found");
    assert_eq!(Error::NodeEntityNotFound(s("n")).message(), "Node Service Entity [n] not found");
}

#[test]
fn batch_runs_at_most_max_at_once() {
    let mut b = BatchRun::new(10, 3);
    let mut in_flight: Vec<usize> = vec![];
    let mut peak = 0;
    while !b.done() {
        while b.can_launch() {
            in_flight.push(b.launch());
        }
        peak = peak.max(b.running);
        let i = in_flight.remove(0);
        b.finish(i, Ok(JsonValue::Number(i as i64 + 1)));
    }
    assert_eq!(peak, 3);
    let out = b.result().ok().unwrap();
    let expect: Vec<JsonValue> = (1..=10).map(JsonValue::Number).collect();
    assert!(out.iter().zip(expect.iter()).all(|(a, b)| same(a, b)));
    assert_eq!(out.len(), 10);
}

#[test]
fn batch_zero_parallelism_means_one_and_errors_stop() {
    let mut b = BatchRun::new(3, 0);
    assert_eq!(b.max, 1);
    let i = b.launch();
    assert!(!b.can_launch());
    b.finish(i, Err(s("bad")));
    assert!(!b.can_launch());
    assert!(b.done());
    assert_eq!(b.result().err().unwrap(), (0, s("bad")));
}

#[test]
fn transform_error_kinds() {
    let vars: Vars<()> = Vars::new();
    let ji = JsonInput::new().add_transform_value(s("a.b"), JsonValue::Null);
    assert_eq!(
        ji.transform(obj(vec![("a", JsonValue::Number(1))]), &vars, None, &vec![]).err().unwrap(),
        InputError::Edit(flowrun::edit::EditError::NotContainer(s("b")))
    );
    let ji = JsonInput::new().add_transform_rule(s("n"), Tran::Format(vec![s("who")]));
    let texts = vec![(s("who"), s("1"))];
    assert_eq!(
        ji.transform(obj(vec![("n", JsonValue::Number(1))]), &vars, None, &texts).err().unwrap(),
        InputError::NotString(s("n"))
    );
}

#[test]
fn finish_without_success_or_error_is_unknown() {
    let mut ctx: Context<()> = Context::new();
    let plan = AnyPlan::Dag(Dag::new());
    assert!(matches!(finish_run(&mut ctx, &plan, None).err().unwrap(), Error::Unknown(_)));
    let mut ctx: Context<()> = Context::new();
    ctx.success();
    assert!(matches!(finish_run(&mut ctx, &plan, None).err().unwrap(), Error::Unknown(_)));
}
