use flowrun::dag::{CheckError, Dag, DagNode};
use flowrun::graph::{Graph, GraphNode};
use flowrun::input::JsonInput;
use flowrun::plan::{NextPlan, PlanError, ServiceEntityJson};

fn s(x: &str) -> String {
    x.to_string()
}

fn dag_node(name: &str, service: &str) -> DagNode {
    DagNode::new(s(name)).set_service_entity(ServiceEntityJson::new(s(service), JsonInput::new()))
}

fn graph_node(name: &str, service: &str) -> GraphNode {
    GraphNode::new(s(name), ServiceEntityJson::new(s(service), JsonInput::new()))
}

fn edges(list: &[(&str, &str)]) -> Vec<(String, String)> {
    list.iter().map(|(a, b)| (s(a), s(b))).collect()
}

fn ready_names(p: NextPlan) -> Vec<String> {
    match p {
        NextPlan::Nodes(v) => v.into_iter().map(|x| x.node_name).collect(),
        other => panic!("expected nodes, got {:?}", other),
    }
}

#[test]
fn test_dag() {
    // Every node is declared with an empty service: validation rejects it,
    // since each node must name its service.
    let dag = Dag::new()
        .node(dag_node("start", ""))
        .node(dag_node("A", ""))
        .node(dag_node("B", ""))
        .node(dag_node("C", ""))
        .nodes(vec![dag_node("D", ""), dag_node("E", ""), dag_node("F", "")])
        .nodes(vec![dag_node("end", "")])
        .edge(s("start"), s("A"))
        .edge(s("start"), s("B"))
        .edge(s("start"), s("C"))
        .edges(edges(&[("A", "D"), ("B", "D"), ("C", "D")]))
        .edges(edges(&[("D", "E"), ("D", "F")]))
        .edges(edges(&[("E", "end"), ("F", "end")]));
    assert_eq!(dag.start_node_name(), "start");
    assert_eq!(dag.end_node_name(), "end");
    match dag.check() {
        Err(CheckError::ServiceNameEmpty(_)) => {}
        other => panic!("unexpected {:?}", other.map(|d| d.start)),
    }
}

#[test]
fn test_graph() {
    let graph = Graph::new()
        .node(graph_node("start", "start"))
        .node(graph_node("A", "a"))
        .node(graph_node("B", "b"))
        .node(graph_node("C", "c"))
        .nodes(vec![graph_node("D", "d"), graph_node("E", "e"), graph_node("F", "f")])
        .nodes(vec![graph_node("end", "end")])
        .edge(s("start"), s("A"))
        .edge(s("start"), s("B"))
        .edge(s("start"), s("C"))
        .edges(edges(&[("A", "D"), ("B", "D"), ("C", "D")]))
        .edges(edges(&[("D", "E"), ("D", "F")]))
        .edges(edges(&[("E", "end"), ("F", "end")]))
        .check()
        .expect("dag check failed");
    assert_eq!(graph.start_node_name(), "start");
    assert_eq!(graph.end_node_name(), "end");
}

fn diamond_dag() -> Dag {
    Dag::new()
        .nodes(vec![
            dag_node("start", "start"),
            dag_node("m1", "m"),
            dag_node("m2", "m"),
            dag_node("end", "end"),
        ])
        .edges(edges(&[("start", "m1"), ("start", "m2"), ("m1", "end"), ("m2", "end")]))
}

#[test]
fn dag_valid_diamond_passes_check() {
    let d = diamond_dag().check().expect("valid");
    assert_eq!(d.node_set.len(), 4);
}

#[test]
fn dag_join_runs_once_after_all_predecessors() {
    let mut d = diamond_dag().check().expect("valid");
    let start = d.get(&s("start")).expect("start service");
    assert_eq!(start.service_name, "start");
    assert!(d.get(&s("start")).is_none(), "a DAG hands a service out once");
    let first = ready_names(d.next(&s("start")).unwrap());
    assert_eq!(first, vec![s("m1"), s("m2")]);
    let after_m1 = ready_names(d.next(&s("m1")).unwrap());
    assert!(after_m1.is_empty(), "the join waits for m2");
    let after_m2 = ready_names(d.next(&s("m2")).unwrap());
    assert_eq!(after_m2, vec![s("end")]);
    assert!(matches!(d.next(&s("end")).unwrap(), NextPlan::End));
}

#[test]
fn dag_next_missing_node() {
    let mut d = diamond_dag();
    assert_eq!(d.next(&s("nope")).unwrap_err(), PlanError::NodeNotFound(s("nope")));
}

#[test]
fn dag_check_reports_start_missing() {
    let d = diamond_dag().set_start_node_name(s("begin"));
    assert_eq!(d.check().unwrap_err(), CheckError::StartNotFound(s("begin")));
}

#[test]
fn dag_check_reports_end_missing() {
    let d = diamond_dag().set_end_node_name(s("finish"));
    assert_eq!(d.check().unwrap_err(), CheckError::EndNotFound(s("finish")));
}

#[test]
fn dag_check_reports_mismatched_edge() {
    let mut d = diamond_dag();
    // m1 no longer lists end as successor, but end still lists m1.
    d.set_to(&s("m1"), vec![s("m2")]);
    assert!(d.check().is_err());
}

#[test]
fn dag_edge_tracks_start_and_end() {
    let d = Dag::new().edge(s("a"), s("b")).edge(s("b"), s("c"));
    assert_eq!(d.start, "a");
    assert_eq!(d.end, "c");
    assert_eq!(d.node_set.len(), 3);
    assert!(d.node_set[1].have_from(&s("a")));
    assert!(d.node_set[1].have_to(&s("c")));
}

#[test]
fn dag_node_add_from_is_unique() {
    let mut n = DagNode::new(s("x"));
    n.add_from(s("a"));
    n.add_from(s("a"));
    n.add_to(s("b"));
    n.add_to(s("b"));
    assert_eq!(n.from, vec![s("a")]);
    assert_eq!(n.to, vec![s("b")]);
}

fn select_graph() -> Graph {
    Graph::new()
        .nodes(vec![
            graph_node("start", "start"),
            graph_node("select", "flow_select"),
            graph_node("A", "add"),
            graph_node("B", "add"),
            graph_node("end", "end"),
        ])
        .edges(edges(&[("start", "select"), ("select", "A"), ("select", "B"), ("A", "end"), ("B", "end")]))
}

#[test]
fn graph_conditional_rewrite_routes_one_branch() {
    let mut g = select_graph().check().expect("valid");
    assert_eq!(ready_names(g.next(&s("start")).unwrap()), vec![s("select")]);
    g.set_to(&s("select"), vec![s("A")]);
    assert_eq!(ready_names(g.next(&s("select")).unwrap()), vec![s("A")]);
    assert_eq!(ready_names(g.next(&s("A")).unwrap()), vec![s("end")]);
    assert!(matches!(g.next(&s("end")).unwrap(), NextPlan::End));
}

#[test]
fn graph_rewrite_to_nothing_yields_no_successor() {
    let mut g = select_graph().check().expect("valid");
    g.set_to(&s("select"), vec![]);
    assert!(ready_names(g.next(&s("select")).unwrap()).is_empty());
}

#[test]
fn graph_declared_predecessors_join() {
    let mut end = graph_node("end", "end");
    end.add_from(s("A"));
    end.add_from(s("B"));
    let mut g = Graph::new()
        .nodes(vec![graph_node("start", "start"), graph_node("A", "a"), graph_node("B", "b"), end])
        .edges(edges(&[("start", "A"), ("start", "B"), ("A", "end"), ("B", "end")]))
        .check()
        .expect("valid");
    assert_eq!(ready_names(g.next(&s("start")).unwrap()), vec![s("A"), s("B")]);
    assert!(ready_names(g.next(&s("A")).unwrap()).is_empty());
    assert_eq!(ready_names(g.next(&s("B")).unwrap()), vec![s("end")]);
}

#[test]
fn graph_check_rejects_dead_end() {
    let g = Graph::new()
        .nodes(vec![graph_node("start", "start"), graph_node("x", "x"), graph_node("end", "end")])
        .edges(edges(&[("start", "x"), ("start", "end")]));
    assert_eq!(g.check().unwrap_err(), CheckError::NoTo(s("x")));
}

#[test]
fn graph_check_rejects_missing_successor() {
    let mut g = Graph::new()
        .nodes(vec![graph_node("start", "start"), graph_node("end", "end")])
        .edges(edges(&[("start", "end")]));
    g.set_to(&s("start"), vec![s("ghost")]);
    assert_eq!(g.check().unwrap_err(), CheckError::ToNotFound(s("start"), s("ghost")));
}

#[test]
fn graph_check_rejects_unnamed_service() {
    let g = Graph::new().edges(edges(&[("start", "end")]));
    assert_eq!(g.check().unwrap_err(), CheckError::ServiceNameEmpty(s("start")));
}

#[test]
fn graph_get_service_entity_copies() {
    let g = select_graph();
    let a = g.get_service_entity(&s("A")).unwrap();
    let b = g.get_service_entity(&s("A")).unwrap();
    assert_eq!(a.service_name, "add");
    assert_eq!(a.node_name, "A");
    assert_eq!(b.node_name, "A");
    assert!(g.get_service_entity(&s("Z")).is_none());
}

#[test]
fn dag_check_error_kinds() {
    // a node without a service
    let d = Dag::new().nodes(vec![dag_node("start", "s"), dag_node("end", "e")]).edge(s("start"), s("end")).node(DagNode::new(s("end")).set_from(vec![s("start")]));
    assert_eq!(d.check().unwrap_err(), CheckError::ServiceMissing(s("end")));
    // a service without a node name
    let mut bare = DagNode::new(s("end")).set_from(vec![s("start")]);
    bare.service = Some(ServiceEntityJson::new(s("e"), JsonInput::new()));
    let d = Dag::new().nodes(vec![dag_node("start", "s")]).edge(s("start"), s("end")).node(bare);
    assert_eq!(d.check().unwrap_err(), CheckError::ServiceNodeEmpty(s("end")));
    // the start has a predecessor
    let mut d = diamond_dag();
    d.node_set[0].add_from(s("m1"));
    assert_eq!(d.check().unwrap_err(), CheckError::StartHasFrom(s("start")));
    // a middle node without predecessor
    let mut d = diamond_dag().node(dag_node("lone", "l").set_to(vec![s("end")]));
    d.node_set[3].add_from(s("lone"));
    assert_eq!(d.check().unwrap_err(), CheckError::NoFrom(s("lone")));
    // a predecessor that is not a node
    let mut d = diamond_dag().node(dag_node("lone", "l").set_from(vec![s("ghost")]).set_to(vec![s("end")]));
    d.node_set[3].add_from(s("lone"));
    assert_eq!(d.check().unwrap_err(), CheckError::FromNotFound(s("lone"), s("ghost")));
    // a predecessor that does not list the node
    let mut d = diamond_dag().node(dag_node("lone", "l").set_from(vec![s("m1")]).set_to(vec![s("end")]));
    d.node_set[3].add_from(s("lone"));
    assert_eq!(d.check().unwrap_err(), CheckError::FromEdgeMissing(s("lone"), s("m1")));
    // the end has a successor
    let mut d = diamond_dag();
    d.node_set[3].add_to(s("m1"));
    assert_eq!(d.check().unwrap_err(), CheckError::EndHasTo(s("end")));
    // a middle node without successor
    let d = diamond_dag().node(dag_node("m1", "m").set_from(vec![s("start")]));
    assert_eq!(d.check().unwrap_err(), CheckError::NoTo(s("m1")));
    // a successor that is not a node
    let d = diamond_dag().node(dag_node("m1", "m").set_from(vec![s("start")]).set_to(vec![s("ghost")]));
    assert_eq!(d.check().unwrap_err(), CheckError::ToNotFound(s("m1"), s("ghost")));
    // a successor that does not list the node
    let d = diamond_dag().node(dag_node("m1", "m").set_from(vec![s("start")]).set_to(vec![s("m2")]));
    assert_eq!(d.check().unwrap_err(), CheckError::ToEdgeMissing(s("m1"), s("m2")));
}

#[test]
fn graph_check_from_errors() {
    let mut end = graph_node("end", "end");
    end.add_from(s("ghost"));
    let g = Graph::new().nodes(vec![graph_node("start", "start"), end]).edges(edges(&[("start", "end")]));
    assert_eq!(g.check().unwrap_err(), CheckError::FromNotFound(s("end"), s("ghost")));
    let mut end = graph_node("end", "end");
    end.add_from(s("x"));
    let g = Graph::new()
        .nodes(vec![graph_node("start", "start"), graph_node("x", "x"), end])
        .edges(edges(&[("start", "x"), ("x", "start"), ("start", "end")]));
    assert_eq!(g.check().unwrap_err(), CheckError::FromEdgeMissing(s("end"), s("x")));
}
