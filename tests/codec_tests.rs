use flowrun::codec::{decode_dag, decode_graph, decode_input, encode_dag, encode_graph, encode_input};
use flowrun::graph::{Graph, GraphNode};
use flowrun::dag::{Dag, DagNode};
use flowrun::input::{JsonInput, Tran};
use flowrun::json::JsonValue;
use flowrun::plan::ServiceEntityJson;

fn s(x: &str) -> String {
    x.to_string()
}

fn sample_dag() -> Dag {
    let ji = JsonInput::new()
        .skip_null_quote()
        .set_default_json(JsonValue::Object(vec![(s("k"), JsonValue::Str(s("${{a.b}}")))]))
        .add_transform_rule(s("x"), Tran::Value(JsonValue::Number(3)))
        .add_transform_rule(s("y"), Tran::Quote(s("start.q")))
        .add_transform_rule(s("z"), Tran::Format(vec![s("a"), s("b")]));
    Dag::new()
        .nodes(vec![
            DagNode::new(s("start")).set_service_entity(ServiceEntityJson::new(s("start"), ji)),
            DagNode::new(s("end")).set_service_entity(ServiceEntityJson::new(s("end"), JsonInput::new())),
        ])
        .edge(s("start"), s("end"))
}

#[test]
fn dag_json_round_trip() {
    let d = sample_dag();
    let j = encode_dag(&d);
    let back = decode_dag(&j).expect("decodes");
    assert_eq!(back.start, d.start);
    assert_eq!(back.end, d.end);
    assert_eq!(back.node_set.len(), 2);
    assert_eq!(back.node_set[0].to, vec![s("end")]);
    assert_eq!(back.node_set[1].from, vec![s("start")]);
    let svc = back.node_set[0].service.as_ref().unwrap();
    assert_eq!(svc.service_name, "start");
    assert_eq!(svc.node_name, "start");
    assert!(svc.config.none_quote_skip);
    assert_eq!(svc.config.transform_rule.len(), 3);
    assert!(encode_dag(&back).json_eq(&j));
    assert!(back.check().is_ok());
}

#[test]
fn dag_json_shape() {
    let j = encode_dag(&sample_dag());
    assert!(j.get_val("start").unwrap().json_eq(&JsonValue::Str(s("start"))));
    assert!(j.get_val("end").unwrap().json_eq(&JsonValue::Str(s("end"))));
    match j.get_val("node_set").unwrap() {
        JsonValue::Array(l) => {
            assert_eq!(l.len(), 2);
            assert!(l[1].get_val("service.service_name").unwrap().json_eq(&JsonValue::Str(s("end"))));
            assert!(l[0].get_val("service.config.transform_rule.y.quote").unwrap().json_eq(&JsonValue::Str(s("start.q"))));
        }
        _ => panic!("node_set is a list"),
    }
}

#[test]
fn decode_rejects_bad_documents() {
    assert!(decode_dag(&JsonValue::Null).is_none());
    assert!(decode_dag(&JsonValue::Object(vec![(s("start"), JsonValue::Str(s("a")))])).is_none());
    let bad_rule = JsonValue::Object(vec![
        (s("none_quote_skip"), JsonValue::Bool(false)),
        (s("transform_rule"), JsonValue::Object(vec![(s("p"), JsonValue::Object(vec![(s("other"), JsonValue::Null)]))])),
        (s("default_json"), JsonValue::Null),
    ]);
    assert!(decode_input(&bad_rule).is_none());
    let ok = encode_input(&JsonInput::new());
    assert!(decode_input(&ok).unwrap().is_empty());
}

#[test]
fn rules_distinct_detects_duplicates() {
    let ji = JsonInput::new().add_transform_rule(s("a"), Tran::Quote(s("x")));
    assert!(ji.rules_distinct());
    let dup = JsonInput {
        none_quote_skip: false,
        transform_rule: vec![(s("a"), Tran::Quote(s("x"))), (s("a"), Tran::Quote(s("y")))],
        default_json: JsonValue::Null,
    };
    assert!(!dup.rules_distinct());
}

#[test]
fn graph_json_round_trip() {
    let mut end = GraphNode::new(s("end"), ServiceEntityJson::new(s("end"), JsonInput::new()));
    end.add_from(s("start"));
    end.in_degree = -3;
    let g = Graph::new()
        .nodes(vec![GraphNode::new(s("start"), ServiceEntityJson::new(s("start"), JsonInput::new())), end])
        .edge(s("start"), s("end"));
    let j = encode_graph(&g);
    let back = decode_graph(&j).expect("decodes");
    assert_eq!(back.start, "start");
    assert_eq!(back.node_set[1].from, vec![s("start")]);
    assert_eq!(back.node_set[1].in_degree, -3);
    assert_eq!(back.node_set[0].to, vec![s("end")]);
    assert!(encode_graph(&back).json_eq(&j));
}
