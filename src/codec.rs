use vstd::prelude::*;

use crate::dag::{Dag, DagModel, DagNode, DagNodeModel};
use crate::graph::{Graph, GraphModel, GraphNode, GraphNodeModel};
use crate::input::{JsonInput, JsonInputModel, Tran, TranModel};
use crate::json::{
    find_key, key_at, lemma_key_at_unique, lemma_view_entries, lemma_view_items, obj_get, view_entries,
    view_items, Json, JsonValue,
};
use crate::plan::{names, ServiceEntityJson, ServiceModel};

verus! {

pub open spec fn k_start() -> Seq<char> {
    seq!['s', 't', 'a', 'r', 't']
}

pub open spec fn k_end() -> Seq<char> {
    seq!['e', 'n', 'd']
}

pub open spec fn k_node_set() -> Seq<char> {
    seq!['n', 'o', 'd', 'e', '_', 's', 'e', 't']
}

pub open spec fn k_node_name() -> Seq<char> {
    seq!['n', 'o', 'd', 'e', '_', 'n', 'a', 'm', 'e']
}

pub open spec fn k_from() -> Seq<char> {
    seq!['f', 'r', 'o', 'm']
}

pub open spec fn k_to() -> Seq<char> {
    seq!['t', 'o']
}

pub open spec fn k_service() -> Seq<char> {
    seq!['s', 'e', 'r', 'v', 'i', 'c', 'e']
}

pub open spec fn k_service_name() -> Seq<char> {
    seq!['s', 'e', 'r', 'v', 'i', 'c', 'e', '_', 'n', 'a', 'm', 'e']
}

pub open spec fn k_config() -> Seq<char> {
    seq!['c', 'o', 'n', 'f', 'i', 'g']
}

pub open spec fn k_skip() -> Seq<char> {
    seq!['n', 'o', 'n', 'e', '_', 'q', 'u', 'o', 't', 'e', '_', 's', 'k', 'i', 'p']
}

pub open spec fn k_rules() -> Seq<char> {
    seq!['t', 'r', 'a', 'n', 's', 'f', 'o', 'r', 'm', '_', 'r', 'u', 'l', 'e']
}

pub open spec fn k_default() -> Seq<char> {
    seq!['d', 'e', 'f', 'a', 'u', 'l', 't', '_', 'j', 's', 'o', 'n']
}

pub open spec fn k_value() -> Seq<char> {
    seq!['v', 'a', 'l', 'u', 'e']
}

pub open spec fn k_quote() -> Seq<char> {
    seq!['q', 'u', 'o', 't', 'e']
}

pub open spec fn k_format() -> Seq<char> {
    seq!['f', 'o', 'r', 'm', 'a', 't']
}

/// A list of names as a JSON list of strings.
pub open spec fn enc_strs(s: Seq<Seq<char>>) -> Json {
    Json::Array(s.map_values(|x: Seq<char>| Json::Str(x)))
}

pub open spec fn dec_strs(j: Json) -> Option<Seq<Seq<char>>> {
    match j {
        Json::Array(l) => if forall|i: int| 0 <= i < l.len() ==> (#[trigger] l[i]) is Str {
            Some(l.map_values(|x: Json| x->Str_0))
        } else {
            None
        },
        _ => None,
    }
}

/// A rule as a one-field object: `value`, `quote` or `format`.
pub open spec fn enc_tran(t: TranModel) -> Json {
    match t {
        TranModel::Value(v) => Json::Object(seq![(k_value(), v)]),
        TranModel::Quote(q) => Json::Object(seq![(k_quote(), Json::Str(q))]),
        TranModel::Format(l) => Json::Object(seq![(k_format(), enc_strs(l))]),
    }
}

pub open spec fn dec_tran(j: Json) -> Option<TranModel> {
    match j {
        Json::Object(es) => if es.len() != 1 {
            None
        } else if es[0].0 == k_value() {
            Some(TranModel::Value(es[0].1))
        } else if es[0].0 == k_quote() {
            match es[0].1 {
                Json::Str(q) => Some(TranModel::Quote(q)),
                _ => None,
            }
        } else if es[0].0 == k_format() {
            match dec_strs(es[0].1) {
                Some(l) => Some(TranModel::Format(l)),
                None => None,
            }
        } else {
            None
        },
        _ => None,
    }
}

/// The rules as an object from position to rule.
pub open spec fn enc_rules(rs: Seq<(Seq<char>, TranModel)>) -> Json {
    Json::Object(rs.map_values(|e: (Seq<char>, TranModel)| (e.0, enc_tran(e.1))))
}

pub open spec fn dec_rules(j: Json) -> Option<Seq<(Seq<char>, TranModel)>> {
    match j {
        Json::Object(es) => if forall|i: int| 0 <= i < es.len() ==> dec_tran(#[trigger] es[i].1) is Some {
            Some(es.map_values(|e: (Seq<char>, Json)| (e.0, dec_tran(e.1)->Some_0)))
        } else {
            None
        },
        _ => None,
    }
}

pub open spec fn enc_input(m: JsonInputModel) -> Json {
    Json::Object(seq![(k_skip(), Json::Bool(m.0)), (k_rules(), enc_rules(m.1)), (k_default(), m.2)])
}

pub open spec fn dec_input(j: Json) -> Option<JsonInputModel> {
    match j {
        Json::Object(es) => match (obj_get(es, k_skip()), obj_get(es, k_rules()), obj_get(es, k_default())) {
            (Some(Json::Bool(b)), Some(r), Some(d)) => match dec_rules(r) {
                Some(rs) => Some((b, rs, d)),
                None => None,
            },
            _ => None,
        },
        _ => None,
    }
}

pub open spec fn enc_service(s: ServiceModel) -> Json {
    Json::Object(
        seq![(k_service_name(), Json::Str(s.0)), (k_node_name(), Json::Str(s.1)), (k_config(), enc_input(s.2))],
    )
}

pub open spec fn dec_service(j: Json) -> Option<ServiceModel> {
    match j {
        Json::Object(es) => match (
            obj_get(es, k_service_name()),
            obj_get(es, k_node_name()),
            obj_get(es, k_config()),
        ) {
            (Some(Json::Str(a)), Some(Json::Str(b)), Some(c)) => match dec_input(c) {
                Some(m) => Some((a, b, m)),
                None => None,
            },
            _ => None,
        },
        _ => None,
    }
}

pub open spec fn enc_opt_service(s: Option<ServiceModel>) -> Json {
    match s {
        Some(s) => enc_service(s),
        None => Json::Null,
    }
}

/// A DAG node as `{node_name, from, to, service}`; a node without a service
/// has `service: null`.
pub open spec fn enc_node(n: DagNodeModel) -> Json {
    Json::Object(
        seq![
            (k_node_name(), Json::Str(n.name)),
            (k_from(), enc_strs(n.from)),
            (k_to(), enc_strs(n.to)),
            (k_service(), enc_opt_service(n.service)),
        ],
    )
}

pub open spec fn dec_node(j: Json) -> Option<DagNodeModel> {
    match j {
        Json::Object(es) => match (
            obj_get(es, k_node_name()),
            obj_get(es, k_from()),
            obj_get(es, k_to()),
            obj_get(es, k_service()),
        ) {
            (Some(Json::Str(name)), Some(f), Some(t), Some(s)) => match (dec_strs(f), dec_strs(t)) {
                (Some(from), Some(to)) => if s is Null {
                    Some(DagNodeModel { name, from, to, service: None })
                } else {
                    match dec_service(s) {
                        Some(sv) => Some(DagNodeModel { name, from, to, service: Some(sv) }),
                        None => None,
                    }
                },
                _ => None,
            },
            _ => None,
        },
        _ => None,
    }
}

/// A DAG plan as `{start, end, node_set}`.
pub open spec fn enc_dag(d: DagModel) -> Json {
    Json::Object(
        seq![
            (k_start(), Json::Str(d.start)),
            (k_end(), Json::Str(d.end)),
            (k_node_set(), Json::Array(d.nodes.map_values(|n: DagNodeModel| enc_node(n)))),
        ],
    )
}

pub open spec fn dec_dag(j: Json) -> Option<DagModel> {
    match j {
        Json::Object(es) => match (obj_get(es, k_start()), obj_get(es, k_end()), obj_get(es, k_node_set())) {
            (Some(Json::Str(start)), Some(Json::Str(end)), Some(Json::Array(l))) => if forall|i: int|
                0 <= i < l.len() ==> dec_node(#[trigger] l[i]) is Some {
                Some(DagModel { start, end, nodes: l.map_values(|x: Json| dec_node(x)->Some_0) })
            } else {
                None
            },
            _ => None,
        },
        _ => None,
    }
}

pub proof fn lemma_get_first(es: Seq<(Seq<char>, Json)>, i: int, k: Seq<char>)
    requires
        0 <= i < es.len(),
        es[i].0 == k,
        forall|j: int| 0 <= j < i ==> es[j].0 != k,
    ensures
        obj_get(es, k) == Some(es[i].1),
{
    assert(key_at(es, k, i));
    let m = choose|m: int| key_at(es, k, m);
    lemma_key_at_unique(es, k, i, m);
}

pub proof fn lemma_strs_round_trip(s: Seq<Seq<char>>)
    ensures
        dec_strs(enc_strs(s)) == Some(s),
{
    let l = s.map_values(|x: Seq<char>| Json::Str(x));
    assert(l.map_values(|x: Json| x->Str_0) =~= s);
}

pub proof fn lemma_tran_round_trip(t: TranModel)
    ensures
        dec_tran(enc_tran(t)) == Some(t),
{
    assert(k_value() != k_quote()) by {
        assert(k_value()[0] != k_quote()[0]);
    }
    assert(k_value() != k_format()) by {
        assert(k_value()[0] != k_format()[0]);
    }
    assert(k_quote() != k_format()) by {
        assert(k_quote()[0] != k_format()[0]);
    }
    match t {
        TranModel::Format(l) => lemma_strs_round_trip(l),
        _ => {},
    }
}

pub proof fn lemma_rules_round_trip(rs: Seq<(Seq<char>, TranModel)>)
    ensures
        dec_rules(enc_rules(rs)) == Some(rs),
{
    let es = rs.map_values(|e: (Seq<char>, TranModel)| (e.0, enc_tran(e.1)));
    assert forall|i: int| 0 <= i < es.len() implies dec_tran(#[trigger] es[i].1) is Some by {
        lemma_tran_round_trip(rs[i].1);
    }
    assert forall|i: int| 0 <= i < es.len() implies es.map_values(
        |e: (Seq<char>, Json)| (e.0, dec_tran(e.1)->Some_0),
    )[i] == rs[i] by {
        lemma_tran_round_trip(rs[i].1);
    }
    assert(es.map_values(|e: (Seq<char>, Json)| (e.0, dec_tran(e.1)->Some_0)) =~= rs);
}

pub proof fn lemma_input_round_trip(m: JsonInputModel)
    ensures
        dec_input(enc_input(m)) == Some(m),
{
    let es = seq![(k_skip(), Json::Bool(m.0)), (k_rules(), enc_rules(m.1)), (k_default(), m.2)];
    assert(k_skip() != k_rules() && k_skip() != k_default() && k_rules() != k_default()) by {
        assert(k_skip()[0] != k_rules()[0]);
        assert(k_skip()[0] != k_default()[0]);
        assert(k_rules()[0] != k_default()[0]);
    }
    lemma_get_first(es, 0, k_skip());
    lemma_get_first(es, 1, k_rules());
    lemma_get_first(es, 2, k_default());
    lemma_rules_round_trip(m.1);
}

pub proof fn lemma_service_round_trip(s: ServiceModel)
    ensures
        dec_service(enc_service(s)) == Some(s),
{
    let es = seq![(k_service_name(), Json::Str(s.0)), (k_node_name(), Json::Str(s.1)), (k_config(), enc_input(s.2))];
    assert(k_service_name() != k_node_name() && k_service_name() != k_config() && k_node_name() != k_config()) by {
        assert(k_service_name()[0] != k_node_name()[0]);
        assert(k_service_name()[0] != k_config()[0]);
        assert(k_node_name()[0] != k_config()[0]);
    }
    lemma_get_first(es, 0, k_service_name());
    lemma_get_first(es, 1, k_node_name());
    lemma_get_first(es, 2, k_config());
    lemma_input_round_trip(s.2);
}

pub proof fn lemma_node_round_trip(n: DagNodeModel)
    ensures
        dec_node(enc_node(n)) == Some(n),
{
    let sv = enc_opt_service(n.service);
    let es = seq![
        (k_node_name(), Json::Str(n.name)),
        (k_from(), enc_strs(n.from)),
        (k_to(), enc_strs(n.to)),
        (k_service(), sv),
    ];
    assert(k_node_name() != k_from() && k_node_name() != k_to() && k_node_name() != k_service()) by {
        assert(k_node_name()[0] != k_from()[0]);
        assert(k_node_name()[0] != k_to()[0]);
        assert(k_node_name()[0] != k_service()[0]);
    }
    assert(k_from() != k_to() && k_from() != k_service() && k_to() != k_service()) by {
        assert(k_from()[0] != k_to()[0]);
        assert(k_from()[0] != k_service()[0]);
        assert(k_to()[0] != k_service()[0]);
    }
    lemma_get_first(es, 0, k_node_name());
    lemma_get_first(es, 1, k_from());
    lemma_get_first(es, 2, k_to());
    lemma_get_first(es, 3, k_service());
    lemma_strs_round_trip(n.from);
    lemma_strs_round_trip(n.to);
    match n.service {
        Some(s) => {
            lemma_service_round_trip(s);
            assert(sv == enc_service(s));
            assert(!(sv is Null));
            assert(dec_service(sv) == Some(s));

        },
        None => {},
    }
}

/// Writing a DAG plan as a JSON document and reading it back gives the same
/// plan: the same start and end, and the same nodes in the same order with
/// the same edges, services and input rules.
pub proof fn lemma_dag_round_trip(d: DagModel)
    ensures
        dec_dag(enc_dag(d)) == Some(d),
{
    let l = d.nodes.map_values(|n: DagNodeModel| enc_node(n));
    let es = seq![(k_start(), Json::Str(d.start)), (k_end(), Json::Str(d.end)), (k_node_set(), Json::Array(l))];
    assert(k_start() != k_end() && k_start() != k_node_set() && k_end() != k_node_set()) by {
        assert(k_start()[0] != k_end()[0]);
        assert(k_start()[0] != k_node_set()[0]);
        assert(k_end()[0] != k_node_set()[0]);
    }
    lemma_get_first(es, 0, k_start());
    lemma_get_first(es, 1, k_end());
    lemma_get_first(es, 2, k_node_set());
    assert forall|i: int| 0 <= i < l.len() implies dec_node(#[trigger] l[i]) is Some by {
        lemma_node_round_trip(d.nodes[i]);
    }
    assert forall|i: int| 0 <= i < l.len() implies l.map_values(|x: Json| dec_node(x)->Some_0)[i]
        == d.nodes[i] by {
        lemma_node_round_trip(d.nodes[i]);
    }
    assert(l.map_values(|x: Json| dec_node(x)->Some_0) =~= d.nodes);
}

/// An object of the given entries.
fn obj_of(entries: Vec<(String, JsonValue)>) -> (r: JsonValue)
    ensures
        r@ == Json::Object(view_entries(entries@)),
{
    JsonValue::Object(entries)
}

proof fn lemma_entries3(a: (String, JsonValue), b: (String, JsonValue), c: (String, JsonValue))
    ensures
        view_entries(seq![a, b, c]) == seq![(a.0@, a.1@), (b.0@, b.1@), (c.0@, c.1@)],
{
    lemma_view_entries(seq![a, b, c]);
    assert(view_entries(seq![a, b, c]) =~= seq![(a.0@, a.1@), (b.0@, b.1@), (c.0@, c.1@)]);
}

proof fn lemma_entries4(a: (String, JsonValue), b: (String, JsonValue), c: (String, JsonValue), d: (String, JsonValue))
    ensures
        view_entries(seq![a, b, c, d]) == seq![(a.0@, a.1@), (b.0@, b.1@), (c.0@, c.1@), (d.0@, d.1@)],
{
    lemma_view_entries(seq![a, b, c, d]);
    assert(view_entries(seq![a, b, c, d]) =~= seq![(a.0@, a.1@), (b.0@, b.1@), (c.0@, c.1@), (d.0@, d.1@)]);
}

/// A list of names as a JSON list of strings.
pub fn encode_strs(s: &Vec<String>) -> (r: JsonValue)
    ensures
        r@ == enc_strs(names(s@)),
{
    let mut out: Vec<JsonValue> = Vec::new();
    let mut i: usize = 0;
    while i < s.len()
        invariant
            i <= s.len(),
            out@.len() == i,
            forall|j: int| 0 <= j < i ==> #[trigger] out@[j]@ == Json::Str(s@[j]@),
        decreases s.len() - i,
    {
        out.push(JsonValue::Str(s[i].clone()));
        i = i + 1;
    }
    proof {
        lemma_view_items(out@);
        assert forall|j: int| 0 <= j < out@.len() implies #[trigger] view_items(out@)[j]
            == names(s@).map_values(|x: Seq<char>| Json::Str(x))[j] by {
            assert(out@[j]@ == Json::Str(s@[j]@));
        }
        assert(view_items(out@) =~= names(s@).map_values(|x: Seq<char>| Json::Str(x)));
    }
    JsonValue::Array(out)
}

fn one_entry(k: String, v: JsonValue) -> (r: JsonValue)
    ensures
        r@ == Json::Object(seq![(k@, v@)]),
{
    let mut es: Vec<(String, JsonValue)> = Vec::new();
    es.push((k, v));
    proof {
        lemma_view_entries(es@);
        assert(view_entries(es@) =~= seq![(k@, v@)]);
    }
    JsonValue::Object(es)
}

pub fn encode_tran(t: &Tran) -> (r: JsonValue)
    ensures
        r@ == enc_tran(t@),
{
    proof {
        reveal_strlit("value");
        reveal_strlit("quote");
        reveal_strlit("format");
    }
    match t {
        Tran::Value(v) => {
            let k = String::from_str("value");
            assert(k@ =~= k_value());
            one_entry(k, v.deep_clone())
        },
        Tran::Quote(q) => {
            let k = String::from_str("quote");
            assert(k@ =~= k_quote());
            one_entry(k, JsonValue::Str(q.clone()))
        },
        Tran::Format(l) => {
            let k = String::from_str("format");
            assert(k@ =~= k_format());
            one_entry(k, encode_strs(l))
        },
    }
}

pub fn encode_rules(rs: &Vec<(String, Tran)>) -> (r: JsonValue)
    ensures
        r@ == enc_rules(rs@.map_values(|e: (String, Tran)| (e.0@, e.1@))),
{
    let mut out: Vec<(String, JsonValue)> = Vec::new();
    let mut i: usize = 0;
    while i < rs.len()
        invariant
            i <= rs.len(),
            out@.len() == i,
            forall|j: int| 0 <= j < i ==> #[trigger] out@[j].0@ == rs@[j].0@ && out@[j].1@ == enc_tran(rs@[j].1@),
        decreases rs.len() - i,
    {
        let k = rs[i].0.clone();
        let v = encode_tran(&rs[i].1);
        out.push((k, v));
        i = i + 1;
    }
    proof {
        lemma_view_entries(out@);
        assert(view_entries(out@) =~= rs@.map_values(|e: (String, Tran)| (e.0@, e.1@)).map_values(
            |e: (Seq<char>, TranModel)| (e.0, enc_tran(e.1)),
        ));
    }
    JsonValue::Object(out)
}

pub fn encode_input(ji: &JsonInput) -> (r: JsonValue)
    ensures
        r@ == enc_input(ji@),
{
    proof {
        reveal_strlit("none_quote_skip");
        reveal_strlit("transform_rule");
        reveal_strlit("default_json");
    }
    let a = (String::from_str("none_quote_skip"), JsonValue::Bool(ji.none_quote_skip));
    let b = (String::from_str("transform_rule"), encode_rules(&ji.transform_rule));
    let c = (String::from_str("default_json"), ji.default_json.deep_clone());
    assert(a.0@ =~= k_skip());
    assert(b.0@ =~= k_rules());
    assert(c.0@ =~= k_default());
    let v = vec![a, b, c];
    proof {
        lemma_entries3(a, b, c);
        assert(v@ =~= seq![a, b, c]);
    }
    obj_of(v)
}

pub fn encode_service(s: &ServiceEntityJson) -> (r: JsonValue)
    ensures
        r@ == enc_service(s@),
{
    proof {
        reveal_strlit("service_name");
        reveal_strlit("node_name");
        reveal_strlit("config");
    }
    let a = (String::from_str("service_name"), JsonValue::Str(s.service_name.clone()));
    let b = (String::from_str("node_name"), JsonValue::Str(s.node_name.clone()));
    let c = (String::from_str("config"), encode_input(&s.config));
    assert(a.0@ =~= k_service_name());
    assert(b.0@ =~= k_node_name());
    assert(c.0@ =~= k_config());
    let v = vec![a, b, c];
    proof {
        lemma_entries3(a, b, c);
        assert(v@ =~= seq![a, b, c]);
    }
    obj_of(v)
}

pub fn encode_node(n: &DagNode) -> (r: JsonValue)
    ensures
        r@ == enc_node(n@),
{
    proof {
        reveal_strlit("node_name");
        reveal_strlit("from");
        reveal_strlit("to");
        reveal_strlit("service");
    }
    let a = (String::from_str("node_name"), JsonValue::Str(n.node_name.clone()));
    let b = (String::from_str("from"), encode_strs(&n.from));
    let c = (String::from_str("to"), encode_strs(&n.to));
    let sv = match &n.service {
        Some(s) => encode_service(s),
        None => JsonValue::Null,
    };
    let d = (String::from_str("service"), sv);
    assert(a.0@ =~= k_node_name());
    assert(b.0@ =~= k_from());
    assert(c.0@ =~= k_to());
    assert(d.0@ =~= k_service());
    let v = vec![a, b, c, d];
    proof {
        lemma_entries4(a, b, c, d);
        assert(v@ =~= seq![a, b, c, d]);
    }
    obj_of(v)
}

/// The plan as a JSON document `{start, end, node_set}`.
pub fn encode_dag(d: &Dag) -> (r: JsonValue)
    ensures
        r@ == enc_dag(d@),
{
    proof {
        reveal_strlit("start");
        reveal_strlit("end");
        reveal_strlit("node_set");
    }
    let mut l: Vec<JsonValue> = Vec::new();
    let mut i: usize = 0;
    while i < d.node_set.len()
        invariant
            i <= d.node_set.len(),
            l@.len() == i,
            forall|j: int| 0 <= j < i ==> #[trigger] l@[j]@ == enc_node(d.node_set@[j]@),
        decreases d.node_set.len() - i,
    {
        l.push(encode_node(&d.node_set[i]));
        i = i + 1;
    }
    proof {
        lemma_view_items(l@);
        assert forall|j: int| 0 <= j < l@.len() implies #[trigger] view_items(l@)[j]
            == d@.nodes.map_values(|n: DagNodeModel| enc_node(n))[j] by {
            assert(l@[j]@ == enc_node(d.node_set@[j]@));
        }
        assert(view_items(l@) =~= d@.nodes.map_values(|n: DagNodeModel| enc_node(n)));
    }
    let a = (String::from_str("start"), JsonValue::Str(d.start.clone()));
    let b = (String::from_str("end"), JsonValue::Str(d.end.clone()));
    let c = (String::from_str("node_set"), JsonValue::Array(l));
    assert(a.0@ =~= k_start());
    assert(b.0@ =~= k_end());
    assert(c.0@ =~= k_node_set());
    let v = vec![a, b, c];
    proof {
        lemma_entries3(a, b, c);
        assert(v@ =~= seq![a, b, c]);
    }
    obj_of(v)
}

/// The value of the first entry under `k`.
fn lookup<'a>(es: &'a Vec<(String, JsonValue)>, k: &str) -> (r: Option<&'a JsonValue>)
    ensures
        match obj_get(view_entries(es@), k@) {
            Some(x) => r matches Some(v) && v@ == x,
            None => r is None,
        },
{
    proof {
        lemma_view_entries(es@);
    }
    let key = String::from_str(k);
    match find_key(es, &key) {
        None => None,
        Some(i) => {
            proof {
                let m = choose|m: int| key_at(view_entries(es@), key@, m);
                lemma_key_at_unique(view_entries(es@), key@, i as int, m);
            }
            Some(&es[i].1)
        },
    }
}

pub fn decode_strs(j: &JsonValue) -> (r: Option<Vec<String>>)
    ensures
        match dec_strs(j@) {
            Some(x) => r matches Some(v) && names(v@) == x,
            None => r is None,
        },
{
    match j {
        JsonValue::Array(l) => {
            proof {
                lemma_view_items(l@);
            }
            let mut out: Vec<String> = Vec::new();
            let mut i: usize = 0;
            while i < l.len()
                invariant
                    *j == JsonValue::Array(*l),
                    i <= l.len(),
                    out@.len() == i,
                    view_items(l@).len() == l.len(),
                    forall|m: int| 0 <= m < l.len() ==> #[trigger] view_items(l@)[m] == l@[m].view_json(),
                    forall|m: int| 0 <= m < i ==> #[trigger] view_items(l@)[m] == Json::Str(out@[m]@),
                decreases l.len() - i,
            {
                match &l[i] {
                    JsonValue::Str(x) => {
                        out.push(x.clone());
                    },
                    _ => {
                        proof {
                            assert(!(view_items(l@)[i as int] is Str));
                        }
                        return None;
                    },
                }
                i = i + 1;
            }
            proof {
                assert(names(out@) =~= view_items(l@).map_values(|x: Json| x->Str_0));
            }
            Some(out)
        },
        _ => None,
    }
}

pub fn decode_tran(j: &JsonValue) -> (r: Option<Tran>)
    ensures
        match dec_tran(j@) {
            Some(t) => r matches Some(x) && x@ == t,
            None => r is None,
        },
{
    proof {
        reveal_strlit("value");
        reveal_strlit("quote");
        reveal_strlit("format");
    }
    match j {
        JsonValue::Object(es) => {
            proof {
                lemma_view_entries(es@);
            }
            if es.len() != 1 {
                return None;
            }
            let kv = String::from_str("value");
            let kq = String::from_str("quote");
            let kf = String::from_str("format");
            assert(kv@ =~= k_value());
            assert(kq@ =~= k_quote());
            assert(kf@ =~= k_format());
            if es[0].0 == kv {
                Some(Tran::Value(es[0].1.deep_clone()))
            } else if es[0].0 == kq {
                match &es[0].1 {
                    JsonValue::Str(q) => Some(Tran::Quote(q.clone())),
                    _ => None,
                }
            } else if es[0].0 == kf {
                match decode_strs(&es[0].1) {
                    Some(l) => Some(Tran::Format(l)),
                    None => None,
                }
            } else {
                None
            }
        },
        _ => None,
    }
}

pub fn decode_rules(j: &JsonValue) -> (r: Option<Vec<(String, Tran)>>)
    ensures
        match dec_rules(j@) {
            Some(x) => r matches Some(v) && v@.map_values(|e: (String, Tran)| (e.0@, e.1@)) == x,
            None => r is None,
        },
{
    match j {
        JsonValue::Object(es) => {
            proof {
                lemma_view_entries(es@);
            }
            let ghost ves = view_entries(es@);
            let mut out: Vec<(String, Tran)> = Vec::new();
            let mut i: usize = 0;
            while i < es.len()
                invariant
                    *j == JsonValue::Object(*es),
                    i <= es.len(),
                    out@.len() == i,
                    ves == view_entries(es@),
                    ves.len() == es.len(),
                    forall|m: int| 0 <= m < es.len() ==> #[trigger] ves[m] == (es@[m].0@, es@[m].1.view_json()),
                    forall|m: int|
                        0 <= m < i ==> dec_tran(#[trigger] ves[m].1) == Some(out@[m].1@) && out@[m].0@ == ves[m].0,
                decreases es.len() - i,
            {
                match decode_tran(&es[i].1) {
                    None => {
                        proof {
                            assert(dec_tran(ves[i as int].1) is None);
                        }
                        return None;
                    },
                    Some(t) => {
                        out.push((es[i].0.clone(), t));
                    },
                }
                i = i + 1;
            }
            proof {
                assert(out@.map_values(|e: (String, Tran)| (e.0@, e.1@)) =~= ves.map_values(
                    |e: (Seq<char>, Json)| (e.0, dec_tran(e.1)->Some_0),
                ));
            }
            Some(out)
        },
        _ => None,
    }
}

pub fn decode_input(j: &JsonValue) -> (r: Option<JsonInput>)
    ensures
        match dec_input(j@) {
            Some(x) => r matches Some(v) && v@ == x,
            None => r is None,
        },
{
    proof {
        reveal_strlit("none_quote_skip");
        reveal_strlit("transform_rule");
        reveal_strlit("default_json");
        assert("none_quote_skip"@ =~= k_skip());
        assert("transform_rule"@ =~= k_rules());
        assert("default_json"@ =~= k_default());
    }
    match j {
        JsonValue::Object(es) => {
            let a = lookup(es, "none_quote_skip");
            let b = lookup(es, "transform_rule");
            let c = lookup(es, "default_json");
            match (a, b, c) {
                (Some(JsonValue::Bool(skip)), Some(rj), Some(d)) => match decode_rules(rj) {
                    Some(rules) => Some(JsonInput { none_quote_skip: *skip, transform_rule: rules, default_json: d.deep_clone() }),
                    None => None,
                },
                _ => None,
            }
        },
        _ => None,
    }
}

pub fn decode_service(j: &JsonValue) -> (r: Option<ServiceEntityJson>)
    ensures
        match dec_service(j@) {
            Some(x) => r matches Some(v) && v@ == x,
            None => r is None,
        },
{
    proof {
        reveal_strlit("service_name");
        reveal_strlit("node_name");
        reveal_strlit("config");
        assert("service_name"@ =~= k_service_name());
        assert("node_name"@ =~= k_node_name());
        assert("config"@ =~= k_config());
    }
    match j {
        JsonValue::Object(es) => {
            let a = lookup(es, "service_name");
            let b = lookup(es, "node_name");
            let c = lookup(es, "config");
            match (a, b, c) {
                (Some(JsonValue::Str(sn)), Some(JsonValue::Str(nn)), Some(cj)) => match decode_input(cj) {
                    Some(config) => Some(ServiceEntityJson { service_name: sn.clone(), node_name: nn.clone(), config }),
                    None => None,
                },
                _ => None,
            }
        },
        _ => None,
    }
}

pub fn decode_node(j: &JsonValue) -> (r: Option<DagNode>)
    ensures
        match dec_node(j@) {
            Some(x) => r matches Some(v) && v@ == x,
            None => r is None,
        },
{
    proof {
        reveal_strlit("node_name");
        reveal_strlit("from");
        reveal_strlit("to");
        reveal_strlit("service");
        assert("node_name"@ =~= k_node_name());
        assert("from"@ =~= k_from());
        assert("to"@ =~= k_to());
        assert("service"@ =~= k_service());
    }
    match j {
        JsonValue::Object(es) => {
            let a = lookup(es, "node_name");
            let b = lookup(es, "from");
            let c = lookup(es, "to");
            let d = lookup(es, "service");
            match (a, b, c, d) {
                (Some(JsonValue::Str(name)), Some(fj), Some(tj), Some(sj)) => match (decode_strs(fj), decode_strs(tj)) {
                    (Some(from), Some(to)) => match sj {
                        JsonValue::Null => Some(DagNode { node_name: name.clone(), from, to, service: None }),
                        _ => match decode_service(sj) {
                            Some(sv) => Some(DagNode { node_name: name.clone(), from, to, service: Some(sv) }),
                            None => None,
                        },
                    },
                    _ => None,
                },
                _ => None,
            }
        },
        _ => None,
    }
}

/// Reads a plan from a JSON document `{start, end, node_set}`.
pub fn decode_dag(j: &JsonValue) -> (r: Option<Dag>)
    ensures
        match dec_dag(j@) {
            Some(x) => r matches Some(v) && v@ == x,
            None => r is None,
        },
{
    proof {
        reveal_strlit("start");
        reveal_strlit("end");
        reveal_strlit("node_set");
        assert("start"@ =~= k_start());
        assert("end"@ =~= k_end());
        assert("node_set"@ =~= k_node_set());
    }
    match j {
        JsonValue::Object(es) => {
            let a = lookup(es, "start");
            let b = lookup(es, "end");
            let c = lookup(es, "node_set");
            match (a, b, c) {
                (Some(JsonValue::Str(start)), Some(JsonValue::Str(end)), Some(JsonValue::Array(l))) => {
                    proof {
                        lemma_view_items(l@);
                    }
                    let ghost vl = view_items(l@);
                    let mut nodes: Vec<DagNode> = Vec::new();
                    let mut i: usize = 0;
                    while i < l.len()
                        invariant
                            *j == JsonValue::Object(*es),
                            obj_get(view_entries(es@), k_start()) == Some(Json::Str(start@)),
                            obj_get(view_entries(es@), k_end()) == Some(Json::Str(end@)),
                            obj_get(view_entries(es@), k_node_set()) == Some(Json::Array(vl)),
                            i <= l.len(),
                            nodes@.len() == i,
                            vl == view_items(l@),
                            vl.len() == l.len(),
                            forall|m: int| 0 <= m < l.len() ==> #[trigger] vl[m] == l@[m].view_json(),
                            forall|m: int| 0 <= m < i ==> dec_node(#[trigger] vl[m]) == Some(nodes@[m]@),
                        decreases l.len() - i,
                    {
                        match decode_node(&l[i]) {
                            None => {
                                proof {
                                    assert(dec_node(vl[i as int]) is None);
                                }
                                return None;
                            },
                            Some(n) => {
                                nodes.push(n);
                            },
                        }
                        i = i + 1;
                    }
                    let d = Dag { start: start.clone(), end: end.clone(), node_set: nodes };
                    proof {
                        assert(d@.nodes =~= vl.map_values(|x: Json| dec_node(x)->Some_0));
                    }
                    Some(d)
                },
                _ => None,
            }
        },
        _ => None,
    }
}

pub open spec fn k_in_degree() -> Seq<char> {
    seq!['i', 'n', '_', 'd', 'e', 'g', 'r', 'e', 'e']
}

pub open spec fn k_from_completed() -> Seq<char> {
    seq!['f', 'r', 'o', 'm', '_', 'c', 'o', 'm', 'p', 'l', 'e', 't', 'e', 'd']
}

/// A graph node as `{in_degree, node_name, from, from_completed, to, service}`.
pub open spec fn enc_gnode(n: GraphNodeModel) -> Json {
    Json::Object(
        seq![
            (k_in_degree(), Json::Number(n.in_degree)),
            (k_node_name(), Json::Str(n.name)),
            (k_from(), enc_strs(n.from)),
            (k_from_completed(), enc_strs(n.from_completed)),
            (k_to(), enc_strs(n.to)),
            (k_service(), enc_service(n.service)),
        ],
    )
}

pub open spec fn dec_gnode(j: Json) -> Option<GraphNodeModel> {
    match j {
        Json::Object(es) => match (
            obj_get(es, k_in_degree()),
            obj_get(es, k_node_name()),
            obj_get(es, k_from()),
            obj_get(es, k_from_completed()),
            obj_get(es, k_to()),
            obj_get(es, k_service()),
        ) {
            (Some(Json::Number(d)), Some(Json::Str(name)), Some(f), Some(fc), Some(t), Some(sj)) => if i32::MIN <= d
                <= i32::MAX {
                match (dec_strs(f), dec_strs(fc), dec_strs(t), dec_service(sj)) {
                    (Some(from), Some(from_completed), Some(to), Some(service)) => Some(
                        GraphNodeModel { in_degree: d, name, from, from_completed, to, service },
                    ),
                    _ => None,
                }
            } else {
                None
            },
            _ => None,
        },
        _ => None,
    }
}

pub open spec fn enc_graph(g: GraphModel) -> Json {
    Json::Object(
        seq![
            (k_start(), Json::Str(g.start)),
            (k_end(), Json::Str(g.end)),
            (k_node_set(), Json::Array(g.nodes.map_values(|n: GraphNodeModel| enc_gnode(n)))),
        ],
    )
}

pub open spec fn dec_graph(j: Json) -> Option<GraphModel> {
    match j {
        Json::Object(es) => match (obj_get(es, k_start()), obj_get(es, k_end()), obj_get(es, k_node_set())) {
            (Some(Json::Str(start)), Some(Json::Str(end)), Some(Json::Array(l))) => if forall|i: int|
                0 <= i < l.len() ==> dec_gnode(#[trigger] l[i]) is Some {
                Some(GraphModel { start, end, nodes: l.map_values(|x: Json| dec_gnode(x)->Some_0) })
            } else {
                None
            },
            _ => None,
        },
        _ => None,
    }
}

pub proof fn lemma_gnode_round_trip(n: GraphNodeModel)
    requires
        i32::MIN <= n.in_degree <= i32::MAX,
    ensures
        dec_gnode(enc_gnode(n)) == Some(n),
{
    let es = seq![
        (k_in_degree(), Json::Number(n.in_degree)),
        (k_node_name(), Json::Str(n.name)),
        (k_from(), enc_strs(n.from)),
        (k_from_completed(), enc_strs(n.from_completed)),
        (k_to(), enc_strs(n.to)),
        (k_service(), enc_service(n.service)),
    ];
    let ks = seq![k_in_degree(), k_node_name(), k_from(), k_from_completed(), k_to(), k_service()];
    assert forall|a: int, b: int| 0 <= a < b < 6 implies ks[a] != ks[b] by {
        if ks[a][0] == ks[b][0] {
            assert(ks[a].len() != ks[b].len());
        }
    }
    assert forall|i: int| 0 <= i < 6 implies es[i].0 == ks[i] by {}
    lemma_get_first(es, 0, k_in_degree());
    lemma_get_first(es, 1, k_node_name());
    lemma_get_first(es, 2, k_from());
    lemma_get_first(es, 3, k_from_completed());
    lemma_get_first(es, 4, k_to());
    lemma_get_first(es, 5, k_service());
    lemma_strs_round_trip(n.from);
    lemma_strs_round_trip(n.from_completed);
    lemma_strs_round_trip(n.to);
    lemma_service_round_trip(n.service);
}

/// Writing a graph plan as a JSON document and reading it back gives the
/// same plan.
pub proof fn lemma_graph_round_trip(g: GraphModel)
    requires
        forall|i: int| 0 <= i < g.nodes.len() ==> i32::MIN <= #[trigger] g.nodes[i].in_degree <= i32::MAX,
    ensures
        dec_graph(enc_graph(g)) == Some(g),
{
    let l = g.nodes.map_values(|n: GraphNodeModel| enc_gnode(n));
    let es = seq![(k_start(), Json::Str(g.start)), (k_end(), Json::Str(g.end)), (k_node_set(), Json::Array(l))];
    assert(k_start() != k_end() && k_start() != k_node_set() && k_end() != k_node_set()) by {
        assert(k_start()[0] != k_end()[0]);
        assert(k_start()[0] != k_node_set()[0]);
        assert(k_end()[0] != k_node_set()[0]);
    }
    lemma_get_first(es, 0, k_start());
    lemma_get_first(es, 1, k_end());
    lemma_get_first(es, 2, k_node_set());
    assert forall|i: int| 0 <= i < l.len() implies dec_gnode(#[trigger] l[i]) is Some by {
        lemma_gnode_round_trip(g.nodes[i]);
    }
    assert forall|i: int| 0 <= i < l.len() implies l.map_values(|x: Json| dec_gnode(x)->Some_0)[i]
        == g.nodes[i] by {
        lemma_gnode_round_trip(g.nodes[i]);
    }
    assert(l.map_values(|x: Json| dec_gnode(x)->Some_0) =~= g.nodes);
}

proof fn lemma_entries6(
    a: (String, JsonValue),
    b: (String, JsonValue),
    c: (String, JsonValue),
    d: (String, JsonValue),
    e: (String, JsonValue),
    f: (String, JsonValue),
)
    ensures
        view_entries(seq![a, b, c, d, e, f]) == seq![
            (a.0@, a.1@),
            (b.0@, b.1@),
            (c.0@, c.1@),
            (d.0@, d.1@),
            (e.0@, e.1@),
            (f.0@, f.1@),
        ],
{
    lemma_view_entries(seq![a, b, c, d, e, f]);
    assert(view_entries(seq![a, b, c, d, e, f]) =~= seq![
        (a.0@, a.1@),
        (b.0@, b.1@),
        (c.0@, c.1@),
        (d.0@, d.1@),
        (e.0@, e.1@),
        (f.0@, f.1@),
    ]);
}

pub fn encode_gnode(n: &GraphNode) -> (r: JsonValue)
    ensures
        r@ == enc_gnode(n@),
{
    proof {
        reveal_strlit("in_degree");
        reveal_strlit("node_name");
        reveal_strlit("from");
        reveal_strlit("from_completed");
        reveal_strlit("to");
        reveal_strlit("service");
    }
    let a = (String::from_str("in_degree"), JsonValue::Number(n.in_degree as i64));
    let b = (String::from_str("node_name"), JsonValue::Str(n.node_name.clone()));
    let c = (String::from_str("from"), encode_strs(&n.from));
    let d = (String::from_str("from_completed"), encode_strs(&n.from_completed));
    let e = (String::from_str("to"), encode_strs(&n.to));
    let f = (String::from_str("service"), encode_service(&n.service));
    assert(a.0@ =~= k_in_degree());
    assert(b.0@ =~= k_node_name());
    assert(c.0@ =~= k_from());
    assert(d.0@ =~= k_from_completed());
    assert(e.0@ =~= k_to());
    assert(f.0@ =~= k_service());
    let v = vec![a, b, c, d, e, f];
    proof {
        lemma_entries6(a, b, c, d, e, f);
        assert(v@ =~= seq![a, b, c, d, e, f]);
    }
    obj_of(v)
}

/// The graph plan as a JSON document `{start, end, node_set}`.
pub fn encode_graph(g: &Graph) -> (r: JsonValue)
    ensures
        r@ == enc_graph(g@),
{
    proof {
        reveal_strlit("start");
        reveal_strlit("end");
        reveal_strlit("node_set");
    }
    let mut l: Vec<JsonValue> = Vec::new();
    let mut i: usize = 0;
    while i < g.node_set.len()
        invariant
            i <= g.node_set.len(),
            l@.len() == i,
            forall|j: int| 0 <= j < i ==> #[trigger] l@[j]@ == enc_gnode(g.node_set@[j]@),
        decreases g.node_set.len() - i,
    {
        l.push(encode_gnode(&g.node_set[i]));
        i = i + 1;
    }
    proof {
        lemma_view_items(l@);
        assert forall|j: int| 0 <= j < l@.len() implies #[trigger] view_items(l@)[j]
            == g@.nodes.map_values(|n: GraphNodeModel| enc_gnode(n))[j] by {
            assert(l@[j]@ == enc_gnode(g.node_set@[j]@));
        }
        assert(view_items(l@) =~= g@.nodes.map_values(|n: GraphNodeModel| enc_gnode(n)));
    }
    let a = (String::from_str("start"), JsonValue::Str(g.start.clone()));
    let b = (String::from_str("end"), JsonValue::Str(g.end.clone()));
    let c = (String::from_str("node_set"), JsonValue::Array(l));
    assert(a.0@ =~= k_start());
    assert(b.0@ =~= k_end());
    assert(c.0@ =~= k_node_set());
    let v = vec![a, b, c];
    proof {
        lemma_entries3(a, b, c);
        assert(v@ =~= seq![a, b, c]);
    }
    obj_of(v)
}

pub fn decode_gnode(j: &JsonValue) -> (r: Option<GraphNode>)
    ensures
        match dec_gnode(j@) {
            Some(x) => r matches Some(v) && v@ == x,
            None => r is None,
        },
{
    proof {
        reveal_strlit("in_degree");
        reveal_strlit("node_name");
        reveal_strlit("from");
        reveal_strlit("from_completed");
        reveal_strlit("to");
        reveal_strlit("service");
        assert("in_degree"@ =~= k_in_degree());
        assert("node_name"@ =~= k_node_name());
        assert("from"@ =~= k_from());
        assert("from_completed"@ =~= k_from_completed());
        assert("to"@ =~= k_to());
        assert("service"@ =~= k_service());
    }
    match j {
        JsonValue::Object(es) => {
            let a = lookup(es, "in_degree");
            let b = lookup(es, "node_name");
            let c = lookup(es, "from");
            let d = lookup(es, "from_completed");
            let e = lookup(es, "to");
            let f = lookup(es, "service");
            match (a, b, c, d, e, f) {
                (Some(JsonValue::Number(deg)), Some(JsonValue::Str(name)), Some(fj), Some(fcj), Some(tj), Some(sj)) => {
                    if *deg < i32::MIN as i64 || *deg > i32::MAX as i64 {
                        return None;
                    }
                    match (decode_strs(fj), decode_strs(fcj), decode_strs(tj), decode_service(sj)) {
                        (Some(from), Some(from_completed), Some(to), Some(service)) => Some(
                            GraphNode {
                                in_degree: *deg as i32,
                                node_name: name.clone(),
                                from,
                                from_completed,
                                to,
                                service,
                            },
                        ),
                        _ => None,
                    }
                },
                _ => None,
            }
        },
        _ => None,
    }
}

/// Reads a graph plan from a JSON document `{start, end, node_set}`.
pub fn decode_graph(j: &JsonValue) -> (r: Option<Graph>)
    ensures
        match dec_graph(j@) {
            Some(x) => r matches Some(v) && v@ == x,
            None => r is None,
        },
{
    proof {
        reveal_strlit("start");
        reveal_strlit("end");
        reveal_strlit("node_set");
        assert("start"@ =~= k_start());
        assert("end"@ =~= k_end());
        assert("node_set"@ =~= k_node_set());
    }
    match j {
        JsonValue::Object(es) => {
            let a = lookup(es, "start");
            let b = lookup(es, "end");
            let c = lookup(es, "node_set");
            match (a, b, c) {
                (Some(JsonValue::Str(start)), Some(JsonValue::Str(end)), Some(JsonValue::Array(l))) => {
                    proof {
                        lemma_view_items(l@);
                    }
                    let ghost vl = view_items(l@);
                    let mut nodes: Vec<GraphNode> = Vec::new();
                    let mut i: usize = 0;
                    while i < l.len()
                        invariant
                            *j == JsonValue::Object(*es),
                            obj_get(view_entries(es@), k_start()) == Some(Json::Str(start@)),
                            obj_get(view_entries(es@), k_end()) == Some(Json::Str(end@)),
                            obj_get(view_entries(es@), k_node_set()) == Some(Json::Array(vl)),
                            i <= l.len(),
                            nodes@.len() == i,
                            vl == view_items(l@),
                            vl.len() == l.len(),
                            forall|m: int| 0 <= m < l.len() ==> #[trigger] vl[m] == l@[m].view_json(),
                            forall|m: int| 0 <= m < i ==> dec_gnode(#[trigger] vl[m]) == Some(nodes@[m]@),
                        decreases l.len() - i,
                    {
                        match decode_gnode(&l[i]) {
                            None => {
                                proof {
                                    assert(dec_gnode(vl[i as int]) is None);
                                }
                                return None;
                            },
                            Some(n) => {
                                nodes.push(n);
                            },
                        }
                        i = i + 1;
                    }
                    let g = Graph { start: start.clone(), end: end.clone(), node_set: nodes };
                    proof {
                        assert(g@.nodes =~= vl.map_values(|x: Json| dec_gnode(x)->Some_0));
                    }
                    Some(g)
                },
                _ => None,
            }
        },
        _ => None,
    }
}

} // verus!
