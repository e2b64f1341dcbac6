use vstd::prelude::*;

use crate::plan::{
    contains_name, has_name, names, remove_first, remove_name, NextPlan, PlanError,
    ServiceEntityJson, ServiceModel,
};

verus! {

/// A node of a DAG plan: its name, its remaining predecessors, its successors,
/// and its service, which is taken when the node is dispatched.
#[derive(Debug)]
pub struct DagNode {
    pub node_name: String,
    pub from: Vec<String>,
    pub to: Vec<String>,
    pub service: Option<ServiceEntityJson>,
}

pub struct DagNodeModel {
    pub name: Seq<char>,
    pub from: Seq<Seq<char>>,
    pub to: Seq<Seq<char>>,
    pub service: Option<ServiceModel>,
}

pub open spec fn opt_service(s: Option<ServiceEntityJson>) -> Option<ServiceModel> {
    match s {
        Some(x) => Some(x@),
        None => None,
    }
}

impl View for DagNode {
    type V = DagNodeModel;

    open spec fn view(&self) -> DagNodeModel {
        DagNodeModel {
            name: self.node_name@,
            from: names(self.from@),
            to: names(self.to@),
            service: opt_service(self.service),
        }
    }
}

/// `s` with `x` appended unless it already occurs.
pub open spec fn add_unique(s: Seq<Seq<char>>, x: Seq<char>) -> Seq<Seq<char>> {
    if has_name(s, x) {
        s
    } else {
        s.push(x)
    }
}

pub proof fn lemma_names_push(s: Seq<String>, x: String)
    ensures
        names(s.push(x)) == names(s).push(x@),
{
    assert(names(s.push(x)) =~= names(s).push(x@));
}

impl DagNode {
    pub fn new(node_name: String) -> (r: DagNode)
        ensures
            r@.name == node_name@,
            r@.from.len() == 0,
            r@.to.len() == 0,
            r@.service is None,
    {
        let r = DagNode { node_name, from: Vec::new(), to: Vec::new(), service: None };
        proof {
            assert(names(r.from@) =~= Seq::<Seq<char>>::empty());
            assert(names(r.to@) =~= Seq::<Seq<char>>::empty());
        }
        r
    }

    /// Renames the node and the node name its service carries.
    pub fn set_node_name(self, node_name: String) -> (r: DagNode)
        ensures
            r@.name == node_name@,
            r@.from == self@.from,
            r@.to == self@.to,
            r@.service == match self@.service {
                Some(s) => Some((s.0, node_name@, s.2)),
                None => None,
            },
    {
        let service = match self.service {
            Some(s) => Some(s.set_node_name(node_name.clone())),
            None => None,
        };
        DagNode { node_name, from: self.from, to: self.to, service }
    }

    pub fn set_from(self, from: Vec<String>) -> (r: DagNode)
        ensures
            r@ == (DagNodeModel { from: names(from@), ..self@ }),
    {
        DagNode { from, ..self }
    }

    pub fn set_to(self, to: Vec<String>) -> (r: DagNode)
        ensures
            r@ == (DagNodeModel { to: names(to@), ..self@ }),
    {
        DagNode { to, ..self }
    }

    /// Adds a predecessor unless it is already there.
    pub fn add_from(&mut self, node_name: String)
        ensures
            final(self)@ == (DagNodeModel { from: add_unique(old(self)@.from, node_name@), ..old(self)@ }),
    {
        if !contains_name(&self.from, &node_name) {
            proof {
                lemma_names_push(self.from@, node_name);
            }
            self.from.push(node_name);
        }
    }

    /// Adds a successor unless it is already there.
    pub fn add_to(&mut self, node_name: String)
        ensures
            final(self)@ == (DagNodeModel { to: add_unique(old(self)@.to, node_name@), ..old(self)@ }),
    {
        if !contains_name(&self.to, &node_name) {
            proof {
                lemma_names_push(self.to@, node_name);
            }
            self.to.push(node_name);
        }
    }

    pub fn have_from(&self, f: &String) -> (r: bool)
        ensures
            r == has_name(self@.from, f@),
    {
        contains_name(&self.from, f)
    }

    pub fn have_to(&self, t: &String) -> (r: bool)
        ensures
            r == has_name(self@.to, t@),
    {
        contains_name(&self.to, t)
    }

    /// Records that predecessor `f` has finished. When no predecessor remains,
    /// the node's service is taken and returned.
    pub fn remove_from_and_take_service(&mut self, f: &String) -> (r: Option<ServiceEntityJson>)
        ensures
            final(self)@ == release_node(old(self)@, f@).0,
            opt_service(r) == release_node(old(self)@, f@).1,
    {
        remove_name(&mut self.from, f);
        if self.from.len() == 0 {
            proof {
                assert(names(self.from@).len() == 0);
            }
            let s = self.service.take();
            s
        } else {
            None
        }
    }

    /// Gives the node a service, which takes the node's name.
    pub fn set_service_entity(self, service: ServiceEntityJson) -> (r: DagNode)
        ensures
            r@ == (DagNodeModel {
                service: Some((service@.0, self@.name, service@.2)),
                ..self@
            }),
    {
        let se = service.set_node_name(self.node_name.clone());
        DagNode { service: Some(se), ..self }
    }
}

/// A node after predecessor `f` finished, and the service it releases.
pub open spec fn release_node(n: DagNodeModel, f: Seq<char>) -> (DagNodeModel, Option<ServiceModel>) {
    let from = remove_first(n.from, f);
    if from.len() == 0 {
        (DagNodeModel { from, service: None, ..n }, n.service)
    } else {
        (DagNodeModel { from, ..n }, None)
    }
}

/// A DAG plan: a join node runs once all its predecessors have finished.
#[derive(Debug)]
pub struct Dag {
    pub start: String,
    pub end: String,
    pub node_set: Vec<DagNode>,
}

pub struct DagModel {
    pub start: Seq<char>,
    pub end: Seq<char>,
    pub nodes: Seq<DagNodeModel>,
}

impl View for Dag {
    type V = DagModel;

    open spec fn view(&self) -> DagModel {
        DagModel {
            start: self.start@,
            end: self.end@,
            nodes: node_views(self.node_set@),
        }
    }
}

/// `i` is the first node named `name`.
pub open spec fn node_at(nodes: Seq<DagNodeModel>, name: Seq<char>, i: int) -> bool {
    &&& 0 <= i < nodes.len()
    &&& nodes[i].name == name
    &&& forall|j: int| 0 <= j < i ==> nodes[j].name != name
}

/// The position of the node named `name`.
pub open spec fn find_node(nodes: Seq<DagNodeModel>, name: Seq<char>) -> Option<int> {
    if exists|i: int| node_at(nodes, name, i) {
        Some(choose|i: int| node_at(nodes, name, i))
    } else {
        None
    }
}

pub proof fn lemma_node_at_unique(nodes: Seq<DagNodeModel>, name: Seq<char>, i: int, k: int)
    requires
        node_at(nodes, name, i),
        node_at(nodes, name, k),
    ensures
        i == k,
{
}

/// A successor `t` of a node that finished as `name`.
pub open spec fn release_one(nodes: Seq<DagNodeModel>, name: Seq<char>, t: Seq<char>) -> Result<
    (Seq<DagNodeModel>, Option<ServiceModel>),
    Seq<char>,
> {
    match find_node(nodes, t) {
        None => Err(t),
        Some(k) => {
            let (n, s) = release_node(nodes[k], name);
            Ok((nodes.update(k, n), s))
        },
    }
}

/// All successors `to` of a node that finished as `name`, in order; the
/// services released on the way; or the first successor that is missing.
pub open spec fn release(nodes: Seq<DagNodeModel>, name: Seq<char>, to: Seq<Seq<char>>) -> Result<
    (Seq<DagNodeModel>, Seq<ServiceModel>),
    Seq<char>,
>
    decreases to.len(),
{
    if to.len() == 0 {
        Ok((nodes, Seq::empty()))
    } else {
        match release(nodes, name, to.drop_last()) {
            Err(e) => Err(e),
            Ok((ns, out)) => match release_one(ns, name, to.last()) {
                Err(e) => Err(e),
                Ok((ns2, o)) => Ok(
                    (
                        ns2,
                        match o {
                            Some(x) => out.push(x),
                            None => out,
                        },
                    ),
                ),
            },
        }
    }
}

/// What `next` answers, in the model.
pub enum NextModel {
    Nodes(Seq<ServiceModel>),
    End,
    Wait,
}

pub open spec fn next_model(r: NextPlan) -> NextModel {
    match r {
        NextPlan::Nodes(v) => NextModel::Nodes(v@.map_values(|s: ServiceEntityJson| s@)),
        NextPlan::End => NextModel::End,
        NextPlan::Wait => NextModel::Wait,
    }
}

/// The plan after node `name` finished, and what it answers.
pub open spec fn dag_next(d: DagModel, name: Seq<char>) -> Result<(DagModel, NextModel), Seq<char>> {
    if name == d.end {
        Ok((d, NextModel::End))
    } else {
        match find_node(d.nodes, name) {
            None => Err(name),
            Some(k) => {
                let to = d.nodes[k].to;
                let ns = d.nodes.update(k, DagNodeModel { to: Seq::empty(), ..d.nodes[k] });
                match release(ns, name, to) {
                    Err(e) => Err(e),
                    Ok((ns2, out)) => Ok((DagModel { nodes: ns2, ..d }, NextModel::Nodes(out))),
                }
            },
        }
    }
}

/// Once a prefix of the successors fails, the whole list fails the same way.
pub proof fn lemma_release_err_extends(
    nodes: Seq<DagNodeModel>,
    name: Seq<char>,
    to: Seq<Seq<char>>,
    m: int,
)
    requires
        0 <= m <= to.len(),
        release(nodes, name, to.subrange(0, m)) is Err,
    ensures
        release(nodes, name, to) == release(nodes, name, to.subrange(0, m)),
    decreases to.len(),
{
    if to.len() == m {
        assert(to.subrange(0, m) =~= to);
    } else {
        let t = to.drop_last();
        assert(t.subrange(0, m) =~= to.subrange(0, m));
        lemma_release_err_extends(nodes, name, t, m);
    }
}

/// The plan after the service of node `name` was taken.
pub open spec fn dag_get(d: DagModel, name: Seq<char>) -> (DagModel, Option<ServiceModel>) {
    match find_node(d.nodes, name) {
        None => (d, None),
        Some(k) => (
            DagModel { nodes: d.nodes.update(k, DagNodeModel { service: None, ..d.nodes[k] }), ..d },
            d.nodes[k].service,
        ),
    }
}

/// The nodes with `n` added, replacing a node of the same name.
pub open spec fn insert_node(nodes: Seq<DagNodeModel>, n: DagNodeModel) -> Seq<DagNodeModel> {
    match find_node(nodes, n.name) {
        Some(k) => nodes.update(k, n),
        None => nodes.push(n),
    }
}

/// The plan with the edge `f -> t` added. The first edge's source becomes the
/// start; the latest edge's target becomes the end. Missing nodes are created
/// without a service.
pub open spec fn dag_edge(d: DagModel, f: Seq<char>, t: Seq<char>) -> DagModel {
    let n1 = match find_node(d.nodes, f) {
        Some(k) => d.nodes.update(k, DagNodeModel { to: add_unique(d.nodes[k].to, t), ..d.nodes[k] }),
        None => d.nodes.push(DagNodeModel { name: f, from: Seq::empty(), to: seq![t], service: None }),
    };
    let n2 = match find_node(n1, t) {
        Some(k) => n1.update(k, DagNodeModel { from: add_unique(n1[k].from, f), ..n1[k] }),
        None => n1.push(DagNodeModel { name: t, from: seq![f], to: Seq::empty(), service: None }),
    };
    DagModel {
        start: if d.start.len() == 0 { f } else { d.start },
        end: t,
        nodes: n2,
    }
}

/// Why a plan failed validation.
#[derive(Debug, PartialEq, Eq)]
pub enum CheckError {
    StartNotFound(String),
    EndNotFound(String),
    ServiceMissing(String),
    ServiceNameEmpty(String),
    ServiceNodeEmpty(String),
    StartHasFrom(String),
    NoFrom(String),
    FromNotFound(String, String),
    FromEdgeMissing(String, String),
    EndHasTo(String),
    NoTo(String),
    ToNotFound(String, String),
    ToEdgeMissing(String, String),
}

/// Predecessor `f` of `v` exists and lists `v` among its successors.
pub open spec fn from_ok(nodes: Seq<DagNodeModel>, v: DagNodeModel, f: Seq<char>) -> bool {
    match find_node(nodes, f) {
        Some(k) => has_name(nodes[k].to, v.name),
        None => false,
    }
}

/// Successor `t` of `v` exists and lists `v` among its predecessors.
pub open spec fn to_ok(nodes: Seq<DagNodeModel>, v: DagNodeModel, t: Seq<char>) -> bool {
    match find_node(nodes, t) {
        Some(k) => has_name(nodes[k].from, v.name),
        None => false,
    }
}

pub open spec fn service_ok(v: DagNodeModel) -> bool {
    match v.service {
        Some(s) => s.0.len() > 0 && s.1.len() > 0,
        None => false,
    }
}

/// One node of a valid plan: it has a named service; the start has no
/// predecessor and every other node has one; the end has no successor and
/// every other node has one; each edge is recorded on both of its ends.
pub open spec fn node_ok(d: DagModel, v: DagNodeModel) -> bool {
    &&& service_ok(v)
    &&& if v.name == d.start {
        v.from.len() == 0
    } else {
        v.from.len() > 0 && forall|j: int| 0 <= j < v.from.len() ==> from_ok(d.nodes, v, #[trigger] v.from[j])
    }
    &&& if v.name == d.end {
        v.to.len() == 0
    } else {
        v.to.len() > 0 && forall|j: int| 0 <= j < v.to.len() ==> to_ok(d.nodes, v, #[trigger] v.to[j])
    }
}

/// A plan that may run: start and end exist and every node is well formed.
pub open spec fn dag_valid(d: DagModel) -> bool {
    &&& find_node(d.nodes, d.start) is Some
    &&& find_node(d.nodes, d.end) is Some
    &&& forall|i: int| 0 <= i < d.nodes.len() ==> node_ok(d, #[trigger] d.nodes[i])
}

/// The plan with the edges added in order.
pub open spec fn edges_model(g: DagModel, es: Seq<(Seq<char>, Seq<char>)>) -> DagModel
    decreases es.len(),
{
    if es.len() == 0 {
        g
    } else {
        dag_edge(edges_model(g, es.drop_last()), es.last().0, es.last().1)
    }
}

/// The models of a list of nodes.
pub open spec fn node_views(s: Seq<DagNode>) -> Seq<DagNodeModel> {
    s.map_values(|n: DagNode| n@)
}

/// The nodes with each of `ns` added in order.
pub open spec fn insert_all(nodes: Seq<DagNodeModel>, ns: Seq<DagNodeModel>) -> Seq<DagNodeModel>
    decreases ns.len(),
{
    if ns.len() == 0 {
        nodes
    } else {
        insert_node(insert_all(nodes, ns.drop_last()), ns.last())
    }
}

impl Dag {
    pub fn new() -> (r: Dag)
        ensures
            r@.start.len() == 0,
            r@.end.len() == 0,
            r@.nodes.len() == 0,
    {
        Dag { start: String::new(), end: String::new(), node_set: Vec::new() }
    }

    pub fn start_node_name(&self) -> (r: &String)
        ensures
            r@ == self@.start,
    {
        &self.start
    }

    pub fn end_node_name(&self) -> (r: &String)
        ensures
            r@ == self@.end,
    {
        &self.end
    }

    /// The position of the node named `name`.
    pub fn index_of(&self, name: &String) -> (r: Option<usize>)
        ensures
            match r {
                Some(i) => find_node(self@.nodes, name@) == Some(i as int),
                None => find_node(self@.nodes, name@) is None,
            },
    {
        let mut i: usize = 0;
        while i < self.node_set.len()
            invariant
                i <= self.node_set.len(),
                forall|j: int| 0 <= j < i ==> self@.nodes[j].name != name@,
            decreases self.node_set.len() - i,
        {
            if self.node_set[i].node_name == *name {
                proof {
                    assert(node_at(self@.nodes, name@, i as int));
                    let k = choose|k: int| node_at(self@.nodes, name@, k);
                    lemma_node_at_unique(self@.nodes, name@, i as int, k);
                }
                return Some(i);
            }
            i = i + 1;
        }
        None
    }

    /// Reports that node `name` has finished: each successor records it, and
    /// the successors whose predecessors have all finished are returned, in
    /// the order of `name`'s successor list. The finished node's successor
    /// list is emptied. The end node answers `End`.
    pub fn next(&mut self, name: &String) -> (r: Result<NextPlan, PlanError>)
        ensures
            final(self)@.start == old(self)@.start,
            final(self)@.end == old(self)@.end,
            match dag_next(old(self)@, name@) {
                Ok((d2, m)) => r matches Ok(p) && final(self)@ == d2 && next_model(p) == m,
                Err(e) => r matches Err(PlanError::NodeNotFound(x)) && x@ == e,
            },
    {
        if *name == self.end {
            return Ok(NextPlan::End);
        }
        let k = match self.index_of(name) {
            Some(k) => k,
            None => {
                return Err(PlanError::NodeNotFound(name.clone()));
            },
        };
        let ghost d0 = self@;
        let node = self.take_node(k);
        let DagNode { node_name, from, to, service } = node;
        let emptied = DagNode { node_name, from, to: Vec::new(), service };
        proof {
            assert(names(emptied.to@) =~= Seq::<Seq<char>>::empty());
        }
        self.put_node(k, emptied);
        proof {
            assert(self@.nodes =~= d0.nodes.update(
                k as int,
                DagNodeModel { to: Seq::empty(), ..d0.nodes[k as int] },
            ));
        }
        let ghost ns0 = self@.nodes;
        let ghost tos = names(to@);
        proof {
            assert(d0.nodes[k as int].to == tos);
        }
        let mut out: Vec<ServiceEntityJson> = Vec::new();
        let mut i: usize = 0;
        proof {
            assert(tos.subrange(0, 0) =~= Seq::<Seq<char>>::empty());
            assert(out@.map_values(|s: ServiceEntityJson| s@) =~= Seq::<ServiceModel>::empty());
        }
        while i < to.len()
            invariant
                i <= to.len(),
                tos == names(to@),
                d0 == old(self)@,
                name@ != d0.end,
                find_node(d0.nodes, name@) == Some(k as int),
                k < d0.nodes.len(),
                d0.nodes[k as int].to == tos,
                ns0 == d0.nodes.update(k as int, DagNodeModel { to: Seq::empty(), ..d0.nodes[k as int] }),
                self@.start == d0.start,
                self@.end == d0.end,
                release(ns0, name@, tos.subrange(0, i as int)) == Ok::<
                    (Seq<DagNodeModel>, Seq<ServiceModel>),
                    Seq<char>,
                >((self@.nodes, out@.map_values(|s: ServiceEntityJson| s@))),
            decreases to.len() - i,
        {
            let ghost before = self@.nodes;
            let ghost out0 = out@.map_values(|s: ServiceEntityJson| s@);
            proof {
                assert(tos.subrange(0, i + 1).drop_last() =~= tos.subrange(0, i as int));
                assert(tos.subrange(0, i + 1).last() == to@[i as int]@);
            }
            let j = match self.index_of(&to[i]) {
                Some(j) => j,
                None => {
                    proof {
                        assert(release_one(self@.nodes, name@, to@[i as int]@) == Err::<
                            (Seq<DagNodeModel>, Option<ServiceModel>),
                            Seq<char>,
                        >(to@[i as int]@));
                        assert(release(ns0, name@, tos.subrange(0, i + 1)) == Err::<
                            (Seq<DagNodeModel>, Seq<ServiceModel>),
                            Seq<char>,
                        >(to@[i as int]@));
                        lemma_release_err_extends(ns0, name@, tos, i + 1);
                        assert(tos.subrange(0, i as int).len() < tos.len());
                    }
                    return Err(PlanError::NodeNotFound(to[i].clone()));
                },
            };
            let mut n = self.take_node(j);
            let released = n.remove_from_and_take_service(name);
            self.put_node(j, n);
            proof {
                assert(self@.nodes =~= before.update(j as int, release_node(before[j as int], name@).0));
            }
            match released {
                Some(x) => {
                    out.push(x);
                    proof {
                        assert(out@.map_values(|s: ServiceEntityJson| s@) =~= out0.push(x@));
                    }
                },
                None => {},
            }
            i = i + 1;
        }
        proof {
            assert(tos.subrange(0, to.len() as int) =~= tos);
        }
        Ok(NextPlan::Nodes(out))
    }

    /// Takes the service of node `name`; a node runs once, so a second call
    /// returns None.
    pub fn get(&mut self, name: &String) -> (r: Option<ServiceEntityJson>)
        ensures
            final(self)@ == dag_get(old(self)@, name@).0,
            opt_service(r) == dag_get(old(self)@, name@).1,
    {
        match self.index_of(name) {
            None => None,
            Some(k) => {
                let ghost d0 = self@;
                let mut n = self.take_node(k);
                let s = n.service.take();
                self.put_node(k, n);
                proof {
                    assert(self@.nodes =~= d0.nodes.update(
                        k as int,
                        DagNodeModel { service: None, ..d0.nodes[k as int] },
                    ));
                }
                s
            },
        }
    }

    /// Rewrites the successors of node `name`, if it exists.
    pub fn set_to(&mut self, name: &String, to: Vec<String>)
        ensures
            final(self)@ == match find_node(old(self)@.nodes, name@) {
                None => old(self)@,
                Some(k) => DagModel {
                    nodes: old(self)@.nodes.update(
                        k,
                        DagNodeModel { to: names(to@), ..old(self)@.nodes[k] },
                    ),
                    ..old(self)@
                },
            },
    {
        match self.index_of(name) {
            None => {},
            Some(k) => {
                let ghost d0 = self@;
                let n = self.take_node(k);
                let n = n.set_to(to);
                self.put_node(k, n);
                proof {
                    assert(self@.nodes =~= d0.nodes.update(
                        k as int,
                        DagNodeModel { to: names(to@), ..d0.nodes[k as int] },
                    ));
                }
            },
        }
    }

    /// Adds a node, replacing a node of the same name.
    pub fn node(self, node: DagNode) -> (r: Dag)
        ensures
            r@ == (DagModel { nodes: insert_node(self@.nodes, node@), ..self@ }),
    {
        let mut d = self;
        match d.index_of(&node.node_name) {
            Some(k) => {
                let ghost d0 = d@;
                d.put_node(k, node);
                proof {
                    assert(d@.nodes =~= d0.nodes.update(k as int, node@));
                }
            },
            None => {
                let ghost d0 = d@;
                d.node_set.push(node);
                proof {
                    assert(d@.nodes =~= d0.nodes.push(node@));
                }
            },
        }
        d
    }

    /// Adds several nodes in order.
    pub fn nodes(self, nodes: Vec<DagNode>) -> (r: Dag)
        ensures
            r@ == (DagModel { nodes: insert_all(self@.nodes, node_views(nodes@)), ..self@ }),
    {
        let ghost ns = node_views(nodes@);
        let ghost n0 = nodes@.len();
        let mut d = self;
        let mut nodes = nodes;
        proof {
            assert(ns.subrange(0, 0) =~= Seq::<DagNodeModel>::empty());
            assert(node_views(nodes@) =~= ns.subrange(0, n0 as int));
        }
        while nodes.len() > 0
            invariant
                n0 == ns.len(),
                nodes@.len() <= n0,
                node_views(nodes@) == ns.subrange(n0 - nodes@.len(), n0 as int),
                d@ == (DagModel { nodes: insert_all(self@.nodes, ns.subrange(0, n0 - nodes@.len())), ..self@ }),
            decreases nodes.len(),
        {
            let ghost before = nodes@;
            let ghost k: int = n0 - nodes@.len();
            let n = nodes.remove(0);
            proof {
                assert(node_views(before)[0] == n@);
                assert(ns[k] == n@);
                assert(ns.subrange(0, k + 1).drop_last() =~= ns.subrange(0, k));
                assert forall|j: int| 0 <= j < nodes@.len() implies #[trigger] node_views(nodes@)[j]
                    == ns.subrange(n0 - nodes@.len(), n0 as int)[j] by {
                    assert(nodes@[j] == before[j + 1]);
                    assert(node_views(before)[j + 1] == ns.subrange(n0 - before.len(), n0 as int)[j + 1]);
                }
                assert(node_views(nodes@) =~= ns.subrange(n0 - nodes@.len(), n0 as int));
            }
            d = d.node(n);
        }
        proof {
            assert(ns.subrange(0, n0 as int) =~= ns);
        }
        d
    }

    /// Adds the edge `from -> to`.
    pub fn edge(self, from: String, to: String) -> (r: Dag)
        ensures
            r@ == dag_edge(self@, from@, to@),
    {
        let mut d = self;
        if d.start.unicode_len() == 0 {
            d.start = from.clone();
        }
        d.end = to.clone();
        let ghost d1 = d@;
        match d.index_of(&from) {
            Some(k) => {
                let mut n = d.take_node(k);
                n.add_to(to.clone());
                d.put_node(k, n);
                proof {
                    assert(d@.nodes =~= d1.nodes.update(
                        k as int,
                        DagNodeModel { to: add_unique(d1.nodes[k as int].to, to@), ..d1.nodes[k as int] },
                    ));
                }
            },
            None => {
                let mut n = DagNode::new(from.clone());
                proof {
                    assert(n@.to =~= Seq::<Seq<char>>::empty());
                }
                n.add_to(to.clone());
                proof {
                    assert(add_unique(Seq::<Seq<char>>::empty(), to@) =~= seq![to@]);
                    assert(n@.from =~= Seq::<Seq<char>>::empty());
                    assert(n@ == DagNodeModel { name: from@, from: Seq::empty(), to: seq![to@], service: None });
                }
                d.node_set.push(n);
                proof {
                    assert(d@.nodes =~= d1.nodes.push(
                        DagNodeModel { name: from@, from: Seq::empty(), to: seq![to@], service: None },
                    ));
                }
            },
        }
        let ghost d2 = d@;
        match d.index_of(&to) {
            Some(k) => {
                let mut n = d.take_node(k);
                n.add_from(from);
                d.put_node(k, n);
                proof {
                    assert(d@.nodes =~= d2.nodes.update(
                        k as int,
                        DagNodeModel { from: add_unique(d2.nodes[k as int].from, from@), ..d2.nodes[k as int] },
                    ));
                }
            },
            None => {
                let mut n = DagNode::new(to);
                proof {
                    assert(n@.from =~= Seq::<Seq<char>>::empty());
                }
                n.add_from(from);
                proof {
                    assert(add_unique(Seq::<Seq<char>>::empty(), from@) =~= seq![from@]);
                    assert(n@.to =~= Seq::<Seq<char>>::empty());
                    assert(n@ == DagNodeModel { name: to@, from: seq![from@], to: Seq::empty(), service: None });
                }
                d.node_set.push(n);
                proof {
                    assert(d@.nodes =~= d2.nodes.push(
                        DagNodeModel { name: to@, from: seq![from@], to: Seq::empty(), service: None },
                    ));
                }
            },
        }
        d
    }

    /// Adds the edges in order.
    pub fn edges(self, edges: Vec<(String, String)>) -> (r: Dag)
        ensures
            r@ == edges_model(self@, crate::plan::pairs(edges@)),
    {
        let ghost es = crate::plan::pairs(edges@);
        let ghost g0 = self@;
        let mut g = self;
        let mut rest = edges;
        let mut i: usize = 0;
        let n = rest.len();
        proof {
            assert(es.subrange(0, 0) =~= Seq::<(Seq<char>, Seq<char>)>::empty());
        }
        while rest.len() > 0
            invariant
                i + rest.len() == n,
                n == es.len(),
                crate::plan::pairs(rest@) == es.subrange(i as int, n as int),
                g@ == edges_model(g0, es.subrange(0, i as int)),
            decreases rest.len(),
        {
            let ghost r0 = rest@;
            let (f, t) = rest.remove(0);
            proof {
                assert(crate::plan::pairs(r0)[0] == (f@, t@));
                assert(es[i as int] == (f@, t@));
                assert(es.subrange(0, i + 1).drop_last() =~= es.subrange(0, i as int));
                assert(rest@ =~= r0.subrange(1, r0.len() as int));
                assert forall|j: int| 0 <= j < rest@.len() implies #[trigger] crate::plan::pairs(rest@)[j]
                    == es.subrange(i + 1, n as int)[j] by {
                    assert(rest@[j] == r0[j + 1]);
                    assert(crate::plan::pairs(r0)[j + 1] == es.subrange(i as int, n as int)[j + 1]);
                }
                assert(crate::plan::pairs(rest@) =~= es.subrange(i + 1, n as int));
            }
            g = g.edge(f, t);
            i = i + 1;
        }
        proof {
            assert(es.subrange(0, n as int) =~= es);
        }
        g
    }

    pub fn set_start_node_name(self, name: String) -> (r: Dag)
        ensures
            r@ == (DagModel { start: name@, ..self@ }),
    {
        Dag { start: name, ..self }
    }

    pub fn set_end_node_name(self, name: String) -> (r: Dag)
        ensures
            r@ == (DagModel { end: name@, ..self@ }),
    {
        Dag { end: name, ..self }
    }

    /// Checks that every predecessor of node `i` exists and links back.
    fn check_from_list(&self, i: usize) -> (r: Result<(), CheckError>)
        requires
            i < self@.nodes.len(),
        ensures
            r is Ok <==> forall|j: int|
                0 <= j < self@.nodes[i as int].from.len() ==> from_ok(
                    self@.nodes,
                    self@.nodes[i as int],
                    #[trigger] self@.nodes[i as int].from[j],
                ),
    {
        let v = &self.node_set[i];
        let ghost vm = self@.nodes[i as int];
        assert(vm == v@);
        let mut j: usize = 0;
        while j < v.from.len()
            invariant
                j <= v.from.len(),
                vm == v@,
                vm == self@.nodes[i as int],
                forall|m: int| 0 <= m < j ==> from_ok(self@.nodes, vm, #[trigger] vm.from[m]),
            decreases v.from.len() - j,
        {
            assert(vm.from[j as int] == v.from@[j as int]@);
            match self.index_of(&v.from[j]) {
                None => {
                    return Err(CheckError::FromNotFound(v.node_name.clone(), v.from[j].clone()));
                },
                Some(k) => {
                    if !self.node_set[k].have_to(&v.node_name) {
                        return Err(CheckError::FromEdgeMissing(v.node_name.clone(), v.from[j].clone()));
                    }
                },
            }
            j = j + 1;
        }
        Ok(())
    }

    /// Checks that every successor of node `i` exists and links back.
    fn check_to_list(&self, i: usize) -> (r: Result<(), CheckError>)
        requires
            i < self@.nodes.len(),
        ensures
            r is Ok <==> forall|j: int|
                0 <= j < self@.nodes[i as int].to.len() ==> to_ok(
                    self@.nodes,
                    self@.nodes[i as int],
                    #[trigger] self@.nodes[i as int].to[j],
                ),
    {
        let v = &self.node_set[i];
        let ghost vm = self@.nodes[i as int];
        assert(vm == v@);
        let mut j: usize = 0;
        while j < v.to.len()
            invariant
                j <= v.to.len(),
                vm == v@,
                vm == self@.nodes[i as int],
                forall|m: int| 0 <= m < j ==> to_ok(self@.nodes, vm, #[trigger] vm.to[m]),
            decreases v.to.len() - j,
        {
            assert(vm.to[j as int] == v.to@[j as int]@);
            match self.index_of(&v.to[j]) {
                None => {
                    return Err(CheckError::ToNotFound(v.node_name.clone(), v.to[j].clone()));
                },
                Some(k) => {
                    if !self.node_set[k].have_from(&v.node_name) {
                        return Err(CheckError::ToEdgeMissing(v.node_name.clone(), v.to[j].clone()));
                    }
                },
            }
            j = j + 1;
        }
        Ok(())
    }

    /// Checks node `i`.
    fn check_node(&self, i: usize) -> (r: Result<(), CheckError>)
        requires
            i < self@.nodes.len(),
        ensures
            r is Ok <==> node_ok(self@, self@.nodes[i as int]),
    {
        let v = &self.node_set[i];
        assert(self@.nodes[i as int] == v@);
        match &v.service {
            None => {
                return Err(CheckError::ServiceMissing(v.node_name.clone()));
            },
            Some(s) => {
                if s.service_name.unicode_len() == 0 {
                    return Err(CheckError::ServiceNameEmpty(v.node_name.clone()));
                }
                if s.node_name.unicode_len() == 0 {
                    return Err(CheckError::ServiceNodeEmpty(v.node_name.clone()));
                }
            },
        }
        if v.node_name == self.start {
            if v.from.len() != 0 {
                return Err(CheckError::StartHasFrom(v.node_name.clone()));
            }
        } else {
            if v.from.len() == 0 {
                return Err(CheckError::NoFrom(v.node_name.clone()));
            }
            match self.check_from_list(i) {
                Err(e) => {
                    return Err(e);
                },
                Ok(()) => {},
            }
        }
        if v.node_name == self.end {
            if v.to.len() != 0 {
                return Err(CheckError::EndHasTo(v.node_name.clone()));
            }
        } else {
            if v.to.len() == 0 {
                return Err(CheckError::NoTo(v.node_name.clone()));
            }
            match self.check_to_list(i) {
                Err(e) => {
                    return Err(e);
                },
                Ok(()) => {},
            }
        }
        Ok(())
    }

    /// Validates the plan: it is returned unchanged when it may run.
    pub fn check(self) -> (r: Result<Dag, CheckError>)
        ensures
            r is Ok <==> dag_valid(self@),
            r matches Ok(d) ==> d@ == self@,
    {
        if self.index_of(&self.start).is_none() {
            return Err(CheckError::StartNotFound(self.start.clone()));
        }
        if self.index_of(&self.end).is_none() {
            return Err(CheckError::EndNotFound(self.end.clone()));
        }
        let mut i: usize = 0;
        while i < self.node_set.len()
            invariant
                i <= self.node_set.len(),
                forall|m: int| 0 <= m < i ==> node_ok(self@, #[trigger] self@.nodes[m]),
            decreases self.node_set.len() - i,
        {
            match self.check_node(i) {
                Err(e) => {
                    return Err(e);
                },
                Ok(()) => {},
            }
            i = i + 1;
        }
        Ok(self)
    }

    /// Takes the node at `k` out of the plan, leaving an empty node in its place.
    fn take_node(&mut self, k: usize) -> (r: DagNode)
        requires
            k < old(self).node_set.len(),
        ensures
            r == old(self).node_set@[k as int],
            final(self).node_set@.len() == old(self).node_set@.len(),
            final(self).start == old(self).start,
            final(self).end == old(self).end,
            forall|j: int|
                0 <= j < old(self).node_set@.len() && j != k ==> final(self).node_set@[j]
                    == old(self).node_set@[j],
    {
        let n = self.node_set.remove(k);
        self.node_set.insert(k, DagNode { node_name: String::new(), from: Vec::new(), to: Vec::new(), service: None });
        n
    }

    /// Puts `n` at position `k`.
    fn put_node(&mut self, k: usize, n: DagNode)
        requires
            k < old(self).node_set.len(),
        ensures
            final(self).node_set@ == old(self).node_set@.update(k as int, n),
            final(self).start == old(self).start,
            final(self).end == old(self).end,
    {
        self.node_set.set(k, n);
    }
}

/// `b` keeps the names of `a`; every service of `b` is the one of `a` or was
/// released (taken, with no predecessor left); a released node stays released.
pub open spec fn keeps_released(a: Seq<DagNodeModel>, b: Seq<DagNodeModel>) -> bool {
    &&& a.len() == b.len()
    &&& forall|k: int| 0 <= k < a.len() ==> #[trigger] b[k].name == a[k].name
    &&& forall|k: int| 0 <= k < a.len() ==> #[trigger] b[k].service == a[k].service || is_released(b[k])
    &&& forall|k: int| 0 <= k < a.len() && is_released(a[k]) ==> #[trigger] is_released(b[k])
}

/// The node ran: its service was taken once no predecessor remained.
pub open spec fn is_released(n: DagNodeModel) -> bool {
    n.service is None && n.from.len() == 0
}

pub proof fn lemma_same_names_find(a: Seq<DagNodeModel>, b: Seq<DagNodeModel>, name: Seq<char>)
    requires
        a.len() == b.len(),
        forall|k: int| 0 <= k < a.len() ==> #[trigger] b[k].name == a[k].name,
    ensures
        find_node(a, name) == find_node(b, name),
{
    assert forall|i: int| node_at(a, name, i) <==> node_at(b, name, i) by {
        if node_at(a, name, i) {
            assert forall|j: int| 0 <= j < i implies b[j].name != name by {
                assert(b[j].name == a[j].name);
            }
        }
        if node_at(b, name, i) {
            assert forall|j: int| 0 <= j < i implies a[j].name != name by {
                assert(b[j].name == a[j].name);
            }
        }
    }
    if exists|i: int| node_at(a, name, i) {
        let i = choose|i: int| node_at(a, name, i);
        let m = choose|m: int| node_at(b, name, m);
        lemma_node_at_unique(b, name, i, m);
    }
}

/// What `release` hands out was released from a node that held it, and
/// nothing that was released comes back.
pub proof fn lemma_release_once(nodes: Seq<DagNodeModel>, name: Seq<char>, to: Seq<Seq<char>>)
    requires
        release(nodes, name, to) is Ok,
    ensures
        ({
            let (ns2, out) = release(nodes, name, to)->Ok_0;
            &&& keeps_released(nodes, ns2)
            &&& forall|i: int|
                0 <= i < out.len() ==> exists|k: int|
                    0 <= k < nodes.len() && nodes[k].service == Some(#[trigger] out[i])
                        && is_released(ns2[k])
        }),
    decreases to.len(),
{
    if to.len() > 0 {
        lemma_release_once(nodes, name, to.drop_last());
        let (ns, out) = release(nodes, name, to.drop_last())->Ok_0;
        let k = find_node(ns, to.last())->Some_0;
        let (n, o) = release_node(ns[k], name);
        let ns2 = ns.update(k, n);
        assert(remove_first(Seq::<Seq<char>>::empty(), name) == Seq::<Seq<char>>::empty());
        if is_released(ns[k]) {
            assert(ns[k].from =~= Seq::<Seq<char>>::empty());
        }
        assert(keeps_released(ns, ns2));
        assert(keeps_released(nodes, ns2));
        let out2 = match o {
            Some(x) => out.push(x),
            None => out,
        };
        assert forall|i: int| 0 <= i < out2.len() implies exists|m: int|
            0 <= m < nodes.len() && nodes[m].service == Some(#[trigger] out2[i])
                && is_released(ns2[m]) by {
            if i < out.len() {
                assert(out2[i] == out[i]);
                let m = choose|m: int|
                    0 <= m < nodes.len() && nodes[m].service == Some(out[i]) && is_released(ns[m]);
                assert(is_released(ns2[m]));
            } else {
                assert(ns[k].service == Some(out2[i]));
                assert(nodes[k].service == ns[k].service);
                assert(is_released(ns2[k]));
            }
        }
    }
}

/// The positions of the nodes whose services `release` hands out, in order.
pub open spec fn release_idx(nodes: Seq<DagNodeModel>, name: Seq<char>, to: Seq<Seq<char>>) -> Seq<int>
    decreases to.len(),
{
    if to.len() == 0 {
        Seq::empty()
    } else {
        let prev = release_idx(nodes, name, to.drop_last());
        match release(nodes, name, to.drop_last()) {
            Ok((ns, _)) => match find_node(ns, to.last()) {
                Some(k) => if release_node(ns[k], name).1 is Some {
                    prev.push(k)
                } else {
                    prev
                },
                None => prev,
            },
            Err(_) => prev,
        }
    }
}

/// Each service `release` hands out comes from its own node: the positions
/// are distinct, each node held the service it hands out, and each is now
/// released.
pub proof fn lemma_release_distinct(nodes: Seq<DagNodeModel>, name: Seq<char>, to: Seq<Seq<char>>)
    requires
        release(nodes, name, to) is Ok,
    ensures
        ({
            let (ns2, out) = release(nodes, name, to)->Ok_0;
            let idx = release_idx(nodes, name, to);
            &&& idx.len() == out.len()
            &&& forall|i: int|
                0 <= i < idx.len() ==> 0 <= #[trigger] idx[i] < nodes.len() && nodes[idx[i]].service == Some(out[i])
                    && is_released(ns2[idx[i]])
            &&& forall|i: int, j: int| 0 <= i < j < idx.len() ==> idx[i] != idx[j]
        }),
    decreases to.len(),
{
    if to.len() > 0 {
        lemma_release_distinct(nodes, name, to.drop_last());
        lemma_release_once(nodes, name, to.drop_last());
        let (ns, out) = release(nodes, name, to.drop_last())->Ok_0;
        let prev = release_idx(nodes, name, to.drop_last());
        let k = find_node(ns, to.last())->Some_0;
        let (n, o) = release_node(ns[k], name);
        let ns2 = ns.update(k, n);
        assert(remove_first(Seq::<Seq<char>>::empty(), name) == Seq::<Seq<char>>::empty());
        if is_released(ns[k]) {
            assert(ns[k].from =~= Seq::<Seq<char>>::empty());
        }
        assert(keeps_released(ns, ns2));
        let idx = release_idx(nodes, name, to);
        match o {
            Some(x) => {
                assert(idx == prev.push(k));
                assert(!is_released(ns[k]));
                assert forall|i: int| 0 <= i < prev.len() implies prev[i] != k by {
                    assert(is_released(ns[prev[i]]));
                }
                assert(nodes[k].service == ns[k].service) by {
                    if nodes[k].service != ns[k].service {
                        assert(is_released(ns[k]));
                    }
                }
            },
            None => {},
        }
    }
}

/// While a node named `t` has not been reached in `to`, it is left as it
/// was; once reached, if it was waiting for `name` alone and held its
/// service, that service has been handed out.
pub proof fn lemma_release_reaches(
    nodes: Seq<DagNodeModel>,
    name: Seq<char>,
    to: Seq<Seq<char>>,
    m: int,
    sv: ServiceModel,
)
    requires
        release(nodes, name, to) is Ok,
        0 <= m < nodes.len(),
        find_node(nodes, nodes[m].name) == Some(m),
        nodes[m].from == seq![name],
        nodes[m].service == Some(sv),
    ensures
        ({
            let (ns2, out) = release(nodes, name, to)->Ok_0;
            &&& ns2.len() == nodes.len()
            &&& forall|i: int| 0 <= i < nodes.len() ==> #[trigger] ns2[i].name == nodes[i].name
            &&& has_name(to, nodes[m].name) ==> out.contains(sv)
            &&& !has_name(to, nodes[m].name) ==> ns2[m] == nodes[m]
        }),
    decreases to.len(),
{
    if to.len() > 0 {
        let t = to.drop_last();
        lemma_release_reaches(nodes, name, t, m, sv);
        let (ns, out) = release(nodes, name, t)->Ok_0;
        lemma_same_names_find(nodes, ns, to.last());
        lemma_same_names_find(nodes, ns, nodes[m].name);
        let k = find_node(ns, to.last())->Some_0;
        let (n, o) = release_node(ns[k], name);
        let ns2 = ns.update(k, n);
        let out2 = match o {
            Some(x) => out.push(x),
            None => out,
        };
        if has_name(t, nodes[m].name) {
            let j = choose|j: int| 0 <= j < out.len() && out[j] == sv;
            assert(out2[j] == sv);
            assert(has_name(to, nodes[m].name)) by {
                let q = choose|q: int| 0 <= q < t.len() && t[q] == nodes[m].name;
                assert(to[q] == t[q]);
            }
        } else if to.last() == nodes[m].name {
            assert(k == m);
            assert(remove_first(seq![name], name) =~= Seq::<Seq<char>>::empty());
            assert(o == Some(sv));
            assert(out2[out.len() as int] == sv);
            assert(has_name(to, nodes[m].name)) by {
                assert(to[to.len() - 1] == nodes[m].name);
            }
        } else {
            assert(k != m) by {
                if k == m {
                    assert(ns[k].name == to.last());
                }
            }
            assert(!has_name(to, nodes[m].name)) by {
                if has_name(to, nodes[m].name) {
                    let q = choose|q: int| 0 <= q < to.len() && to[q] == nodes[m].name;
                    if q < to.len() - 1 {
                        assert(t[q] == to[q]);
                    }
                }
            }
        }
    }
}

/// Join semantics of a DAG: when a node finishes, the services handed out
/// come from distinct nodes; each of them still held its service and now has
/// no predecessor left and no service; and a node that already ran (no
/// predecessor left, no service) stays so. A node is thus handed out once,
/// when all its predecessors have finished, and never after it ran.
pub proof fn lemma_dag_join_once(d: DagModel, name: Seq<char>)
    requires
        dag_next(d, name) matches Ok((_, NextModel::Nodes(_))),
    ensures
        ({
            let (d2, m) = dag_next(d, name)->Ok_0;
            let out = m->Nodes_0;
            exists|idx: Seq<int>|
                {
                    &&& idx.len() == out.len()
                    &&& forall|i: int|
                        0 <= i < idx.len() ==> 0 <= #[trigger] idx[i] < d.nodes.len() && d.nodes[idx[i]].service
                            == Some(out[i]) && is_released(d2.nodes[idx[i]])
                    &&& forall|i: int, j: int| 0 <= i < j < idx.len() ==> idx[i] != idx[j]
                }
        }),
        ({
            let d2 = dag_next(d, name)->Ok_0.0;
            forall|k: int|
                0 <= k < d.nodes.len() && is_released(#[trigger] d.nodes[k]) ==> is_released(d2.nodes[k])
        }),
{
    let k = find_node(d.nodes, name)->Some_0;
    let to = d.nodes[k].to;
    let ns = d.nodes.update(k, DagNodeModel { to: Seq::empty(), ..d.nodes[k] });
    lemma_release_once(ns, name, to);
    lemma_release_distinct(ns, name, to);
    assert(keeps_released(d.nodes, ns));
    let idx = release_idx(ns, name, to);
    let out = release(ns, name, to)->Ok_0.1;
    assert forall|i: int| 0 <= i < idx.len() implies d.nodes[idx[i]].service == Some(#[trigger] out[i]) by {
        let j = idx[i];
        if j == k {
            assert(ns[j].service == d.nodes[j].service);
        } else {
            assert(ns[j] == d.nodes[j]);
        }
    }
}

/// The other half of join semantics: when the last predecessor a node is
/// waiting for finishes, and that node still holds its service and is a
/// successor of the finished node, its service is handed out.
pub proof fn lemma_dag_join_released(d: DagModel, name: Seq<char>, m: int, sv: ServiceModel)
    requires
        dag_next(d, name) matches Ok((_, NextModel::Nodes(_))),
        0 <= m < d.nodes.len(),
        find_node(d.nodes, d.nodes[m].name) == Some(m),
        find_node(d.nodes, name) != Some(m),
        d.nodes[m].from == seq![name],
        d.nodes[m].service == Some(sv),
        has_name(d.nodes[find_node(d.nodes, name)->Some_0].to, d.nodes[m].name),
    ensures
        (dag_next(d, name)->Ok_0.1)->Nodes_0.contains(sv),
{
    let k = find_node(d.nodes, name)->Some_0;
    let to = d.nodes[k].to;
    let ns = d.nodes.update(k, DagNodeModel { to: Seq::empty(), ..d.nodes[k] });
    lemma_same_names_find(d.nodes, ns, d.nodes[m].name);
    assert(ns[m] == d.nodes[m]);
    lemma_release_reaches(ns, name, to, m, sv);
}

/// Every successor named in the plan is a node of the plan.
pub open spec fn dag_closed(nodes: Seq<DagNodeModel>) -> bool {
    forall|i: int, j: int|
        0 <= i < nodes.len() && 0 <= j < nodes[i].to.len() ==> #[trigger] find_node(
            nodes,
            nodes[i].to[j],
        ) is Some
}

/// Releasing successors that all exist succeeds, and keeps names and
/// successor lists.
pub proof fn lemma_release_ok(nodes: Seq<DagNodeModel>, name: Seq<char>, to: Seq<Seq<char>>)
    requires
        forall|j: int| 0 <= j < to.len() ==> #[trigger] find_node(nodes, to[j]) is Some,
    ensures
        release(nodes, name, to) is Ok,
        ({
            let ns2 = release(nodes, name, to)->Ok_0.0;
            &&& ns2.len() == nodes.len()
            &&& forall|k: int| 0 <= k < nodes.len() ==> #[trigger] ns2[k].name == nodes[k].name
            &&& forall|k: int| 0 <= k < nodes.len() ==> #[trigger] ns2[k].to == nodes[k].to
        }),
    decreases to.len(),
{
    if to.len() > 0 {
        let t = to.drop_last();
        assert forall|j: int| 0 <= j < t.len() implies #[trigger] find_node(nodes, t[j]) is Some by {
            assert(t[j] == to[j]);
        }
        lemma_release_ok(nodes, name, t);
        let ns = release(nodes, name, t)->Ok_0.0;
        lemma_same_names_find(nodes, ns, to.last());
        assert(find_node(nodes, to[to.len() - 1]) is Some);
    }
}

/// A plan that passes validation can start: its start node holds a service;
/// and all its successor references resolve.
pub proof fn lemma_valid_plan_starts(d: DagModel)
    requires
        dag_valid(d),
    ensures
        dag_get(d, d.start).1 is Some,
        dag_closed(d.nodes),
{
    let k = find_node(d.nodes, d.start)->Some_0;
    assert(node_ok(d, d.nodes[k]));
    assert forall|i: int, j: int|
        0 <= i < d.nodes.len() && 0 <= j < d.nodes[i].to.len() implies #[trigger] find_node(
        d.nodes,
        d.nodes[i].to[j],
    ) is Some by {
        assert(node_ok(d, d.nodes[i]));
        assert(to_ok(d.nodes, d.nodes[i], d.nodes[i].to[j]));
    }
}

/// On a plan whose successor references resolve, reporting any node of the
/// plan as finished never fails with a missing node, and the references
/// still resolve afterwards; taking a service keeps them too.
pub proof fn lemma_closed_plan_never_misses(d: DagModel, name: Seq<char>)
    requires
        dag_closed(d.nodes),
        find_node(d.nodes, name) is Some,
    ensures
        dag_next(d, name) is Ok,
        dag_closed(dag_next(d, name)->Ok_0.0.nodes),
        dag_closed(dag_get(d, name).0.nodes),
{
    let k = find_node(d.nodes, name)->Some_0;
    let ns = d.nodes.update(k, DagNodeModel { to: Seq::empty(), ..d.nodes[k] });
    lemma_same_names_find(d.nodes, ns, name);
    assert forall|n: Seq<char>| find_node(d.nodes, n) == find_node(ns, n) by {
        lemma_same_names_find(d.nodes, ns, n);
    }
    let to = d.nodes[k].to;
    assert forall|j: int| 0 <= j < to.len() implies #[trigger] find_node(ns, to[j]) is Some by {
        assert(find_node(d.nodes, d.nodes[k].to[j]) is Some);
    }
    lemma_release_ok(ns, name, to);
    if name != d.end {
        let ns2 = release(ns, name, to)->Ok_0.0;
        assert forall|n: Seq<char>| find_node(ns, n) == find_node(ns2, n) by {
            lemma_same_names_find(ns, ns2, n);
        }
        assert forall|i: int, j: int|
            0 <= i < ns2.len() && 0 <= j < ns2[i].to.len() implies #[trigger] find_node(
            ns2,
            ns2[i].to[j],
        ) is Some by {
            assert(ns2[i].to == ns[i].to);
            if i != k {
                assert(ns[i] == d.nodes[i]);
                assert(find_node(d.nodes, d.nodes[i].to[j]) is Some);
            }
        }
    }
    let g = dag_get(d, name).0.nodes;
    assert forall|n: Seq<char>| find_node(d.nodes, n) == find_node(g, n) by {
        lemma_same_names_find(d.nodes, g, n);
    }
    assert forall|i: int, j: int|
        0 <= i < g.len() && 0 <= j < g[i].to.len() implies #[trigger] find_node(g, g[i].to[j]) is Some by {
        assert(g[i].to == d.nodes[i].to);
        assert(find_node(d.nodes, d.nodes[i].to[j]) is Some);
    }
}

} // verus!
