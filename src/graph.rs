use vstd::prelude::*;

use crate::dag::{CheckError, NextModel};
use crate::plan::{
    contains_name, has_name, names, remove_first, remove_name, NextPlan, PlanError,
    ServiceEntityJson, ServiceModel,
};
use crate::input::clone_strings;

verus! {

/// A node of a graph plan. `from` lists the declared predecessors it waits
/// for; `from_completed` those still pending in the current round.
#[derive(Debug)]
pub struct GraphNode {
    pub in_degree: i32,
    pub node_name: String,
    pub from: Vec<String>,
    pub from_completed: Vec<String>,
    pub to: Vec<String>,
    pub service: ServiceEntityJson,
}

pub struct GraphNodeModel {
    pub in_degree: int,
    pub name: Seq<char>,
    pub from: Seq<Seq<char>>,
    pub from_completed: Seq<Seq<char>>,
    pub to: Seq<Seq<char>>,
    pub service: ServiceModel,
}

impl View for GraphNode {
    type V = GraphNodeModel;

    open spec fn view(&self) -> GraphNodeModel {
        GraphNodeModel {
            in_degree: self.in_degree as int,
            name: self.node_name@,
            from: names(self.from@),
            from_completed: names(self.from_completed@),
            to: names(self.to@),
            service: self.service@,
        }
    }
}

/// A node after predecessor `f` finished, and the service it then runs, if
/// it is ready: a node without declared predecessors is always ready; else
/// it is ready when the last pending predecessor finishes, which starts a
/// new round.
pub open spec fn complete_from(n: GraphNodeModel, f: Seq<char>) -> (GraphNodeModel, Option<ServiceModel>) {
    if n.from.len() == 0 {
        (n, Some(n.service))
    } else {
        let pending = if n.from_completed.len() == 0 {
            n.from
        } else {
            n.from_completed
        };
        let rest = remove_first(pending, f);
        (
            GraphNodeModel { from_completed: rest, ..n },
            if rest.len() == 0 {
                Some(n.service)
            } else {
                None
            },
        )
    }
}

pub proof fn lemma_names_clone(a: Seq<String>, b: Seq<String>)
    requires
        a.len() == b.len(),
        forall|i: int| 0 <= i < a.len() ==> #[trigger] a[i]@ == b[i]@,
    ensures
        names(a) == names(b),
{
    assert(names(a) =~= names(b));
}

impl GraphNode {
    pub fn new(node_name: String, service: ServiceEntityJson) -> (r: GraphNode)
        ensures
            r@.name == node_name@,
            r@.in_degree == 0,
            r@.from.len() == 0,
            r@.from_completed.len() == 0,
            r@.to.len() == 0,
            r@.service == (service@.0, node_name@, service@.2),
    {
        let service = service.set_node_name(node_name.clone());
        GraphNode {
            in_degree: 0,
            node_name,
            from: Vec::new(),
            from_completed: Vec::new(),
            to: Vec::new(),
            service,
        }
    }

    /// Renames the node and the node name its service carries.
    pub fn set_node_name(self, node_name: String) -> (r: GraphNode)
        ensures
            r@ == (GraphNodeModel {
                name: node_name@,
                service: (self@.service.0, node_name@, self@.service.2),
                ..self@
            }),
    {
        let service = self.service.set_node_name(node_name.clone());
        GraphNode { node_name, service, ..self }
    }

    pub fn set_from(self, from: Vec<String>) -> (r: GraphNode)
        ensures
            r@ == (GraphNodeModel { from: names(from@), ..self@ }),
    {
        GraphNode { from, ..self }
    }

    pub fn set_to(self, to: Vec<String>) -> (r: GraphNode)
        ensures
            r@ == (GraphNodeModel { to: names(to@), ..self@ }),
    {
        GraphNode { to, ..self }
    }

    /// Declares a predecessor unless it is already declared.
    pub fn add_from(&mut self, node_name: String)
        ensures
            final(self)@ == (GraphNodeModel {
                from: crate::dag::add_unique(old(self)@.from, node_name@),
                ..old(self)@
            }),
    {
        if !contains_name(&self.from, &node_name) {
            proof {
                crate::dag::lemma_names_push(self.from@, node_name);
            }
            self.from.push(node_name);
        }
    }

    /// Adds a successor unless it is already there.
    pub fn add_to(&mut self, node_name: String)
        ensures
            final(self)@ == (GraphNodeModel {
                to: crate::dag::add_unique(old(self)@.to, node_name@),
                ..old(self)@
            }),
    {
        if !contains_name(&self.to, &node_name) {
            proof {
                crate::dag::lemma_names_push(self.to@, node_name);
            }
            self.to.push(node_name);
        }
    }

    pub fn have_to(&self, t: &String) -> (r: bool)
        ensures
            r == has_name(self@.to, t@),
    {
        contains_name(&self.to, t)
    }

    /// Gives the node a service, which takes the node's name.
    pub fn set_service_entity(self, service: ServiceEntityJson) -> (r: GraphNode)
        ensures
            r@ == (GraphNodeModel { service: (service@.0, self@.name, service@.2), ..self@ }),
    {
        let service = service.set_node_name(self.node_name.clone());
        GraphNode { service, ..self }
    }

    /// A copy of the node's service.
    pub fn get_service_entity(&self) -> (r: ServiceEntityJson)
        ensures
            r@ == self@.service,
    {
        self.service.deep_clone()
    }

    /// Records that predecessor `f` finished; returns the service when the
    /// node is ready.
    pub fn from_completed(&mut self, f: &String) -> (r: Option<ServiceEntityJson>)
        ensures
            final(self)@ == complete_from(old(self)@, f@).0,
            match r {
                Some(s) => complete_from(old(self)@, f@).1 == Some(s@),
                None => complete_from(old(self)@, f@).1 is None,
            },
    {
        if self.from.len() == 0 {
            return Some(self.get_service_entity());
        }
        if self.from_completed.len() == 0 {
            let c = clone_strings(&self.from);
            proof {
                lemma_names_clone(c@, self.from@);
            }
            self.from_completed = c;
        }
        remove_name(&mut self.from_completed, f);
        if self.from_completed.len() == 0 {
            return Some(self.get_service_entity());
        }
        None
    }
}

/// A graph plan: conditional routing may rewrite a node's successors while
/// the plan runs.
#[derive(Debug)]
pub struct Graph {
    pub start: String,
    pub end: String,
    pub node_set: Vec<GraphNode>,
}

pub struct GraphModel {
    pub start: Seq<char>,
    pub end: Seq<char>,
    pub nodes: Seq<GraphNodeModel>,
}

impl View for Graph {
    type V = GraphModel;

    open spec fn view(&self) -> GraphModel {
        GraphModel {
            start: self.start@,
            end: self.end@,
            nodes: gnode_views(self.node_set@),
        }
    }
}

/// `i` is the first node named `name`.
pub open spec fn gnode_at(nodes: Seq<GraphNodeModel>, name: Seq<char>, i: int) -> bool {
    &&& 0 <= i < nodes.len()
    &&& nodes[i].name == name
    &&& forall|j: int| 0 <= j < i ==> nodes[j].name != name
}

/// The position of the node named `name`.
pub open spec fn find_gnode(nodes: Seq<GraphNodeModel>, name: Seq<char>) -> Option<int> {
    if exists|i: int| gnode_at(nodes, name, i) {
        Some(choose|i: int| gnode_at(nodes, name, i))
    } else {
        None
    }
}

pub proof fn lemma_gnode_at_unique(nodes: Seq<GraphNodeModel>, name: Seq<char>, i: int, k: int)
    requires
        gnode_at(nodes, name, i),
        gnode_at(nodes, name, k),
    ensures
        i == k,
{
}

/// The successors `to` of a node that finished as `name`, in order; the
/// services that become ready; or the first successor that is missing.
pub open spec fn graph_release(nodes: Seq<GraphNodeModel>, name: Seq<char>, to: Seq<Seq<char>>) -> Result<
    (Seq<GraphNodeModel>, Seq<ServiceModel>),
    Seq<char>,
>
    decreases to.len(),
{
    if to.len() == 0 {
        Ok((nodes, Seq::empty()))
    } else {
        match graph_release(nodes, name, to.drop_last()) {
            Err(e) => Err(e),
            Ok((ns, out)) => match find_gnode(ns, to.last()) {
                None => Err(to.last()),
                Some(k) => {
                    let (n, o) = complete_from(ns[k], name);
                    Ok(
                        (
                            ns.update(k, n),
                            match o {
                                Some(x) => out.push(x),
                                None => out,
                            },
                        ),
                    )
                },
            },
        }
    }
}

/// The plan after node `name` finished, and what it answers.
pub open spec fn graph_next(g: GraphModel, name: Seq<char>) -> Result<(GraphModel, NextModel), Seq<char>> {
    if name == g.end {
        Ok((g, NextModel::End))
    } else {
        match find_gnode(g.nodes, name) {
            None => Err(name),
            Some(k) => match graph_release(g.nodes, name, g.nodes[k].to) {
                Err(e) => Err(e),
                Ok((ns2, out)) => Ok((GraphModel { nodes: ns2, ..g }, NextModel::Nodes(out))),
            },
        }
    }
}

pub proof fn lemma_graph_release_err_extends(
    nodes: Seq<GraphNodeModel>,
    name: Seq<char>,
    to: Seq<Seq<char>>,
    m: int,
)
    requires
        0 <= m <= to.len(),
        graph_release(nodes, name, to.subrange(0, m)) is Err,
    ensures
        graph_release(nodes, name, to) == graph_release(nodes, name, to.subrange(0, m)),
    decreases to.len(),
{
    if to.len() == m {
        assert(to.subrange(0, m) =~= to);
    } else {
        let t = to.drop_last();
        assert(t.subrange(0, m) =~= to.subrange(0, m));
        lemma_graph_release_err_extends(nodes, name, t, m);
    }
}

/// The nodes with `n` added, replacing a node of the same name.
pub open spec fn insert_gnode(nodes: Seq<GraphNodeModel>, n: GraphNodeModel) -> Seq<GraphNodeModel> {
    match find_gnode(nodes, n.name) {
        Some(k) => nodes.update(k, n),
        None => nodes.push(n),
    }
}

/// A node made by an edge: no predecessor, no successor, a service without
/// a name and without input rules.
pub open spec fn bare_gnode(name: Seq<char>) -> GraphNodeModel {
    GraphNodeModel {
        in_degree: 0,
        name,
        from: Seq::empty(),
        from_completed: Seq::empty(),
        to: Seq::empty(),
        service: (Seq::empty(), name, (false, Seq::empty(), crate::json::Json::Null)),
    }
}

/// The plan with the edge `f -> t` added: `t` becomes a successor of `f`;
/// missing nodes are created bare. Predecessors are not recorded: a graph
/// node waits only for the predecessors it declares.
pub open spec fn graph_edge(g: GraphModel, f: Seq<char>, t: Seq<char>) -> GraphModel {
    let n1 = match find_gnode(g.nodes, f) {
        Some(k) => g.nodes.update(
            k,
            GraphNodeModel { to: crate::dag::add_unique(g.nodes[k].to, t), ..g.nodes[k] },
        ),
        None => g.nodes.push(GraphNodeModel { to: seq![t], ..bare_gnode(f) }),
    };
    let n2 = match find_gnode(n1, t) {
        Some(k) => n1,
        None => n1.push(bare_gnode(t)),
    };
    GraphModel {
        start: if g.start.len() == 0 { f } else { g.start },
        end: t,
        nodes: n2,
    }
}

/// Node `k` is reachable from node `s` in at most `n` steps along successor
/// references that resolve.
pub open spec fn greach(nodes: Seq<GraphNodeModel>, s: int, k: int, n: nat) -> bool
    decreases n,
{
    if n == 0 {
        k == s
    } else {
        greach(nodes, s, k, (n - 1) as nat) || exists|u: int, j: int|
            0 <= u < nodes.len() && 0 <= j < nodes[u].to.len() && greach(nodes, s, u, (n - 1) as nat)
                && #[trigger] find_gnode(nodes, nodes[u].to[j]) == Some(k)
    }
}

pub open spec fn greachable(nodes: Seq<GraphNodeModel>, s: int, k: int) -> bool {
    exists|n: nat| greach(nodes, s, k, n)
}

/// Every successor of node `k` is a node of the plan.
pub open spec fn succ_ok(nodes: Seq<GraphNodeModel>, k: int) -> bool {
    forall|j: int| 0 <= j < nodes[k].to.len() ==> #[trigger] find_gnode(nodes, nodes[k].to[j]) is Some
}

/// Node `k` has a successor unless it is the end.
pub open spec fn end_ok(nodes: Seq<GraphNodeModel>, end: Seq<char>, k: int) -> bool {
    nodes[k].to.len() == 0 ==> nodes[k].name == end
}

/// From the start, every path goes on through existing nodes until the end.
pub open spec fn reach_ok(g: GraphModel) -> bool {
    reach_ok_from(g.nodes, g.end, find_gnode(g.nodes, g.start)->Some_0)
}

pub open spec fn reach_ok_from(nodes: Seq<GraphNodeModel>, end: Seq<char>, s: int) -> bool {
    forall|k: int|
        0 <= k < nodes.len() && #[trigger] greachable(nodes, s, k) ==> succ_ok(nodes, k) && end_ok(
            nodes,
            end,
            k,
        )
}

/// Each declared predecessor exists and lists the node among its successors.
pub open spec fn from_ok(g: GraphModel) -> bool {
    forall|i: int, j: int|
        0 <= i < g.nodes.len() && 0 <= j < g.nodes[i].from.len() ==> match find_gnode(
            g.nodes,
            #[trigger] g.nodes[i].from[j],
        ) {
            Some(m) => has_name(g.nodes[m].to, g.nodes[i].name),
            None => false,
        }
}

/// Each node's service has a service name and a node name.
pub open spec fn services_ok(g: GraphModel) -> bool {
    forall|i: int|
        0 <= i < g.nodes.len() ==> (#[trigger] g.nodes[i]).service.0.len() > 0
            && g.nodes[i].service.1.len() > 0
}

/// A graph plan that may run.
pub open spec fn graph_valid(g: GraphModel) -> bool {
    &&& find_gnode(g.nodes, g.start) is Some
    &&& find_gnode(g.nodes, g.end) is Some
    &&& reach_ok(g)
    &&& from_ok(g)
    &&& services_ok(g)
}

pub open spec fn count_false(s: Seq<bool>) -> nat
    decreases s.len(),
{
    if s.len() == 0 {
        0
    } else {
        count_false(s.drop_last()) + if s.last() {
            0nat
        } else {
            1nat
        }
    }
}

pub proof fn lemma_count_false_set(s: Seq<bool>, k: int)
    requires
        0 <= k < s.len(),
        !s[k],
    ensures
        count_false(s.update(k, true)) + 1 == count_false(s),
    decreases s.len(),
{
    let t = s.update(k, true);
    if k == s.len() - 1 {
        assert(t.drop_last() =~= s.drop_last());
    } else {
        assert(t.drop_last() =~= s.drop_last().update(k, true));
        lemma_count_false_set(s.drop_last(), k);
    }
}

/// A set of nodes that holds the start and every resolved successor of its
/// members holds every reachable node.
pub proof fn lemma_closed_holds_reachable(nodes: Seq<GraphNodeModel>, s: int, vis: Seq<bool>, k: int, n: nat)
    requires
        vis.len() == nodes.len(),
        0 <= s < nodes.len(),
        vis[s],
        forall|u: int, j: int|
            0 <= u < nodes.len() && vis[u] && 0 <= j < nodes[u].to.len() ==> (
            #[trigger] find_gnode(nodes, nodes[u].to[j]) matches Some(m) && 0 <= m < nodes.len()
                && vis[m]),
        greach(nodes, s, k, n),
    ensures
        0 <= k < nodes.len() && vis[k],
    decreases n,
{
    if n > 0 {
        if greach(nodes, s, k, (n - 1) as nat) {
            lemma_closed_holds_reachable(nodes, s, vis, k, (n - 1) as nat);
        } else {
            let (u, j) = choose|u: int, j: int|
                0 <= u < nodes.len() && 0 <= j < nodes[u].to.len() && greach(nodes, s, u, (n - 1) as nat)
                    && #[trigger] find_gnode(nodes, nodes[u].to[j]) == Some(k);
            lemma_closed_holds_reachable(nodes, s, vis, u, (n - 1) as nat);
        }
    }
}

/// Every successor of node `k` resolves to a node marked in `vis`.
pub open spec fn done(nodes: Seq<GraphNodeModel>, vis: Seq<bool>, k: int) -> bool {
    &&& succ_ok(nodes, k)
    &&& forall|j: int|
        0 <= j < nodes[k].to.len() ==> vis[find_gnode(nodes, #[trigger] nodes[k].to[j])->Some_0]
}

pub proof fn lemma_done_mono(nodes: Seq<GraphNodeModel>, vis: Seq<bool>, m: int, k: int)
    requires
        0 <= m < vis.len(),
        vis.len() == nodes.len(),
        done(nodes, vis, k),
    ensures
        done(nodes, vis.update(m, true), k),
{
    assert forall|j: int| 0 <= j < nodes[k].to.len() implies vis.update(m, true)[find_gnode(
        nodes,
        #[trigger] nodes[k].to[j],
    )->Some_0] by {
        assert(find_gnode(nodes, nodes[k].to[j]) is Some);
        let x = find_gnode(nodes, nodes[k].to[j])->Some_0;
        assert(gnode_at(nodes, nodes[k].to[j], x));
        assert(vis[x]);
    }
}

/// The plan with the edges added in order.
pub open spec fn edges_model(g: GraphModel, es: Seq<(Seq<char>, Seq<char>)>) -> GraphModel
    decreases es.len(),
{
    if es.len() == 0 {
        g
    } else {
        graph_edge(edges_model(g, es.drop_last()), es.last().0, es.last().1)
    }
}

/// The models of a list of nodes.
pub open spec fn gnode_views(s: Seq<GraphNode>) -> Seq<GraphNodeModel> {
    s.map_values(|n: GraphNode| n@)
}

/// The nodes with each of `ns` added in order.
pub open spec fn insert_all(nodes: Seq<GraphNodeModel>, ns: Seq<GraphNodeModel>) -> Seq<GraphNodeModel>
    decreases ns.len(),
{
    if ns.len() == 0 {
        nodes
    } else {
        insert_gnode(insert_all(nodes, ns.drop_last()), ns.last())
    }
}

impl Graph {
    pub fn new() -> (r: Graph)
        ensures
            r@.start.len() == 0,
            r@.end.len() == 0,
            r@.nodes.len() == 0,
    {
        Graph { start: String::new(), end: String::new(), node_set: Vec::new() }
    }

    pub fn start_node_name(&self) -> (r: &String)
        ensures
            r@ == self@.start,
    {
        &self.start
    }

    pub fn end_node_name(&self) -> (r: &String)
        ensures
            r@ == self@.end,
    {
        &self.end
    }

    /// The position of the node named `name`.
    pub fn index_of(&self, name: &String) -> (r: Option<usize>)
        ensures
            match r {
                Some(i) => find_gnode(self@.nodes, name@) == Some(i as int),
                None => find_gnode(self@.nodes, name@) is None,
            },
    {
        let mut i: usize = 0;
        while i < self.node_set.len()
            invariant
                i <= self.node_set.len(),
                forall|j: int| 0 <= j < i ==> self@.nodes[j].name != name@,
            decreases self.node_set.len() - i,
        {
            if self.node_set[i].node_name == *name {
                proof {
                    assert(gnode_at(self@.nodes, name@, i as int));
                    let k = choose|k: int| gnode_at(self@.nodes, name@, k);
                    lemma_gnode_at_unique(self@.nodes, name@, i as int, k);
                }
                return Some(i);
            }
            i = i + 1;
        }
        None
    }

    /// A copy of the service of node `name`; a graph node may run again.
    pub fn get_service_entity(&self, name: &String) -> (r: Option<ServiceEntityJson>)
        ensures
            match r {
                Some(s) => find_gnode(self@.nodes, name@) matches Some(k) && s@ == self@.nodes[k].service,
                None => find_gnode(self@.nodes, name@) is None,
            },
    {
        match self.index_of(name) {
            Some(k) => Some(self.node_set[k].get_service_entity()),
            None => None,
        }
    }

    fn take_node(&mut self, k: usize) -> (r: GraphNode)
        requires
            k < old(self).node_set.len(),
        ensures
            r == old(self).node_set@[k as int],
            final(self).node_set@.len() == old(self).node_set@.len(),
            final(self).start == old(self).start,
            final(self).end == old(self).end,
            forall|j: int|
                0 <= j < old(self).node_set@.len() && j != k ==> final(self).node_set@[j]
                    == old(self).node_set@[j],
    {
        let n = self.node_set.remove(k);
        let placeholder = GraphNode {
            in_degree: 0,
            node_name: String::new(),
            from: Vec::new(),
            from_completed: Vec::new(),
            to: Vec::new(),
            service: ServiceEntityJson::new(String::new(), crate::input::JsonInput::new()),
        };
        self.node_set.insert(k, placeholder);
        n
    }

    fn put_node(&mut self, k: usize, n: GraphNode)
        requires
            k < old(self).node_set.len(),
        ensures
            final(self).node_set@ == old(self).node_set@.update(k as int, n),
            final(self).start == old(self).start,
            final(self).end == old(self).end,
    {
        self.node_set.set(k, n);
    }

    /// Reports that node `name` has finished: each successor records it, and
    /// the successors that are ready are returned, in the order of `name`'s
    /// successor list. The end node answers `End`.
    pub fn next(&mut self, name: &String) -> (r: Result<NextPlan, PlanError>)
        ensures
            final(self)@.start == old(self)@.start,
            final(self)@.end == old(self)@.end,
            match graph_next(old(self)@, name@) {
                Ok((g2, m)) => r matches Ok(p) && final(self)@ == g2 && crate::dag::next_model(p) == m,
                Err(e) => r matches Err(PlanError::NodeNotFound(x)) && x@ == e,
            },
    {
        if *name == self.end {
            return Ok(NextPlan::End);
        }
        let k = match self.index_of(name) {
            Some(k) => k,
            None => {
                return Err(PlanError::NodeNotFound(name.clone()));
            },
        };
        let ghost g0 = self@;
        let to = clone_strings(&self.node_set[k].to);
        let ghost tos = names(to@);
        proof {
            lemma_names_clone(to@, self.node_set@[k as int].to@);
            assert(g0.nodes[k as int].to == tos);
        }
        let mut out: Vec<ServiceEntityJson> = Vec::new();
        let mut i: usize = 0;
        proof {
            assert(tos.subrange(0, 0) =~= Seq::<Seq<char>>::empty());
            assert(out@.map_values(|s: ServiceEntityJson| s@) =~= Seq::<ServiceModel>::empty());
        }
        while i < to.len()
            invariant
                i <= to.len(),
                tos == names(to@),
                g0 == old(self)@,
                name@ != g0.end,
                find_gnode(g0.nodes, name@) == Some(k as int),
                k < g0.nodes.len(),
                g0.nodes[k as int].to == tos,
                self@.start == g0.start,
                self@.end == g0.end,
                graph_release(g0.nodes, name@, tos.subrange(0, i as int)) == Ok::<
                    (Seq<GraphNodeModel>, Seq<ServiceModel>),
                    Seq<char>,
                >((self@.nodes, out@.map_values(|s: ServiceEntityJson| s@))),
            decreases to.len() - i,
        {
            let ghost before = self@.nodes;
            let ghost out0 = out@.map_values(|s: ServiceEntityJson| s@);
            proof {
                assert(tos.subrange(0, i + 1).drop_last() =~= tos.subrange(0, i as int));
                assert(tos.subrange(0, i + 1).last() == to@[i as int]@);
            }
            let j = match self.index_of(&to[i]) {
                Some(j) => j,
                None => {
                    proof {
                        assert(graph_release(g0.nodes, name@, tos.subrange(0, i + 1)) == Err::<
                            (Seq<GraphNodeModel>, Seq<ServiceModel>),
                            Seq<char>,
                        >(to@[i as int]@));
                        lemma_graph_release_err_extends(g0.nodes, name@, tos, i + 1);
                    }
                    return Err(PlanError::NodeNotFound(to[i].clone()));
                },
            };
            let mut n = self.take_node(j);
            let ready = n.from_completed(name);
            self.put_node(j, n);
            proof {
                assert(self@.nodes =~= before.update(j as int, complete_from(before[j as int], name@).0));
            }
            match ready {
                Some(x) => {
                    out.push(x);
                    proof {
                        assert(out@.map_values(|s: ServiceEntityJson| s@) =~= out0.push(x@));
                    }
                },
                None => {},
            }
            i = i + 1;
        }
        proof {
            assert(tos.subrange(0, to.len() as int) =~= tos);
        }
        Ok(NextPlan::Nodes(out))
    }

    /// Rewrites the successors of node `name`, if it exists; a conditional
    /// node uses this to choose its branch.
    pub fn set_to(&mut self, name: &String, to: Vec<String>)
        ensures
            final(self)@ == match find_gnode(old(self)@.nodes, name@) {
                None => old(self)@,
                Some(k) => GraphModel {
                    nodes: old(self)@.nodes.update(
                        k,
                        GraphNodeModel { to: names(to@), ..old(self)@.nodes[k] },
                    ),
                    ..old(self)@
                },
            },
    {
        match self.index_of(name) {
            None => {},
            Some(k) => {
                let ghost g0 = self@;
                let n = self.take_node(k);
                let n = n.set_to(to);
                self.put_node(k, n);
                proof {
                    assert(self@.nodes =~= g0.nodes.update(
                        k as int,
                        GraphNodeModel { to: names(to@), ..g0.nodes[k as int] },
                    ));
                }
            },
        }
    }

    /// Adds a node, replacing a node of the same name.
    pub fn node(self, node: GraphNode) -> (r: Graph)
        ensures
            r@ == (GraphModel { nodes: insert_gnode(self@.nodes, node@), ..self@ }),
    {
        let mut g = self;
        match g.index_of(&node.node_name) {
            Some(k) => {
                let ghost g0 = g@;
                g.put_node(k, node);
                proof {
                    assert(g@.nodes =~= g0.nodes.update(k as int, node@));
                }
            },
            None => {
                let ghost g0 = g@;
                g.node_set.push(node);
                proof {
                    assert(g@.nodes =~= g0.nodes.push(node@));
                }
            },
        }
        g
    }

    /// Adds the edge `from -> to`. The first edge's source becomes the start;
    /// the latest edge's target becomes the end.
    pub fn edge(self, from: String, to: String) -> (r: Graph)
        ensures
            r@ == graph_edge(self@, from@, to@),
    {
        let mut g = self;
        if g.start.unicode_len() == 0 {
            g.start = from.clone();
        }
        g.end = to.clone();
        let ghost g1 = g@;
        match g.index_of(&from) {
            Some(k) => {
                let mut n = g.take_node(k);
                n.add_to(to.clone());
                g.put_node(k, n);
                proof {
                    assert(g@.nodes =~= g1.nodes.update(
                        k as int,
                        GraphNodeModel { to: crate::dag::add_unique(g1.nodes[k as int].to, to@), ..g1.nodes[k as int] },
                    ));
                }
            },
            None => {
                let mut n = GraphNode::new(from.clone(), ServiceEntityJson::new(String::new(), crate::input::JsonInput::new()));
                proof {
                    assert(n@.to =~= Seq::<Seq<char>>::empty());
                    assert(n@.from =~= Seq::<Seq<char>>::empty());
                    assert(n@.from_completed =~= Seq::<Seq<char>>::empty());
                    assert(n@.service.2.1 =~= Seq::<(Seq<char>, crate::input::TranModel)>::empty());
                }
                n.add_to(to.clone());
                proof {
                    assert(crate::dag::add_unique(Seq::<Seq<char>>::empty(), to@) =~= seq![to@]);
                    assert(n@ == GraphNodeModel { to: seq![to@], ..bare_gnode(from@) });
                }
                g.node_set.push(n);
                proof {
                    assert(g@.nodes =~= g1.nodes.push(GraphNodeModel { to: seq![to@], ..bare_gnode(from@) }));
                }
            },
        }
        let ghost g2 = g@;
        match g.index_of(&to) {
            Some(_) => {},
            None => {
                let n = GraphNode::new(to, ServiceEntityJson::new(String::new(), crate::input::JsonInput::new()));
                proof {
                    assert(n@.to =~= Seq::<Seq<char>>::empty());
                    assert(n@.from =~= Seq::<Seq<char>>::empty());
                    assert(n@.from_completed =~= Seq::<Seq<char>>::empty());
                    assert(n@.service.2.1 =~= Seq::<(Seq<char>, crate::input::TranModel)>::empty());
                    assert(n@ == bare_gnode(to@));
                }
                g.node_set.push(n);
                proof {
                    assert(g@.nodes =~= g2.nodes.push(bare_gnode(to@)));
                }
            },
        }
        g
    }

    /// Whether node `k` has a successor or is the end.
    fn end_ok_exec(&self, k: usize) -> (r: bool)
        requires
            k < self@.nodes.len(),
        ensures
            r == end_ok(self@.nodes, self@.end, k as int),
    {
        self.node_set[k].to.len() != 0 || self.node_set[k].node_name == self.end
    }

    /// Walks the plan from the start node `s`.
    fn check_reachable(&self, s: usize) -> (r: Result<(), CheckError>)
        requires
            find_gnode(self@.nodes, self@.start) == Some(s as int),
        ensures
            r is Ok <==> reach_ok(self@),
    {
        let ghost nodes = self@.nodes;
        let n = self.node_set.len();
        let mut visited: Vec<bool> = Vec::new();
        while visited.len() < n
            invariant
                visited.len() <= n,
                forall|k: int| 0 <= k < visited.len() ==> !visited@[k],
            decreases n - visited.len(),
        {
            visited.push(false);
        }
        proof {
            assert(greach(nodes, s as int, s as int, 0));
            assert(greachable(nodes, s as int, s as int));
        }
        if !self.end_ok_exec(s) {
            proof {
                assert(!reach_ok(self@)) by {
                    assert(greachable(self@.nodes, s as int, s as int));
                    assert(!reach_ok_from(nodes, self@.end, s as int));
                }
            }
            return Err(CheckError::NoTo(self.node_set[s].node_name.clone()));
        }
        proof {
            lemma_count_false_set(visited@, s as int);
        }
        visited.set(s, true);
        let mut stack: Vec<usize> = Vec::new();
        stack.push(s);
        proof {
            assert(stack@[0] == s);
            assert forall|k: int| 0 <= k < n && visited@[k] implies #[trigger] greachable(nodes, s as int, k) by {
                assert(k == s);
            }
        }
        while stack.len() > 0
            invariant
                n == nodes.len(),
                nodes == self@.nodes,
                find_gnode(self@.nodes, self@.start) == Some(s as int),
                s < n,
                visited.len() == n,
                visited@[s as int],
                forall|i: int| 0 <= i < stack.len() ==> (#[trigger] stack@[i]) < n && visited@[stack@[i] as int],
                forall|k: int| 0 <= k < n && visited@[k] ==> #[trigger] greachable(nodes, s as int, k),
                forall|k: int| 0 <= k < n && visited@[k] ==> end_ok(nodes, self@.end, k),
                forall|k: int|
                    0 <= k < n && #[trigger] visited@[k] ==> stack@.contains(k as usize) || done(nodes, visited@, k),
            decreases 2 * count_false(visited@) + stack.len(),
        {
            let ghost st_before = stack@;
            let u = stack.pop().unwrap();
            let ghost c0 = 2 * count_false(visited@) + stack.len() + 1;
            proof {
                assert(st_before == stack@.push(u));
                assert(greachable(nodes, s as int, u as int));
                assert forall|k: int| 0 <= k < n && visited@[k] && k != u && st_before.contains(k as usize)
                    implies stack@.contains(k as usize) by {
                    let i = choose|i: int| 0 <= i < st_before.len() && st_before[i] == k as usize;
                    assert(stack@[i] == k as usize);
                }
                assert forall|i: int| 0 <= i < stack.len() implies (#[trigger] stack@[i]) < n && visited@[stack@[i] as int] by {
                    assert(stack@[i] == st_before[i]);
                }
            }
            let mut j: usize = 0;
            let len = self.node_set[u].to.len();
            while j < len
                invariant
                    n == nodes.len(),
                    nodes == self@.nodes,
                    find_gnode(self@.nodes, self@.start) == Some(s as int),
                    s < n,
                    u < n,
                    visited@[u as int],
                    len == nodes[u as int].to.len(),
                    j <= len,
                    visited.len() == n,
                    visited@[s as int],
                    2 * count_false(visited@) + stack.len() < c0,
                    forall|i: int| 0 <= i < stack.len() ==> (#[trigger] stack@[i]) < n && visited@[stack@[i] as int],
                    forall|k: int| 0 <= k < n && visited@[k] ==> #[trigger] greachable(nodes, s as int, k),
                    forall|k: int| 0 <= k < n && visited@[k] ==> end_ok(nodes, self@.end, k),
                    forall|m: int| 0 <= m < j ==> (#[trigger] find_gnode(nodes, nodes[u as int].to[m]) matches Some(x)
                        && 0 <= x < n && visited@[x]),
                    forall|k: int|
                        0 <= k < n && #[trigger] visited@[k] && k != u ==> stack@.contains(k as usize) || done(nodes, visited@, k),
                decreases len - j,
            {
                let t = &self.node_set[u].to[j];
                proof {
                    assert(nodes[u as int].to[j as int] == t@);
                }
                let m = match self.index_of(t) {
                    Some(m) => m,
                    None => {
                        proof {
                            assert(find_gnode(nodes, nodes[u as int].to[j as int]) is None);
                            assert(!succ_ok(nodes, u as int));
                            assert(!reach_ok(self@)) by {
                                assert(greachable(self@.nodes, s as int, u as int));
                                assert(!reach_ok_from(nodes, self@.end, s as int));
                            }
                        }
                        return Err(CheckError::ToNotFound(self.node_set[u].node_name.clone(), t.clone()));
                    },
                };
                if !visited[m] {
                    proof {
                        assert(greachable(nodes, s as int, u as int));
                        let w = choose|w: nat| greach(nodes, s as int, u as int, w);
                        assert(find_gnode(nodes, nodes[u as int].to[j as int]) == Some(m as int));
                        assert(greach(nodes, s as int, m as int, w + 1));
                        assert(greachable(nodes, s as int, m as int));
                    }
                    if !self.end_ok_exec(m) {
                        proof {
                            assert(!reach_ok(self@)) by {
                                assert(greachable(self@.nodes, s as int, m as int));
                                assert(!reach_ok_from(nodes, self@.end, s as int));
                            }
                        }
                        return Err(CheckError::NoTo(self.node_set[m].node_name.clone()));
                    }
                    proof {
                        lemma_count_false_set(visited@, m as int);
                    }
                    let ghost st0 = stack@;
                    let ghost vis0 = visited@;
                    visited.set(m, true);
                    stack.push(m);
                    proof {
                        assert forall|k: int| 0 <= k < n && #[trigger] visited@[k] && k != u implies stack@.contains(k as usize) || done(nodes, visited@, k) by {
                            if k == m {
                                assert(stack@[stack.len() - 1] == m);
                            } else if st0.contains(k as usize) {
                                let i = choose|i: int| 0 <= i < st0.len() && st0[i] == k as usize;
                                assert(stack@[i] == k as usize);
                            } else {
                                assert(vis0[k]);
                                lemma_done_mono(nodes, vis0, m as int, k);
                            }
                        }
                        assert forall|i: int| 0 <= i < stack.len() implies (#[trigger] stack@[i]) < n && visited@[stack@[i] as int] by {
                            if i < st0.len() {
                                assert(stack@[i] == st0[i]);
                            }
                        }
                    }
                }
                j = j + 1;
            }
            proof {
                assert(succ_ok(nodes, u as int)) by {
                    assert forall|m: int| 0 <= m < nodes[u as int].to.len() implies #[trigger] find_gnode(nodes, nodes[u as int].to[m]) is Some by {
                        assert(find_gnode(nodes, nodes[u as int].to[m]) matches Some(x) && 0 <= x < n && visited@[x]);
                    }
                }
                assert forall|jj: int| 0 <= jj < nodes[u as int].to.len() implies visited@[find_gnode(nodes, #[trigger] nodes[u as int].to[jj])->Some_0] by {
                    assert(find_gnode(nodes, nodes[u as int].to[jj]) matches Some(x) && 0 <= x < n && visited@[x]);
                }
                assert(done(nodes, visited@, u as int));
            }
        }
        proof {
            assert forall|k: int|
                0 <= k < nodes.len() && #[trigger] greachable(nodes, s as int, k) implies succ_ok(nodes, k)
                && end_ok(nodes, self@.end, k) by {
                let w = choose|w: nat| greach(nodes, s as int, k, w);
                assert forall|u: int, j: int|
                    0 <= u < nodes.len() && visited@[u] && 0 <= j < nodes[u].to.len() implies (
                    #[trigger] find_gnode(nodes, nodes[u].to[j]) matches Some(m) && 0 <= m < nodes.len()
                        && visited@[m]) by {
                    assert(!stack@.contains(u as usize));
                    assert(done(nodes, visited@, u));
                    assert(succ_ok(nodes, u));
                    assert(find_gnode(nodes, nodes[u].to[j]) is Some);
                    let m = find_gnode(nodes, nodes[u].to[j])->Some_0;
                    assert(gnode_at(nodes, nodes[u].to[j], m));
                }
                lemma_closed_holds_reachable(nodes, s as int, visited@, k, w);
                assert(!stack@.contains(k as usize));
            }
        }
        Ok(())
    }

    /// Checks that each declared predecessor exists and links back.
    fn check_from(&self) -> (r: Result<(), CheckError>)
        ensures
            r is Ok <==> from_ok(self@),
    {
        let mut i: usize = 0;
        while i < self.node_set.len()
            invariant
                i <= self.node_set.len(),
                forall|a: int, b: int|
                    0 <= a < i && 0 <= b < self@.nodes[a].from.len() ==> match find_gnode(
                        self@.nodes,
                        #[trigger] self@.nodes[a].from[b],
                    ) {
                        Some(m) => has_name(self@.nodes[m].to, self@.nodes[a].name),
                        None => false,
                    },
            decreases self.node_set.len() - i,
        {
            let v = &self.node_set[i];
            let mut j: usize = 0;
            while j < v.from.len()
                invariant
                    i < self.node_set.len(),
                    v == self.node_set@[i as int],
                    j <= v.from.len(),
                    forall|a: int, b: int|
                        0 <= a < i && 0 <= b < self@.nodes[a].from.len() ==> match find_gnode(
                            self@.nodes,
                            #[trigger] self@.nodes[a].from[b],
                        ) {
                            Some(m) => has_name(self@.nodes[m].to, self@.nodes[a].name),
                            None => false,
                        },
                    forall|b: int|
                        0 <= b < j ==> match find_gnode(self@.nodes, #[trigger] self@.nodes[i as int].from[b]) {
                            Some(m) => has_name(self@.nodes[m].to, self@.nodes[i as int].name),
                            None => false,
                        },
                decreases v.from.len() - j,
            {
                proof {
                    assert(self@.nodes[i as int].from[j as int] == v.from@[j as int]@);
                }
                match self.index_of(&v.from[j]) {
                    None => {
                        return Err(CheckError::FromNotFound(v.node_name.clone(), v.from[j].clone()));
                    },
                    Some(m) => {
                        if !self.node_set[m].have_to(&v.node_name) {
                            return Err(CheckError::FromEdgeMissing(v.node_name.clone(), v.from[j].clone()));
                        }
                    },
                }
                j = j + 1;
            }
            i = i + 1;
        }
        Ok(())
    }

    /// Checks that every node's service has a service name and a node name.
    fn check_service(&self) -> (r: Result<(), CheckError>)
        ensures
            r is Ok <==> services_ok(self@),
    {
        let mut i: usize = 0;
        while i < self.node_set.len()
            invariant
                i <= self.node_set.len(),
                forall|a: int|
                    0 <= a < i ==> (#[trigger] self@.nodes[a]).service.0.len() > 0
                        && self@.nodes[a].service.1.len() > 0,
            decreases self.node_set.len() - i,
        {
            let v = &self.node_set[i];
            assert(self@.nodes[i as int] == v@);
            if v.service.service_name.unicode_len() == 0 {
                return Err(CheckError::ServiceNameEmpty(v.node_name.clone()));
            }
            if v.service.node_name.unicode_len() == 0 {
                return Err(CheckError::ServiceNodeEmpty(v.node_name.clone()));
            }
            i = i + 1;
        }
        Ok(())
    }

    /// Validates the plan: start and end exist, every path from the start
    /// reaches the end through existing nodes, declared predecessors link
    /// back, and every service is named. The plan is returned unchanged.
    pub fn check(self) -> (r: Result<Graph, CheckError>)
        ensures
            r is Ok <==> graph_valid(self@),
            r matches Ok(g) ==> g@ == self@,
    {
        let s = match self.index_of(&self.start) {
            None => {
                return Err(CheckError::StartNotFound(self.start.clone()));
            },
            Some(s) => s,
        };
        if self.index_of(&self.end).is_none() {
            return Err(CheckError::EndNotFound(self.end.clone()));
        }
        match self.check_reachable(s) {
            Err(e) => {
                return Err(e);
            },
            Ok(()) => {},
        }
        match self.check_from() {
            Err(e) => {
                return Err(e);
            },
            Ok(()) => {},
        }
        match self.check_service() {
            Err(e) => {
                return Err(e);
            },
            Ok(()) => {},
        }
        Ok(self)
    }

    /// Adds the edges in order.
    pub fn edges(self, edges: Vec<(String, String)>) -> (r: Graph)
        ensures
            r@ == edges_model(self@, crate::plan::pairs(edges@)),
    {
        let ghost es = crate::plan::pairs(edges@);
        let ghost g0 = self@;
        let mut g = self;
        let mut rest = edges;
        let mut i: usize = 0;
        let n = rest.len();
        proof {
            assert(es.subrange(0, 0) =~= Seq::<(Seq<char>, Seq<char>)>::empty());
        }
        while rest.len() > 0
            invariant
                i + rest.len() == n,
                n == es.len(),
                crate::plan::pairs(rest@) == es.subrange(i as int, n as int),
                g@ == edges_model(g0, es.subrange(0, i as int)),
            decreases rest.len(),
        {
            let ghost r0 = rest@;
            let (f, t) = rest.remove(0);
            proof {
                assert(crate::plan::pairs(r0)[0] == (f@, t@));
                assert(es[i as int] == (f@, t@));
                assert(es.subrange(0, i + 1).drop_last() =~= es.subrange(0, i as int));
                assert(rest@ =~= r0.subrange(1, r0.len() as int));
                assert forall|j: int| 0 <= j < rest@.len() implies #[trigger] crate::plan::pairs(rest@)[j]
                    == es.subrange(i + 1, n as int)[j] by {
                    assert(rest@[j] == r0[j + 1]);
                    assert(crate::plan::pairs(r0)[j + 1] == es.subrange(i as int, n as int)[j + 1]);
                }
                assert(crate::plan::pairs(rest@) =~= es.subrange(i + 1, n as int));
            }
            g = g.edge(f, t);
            i = i + 1;
        }
        proof {
            assert(es.subrange(0, n as int) =~= es);
        }
        g
    }

    /// Adds several nodes in order.
    pub fn nodes(self, nodes: Vec<GraphNode>) -> (r: Graph)
        ensures
            r@ == (GraphModel { nodes: insert_all(self@.nodes, gnode_views(nodes@)), ..self@ }),
    {
        let ghost ns = gnode_views(nodes@);
        let ghost n0 = nodes@.len();
        let mut g = self;
        let mut nodes = nodes;
        proof {
            assert(ns.subrange(0, 0) =~= Seq::<GraphNodeModel>::empty());
            assert(gnode_views(nodes@) =~= ns.subrange(0, n0 as int));
        }
        while nodes.len() > 0
            invariant
                n0 == ns.len(),
                nodes@.len() <= n0,
                gnode_views(nodes@) == ns.subrange(n0 - nodes@.len(), n0 as int),
                g@ == (GraphModel { nodes: insert_all(self@.nodes, ns.subrange(0, n0 - nodes@.len())), ..self@ }),
            decreases nodes.len(),
        {
            let ghost before = nodes@;
            let ghost k: int = n0 - nodes@.len();
            let n = nodes.remove(0);
            proof {
                assert(gnode_views(before)[0] == n@);
                assert(ns[k] == n@);
                assert(ns.subrange(0, k + 1).drop_last() =~= ns.subrange(0, k));
                assert forall|j: int| 0 <= j < nodes@.len() implies #[trigger] gnode_views(nodes@)[j]
                    == ns.subrange(n0 - nodes@.len(), n0 as int)[j] by {
                    assert(nodes@[j] == before[j + 1]);
                    assert(gnode_views(before)[j + 1] == ns.subrange(n0 - before.len(), n0 as int)[j + 1]);
                }
                assert(gnode_views(nodes@) =~= ns.subrange(n0 - nodes@.len(), n0 as int));
            }
            g = g.node(n);
        }
        proof {
            assert(ns.subrange(0, n0 as int) =~= ns);
        }
        g
    }

    pub fn set_start_node_name(self, name: String) -> (r: Graph)
        ensures
            r@ == (GraphModel { start: name@, ..self@ }),
    {
        Graph { start: name, ..self }
    }

    pub fn set_end_node_name(self, name: String) -> (r: Graph)
        ensures
            r@ == (GraphModel { end: name@, ..self@ }),
    {
        Graph { end: name, ..self }
    }
}

/// Releasing the successors `to` of a finished node succeeds when each of
/// them is a node of the plan; only the pending predecessors change.
pub proof fn lemma_graph_release_ok(nodes: Seq<GraphNodeModel>, name: Seq<char>, to: Seq<Seq<char>>)
    requires
        forall|j: int| 0 <= j < to.len() ==> #[trigger] find_gnode(nodes, to[j]) is Some,
    ensures
        graph_release(nodes, name, to) is Ok,
        ({
            let ns2 = graph_release(nodes, name, to)->Ok_0.0;
            &&& ns2.len() == nodes.len()
            &&& forall|k: int|
                0 <= k < nodes.len() ==> (#[trigger] ns2[k]) == (GraphNodeModel {
                    from_completed: ns2[k].from_completed,
                    ..nodes[k]
                })
        }),
    decreases to.len(),
{
    if to.len() > 0 {
        let t = to.drop_last();
        assert forall|j: int| 0 <= j < t.len() implies #[trigger] find_gnode(nodes, t[j]) is Some by {
            assert(t[j] == to[j]);
        }
        lemma_graph_release_ok(nodes, name, t);
        let ns = graph_release(nodes, name, t)->Ok_0.0;
        assert forall|i: int| gnode_at(nodes, to.last(), i) <==> gnode_at(ns, to.last(), i) by {
            if gnode_at(nodes, to.last(), i) {
                assert forall|j: int| 0 <= j < i implies ns[j].name != to.last() by {
                    assert(ns[j].name == nodes[j].name);
                }
            }
            if gnode_at(ns, to.last(), i) {
                assert forall|j: int| 0 <= j < i implies nodes[j].name != to.last() by {
                    assert(ns[j].name == nodes[j].name);
                }
            }
        }
        assert(find_gnode(nodes, to[to.len() - 1]) is Some);
        let i = choose|i: int| gnode_at(nodes, to.last(), i);
        assert(gnode_at(ns, to.last(), i));
    }
}

/// On a plan that passed validation, reporting as finished any node that
/// is reachable from the start never fails with a missing node.
pub proof fn lemma_valid_graph_next_ok(g: GraphModel, name: Seq<char>, k: int)
    requires
        graph_valid(g),
        find_gnode(g.nodes, name) == Some(k),
        greachable(g.nodes, find_gnode(g.nodes, g.start)->Some_0, k),
    ensures
        graph_next(g, name) is Ok,
{
    if name != g.end {
        let s = find_gnode(g.nodes, g.start)->Some_0;
        assert(reach_ok_from(g.nodes, g.end, s));
        assert(succ_ok(g.nodes, k));
        lemma_graph_release_ok(g.nodes, name, g.nodes[k].to);
    }
}

} // verus!
