use vstd::prelude::*;

use crate::input::{JsonInput, JsonInputModel};

verus! {

/// The service a node runs, with its node's name and its input rules.
#[derive(Debug)]
pub struct ServiceEntityJson {
    pub service_name: String,
    pub node_name: String,
    pub config: JsonInput,
}

/// The model of a node's service: service name, node name, input rules.
pub type ServiceModel = (Seq<char>, Seq<char>, JsonInputModel);

impl View for ServiceEntityJson {
    type V = ServiceModel;

    open spec fn view(&self) -> ServiceModel {
        (self.service_name@, self.node_name@, self.config@)
    }
}

impl ServiceEntityJson {
    pub fn new(service_name: String, config: JsonInput) -> (r: ServiceEntityJson)
        ensures
            r.service_name == service_name,
            r.node_name@ == Seq::<char>::empty(),
            r.config == config,
    {
        ServiceEntityJson { service_name, node_name: String::new(), config }
    }

    pub fn set_node_name(self, name: String) -> (r: ServiceEntityJson)
        ensures
            r.node_name == name,
            r.service_name == self.service_name,
            r.config == self.config,
    {
        ServiceEntityJson { node_name: name, ..self }
    }

    pub fn set_service_name(self, name: String) -> (r: ServiceEntityJson)
        ensures
            r.service_name == name,
            r.node_name == self.node_name,
            r.config == self.config,
    {
        ServiceEntityJson { service_name: name, ..self }
    }

    pub fn set_config(self, config: JsonInput) -> (r: ServiceEntityJson)
        ensures
            r.config == config,
            r.service_name == self.service_name,
            r.node_name == self.node_name,
    {
        ServiceEntityJson { config, ..self }
    }

    /// A copy of the entity.
    pub fn deep_clone(&self) -> (r: ServiceEntityJson)
        ensures
            r@ == self@,
    {
        ServiceEntityJson {
            service_name: self.service_name.clone(),
            node_name: self.node_name.clone(),
            config: self.config.deep_clone(),
        }
    }
}

/// What a plan answers when a node has finished.
#[derive(Debug)]
pub enum NextPlan {
    /// These nodes are now ready to run (an empty list means: wait).
    Nodes(Vec<ServiceEntityJson>),
    /// The end node finished: the run is complete.
    End,
    /// No successor is ready yet.
    Wait,
}

/// A plan operation referred to a node that the plan does not hold.
#[derive(Debug, PartialEq, Eq)]
pub enum PlanError {
    NodeNotFound(String),
}

/// The names of a list of strings, as sequences of characters.
pub open spec fn names(s: Seq<String>) -> Seq<Seq<char>> {
    s.map_values(|x: String| x@)
}

/// A list of string pairs as pairs of character sequences.
pub open spec fn pairs(s: Seq<(String, String)>) -> Seq<(Seq<char>, Seq<char>)> {
    s.map_values(|e: (String, String)| (e.0@, e.1@))
}

/// `x` occurs in `s`.
pub open spec fn has_name(s: Seq<Seq<char>>, x: Seq<char>) -> bool {
    exists|i: int| 0 <= i < s.len() && s[i] == x
}

/// `s` with its first occurrence of `x` removed, if any.
pub open spec fn remove_first(s: Seq<Seq<char>>, x: Seq<char>) -> Seq<Seq<char>>
    decreases s.len(),
{
    if s.len() == 0 {
        s
    } else if s[0] == x {
        s.subrange(1, s.len() as int)
    } else {
        seq![s[0]] + remove_first(s.subrange(1, s.len() as int), x)
    }
}

/// Whether a list of strings contains `x`.
pub fn contains_name(s: &Vec<String>, x: &String) -> (r: bool)
    ensures
        r == has_name(names(s@), x@),
{
    let mut i: usize = 0;
    while i < s.len()
        invariant
            i <= s.len(),
            forall|j: int| 0 <= j < i ==> s@[j]@ != x@,
        decreases s.len() - i,
    {
        if s[i] == *x {
            proof {
                assert(names(s@)[i as int] == x@);
            }
            return true;
        }
        i = i + 1;
    }
    proof {
        assert forall|j: int| 0 <= j < names(s@).len() implies names(s@)[j] != x@ by {
            assert(names(s@)[j] == s@[j]@);
        }
    }
    false
}

pub proof fn lemma_remove_first_absent(s: Seq<Seq<char>>, x: Seq<char>)
    requires
        !has_name(s, x),
    ensures
        remove_first(s, x) == s,
    decreases s.len(),
{
    if s.len() > 0 {
        let t = s.subrange(1, s.len() as int);
        assert(!has_name(t, x)) by {
            if has_name(t, x) {
                let i = choose|i: int| 0 <= i < t.len() && t[i] == x;
                assert(s[i + 1] == x);
            }
        }
        lemma_remove_first_absent(t, x);
        assert(seq![s[0]] + t =~= s);
    }
}

/// Removes the first occurrence of `x`, if any.
pub fn remove_name(s: &mut Vec<String>, x: &String)
    ensures
        names(final(s)@) == remove_first(names(old(s)@), x@),
{
    let mut i: usize = 0;
    while i < s.len()
        invariant
            i <= s.len(),
            s@ == old(s)@,
            forall|j: int| 0 <= j < i ==> s@[j]@ != x@,
        decreases s.len() - i,
    {
        if s[i] == *x {
            let ghost before = names(s@);
            s.remove(i);
            proof {
                lemma_remove_first_at(before, x@, i as int);
                assert(names(s@) =~= before.subrange(0, i as int) + before.subrange(i + 1, before.len() as int));
            }
            return;
        }
        i = i + 1;
    }
    proof {
        assert(!has_name(names(s@), x@)) by {
            if has_name(names(s@), x@) {
                let k = choose|k: int| 0 <= k < names(s@).len() && names(s@)[k] == x@;
                assert(names(s@)[k] == s@[k]@);
            }
        }
        lemma_remove_first_absent(names(s@), x@);
    }
}

/// Removing the first occurrence when it stands at `i`.
pub proof fn lemma_remove_first_at(s: Seq<Seq<char>>, x: Seq<char>, i: int)
    requires
        0 <= i < s.len(),
        s[i] == x,
        forall|j: int| 0 <= j < i ==> s[j] != x,
    ensures
        remove_first(s, x) == s.subrange(0, i) + s.subrange(i + 1, s.len() as int),
    decreases i,
{
    if i == 0 {
        assert(s.subrange(0, 0) + s.subrange(1, s.len() as int) =~= s.subrange(1, s.len() as int));
    } else {
        let t = s.subrange(1, s.len() as int);
        lemma_remove_first_at(t, x, i - 1);
        assert(seq![s[0]] + (t.subrange(0, i - 1) + t.subrange(i, t.len() as int)) =~= s.subrange(0, i)
            + s.subrange(i + 1, s.len() as int));
    }
}

} // verus!
