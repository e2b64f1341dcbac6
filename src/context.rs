use vstd::prelude::*;

use crate::error::Error;
use crate::json::{get_path, set_path, Json, JsonValue};
use crate::status::{next_status, CtxStatus, StatusEvent};

verus! {

/// A node's output: a JSON document, or a value of another type that only
/// its consumers can read. Dotted-path reads and writes reach JSON outputs
/// only.
#[derive(Debug)]
pub enum Output<T> {
    Json(JsonValue),
    Typed(T),
}

impl<T> Output<T> {
    /// The JSON document the output holds, if it is one.
    pub open spec fn json(&self) -> Option<Json> {
        match self {
            Output::Json(v) => Some(v@),
            Output::Typed(_) => None,
        }
    }

    pub fn value(v: JsonValue) -> (r: Output<T>)
        ensures
            r.json() == Some(v@),
    {
        Output::Json(v)
    }

    pub fn new(t: T) -> (r: Output<T>)
        ensures
            r == Output::<T>::Typed(t),
    {
        Output::Typed(t)
    }

    pub fn is_json(&self) -> (r: bool)
        ensures
            r == self.json() is Some,
    {
        match self {
            Output::Json(_) => true,
            Output::Typed(_) => false,
        }
    }

    /// Dotted-path read; an output that is not JSON reads as nothing.
    pub fn get_val(&self, key: &str) -> (r: Option<JsonValue>)
        ensures
            match self.json() {
                Some(j) => match get_path(j, key@) {
                    Some(x) => r matches Some(v) && v@ == x,
                    None => r is None,
                },
                None => r is None,
            },
    {
        match self {
            Output::Json(v) => v.get_val(key),
            Output::Typed(_) => None,
        }
    }

    /// Dotted-path write; an output that is not JSON cannot be written and
    /// is left as it is.
    pub fn set_value(&mut self, key: &str, val: JsonValue) -> (r: bool)
        ensures
            r == old(self).json() is Some,
            match old(self).json() {
                Some(j) => final(self).json() == Some(set_path(j, key@, val@)),
                None => *final(self) == *old(self),
            },
    {
        match self {
            Output::Json(v) => {
                v.set_value(key, val);
                true
            },
            Output::Typed(_) => false,
        }
    }

    /// The output as a JSON document; null when it is not one.
    pub fn as_val(&self) -> (r: JsonValue)
        ensures
            r@ == match self.json() {
                Some(j) => j,
                None => Json::Null,
            },
    {
        match self {
            Output::Json(v) => v.deep_clone(),
            Output::Typed(_) => JsonValue::Null,
        }
    }
}

/// Writing a value at a dotted path of a JSON output and reading the same
/// path gives the value back, for every path whose last segment is not `*`.
pub proof fn lemma_output_set_then_get(j: Json, p: Seq<char>, x: Json)
    requires
        !crate::json::is_star(p),
        !crate::json::ends_with_dot_star(p),
    ensures
        get_path(set_path(j, p, x), p) == Some(x),
{
    crate::json::lemma_set_then_get(j, p, x);
}

/// The outputs of the nodes that ran, by node name.
pub struct Vars<T> {
    pub entries: Vec<(String, Output<T>)>,
}

/// `i` is the entry of `name`.
pub open spec fn var_at<T>(es: Seq<(String, Output<T>)>, name: Seq<char>, i: int) -> bool {
    0 <= i < es.len() && es[i].0@ == name
}

pub open spec fn distinct_names<T>(es: Seq<(String, Output<T>)>) -> bool {
    forall|i: int, j: int| 0 <= i < j < es.len() ==> es[i].0@ != es[j].0@
}

pub proof fn lemma_var_choose<T>(es: Seq<(String, Output<T>)>, name: Seq<char>, i: int)
    requires
        distinct_names(es),
        var_at(es, name, i),
    ensures
        (choose|k: int| var_at(es, name, k)) == i,
{
    let k = choose|k: int| var_at(es, name, k);
    if k != i {
        if k < i {
            assert(es[k].0@ != es[i].0@);
        } else {
            assert(es[i].0@ != es[k].0@);
        }
    }
}

impl<T> Vars<T> {
    /// Names are distinct.
    pub open spec fn wf(&self) -> bool {
        distinct_names(self.entries@)
    }

    pub open spec fn has(&self, name: Seq<char>) -> bool {
        exists|i: int| var_at(self.entries@, name, i)
    }

    /// The output of node `name`.
    pub open spec fn get(&self, name: Seq<char>) -> Option<Output<T>> {
        if self.has(name) {
            Some(self.entries@[choose|i: int| var_at(self.entries@, name, i)].1)
        } else {
            None
        }
    }

    pub fn new() -> (r: Vars<T>)
        ensures
            r.wf(),
            forall|n: Seq<char>| !r.has(n),
    {
        Vars { entries: Vec::new() }
    }

    pub fn index_of(&self, name: &String) -> (r: Option<usize>)
        requires
            self.wf(),
        ensures
            match r {
                Some(i) => var_at(self.entries@, name@, i as int) && self.get(name@) == Some(
                    self.entries@[i as int].1,
                ),
                None => !self.has(name@),
            },
    {
        let mut i: usize = 0;
        while i < self.entries.len()
            invariant
                self.wf(),
                i <= self.entries.len(),
                forall|j: int| 0 <= j < i ==> self.entries@[j].0@ != name@,
            decreases self.entries.len() - i,
        {
            if self.entries[i].0 == *name {
                proof {
                    assert(var_at(self.entries@, name@, i as int));
                    lemma_var_choose(self.entries@, name@, i as int);
                }
                return Some(i);
            }
            i = i + 1;
        }
        None
    }

    /// Stores the output of node `name`. A node's output is written once per
    /// run: a second write is refused and changes nothing.
    pub fn insert(&mut self, name: String, out: Output<T>) -> (r: Result<(), Error>)
        requires
            old(self).wf(),
        ensures
            final(self).wf(),
            old(self).has(name@) ==> r == Err::<(), Error>(Error::VarRewritten(name)) && *final(self)
                == *old(self),
            !old(self).has(name@) ==> r is Ok && final(self).get(name@) == Some(out) && forall|n: Seq<char>|
                n != name@ ==> final(self).get(n) == old(self).get(n) && final(self).has(n) == old(self).has(n),
    {
        match self.index_of(&name) {
            Some(_) => Err(Error::VarRewritten(name)),
            None => {
                let ghost e0 = self.entries@;
                let ghost nm = name@;
                self.entries.push((name, out));
                proof {
                    let last = e0.len() as int;
                    assert(var_at(self.entries@, nm, last));
                    assert forall|a: int, b: int| 0 <= a < b < self.entries@.len() implies self.entries@[a].0@
                        != self.entries@[b].0@ by {
                        if b == last {
                            assert(!var_at(e0, nm, a));
                        } else {
                            assert(self.entries@[a] == e0[a]);
                            assert(self.entries@[b] == e0[b]);
                        }
                    }
                    lemma_var_choose(self.entries@, nm, last);
                    assert forall|n: Seq<char>| n != nm implies self.get(n) == old(self).get(n) && self.has(n)
                        == old(self).has(n) by {
                        if old(self).has(n) {
                            let k = choose|k: int| var_at(e0, n, k);
                            assert(var_at(self.entries@, n, k));
                            lemma_var_choose(e0, n, k);
                            lemma_var_choose(self.entries@, n, k);
                        } else if self.has(n) {
                            let k = choose|k: int| var_at(self.entries@, n, k);
                            assert(k != last);
                            assert(var_at(e0, n, k));
                        }
                    }
                }
                Ok(())
            },
        }
    }

    /// Takes the output of node `name` out.
    pub fn remove(&mut self, name: &String) -> (r: Option<Output<T>>)
        requires
            old(self).wf(),
        ensures
            final(self).wf(),
            r == old(self).get(name@),
            !final(self).has(name@),
            forall|n: Seq<char>| n != name@ ==> final(self).get(n) == old(self).get(n),
    {
        match self.index_of(name) {
            None => None,
            Some(i) => {
                let ghost e0 = self.entries@;
                let (_, out) = self.entries.remove(i);
                proof {
                    assert forall|n: Seq<char>| n != name@ implies self.get(n) == old(self).get(n) by {
                        if old(self).has(n) {
                            let k = choose|k: int| var_at(e0, n, k);
                            let k2 = if k < i { k } else { k - 1 };
                            assert(k != i);
                            assert(var_at(self.entries@, n, k2));
                            let m = choose|m: int| var_at(self.entries@, n, m);
                            if m != k2 {
                                let a = if m < i { m } else { m + 1 };
                                let b = if k2 < i { k2 } else { k2 + 1 };
                                assert(e0[a].0@ == n);
                                assert(e0[b].0@ == n);
                            }
                        } else {
                            if self.has(n) {
                                let m = choose|m: int| var_at(self.entries@, n, m);
                                let a = if m < i { m } else { m + 1 };
                                assert(var_at(e0, n, a));
                            }
                        }
                    }
                    if self.has(name@) {
                        let m = choose|m: int| var_at(self.entries@, name@, m);
                        let a = if m < i { m } else { m + 1 };
                        assert(e0[a].0@ == name@);
                        assert(e0[i as int].0@ == name@);
                    }
                }
                Some(out)
            },
        }
    }

    /// Dotted-path read of node `name`'s output.
    pub fn get_var_field(&self, name: &String, field: &str) -> (r: Option<JsonValue>)
        requires
            self.wf(),
        ensures
            match self.get(name@) {
                Some(o) => match o.json() {
                    Some(j) => match get_path(j, field@) {
                        Some(x) => r matches Some(v) && v@ == x,
                        None => r is None,
                    },
                    None => r is None,
                },
                None => r is None,
            },
    {
        match self.index_of(name) {
            None => None,
            Some(i) => self.entries[i].1.get_val(field),
        }
    }
}

/// The state of one run: its status, the outputs of its nodes, its input,
/// its first error, and the number of branches still in flight.
pub struct Context<T> {
    pub status: CtxStatus,
    pub vars: Vars<T>,
    pub input: Option<Output<T>>,
    pub error: Option<Error>,
    pub branches: usize,
}

impl<T> Context<T> {
    pub open spec fn wf(&self) -> bool {
        self.vars.wf()
    }

    pub fn new() -> (r: Context<T>)
        ensures
            r.wf(),
            r.status is Init,
            r.error is None,
            r.input is None,
            r.branches == 0,
            forall|n: Seq<char>| !r.vars.has(n),
    {
        Context { status: CtxStatus::Init, vars: Vars::new(), input: None, error: None, branches: 0 }
    }

    pub fn insert_input(&mut self, input: Output<T>)
        ensures
            *final(self) == (Context { input: Some(input), ..*old(self) }),
    {
        self.input = Some(input);
    }

    pub fn take_input(&mut self) -> (r: Option<Output<T>>)
        ensures
            r == old(self).input,
            *final(self) == (Context::<T> { input: None, ..*old(self) }),
    {
        self.input.take()
    }

    /// Records the run's error, unless the run already ended: the first error
    /// wins. Returns whether a waiting driver must be woken.
    pub fn set_error(&mut self, e: Error) -> (wake: bool)
        ensures
            final(self).status == next_status(old(self).status, StatusEvent::Fail),
            wake == old(self).status is Running,
            (old(self).status is Init || old(self).status is Running) ==> final(self).error == Some(e),
            !(old(self).status is Init || old(self).status is Running) ==> final(self).error == old(
                self,
            ).error,
            final(self).vars == old(self).vars,
            final(self).input == old(self).input,
            final(self).branches == old(self).branches,
    {
        match self.status {
            CtxStatus::Init | CtxStatus::Running => {
                self.error = Some(e);
            },
            _ => {},
        }
        self.status.set_error()
    }

    /// Marks the run successful, unless it already ended.
    pub fn success(&mut self) -> (wake: bool)
        ensures
            final(self).status == next_status(old(self).status, StatusEvent::Succeed),
            wake == old(self).status is Running,
            final(self).error == old(self).error,
            final(self).vars == old(self).vars,
            final(self).input == old(self).input,
            final(self).branches == old(self).branches,
    {
        self.status.success()
    }

    pub fn get_status(&self) -> (r: CtxStatus)
        ensures
            r == self.status,
    {
        self.status
    }

    pub fn take_error(&mut self) -> (r: Option<Error>)
        ensures
            r == old(self).error,
            *final(self) == (Context::<T> { error: None, ..*old(self) }),
    {
        self.error.take()
    }
}

} // verus!
