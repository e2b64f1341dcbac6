use vstd::prelude::*;

use crate::context::Vars;
use crate::dag::Dag;
use crate::input::JsonInput;
use crate::json::{Json, JsonValue};
use crate::transform::{transform_spec, InputError};

verus! {

/// The reserved `start` service: it builds the run's first output from the
/// run's input.
#[derive(Debug, Default)]
pub struct Start {}

/// The reserved `end` service: it hands its input on as the run's result.
#[derive(Debug, Default)]
pub struct End {}

/// A service that does nothing.
#[derive(Debug, Default)]
pub struct EmptyServiceImpl {}

impl Start {
    /// The start node's output. Without rules and without a default
    /// document, the run's input is stored as it is (null when there is
    /// none); otherwise the rules build a new object, quoting from the input.
    pub fn input<T>(ji: JsonInput, input: Option<JsonValue>, vars: &Vars<T>, texts: &Vec<(String, String)>) -> (r: Result<JsonValue, InputError>)
        requires
            ji.wf(),
            vars.wf(),
        ensures
            ji.spec_is_empty() ==> (r matches Ok(x) && x@ == match input {
                Some(v) => v@,
                None => Json::Null,
            }),
            !ji.spec_is_empty() ==> match transform_spec(
                ji@,
                Json::Object(Seq::empty()),
                *vars,
                Some(
                    match input {
                        Some(v) => v@,
                        None => Json::Null,
                    },
                ),
                texts@,
            ) {
                Ok(j) => r matches Ok(x) && x@ == j,
                Err(e) => r matches Err(x) && x@ == e,
            },
    {
        let input = match input {
            Some(v) => v,
            None => JsonValue::Null,
        };
        if ji.is_empty() {
            return Ok(input);
        }
        let empty: Vec<(String, JsonValue)> = Vec::new();
        proof {
            assert(crate::json::view_entries(empty@) =~= Seq::<(Seq<char>, Json)>::empty());
        }
        ji.transform(JsonValue::Object(empty), vars, Some(input), texts)
    }
}

impl End {
    /// The end node's output: its input, unchanged.
    pub fn call(input: JsonValue) -> (r: JsonValue)
        ensures
            r@ == input@,
    {
        input
    }
}

/// The configuration of the `batch` service: one call of `service` per
/// input, at most `batch_max` at a time, each input built from `format`.
#[derive(Debug)]
pub struct BatchCfg {
    pub inputs: Vec<JsonValue>,
    pub batch_max: usize,
    pub service: String,
    pub format: JsonValue,
}

/// The reserved `batch` service: parallel fan-out over a list.
#[derive(Debug, Default)]
pub struct Batch {}

impl Batch {
    /// The input rules of the call for element `index`: the format document,
    /// with the element at `input` and its index at `index`.
    pub fn make_sub_input_from_format(format: JsonValue, index: usize, input: JsonValue) -> (r: JsonInput)
        requires
            index <= i64::MAX,
        ensures
            r.wf(),
            r@.0 == false,
            r@.2 == format@,
            r@.1 == seq![
                (seq!['i', 'n', 'p', 'u', 't'], crate::input::TranModel::Value(input@)),
                (seq!['i', 'n', 'd', 'e', 'x'], crate::input::TranModel::Value(Json::Number(index as int))),
            ],
    {
        proof {
            reveal_strlit("input");
            reveal_strlit("index");
        }
        let ji0 = JsonInput::new();
        proof {
            assert(ji0@.1 =~= Seq::<(Seq<char>, crate::input::TranModel)>::empty());
        }
        let ji = ji0.set_default_json(format);
        let k_input = String::from_str("input");
        proof {
            assert(k_input@ =~= seq!['i', 'n', 'p', 'u', 't']);
            assert(ji@.1 =~= Seq::<(Seq<char>, crate::input::TranModel)>::empty());
        }
        let ji = ji.add_transform_value(k_input, input);
        proof {
            assert(ji@.1 =~= seq![(seq!['i', 'n', 'p', 'u', 't'], crate::input::TranModel::Value(input@))]);
            assert(seq!['i', 'n', 'p', 'u', 't'] != seq!['i', 'n', 'd', 'e', 'x']) by {
                assert(seq!['i', 'n', 'p', 'u', 't'][2] != seq!['i', 'n', 'd', 'e', 'x'][2]);
            }
        }
        let k_index = String::from_str("index");
        proof {
            assert(k_index@ =~= seq!['i', 'n', 'd', 'e', 'x']);
        }
        let ji = ji.add_transform_value(k_index, JsonValue::Number(index as i64));
        proof {
            assert(ji@.1 =~= seq![
                (seq!['i', 'n', 'p', 'u', 't'], crate::input::TranModel::Value(input@)),
                (seq!['i', 'n', 'd', 'e', 'x'], crate::input::TranModel::Value(Json::Number(index as int))),
            ]);
        }
        ji
    }
}

/// The progress of one batch: calls are launched in order, at most `max`
/// at a time; each result is kept at its input's position; the first error
/// stops further launches.
#[derive(Debug)]
pub struct BatchRun {
    pub total: usize,
    pub max: usize,
    pub launched: usize,
    pub running: usize,
    pub outputs: Vec<JsonValue>,
    pub error: Option<(usize, String)>,
}

impl BatchRun {
    pub open spec fn wf(&self) -> bool {
        &&& 1 <= self.max
        &&& self.running <= self.max
        &&& self.running <= self.launched <= self.total
        &&& self.outputs@.len() == self.total
    }

    /// A batch of `total` calls; a parallelism of 0 is taken as 1.
    pub fn new(total: usize, batch_max: usize) -> (r: BatchRun)
        ensures
            r.wf(),
            r.total == total,
            r.max == if batch_max == 0 { 1 } else { batch_max },
            r.launched == 0,
            r.running == 0,
            r.error is None,
            forall|i: int| 0 <= i < total ==> r.outputs@[i]@ == Json::Null,
    {
        let mut outputs: Vec<JsonValue> = Vec::new();
        while outputs.len() < total
            invariant
                outputs@.len() <= total,
                forall|i: int| 0 <= i < outputs@.len() ==> outputs@[i]@ == Json::Null,
            decreases total - outputs@.len(),
        {
            outputs.push(JsonValue::Null);
        }
        BatchRun {
            total,
            max: if batch_max == 0 { 1 } else { batch_max },
            launched: 0,
            running: 0,
            outputs,
            error: None,
        }
    }

    /// Whether another call may start now.
    pub fn can_launch(&self) -> (r: bool)
        ensures
            r == (self.launched < self.total && self.running < self.max && self.error is None),
    {
        self.launched < self.total && self.running < self.max && self.error.is_none()
    }

    /// Starts the next call; gives the index of its input.
    pub fn launch(&mut self) -> (i: usize)
        requires
            old(self).wf(),
            old(self).launched < old(self).total,
            old(self).running < old(self).max,
        ensures
            final(self).wf(),
            i == old(self).launched,
            final(self).launched == old(self).launched + 1,
            final(self).running == old(self).running + 1,
            final(self).outputs == old(self).outputs,
            final(self).error == old(self).error,
            final(self).total == old(self).total,
            final(self).max == old(self).max,
    {
        let i = self.launched;
        self.launched = self.launched + 1;
        self.running = self.running + 1;
        i
    }

    /// Records the end of call `i`: its output, or its error.
    pub fn finish(&mut self, i: usize, result: Result<JsonValue, String>)
        requires
            old(self).wf(),
            old(self).running > 0,
            i < old(self).launched,
        ensures
            final(self).wf(),
            final(self).running == old(self).running - 1,
            final(self).launched == old(self).launched,
            final(self).total == old(self).total,
            final(self).max == old(self).max,
            match result {
                Ok(v) => final(self).outputs@ == old(self).outputs@.update(i as int, v) && final(self).error
                    == old(self).error,
                Err(m) => final(self).outputs == old(self).outputs && final(self).error == Some((i, m)),
            },
    {
        self.running = self.running - 1;
        match result {
            Ok(v) => {
                self.outputs.set(i, v);
            },
            Err(m) => {
                self.error = Some((i, m));
            },
        }
    }

    /// Whether nothing runs and nothing more will start.
    pub fn done(&self) -> (r: bool)
        ensures
            r == (self.running == 0 && (self.launched == self.total || self.error is Some)),
    {
        self.running == 0 && (self.launched == self.total || self.error.is_some())
    }

    /// The outputs in input order, or the error that stopped the batch.
    pub fn result(self) -> (r: Result<Vec<JsonValue>, (usize, String)>)
        ensures
            match self.error {
                Some(e) => r == Err::<Vec<JsonValue>, (usize, String)>(e),
                None => r == Ok::<Vec<JsonValue>, (usize, String)>(self.outputs),
            },
    {
        match self.error {
            Some(e) => Err(e),
            None => Ok(self.outputs),
        }
    }
}

/// The plan a `workflow` node runs.
#[derive(Debug)]
pub enum WorkflowPlan {
    Nil,
    Dag(Dag),
    Graph,
}

/// Why a sub-workflow cannot start.
#[derive(Debug, PartialEq, Eq)]
pub enum WorkflowError {
    /// No plan was given; the node's name.
    PlanNil(String),
    /// Graph sub-plans are not supported; the node's name.
    GraphUnsupported(String),
}

/// The reserved `workflow` service: runs a sub-plan in a forked context.
#[derive(Debug, Default)]
pub struct Workflow {}

impl Workflow {
    pub fn new() -> (r: Workflow)
        ensures
            r == (Workflow {}),
    {
        Workflow {}
    }

    /// The sub-plan to run for node `node`.
    pub fn plan_for(plan: WorkflowPlan, node: String) -> (r: Result<Dag, WorkflowError>)
        ensures
            match plan {
                WorkflowPlan::Nil => r == Err::<Dag, WorkflowError>(WorkflowError::PlanNil(node)),
                WorkflowPlan::Dag(d) => r == Ok::<Dag, WorkflowError>(d),
                WorkflowPlan::Graph => r == Err::<Dag, WorkflowError>(WorkflowError::GraphUnsupported(node)),
            },
    {
        match plan {
            WorkflowPlan::Nil => Err(WorkflowError::PlanNil(node)),
            WorkflowPlan::Dag(d) => Ok(d),
            WorkflowPlan::Graph => Err(WorkflowError::GraphUnsupported(node)),
        }
    }
}

/// A service that runs a fixed plan in a forked context.
#[derive(Debug)]
pub struct FixedPlan<T> {
    pub plan: T,
}

impl<T> FixedPlan<T> {
    pub fn new(plan: T) -> (r: FixedPlan<T>)
        ensures
            r.plan == plan,
    {
        FixedPlan { plan }
    }
}

/// A typed service adapted to the JSON bridge.
#[derive(Debug)]
pub struct JsonService<T, In, Out> {
    pub inner: T,
    pub input: core::marker::PhantomData<In>,
    pub output: core::marker::PhantomData<Out>,
}

impl<T, In, Out> JsonService<T, In, Out> {
    pub fn new(inner: T) -> (r: JsonService<T, In, Out>)
        ensures
            r.inner == inner,
    {
        JsonService { inner, input: core::marker::PhantomData, output: core::marker::PhantomData }
    }
}

/// A service made of a function.
#[derive(Debug)]
pub struct FnServiceLayer<Fut, T> {
    pub inner: T,
    pub fut: core::marker::PhantomData<Fut>,
}

impl<Fut, T> FnServiceLayer<Fut, T> {
    pub fn new(t: T) -> (r: FnServiceLayer<Fut, T>)
        ensures
            r.inner == t,
    {
        FnServiceLayer { inner: t, fut: core::marker::PhantomData }
    }
}

/// A value of any type stored as a node's output.
#[derive(Debug)]
pub struct VarOut<T> {
    pub inner: T,
}

impl<T> VarOut<T> {
    pub fn new(inner: T) -> (r: VarOut<T>)
        ensures
            r.inner == inner,
    {
        VarOut { inner }
    }
}

/// The id of a JSON-RPC request: a string or a number.
#[derive(Debug, PartialEq, Eq)]
pub enum RequestId {
    String(String),
    Number(i64),
}

impl RequestId {
    pub fn str(s: String) -> (r: RequestId)
        ensures
            r == RequestId::String(s),
    {
        RequestId::String(s)
    }

    pub fn number(n: i64) -> (r: RequestId)
        ensures
            r == RequestId::Number(n),
    {
        RequestId::Number(n)
    }
}

} // verus!
