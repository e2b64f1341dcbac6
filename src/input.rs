use vstd::prelude::*;

use crate::json::{Json, JsonValue};

verus! {

/// One rule of a node's input: a literal, a quoted variable, or a list of
/// variables substituted into a string.
#[derive(Debug)]
pub enum Tran {
    Value(JsonValue),
    Quote(String),
    Format(Vec<String>),
}

/// The model of a rule.
pub enum TranModel {
    Value(Json),
    Quote(Seq<char>),
    Format(Seq<Seq<char>>),
}

impl View for Tran {
    type V = TranModel;

    open spec fn view(&self) -> TranModel {
        match self {
            Tran::Value(v) => TranModel::Value(v@),
            Tran::Quote(q) => TranModel::Quote(q@),
            Tran::Format(l) => TranModel::Format(l@.map_values(|s: String| s@)),
        }
    }
}

impl Tran {
    /// A copy of the rule.
    pub fn deep_clone(&self) -> (r: Tran)
        ensures
            r@ == self@,
    {
        match self {
            Tran::Value(v) => Tran::Value(v.deep_clone()),
            Tran::Quote(q) => Tran::Quote(q.clone()),
            Tran::Format(l) => {
                let r = clone_strings(l);
                proof {
                    assert(r@.map_values(|s: String| s@) =~= l@.map_values(|s: String| s@));
                }
                Tran::Format(r)
            },
        }
    }

    pub fn value(val: JsonValue) -> (r: Tran)
        ensures
            r matches Tran::Value(v) && v@ == val@,
    {
        Tran::Value(val)
    }

    pub fn quote(quote: String) -> (r: Tran)
        ensures
            r matches Tran::Quote(q) && q@ == quote@,
    {
        Tran::Quote(quote)
    }
}

/// How a node builds its input: a default document, rules keyed by dotted
/// position (at most one rule per position), and whether a missing quoted
/// variable is skipped rather than failing the node.
#[derive(Debug)]
pub struct JsonInput {
    pub none_quote_skip: bool,
    pub transform_rule: Vec<(String, Tran)>,
    pub default_json: JsonValue,
}

/// The model of a node's input rules: the skip flag, the rules, the default document.
pub type JsonInputModel = (bool, Seq<(Seq<char>, TranModel)>, Json);

impl View for JsonInput {
    type V = JsonInputModel;

    open spec fn view(&self) -> JsonInputModel {
        (
            self.none_quote_skip,
            self.transform_rule@.map_values(|e: (String, Tran)| (e.0@, e.1@)),
            self.default_json@,
        )
    }
}

/// A copy of a list of strings.
pub fn clone_strings(l: &Vec<String>) -> (r: Vec<String>)
    ensures
        r@.len() == l@.len(),
        forall|i: int| 0 <= i < l@.len() ==> #[trigger] r@[i]@ == l@[i]@,
{
    let mut r: Vec<String> = Vec::new();
    let mut i: usize = 0;
    while i < l.len()
        invariant
            i <= l.len(),
            r@.len() == i,
            forall|j: int| 0 <= j < i ==> #[trigger] r@[j]@ == l@[j]@,
        decreases l.len() - i,
    {
        r.push(l[i].clone());
        i = i + 1;
    }
    r
}

/// `rs` with rule `t` at `k`: it replaces the rule at `k`, or is appended.
pub open spec fn rule_insert(rs: Seq<(Seq<char>, TranModel)>, k: Seq<char>, t: TranModel) -> Seq<(Seq<char>, TranModel)> {
    if exists|i: int| 0 <= i < rs.len() && rs[i].0 == k {
        rs.update(choose|i: int| 0 <= i < rs.len() && rs[i].0 == k, (k, t))
    } else {
        rs.push((k, t))
    }
}

pub open spec fn has_rule(rs: Seq<(Seq<char>, TranModel)>, k: Seq<char>) -> bool {
    exists|i: int| 0 <= i < rs.len() && rs[i].0 == k
}

pub open spec fn rule_keys(rules: Seq<(String, Tran)>) -> Seq<Seq<char>> {
    rules.map_values(|e: (String, Tran)| e.0@)
}

impl JsonInput {
    /// No rule and no default document.
    pub open spec fn spec_is_empty(&self) -> bool {
        self.transform_rule@.len() == 0 && self.default_json@ is Null
    }

    /// Keys of the rules are distinct.
    pub open spec fn wf(&self) -> bool {
        forall|i: int, j: int|
            0 <= i < j < self.transform_rule@.len() ==> self.transform_rule@[i].0@
                != self.transform_rule@[j].0@
    }

    /// A copy of the rules.
    pub fn deep_clone(&self) -> (r: JsonInput)
        ensures
            r@ == self@,
            r.wf() == self.wf(),
    {
        let mut rules: Vec<(String, Tran)> = Vec::new();
        let mut i: usize = 0;
        while i < self.transform_rule.len()
            invariant
                i <= self.transform_rule.len(),
                rules@.len() == i,
                forall|j: int| 0 <= j < i ==> #[trigger] rules@[j].0@ == self.transform_rule@[j].0@,
                forall|j: int| 0 <= j < i ==> #[trigger] rules@[j].1@ == self.transform_rule@[j].1@,
            decreases self.transform_rule.len() - i,
        {
            let k = self.transform_rule[i].0.clone();
            let t = self.transform_rule[i].1.deep_clone();
            rules.push((k, t));
            i = i + 1;
        }
        let r = JsonInput {
            none_quote_skip: self.none_quote_skip,
            transform_rule: rules,
            default_json: self.default_json.deep_clone(),
        };
        proof {
            assert(forall|j: int|
                0 <= j < r.transform_rule@.len() ==> r.transform_rule@[j].0@
                    == self.transform_rule@[j].0@);
            assert(r.wf() == self.wf());
            assert(r.transform_rule@.map_values(|e: (String, Tran)| (e.0@, e.1@)) =~= self.transform_rule@.map_values(
                |e: (String, Tran)| (e.0@, e.1@),
            ));
        }
        r
    }

    pub fn new() -> (r: JsonInput)
        ensures
            r.wf(),
            r.spec_is_empty(),
            !r.none_quote_skip,
    {
        JsonInput { none_quote_skip: false, transform_rule: Vec::new(), default_json: JsonValue::Null }
    }

    pub fn is_empty(&self) -> (r: bool)
        ensures
            r == self.spec_is_empty(),
    {
        self.transform_rule.len() == 0 && match self.default_json {
            JsonValue::Null => true,
            _ => false,
        }
    }

    pub fn skip_null_quote(self) -> (r: JsonInput)
        ensures
            r.none_quote_skip,
            r.transform_rule == self.transform_rule,
            r.default_json == self.default_json,
    {
        JsonInput { none_quote_skip: true, ..self }
    }

    pub fn set_default_json(self, default_json: JsonValue) -> (r: JsonInput)
        ensures
            r.none_quote_skip == self.none_quote_skip,
            r.transform_rule == self.transform_rule,
            r.default_json == default_json,
    {
        JsonInput { default_json, ..self }
    }

    /// Sets the rule at `position`, replacing an earlier rule there.
    pub fn add_transform_rule(self, position: String, transform: Tran) -> (r: JsonInput)
        requires
            self.wf(),
        ensures
            r.wf(),
            r.none_quote_skip == self.none_quote_skip,
            r.default_json == self.default_json,
            rule_keys(r.transform_rule@).to_set() == rule_keys(self.transform_rule@).to_set().insert(position@),
            r@.1 == rule_insert(self@.1, position@, transform@),
            exists|i: int|
                0 <= i < r.transform_rule@.len() && r.transform_rule@[i] == (position, transform),
    {
        let mut rules = self.transform_rule;
        let mut i: usize = 0;
        let mut found = false;
        while i < rules.len()
            invariant_except_break
                !found,
            invariant
                i <= rules.len(),
                rules == self.transform_rule,
                self.wf(),
                forall|j: int| 0 <= j < i ==> rules@[j].0@ != position@,
            ensures
                i <= rules.len(),
                rules == self.transform_rule,
                forall|j: int| 0 <= j < i ==> rules@[j].0@ != position@,
                found ==> i < rules.len() && rules@[i as int].0@ == position@,
                !found ==> i == rules.len(),
            decreases rules.len() - i,
        {
            if rules[i].0 == position {
                found = true;
                break;
            }
            i = i + 1;
        }
        let ghost old_rules = rules@;
        if found {
            rules.set(i, (position, transform));
            proof {
                assert(rules@[i as int] == (position, transform));
                assert forall|k: int| 0 <= k < rules@.len() implies #[trigger] rules@[k].0@
                    == old_rules[k].0@ by {}
                assert(rule_keys(rules@) =~= rule_keys(old_rules));
                assert(rule_keys(rules@).to_set() =~= rule_keys(old_rules).to_set().insert(position@)) by {
                    assert(rule_keys(old_rules)[i as int] == position@);
                }
            }
        } else {
            rules.push((position, transform));
            proof {
                assert(rule_keys(rules@) =~= rule_keys(old_rules).push(position@));
                assert(rule_keys(rules@).to_set() =~= rule_keys(old_rules).to_set().insert(position@)) by {
                    assert forall|x| rule_keys(rules@).to_set().contains(x) implies
                        rule_keys(old_rules).to_set().insert(position@).contains(x) by {
                        let k = choose|k: int| 0 <= k < rule_keys(rules@).len() && rule_keys(rules@)[k] == x;
                        if k < old_rules.len() {
                            assert(rule_keys(old_rules)[k] == x);
                        }
                    }
                    assert forall|x| rule_keys(old_rules).to_set().insert(position@).contains(x) implies
                        rule_keys(rules@).to_set().contains(x) by {
                        if x == position@ {
                            assert(rule_keys(rules@)[old_rules.len() as int] == x);
                        } else {
                            let k = choose|k: int| 0 <= k < rule_keys(old_rules).len() && rule_keys(old_rules)[k] == x;
                            assert(rule_keys(rules@)[k] == x);
                        }
                    }
                }
                assert(rules@[old_rules.len() as int] == (position, transform));
            }
        }
        let r = JsonInput { none_quote_skip: self.none_quote_skip, transform_rule: rules, default_json: self.default_json };
        proof {
            assert(old_rules == self.transform_rule@);
            let m0 = old_rules.map_values(|e: (String, Tran)| (e.0@, e.1@));
            if found {
                assert(m0[i as int].0 == position@);
                let c = choose|c: int| 0 <= c < m0.len() && m0[c].0 == position@;
                if c != i {
                    if c < i {
                        assert(old_rules[c].0@ == position@);
                    } else {
                        assert(old_rules[i as int].0@ != old_rules[c].0@);
                    }
                }
                assert(r@.1 =~= rule_insert(self@.1, position@, transform@));
            } else {
                assert(!(exists|c: int| 0 <= c < m0.len() && m0[c].0 == position@)) by {
                    if exists|c: int| 0 <= c < m0.len() && m0[c].0 == position@ {
                        let c = choose|c: int| 0 <= c < m0.len() && m0[c].0 == position@;
                        assert(old_rules[c].0@ == position@);
                    }
                }
                assert(r@.1 =~= rule_insert(self@.1, position@, transform@));
            }
            if found {
                assert(r.transform_rule@[i as int] == (position, transform));
                assert forall|a: int, b: int| 0 <= a < b < r.transform_rule@.len() implies
                    r.transform_rule@[a].0@ != r.transform_rule@[b].0@ by {
                    assert(r.transform_rule@[a].0@ == old_rules[a].0@);
                    assert(r.transform_rule@[b].0@ == old_rules[b].0@);
                }
            } else {
                assert(r.transform_rule@[old_rules.len() as int] == (position, transform));
                assert forall|a: int, b: int| 0 <= a < b < r.transform_rule@.len() implies
                    r.transform_rule@[a].0@ != r.transform_rule@[b].0@ by {
                    assert(r.transform_rule@[a] == old_rules[a]);
                    if b < old_rules.len() {
                        assert(r.transform_rule@[b] == old_rules[b]);
                    }
                }
            }
        }
        r
    }

    /// Whether the rule positions are distinct.
    pub fn rules_distinct(&self) -> (r: bool)
        ensures
            r == self.wf(),
    {
        let n = self.transform_rule.len();
        let mut i: usize = 0;
        while i < n
            invariant
                n == self.transform_rule@.len(),
                i <= n,
                forall|a: int, b: int|
                    0 <= a < i && a < b < n ==> self.transform_rule@[a].0@ != self.transform_rule@[b].0@,
            decreases n - i,
        {
            let mut j: usize = i + 1;
            while j < n
                invariant
                    n == self.transform_rule@.len(),
                    i < n,
                    i + 1 <= j <= n,
                    forall|a: int, b: int|
                        0 <= a < i && a < b < n ==> self.transform_rule@[a].0@ != self.transform_rule@[b].0@,
                    forall|b: int| i < b < j ==> self.transform_rule@[i as int].0@ != self.transform_rule@[b].0@,
                decreases n - j,
            {
                if self.transform_rule[i].0 == self.transform_rule[j].0 {
                    return false;
                }
                j = j + 1;
            }
            i = i + 1;
        }
        true
    }

    /// Whether a rule stands at `path`.
    pub fn has_rule(&self, path: &String) -> (r: bool)
        ensures
            r == has_rule(self@.1, path@),
    {
        let mut i: usize = 0;
        while i < self.transform_rule.len()
            invariant
                i <= self.transform_rule.len(),
                forall|j: int| 0 <= j < i ==> self.transform_rule@[j].0@ != path@,
            decreases self.transform_rule.len() - i,
        {
            if self.transform_rule[i].0 == *path {
                proof {
                    assert(self@.1[i as int].0 == path@);
                }
                return true;
            }
            i = i + 1;
        }
        proof {
            assert forall|j: int| 0 <= j < self@.1.len() implies self@.1[j].0 != path@ by {
                assert(self@.1[j].0 == self.transform_rule@[j].0@);
            }
        }
        false
    }

    pub fn add_transform_value(self, position: String, value: JsonValue) -> (r: JsonInput)
        requires
            self.wf(),
        ensures
            r.wf(),
            r.none_quote_skip == self.none_quote_skip,
            r.default_json == self.default_json,
            r@.1 == rule_insert(self@.1, position@, TranModel::Value(value@)),
            exists|i: int|
                0 <= i < r.transform_rule@.len() && r.transform_rule@[i] == (position, Tran::Value(value)),
    {
        self.add_transform_rule(position, Tran::Value(value))
    }

    pub fn add_transform_quote(self, position: String, quote: String) -> (r: JsonInput)
        requires
            self.wf(),
        ensures
            r.wf(),
            r.none_quote_skip == self.none_quote_skip,
            r.default_json == self.default_json,
            r@.1 == rule_insert(self@.1, position@, TranModel::Quote(quote@)),
            exists|i: int|
                0 <= i < r.transform_rule@.len() && r.transform_rule@[i] == (position, Tran::Quote(quote)),
    {
        self.add_transform_rule(position, Tran::Quote(quote))
    }
}

} // verus!
