use vstd::prelude::*;

use crate::context::Vars;
use crate::edit::{cover, cover_value, insert_at, insert_val, remove_at, remove_val, EditError, EditFault};
use crate::input::{JsonInput, Tran, TranModel};
use crate::json::{get_path, set_path, split_path, split_path_exec, Json, JsonValue};
use crate::template::{lift, Rules};

verus! {

/// Why a node's input could not be built.
#[derive(Debug, PartialEq, Eq)]
pub enum InputError {
    /// A rule could not be written at its position.
    Edit(EditError),
    /// A quoted or formatted variable is missing (and missing ones are not skipped).
    Missing(String),
    /// A `format` rule's position does not hold a string.
    NotString(String),
}

pub enum InputFault {
    Edit(EditFault),
    Missing(Seq<char>),
    NotString(Seq<char>),
}

impl View for InputError {
    type V = InputFault;

    open spec fn view(&self) -> InputFault {
        match self {
            InputError::Edit(e) => InputFault::Edit(e@),
            InputError::Missing(s) => InputFault::Missing(s@),
            InputError::NotString(s) => InputFault::NotString(s@),
        }
    }
}

/// `s` with every occurrence of `p`, from the left and without overlap,
/// replaced by `r`.
pub open spec fn replace_all(s: Seq<char>, p: Seq<char>, r: Seq<char>) -> Seq<char>
    decreases s.len(),
{
    if p.len() == 0 || s.len() < p.len() {
        s
    } else if s.subrange(0, p.len() as int) == p {
        r + replace_all(s.subrange(p.len() as int, s.len() as int), p, r)
    } else {
        seq![s[0]] + replace_all(s.subrange(1, s.len() as int), p, r)
    }
}

/// Replaces every occurrence of `p` in `s` by `r`.
pub fn replace_str(s: &str, p: &str, r: &str) -> (out: String)
    requires
        p@.len() > 0,
    ensures
        out@ == replace_all(s@, p@, r@),
{
    let n = s.unicode_len();
    let m = p.unicode_len();
    let mut out = String::new();
    let mut i: usize = 0;
    proof {
        assert(s@.subrange(0, n as int) =~= s@);
        assert(out@ + replace_all(s@, p@, r@) =~= replace_all(s@, p@, r@));
    }
    while i < n
        invariant
            n == s@.len(),
            m == p@.len(),
            m > 0,
            i <= n,
            out@ + replace_all(s@.subrange(i as int, n as int), p@, r@) == replace_all(s@, p@, r@),
        decreases n - i,
    {
        let ghost rest = s@.subrange(i as int, n as int);
        if n - i < m {
            proof {
                assert(replace_all(rest, p@, r@) == rest);
            }
            out = out.concat(s.substring_char(i, n));
            proof {
                assert(s@.subrange(n as int, n as int) =~= Seq::<char>::empty());
                assert(replace_all(s@.subrange(n as int, n as int), p@, r@) =~= Seq::<char>::empty());
                assert(out@ =~= out@ + Seq::<char>::empty());
            }
            i = n;
        } else {
            let mut j: usize = 0;
            let mut same = true;
            while j < m
                invariant
                    n == s@.len(),
                    m == p@.len(),
                    i + m <= n,
                    j <= m,
                    same == forall|t: int| 0 <= t < j ==> s@[i + t] == p@[t],
                decreases m - j,
            {
                if s.get_char(i + j) != p.get_char(j) {
                    same = false;
                }
                j = j + 1;
            }
            if same {
                proof {
                    assert(rest.subrange(0, m as int) =~= p@);
                    assert(rest.subrange(m as int, rest.len() as int) =~= s@.subrange(i + m, n as int));
                }
                out = out.concat(r);
                i = i + m;
            } else {
                proof {
                    assert(rest.subrange(0, m as int) != p@) by {
                        let t = choose|t: int| 0 <= t < m && s@[i + t] != p@[t];
                        assert(rest.subrange(0, m as int)[t] == s@[i + t]);
                    }
                    assert(rest.subrange(1, rest.len() as int) =~= s@.subrange(i + 1, n as int));
                }
                out = out.concat(s.substring_char(i, i + 1));
                proof {
                    assert(s@.subrange(i as int, i + 1) =~= seq![rest[0]]);
                }
                i = i + 1;
            }
        }
    }
    out
}

/// The token `${{name}}`.
pub open spec fn token(name: Seq<char>) -> Seq<char> {
    seq!['$', '{', '{'] + name + seq!['}', '}']
}

pub fn token_exec(name: &str) -> (r: String)
    ensures
        r@ == token(name@),
{
    proof {
        reveal_strlit("${{");
        reveal_strlit("}}");
    }
    let r = String::from_str("${{").concat(name).concat("}}");
    proof {
        assert(r@ =~= token(name@));
    }
    r
}

/// Substitutes `text` for the token of `name` in the string at position `k`.
pub open spec fn format_at(v: Json, k: Seq<char>, name: Seq<char>, text: Seq<char>) -> Result<Json, InputFault> {
    match get_path(v, k) {
        Some(Json::Str(s)) => Ok(set_path(v, k, Json::Str(replace_all(s, token(name), text)))),
        _ => Err(InputFault::NotString(k)),
    }
}

/// The text given for `name`, if any.
pub open spec fn text_at(texts: Seq<(String, String)>, name: Seq<char>, i: int) -> bool {
    &&& 0 <= i < texts.len()
    &&& texts[i].0@ == name
    &&& forall|j: int| 0 <= j < i ==> texts[j].0@ != name
}

pub open spec fn text_for(texts: Seq<(String, String)>, name: Seq<char>) -> Option<Seq<char>> {
    if exists|i: int| text_at(texts, name, i) {
        Some(texts[choose|i: int| text_at(texts, name, i)].1@)
    } else {
        None
    }
}

/// A quoted variable: taken out of the data source when there is one;
/// else `node.field` of the outputs, or a whole JSON output for `node`.
/// Gives the value, if found, and the data source left.
pub open spec fn resolve<T>(vars: Vars<T>, src: Option<Json>, q: Seq<char>) -> (Option<Json>, Option<Json>) {
    match src {
        Some(s) => match remove_at(s, q) {
            Ok((s2, x)) => (Some(x), Some(s2)),
            Err(_) => (None, Some(s)),
        },
        None => {
            let (node, field) = split_path(q);
            let f = match field {
                Some(f) => f,
                None => seq!['*'],
            };
            (
                match vars.get(node) {
                    Some(o) => match o.json() {
                        Some(j) => get_path(j, f),
                        None => None,
                    },
                    None => None,
                },
                None,
            )
        },
    }
}

/// The `format` names of one rule, in order.
pub open spec fn apply_format(
    names: Seq<Seq<char>>,
    k: Seq<char>,
    v: Json,
    skip: bool,
    texts: Seq<(String, String)>,
) -> Result<Json, InputFault>
    decreases names.len(),
{
    if names.len() == 0 {
        Ok(v)
    } else {
        let rest = names.subrange(1, names.len() as int);
        match text_for(texts, names[0]) {
            None => if skip {
                apply_format(rest, k, v, skip, texts)
            } else {
                Err(InputFault::Missing(names[0]))
            },
            Some(t) => match format_at(v, k, names[0], t) {
                Err(e) => Err(e),
                Ok(v2) => apply_format(rest, k, v2, skip, texts),
            },
        }
    }
}

/// The rules, in order, over the document `v` and the data source `src`.
pub open spec fn apply_rules<T>(
    rs: Rules,
    v: Json,
    src: Option<Json>,
    vars: Vars<T>,
    skip: bool,
    texts: Seq<(String, String)>,
) -> Result<Json, InputFault>
    decreases rs.len(),
{
    if rs.len() == 0 {
        Ok(v)
    } else {
        let rest = rs.subrange(1, rs.len() as int);
        let (k, t) = rs[0];
        match t {
            TranModel::Value(x) => match insert_at(v, k, x) {
                Err(e) => Err(InputFault::Edit(e)),
                Ok(v2) => apply_rules(rest, v2, src, vars, skip, texts),
            },
            TranModel::Quote(q) => {
                let (x, src2) = resolve(vars, src, q);
                match x {
                    None => if skip {
                        apply_rules(rest, v, src2, vars, skip, texts)
                    } else {
                        Err(InputFault::Missing(q))
                    },
                    Some(x) => match insert_at(v, k, x) {
                        Err(e) => Err(InputFault::Edit(e)),
                        Ok(v2) => apply_rules(rest, v2, src2, vars, skip, texts),
                    },
                }
            },
            TranModel::Format(ns) => match apply_format(ns, k, v, skip, texts) {
                Err(e) => Err(e),
                Ok(v2) => apply_rules(rest, v2, src, vars, skip, texts),
            },
        }
    }
}

/// A node's input: the tokens of the default document are lifted into rules,
/// the default is laid over `val`, then every rule is applied in order.
pub open spec fn transform_spec<T>(
    ji: crate::input::JsonInputModel,
    val: Json,
    vars: Vars<T>,
    src: Option<Json>,
    texts: Seq<(String, String)>,
) -> Result<Json, InputFault> {
    let (rs, d, _) = lift(ji.1, ji.2, Seq::empty());
    apply_rules(rs, cover(d, val), src, vars, ji.0, texts)
}

pub open spec fn opt_view(o: Option<JsonValue>) -> Option<Json> {
    match o {
        Some(v) => Some(v@),
        None => None,
    }
}

/// Substitutes `text` for the token of `name` in the string at position `k`
/// of `v`; on error `v` is handed back unchanged.
pub fn format_val_to_json_str(v: JsonValue, k: &str, name: &str, text: &str) -> (r: Result<JsonValue, (JsonValue, InputError)>)
    ensures
        match format_at(v@, k@, name@, text@) {
            Ok(j) => r matches Ok(x) && x@ == j,
            Err(e) => r matches Err((back, x)) && x@ == e && back@ == v@,
        },
{
    match v.get_val(k) {
        Some(JsonValue::Str(s)) => {
            let tok = token_exec(name);
            let replaced = replace_str(s.as_str(), tok.as_str(), text);
            let mut v = v;
            v.set_value(k, JsonValue::Str(replaced));
            Ok(v)
        },
        _ => Err((v, InputError::NotString(String::from_str(k)))),
    }
}

pub fn text_for_exec(texts: &Vec<(String, String)>, name: &String) -> (r: Option<String>)
    ensures
        match text_for(texts@, name@) {
            Some(t) => r matches Some(x) && x@ == t,
            None => r is None,
        },
{
    let mut i: usize = 0;
    while i < texts.len()
        invariant
            i <= texts.len(),
            forall|j: int| 0 <= j < i ==> texts@[j].0@ != name@,
        decreases texts.len() - i,
    {
        if texts[i].0 == *name {
            proof {
                assert(text_at(texts@, name@, i as int));
                let c = choose|c: int| text_at(texts@, name@, c);
                if c < i {
                    assert(texts@[c].0@ != name@);
                } else if c > i {
                    assert(texts@[i as int].0@ != name@);
                }
            }
            let r = texts[i].1.clone();
            return Some(r);
        }
        i = i + 1;
    }
    None
}

/// Looks a quoted variable up.
pub fn resolve_exec<T>(vars: &Vars<T>, src: Option<JsonValue>, q: &String) -> (r: (Option<JsonValue>, Option<JsonValue>))
    requires
        vars.wf(),
    ensures
        (opt_view(r.0), opt_view(r.1)) == resolve(*vars, opt_view(src), q@),
{
    match src {
        Some(s) => match remove_val(s, q.as_str()) {
            Ok((s2, x)) => (Some(x), Some(s2)),
            Err((back, _)) => (None, Some(back)),
        },
        None => {
            let (node, field) = split_path_exec(q.as_str());
            let f = match field {
                Some(f) => f,
                None => {
                    proof {
                        reveal_strlit("*");
                    }
                    let star = String::from_str("*");
                    proof {
                        assert(star@ =~= seq!['*']);
                    }
                    star
                },
            };
            (vars.get_var_field(&node, f.as_str()), None)
        },
    }
}

impl JsonInput {
    /// Applies the names of one `format` rule at position `k`.
    fn apply_format_exec(
        names: &Vec<String>,
        k: &String,
        v: JsonValue,
        skip: bool,
        texts: &Vec<(String, String)>,
    ) -> (r: Result<JsonValue, InputError>)
        ensures
            match apply_format(crate::plan::names(names@), k@, v@, skip, texts@) {
                Ok(j) => r matches Ok(x) && x@ == j,
                Err(e) => r matches Err(x) && x@ == e,
            },
    {
        let ghost ns = crate::plan::names(names@);
        let ghost goal = apply_format(ns, k@, v@, skip, texts@);
        let mut cur = v;
        let mut i: usize = 0;
        proof {
            assert(ns.subrange(0, ns.len() as int) =~= ns);
        }
        while i < names.len()
            invariant
                i <= names.len(),
                ns == crate::plan::names(names@),
                ns.len() == names.len(),
                goal == apply_format(ns.subrange(i as int, ns.len() as int), k@, cur@, skip, texts@),
                goal == apply_format(crate::plan::names(names@), k@, v@, skip, texts@),
            decreases names.len() - i,
        {
            let ghost rest = ns.subrange(i as int, ns.len() as int);
            proof {
                assert(rest[0] == names@[i as int]@);
                assert(rest.subrange(1, rest.len() as int) =~= ns.subrange(i + 1, ns.len() as int));
            }
            match text_for_exec(texts, &names[i]) {
                None => {
                    if !skip {
                        let e = InputError::Missing(names[i].clone());
                        proof {
                            assert(apply_format(rest, k@, cur@, skip, texts@) == Err::<Json, InputFault>(e@));
                        }
                        return Err(e);
                    }
                },
                Some(t) => {
                    match format_val_to_json_str(cur, k.as_str(), names[i].as_str(), t.as_str()) {
                        Err((_, e)) => {
                            return Err(e);
                        },
                        Ok(v2) => {
                            cur = v2;
                        },
                    }
                },
            }
            i = i + 1;
        }
        proof {
            assert(ns.subrange(ns.len() as int, ns.len() as int) =~= Seq::<Seq<char>>::empty());
        }
        Ok(cur)
    }

    /// Builds a node's input from `val`: the tokens of the default document
    /// are lifted into rules, the default is laid over `val`, then every rule
    /// is applied in order. Quoted variables come from `data_source` when one
    /// is given (and are taken out of it), else from the outputs `vars`;
    /// `texts` gives the JSON text of each variable a `format` rule names.
    /// Missing variables are skipped when the input says so.
    pub fn transform<T>(
        self,
        val: JsonValue,
        vars: &Vars<T>,
        data_source: Option<JsonValue>,
        texts: &Vec<(String, String)>,
    ) -> (r: Result<JsonValue, InputError>)
        requires
            self.wf(),
            vars.wf(),
        ensures
            match transform_spec(self@, val@, *vars, opt_view(data_source), texts@) {
                Ok(j) => r matches Ok(x) && x@ == j,
                Err(e) => r matches Err(x) && x@ == e,
            },
    {
        let ghost m = self@;
        let mut ji = self;
        let mut d = JsonValue::Null;
        std::mem::swap(&mut d, &mut ji.default_json);
        let (d2, _) = ji.default_json_make_rule(d, String::new());
        let ghost rs = ji@.1;
        proof {
            assert(rs == lift(m.1, m.2, Seq::empty()).0);
        }
        let mut v = cover_value(d2, val);
        let mut src = data_source;
        let skip = ji.none_quote_skip;
        let ghost goal = transform_spec(m, val@, *vars, opt_view(data_source), texts@);
        let rules = ji.transform_rule;
        let mut i: usize = 0;
        proof {
            assert(rs.subrange(0, rs.len() as int) =~= rs);
        }
        while i < rules.len()
            invariant
                i <= rules.len(),
                vars.wf(),
                rs == rules@.map_values(|e: (String, Tran)| (e.0@, e.1@)),
                skip == m.0,
                goal == apply_rules(rs.subrange(i as int, rs.len() as int), v@, opt_view(src), *vars, skip, texts@),
                goal == transform_spec(self@, val@, *vars, opt_view(data_source), texts@),
            decreases rules.len() - i,
        {
            let ghost rest = rs.subrange(i as int, rs.len() as int);
            proof {
                assert(rest[0] == (rules@[i as int].0@, rules@[i as int].1@));
                assert(rest.subrange(1, rest.len() as int) =~= rs.subrange(i + 1, rs.len() as int));
            }
            let k = &rules[i].0;
            match &rules[i].1 {
                Tran::Value(x) => {
                    match insert_val(v, k.as_str(), x.deep_clone()) {
                        Err((_, e)) => {
                            return Err(InputError::Edit(e));
                        },
                        Ok(v2) => {
                            v = v2;
                        },
                    }
                },
                Tran::Quote(q) => {
                    let (x, src2) = resolve_exec(vars, src, q);
                    src = src2;
                    match x {
                        None => {
                            if !skip {
                                return Err(InputError::Missing(q.clone()));
                            }
                        },
                        Some(x) => {
                            match insert_val(v, k.as_str(), x) {
                                Err((_, e)) => {
                                    return Err(InputError::Edit(e));
                                },
                                Ok(v2) => {
                                    v = v2;
                                },
                            }
                        },
                    }
                },
                Tran::Format(ns) => {
                    match Self::apply_format_exec(ns, k, v, skip, texts) {
                        Err(e) => {
                            return Err(e);
                        },
                        Ok(v2) => {
                            v = v2;
                        },
                    }
                },
            }
            i = i + 1;
        }
        proof {
            assert(rs.subrange(rs.len() as int, rs.len() as int) =~= Seq::<(Seq<char>, TranModel)>::empty());
        }
        Ok(v)
    }
}

} // verus!
