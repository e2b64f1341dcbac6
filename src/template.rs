use vstd::prelude::*;

use crate::input::{has_rule, rule_insert, JsonInput, Tran, TranModel};
use crate::json::{lemma_view_entries, lemma_view_items, view_entries, view_items, Json, JsonValue};
use crate::plan::names;

verus! {

/// The names inside the `${{ name }}` tokens of a text, in order.
pub uninterp spec fn template_names(s: Seq<char>) -> Seq<Seq<char>>;

/// Relies on `regex::Regex::captures_iter` with the pattern
/// `\$\{\{\s*(.*?)\s*\}\}`: the first group of each match, in order. The
/// result depends on the text alone.
#[verifier::external_body]
pub fn extract_template_content(s: &str) -> (r: Vec<String>)
    ensures
        names(r@) == template_names(s@),
{
    let re = regex::Regex::new(r"\$\{\{\s*(.*?)\s*\}\}").unwrap();
    re.captures_iter(s).map(|cap| cap[1].to_string()).collect()
}

/// The rule a string of the default document turns into, given the token
/// names found in it, unless a rule already stands at its position: a string
/// that is exactly one token quotes that variable (and leaves the document);
/// a string holding tokens is formatted with them.
pub open spec fn token_rule(has: bool, s: Seq<char>, ns: Seq<Seq<char>>) -> Option<(TranModel, bool)> {
    if has {
        None
    } else if ns.len() == 1 && ns[0].len() + 5 == s.len() {
        Some((TranModel::Quote(ns[0]), true))
    } else if ns.len() > 0 {
        Some((TranModel::Format(ns), false))
    } else {
        None
    }
}

/// Decides the rule for a string, given the token names found in it.
pub fn rule_for_string(has: bool, s: &String, found: Vec<String>) -> (r: Option<(Tran, bool)>)
    ensures
        match token_rule(has, s@, names(found@)) {
            Some((t, b)) => r matches Some((x, y)) && x@ == t && y == b,
            None => r is None,
        },
{
    if has {
        return None;
    }
    let n = found.len();
    if n == 1 && s.unicode_len() >= 5 && found[0].unicode_len() == s.unicode_len() - 5 {
        proof {
            assert(names(found@)[0] == found@[0]@);
        }
        let mut found = found;
        let q = found.remove(0);
        return Some((Tran::Quote(q), true));
    }
    if n > 0 {
        return Some((Tran::Format(found), false));
    }
    None
}

pub open spec fn digit_char(d: nat) -> char {
    if d == 0 { '0' } else if d == 1 { '1' } else if d == 2 { '2' } else if d == 3 { '3' } else if d == 4 {
        '4'
    } else if d == 5 { '5' } else if d == 6 { '6' } else if d == 7 { '7' } else if d == 8 { '8' } else {
        '9'
    }
}

/// The decimal text of `n`.
pub open spec fn dec_text(n: nat) -> Seq<char>
    decreases n,
{
    if n < 10 {
        seq![digit_char(n)]
    } else {
        dec_text(n / 10).push(digit_char(n % 10))
    }
}

fn digit_str(d: usize) -> (r: &'static str)
    requires
        d < 10,
    ensures
        r@ == seq![digit_char(d as nat)],
{
    proof {
        reveal_strlit("0");
        reveal_strlit("1");
        reveal_strlit("2");
        reveal_strlit("3");
        reveal_strlit("4");
        reveal_strlit("5");
        reveal_strlit("6");
        reveal_strlit("7");
        reveal_strlit("8");
        reveal_strlit("9");
    }
    let r = if d == 0 { "0" } else if d == 1 { "1" } else if d == 2 { "2" } else if d == 3 { "3" } else if d == 4 {
        "4"
    } else if d == 5 { "5" } else if d == 6 { "6" } else if d == 7 { "7" } else if d == 8 { "8" } else {
        "9"
    };
    assert(r@ =~= seq![digit_char(d as nat)]);
    r
}

/// The decimal text of `n`.
pub fn usize_text(n: usize) -> (r: String)
    ensures
        r@ == dec_text(n as nat),
    decreases n,
{
    if n < 10 {
        String::from_str(digit_str(n))
    } else {
        let head = usize_text(n / 10);
        let r = head.concat(digit_str(n % 10));
        proof {
            assert(r@ =~= dec_text(n as nat));
        }
        r
    }
}

/// The position of a member of the document at `path`.
pub open spec fn child_path(path: Seq<char>, key: Seq<char>) -> Seq<char> {
    if path.len() == 0 {
        key
    } else {
        path + seq!['.'] + key
    }
}

/// The position of list element `i` at `path`; elements of a top-level list
/// keep the empty position.
pub open spec fn item_path(path: Seq<char>, i: nat) -> Seq<char> {
    if path.len() == 0 {
        path
    } else {
        path + seq!['.'] + dec_text(i)
    }
}

pub type Rules = Seq<(Seq<char>, TranModel)>;

/// Lifts the tokens of the default document `v` at `path` into rules: the
/// new rules, the document left, and whether `v` itself leaves.
pub open spec fn lift(rs: Rules, v: Json, path: Seq<char>) -> (Rules, Json, bool)
    decreases v,
{
    match v {
        Json::Str(s) => match token_rule(has_rule(rs, path), s, template_names(s)) {
            Some((t, b)) => (rule_insert(rs, path, t), v, b),
            None => (rs, v, false),
        },
        Json::Array(l) => {
            let (rs2, l2) = lift_items(rs, l, path);
            (rs2, Json::Array(l2), false)
        },
        Json::Object(es) => {
            let (rs2, es2) = lift_entries(rs, es, path);
            (rs2, Json::Object(es2), false)
        },
        _ => (rs, v, false),
    }
}

pub open spec fn lift_items(rs: Rules, l: Seq<Json>, path: Seq<char>) -> (Rules, Seq<Json>)
    decreases l,
{
    if l.len() == 0 {
        (rs, Seq::empty())
    } else {
        let (rs1, l1) = lift_items(rs, l.drop_last(), path);
        let (rs2, x, _) = lift(rs1, l.last(), item_path(path, (l.len() - 1) as nat));
        (rs2, l1.push(x))
    }
}

pub open spec fn lift_entries(rs: Rules, es: Seq<(Seq<char>, Json)>, path: Seq<char>) -> (Rules, Seq<(Seq<char>, Json)>)
    decreases es,
{
    if es.len() == 0 {
        (rs, Seq::empty())
    } else {
        let (rs1, kept) = lift_entries(rs, es.drop_last(), path);
        let (k, c) = es.last();
        let (rs2, c2, gone) = lift(rs1, c, child_path(path, k));
        (
            rs2,
            if gone {
                kept
            } else {
                kept.push((k, c2))
            },
        )
    }
}

impl JsonInput {
    /// Sets the rule at `k` in place.
    fn put_rule(&mut self, k: String, t: Tran)
        requires
            old(self).wf(),
        ensures
            final(self).wf(),
            final(self)@.1 == rule_insert(old(self)@.1, k@, t@),
            final(self).none_quote_skip == old(self).none_quote_skip,
            final(self).default_json == old(self).default_json,
    {
        let mut cur = JsonInput::new();
        std::mem::swap(self, &mut cur);
        *self = cur.add_transform_rule(k, t);
    }

    /// Lifts the `${{ }}` tokens of the default document `val` at `path` into
    /// rules; gives back the document left and whether `val` leaves it.
    pub fn default_json_make_rule(&mut self, val: JsonValue, path: String) -> (r: (JsonValue, bool))
        requires
            old(self).wf(),
        ensures
            final(self).wf(),
            (final(self)@.1, r.0@, r.1) == lift(old(self)@.1, val@, path@),
            final(self).none_quote_skip == old(self).none_quote_skip,
            final(self).default_json == old(self).default_json,
        decreases val,
    {
        let ghost g_val = val;
        match val {
            JsonValue::Str(s) => {
                let has = self.has_rule(&path);
                let found = extract_template_content(s.as_str());
                match rule_for_string(has, &s, found) {
                    Some((t, b)) => {
                        self.put_rule(path, t);
                        (JsonValue::Str(s), b)
                    },
                    None => (JsonValue::Str(s), false),
                }
            },
            JsonValue::Array(l) => {
                proof {
                    lemma_view_items(l@);
                }
                let ghost lv = l;
                let ghost l0 = view_items(l@);
                let n = l.len();
                let mut rest = l;
                let mut out: Vec<JsonValue> = Vec::new();
                let mut i: usize = 0;
                proof {
                    assert(l0.subrange(0, 0) =~= Seq::<Json>::empty());
                    assert(view_items(out@) =~= Seq::<Json>::empty());
                }
                while rest.len() > 0
                    invariant
                        g_val == JsonValue::Array(lv),
                        g_val == val,
                        n == lv@.len(),
                        l0 == view_items(lv@),
                        l0.len() == n,
                        forall|j: int| 0 <= j < n ==> #[trigger] l0[j] == lv@[j].view_json(),
                        i + rest.len() == n,
                        rest@ == lv@.subrange(i as int, n as int),
                        self.wf(),
                        self.none_quote_skip == old(self).none_quote_skip,
                        self.default_json == old(self).default_json,
                        (self@.1, view_items(out@)) == lift_items(old(self)@.1, l0.subrange(0, i as int), path@),
                    decreases rest.len(),
                {
                    let x = rest.remove(0);
                    proof {
                        assert(lv@[i as int] == x);
                        assert(decreases_to!(g_val => g_val->Array_0));
                        assert(decreases_to!(lv => lv[i as int]));
                        assert(decreases_to!(g_val => x));
                        let pre = l0.subrange(0, i + 1);
                        assert(pre.drop_last() =~= l0.subrange(0, i as int));
                        assert(pre.last() == x@);
                    }
                    let p = if path.unicode_len() == 0 {
                        path.clone()
                    } else {
                        path.clone().concat(".").concat(usize_text(i).as_str())
                    };
                    proof {
                        reveal_strlit(".");
                        if path@.len() != 0 {
                            assert(p@ =~= item_path(path@, i as nat));
                        } else {
                            assert(p@ =~= item_path(path@, i as nat));
                        }
                    }
                    let (x2, _) = self.default_json_make_rule(x, p);
                    let ghost o0 = out@;
                    out.push(x2);
                    proof {
                        crate::edit::lemma_view_items_push(o0, x2);
                    }
                    i = i + 1;
                    proof {
                        assert(rest@ =~= lv@.subrange(i as int, n as int));
                    }
                }
                proof {
                    assert(l0.subrange(0, n as int) =~= l0);
                }
                (JsonValue::Array(out), false)
            },
            JsonValue::Object(es) => {
                proof {
                    lemma_view_entries(es@);
                }
                let ghost ev = es;
                let ghost e0 = view_entries(es@);
                let n = es.len();
                let mut rest = es;
                let mut kept: Vec<(String, JsonValue)> = Vec::new();
                let mut i: usize = 0;
                proof {
                    assert(e0.subrange(0, 0) =~= Seq::<(Seq<char>, Json)>::empty());
                    assert(view_entries(kept@) =~= Seq::<(Seq<char>, Json)>::empty());
                }
                while rest.len() > 0
                    invariant
                        g_val == JsonValue::Object(ev),
                        g_val == val,
                        n == ev@.len(),
                        e0 == view_entries(ev@),
                        e0.len() == n,
                        forall|j: int| 0 <= j < n ==> #[trigger] e0[j] == (ev@[j].0@, ev@[j].1.view_json()),
                        i + rest.len() == n,
                        rest@ == ev@.subrange(i as int, n as int),
                        self.wf(),
                        self.none_quote_skip == old(self).none_quote_skip,
                        self.default_json == old(self).default_json,
                        (self@.1, view_entries(kept@)) == lift_entries(old(self)@.1, e0.subrange(0, i as int), path@),
                    decreases rest.len(),
                {
                    let (k, c) = rest.remove(0);
                    proof {
                        assert(ev@[i as int] == (k, c));
                        assert(decreases_to!(g_val => g_val->Object_0));
                        assert(decreases_to!(ev => ev[i as int]));
                        assert(decreases_to!(ev[i as int] => ev[i as int].1));
                        assert(decreases_to!(g_val => c));
                        let pre = e0.subrange(0, i + 1);
                        assert(pre.drop_last() =~= e0.subrange(0, i as int));
                        assert(pre.last() == (k@, c@));
                    }
                    let p = if path.unicode_len() == 0 {
                        k.clone()
                    } else {
                        path.clone().concat(".").concat(k.as_str())
                    };
                    proof {
                        reveal_strlit(".");
                        assert(p@ =~= child_path(path@, k@));
                    }
                    let (c2, gone) = self.default_json_make_rule(c, p);
                    if !gone {
                        let ghost k0 = kept@;
                        kept.push((k, c2));
                        proof {
                            crate::json::lemma_view_entries_push(k0, (k, c2));
                        }
                    }
                    i = i + 1;
                    proof {
                        assert(rest@ =~= ev@.subrange(i as int, n as int));
                    }
                }
                proof {
                    assert(e0.subrange(0, n as int) =~= e0);
                }
                (JsonValue::Object(kept), false)
            },
            other => (other, false),
        }
    }
}

} // verus!
