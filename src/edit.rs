use vstd::prelude::*;

use crate::json::{
    find_key, insert_entry, is_star, is_star_exec, key_at, lemma_key_at_unique, lemma_split_rest_shorter,
    lemma_view_entries, lemma_view_entries_update, lemma_view_items, obj_get, obj_insert, split_path,
    split_path_exec, view_entries, view_items, Json, JsonValue,
};
use crate::select::{int_literal, lit_neg, parse_int};
use crate::input::JsonInput;

verus! {

/// Why a value could not be edited at a dotted position.
#[derive(Debug, PartialEq, Eq)]
pub enum EditError {
    /// The segment names a field of a value that is neither object nor list.
    NotContainer(String),
    /// The segment is not a list index.
    BadIndex(String),
    /// The index is past the end of the list.
    OutOfRange(String),
    /// The object has no field of that name.
    NotFound(String),
}

/// The model of an edit error: its kind and segment.
pub enum EditFault {
    NotContainer(Seq<char>),
    BadIndex(Seq<char>),
    OutOfRange(Seq<char>),
    NotFound(Seq<char>),
}

impl View for EditError {
    type V = EditFault;

    open spec fn view(&self) -> EditFault {
        match self {
            EditError::NotContainer(s) => EditFault::NotContainer(s@),
            EditError::BadIndex(s) => EditFault::BadIndex(s@),
            EditError::OutOfRange(s) => EditFault::OutOfRange(s@),
            EditError::NotFound(s) => EditFault::NotFound(s@),
        }
    }
}

/// A list index: decimal digits with an optional `+`, within `usize`.
pub open spec fn index_literal(s: Seq<char>) -> Option<int> {
    match int_literal(s) {
        Some(v) => if lit_neg(s) || v > usize::MAX {
            None
        } else {
            Some(v)
        },
        None => None,
    }
}

pub fn parse_index(s: &str) -> (r: Option<usize>)
    ensures
        match r {
            Some(i) => index_literal(s@) == Some(i as int),
            None => index_literal(s@) is None,
        },
{
    match parse_int(s) {
        None => None,
        Some(v) => {
            if s.unicode_len() > 0 && s.get_char(0) == '-' {
                None
            } else {
                proof {
                    assert(!lit_neg(s@));
                    assert(crate::select::all_digits(crate::select::lit_digits(s@)));
                    crate::select::lemma_digits_nonneg(crate::select::lit_digits(s@));
                    assert(v >= 0);
                }
                if v as u64 > usize::MAX as u64 {
                    return None;
                }
                Some(v as usize)
            }
        },
    }
}

/// Writes `v` at the dotted position `p` of `t`: an object gains or replaces
/// the field, a missing field on the way is created as an object; a list
/// index replaces the element, or appends when it is past the end of the
/// list at the last segment.
pub open spec fn insert_at(t: Json, p: Seq<char>, v: Json) -> Result<Json, EditFault>
    decreases p.len(),
{
    let (h, rest) = split_path(p);
    // The rest of a path is always shorter (see lemma_split_rest_shorter);
    // this branch only lets the recursion be seen to end.
    if rest matches Some(r) && r.len() >= p.len() {
        Err(EditFault::NotContainer(h))
    } else {
        match t {
            Json::Array(l) => match index_literal(h) {
                None => Err(EditFault::BadIndex(h)),
                Some(i) => match rest {
                    None => if i < l.len() {
                        Ok(Json::Array(l.update(i, v)))
                    } else {
                        Ok(Json::Array(l.push(v)))
                    },
                    Some(r) => if i < l.len() {
                        match insert_at(l[i], r, v) {
                            Ok(c) => Ok(Json::Array(l.update(i, c))),
                            Err(e) => Err(e),
                        }
                    } else {
                        Err(EditFault::OutOfRange(h))
                    },
                },
            },
            Json::Object(es) => match rest {
                None => Ok(Json::Object(obj_insert(es, h, v))),
                Some(r) => {
                    let child = match obj_get(es, h) {
                        Some(c) => c,
                        None => Json::Object(Seq::empty()),
                    };
                    match insert_at(child, r, v) {
                        Ok(c) => Ok(Json::Object(obj_insert(es, h, c))),
                        Err(e) => Err(e),
                    }
                },
            },
            _ => Err(EditFault::NotContainer(h)),
        }
    }
}

pub proof fn lemma_view_items_update(s: Seq<JsonValue>, i: int, e: JsonValue)
    requires
        0 <= i < s.len(),
    ensures
        view_items(s.update(i, e)) == view_items(s).update(i, e@),
{
    lemma_view_items(s);
    lemma_view_items(s.update(i, e));
    assert(view_items(s.update(i, e)) =~= view_items(s).update(i, e@));
}

pub proof fn lemma_view_items_push(s: Seq<JsonValue>, e: JsonValue)
    ensures
        view_items(s.push(e)) == view_items(s).push(e@),
{
    assert(s.push(e).drop_last() =~= s);
}

/// Writes `val` at the dotted position `pos` of `t`; on error `t` is handed
/// back unchanged inside the error's context.
pub fn insert_val(t: JsonValue, pos: &str, val: JsonValue) -> (r: Result<JsonValue, (JsonValue, EditError)>)
    ensures
        match insert_at(t@, pos@, val@) {
            Ok(j) => r matches Ok(x) && x@ == j,
            Err(e) => r matches Err((back, x)) && x@ == e && back@ == t@,
        },
    decreases pos@.len(),
{
    let (h, rest) = split_path_exec(pos);
    proof {
        lemma_split_rest_shorter(pos@);
    }
    match t {
        JsonValue::Array(mut l) => {
            proof {
                lemma_view_items(l@);
            }
            let ghost l0 = l@;
            match parse_index(h.as_str()) {
                None => Err((JsonValue::Array(l), EditError::BadIndex(h))),
                Some(i) => match rest {
                    None => {
                        if i < l.len() {
                            proof {
                                lemma_view_items_update(l@, i as int, val);
                            }
                            l.set(i, val);
                        } else {
                            proof {
                                lemma_view_items_push(l@, val);
                            }
                            l.push(val);
                        }
                        Ok(JsonValue::Array(l))
                    },
                    Some(r) => {
                        if i < l.len() {
                            let child = l.remove(i);
                            match insert_val(child, r.as_str(), val) {
                                Ok(c) => {
                                    l.insert(i, c);
                                    proof {
                                        assert(l@ =~= l0.update(i as int, c));
                                        lemma_view_items_update(l0, i as int, c);
                                    }
                                    Ok(JsonValue::Array(l))
                                },
                                Err((back, e)) => {
                                    l.insert(i, back);
                                    proof {
                                        assert(l@ =~= l0.update(i as int, back));
                                        lemma_view_items_update(l0, i as int, back);
                                        assert(view_items(l0).update(i as int, back@) =~= view_items(l0));
                                    }
                                    Err((JsonValue::Array(l), e))
                                },
                            }
                        } else {
                            Err((JsonValue::Array(l), EditError::OutOfRange(h)))
                        }
                    },
                },
            }
        },
        JsonValue::Object(mut es) => {
            proof {
                lemma_view_entries(es@);
            }
            match rest {
                None => {
                    insert_entry(&mut es, h, val);
                    Ok(JsonValue::Object(es))
                },
                Some(r) => {
                    match find_key(&es, &h) {
                        Some(i) => {
                            proof {
                                let m = choose|m: int| key_at(view_entries(es@), h@, m);
                                lemma_key_at_unique(view_entries(es@), h@, i as int, m);
                            }
                            let ghost e0 = es@;
                            let (k, child) = es.remove(i);
                            match insert_val(child, r.as_str(), val) {
                                Ok(c) => {
                                    es.insert(i, (k, c));
                                    proof {
                                        assert(es@ =~= e0.update(i as int, (k, c)));
                                        lemma_view_entries_update(e0, i as int, (k, c));
                                    }
                                    Ok(JsonValue::Object(es))
                                },
                                Err((back, e)) => {
                                    es.insert(i, (k, back));
                                    proof {
                                        assert(es@ =~= e0.update(i as int, (k, back)));
                                        lemma_view_entries_update(e0, i as int, (k, back));
                                        assert(view_entries(e0).update(i as int, (k@, back@)) =~= view_entries(e0));
                                    }
                                    Err((JsonValue::Object(es), e))
                                },
                            }
                        },
                        None => {
                            let empty: Vec<(String, JsonValue)> = Vec::new();
                            proof {
                                assert(view_entries(empty@) == Seq::<(Seq<char>, Json)>::empty());
                            }
                            match insert_val(JsonValue::Object(empty), r.as_str(), val) {
                                Ok(c) => {
                                    insert_entry(&mut es, h, c);
                                    Ok(JsonValue::Object(es))
                                },
                                Err((_, e)) => Err((JsonValue::Object(es), e)),
                            }
                        },
                    }
                },
            }
        },
        other => Err((other, EditError::NotContainer(h))),
    }
}

/// The entries without the first one under `k`.
pub open spec fn obj_remove(es: Seq<(Seq<char>, Json)>, k: Seq<char>) -> Seq<(Seq<char>, Json)> {
    if exists|i: int| key_at(es, k, i) {
        es.remove(choose|i: int| key_at(es, k, i))
    } else {
        es
    }
}

/// Takes the value at the dotted position `p` out of `t`: `*` takes the
/// whole value and leaves null; a field is removed from its object; an index
/// is removed from its list. Gives the new value and the one taken.
pub open spec fn remove_at(t: Json, p: Seq<char>) -> Result<(Json, Json), EditFault>
    decreases p.len(),
{
    if is_star(p) {
        Ok((Json::Null, t))
    } else {
        let (h, rest) = split_path(p);
        // The rest of a path is always shorter (see lemma_split_rest_shorter);
    // this branch only lets the recursion be seen to end.
    if rest matches Some(r) && r.len() >= p.len() {
            Err(EditFault::NotContainer(h))
        } else {
            match t {
                Json::Array(l) => match index_literal(h) {
                    None => Err(EditFault::BadIndex(h)),
                    Some(i) => if i < l.len() {
                        match rest {
                            None => Ok((Json::Array(l.remove(i)), l[i])),
                            Some(r) => match remove_at(l[i], r) {
                                Ok((c, x)) => Ok((Json::Array(l.update(i, c)), x)),
                                Err(e) => Err(e),
                            },
                        }
                    } else {
                        Err(EditFault::OutOfRange(h))
                    },
                },
                Json::Object(es) => match obj_get(es, h) {
                    None => Err(EditFault::NotFound(h)),
                    Some(c) => match rest {
                        None => Ok((Json::Object(obj_remove(es, h)), c)),
                        Some(r) => match remove_at(c, r) {
                            Ok((c2, x)) => Ok((Json::Object(obj_insert(es, h, c2)), x)),
                            Err(e) => Err(e),
                        },
                    },
                },
                _ => Err(EditFault::NotContainer(h)),
            }
        }
    }
}

pub proof fn lemma_view_items_remove(s: Seq<JsonValue>, i: int)
    requires
        0 <= i < s.len(),
    ensures
        view_items(s.remove(i)) == view_items(s).remove(i),
{
    lemma_view_items(s);
    lemma_view_items(s.remove(i));
    assert(view_items(s.remove(i)) =~= view_items(s).remove(i));
}

pub proof fn lemma_view_entries_remove(s: Seq<(String, JsonValue)>, i: int)
    requires
        0 <= i < s.len(),
    ensures
        view_entries(s.remove(i)) == view_entries(s).remove(i),
{
    lemma_view_entries(s);
    lemma_view_entries(s.remove(i));
    assert(view_entries(s.remove(i)) =~= view_entries(s).remove(i));
}

/// Takes the value at the dotted position `pos` out of `t`; on error `t` is
/// handed back unchanged.
pub fn remove_val(t: JsonValue, pos: &str) -> (r: Result<(JsonValue, JsonValue), (JsonValue, EditError)>)
    ensures
        match remove_at(t@, pos@) {
            Ok((j, x)) => r matches Ok((a, b)) && a@ == j && b@ == x,
            Err(e) => r matches Err((back, x)) && x@ == e && back@ == t@,
        },
    decreases pos@.len(),
{
    if is_star_exec(pos) {
        return Ok((JsonValue::Null, t));
    }
    let (h, rest) = split_path_exec(pos);
    proof {
        lemma_split_rest_shorter(pos@);
    }
    match t {
        JsonValue::Array(mut l) => {
            proof {
                lemma_view_items(l@);
            }
            let ghost l0 = l@;
            match parse_index(h.as_str()) {
                None => Err((JsonValue::Array(l), EditError::BadIndex(h))),
                Some(i) => {
                    if i >= l.len() {
                        return Err((JsonValue::Array(l), EditError::OutOfRange(h)));
                    }
                    match rest {
                        None => {
                            let x = l.remove(i);
                            proof {
                                lemma_view_items_remove(l0, i as int);
                            }
                            Ok((JsonValue::Array(l), x))
                        },
                        Some(r) => {
                            let child = l.remove(i);
                            match remove_val(child, r.as_str()) {
                                Ok((c, x)) => {
                                    l.insert(i, c);
                                    proof {
                                        assert(l@ =~= l0.update(i as int, c));
                                        lemma_view_items_update(l0, i as int, c);
                                    }
                                    Ok((JsonValue::Array(l), x))
                                },
                                Err((back, e)) => {
                                    l.insert(i, back);
                                    proof {
                                        assert(l@ =~= l0.update(i as int, back));
                                        lemma_view_items_update(l0, i as int, back);
                                        assert(view_items(l0).update(i as int, back@) =~= view_items(l0));
                                    }
                                    Err((JsonValue::Array(l), e))
                                },
                            }
                        },
                    }
                },
            }
        },
        JsonValue::Object(mut es) => {
            proof {
                lemma_view_entries(es@);
            }
            match find_key(&es, &h) {
                None => Err((JsonValue::Object(es), EditError::NotFound(h))),
                Some(i) => {
                    proof {
                        let m = choose|m: int| key_at(view_entries(es@), h@, m);
                        lemma_key_at_unique(view_entries(es@), h@, i as int, m);
                    }
                    let ghost e0 = es@;
                    match rest {
                        None => {
                            let (_, x) = es.remove(i);
                            proof {
                                lemma_view_entries_remove(e0, i as int);
                            }
                            Ok((JsonValue::Object(es), x))
                        },
                        Some(r) => {
                            let (k, child) = es.remove(i);
                            match remove_val(child, r.as_str()) {
                                Ok((c, x)) => {
                                    es.insert(i, (k, c));
                                    proof {
                                        assert(es@ =~= e0.update(i as int, (k, c)));
                                        lemma_view_entries_update(e0, i as int, (k, c));
                                    }
                                    Ok((JsonValue::Object(es), x))
                                },
                                Err((back, e)) => {
                                    es.insert(i, (k, back));
                                    proof {
                                        assert(es@ =~= e0.update(i as int, (k, back)));
                                        lemma_view_entries_update(e0, i as int, (k, back));
                                        assert(view_entries(e0).update(i as int, (k@, back@)) =~= view_entries(e0));
                                    }
                                    Err((JsonValue::Object(es), e))
                                },
                            }
                        },
                    }
                },
            }
        },
        other => Err((other, EditError::NotContainer(h))),
    }
}

/// Lays the default `d` over `v`: a null default leaves `v`; an object
/// default lays each of its fields, in order, over the field of the same
/// name (a value that is not an object is first replaced by an object);
/// any other default replaces `v`.
pub open spec fn cover(d: Json, v: Json) -> Json
    decreases d,
{
    match d {
        Json::Null => v,
        Json::Object(es) => cover_entries(es, v),
        _ => d,
    }
}

pub open spec fn cover_entries(es: Seq<(Seq<char>, Json)>, v: Json) -> Json
    decreases es,
{
    if es.len() == 0 {
        v
    } else {
        let w = cover_entries(es.drop_last(), v);
        let (k, d) = es.last();
        match w {
            Json::Object(map) => match obj_get(map, k) {
                Some(c) => Json::Object(obj_insert(map, k, cover(d, c))),
                None => Json::Object(obj_insert(map, k, d)),
            },
            _ => Json::Object(seq![(k, d)]),
        }
    }
}

/// Lays the default `default` over `val`.
pub fn cover_value(default: JsonValue, val: JsonValue) -> (r: JsonValue)
    ensures
        r@ == cover(default@, val@),
    decreases default,
{
    let ghost g_default = default;
    match default {
        JsonValue::Null => val,
        JsonValue::Object(es) => {
            proof {
                lemma_view_entries(es@);
            }
            let ghost es0 = es@;
            let ghost ev = es;
            let mut rest = es;
            let mut firsts: Vec<(String, JsonValue)> = Vec::new();
            let mut w = val;
            let n = rest.len();
            let mut i: usize = 0;
            proof {
                assert(view_entries(es0).subrange(0, 0) =~= Seq::<(Seq<char>, Json)>::empty());
                assert(rest@.subrange(0, 0) =~= Seq::<(String, JsonValue)>::empty());
            }
            while rest.len() > 0
                invariant
                    n == es0.len(),
                    i + rest.len() == n,
                    rest@ == es0.subrange(i as int, n as int),
                    view_entries(es0).len() == n,
                    forall|j: int| 0 <= j < n ==> #[trigger] view_entries(es0)[j] == (es0[j].0@, es0[j].1.view_json()),
                    g_default == JsonValue::Object(ev),
                    g_default == default,
                    ev@ == es0,
                    w@ == cover_entries(view_entries(es0).subrange(0, i as int), val@),
                decreases rest.len(),
            {
                let (k, d) = rest.remove(0);
                proof {
                    assert(es0[i as int] == (k, d));
                    assert(decreases_to!(g_default => g_default->Object_0));
                    assert(decreases_to!(ev => ev[i as int]));
                    assert(decreases_to!(ev[i as int] => ev[i as int].1));
                    assert(decreases_to!(g_default => d));
                    let pre = view_entries(es0).subrange(0, i + 1);
                    assert(pre.drop_last() =~= view_entries(es0).subrange(0, i as int));
                    assert(pre.last() == (k@, d@));
                }
                w = match w {
                    JsonValue::Object(mut map) => {
                        proof {
                            lemma_view_entries(map@);
                        }
                        match find_key(&map, &k) {
                            Some(j) => {
                                proof {
                                    let m = choose|m: int| key_at(view_entries(map@), k@, m);
                                    lemma_key_at_unique(view_entries(map@), k@, j as int, m);
                                }
                                let ghost m0 = map@;
                                let (k2, c) = map.remove(j);
                                let c2 = cover_value(d, c);
                                map.insert(j, (k2, c2));
                                proof {
                                    assert(map@ =~= m0.update(j as int, (k2, c2)));
                                    lemma_view_entries_update(m0, j as int, (k2, c2));
                                }
                                JsonValue::Object(map)
                            },
                            None => {
                                insert_entry(&mut map, k, d);
                                JsonValue::Object(map)
                            },
                        }
                    },
                    _ => {
                        let mut map: Vec<(String, JsonValue)> = Vec::new();
                        proof {
                            assert(view_entries(map@) =~= Seq::<(Seq<char>, Json)>::empty());
                        }
                        map.push((k, d));
                        proof {
                            crate::json::lemma_view_entries_push(Seq::<(String, JsonValue)>::empty(), (k, d));
                            assert(map@ =~= Seq::<(String, JsonValue)>::empty().push((k, d)));
                            assert(view_entries(map@) =~= seq![(k@, d@)]);
                        }
                        JsonValue::Object(map)
                    },
                };
                i = i + 1;
                proof {
                    assert(rest@ =~= es0.subrange(i as int, n as int));
                }
            }
            proof {
                assert(view_entries(es0).subrange(0, n as int) =~= view_entries(es0));
            }
            w
        },
        other => other,
    }
}

impl JsonInput {
    /// Writes `val` at the dotted position `pos` of `t`; on error `t` is
    /// left as it was.
    pub fn insert_val_to_json_val(t: &mut JsonValue, pos: &str, val: JsonValue) -> (r: Result<(), EditError>)
        ensures
            match insert_at(old(t)@, pos@, val@) {
                Ok(j) => r is Ok && final(t)@ == j,
                Err(e) => r matches Err(x) && x@ == e && final(t)@ == old(t)@,
            },
    {
        let mut cur = JsonValue::Null;
        std::mem::swap(t, &mut cur);
        match insert_val(cur, pos, val) {
            Ok(v) => {
                *t = v;
                Ok(())
            },
            Err((back, e)) => {
                *t = back;
                Err(e)
            },
        }
    }

    /// Takes the value at the dotted position `pos` out of `t`; on error `t`
    /// is left as it was.
    pub fn remove_val_from_json_val(t: &mut JsonValue, pos: &str) -> (r: Result<JsonValue, EditError>)
        ensures
            match remove_at(old(t)@, pos@) {
                Ok((j, x)) => r matches Ok(v) && v@ == x && final(t)@ == j,
                Err(e) => r matches Err(x) && x@ == e && final(t)@ == old(t)@,
            },
    {
        let mut cur = JsonValue::Null;
        std::mem::swap(t, &mut cur);
        match remove_val(cur, pos) {
            Ok((v, x)) => {
                *t = v;
                Ok(x)
            },
            Err((back, e)) => {
                *t = back;
                Err(e)
            },
        }
    }

    /// Lays the default document over `val`.
    pub fn cover_default(default: JsonValue, val: &mut JsonValue)
        ensures
            final(val)@ == cover(default@, old(val)@),
    {
        let mut cur = JsonValue::Null;
        std::mem::swap(val, &mut cur);
        *val = cover_value(default, cur);
    }
}

} // verus!
