use vstd::prelude::*;

verus! {

broadcast use vstd::std_specs::vec::axiom_vec_index_decreases;

/// A JSON value as the library holds it.
///
/// Integers are kept exactly; a number with a fraction or an exponent is kept
/// as its decimal text, since the library does no floating-point arithmetic.
/// An object keeps its entries in insertion order; a lookup finds the first
/// entry with the key.
#[derive(Debug)]
pub enum JsonValue {
    Null,
    Bool(bool),
    Number(i64),
    Decimal(String),
    Str(String),
    Array(Vec<JsonValue>),
    Object(Vec<(String, JsonValue)>),
}

/// The mathematical model of a JSON value.
pub enum Json {
    Null,
    Bool(bool),
    Number(int),
    Decimal(Seq<char>),
    Str(Seq<char>),
    Array(Seq<Json>),
    Object(Seq<(Seq<char>, Json)>),
}

pub open spec fn view_items(s: Seq<JsonValue>) -> Seq<Json>
    decreases s,
{
    if s.len() == 0 {
        Seq::empty()
    } else {
        view_items(s.drop_last()).push(s.last().view_json())
    }
}

pub open spec fn view_entries(s: Seq<(String, JsonValue)>) -> Seq<(Seq<char>, Json)>
    decreases s,
{
    if s.len() == 0 {
        Seq::empty()
    } else {
        view_entries(s.drop_last()).push((s.last().0@, s.last().1.view_json()))
    }
}

impl JsonValue {
    pub open spec fn view_json(self) -> Json
        decreases self,
    {
        match self {
            JsonValue::Null => Json::Null,
            JsonValue::Bool(b) => Json::Bool(b),
            JsonValue::Number(n) => Json::Number(n as int),
            JsonValue::Decimal(s) => Json::Decimal(s@),
            JsonValue::Str(s) => Json::Str(s@),
            JsonValue::Array(v) => Json::Array(view_items(v@)),
            JsonValue::Object(v) => Json::Object(view_entries(v@)),
        }
    }
}

impl View for JsonValue {
    type V = Json;

    open spec fn view(&self) -> Json {
        self.view_json()
    }
}

pub proof fn lemma_view_items(s: Seq<JsonValue>)
    ensures
        view_items(s).len() == s.len(),
        forall|i: int| 0 <= i < s.len() ==> #[trigger] view_items(s)[i] == s[i].view_json(),
    decreases s.len(),
{
    if s.len() > 0 {
        lemma_view_items(s.drop_last());
    }
}

pub proof fn lemma_view_entries(s: Seq<(String, JsonValue)>)
    ensures
        view_entries(s).len() == s.len(),
        forall|i: int|
            0 <= i < s.len() ==> #[trigger] view_entries(s)[i] == (s[i].0@, s[i].1.view_json()),
    decreases s.len(),
{
    if s.len() > 0 {
        lemma_view_entries(s.drop_last());
    }
}

impl JsonValue {
    /// A copy of the value, entry by entry.
    pub fn deep_clone(&self) -> (r: JsonValue)
        ensures
            r@ == self@,
        decreases self,
    {
        match self {
            JsonValue::Null => JsonValue::Null,
            JsonValue::Bool(b) => JsonValue::Bool(*b),
            JsonValue::Number(n) => JsonValue::Number(*n),
            JsonValue::Decimal(s) => JsonValue::Decimal(s.clone()),
            JsonValue::Str(s) => JsonValue::Str(s.clone()),
            JsonValue::Array(v) => {
                let mut out: Vec<JsonValue> = Vec::new();
                let mut i: usize = 0;
                while i < v.len()
                    invariant
                        *self == JsonValue::Array(*v),
                        i <= v.len(),
                        out@.len() == i,
                        forall|j: int| 0 <= j < i ==> #[trigger] out@[j]@ == v@[j]@,
                    decreases v.len() - i,
                {
                    proof {
                        assert(decreases_to!(*self => self->Array_0));
                        assert(decreases_to!(*v => v[i as int]));
                        assert(decreases_to!(*self => v[i as int]));
                    }
                    let c = v[i].deep_clone();
                    out.push(c);
                    i = i + 1;
                }
                proof {
                    lemma_view_items(out@);
                    lemma_view_items(v@);
                    assert forall|j: int| 0 <= j < v@.len() implies view_items(out@)[j]
                        == view_items(v@)[j] by {
                        assert(out@[j]@ == v@[j]@);
                    }
                    assert(view_items(out@) =~= view_items(v@));
                }
                JsonValue::Array(out)
            },
            JsonValue::Object(v) => {
                let mut out: Vec<(String, JsonValue)> = Vec::new();
                let mut i: usize = 0;
                while i < v.len()
                    invariant
                        *self == JsonValue::Object(*v),
                        i <= v.len(),
                        out@.len() == i,
                        forall|j: int| 0 <= j < i ==> #[trigger] out@[j].0@ == v@[j].0@,
                        forall|j: int| 0 <= j < i ==> #[trigger] out@[j].1@ == v@[j].1@,
                    decreases v.len() - i,
                {
                    proof {
                        assert(decreases_to!(*self => self->Object_0));
                        assert(decreases_to!(*v => v[i as int]));
                        assert(decreases_to!(v[i as int] => v[i as int].1));
                        assert(decreases_to!(*self => v[i as int].1));
                    }
                    let k = v[i].0.clone();
                    let c = v[i].1.deep_clone();
                    out.push((k, c));
                    i = i + 1;
                }
                proof {
                    lemma_view_entries(out@);
                    lemma_view_entries(v@);
                    assert forall|j: int| 0 <= j < v@.len() implies view_entries(out@)[j]
                        == view_entries(v@)[j] by {
                        assert(out@[j].1@ == v@[j].1@);
                    }
                    assert(view_entries(out@) =~= view_entries(v@));
                }
                JsonValue::Object(out)
            },
        }
    }
}

/// `i` is the position of the first '.' in `p`.
pub open spec fn dot_at(p: Seq<char>, i: int) -> bool {
    &&& 0 <= i < p.len()
    &&& p[i] == '.'
    &&& forall|j: int| 0 <= j < i ==> p[j] != '.'
}

/// A dotted path split at its first '.': the head, and the rest after the dot
/// when there is one.
pub open spec fn split_path(p: Seq<char>) -> (Seq<char>, Option<Seq<char>>) {
    if exists|i: int| dot_at(p, i) {
        let i = choose|i: int| dot_at(p, i);
        (p.subrange(0, i), Some(p.subrange(i + 1, p.len() as int)))
    } else {
        (p, None)
    }
}

pub proof fn lemma_dot_at_unique(p: Seq<char>, i: int, k: int)
    requires
        dot_at(p, i),
        dot_at(p, k),
    ensures
        i == k,
{
}

pub proof fn lemma_split_rest_shorter(p: Seq<char>)
    ensures
        split_path(p).1 matches Some(r) ==> r.len() < p.len(),
{
}

/// `i` is the first entry of `es` under key `k`.
pub open spec fn key_at(es: Seq<(Seq<char>, Json)>, k: Seq<char>, i: int) -> bool {
    &&& 0 <= i < es.len()
    &&& es[i].0 == k
    &&& forall|j: int| 0 <= j < i ==> es[j].0 != k
}

/// The value of the first entry under `k`.
pub open spec fn obj_get(es: Seq<(Seq<char>, Json)>, k: Seq<char>) -> Option<Json> {
    if exists|i: int| key_at(es, k, i) {
        Some(es[choose|i: int| key_at(es, k, i)].1)
    } else {
        None
    }
}

/// Replaces the value of the first entry under `k`, or appends an entry.
pub open spec fn obj_insert(es: Seq<(Seq<char>, Json)>, k: Seq<char>, v: Json) -> Seq<(Seq<char>, Json)> {
    if exists|i: int| key_at(es, k, i) {
        es.update(choose|i: int| key_at(es, k, i), (k, v))
    } else {
        es.push((k, v))
    }
}

pub open spec fn is_star(p: Seq<char>) -> bool {
    p.len() == 1 && p[0] == '*'
}

/// Dotted-path read: `*` is the whole value; otherwise each segment names an
/// entry of an object.
pub open spec fn get_path(j: Json, p: Seq<char>) -> Option<Json>
    decreases p.len(),
{
    if is_star(p) {
        Some(j)
    } else {
        match j {
            Json::Object(es) => {
                let (h, rest) = split_path(p);
                match obj_get(es, h) {
                    None => None,
                    Some(c) => match rest {
                        None => Some(c),
                        // the rest is always shorter; the test shows the recursion ends
                        Some(r) => if r.len() < p.len() {
                            get_path(c, r)
                        } else {
                            None
                        },
                    },
                }
            },
            _ => None,
        }
    }
}

/// Dotted-path write: a value that is not an object is first replaced by an
/// empty object; a missing segment is created as an empty object.
pub open spec fn set_path(j: Json, p: Seq<char>, x: Json) -> Json
    decreases p.len(),
{
    let es = match j {
        Json::Object(es) => es,
        _ => Seq::empty(),
    };
    let (h, rest) = split_path(p);
    match rest {
        None => Json::Object(obj_insert(es, h, x)),
        Some(r) => {
            let child = match obj_get(es, h) {
                Some(c) => c,
                None => Json::Object(Seq::empty()),
            };
            // the rest is always shorter; the test shows the recursion ends
            if r.len() < p.len() {
                Json::Object(obj_insert(es, h, set_path(child, r, x)))
            } else {
                j
            }
        },
    }
}

pub proof fn lemma_obj_insert_get(es: Seq<(Seq<char>, Json)>, k: Seq<char>, v: Json)
    ensures
        obj_get(obj_insert(es, k, v), k) == Some(v),
{
    let es2 = obj_insert(es, k, v);
    if exists|i: int| key_at(es, k, i) {
        let i = choose|i: int| key_at(es, k, i);
        assert(key_at(es2, k, i));
        assert forall|m: int| key_at(es2, k, m) implies m == i by {
            if m < i {
                assert(es2[m] == es[m]);
            } else if m > i {
                assert(es2[i].0 == k);
            }
        }
    } else {
        let i = es.len() as int;
        assert(key_at(es2, k, i)) by {
            assert forall|j: int| 0 <= j < i implies es2[j].0 != k by {
                assert(es2[j] == es[j]);
                if es[j].0 == k {
                    assert(exists|m: int| 0 <= m < es.len() && es[m].0 == k);
                    lemma_first_key(es, k, j);
                }
            }
        }
        assert forall|m: int| key_at(es2, k, m) implies m == i by {
            if m < i {
                assert(es2[m] == es[m]);
                lemma_first_key(es, k, m);
            }
        }
    }
}

/// An entry under `k` at `j` means some entry under `k` comes first.
pub proof fn lemma_first_key(es: Seq<(Seq<char>, Json)>, k: Seq<char>, j: int)
    requires
        0 <= j < es.len(),
        es[j].0 == k,
    ensures
        exists|i: int| key_at(es, k, i),
    decreases j,
{
    if exists|m: int| 0 <= m < j && es[m].0 == k {
        let m = choose|m: int| 0 <= m < j && es[m].0 == k;
        lemma_first_key(es, k, m);
    } else {
        assert(key_at(es, k, j));
    }
}

pub open spec fn ends_with_dot_star(p: Seq<char>) -> bool {
    p.len() >= 2 && p[p.len() - 2] == '.' && p[p.len() - 1] == '*'
}

/// Writing a value at a dotted path and reading the same path gives the value
/// back, for every path whose last segment is not `*` (a trailing `*` reads
/// the whole enclosing value).
pub proof fn lemma_set_then_get(j: Json, p: Seq<char>, x: Json)
    requires
        !is_star(p),
        !ends_with_dot_star(p),
    ensures
        get_path(set_path(j, p, x), p) == Some(x),
    decreases p.len(),
{
    let es = match j {
        Json::Object(es) => es,
        _ => Seq::empty(),
    };
    let (h, rest) = split_path(p);
    lemma_split_rest_shorter(p);
    match rest {
        None => {
            lemma_obj_insert_get(es, h, x);
        },
        Some(r) => {
            let i = choose|i: int| dot_at(p, i);
            assert(r == p.subrange(i + 1, p.len() as int));
            let child = match obj_get(es, h) {
                Some(c) => c,
                None => Json::Object(Seq::empty()),
            };
            assert(!is_star(r)) by {
                if is_star(r) {
                    assert(p[p.len() - 1] == r[0]);
                    assert(p[p.len() - 2] == p[i]);
                }
            }
            assert(!ends_with_dot_star(r)) by {
                if ends_with_dot_star(r) {
                    assert(p[p.len() - 1] == r[r.len() - 1]);
                    assert(p[p.len() - 2] == r[r.len() - 2]);
                }
            }
            lemma_set_then_get(child, r, x);
            lemma_obj_insert_get(es, h, set_path(child, r, x));
        },
    }
}

/// Splits a dotted path at its first '.'.
pub fn split_path_exec(p: &str) -> (r: (String, Option<String>))
    ensures
        r.0@ == split_path(p@).0,
        match r.1 {
            Some(rest) => split_path(p@).1 == Some(rest@),
            None => split_path(p@).1 is None,
        },
{
    let n = p.unicode_len();
    let mut i: usize = 0;
    while i < n
        invariant
            n == p@.len(),
            i <= n,
            forall|j: int| 0 <= j < i ==> p@[j] != '.',
        decreases n - i,
    {
        if p.get_char(i) == '.' {
            proof {
                assert(dot_at(p@, i as int));
                let k = choose|k: int| dot_at(p@, k);
                lemma_dot_at_unique(p@, i as int, k);
            }
            let head = String::from_str(p.substring_char(0, i));
            let rest = String::from_str(p.substring_char(i + 1, n));
            return (head, Some(rest));
        }
        i = i + 1;
    }
    (String::from_str(p), None)
}

/// Whether the path is the single segment `*`.
pub fn is_star_exec(p: &str) -> (r: bool)
    ensures
        r == is_star(p@),
{
    p.unicode_len() == 1 && p.get_char(0) == '*'
}

/// The position of the first entry under `k`.
pub fn find_key(es: &Vec<(String, JsonValue)>, k: &String) -> (r: Option<usize>)
    ensures
        match r {
            Some(i) => key_at(view_entries(es@), k@, i as int),
            None => !(exists|i: int| key_at(view_entries(es@), k@, i)),
        },
{
    proof {
        lemma_view_entries(es@);
    }
    let mut i: usize = 0;
    while i < es.len()
        invariant
            i <= es.len(),
            view_entries(es@).len() == es.len(),
            forall|j: int|
                0 <= j < es.len() ==> #[trigger] view_entries(es@)[j] == (
                    es@[j].0@,
                    es@[j].1.view_json(),
                ),
            forall|j: int| 0 <= j < i ==> view_entries(es@)[j].0 != k@,
        decreases es.len() - i,
    {
        if es[i].0 == *k {
            return Some(i);
        }
        i = i + 1;
    }
    None
}

pub proof fn lemma_key_at_unique(es: Seq<(Seq<char>, Json)>, k: Seq<char>, i: int, m: int)
    requires
        key_at(es, k, i),
        key_at(es, k, m),
    ensures
        i == m,
{
}

impl JsonValue {
    /// Structural equality; objects compare entry by entry, in order.
    pub fn json_eq(&self, other: &JsonValue) -> (r: bool)
        ensures
            r == (self@ == other@),
        decreases self,
    {
        match (self, other) {
            (JsonValue::Null, JsonValue::Null) => true,
            (JsonValue::Bool(a), JsonValue::Bool(b)) => *a == *b,
            (JsonValue::Number(a), JsonValue::Number(b)) => *a == *b,
            (JsonValue::Decimal(a), JsonValue::Decimal(b)) => *a == *b,
            (JsonValue::Str(a), JsonValue::Str(b)) => *a == *b,
            (JsonValue::Array(a), JsonValue::Array(b)) => {
                proof {
                    lemma_view_items(a@);
                    lemma_view_items(b@);
                }
                if a.len() != b.len() {
                    proof {
                        assert(view_items(a@).len() != view_items(b@).len());
                    }
                    return false;
                }
                let mut i: usize = 0;
                while i < a.len()
                    invariant
                        *self == JsonValue::Array(*a),
                        *other == JsonValue::Array(*b),
                        a.len() == b.len(),
                        i <= a.len(),
                        view_items(a@).len() == a.len(),
                        view_items(b@).len() == b.len(),
                        forall|j: int| 0 <= j < a.len() ==> #[trigger] view_items(a@)[j] == a@[j].view_json(),
                        forall|j: int| 0 <= j < b.len() ==> #[trigger] view_items(b@)[j] == b@[j].view_json(),
                        forall|j: int| 0 <= j < i ==> a@[j]@ == b@[j]@,
                    decreases a.len() - i,
                {
                    proof {
                        assert(decreases_to!(*self => self->Array_0));
                        assert(decreases_to!(*a => a[i as int]));
                    }
                    if !a[i].json_eq(&b[i]) {
                        proof {
                            assert(view_items(a@)[i as int] != view_items(b@)[i as int]);
                        }
                        return false;
                    }
                    i = i + 1;
                }
                proof {
                    assert(view_items(a@) =~= view_items(b@));
                }
                true
            },
            (JsonValue::Object(a), JsonValue::Object(b)) => {
                proof {
                    lemma_view_entries(a@);
                    lemma_view_entries(b@);
                }
                if a.len() != b.len() {
                    proof {
                        assert(view_entries(a@).len() != view_entries(b@).len());
                    }
                    return false;
                }
                let mut i: usize = 0;
                while i < a.len()
                    invariant
                        *self == JsonValue::Object(*a),
                        *other == JsonValue::Object(*b),
                        a.len() == b.len(),
                        i <= a.len(),
                        view_entries(a@).len() == a.len(),
                        view_entries(b@).len() == b.len(),
                        forall|j: int|
                            0 <= j < a.len() ==> #[trigger] view_entries(a@)[j] == (a@[j].0@, a@[j].1.view_json()),
                        forall|j: int|
                            0 <= j < b.len() ==> #[trigger] view_entries(b@)[j] == (b@[j].0@, b@[j].1.view_json()),
                        forall|j: int| 0 <= j < i ==> a@[j].0@ == b@[j].0@ && a@[j].1@ == b@[j].1@,
                    decreases a.len() - i,
                {
                    proof {
                        assert(decreases_to!(*self => self->Object_0));
                        assert(decreases_to!(*a => a[i as int]));
                        assert(decreases_to!(a[i as int] => a[i as int].1));
                    }
                    if a[i].0 != b[i].0 {
                        proof {
                            assert(view_entries(a@)[i as int] != view_entries(b@)[i as int]);
                        }
                        return false;
                    }
                    if !a[i].1.json_eq(&b[i].1) {
                        proof {
                            assert(view_entries(a@)[i as int] != view_entries(b@)[i as int]);
                        }
                        return false;
                    }
                    i = i + 1;
                }
                proof {
                    assert(view_entries(a@) =~= view_entries(b@));
                }
                true
            },
            _ => false,
        }
    }

    /// Whether the value is null.
    pub fn is_null(&self) -> (r: bool)
        ensures
            r == (self@ is Null),
    {
        match self {
            JsonValue::Null => true,
            _ => false,
        }
    }

    /// Dotted-path read.
    pub fn get_val(&self, key: &str) -> (r: Option<JsonValue>)
        ensures
            match r {
                Some(v) => get_path(self@, key@) == Some(v@),
                None => get_path(self@, key@) is None,
            },
        decreases key@.len(),
    {
        if is_star_exec(key) {
            return Some(self.deep_clone());
        }
        match self {
            JsonValue::Object(es) => {
                let (h, rest) = split_path_exec(key);
                proof {
                    lemma_split_rest_shorter(key@);
                    lemma_view_entries(es@);
                }
                match find_key(es, &h) {
                    None => None,
                    Some(i) => {
                        proof {
                            let m = choose|m: int| key_at(view_entries(es@), h@, m);
                            lemma_key_at_unique(view_entries(es@), h@, i as int, m);
                        }
                        match rest {
                            None => Some(es[i].1.deep_clone()),
                            Some(r) => es[i].1.get_val(r.as_str()),
                        }
                    },
                }
            },
            _ => None,
        }
    }
}

pub proof fn lemma_view_entries_update(s: Seq<(String, JsonValue)>, i: int, e: (String, JsonValue))
    requires
        0 <= i < s.len(),
    ensures
        view_entries(s.update(i, e)) == view_entries(s).update(i, (e.0@, e.1.view_json())),
{
    lemma_view_entries(s);
    lemma_view_entries(s.update(i, e));
    assert(view_entries(s.update(i, e)) =~= view_entries(s).update(i, (e.0@, e.1.view_json())));
}

pub proof fn lemma_view_entries_push(s: Seq<(String, JsonValue)>, e: (String, JsonValue))
    ensures
        view_entries(s.push(e)) == view_entries(s).push((e.0@, e.1.view_json())),
{
    assert(s.push(e).drop_last() =~= s);
}

/// Replaces the value of the first entry under `k`, or appends an entry.
pub fn insert_entry(es: &mut Vec<(String, JsonValue)>, k: String, v: JsonValue)
    ensures
        view_entries(final(es)@) == obj_insert(view_entries(old(es)@), k@, v@),
{
    proof {
        lemma_view_entries(es@);
    }
    match find_key(es, &k) {
        Some(i) => {
            proof {
                let m = choose|m: int| key_at(view_entries(es@), k@, m);
                lemma_key_at_unique(view_entries(es@), k@, i as int, m);
                lemma_view_entries_update(es@, i as int, (k, v));
            }
            es.set(i, (k, v));
        },
        None => {
            proof {
                lemma_view_entries_push(es@, (k, v));
            }
            es.push((k, v));
        },
    }
}

impl JsonValue {
    /// The value with `x` written at the dotted path `key`.
    pub fn with_path(self, key: &str, x: JsonValue) -> (r: JsonValue)
        ensures
            r@ == set_path(self@, key@, x@),
        decreases key@.len(),
    {
        let ghost j = self@;
        let mut es: Vec<(String, JsonValue)> = match self {
            JsonValue::Object(es) => es,
            _ => Vec::new(),
        };
        assert(view_entries(es@) == match j {
            Json::Object(es) => es,
            _ => Seq::empty(),
        });
        let (h, rest) = split_path_exec(key);
        proof {
            lemma_split_rest_shorter(key@);
        }
        match rest {
            None => {
                insert_entry(&mut es, h, x);
                JsonValue::Object(es)
            },
            Some(r) => {
                proof {
                    lemma_view_entries(es@);
                }
                match find_key(&es, &h) {
                    Some(i) => {
                        proof {
                            let m = choose|m: int| key_at(view_entries(es@), h@, m);
                            lemma_key_at_unique(view_entries(es@), h@, i as int, m);
                        }
                        let ghost before = es@;
                        let (k, child) = es.remove(i);
                        let nc = child.with_path(r.as_str(), x);
                        es.insert(i, (k, nc));
                        proof {
                            assert(es@ =~= before.update(i as int, (k, nc)));
                            lemma_view_entries_update(before, i as int, (k, nc));
                        }
                    },
                    None => {
                        let empty: Vec<(String, JsonValue)> = Vec::new();
                        proof {
                            assert(view_entries(empty@) == Seq::<(Seq<char>, Json)>::empty());
                        }
                        let nc = JsonValue::Object(empty).with_path(r.as_str(), x);
                        proof {
                            lemma_view_entries_push(es@, (h, nc));
                        }
                        es.push((h, nc));
                    },
                }
                JsonValue::Object(es)
            },
        }
    }

    /// Dotted-path write in place.
    pub fn set_value(&mut self, key: &str, val: JsonValue)
        ensures
            final(self)@ == set_path(old(self)@, key@, val@),
    {
        let mut cur = JsonValue::Null;
        std::mem::swap(self, &mut cur);
        *self = cur.with_path(key, val);
    }
}

} // verus!
