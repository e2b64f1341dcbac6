use vstd::prelude::*;

use crate::json::{lemma_view_items, view_items, Json, JsonValue};

verus! {

/// Why a condition could not be evaluated.
#[derive(Debug, Clone, Copy, PartialEq, Eq, Structural)]
pub enum SelectError {
    /// An ordering was asked of a value that is not a number or a string.
    NotNumber,
    /// An ordering between values that are not both integers: it needs
    /// floating-point arithmetic, which this library does not do.
    FloatRequired,
    /// `and` or `or` was asked of `calc`, which evaluates one comparison.
    Unsupported,
    /// `and` and `or` take at least two conditions.
    TooFewConditions,
    /// `contain` takes a string and a string, or a list and a value.
    ContainUnsupported,
}

/// A routing condition.
#[derive(Debug)]
pub enum SelectNode {
    Always,
    Equal(JsonValue, JsonValue),
    NotEqual(JsonValue, JsonValue),
    Greater(JsonValue, JsonValue),
    GreaterEqual(JsonValue, JsonValue),
    Less(JsonValue, JsonValue),
    LessEqual(JsonValue, JsonValue),
    Contain(JsonValue, JsonValue),
    Empty(JsonValue),
    NonEmpty(JsonValue),
    And(Vec<SelectNode>),
    Or(Vec<SelectNode>),
}

/// The model of a condition.
pub enum Cond {
    Always,
    Equal(Json, Json),
    NotEqual(Json, Json),
    Greater(Json, Json),
    GreaterEqual(Json, Json),
    Less(Json, Json),
    LessEqual(Json, Json),
    Contain(Json, Json),
    Empty(Json),
    NonEmpty(Json),
    And(Seq<Cond>),
    Or(Seq<Cond>),
}

pub open spec fn view_conds(s: Seq<SelectNode>) -> Seq<Cond>
    decreases s,
{
    if s.len() == 0 {
        Seq::empty()
    } else {
        view_conds(s.drop_last()).push(s.last().view_cond())
    }
}

impl SelectNode {
    pub open spec fn view_cond(self) -> Cond
        decreases self,
    {
        match self {
            SelectNode::Always => Cond::Always,
            SelectNode::Equal(a, b) => Cond::Equal(a@, b@),
            SelectNode::NotEqual(a, b) => Cond::NotEqual(a@, b@),
            SelectNode::Greater(a, b) => Cond::Greater(a@, b@),
            SelectNode::GreaterEqual(a, b) => Cond::GreaterEqual(a@, b@),
            SelectNode::Less(a, b) => Cond::Less(a@, b@),
            SelectNode::LessEqual(a, b) => Cond::LessEqual(a@, b@),
            SelectNode::Contain(a, b) => Cond::Contain(a@, b@),
            SelectNode::Empty(a) => Cond::Empty(a@),
            SelectNode::NonEmpty(a) => Cond::NonEmpty(a@),
            SelectNode::And(l) => Cond::And(view_conds(l@)),
            SelectNode::Or(l) => Cond::Or(view_conds(l@)),
        }
    }
}

impl View for SelectNode {
    type V = Cond;

    open spec fn view(&self) -> Cond {
        self.view_cond()
    }
}

pub proof fn lemma_view_conds(s: Seq<SelectNode>)
    ensures
        view_conds(s).len() == s.len(),
        forall|i: int| 0 <= i < s.len() ==> #[trigger] view_conds(s)[i] == s[i].view_cond(),
    decreases s.len(),
{
    if s.len() > 0 {
        lemma_view_conds(s.drop_last());
    }
}

/// Which ordering a comparison asks for.
pub enum Order {
    Greater,
    GreaterEqual,
    Less,
    LessEqual,
}

pub open spec fn holds(o: Order, a: int, b: int) -> bool {
    match o {
        Order::Greater => a > b,
        Order::GreaterEqual => a >= b,
        Order::Less => a < b,
        Order::LessEqual => a <= b,
    }
}

pub open spec fn is_digit(c: char) -> bool {
    '0' <= c && c <= '9'
}

/// The value of a run of decimal digits.
pub open spec fn digits_value(s: Seq<char>) -> int
    decreases s.len(),
{
    if s.len() == 0 {
        0
    } else {
        digits_value(s.drop_last()) * 10 + (s.last() as int - '0' as int)
    }
}

/// The integer an integer literal denotes: an optional sign and at least one
/// decimal digit.
pub open spec fn lit_neg(s: Seq<char>) -> bool {
    s.len() > 0 && s[0] == '-'
}

pub open spec fn lit_signed(s: Seq<char>) -> bool {
    s.len() > 0 && (s[0] == '-' || s[0] == '+')
}

/// The digits of an integer literal, after its sign.
pub open spec fn lit_digits(s: Seq<char>) -> Seq<char> {
    if lit_signed(s) {
        s.subrange(1, s.len() as int)
    } else {
        s
    }
}

pub open spec fn all_digits(d: Seq<char>) -> bool {
    forall|i: int| 0 <= i < d.len() ==> is_digit(#[trigger] d[i])
}

/// The integer an integer literal denotes: an optional sign and at least one
/// decimal digit, within the range of `i64`.
pub open spec fn int_literal(s: Seq<char>) -> Option<int> {
    let d = lit_digits(s);
    let v = if lit_neg(s) {
        -digits_value(d)
    } else {
        digits_value(d)
    };
    if d.len() > 0 && all_digits(d) && i64::MIN <= v <= i64::MAX {
        Some(v)
    } else {
        None
    }
}

pub proof fn lemma_digits_grow(d: Seq<char>, k: int)
    requires
        0 <= k <= d.len(),
        forall|i: int| 0 <= i < d.len() ==> is_digit(#[trigger] d[i]),
    ensures
        digits_value(d.subrange(0, k)) <= digits_value(d),
        0 <= digits_value(d.subrange(0, k)),
    decreases d.len() - k,
{
    if k < d.len() {
        lemma_digits_grow(d, k + 1);
        assert(d.subrange(0, k + 1).drop_last() =~= d.subrange(0, k));
        assert(is_digit(d[k]));
    } else {
        assert(d.subrange(0, k) =~= d);
        lemma_digits_nonneg(d);
    }
}

pub proof fn lemma_digits_nonneg(d: Seq<char>)
    requires
        forall|i: int| 0 <= i < d.len() ==> is_digit(#[trigger] d[i]),
    ensures
        0 <= digits_value(d),
    decreases d.len(),
{
    if d.len() > 0 {
        lemma_digits_nonneg(d.drop_last());
        assert(is_digit(d[d.len() - 1]));
    }
}

/// Reads an integer literal: an optional sign and at least one decimal digit,
/// within the range of `i64`.
pub fn parse_int(s: &str) -> (r: Option<i64>)
    ensures
        match r {
            Some(v) => int_literal(s@) == Some(v as int),
            None => int_literal(s@) is None,
        },
{
    let n = s.unicode_len();
    let mut start: usize = 0;
    let mut neg = false;
    if n > 0 {
        let c = s.get_char(0);
        if c == '-' {
            neg = true;
            start = 1;
        } else if c == '+' {
            start = 1;
        }
    }
    let ghost d = lit_digits(s@);
    if start >= n {
        return None;
    }
    let limit: u64 = 9223372036854775808;
    let mut mag: u64 = 0;
    let mut i: usize = start;
    while i < n
        invariant
            n == s@.len(),
            start <= i <= n,
            start == 0 || start == 1,
            d == s@.subrange(start as int, n as int),
            d == lit_digits(s@),
            forall|j: int| 0 <= j < i - start ==> is_digit(#[trigger] d[j]),
            mag as int == digits_value(d.subrange(0, i - start)),
            mag <= limit,
            limit == 9223372036854775808,
            start == 1 <==> (s@.len() > 0 && (s@[0] == '-' || s@[0] == '+')),
            neg <==> (s@.len() > 0 && s@[0] == '-'),
        decreases n - i,
    {
        let c = s.get_char(i);
        if c < '0' || c > '9' {
            proof {
                assert(!is_digit(d[i - start]));
                assert(!all_digits(d));
            }
            return None;
        }
        let digit = (c as u32 - '0' as u32) as u64;
        assert(digit <= 9);
        proof {
            assert(d.subrange(0, i - start + 1).drop_last() =~= d.subrange(0, i - start));
            assert(d.subrange(0, i - start + 1).last() == c);
        }
        if mag > (limit - digit) / 10 {
            proof {
                assert(forall|j: int| 0 <= j < i + 1 - start ==> is_digit(#[trigger] d[j]));
                assert(digits_value(d.subrange(0, i - start + 1)) > limit) by (nonlinear_arith)
                    requires
                        digits_value(d.subrange(0, i - start + 1)) == mag * 10 + digit,
                        mag > (limit - digit) / 10,
                        digit <= 9,
                        limit == 9223372036854775808,
                ;
                if all_digits(d) {
                    lemma_digits_grow(d, i - start + 1);
                    assert(digits_value(d) > limit);
                    assert(i64::MIN == -9223372036854775808int);
                    assert(i64::MAX == 9223372036854775807int);
                }
            }
            return None;
        }
        mag = mag * 10 + digit;
        i = i + 1;
    }
    proof {
        assert(d.subrange(0, n - start) =~= d);
    }
    if neg {
        if mag == limit {
            Some(i64::MIN)
        } else {
            Some(-(mag as i64))
        }
    } else {
        if mag > 9223372036854775807 {
            None
        } else {
            Some(mag as i64)
        }
    }
}

/// The integer a value stands for in a comparison: an integer, or a string
/// holding an integer literal.
pub open spec fn int_of(v: Json) -> Option<int> {
    match v {
        Json::Number(n) => Some(n),
        Json::Str(s) => int_literal(s),
        _ => None,
    }
}

pub open spec fn numeric_like(v: Json) -> bool {
    v is Number || v is Decimal || v is Str
}

/// An ordering between two values.
pub open spec fn compare(a: Json, b: Json, o: Order) -> Result<bool, SelectError> {
    if !numeric_like(a) || !numeric_like(b) {
        Err(SelectError::NotNumber)
    } else {
        match (int_of(a), int_of(b)) {
            (Some(x), Some(y)) => Ok(holds(o, x, y)),
            _ => Err(SelectError::FloatRequired),
        }
    }
}

/// `sub` occurs in `s`.
pub open spec fn has_sub(s: Seq<char>, sub: Seq<char>) -> bool {
    exists|i: int| 0 <= i <= s.len() - sub.len() && #[trigger] s.subrange(i, i + sub.len()) == sub
}

pub open spec fn contain(a: Json, b: Json) -> Result<bool, SelectError> {
    match a {
        Json::Str(s) => match b {
            Json::Str(t) => Ok(has_sub(s, t)),
            _ => Err(SelectError::ContainUnsupported),
        },
        Json::Array(l) => if l.contains(b) {
            Ok(true)
        } else {
            Err(SelectError::ContainUnsupported)
        },
        _ => Err(SelectError::ContainUnsupported),
    }
}

/// One comparison.
pub open spec fn calc_spec(c: Cond) -> Result<bool, SelectError> {
    match c {
        Cond::Always => Ok(true),
        Cond::Equal(a, b) => Ok(a == b),
        Cond::NotEqual(a, b) => Ok(a != b),
        Cond::Greater(a, b) => compare(a, b, Order::Greater),
        Cond::GreaterEqual(a, b) => compare(a, b, Order::GreaterEqual),
        Cond::Less(a, b) => compare(a, b, Order::Less),
        Cond::LessEqual(a, b) => compare(a, b, Order::LessEqual),
        Cond::Contain(a, b) => contain(a, b),
        Cond::Empty(a) => Ok(a is Null),
        Cond::NonEmpty(a) => Ok(!(a is Null)),
        _ => Err(SelectError::Unsupported),
    }
}

/// A condition tree: `and` holds when every member holds and stops at the
/// first that does not; `or` holds when one member holds and stops there;
/// an error stops the evaluation.
pub open spec fn eval(c: Cond) -> Result<bool, SelectError>
    decreases c,
{
    match c {
        Cond::And(l) => if l.len() < 2 {
            Err(SelectError::TooFewConditions)
        } else {
            eval_all(l, 0)
        },
        Cond::Or(l) => if l.len() < 2 {
            Err(SelectError::TooFewConditions)
        } else {
            eval_any(l, 0)
        },
        _ => calc_spec(c),
    }
}

pub open spec fn eval_all(l: Seq<Cond>, i: int) -> Result<bool, SelectError>
    decreases l, l.len() - i,
{
    if i < 0 || i >= l.len() {
        Ok(true)
    } else {
        match eval(l[i]) {
            Err(e) => Err(e),
            Ok(false) => Ok(false),
            Ok(true) => eval_all(l, i + 1),
        }
    }
}

pub open spec fn eval_any(l: Seq<Cond>, i: int) -> Result<bool, SelectError>
    decreases l, l.len() - i,
{
    if i < 0 || i >= l.len() {
        Ok(false)
    } else {
        match eval(l[i]) {
            Err(e) => Err(e),
            Ok(true) => Ok(true),
            Ok(false) => eval_any(l, i + 1),
        }
    }
}

/// The integer a value stands for, when it stands for one.
pub fn int_of_exec(v: &JsonValue) -> (r: Option<i64>)
    ensures
        match r {
            Some(x) => int_of(v@) == Some(x as int),
            None => int_of(v@) is None,
        },
{
    match v {
        JsonValue::Number(n) => Some(*n),
        JsonValue::Str(s) => parse_int(s.as_str()),
        _ => None,
    }
}

fn numeric_like_exec(v: &JsonValue) -> (r: bool)
    ensures
        r == numeric_like(v@),
{
    match v {
        JsonValue::Number(_) | JsonValue::Decimal(_) | JsonValue::Str(_) => true,
        _ => false,
    }
}

/// Whether `sub` occurs in `s`.
pub fn contains_str(s: &str, sub: &str) -> (r: bool)
    ensures
        r == has_sub(s@, sub@),
{
    let n = s.unicode_len();
    let m = sub.unicode_len();
    if m > n {
        proof {
            assert(!has_sub(s@, sub@));
        }
        return false;
    }
    let mut i: usize = 0;
    while i <= n - m
        invariant
            n == s@.len(),
            m == sub@.len(),
            m <= n,
            i <= n - m + 1,
            forall|k: int| 0 <= k < i ==> #[trigger] s@.subrange(k, k + m) != sub@,
        decreases n - m + 1 - i,
    {
        let mut j: usize = 0;
        let mut same = true;
        while j < m
            invariant
                n == s@.len(),
                m == sub@.len(),
                i + m <= n,
                j <= m,
                same == forall|t: int| 0 <= t < j ==> s@[i + t] == sub@[t],
            decreases m - j,
        {
            if s.get_char(i + j) != sub.get_char(j) {
                same = false;
            }
            j = j + 1;
        }
        if same {
            proof {
                assert(s@.subrange(i as int, i + m) =~= sub@);
            }
            return true;
        }
        proof {
            assert(s@.subrange(i as int, i + m) != sub@) by {
                let t = choose|t: int| 0 <= t < m && s@[i + t] != sub@[t];
                assert(s@.subrange(i as int, i + m)[t] == s@[i + t]);
            }
        }
        i = i + 1;
    }
    false
}

/// Whether `l` holds a value equal to `b`.
fn list_contains(l: &Vec<JsonValue>, b: &JsonValue) -> (r: bool)
    ensures
        r == view_items(l@).contains(b@),
{
    proof {
        lemma_view_items(l@);
    }
    let mut i: usize = 0;
    while i < l.len()
        invariant
            i <= l.len(),
            view_items(l@).len() == l.len(),
            forall|j: int| 0 <= j < l.len() ==> #[trigger] view_items(l@)[j] == l@[j].view_json(),
            forall|j: int| 0 <= j < i ==> view_items(l@)[j] != b@,
        decreases l.len() - i,
    {
        if l[i].json_eq(b) {
            proof {
                assert(view_items(l@)[i as int] == b@);
            }
            return true;
        }
        i = i + 1;
    }
    false
}

impl SelectNode {
    /// Compares two values by the ordering `o`: integers, and strings that
    /// hold integer literals, compare exactly.
    pub fn number_value_compare(left: &JsonValue, right: &JsonValue, o: Order) -> (r: Result<bool, SelectError>)
        ensures
            r == compare(left@, right@, o),
    {
        if !numeric_like_exec(left) || !numeric_like_exec(right) {
            return Err(SelectError::NotNumber);
        }
        match (int_of_exec(left), int_of_exec(right)) {
            (Some(a), Some(b)) => Ok(
                match o {
                    Order::Greater => a > b,
                    Order::GreaterEqual => a >= b,
                    Order::Less => a < b,
                    Order::LessEqual => a <= b,
                },
            ),
            _ => Err(SelectError::FloatRequired),
        }
    }

    /// Evaluates one comparison; `and` and `or` are left to `generate_result`.
    pub fn calc(&self) -> (r: Result<bool, SelectError>)
        ensures
            r == calc_spec(self@),
    {
        match self {
            SelectNode::Always => Ok(true),
            SelectNode::Equal(a, b) => Ok(a.json_eq(b)),
            SelectNode::NotEqual(a, b) => Ok(!a.json_eq(b)),
            SelectNode::Greater(a, b) => Self::number_value_compare(a, b, Order::Greater),
            SelectNode::GreaterEqual(a, b) => Self::number_value_compare(a, b, Order::GreaterEqual),
            SelectNode::Less(a, b) => Self::number_value_compare(a, b, Order::Less),
            SelectNode::LessEqual(a, b) => Self::number_value_compare(a, b, Order::LessEqual),
            SelectNode::Contain(a, b) => match a {
                JsonValue::Str(s) => match b {
                    JsonValue::Str(t) => Ok(contains_str(s.as_str(), t.as_str())),
                    _ => Err(SelectError::ContainUnsupported),
                },
                JsonValue::Array(l) => {
                    if list_contains(l, b) {
                        Ok(true)
                    } else {
                        Err(SelectError::ContainUnsupported)
                    }
                },
                _ => Err(SelectError::ContainUnsupported),
            },
            SelectNode::Empty(a) => Ok(a.is_null()),
            SelectNode::NonEmpty(a) => Ok(!a.is_null()),
            _ => Err(SelectError::Unsupported),
        }
    }

    /// Evaluates a condition tree.
    pub fn generate_result(&self) -> (r: Result<bool, SelectError>)
        ensures
            r == eval(self@),
        decreases self,
    {
        match self {
            SelectNode::And(l) => {
                proof {
                    lemma_view_conds(l@);
                }
                if l.len() < 2 {
                    return Err(SelectError::TooFewConditions);
                }
                let mut i: usize = 0;
                while i < l.len()
                    invariant
                        *self == SelectNode::And(*l),
                        i <= l.len(),
                        l.len() >= 2,
                        view_conds(l@).len() == l.len(),
                        forall|j: int| 0 <= j < l.len() ==> #[trigger] view_conds(l@)[j] == l@[j].view_cond(),
                        eval_all(view_conds(l@), 0) == eval_all(view_conds(l@), i as int),
                    decreases l.len() - i,
                {
                    proof {
                        assert(decreases_to!(*self => self->And_0));
                        assert(decreases_to!(*l => l[i as int]));
                    }
                    match l[i].generate_result() {
                        Err(e) => {
                            return Err(e);
                        },
                        Ok(false) => {
                            return Ok(false);
                        },
                        Ok(true) => {},
                    }
                    i = i + 1;
                }
                Ok(true)
            },
            SelectNode::Or(l) => {
                proof {
                    lemma_view_conds(l@);
                }
                if l.len() < 2 {
                    return Err(SelectError::TooFewConditions);
                }
                let mut i: usize = 0;
                while i < l.len()
                    invariant
                        *self == SelectNode::Or(*l),
                        i <= l.len(),
                        l.len() >= 2,
                        view_conds(l@).len() == l.len(),
                        forall|j: int| 0 <= j < l.len() ==> #[trigger] view_conds(l@)[j] == l@[j].view_cond(),
                        eval_any(view_conds(l@), 0) == eval_any(view_conds(l@), i as int),
                    decreases l.len() - i,
                {
                    proof {
                        assert(decreases_to!(*self => self->Or_0));
                        assert(decreases_to!(*l => l[i as int]));
                    }
                    match l[i].generate_result() {
                        Err(e) => {
                            return Err(e);
                        },
                        Ok(true) => {
                            return Ok(true);
                        },
                        Ok(false) => {},
                    }
                    i = i + 1;
                }
                Ok(false)
            },
            _ => self.calc(),
        }
    }
}

/// A conditional node's configuration: the condition and the successors for
/// each outcome.
#[derive(Debug)]
pub struct SelectCfg {
    pub conditions: SelectNode,
    pub true_to_nodes: Vec<String>,
    pub false_to_nodes: Vec<String>,
}

/// The conditional routing service.
#[derive(Debug, Default)]
pub struct Select {}

impl Select {
    /// Evaluates the condition and hands back the outcome together with the
    /// successors that the node must take.
    pub fn route(cfg: SelectCfg) -> (r: Result<(bool, Vec<String>), SelectError>)
        ensures
            match eval(cfg.conditions@) {
                Ok(b) => r matches Ok((x, to)) && x == b && to == if b {
                    cfg.true_to_nodes
                } else {
                    cfg.false_to_nodes
                },
                Err(e) => r == Err::<(bool, Vec<String>), SelectError>(e),
            },
    {
        match cfg.conditions.generate_result() {
            Err(e) => Err(e),
            Ok(true) => Ok((true, cfg.true_to_nodes)),
            Ok(false) => Ok((false, cfg.false_to_nodes)),
        }
    }
}

} // verus!
