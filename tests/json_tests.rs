use flowrun::context::Output;
use flowrun::edit::{EditError, insert_val, remove_val};
use flowrun::input::JsonInput;
use flowrun::json::{split_path_exec, JsonValue};

fn s(x: &str) -> String {
    x.to_string()
}

fn str_v(x: &str) -> JsonValue {
    JsonValue::Str(s(x))
}

fn obj(entries: Vec<(&str, JsonValue)>) -> JsonValue {
    JsonValue::Object(entries.into_iter().map(|(k, v)| (s(k), v)).collect())
}

fn same(a: &JsonValue, b: &JsonValue) -> bool {
    a.json_eq(b)
}

#[test]
fn split_path_at_first_dot() {
    assert_eq!(split_path_exec("a.b.c"), (s("a"), Some(s("b.c"))));
    assert_eq!(split_path_exec("abc"), (s("abc"), None));
    assert_eq!(split_path_exec(".x"), (s(""), Some(s("x"))));
}

#[test]
fn get_val_reads_dotted_paths() {
    let v = obj(vec![("code", JsonValue::Number(1)), ("data", obj(vec![("list", JsonValue::Array(vec![JsonValue::Number(1)]))]))]);
    assert!(same(&v.get_val("code").unwrap(), &JsonValue::Number(1)));
    assert!(same(&v.get_val("data.list").unwrap(), &JsonValue::Array(vec![JsonValue::Number(1)])));
    assert!(same(&v.get_val("*").unwrap(), &v));
    assert!(v.get_val("missing").is_none());
    assert!(v.get_val("code.deeper").is_none());
}

#[test]
fn set_then_get_returns_value() {
    let mut v = JsonValue::Null;
    v.set_value("a.b.c", str_v("x"));
    assert!(same(&v.get_val("a.b.c").unwrap(), &str_v("x")));
    v.set_value("a.b.d", JsonValue::Number(5));
    assert!(same(&v.get_val("a.b.c").unwrap(), &str_v("x")));
    assert!(same(&v.get_val("a.b.d").unwrap(), &JsonValue::Number(5)));
    v.set_value("a.b.c", JsonValue::Bool(true));
    assert!(same(&v.get_val("a.b.c").unwrap(), &JsonValue::Bool(true)));
}

#[test]
fn set_on_scalar_replaces_it_with_object() {
    let mut v = JsonValue::Number(3);
    v.set_value("k", JsonValue::Null);
    assert!(same(&v, &obj(vec![("k", JsonValue::Null)])));
}

#[test]
fn output_json_variant_round_trip() {
    let mut o: Output<u8> = Output::value(JsonValue::Null);
    assert!(o.set_value("x.y", JsonValue::Number(9)));
    assert!(same(&o.get_val("x.y").unwrap(), &JsonValue::Number(9)));
}

#[test]
fn output_typed_variant_reads_nothing() {
    let mut o: Output<u8> = Output::new(7);
    assert!(o.get_val("a").is_none());
    assert!(o.get_val("*").is_none());
    assert!(!o.set_value("a", JsonValue::Null));
    assert!(same(&o.as_val(), &JsonValue::Null));
}

#[test]
fn insert_into_objects_and_lists() {
    let v = obj(vec![("list", JsonValue::Array(vec![JsonValue::Number(1), JsonValue::Number(2)]))]);
    let v = insert_val(v, "list.1", JsonValue::Number(20)).ok().unwrap();
    let v = insert_val(v, "list.9", JsonValue::Number(30)).ok().unwrap();
    let v = insert_val(v, "new.deep", str_v("d")).ok().unwrap();
    let expect = obj(vec![
        ("list", JsonValue::Array(vec![JsonValue::Number(1), JsonValue::Number(20), JsonValue::Number(30)])),
        ("new", obj(vec![("deep", str_v("d"))])),
    ]);
    assert!(same(&v, &expect));
}

#[test]
fn insert_errors() {
    let v = obj(vec![("n", JsonValue::Number(1)), ("l", JsonValue::Array(vec![]))]);
    let (back, e) = insert_val(v, "n.x", JsonValue::Null).err().unwrap();
    assert_eq!(e, EditError::NotContainer(s("x")));
    let (back, e) = insert_val(back, "l.x", JsonValue::Null).err().unwrap();
    assert_eq!(e, EditError::BadIndex(s("x")));
    let (back, e) = insert_val(back, "l.3.y", JsonValue::Null).err().unwrap();
    assert_eq!(e, EditError::OutOfRange(s("3")));
    assert!(same(&back, &obj(vec![("n", JsonValue::Number(1)), ("l", JsonValue::Array(vec![]))])));
}

#[test]
fn insert_via_json_input_keeps_value_on_error() {
    let mut v = JsonValue::Bool(true);
    assert_eq!(JsonInput::insert_val_to_json_val(&mut v, "a", JsonValue::Null), Err(EditError::NotContainer(s("a"))));
    assert!(same(&v, &JsonValue::Bool(true)));
}

#[test]
fn remove_values() {
    let v = obj(vec![("a", obj(vec![("b", JsonValue::Number(1)), ("c", JsonValue::Number(2))])), ("l", JsonValue::Array(vec![JsonValue::Number(7), JsonValue::Number(8)]))]);
    let (v, x) = remove_val(v, "a.b").ok().unwrap();
    assert!(same(&x, &JsonValue::Number(1)));
    let (v, x) = remove_val(v, "l.0").ok().unwrap();
    assert!(same(&x, &JsonValue::Number(7)));
    assert!(same(&v, &obj(vec![("a", obj(vec![("c", JsonValue::Number(2))])), ("l", JsonValue::Array(vec![JsonValue::Number(8)]))])));
    let (_, e) = remove_val(v, "a.zz").err().unwrap();
    assert_eq!(e, EditError::NotFound(s("zz")));
    let (rest, whole) = remove_val(JsonValue::Number(4), "*").ok().unwrap();
    assert!(same(&rest, &JsonValue::Null));
    assert!(same(&whole, &JsonValue::Number(4)));
}

#[test]
fn cover_default_merges_objects() {
    let mut val = obj(vec![("code", JsonValue::Number(0)), ("keep", JsonValue::Bool(true))]);
    let default = obj(vec![("code", JsonValue::Number(2)), ("map", obj(vec![("x", JsonValue::Number(1))]))]);
    JsonInput::cover_default(default, &mut val);
    let expect = obj(vec![("code", JsonValue::Number(2)), ("keep", JsonValue::Bool(true)), ("map", obj(vec![("x", JsonValue::Number(1))]))]);
    assert!(same(&val, &expect));
}

#[test]
fn cover_default_null_keeps_value() {
    let mut val = JsonValue::Number(3);
    JsonInput::cover_default(JsonValue::Null, &mut val);
    assert!(same(&val, &JsonValue::Number(3)));
    JsonInput::cover_default(str_v("d"), &mut val);
    assert!(same(&val, &str_v("d")));
}

#[test]
fn json_eq_distinguishes() {
    assert!(same(&obj(vec![("a", JsonValue::Number(1))]), &obj(vec![("a", JsonValue::Number(1))])));
    assert!(!same(&obj(vec![("a", JsonValue::Number(1))]), &obj(vec![("a", JsonValue::Number(2))])));
    assert!(!same(&JsonValue::Number(1), &str_v("1")));
}
