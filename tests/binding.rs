use treewalk::binder::{Function, Parameter, ParameterList, ResolvedArguments};
use treewalk::scope::Scope;
use treewalk::value::{CallStack, ConversionError, InterpreterError, Value};

fn param(name: &str, has_default: bool) -> Parameter {
    Parameter { name: name.to_string(), has_default }
}

fn function(name: &str, params: Vec<Parameter>, args_var: Option<&str>, kwargs_var: Option<&str>) -> Function {
    Function {
        name: name.to_string(),
        args: ParameterList {
            args: params,
            args_var: args_var.map(|s| s.to_string()),
            kwargs_var: kwargs_var.map(|s| s.to_string()),
        },
    }
}

fn ints(values: &[i64]) -> Vec<Value> {
    values.iter().map(|v| Value::Int(*v)).collect()
}

fn stack() -> CallStack {
    CallStack { frames: vec!["<module>".to_string()] }
}

fn call(f: &Function, bound: Vec<Value>, kwargs: Vec<(String, Value)>, defaults: Vec<Value>) -> Result<Scope, InterpreterError> {
    let arguments = ResolvedArguments { bound_args: bound, kwargs };
    Scope::new(f, arguments, Ok(defaults), stack())
}

#[test]
fn catch_alls_collect_extra_arguments() {
    let f = function("f", vec![param("a", false), param("b", true)], Some("args"), Some("kwargs"));
    assert!(f.pending_defaults(4).is_empty());
    let scope = call(&f, ints(&[5, 6, 7, 8]), vec![("x".to_string(), Value::Int(9))], vec![]).unwrap();
    assert_eq!(scope.get("a"), Some(&Value::Int(5)));
    assert_eq!(scope.get("b"), Some(&Value::Int(6)));
    assert_eq!(scope.get("args"), Some(&Value::Tuple(ints(&[7, 8]))));
    assert_eq!(scope.get("kwargs"), Some(&Value::Dict(vec![("x".to_string(), Value::Int(9))])));
    let mut names = scope.symbols();
    names.sort();
    assert_eq!(names, vec!["a", "args", "b", "kwargs"]);
}

#[test]
fn one_missing_argument_is_singular() {
    let g = function("g", vec![param("a", false), param("b", false)], None, None);
    let r = call(&g, ints(&[1]), vec![], vec![]);
    assert_eq!(
        r.err(),
        Some(InterpreterError::TypeError(
            Some("g() missing 1 required positional argument: 'b'".to_string()),
            stack()
        ))
    );
}

#[test]
fn too_many_arguments_without_catch_all() {
    let h = function("h", vec![param("a", false), param("b", false)], None, None);
    assert!(h.pending_defaults(3).is_empty());
    let r = call(&h, ints(&[1, 2, 3]), vec![], vec![]);
    assert_eq!(r.err(), Some(InterpreterError::WrongNumberOfArguments(2, 3, stack())));
}

#[test]
fn two_missing_arguments_are_joined_with_and() {
    let k = function("k", vec![param("a", false), param("b", false), param("c", false)], None, None);
    let r = call(&k, ints(&[1]), vec![], vec![]);
    assert_eq!(
        r.err(),
        Some(InterpreterError::TypeError(
            Some("k() missing 2 required positional arguments: 'b' and 'c'".to_string()),
            stack()
        ))
    );
}

#[test]
fn many_missing_arguments_count_in_decimal() {
    let names: Vec<String> = (0..12).map(|i| format!("p{}", i)).collect();
    let params = names.iter().map(|n| param(n, false)).collect();
    let m = function("m", params, None, None);
    let r = call(&m, vec![], vec![], vec![]);
    let quoted: Vec<String> = names.iter().map(|n| format!("'{}'", n)).collect();
    let expected = format!("m() missing 12 required positional arguments: {}", quoted.join(" and "));
    assert_eq!(r.err(), Some(InterpreterError::TypeError(Some(expected), stack())));
}

#[test]
fn defaults_are_pending_only_for_unsupplied_parameters() {
    let f = function("f", vec![param("a", false), param("b", true), param("c", true)], None, None);
    assert_eq!(f.pending_defaults(0), vec![1, 2]);
    assert_eq!(f.pending_defaults(1), vec![1, 2]);
    assert_eq!(f.pending_defaults(2), vec![2]);
    assert!(f.pending_defaults(3).is_empty());
    assert!(f.pending_defaults(4).is_empty());
    let scope = call(&f, ints(&[1, 2]), vec![], ints(&[30])).unwrap();
    assert_eq!(scope.get("a"), Some(&Value::Int(1)));
    assert_eq!(scope.get("b"), Some(&Value::Int(2)));
    assert_eq!(scope.get("c"), Some(&Value::Int(30)));
}

#[test]
fn default_evaluation_failure_propagates() {
    let f = function("f", vec![param("a", false), param("b", true)], None, None);
    let failure = InterpreterError::TypeError(Some("boom".to_string()), stack());
    let arguments = ResolvedArguments { bound_args: ints(&[1]), kwargs: vec![] };
    let r = Scope::new(&f, arguments, Err(failure), stack());
    assert_eq!(r.err(), Some(InterpreterError::TypeError(Some("boom".to_string()), stack())));
}

#[test]
fn catch_all_is_empty_when_arguments_run_short() {
    let f = function("f", vec![param("a", false), param("b", true)], Some("args"), None);
    let scope = call(&f, ints(&[5]), vec![], ints(&[1])).unwrap();
    assert_eq!(scope.get("b"), Some(&Value::Int(1)));
    assert_eq!(scope.get("args"), Some(&Value::Tuple(vec![])));
}

#[test]
fn unmatched_keywords_are_dropped_without_catch_all() {
    let f = function("f", vec![param("a", false)], None, None);
    let scope = call(&f, ints(&[5]), vec![("x".to_string(), Value::Int(9))], vec![]).unwrap();
    assert_eq!(scope.get("x"), None);
    assert_eq!(scope.symbols(), vec!["a"]);
}

#[test]
fn insert_get_delete() {
    let mut scope = Scope::empty();
    scope.insert("x", Value::Int(1));
    scope.insert("x", Value::Int(2));
    assert_eq!(scope.get("x"), Some(&Value::Int(2)));
    assert_eq!(scope.symbols(), vec!["x"]);
    assert_eq!(scope.delete("x"), Some(Value::Int(2)));
    assert_eq!(scope.delete("x"), None);
    assert_eq!(scope.get("x"), None);
}

#[test]
fn directives_are_recorded() {
    let mut scope = Scope::empty();
    assert!(!scope.has_global("g"));
    scope.mark_global("g");
    scope.mark_nonlocal("n");
    assert!(scope.has_global("g"));
    assert!(!scope.has_global("n"));
    assert!(scope.has_nonlocal("n"));
    assert!(!scope.has_nonlocal("g"));
    assert_eq!(scope.get("g"), None);
}

#[test]
fn dict_round_trip_keeps_bindings() {
    let mut scope = Scope::empty();
    scope.insert("x", Value::Int(1));
    scope.insert("y", Value::Str("a".to_string()));
    scope.mark_global("x");
    let snapshot = scope.as_dict();
    assert_eq!(scope.get("x"), Some(&Value::Int(1)));
    assert!(scope.has_global("x"));
    let items = snapshot.into_items();
    assert_eq!(items.len(), 2);
    let back = Scope::from_dict(items).ok().unwrap();
    assert_eq!(back.get("x"), Some(&Value::Int(1)));
    assert_eq!(back.get("y"), Some(&Value::Str("a".to_string())));
    assert!(!back.has_global("x"));
}

#[test]
fn from_dict_rejects_malformed_items() {
    let good = Value::Tuple(vec![Value::Str("a".to_string()), Value::Int(1)]);
    let short = Value::Tuple(vec![Value::Str("b".to_string())]);
    let r = Scope::from_dict(vec![good, short]);
    assert_eq!(r.err(), Some(ConversionError::NotAPair(1)));
    let r = Scope::from_dict(vec![Value::Int(3)]);
    assert_eq!(r.err(), Some(ConversionError::NotAPair(0)));
    let bad_key = Value::Tuple(vec![Value::Int(1), Value::Int(2)]);
    let r = Scope::from_dict(vec![bad_key]);
    assert_eq!(r.err(), Some(ConversionError::KeyNotString(0)));
}

#[test]
fn later_pairs_override_earlier_ones() {
    let first = Value::Tuple(vec![Value::Str("a".to_string()), Value::Int(1)]);
    let second = Value::Tuple(vec![Value::Str("a".to_string()), Value::Int(2)]);
    let scope = Scope::from_dict(vec![first, second]).ok().unwrap();
    assert_eq!(scope.get("a"), Some(&Value::Int(2)));
}

#[test]
fn duplicate_copies_nested_values() {
    let v = Value::Tuple(vec![
        Value::Int(1),
        Value::Dict(vec![("k".to_string(), Value::Tuple(vec![Value::Str("s".to_string())]))]),
        Value::Bool(true),
        Value::NoneValue,
    ]);
    assert_eq!(v.duplicate(), v);
}

#[test]
fn as_dict_snapshot_copies_values() {
    let mut scope = Scope::empty();
    scope.insert("t", Value::Tuple(ints(&[1, 2])));
    let snapshot = scope.as_dict();
    assert_eq!(snapshot, Value::Dict(vec![("t".to_string(), Value::Tuple(ints(&[1, 2])))]));
    scope.insert("t", Value::Int(0));
    assert_eq!(snapshot, Value::Dict(vec![("t".to_string(), Value::Tuple(ints(&[1, 2])))]));
}

#[test]
fn inserts_can_be_chained() {
    let mut scope = Scope::empty();
    scope.insert("a", Value::Int(1)).insert("b", Value::Int(2)).insert("a", Value::Int(3));
    assert_eq!(scope.get("a"), Some(&Value::Int(3)));
    assert_eq!(scope.get("b"), Some(&Value::Int(2)));
}
