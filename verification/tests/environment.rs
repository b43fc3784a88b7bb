use mal_eval::{Defect, EvalError, Store, Value};

fn sym(name: &str) -> Value {
    Value::symbol(name)
}

fn named(name: &str) -> Result<Value, EvalError> {
    Err(EvalError::UndefinedSymbol(name.to_string()))
}

#[test]
fn new_store_has_no_environments() {
    let store = Store::new();
    assert_eq!(store.len(), 0);
    assert!(!store.contains(0));
}

#[test]
fn new_env_numbers_environments_in_order() {
    let mut store = Store::new();
    let root = store.new_env(None);
    let child = store.new_env(Some(root));
    let other = store.new_env(Some(root));
    assert_eq!((root, child, other), (0, 1, 2));
    assert_eq!(store.len(), 3);
    assert!(store.contains(2));
    assert!(!store.contains(3));
}

#[test]
fn get_finds_binding_in_own_scope() {
    let mut store = Store::new();
    let root = store.new_env(None);
    store.set(root, "x", Value::Int(5));
    assert_eq!(store.get(root, "x"), Ok(Value::Int(5)));
}

#[test]
fn get_names_the_missing_symbol() {
    let mut store = Store::new();
    let root = store.new_env(None);
    assert_eq!(store.get(root, "y"), named("y"));
}

#[test]
fn set_overwrites_an_existing_binding() {
    let mut store = Store::new();
    let root = store.new_env(None);
    store.set(root, "x", Value::Int(1));
    store.set(root, "y", Value::Int(2));
    store.set(root, "x", Value::Int(3));
    assert_eq!(store.get(root, "x"), Ok(Value::Int(3)));
    assert_eq!(store.get(root, "y"), Ok(Value::Int(2)));
}

#[test]
fn get_searches_the_ancestors() {
    let mut store = Store::new();
    let root = store.new_env(None);
    let middle = store.new_env(Some(root));
    let leaf = store.new_env(Some(middle));
    store.set(root, "a", Value::Int(1));
    store.set(middle, "b", Value::Int(2));
    assert_eq!(store.get(leaf, "a"), Ok(Value::Int(1)));
    assert_eq!(store.get(leaf, "b"), Ok(Value::Int(2)));
    assert_eq!(store.get(root, "b"), named("b"));
}

#[test]
fn set_never_touches_an_ancestor() {
    let mut store = Store::new();
    let root = store.new_env(None);
    let child = store.new_env(Some(root));
    store.set(root, "x", Value::Int(1));
    store.set(child, "x", Value::Int(2));
    assert_eq!(store.get(child, "x"), Ok(Value::Int(2)));
    assert_eq!(store.get(root, "x"), Ok(Value::Int(1)));
}

#[test]
fn siblings_do_not_see_each_other() {
    let mut store = Store::new();
    let root = store.new_env(None);
    let left = store.new_env(Some(root));
    let right = store.new_env(Some(root));
    store.set(left, "x", Value::Int(1));
    assert_eq!(store.get(right, "x"), named("x"));
}

#[test]
fn bind_pairs_parameters_with_arguments() {
    let mut store = Store::new();
    let root = store.new_env(None);
    let params = Value::list(vec![sym("a"), sym("b")]);
    assert_eq!(store.bind(root, &params, &vec![Value::Int(1), Value::Int(2)]), Ok(()));
    assert_eq!(store.get(root, "a"), Ok(Value::Int(1)));
    assert_eq!(store.get(root, "b"), Ok(Value::Int(2)));
}

#[test]
fn bind_accepts_a_vector_of_parameters() {
    let mut store = Store::new();
    let root = store.new_env(None);
    let params = Value::vector(vec![sym("a")]);
    assert_eq!(store.bind(root, &params, &vec![Value::Int(1)]), Ok(()));
    assert_eq!(store.get(root, "a"), Ok(Value::Int(1)));
}

#[test]
fn bind_with_no_parameters_and_no_arguments() {
    let mut store = Store::new();
    let root = store.new_env(None);
    assert_eq!(store.bind(root, &Value::list(vec![]), &vec![]), Ok(()));
}

#[test]
fn bind_later_parameter_of_the_same_name_wins() {
    let mut store = Store::new();
    let root = store.new_env(None);
    let params = Value::list(vec![sym("a"), sym("a")]);
    assert_eq!(store.bind(root, &params, &vec![Value::Int(1), Value::Int(2)]), Ok(()));
    assert_eq!(store.get(root, "a"), Ok(Value::Int(2)));
}

#[test]
fn bind_collects_the_rest_behind_the_marker() {
    let mut store = Store::new();
    let root = store.new_env(None);
    let params = Value::list(vec![sym("a"), sym("&"), sym("rest")]);
    let args = vec![Value::Int(1), Value::Int(2), Value::Int(3)];
    assert_eq!(store.bind(root, &params, &args), Ok(()));
    assert_eq!(store.get(root, "a"), Ok(Value::Int(1)));
    assert_eq!(store.get(root, "rest"), Ok(Value::List(vec![Value::Int(2), Value::Int(3)])));
    assert_eq!(store.get(root, "&"), named("&"));
}

#[test]
fn bind_rest_may_be_empty() {
    let mut store = Store::new();
    let root = store.new_env(None);
    let params = Value::list(vec![sym("&"), sym("rest")]);
    assert_eq!(store.bind(root, &params, &vec![]), Ok(()));
    assert_eq!(store.get(root, "rest"), Ok(Value::List(vec![])));
}

#[test]
fn bind_rejects_a_wrong_number_of_arguments() {
    let mut store = Store::new();
    let root = store.new_env(None);
    let params = Value::list(vec![sym("a"), sym("b")]);
    assert_eq!(store.bind(root, &params, &vec![Value::Int(1)]), Err(EvalError::ArityMismatch));
    let three = vec![Value::Int(1), Value::Int(2), Value::Int(3)];
    assert_eq!(store.bind(root, &params, &three), Err(EvalError::ArityMismatch));
    let variadic = Value::list(vec![sym("a"), sym("b"), sym("&"), sym("c")]);
    assert_eq!(store.bind(root, &variadic, &vec![Value::Int(1)]), Err(EvalError::ArityMismatch));
}

#[test]
fn bind_binds_nothing_when_it_fails() {
    let mut store = Store::new();
    let root = store.new_env(None);
    let params = Value::list(vec![sym("a"), sym("b")]);
    assert_eq!(store.bind(root, &params, &vec![Value::Int(1)]), Err(EvalError::ArityMismatch));
    assert_eq!(store.get(root, "a"), named("a"));
    let mixed = Value::list(vec![sym("a"), Value::Int(7)]);
    assert_eq!(
        store.bind(root, &mixed, &vec![Value::Int(1), Value::Int(2)]),
        Err(EvalError::Malformed(Defect::ParamNotSymbol))
    );
    assert_eq!(store.get(root, "a"), named("a"));
}

#[test]
fn bind_rejects_malformed_parameters() {
    let mut store = Store::new();
    let root = store.new_env(None);
    assert_eq!(
        store.bind(root, &Value::Int(1), &vec![]),
        Err(EvalError::Malformed(Defect::ParamsNotSequence))
    );
    assert_eq!(
        store.bind(root, &Value::list(vec![Value::Nil]), &vec![Value::Int(1)]),
        Err(EvalError::Malformed(Defect::ParamNotSymbol))
    );
    assert_eq!(
        store.bind(root, &Value::list(vec![sym("&")]), &vec![]),
        Err(EvalError::Malformed(Defect::VariadicMarkerMisplaced))
    );
    assert_eq!(
        store.bind(root, &Value::list(vec![sym("&"), sym("a"), sym("b")]), &vec![]),
        Err(EvalError::Malformed(Defect::VariadicMarkerMisplaced))
    );
}

#[test]
fn bind_malformed_parameters_come_before_arity() {
    let mut store = Store::new();
    let root = store.new_env(None);
    let params = Value::list(vec![sym("a"), Value::Int(2)]);
    assert_eq!(store.bind(root, &params, &vec![]), Err(EvalError::Malformed(Defect::ParamNotSymbol)));
}
