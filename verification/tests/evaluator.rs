use mal_eval::{evaluate, evaluate_within, Defect, EvalError, Store, Value};

const ADD: u64 = 0;
const SUB: u64 = 1;
const EQ: u64 = 2;
const FAIL: u64 = 3;
const THROW: u64 = 4;
const COUNT: u64 = 5;

fn natives(id: u64, args: Vec<Value>) -> Result<Value, EvalError> {
    match (id, args.as_slice()) {
        (ADD, [Value::Int(a), Value::Int(b)]) => Ok(Value::Int(a + b)),
        (SUB, [Value::Int(a), Value::Int(b)]) => Ok(Value::Int(a - b)),
        (EQ, [a, b]) => Ok(Value::Bool(a == b)),
        (FAIL, _) => Err(EvalError::Message("native failure".to_string())),
        (THROW, [payload]) => Err(EvalError::Thrown(payload.clone())),
        (COUNT, rest) => Ok(Value::Int(rest.len() as i64)),
        _ => Err(EvalError::Message("bad native call".to_string())),
    }
}

fn fresh() -> (Store, usize) {
    let mut store = Store::new();
    let root = store.new_env(None);
    store.set(root, "+", Value::Native(ADD));
    store.set(root, "-", Value::Native(SUB));
    store.set(root, "=", Value::Native(EQ));
    store.set(root, "fail", Value::Native(FAIL));
    store.set(root, "throw", Value::Native(THROW));
    store.set(root, "count", Value::Native(COUNT));
    (store, root)
}

fn sym(name: &str) -> Value {
    Value::symbol(name)
}

fn num(n: i64) -> Value {
    Value::Int(n)
}

fn text(s: &str) -> Value {
    Value::string(s)
}

fn list(items: Vec<Value>) -> Value {
    Value::List(items)
}

fn vector(items: Vec<Value>) -> Value {
    Value::Vector(items)
}

fn run(store: &mut Store, env: usize, expr: Value) -> Result<Value, EvalError> {
    assert!(store.contains(env));
    evaluate(&expr, env, store, &natives)
}

#[test]
fn numbers_strings_booleans_and_nil_evaluate_to_themselves() {
    let (mut store, root) = fresh();
    for v in [num(7), num(-3), text("hello"), text(""), Value::Bool(true), Value::Bool(false), Value::Nil] {
        let expected = v.clone();
        assert_eq!(run(&mut store, root, v), Ok(expected));
    }
}

#[test]
fn literals_need_no_budget() {
    let (mut store, root) = fresh();
    assert_eq!(evaluate_within(&num(7), root, &mut store, &natives, 0), Ok(num(7)));
    assert_eq!(evaluate_within(&list(vec![]), root, &mut store, &natives, 0), Ok(list(vec![])));
}

#[test]
fn empty_list_evaluates_to_itself() {
    let (mut store, root) = fresh();
    assert_eq!(run(&mut store, root, list(vec![])), Ok(list(vec![])));
}

#[test]
fn def_returns_the_value_and_binds_it() {
    let (mut store, root) = fresh();
    let form = list(vec![sym("def!"), sym("x"), num(5)]);
    assert_eq!(run(&mut store, root, form), Ok(num(5)));
    assert_eq!(run(&mut store, root, sym("x")), Ok(num(5)));
}

#[test]
fn def_binds_in_the_current_environment_only() {
    let (mut store, root) = fresh();
    let child = store.new_env(Some(root));
    let form = list(vec![sym("def!"), sym("x"), num(5)]);
    assert_eq!(run(&mut store, child, form), Ok(num(5)));
    assert_eq!(run(&mut store, child, sym("x")), Ok(num(5)));
    assert_eq!(run(&mut store, root, sym("x")), Err(EvalError::UndefinedSymbol("x".to_string())));
}

#[test]
fn def_of_a_non_symbol_is_malformed() {
    let (mut store, root) = fresh();
    let form = list(vec![sym("def!"), num(1), num(5)]);
    assert_eq!(run(&mut store, root, form), Err(EvalError::Malformed(Defect::DefTargetNotSymbol)));
}

#[test]
fn def_with_too_few_elements_is_malformed() {
    let (mut store, root) = fresh();
    let form = list(vec![sym("def!"), sym("x")]);
    assert_eq!(run(&mut store, root, form), Err(EvalError::Malformed(Defect::MissingOperands)));
    assert_eq!(run(&mut store, root, sym("x")), Err(EvalError::UndefinedSymbol("x".to_string())));
}

#[test]
fn def_keeps_nothing_when_its_value_fails() {
    let (mut store, root) = fresh();
    let form = list(vec![sym("def!"), sym("x"), sym("missing")]);
    assert_eq!(run(&mut store, root, form), Err(EvalError::UndefinedSymbol("missing".to_string())));
    assert_eq!(run(&mut store, root, sym("x")), Err(EvalError::UndefinedSymbol("x".to_string())));
}

#[test]
fn let_bindings_see_earlier_bindings() {
    let (mut store, root) = fresh();
    let form = list(vec![
        sym("let*"),
        list(vec![sym("a"), num(1), sym("b"), list(vec![sym("+"), sym("a"), num(1)])]),
        sym("b"),
    ]);
    assert_eq!(run(&mut store, root, form), Ok(num(2)));
}

#[test]
fn let_bindings_do_not_leak() {
    let (mut store, root) = fresh();
    let form = list(vec![
        sym("let*"),
        list(vec![sym("a"), num(1), sym("b"), list(vec![sym("+"), sym("a"), num(1)])]),
        sym("b"),
    ]);
    assert_eq!(run(&mut store, root, form), Ok(num(2)));
    assert_eq!(run(&mut store, root, sym("a")), Err(EvalError::UndefinedSymbol("a".to_string())));
    assert_eq!(run(&mut store, root, sym("b")), Err(EvalError::UndefinedSymbol("b".to_string())));
}

#[test]
fn let_accepts_a_vector_of_bindings() {
    let (mut store, root) = fresh();
    let form = list(vec![sym("let*"), vector(vec![sym("a"), num(4)]), sym("a")]);
    assert_eq!(run(&mut store, root, form), Ok(num(4)));
}

#[test]
fn let_shadows_the_enclosing_binding() {
    let (mut store, root) = fresh();
    store.set(root, "a", num(10));
    let form = list(vec![sym("let*"), list(vec![sym("a"), num(1)]), sym("a")]);
    assert_eq!(run(&mut store, root, form), Ok(num(1)));
    assert_eq!(run(&mut store, root, sym("a")), Ok(num(10)));
}

#[test]
fn let_with_malformed_bindings_fails() {
    let (mut store, root) = fresh();
    let not_a_sequence = list(vec![sym("let*"), num(1), num(2)]);
    assert_eq!(
        run(&mut store, root, not_a_sequence),
        Err(EvalError::Malformed(Defect::LetBindingsNotSequence))
    );
    let unpaired = list(vec![sym("let*"), list(vec![sym("a")]), num(2)]);
    assert_eq!(run(&mut store, root, unpaired), Err(EvalError::Malformed(Defect::LetBindingsUnpaired)));
    let bad_target = list(vec![sym("let*"), list(vec![num(1), num(2)]), num(2)]);
    assert_eq!(run(&mut store, root, bad_target), Err(EvalError::Malformed(Defect::LetTargetNotSymbol)));
    let short = list(vec![sym("let*"), list(vec![])]);
    assert_eq!(run(&mut store, root, short), Err(EvalError::Malformed(Defect::MissingOperands)));
}

#[test]
fn if_false_takes_the_second_branch() {
    let (mut store, root) = fresh();
    let form = list(vec![sym("if"), Value::Bool(false), num(1), num(2)]);
    assert_eq!(run(&mut store, root, form), Ok(num(2)));
}

#[test]
fn if_zero_is_truthy() {
    let (mut store, root) = fresh();
    let form = list(vec![sym("if"), num(0), num(1), num(2)]);
    assert_eq!(run(&mut store, root, form), Ok(num(1)));
}

#[test]
fn if_nil_is_falsy_and_everything_else_truthy() {
    let (mut store, root) = fresh();
    let on = |c: Value| list(vec![sym("if"), c, num(1), num(2)]);
    assert_eq!(run(&mut store, root, on(Value::Nil)), Ok(num(2)));
    assert_eq!(run(&mut store, root, on(text(""))), Ok(num(1)));
    assert_eq!(run(&mut store, root, on(list(vec![]))), Ok(num(1)));
    assert_eq!(run(&mut store, root, on(Value::Bool(true))), Ok(num(1)));
}

#[test]
fn if_without_else_gives_nil() {
    let (mut store, root) = fresh();
    let form = list(vec![sym("if"), Value::Bool(false), num(1)]);
    assert_eq!(run(&mut store, root, form), Ok(Value::Nil));
    let taken = list(vec![sym("if"), Value::Bool(true), num(1)]);
    assert_eq!(run(&mut store, root, taken), Ok(num(1)));
}

#[test]
fn if_evaluates_only_the_branch_it_takes() {
    let (mut store, root) = fresh();
    let form = list(vec![sym("if"), Value::Bool(true), num(1), sym("missing")]);
    assert_eq!(run(&mut store, root, form), Ok(num(1)));
}

#[test]
fn if_with_too_few_elements_is_malformed() {
    let (mut store, root) = fresh();
    let form = list(vec![sym("if"), Value::Bool(true)]);
    assert_eq!(run(&mut store, root, form), Err(EvalError::Malformed(Defect::MissingOperands)));
}

#[test]
fn do_evaluates_in_order_and_returns_the_last() {
    let (mut store, root) = fresh();
    let form = list(vec![
        sym("do"),
        list(vec![sym("def!"), sym("x"), num(1)]),
        list(vec![sym("def!"), sym("y"), list(vec![sym("+"), sym("x"), num(1)])]),
        list(vec![sym("+"), sym("x"), sym("y")]),
    ]);
    assert_eq!(run(&mut store, root, form), Ok(num(3)));
    assert_eq!(run(&mut store, root, sym("y")), Ok(num(2)));
}

#[test]
fn do_with_one_element_evaluates_it() {
    let (mut store, root) = fresh();
    let form = list(vec![sym("do"), num(9)]);
    assert_eq!(run(&mut store, root, form), Ok(num(9)));
}

#[test]
fn do_alone_goes_on_with_its_own_symbol() {
    let (mut store, root) = fresh();
    let form = list(vec![sym("do")]);
    assert_eq!(run(&mut store, root, form), Err(EvalError::UndefinedSymbol("do".to_string())));
}

#[test]
fn do_stops_at_the_first_error() {
    let (mut store, root) = fresh();
    let form = list(vec![
        sym("do"),
        list(vec![sym("def!"), sym("x"), num(1)]),
        sym("missing"),
        list(vec![sym("def!"), sym("y"), num(2)]),
        num(3),
    ]);
    assert_eq!(run(&mut store, root, form), Err(EvalError::UndefinedSymbol("missing".to_string())));
    assert_eq!(run(&mut store, root, sym("x")), Ok(num(1)));
    assert_eq!(run(&mut store, root, sym("y")), Err(EvalError::UndefinedSymbol("y".to_string())));
}

#[test]
fn fn_builds_a_closure_over_the_current_environment() {
    let (mut store, root) = fresh();
    let form = list(vec![sym("fn*"), list(vec![sym("a")]), sym("a")]);
    assert_eq!(
        run(&mut store, root, form),
        Ok(Value::Closure {
            params: Box::new(list(vec![sym("a")])),
            body: Box::new(sym("a")),
            env: root,
        })
    );
}

#[test]
fn fn_with_too_few_elements_is_malformed() {
    let (mut store, root) = fresh();
    let form = list(vec![sym("fn*"), list(vec![])]);
    assert_eq!(run(&mut store, root, form), Err(EvalError::Malformed(Defect::MissingOperands)));
}

#[test]
fn native_call_gets_the_evaluated_arguments() {
    let (mut store, root) = fresh();
    let form = list(vec![sym("+"), num(1), list(vec![sym("+"), num(2), num(3)])]);
    assert_eq!(run(&mut store, root, form), Ok(num(6)));
    let counted = list(vec![sym("count"), num(1), num(2), num(3)]);
    assert_eq!(run(&mut store, root, counted), Ok(num(3)));
}

#[test]
fn native_errors_pass_through() {
    let (mut store, root) = fresh();
    let form = list(vec![sym("fail")]);
    assert_eq!(run(&mut store, root, form), Err(EvalError::Message("native failure".to_string())));
    let thrown = list(vec![sym("throw"), text("boom")]);
    assert_eq!(run(&mut store, root, thrown), Err(EvalError::Thrown(text("boom"))));
}

#[test]
fn closure_call_binds_parameters() {
    let (mut store, root) = fresh();
    let double = list(vec![sym("fn*"), list(vec![sym("a")]), list(vec![sym("+"), sym("a"), sym("a")])]);
    let form = list(vec![double, num(21)]);
    assert_eq!(run(&mut store, root, form), Ok(num(42)));
}

#[test]
fn closure_parameters_do_not_leak_into_the_caller() {
    let (mut store, root) = fresh();
    let id = list(vec![sym("fn*"), list(vec![sym("a")]), sym("a")]);
    assert_eq!(run(&mut store, root, list(vec![id, num(1)])), Ok(num(1)));
    assert_eq!(run(&mut store, root, sym("a")), Err(EvalError::UndefinedSymbol("a".to_string())));
}

#[test]
fn closure_call_with_wrong_number_of_arguments_fails() {
    let (mut store, root) = fresh();
    let f = || list(vec![sym("fn*"), list(vec![sym("a"), sym("b")]), sym("a")]);
    assert_eq!(run(&mut store, root, list(vec![f(), num(1)])), Err(EvalError::ArityMismatch));
    assert_eq!(
        run(&mut store, root, list(vec![f(), num(1), num(2), num(3)])),
        Err(EvalError::ArityMismatch)
    );
    assert_eq!(run(&mut store, root, list(vec![f(), num(1), num(2)])), Ok(num(1)));
}

#[test]
fn variadic_parameter_collects_the_rest() {
    let (mut store, root) = fresh();
    let f = || list(vec![sym("fn*"), list(vec![sym("a"), sym("&"), sym("more")]), sym("more")]);
    assert_eq!(
        run(&mut store, root, list(vec![f(), num(1), num(2), num(3)])),
        Ok(list(vec![num(2), num(3)]))
    );
    assert_eq!(run(&mut store, root, list(vec![f(), num(1)])), Ok(list(vec![])));
    assert_eq!(run(&mut store, root, list(vec![f()])), Err(EvalError::ArityMismatch));
}

#[test]
fn malformed_parameters_fail_at_the_call() {
    let (mut store, root) = fresh();
    let not_sequence = list(vec![sym("fn*"), num(1), num(2)]);
    assert_eq!(
        run(&mut store, root, list(vec![not_sequence])),
        Err(EvalError::Malformed(Defect::ParamsNotSequence))
    );
    let not_symbol = list(vec![sym("fn*"), list(vec![num(1)]), num(2)]);
    assert_eq!(
        run(&mut store, root, list(vec![not_symbol, num(1)])),
        Err(EvalError::Malformed(Defect::ParamNotSymbol))
    );
    let dangling = list(vec![sym("fn*"), list(vec![sym("a"), sym("&")]), num(2)]);
    assert_eq!(
        run(&mut store, root, list(vec![dangling, num(1)])),
        Err(EvalError::Malformed(Defect::VariadicMarkerMisplaced))
    );
    let crowded = list(vec![sym("fn*"), list(vec![sym("&"), sym("a"), sym("b")]), num(2)]);
    assert_eq!(
        run(&mut store, root, list(vec![crowded, num(1)])),
        Err(EvalError::Malformed(Defect::VariadicMarkerMisplaced))
    );
}

#[test]
fn calling_a_non_function_fails() {
    let (mut store, root) = fresh();
    let form = list(vec![num(5), num(1), num(2)]);
    assert_eq!(run(&mut store, root, form), Err(EvalError::NotCallable));
    let by_name = list(vec![sym("x"), num(1)]);
    store.set(root, "x", text("not a function"));
    assert_eq!(run(&mut store, root, by_name), Err(EvalError::NotCallable));
}

#[test]
fn closure_of_another_store_cannot_be_called() {
    let (mut store, root) = fresh();
    let stray = Value::Closure { params: Box::new(list(vec![])), body: Box::new(num(1)), env: 99 };
    assert_eq!(run(&mut store, root, list(vec![stray])), Err(EvalError::NotCallable));
}

#[test]
fn unbound_symbol_fails_and_is_named() {
    let (mut store, root) = fresh();
    assert_eq!(
        run(&mut store, root, sym("no-such-thing")),
        Err(EvalError::UndefinedSymbol("no-such-thing".to_string()))
    );
    let nested = list(vec![sym("+"), num(1), sym("nope")]);
    assert_eq!(run(&mut store, root, nested), Err(EvalError::UndefinedSymbol("nope".to_string())));
}

#[test]
fn operands_are_evaluated_left_to_right() {
    let (mut store, root) = fresh();
    let form = list(vec![
        sym("+"),
        list(vec![sym("def!"), sym("x"), num(1)]),
        list(vec![sym("def!"), sym("x"), num(2)]),
    ]);
    assert_eq!(run(&mut store, root, form), Ok(num(3)));
    assert_eq!(run(&mut store, root, sym("x")), Ok(num(2)));
}

#[test]
fn vector_elements_are_evaluated() {
    let (mut store, root) = fresh();
    store.set(root, "x", num(3));
    let form = vector(vec![sym("x"), list(vec![sym("+"), num(1), num(1)]), text("s")]);
    assert_eq!(run(&mut store, root, form), Ok(vector(vec![num(3), num(2), text("s")])));
}

#[test]
fn hash_map_values_are_evaluated_and_keys_kept() {
    let (mut store, root) = fresh();
    store.set(root, "x", num(3));
    let form = Value::HashMap(vec![
        ("a".to_string(), sym("x")),
        ("b".to_string(), list(vec![sym("+"), num(1), num(1)])),
    ]);
    assert_eq!(
        run(&mut store, root, form),
        Ok(Value::HashMap(vec![("a".to_string(), num(3)), ("b".to_string(), num(2))]))
    );
}

#[test]
fn evaluation_does_not_change_the_expression() {
    let (mut store, root) = fresh();
    let form = list(vec![sym("+"), num(1), num(2)]);
    let copy = form.clone();
    assert_eq!(evaluate(&form, root, &mut store, &natives), Ok(num(3)));
    assert_eq!(form, copy);
}

fn countdown() -> Value {
    list(vec![
        sym("def!"),
        sym("loop"),
        list(vec![
            sym("fn*"),
            list(vec![sym("n")]),
            list(vec![
                sym("if"),
                list(vec![sym("="), sym("n"), num(0)]),
                text("done"),
                list(vec![sym("loop"), list(vec![sym("-"), sym("n"), num(1)])]),
            ]),
        ]),
    ])
}

#[test]
fn tail_recursion_runs_in_constant_stack() {
    let (mut store, root) = fresh();
    assert!(run(&mut store, root, countdown()).is_ok());
    let call = list(vec![sym("loop"), num(100000)]);
    assert_eq!(run(&mut store, root, call), Ok(text("done")));
}

#[test]
fn tail_recursion_through_do_and_let() {
    let (mut store, root) = fresh();
    let define = list(vec![
        sym("def!"),
        sym("sum"),
        list(vec![
            sym("fn*"),
            list(vec![sym("n"), sym("acc")]),
            list(vec![
                sym("if"),
                list(vec![sym("="), sym("n"), num(0)]),
                sym("acc"),
                list(vec![
                    sym("do"),
                    num(0),
                    list(vec![
                        sym("let*"),
                        list(vec![sym("m"), list(vec![sym("-"), sym("n"), num(1)])]),
                        list(vec![sym("sum"), sym("m"), list(vec![sym("+"), sym("acc"), sym("n")])]),
                    ]),
                ]),
            ]),
        ]),
    ]);
    assert!(run(&mut store, root, define).is_ok());
    let call = list(vec![sym("sum"), num(20000), num(0)]);
    assert_eq!(run(&mut store, root, call), Ok(num(200010000)));
}

#[test]
fn budget_bounds_the_tail_loop() {
    let (mut store, root) = fresh();
    assert!(run(&mut store, root, countdown()).is_ok());
    let call = list(vec![sym("loop"), num(1000)]);
    assert_eq!(
        evaluate_within(&call, root, &mut store, &natives, 100),
        Err(EvalError::BudgetExhausted)
    );
    assert_eq!(evaluate_within(&call, root, &mut store, &natives, 100000), Ok(text("done")));
}

#[test]
fn budget_zero_fails_on_a_form() {
    let (mut store, root) = fresh();
    let form = list(vec![sym("+"), num(1), num(2)]);
    assert_eq!(evaluate_within(&form, root, &mut store, &natives, 0), Err(EvalError::BudgetExhausted));
    assert_eq!(evaluate_within(&form, root, &mut store, &natives, 1), Ok(num(3)));
}

#[test]
fn closure_keeps_its_defining_scope() {
    let (mut store, root) = fresh();
    let make_adder = list(vec![
        sym("def!"),
        sym("make-adder"),
        list(vec![
            sym("fn*"),
            list(vec![sym("a")]),
            list(vec![sym("fn*"), list(vec![sym("b")]), list(vec![sym("+"), sym("a"), sym("b")])]),
        ]),
    ]);
    assert!(run(&mut store, root, make_adder).is_ok());
    let add5 = list(vec![sym("def!"), sym("add5"), list(vec![sym("make-adder"), num(5)])]);
    assert!(run(&mut store, root, add5).is_ok());
    assert_eq!(run(&mut store, root, list(vec![sym("add5"), num(3)])), Ok(num(8)));
}

#[test]
fn closure_scope_is_lexical_not_dynamic() {
    let (mut store, root) = fresh();
    let make_adder = list(vec![
        sym("def!"),
        sym("make-adder"),
        list(vec![
            sym("fn*"),
            list(vec![sym("a")]),
            list(vec![sym("fn*"), list(vec![sym("b")]), list(vec![sym("+"), sym("a"), sym("b")])]),
        ]),
    ]);
    assert!(run(&mut store, root, make_adder).is_ok());
    let add5 = list(vec![sym("def!"), sym("add5"), list(vec![sym("make-adder"), num(5)])]);
    assert!(run(&mut store, root, add5).is_ok());
    let call_with_other_a = list(vec![
        sym("let*"),
        list(vec![sym("a"), num(100)]),
        list(vec![sym("add5"), num(3)]),
    ]);
    assert_eq!(run(&mut store, root, call_with_other_a), Ok(num(8)));
    assert_eq!(run(&mut store, root, list(vec![sym("def!"), sym("a"), num(1000)])), Ok(num(1000)));
    assert_eq!(run(&mut store, root, list(vec![sym("add5"), num(3)])), Ok(num(8)));
}

#[test]
fn not_can_be_defined_in_the_language() {
    let (mut store, root) = fresh();
    let define = list(vec![
        sym("def!"),
        sym("not"),
        list(vec![
            sym("fn*"),
            list(vec![sym("a")]),
            list(vec![sym("if"), sym("a"), Value::Bool(false), Value::Bool(true)]),
        ]),
    ]);
    assert!(run(&mut store, root, define).is_ok());
    assert_eq!(run(&mut store, root, list(vec![sym("not"), Value::Bool(false)])), Ok(Value::Bool(true)));
    assert_eq!(run(&mut store, root, list(vec![sym("not"), Value::Nil])), Ok(Value::Bool(true)));
    assert_eq!(run(&mut store, root, list(vec![sym("not"), num(0)])), Ok(Value::Bool(false)));
}

#[test]
fn a_failed_evaluation_leaves_the_root_usable() {
    let (mut store, root) = fresh();
    assert!(run(&mut store, root, list(vec![num(5), num(1)])).is_err());
    assert_eq!(run(&mut store, root, list(vec![sym("+"), num(1), num(2)])), Ok(num(3)));
}
