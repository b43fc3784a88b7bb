//! What holds of every evaluation, proved from the definition of [`eval`].

use vstd::prelude::*;
use crate::env::{
    bind_plan, lemma_with_bindings_frame, lookup, resolve, with_binding, with_bindings,
    with_scope, StoreView,
};
use crate::error::{ErrorView, Reply};
use crate::semantics::{
    apply, do_leading, entry_values, eval, eval_ast, eval_atom, eval_bindings, eval_each,
    form_of, step, step_call, step_def, step_do, step_if, step_lambda, step_let, Form, Outcome, Outcomes,
    Step, World,
};
use crate::value::ValueView;

verus! {

/// A number, a string, a boolean and `nil` evaluate to themselves, in every
/// environment of every store, on any budget, and leave the world as it is.
pub proof fn law_literal_evaluates_to_itself(
    budget: nat,
    expr: ValueView,
    env: nat,
    world: World,
    tape: Seq<Reply>,
)
    requires
        expr.is_literal(),
    ensures
        eval(budget, expr, env, world, tape) == (Outcome { result: Ok(expr), world }),
{
    assert(step(budget, expr, env, world, tape) == Step::Done(eval_atom(expr, env, world)));
}

/// A symbol evaluates to what it is bound to in the nearest scope that binds
/// it, and a symbol that no scope on the way to the root binds is an error
/// that names it.
pub proof fn law_symbol_is_looked_up(
    budget: nat,
    name: Seq<char>,
    env: nat,
    world: World,
    tape: Seq<Reply>,
)
    ensures
        eval(budget, ValueView::Sym(name), env, world, tape) == (Outcome {
            result: resolve(world.store, env, name),
            world,
        }),
        lookup(world.store, env, name) is None ==> eval(
            budget,
            ValueView::Sym(name),
            env,
            world,
            tape,
        ).result == Err::<ValueView, ErrorView>(ErrorView::UndefinedSymbol(name)),
{
    let expr = ValueView::Sym(name);
    assert(step(budget, expr, env, world, tape) == Step::Done(eval_atom(expr, env, world)));
}

/// What an evaluation in `env` leaves of the world it started in: every scope
/// that was there is still there, with its parent; every scope but `env` has
/// its bindings as they were; and the native calls made before are the first
/// of those made by now.
pub open spec fn keeps(before: World, after: World, env: nat) -> bool {
    &&& before.store.len() <= after.store.len()
    &&& forall|other: int|
        0 <= other < before.store.len() && other != env ==> #[trigger] after.store[other]
            == before.store[other]
    &&& env < before.store.len() ==> after.store[env as int].parent
        == before.store[env as int].parent
    &&& before.calls.len() <= after.calls.len()
    &&& forall|i: int| 0 <= i < before.calls.len() ==> #[trigger] after.calls[i] == before.calls[i]
}

/// What the evaluation of an expression goes on with after a turn: the
/// environment it was in, or one that the turn has made.
pub open spec fn turn_keeps(before: World, turn: Step, env: nat) -> bool {
    match turn {
        Step::Done(outcome) => keeps(before, outcome.world, env),
        Step::Continue { expr, env: next_env, world } => {
            &&& keeps(before, world, env)
            &&& next_env < world.store.len()
            &&& next_env == env || next_env >= before.store.len()
        },
    }
}

/// An evaluation changes no bindings but those of the environment it runs in
/// and of environments that it makes itself. It removes no environment and
/// moves none to another parent.
pub proof fn law_evaluation_keeps_other_scopes(
    budget: nat,
    expr: ValueView,
    env: nat,
    world: World,
    tape: Seq<Reply>,
)
    requires
        env < world.store.len(),
    ensures
        keeps(world, eval(budget, expr, env, world, tape).world, env),
    decreases budget, 1nat, 0nat,
{
    lemma_step_keeps(budget, expr, env, world, tape);
    match step(budget, expr, env, world, tape) {
        Step::Done(_) => {},
        Step::Continue { expr: next, env: next_env, world: next_world } => {
            if budget > 0 {
                law_evaluation_keeps_other_scopes(
                    (budget - 1) as nat,
                    next,
                    next_env,
                    next_world,
                    tape,
                );
            }
        },
    }
}

proof fn lemma_step_keeps(budget: nat, expr: ValueView, env: nat, world: World, tape: Seq<Reply>)
    requires
        env < world.store.len(),
    ensures
        turn_keeps(world, step(budget, expr, env, world, tape), env),
    decreases budget, 0nat, 0nat,
{
    match expr {
        ValueView::List(items) => {
            if items.len() > 0 && budget > 0 {
                let rest = (budget - 1) as nat;
                match form_of(items[0]) {
                    Form::Def => lemma_def_keeps(rest, items, env, world, tape),
                    Form::Let => lemma_let_keeps(rest, items, env, world, tape),
                    Form::Do => lemma_do_keeps(rest, items, env, world, tape),
                    Form::If => lemma_if_keeps(rest, items, env, world, tape),
                    Form::Lambda => {},
                    Form::Call => lemma_call_keeps(rest, items, env, world, tape),
                }
            }
        },
        ValueView::Vector(_) | ValueView::HashMap(_) => {
            if budget > 0 {
                lemma_ast_keeps((budget - 1) as nat, expr, env, world, tape);
            }
        },
        _ => {},
    }
}

proof fn lemma_ast_keeps(budget: nat, expr: ValueView, env: nat, world: World, tape: Seq<Reply>)
    requires
        env < world.store.len(),
    ensures
        keeps(world, eval_ast(budget, expr, env, world, tape).world, env),
    decreases budget, 3nat, 0nat,
{
    match expr {
        ValueView::List(items) => {
            lemma_each_keeps(budget, items, items.len(), env, world, tape);
        },
        ValueView::Vector(items) => {
            lemma_each_keeps(budget, items, items.len(), env, world, tape);
        },
        ValueView::HashMap(entries) => {
            lemma_each_keeps(budget, entry_values(entries), entries.len(), env, world, tape);
        },
        _ => {},
    }
}

proof fn lemma_each_keeps(
    budget: nat,
    exprs: Seq<ValueView>,
    count: nat,
    env: nat,
    world: World,
    tape: Seq<Reply>,
)
    requires
        env < world.store.len(),
    ensures
        keeps(world, eval_each(budget, exprs, count, env, world, tape).world, env),
    decreases budget, 2nat, count,
{
    if count > 0 {
        lemma_each_keeps(budget, exprs, (count - 1) as nat, env, world, tape);
        let before = eval_each(budget, exprs, (count - 1) as nat, env, world, tape);
        if before.result is Ok {
            law_evaluation_keeps_other_scopes(budget, exprs[count - 1], env, before.world, tape);
        }
    }
}

proof fn lemma_bindings_keep(
    budget: nat,
    bindings: Seq<ValueView>,
    count: nat,
    env: nat,
    world: World,
    tape: Seq<Reply>,
)
    requires
        env < world.store.len(),
    ensures
        keeps(world, eval_bindings(budget, bindings, count, env, world, tape).world, env),
    decreases budget, 2nat, count,
{
    if count > 0 {
        lemma_bindings_keep(budget, bindings, (count - 1) as nat, env, world, tape);
        let before = eval_bindings(budget, bindings, (count - 1) as nat, env, world, tape);
        if before.error is None && bindings[2 * (count - 1)] is Sym {
            law_evaluation_keeps_other_scopes(
                budget,
                bindings[2 * (count - 1) + 1],
                env,
                before.world,
                tape,
            );
        }
    }
}

proof fn lemma_def_keeps(
    budget: nat,
    items: Seq<ValueView>,
    env: nat,
    world: World,
    tape: Seq<Reply>,
)
    requires
        env < world.store.len(),
    ensures
        turn_keeps(world, step_def(budget, items, env, world, tape), env),
    decreases budget, 3nat, 0nat,
{
    if items.len() >= 3 {
        law_evaluation_keeps_other_scopes(budget, items[2], env, world, tape);
    }
}

proof fn lemma_let_keeps(
    budget: nat,
    items: Seq<ValueView>,
    env: nat,
    world: World,
    tape: Seq<Reply>,
)
    requires
        env < world.store.len(),
    ensures
        turn_keeps(world, step_let(budget, items, env, world, tape), env),
        step_let(budget, items, env, world, tape) matches Step::Continue { env: inner, world: after, .. }
            ==> inner == world.store.len() && after.store[env as int] == world.store[env as int],
        step_let(budget, items, env, world, tape) matches Step::Done(outcome)
            ==> outcome.world.store[env as int] == world.store[env as int],
    decreases budget, 3nat, 0nat,
{
    if items.len() >= 3 && items[1].is_sequence() && items[1].elements().len() % 2 == 0 {
        let bindings = items[1].elements();
        let inner = world.store.len();
        let entered = World { store: with_scope(world.store, Some(env)), calls: world.calls };
        lemma_bindings_keep(budget, bindings, bindings.len() / 2, inner, entered, tape);
    }
}

proof fn lemma_do_keeps(
    budget: nat,
    items: Seq<ValueView>,
    env: nat,
    world: World,
    tape: Seq<Reply>,
)
    requires
        env < world.store.len(),
    ensures
        turn_keeps(world, step_do(budget, items, env, world, tape), env),
    decreases budget, 3nat, 0nat,
{
    let leading = do_leading(items);
    lemma_each_keeps(budget, leading, leading.len(), env, world, tape);
}

proof fn lemma_if_keeps(
    budget: nat,
    items: Seq<ValueView>,
    env: nat,
    world: World,
    tape: Seq<Reply>,
)
    requires
        env < world.store.len(),
    ensures
        turn_keeps(world, step_if(budget, items, env, world, tape), env),
    decreases budget, 3nat, 0nat,
{
    if items.len() >= 3 {
        law_evaluation_keeps_other_scopes(budget, items[1], env, world, tape);
    }
}

proof fn lemma_apply_keeps(
    callee: ValueView,
    args: Seq<ValueView>,
    env: nat,
    world: World,
    tape: Seq<Reply>,
)
    requires
        env < world.store.len(),
    ensures
        turn_keeps(world, apply(callee, args, world, tape), env),
        apply(callee, args, world, tape) matches Step::Continue { env: inner, world: after, .. }
            ==> inner == world.store.len() && after.store[env as int] == world.store[env as int],
        apply(callee, args, world, tape) matches Step::Done(outcome)
            ==> outcome.world.store[env as int] == world.store[env as int],
{
    match callee {
        ValueView::Closure { params, body, env: captured } => {
            if captured < world.store.len() {
                let inner = world.store.len();
                let store = with_scope(world.store, Some(captured));
                match bind_plan(*params, args) {
                    Ok(pairs) => {
                        lemma_with_bindings_frame(store, inner, pairs, pairs.len());
                    },
                    Err(_) => {},
                }
            }
        },
        _ => {},
    }
}

proof fn lemma_call_keeps(
    budget: nat,
    items: Seq<ValueView>,
    env: nat,
    world: World,
    tape: Seq<Reply>,
)
    requires
        env < world.store.len(),
    ensures
        turn_keeps(world, step_call(budget, items, env, world, tape), env),
    decreases budget, 3nat, 0nat,
{
    lemma_each_keeps(budget, items, items.len(), env, world, tape);
    let each = eval_each(budget, items, items.len(), env, world, tape);
    match each.result {
        Ok(values) => {
            lemma_apply_keeps(values[0], values.skip(1), env, each.world, tape);
        },
        Err(_) => {},
    }
}


/// The names of the special forms are five different names, and `&` is none of them.
pub proof fn lemma_special_form_names()
    ensures
        form_of(ValueView::Sym("def!"@)) == Form::Def,
        form_of(ValueView::Sym("let*"@)) == Form::Let,
        form_of(ValueView::Sym("do"@)) == Form::Do,
        form_of(ValueView::Sym("if"@)) == Form::If,
        form_of(ValueView::Sym("fn*"@)) == Form::Lambda,
        form_of(ValueView::Sym("&"@)) == Form::Call,
{
    reveal_strlit("def!");
    reveal_strlit("let*");
    reveal_strlit("do");
    reveal_strlit("if");
    reveal_strlit("fn*");
    reveal_strlit("&");
    assert("def!"@.len() == 4 && "let*"@.len() == 4 && "fn*"@.len() == 3);
    assert("do"@.len() == 2 && "if"@.len() == 2 && "&"@.len() == 1);
    assert("do"@[0] != "if"@[0]);
    assert("def!"@[0] != "let*"@[0]);
}

/// The bindings of a `let*` do not leak: the form leaves every scope that
/// was there before it, the one it is evaluated in too, as it was.
pub proof fn law_let_leaves_enclosing_scopes(
    budget: nat,
    items: Seq<ValueView>,
    env: nat,
    world: World,
    tape: Seq<Reply>,
)
    requires
        env < world.store.len(),
        items.len() > 0,
        form_of(items[0]) == Form::Let,
    ensures
        forall|scope: int|
            0 <= scope < world.store.len() ==> #[trigger] eval(
                budget,
                ValueView::List(items),
                env,
                world,
                tape,
            ).world.store[scope] == world.store[scope],
{
    let expr = ValueView::List(items);
    if budget > 0 {
        let rest = (budget - 1) as nat;
        assert(step(budget, expr, env, world, tape) == step_let(rest, items, env, world, tape));
        lemma_let_keeps(rest, items, env, world, tape);
        match step_let(rest, items, env, world, tape) {
            Step::Done(_) => {},
            Step::Continue { expr: body, env: inner, world: after } => {
                law_evaluation_keeps_other_scopes(rest, body, inner, after, tape);
            },
        }
    }
}

/// `(def! name expr)` gives the value of `expr` and binds it to `name` in the
/// environment that the form is evaluated in: from then on `name` evaluates
/// to that value there. Where `expr` fails, so does the form.
pub proof fn law_def_binds_then_resolves(
    budget: nat,
    items: Seq<ValueView>,
    name: Seq<char>,
    env: nat,
    world: World,
    tape: Seq<Reply>,
)
    requires
        budget > 0,
        env < world.store.len(),
        items.len() >= 3,
        form_of(items[0]) == Form::Def,
        items[1] == ValueView::Sym(name),
    ensures
        ({
            let bound = eval((budget - 1) as nat, items[2], env, world, tape);
            let whole = eval(budget, ValueView::List(items), env, world, tape);
            match bound.result {
                Ok(value) => {
                    &&& whole.result == Ok::<ValueView, ErrorView>(value)
                    &&& whole.world.store == with_binding(bound.world.store, env, name, value)
                    &&& whole.world.calls == bound.world.calls
                    &&& forall|later: nat, answers: Seq<Reply>|
                        #[trigger] eval(later, ValueView::Sym(name), env, whole.world, answers)
                            == (Outcome { result: Ok(value), world: whole.world })
                },
                Err(_) => whole == bound,
            }
        }),
{
    let bound = eval((budget - 1) as nat, items[2], env, world, tape);
    let whole = eval(budget, ValueView::List(items), env, world, tape);
    assert(step(budget, ValueView::List(items), env, world, tape) == step_def(
        (budget - 1) as nat,
        items,
        env,
        world,
        tape,
    ));
    law_evaluation_keeps_other_scopes((budget - 1) as nat, items[2], env, world, tape);
    if let Ok(value) = bound.result {
        assert(whole.world.store[env as int].bindings.dom().contains(name));
        assert forall|later: nat, answers: Seq<Reply>|
            #[trigger] eval(later, ValueView::Sym(name), env, whole.world, answers) == (Outcome {
                result: Ok(value),
                world: whole.world,
            }) by {
            law_symbol_is_looked_up(later, name, env, whole.world, answers);
        }
    }
}

/// `(if cond then else)` is `then` where the value of `cond` is anything but
/// `nil` and `false`, zero and the empty string and list included; else it is
/// `else`, or `nil` where the form has no `else`. The branch is evaluated in
/// the world that `cond` left, and the other branch not at all.
pub proof fn law_if_selects_by_truthiness(
    budget: nat,
    items: Seq<ValueView>,
    env: nat,
    world: World,
    tape: Seq<Reply>,
)
    requires
        budget > 0,
        items.len() >= 3,
        form_of(items[0]) == Form::If,
    ensures
        ({
            let rest = (budget - 1) as nat;
            let cond = eval(rest, items[1], env, world, tape);
            let whole = eval(budget, ValueView::List(items), env, world, tape);
            match cond.result {
                Ok(value) => {
                    if value != ValueView::Nil && value != ValueView::Bool(false) {
                        whole == eval(rest, items[2], env, cond.world, tape)
                    } else if items.len() >= 4 {
                        whole == eval(rest, items[3], env, cond.world, tape)
                    } else {
                        whole == (Outcome { result: Ok(ValueView::Nil), world: cond.world })
                    }
                },
                Err(_) => whole == cond,
            }
        }),
{
    assert(step(budget, ValueView::List(items), env, world, tape) == step_if(
        (budget - 1) as nat,
        items,
        env,
        world,
        tape,
    ));
}

/// `(fn* params body)` gives a closure over the environment that the form is
/// evaluated in, and changes nothing.
pub proof fn law_lambda_captures_its_scope(
    budget: nat,
    items: Seq<ValueView>,
    env: nat,
    world: World,
    tape: Seq<Reply>,
)
    requires
        budget > 0,
        items.len() >= 3,
        form_of(items[0]) == Form::Lambda,
    ensures
        eval(budget, ValueView::List(items), env, world, tape) == (Outcome {
            result: Ok(
                ValueView::Closure { params: Box::new(items[1]), body: Box::new(items[2]), env },
            ),
            world,
        }),
{
    assert(step(budget, ValueView::List(items), env, world, tape) == step_lambda(
        items,
        env,
        world,
    ));
}

/// Looking a name up from `env` reads no scope that was made after `env`.
pub proof fn lemma_lookup_reads_older_scopes(
    store: StoreView,
    other: StoreView,
    env: nat,
    name: Seq<char>,
)
    requires
        env < store.len(),
        env < other.len(),
        forall|scope: int| 0 <= scope <= env ==> store[scope] == other[scope],
    ensures
        lookup(store, env, name) == lookup(other, env, name),
    decreases env,
{
    if !store[env as int].bindings.dom().contains(name) {
        if let Some(parent) = store[env as int].parent {
            if parent < env {
                lemma_lookup_reads_older_scopes(store, other, parent, name);
            }
        }
    }
}

/// Whether one of the first `count` of `pairs` binds `name`.
pub open spec fn binds(pairs: Seq<(Seq<char>, ValueView)>, count: nat, name: Seq<char>) -> bool {
    exists|i: int| 0 <= i < count && (#[trigger] pairs[i]).0 == name
}

/// A name that none of the pairs binds is looked up from `env` after the
/// binding as before it.
pub proof fn lemma_unbound_names_resolve_as_before(
    store: StoreView,
    env: nat,
    pairs: Seq<(Seq<char>, ValueView)>,
    count: nat,
    name: Seq<char>,
)
    requires
        env < store.len(),
        !binds(pairs, count, name),
    ensures
        lookup(with_bindings(store, env, pairs, count), env, name) == lookup(store, env, name),
    decreases count,
{
    if count > 0 {
        assert(!binds(pairs, (count - 1) as nat, name)) by {
            if binds(pairs, (count - 1) as nat, name) {
                let i = choose|i: int| 0 <= i < count - 1 && (#[trigger] pairs[i]).0 == name;
                assert(pairs[i].0 == name);
            }
        }
        assert(pairs[count - 1].0 != name);
        lemma_unbound_names_resolve_as_before(store, env, pairs, (count - 1) as nat, name);
        let before = with_bindings(store, env, pairs, (count - 1) as nat);
        lemma_with_bindings_frame(store, env, pairs, (count - 1) as nat);
        let after = with_bindings(store, env, pairs, count);
        if let Some(parent) = before[env as int].parent {
            if parent < env {
                lemma_lookup_reads_older_scopes(before, after, parent, name);
            }
        }
    }
}

/// Closures have lexical scope. A call of a closure evaluates its body in a
/// new environment whose parent is the environment that the closure was
/// created in, whatever environment the call stands in; a name that is not a
/// parameter means in the body what it means in that parent.
pub proof fn law_closure_runs_below_its_scope(
    budget: nat,
    items: Seq<ValueView>,
    env: nat,
    world: World,
    tape: Seq<Reply>,
)
    requires
        budget > 0,
        items.len() > 0,
        form_of(items[0]) == Form::Call,
    ensures
        ({
            let rest = (budget - 1) as nat;
            let each = eval_each(rest, items, items.len(), env, world, tape);
            let whole = eval(budget, ValueView::List(items), env, world, tape);
            match each.result {
                Ok(values) => match values[0] {
                    ValueView::Closure { params, body, env: captured } => {
                        let inner = each.world.store.len();
                        let fresh = with_scope(each.world.store, Some(captured));
                        captured < each.world.store.len() ==> match bind_plan(
                            *params,
                            values.skip(1),
                        ) {
                            Ok(pairs) => {
                                let entered = with_bindings(fresh, inner, pairs, pairs.len());
                                &&& whole == eval(
                                    rest,
                                    *body,
                                    inner,
                                    World { store: entered, calls: each.world.calls },
                                    tape,
                                )
                                &&& entered[inner as int].parent == Some(captured)
                                &&& forall|name: Seq<char>|
                                    !binds(pairs, pairs.len(), name) ==> #[trigger] lookup(
                                        entered,
                                        inner,
                                        name,
                                    ) == lookup(each.world.store, captured, name)
                            },
                            Err(error) => whole == (Outcome {
                                result: Err(error),
                                world: World { store: fresh, calls: each.world.calls },
                            }),
                        }
                    },
                    _ => true,
                },
                Err(_) => true,
            }
        }),
{
    let rest = (budget - 1) as nat;
    let each = eval_each(rest, items, items.len(), env, world, tape);
    assert(step(budget, ValueView::List(items), env, world, tape) == step_call(
        rest,
        items,
        env,
        world,
        tape,
    ));
    if let Ok(values) = each.result {
        if let ValueView::Closure { params, body, env: captured } = values[0] {
            if captured < each.world.store.len() {
                if let Ok(pairs) = bind_plan(*params, values.skip(1)) {
                    let inner = each.world.store.len();
                    let fresh = with_scope(each.world.store, Some(captured));
                    let entered = with_bindings(fresh, inner, pairs, pairs.len());
                    lemma_with_bindings_frame(fresh, inner, pairs, pairs.len());
                    assert forall|name: Seq<char>|
                        !binds(pairs, pairs.len(), name) implies #[trigger] lookup(
                        entered,
                        inner,
                        name,
                    ) == lookup(each.world.store, captured, name) by {
                        lemma_unbound_names_resolve_as_before(
                            fresh,
                            inner,
                            pairs,
                            pairs.len(),
                            name,
                        );
                        lemma_lookup_reads_older_scopes(
                            fresh,
                            each.world.store,
                            captured,
                            name,
                        );
                    }
                }
            }
        }
    }
}

/// Where a row of expressions evaluates, it gives one value for each, and
/// the first is the value of the first expression in the world at the start.
pub proof fn lemma_each_gives_first(
    budget: nat,
    exprs: Seq<ValueView>,
    count: nat,
    env: nat,
    world: World,
    tape: Seq<Reply>,
)
    requires
        count > 0,
    ensures
        eval_each(budget, exprs, count, env, world, tape).result matches Ok(values) ==> {
            &&& values.len() == count
            &&& eval(budget, exprs[0], env, world, tape).result == Ok::<ValueView, ErrorView>(
                values[0],
            )
        },
    decreases count,
{
    let before = eval_each(budget, exprs, (count - 1) as nat, env, world, tape);
    if count > 1 {
        lemma_each_gives_first(budget, exprs, (count - 1) as nat, env, world, tape);
    } else {
        assert(before == (Outcomes { result: Ok(Seq::empty()), world }));
    }
}

/// Only functions can be called: a list that is no special form, and whose
/// elements all evaluate, is an error where the value of the first element is
/// neither a native function nor a closure.
pub proof fn law_only_functions_are_called(
    budget: nat,
    items: Seq<ValueView>,
    env: nat,
    world: World,
    tape: Seq<Reply>,
)
    requires
        budget > 0,
        items.len() > 0,
        form_of(items[0]) == Form::Call,
    ensures
        ({
            let each = eval_each((budget - 1) as nat, items, items.len(), env, world, tape);
            let whole = eval(budget, ValueView::List(items), env, world, tape);
            match each.result {
                Ok(values) => !(values[0] is Native) && !(values[0] is Closure) ==> whole == (
                Outcome { result: Err(ErrorView::NotCallable), world: each.world }),
                Err(error) => whole == (Outcome { result: Err(error), world: each.world }),
            }
        }),
{
    assert(step(budget, ValueView::List(items), env, world, tape) == step_call(
        (budget - 1) as nat,
        items,
        env,
        world,
        tape,
    ));
}

/// A list that begins with a number, a string, a boolean or `nil` is a call
/// of something that is no function: where its elements all evaluate, it is
/// the error [`ErrorView::NotCallable`].
pub proof fn law_literal_cannot_be_called(
    budget: nat,
    items: Seq<ValueView>,
    env: nat,
    world: World,
    tape: Seq<Reply>,
)
    requires
        budget > 0,
        items.len() > 0,
        items[0].is_literal(),
        eval_each((budget - 1) as nat, items, items.len(), env, world, tape).result is Ok,
    ensures
        eval(budget, ValueView::List(items), env, world, tape).result == Err::<
            ValueView,
            ErrorView,
        >(ErrorView::NotCallable),
{
    let rest = (budget - 1) as nat;
    lemma_each_gives_first(rest, items, items.len(), env, world, tape);
    law_literal_evaluates_to_itself(rest, items[0], env, world, tape);
    law_only_functions_are_called(budget, items, env, world, tape);
}


/// Whether a turn ended the evaluation for want of budget, or with the same
/// error from a native function.
pub open spec fn gave_up(turn: Step) -> bool {
    turn matches Step::Done(outcome) && outcome.result == Err::<ValueView, ErrorView>(
        ErrorView::BudgetExhausted,
    )
}

/// The budget is a bound and nothing else: an evaluation that does not end
/// in [`ErrorView::BudgetExhausted`] ends in the same way on every larger
/// budget.
pub proof fn law_larger_budget_changes_nothing(
    small: nat,
    large: nat,
    expr: ValueView,
    env: nat,
    world: World,
    tape: Seq<Reply>,
)
    requires
        small <= large,
        eval(small, expr, env, world, tape).result != Err::<ValueView, ErrorView>(
            ErrorView::BudgetExhausted,
        ),
    ensures
        eval(large, expr, env, world, tape) == eval(small, expr, env, world, tape),
    decreases small, 1nat, 0nat,
{
    match step(small, expr, env, world, tape) {
        Step::Done(_) => {
            lemma_step_on_larger_budget(small, large, expr, env, world, tape);
        },
        Step::Continue { expr: next, env: next_env, world: next_world } => {
            lemma_step_on_larger_budget(small, large, expr, env, world, tape);
            if small > 0 {
                law_larger_budget_changes_nothing(
                    (small - 1) as nat,
                    (large - 1) as nat,
                    next,
                    next_env,
                    next_world,
                    tape,
                );
            }
        },
    }
}

proof fn lemma_step_on_larger_budget(
    small: nat,
    large: nat,
    expr: ValueView,
    env: nat,
    world: World,
    tape: Seq<Reply>,
)
    requires
        small <= large,
        !gave_up(step(small, expr, env, world, tape)),
    ensures
        step(large, expr, env, world, tape) == step(small, expr, env, world, tape),
    decreases small, 0nat, 0nat,
{
    match expr {
        ValueView::List(items) => {
            if items.len() > 0 {
                let s = (small - 1) as nat;
                let l = (large - 1) as nat;
                match form_of(items[0]) {
                    Form::Def => lemma_def_on_larger_budget(s, l, items, env, world, tape),
                    Form::Let => lemma_let_on_larger_budget(s, l, items, env, world, tape),
                    Form::Do => lemma_do_on_larger_budget(s, l, items, env, world, tape),
                    Form::If => lemma_if_on_larger_budget(s, l, items, env, world, tape),
                    Form::Lambda => {},
                    Form::Call => lemma_call_on_larger_budget(s, l, items, env, world, tape),
                }
            }
        },
        ValueView::Vector(_) | ValueView::HashMap(_) => {
            lemma_ast_on_larger_budget(
                (small - 1) as nat,
                (large - 1) as nat,
                expr,
                env,
                world,
                tape,
            );
        },
        _ => {},
    }
}

proof fn lemma_ast_on_larger_budget(
    small: nat,
    large: nat,
    expr: ValueView,
    env: nat,
    world: World,
    tape: Seq<Reply>,
)
    requires
        small <= large,
        eval_ast(small, expr, env, world, tape).result != Err::<ValueView, ErrorView>(
            ErrorView::BudgetExhausted,
        ),
    ensures
        eval_ast(large, expr, env, world, tape) == eval_ast(small, expr, env, world, tape),
    decreases small, 3nat, 0nat,
{
    match expr {
        ValueView::List(items) => {
            lemma_each_on_larger_budget(small, large, items, items.len(), env, world, tape);
        },
        ValueView::Vector(items) => {
            lemma_each_on_larger_budget(small, large, items, items.len(), env, world, tape);
        },
        ValueView::HashMap(entries) => {
            lemma_each_on_larger_budget(
                small,
                large,
                entry_values(entries),
                entries.len(),
                env,
                world,
                tape,
            );
        },
        _ => {},
    }
}

proof fn lemma_each_on_larger_budget(
    small: nat,
    large: nat,
    exprs: Seq<ValueView>,
    count: nat,
    env: nat,
    world: World,
    tape: Seq<Reply>,
)
    requires
        small <= large,
        eval_each(small, exprs, count, env, world, tape).result != Err::<
            Seq<ValueView>,
            ErrorView,
        >(ErrorView::BudgetExhausted),
    ensures
        eval_each(large, exprs, count, env, world, tape) == eval_each(
            small,
            exprs,
            count,
            env,
            world,
            tape,
        ),
    decreases small, 2nat, count,
{
    if count > 0 {
        let before = eval_each(small, exprs, (count - 1) as nat, env, world, tape);
        lemma_each_on_larger_budget(small, large, exprs, (count - 1) as nat, env, world, tape);
        if before.result is Ok {
            law_larger_budget_changes_nothing(
                small,
                large,
                exprs[count - 1],
                env,
                before.world,
                tape,
            );
        }
    }
}

proof fn lemma_bindings_on_larger_budget(
    small: nat,
    large: nat,
    bindings: Seq<ValueView>,
    count: nat,
    env: nat,
    world: World,
    tape: Seq<Reply>,
)
    requires
        small <= large,
        eval_bindings(small, bindings, count, env, world, tape).error != Some(
            ErrorView::BudgetExhausted,
        ),
    ensures
        eval_bindings(large, bindings, count, env, world, tape) == eval_bindings(
            small,
            bindings,
            count,
            env,
            world,
            tape,
        ),
    decreases small, 2nat, count,
{
    if count > 0 {
        let before = eval_bindings(small, bindings, (count - 1) as nat, env, world, tape);
        lemma_bindings_on_larger_budget(
            small,
            large,
            bindings,
            (count - 1) as nat,
            env,
            world,
            tape,
        );
        if before.error is None && bindings[2 * (count - 1)] is Sym {
            law_larger_budget_changes_nothing(
                small,
                large,
                bindings[2 * (count - 1) + 1],
                env,
                before.world,
                tape,
            );
        }
    }
}

proof fn lemma_def_on_larger_budget(
    small: nat,
    large: nat,
    items: Seq<ValueView>,
    env: nat,
    world: World,
    tape: Seq<Reply>,
)
    requires
        small <= large,
        !gave_up(step_def(small, items, env, world, tape)),
    ensures
        step_def(large, items, env, world, tape) == step_def(small, items, env, world, tape),
    decreases small, 3nat, 0nat,
{
    if items.len() >= 3 {
        law_larger_budget_changes_nothing(small, large, items[2], env, world, tape);
    }
}

proof fn lemma_let_on_larger_budget(
    small: nat,
    large: nat,
    items: Seq<ValueView>,
    env: nat,
    world: World,
    tape: Seq<Reply>,
)
    requires
        small <= large,
        !gave_up(step_let(small, items, env, world, tape)),
    ensures
        step_let(large, items, env, world, tape) == step_let(small, items, env, world, tape),
    decreases small, 3nat, 0nat,
{
    if items.len() >= 3 && items[1].is_sequence() && items[1].elements().len() % 2 == 0 {
        let bindings = items[1].elements();
        lemma_bindings_on_larger_budget(
            small,
            large,
            bindings,
            bindings.len() / 2,
            world.store.len(),
            World { store: with_scope(world.store, Some(env)), calls: world.calls },
            tape,
        );
    }
}

proof fn lemma_do_on_larger_budget(
    small: nat,
    large: nat,
    items: Seq<ValueView>,
    env: nat,
    world: World,
    tape: Seq<Reply>,
)
    requires
        small <= large,
        !gave_up(step_do(small, items, env, world, tape)),
    ensures
        step_do(large, items, env, world, tape) == step_do(small, items, env, world, tape),
    decreases small, 3nat, 0nat,
{
    let leading = do_leading(items);
    lemma_each_on_larger_budget(small, large, leading, leading.len(), env, world, tape);
}

proof fn lemma_if_on_larger_budget(
    small: nat,
    large: nat,
    items: Seq<ValueView>,
    env: nat,
    world: World,
    tape: Seq<Reply>,
)
    requires
        small <= large,
        !gave_up(step_if(small, items, env, world, tape)),
    ensures
        step_if(large, items, env, world, tape) == step_if(small, items, env, world, tape),
    decreases small, 3nat, 0nat,
{
    if items.len() >= 3 {
        law_larger_budget_changes_nothing(small, large, items[1], env, world, tape);
    }
}

proof fn lemma_call_on_larger_budget(
    small: nat,
    large: nat,
    items: Seq<ValueView>,
    env: nat,
    world: World,
    tape: Seq<Reply>,
)
    requires
        small <= large,
        !gave_up(step_call(small, items, env, world, tape)),
    ensures
        step_call(large, items, env, world, tape) == step_call(small, items, env, world, tape),
    decreases small, 3nat, 0nat,
{
    lemma_each_on_larger_budget(small, large, items, items.len(), env, world, tape);
}


} // verus!
