//! What an expression evaluates to, as mathematics.
//!
//! [`eval`] gives the outcome of evaluating an expression in an environment
//! of a store. It is a function of its arguments alone. What the host's native
//! functions answer is not known to the evaluator, so it enters as the `tape`:
//! the answers in the order in which the calls are made. The `budget` bounds
//! the chain of evaluations that are pending at any one time, which makes the
//! definition well-founded.

use vstd::prelude::*;
use crate::env::{bind_plan, resolve, with_binding, with_bindings, with_scope, StoreView};
use crate::error::{Defect, ErrorView, Reply};
use crate::value::ValueView;

verus! {

/// A call of a native function: the number of the function and its arguments.
pub ghost struct NativeCall {
    pub id: nat,
    pub args: Seq<ValueView>,
}

/// What an evaluation can change: the store, and the native calls made so far.
pub ghost struct World {
    pub store: StoreView,
    pub calls: Seq<NativeCall>,
}

/// How an evaluation ends: with a value or an error, in a world.
pub ghost struct Outcome {
    pub result: Reply,
    pub world: World,
}

/// How the evaluation of several expressions in a row ends.
pub ghost struct Outcomes {
    pub result: Result<Seq<ValueView>, ErrorView>,
    pub world: World,
}

/// How the evaluation of a series of bindings ends.
pub ghost struct Progress {
    pub error: Option<ErrorView>,
    pub world: World,
}

/// One turn of the evaluation loop: it ends the evaluation, or it leaves an
/// expression in tail position to go on with, and the environment for it.
pub ghost enum Step {
    Done(Outcome),
    Continue { expr: ValueView, env: nat, world: World },
}

/// What the first element of a list makes of the list.
#[derive(Debug, Clone, Copy, PartialEq, Eq, Structural)]
pub enum Form {
    Def,
    Let,
    Do,
    If,
    Lambda,
    /// Anything but a special form: a call.
    Call,
}

/// The form that a list with this first element is.
pub open spec fn form_of(head: ValueView) -> Form {
    match head {
        ValueView::Sym(name) => {
            if name == "def!"@ {
                Form::Def
            } else if name == "let*"@ {
                Form::Let
            } else if name == "do"@ {
                Form::Do
            } else if name == "if"@ {
                Form::If
            } else if name == "fn*"@ {
                Form::Lambda
            } else {
                Form::Call
            }
        },
        _ => Form::Call,
    }
}

pub open spec fn done(result: Reply, world: World) -> Step {
    Step::Done(Outcome { result, world })
}

pub open spec fn malformed(defect: Defect, world: World) -> Step {
    done(Err(ErrorView::Malformed(defect)), world)
}

/// The values of a hash map's entries, in their order.
pub open spec fn entry_values(entries: Seq<(Seq<char>, ValueView)>) -> Seq<ValueView> {
    Seq::new(entries.len(), |i: int| entries[i].1)
}

/// The entries of a hash map with `values` in place of their values.
pub open spec fn with_values(entries: Seq<(Seq<char>, ValueView)>, values: Seq<ValueView>) -> Seq<
    (Seq<char>, ValueView),
> {
    Seq::new(entries.len(), |i: int| (entries[i].0, values[i]))
}

/// A symbol evaluates to what it is bound to; any other value that is not a
/// list, a vector or a hash map evaluates to itself.
pub open spec fn eval_atom(expr: ValueView, env: nat, world: World) -> Outcome {
    match expr {
        ValueView::Sym(name) => Outcome { result: resolve(world.store, env, name), world },
        _ => Outcome { result: Ok(expr), world },
    }
}

/// A closure over the second and third element of a `fn*` form and over the
/// environment in which the form is evaluated.
pub open spec fn step_lambda(items: Seq<ValueView>, env: nat, world: World) -> Step {
    if items.len() < 3 {
        malformed(Defect::MissingOperands, world)
    } else {
        done(
            Ok(ValueView::Closure { params: Box::new(items[1]), body: Box::new(items[2]), env }),
            world,
        )
    }
}

/// The call of `callee` with `args`.
///
/// A native function is handed the arguments, and its answer, the next on the
/// tape, is the result. A closure gets a new environment below the one it was
/// created in, with its parameters bound there, and its body is what to go on
/// with. Anything else cannot be called, and neither can a closure whose
/// environment is not in the store.
pub open spec fn apply(
    callee: ValueView,
    args: Seq<ValueView>,
    world: World,
    tape: Seq<Reply>,
) -> Step {
    match callee {
        ValueView::Native(id) => done(
            tape[world.calls.len() as int],
            World { store: world.store, calls: world.calls.push(NativeCall { id, args }) },
        ),
        ValueView::Closure { params, body, env: captured } => {
            if captured >= world.store.len() {
                done(Err(ErrorView::NotCallable), world)
            } else {
                let env = world.store.len();
                let store = with_scope(world.store, Some(captured));
                match bind_plan(*params, args) {
                    Ok(pairs) => Step::Continue {
                        expr: *body,
                        env,
                        world: World {
                            store: with_bindings(store, env, pairs, pairs.len()),
                            calls: world.calls,
                        },
                    },
                    Err(error) => done(Err(error), World { store, calls: world.calls }),
                }
            }
        },
        _ => done(Err(ErrorView::NotCallable), world),
    }
}

/// The outcome of evaluating `expr` in `env`.
///
/// The evaluation takes turns, see [`step`], until one ends it. Each turn
/// that goes on uses up one unit of the budget.
pub open spec fn eval(
    budget: nat,
    expr: ValueView,
    env: nat,
    world: World,
    tape: Seq<Reply>,
) -> Outcome
    decreases budget, 1nat, 0nat,
{
    match step(budget, expr, env, world, tape) {
        Step::Done(outcome) => outcome,
        Step::Continue { expr: next, env: next_env, world: next_world } => {
            if budget == 0 {
                Outcome { result: Err(ErrorView::BudgetExhausted), world: next_world }
            } else {
                eval((budget - 1) as nat, next, next_env, next_world, tape)
            }
        },
    }
}

/// One turn of the evaluation of `expr` in `env`.
///
/// An empty list and everything that [`eval_atom`] covers end the evaluation
/// at once. A vector or a hash map, and a list that is not empty, need one
/// unit of the budget; what they evaluate inside gets what is left of it.
pub open spec fn step(budget: nat, expr: ValueView, env: nat, world: World, tape: Seq<Reply>) -> Step
    decreases budget, 0nat, 0nat,
{
    match expr {
        ValueView::List(items) => {
            if items.len() == 0 {
                done(Ok(expr), world)
            } else if budget == 0 {
                done(Err(ErrorView::BudgetExhausted), world)
            } else {
                let rest = (budget - 1) as nat;
                match form_of(items[0]) {
                    Form::Def => step_def(rest, items, env, world, tape),
                    Form::Let => step_let(rest, items, env, world, tape),
                    Form::Do => step_do(rest, items, env, world, tape),
                    Form::If => step_if(rest, items, env, world, tape),
                    Form::Lambda => step_lambda(items, env, world),
                    Form::Call => step_call(rest, items, env, world, tape),
                }
            }
        },
        ValueView::Vector(_) | ValueView::HashMap(_) => {
            if budget == 0 {
                done(Err(ErrorView::BudgetExhausted), world)
            } else {
                Step::Done(eval_ast((budget - 1) as nat, expr, env, world, tape))
            }
        },
        _ => Step::Done(eval_atom(expr, env, world)),
    }
}

/// Evaluation without special forms: each element of a list or a vector and
/// each value of a hash map is evaluated, in order, and the results are put
/// together as the expression was; anything else is as [`eval_atom`] says.
pub open spec fn eval_ast(
    budget: nat,
    expr: ValueView,
    env: nat,
    world: World,
    tape: Seq<Reply>,
) -> Outcome
    decreases budget, 3nat, 0nat,
{
    match expr {
        ValueView::List(items) => {
            let each = eval_each(budget, items, items.len(), env, world, tape);
            match each.result {
                Ok(values) => Outcome { result: Ok(ValueView::List(values)), world: each.world },
                Err(error) => Outcome { result: Err(error), world: each.world },
            }
        },
        ValueView::Vector(items) => {
            let each = eval_each(budget, items, items.len(), env, world, tape);
            match each.result {
                Ok(values) => Outcome { result: Ok(ValueView::Vector(values)), world: each.world },
                Err(error) => Outcome { result: Err(error), world: each.world },
            }
        },
        ValueView::HashMap(entries) => {
            let each = eval_each(
                budget,
                entry_values(entries),
                entries.len(),
                env,
                world,
                tape,
            );
            match each.result {
                Ok(values) => Outcome {
                    result: Ok(ValueView::HashMap(with_values(entries, values))),
                    world: each.world,
                },
                Err(error) => Outcome { result: Err(error), world: each.world },
            }
        },
        _ => eval_atom(expr, env, world),
    }
}

/// The first `count` of `exprs` evaluated from left to right, each in the
/// world that the one before it left; the first error ends it.
pub open spec fn eval_each(
    budget: nat,
    exprs: Seq<ValueView>,
    count: nat,
    env: nat,
    world: World,
    tape: Seq<Reply>,
) -> Outcomes
    decreases budget, 2nat, count,
{
    if count == 0 {
        Outcomes { result: Ok(Seq::empty()), world }
    } else {
        let before = eval_each(budget, exprs, (count - 1) as nat, env, world, tape);
        match before.result {
            Ok(values) => {
                let last = eval(budget, exprs[count - 1], env, before.world, tape);
                match last.result {
                    Ok(value) => Outcomes { result: Ok(values.push(value)), world: last.world },
                    Err(error) => Outcomes { result: Err(error), world: last.world },
                }
            },
            Err(_) => before,
        }
    }
}

/// The first `count` pairs of the bindings of a `let*`, from left to right:
/// the second of a pair is evaluated in `env`, where the pairs before it are
/// bound already, and its value is bound there to the first, a symbol.
pub open spec fn eval_bindings(
    budget: nat,
    bindings: Seq<ValueView>,
    count: nat,
    env: nat,
    world: World,
    tape: Seq<Reply>,
) -> Progress
    decreases budget, 2nat, count,
{
    if count == 0 {
        Progress { error: None, world }
    } else {
        let before = eval_bindings(budget, bindings, (count - 1) as nat, env, world, tape);
        if before.error is Some {
            before
        } else {
            match bindings[2 * (count - 1)] {
                ValueView::Sym(name) => {
                    let bound = eval(
                        budget,
                        bindings[2 * (count - 1) + 1],
                        env,
                        before.world,
                        tape,
                    );
                    match bound.result {
                        Ok(value) => Progress {
                            error: None,
                            world: World {
                                store: with_binding(bound.world.store, env, name, value),
                                calls: bound.world.calls,
                            },
                        },
                        Err(error) => Progress { error: Some(error), world: bound.world },
                    }
                },
                _ => Progress {
                    error: Some(ErrorView::Malformed(Defect::LetTargetNotSymbol)),
                    world: before.world,
                },
            }
        }
    }
}

/// `(def! name expr)`: the value of `expr`, bound to `name` in `env` itself.
pub open spec fn step_def(
    budget: nat,
    items: Seq<ValueView>,
    env: nat,
    world: World,
    tape: Seq<Reply>,
) -> Step
    decreases budget, 3nat, 0nat,
{
    if items.len() < 3 {
        malformed(Defect::MissingOperands, world)
    } else {
        let bound = eval(budget, items[2], env, world, tape);
        match bound.result {
            Ok(value) => match items[1] {
                ValueView::Sym(name) => done(
                    Ok(value),
                    World {
                        store: with_binding(bound.world.store, env, name, value),
                        calls: bound.world.calls,
                    },
                ),
                _ => malformed(Defect::DefTargetNotSymbol, bound.world),
            },
            Err(_) => Step::Done(bound),
        }
    }
}

/// `(let* (name expr ...) body)`: a new environment below `env` with the
/// bindings made in it one after the other, and `body` to go on with in it.
pub open spec fn step_let(
    budget: nat,
    items: Seq<ValueView>,
    env: nat,
    world: World,
    tape: Seq<Reply>,
) -> Step
    decreases budget, 3nat, 0nat,
{
    if items.len() < 3 {
        malformed(Defect::MissingOperands, world)
    } else if !items[1].is_sequence() {
        malformed(Defect::LetBindingsNotSequence, world)
    } else if items[1].elements().len() % 2 != 0 {
        malformed(Defect::LetBindingsUnpaired, world)
    } else {
        let bindings = items[1].elements();
        let inner = world.store.len();
        let bound = eval_bindings(
            budget,
            bindings,
            bindings.len() / 2,
            inner,
            World { store: with_scope(world.store, Some(env)), calls: world.calls },
            tape,
        );
        match bound.error {
            Some(error) => done(Err(error), bound.world),
            None => Step::Continue { expr: items[2], env: inner, world: bound.world },
        }
    }
}

/// The elements of a `do` form that are evaluated for their effects: all
/// between the first and the last.
pub open spec fn do_leading(items: Seq<ValueView>) -> Seq<ValueView> {
    if items.len() >= 2 {
        items.subrange(1, items.len() - 1)
    } else {
        Seq::empty()
    }
}

/// `(do expr ... last)`: the expressions before the last evaluated in order,
/// and the last element of the form to go on with.
pub open spec fn step_do(
    budget: nat,
    items: Seq<ValueView>,
    env: nat,
    world: World,
    tape: Seq<Reply>,
) -> Step
    decreases budget, 3nat, 0nat,
{
    let leading = do_leading(items);
    let each = eval_each(budget, leading, leading.len(), env, world, tape);
    match each.result {
        Ok(_) => Step::Continue { expr: items.last(), env, world: each.world },
        Err(error) => done(Err(error), each.world),
    }
}

/// `(if cond then else)`: `then` to go on with where the value of `cond` is
/// truthy, else `else`, or `nil` at once where there is no `else`.
pub open spec fn step_if(
    budget: nat,
    items: Seq<ValueView>,
    env: nat,
    world: World,
    tape: Seq<Reply>,
) -> Step
    decreases budget, 3nat, 0nat,
{
    if items.len() < 3 {
        malformed(Defect::MissingOperands, world)
    } else {
        let cond = eval(budget, items[1], env, world, tape);
        match cond.result {
            Ok(value) => {
                if value.is_truthy() {
                    Step::Continue { expr: items[2], env, world: cond.world }
                } else if items.len() >= 4 {
                    Step::Continue { expr: items[3], env, world: cond.world }
                } else {
                    done(Ok(ValueView::Nil), cond.world)
                }
            },
            Err(_) => Step::Done(cond),
        }
    }
}

/// A call: every element of the list evaluated in order, then the first of
/// the values called with the others, see [`apply`].
pub open spec fn step_call(
    budget: nat,
    items: Seq<ValueView>,
    env: nat,
    world: World,
    tape: Seq<Reply>,
) -> Step
    decreases budget, 3nat, 0nat,
{
    let each = eval_each(budget, items, items.len(), env, world, tape);
    match each.result {
        Ok(values) => apply(values[0], values.skip(1), each.world, tape),
        Err(error) => done(Err(error), each.world),
    }
}

} // verus!
