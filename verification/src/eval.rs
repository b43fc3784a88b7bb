//! The evaluator: a loop that takes one turn after the other and runs what
//! stands in tail position without a call of its own.

use vstd::prelude::*;
use crate::env::{resolve, EnvId, Store, StoreView};
use crate::error::{reply_of, Defect, ErrorView, EvalError, Reply};
use crate::laws::{law_literal_evaluates_to_itself, law_symbol_is_looked_up};
use crate::semantics::{
    apply, do_leading, done, entry_values, eval, eval_atom, eval_bindings, eval_each,
    form_of, step, step_call, step_def, step_do, step_if, step_lambda, step_let, with_values,
    Form, NativeCall, Outcome, Outcomes, Progress, Step, World,
};
use crate::value::{entry_views_of, views_of, Value, ValueView};

verus! {

/// Whether the host's native functions may answer `call` with `reply`.
pub open spec fn native_allows<F: Fn(u64, Vec<Value>) -> Result<Value, EvalError>>(
    natives: F,
    call: NativeCall,
    reply: Reply,
) -> bool {
    exists|id: u64, args: Vec<Value>, result: Result<Value, EvalError>|
        #![trigger call_ensures(natives, (id, args), result)]
        {
            &&& id as nat == call.id
            &&& views_of(args@) == call.args
            &&& reply_of(result) == reply
            &&& call_ensures(natives, (id, args), result)
        }
}

/// Whether `tape` holds, call by call, an answer that the native functions
/// may give to each of `calls`.
pub open spec fn faithful<F: Fn(u64, Vec<Value>) -> Result<Value, EvalError>>(
    natives: F,
    calls: Seq<NativeCall>,
    tape: Seq<Reply>,
) -> bool {
    &&& calls.len() == tape.len()
    &&& forall|i: int| 0 <= i < tape.len() ==> native_allows(natives, #[trigger] calls[i], tape[i])
}

/// The budget of [`evaluate`]: more than any evaluation uses up in practice.
pub const FULL_BUDGET: u64 = 0xffff_ffff_ffff_ffff;

/// Evaluates `expr` in the environment `env` of `store`, with at most
/// `budget` evaluations pending one inside the other or one after the other
/// in tail position.
///
/// The result and the store that is left are what [`eval`] gives on the
/// answers of the native functions, and each of these answers is one that
/// `natives` may give to the call that [`eval`] makes there. An expression
/// that needs more than the budget ends in [`EvalError::BudgetExhausted`].
pub fn evaluate_within<F: Fn(u64, Vec<Value>) -> Result<Value, EvalError>>(
    expr: &Value,
    env: EnvId,
    store: &mut Store,
    natives: &F,
    budget: u64,
) -> (result: Result<Value, EvalError>)
    requires
        env < old(store)@.len(),
        forall|id: u64, args: Vec<Value>| call_requires(*natives, (id, args)),
    ensures
        old(store)@.len() <= final(store)@.len(),
        exists|tape: Seq<Reply>| #[trigger]
            answers(
                *natives,
                tape,
                eval(
                    budget as nat,
                    expr@,
                    env as nat,
                    World { store: old(store)@, calls: Seq::empty() },
                    tape,
                ),
                reply_of(result),
                final(store)@,
            ),
        expr@.is_literal() ==> reply_of(result) == Ok::<ValueView, ErrorView>(expr@)
            && final(store)@ == old(store)@,
        expr@ matches ValueView::Sym(name) ==> reply_of(result) == resolve(
            old(store)@,
            env as nat,
            name,
        ) && final(store)@ == old(store)@,
{
    let ghost start = Trace { calls: Seq::empty(), replies: Seq::empty() };
    let (result, Ghost(trace)) = run(expr, env, store, natives, budget, Ghost(start));
    proof {
        let tape = trace.replies;
        let before = World { store: old(store)@, calls: Seq::empty() };
        assert(agrees(tape, trace.replies));
        if expr@.is_literal() {
            law_literal_evaluates_to_itself(budget as nat, expr@, env as nat, before, tape);
        }
        if let ValueView::Sym(name) = expr@ {
            law_symbol_is_looked_up(budget as nat, name, env as nat, before, tape);
        }
        assert(answers(
            *natives,
            tape,
            eval(
                budget as nat,
                expr@,
                env as nat,
                World { store: old(store)@, calls: Seq::empty() },
                tape,
            ),
            reply_of(result),
            store@,
        ));
    }
    result
}

/// Evaluates `expr` in the environment `env` of `store`: [`evaluate_within`]
/// with the [`FULL_BUDGET`].
pub fn evaluate<F: Fn(u64, Vec<Value>) -> Result<Value, EvalError>>(
    expr: &Value,
    env: EnvId,
    store: &mut Store,
    natives: &F,
) -> (result: Result<Value, EvalError>)
    requires
        env < old(store)@.len(),
        forall|id: u64, args: Vec<Value>| call_requires(*natives, (id, args)),
    ensures
        old(store)@.len() <= final(store)@.len(),
        exists|tape: Seq<Reply>| #[trigger]
            answers(
                *natives,
                tape,
                eval(
                    FULL_BUDGET as nat,
                    expr@,
                    env as nat,
                    World { store: old(store)@, calls: Seq::empty() },
                    tape,
                ),
                reply_of(result),
                final(store)@,
            ),
        expr@.is_literal() ==> reply_of(result) == Ok::<ValueView, ErrorView>(expr@)
            && final(store)@ == old(store)@,
        expr@ matches ValueView::Sym(name) ==> reply_of(result) == resolve(
            old(store)@,
            env as nat,
            name,
        ) && final(store)@ == old(store)@,
{
    evaluate_within(expr, env, store, natives, FULL_BUDGET)
}

/// Evaluates `expr` without regard to special forms: a symbol is looked up,
/// the elements of a list or a vector and the values of a hash map are
/// evaluated with [`evaluate_within`] and put together again, and any other
/// value is returned as it is.
///
/// The result and the store that is left are what [`eval_ast`] gives on the
/// answers of the native functions.
pub fn eval_ast<F: Fn(u64, Vec<Value>) -> Result<Value, EvalError>>(
    expr: &Value,
    env: EnvId,
    store: &mut Store,
    natives: &F,
    budget: u64,
) -> (result: Result<Value, EvalError>)
    requires
        env < old(store)@.len(),
        forall|id: u64, args: Vec<Value>| call_requires(*natives, (id, args)),
    ensures
        old(store)@.len() <= final(store)@.len(),
        exists|tape: Seq<Reply>| #[trigger]
            answers(
                *natives,
                tape,
                crate::semantics::eval_ast(
                    budget as nat,
                    expr@,
                    env as nat,
                    World { store: old(store)@, calls: Seq::empty() },
                    tape,
                ),
                reply_of(result),
                final(store)@,
            ),
{
    let ghost start = Trace { calls: Seq::empty(), replies: Seq::empty() };
    let (result, Ghost(trace)) = ast(expr, env, store, natives, budget, Ghost(start));
    proof {
        let tape = trace.replies;
        assert(agrees(tape, trace.replies));
        assert(answers(
            *natives,
            tape,
            crate::semantics::eval_ast(
                budget as nat,
                expr@,
                env as nat,
                World { store: old(store)@, calls: Seq::empty() },
                tape,
            ),
            reply_of(result),
            store@,
        ));
    }
    result
}


/// Whether `tape` begins with `replies`.
spec fn agrees(tape: Seq<Reply>, replies: Seq<Reply>) -> bool {
    &&& replies.len() <= tape.len()
    &&& forall|i: int| 0 <= i < replies.len() ==> tape[i] == #[trigger] replies[i]
}

/// Whether `outcome`, which an evaluation has on the answers `tape`, is the
/// result `result` and the store `after`, and the native functions can have
/// given the answers: the evaluation makes as many calls as the tape is long,
/// and each answer is one that the native functions may give to its call.
pub open spec fn answers<F: Fn(u64, Vec<Value>) -> Result<Value, EvalError>>(
    natives: F,
    tape: Seq<Reply>,
    outcome: Outcome,
    result: Reply,
    after: StoreView,
) -> bool {
    &&& outcome.result == result
    &&& outcome.world.store == after
    &&& faithful(natives, outcome.world.calls, tape)
}

/// The native calls made so far, each with its answer.
ghost struct Trace {
    pub calls: Seq<NativeCall>,
    pub replies: Seq<Reply>,
}

/// A tape that begins with a later trace begins with every earlier one.
proof fn lemma_agrees_trans(tape: Seq<Reply>, later: Seq<Reply>, earlier: Seq<Reply>)
    requires
        agrees(tape, later),
        agrees(later, earlier),
    ensures
        agrees(tape, earlier),
{
    assert forall|i: int| 0 <= i < earlier.len() implies tape[i] == #[trigger] earlier[i] by {
        assert(later[i] == earlier[i]);
        assert(tape[i] == later[i]);
    }
}

/// What a turn of the loop leaves: a result, or an expression to go on with
/// and the environment for it.
enum Turn {
    Done(Result<Value, EvalError>),
    Continue(Value, EnvId),
}

/// The model of a turn in a world.
spec fn turn_of(turn: Turn, world: World) -> Step {
    match turn {
        Turn::Done(result) => done(reply_of(result), world),
        Turn::Continue(expr, env) => Step::Continue { expr: expr@, env: env as nat, world },
    }
}

/// What is left of an evaluation after a turn.
spec fn finish(budget: nat, turn: Step, tape: Seq<Reply>) -> Outcome {
    match turn {
        Step::Done(outcome) => outcome,
        Step::Continue { expr, env, world } => {
            if budget == 0 {
                Outcome { result: Err(ErrorView::BudgetExhausted), world }
            } else {
                eval((budget - 1) as nat, expr, env, world, tape)
            }
        },
    }
}

/// Tells the special forms from calls by the first element of a list.
fn classify(head: &Value) -> (form: Form)
    ensures
        form == form_of(head@),
{
    match head {
        Value::Sym(name) => {
            if *name == String::from_str("def!") {
                Form::Def
            } else if *name == String::from_str("let*") {
                Form::Let
            } else if *name == String::from_str("do") {
                Form::Do
            } else if *name == String::from_str("if") {
                Form::If
            } else if *name == String::from_str("fn*") {
                Form::Lambda
            } else {
                Form::Call
            }
        },
        _ => Form::Call,
    }
}

/// Evaluates what is neither a list, a vector nor a hash map.
fn atom(expr: &Value, env: EnvId, store: &Store) -> (result: Result<Value, EvalError>)
    requires
        env < store@.len(),
    ensures
        forall|calls: Seq<NativeCall>|
            #[trigger] eval_atom(expr@, env as nat, World { store: store@, calls }) == (Outcome {
                result: reply_of(result),
                world: World { store: store@, calls },
            }),
{
    match expr {
        Value::Sym(name) => store.get(env, name.as_str()),
        _ => Ok(expr.clone()),
    }
}

/// Calls `callee` with `args`: a native function at once, a closure by
/// handing back its body and a new environment with its parameters bound.
fn call<F: Fn(u64, Vec<Value>) -> Result<Value, EvalError>>(
    callee: Value,
    args: Vec<Value>,
    store: &mut Store,
    natives: &F,
    Ghost(trace): Ghost<Trace>,
) -> (out: (Turn, Ghost<Trace>))
    requires
        forall|id: u64, args: Vec<Value>| call_requires(*natives, (id, args)),
        faithful(*natives, trace.calls, trace.replies),
    ensures
        old(store)@.len() <= final(store)@.len(),
        out.0 matches Turn::Continue(_, env) ==> env < final(store)@.len(),
        faithful(*natives, out.1@.calls, out.1@.replies),
        agrees(out.1@.replies, trace.replies),
        forall|tape: Seq<Reply>| #[trigger]
            agrees(tape, out.1@.replies) ==> apply(
                callee@,
                views_of(args@),
                World { store: old(store)@, calls: trace.calls },
                tape,
            ) == turn_of(out.0, World { store: final(store)@, calls: out.1@.calls }),
{
    match callee {
        Value::Native(id) => {
            let ghost given = args;
            let result = natives(id, args);
            let ghost next = Trace {
                calls: trace.calls.push(NativeCall { id: id as nat, args: views_of(given@) }),
                replies: trace.replies.push(reply_of(result)),
            };
            proof {
                assert(call_ensures(*natives, (id, given), result));
                assert(native_allows(
                    *natives,
                    NativeCall { id: id as nat, args: views_of(given@) },
                    reply_of(result),
                ));
                assert forall|i: int| 0 <= i < next.replies.len() implies native_allows(
                    *natives,
                    #[trigger] next.calls[i],
                    next.replies[i],
                ) by {
                    if i < trace.replies.len() {
                        assert(next.calls[i] == trace.calls[i]);
                        assert(next.replies[i] == trace.replies[i]);
                    }
                }
                assert forall|tape: Seq<Reply>| #[trigger] agrees(tape, next.replies) implies apply(
                    callee@,
                    views_of(given@),
                    World { store: old(store)@, calls: trace.calls },
                    tape,
                ) == turn_of(Turn::Done(result), World { store: store@, calls: next.calls }) by {
                    assert(next.replies[trace.calls.len() as int] == reply_of(result));
                }
            }
            (Turn::Done(result), Ghost(next))
        },
        Value::Closure { params, body, env: captured } => {
            if !store.contains(captured) {
                (Turn::Done(Err(EvalError::NotCallable)), Ghost(trace))
            } else {
                let env = store.new_env(Some(captured));
                match store.bind(env, &*params, &args) {
                    Ok(()) => (Turn::Continue(*body, env), Ghost(trace)),
                    Err(error) => (Turn::Done(Err(error)), Ghost(trace)),
                }
            }
        },
        _ => (Turn::Done(Err(EvalError::NotCallable)), Ghost(trace)),
    }
}

/// What the evaluator needs of the native functions and of the trace so far.
spec fn ready<F: Fn(u64, Vec<Value>) -> Result<Value, EvalError>>(natives: F, trace: Trace) -> bool {
    &&& forall|id: u64, args: Vec<Value>| call_requires(natives, (id, args))
    &&& faithful(natives, trace.calls, trace.replies)
}

/// What the evaluator leaves of the trace: it is still faithful, and it
/// begins with what it was.
spec fn advanced<F: Fn(u64, Vec<Value>) -> Result<Value, EvalError>>(
    natives: F,
    before: Trace,
    after: Trace,
) -> bool {
    &&& faithful(natives, after.calls, after.replies)
    &&& agrees(after.replies, before.replies)
}

/// The model of the result of evaluating a row of expressions.
spec fn values_of(result: Result<Vec<Value>, EvalError>) -> Result<Seq<ValueView>, ErrorView> {
    match result {
        Ok(values) => Ok(views_of(values@)),
        Err(error) => Err(error@),
    }
}

/// The model of the result of evaluating a series of bindings.
spec fn error_of(result: Result<(), EvalError>) -> Option<ErrorView> {
    match result {
        Ok(_) => None,
        Err(error) => Some(error@),
    }
}

/// Builds the closure of a `fn*` form.
fn lambda(items: &Vec<Value>, env: EnvId) -> (turn: Turn)
    ensures
        turn is Done,
        forall|world: World| #[trigger]
            step_lambda(views_of(items@), env as nat, world) == turn_of(turn, world),
{
    if items.len() < 3 {
        Turn::Done(Err(EvalError::Malformed(Defect::MissingOperands)))
    } else {
        Turn::Done(
            Ok(
                Value::Closure {
                    params: Box::new(items[1].clone()),
                    body: Box::new(items[2].clone()),
                    env,
                },
            ),
        )
    }
}

/// The evaluation loop: turn after turn until one ends the evaluation or
/// the budget is used up.
fn run<F: Fn(u64, Vec<Value>) -> Result<Value, EvalError>>(
    expr: &Value,
    env: EnvId,
    store: &mut Store,
    natives: &F,
    budget: u64,
    Ghost(trace): Ghost<Trace>,
) -> (out: (Result<Value, EvalError>, Ghost<Trace>))
    requires
        env < old(store)@.len(),
        ready(*natives, trace),
    ensures
        old(store)@.len() <= final(store)@.len(),
        advanced(*natives, trace, out.1@),
        forall|tape: Seq<Reply>| #[trigger]
            agrees(tape, out.1@.replies) ==> eval(
                budget as nat,
                expr@,
                env as nat,
                World { store: old(store)@, calls: trace.calls },
                tape,
            ) == (Outcome {
                result: reply_of(out.0),
                world: World { store: final(store)@, calls: out.1@.calls },
            }),
    decreases budget, 1nat, 0nat,
{
    let ghost before = World { store: store@, calls: trace.calls };
    let (first, Ghost(started)) = advance(expr, env, store, natives, budget, Ghost(trace));
    let mut turn = first;
    let ghost mut now = started;
    let mut left = budget;
    loop
        invariant
            left <= budget,
            before == (World { store: old(store)@, calls: trace.calls }),
            before.store.len() <= store@.len(),
            turn matches Turn::Continue(_, next_env) ==> next_env < store@.len(),
            ready(*natives, now),
            agrees(now.replies, trace.replies),
            forall|tape: Seq<Reply>| #[trigger]
                agrees(tape, now.replies) ==> eval(budget as nat, expr@, env as nat, before, tape)
                    == finish(
                    left as nat,
                    turn_of(turn, World { store: store@, calls: now.calls }),
                    tape,
                ),
        decreases left,
    {
        match turn {
            Turn::Done(result) => {
                return (result, Ghost(now));
            },
            Turn::Continue(next, next_env) => {
                if left == 0 {
                    return (Err(EvalError::BudgetExhausted), Ghost(now));
                }
                let ghost prev = now;
                let ghost mid = World { store: store@, calls: now.calls };
                left = left - 1;
                let (after, Ghost(later)) = advance(
                    &next,
                    next_env,
                    store,
                    natives,
                    left,
                    Ghost(now),
                );
                proof {
                    now = later;
                    lemma_agrees_trans(now.replies, prev.replies, trace.replies);
                    assert forall|tape: Seq<Reply>| #[trigger] agrees(tape, now.replies) implies eval(
                        budget as nat,
                        expr@,
                        env as nat,
                        before,
                        tape,
                    ) == finish(
                        left as nat,
                        turn_of(after, World { store: store@, calls: now.calls }),
                        tape,
                    ) by {
                        lemma_agrees_trans(tape, later.replies, prev.replies);
                    }
                }
                turn = after;
            },
        }
    }
}

/// One turn of the loop on `expr`.
fn advance<F: Fn(u64, Vec<Value>) -> Result<Value, EvalError>>(
    expr: &Value,
    env: EnvId,
    store: &mut Store,
    natives: &F,
    budget: u64,
    Ghost(trace): Ghost<Trace>,
) -> (out: (Turn, Ghost<Trace>))
    requires
        env < old(store)@.len(),
        ready(*natives, trace),
    ensures
        old(store)@.len() <= final(store)@.len(),
        out.0 matches Turn::Continue(_, next_env) ==> next_env < final(store)@.len(),
        advanced(*natives, trace, out.1@),
        forall|tape: Seq<Reply>| #[trigger]
            agrees(tape, out.1@.replies) ==> step(
                budget as nat,
                expr@,
                env as nat,
                World { store: old(store)@, calls: trace.calls },
                tape,
            ) == turn_of(out.0, World { store: final(store)@, calls: out.1@.calls }),
    decreases budget, 0nat, 0nat,
{
    proof {
        expr.lemma_model_of_children();
    }
    match expr {
        Value::List(items) => {
            if items.len() == 0 {
                (Turn::Done(Ok(expr.clone())), Ghost(trace))
            } else if budget == 0 {
                (Turn::Done(Err(EvalError::BudgetExhausted)), Ghost(trace))
            } else {
                let rest = budget - 1;
                match classify(&items[0]) {
                    Form::Def => advance_def(items, env, store, natives, rest, Ghost(trace)),
                    Form::Let => advance_let(items, env, store, natives, rest, Ghost(trace)),
                    Form::Do => advance_do(items, env, store, natives, rest, Ghost(trace)),
                    Form::If => advance_if(items, env, store, natives, rest, Ghost(trace)),
                    Form::Lambda => (lambda(items, env), Ghost(trace)),
                    Form::Call => advance_call(items, env, store, natives, rest, Ghost(trace)),
                }
            }
        },
        Value::Vector(_) | Value::HashMap(_) => {
            if budget == 0 {
                (Turn::Done(Err(EvalError::BudgetExhausted)), Ghost(trace))
            } else {
                let (result, Ghost(later)) = ast(
                    expr,
                    env,
                    store,
                    natives,
                    budget - 1,
                    Ghost(trace),
                );
                (Turn::Done(result), Ghost(later))
            }
        },
        _ => (Turn::Done(atom(expr, env, store)), Ghost(trace)),
    }
}

/// Evaluates `expr` without regard to special forms.
fn ast<F: Fn(u64, Vec<Value>) -> Result<Value, EvalError>>(
    expr: &Value,
    env: EnvId,
    store: &mut Store,
    natives: &F,
    budget: u64,
    Ghost(trace): Ghost<Trace>,
) -> (out: (Result<Value, EvalError>, Ghost<Trace>))
    requires
        env < old(store)@.len(),
        ready(*natives, trace),
    ensures
        old(store)@.len() <= final(store)@.len(),
        advanced(*natives, trace, out.1@),
        forall|tape: Seq<Reply>| #[trigger]
            agrees(tape, out.1@.replies) ==> crate::semantics::eval_ast(
                budget as nat,
                expr@,
                env as nat,
                World { store: old(store)@, calls: trace.calls },
                tape,
            ) == (Outcome {
                result: reply_of(out.0),
                world: World { store: final(store)@, calls: out.1@.calls },
            }),
    decreases budget, 3nat, 0nat,
{
    proof {
        expr.lemma_model_of_children();
    }
    match expr {
        Value::List(items) => {
            assert(views_of(items@).subrange(0, items.len() as int) =~= views_of(items@));
            let (result, Ghost(later)) = eval_items(
                items,
                0,
                items.len(),
                env,
                store,
                natives,
                budget,
                Ghost(trace),
            );
            match result {
                Ok(values) => (Ok(Value::list(values)), Ghost(later)),
                Err(error) => (Err(error), Ghost(later)),
            }
        },
        Value::Vector(items) => {
            assert(views_of(items@).subrange(0, items.len() as int) =~= views_of(items@));
            let (result, Ghost(later)) = eval_items(
                items,
                0,
                items.len(),
                env,
                store,
                natives,
                budget,
                Ghost(trace),
            );
            match result {
                Ok(values) => (Ok(Value::vector(values)), Ghost(later)),
                Err(error) => (Err(error), Ghost(later)),
            }
        },
        Value::HashMap(entries) => {
            let mut exprs: Vec<Value> = Vec::new();
            let mut i: usize = 0;
            while i < entries.len()
                invariant
                    i <= entries.len(),
                    exprs.len() == i,
                    forall|j: int| 0 <= j < i ==> exprs[j]@ == entries[j].1@,
                decreases entries.len() - i,
            {
                exprs.push(entries[i].1.clone());
                i += 1;
            }
            assert(views_of(exprs@).subrange(0, exprs.len() as int) =~= entry_values(
                entry_views_of(entries@),
            ));
            let (result, Ghost(later)) = eval_items(
                &exprs,
                0,
                exprs.len(),
                env,
                store,
                natives,
                budget,
                Ghost(trace),
            );
            match result {
                Ok(values) => {
                    let mut evaluated: Vec<(String, Value)> = Vec::new();
                    let mut i: usize = 0;
                    while i < entries.len()
                        invariant
                            i <= entries.len(),
                            values.len() == entries.len(),
                            evaluated.len() == i,
                            forall|j: int|
                                #![trigger evaluated[j]]
                                0 <= j < i ==> evaluated[j].0@ == entries[j].0@ && evaluated[j].1@
                                    == values[j]@,
                        decreases entries.len() - i,
                    {
                        evaluated.push((entries[i].0.clone(), values[i].clone()));
                        i += 1;
                    }
                    let value = Value::HashMap(evaluated);
                    proof {
                        value.lemma_model_of_children();
                        assert(entry_views_of(evaluated@) =~= with_values(
                            entry_views_of(entries@),
                            views_of(values@),
                        ));
                    }
                    (Ok(value), Ghost(later))
                },
                Err(error) => (Err(error), Ghost(later)),
            }
        },
        _ => (atom(expr, env, store), Ghost(trace)),
    }
}

/// Evaluates `items[from..to]` from left to right.
fn eval_items<F: Fn(u64, Vec<Value>) -> Result<Value, EvalError>>(
    items: &Vec<Value>,
    from: usize,
    to: usize,
    env: EnvId,
    store: &mut Store,
    natives: &F,
    budget: u64,
    Ghost(trace): Ghost<Trace>,
) -> (out: (Result<Vec<Value>, EvalError>, Ghost<Trace>))
    requires
        from <= to <= items.len(),
        env < old(store)@.len(),
        ready(*natives, trace),
    ensures
        old(store)@.len() <= final(store)@.len(),
        advanced(*natives, trace, out.1@),
        out.0 matches Ok(values) ==> values.len() == to - from,
        forall|tape: Seq<Reply>| #[trigger]
            agrees(tape, out.1@.replies) ==> eval_each(
                budget as nat,
                views_of(items@).subrange(from as int, to as int),
                (to - from) as nat,
                env as nat,
                World { store: old(store)@, calls: trace.calls },
                tape,
            ) == (Outcomes {
                result: values_of(out.0),
                world: World { store: final(store)@, calls: out.1@.calls },
            }),
    decreases budget, 2nat, 0nat,
{
    let ghost exprs = views_of(items@).subrange(from as int, to as int);
    let ghost before = World { store: store@, calls: trace.calls };
    let ghost mut now = trace;
    let mut values: Vec<Value> = Vec::new();
    let mut i: usize = from;
    assert(views_of(values@) =~= Seq::<ValueView>::empty());
    while i < to
        invariant
            from <= i <= to <= items.len(),
            values.len() == i - from,
            env < store@.len(),
            before == (World { store: old(store)@, calls: trace.calls }),
            before.store.len() <= store@.len(),
            exprs == views_of(items@).subrange(from as int, to as int),
            ready(*natives, now),
            agrees(now.replies, trace.replies),
            forall|tape: Seq<Reply>| #[trigger]
                agrees(tape, now.replies) ==> eval_each(
                    budget as nat,
                    exprs,
                    (i - from) as nat,
                    env as nat,
                    before,
                    tape,
                ) == (Outcomes {
                    result: Ok(views_of(values@)),
                    world: World { store: store@, calls: now.calls },
                }),
        decreases to - i,
    {
        let ghost prev = now;
        let ghost so_far = views_of(values@);
        let (result, Ghost(later)) = run(&items[i], env, store, natives, budget, Ghost(now));
        proof {
            now = later;
            lemma_agrees_trans(later.replies, prev.replies, trace.replies);
            assert(exprs[i - from] == items[i as int]@);
        }
        match result {
            Ok(value) => {
                values.push(value);
                proof {
                    assert(views_of(values@) =~= so_far.push(value@));
                    assert forall|tape: Seq<Reply>| #[trigger]
                        agrees(tape, now.replies) implies eval_each(
                        budget as nat,
                        exprs,
                        (i + 1 - from) as nat,
                        env as nat,
                        before,
                        tape,
                    ) == (Outcomes {
                        result: Ok(views_of(values@)),
                        world: World { store: store@, calls: now.calls },
                    }) by {
                        lemma_agrees_trans(tape, later.replies, prev.replies);
                    }
                }
            },
            Err(error) => {
                proof {
                    assert forall|tape: Seq<Reply>| #[trigger]
                        agrees(tape, now.replies) implies eval_each(
                        budget as nat,
                        exprs,
                        (to - from) as nat,
                        env as nat,
                        before,
                        tape,
                    ) == (Outcomes {
                        result: Err(error@),
                        world: World { store: store@, calls: now.calls },
                    }) by {
                        lemma_agrees_trans(tape, later.replies, prev.replies);
                        lemma_each_stays_failed(
                            budget as nat,
                            exprs,
                            (i + 1 - from) as nat,
                            (to - from) as nat,
                            env as nat,
                            before,
                            tape,
                        );
                    }
                }
                return (Err(error), Ghost(now));
            },
        }
        i += 1;
    }
    (Ok(values), Ghost(now))
}

/// Once an expression of a row has failed, the row has.
proof fn lemma_each_stays_failed(
    budget: nat,
    exprs: Seq<ValueView>,
    failed: nat,
    count: nat,
    env: nat,
    world: World,
    tape: Seq<Reply>,
)
    requires
        failed <= count,
        eval_each(budget, exprs, failed, env, world, tape).result is Err,
    ensures
        eval_each(budget, exprs, count, env, world, tape) == eval_each(
            budget,
            exprs,
            failed,
            env,
            world,
            tape,
        ),
    decreases count,
{
    if failed < count {
        lemma_each_stays_failed(budget, exprs, failed, (count - 1) as nat, env, world, tape);
    }
}

/// Once a binding of a series has failed, the series has.
proof fn lemma_bindings_stay_failed(
    budget: nat,
    bindings: Seq<ValueView>,
    failed: nat,
    count: nat,
    env: nat,
    world: World,
    tape: Seq<Reply>,
)
    requires
        failed <= count,
        eval_bindings(budget, bindings, failed, env, world, tape).error is Some,
    ensures
        eval_bindings(budget, bindings, count, env, world, tape) == eval_bindings(
            budget,
            bindings,
            failed,
            env,
            world,
            tape,
        ),
    decreases count,
{
    if failed < count {
        lemma_bindings_stay_failed(budget, bindings, failed, (count - 1) as nat, env, world, tape);
    }
}

/// Evaluates the bindings of a `let*`, pair by pair, and binds them in `env`.
fn eval_pairs<F: Fn(u64, Vec<Value>) -> Result<Value, EvalError>>(
    bindings: &Vec<Value>,
    env: EnvId,
    store: &mut Store,
    natives: &F,
    budget: u64,
    Ghost(trace): Ghost<Trace>,
) -> (out: (Result<(), EvalError>, Ghost<Trace>))
    requires
        bindings.len() % 2 == 0,
        env < old(store)@.len(),
        ready(*natives, trace),
    ensures
        old(store)@.len() <= final(store)@.len(),
        advanced(*natives, trace, out.1@),
        forall|tape: Seq<Reply>| #[trigger]
            agrees(tape, out.1@.replies) ==> eval_bindings(
                budget as nat,
                views_of(bindings@),
                (bindings.len() / 2) as nat,
                env as nat,
                World { store: old(store)@, calls: trace.calls },
                tape,
            ) == (Progress {
                error: error_of(out.0),
                world: World { store: final(store)@, calls: out.1@.calls },
            }),
    decreases budget, 2nat, 0nat,
{
    let ghost shapes = views_of(bindings@);
    let ghost before = World { store: store@, calls: trace.calls };
    let ghost mut now = trace;
    let pairs = bindings.len() / 2;
    let mut k: usize = 0;
    while k < pairs
        invariant
            k <= pairs,
            pairs == bindings.len() / 2,
            bindings.len() % 2 == 0,
            env < store@.len(),
            before == (World { store: old(store)@, calls: trace.calls }),
            before.store.len() <= store@.len(),
            shapes == views_of(bindings@),
            ready(*natives, now),
            agrees(now.replies, trace.replies),
            forall|tape: Seq<Reply>| #[trigger]
                agrees(tape, now.replies) ==> eval_bindings(
                    budget as nat,
                    shapes,
                    k as nat,
                    env as nat,
                    before,
                    tape,
                ) == (Progress { error: None, world: World { store: store@, calls: now.calls } }),
        decreases pairs - k,
    {
        let ghost prev = now;
        let ghost mid = World { store: store@, calls: now.calls };
        assert(shapes[2 * k] == bindings[2 * k]@);
        assert(shapes[2 * k + 1] == bindings[2 * k + 1]@);
        match &bindings[2 * k] {
            Value::Sym(name) => {
                let (result, Ghost(later)) = run(
                    &bindings[2 * k + 1],
                    env,
                    store,
                    natives,
                    budget,
                    Ghost(now),
                );
                proof {
                    now = later;
                    lemma_agrees_trans(later.replies, prev.replies, trace.replies);
                }
                match result {
                    Ok(value) => {
                        store.set(env, name.as_str(), value);
                        proof {
                            assert forall|tape: Seq<Reply>| #[trigger]
                                agrees(tape, now.replies) implies eval_bindings(
                                budget as nat,
                                shapes,
                                (k + 1) as nat,
                                env as nat,
                                before,
                                tape,
                            ) == (Progress {
                                error: None,
                                world: World { store: store@, calls: now.calls },
                            }) by {
                                lemma_agrees_trans(tape, later.replies, prev.replies);
                            }
                        }
                    },
                    Err(error) => {
                        proof {
                            assert forall|tape: Seq<Reply>| #[trigger]
                                agrees(tape, now.replies) implies eval_bindings(
                                budget as nat,
                                shapes,
                                pairs as nat,
                                env as nat,
                                before,
                                tape,
                            ) == (Progress {
                                error: Some(error@),
                                world: World { store: store@, calls: now.calls },
                            }) by {
                                lemma_agrees_trans(tape, later.replies, prev.replies);
                                lemma_bindings_stay_failed(
                                    budget as nat,
                                    shapes,
                                    (k + 1) as nat,
                                    pairs as nat,
                                    env as nat,
                                    before,
                                    tape,
                                );
                            }
                        }
                        return (Err(error), Ghost(now));
                    },
                }
            },
            _ => {
                proof {
                    assert forall|tape: Seq<Reply>| #[trigger]
                        agrees(tape, now.replies) implies eval_bindings(
                        budget as nat,
                        shapes,
                        pairs as nat,
                        env as nat,
                        before,
                        tape,
                    ) == (Progress {
                        error: Some(ErrorView::Malformed(Defect::LetTargetNotSymbol)),
                        world: World { store: store@, calls: now.calls },
                    }) by {
                        lemma_bindings_stay_failed(
                            budget as nat,
                            shapes,
                            (k + 1) as nat,
                            pairs as nat,
                            env as nat,
                            before,
                            tape,
                        );
                    }
                }
                return (Err(EvalError::Malformed(Defect::LetTargetNotSymbol)), Ghost(now));
            },
        }
        k += 1;
    }
    (Ok(()), Ghost(now))
}

/// The turn of a `def!` form.
fn advance_def<F: Fn(u64, Vec<Value>) -> Result<Value, EvalError>>(
    items: &Vec<Value>,
    env: EnvId,
    store: &mut Store,
    natives: &F,
    budget: u64,
    Ghost(trace): Ghost<Trace>,
) -> (out: (Turn, Ghost<Trace>))
    requires
        env < old(store)@.len(),
        ready(*natives, trace),
    ensures
        old(store)@.len() <= final(store)@.len(),
        out.0 matches Turn::Continue(_, next_env) ==> next_env < final(store)@.len(),
        advanced(*natives, trace, out.1@),
        forall|tape: Seq<Reply>| #[trigger]
            agrees(tape, out.1@.replies) ==> step_def(
                budget as nat,
                views_of(items@),
                env as nat,
                World { store: old(store)@, calls: trace.calls },
                tape,
            ) == turn_of(out.0, World { store: final(store)@, calls: out.1@.calls }),
    decreases budget, 3nat, 0nat,
{
    if items.len() < 3 {
        return (Turn::Done(Err(EvalError::Malformed(Defect::MissingOperands))), Ghost(trace));
    }
    let (result, Ghost(later)) = run(&items[2], env, store, natives, budget, Ghost(trace));
    match result {
        Ok(value) => {
            match &items[1] {
                Value::Sym(name) => {
                    store.set(env, name.as_str(), value.clone());
                    (Turn::Done(Ok(value)), Ghost(later))
                },
                _ => (
                    Turn::Done(Err(EvalError::Malformed(Defect::DefTargetNotSymbol))),
                    Ghost(later),
                ),
            }
        },
        Err(error) => (Turn::Done(Err(error)), Ghost(later)),
    }
}

/// The turn of a `let*` form.
fn advance_let<F: Fn(u64, Vec<Value>) -> Result<Value, EvalError>>(
    items: &Vec<Value>,
    env: EnvId,
    store: &mut Store,
    natives: &F,
    budget: u64,
    Ghost(trace): Ghost<Trace>,
) -> (out: (Turn, Ghost<Trace>))
    requires
        env < old(store)@.len(),
        ready(*natives, trace),
    ensures
        old(store)@.len() <= final(store)@.len(),
        out.0 matches Turn::Continue(_, next_env) ==> next_env < final(store)@.len(),
        advanced(*natives, trace, out.1@),
        forall|tape: Seq<Reply>| #[trigger]
            agrees(tape, out.1@.replies) ==> step_let(
                budget as nat,
                views_of(items@),
                env as nat,
                World { store: old(store)@, calls: trace.calls },
                tape,
            ) == turn_of(out.0, World { store: final(store)@, calls: out.1@.calls }),
    decreases budget, 3nat, 0nat,
{
    if items.len() < 3 {
        return (Turn::Done(Err(EvalError::Malformed(Defect::MissingOperands))), Ghost(trace));
    }
    proof {
        items[1].lemma_model_of_children();
    }
    let bindings: &Vec<Value> = match &items[1] {
        Value::List(bindings) => bindings,
        Value::Vector(bindings) => bindings,
        _ => {
            return (
                Turn::Done(Err(EvalError::Malformed(Defect::LetBindingsNotSequence))),
                Ghost(trace),
            );
        },
    };
    assert(views_of(items@)[1].elements() == views_of(bindings@));
    if bindings.len() % 2 != 0 {
        return (
            Turn::Done(Err(EvalError::Malformed(Defect::LetBindingsUnpaired))),
            Ghost(trace),
        );
    }
    let inner = store.new_env(Some(env));
    let (result, Ghost(later)) = eval_pairs(bindings, inner, store, natives, budget, Ghost(trace));
    match result {
        Ok(()) => (Turn::Continue(items[2].clone(), inner), Ghost(later)),
        Err(error) => (Turn::Done(Err(error)), Ghost(later)),
    }
}

/// The turn of a `do` form.
fn advance_do<F: Fn(u64, Vec<Value>) -> Result<Value, EvalError>>(
    items: &Vec<Value>,
    env: EnvId,
    store: &mut Store,
    natives: &F,
    budget: u64,
    Ghost(trace): Ghost<Trace>,
) -> (out: (Turn, Ghost<Trace>))
    requires
        items.len() > 0,
        env < old(store)@.len(),
        ready(*natives, trace),
    ensures
        old(store)@.len() <= final(store)@.len(),
        out.0 matches Turn::Continue(_, next_env) ==> next_env < final(store)@.len(),
        advanced(*natives, trace, out.1@),
        forall|tape: Seq<Reply>| #[trigger]
            agrees(tape, out.1@.replies) ==> step_do(
                budget as nat,
                views_of(items@),
                env as nat,
                World { store: old(store)@, calls: trace.calls },
                tape,
            ) == turn_of(out.0, World { store: final(store)@, calls: out.1@.calls }),
    decreases budget, 3nat, 0nat,
{
    let count = items.len();
    let from: usize = if count >= 2 {
        1
    } else {
        0
    };
    let to: usize = if count >= 2 {
        count - 1
    } else {
        0
    };
    assert(do_leading(views_of(items@)) =~= views_of(items@).subrange(from as int, to as int));
    let (result, Ghost(later)) = eval_items(
        items,
        from,
        to,
        env,
        store,
        natives,
        budget,
        Ghost(trace),
    );
    match result {
        Ok(_) => (Turn::Continue(items[count - 1].clone(), env), Ghost(later)),
        Err(error) => (Turn::Done(Err(error)), Ghost(later)),
    }
}

/// The turn of an `if` form.
fn advance_if<F: Fn(u64, Vec<Value>) -> Result<Value, EvalError>>(
    items: &Vec<Value>,
    env: EnvId,
    store: &mut Store,
    natives: &F,
    budget: u64,
    Ghost(trace): Ghost<Trace>,
) -> (out: (Turn, Ghost<Trace>))
    requires
        env < old(store)@.len(),
        ready(*natives, trace),
    ensures
        old(store)@.len() <= final(store)@.len(),
        out.0 matches Turn::Continue(_, next_env) ==> next_env < final(store)@.len(),
        advanced(*natives, trace, out.1@),
        forall|tape: Seq<Reply>| #[trigger]
            agrees(tape, out.1@.replies) ==> step_if(
                budget as nat,
                views_of(items@),
                env as nat,
                World { store: old(store)@, calls: trace.calls },
                tape,
            ) == turn_of(out.0, World { store: final(store)@, calls: out.1@.calls }),
    decreases budget, 3nat, 0nat,
{
    if items.len() < 3 {
        return (Turn::Done(Err(EvalError::Malformed(Defect::MissingOperands))), Ghost(trace));
    }
    let (result, Ghost(later)) = run(&items[1], env, store, natives, budget, Ghost(trace));
    match result {
        Ok(value) => {
            if value.is_truthy() {
                (Turn::Continue(items[2].clone(), env), Ghost(later))
            } else if items.len() >= 4 {
                (Turn::Continue(items[3].clone(), env), Ghost(later))
            } else {
                (Turn::Done(Ok(Value::Nil)), Ghost(later))
            }
        },
        Err(error) => (Turn::Done(Err(error)), Ghost(later)),
    }
}

/// The turn of a call.
fn advance_call<F: Fn(u64, Vec<Value>) -> Result<Value, EvalError>>(
    items: &Vec<Value>,
    env: EnvId,
    store: &mut Store,
    natives: &F,
    budget: u64,
    Ghost(trace): Ghost<Trace>,
) -> (out: (Turn, Ghost<Trace>))
    requires
        items.len() > 0,
        env < old(store)@.len(),
        ready(*natives, trace),
    ensures
        old(store)@.len() <= final(store)@.len(),
        out.0 matches Turn::Continue(_, next_env) ==> next_env < final(store)@.len(),
        advanced(*natives, trace, out.1@),
        forall|tape: Seq<Reply>| #[trigger]
            agrees(tape, out.1@.replies) ==> step_call(
                budget as nat,
                views_of(items@),
                env as nat,
                World { store: old(store)@, calls: trace.calls },
                tape,
            ) == turn_of(out.0, World { store: final(store)@, calls: out.1@.calls }),
    decreases budget, 3nat, 0nat,
{
    assert(views_of(items@).subrange(0, items.len() as int) =~= views_of(items@));
    let (result, Ghost(later)) = eval_items(
        items,
        0,
        items.len(),
        env,
        store,
        natives,
        budget,
        Ghost(trace),
    );
    match result {
        Ok(values) => {
            let mut args = values;
            let ghost all = views_of(args@);
            let callee = args.remove(0);
            assert(views_of(args@) =~= all.skip(1));
            assert(callee@ == all[0]);
            let ghost mid = store@;
            let (turn, Ghost(last)) = call(callee, args, store, natives, Ghost(later));
            proof {
                lemma_agrees_trans(last.replies, later.replies, trace.replies);
                assert forall|tape: Seq<Reply>| #[trigger] agrees(tape, last.replies) implies step_call(
                    budget as nat,
                    views_of(items@),
                    env as nat,
                    World { store: old(store)@, calls: trace.calls },
                    tape,
                ) == turn_of(turn, World { store: store@, calls: last.calls }) by {
                    lemma_agrees_trans(tape, last.replies, later.replies);
                }
            }
            (turn, Ghost(last))
        },
        Err(error) => (Turn::Done(Err(error)), Ghost(later)),
    }
}


} // verus!
