//! Environments: scopes that map names to values, chained by parent links and
//! held together in one store, so that a closure can name the scope it was
//! created in for as long as the store lives.

use vstd::prelude::*;
use crate::error::{reply_of, Defect, ErrorView, EvalError, Reply};
use crate::value::{views_of, Value, ValueView};

verus! {

/// An environment of a [`Store`], by its position in it.
pub type EnvId = usize;

/// The model of one scope: its parent, if it has one, and its own bindings.
pub ghost struct ScopeView {
    pub parent: Option<nat>,
    pub bindings: Map<Seq<char>, ValueView>,
}

/// The model of a store: its scopes, in the order of their creation.
pub type StoreView = Seq<ScopeView>;

/// What `name` is bound to when looked up from `env`: the binding of the
/// nearest scope on the way to the root that has one.
pub open spec fn lookup(store: StoreView, env: nat, name: Seq<char>) -> Option<ValueView>
    decreases env,
{
    if env >= store.len() {
        None
    } else if store[env as int].bindings.dom().contains(name) {
        Some(store[env as int].bindings[name])
    } else {
        match store[env as int].parent {
            Some(parent) => if parent < env {
                lookup(store, parent, name)
            } else {
                None
            },
            None => None,
        }
    }
}

/// The store after `name` is bound to `value` in the scope `env` itself.
pub open spec fn with_binding(
    store: StoreView,
    env: nat,
    name: Seq<char>,
    value: ValueView,
) -> StoreView
    recommends
        env < store.len(),
{
    store.update(
        env as int,
        ScopeView {
            parent: store[env as int].parent,
            bindings: store[env as int].bindings.insert(name, value),
        },
    )
}

/// The store after a new, empty scope below `parent` is added.
pub open spec fn with_scope(store: StoreView, parent: Option<nat>) -> StoreView {
    store.push(ScopeView { parent, bindings: Map::empty() })
}

/// The outcome of looking `name` up from `env`: its value, or the error that names it.
pub open spec fn resolve(store: StoreView, env: nat, name: Seq<char>) -> Reply {
    match lookup(store, env, name) {
        Some(value) => Ok(value),
        None => Err(ErrorView::UndefinedSymbol(name)),
    }
}

/// The store after the first `count` of `pairs` are bound in `env`, one after
/// the other: where a name occurs twice, the later pair wins.
pub open spec fn with_bindings(
    store: StoreView,
    env: nat,
    pairs: Seq<(Seq<char>, ValueView)>,
    count: nat,
) -> StoreView
    recommends
        env < store.len(),
        count <= pairs.len(),
    decreases count,
{
    if count == 0 {
        store
    } else {
        let last = pairs[count - 1];
        with_binding(with_bindings(store, env, pairs, (count - 1) as nat), env, last.0, last.1)
    }
}

/// The name of the symbol that marks the parameter that takes all remaining arguments.
pub open spec fn variadic_marker() -> Seq<char> {
    "&"@
}

/// Whether every one of `params` is a symbol.
pub open spec fn all_symbols(params: Seq<ValueView>) -> bool {
    forall|i: int| 0 <= i < params.len() ==> (#[trigger] params[i]) is Sym
}

/// The position of the first marker among the first `count` of `params`, or
/// `count` if there is none among them.
pub open spec fn first_marker(params: Seq<ValueView>, count: nat) -> nat
    recommends
        count <= params.len(),
    decreases count,
{
    if count == 0 {
        0
    } else {
        let before = first_marker(params, (count - 1) as nat);
        if before < count - 1 {
            before
        } else if params[count - 1] == ValueView::Sym(variadic_marker()) {
            (count - 1) as nat
        } else {
            count
        }
    }
}

/// The bindings that a call makes: each parameter before the marker with the
/// argument at its position and, where there is a marker, the one parameter
/// behind it with the list of the arguments that are left.
///
/// It is an error if the parameters are not a list or a vector of symbols, if
/// the marker is not followed by exactly one symbol, or if the number of
/// arguments does not fit: as many as parameters without a marker, at least as
/// many as parameters before the marker with one.
pub open spec fn bind_plan(params: ValueView, args: Seq<ValueView>) -> Result<
    Seq<(Seq<char>, ValueView)>,
    ErrorView,
> {
    let names = params.elements();
    let fixed = first_marker(names, names.len());
    if !params.is_sequence() {
        Err(ErrorView::Malformed(Defect::ParamsNotSequence))
    } else if !all_symbols(names) {
        Err(ErrorView::Malformed(Defect::ParamNotSymbol))
    } else if fixed == names.len() {
        if args.len() != names.len() {
            Err(ErrorView::ArityMismatch)
        } else {
            Ok(Seq::new(names.len(), |i: int| (names[i]->Sym_0, args[i])))
        }
    } else if fixed + 2 != names.len() {
        Err(ErrorView::Malformed(Defect::VariadicMarkerMisplaced))
    } else if args.len() < fixed {
        Err(ErrorView::ArityMismatch)
    } else {
        Ok(
            Seq::new(
                fixed + 1,
                |i: int|
                    if i < fixed {
                        (names[i]->Sym_0, args[i])
                    } else {
                        (names[fixed as int + 1]->Sym_0, ValueView::List(args.skip(fixed as int)))
                    },
            ),
        )
    }
}

/// Binding in `env` leaves every other scope as it is, and `env` its parent.
pub proof fn lemma_with_bindings_frame(
    store: StoreView,
    env: nat,
    pairs: Seq<(Seq<char>, ValueView)>,
    count: nat,
)
    requires
        env < store.len(),
    ensures
        with_bindings(store, env, pairs, count).len() == store.len(),
        with_bindings(store, env, pairs, count)[env as int].parent == store[env as int].parent,
        forall|other: int|
            0 <= other < store.len() && other != env ==> #[trigger] with_bindings(
                store,
                env,
                pairs,
                count,
            )[other] == store[other],
    decreases count,
{
    if count > 0 {
        lemma_with_bindings_frame(store, env, pairs, (count - 1) as nat);
    }
}

struct Scope {
    parent: Option<usize>,
    names: Vec<String>,
    values: Vec<Value>,
}

impl Scope {
    spec fn wf(self) -> bool {
        &&& self.names.len() == self.values.len()
        &&& forall|i: int, j: int|
            0 <= i < j < self.names.len() ==> self.names[i]@ != self.names[j]@
    }

    spec fn has(self, name: Seq<char>) -> bool {
        exists|i: int| 0 <= i < self.names.len() && self.names[i]@ == name
    }

    spec fn index_of(self, name: Seq<char>) -> int {
        choose|i: int| 0 <= i < self.names.len() && self.names[i]@ == name
    }

    spec fn model(self) -> ScopeView {
        ScopeView {
            parent: match self.parent {
                Some(p) => Some(p as nat),
                None => None,
            },
            bindings: Map::new(
                |name: Seq<char>| self.has(name),
                |name: Seq<char>| self.values[self.index_of(name)]@,
            ),
        }
    }

    fn find(&self, name: &String) -> (r: Option<usize>)
        requires
            self.wf(),
        ensures
            match r {
                Some(i) => i < self.names.len() && self.names[i as int]@ == name@
                    && self.index_of(name@) == i,
                None => !self.has(name@),
            },
    {
        let mut i: usize = 0;
        while i < self.names.len()
            invariant
                i <= self.names.len(),
                self.wf(),
                forall|j: int| 0 <= j < i ==> self.names[j]@ != name@,
            decreases self.names.len() - i,
        {
            if self.names[i] == *name {
                return Some(i);
            }
            i += 1;
        }
        None
    }

    fn set(&mut self, name: String, value: Value)
        requires
            old(self).wf(),
        ensures
            final(self).wf(),
            final(self).model() == (ScopeView {
                parent: old(self).model().parent,
                bindings: old(self).model().bindings.insert(name@, value@),
            }),
    {
        let ghost before = *self;
        match self.find(&name) {
            Some(i) => {
                self.values.set(i, value);
                proof {
                    assert forall|k: Seq<char>| self.has(k) == before.has(k) by {
                        if before.has(k) {
                            assert(self.names[before.index_of(k)]@ == k);
                        }
                        if self.has(k) {
                            assert(before.names[self.index_of(k)]@ == k);
                        }
                    }
                    assert forall|k: Seq<char>| #[trigger] self.has(k) implies self.index_of(k)
                        == before.index_of(k) by {
                        assert(before.has(k));
                    }
                    assert(self.model().bindings =~= before.model().bindings.insert(
                        name@,
                        value@,
                    ));
                }
            },
            None => {
                self.names.push(name);
                self.values.push(value);
                proof {
                    let n = before.names.len() as int;
                    assert(self.names[n]@ == name@);
                    assert forall|k: Seq<char>| self.has(k) == (before.has(k) || k == name@) by {
                        if before.has(k) {
                            assert(self.names[before.index_of(k)]@ == k);
                        }
                        if self.has(k) {
                            let i = self.index_of(k);
                            if i < n {
                                assert(before.names[i]@ == k);
                            }
                        }
                    }
                    assert forall|k: Seq<char>| #[trigger] before.has(k) implies self.index_of(k)
                        == before.index_of(k) by {
                        assert(self.has(k));
                    }
                    assert(self.has(name@));
                    assert(self.index_of(name@) == n);
                    assert(self.model().bindings =~= before.model().bindings.insert(
                        name@,
                        value@,
                    ));
                }
            },
        }
    }
}

/// The environments of one interpreter, each with its bindings and its parent.
///
/// A scope is never removed and its parent never changes, so an [`EnvId`]
/// that a closure holds stays meaningful.
pub struct Store {
    scopes: Vec<Scope>,
}

impl View for Store {
    type V = StoreView;

    closed spec fn view(&self) -> StoreView {
        Seq::new(self.scopes.len() as nat, |i: int| self.scopes[i].model())
    }
}

impl Store {
    #[verifier::type_invariant]
    spec fn inv(self) -> bool {
        forall|i: int|
            0 <= i < self.scopes.len() ==> {
                &&& (#[trigger] self.scopes[i]).wf()
                &&& self.scopes[i].parent matches Some(p) ==> p < i
            }
    }

    /// A store without environments.
    pub fn new() -> (store: Store)
        ensures
            store@ == Seq::<ScopeView>::empty(),
    {
        let store = Store { scopes: Vec::new() };
        assert(store@ =~= Seq::<ScopeView>::empty());
        store
    }

    /// The number of environments.
    pub fn len(&self) -> (n: usize)
        ensures
            n == self@.len(),
    {
        self.scopes.len()
    }

    /// Whether `env` is an environment of this store.
    pub fn contains(&self, env: EnvId) -> (r: bool)
        ensures
            r == (env < self@.len()),
    {
        env < self.scopes.len()
    }

    /// Adds an empty environment below `parent`, or a root if there is none.
    pub fn new_env(&mut self, parent: Option<EnvId>) -> (env: EnvId)
        requires
            parent matches Some(p) ==> p < old(self)@.len(),
        ensures
            env == old(self)@.len(),
            final(self)@ == with_scope(
                old(self)@,
                match parent {
                    Some(p) => Some(p as nat),
                    None => None,
                },
            ),
    {
        proof {
            use_type_invariant(&*self);
        }
        let env = self.scopes.len();
        let mut scopes: Vec<Scope> = Vec::new();
        core::mem::swap(&mut self.scopes, &mut scopes);
        scopes.push(Scope { parent, names: Vec::new(), values: Vec::new() });
        self.scopes = scopes;
        proof {
            let added = self.scopes[env as int];
            assert(added.model().bindings =~= Map::empty());
            assert(self@ =~= with_scope(
                old(self)@,
                match parent {
                    Some(p) => Some(p as nat),
                    None => None,
                },
            ));
        }
        env
    }

    /// Binds `name` to `value` in `env` itself, in place of what it was bound
    /// to there; the ancestors of `env` are left alone.
    pub fn set(&mut self, env: EnvId, name: &str, value: Value)
        requires
            env < old(self)@.len(),
        ensures
            final(self)@ == with_binding(old(self)@, env as nat, name@, value@),
    {
        proof {
            use_type_invariant(&*self);
        }
        let mut scopes: Vec<Scope> = Vec::new();
        core::mem::swap(&mut self.scopes, &mut scopes);
        scopes[env].set(String::from_str(name), value);
        self.scopes = scopes;
        proof {
            assert(self@ =~= with_binding(old(self)@, env as nat, name@, value@));
        }
    }
    /// Looks `name` up in `env`, then in its parent, and so on to the root.
    pub fn get(&self, env: EnvId, name: &str) -> (r: Result<Value, EvalError>)
        requires
            env < self@.len(),
        ensures
            reply_of(r) == resolve(self@, env as nat, name@),
    {
        proof {
            use_type_invariant(self);
        }
        let key = String::from_str(name);
        let mut cur = env;
        loop
            invariant
                cur < self.scopes.len(),
                self.inv(),
                key@ == name@,
                lookup(self@, cur as nat, name@) == lookup(self@, env as nat, name@),
            decreases cur,
        {
            let scope = &self.scopes[cur];
            assert(self@[cur as int] == scope.model());
            match scope.find(&key) {
                Some(i) => {
                    return Ok(scope.values[i].clone());
                },
                None => {
                    match scope.parent {
                        Some(parent) => {
                            cur = parent;
                        },
                        None => {
                            return Err(EvalError::UndefinedSymbol(key));
                        },
                    }
                },
            }
        }
    }

    /// Binds the parameters `params` to the arguments `args` in `env`, as
    /// [`bind_plan`] says; where that is an error nothing is bound.
    pub fn bind(&mut self, env: EnvId, params: &Value, args: &Vec<Value>) -> (r: Result<
        (),
        EvalError,
    >)
        requires
            env < old(self)@.len(),
        ensures
            final(self)@.len() == old(self)@.len(),
            match bind_plan(params@, views_of(args@)) {
                Ok(pairs) => r is Ok && final(self)@ == with_bindings(
                    old(self)@,
                    env as nat,
                    pairs,
                    pairs.len(),
                ),
                Err(error) => r matches Err(e) && e@ == error && final(self)@ == old(self)@,
            },
    {
        proof {
            params.lemma_model_of_children();
        }
        let names: &Vec<Value> = match params {
            Value::List(items) => items,
            Value::Vector(items) => items,
            _ => {
                return Err(EvalError::Malformed(Defect::ParamsNotSequence));
            },
        };
        let ghost shapes = views_of(names@);
        let ghost given = views_of(args@);
        assert(params@.elements() == shapes);
        let marker = String::from_str("&");
        let count = names.len();
        let mut fixed: usize = count;
        let mut i: usize = 0;
        while i < count
            invariant
                i <= count,
                count == names.len(),
                shapes == views_of(names@),
                params@.is_sequence(),
                params@.elements() == shapes,
                self@ == old(self)@,
                marker@ == variadic_marker(),
                forall|j: int| 0 <= j < i ==> (#[trigger] shapes[j]) is Sym,
                fixed == count ==> first_marker(shapes, i as nat) == i,
                fixed != count ==> fixed < i && first_marker(shapes, i as nat) == fixed,
            decreases count - i,
        {
            match &names[i] {
                Value::Sym(name) => {
                    if fixed == count && *name == marker {
                        fixed = i;
                    }
                },
                _ => {
                    assert(!(shapes[i as int] is Sym));
                    return Err(EvalError::Malformed(Defect::ParamNotSymbol));
                },
            }
            i += 1;
        }
        assert(all_symbols(shapes));
        if fixed == count {
            if args.len() != count {
                return Err(EvalError::ArityMismatch);
            }
        } else {
            if count - fixed != 2 {
                return Err(EvalError::Malformed(Defect::VariadicMarkerMisplaced));
            }
            if args.len() < fixed {
                return Err(EvalError::ArityMismatch);
            }
        }
        let ghost pairs = bind_plan(params@, given)->Ok_0;
        let mut i: usize = 0;
        while i < fixed
            invariant
                i <= fixed <= count,
                fixed <= args.len(),
                count == names.len(),
                shapes == views_of(names@),
                given == views_of(args@),
                all_symbols(shapes),
                fixed <= pairs.len(),
                forall|j: int| 0 <= j < fixed ==> pairs[j] == (shapes[j]->Sym_0, given[j]),
                env < self@.len(),
                self@.len() == old(self)@.len(),
                self@ == with_bindings(old(self)@, env as nat, pairs, i as nat),
            decreases fixed - i,
        {
            assert(shapes[i as int] is Sym);
            match &names[i] {
                Value::Sym(name) => {
                    self.set(env, name.as_str(), args[i].clone());
                },
                _ => {},
            }
            i += 1;
        }
        if fixed != count {
            let mut rest: Vec<Value> = Vec::new();
            let mut j: usize = fixed;
            while j < args.len()
                invariant
                    fixed <= j <= args.len(),
                    rest.len() == j - fixed,
                    forall|k: int| 0 <= k < rest.len() ==> rest[k]@ == args[fixed + k]@,
                decreases args.len() - j,
            {
                rest.push(args[j].clone());
                j += 1;
            }
            assert(views_of(rest@) =~= given.skip(fixed as int));
            assert(shapes[fixed + 1] is Sym);
            match &names[fixed + 1] {
                Value::Sym(name) => {
                    self.set(env, name.as_str(), Value::list(rest));
                },
                _ => {},
            }
        }
        Ok(())
    }
}

} // verus!
