//! Runtime values and their mathematical model.

use vstd::prelude::*;

verus! {

/// A runtime value. Expressions and results share this one representation.
#[derive(Debug, PartialEq, Eq)]
pub enum Value {
    Nil,
    Bool(bool),
    Int(i64),
    Str(String),
    /// A symbol, by name.
    Sym(String),
    List(Vec<Value>),
    Vector(Vec<Value>),
    /// String keys with their values, in the order in which they were written.
    HashMap(Vec<(String, Value)>),
    /// A function supplied by the host, by the number under which the host knows it.
    Native(u64),
    /// A user-defined function with the environment in which it was created.
    Closure { params: Box<Value>, body: Box<Value>, env: usize },
}

/// The model of a [`Value`]: the same tree over mathematical sequences and integers.
pub ghost enum ValueView {
    Nil,
    Bool(bool),
    Int(int),
    Str(Seq<char>),
    Sym(Seq<char>),
    List(Seq<ValueView>),
    Vector(Seq<ValueView>),
    HashMap(Seq<(Seq<char>, ValueView)>),
    Native(nat),
    Closure { params: Box<ValueView>, body: Box<ValueView>, env: nat },
}

impl ValueView {
    /// Everything is truthy but `nil` and `false`.
    pub open spec fn is_truthy(self) -> bool {
        !(self is Nil || self == ValueView::Bool(false))
    }

    /// Numbers, strings, booleans and `nil`: values that evaluate to themselves
    /// whatever the environment holds.
    pub open spec fn is_literal(self) -> bool {
        self is Nil || self is Bool || self is Int || self is Str
    }

    /// The elements of a list or of a vector.
    pub open spec fn is_sequence(self) -> bool {
        self is List || self is Vector
    }

    pub open spec fn elements(self) -> Seq<ValueView>
        recommends
            self.is_sequence(),
    {
        match self {
            ValueView::List(items) => items,
            ValueView::Vector(items) => items,
            _ => Seq::empty(),
        }
    }
}

/// The models of a sequence of values, element by element.
pub open spec fn views_of(items: Seq<Value>) -> Seq<ValueView> {
    Seq::new(items.len(), |i: int| items[i].model())
}

/// The models of the entries of a hash map, key by key.
pub open spec fn entry_views_of(entries: Seq<(String, Value)>) -> Seq<(Seq<char>, ValueView)> {
    Seq::new(entries.len(), |i: int| (entries[i].0@, entries[i].1.model()))
}

impl Value {
    pub open spec fn model(self) -> ValueView
        decreases self,
    {
        match self {
            Value::Nil => ValueView::Nil,
            Value::Bool(b) => ValueView::Bool(b),
            Value::Int(n) => ValueView::Int(n as int),
            Value::Str(s) => ValueView::Str(s@),
            Value::Sym(s) => ValueView::Sym(s@),
            Value::List(items) => ValueView::List(
                Seq::new(
                    items.len() as nat,
                    |i: int|
                        if 0 <= i < items.len() {
                            items[i].model()
                        } else {
                            ValueView::Nil
                        },
                ),
            ),
            Value::Vector(items) => ValueView::Vector(
                Seq::new(
                    items.len() as nat,
                    |i: int|
                        if 0 <= i < items.len() {
                            items[i].model()
                        } else {
                            ValueView::Nil
                        },
                ),
            ),
            Value::HashMap(entries) => ValueView::HashMap(
                Seq::new(
                    entries.len() as nat,
                    |i: int|
                        if 0 <= i < entries.len() {
                            (entries[i].0@, entries[i].1.model())
                        } else {
                            (Seq::empty(), ValueView::Nil)
                        },
                ),
            ),
            Value::Native(id) => ValueView::Native(id as nat),
            Value::Closure { params, body, env } => ValueView::Closure {
                params: Box::new((*params).model()),
                body: Box::new((*body).model()),
                env: env as nat,
            },
        }
    }

    /// What the model of a list, a vector or a hash map holds, in terms of
    /// [`views_of`] and [`entry_views_of`].
    pub proof fn lemma_model_of_children(self)
        ensures
            self matches Value::List(items) ==> self@ == ValueView::List(views_of(items@)),
            self matches Value::Vector(items) ==> self@ == ValueView::Vector(views_of(items@)),
            self matches Value::HashMap(entries) ==> self@ == ValueView::HashMap(
                entry_views_of(entries@),
            ),
    {
        match self {
            Value::List(items) => {
                assert(self@->List_0 =~= views_of(items@));
            },
            Value::Vector(items) => {
                assert(self@->Vector_0 =~= views_of(items@));
            },
            Value::HashMap(entries) => {
                assert(self@->HashMap_0 =~= entry_views_of(entries@));
            },
            _ => {},
        }
    }

    /// A symbol with the given name.
    pub fn symbol(name: &str) -> (r: Value)
        ensures
            r@ == ValueView::Sym(name@),
    {
        Value::Sym(String::from_str(name))
    }

    /// A string value with the given text.
    pub fn string(text: &str) -> (r: Value)
        ensures
            r@ == ValueView::Str(text@),
    {
        Value::Str(String::from_str(text))
    }

    /// A list of the given items.
    pub fn list(items: Vec<Value>) -> (r: Value)
        ensures
            r@ == ValueView::List(views_of(items@)),
    {
        let r = Value::List(items);
        proof {
            r.lemma_model_of_children();
        }
        r
    }

    /// A vector of the given items.
    pub fn vector(items: Vec<Value>) -> (r: Value)
        ensures
            r@ == ValueView::Vector(views_of(items@)),
    {
        let r = Value::Vector(items);
        proof {
            r.lemma_model_of_children();
        }
        r
    }

    /// Whether a condition with this value selects the first branch of an `if`.
    pub fn is_truthy(&self) -> (r: bool)
        ensures
            r == self@.is_truthy(),
    {
        match self {
            Value::Nil => false,
            Value::Bool(b) => *b,
            _ => true,
        }
    }
}

impl View for Value {
    type V = ValueView;

    open spec fn view(&self) -> ValueView {
        self.model()
    }
}

/// A copy of each item, in order.
pub fn clone_items(items: &Vec<Value>) -> (out: Vec<Value>)
    ensures
        views_of(out@) == views_of(items@),
    decreases items,
{
    let mut out: Vec<Value> = Vec::new();
    let mut i: usize = 0;
    while i < items.len()
        invariant
            i <= items.len(),
            out.len() == i,
            forall|j: int| 0 <= j < i ==> out[j]@ == items[j]@,
        decreases items.len() - i,
    {
        out.push(items[i].clone());
        i += 1;
    }
    assert(views_of(out@) =~= views_of(items@));
    out
}

impl Clone for Value {
    /// A deep copy: a value with the same model.
    fn clone(&self) -> (r: Self)
        ensures
            r@ == self@,
        decreases self,
    {
        proof {
            self.lemma_model_of_children();
        }
        match self {
            Value::Nil => Value::Nil,
            Value::Bool(b) => Value::Bool(*b),
            Value::Int(n) => Value::Int(*n),
            Value::Str(s) => Value::Str(s.clone()),
            Value::Sym(s) => Value::Sym(s.clone()),
            Value::List(items) => {
                assert(decreases_to!(*self => self->List_0));
                Value::list(clone_items(items))
            },
            Value::Vector(items) => {
                assert(decreases_to!(*self => self->Vector_0));
                Value::vector(clone_items(items))
            },
            Value::HashMap(entries) => {
                let mut out: Vec<(String, Value)> = Vec::new();
                let mut i: usize = 0;
                while i < entries.len()
                    invariant
                        i <= entries.len(),
                        out.len() == i,
                        forall|j: int|
                            0 <= j < i ==> out[j].0@ == entries[j].0@ && out[j].1@ == entries[j].1@,
                        *self == Value::HashMap(*entries),
                    decreases entries.len() - i,
                {
                    assert(decreases_to!(*self => self->HashMap_0));
                    assert(decreases_to!(*entries => entries[i as int]));
                    out.push((entries[i].0.clone(), entries[i].1.clone()));
                    i += 1;
                }
                let r = Value::HashMap(out);
                proof {
                    r.lemma_model_of_children();
                    assert(entry_views_of(out@) =~= entry_views_of(entries@));
                }
                r
            },
            Value::Native(id) => Value::Native(*id),
            Value::Closure { params, body, env } => Value::Closure {
                params: Box::new((**params).clone()),
                body: Box::new((**body).clone()),
                env: *env,
            },
        }
    }
}

} // verus!
