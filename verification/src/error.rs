//! What can go wrong while evaluating.

use vstd::prelude::*;
use crate::value::{Value, ValueView};

verus! {

/// The ways in which a special form or a parameter list can be malformed.
#[derive(Debug, Clone, Copy, PartialEq, Eq, Structural)]
pub enum Defect {
    /// A special form has fewer elements than it needs.
    MissingOperands,
    /// The target of a `def!` is not a symbol.
    DefTargetNotSymbol,
    /// The bindings of a `let*` are neither a list nor a vector.
    LetBindingsNotSequence,
    /// The bindings of a `let*` do not come in pairs.
    LetBindingsUnpaired,
    /// A target in the bindings of a `let*` is not a symbol.
    LetTargetNotSymbol,
    /// The parameters of a function are neither a list nor a vector.
    ParamsNotSequence,
    /// A parameter is not a symbol.
    ParamNotSymbol,
    /// The marker `&` is not followed by exactly one symbol.
    VariadicMarkerMisplaced,
}

impl Defect {
    /// A short description of the defect, as [`Defect::description`] gives it.
    pub open spec fn description_view(self) -> Seq<char> {
        match self {
            Defect::MissingOperands => "special form with too few elements"@,
            Defect::DefTargetNotSymbol => "def! of non-symbol"@,
            Defect::LetBindingsNotSequence => "let* with non-list bindings"@,
            Defect::LetBindingsUnpaired => "let* with odd number of binding elements"@,
            Defect::LetTargetNotSymbol => "let* with non-symbol binding"@,
            Defect::ParamsNotSequence => "parameters must be a list"@,
            Defect::ParamNotSymbol => "non-symbol parameter"@,
            Defect::VariadicMarkerMisplaced => "& must be followed by exactly one symbol"@,
        }
    }

    /// A short description of the defect.
    pub fn description(self) -> (text: &'static str)
        ensures
            text@ == self.description_view(),
    {
        match self {
            Defect::MissingOperands => "special form with too few elements",
            Defect::DefTargetNotSymbol => "def! of non-symbol",
            Defect::LetBindingsNotSequence => "let* with non-list bindings",
            Defect::LetBindingsUnpaired => "let* with odd number of binding elements",
            Defect::LetTargetNotSymbol => "let* with non-symbol binding",
            Defect::ParamsNotSequence => "parameters must be a list",
            Defect::ParamNotSymbol => "non-symbol parameter",
            Defect::VariadicMarkerMisplaced => "& must be followed by exactly one symbol",
        }
    }
}

/// An error that ends an evaluation.
#[derive(Debug, PartialEq, Eq)]
pub enum EvalError {
    /// A symbol has no binding in the environment or in any of its ancestors.
    UndefinedSymbol(String),
    /// A special form or a parameter list has the wrong shape.
    Malformed(Defect),
    /// The operator of a call is neither a native function nor a closure
    /// with an environment of this store.
    NotCallable,
    /// A closure was called with a number of arguments that its parameters do not admit.
    ArityMismatch,
    /// A runtime value raised as an error by a native function.
    Thrown(Value),
    /// A plain message from a native function or from the reader.
    Message(String),
    /// The evaluation needed a longer chain of pending evaluations than its budget allows.
    BudgetExhausted,
}

/// The model of an [`EvalError`].
pub ghost enum ErrorView {
    UndefinedSymbol(Seq<char>),
    Malformed(Defect),
    NotCallable,
    ArityMismatch,
    Thrown(ValueView),
    Message(Seq<char>),
    BudgetExhausted,
}

impl View for EvalError {
    type V = ErrorView;

    open spec fn view(&self) -> ErrorView {
        match self {
            EvalError::UndefinedSymbol(name) => ErrorView::UndefinedSymbol(name@),
            EvalError::Malformed(defect) => ErrorView::Malformed(*defect),
            EvalError::NotCallable => ErrorView::NotCallable,
            EvalError::ArityMismatch => ErrorView::ArityMismatch,
            EvalError::Thrown(value) => ErrorView::Thrown(value@),
            EvalError::Message(text) => ErrorView::Message(text@),
            EvalError::BudgetExhausted => ErrorView::BudgetExhausted,
        }
    }
}

impl ErrorView {
    /// The text of the error, but for a thrown value, which has none of its own.
    pub open spec fn message(self) -> Option<Seq<char>> {
        match self {
            ErrorView::UndefinedSymbol(name) => Some("'"@ + name + "' not found"@),
            ErrorView::Malformed(defect) => Some(defect.description_view()),
            ErrorView::NotCallable => Some("attempt to call non-function"@),
            ErrorView::ArityMismatch => Some("wrong number of arguments"@),
            ErrorView::Thrown(_) => None,
            ErrorView::Message(text) => Some(text),
            ErrorView::BudgetExhausted => Some("evaluation budget exhausted"@),
        }
    }
}

impl EvalError {
    /// The text of the error: for an undefined symbol its name between
    /// quotes and `not found`, for a message of a native function that
    /// message. A thrown value has no text: it is for the host to print.
    pub fn message(&self) -> (text: Option<String>)
        ensures
            match self@.message() {
                Some(expected) => text matches Some(t) && t@ == expected,
                None => text is None,
            },
    {
        match self {
            EvalError::UndefinedSymbol(name) => {
                let mut text = String::from_str("'");
                text.append(name.as_str());
                text.append("' not found");
                Some(text)
            },
            EvalError::Malformed(defect) => Some(String::from_str(defect.description())),
            EvalError::NotCallable => Some(String::from_str("attempt to call non-function")),
            EvalError::ArityMismatch => Some(String::from_str("wrong number of arguments")),
            EvalError::Thrown(_) => None,
            EvalError::Message(text) => Some(text.clone()),
            EvalError::BudgetExhausted => Some(String::from_str("evaluation budget exhausted")),
        }
    }
}

/// What an evaluation gives in the model: a value or an error.
pub type Reply = Result<ValueView, ErrorView>;

/// The model of a result of the evaluator.
pub open spec fn reply_of(result: Result<Value, EvalError>) -> Reply {
    match result {
        Ok(value) => Ok(value@),
        Err(error) => Err(error@),
    }
}

} // verus!
