//! What the bindings ask of the host application.
use crate::value::{
    list_view, ErrorView, FunctionRef, HostType, InteropError, ReflectReference, ScriptValue,
    ScriptView,
};
use std::any::TypeId;
use vstd::prelude::*;

verus! {

/// Whose functions an overloaded call goes to.
#[derive(Debug, Clone, Copy, PartialEq)]
pub enum CallTarget {
    /// Those of the type of the value from which a reference starts.
    BaseOf(ReflectReference),
    /// Those of a type that the bindings name.
    Named(HostType),
    /// Those of the type that a token stands for.
    Token(TypeId),
}

/// The type of the value at the end of a reference's path.
#[derive(Debug, Clone, Copy, PartialEq, Eq, Structural)]
pub enum TailType {
    /// The registration of a component.
    Component,
    /// The registration of a type.
    Registration,
    /// Some other type.
    Other,
    /// The type is not known.
    Unknown,
}

/// A global that the host application registers for scripts.
#[derive(Debug, PartialEq)]
pub enum Global {
    /// Its value is made for each virtual machine.
    Made { name: String },
    /// It is a type.
    Type { name: String, token: TypeId },
}

/// A function that the host application registers for scripts.
#[derive(Debug, PartialEq)]
pub struct HostFunction {
    /// Its name.
    pub name: String,
    /// Its handle.
    pub function: u64,
    /// It belongs to the global namespace, not to that of a type.
    pub global: bool,
}

/// A question to the host application.
#[derive(Debug, PartialEq)]
#[allow(inconsistent_fields)]
pub enum Query {
    /// Is the world within reach?
    World,
    /// The text of an error.
    Describe(InteropError),
    /// A number for a function of a script that none had before on this thread.
    FunctionId,
    /// The field of a host value under a key.
    GetField { target: ReflectReference, key: ScriptValue },
    /// Sets the field of a host value under a key.
    SetField { target: ReflectReference, key: ScriptValue, value: ScriptValue },
    /// The type at the end of a reference's path.
    TailType(ReflectReference),
    /// The function of a type by its name, or the reason why there is none.
    Lookup { on: HostType, name: String },
    /// Calls a function.
    Invoke { function: FunctionRef, arguments: Vec<ScriptValue> },
    /// Calls a function that keeps state.
    InvokeMut { function: u64, arguments: Vec<ScriptValue> },
    /// Calls the overload of a function of a type that takes the arguments.
    CallOverloads { on: CallTarget, name: String, arguments: Vec<ScriptValue> },
    /// How many elements a host value has.
    Length(ReflectReference),
    /// The globals for scripts.
    Globals,
    /// Makes the value of a global.
    MakeGlobal { name: String },
    /// The functions for scripts.
    Functions,
    /// A reference to the entity that a callback is about.
    Entity,
}

/// A [`Query`] as contracts see it.
#[verifier::ext_equal]
#[allow(inconsistent_fields)]
pub enum QueryView {
    World,
    Describe(ErrorView),
    FunctionId,
    GetField { target: ReflectReference, key: ScriptView },
    SetField { target: ReflectReference, key: ScriptView, value: ScriptView },
    TailType(ReflectReference),
    Lookup { on: HostType, name: Seq<char> },
    Invoke { function: FunctionRef, arguments: Seq<ScriptView> },
    InvokeMut { function: u64, arguments: Seq<ScriptView> },
    CallOverloads { on: CallTarget, name: Seq<char>, arguments: Seq<ScriptView> },
    Length(ReflectReference),
    Globals,
    MakeGlobal { name: Seq<char> },
    Functions,
    Entity,
}

/// The host application can run functions of the script while it answers a question.
pub open spec fn runs_scripts(query: QueryView) -> bool {
    match query {
        QueryView::GetField { .. } => true,
        QueryView::SetField { .. } => true,
        QueryView::Invoke { .. } => true,
        QueryView::InvokeMut { .. } => true,
        QueryView::CallOverloads { .. } => true,
        QueryView::MakeGlobal { .. } => true,
        _ => false,
    }
}

impl View for Query {
    type V = QueryView;

    open spec fn view(&self) -> QueryView {
        match *self {
            Query::World => QueryView::World,
            Query::Describe(error) => QueryView::Describe(error@),
            Query::FunctionId => QueryView::FunctionId,
            Query::GetField { target, key } => QueryView::GetField { target, key: key@ },
            Query::SetField { target, key, value } => QueryView::SetField {
                target,
                key: key@,
                value: value@,
            },
            Query::TailType(target) => QueryView::TailType(target),
            Query::Lookup { on, name } => QueryView::Lookup { on, name: name@ },
            Query::Invoke { function, arguments } => QueryView::Invoke {
                function,
                arguments: list_view(arguments@),
            },
            Query::InvokeMut { function, arguments } => QueryView::InvokeMut {
                function,
                arguments: list_view(arguments@),
            },
            Query::CallOverloads { on, name, arguments } => QueryView::CallOverloads {
                on,
                name: name@,
                arguments: list_view(arguments@),
            },
            Query::Length(target) => QueryView::Length(target),
            Query::Globals => QueryView::Globals,
            Query::MakeGlobal { name } => QueryView::MakeGlobal { name: name@ },
            Query::Functions => QueryView::Functions,
            Query::Entity => QueryView::Entity,
        }
    }
}

/// An answer of the host application.
#[derive(Debug, PartialEq)]
pub enum Answer {
    /// It is done.
    Done,
    /// It failed.
    Failed(InteropError),
    /// A value.
    Value(ScriptValue),
    /// A text.
    Text(String),
    /// A number.
    Number(u64),
    /// The type at the end of a path.
    Tail(TailType),
    /// A function.
    Function(u64),
    /// How many elements there are, if that can be said.
    Length(Option<u64>),
    /// Globals.
    Globals(Vec<Global>),
    /// Functions.
    Functions(Vec<HostFunction>),
    /// A reference.
    Reference(ReflectReference),
}

/// What is said of an answer that does not fit the question.
pub const MISFIT: &'static str = "the answer does not fit the question";

/// The error of an answer that does not fit the question.
pub open spec fn misfit() -> ErrorView {
    ErrorView::Invariant(MISFIT@)
}

/// The result of an operation, with the error as contracts see it.
pub open spec fn outcome<T>(result: Result<T, InteropError>) -> Result<T, ErrorView> {
    match result {
        Ok(value) => Ok(value),
        Err(error) => Err(error@),
    }
}

impl Answer {
    /// Whether it is done.
    pub open spec fn spec_done(self) -> Result<(), ErrorView> {
        match self {
            Answer::Done => Ok(()),
            Answer::Failed(error) => Err(error@),
            _ => Err(misfit()),
        }
    }

    /// Whether it is done.
    pub fn done(self) -> (result: Result<(), InteropError>)
        ensures
            outcome(result) == self.spec_done(),
    {
        match self {
            Answer::Done => Ok(()),
            Answer::Failed(error) => Err(error),
            _ => Err(InteropError::broken_invariant(MISFIT)),
        }
    }

    /// The value.
    pub open spec fn spec_value(self) -> Result<ScriptValue, ErrorView> {
        match self {
            Answer::Value(value) => Ok(value),
            Answer::Failed(error) => Err(error@),
            _ => Err(misfit()),
        }
    }

    /// The value.
    pub fn value(self) -> (result: Result<ScriptValue, InteropError>)
        ensures
            outcome(result) == self.spec_value(),
    {
        match self {
            Answer::Value(value) => Ok(value),
            Answer::Failed(error) => Err(error),
            _ => Err(InteropError::broken_invariant(MISFIT)),
        }
    }

    /// The number.
    pub open spec fn spec_number(self) -> Result<u64, ErrorView> {
        match self {
            Answer::Number(number) => Ok(number),
            Answer::Failed(error) => Err(error@),
            _ => Err(misfit()),
        }
    }

    /// The number.
    pub fn number(self) -> (result: Result<u64, InteropError>)
        ensures
            outcome(result) == self.spec_number(),
    {
        match self {
            Answer::Number(number) => Ok(number),
            Answer::Failed(error) => Err(error),
            _ => Err(InteropError::broken_invariant(MISFIT)),
        }
    }

    /// The type at the end of a path.
    pub open spec fn spec_tail(self) -> Result<TailType, ErrorView> {
        match self {
            Answer::Tail(tail) => Ok(tail),
            Answer::Failed(error) => Err(error@),
            _ => Err(misfit()),
        }
    }

    /// The type at the end of a path.
    pub fn tail(self) -> (result: Result<TailType, InteropError>)
        ensures
            outcome(result) == self.spec_tail(),
    {
        match self {
            Answer::Tail(tail) => Ok(tail),
            Answer::Failed(error) => Err(error),
            _ => Err(InteropError::broken_invariant(MISFIT)),
        }
    }

    /// How many elements there are, if that can be said.
    pub open spec fn spec_length(self) -> Result<Option<u64>, ErrorView> {
        match self {
            Answer::Length(length) => Ok(length),
            Answer::Failed(error) => Err(error@),
            _ => Err(misfit()),
        }
    }

    /// How many elements there are, if that can be said.
    pub fn length(self) -> (result: Result<Option<u64>, InteropError>)
        ensures
            outcome(result) == self.spec_length(),
    {
        match self {
            Answer::Length(length) => Ok(length),
            Answer::Failed(error) => Err(error),
            _ => Err(InteropError::broken_invariant(MISFIT)),
        }
    }

    /// The globals.
    pub open spec fn spec_globals(self) -> Result<Vec<Global>, ErrorView> {
        match self {
            Answer::Globals(globals) => Ok(globals),
            Answer::Failed(error) => Err(error@),
            _ => Err(misfit()),
        }
    }

    /// The globals.
    pub fn globals(self) -> (result: Result<Vec<Global>, InteropError>)
        ensures
            outcome(result) == self.spec_globals(),
    {
        match self {
            Answer::Globals(globals) => Ok(globals),
            Answer::Failed(error) => Err(error),
            _ => Err(InteropError::broken_invariant(MISFIT)),
        }
    }

    /// The functions.
    pub open spec fn spec_functions(self) -> Result<Vec<HostFunction>, ErrorView> {
        match self {
            Answer::Functions(functions) => Ok(functions),
            Answer::Failed(error) => Err(error@),
            _ => Err(misfit()),
        }
    }

    /// The functions.
    pub fn functions(self) -> (result: Result<Vec<HostFunction>, InteropError>)
        ensures
            outcome(result) == self.spec_functions(),
    {
        match self {
            Answer::Functions(functions) => Ok(functions),
            Answer::Failed(error) => Err(error),
            _ => Err(InteropError::broken_invariant(MISFIT)),
        }
    }

    /// The reference.
    pub open spec fn spec_reference(self) -> Result<ReflectReference, ErrorView> {
        match self {
            Answer::Reference(reference) => Ok(reference),
            Answer::Failed(error) => Err(error@),
            _ => Err(misfit()),
        }
    }

    /// The reference.
    pub fn reference(self) -> (result: Result<ReflectReference, InteropError>)
        ensures
            outcome(result) == self.spec_reference(),
    {
        match self {
            Answer::Reference(reference) => Ok(reference),
            Answer::Failed(error) => Err(error),
            _ => Err(InteropError::broken_invariant(MISFIT)),
        }
    }

    /// The function that a lookup found, or why it found none.
    pub open spec fn spec_found(self) -> Result<u64, Seq<char>> {
        match self {
            Answer::Function(function) => Ok(function),
            Answer::Text(text) => Err(text@),
            _ => Err(MISFIT@),
        }
    }

    /// The function that a lookup found, or why it found none.
    pub fn found(self) -> (result: Result<u64, String>)
        ensures
            (match result {
                Ok(function) => Ok::<u64, Seq<char>>(function),
                Err(text) => Err(text@),
            }) == self.spec_found(),
    {
        match self {
            Answer::Function(function) => Ok(function),
            Answer::Text(text) => Err(text),
            _ => Err(MISFIT.to_owned()),
        }
    }

    /// The text.
    pub open spec fn spec_text(self) -> Seq<char> {
        match self {
            Answer::Text(text) => text@,
            _ => MISFIT@,
        }
    }

    /// The text.
    pub fn text(self) -> (text: String)
        ensures
            text@ == self.spec_text(),
    {
        match self {
            Answer::Text(text) => text,
            _ => MISFIT.to_owned(),
        }
    }
}

/// Contracts see a question to the host application as it is asked: the same question, about the same
/// values.
pub proof fn law_questions_are_seen_as_they_are(query: Query)
    ensures
        match query {
            Query::Describe(error) => query@ matches QueryView::Describe(seen) && seen == error@,
            Query::GetField { target, key } => query@ matches QueryView::GetField {
                target: of,
                key: under,
            } && of == target && under == key@,
            Query::SetField { target, key, value } => query@ matches QueryView::SetField {
                target: of,
                key: under,
                value: told,
            } && of == target && under == key@ && told == value@,
            Query::TailType(target) => query@ matches QueryView::TailType(of) && of == target,
            Query::Lookup { on, name } => query@ matches QueryView::Lookup { on: of, name: named }
                && of == on && named == name@,
            Query::Invoke { function, arguments } => query@ matches QueryView::Invoke {
                function: called,
                arguments: given,
            } && called == function && are_seen(arguments@, given),
            Query::InvokeMut { function, arguments } => query@ matches QueryView::InvokeMut {
                function: called,
                arguments: given,
            } && called == function && are_seen(arguments@, given),
            Query::CallOverloads { on, name, arguments } => query@ matches QueryView::CallOverloads {
                on: of,
                name: named,
                arguments: given,
            } && of == on && named == name@ && are_seen(arguments@, given),
            Query::Length(target) => query@ matches QueryView::Length(of) && of == target,
            Query::MakeGlobal { name } => query@ matches QueryView::MakeGlobal { name: named }
                && named == name@,
            Query::World => query@ is World,
            Query::FunctionId => query@ is FunctionId,
            Query::Globals => query@ is Globals,
            Query::Functions => query@ is Functions,
            Query::Entity => query@ is Entity,
        },
{
}

/// Values are seen as they are, each in its place.
pub open spec fn are_seen(values: Seq<ScriptValue>, seen: Seq<ScriptView>) -> bool {
    seen.len() == values.len() && forall|i: int|
        0 <= i < values.len() ==> #[trigger] seen[i] == values[i]@
}

} // verus!
