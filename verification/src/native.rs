//! The functions that scripts call.
use crate::call_laws::{
    calls_bound, does, law_bound_functions_are_called, law_bound_functions_throw_for_a_reason,
    law_native_functions_do_what_they_are_for, law_native_functions_throw_for_a_reason, passes_on,
    throws,
};
use crate::calls::{
    ask_value, convert_all, convert_all_run, hand_back, hand_back_run, or_throw, reply_of,
    value_run, Blame,
};
use crate::engine::{js_failure, js_view, live_in, lives_in, raise, FailureView, JsFailure, JsView};
use crate::host::{Answer, CallTarget, Query, QueryView};
use crate::reference::{
    bound_run, call_bound, next_run, rr_call, rr_call_run, rr_get, rr_get_run, rr_len, rr_len_run,
    rr_method, rr_method_run, rr_next, rr_set, rr_set_run, rr_static_set, rr_static_set_run,
    rr_symbol_iterator, rr_symbol_iterator_run, rr_to_string, rr_to_string_run, sref_call,
    sref_call_run, sref_fn, sref_fn_run,
};
use crate::session::{and_then, extends, js_views, replays, same_vm, Session, Step};
use crate::value::{FunctionRef, ScriptValue, ScriptView};
use boa_engine::{Context, JsError, JsValue};
use vstd::prelude::*;

verus! {

broadcast use crate::session::lemma_extends_earlier;

/// A function of the bindings that a script can call.
#[derive(Debug, Clone, Copy, PartialEq, Eq, Structural)]
pub enum Native {
    /// `get` of a reference.
    Get,
    /// `set` of a reference.
    Put,
    /// `call` of a reference.
    Call,
    /// `method` of a reference.
    Method,
    /// `len` of a reference.
    Len,
    /// `toString` of a reference.
    Text,
    /// `[Symbol.iterator]` of a reference.
    Iterator,
    /// `next` of an iterator that steps with a function of the host application.
    Next(u64),
    /// `ReflectReference.ref_set`.
    StaticSet,
    /// `ReflectReference`.
    ReferenceConstructor,
    /// `fn` of a type token.
    TokenFn,
    /// `call` of a type token.
    TokenCall,
    /// `StaticReflectReference`.
    TokenConstructor,
    /// A function.
    HostFunction(FunctionRef),
    /// A function of the host application that keeps state.
    HostFunctionMut(u64),
}

/// What is said of an attempt to construct a reference.
pub const NO_REFERENCE: &'static str = "ReflectReference cannot be constructed from JS";

/// What is said of an attempt to construct a type token.
pub const NO_TOKEN: &'static str = "StaticReflectReference cannot be constructed from JS";

/// Calling a function with converted arguments, and handing its value back.
pub open spec fn forward_run(
    query: spec_fn(Seq<ScriptView>) -> QueryView,
    arguments: Seq<JsView>,
    j: Seq<Step>,
    p: nat,
) -> Option<(Result<JsView, FailureView>, nat)> {
    and_then(
        convert_all_run(Blame::Host, arguments, 0, Seq::empty(), j, p),
        |values: Seq<ScriptView>, p: nat|
            and_then(
                or_throw(Blame::Host, value_run(query(values), j, p), j),
                |value: ScriptValue, p: nat| hand_back_run(value, j, p),
            ),
    )
}

/// Running a native function.
pub open spec fn native_run(
    native: Native,
    this: JsView,
    arguments: Seq<JsView>,
    j: Seq<Step>,
    p: nat,
) -> Option<(Result<JsView, FailureView>, nat)> {
    match native {
        Native::Get => rr_get_run(this, arguments, j, p),
        Native::Put => rr_set_run(this, arguments, j, p),
        Native::Call => rr_call_run(this, arguments, j, p),
        Native::Method => rr_method_run(this, arguments, j, p),
        Native::Len => rr_len_run(this, arguments, j, p),
        Native::Text => rr_to_string_run(this, arguments, j, p),
        Native::Iterator => rr_symbol_iterator_run(this, arguments, j, p),
        Native::Next(handle) => next_run(handle, j, p),
        Native::StaticSet => rr_static_set_run(this, arguments, j, p),
        Native::ReferenceConstructor => Some((Err(FailureView::WrongType(NO_REFERENCE@)), p)),
        Native::TokenFn => sref_fn_run(this, arguments, j, p),
        Native::TokenCall => sref_call_run(this, arguments, j, p),
        Native::TokenConstructor => Some((Err(FailureView::WrongType(NO_TOKEN@)), p)),
        Native::HostFunction(function) => forward_run(
            |values: Seq<ScriptView>| QueryView::Invoke { function, arguments: values },
            arguments,
            j,
            p,
        ),
        Native::HostFunctionMut(handle) => forward_run(
            |values: Seq<ScriptView>| QueryView::InvokeMut { function: handle, arguments: values },
            arguments,
            j,
            p,
        ),
    }
}

/// Runs a native function in a session.
pub fn run_native<H: Fn(Query) -> Answer + Copy + 'static>(
    native: Native,
    this: &JsValue,
    arguments: &[JsValue],
    context: &mut Context,
    session: &mut Session<H>,
) -> (result: Result<JsValue, JsFailure>)
    requires
        old(session).ready(*old(context)),
        lives_in(js_view(*this), *old(context)),
        live_in(js_views(arguments@), *old(context)),
    ensures
        result matches Ok(value) ==> lives_in(js_view(value), *final(context)),
        final(session).follows(*old(session)),
        final(session).attached(*final(context)),
        same_vm(*old(context), *final(context)),
        replays(
            |j: Seq<Step>, p: nat| native_run(native, js_view(*this), js_views(arguments@), j, p),
            old(session).journal(),
            final(session).journal(),
            reply_of(result),
        ),
{
    match native {
        Native::Get => rr_get(this, arguments, context, session),
        Native::Put => rr_set(this, arguments, context, session),
        Native::Call => rr_call(this, arguments, context, session),
        Native::Method => rr_method(this, arguments, context, session),
        Native::Len => rr_len(this, arguments, context, session),
        Native::Text => rr_to_string(this, arguments, context, session),
        Native::Iterator => rr_symbol_iterator(this, arguments, context, session),
        Native::Next(handle) => rr_next(handle, context, session),
        Native::StaticSet => rr_static_set(this, arguments, context, session),
        Native::ReferenceConstructor => Err(JsFailure::WrongType(NO_REFERENCE.to_owned())),
        Native::TokenFn => sref_fn(this, arguments, context, session),
        Native::TokenCall => sref_call(this, arguments, context, session),
        Native::TokenConstructor => Err(JsFailure::WrongType(NO_TOKEN.to_owned())),
        Native::HostFunction(function) => {
            let arguments = convert_all(Blame::Host, arguments, 0, context, session)?;
            let value = ask_value(Query::Invoke { function, arguments }, context, session)?;
            hand_back(&value, context, session)
        },
        Native::HostFunctionMut(handle) => {
            let arguments = convert_all(Blame::Host, arguments, 0, context, session)?;
            let value = ask_value(Query::InvokeMut { function: handle, arguments }, context, session)?;
            hand_back(&value, context, session)
        },
    }
}

/// The result of a function as the engine gets it.
pub open spec fn raised(result: Result<JsValue, JsError>) -> Result<JsView, FailureView> {
    match result {
        Ok(value) => Ok(js_view(value)),
        Err(error) => Err(js_failure(error)),
    }
}

/// Runs a native function for the engine, in a session of its own, which comes with the result. The
/// engine hands over values of the virtual machine that runs.
pub fn call_native<H: Fn(Query) -> Answer + Copy + 'static>(
    native: Native,
    this: &JsValue,
    arguments: &[JsValue],
    context: &mut Context,
    serve: H,
) -> (called: (Result<JsValue, JsError>, Session<H>))
    requires
        forall|query: Query| call_requires(serve, (query,)),
        lives_in(js_view(*this), *old(context)),
        live_in(js_views(arguments@), *old(context)),
    ensures
        called.0 matches Ok(value) ==> lives_in(js_view(value), *final(context)),
        called.1.server() == serve,
        called.1.attached(*final(context)),
        same_vm(*old(context), *final(context)),
        raised(called.0) matches Ok(value) ==> does(
            native,
            js_view(*this),
            js_views(arguments@),
            called.1.journal(),
            0,
            value,
            called.1.journal().len(),
        ),
        raised(called.0) matches Err(failure) ==> match native {
            Native::ReferenceConstructor => failure == FailureView::WrongType(NO_REFERENCE@),
            Native::TokenConstructor => failure == FailureView::WrongType(NO_TOKEN@),
            _ => throws(
                native,
                failure,
                js_view(*this),
                js_views(arguments@),
                called.1.journal(),
                0,
                called.1.journal().len(),
            ),
        },
        replays(
            |j: Seq<Step>, p: nat| native_run(native, js_view(*this), js_views(arguments@), j, p),
            Seq::empty(),
            called.1.journal(),
            raised(called.0),
        ),
{
    let mut session = Session::new(serve, context);
    let result = run_native(native, this, arguments, context, &mut session);
    proof {
        let j = session.journal();
        let views = js_views(arguments@);
        assert(extends(j, j));
        if let Ok(value) = reply_of(result) {
            law_native_functions_do_what_they_are_for(
                native,
                js_view(*this),
                views,
                j,
                0,
                value,
                j.len(),
            );
        } else if !(native is ReferenceConstructor) && !(native is TokenConstructor) {
            law_native_functions_throw_for_a_reason(
                native,
                js_view(*this),
                views,
                j,
                0,
                reply_of(result)->Err_0,
                j.len(),
            );
        }
    }
    match result {
        Ok(value) => (Ok(value), session),
        Err(failure) => (Err(raise(failure)), session),
    }
}

/// Runs a bound function for the engine, in a session of its own, which comes with the result.
pub fn call_named<H: Fn(Query) -> Answer + Copy + 'static>(
    target: CallTarget,
    method: &String,
    arguments: &[JsValue],
    context: &mut Context,
    serve: H,
) -> (called: (Result<JsValue, JsError>, Session<H>))
    requires
        forall|query: Query| call_requires(serve, (query,)),
        live_in(js_views(arguments@), *old(context)),
    ensures
        called.0 matches Ok(value) ==> lives_in(js_view(value), *final(context)),
        called.1.server() == serve,
        called.1.attached(*final(context)),
        same_vm(*old(context), *final(context)),
        raised(called.0) matches Ok(value) ==> calls_bound(
            target,
            method@,
            js_views(arguments@),
            called.1.journal(),
            0,
            value,
            called.1.journal().len(),
        ),
        raised(called.0) matches Err(failure) ==> passes_on(
            false,
            failure,
            js_views(arguments@),
            called.1.journal(),
            0,
            called.1.journal().len(),
        ),
        replays(
            |j: Seq<Step>, p: nat| bound_run(target, method@, js_views(arguments@), j, p),
            Seq::empty(),
            called.1.journal(),
            raised(called.0),
        ),
{
    let mut session = Session::new(serve, context);
    let result = call_bound(target, method, arguments, context, &mut session);
    proof {
        let j = session.journal();
        assert(extends(j, j));
        if let Ok(value) = reply_of(result) {
            law_bound_functions_are_called(
                target,
                method@,
                js_views(arguments@),
                j,
                0,
                value,
                j.len(),
            );
        } else {
            law_bound_functions_throw_for_a_reason(
                target,
                method@,
                js_views(arguments@),
                j,
                0,
                reply_of(result)->Err_0,
                j.len(),
            );
        }
    }
    match result {
        Ok(value) => (Ok(value), session),
        Err(failure) => (Err(raise(failure)), session),
    }
}

} // verus!
