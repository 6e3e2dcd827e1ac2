//! Script values on their way into a virtual machine and out of it.
use crate::data::{
    denotes, equipped, keeps, lemma_denoted_is_portable, lemma_keeps_intact, mapless, portable,
    wraps_with,
};
use crate::engine::{js_global, js_heap, js_units, js_view, lives_in, FailureView, JsView};
use crate::from_js::{
    from_js_effect, from_js_run, hands_over, reachable, value_from_js, DEPTH_LIMIT,
};
use crate::function_registry::{
    call_stored, call_stored_run, keeps_function, registry_in, runs_function,
};
use crate::host::{Answer, Query};
use crate::into_js::{
    all_denote, all_portable, elements_into_js, elements_run, into_js_effect, into_js_run, renders,
    value_into_js, wraps_in_place,
};
use crate::reference::receiver;
use crate::session::{
    call_reply, eval_reply, evaluates, extends, intact, js_birth_prototype, made_view, name_key,
    object_id, own_data, replays, same_vm, Session, Step,
};
use crate::setup::installs_reference;
use crate::value::{list_view, ErrorView, InteropError, ReflectReference, ScriptValue, ScriptView};
use boa_engine::{Context, JsValue};
use std::ops::{Deref, DerefMut};
use vstd::prelude::*;
use vstd::string::*;

verus! {

broadcast use crate::session::lemma_extends_earlier;

/// A script value that takes part in conversions to and from the values of the engine.
#[derive(Debug)]
pub struct JsScriptValue(pub ScriptValue);

impl View for JsScriptValue {
    type V = ScriptView;

    open spec fn view(&self) -> ScriptView {
        self.0@
    }
}

impl Clone for JsScriptValue {
    fn clone(&self) -> (copy: JsScriptValue)
        ensures
            copy@ == self@,
    {
        JsScriptValue(self.0.clone())
    }
}

impl Deref for JsScriptValue {
    type Target = ScriptValue;

    fn deref(&self) -> (value: &ScriptValue)
        ensures
            *value == self.0,
    {
        &self.0
    }
}

impl DerefMut for JsScriptValue {
    fn deref_mut(&mut self) -> (value: &mut ScriptValue)
        ensures
            *value == old(self).0,
            final(self).0 == *final(value),
    {
        &mut self.0
    }
}

impl From<ScriptValue> for JsScriptValue {
    fn from(value: ScriptValue) -> (wrapped: JsScriptValue) {
        JsScriptValue(value)
    }
}

impl vstd::std_specs::convert::FromSpecImpl<ScriptValue> for JsScriptValue {
    open spec fn obeys_from_spec() -> bool {
        true
    }

    open spec fn from_spec(value: ScriptValue) -> JsScriptValue {
        JsScriptValue(value)
    }
}

impl From<JsScriptValue> for ScriptValue {
    fn from(wrapped: JsScriptValue) -> (value: ScriptValue) {
        wrapped.0
    }
}

impl vstd::std_specs::convert::FromSpecImpl<JsScriptValue> for ScriptValue {
    open spec fn obeys_from_spec() -> bool {
        true
    }

    open spec fn from_spec(wrapped: JsScriptValue) -> ScriptValue {
        wrapped.0
    }
}

/// Converts a value of the engine into a Rust type.
///
/// Implementors may need the virtual machine to read objects, and the host application to store
/// functions. Both are only there for the duration of the call.
pub trait FromJs: Sized {
    /// Converts `value`, or says why it has no representation as `Self`.
    fn from_js<H: Fn(Query) -> Answer + Copy + 'static>(
        value: &JsValue,
        context: &mut Context,
        session: &mut Session<H>,
    ) -> (result: Result<Self, InteropError>)
        requires
            old(session).ready(*old(context)),
            lives_in(js_view(*value), *old(context)),
    ;
}

/// Converts a Rust value into a value of the engine.
///
/// Implementors may make objects, arrays and functions in the virtual machine, to which the value
/// then belongs.
pub trait IntoJs: Sized {
    /// Makes the value of the engine, or says why there is none.
    fn into_js<H: Fn(Query) -> Answer + Copy + 'static>(
        self,
        context: &mut Context,
        session: &mut Session<H>,
    ) -> (result: Result<JsValue, InteropError>)
        requires
            old(session).ready(*old(context)),
    ;
}

/// The result of a conversion as contracts see it.
pub open spec fn wrapped_view(result: Result<JsScriptValue, InteropError>) -> Result<
    ScriptView,
    ErrorView,
> {
    match result {
        Ok(value) => Ok(value@),
        Err(error) => Err(error@),
    }
}

impl FromJs for JsScriptValue {
    fn from_js<H: Fn(Query) -> Answer + Copy + 'static>(
        value: &JsValue,
        context: &mut Context,
        session: &mut Session<H>,
    ) -> (result: Result<JsScriptValue, InteropError>)
        ensures
            final(session).follows(*old(session)),
            final(session).attached(*final(context)),
            same_vm(*old(context), *final(context)),
            result matches Ok(converted) ==> converted.0.wf(),
            hands_over(*old(context), js_view(*value), wrapped_view(result), *final(context)),
            replays(
                |j: Seq<Step>, p: nat| from_js_run(js_view(*value), DEPTH_LIMIT as nat, j, p),
                old(session).journal(),
                final(session).journal(),
                wrapped_view(result),
            ),
            from_js_effect(
                *old(context),
                js_view(*value),
                DEPTH_LIMIT as nat,
                wrapped_view(result),
                *final(context),
            ),
    {
        match value_from_js(value, DEPTH_LIMIT, context, session) {
            Err(error) => Err(error),
            Ok(value) => Ok(JsScriptValue(value)),
        }
    }
}

impl IntoJs for JsScriptValue {
    fn into_js<H: Fn(Query) -> Answer + Copy + 'static>(
        self,
        context: &mut Context,
        session: &mut Session<H>,
    ) -> (result: Result<JsValue, InteropError>)
        ensures
            result matches Ok(value) ==> lives_in(js_view(value), *final(context)),
            final(session).follows(*old(session)),
            final(session).attached(*final(context)),
            same_vm(*old(context), *final(context)),
            replays(
                |j: Seq<Step>, p: nat| into_js_run(self.0, j, p),
                old(session).journal(),
                final(session).journal(),
                made_view(result),
            ),
            into_js_effect(*old(context), self.0, made_view(result), *final(context)),
            wraps_in_place(*old(context), self.0, made_view(result)),
            renders(self.0, made_view(result), *final(context)),
            equipped(*old(context)) ==> keeps(*old(context), *final(context)),
    {
        value_into_js(&self.0, context, session)
    }
}

/// What goes into a virtual machine as data comes out of it as it was.
///
/// The virtual machine has the engine's own `Object.keys` if maps are among the data, and the
/// prototype of reference wrappers if references are.
pub proof fn law_data_comes_back(
    before: Context,
    value: ScriptValue,
    made: Result<JsView, ErrorView>,
    between: Context,
    result: Result<ScriptView, ErrorView>,
    after: Context,
    references: bool,
    depth: nat,
)
    requires
        mapless(value@) || intact(before),
        references ==> equipped(before),
        portable(value, references, depth),
        depth <= DEPTH_LIMIT,
        into_js_effect(before, value, made, between),
        made is Ok ==> from_js_effect(between, made->Ok_0, DEPTH_LIMIT as nat, result, after),
    ensures
        made is Ok,
        result == Ok::<ScriptView, ErrorView>(value@),
{
    if intact(before) {
        lemma_keeps_intact(before, between);
    }
    assert(reachable(
        between,
        Seq::empty(),
        made->Ok_0,
        DEPTH_LIMIT as nat,
        value@,
        depth,
    ));
}

/// What a script hands over as data and is handed back holds the same data.
///
/// The virtual machine has the prototype of reference wrappers, unless no references are among the
/// data.
pub proof fn law_data_goes_back(
    before: Context,
    view: JsView,
    value: ScriptValue,
    between: Context,
    made: Result<JsView, ErrorView>,
    after: Context,
    references: bool,
    depth: nat,
)
    requires
        mapless(value@) || intact(before),
        denotes(js_heap(before), view, value@, depth),
        depth <= DEPTH_LIMIT,
        value.wf(),
        from_js_effect(before, view, DEPTH_LIMIT as nat, Ok(value@), between),
        references ==> equipped(between),
        !references ==> portable(value, false, depth),
        into_js_effect(between, value, made, after),
    ensures
        made is Ok,
        denotes(js_heap(after), made->Ok_0, value@, depth),
{
    lemma_denoted_is_portable(js_heap(before), view, value, depth);
    assert(portable(value, references, depth));
}

/// A text without lone surrogates that a script hands over and is handed back is the same text.
pub proof fn law_text_goes_back(
    before: Context,
    text: Seq<char>,
    value: ScriptValue,
    between: Context,
    j: Seq<Step>,
    p: nat,
)
    requires
        hands_over(before, JsView::Str(js_units(text)), Ok(value@), between),
    ensures
        value@ == ScriptView::String(text),
        into_js_run(value, j, p) == Some(
            (Ok::<JsView, ErrorView>(JsView::Str(js_units(text))), p),
        ),
{
}

/// A host value that is handed to a script after the class of references was installed has
/// `ReflectReference.prototype`, methods that are called on it find the host value, and it is handed
/// back as the same host value.
pub proof fn law_references_come_back(
    before: Context,
    installed: Context,
    reference: ReflectReference,
    made: Result<JsView, ErrorView>,
    j: Seq<Step>,
    p: nat,
)
    requires
        exists|class: JsView, prototype: JsView| #[trigger]
            installs_reference(before, installed, class, prototype),
        wraps_in_place(installed, ScriptValue::Reference(reference), made),
    ensures
        made is Ok,
        own_data(
            js_heap(installed),
            js_global(installed),
            name_key("ReflectReference"@),
        ) matches Some(class) && own_data(js_heap(installed), class, name_key("prototype"@))
            == js_birth_prototype(made->Ok_0),
        js_birth_prototype(made->Ok_0) is Some,
        receiver(made->Ok_0) == Ok::<ReflectReference, FailureView>(reference),
        from_js_run(made->Ok_0, DEPTH_LIMIT as nat, j, p) == Some(
            (Ok::<ScriptView, ErrorView>(ScriptView::Reference(reference)), p),
        ),
{
    let (class, prototype) = choose|class: JsView, prototype: JsView| #[trigger]
        installs_reference(before, installed, class, prototype);
    assert(wraps_with(installed, prototype));
}

/// Calling a function of a script from the host application.
pub open spec fn call_function_run(
    id: u64,
    arguments: Seq<ScriptValue>,
    j: Seq<Step>,
    p: nat,
) -> Option<(ScriptView, nat)> {
    match elements_run(arguments, 0, Seq::empty(), j, p) {
        None => None,
        Some((Err(error), q)) => Some((ScriptView::Error(error), q)),
        Some((Ok(converted), q)) => match call_stored_run(id, converted, j, q) {
            None => None,
            Some((Err(error), r)) => Some((ScriptView::Error(error), r)),
            Some((Ok(returned), r)) => match from_js_run(returned, DEPTH_LIMIT as nat, j, r) {
                None => None,
                Some((Err(error), t)) => Some((ScriptView::Error(error), t)),
                Some((Ok(value), t)) => Some((value, t)),
            },
        },
    }
}

/// A function of a script was called with what arguments convert to, and what it returned was
/// converted. What went wrong came back as an error value.
pub open spec fn calls_script(
    function: JsView,
    arguments: Seq<ScriptValue>,
    j: Seq<Step>,
    p: nat,
    value: ScriptView,
) -> bool {
    match elements_run(arguments, 0, Seq::empty(), j, p) {
        Some((Ok(converted), q)) => exists|at: nat|
            q <= at && (#[trigger] call_reply(j, at, function, converted) matches Some(reply)
                && match reply {
                Err(text) => value == ScriptView::Error(ErrorView::Invariant(text)),
                Ok(returned) => from_js_run(returned, DEPTH_LIMIT as nat, j, at + 1) matches Some(
                    (result, _),
                ) && match result {
                    Err(error) => value == ScriptView::Error(error),
                    Ok(own) => value == own,
                },
            }),
        Some((Err(error), _)) => value == ScriptView::Error(error),
        None => false,
    }
}

/// A function that the registry keeps, it keeps while the heap grows.
proof fn lemma_still_keeps_function(before: Context, after: Context, id: u64, function: JsView)
    requires
        keeps(before, after),
        keeps_function(before, id, function),
    ensures
        keeps_function(after, id, function),
{
    assert(js_heap(before).contains_key(object_id(js_global(before))));
    assert(js_heap(before).contains_key(object_id(registry_in(before)->0)));
}

/// The value of a conversion, in which an error is a value too.
pub open spec fn or_error(result: Result<ScriptView, ErrorView>) -> ScriptView {
    match result {
        Ok(value) => value,
        Err(error) => ScriptView::Error(error),
    }
}

/// A function of a script was run with arguments that hold script values that can be handed over, in
/// their order. The value is what it returned, and what went wrong is an error as a value.
pub open spec fn runs_holding(
    before: Context,
    function: JsView,
    arguments: Seq<ScriptValue>,
    value: ScriptView,
    last: Context,
) -> bool {
    forall|references: bool, depth: nat| #[trigger]
        all_portable(arguments, references, depth) ==> exists|
            between: Context,
            given: Seq<JsView>,
            result: Result<JsView, ErrorView>,
            after: Context,
        |
            {
                &&& #[trigger] runs_function(function, given, result, after)
                &&& #[trigger] keeps(before, between)
                &&& given.len() == arguments.len()
                &&& all_denote(js_heap(between), given, list_view(arguments), depth)
                &&& match result {
                    Err(error) => value == ScriptView::Error(error),
                    Ok(returned) => exists|reply: Result<ScriptView, ErrorView>|
                        value == or_error(reply) && #[trigger] from_js_effect(
                            after,
                            returned,
                            DEPTH_LIMIT as nat,
                            reply,
                            last,
                        ),
                }
            }
}

/// Calls the function of a script that was stored under a number. What goes wrong comes back as
/// an error value.
pub fn call_function<H: Fn(Query) -> Answer + Copy + 'static>(
    id: u64,
    arguments: &Vec<ScriptValue>,
    context: &mut Context,
    session: &mut Session<H>,
) -> (value: ScriptValue)
    requires
        old(session).ready(*old(context)),
    ensures
        final(session).follows(*old(session)),
        final(session).attached(*final(context)),
        same_vm(*old(context), *final(context)),
        forall|function: JsView| #[trigger]
            keeps_function(*old(context), id, function) && (function matches JsView::Object(own)
                && own.callable) && equipped(*old(context)) ==> calls_script(
                function,
                arguments@,
                final(session).journal(),
                old(session).journal().len(),
                value@,
            ),
        forall|function: JsView| #[trigger]
            keeps_function(*old(context), id, function) && (function matches JsView::Object(own)
                && own.callable) && equipped(*old(context)) ==> runs_holding(
                *old(context),
                function,
                arguments@,
                value@,
                *final(context),
            ),
        replays(
            |j: Seq<Step>, p: nat| call_function_run(id, arguments@, j, p),
            old(session).journal(),
            final(session).journal(),
            value@,
        ),
{
    let ghost first = *context;
    let converted = match elements_into_js(arguments, context, session) {
        Err(error) => {
            assert(extends(session.journal(), session.journal()));
            return ScriptValue::Error(error);
        },
        Ok(converted) => converted,
    };
    let ghost between = *context;
    let ghost start = session.journal();
    proof {
        assert forall|function: JsView| #[trigger]
            keeps_function(first, id, function) && equipped(first) implies keeps_function(
            between,
            id,
            function,
        ) by {
            lemma_still_keeps_function(first, between, id, function);
        }
    }
    let returned = match call_stored(id, &converted, context, session) {
        Err(error) => {
            assert(extends(session.journal(), start));
            return ScriptValue::Error(error);
        },
        Ok(returned) => returned,
    };
    let ghost called = session.journal();
    assert(extends(called, start));
    let value = match value_from_js(&returned, DEPTH_LIMIT, context, session) {
        Err(error) => ScriptValue::Error(error),
        Ok(value) => value,
    };
    proof {
        let j = session.journal();
        assert(extends(j, j) && extends(j, called) && extends(j, start));
        assert(j[called.len() - 1] == called[called.len() - 1]);
    }
    value
}

/// Evaluating a text.
pub open spec fn eval_run(source: Seq<u8>, j: Seq<Step>, p: nat) -> Option<
    (Result<JsView, ErrorView>, nat),
> {
    match eval_reply(j, p, source) {
        None => None,
        Some(Err(text)) => Some((Err(ErrorView::Invariant(text)), p + 1)),
        Some(Ok(value)) => Some((Ok(value), p + 1)),
    }
}

/// The reply of the engine, by the result that was made of it.
pub open spec fn engine_reply(result: Result<JsView, ErrorView>) -> Result<JsView, Seq<char>> {
    match result {
        Ok(value) => Ok(value),
        Err(error) => Err(error->Invariant_0),
    }
}

/// Evaluates a text in a virtual machine.
pub fn eval_in_context<H: Fn(Query) -> Answer + Copy + 'static>(
    source: &str,
    context: &mut Context,
    session: &mut Session<H>,
) -> (result: Result<JsValue, InteropError>)
    requires
        old(session).attached(*old(context)),
    ensures
        result matches Ok(value) ==> lives_in(js_view(value), *final(context)),
        final(session).follows(*old(session)),
        final(session).attached(*final(context)),
        same_vm(*old(context), *final(context)),
        made_view(result) matches Err(error) ==> error is Invariant,
        evaluates(
            *old(context),
            source.spec_bytes(),
            engine_reply(made_view(result)),
            *final(context),
        ),
        replays(
            |j: Seq<Step>, p: nat| eval_run(source.spec_bytes(), j, p),
            old(session).journal(),
            final(session).journal(),
            made_view(result),
        ),
{
    match session.eval(context, source.as_bytes()) {
        Err(text) => Err(InteropError::Invariant(text)),
        Ok(value) => Ok(value),
    }
}

} // verus!
