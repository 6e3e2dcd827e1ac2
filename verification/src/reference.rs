//! Host values in scripts.
use crate::calls::{
    argument, argument_at, arguments_of, ask_done, ask_value, convert, convert_all, convert_all_run,
    convert_run, converts, done_run, find, find_run, first_name, gives_answer, hand_back,
    hand_back_run, lemma_converts, name_argument, or_throw, part_of, put_property, put_run,
    reach_world, reply_of, throw, value_run, world_run, Blame,
};
use crate::components::{is_qb_componentish_method, resolve_all, resolve_all_run, takes_components};
use crate::data::{keeps, lemma_sealed, portable, sealed};
use crate::dialogue::asks;
use crate::engine::{
    alike_data, boolean_value, js_heap, js_units, js_view, kind_of, lemma_alike_data_through,
    live_in, lives_in, reference_of, small_integer_value, token_of, undefined_value, FailureView,
    JsFailure, JsKind, JsView,
};
use crate::from_js::{reachable, DEPTH_LIMIT};
use crate::host::{Answer, CallTarget, Query, QueryView};
use crate::native::Native;
use crate::session::{
    and_then, bare_properties, data_of, extends, function_reply, host_reply, js_views, lemma_sets,
    name_key, named_reply, object_id, object_reply, own_properties, put_effect, replays, same_vm,
    Key, KeyView, Session, Step,
};
use crate::text::joined;
use crate::value::{
    list_view, ErrorView, FunctionRef, HostType, ReflectReference, ScriptValue, ScriptView,
};
use boa_engine::{Context, JsValue};
use std::any::TypeId;
use vstd::prelude::*;

verus! {

broadcast use {crate::from_js::lemma_reachable_later, crate::session::lemma_extends_earlier};

/// A host value as scripts hold it.
#[derive(Debug, PartialEq)]
pub struct JsReflectReference(pub ReflectReference);

impl Clone for JsReflectReference {
    fn clone(&self) -> (copy: JsReflectReference)
        ensures
            copy == *self,
    {
        JsReflectReference(self.0)
    }
}

impl From<ReflectReference> for JsReflectReference {
    fn from(reference: ReflectReference) -> (wrapped: JsReflectReference) {
        JsReflectReference(reference)
    }
}

impl vstd::std_specs::convert::FromSpecImpl<ReflectReference> for JsReflectReference {
    open spec fn obeys_from_spec() -> bool {
        true
    }

    open spec fn from_spec(reference: ReflectReference) -> JsReflectReference {
        JsReflectReference(reference)
    }
}

impl From<JsReflectReference> for ReflectReference {
    fn from(wrapped: JsReflectReference) -> (reference: ReflectReference) {
        wrapped.0
    }
}

impl vstd::std_specs::convert::FromSpecImpl<JsReflectReference> for ReflectReference {
    open spec fn obeys_from_spec() -> bool {
        true
    }

    open spec fn from_spec(wrapped: JsReflectReference) -> ReflectReference {
        wrapped.0
    }
}

/// A type of the host application as scripts hold it.
#[derive(Debug, Clone, Copy, PartialEq)]
pub struct JsStaticReflectReference(pub TypeId);

/// The host value that a method is called on.
pub open spec fn receiver(this: JsView) -> Result<ReflectReference, FailureView> {
    match this {
        JsView::Object(object) => match object.reference {
            Some(reference) => Ok(ReflectReference(reference)),
            None => Err(FailureView::WrongType("this is not a ReflectReference"@)),
        },
        _ => Err(FailureView::WrongType("ReflectReference method called on non-object"@)),
    }
}

/// The host value that a method is called on.
pub fn rr_this(this: &JsValue) -> (result: Result<ReflectReference, JsFailure>)
    ensures
        part_of(result) == receiver(js_view(*this)),
{
    if kind_of(this) != JsKind::Object {
        return Err(
            JsFailure::WrongType("ReflectReference method called on non-object".to_owned()),
        );
    }
    match reference_of(this) {
        Some(reference) => Ok(ReflectReference(reference)),
        None => Err(JsFailure::WrongType("this is not a ReflectReference".to_owned())),
    }
}

/// Reading a field of a host value.
pub open spec fn rr_get_run(this: JsView, arguments: Seq<JsView>, j: Seq<Step>, p: nat) -> Option<
    (Result<JsView, FailureView>, nat),
> {
    and_then(
        world_run(j, p),
        |unit: (), p: nat|
            and_then(
                Some((receiver(this), p)),
                |target: ReflectReference, p: nat|
                    and_then(
                        convert_run(Blame::Script, argument(arguments, 0), j, p),
                        |key: ScriptView, p: nat|
                            and_then(
                                or_throw(
                                    Blame::Host,
                                    value_run(QueryView::GetField { target, key }, j, p),
                                    j,
                                ),
                                |value: ScriptValue, p: nat| hand_back_run(value, j, p),
                            ),
                    ),
            ),
    )
}

/// `get(key)`: reads a field of a host value.
pub fn rr_get<H: Fn(Query) -> Answer + Copy + 'static>(
    this: &JsValue,
    arguments: &[JsValue],
    context: &mut Context,
    session: &mut Session<H>,
) -> (result: Result<JsValue, JsFailure>)
    requires
        old(session).ready(*old(context)),
        lives_in(js_view(*this), *old(context)),
        live_in(js_views(arguments@), *old(context)),
    ensures
        gives_answer(
            *old(context),
            final(session).journal(),
            old(session).journal().len(),
            reply_of(result),
            *final(context),
        ),
        result matches Ok(value) ==> lives_in(js_view(value), *final(context)),
        final(session).follows(*old(session)),
        final(session).attached(*final(context)),
        same_vm(*old(context), *final(context)),
        replays(
            |j: Seq<Step>, p: nat| rr_get_run(js_view(*this), js_views(arguments@), j, p),
            old(session).journal(),
            final(session).journal(),
            reply_of(result),
        ),
{
    reach_world(session)?;
    let target = rr_this(this)?;
    let key = convert(Blame::Script, &argument_at(arguments, 0), context, session)?;
    let value = ask_value(Query::GetField { target, key }, context, session)?;
    hand_back(&value, context, session)
}

/// Writing a field of a host value, when the host value is known.
pub open spec fn set_field_run(
    target: ReflectReference,
    key: JsView,
    value: JsView,
    j: Seq<Step>,
    p: nat,
) -> Option<(Result<JsView, FailureView>, nat)> {
    and_then(
        convert_run(Blame::Script, key, j, p),
        |key: ScriptView, p: nat|
            and_then(
                convert_run(Blame::Script, value, j, p),
                |value: ScriptView, p: nat|
                    and_then(
                        or_throw(
                            Blame::Host,
                            done_run(QueryView::SetField { target, key, value }, j, p),
                            j,
                        ),
                        |unit: (), p: nat| Some((Ok(JsView::Undefined), p)),
                    ),
            ),
    )
}

/// The host application was told to write a field of a host value, and did.
pub open spec fn told_to_write(
    j: Seq<Step>,
    p: nat,
    target: ReflectReference,
    key: ScriptView,
    value: ScriptView,
) -> bool {
    exists|at: nat|
        p <= at < j.len() && #[trigger] asks(
            j,
            at,
            QueryView::SetField { target, key, value },
            Answer::Done,
        )
}

/// The host application was told to write a field of a host value, and did, under the key and with the
/// value that two values of a virtual machine hold.
pub open spec fn writes_held(
    before: Context,
    target: ReflectReference,
    key: JsView,
    value: JsView,
    j: Seq<Step>,
    p: nat,
) -> bool {
    forall|own: ScriptView, depth: nat, held: ScriptView, other: nat|
        #![trigger
            reachable(before, Seq::empty(), key, DEPTH_LIMIT as nat, own, depth),
            reachable(before, Seq::empty(), value, DEPTH_LIMIT as nat, held, other)]
        reachable(before, Seq::empty(), key, DEPTH_LIMIT as nat, own, depth) && reachable(
            before,
            Seq::empty(),
            value,
            DEPTH_LIMIT as nat,
            held,
            other,
        ) ==> told_to_write(j, p, target, own, held)
}

/// Writes a field of a host value.
fn set_field<H: Fn(Query) -> Answer + Copy + 'static>(
    target: ReflectReference,
    key: &JsValue,
    value: &JsValue,
    context: &mut Context,
    session: &mut Session<H>,
) -> (result: Result<JsValue, JsFailure>)
    requires
        old(session).ready(*old(context)),
        lives_in(js_view(*key), *old(context)),
        lives_in(js_view(*value), *old(context)),
    ensures
        result matches Ok(value) ==> lives_in(js_view(value), *final(context)),
        final(session).follows(*old(session)),
        final(session).attached(*final(context)),
        same_vm(*old(context), *final(context)),
        result is Ok ==> writes_held(
            *old(context),
            target,
            js_view(*key),
            js_view(*value),
            final(session).journal(),
            old(session).journal().len(),
        ),
        replays(
            |j: Seq<Step>, p: nat| set_field_run(target, js_view(*key), js_view(*value), j, p),
            old(session).journal(),
            final(session).journal(),
            reply_of(result),
        ),
{
    let key = convert(Blame::Script, key, context, session)?;
    let value = convert(Blame::Script, value, context, session)?;
    ask_done(Query::SetField { target, key, value }, context, session)?;
    proof {
        let query = QueryView::SetField { target, key: key@, value: value@ };
        let last = (session.journal().len() - 1) as nat;
        assert(extends(session.journal(), session.journal()));
        assert(asks(session.journal(), last, query, Answer::Done));
    }
    Ok(undefined_value())
}

/// Writing a field of a host value.
pub open spec fn rr_set_run(this: JsView, arguments: Seq<JsView>, j: Seq<Step>, p: nat) -> Option<
    (Result<JsView, FailureView>, nat),
> {
    and_then(
        world_run(j, p),
        |unit: (), p: nat|
            and_then(
                Some((receiver(this), p)),
                |target: ReflectReference, p: nat|
                    set_field_run(target, argument(arguments, 0), argument(arguments, 1), j, p),
            ),
    )
}

/// `set(key, value)`: writes a field of a host value.
pub fn rr_set<H: Fn(Query) -> Answer + Copy + 'static>(
    this: &JsValue,
    arguments: &[JsValue],
    context: &mut Context,
    session: &mut Session<H>,
) -> (result: Result<JsValue, JsFailure>)
    requires
        old(session).ready(*old(context)),
        lives_in(js_view(*this), *old(context)),
        live_in(js_views(arguments@), *old(context)),
    ensures
        result matches Ok(value) ==> lives_in(js_view(value), *final(context)),
        final(session).follows(*old(session)),
        final(session).attached(*final(context)),
        same_vm(*old(context), *final(context)),
        result is Ok ==> receiver(js_view(*this)) is Ok && writes_held(
            *old(context),
            receiver(js_view(*this))->Ok_0,
            argument(js_views(arguments@), 0),
            argument(js_views(arguments@), 1),
            final(session).journal(),
            old(session).journal().len(),
        ),
        replays(
            |j: Seq<Step>, p: nat| rr_set_run(js_view(*this), js_views(arguments@), j, p),
            old(session).journal(),
            final(session).journal(),
            reply_of(result),
        ),
{
    reach_world(session)?;
    let target = rr_this(this)?;
    set_field(target, &argument_at(arguments, 0), &argument_at(arguments, 1), context, session)
}

/// The host value that the first argument wraps.
pub open spec fn first_reference(arguments: Seq<JsView>) -> Result<ReflectReference, FailureView> {
    match argument(arguments, 0) {
        JsView::Object(object) => match object.reference {
            Some(reference) => Ok(ReflectReference(reference)),
            None => Err(FailureView::WrongType("first argument is not a ReflectReference"@)),
        },
        _ => Err(FailureView::WrongType("expected ReflectReference object as first argument"@)),
    }
}

/// The host value that the first argument wraps.
pub fn arg_as_rr(arguments: &[JsValue]) -> (result: Result<ReflectReference, JsFailure>)
    ensures
        part_of(result) == first_reference(js_views(arguments@)),
{
    let first = argument_at(arguments, 0);
    if kind_of(&first) != JsKind::Object {
        return Err(
            JsFailure::WrongType("expected ReflectReference object as first argument".to_owned()),
        );
    }
    match reference_of(&first) {
        Some(reference) => Ok(ReflectReference(reference)),
        None => Err(JsFailure::WrongType("first argument is not a ReflectReference".to_owned())),
    }
}

/// Writing a field of the host value that is the first argument.
pub open spec fn rr_static_set_run(this: JsView, arguments: Seq<JsView>, j: Seq<Step>, p: nat) -> Option<
    (Result<JsView, FailureView>, nat),
> {
    and_then(
        world_run(j, p),
        |unit: (), p: nat|
            and_then(
                Some((first_reference(arguments), p)),
                |target: ReflectReference, p: nat|
                    set_field_run(target, argument(arguments, 1), argument(arguments, 2), j, p),
            ),
    )
}

/// `ref_set(reference, key, value)`: writes a field of a host value.
pub fn rr_static_set<H: Fn(Query) -> Answer + Copy + 'static>(
    this: &JsValue,
    arguments: &[JsValue],
    context: &mut Context,
    session: &mut Session<H>,
) -> (result: Result<JsValue, JsFailure>)
    requires
        old(session).ready(*old(context)),
        lives_in(js_view(*this), *old(context)),
        live_in(js_views(arguments@), *old(context)),
    ensures
        result matches Ok(value) ==> lives_in(js_view(value), *final(context)),
        final(session).follows(*old(session)),
        final(session).attached(*final(context)),
        same_vm(*old(context), *final(context)),
        result is Ok ==> first_reference(js_views(arguments@)) is Ok && writes_held(
            *old(context),
            first_reference(js_views(arguments@))->Ok_0,
            argument(js_views(arguments@), 1),
            argument(js_views(arguments@), 2),
            final(session).journal(),
            old(session).journal().len(),
        ),
        replays(
            |j: Seq<Step>, p: nat| rr_static_set_run(js_view(*this), js_views(arguments@), j, p),
            old(session).journal(),
            final(session).journal(),
            reply_of(result),
        ),
{
    reach_world(session)?;
    let target = arg_as_rr(arguments)?;
    set_field(target, &argument_at(arguments, 1), &argument_at(arguments, 2), context, session)
}

/// The length of a host value as a number of the engine, which keeps its low 32 bits.
pub open spec fn length_view(length: Option<u64>) -> JsView {
    match length {
        Some(count) => JsView::Integer(count as i32),
        None => JsView::Undefined,
    }
}

/// Asking for the length of a host value.
pub open spec fn rr_len_run(this: JsView, arguments: Seq<JsView>, j: Seq<Step>, p: nat) -> Option<
    (Result<JsView, FailureView>, nat),
> {
    and_then(
        world_run(j, p),
        |unit: (), p: nat|
            and_then(
                Some((receiver(this), p)),
                |target: ReflectReference, p: nat|
                    and_then(
                        or_throw(
                            Blame::Host,
                            match host_reply(j, p, QueryView::Length(target)) {
                                None => None,
                                Some(answer) => Some((answer.spec_length(), p + 1)),
                            },
                            j,
                        ),
                        |length: Option<u64>, p: nat| Some((Ok(length_view(length)), p)),
                    ),
            ),
    )
}

/// `len()`: the length of a host value, or `undefined` if it has none.
pub fn rr_len<H: Fn(Query) -> Answer + Copy + 'static>(
    this: &JsValue,
    arguments: &[JsValue],
    context: &mut Context,
    session: &mut Session<H>,
) -> (result: Result<JsValue, JsFailure>)
    requires
        old(session).ready(*old(context)),
        lives_in(js_view(*this), *old(context)),
        live_in(js_views(arguments@), *old(context)),
    ensures
        result matches Ok(value) ==> lives_in(js_view(value), *final(context)),
        final(session).follows(*old(session)),
        final(session).attached(*final(context)),
        same_vm(*old(context), *final(context)),
        replays(
            |j: Seq<Step>, p: nat| rr_len_run(js_view(*this), js_views(arguments@), j, p),
            old(session).journal(),
            final(session).journal(),
            reply_of(result),
        ),
{
    reach_world(session)?;
    let target = rr_this(this)?;
    match session.ask(Query::Length(target)).length() {
        Ok(Some(count)) => Ok(small_integer_value(count as i32)),
        Ok(None) => Ok(undefined_value()),
        Err(error) => Err(throw(Blame::Host, error, session)),
    }
}

/// Calling a function of the host application on a host value.
pub open spec fn call_on(function: u64, target: ReflectReference) -> QueryView {
    QueryView::Invoke {
        function: FunctionRef::Host(function),
        arguments: seq![ScriptView::Reference(target)],
    }
}

/// Calls a function of the host application on a host value.
fn invoke_on<H: Fn(Query) -> Answer + Copy + 'static>(
    function: u64,
    target: ReflectReference,
    context: &mut Context,
    session: &mut Session<H>,
) -> (result: Result<ScriptValue, JsFailure>)
    requires
        old(session).ready(*old(context)),
    ensures
        final(session).follows(*old(session)),
        final(session).attached(*final(context)),
        same_vm(*old(context), *final(context)),
        replays(
            |j: Seq<Step>, p: nat|
                or_throw(Blame::Host, value_run(call_on(function, target), j, p), j),
            old(session).journal(),
            final(session).journal(),
            part_of(result),
        ),
{
    let mut arguments: Vec<ScriptValue> = Vec::new();
    arguments.push(ScriptValue::Reference(target));
    assert(list_view(arguments@) == seq![ScriptView::Reference(target)]);
    ask_value(Query::Invoke { function: FunctionRef::Host(function), arguments }, context, session)
}

/// Asking for the text of a host value.
pub open spec fn rr_to_string_run(this: JsView, arguments: Seq<JsView>, j: Seq<Step>, p: nat) -> Option<
    (Result<JsView, FailureView>, nat),
> {
    and_then(
        world_run(j, p),
        |unit: (), p: nat|
            and_then(
                Some((receiver(this), p)),
                |target: ReflectReference, p: nat|
                    and_then(
                        find_run(
                            HostType::ReflectReference,
                            "display_ref"@,
                            "missing function display_ref: "@,
                            j,
                            p,
                        ),
                        |function: u64, p: nat|
                            and_then(
                                or_throw(
                                    Blame::Host,
                                    value_run(call_on(function, target), j, p),
                                    j,
                                ),
                                |value: ScriptValue, p: nat| hand_back_run(value, j, p),
                            ),
                    ),
            ),
    )
}

/// `toString()`: the text of a host value.
pub fn rr_to_string<H: Fn(Query) -> Answer + Copy + 'static>(
    this: &JsValue,
    arguments: &[JsValue],
    context: &mut Context,
    session: &mut Session<H>,
) -> (result: Result<JsValue, JsFailure>)
    requires
        old(session).ready(*old(context)),
        lives_in(js_view(*this), *old(context)),
        live_in(js_views(arguments@), *old(context)),
    ensures
        gives_answer(
            *old(context),
            final(session).journal(),
            old(session).journal().len(),
            reply_of(result),
            *final(context),
        ),
        result matches Ok(value) ==> lives_in(js_view(value), *final(context)),
        final(session).follows(*old(session)),
        final(session).attached(*final(context)),
        same_vm(*old(context), *final(context)),
        replays(
            |j: Seq<Step>, p: nat| rr_to_string_run(js_view(*this), js_views(arguments@), j, p),
            old(session).journal(),
            final(session).journal(),
            reply_of(result),
        ),
{
    reach_world(session)?;
    let target = rr_this(this)?;
    let function: u64 = find(
        HostType::ReflectReference,
        "display_ref",
        "missing function display_ref: ",
        session,
    )?;
    let value = invoke_on(function, target, context, session)?;
    hand_back(&value, context, session)
}

/// Asking for what iterates over a host value.
pub open spec fn stepper_run(this: JsView, j: Seq<Step>, p: nat) -> Option<
    (Result<ScriptValue, FailureView>, nat),
> {
    and_then(
        world_run(j, p),
        |unit: (), p: nat|
            and_then(
                Some((receiver(this), p)),
                |target: ReflectReference, p: nat|
                    and_then(
                        find_run(
                            HostType::ReflectReference,
                            "iter"@,
                            "missing function iter: "@,
                            j,
                            p,
                        ),
                        |function: u64, p: nat|
                            or_throw(
                                Blame::Host,
                                value_run(call_on(function, target), j, p),
                                j,
                            ),
                    ),
            ),
    )
}

/// Asks for what iterates over a host value.
fn ask_stepper<H: Fn(Query) -> Answer + Copy + 'static>(
    this: &JsValue,
    context: &mut Context,
    session: &mut Session<H>,
) -> (result: Result<ScriptValue, JsFailure>)
    requires
        old(session).ready(*old(context)),
    ensures
        final(session).follows(*old(session)),
        final(session).attached(*final(context)),
        same_vm(*old(context), *final(context)),
        replays(
            |j: Seq<Step>, p: nat| stepper_run(js_view(*this), j, p),
            old(session).journal(),
            final(session).journal(),
            part_of(result),
        ),
{
    reach_world(session)?;
    let target = rr_this(this)?;
    let function: u64 = find(
        HostType::ReflectReference,
        "iter",
        "missing function iter: ",
        session,
    )?;
    invoke_on(function, target, context, session)
}

/// Making an iterator object of the function that steps.
pub open spec fn iterator_run(stepper: ScriptValue, j: Seq<Step>, p: nat) -> Option<
    (Result<JsView, FailureView>, nat),
> {
    match stepper {
        ScriptValue::FunctionMut(handle) => match object_reply(j, p) {
            None => None,
            Some(iterator) => match function_reply(j, p + 1, "next"@, 0, Native::Next(handle)) {
                None => None,
                Some(next) => and_then(
                    put_run(iterator, name_key("next"@), next, j, p + 2),
                    |unit: (), p: nat| Some((Ok(iterator), p)),
                ),
            },
        },
        _ => Some((Err(FailureView::General("iter did not return a function"@)), p)),
    }
}

/// Starting to iterate over a host value.
pub open spec fn rr_symbol_iterator_run(
    this: JsView,
    arguments: Seq<JsView>,
    j: Seq<Step>,
    p: nat,
) -> Option<(Result<JsView, FailureView>, nat)> {
    and_then(stepper_run(this, j, p), |value: ScriptValue, p: nat| iterator_run(value, j, p))
}

/// Where the host application has a function that steps, there is an iterator, whose one property
/// is the `next` that calls the function.
pub open spec fn iterator_effect(
    this: JsView,
    j: Seq<Step>,
    p: nat,
    reply: Result<JsView, FailureView>,
    after: Context,
) -> bool {
    forall|handle: u64, q: nat| #[trigger]
        iterates(this, handle, j, p, q) ==> {
            &&& reply is Ok
            &&& function_reply(j, q + 1, "next"@, 0, Native::Next(handle)) matches Some(next)
                && holds_exactly(
                after,
                reply->Ok_0,
                Map::<Seq<u16>, JsView>::empty().insert(js_units("next"@), next),
            )
        }
}

/// An object has no prototype, and no other properties than some, but for the form of numbers.
pub open spec fn holds_exactly(
    context: Context,
    object: JsView,
    data: Map<Seq<u16>, JsView>,
) -> bool {
    &&& own_properties(js_heap(context), object) is Some
    &&& bare_properties(js_heap(context), object) is Some
    &&& alike_data(data, own_properties(js_heap(context), object)->0)
}

/// The host application has a function that steps through a host value.
pub open spec fn iterates(this: JsView, handle: u64, j: Seq<Step>, p: nat, q: nat) -> bool {
    stepper_run(this, j, p) == Some(
        (Ok::<ScriptValue, FailureView>(ScriptValue::FunctionMut(handle)), q),
    )
}

/// `[Symbol.iterator]()`: an iterator over a host value.
pub fn rr_symbol_iterator<H: Fn(Query) -> Answer + Copy + 'static>(
    this: &JsValue,
    arguments: &[JsValue],
    context: &mut Context,
    session: &mut Session<H>,
) -> (result: Result<JsValue, JsFailure>)
    requires
        old(session).ready(*old(context)),
        lives_in(js_view(*this), *old(context)),
        live_in(js_views(arguments@), *old(context)),
    ensures
        result matches Ok(value) ==> lives_in(js_view(value), *final(context)),
        final(session).follows(*old(session)),
        final(session).attached(*final(context)),
        same_vm(*old(context), *final(context)),
        replays(
            |j: Seq<Step>, p: nat|
                rr_symbol_iterator_run(js_view(*this), js_views(arguments@), j, p),
            old(session).journal(),
            final(session).journal(),
            reply_of(result),
        ),
        iterator_effect(
            js_view(*this),
            final(session).journal(),
            old(session).journal().len(),
            reply_of(result),
            *final(context),
        ),
{
    let stepper = ask_stepper(this, context, session);
    let ghost asked = session.journal();
    assert(extends(asked, asked));
    match stepper? {
        ScriptValue::FunctionMut(handle) => {
            let iterator = session.new_object(context);
            let next = session.new_function(context, "next", 0, Native::Next(handle));
            let ghost start = *context;
            put_property(&iterator, Key::Name("next"), &next, context, session)?;
            proof {
                assert(extends(session.journal(), asked));
                lemma_put_exactly(
                    start,
                    js_view(iterator),
                    Map::empty(),
                    js_units("next"@),
                    js_view(next),
                    *context,
                );
            }
            Ok(iterator)
        },
        _ => Err(JsFailure::General("iter did not return a function".to_owned())),
    }
}

/// Stepping an iterator over a host value.
pub open spec fn next_run(handle: u64, j: Seq<Step>, p: nat) -> Option<
    (Result<JsView, FailureView>, nat),
> {
    and_then(
        or_throw(
            Blame::Host,
            value_run(QueryView::InvokeMut { function: handle, arguments: Seq::empty() }, j, p),
            j,
        ),
        |value: ScriptValue, p: nat|
            match object_reply(j, p) {
                None => None,
                Some(step) => if value is Unit {
                    and_then(
                        put_run(step, name_key("done"@), JsView::Boolean(true), j, p + 1),
                        |unit: (), p: nat| Some((Ok(step), p)),
                    )
                } else {
                    and_then(
                        hand_back_run(value, j, p + 1),
                        |made: JsView, p: nat|
                            and_then(
                                put_run(step, name_key("value"@), made, j, p),
                                |unit: (), p: nat|
                                    and_then(
                                        put_run(
                                            step,
                                            name_key("done"@),
                                            JsView::Boolean(false),
                                            j,
                                            p,
                                        ),
                                        |unit: (), p: nat| Some((Ok(step), p)),
                                    ),
                            ),
                    )
                },
            },
    )
}

/// A property is put into an object that holds exactly some others.
proof fn lemma_put_exactly(
    before: Context,
    object: JsView,
    data: Map<Seq<u16>, JsView>,
    key: Seq<u16>,
    value: JsView,
    after: Context,
)
    requires
        holds_exactly(before, object, data),
        put_effect(before, object, KeyView::Units(key), value, Ok::<bool, Seq<char>>(true), after),
    ensures
        holds_exactly(after, object, data.insert(key, value)),
{
    let own = data_of(js_heap(before), object);
    lemma_sets(before, object, key, own.insert(key, value), true, true, after);
    lemma_alike_data_through(data, own, data_of(js_heap(after), object), key, value);
}

/// The host application stepped to a value.
pub open spec fn steps_to(handle: u64, value: ScriptValue, j: Seq<Step>, p: nat) -> bool {
    value_run(QueryView::InvokeMut { function: handle, arguments: Seq::empty() }, j, p) == Some(
        (Ok::<ScriptValue, ErrorView>(value), p + 1),
    )
}

/// The properties of a step of an iterator to a value, or past the last one.
pub open spec fn step_data(made: Option<JsView>) -> Map<Seq<u16>, JsView> {
    match made {
        Some(value) => Map::empty().insert(js_units("value"@), value).insert(
            js_units("done"@),
            JsView::Boolean(false),
        ),
        None => Map::empty().insert(js_units("done"@), JsView::Boolean(true)),
    }
}

/// Where the host application has no value left, an iterator is done, and where it has one that a
/// virtual machine can hold as it is, the iterator steps to that value.
pub open spec fn next_effect(
    handle: u64,
    before: Context,
    j: Seq<Step>,
    p: nat,
    reply: Result<JsView, FailureView>,
    after: Context,
) -> bool {
    &&& steps_to(handle, ScriptValue::Unit, j, p) ==> reply is Ok && holds_exactly(
        after,
        reply->Ok_0,
        step_data(None),
    )
    &&& forall|value: ScriptValue, references: bool, depth: nat|
        #![trigger steps_to(handle, value, j, p), portable(value, references, depth)]
        steps_to(handle, value, j, p) && !(value is Unit) && portable(value, references, depth) && (
        references ==> sealed(before)) ==> {
            &&& reply is Ok
            &&& hand_back_run(value, j, p + 2) matches Some((Ok(made), _)) && holds_exactly(
                after,
                reply->Ok_0,
                step_data(Some(made)),
            )
        }
}

/// `next()`: steps an iterator over a host value, until the host application has no value left.
pub fn rr_next<H: Fn(Query) -> Answer + Copy + 'static>(
    handle: u64,
    context: &mut Context,
    session: &mut Session<H>,
) -> (result: Result<JsValue, JsFailure>)
    requires
        old(session).ready(*old(context)),
    ensures
        result matches Ok(value) ==> lives_in(js_view(value), *final(context)),
        final(session).follows(*old(session)),
        final(session).attached(*final(context)),
        same_vm(*old(context), *final(context)),
        replays(
            |j: Seq<Step>, p: nat| next_run(handle, j, p),
            old(session).journal(),
            final(session).journal(),
            reply_of(result),
        ),
        next_effect(
            handle,
            *old(context),
            final(session).journal(),
            old(session).journal().len(),
            reply_of(result),
            *final(context),
        ),
{
    let arguments: Vec<ScriptValue> = Vec::new();
    assert(list_view(arguments@) == Seq::<ScriptView>::empty());
    let value = ask_value(Query::InvokeMut { function: handle, arguments }, context, session);
    let ghost asked = session.journal();
    assert(extends(asked, asked));
    let value = value?;
    let step = session.new_object(context);
    proof {
        if sealed(*old(context)) {
            lemma_sealed(*old(context), *context);
        }
    }
    match value {
        ScriptValue::Unit => {
            let ghost start = *context;
            put_property(&step, Key::Name("done"), &boolean_value(true), context, session)?;
            proof {
                lemma_put_exactly(
                    start,
                    js_view(step),
                    Map::empty(),
                    js_units("done"@),
                    JsView::Boolean(true),
                    *context,
                );
            }
        },
        _ => {
            let ghost empty = *context;
            let made = hand_back(&value, context, session)?;
            let ghost start = *context;
            put_property(&step, Key::Name("value"), &made, context, session)?;
            let ghost between = *context;
            put_property(&step, Key::Name("done"), &boolean_value(false), context, session)?;
            proof {
                if holds_exactly(start, js_view(step), Map::empty()) {
                    lemma_put_exactly(
                        start,
                        js_view(step),
                        Map::empty(),
                        js_units("value"@),
                        js_view(made),
                        between,
                    );
                    lemma_put_exactly(
                        between,
                        js_view(step),
                        Map::empty().insert(js_units("value"@), js_view(made)),
                        js_units("done"@),
                        JsView::Boolean(false),
                        *context,
                    );
                }
                if keeps(empty, start) {
                    assert(js_heap(empty).contains_key(object_id(js_view(step))));
                }
            }
        },
    }
    Ok(step)
}

/// Resolving the arguments of a method that takes components, and leaving those of another one.
pub open spec fn components_run(
    name: Seq<char>,
    values: Seq<ScriptView>,
    j: Seq<Step>,
    p: nat,
) -> Option<(Result<Seq<ScriptView>, FailureView>, nat)> {
    if takes_components(name) {
        or_throw(Blame::Host, resolve_all_run(values, 0, Seq::empty(), j, p), j)
    } else {
        Some((Ok(values), p))
    }
}

/// Resolves the arguments of a method that takes components.
fn resolve_components<H: Fn(Query) -> Answer + Copy + 'static>(
    name: &String,
    values: Vec<ScriptValue>,
    context: &mut Context,
    session: &mut Session<H>,
) -> (result: Result<Vec<ScriptValue>, JsFailure>)
    requires
        old(session).ready(*old(context)),
    ensures
        final(session).follows(*old(session)),
        final(session).attached(*final(context)),
        same_vm(*old(context), *final(context)),
        replays(
            |j: Seq<Step>, p: nat| components_run(name@, list_view(values@), j, p),
            old(session).journal(),
            final(session).journal(),
            arguments_of(result),
        ),
{
    if is_qb_componentish_method(name) {
        match resolve_all(&values, context, session) {
            Ok(resolved) => Ok(resolved),
            Err(error) => Err(throw(Blame::Host, error, session)),
        }
    } else {
        Ok(values)
    }
}

/// The arguments of a method call, with the host value that it is called on as the first one.
pub open spec fn with_receiver(target: ReflectReference, values: Seq<ScriptView>) -> Seq<
    ScriptView,
> {
    seq![ScriptView::Reference(target)] + values
}

/// Puts the host value that a method is called on before the arguments.
fn prepend_receiver(target: ReflectReference, values: Vec<ScriptValue>) -> (all: Vec<ScriptValue>)
    ensures
        list_view(all@) == with_receiver(target, list_view(values@)),
{
    let mut all: Vec<ScriptValue> = Vec::new();
    all.push(ScriptValue::Reference(target));
    let mut values = values;
    all.append(&mut values);
    all
}

/// Calling an overloaded function of the host application, and handing its value back.
pub open spec fn overloads_run(
    on: CallTarget,
    name: Seq<char>,
    values: Seq<ScriptView>,
    j: Seq<Step>,
    p: nat,
) -> Option<(Result<JsView, FailureView>, nat)> {
    and_then(
        or_throw(
            Blame::Host,
            value_run(QueryView::CallOverloads { on, name, arguments: values }, j, p),
            j,
        ),
        |value: ScriptValue, p: nat| hand_back_run(value, j, p),
    )
}

/// Calls an overloaded function of the host application, and hands its value back.
fn call_overloads<H: Fn(Query) -> Answer + Copy + 'static>(
    on: CallTarget,
    name: String,
    arguments: Vec<ScriptValue>,
    context: &mut Context,
    session: &mut Session<H>,
) -> (result: Result<JsValue, JsFailure>)
    requires
        old(session).ready(*old(context)),
    ensures
        forall|earlier: Context, p: nat|
            same_vm(earlier, *old(context)) && p <= old(session).journal().len()
                ==> #[trigger] gives_answer(
                earlier,
                final(session).journal(),
                p,
                reply_of(result),
                *final(context),
            ),
        result matches Ok(value) ==> lives_in(js_view(value), *final(context)),
        final(session).follows(*old(session)),
        final(session).attached(*final(context)),
        same_vm(*old(context), *final(context)),
        replays(
            |j: Seq<Step>, p: nat| overloads_run(on, name@, list_view(arguments@), j, p),
            old(session).journal(),
            final(session).journal(),
            reply_of(result),
        ),
{
    let value = ask_value(Query::CallOverloads { on, name, arguments }, context, session)?;
    hand_back(&value, context, session)
}

/// What is said of a call without a name.
pub const CALL_NAME: &'static str = "call(name, ...args): name must be a string";

/// Calling a method of a host value.
pub open spec fn rr_call_run(this: JsView, arguments: Seq<JsView>, j: Seq<Step>, p: nat) -> Option<
    (Result<JsView, FailureView>, nat),
> {
    and_then(
        world_run(j, p),
        |unit: (), p: nat|
            and_then(
                Some((receiver(this), p)),
                |target: ReflectReference, p: nat|
                    and_then(
                        Some((first_name(arguments, CALL_NAME@), p)),
                        |name: Seq<char>, p: nat|
                            and_then(
                                convert_all_run(Blame::Script, arguments, 1, Seq::empty(), j, p),
                                |values: Seq<ScriptView>, p: nat|
                                    and_then(
                                        components_run(name, values, j, p),
                                        |values: Seq<ScriptView>, p: nat|
                                            overloads_run(
                                                CallTarget::BaseOf(target),
                                                name,
                                                with_receiver(target, values),
                                                j,
                                                p,
                                            ),
                                    ),
                            ),
                    ),
            ),
    )
}

/// `call(name, ...arguments)`: calls a method of a host value.
pub fn rr_call<H: Fn(Query) -> Answer + Copy + 'static>(
    this: &JsValue,
    arguments: &[JsValue],
    context: &mut Context,
    session: &mut Session<H>,
) -> (result: Result<JsValue, JsFailure>)
    requires
        old(session).ready(*old(context)),
        lives_in(js_view(*this), *old(context)),
        live_in(js_views(arguments@), *old(context)),
    ensures
        gives_answer(
            *old(context),
            final(session).journal(),
            old(session).journal().len(),
            reply_of(result),
            *final(context),
        ),
        result matches Ok(value) ==> lives_in(js_view(value), *final(context)),
        final(session).follows(*old(session)),
        final(session).attached(*final(context)),
        same_vm(*old(context), *final(context)),
        replays(
            |j: Seq<Step>, p: nat| rr_call_run(js_view(*this), js_views(arguments@), j, p),
            old(session).journal(),
            final(session).journal(),
            reply_of(result),
        ),
{
    reach_world(session)?;
    let target = rr_this(this)?;
    let name = name_argument(arguments, CALL_NAME)?;
    let values = convert_all(Blame::Script, arguments, 1, context, session)?;
    let values = resolve_components(&name, values, context, session)?;
    let all = prepend_receiver(target, values);
    call_overloads(CallTarget::BaseOf(target), name, all, context, session)
}

/// What is said of a method without a name.
pub const METHOD_NAME: &'static str = "method(name): name must be a string";

/// Binding a method to a host value.
pub open spec fn rr_method_run(this: JsView, arguments: Seq<JsView>, j: Seq<Step>, p: nat) -> Option<
    (Result<JsView, FailureView>, nat),
> {
    and_then(
        Some((receiver(this), p)),
        |target: ReflectReference, p: nat|
            and_then(
                Some((first_name(arguments, METHOD_NAME@), p)),
                |name: Seq<char>, p: nat|
                    match named_reply(j, p, "method:"@ + name, CallTarget::BaseOf(target), name) {
                        None => None,
                        Some(made) => Some((Ok(made), p + 1)),
                    },
            ),
    )
}

/// `method(name)`: a function that calls a method of a host value.
pub fn rr_method<H: Fn(Query) -> Answer + Copy + 'static>(
    this: &JsValue,
    arguments: &[JsValue],
    context: &mut Context,
    session: &mut Session<H>,
) -> (result: Result<JsValue, JsFailure>)
    requires
        old(session).ready(*old(context)),
        lives_in(js_view(*this), *old(context)),
        live_in(js_views(arguments@), *old(context)),
    ensures
        result matches Ok(value) ==> lives_in(js_view(value), *final(context)),
        final(session).follows(*old(session)),
        final(session).attached(*final(context)),
        same_vm(*old(context), *final(context)),
        replays(
            |j: Seq<Step>, p: nat| rr_method_run(js_view(*this), js_views(arguments@), j, p),
            old(session).journal(),
            final(session).journal(),
            reply_of(result),
        ),
{
    let target = rr_this(this)?;
    let name = name_argument(arguments, METHOD_NAME)?;
    let shown = joined("method:", &name);
    Ok(session.new_named(context, &shown, CallTarget::BaseOf(target), name))
}

/// Resolving the arguments of a bound method that takes components, for which the world is needed.
pub open spec fn bound_components_run(
    name: Seq<char>,
    values: Seq<ScriptView>,
    j: Seq<Step>,
    p: nat,
) -> Option<(Result<Seq<ScriptView>, FailureView>, nat)> {
    if takes_components(name) {
        and_then(world_run(j, p), |unit: (), p: nat| components_run(name, values, j, p))
    } else {
        Some((Ok(values), p))
    }
}

/// Calling a function that is bound to a host value or to a type.
pub open spec fn bound_run(
    target: CallTarget,
    name: Seq<char>,
    arguments: Seq<JsView>,
    j: Seq<Step>,
    p: nat,
) -> Option<(Result<JsView, FailureView>, nat)> {
    and_then(
        convert_all_run(Blame::Host, arguments, 0, Seq::empty(), j, p),
        |values: Seq<ScriptView>, p: nat|
            match target {
                CallTarget::BaseOf(reference) => and_then(
                    bound_components_run(name, values, j, p),
                    |values: Seq<ScriptView>, p: nat|
                        and_then(
                            world_run(j, p),
                            |unit: (), p: nat|
                                overloads_run(
                                    target,
                                    name,
                                    with_receiver(reference, values),
                                    j,
                                    p,
                                ),
                        ),
                ),
                _ => and_then(
                    world_run(j, p),
                    |unit: (), p: nat| overloads_run(target, name, values, j, p),
                ),
            },
    )
}

/// Calls a function that [`rr_method`] bound to a host value or [`sref_fn`] to a type.
pub fn call_bound<H: Fn(Query) -> Answer + Copy + 'static>(
    target: CallTarget,
    name: &String,
    arguments: &[JsValue],
    context: &mut Context,
    session: &mut Session<H>,
) -> (result: Result<JsValue, JsFailure>)
    requires
        old(session).ready(*old(context)),
        live_in(js_views(arguments@), *old(context)),
    ensures
        gives_answer(
            *old(context),
            final(session).journal(),
            old(session).journal().len(),
            reply_of(result),
            *final(context),
        ),
        result matches Ok(value) ==> lives_in(js_view(value), *final(context)),
        final(session).follows(*old(session)),
        final(session).attached(*final(context)),
        same_vm(*old(context), *final(context)),
        replays(
            |j: Seq<Step>, p: nat| bound_run(target, name@, js_views(arguments@), j, p),
            old(session).journal(),
            final(session).journal(),
            reply_of(result),
        ),
{
    let values = convert_all(Blame::Host, arguments, 0, context, session)?;
    match target {
        CallTarget::BaseOf(reference) => {
            let mut values = values;
            if is_qb_componentish_method(name) {
                reach_world(session)?;
                values = resolve_components(name, values, context, session)?;
            }
            let all = prepend_receiver(reference, values);
            reach_world(session)?;
            call_overloads(target, name.clone(), all, context, session)
        },
        _ => {
            reach_world(session)?;
            call_overloads(target, name.clone(), values, context, session)
        },
    }
}

/// Arguments were converted, and components among them resolved, for a function.
pub open spec fn prepares(
    name: Seq<char>,
    arguments: Seq<JsView>,
    j: Seq<Step>,
    resolved: Seq<ScriptView>,
) -> bool {
    exists|p: nat, values: Seq<ScriptView>, q: nat, from: nat|
        {
            &&& #[trigger] converts(arguments, values, j, p, q)
            &&& #[trigger] components_run(name, values, j, from) matches Some((found, _)) && found
                == Ok::<Seq<ScriptView>, FailureView>(resolved)
        }
}

/// A method of a host value was called with the host value and what the arguments convert to, and its
/// value was handed back.
pub open spec fn calls_method(
    target: ReflectReference,
    name: Seq<char>,
    arguments: Seq<JsView>,
    j: Seq<Step>,
    result: JsView,
    q: nat,
) -> bool {
    exists|at: nat, resolved: Seq<ScriptView>|
        {
            &&& prepares(name, arguments, j, resolved)
            &&& #[trigger] overloads_run(
                CallTarget::BaseOf(target),
                name,
                with_receiver(target, resolved),
                j,
                at,
            ) == Some((Ok::<JsView, FailureView>(result), q))
        }
}

/// A method of a host value is called alike through `call(name, ...arguments)` and through the
/// function that `method(name)` gives: with the host value and what the arguments convert to.
pub proof fn law_methods_are_called_alike(
    this: JsView,
    arguments: Seq<JsView>,
    name: Seq<char>,
    j: Seq<Step>,
    p: nat,
    result: JsView,
    q: nat,
)
    requires
        receiver(this) is Ok,
        first_name(arguments, CALL_NAME@) == Ok::<Seq<char>, FailureView>(name),
    ensures
        rr_call_run(this, arguments, j, p) == Some((Ok::<JsView, FailureView>(result), q))
            ==> calls_method(receiver(this)->Ok_0, name, arguments.skip(1), j, result, q),
        bound_run(
            CallTarget::BaseOf(receiver(this)->Ok_0),
            name,
            arguments.skip(1),
            j,
            p,
        ) == Some((Ok::<JsView, FailureView>(result), q)) ==> calls_method(
            receiver(this)->Ok_0,
            name,
            arguments.skip(1),
            j,
            result,
            q,
        ),
{
    let target = receiver(this)->Ok_0;
    let rest = arguments.skip(1);
    let success = Some((Ok::<JsView, FailureView>(result), q));
    if rr_call_run(this, arguments, j, p) == success {
        let start = world_run(j, p)->Some_0.1;
        let (values, end) = convert_all_run(
            Blame::Script,
            arguments,
            1,
            Seq::empty(),
            j,
            start,
        )->Some_0;
        lemma_arguments_convert(Blame::Script, arguments, 1, j, start, values->Ok_0, end);
        let (resolved, at) = components_run(name, values->Ok_0, j, end)->Some_0;
        assert(prepares(name, rest, j, resolved->Ok_0));
    }
    if bound_run(CallTarget::BaseOf(target), name, rest, j, p) == success {
        let (values, end) = convert_all_run(Blame::Host, rest, 0, Seq::empty(), j, p)->Some_0;
        lemma_arguments_convert(Blame::Host, rest, 0, j, p, values->Ok_0, end);
        assert(rest.skip(0) =~= rest);
        let from = if takes_components(name) {
            world_run(j, end)->Some_0.1
        } else {
            end
        };
        let (resolved, at) = components_run(name, values->Ok_0, j, from)->Some_0;
        assert(prepares(name, rest, j, resolved->Ok_0));
    }
}

/// Arguments from an index on that were converted were converted one after the other.
proof fn lemma_arguments_convert(
    blame: Blame,
    arguments: Seq<JsView>,
    i: nat,
    j: Seq<Step>,
    p: nat,
    values: Seq<ScriptView>,
    q: nat,
)
    requires
        i <= arguments.len(),
        convert_all_run(blame, arguments, i, Seq::empty(), j, p) == Some(
            (Ok::<Seq<ScriptView>, FailureView>(values), q),
        ),
    ensures
        converts(arguments.skip(i as int), values, j, p, q),
{
    lemma_converts(blame, arguments, i, Seq::empty(), j, p, values, q);
    assert(values.skip(0) =~= values);
}

/// A function of a type was called with what the arguments convert to, and its value was handed back.
pub open spec fn calls_function(
    token: TypeId,
    name: Seq<char>,
    arguments: Seq<JsView>,
    j: Seq<Step>,
    result: JsView,
    q: nat,
) -> bool {
    exists|p: nat, end: nat, values: Seq<ScriptView>, at: nat|
        {
            &&& #[trigger] converts(arguments, values, j, p, end)
            &&& #[trigger] overloads_run(CallTarget::Token(token), name, values, j, at) == Some(
                (Ok::<JsView, FailureView>(result), q),
            )
        }
}

/// A function of a type is called alike through `call(name, ...arguments)` and through the function
/// that `fn(name)` gives: with what the arguments convert to.
pub proof fn law_functions_are_called_alike(
    this: JsView,
    arguments: Seq<JsView>,
    name: Seq<char>,
    j: Seq<Step>,
    p: nat,
    result: JsView,
    q: nat,
)
    requires
        receiver_type(this) is Ok,
        first_name(arguments, CALL_NAME@) == Ok::<Seq<char>, FailureView>(name),
    ensures
        sref_call_run(this, arguments, j, p) == Some((Ok::<JsView, FailureView>(result), q))
            ==> calls_function(receiver_type(this)->Ok_0, name, arguments.skip(1), j, result, q),
        bound_run(
            CallTarget::Token(receiver_type(this)->Ok_0),
            name,
            arguments.skip(1),
            j,
            p,
        ) == Some((Ok::<JsView, FailureView>(result), q)) ==> calls_function(
            receiver_type(this)->Ok_0,
            name,
            arguments.skip(1),
            j,
            result,
            q,
        ),
{
    let token = receiver_type(this)->Ok_0;
    let rest = arguments.skip(1);
    let success = Some((Ok::<JsView, FailureView>(result), q));
    if sref_call_run(this, arguments, j, p) == success {
        let start = world_run(j, p)->Some_0.1;
        let (values, end) = convert_all_run(
            Blame::Script,
            arguments,
            1,
            Seq::empty(),
            j,
            start,
        )->Some_0;
        lemma_arguments_convert(Blame::Script, arguments, 1, j, start, values->Ok_0, end);
    }
    if bound_run(CallTarget::Token(token), name, rest, j, p) == success {
        let (values, end) = convert_all_run(Blame::Host, rest, 0, Seq::empty(), j, p)->Some_0;
        lemma_arguments_convert(Blame::Host, rest, 0, j, p, values->Ok_0, end);
        assert(rest.skip(0) =~= rest);
    }
}

/// The type that a function is called on.
pub open spec fn receiver_type(this: JsView) -> Result<TypeId, FailureView> {
    match this {
        JsView::Object(object) => match object.token {
            Some(token) => Ok(token),
            None => Err(FailureView::WrongType("this is not a StaticReflectReference"@)),
        },
        _ => Err(FailureView::WrongType("StaticReflectReference method called on non-object"@)),
    }
}

/// The type that a function is called on.
pub fn sref_this(this: &JsValue) -> (result: Result<TypeId, JsFailure>)
    ensures
        part_of(result) == receiver_type(js_view(*this)),
{
    if kind_of(this) != JsKind::Object {
        return Err(
            JsFailure::WrongType("StaticReflectReference method called on non-object".to_owned()),
        );
    }
    match token_of(this) {
        Some(token) => Ok(token),
        None => Err(JsFailure::WrongType("this is not a StaticReflectReference".to_owned())),
    }
}

/// What is said of a function without a name.
pub const FN_NAME: &'static str = "fn(name): name must be a string";

/// Binding a function to a type.
pub open spec fn sref_fn_run(this: JsView, arguments: Seq<JsView>, j: Seq<Step>, p: nat) -> Option<
    (Result<JsView, FailureView>, nat),
> {
    and_then(
        Some((receiver_type(this), p)),
        |token: TypeId, p: nat|
            and_then(
                Some((first_name(arguments, FN_NAME@), p)),
                |name: Seq<char>, p: nat|
                    match named_reply(j, p, name + ".fn"@, CallTarget::Token(token), name) {
                        None => None,
                        Some(made) => Some((Ok(made), p + 1)),
                    },
            ),
    )
}

/// `fn(name)`: a function that calls a function of a type.
pub fn sref_fn<H: Fn(Query) -> Answer + Copy + 'static>(
    this: &JsValue,
    arguments: &[JsValue],
    context: &mut Context,
    session: &mut Session<H>,
) -> (result: Result<JsValue, JsFailure>)
    requires
        old(session).ready(*old(context)),
        lives_in(js_view(*this), *old(context)),
        live_in(js_views(arguments@), *old(context)),
    ensures
        result matches Ok(value) ==> lives_in(js_view(value), *final(context)),
        final(session).follows(*old(session)),
        final(session).attached(*final(context)),
        same_vm(*old(context), *final(context)),
        replays(
            |j: Seq<Step>, p: nat| sref_fn_run(js_view(*this), js_views(arguments@), j, p),
            old(session).journal(),
            final(session).journal(),
            reply_of(result),
        ),
{
    let token = sref_this(this)?;
    let name = name_argument(arguments, FN_NAME)?;
    let shown = joined(&name, ".fn");
    Ok(session.new_named(context, &shown, CallTarget::Token(token), name))
}

/// Calling a function of a type.
pub open spec fn sref_call_run(this: JsView, arguments: Seq<JsView>, j: Seq<Step>, p: nat) -> Option<
    (Result<JsView, FailureView>, nat),
> {
    and_then(
        world_run(j, p),
        |unit: (), p: nat|
            and_then(
                Some((receiver_type(this), p)),
                |token: TypeId, p: nat|
                    and_then(
                        Some((first_name(arguments, CALL_NAME@), p)),
                        |name: Seq<char>, p: nat|
                            and_then(
                                convert_all_run(Blame::Script, arguments, 1, Seq::empty(), j, p),
                                |values: Seq<ScriptView>, p: nat|
                                    overloads_run(CallTarget::Token(token), name, values, j, p),
                            ),
                    ),
            ),
    )
}

/// `call(name, ...arguments)`: calls a function of a type.
pub fn sref_call<H: Fn(Query) -> Answer + Copy + 'static>(
    this: &JsValue,
    arguments: &[JsValue],
    context: &mut Context,
    session: &mut Session<H>,
) -> (result: Result<JsValue, JsFailure>)
    requires
        old(session).ready(*old(context)),
        lives_in(js_view(*this), *old(context)),
        live_in(js_views(arguments@), *old(context)),
    ensures
        gives_answer(
            *old(context),
            final(session).journal(),
            old(session).journal().len(),
            reply_of(result),
            *final(context),
        ),
        result matches Ok(value) ==> lives_in(js_view(value), *final(context)),
        final(session).follows(*old(session)),
        final(session).attached(*final(context)),
        same_vm(*old(context), *final(context)),
        replays(
            |j: Seq<Step>, p: nat| sref_call_run(js_view(*this), js_views(arguments@), j, p),
            old(session).journal(),
            final(session).journal(),
            reply_of(result),
        ),
{
    reach_world(session)?;
    let token = sref_this(this)?;
    let name = name_argument(arguments, CALL_NAME)?;
    let values = convert_all(Blame::Script, arguments, 1, context, session)?;
    call_overloads(CallTarget::Token(token), name, values, context, session)
}

} // verus!
