//! From script values to the values of the engine.
use crate::data::{
    adds_open, covers, denotes, equipped, has_property, holds_data, is_added, keeps,
    lemma_denotes_alike, lemma_denotes_later, lemma_keeps_through, lemma_properties_count,
    lemma_sealed, named, portable, sealed, seals_prototype, wraps_with, PROTOTYPE,
};
use crate::engine::{
    alike_data, boolean_value, integer_value, is_open, js_double, js_heap, js_text, js_units,
    js_view, kind_of, lemma_alike_data_through, live_in, lives_in, text_value, undefined_value,
    JsKind, JsNode, JsView,
};
use crate::from_js::{from_js_run, law_numbers_keep_their_value, DEPTH_LIMIT};
use crate::host::{Answer, Query};
use crate::native::Native;
use crate::number::{
    finite, is_nan, is_nearest, law_whole_number, lemma_finite_is_no_nan, magnitude, represents,
    WHOLE_LIMIT,
};
use crate::session::{
    array_reply, data_object, entry_views, extends, function_reply, get_reply, global_reply,
    inserts, is_fresh, js_birth_prototype, js_native_of, js_views, keyed, lemma_sets, made_view,
    name_key, number_reply, object_id, own_elements, own_properties, properties, record_reply,
    reference_reply, replays, resumes, same_vm, sets, Key, Session, Step,
};
use crate::value::{
    entries_view, list_view, ErrorView, InteropError, ReflectReference, ScriptMap, ScriptValue,
    ScriptView,
};
use boa_engine::{Context, JsValue};
use vstd::prelude::*;

verus! {

broadcast use crate::session::lemma_extends_earlier;

/// Converting a script value into a value of the engine.
pub open spec fn into_js_run(value: ScriptValue, j: Seq<Step>, p: nat) -> Option<
    (Result<JsView, ErrorView>, nat),
>
    decreases value, 0nat,
{
    match value {
        ScriptValue::Unit => Some((Ok(JsView::Undefined), p)),
        ScriptValue::Bool(truth) => Some((Ok(JsView::Boolean(truth)), p)),
        ScriptValue::Integer(integer) => Some((Ok(JsView::Rational(js_double(integer))), p)),
        ScriptValue::Float(bits) => match number_reply(j, p, bits) {
            None => None,
            Some(made) => Some((Ok(made), p + 1)),
        },
        ScriptValue::String(text) => Some((Ok(JsView::Str(js_units(text@))), p)),
        ScriptValue::Reference(reference) => wrap_run(reference, j, p),
        ScriptValue::Function(function) => host_function_run(Native::HostFunction(function), j, p),
        ScriptValue::FunctionMut(handle) => host_function_run(Native::HostFunctionMut(handle), j, p),
        ScriptValue::List(values) => match elements_run(values@, 0, Seq::empty(), j, p) {
            None => None,
            Some((Err(error), q)) => Some((Err(error), q)),
            Some((Ok(elements), q)) => match array_reply(j, q, elements) {
                None => None,
                Some(made) => Some((Ok(made), q + 1)),
            },
        },
        ScriptValue::Record(map) => match properties_run(map.entries@, 0, Seq::empty(), j, p) {
            None => None,
            Some((Err(error), q)) => Some((Err(error), q)),
            Some((Ok(entries), q)) => match record_reply(j, q) {
                None => None,
                Some(made) => inserts_run(made, entries, 0, j, q + 1),
            },
        },
        ScriptValue::Error(error) => Some((Err(error@), p)),
    }
}

/// Converting the values of a list from an index on, after those before it.
pub open spec fn elements_run(
    values: Seq<ScriptValue>,
    i: nat,
    done: Seq<JsView>,
    j: Seq<Step>,
    p: nat,
) -> Option<(Result<Seq<JsView>, ErrorView>, nat)>
    decreases values, values.len() - i,
{
    if i >= values.len() {
        Some((Ok(done), p))
    } else {
        match into_js_run(values[i as int], j, p) {
            None => None,
            Some((Err(error), q)) => Some((Err(error), q)),
            Some((Ok(made), q)) => elements_run(values, i + 1, done.push(made), j, q),
        }
    }
}

/// Converting the entries of a map from an index on, after those before it.
pub open spec fn properties_run(
    entries: Seq<(String, ScriptValue)>,
    i: nat,
    done: Seq<(Seq<u16>, JsView)>,
    j: Seq<Step>,
    p: nat,
) -> Option<(Result<Seq<(Seq<u16>, JsView)>, ErrorView>, nat)>
    decreases entries, entries.len() - i,
{
    if i >= entries.len() {
        Some((Ok(done), p))
    } else {
        match into_js_run(entries[i as int].1, j, p) {
            None => None,
            Some((Err(error), q)) => Some((Err(error), q)),
            Some((Ok(made), q)) => properties_run(
                entries,
                i + 1,
                done.push((js_units(entries[i as int].0@), made)),
                j,
                q,
            ),
        }
    }
}

/// Giving an object the properties of entries from an index on.
pub open spec fn inserts_run(
    object: JsView,
    entries: Seq<(Seq<u16>, JsView)>,
    i: nat,
    j: Seq<Step>,
    p: nat,
) -> Option<(Result<JsView, ErrorView>, nat)>
    decreases entries.len() - i,
{
    if i >= entries.len() {
        Some((Ok(object), p))
    } else if inserts(j, p, object, entries[i as int].0, entries[i as int].1) {
        inserts_run(object, entries, i + 1, j, p + 1)
    } else {
        None
    }
}

/// Wrapping a host value for scripts, with the prototype of reference wrappers if it is in its
/// place.
pub open spec fn wrap_run(reference: ReflectReference, j: Seq<Step>, p: nat) -> Option<
    (Result<JsView, ErrorView>, nat),
> {
    match global_reply(j, p) {
        None => None,
        Some(global) => match get_reply(j, p + 1, global, name_key(PROTOTYPE@)) {
            None => None,
            Some(found) => match reference_reply(j, p + 2, usable_prototype(found), reference.0) {
                None => None,
                Some(made) => Some((Ok(made), p + 3)),
            },
        },
    }
}

/// What a read gave, if it is an object.
pub open spec fn usable_prototype(found: Result<JsView, Seq<char>>) -> Option<JsView> {
    match found {
        Ok(JsView::Object(object)) => Some(JsView::Object(object)),
        _ => None,
    }
}

/// Making a function that calls one of the host application.
pub open spec fn host_function_run(native: Native, j: Seq<Step>, p: nat) -> Option<
    (Result<JsView, ErrorView>, nat),
> {
    match function_reply(j, p, "hostFn"@, 0, native) {
        None => None,
        Some(made) => Some((Ok(made), p + 1)),
    }
}

/// No step between two positions defines a global.
pub open spec fn defines_nothing(j: Seq<Step>, p: nat, q: nat) -> bool {
    forall|at: int| p <= at < q ==> !(#[trigger] j[at] is Define)
}

/// A conversion never goes back in the journal, and defines no global.
pub proof fn lemma_into_js_goes_on(value: ScriptValue, j: Seq<Step>, p: nat)
    ensures
        into_js_run(value, j, p) matches Some((_, q)) ==> p <= q && defines_nothing(
            j,
            p,
            q,
        ),
    decreases value, 0nat,
{
    match value {
        ScriptValue::List(values) => lemma_elements_go_on(values@, 0, Seq::empty(), j, p),
        ScriptValue::Record(map) => {
            lemma_properties_go_on(map.entries@, 0, Seq::empty(), j, p);
            if let Some((Ok(entries), q)) = properties_run(map.entries@, 0, Seq::empty(), j, p) {
                if let Some(made) = record_reply(j, q) {
                    lemma_inserts_go_on(made, entries, 0, j, q + 1);
                }
            }
        },
        _ => {},
    }
}

/// Giving properties never goes back in the journal, and defines no global.
proof fn lemma_inserts_go_on(
    object: JsView,
    entries: Seq<(Seq<u16>, JsView)>,
    i: nat,
    j: Seq<Step>,
    p: nat,
)
    ensures
        inserts_run(object, entries, i, j, p) matches Some((_, q)) ==> p <= q && defines_nothing(
            j,
            p,
            q,
        ),
    decreases entries.len() - i,
{
    if i < entries.len() {
        lemma_inserts_go_on(object, entries, i + 1, j, p + 1);
    }
}

/// The conversion of a list never goes back in the journal, and defines no global.
pub proof fn lemma_elements_go_on(
    values: Seq<ScriptValue>,
    i: nat,
    done: Seq<JsView>,
    j: Seq<Step>,
    p: nat,
)
    ensures
        elements_run(values, i, done, j, p) matches Some((_, q)) ==> p <= q && defines_nothing(
            j,
            p,
            q,
        ),
    decreases values, values.len() - i,
{
    if i < values.len() {
        lemma_into_js_goes_on(values[i as int], j, p);
        if let Some((Ok(made), q)) = into_js_run(values[i as int], j, p) {
            lemma_elements_go_on(values, i + 1, done.push(made), j, q);
        }
    }
}

/// The conversion of a map never goes back in the journal, and defines no global.
proof fn lemma_properties_go_on(
    entries: Seq<(String, ScriptValue)>,
    i: nat,
    done: Seq<(Seq<u16>, JsView)>,
    j: Seq<Step>,
    p: nat,
)
    ensures
        properties_run(entries, i, done, j, p) matches Some((_, q)) ==> p <= q && defines_nothing(
            j,
            p,
            q,
        ),
    decreases entries, entries.len() - i,
{
    if i < entries.len() {
        lemma_into_js_goes_on(entries[i as int].1, j, p);
        if let Some((Ok(made), q)) = into_js_run(entries[i as int].1, j, p) {
            lemma_properties_go_on(
                entries,
                i + 1,
                done.push((js_units(entries[i as int].0@), made)),
                j,
                q,
            );
        }
    }
}

/// A conversion makes a value that holds what a virtual machine can hold as it is, and keeps the
/// data of the virtual machine.
pub open spec fn into_js_effect(
    before: Context,
    value: ScriptValue,
    reply: Result<JsView, ErrorView>,
    after: Context,
) -> bool {
    forall|references: bool, depth: nat| #[trigger]
        portable(value, references, depth) && (references ==> equipped(before)) ==> {
            &&& reply is Ok
            &&& denotes(js_heap(after), reply->Ok_0, value@, depth)
            &&& keeps(before, after)
        }
}

/// Every value of a sequence is one that a virtual machine can hold as it is.
pub open spec fn all_portable(values: Seq<ScriptValue>, references: bool, depth: nat) -> bool {
    forall|i: int| 0 <= i < values.len() ==> portable(#[trigger] values[i], references, depth)
}

/// Every value of a virtual machine in a sequence holds the script value at its place.
pub open spec fn all_denote(
    heap: Map<nat, JsNode>,
    views: Seq<JsView>,
    values: Seq<ScriptView>,
    depth: nat,
) -> bool {
    &&& views.len() <= values.len()
    &&& forall|i: int|
        0 <= i < views.len() ==> denotes(heap, #[trigger] views[i], values[i], depth)
}

/// What a virtual machine holds in sequence, it holds after its heap grew.
proof fn lemma_all_denote_later(
    heap: Map<nat, JsNode>,
    later: Map<nat, JsNode>,
    views: Seq<JsView>,
    values: Seq<ScriptView>,
    depth: nat,
)
    requires
        covers(later, heap),
        all_denote(heap, views, values, depth),
    ensures
        all_denote(later, views, values, depth),
{
    assert forall|i: int| 0 <= i < views.len() implies denotes(
        later,
        #[trigger] views[i],
        values[i],
        depth,
    ) by {
        lemma_denotes_later(heap, later, views[i], values[i], depth);
    }
}

/// A virtual machine stays equipped while its heap grows.
pub proof fn lemma_keeps_equipped(before: Context, after: Context)
    requires
        keeps(before, after),
        equipped(before),
    ensures
        equipped(after),
{
    let prototype = choose|prototype: JsView| #[trigger] wraps_with(before, prototype);
    assert(wraps_with(after, prototype));
}

/// A wrapper of a host value wraps it, and has the prototype that the virtual machine keeps for
/// wrappers.
pub open spec fn wraps_in_place<E>(
    before: Context,
    value: ScriptValue,
    reply: Result<JsView, E>,
) -> bool {
    value matches ScriptValue::Reference(reference) ==> {
        &&& reply matches Ok(JsView::Object(made)) && !made.callable && made.reference == Some(
            reference.0,
        )
        &&& forall|prototype: JsView| #[trigger]
            wraps_with(before, prototype) ==> js_birth_prototype(reply->Ok_0) == Some(prototype)
    }
}

/// An object is nothing but data, and each of its properties is writable, enumerable and configurable.
pub open spec fn opens(context: Context, made: JsView) -> bool {
    &&& made is Object
    &&& made == data_object(context, object_id(made), false)
    &&& forall|key: Seq<u16>|
        has_property(js_heap(context), made, key) ==> #[trigger] is_open(context, made, key)
}

/// A truth value, a text and a double become themselves, an integer becomes a double that is nearest to
/// it, a map becomes an object with properties that can be changed, and a function of the host application becomes a function that calls it and cannot be
/// called with `new`.
pub open spec fn renders<E>(value: ScriptValue, reply: Result<JsView, E>, after: Context) -> bool {
    match value {
        ScriptValue::Unit => reply == Ok::<JsView, E>(JsView::Undefined),
        ScriptValue::Bool(truth) => reply == Ok::<JsView, E>(JsView::Boolean(truth)),
        ScriptValue::String(text) => reply == Ok::<JsView, E>(JsView::Str(js_units(text@))),
        ScriptValue::Float(bits) => reply matches Ok(JsView::Rational(own)) && if is_nan(bits) {
            is_nan(own)
        } else {
            own == bits
        },
        ScriptValue::Record(_) => reply matches Ok(made) ==> opens(after, made),
        ScriptValue::Integer(integer) => reply matches Ok(JsView::Rational(bits)) && is_nearest(
            bits,
            integer as int,
        ),
        ScriptValue::Function(function) => reply matches Ok(made) && is_host_function(
            made,
            Native::HostFunction(function),
        ),
        ScriptValue::FunctionMut(handle) => reply matches Ok(made) && is_host_function(
            made,
            Native::HostFunctionMut(handle),
        ),
        ScriptValue::Error(_) => reply is Err,
        _ => true,
    }
}

/// A function of a virtual machine calls one of the host application, and cannot be called with `new`.
pub open spec fn is_host_function(made: JsView, native: Native) -> bool {
    &&& made matches JsView::Object(object) && object.callable && !object.constructs
    &&& js_native_of(made) == ("hostFn"@, 0usize, native)
}

/// A value of the host application was handed to a script: it is a value of the engine that holds what
/// a virtual machine can hold as it is, and that wraps a host value with the prototype that nothing can
/// take from its place.
pub open spec fn handed<E>(
    before: Context,
    value: ScriptValue,
    reply: Result<JsView, E>,
    after: Context,
) -> bool {
    &&& renders(value, reply, after)
    &&& forall|references: bool, depth: nat| #[trigger]
        portable(value, references, depth) && (references ==> sealed(before)) ==> reply is Ok
            && denotes(js_heap(after), reply->Ok_0, value@, depth)
    &&& value matches ScriptValue::Reference(reference) ==> {
        &&& reply matches Ok(JsView::Object(made)) && !made.callable && made.reference == Some(
            reference.0,
        )
        &&& forall|prototype: JsView| #[trigger]
            seals_prototype(before, prototype) ==> js_birth_prototype(reply->Ok_0) == Some(
                prototype,
            )
    }
}

/// What was handed to a script in one state was handed to it in the terms of an earlier one.
pub proof fn lemma_handed_earlier<E>(
    earlier: Context,
    before: Context,
    value: ScriptValue,
    reply: Result<JsView, E>,
    after: Context,
)
    requires
        same_vm(earlier, before),
        handed(before, value, reply, after),
    ensures
        handed(earlier, value, reply, after),
{
    assert forall|references: bool, depth: nat| #[trigger]
        portable(value, references, depth) && (references ==> sealed(earlier)) implies reply is Ok
        && denotes(js_heap(after), reply->Ok_0, value@, depth) by {
        if references {
            lemma_sealed(earlier, before);
        }
    }
    assert forall|prototype: JsView| #[trigger]
        seals_prototype(earlier, prototype) implies seals_prototype(before, prototype) by {}
}

/// A number goes into a virtual machine as itself: a double as the double that it is, also one that is
/// an integer, and comes out of it with the same value.
pub proof fn law_doubles_go_in_as_they_are<E>(
    bits: u64,
    reply: Result<JsView, E>,
    after: Context,
    j: Seq<Step>,
    p: nat,
)
    requires
        renders(ScriptValue::Float(bits), reply, after),
        finite(bits),
    ensures
        reply == Ok::<JsView, E>(JsView::Rational(bits)),
        from_js_run(reply->Ok_0, DEPTH_LIMIT as nat, j, p) matches Some((result, q)) && q == p && (
        result matches Ok(value) && match value {
            ScriptView::Integer(whole) => represents(bits, whole as int),
            ScriptView::Float(own) => own == bits,
            _ => false,
        }),
{
    law_numbers_keep_their_value(bits);
    lemma_finite_is_no_nan(bits);
}

/// Wraps a host value for scripts.
fn wrap_reference<H: Fn(Query) -> Answer + Copy + 'static>(
    reference: ReflectReference,
    context: &mut Context,
    session: &mut Session<H>,
) -> (result: Result<JsValue, InteropError>)
    requires
        old(session).attached(*old(context)),
    ensures
        result matches Ok(value) ==> lives_in(js_view(value), *final(context)),
        final(session).follows(*old(session)),
        final(session).attached(*final(context)),
        same_vm(*old(context), *final(context)),
        equipped(*old(context)) ==> keeps(*old(context), *final(context)),
        replays(
            |j: Seq<Step>, p: nat| wrap_run(reference, j, p),
            old(session).journal(),
            final(session).journal(),
            made_view(result),
        ),
        into_js_effect(
            *old(context),
            ScriptValue::Reference(reference),
            made_view(result),
            *final(context),
        ),
        wraps_in_place(*old(context), ScriptValue::Reference(reference), made_view(result)),
{
    let global = session.global(context);
    let found = session.get(context, &global, Key::Name(PROTOTYPE));
    let prototype = match found {
        Ok(found) => if kind_of(&found) == JsKind::Object {
            Some(found)
        } else {
            None
        },
        Err(_) => None,
    };
    Ok(session.new_reference(context, prototype, reference.0))
}

/// Makes a function that calls one of the host application.
fn wrap_function<H: Fn(Query) -> Answer + Copy + 'static>(
    native: Native,
    context: &mut Context,
    session: &mut Session<H>,
) -> (result: Result<JsValue, InteropError>)
    requires
        old(session).ready(*old(context)),
    ensures
        result matches Ok(made) && is_host_function(js_view(made), native),
        result matches Ok(value) ==> lives_in(js_view(value), *final(context)),
        final(session).follows(*old(session)),
        final(session).attached(*final(context)),
        same_vm(*old(context), *final(context)),
        equipped(*old(context)) ==> keeps(*old(context), *final(context)),
        replays(
            |j: Seq<Step>, p: nat| host_function_run(native, j, p),
            old(session).journal(),
            final(session).journal(),
            made_view(result),
        ),
{
    Ok(session.new_function(context, "hostFn", 0, native))
}

/// The result of converting a list as contracts see it.
pub open spec fn elements_view(result: Result<Vec<JsValue>, InteropError>) -> Result<
    Seq<JsView>,
    ErrorView,
> {
    match result {
        Ok(elements) => Ok(js_views(elements@)),
        Err(error) => Err(error@),
    }
}

/// Converts the values of a list.
pub(crate) fn elements_into_js<H: Fn(Query) -> Answer + Copy + 'static>(
    values: &Vec<ScriptValue>,
    context: &mut Context,
    session: &mut Session<H>,
) -> (result: Result<Vec<JsValue>, InteropError>)
    requires
        old(session).ready(*old(context)),
    ensures
        result matches Ok(elements) ==> live_in(js_views(elements@), *final(context)),
        final(session).follows(*old(session)),
        final(session).attached(*final(context)),
        same_vm(*old(context), *final(context)),
        equipped(*old(context)) ==> keeps(*old(context), *final(context)),
        replays(
            |j: Seq<Step>, p: nat| elements_run(values@, 0, Seq::empty(), j, p),
            old(session).journal(),
            final(session).journal(),
            elements_view(result),
        ),
        forall|references: bool, depth: nat| #[trigger]
            all_portable(values@, references, depth) && (references ==> equipped(*old(context)))
                ==> {
                &&& result is Ok
                &&& result->Ok_0@.len() == values@.len()
                &&& all_denote(
                    js_heap(*final(context)),
                    js_views(result->Ok_0@),
                    list_view(values@),
                    depth,
                )
                &&& keeps(*old(context), *final(context))
            },
    decreases values, 0nat,
{
    let ghost first = *context;
    let mut elements: Vec<JsValue> = Vec::new();
    let mut i: usize = 0;
    assert(js_views(elements@) == Seq::<JsView>::empty());
    while i < values.len()
        invariant
            session.ready(*context),
            same_vm(*old(context), *context),
            session.follows(*old(session)),
            i <= values@.len(),
            elements@.len() == i,
            live_in(js_views(elements@), *context),
            resumes(
                |j: Seq<Step>, p: nat| elements_run(values@, 0, Seq::empty(), j, p),
                |j: Seq<Step>, p: nat| elements_run(values@, i as nat, js_views(elements@), j, p),
                old(session).journal(),
                session.journal(),
            ),
            first == *old(context),
            equipped(first) ==> keeps(first, *context),
            forall|references: bool, depth: nat| #[trigger]
                all_portable(values@, references, depth) && (references ==> equipped(first))
                    ==> keeps(first, *context) && all_denote(
                    js_heap(*context),
                    js_views(elements@),
                    list_view(values@),
                    depth,
                ),
        decreases values@.len() - i,
    {
        let ghost start = *context;
        let ghost journal = session.journal();
        let ghost done = js_views(elements@);
        let converted = value_into_js(&values[i], context, session);
        proof {
            if equipped(first) {
                lemma_keeps_equipped(first, start);
                lemma_keeps_through(first, start, *context);
            }
            assert forall|j: Seq<Step>| #[trigger] extends(j, session.journal()) implies elements_run(
                values@,
                0,
                Seq::empty(),
                j,
                old(session).journal().len(),
            ) == match made_view(converted) {
                Err(error) => Some((Err(error), session.journal().len())),
                Ok(made) => elements_run(
                    values@,
                    (i + 1) as nat,
                    done.push(made),
                    j,
                    session.journal().len(),
                ),
            } by {
                assert(extends(j, journal));
            }
            assert forall|references: bool, depth: nat| #[trigger]
                all_portable(values@, references, depth) && (references ==> equipped(
                    first,
                )) implies converted is Ok && keeps(first, *context) && all_denote(
                js_heap(*context),
                done.push(js_view(converted->Ok_0)),
                list_view(values@),
                depth,
            ) by {
                if references {
                    lemma_keeps_equipped(first, start);
                }
                assert(portable(values@[i as int], references, depth));
                lemma_keeps_through(first, start, *context);
                lemma_all_denote_later(
                    js_heap(start),
                    js_heap(*context),
                    done,
                    list_view(values@),
                    depth,
                );
            }
        }
        match converted {
            Err(error) => {
                return Err(error);
            },
            Ok(made) => {
                elements.push(made);
                assert(js_views(elements@) == done.push(js_view(made)));
            },
        }
        i = i + 1;
    }
    Ok(elements)
}

/// Converts a script value into a value of the engine.
pub(crate) fn value_into_js<H: Fn(Query) -> Answer + Copy + 'static>(
    value: &ScriptValue,
    context: &mut Context,
    session: &mut Session<H>,
) -> (result: Result<JsValue, InteropError>)
    requires
        old(session).ready(*old(context)),
    ensures
        *value matches ScriptValue::Error(error) ==> made_view(result) == Err::<JsView, ErrorView>(error@),
        renders(*value, made_view(result), *final(context)),
        result matches Ok(value) ==> lives_in(js_view(value), *final(context)),
        final(session).follows(*old(session)),
        final(session).attached(*final(context)),
        same_vm(*old(context), *final(context)),
        equipped(*old(context)) ==> keeps(*old(context), *final(context)),
        replays(
            |j: Seq<Step>, p: nat| into_js_run(*value, j, p),
            old(session).journal(),
            final(session).journal(),
            made_view(result),
        ),
        into_js_effect(*old(context), *value, made_view(result), *final(context)),
        wraps_in_place(*old(context), *value, made_view(result)),
    decreases value, 0nat,
{
    match value {
        ScriptValue::Unit => Ok(undefined_value()),
        ScriptValue::Bool(truth) => Ok(boolean_value(*truth)),
        ScriptValue::Integer(integer) => {
            let made = integer_value(*integer);
            proof {
                if magnitude(*integer as int) <= WHOLE_LIMIT {
                    law_whole_number(js_double(*integer), *integer);
                }
            }
            Ok(made)
        },
        ScriptValue::Float(bits) => Ok(session.new_number(context, *bits)),
        ScriptValue::String(text) => Ok(text_value(text)),
        ScriptValue::Reference(reference) => wrap_reference(*reference, context, session),
        ScriptValue::Function(function) => wrap_function(
            Native::HostFunction(*function),
            context,
            session,
        ),
        ScriptValue::FunctionMut(handle) => wrap_function(
            Native::HostFunctionMut(*handle),
            context,
            session,
        ),
        ScriptValue::List(values) => list_into_js(values, context, session),
        ScriptValue::Record(map) => record_into_js(map, context, session),
        ScriptValue::Error(error) => Err(error.clone()),
    }
}

/// Converts a list into an array.
fn list_into_js<H: Fn(Query) -> Answer + Copy + 'static>(
    values: &Vec<ScriptValue>,
    context: &mut Context,
    session: &mut Session<H>,
) -> (result: Result<JsValue, InteropError>)
    requires
        old(session).ready(*old(context)),
    ensures
        result matches Ok(value) ==> lives_in(js_view(value), *final(context)),
        final(session).follows(*old(session)),
        final(session).attached(*final(context)),
        same_vm(*old(context), *final(context)),
        equipped(*old(context)) ==> keeps(*old(context), *final(context)),
        replays(
            |j: Seq<Step>, p: nat| into_js_run(ScriptValue::List(*values), j, p),
            old(session).journal(),
            final(session).journal(),
            made_view(result),
        ),
        into_js_effect(
            *old(context),
            ScriptValue::List(*values),
            made_view(result),
            *final(context),
        ),
    decreases values, 1nat,
{
    let ghost value = ScriptValue::List(*values);
    let ghost first = *context;
    match elements_into_js(values, context, session) {
        Err(error) => {
            proof {
                assert forall|references: bool, depth: nat| #[trigger]
                    portable(value, references, depth) implies all_portable(
                    values@,
                    references,
                    (depth - 1) as nat,
                ) by {}
            }
            Err(error)
        },
        Ok(elements) => {
            let ghost between = *context;
            let ghost views = js_views(elements@);
            let made = session.new_array(context, elements);
            proof {
                assert forall|references: bool, depth: nat| #[trigger]
                    portable(value, references, depth) && (references ==> equipped(
                        first,
                    )) implies denotes(js_heap(*context), js_view(made), value@, depth) && keeps(
                    first,
                    *context,
                ) by {
                    assert(all_portable(values@, references, (depth - 1) as nat));
                    lemma_keeps_through(first, between, *context);
                    lemma_all_denote_later(
                        js_heap(between),
                        js_heap(*context),
                        views,
                        list_view(values@),
                        (depth - 1) as nat,
                    );
                    assert(own_elements(js_heap(*context), js_view(made)) == Some(views));
                }
            }
            Ok(made)
        },
    }
}

/// The keys of properties are the texts of entries, and tell these apart.
pub open spec fn keys_agree(entries: Seq<(String, ScriptValue)>, made: Seq<(Seq<u16>, JsView)>) -> bool {
    &&& made.len() <= entries.len()
    &&& forall|i: int|
        0 <= i < made.len() ==> (#[trigger] made[i]).0 == js_units(entries[i].0@) && js_text(
            made[i].0,
        ) == entries[i].0@
}

/// The values of properties hold the script values of entries.
pub open spec fn values_agree(
    heap: Map<nat, JsNode>,
    entries: Seq<(String, ScriptValue)>,
    made: Seq<(Seq<u16>, JsView)>,
    depth: nat,
) -> bool {
    &&& made.len() <= entries.len()
    &&& forall|i: int|
        0 <= i < made.len() ==> denotes(heap, (#[trigger] made[i]).1, entries[i].1@, depth)
}

/// Every value of a map is one that a virtual machine can hold as it is.
pub open spec fn entries_portable(
    entries: Seq<(String, ScriptValue)>,
    references: bool,
    depth: nat,
) -> bool {
    forall|i: int|
        0 <= i < entries.len() ==> portable((#[trigger] entries[i]).1, references, depth)
}

/// What a virtual machine holds in properties, it holds after its heap grew.
proof fn lemma_values_agree_later(
    heap: Map<nat, JsNode>,
    later: Map<nat, JsNode>,
    entries: Seq<(String, ScriptValue)>,
    made: Seq<(Seq<u16>, JsView)>,
    depth: nat,
)
    requires
        covers(later, heap),
        values_agree(heap, entries, made, depth),
    ensures
        values_agree(later, entries, made, depth),
{
    assert forall|i: int| 0 <= i < made.len() implies denotes(
        later,
        (#[trigger] made[i]).1,
        entries[i].1@,
        depth,
    ) by {
        lemma_denotes_later(heap, later, made[i].1, entries[i].1@, depth);
    }
}

/// Properties made of the entries of a map hold that map.
proof fn lemma_properties_agree(
    heap: Map<nat, JsNode>,
    entries: Seq<(String, ScriptValue)>,
    made: Seq<(Seq<u16>, JsView)>,
    depth: nat,
)
    requires
        made.len() == entries.len(),
        keys_agree(entries, made),
        values_agree(heap, entries, made, depth),
    ensures
        forall|units: Seq<u16>| #[trigger]
            properties(made).contains_key(units) ==> {
                &&& js_units(js_text(units)) == units
                &&& entries_view(entries).contains_key(js_text(units))
                &&& denotes(
                    heap,
                    properties(made)[units],
                    entries_view(entries)[js_text(units)],
                    depth,
                )
            },
        forall|key: Seq<char>| #[trigger]
            entries_view(entries).contains_key(key) ==> named(properties(made), key),
    decreases entries.len(),
{
    if entries.len() > 0 {
        let last = made.len() - 1;
        let entries_before = entries.drop_last();
        let made_before = made.drop_last();
        assert(keys_agree(entries_before, made_before)) by {
            assert forall|i: int| 0 <= i < made_before.len() implies (#[trigger] made_before[i]).0
                == js_units(entries_before[i].0@) && js_text(made_before[i].0)
                == entries_before[i].0@ by {
                assert(made[i].0 == js_units(entries[i].0@));
            }
        }
        assert(values_agree(heap, entries_before, made_before, depth)) by {
            assert forall|i: int| 0 <= i < made_before.len() implies denotes(
                heap,
                (#[trigger] made_before[i]).1,
                entries_before[i].1@,
                depth,
            ) by {
                assert(denotes(heap, made[i].1, entries[i].1@, depth));
            }
        }
        lemma_properties_agree(heap, entries_before, made_before, depth);
        assert(made[last].0 == js_units(entries[last].0@));
        assert(denotes(heap, made[last].1, entries[last].1@, depth));
        let data = properties(made);
        let map = entries_view(entries);
        assert(data == properties(made_before).insert(made[last].0, made[last].1));
        assert(map == entries_view(entries_before).insert(entries[last].0@, entries[last].1@));
        assert forall|units: Seq<u16>| #[trigger] data.contains_key(units) implies {
            &&& js_units(js_text(units)) == units
            &&& map.contains_key(js_text(units))
            &&& denotes(heap, data[units], map[js_text(units)], depth)
        } by {
            if units != made[last].0 {
                assert(properties(made_before).contains_key(units));
                assert(js_text(units) != entries[last].0@);
            }
        }
        assert forall|key: Seq<char>| #[trigger] map.contains_key(key) implies named(data, key) by {
            if key == entries[last].0@ {
                assert(data.contains_key(made[last].0) && js_text(made[last].0) == key);
            } else {
                assert(entries_view(entries_before).contains_key(key));
                assert(named(properties(made_before), key));
                let units = choose|units: Seq<u16>| #[trigger]
                    properties(made_before).contains_key(units) && js_text(units) == key;
                assert(data.contains_key(units) && js_text(units) == key);
            }
        }
    }
}

/// The values of the entries of an object belong to a virtual machine.
pub open spec fn hold_own(entries: Seq<(JsValue, JsValue)>, context: Context) -> bool {
    forall|i: int|
        0 <= i < entries.len() ==> lives_in(js_view((#[trigger] entries[i]).1), context)
}

/// The result of converting the entries of a map as contracts see it.
pub open spec fn properties_view(result: Result<Vec<(JsValue, JsValue)>, InteropError>) -> Result<
    Seq<(Seq<u16>, JsView)>,
    ErrorView,
> {
    match result {
        Ok(entries) => Ok(entry_views(entries@)),
        Err(error) => Err(error@),
    }
}

/// Converts the entries of a map.
fn properties_into_js<H: Fn(Query) -> Answer + Copy + 'static>(
    entries: &Vec<(String, ScriptValue)>,
    context: &mut Context,
    session: &mut Session<H>,
) -> (result: Result<Vec<(JsValue, JsValue)>, InteropError>)
    requires
        old(session).ready(*old(context)),
    ensures
        result matches Ok(made) ==> hold_own(made@, *final(context)),
        final(session).follows(*old(session)),
        final(session).attached(*final(context)),
        same_vm(*old(context), *final(context)),
        equipped(*old(context)) ==> keeps(*old(context), *final(context)),
        replays(
            |j: Seq<Step>, p: nat| properties_run(entries@, 0, Seq::empty(), j, p),
            old(session).journal(),
            final(session).journal(),
            properties_view(result),
        ),
        result matches Ok(made) ==> keyed(made@) && made@.len() == entries@.len() && keys_agree(
            entries@,
            entry_views(made@),
        ),
        forall|references: bool, depth: nat| #[trigger]
            entries_portable(entries@, references, depth) && (references ==> equipped(
                *old(context),
            )) ==> {
                &&& result is Ok
                &&& values_agree(
                    js_heap(*final(context)),
                    entries@,
                    entry_views(result->Ok_0@),
                    depth,
                )
                &&& keeps(*old(context), *final(context))
            },
    decreases entries, 0nat,
{
    let ghost first = *context;
    let mut made: Vec<(JsValue, JsValue)> = Vec::new();
    let mut i: usize = 0;
    assert(entry_views(made@) == Seq::<(Seq<u16>, JsView)>::empty());
    while i < entries.len()
        invariant
            session.ready(*context),
            same_vm(*old(context), *context),
            session.follows(*old(session)),
            i <= entries@.len(),
            made@.len() == i,
            hold_own(made@, *context),
            keyed(made@),
            keys_agree(entries@, entry_views(made@)),
            resumes(
                |j: Seq<Step>, p: nat| properties_run(entries@, 0, Seq::empty(), j, p),
                |j: Seq<Step>, p: nat| properties_run(entries@, i as nat, entry_views(made@), j, p),
                old(session).journal(),
                session.journal(),
            ),
            first == *old(context),
            equipped(first) ==> keeps(first, *context),
            forall|references: bool, depth: nat| #[trigger]
                entries_portable(entries@, references, depth) && (references ==> equipped(first))
                    ==> keeps(first, *context) && values_agree(
                    js_heap(*context),
                    entries@,
                    entry_views(made@),
                    depth,
                ),
        decreases entries@.len() - i,
    {
        let ghost start = *context;
        let ghost journal = session.journal();
        let ghost done = entry_views(made@);
        let key = text_value(&entries[i].0);
        let ghost units = js_units(entries@[i as int].0@);
        let converted = value_into_js(&entries[i].1, context, session);
        proof {
            if equipped(first) {
                lemma_keeps_equipped(first, start);
                lemma_keeps_through(first, start, *context);
            }
            assert forall|j: Seq<Step>| #[trigger] extends(
                j,
                session.journal(),
            ) implies properties_run(
                entries@,
                0,
                Seq::empty(),
                j,
                old(session).journal().len(),
            ) == match made_view(converted) {
                Err(error) => Some((Err(error), session.journal().len())),
                Ok(value) => properties_run(
                    entries@,
                    (i + 1) as nat,
                    done.push((units, value)),
                    j,
                    session.journal().len(),
                ),
            } by {
                assert(extends(j, journal));
            }
            assert forall|references: bool, depth: nat| #[trigger]
                entries_portable(entries@, references, depth) && (references ==> equipped(
                    first,
                )) implies converted is Ok && keeps(first, *context) && values_agree(
                js_heap(*context),
                entries@,
                done.push((units, js_view(converted->Ok_0))),
                depth,
            ) by {
                if references {
                    lemma_keeps_equipped(first, start);
                }
                assert(portable(entries@[i as int].1, references, depth));
                lemma_keeps_through(first, start, *context);
                lemma_values_agree_later(
                    js_heap(start),
                    js_heap(*context),
                    entries@,
                    done,
                    depth,
                );
            }
        }
        match converted {
            Err(error) => {
                return Err(error);
            },
            Ok(value) => {
                made.push((key, value));
                assert(entry_views(made@) == done.push((units, js_view(value))));
            },
        }
        i = i + 1;
    }
    Ok(made)
}

/// Makes an object and gives it properties.
fn fill_record<H: Fn(Query) -> Answer + Copy + 'static>(
    entries: &Vec<(JsValue, JsValue)>,
    context: &mut Context,
    session: &mut Session<H>,
) -> (made: JsValue)
    requires
        old(session).attached(*old(context)),
        keyed(entries@),
        hold_own(entries@, *old(context)),
    ensures
        opens(*final(context), js_view(made)),
        lives_in(js_view(made), *final(context)),
        final(session).follows(*old(session)),
        final(session).attached(*final(context)),
        same_vm(*old(context), *final(context)),
        extends(final(session).journal(), old(session).journal()),
        forall|j: Seq<Step>| #[trigger]
            extends(j, final(session).journal()) ==> {
                &&& record_reply(j, old(session).journal().len()) == Some(js_view(made))
                &&& inserts_run(
                    js_view(made),
                    entry_views(entries@),
                    0,
                    j,
                    old(session).journal().len() + 1,
                ) == Some((Ok::<JsView, ErrorView>(js_view(made)), final(session).journal().len()))
            },
        is_fresh(*old(context), js_view(made), false),
        own_properties(js_heap(*final(context)), js_view(made)) is Some,
        alike_data(
            properties(entry_views(entries@)),
            own_properties(js_heap(*final(context)), js_view(made))->0,
        ),
        keeps(*old(context), *final(context)),
{
    let ghost first = *context;
    let ghost views = entry_views(entries@);
    let ghost start = session.journal();
    let made = session.new_record(context);
    let ghost view = js_view(made);
    let ghost began = session.journal();
    let mut i: usize = 0;
    assert(views.take(0) == Seq::<(Seq<u16>, JsView)>::empty());
    while i < entries.len()
        invariant
            session.attached(*context),
            same_vm(*old(context), *context),
            session.follows(*old(session)),
            start == old(session).journal(),
            began.len() == start.len() + 1,
            keyed(entries@),
            hold_own(entries@, *context),
            lives_in(view, *context),
            i <= entries@.len(),
            views == entry_views(entries@),
            view == js_view(made),
            first == *old(context),
            is_fresh(first, view, false),
            extends(began, start),
            record_reply(began, start.len()) == Some(view),
            resumes(
                |j: Seq<Step>, p: nat| inserts_run(view, views, 0, j, p),
                |j: Seq<Step>, p: nat| inserts_run(view, views, i as nat, j, p),
                began,
                session.journal(),
            ),
            own_properties(js_heap(*context), view) is Some,
            forall|key: Seq<u16>|
                has_property(js_heap(*context), view, key) ==> #[trigger] is_open(
                    *context,
                    view,
                    key,
                ),
            alike_data(
                properties(views.take(i as int)),
                own_properties(js_heap(*context), view)->0,
            ),
            keeps(first, *context),
        decreases entries@.len() - i,
    {
        let ghost journal = session.journal();
        let ghost before = own_properties(js_heap(*context), view)->0;
        let ghost start_of_insert = *context;
        session.insert(context, &made, &entries[i].0, &entries[i].1);
        proof {
            let (key, value) = views[i as int];
            let bare = choose|bare: bool| #[trigger]
                sets(
                    start_of_insert,
                    view,
                    key,
                    before.insert(key, value),
                    true,
                    bare,
                    *context,
                );
            lemma_sets(start_of_insert, view, key, before.insert(key, value), true, bare, *context);
            lemma_alike_data_through(
                properties(views.take(i as int)),
                before,
                own_properties(js_heap(*context), view)->0,
                key,
                value,
            );
            assert(adds_open(first, *context)) by {
                assert forall|id: nat, own: Seq<u16>|
                    is_added(first, id) && has_property(
                        js_heap(*context),
                        data_object(first, id, false),
                        own,
                    ) implies #[trigger] is_open(
                    *context,
                    data_object(first, id, false),
                    own,
                ) by {
                    let object = data_object(first, id, false);
                    if id == object_id(view) {
                        if own != key {
                            assert(has_property(js_heap(start_of_insert), view, own));
                        }
                    } else {
                        assert(has_property(js_heap(start_of_insert), object, own));
                        assert(is_open(start_of_insert, object, own));
                    }
                }
            }
            assert forall|j: Seq<Step>| #[trigger] extends(j, session.journal()) implies inserts_run(
                view,
                views,
                0,
                j,
                began.len(),
            ) == inserts_run(view, views, (i + 1) as nat, j, session.journal().len()) by {
                assert(extends(j, journal));
                assert(j[journal.len() as int] == session.journal()[journal.len() as int]);
            }
            assert(views.take(i + 1).drop_last() == views.take(i as int));
            assert(views.take(i + 1).last() == views[i as int]);
        }
        i = i + 1;
    }
    assert(views.take(views.len() as int) == views);
    assert forall|j: Seq<Step>| #[trigger] extends(j, session.journal()) implies record_reply(
        j,
        start.len(),
    ) == Some(view) by {
        assert(extends(j, began));
        assert(j[start.len() as int] == began[start.len() as int]);
    }
    made
}

/// Converts a map into an object.
fn record_into_js<H: Fn(Query) -> Answer + Copy + 'static>(
    map: &ScriptMap,
    context: &mut Context,
    session: &mut Session<H>,
) -> (result: Result<JsValue, InteropError>)
    requires
        old(session).ready(*old(context)),
    ensures
        result matches Ok(made) ==> opens(*final(context), js_view(made)),
        result matches Ok(value) ==> lives_in(js_view(value), *final(context)),
        final(session).follows(*old(session)),
        final(session).attached(*final(context)),
        same_vm(*old(context), *final(context)),
        equipped(*old(context)) ==> keeps(*old(context), *final(context)),
        replays(
            |j: Seq<Step>, p: nat| into_js_run(ScriptValue::Record(*map), j, p),
            old(session).journal(),
            final(session).journal(),
            made_view(result),
        ),
        into_js_effect(
            *old(context),
            ScriptValue::Record(*map),
            made_view(result),
            *final(context),
        ),
    decreases map, 1nat,
{
    let ghost value = ScriptValue::Record(*map);
    let ghost first = *context;
    proof {
        assert forall|references: bool, depth: nat| #[trigger]
            portable(value, references, depth) implies entries_portable(
            map.entries@,
            references,
            (depth - 1) as nat,
        ) by {}
    }
    match properties_into_js(&map.entries, context, session) {
        Err(error) => Err(error),
        Ok(entries) => {
            let ghost between = *context;
            let ghost views = entry_views(entries@);
            let made = fill_record(&entries, context, session);
            proof {
                if equipped(first) {
                    lemma_keeps_through(first, between, *context);
                }
                assert forall|references: bool, depth: nat| #[trigger]
                    portable(value, references, depth) && (references ==> equipped(
                        first,
                    )) implies denotes(js_heap(*context), js_view(made), value@, depth) && keeps(
                    first,
                    *context,
                ) by {
                    assert(entries_portable(map.entries@, references, (depth - 1) as nat));
                    lemma_keeps_through(first, between, *context);
                    lemma_values_agree_later(
                        js_heap(between),
                        js_heap(*context),
                        map.entries@,
                        views,
                        (depth - 1) as nat,
                    );
                    lemma_properties_agree(
                        js_heap(*context),
                        map.entries@,
                        views,
                        (depth - 1) as nat,
                    );
                    lemma_properties_count(views);
                    let data = own_properties(js_heap(*context), js_view(made))->0;
                    assert(value@->Record_0 == entries_view(map.entries@));
                    assert(holds_data(js_view(made), false));
                    assert forall|units: Seq<u16>| #[trigger]
                        data.contains_key(units) implies value@->Record_0.contains_key(
                        js_text(units),
                    ) && denotes(
                        js_heap(*context),
                        data[units],
                        value@->Record_0[js_text(units)],
                        (depth - 1) as nat,
                    ) by {
                        assert(properties(views).contains_key(units));
                        lemma_denotes_alike(
                            js_heap(*context),
                            properties(views)[units],
                            data[units],
                            value@->Record_0[js_text(units)],
                            (depth - 1) as nat,
                        );
                    }
                    assert forall|key: Seq<char>| #[trigger]
                        value@->Record_0.contains_key(key) implies named(data, key) by {
                        assert(entries_view(map.entries@).contains_key(key));
                        assert(named(properties(views), key));
                        let units = choose|units: Seq<u16>| #[trigger]
                            properties(views).contains_key(units) && js_text(units) == key;
                        assert(data.contains_key(units));
                    }
                }
            }
            Ok(made)
        },
    }
}

} // verus!
