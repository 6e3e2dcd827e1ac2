//! From the values of the engine to script values.
use crate::cycles::{
    contains, countable, holds, leads, lemma_data_does_not_loop, lemma_leads_on, lemma_loops_later,
    loops,
};
use crate::data::{
    denotes, holds_data, keeps, lemma_denotes_later, lemma_keeps_intact, lemma_keeps_through,
    lemma_lists_count, mapless, named, COUNT_LIMIT,
};
use crate::engine::{
    clone_value, is_array, is_callable, js_heap, js_text, js_units, js_view, kind_of, lives_in,
    reference_of, same_object, text_of, token_of, JsKind, JsNode, JsView,
};
use crate::function_registry::{
    registry_can_be_made, registry_in, store_callable, store_run, stores,
};
use crate::host::{Answer, Query};
use crate::number::{
    finite, is_finite, law_whole_number, magnitude, represents, whole_number, whole_of, WHOLE_LIMIT,
};
use crate::session::{
    call_reply, extends, get_reply, global_reply, intact, js_views, length_reply, lists, made_view,
    name_key, own_data, own_elements, own_properties, replays, resumes, same_vm, text_reply, Key,
    KeyView, Session, Step,
};
use crate::value::{
    list_view, ErrorView, FunctionRef, InteropError, ReflectReference, ScriptMap, ScriptValue,
    ScriptView,
};
use boa_engine::{Context, JsValue};
use vstd::prelude::*;

verus! {

broadcast use crate::session::lemma_extends_earlier;

/// The deepest nesting that is converted. No stack holds as many calls.
pub const DEPTH_LIMIT: usize = usize::MAX;

/// What is said of a value that is nested too deep.
pub const TOO_DEEP: &'static str = "the value is nested too deep";

/// What is said of a value that contains itself.
pub const CIRCULAR: &'static str = "the value contains itself";

/// What is said of a type token that is passed as a value.
pub const NO_VALUE: &'static str =
    "StaticReflectReference cannot be passed as a value; use its .call(...)/.fn(...) APIs or get a dynamic type handle via world.get_type_by_name(...)";

/// What is said of a value of the engine that no script value stands for.
pub const UNSUPPORTED: &'static str = "Unsupported JsValue -> ScriptValue";

/// The script value of a double.
pub open spec fn number_view(bits: u64) -> Result<ScriptView, ErrorView> {
    match whole_of(bits) {
        Some(value) => Ok(ScriptView::Integer(value)),
        None => if finite(bits) {
            Ok(ScriptView::Float(bits))
        } else {
            Err(ErrorView::UnsupportedOperation(UNSUPPORTED@))
        },
    }
}

/// A number keeps its value: an integer of at most 53 bits becomes an integer, any other finite
/// number stays the double that it is, and what is no finite number is refused.
pub proof fn law_numbers_keep_their_value(bits: u64)
    ensures
        match number_view(bits) {
            Ok(ScriptView::Integer(value)) => represents(bits, value as int) && magnitude(
                value as int,
            ) <= WHOLE_LIMIT,
            Ok(ScriptView::Float(own)) => own == bits && finite(bits) && forall|value: i64|
                magnitude(value as int) <= WHOLE_LIMIT ==> !represents(bits, value as int),
            Ok(_) => false,
            Err(_) => !finite(bits),
        },
{
    if let Some(value) = whole_of(bits) {
        assert(represents(bits, value as int));
    } else {
        assert forall|value: i64| magnitude(value as int) <= WHOLE_LIMIT implies !represents(
            bits,
            value as int,
        ) by {
            if represents(bits, value as int) {
                law_whole_number(bits, value);
            }
        }
    }
}

/// Converting a value of the engine into a script value.
pub open spec fn from_js_run(value: JsView, fuel: nat, j: Seq<Step>, p: nat) -> Option<
    (Result<ScriptView, ErrorView>, nat),
> {
    nested_run(value, Seq::empty(), fuel, j, p)
}

/// Converting a value of the engine to which a path of arrays and objects leads. One that is on the
/// path contains itself, and is refused.
pub open spec fn nested_run(
    value: JsView,
    path: Seq<JsView>,
    fuel: nat,
    j: Seq<Step>,
    p: nat,
) -> Option<(Result<ScriptView, ErrorView>, nat)>
    decreases fuel, 0nat,
{
    if fuel == 0 {
        Some((Err(ErrorView::Invariant(TOO_DEEP@)), p))
    } else {
        match value {
            JsView::Undefined | JsView::Null => Some((Ok(ScriptView::Unit), p)),
            JsView::Boolean(truth) => Some((Ok(ScriptView::Bool(truth)), p)),
            JsView::Str(units) => Some((Ok(ScriptView::String(js_text(units))), p)),
            JsView::Integer(integer) => Some((Ok(ScriptView::Integer(integer as i64)), p)),
            JsView::Rational(bits) => Some((number_view(bits), p)),
            JsView::BigInt(_) | JsView::Symbol(_) => Some(
                (Err(ErrorView::UnsupportedOperation(UNSUPPORTED@)), p),
            ),
            JsView::Object(object) => if object.callable {
                match store_run(value, j, p) {
                    None => None,
                    Some((Err(error), q)) => Some((Err(error), q)),
                    Some((Ok(id), q)) => Some((Ok(ScriptView::Function(FunctionRef::Script(id))), q)),
                }
            } else {
                match (object.reference, object.token) {
                    (Some(reference), _) => Some(
                        (Ok(ScriptView::Reference(ReflectReference(reference))), p),
                    ),
                    (None, Some(_)) => Some((Err(ErrorView::UnsupportedOperation(NO_VALUE@)), p)),
                    (None, None) => if path.contains(value) {
                        Some((Err(ErrorView::Invariant(CIRCULAR@)), p))
                    } else if object.array {
                        list_run(value, path.push(value), (fuel - 1) as nat, j, p)
                    } else {
                        record_run(value, path.push(value), (fuel - 1) as nat, j, p)
                    },
                }
            },
        }
    }
}

/// Converting an array into a list.
pub open spec fn list_run(
    array: JsView,
    path: Seq<JsView>,
    fuel: nat,
    j: Seq<Step>,
    p: nat,
) -> Option<(Result<ScriptView, ErrorView>, nat)>
    decreases fuel, u64::MAX + 2,
{
    match length_reply(j, p, array) {
        None => None,
        Some(Err(text)) => Some((Err(ErrorView::Invariant(text)), p + 1)),
        Some(Ok(count)) => items_run(array, 0, count, Seq::empty(), path, fuel, j, p + 1),
    }
}

/// Converting the elements of an array from an index on, after those before it.
pub open spec fn items_run(
    array: JsView,
    i: u64,
    count: u64,
    done: Seq<ScriptView>,
    path: Seq<JsView>,
    fuel: nat,
    j: Seq<Step>,
    p: nat,
) -> Option<(Result<ScriptView, ErrorView>, nat)>
    decreases fuel, 1 + count - i,
{
    if i >= count {
        Some((Ok(ScriptView::List(done)), p))
    } else {
        match get_reply(j, p, array, KeyView::Index(i as i32)) {
            None => None,
            Some(Err(text)) => Some((Err(ErrorView::Invariant(text)), p + 1)),
            Some(Ok(element)) => match nested_run(element, path, fuel, j, p + 1) {
                None => None,
                Some((Err(error), q)) => Some((Err(error), q)),
                Some((Ok(value), q)) => items_run(
                    array,
                    (i + 1) as u64,
                    count,
                    done.push(value),
                    path,
                    fuel,
                    j,
                    q,
                ),
            },
        }
    }
}

/// Listing the keys of an object with the `Object.keys` of the script.
pub open spec fn keys_run(object: JsView, j: Seq<Step>, p: nat) -> Option<
    (Result<JsView, ErrorView>, nat),
> {
    match global_reply(j, p) {
        None => None,
        Some(global) => match get_reply(j, p + 1, global, name_key("Object"@)) {
            None => None,
            Some(Err(text)) => Some((Err(ErrorView::Invariant(text)), p + 2)),
            Some(Ok(constructor)) => if !(constructor is Object) {
                Some((Err(ErrorView::Invariant("global Object is not an object"@)), p + 2))
            } else {
                match get_reply(j, p + 2, constructor, name_key("keys"@)) {
                    None => None,
                    Some(Err(text)) => Some((Err(ErrorView::Invariant(text)), p + 3)),
                    Some(Ok(keys)) => if !(keys is Object) {
                        Some((Err(ErrorView::Invariant("Object.keys is not a function"@)), p + 3))
                    } else {
                        match call_reply(j, p + 3, keys, seq![object]) {
                            None => None,
                            Some(Err(text)) => Some((Err(ErrorView::Invariant(text)), p + 4)),
                            Some(Ok(listed)) => Some((keys_listed(listed), p + 4)),
                        }
                    },
                }
            },
        },
    }
}

/// The list of keys that `Object.keys` returned, if it is an array.
pub open spec fn keys_listed(listed: JsView) -> Result<JsView, ErrorView> {
    match listed {
        JsView::Object(object) => if object.array {
            Ok(listed)
        } else {
            Err(ErrorView::Invariant("Object.keys did not return an array"@))
        },
        _ => Err(ErrorView::Invariant("Object.keys did not return an object"@)),
    }
}

/// Converting an object into a map.
pub open spec fn record_run(
    object: JsView,
    path: Seq<JsView>,
    fuel: nat,
    j: Seq<Step>,
    p: nat,
) -> Option<(Result<ScriptView, ErrorView>, nat)>
    decreases fuel, u64::MAX + 2,
{
    match keys_run(object, j, p) {
        None => None,
        Some((Err(error), q)) => Some((Err(error), q)),
        Some((Ok(keys), q)) => match length_reply(j, q, keys) {
            None => None,
            Some(Err(text)) => Some((Err(ErrorView::Invariant(text)), q + 1)),
            Some(Ok(count)) => entries_run(
                object,
                keys,
                0,
                count,
                Map::empty(),
                path,
                fuel,
                j,
                q + 1,
            ),
        },
    }
}

/// Converting the properties of an object from an index in the list of its keys on, after those
/// before it.
pub open spec fn entries_run(
    object: JsView,
    keys: JsView,
    i: u64,
    count: u64,
    done: Map<Seq<char>, ScriptView>,
    path: Seq<JsView>,
    fuel: nat,
    j: Seq<Step>,
    p: nat,
) -> Option<(Result<ScriptView, ErrorView>, nat)>
    decreases fuel, 1 + count - i,
{
    if i >= count {
        Some((Ok(ScriptView::Record(done)), p))
    } else {
        match get_reply(j, p, keys, KeyView::Index(i as i32)) {
            None => None,
            Some(Err(text)) => Some((Err(ErrorView::Invariant(text)), p + 1)),
            Some(Ok(listed)) => match text_reply(j, p + 1, listed) {
                None => None,
                Some(Err(text)) => Some((Err(ErrorView::Invariant(text)), p + 2)),
                Some(Ok(key)) => match get_reply(j, p + 2, object, KeyView::Units(key->Str_0)) {
                    None => None,
                    Some(Err(text)) => Some((Err(ErrorView::Invariant(text)), p + 3)),
                    Some(Ok(property)) => match nested_run(property, path, fuel, j, p + 3) {
                        None => None,
                        Some((Err(error), q)) => Some((Err(error), q)),
                        Some((Ok(value), q)) => entries_run(
                            object,
                            keys,
                            (i + 1) as u64,
                            count,
                            done.insert(js_text(key->Str_0), value),
                            path,
                            fuel,
                            j,
                            q,
                        ),
                    },
                },
            },
        }
    }
}

/// A value of a virtual machine to which a path leads holds a script value, which a conversion can
/// reach. The engine's own `Object.keys` is needed for maps.
pub open spec fn reachable(
    before: Context,
    path: Seq<JsView>,
    view: JsView,
    fuel: nat,
    value: ScriptView,
    depth: nat,
) -> bool {
    &&& denotes(js_heap(before), view, value, depth)
    &&& depth <= fuel
    &&& mapless(value) || intact(before)
    &&& leads(js_heap(before), path, view)
}

/// What a conversion can reach, it can reach while a virtual machine keeps its data.
pub broadcast proof fn lemma_reachable_later(
    before: Context,
    after: Context,
    view: JsView,
    fuel: nat,
    value: ScriptView,
    depth: nat,
)
    requires
        #[trigger] keeps(before, after),
        #[trigger] reachable(before, Seq::empty(), view, fuel, value, depth),
    ensures
        reachable(after, Seq::empty(), view, fuel, value, depth),
{
    lemma_denotes_later(js_heap(before), js_heap(after), view, value, depth);
    if intact(before) {
        lemma_keeps_intact(before, after);
    }
}

/// A value of a virtual machine to which a path leads contains itself, or one on the path, and holds
/// nothing but data besides. The engine's own `Object.keys` is needed for maps.
#[verifier::opaque]
pub open spec fn circular(
    before: Context,
    path: Seq<JsView>,
    view: JsView,
    fuel: nat,
    maps: bool,
    depth: nat,
) -> bool {
    &&& loops(js_heap(before), path, view, maps, depth)
    &&& depth <= fuel
    &&& maps ==> intact(before)
    &&& leads(js_heap(before), path, view)
}

/// A conversion gives back the data that a virtual machine holds, and keeps that data. It refuses a
/// value that contains itself.
pub open spec fn from_js_effect(
    before: Context,
    view: JsView,
    fuel: nat,
    reply: Result<ScriptView, ErrorView>,
    after: Context,
) -> bool {
    nested_effect(before, Seq::empty(), view, fuel, reply, after)
}

/// A conversion of a value to which a path leads gives back the data that it holds, and keeps that
/// data. It refuses a value that contains itself or one on the path.
pub open spec fn nested_effect(
    before: Context,
    path: Seq<JsView>,
    view: JsView,
    fuel: nat,
    reply: Result<ScriptView, ErrorView>,
    after: Context,
) -> bool {
    &&& forall|value: ScriptView, depth: nat| #[trigger]
        reachable(before, path, view, fuel, value, depth) ==> reply == Ok::<ScriptView, ErrorView>(
            value,
        ) && keeps(before, after)
    &&& forall|maps: bool, depth: nat| #[trigger]
        circular(before, path, view, fuel, maps, depth) ==> reply == Err::<ScriptView, ErrorView>(
            ErrorView::Invariant(CIRCULAR@),
        )
}

/// A text without lone surrogates is converted as it is. A function is stored and not called, where
/// the virtual machine has a registry or room for one, and the functions that were stored before stay.
pub open spec fn hands_over(
    before: Context,
    view: JsView,
    reply: Result<ScriptView, ErrorView>,
    after: Context,
) -> bool {
    &&& forall|text: Seq<char>|
        view == JsView::Str(#[trigger] js_units(text)) ==> reply == Ok::<ScriptView, ErrorView>(
            ScriptView::String(text),
        )
    &&& (view matches JsView::Object(object) && object.callable) && (registry_in(before) is Some
        || registry_can_be_made(before)) && reply is Ok ==> {
        &&& reply->Ok_0 matches ScriptView::Function(FunctionRef::Script(id)) && stores(
            before,
            id,
            view,
            after,
        )
    }
}

/// The result of a conversion as contracts see it.
pub open spec fn value_view(result: Result<ScriptValue, InteropError>) -> Result<
    ScriptView,
    ErrorView,
> {
    match result {
        Ok(value) => Ok(value@),
        Err(error) => Err(error@),
    }
}

/// Lists the keys of an object with the `Object.keys` of the script.
fn keys_of<H: Fn(Query) -> Answer + Copy + 'static>(
    object: &JsValue,
    context: &mut Context,
    session: &mut Session<H>,
) -> (result: Result<JsValue, InteropError>)
    requires
        old(session).attached(*old(context)),
        js_view(*object) is Object,
        lives_in(js_view(*object), *old(context)),
    ensures
        result matches Ok(keys) ==> lives_in(js_view(keys), *final(context)),
        final(session).follows(*old(session)),
        final(session).attached(*final(context)),
        same_vm(*old(context), *final(context)),
        result matches Ok(keys) ==> (js_view(keys) matches JsView::Object(own) && own.array),
        replays(
            |j: Seq<Step>, p: nat| keys_run(js_view(*object), j, p),
            old(session).journal(),
            final(session).journal(),
            made_view(result),
        ),
        intact(*old(context)) && own_properties(js_heap(*old(context)), js_view(*object)) is Some
            ==> exists|elements: Seq<JsView>|
            {
                &&& result is Ok
                &&& #[trigger] lists(
                    elements,
                    own_properties(js_heap(*old(context)), js_view(*object))->0,
                )
                &&& own_elements(js_heap(*final(context)), js_view(result->Ok_0)) == Some(elements)
                &&& keeps(*old(context), *final(context))
            },
{
    let global = session.global(context);
    let constructor = match session.get(context, &global, Key::Name("Object")) {
        Err(text) => {
            return Err(InteropError::Invariant(text));
        },
        Ok(constructor) => constructor,
    };
    if kind_of(&constructor) != JsKind::Object {
        return Err(InteropError::broken_invariant("global Object is not an object"));
    }
    let keys = match session.get(context, &constructor, Key::Name("keys")) {
        Err(text) => {
            return Err(InteropError::Invariant(text));
        },
        Ok(keys) => keys,
    };
    if kind_of(&keys) != JsKind::Object {
        return Err(InteropError::broken_invariant("Object.keys is not a function"));
    }
    let mut arguments: Vec<JsValue> = Vec::new();
    arguments.push(clone_value(object));
    assert(js_views(arguments@) == seq![js_view(*object)]);
    match session.call(context, &keys, &arguments) {
        Err(text) => Err(InteropError::Invariant(text)),
        Ok(listed) => if kind_of(&listed) != JsKind::Object {
            Err(InteropError::broken_invariant("Object.keys did not return an object"))
        } else if !is_array(&listed) {
            Err(InteropError::broken_invariant("Object.keys did not return an array"))
        } else {
            Ok(listed)
        },
    }
}

/// An element of an array that holds a list holds the value at its index, later on too.
proof fn lemma_element(
    before: Context,
    now: Context,
    array: JsView,
    values: Seq<ScriptView>,
    depth: nat,
    i: int,
)
    requires
        keeps(before, now),
        denotes(js_heap(before), array, ScriptView::List(values), depth),
        0 <= i < values.len(),
    ensures
        i as i32 == i,
        own_data(js_heap(now), array, KeyView::Index(i as i32)) is Some,
        denotes(
            js_heap(now),
            own_data(js_heap(now), array, KeyView::Index(i as i32))->0,
            values[i],
            (depth - 1) as nat,
        ),
{
    let id = array->Object_0.id;
    let elements = own_elements(js_heap(before), array)->0;
    assert(js_heap(before).contains_key(id));
    assert(js_heap(now).contains_key(id) && js_heap(now)[id] == js_heap(before)[id]);
    assert(denotes(js_heap(before), elements[i], values[i], (depth - 1) as nat));
    lemma_denotes_later(
        js_heap(before),
        js_heap(now),
        elements[i],
        values[i],
        (depth - 1) as nat,
    );
}

/// None of the first parts of a value comes back to a value on a path.
pub open spec fn passed(
    heap: Map<nat, JsNode>,
    path: Seq<JsView>,
    parts: Seq<JsView>,
    i: int,
    maps: bool,
    depth: nat,
) -> bool {
    forall|k: int|
        0 <= k < i ==> !loops(heap, path, #[trigger] parts[k], maps, (depth - 1) as nat)
}

/// A part of a value that contains itself is refused if it comes back to a value on the path, and
/// converted if it holds data.
proof fn lemma_circular_part(
    before: Context,
    now: Context,
    path: Seq<JsView>,
    view: JsView,
    part: JsView,
    fuel: nat,
    maps: bool,
    depth: nat,
    result: Result<ScriptView, ErrorView>,
    after: Context,
)
    requires
        circular(before, path, view, fuel + 1, maps, depth),
        !path.contains(view),
        keeps(before, now),
        contains(js_heap(before), view, part),
        nested_effect(now, path.push(view), part, fuel, result, after),
    ensures
        loops(js_heap(before), path.push(view), part, maps, (depth - 1) as nat) ==> result == Err::<
            ScriptView,
            ErrorView,
        >(ErrorView::Invariant(CIRCULAR@)),
        !loops(js_heap(before), path.push(view), part, maps, (depth - 1) as nat) ==> result is Ok
            && keeps(now, after) && keeps(before, after),
{
    reveal(circular);
    let below = (depth - 1) as nat;
    let heap = js_heap(before);
    let full = path.push(view);
    if maps {
        lemma_keeps_intact(before, now);
    }
    lemma_leads_on(heap, js_heap(now), path, view, part);
    if loops(heap, full, part, maps, below) {
        lemma_loops_later(heap, js_heap(now), full, part, maps, below);
        assert(circular(now, full, part, fuel, maps, below));
    } else {
        assert(holds(heap, part, maps, below));
        let value = choose|value: ScriptView| #[trigger]
            denotes(heap, part, value, below) && (maps || mapless(value));
        lemma_denotes_later(heap, js_heap(now), part, value, below);
        assert(reachable(now, full, part, fuel, value, below));
        lemma_keeps_through(before, now, after);
    }
}

/// A value that contains itself and is not on the path is an array or an object whose parts can be
/// told apart by an index.
proof fn lemma_circular_counts(
    before: Context,
    path: Seq<JsView>,
    view: JsView,
    fuel: nat,
    maps: bool,
    depth: nat,
)
    requires
        circular(before, path, view, fuel, maps, depth),
        !path.contains(view),
    ensures
        maps ==> intact(before),
        maps || holds_data(view, true),
        countable(js_heap(before), view),
        js_heap(before).contains_key(view->Object_0.id),
{
    reveal(circular);
}

/// Not all parts of a value that contains itself can be passed.
proof fn lemma_not_all_passed(
    before: Context,
    path: Seq<JsView>,
    view: JsView,
    fuel: nat,
    maps: bool,
    depth: nat,
    parts: Seq<JsView>,
)
    requires
        circular(before, path, view, fuel, maps, depth),
        !path.contains(view),
        forall|part: JsView| #[trigger]
            contains(js_heap(before), view, part) ==> parts.contains(part),
    ensures
        !passed(js_heap(before), path.push(view), parts, parts.len() as int, maps, depth),
{
    reveal(circular);
    let heap = js_heap(before);
    let part = choose|part: JsView| #[trigger]
        contains(heap, view, part) && loops(heap, path.push(view), part, maps, (depth - 1) as nat);
    let k = choose|k: int| 0 <= k < parts.len() && parts[k] == part;
    assert(loops(heap, path.push(view), parts[k], maps, (depth - 1) as nat));
}

/// A property of an object is where it was.
proof fn lemma_property_stays(
    before: Context,
    now: Context,
    object: JsView,
    keys: Seq<JsView>,
    i: int,
)
    requires
        keeps(before, now),
        holds_data(object, false),
        countable(js_heap(before), object),
        lists(keys, own_properties(js_heap(before), object)->0),
        0 <= i < keys.len(),
    ensures
        i as i32 == i,
        keys[i] is Str,
        ({
            let part = own_properties(js_heap(before), object)->0[keys[i]->Str_0];
            &&& own_data(js_heap(now), object, KeyView::Units(keys[i]->Str_0)) == Some(part)
            &&& contains(js_heap(before), object, part)
        }),
{
    let id = object->Object_0.id;
    let data = own_properties(js_heap(before), object)->0;
    lemma_lists_count(keys, data);
    assert(js_heap(before).contains_key(id));
    assert(js_heap(now).contains_key(id) && js_heap(now)[id] == js_heap(before)[id]);
    assert(data.contains_key(keys[i]->Str_0));
}

/// Every value of a sequence is an object.
pub open spec fn all_objects(values: Seq<JsValue>) -> bool {
    forall|i: int| 0 <= i < values.len() ==> js_view(#[trigger] values[i]) is Object
}

/// Whether an object is on a path.
fn on_path(value: &JsValue, path: &Vec<JsValue>) -> (found: bool)
    requires
        js_view(*value) is Object,
        all_objects(path@),
    ensures
        found == js_views(path@).contains(js_view(*value)),
{
    let mut i: usize = 0;
    while i < path.len()
        invariant
            js_view(*value) is Object,
            all_objects(path@),
            i <= path@.len(),
            forall|k: int| 0 <= k < i ==> js_view(#[trigger] path@[k]) != js_view(*value),
        decreases path@.len() - i,
    {
        if same_object(&path[i], value) {
            assert(js_views(path@)[i as int] == js_view(*value));
            return true;
        }
        i = i + 1;
    }
    assert forall|k: int| 0 <= k < path@.len() implies #[trigger] js_views(path@)[k] != js_view(
        *value,
    ) by {
        assert(js_view(path@[k]) != js_view(*value));
    }
    false
}

/// Converts an array into a list.
fn list_from_js<H: Fn(Query) -> Answer + Copy + 'static>(
    array: &JsValue,
    path: &mut Vec<JsValue>,
    fuel: usize,
    context: &mut Context,
    session: &mut Session<H>,
) -> (result: Result<ScriptValue, InteropError>)
    requires
        old(session).ready(*old(context)),
        holds_data(js_view(*array), true),
        all_objects(old(path)@),
        old(path)@.len() > 0,
        js_view(old(path)@.last()) == js_view(*array),
        !js_views(old(path)@).drop_last().contains(js_view(*array)),
        lives_in(js_view(*array), *old(context)),
    ensures
        final(path)@ == old(path)@,
        final(session).follows(*old(session)),
        final(session).attached(*final(context)),
        same_vm(*old(context), *final(context)),
        result matches Ok(value) ==> value.wf(),
        replays(
            |j: Seq<Step>, p: nat|
                list_run(js_view(*array), js_views(old(path)@), fuel as nat, j, p),
            old(session).journal(),
            final(session).journal(),
            value_view(result),
        ),
        nested_effect(
            *old(context),
            js_views(old(path)@).drop_last(),
            js_view(*array),
            (fuel + 1) as nat,
            value_view(result),
            *final(context),
        ),
    decreases fuel, 1nat,
{
    let ghost view = js_view(*array);
    let ghost full = js_views(path@);
    let ghost outer = full.drop_last();
    let ghost first = *context;
    assert(full == outer.push(view));
    let ghost depth_limit = (fuel + 1) as nat;
    let ghost elements = own_elements(js_heap(first), view)->0;
    proof {
        assert forall|maps: bool, depth: nat| #[trigger]
            circular(first, outer, view, depth_limit, maps, depth) implies countable(
            js_heap(first),
            view,
        ) by {
            lemma_circular_counts(first, outer, view, depth_limit, maps, depth);
        }
    }
    let count: u64 = match session.length(context, array) {
        Err(text) => {
            return Err(InteropError::Invariant(text));
        },
        Ok(count) => count,
    };
    let mut values: Vec<ScriptValue> = Vec::new();
    let mut i: u64 = 0;
    assert(list_view(values@) == Seq::<ScriptView>::empty());
    while i < count
        invariant
            session.ready(*context),
            same_vm(*old(context), *context),
            session.follows(*old(session)),
            view == js_view(*array),
            lives_in(view, *context),
            path@ == old(path)@,
            all_objects(path@),
            full == js_views(path@),
            full == outer.push(view),
            outer == js_views(old(path)@).drop_last(),
            !outer.contains(view),
            holds_data(view, true),
            i <= count,
            depth_limit == fuel + 1,
            resumes(
                |j: Seq<Step>, p: nat| list_run(view, full, fuel as nat, j, p),
                |j: Seq<Step>, p: nat|
                    items_run(view, i, count, list_view(values@), full, fuel as nat, j, p),
                old(session).journal(),
                session.journal(),
            ),
            values@.len() == i,
            forall|k: int| 0 <= k < i ==> (#[trigger] values@[k]).wf(),
            first == *old(context),
            forall|value: ScriptView, depth: nat| #[trigger]
                reachable(first, outer, view, depth_limit, value, depth) ==> {
                    &&& keeps(first, *context)
                    &&& value matches ScriptView::List(expected) && count == expected.len()
                        && list_view(values@) == expected.take(i as int)
                },
            forall|maps: bool, depth: nat| #[trigger]
                circular(first, outer, view, depth_limit, maps, depth) ==> keeps(first, *context)
                    && passed(js_heap(first), full, elements, i as int, maps, depth) && count
                    == elements.len(),
            elements == own_elements(js_heap(first), view)->0,
        decreases count - i,
    {
        let ghost start = *context;
        let ghost journal = session.journal();
        let ghost done = list_view(values@);
        let reply = session.get(context, array, Key::Index(i as i32));
        let ghost got = *context;
        let ghost read = session.journal();
        proof {
            assert forall|j: Seq<Step>| #[trigger] extends(j, read) implies list_run(
                view,
                full,
                fuel as nat,
                j,
                old(session).journal().len(),
            ) == items_run(view, i, count, done, full, fuel as nat, j, journal.len()) by {
                assert(extends(j, journal));
            }
            assert forall|value: ScriptView, depth: nat| #[trigger]
                reachable(first, outer, view, depth_limit, value, depth) implies {
                &&& reply is Ok
                &&& keeps(first, got)
                &&& reachable(
                    got,
                    full,
                    js_view(reply->Ok_0),
                    fuel as nat,
                    value->List_0[i as int],
                    (depth - 1) as nat,
                )
            } by {
                lemma_element(first, start, view, value->List_0, depth, i as int);
                if intact(first) {
                    lemma_keeps_intact(first, got);
                }
                assert(elements[i as int] == js_view(reply->Ok_0));
                lemma_leads_on(
                    js_heap(first),
                    js_heap(got),
                    outer,
                    view,
                    js_view(reply->Ok_0),
                );
            }
            assert forall|maps: bool, depth: nat| #[trigger]
                circular(first, outer, view, depth_limit, maps, depth) implies {
                &&& reply is Ok
                &&& keeps(first, got)
                &&& js_view(reply->Ok_0) == elements[i as int]
            } by {
                lemma_circular_counts(first, outer, view, depth_limit, maps, depth);
                let id = view->Object_0.id;
                assert(js_heap(first).contains_key(id));
                assert(js_heap(start).contains_key(id) && js_heap(start)[id] == js_heap(
                    first,
                )[id]);
            }
        }
        let element = match reply {
            Err(text) => {
                return Err(InteropError::Invariant(text));
            },
            Ok(element) => element,
        };
        let converted = nested_from_js(&element, path, fuel, context, session);
        proof {
            assert forall|j: Seq<Step>| #[trigger] extends(j, session.journal()) implies list_run(
                view,
                full,
                fuel as nat,
                j,
                old(session).journal().len(),
            ) == match value_view(converted) {
                Err(error) => Some((Err(error), session.journal().len())),
                Ok(value) => items_run(
                    view,
                    (i + 1) as u64,
                    count,
                    done.push(value),
                    full,
                    fuel as nat,
                    j,
                    session.journal().len(),
                ),
            } by {
                assert(extends(j, read));
                assert(j[journal.len() as int] == read[journal.len() as int]);
            }
            assert forall|value: ScriptView, depth: nat| #[trigger]
                reachable(first, outer, view, depth_limit, value, depth) implies {
                &&& keeps(first, *context)
                &&& value_view(converted) == Ok::<ScriptView, ErrorView>(value->List_0[i as int])
            } by {
                assert(reachable(
                    got,
                    full,
                    js_view(element),
                    fuel as nat,
                    value->List_0[i as int],
                    (depth - 1) as nat,
                ));
                lemma_keeps_through(first, got, *context);
            }
            assert forall|maps: bool, depth: nat| #[trigger]
                circular(first, outer, view, depth_limit, maps, depth) implies match value_view(
                converted,
            ) {
                Err(error) => error == ErrorView::Invariant(CIRCULAR@),
                Ok(_) => keeps(first, *context) && passed(
                    js_heap(first),
                    full,
                    elements,
                    i + 1,
                    maps,
                    depth,
                ),
            } by {
                lemma_circular_counts(first, outer, view, depth_limit, maps, depth);
                assert(elements.contains(js_view(element)));
                lemma_circular_part(
                    first,
                    got,
                    outer,
                    view,
                    js_view(element),
                    fuel as nat,
                    maps,
                    depth,
                    value_view(converted),
                    *context,
                );
            }
        }
        match converted {
            Err(error) => {
                return Err(error);
            },
            Ok(value) => {
                values.push(value);
                proof {
                    assert(list_view(values@) == done.push(value@));
                    assert forall|expected: Seq<ScriptView>| i < expected.len() implies #[trigger] expected.take(
                        i + 1,
                    ) == expected.take(i as int).push(expected[i as int]) by {}
                }
            },
        }
        i = i + 1;
    }
    proof {
        assert forall|value: ScriptView, depth: nat| #[trigger]
            reachable(first, outer, view, depth_limit, value, depth) implies ScriptView::List(
            list_view(values@),
        ) == value by {
            assert(value->List_0.take(count as int) == value->List_0);
        }
        assert forall|maps: bool, depth: nat| #[trigger]
            circular(first, outer, view, depth_limit, maps, depth) implies false by {
            lemma_not_all_passed(first, outer, view, depth_limit, maps, depth, elements);
        }
    }
    Ok(ScriptValue::List(values))
}

/// The properties of an object that were converted are those that the first keys name.
pub open spec fn gathered(
    done: Map<Seq<char>, ScriptView>,
    expected: Map<Seq<char>, ScriptView>,
    keys: Seq<JsView>,
    i: int,
) -> bool {
    &&& forall|key: Seq<char>| #[trigger]
        done.contains_key(key) ==> expected.contains_key(key) && done[key] == expected[key]
    &&& forall|k: int|
        0 <= k < i ==> done.contains_key(js_text((#[trigger] keys[k])->Str_0))
}

/// A property of an object that holds a map holds the value under its key, later on too.
proof fn lemma_property(
    before: Context,
    now: Context,
    object: JsView,
    map: Map<Seq<char>, ScriptView>,
    depth: nat,
    keys: Seq<JsView>,
    i: int,
)
    requires
        keeps(before, now),
        denotes(js_heap(before), object, ScriptView::Record(map), depth),
        lists(keys, own_properties(js_heap(before), object)->0),
        0 <= i < keys.len(),
    ensures
        i as i32 == i,
        keys[i] is Str,
        own_data(js_heap(now), object, KeyView::Units(keys[i]->Str_0)) is Some,
        map.contains_key(js_text(keys[i]->Str_0)),
        denotes(
            js_heap(now),
            own_data(js_heap(now), object, KeyView::Units(keys[i]->Str_0))->0,
            map[js_text(keys[i]->Str_0)],
            (depth - 1) as nat,
        ),
{
    let id = object->Object_0.id;
    let data = own_properties(js_heap(before), object)->0;
    lemma_lists_count(keys, data);
    assert(js_heap(before).contains_key(id));
    assert(js_heap(now).contains_key(id) && js_heap(now)[id] == js_heap(before)[id]);
    let units = keys[i]->Str_0;
    assert(data.contains_key(units));
    lemma_denotes_later(
        js_heap(before),
        js_heap(now),
        data[units],
        map[js_text(units)],
        (depth - 1) as nat,
    );
}

/// When the properties under all keys were converted, the whole map was.
proof fn lemma_gathered(
    done: Map<Seq<char>, ScriptView>,
    heap: Map<nat, JsNode>,
    object: JsView,
    map: Map<Seq<char>, ScriptView>,
    depth: nat,
    keys: Seq<JsView>,
)
    requires
        denotes(heap, object, ScriptView::Record(map), depth),
        lists(keys, own_properties(heap, object)->0),
        gathered(done, map, keys, keys.len() as int),
    ensures
        done == map,
{
    let data = own_properties(heap, object)->0;
    assert forall|key: Seq<char>| #[trigger] map.contains_key(key) implies done.contains_key(
        key,
    ) by {
        assert(ScriptView::Record(map)->Record_0.contains_key(key));
        assert(named(data, key));
        let units = choose|units: Seq<u16>| #[trigger]
            data.contains_key(units) && js_text(units) == key;
        assert(data.contains_key(units));
        assert(keys.contains(JsView::Str(units)));
        let k = choose|k: int| 0 <= k < keys.len() && keys[k] == JsView::Str(units);
        assert(js_text(keys[k]->Str_0) == key);
    }
    assert(done =~= map);
}

/// Converts an object into a map.
fn record_from_js<H: Fn(Query) -> Answer + Copy + 'static>(
    object: &JsValue,
    path: &mut Vec<JsValue>,
    fuel: usize,
    context: &mut Context,
    session: &mut Session<H>,
) -> (result: Result<ScriptValue, InteropError>)
    requires
        old(session).ready(*old(context)),
        holds_data(js_view(*object), false),
        all_objects(old(path)@),
        old(path)@.len() > 0,
        js_view(old(path)@.last()) == js_view(*object),
        !js_views(old(path)@).drop_last().contains(js_view(*object)),
        lives_in(js_view(*object), *old(context)),
    ensures
        final(path)@ == old(path)@,
        final(session).follows(*old(session)),
        final(session).attached(*final(context)),
        same_vm(*old(context), *final(context)),
        result matches Ok(value) ==> value.wf(),
        replays(
            |j: Seq<Step>, p: nat|
                record_run(js_view(*object), js_views(old(path)@), fuel as nat, j, p),
            old(session).journal(),
            final(session).journal(),
            value_view(result),
        ),
        nested_effect(
            *old(context),
            js_views(old(path)@).drop_last(),
            js_view(*object),
            (fuel + 1) as nat,
            value_view(result),
            *final(context),
        ),
    decreases fuel, 1nat,
{
    let ghost view = js_view(*object);
    let ghost full = js_views(path@);
    let ghost outer = full.drop_last();
    let ghost first = *context;
    assert(full == outer.push(view));
    let ghost depth_limit = (fuel + 1) as nat;
    let ghost data = own_properties(js_heap(first), view)->0;
    proof {
        assert forall|maps: bool, depth: nat| #[trigger]
            circular(first, outer, view, depth_limit, maps, depth) implies intact(first) && countable(
            js_heap(first),
            view,
        ) by {
            lemma_circular_counts(first, outer, view, depth_limit, maps, depth);
        }
    }
    let keys = match keys_of(object, context, session) {
        Err(error) => {
            return Err(error);
        },
        Ok(keys) => keys,
    };
    let ghost listed = *context;
    let ghost list = js_view(keys);
    let ghost elements = own_elements(js_heap(listed), list)->0;
    let ghost parts = Seq::new(elements.len(), |k: int| data[elements[k]->Str_0]);
    proof {
        assert forall|maps: bool, depth: nat| #[trigger]
            circular(first, outer, view, depth_limit, maps, depth) implies {
            &&& keeps(first, listed)
            &&& own_elements(js_heap(listed), list) == Some(elements)
            &&& lists(elements, data)
            &&& elements.len() <= COUNT_LIMIT
        } by {
            lemma_circular_counts(first, outer, view, depth_limit, maps, depth);
            lemma_lists_count(elements, data);
        }
        assert forall|value: ScriptView, depth: nat| #[trigger]
            reachable(first, outer, view, depth_limit, value, depth) implies {
            &&& keeps(first, listed)
            &&& own_elements(js_heap(listed), list) == Some(elements)
            &&& lists(elements, data)
            &&& elements.len() <= COUNT_LIMIT
        } by {
            lemma_lists_count(elements, data);
        }
    }
    let ghost before_length = session.journal();
    let count: u64 = match session.length(context, &keys) {
        Err(text) => {
            assert forall|j: Seq<Step>| #[trigger] extends(j, session.journal()) implies extends(
                j,
                before_length,
            ) by {}
            return Err(InteropError::Invariant(text));
        },
        Ok(count) => count,
    };
    let mut map = ScriptMap::new();
    let mut i: u64 = 0;
    assert forall|j: Seq<Step>| #[trigger] extends(j, session.journal()) implies record_run(
        view,
        full,
        fuel as nat,
        j,
        old(session).journal().len(),
    ) == entries_run(
        view,
        list,
        0,
        count,
        Map::empty(),
        full,
        fuel as nat,
        j,
        session.journal().len(),
    ) by {
        assert(extends(j, before_length));
    }
    while i < count
        invariant
            session.ready(*context),
            same_vm(*old(context), *context),
            session.follows(*old(session)),
            view == js_view(*object),
            lives_in(view, *context),
            lives_in(list, *context),
            path@ == old(path)@,
            all_objects(path@),
            full == js_views(path@),
            full == outer.push(view),
            outer == js_views(old(path)@).drop_last(),
            !outer.contains(view),
            list == js_view(keys),
            list matches JsView::Object(own) && own.array,
            holds_data(view, false),
            i <= count,
            map.wf(),
            depth_limit == fuel + 1,
            resumes(
                |j: Seq<Step>, p: nat| record_run(view, full, fuel as nat, j, p),
                |j: Seq<Step>, p: nat| entries_run(view, list, i, count, map@, full, fuel as nat, j, p),
                old(session).journal(),
                session.journal(),
            ),
            first == *old(context),
            data == own_properties(js_heap(first), view)->0,
            forall|value: ScriptView, depth: nat| #[trigger]
                reachable(first, outer, view, depth_limit, value, depth) ==> {
                    &&& keeps(first, listed)
                    &&& keeps(listed, *context)
                    &&& own_elements(js_heap(listed), list) == Some(elements)
                    &&& lists(elements, data)
                    &&& count == elements.len()
                    &&& value is Record
                    &&& gathered(map@, value->Record_0, elements, i as int)
                },
            parts == Seq::new(elements.len(), |k: int| data[elements[k]->Str_0]),
            forall|maps: bool, depth: nat| #[trigger]
                circular(first, outer, view, depth_limit, maps, depth) ==> {
                    &&& keeps(first, listed)
                    &&& keeps(listed, *context)
                    &&& own_elements(js_heap(listed), list) == Some(elements)
                    &&& lists(elements, data)
                    &&& count == elements.len()
                    &&& passed(js_heap(first), full, parts, i as int, maps, depth)
                },
        decreases count - i,
    {
        let ghost start = *context;
        let ghost journal = session.journal();
        let ghost done = map@;
        let reply = session.get(context, &keys, Key::Index(i as i32));
        proof {
            assert forall|value: ScriptView, depth: nat| #[trigger]
                reachable(first, outer, view, depth_limit, value, depth) implies {
                &&& reply is Ok
                &&& js_view(reply->Ok_0) == elements[i as int]
                &&& keeps(listed, *context)
                &&& keeps(first, *context)
                &&& elements[i as int] is Str
            } by {
                lemma_keeps_through(first, listed, start);
                lemma_property(first, start, view, value->Record_0, depth, elements, i as int);
                let id = list->Object_0.id;
                assert(js_heap(listed).contains_key(id));
                assert(js_heap(start).contains_key(id) && js_heap(start)[id] == js_heap(
                    listed,
                )[id]);
            }
            assert forall|maps: bool, depth: nat| #[trigger]
                circular(first, outer, view, depth_limit, maps, depth) implies {
                &&& reply is Ok
                &&& js_view(reply->Ok_0) == elements[i as int]
                &&& keeps(listed, *context)
                &&& keeps(first, *context)
                &&& elements[i as int] is Str
            } by {
                lemma_circular_counts(first, outer, view, depth_limit, maps, depth);
                lemma_keeps_through(first, listed, start);
                lemma_property_stays(first, start, view, elements, i as int);
                let id = list->Object_0.id;
                assert(js_heap(listed).contains_key(id));
                assert(js_heap(start).contains_key(id) && js_heap(start)[id] == js_heap(
                    listed,
                )[id]);
            }
        }
        let element = match reply {
            Err(text) => {
                proof {
                    assert forall|j: Seq<Step>| #[trigger] extends(j, session.journal()) implies record_run(
                        view,
                        full,
                        fuel as nat,
                        j,
                        old(session).journal().len(),
                    ) == entries_run(
                        view,
                        list,
                        i,
                        count,
                        done,
                        full,
                        fuel as nat,
                        j,
                        journal.len(),
                    ) by {
                        assert(extends(j, journal));
                    }
                }
                return Err(InteropError::Invariant(text));
            },
            Ok(element) => element,
        };
        let reply = session.to_text(context, &element);
        let key = match reply {
            Err(text) => {
                proof {
                    assert forall|j: Seq<Step>| #[trigger] extends(j, session.journal()) implies record_run(
                        view,
                        full,
                        fuel as nat,
                        j,
                        old(session).journal().len(),
                    ) == entries_run(
                        view,
                        list,
                        i,
                        count,
                        done,
                        full,
                        fuel as nat,
                        j,
                        journal.len(),
                    ) by {
                        assert(extends(j, journal));
                    }
                }
                return Err(InteropError::Invariant(text));
            },
            Ok(key) => key,
        };
        let ghost named = *context;
        let text = text_of(&key);
        let reply = session.get(context, object, Key::Value(&key));
        let ghost got = *context;
        let ghost read = session.journal();
        proof {
            assert forall|value: ScriptView, depth: nat| #[trigger]
                reachable(first, outer, view, depth_limit, value, depth) implies {
                &&& reply is Ok
                &&& keeps(listed, got)
                &&& keeps(first, got)
                &&& value->Record_0.contains_key(text@)
                &&& reachable(
                    got,
                    full,
                    js_view(reply->Ok_0),
                    fuel as nat,
                    value->Record_0[text@],
                    (depth - 1) as nat,
                )
            } by {
                lemma_property(first, named, view, value->Record_0, depth, elements, i as int);
                lemma_keeps_intact(first, got);
                lemma_property_stays(first, named, view, elements, i as int);
                lemma_leads_on(js_heap(first), js_heap(got), outer, view, parts[i as int]);
            }
            assert forall|maps: bool, depth: nat| #[trigger]
                circular(first, outer, view, depth_limit, maps, depth) implies {
                &&& reply is Ok
                &&& keeps(listed, got)
                &&& keeps(first, got)
                &&& js_view(reply->Ok_0) == parts[i as int]
                &&& contains(js_heap(first), view, parts[i as int])
            } by {
                lemma_circular_counts(first, outer, view, depth_limit, maps, depth);
                lemma_property_stays(first, named, view, elements, i as int);
            }
        }
        let property = match reply {
            Err(text) => {
                proof {
                    assert forall|j: Seq<Step>| #[trigger] extends(j, session.journal()) implies record_run(
                        view,
                        full,
                        fuel as nat,
                        j,
                        old(session).journal().len(),
                    ) == entries_run(
                        view,
                        list,
                        i,
                        count,
                        done,
                        full,
                        fuel as nat,
                        j,
                        journal.len(),
                    ) by {
                        assert(extends(j, journal));
                    }
                }
                return Err(InteropError::Invariant(text));
            },
            Ok(property) => property,
        };
        let converted = nested_from_js(&property, path, fuel, context, session);
        proof {
            assert forall|j: Seq<Step>| #[trigger] extends(j, session.journal()) implies record_run(
                view,
                full,
                fuel as nat,
                j,
                old(session).journal().len(),
            ) == match value_view(converted) {
                Err(error) => Some((Err(error), session.journal().len())),
                Ok(value) => entries_run(
                    view,
                    list,
                    (i + 1) as u64,
                    count,
                    done.insert(text@, value),
                    full,
                    fuel as nat,
                    j,
                    session.journal().len(),
                ),
            } by {
                assert(extends(j, read));
                assert(extends(j, journal));
                let at = journal.len() as int;
                assert(j[at] == read[at] && j[at + 1] == read[at + 1] && j[at + 2] == read[at + 2]);
            }
            assert forall|value: ScriptView, depth: nat| #[trigger]
                reachable(first, outer, view, depth_limit, value, depth) implies {
                &&& keeps(listed, *context)
                &&& keeps(first, *context)
                &&& value_view(converted) == Ok::<ScriptView, ErrorView>(value->Record_0[text@])
            } by {
                assert(reachable(
                    got,
                    full,
                    js_view(property),
                    fuel as nat,
                    value->Record_0[text@],
                    (depth - 1) as nat,
                ));
                lemma_keeps_through(first, got, *context);
                lemma_keeps_through(listed, got, *context);
            }
            assert forall|maps: bool, depth: nat| #[trigger]
                circular(first, outer, view, depth_limit, maps, depth) implies match value_view(
                converted,
            ) {
                Err(error) => error == ErrorView::Invariant(CIRCULAR@),
                Ok(_) => keeps(listed, *context) && passed(
                    js_heap(first),
                    full,
                    parts,
                    i + 1,
                    maps,
                    depth,
                ),
            } by {
                lemma_circular_part(
                    first,
                    got,
                    outer,
                    view,
                    js_view(property),
                    fuel as nat,
                    maps,
                    depth,
                    value_view(converted),
                    *context,
                );
                if value_view(converted) is Ok {
                    lemma_keeps_through(listed, got, *context);
                }
            }
        }
        match converted {
            Err(error) => {
                return Err(error);
            },
            Ok(value) => {
                map.insert(text, value);
            },
        }
        i = i + 1;
    }
    proof {
        assert forall|value: ScriptView, depth: nat| #[trigger]
            reachable(first, outer, view, depth_limit, value, depth) implies ScriptView::Record(map@)
            == value && keeps(first, *context) by {
            lemma_keeps_through(first, listed, *context);
            lemma_gathered(map@, js_heap(first), view, value->Record_0, depth, elements);
        }
        assert forall|maps: bool, depth: nat| #[trigger]
            circular(first, outer, view, depth_limit, maps, depth) implies false by {
            assert forall|part: JsView| #[trigger]
                contains(js_heap(first), view, part) implies parts.contains(part) by {
                let key = choose|key: Seq<u16>| #[trigger]
                    data.contains_key(key) && data[key] == part;
                assert(elements.contains(JsView::Str(key)));
                let k = choose|k: int| 0 <= k < elements.len() && elements[k] == JsView::Str(key);
                assert(parts[k] == part);
            }
            lemma_not_all_passed(first, outer, view, depth_limit, maps, depth, parts);
        }
    }
    Ok(ScriptValue::Record(map))
}

/// Converts a value of the engine to which a path of arrays and objects leads.
fn nested_from_js<H: Fn(Query) -> Answer + Copy + 'static>(
    value: &JsValue,
    path: &mut Vec<JsValue>,
    fuel: usize,
    context: &mut Context,
    session: &mut Session<H>,
) -> (result: Result<ScriptValue, InteropError>)
    requires
        old(session).ready(*old(context)),
        all_objects(old(path)@),
        lives_in(js_view(*value), *old(context)),
    ensures
        final(path)@ == old(path)@,
        final(session).follows(*old(session)),
        final(session).attached(*final(context)),
        same_vm(*old(context), *final(context)),
        result matches Ok(value) ==> value.wf(),
        fuel > 0 ==> hands_over(
            *old(context),
            js_view(*value),
            value_view(result),
            *final(context),
        ),
        replays(
            |j: Seq<Step>, p: nat|
                nested_run(js_view(*value), js_views(old(path)@), fuel as nat, j, p),
            old(session).journal(),
            final(session).journal(),
            value_view(result),
        ),
        nested_effect(
            *old(context),
            js_views(old(path)@),
            js_view(*value),
            fuel as nat,
            value_view(result),
            *final(context),
        ),
    decreases fuel, 0nat,
{
    proof {
        reveal(circular);
    }
    if fuel == 0 {
        return Err(InteropError::broken_invariant(TOO_DEEP));
    }
    match kind_of(value) {
        JsKind::Undefined | JsKind::Null => Ok(ScriptValue::Unit),
        JsKind::Boolean(truth) => Ok(ScriptValue::Bool(truth)),
        JsKind::Text => Ok(ScriptValue::String(text_of(value))),
        JsKind::Integer(integer) => Ok(ScriptValue::Integer(integer as i64)),
        JsKind::Rational(bits) => match whole_number(bits) {
            Some(whole) => Ok(ScriptValue::Integer(whole)),
            None => if is_finite(bits) {
                Ok(ScriptValue::Float(bits))
            } else {
                Err(InteropError::unsupported_operation(UNSUPPORTED))
            },
        },
        JsKind::BigInt | JsKind::Symbol => Err(InteropError::unsupported_operation(UNSUPPORTED)),
        JsKind::Object => {
            if is_callable(value) {
                return match store_callable(value, context, session) {
                    Err(error) => Err(error),
                    Ok(id) => Ok(ScriptValue::Function(FunctionRef::Script(id))),
                };
            }
            if let Some(reference) = reference_of(value) {
                return Ok(ScriptValue::Reference(ReflectReference(reference)));
            }
            if token_of(value).is_some() {
                return Err(InteropError::unsupported_operation(NO_VALUE));
            }
            let ghost views = js_views(path@);
            if on_path(value, path) {
                proof {
                    assert forall|held: ScriptView, depth: nat| #[trigger]
                        reachable(
                            *context,
                            views,
                            js_view(*value),
                            fuel as nat,
                            held,
                            depth,
                        ) implies false by {
                        lemma_data_does_not_loop(
                            js_heap(*context),
                            views,
                            js_view(*value),
                            held,
                            depth,
                        );
                    }
                }
                return Err(InteropError::broken_invariant(CIRCULAR));
            }
            let ghost before = path@;
            path.push(clone_value(value));
            proof {
                assert(js_views(path@) =~= views.push(js_view(*value)));
                assert(js_views(path@).drop_last() =~= views);
            }
            let result = if is_array(value) {
                list_from_js(value, path, fuel - 1, context, session)
            } else {
                record_from_js(value, path, fuel - 1, context, session)
            };
            let _ = path.pop();
            assert(path@ =~= before);
            result
        },
    }
}

/// Converts a value of the engine into a script value.
pub(crate) fn value_from_js<H: Fn(Query) -> Answer + Copy + 'static>(
    value: &JsValue,
    fuel: usize,
    context: &mut Context,
    session: &mut Session<H>,
) -> (result: Result<ScriptValue, InteropError>)
    requires
        old(session).ready(*old(context)),
        lives_in(js_view(*value), *old(context)),
    ensures
        final(session).follows(*old(session)),
        final(session).attached(*final(context)),
        same_vm(*old(context), *final(context)),
        result matches Ok(value) ==> value.wf(),
        fuel > 0 ==> hands_over(
            *old(context),
            js_view(*value),
            value_view(result),
            *final(context),
        ),
        replays(
            |j: Seq<Step>, p: nat| from_js_run(js_view(*value), fuel as nat, j, p),
            old(session).journal(),
            final(session).journal(),
            value_view(result),
        ),
        from_js_effect(
            *old(context),
            js_view(*value),
            fuel as nat,
            value_view(result),
            *final(context),
        ),
{
    let mut path: Vec<JsValue> = Vec::new();
    assert(js_views(path@) =~= Seq::<JsView>::empty());
    nested_from_js(value, &mut path, fuel, context, session)
}

/// A value that comes back to itself, and holds nothing but data besides, is refused. The virtual
/// machine has the engine's own `Object.keys` if maps are among the data.
pub proof fn law_circular_values_are_refused(
    before: Context,
    view: JsView,
    maps: bool,
    depth: nat,
    reply: Result<ScriptView, ErrorView>,
    after: Context,
)
    requires
        loops(js_heap(before), Seq::empty(), view, maps, depth),
        depth <= DEPTH_LIMIT,
        maps ==> intact(before),
        from_js_effect(before, view, DEPTH_LIMIT as nat, reply, after),
    ensures
        reply == Err::<ScriptView, ErrorView>(ErrorView::Invariant(CIRCULAR@)),
{
    assert(circular(before, Seq::empty(), view, DEPTH_LIMIT as nat, maps, depth)) by {
        reveal(circular);
    }
}

} // verus!
