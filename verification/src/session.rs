//! The one door to the engine and to the host application.
//!
//! Every call into the engine that reads or changes a virtual machine, and every question to the
//! host application, goes through a [`Session`], which journals it. What a function of the
//! bindings does is stated over that journal: which steps it takes, in which order, and what it
//! makes of the replies.
use crate::data::PROTOTYPE;
use crate::engine::{
    alike_data, calm, error_text, has_text, holds_closed, is_closed, is_error, is_open, is_simple,
    js_admits, js_apart, js_fixed, js_function_prototype, js_global, js_heap, js_pristine,
    js_property, js_prototype_of, js_roomy, js_shown, js_thrown, js_units, js_vacant, js_view,
    js_vm, kind_of, live_in, lives_in, stays_fixed, thrown_value, untouched, CHAIN_LIMIT, JsKind,
    JsNode, JsView, ObjectView, PropertyView,
};
use crate::function_registry::REGISTRY;
use crate::host::{runs_scripts, Answer, CallTarget, Query, QueryView};
use crate::native::{call_named, call_native, Native};
use crate::number::is_nan;
use crate::reference::JsReflectReference;
use crate::value::{ErrorView, InteropError};
use boa_engine::{Context, JsError, JsString, JsValue, Source};
use boa_engine::native_function::NativeFunction;
use boa_engine::object::{FunctionObjectBuilder, JsObject, ObjectInitializer};
use boa_engine::object::builtins::{JsArray, JsArrayBuffer, JsDataView};
use boa_engine::property::{Attribute, PropertyDescriptor, PropertyKey};
use std::any::TypeId;
use std::marker::PhantomData;
use vstd::prelude::*;

verus! {

/// The key of a property.
pub enum Key<'a> {
    /// By its name.
    Name(&'a str),
    /// By its index in an array.
    Index(i32),
    /// By a string or a symbol of the engine.
    Value(&'a JsValue),
}

/// A [`Key`] as contracts see it.
pub enum KeyView {
    Units(Seq<u16>),
    Index(i32),
    Symbol(nat),
}

impl<'a> Key<'a> {
    /// A key that is a value is a string or a symbol.
    pub open spec fn wf(self) -> bool {
        self matches Key::Value(value) ==> js_view(*value) is Str || js_view(*value) is Symbol
    }

    /// The key as contracts see it.
    pub open spec fn spec_view(self) -> KeyView {
        match self {
            Key::Name(name) => KeyView::Units(js_units(name@)),
            Key::Index(index) => KeyView::Index(index),
            Key::Value(value) => match js_view(*value) {
                JsView::Str(units) => KeyView::Units(units),
                JsView::Symbol(symbol) => KeyView::Symbol(symbol),
                _ => arbitrary(),
            },
        }
    }
}

/// A step that a session took, with the reply.
#[allow(inconsistent_fields)]
pub enum Step {
    /// Asked for the global object.
    Global { reply: JsView },
    /// Read a property.
    Get { object: JsView, key: KeyView, reply: Result<JsView, Seq<char>> },
    /// Looked a property of an object's own up.
    Inspect { object: JsView, name: Seq<char>, reply: Option<PropertyView> },
    /// Wrote a property.
    Put { object: JsView, key: KeyView, value: JsView, reply: Result<bool, Seq<char>> },
    /// Asked for the length of an array.
    Length { array: JsView, reply: Result<u64, Seq<char>> },
    /// Called a function, without a receiver.
    Call { function: JsView, arguments: Seq<JsView>, reply: Result<JsView, Seq<char>> },
    /// Converted a value to a string.
    ToText { value: JsView, reply: Result<JsView, Seq<char>> },
    /// Made an object without a prototype.
    NewObject { reply: JsView },
    /// Made an array.
    NewArray { elements: Seq<JsView>, reply: JsView },
    /// Made an object.
    NewRecord { reply: JsView },
    /// Gave an object a property.
    Insert { object: JsView, key: Seq<u16>, value: JsView },
    /// Made a number of a double.
    NewNumber { bits: u64, reply: JsView },
    /// Made a wrapper of a host value.
    NewReference { prototype: Option<JsView>, reference: u64, reply: JsView },
    /// Made a token of a type.
    NewToken { prototype: Option<JsView>, token: TypeId, reply: JsView },
    /// Made a function that runs a native one.
    NewFunction { name: Seq<char>, length: usize, native: Native, reply: JsView },
    /// Made a function that calls one of the host application by its name.
    NewNamed { name: Seq<char>, target: CallTarget, method: Seq<char>, reply: JsView },
    /// Defined a property of the global object.
    Define { name: Seq<char>, value: JsView, open: bool, reply: Result<(), Seq<char>> },
    /// Evaluated a script.
    Eval { source: Seq<u8>, reply: Result<JsView, Seq<char>> },
    /// Asked the host application, which left the virtual machine alone meanwhile or not.
    Ask { query: QueryView, answer: Answer, idle: bool },
}

/// A journal goes on from another one.
pub open spec fn extends(journal: Seq<Step>, earlier: Seq<Step>) -> bool {
    &&& earlier.len() <= journal.len()
    &&& forall|i: int| 0 <= i < earlier.len() ==> #[trigger] journal[i] == earlier[i]
}

/// A journal that goes on from a later one goes on from an earlier one.
pub broadcast proof fn lemma_extends_earlier(j: Seq<Step>, later: Seq<Step>, earlier: Seq<Step>)
    requires
        #[trigger] extends(j, later),
        #[trigger] extends(later, earlier),
    ensures
        extends(j, earlier),
{
}

/// The global object, if the journal asks for it at a position.
pub open spec fn global_reply(j: Seq<Step>, p: nat) -> Option<JsView> {
    if p < j.len() {
        match j[p as int] {
            Step::Global { reply } => Some(reply),
            _ => None,
        }
    } else {
        None
    }
}

/// The reply to reading a property, if the journal does that at a position.
pub open spec fn get_reply(
    j: Seq<Step>,
    p: nat,
    object: JsView,
    key: KeyView,
) -> Option<Result<JsView, Seq<char>>> {
    if p < j.len() {
        match j[p as int] {
            Step::Get { object: own, key: own_key, reply } => {
                if own == object && own_key == key {
                    Some(reply)
                } else {
                    None
                }
            },
            _ => None,
        }
    } else {
        None
    }
}

/// The reply to looking a property up, if the journal does that at a position.
pub open spec fn inspect_reply(j: Seq<Step>, p: nat, object: JsView, name: Seq<char>) -> Option<
    Option<PropertyView>,
> {
    if p < j.len() {
        match j[p as int] {
            Step::Inspect { object: own, name: own_name, reply } => {
                if own == object && own_name == name {
                    Some(reply)
                } else {
                    None
                }
            },
            _ => None,
        }
    } else {
        None
    }
}

/// The reply to writing a property, if the journal does that at a position.
pub open spec fn put_reply(
    j: Seq<Step>,
    p: nat,
    object: JsView,
    key: KeyView,
    value: JsView,
) -> Option<Result<bool, Seq<char>>> {
    if p < j.len() {
        match j[p as int] {
            Step::Put { object: own, key: own_key, value: own_value, reply } => {
                if own == object && own_key == key && own_value == value {
                    Some(reply)
                } else {
                    None
                }
            },
            _ => None,
        }
    } else {
        None
    }
}

/// The length of an array, if the journal asks for it at a position.
pub open spec fn length_reply(
    j: Seq<Step>,
    p: nat,
    array: JsView,
) -> Option<Result<u64, Seq<char>>> {
    if p < j.len() {
        match j[p as int] {
            Step::Length { array: own, reply } => {
                if own == array {
                    Some(reply)
                } else {
                    None
                }
            },
            _ => None,
        }
    } else {
        None
    }
}

/// The reply to a call, if the journal makes it at a position.
pub open spec fn call_reply(
    j: Seq<Step>,
    p: nat,
    function: JsView,
    arguments: Seq<JsView>,
) -> Option<Result<JsView, Seq<char>>> {
    if p < j.len() {
        match j[p as int] {
            Step::Call { function: own, arguments: own_arguments, reply } => {
                if own == function && own_arguments == arguments {
                    Some(reply)
                } else {
                    None
                }
            },
            _ => None,
        }
    } else {
        None
    }
}

/// The string of a value, if the journal asks for it at a position.
pub open spec fn text_reply(
    j: Seq<Step>,
    p: nat,
    value: JsView,
) -> Option<Result<JsView, Seq<char>>> {
    if p < j.len() {
        match j[p as int] {
            Step::ToText { value: own, reply } => {
                if own == value {
                    Some(reply)
                } else {
                    None
                }
            },
            _ => None,
        }
    } else {
        None
    }
}

/// The new object, if the journal makes one without a prototype at a position.
pub open spec fn object_reply(j: Seq<Step>, p: nat) -> Option<JsView> {
    if p < j.len() {
        match j[p as int] {
            Step::NewObject { reply } => Some(reply),
            _ => None,
        }
    } else {
        None
    }
}

/// The new array, if the journal makes it at a position.
pub open spec fn array_reply(j: Seq<Step>, p: nat, elements: Seq<JsView>) -> Option<JsView> {
    if p < j.len() {
        match j[p as int] {
            Step::NewArray { elements: own, reply } => {
                if own == elements {
                    Some(reply)
                } else {
                    None
                }
            },
            _ => None,
        }
    } else {
        None
    }
}

/// The new object, if the journal makes one with the usual prototype at a position.
pub open spec fn record_reply(j: Seq<Step>, p: nat) -> Option<JsView> {
    if p < j.len() {
        match j[p as int] {
            Step::NewRecord { reply } => Some(reply),
            _ => None,
        }
    } else {
        None
    }
}

/// The journal gives an object a property at a position.
pub open spec fn inserts(
    j: Seq<Step>,
    p: nat,
    object: JsView,
    key: Seq<u16>,
    value: JsView,
) -> bool {
    p < j.len() && j[p as int] == (Step::Insert { object, key, value })
}

/// The new number, if the journal makes it at a position.
pub open spec fn number_reply(j: Seq<Step>, p: nat, bits: u64) -> Option<JsView> {
    if p < j.len() {
        match j[p as int] {
            Step::NewNumber { bits: own, reply } => {
                if own == bits {
                    Some(reply)
                } else {
                    None
                }
            },
            _ => None,
        }
    } else {
        None
    }
}

/// The new wrapper of a host value, if the journal makes it at a position.
pub open spec fn reference_reply(
    j: Seq<Step>,
    p: nat,
    prototype: Option<JsView>,
    reference: u64,
) -> Option<JsView> {
    if p < j.len() {
        match j[p as int] {
            Step::NewReference { prototype: own, reference: own_reference, reply } => {
                if own == prototype && own_reference == reference {
                    Some(reply)
                } else {
                    None
                }
            },
            _ => None,
        }
    } else {
        None
    }
}

/// The new token of a type, if the journal makes it at a position.
pub open spec fn token_reply(
    j: Seq<Step>,
    p: nat,
    prototype: Option<JsView>,
    token: TypeId,
) -> Option<JsView> {
    if p < j.len() {
        match j[p as int] {
            Step::NewToken { prototype: own, token: own_token, reply } => {
                if own == prototype && own_token == token {
                    Some(reply)
                } else {
                    None
                }
            },
            _ => None,
        }
    } else {
        None
    }
}

/// The new function, if the journal makes it at a position.
pub open spec fn function_reply(
    j: Seq<Step>,
    p: nat,
    name: Seq<char>,
    length: usize,
    native: Native,
) -> Option<JsView> {
    if p < j.len() {
        match j[p as int] {
            Step::NewFunction { name: own, length: own_length, native: own_native, reply } => {
                if own == name && own_length == length && own_native == native {
                    Some(reply)
                } else {
                    None
                }
            },
            _ => None,
        }
    } else {
        None
    }
}

/// The new function that calls one by its name, if the journal makes it at a position.
pub open spec fn named_reply(
    j: Seq<Step>,
    p: nat,
    name: Seq<char>,
    target: CallTarget,
    method: Seq<char>,
) -> Option<JsView> {
    if p < j.len() {
        match j[p as int] {
            Step::NewNamed { name: own, target: own_target, method: own_method, reply } => {
                if own == name && own_target == target && own_method == method {
                    Some(reply)
                } else {
                    None
                }
            },
            _ => None,
        }
    } else {
        None
    }
}

/// The reply to defining a global, if the journal does that at a position.
pub open spec fn define_reply(
    j: Seq<Step>,
    p: nat,
    name: Seq<char>,
    value: JsView,
    open: bool,
) -> Option<Result<(), Seq<char>>> {
    if p < j.len() {
        match j[p as int] {
            Step::Define { name: own, value: own_value, open: own_open, reply } => {
                if own == name && own_value == value && own_open == open {
                    Some(reply)
                } else {
                    None
                }
            },
            _ => None,
        }
    } else {
        None
    }
}

/// The reply to evaluating a script, if the journal does that at a position.
pub open spec fn eval_reply(
    j: Seq<Step>,
    p: nat,
    source: Seq<u8>,
) -> Option<Result<JsView, Seq<char>>> {
    if p < j.len() {
        match j[p as int] {
            Step::Eval { source: own, reply } => {
                if own == source {
                    Some(reply)
                } else {
                    None
                }
            },
            _ => None,
        }
    } else {
        None
    }
}

/// The answer of the host application, if the journal asks it at a position.
pub open spec fn host_reply(j: Seq<Step>, p: nat, query: QueryView) -> Option<Answer> {
    if p < j.len() {
        match j[p as int] {
            Step::Ask { query: own, answer, .. } => {
                if own == query {
                    Some(answer)
                } else {
                    None
                }
            },
            _ => None,
        }
    } else {
        None
    }
}

/// A run over a journal takes it from one length to another and ends with an outcome, whatever the
/// journal goes on with.
pub open spec fn replays<T>(
    run: spec_fn(Seq<Step>, nat) -> Option<(T, nat)>,
    before: Seq<Step>,
    after: Seq<Step>,
    outcome: T,
) -> bool {
    &&& extends(after, before)
    &&& forall|j: Seq<Step>| #[trigger]
        extends(j, after) ==> run(j, before.len()) == Some((outcome, after.len()))
}

/// A run goes on after a part of it that did not fail.
pub open spec fn and_then<A, B, E>(
    part: Option<(Result<A, E>, nat)>,
    next: spec_fn(A, nat) -> Option<(Result<B, E>, nat)>,
) -> Option<(Result<B, E>, nat)> {
    match part {
        None => None,
        Some((Err(error), q)) => Some((Err(error), q)),
        Some((Ok(value), q)) => next(value, q),
    }
}

/// What is left of a run over a journal, after it took the journal from one length to another.
pub open spec fn resumes<T>(
    run: spec_fn(Seq<Step>, nat) -> Option<(T, nat)>,
    rest: spec_fn(Seq<Step>, nat) -> Option<(T, nat)>,
    before: Seq<Step>,
    now: Seq<Step>,
) -> bool {
    &&& extends(now, before)
    &&& forall|j: Seq<Step>| #[trigger]
        extends(j, now) ==> run(j, before.len()) == rest(j, now.len())
}

/// The views of a sequence of engine values.
pub open spec fn js_views(values: Seq<JsValue>) -> Seq<JsView> {
    Seq::new(values.len(), |i: int| js_view(values[i]))
}

/// The view of an optional engine value.
pub open spec fn js_option(value: Option<JsValue>) -> Option<JsView> {
    match value {
        Some(value) => Some(js_view(value)),
        None => None,
    }
}

/// The reply that a call of the engine gave.
pub open spec fn reply_view(reply: Result<JsValue, String>) -> Result<JsView, Seq<char>> {
    match reply {
        Ok(value) => Ok(js_view(value)),
        Err(text) => Err(text@),
    }
}

/// The reply that a call of the engine gave, where it hands over no value of the engine.
pub open spec fn plain_reply<T>(reply: Result<T, String>) -> Result<T, Seq<char>> {
    match reply {
        Ok(value) => Ok(value),
        Err(text) => Err(text@),
    }
}

/// The key of a property by its name.
pub open spec fn name_key(name: Seq<char>) -> KeyView {
    KeyView::Units(js_units(name))
}

/// The result of an operation that gives a value of the engine, as contracts see it.
pub open spec fn made_view(result: Result<JsValue, InteropError>) -> Result<JsView, ErrorView> {
    match result {
        Ok(value) => Ok(js_view(value)),
        Err(error) => Err(error@),
    }
}

/// What an object holds under a key as data.
pub open spec fn own_data(heap: Map<nat, JsNode>, object: JsView, key: KeyView) -> Option<JsView> {
    match object {
        JsView::Object(object) => if heap.contains_key(object.id) {
            match (heap[object.id], key) {
                (JsNode::Array(elements), KeyView::Index(index)) => if 0 <= index
                    < elements.len() {
                    Some(elements[index as int])
                } else {
                    None
                },
                (JsNode::Object { data, .. }, KeyView::Units(units)) => if data.contains_key(
                    units,
                ) {
                    Some(data[units])
                } else {
                    None
                },
                _ => None,
            }
        } else {
            None
        },
        _ => None,
    }
}

/// The elements of an array.
pub open spec fn own_elements(heap: Map<nat, JsNode>, array: JsView) -> Option<Seq<JsView>> {
    match array {
        JsView::Object(object) => if heap.contains_key(object.id) {
            match heap[object.id] {
                JsNode::Array(elements) => Some(elements),
                _ => None,
            }
        } else {
            None
        },
        _ => None,
    }
}

/// The properties of an object that has no others than these.
pub open spec fn own_properties(heap: Map<nat, JsNode>, object: JsView) -> Option<
    Map<Seq<u16>, JsView>,
> {
    match object {
        JsView::Object(object) => if heap.contains_key(object.id) {
            match heap[object.id] {
                JsNode::Object { data, plain: true, .. } => Some(data),
                _ => None,
            }
        } else {
            None
        },
        _ => None,
    }
}

/// A sequence lists the keys of some properties, each once.
pub open spec fn lists(elements: Seq<JsView>, data: Map<Seq<u16>, JsView>) -> bool {
    &&& forall|i: int|
        0 <= i < elements.len() ==> (#[trigger] elements[i] matches JsView::Str(units)
            && data.contains_key(units))
    &&& forall|i: int, k: int| 0 <= i < k < elements.len() ==> elements[i] != elements[k]
    &&& forall|units: Seq<u16>| #[trigger]
        data.contains_key(units) ==> elements.contains(JsView::Str(units))
}

/// An object of a virtual machine that is nothing but data.
pub open spec fn data_object(context: Context, id: nat, array: bool) -> JsView {
    JsView::Object(
        ObjectView {
            id,
            vm: js_vm(context),
            callable: false,
            constructs: false,
            reference: None,
            token: None,
            array,
            error: false,
            lists_keys: false,
        },
    )
}

/// An object that did not exist before, of one kind.
pub open spec fn is_fresh(before: Context, value: JsView, array: bool) -> bool {
    &&& value matches JsView::Object(object) && !js_heap(before).contains_key(object.id) && value
        == data_object(before, object.id, array)
    &&& value != js_global(before)
}

/// The identity of an object.
pub open spec fn object_id(value: JsView) -> nat {
    value->Object_0.id
}

/// The properties that entries make, in which a later entry replaces an earlier one.
pub open spec fn properties(entries: Seq<(Seq<u16>, JsView)>) -> Map<Seq<u16>, JsView>
    decreases entries.len(),
{
    if entries.len() == 0 {
        Map::empty()
    } else {
        properties(entries.drop_last()).insert(entries.last().0, entries.last().1)
    }
}

/// The keys of the entries of an object are strings.
pub open spec fn keyed(entries: Seq<(JsValue, JsValue)>) -> bool {
    forall|i: int| 0 <= i < entries.len() ==> js_view((#[trigger] entries[i]).0) is Str
}

/// The views of the entries of an object.
pub open spec fn entry_views(entries: Seq<(JsValue, JsValue)>) -> Seq<(Seq<u16>, JsView)> {
    Seq::new(entries.len(), |i: int| (js_view(entries[i].0)->Str_0, js_view(entries[i].1)))
}

/// The global object and `Object.keys` are those of the engine, and there is room for a call.
pub open spec fn intact(context: Context) -> bool {
    let heap = js_heap(context);
    &&& js_roomy(context)
    &&& js_global(context) is Object
    &&& own_data(heap, js_global(context), KeyView::Units(js_units("Object"@))) matches Some(
        constructor,
    ) && {
        &&& constructor is Object
        &&& own_data(heap, constructor, KeyView::Units(js_units("keys"@))) matches Some(keys)
            && keys matches JsView::Object(function) && function.lists_keys
    }
}

/// An object is an ordinary one.
pub open spec fn ordinary(heap: Map<nat, JsNode>, id: nat) -> bool {
    heap.contains_key(id) && heap[id] is Object
}

/// It is the same virtual machine, at another time: it has the same global object, ordinary objects
/// are still ordinary ones, and what nothing can change is as it was.
pub open spec fn same_vm(before: Context, after: Context) -> bool {
    &&& js_vm(after) == js_vm(before)
    &&& js_global(after) == js_global(before)
    &&& js_function_prototype(after) == js_function_prototype(before)
    &&& stays_fixed(before, after)
    &&& forall|id: nat| #[trigger] ordinary(js_heap(before), id) ==> ordinary(js_heap(after), id)
}

/// The global object of a virtual machine is an ordinary object.
pub open spec fn ordinary_global(context: Context) -> bool {
    ordinary(js_heap(context), object_id(js_global(context)))
}

/// Reading a property that is data gives what it holds, and so does reading one of the global
/// object that nothing can change. Reading one for which there is room gives `undefined`. None of
/// these changes anything.
pub open spec fn get_effect<E>(
    before: Context,
    object: JsView,
    key: KeyView,
    reply: Result<JsView, E>,
    after: Context,
) -> bool {
    &&& own_data(js_heap(before), object, key) matches Some(value) ==> reply == Ok::<
        JsView,
        E,
    >(value) && untouched(before, after)
    &&& is_fixed(before, object, key) ==> reply == Ok::<JsView, E>(
        js_fixed(before)[key->Units_0],
    ) && untouched(before, after)
    &&& has_room(before, object, key) ==> reply == Ok::<JsView, E>(JsView::Undefined)
        && untouched(before, after)
}

/// A property of the global object is one that nothing can change.
pub open spec fn is_fixed(context: Context, object: JsView, key: KeyView) -> bool {
    object == js_global(context) && (key matches KeyView::Units(units) && js_fixed(
        context,
    ).contains_key(units))
}

/// An object has room for a property, and a key is a string.
pub open spec fn has_room(context: Context, object: JsView, key: KeyView) -> bool {
    key matches KeyView::Units(units) && js_vacant(context, object, units)
}

/// The properties of an object that takes every write.
pub open spec fn bare_properties(heap: Map<nat, JsNode>, object: JsView) -> Option<
    Map<Seq<u16>, JsView>,
> {
    match object {
        JsView::Object(object) => if heap.contains_key(object.id) {
            match heap[object.id] {
                JsNode::Object { data, bare: true, .. } => Some(data),
                _ => None,
            }
        } else {
            None
        },
        _ => None,
    }
}

/// An object takes every write, and a key is a string or a symbol.
pub open spec fn takes_write(before: Context, object: JsView, key: KeyView) -> bool {
    (key is Units || key is Symbol) && bare_properties(js_heap(before), object) is Some
}

/// An object takes every write, or is ordinary and has room for a property or an open one.
pub open spec fn takes(before: Context, object: JsView, key: KeyView) -> bool {
    ||| takes_write(before, object, key)
    ||| ordinary(js_heap(before), object_id(object)) && (has_room(before, object, key) || (
    key matches KeyView::Units(units) && is_open(before, object, units)))
}

/// The state of an ordinary object.
pub open spec fn object_node(data: Map<Seq<u16>, JsView>, plain: bool, bare: bool) -> JsNode {
    JsNode::Object { data, plain, bare }
}

/// An object has other properties, but for the form of numbers, and nothing else changes. Among these
/// properties is one under a key that may be new.
pub open spec fn sets(
    before: Context,
    object: JsView,
    key: Seq<u16>,
    data: Map<Seq<u16>, JsView>,
    plain: bool,
    bare: bool,
    after: Context,
) -> bool {
    exists|own: Map<Seq<u16>, JsView>|
        {
            &&& alike_data(data, own)
            &&& js_heap(after) == js_heap(before).insert(
                object_id(object),
                #[trigger] object_node(own, plain, bare),
            )
            &&& calm(before, after, Some(key))
        }
}

/// What setting properties of an object does, without the state that it is in.
pub proof fn lemma_sets(
    before: Context,
    object: JsView,
    key: Seq<u16>,
    data: Map<Seq<u16>, JsView>,
    plain: bool,
    bare: bool,
    after: Context,
)
    requires
        sets(before, object, key, data, plain, bare, after),
    ensures
        alike_data(data, data_of(js_heap(after), object)),
        js_heap(after) == js_heap(before).insert(
            object_id(object),
            object_node(data_of(js_heap(after), object), plain, bare),
        ),
        calm(before, after, Some(key)),
{
}

/// The own data properties of an ordinary object.
pub open spec fn data_of(heap: Map<nat, JsNode>, object: JsView) -> Map<Seq<u16>, JsView> {
    heap[object_id(object)]->data
}

/// Writing a property of an object that takes every write, or of an ordinary object that has room
/// for it or has it open, sets it and changes nothing else but the form of numbers. A new property is
/// open, and an open one stays open.
pub open spec fn put_effect<E>(
    before: Context,
    object: JsView,
    key: KeyView,
    value: JsView,
    reply: Result<bool, E>,
    after: Context,
) -> bool {
    takes(before, object, key) ==> reply == Ok::<bool, E>(true) && match key {
        KeyView::Units(units) => {
            &&& sets(
                before,
                object,
                units,
                data_of(js_heap(before), object).insert(units, value),
                js_heap(before)[object_id(object)]->plain,
                js_heap(before)[object_id(object)]->bare,
                after,
            )
            &&& js_apart(before, object) ==> keeps_room(before, after)
            &&& has_room(before, object, key) || is_open(before, object, units) ==> is_open(
                after,
                object,
                units,
            )
        },
        _ => grows(
            before,
            object,
            object_node(data_of(js_heap(before), object), false, true),
            after,
        ),
    }
}

/// The prototype of functions and the global object have the room that they had.
pub open spec fn keeps_room(before: Context, after: Context) -> bool {
    forall|object: JsView, key: Seq<u16>|
        (object == js_function_prototype(before) || object == js_global(before))
            && #[trigger] js_vacant(before, object, key) ==> js_vacant(after, object, key)
}

/// An object has one property more, or another value of one, which is open, and nothing else changes
/// but the form of numbers.
pub open spec fn insert_effect(
    before: Context,
    object: JsView,
    key: Seq<u16>,
    value: JsView,
    after: Context,
) -> bool {
    &&& is_open(after, object, key)
    &&& exists|bare: bool| #[trigger]
        sets(
            before,
            object,
            key,
            own_properties(js_heap(before), object)->0.insert(key, value),
            true,
            bare,
            after,
        )
}

/// A global that is defined on an ordinary global object is there as data, and nothing else changes
/// but the form of numbers. A definition that fails changes nothing. One that the global object
/// takes, or for which it has room, does not fail. An open global can be written and defined anew in
/// any way, and another one can be defined as it is.
pub open spec fn define_effect<E>(
    before: Context,
    name: Seq<char>,
    value: JsView,
    open: bool,
    reply: Result<(), E>,
    after: Context,
) -> bool {
    let global = js_global(before);
    let key = js_units(name);
    ordinary_global(before) ==> {
        &&& js_admits(before, key, value, open) || js_vacant(before, global, key) ==> reply is Ok
        &&& reply is Err ==> untouched(before, after)
        &&& reply is Ok ==> {
            &&& exists|plain: bool, bare: bool| #[trigger]
                sets(
                    before,
                    global,
                    key,
                    data_of(js_heap(before), global).insert(key, value),
                    plain,
                    bare,
                    after,
                )
            &&& forall|other: JsView, other_open: bool|
                open || (other == value && !other_open) ==> #[trigger] js_admits(
                    after,
                    key,
                    other,
                    other_open,
                )
            &&& open ==> is_open(after, global, key)
            &&& !open && value is Object ==> holds_closed(after, key, value)
            &&& !open && js_pristine(before) && value is Object ==> js_fixed(after).contains_key(
                key,
            ) && js_fixed(after)[key] == value
        }
    }
}

/// Reading the length of an array gives how many elements it has and changes nothing.
pub open spec fn length_effect<E>(
    before: Context,
    array: JsView,
    reply: Result<u64, E>,
    after: Context,
) -> bool {
    own_elements(js_heap(before), array) matches Some(elements) ==> untouched(before, after) && (
    elements.len() <= u32::MAX ==> reply == Ok::<u64, E>(elements.len() as u64))
}

/// Calling the engine's own `Object.keys` on an object whose own properties are all data and
/// enumerable gives a new array of their keys.
pub open spec fn call_effect<E>(
    before: Context,
    function: JsView,
    arguments: Seq<JsView>,
    reply: Result<JsView, E>,
    after: Context,
) -> bool {
    js_roomy(before) && function->Object_0.lists_keys && arguments.len() == 1 && own_properties(
        js_heap(before),
        arguments[0],
    ) is Some ==> exists|elements: Seq<JsView>|
        {
            &&& reply is Ok
            &&& #[trigger] lists(elements, own_properties(js_heap(before), arguments[0])->0)
            &&& is_fresh(before, reply->Ok_0, true)
            &&& grows(before, reply->Ok_0, JsNode::Array(elements), after)
        }
}

/// A string is its own string, and converting it changes nothing.
pub open spec fn to_text_effect<E>(
    before: Context,
    value: JsView,
    reply: Result<JsView, E>,
    after: Context,
) -> bool {
    &&& reply matches Ok(text) ==> text is Str
    &&& value is Str ==> reply == Ok::<JsView, E>(value) && untouched(before, after)
}

/// An object of a virtual machine is new, or has another state.
pub open spec fn grows(before: Context, made: JsView, node: JsNode, after: Context) -> bool {
    &&& js_heap(after) == js_heap(before).insert(object_id(made), node)
    &&& calm(before, after, None)
}

/// A function that did not exist before.
pub open spec fn is_new_function(before: Context, value: JsView) -> bool {
    &&& value matches JsView::Object(object) && {
        &&& !js_heap(before).contains_key(object.id)
        &&& value != js_global(before)
        &&& object == (ObjectView {
            id: object.id,
            vm: js_vm(before),
            callable: true,
            constructs: false,
            reference: None,
            token: None,
            array: false,
            error: false,
            lists_keys: false,
        })
    }
}

/// The own properties of a new function are its length and its name.
pub open spec fn names_function(key: Seq<u16>) -> bool {
    key == js_units("length"@) || key == js_units("name"@)
}

/// A virtual machine has a new function, which has room for what the prototype of functions has room
/// for, but for its length and its name.
pub open spec fn function_effect(before: Context, made: JsView, after: Context) -> bool {
    &&& is_new_function(before, made)
    &&& js_apart(after, made)
    &&& exists|data: Map<Seq<u16>, JsView>|
        {
            &&& forall|key: Seq<u16>| data.contains_key(key) <==> names_function(key)
            &&& grows(before, made, #[trigger] object_node(data, false, false), after)
        }
    &&& forall|key: Seq<u16>|
        js_vacant(before, js_function_prototype(before), key) && !names_function(key)
            ==> #[trigger] js_vacant(after, made, key)
}

/// The engine reads a property: `JsObject::get` takes a virtual machine from one state to another
/// one and gives a reply.
pub uninterp spec fn js_gets(
    before: Context,
    object: JsView,
    key: KeyView,
    reply: Result<JsView, JsError>,
    after: Context,
) -> bool;

/// The engine writes a property: `JsObject::set` takes a virtual machine from one state to another
/// one and gives a reply.
pub uninterp spec fn js_sets(
    before: Context,
    object: JsView,
    key: KeyView,
    value: JsView,
    reply: Result<bool, JsError>,
    after: Context,
) -> bool;

/// The engine reads the length of an array: `JsArray::length` takes a virtual machine from one
/// state to another one and gives a reply.
pub uninterp spec fn js_measures(
    before: Context,
    array: JsView,
    reply: Result<u64, JsError>,
    after: Context,
) -> bool;

/// The engine calls a function: `JsObject::call` takes a virtual machine from one state to another
/// one and gives a reply.
pub uninterp spec fn js_calls(
    before: Context,
    function: JsView,
    arguments: Seq<JsView>,
    reply: Result<JsView, JsError>,
    after: Context,
) -> bool;

/// The engine converts a value to a string: `JsValue::to_string` takes a virtual machine from one
/// state to another one and gives a reply.
pub uninterp spec fn js_writes_out(
    before: Context,
    value: JsView,
    reply: Result<JsView, JsError>,
    after: Context,
) -> bool;

/// The engine defines a global: `Context::register_global_property` takes a virtual machine from
/// one state to another one and gives a reply.
pub uninterp spec fn js_defines(
    before: Context,
    name: Seq<char>,
    value: JsView,
    open: bool,
    reply: Result<(), JsError>,
    after: Context,
) -> bool;

/// The engine evaluates a script: `Context::eval` takes a virtual machine from one state to another
/// one and gives a reply.
pub uninterp spec fn js_evaluates(
    before: Context,
    source: Seq<u8>,
    reply: Result<JsView, JsError>,
    after: Context,
) -> bool;

/// The prototype that `JsObject::from_proto_and_data` gave an object.
pub uninterp spec fn js_birth_prototype(object: JsView) -> Option<JsView>;

/// The name and the length that `FunctionObjectBuilder` gave a function, and the native function
/// that it runs.
pub uninterp spec fn js_native_of(function: JsView) -> (Seq<char>, usize, Native);

/// The name that `FunctionObjectBuilder` gave a function, and what `NativeFunction` bound it to.
pub uninterp spec fn js_bound_to(function: JsView) -> (Seq<char>, CallTarget, Seq<char>);

/// The names of the globals that the bindings define.
pub open spec fn is_own_name(name: Seq<char>) -> bool {
    ||| name == REGISTRY@
    ||| name == PROTOTYPE@
    ||| name == "ReflectReference"@
    ||| name == "StaticReflectReference"@
    ||| name == "ReflectRef"@
    ||| name == "world"@
    ||| name == "entity"@
    ||| name == "script_id"@
}

/// `Symbol` and `Symbol.iterator` are those of the engine.
pub open spec fn has_symbols(context: Context) -> bool {
    own_data(js_heap(context), js_global(context), name_key("Symbol"@)) matches Some(constructor)
        && constructor is Object && bare_properties(js_heap(context), constructor) is None
        && object_id(constructor) != object_id(js_global(context)) && (own_data(
        js_heap(context),
        constructor,
        name_key("iterator"@),
    ) matches Some(symbol) && symbol is Symbol)
}

/// A property of an object's own.
pub struct JsProperty {
    /// What it holds, if it is data.
    pub value: Option<JsValue>,
    /// It can be written.
    pub writable: bool,
    /// It is listed.
    pub enumerable: bool,
    /// It can be removed and redefined.
    pub configurable: bool,
}

/// A [`JsProperty`] as contracts see it.
pub open spec fn property_view(found: Option<JsProperty>) -> Option<PropertyView> {
    match found {
        None => None,
        Some(property) => Some(
            PropertyView {
                value: js_option(property.value),
                writable: property.writable,
                enumerable: property.enumerable,
                configurable: property.configurable,
            },
        ),
    }
}

/// What a property holds belongs to a virtual machine.
pub open spec fn holds_own(found: Option<PropertyView>, context: Context) -> bool {
    found matches Some(property) ==> (property.value matches Some(value) ==> lives_in(
        value,
        context,
    ))
}

/// A property that is looked up is the one that reading it goes by: it holds the data of an ordinary
/// object, and is not there where there is room for it. The global object takes the definition of a
/// closed one as it is.
pub open spec fn reads_property(
    context: Context,
    object: JsView,
    key: Seq<u16>,
    found: Option<PropertyView>,
) -> bool {
    &&& own_data(js_heap(context), object, KeyView::Units(key)) matches Some(value) ==> (
    found matches Some(property) && property.value == Some(value))
    &&& ordinary(js_heap(context), object_id(object)) ==> (found matches Some(property) ==> (
    property.value matches Some(value) ==> own_data(
        js_heap(context),
        object,
        KeyView::Units(key),
    ) == Some(value)))
    &&& js_vacant(context, object, key) ==> found is None
    &&& forall|value: JsView|
        object == js_global(context) && ordinary_global(context) && #[trigger] is_closed(
            found,
            value,
        ) ==> js_admits(context, key, value, false)
}

/// The reply that a call into the engine gave.
pub open spec fn engine_view(reply: Result<JsValue, JsError>) -> Result<JsView, JsError> {
    match reply {
        Ok(value) => Ok(js_view(value)),
        Err(error) => Err(error),
    }
}

/// A value that a call gave belongs to the virtual machine.
pub open spec fn replied<E>(reply: Result<JsView, E>, context: Context) -> bool {
    reply matches Ok(value) ==> lives_in(value, context)
}

/// A value that a call threw belongs to the virtual machine.
pub open spec fn throws_own<T>(reply: Result<T, JsError>, context: Context) -> bool {
    reply matches Err(error) ==> (js_thrown(error) matches Some(value) ==> lives_in(value, context))
}

/// A fresh virtual machine: `Context::default`.
///
/// No script ran in it, and `Object.keys` and `Symbol.iterator` are in their places. Its global object
/// and the prototype of that are ordinary and take new properties, and neither has one under a name
/// that the bindings define. The prototype of functions has no `prototype` and no `ref_set`.
#[verifier::external_body]
fn raw_context() -> (context: Context)
    ensures
        intact(context),
        js_roomy(context),
        js_pristine(context),
        has_symbols(context),
        forall|name: Seq<char>| #[trigger]
            is_own_name(name) ==> js_vacant(context, js_global(context), js_units(name))
                && js_property(context, js_global(context), js_units(name)) is None,
        js_vacant(context, js_function_prototype(context), js_units("prototype"@)),
        js_vacant(context, js_function_prototype(context), js_units("ref_set"@)),
{
    Context::default()
}

/// The global object: `Context::global_object`.
#[verifier::external_body]
fn raw_global(context: &Context) -> (global: JsValue)
    ensures
        js_view(global) == js_global(*context),
        js_view(global) is Object,
        lives_in(js_view(global), *context),
{
    JsValue::from(context.global_object())
}

/// Reads a property: `JsObject::get`.
///
/// A property that is data reads as what it holds, one of the global object that nothing can change
/// too, one for which there is room reads as `undefined`, and reading them changes nothing. Of any
/// other property nothing is said: reading it can run code.
#[verifier::external_body]
fn raw_get(context: &mut Context, object: &JsValue, key: Key<'_>) -> (reply: Result<JsValue, JsError>)
    requires
        js_view(*object) is Object,
        lives_in(js_view(*object), *old(context)),
        key.wf(),
    ensures
        replied(engine_view(reply), *final(context)),
        throws_own(reply, *final(context)),
        js_gets(
            *old(context),
            js_view(*object),
            key.spec_view(),
            engine_view(reply),
            *final(context),
        ),
        get_effect(
            *old(context),
            js_view(*object),
            key.spec_view(),
            engine_view(reply),
            *final(context),
        ),
        same_vm(*old(context), *final(context)),
{
    let object = object.as_object().unwrap();
    match key {
        Key::Name(name) => object.get(JsString::from(name), context),
        Key::Index(index) => object.get(index, context),
        Key::Value(value) => value.to_property_key(context).and_then(|key| object.get(key, context)),
    }
}

/// The property that an object has of its own under a name: `PropertyMap::get`.
///
/// It is what reading the property gives, where that is data, and there is none where there is room
/// for one. No code runs. The global object takes the definition of a closed property as it is.
#[verifier::external_body]
fn raw_property(context: &Context, object: &JsValue, name: &str) -> (found: Option<JsProperty>)
    requires
        js_view(*object) is Object,
        lives_in(js_view(*object), *context),
    ensures
        property_view(found) == js_property(*context, js_view(*object), js_units(name@)),
        holds_own(property_view(found), *context),
        reads_property(*context, js_view(*object), js_units(name@), property_view(found)),
{
    let key = PropertyKey::from(JsString::from(name));
    let found = object.as_object().unwrap().borrow().properties().get(&key)?;
    Some(
        JsProperty {
            value: found.value().cloned(),
            writable: found.writable().unwrap_or(false),
            enumerable: found.enumerable().unwrap_or(false),
            configurable: found.configurable().unwrap_or(false),
        },
    )
}

/// The object from which an object inherits: `JsObject::prototype`.
#[verifier::external_body]
fn raw_parent(context: &Context, object: &JsValue) -> (parent: Option<JsValue>)
    requires
        js_view(*object) is Object,
        lives_in(js_view(*object), *context),
    ensures
        js_option(parent) == js_prototype_of(*context, js_view(*object)),
        parent matches Some(parent) ==> js_view(parent) is Object && lives_in(
            js_view(parent),
            *context,
        ),
{
    object.as_object().unwrap().prototype().map(JsValue::from)
}

/// Writes a property, as an assignment outside strict mode does: `JsObject::set`.
///
/// An object that takes every write, or that is ordinary and has room for the property or has it open,
/// has the property afterwards, and nothing else changes but the form in which it keeps numbers. What
/// does not inherit from it has the room that it had. Of any other object nothing is said: a write can
/// run code.
#[verifier::external_body]
fn raw_set(context: &mut Context, object: &JsValue, key: Key<'_>, value: &JsValue) -> (reply: Result<
    bool,
    JsError,
>)
    requires
        js_view(*object) is Object,
        lives_in(js_view(*object), *old(context)),
        lives_in(js_view(*value), *old(context)),
        key.wf(),
    ensures
        throws_own(reply, *final(context)),
        js_sets(
            *old(context),
            js_view(*object),
            key.spec_view(),
            js_view(*value),
            reply,
            *final(context),
        ),
        put_effect(
            *old(context),
            js_view(*object),
            key.spec_view(),
            js_view(*value),
            reply,
            *final(context),
        ),
        same_vm(*old(context), *final(context)),
{
    let object = object.as_object().unwrap();
    match key {
        Key::Name(name) => object.set(JsString::from(name), value.clone(), false, context),
        Key::Index(index) => object.set(index, value.clone(), false, context),
        Key::Value(name) => name.to_property_key(context)
            .and_then(|key| object.set(key, value.clone(), false, context)),
    }
}

/// The length of an array: `JsArray::length`.
///
/// It is how many elements an array without holes and accessors has, and reading it changes
/// nothing. Of any other array nothing is said.
#[verifier::external_body]
fn raw_length(context: &mut Context, array: &JsValue) -> (reply: Result<u64, JsError>)
    requires
        js_view(*array) matches JsView::Object(object) && object.array,
        lives_in(js_view(*array), *old(context)),
    ensures
        throws_own(reply, *final(context)),
        js_measures(*old(context), js_view(*array), reply, *final(context)),
        length_effect(*old(context), js_view(*array), reply, *final(context)),
        same_vm(*old(context), *final(context)),
{
    let array = array.as_object().unwrap().clone();
    JsArray::from_object(array).and_then(|array| array.length(context))
}

/// Calls a function with `undefined` as the receiver: `JsObject::call`.
///
/// The engine's own `Object.keys`, called on an object whose own properties are all data and
/// enumerable, gives a new array of their keys. Of any other call nothing is said.
#[verifier::external_body]
fn raw_call(context: &mut Context, function: &JsValue, arguments: &Vec<JsValue>) -> (reply: Result<
    JsValue,
    JsError,
>)
    requires
        js_view(*function) is Object,
        lives_in(js_view(*function), *old(context)),
        live_in(js_views(arguments@), *old(context)),
    ensures
        replied(engine_view(reply), *final(context)),
        throws_own(reply, *final(context)),
        js_calls(
            *old(context),
            js_view(*function),
            js_views(arguments@),
            engine_view(reply),
            *final(context),
        ),
        call_effect(
            *old(context),
            js_view(*function),
            js_views(arguments@),
            engine_view(reply),
            *final(context),
        ),
        same_vm(*old(context), *final(context)),
{
    let function = function.as_object().unwrap();
    function.call(&JsValue::undefined(), arguments, context)
}

/// Converts a value to a string: `JsValue::to_string`.
///
/// A string is its own string, and nothing changes. Of any other value only the kind of the
/// result is said: converting an object runs code.
#[verifier::external_body]
fn raw_to_text(context: &mut Context, value: &JsValue) -> (reply: Result<JsValue, JsError>)
    requires
        lives_in(js_view(*value), *old(context)),
    ensures
        throws_own(reply, *final(context)),
        js_writes_out(*old(context), js_view(*value), engine_view(reply), *final(context)),
        to_text_effect(*old(context), js_view(*value), engine_view(reply), *final(context)),
        same_vm(*old(context), *final(context)),
{
    value.to_string(context).map(JsValue::from)
}

/// A new object without a prototype: `JsObject::with_null_proto`.
#[verifier::external_body]
fn raw_object(context: &mut Context) -> (made: JsValue)
    ensures
        !js_heap(*old(context)).contains_key(object_id(js_view(made))),
        is_fresh(*old(context), js_view(made), false),
        grows(
            *old(context),
            js_view(made),
            JsNode::Object { data: Map::empty(), plain: true, bare: true },
            *final(context),
        ),
        same_vm(*old(context), *final(context)),
{
    JsValue::from(JsObject::with_null_proto())
}

/// A new array: `JsArray::from_iter`.
#[verifier::external_body]
fn raw_array(context: &mut Context, elements: Vec<JsValue>) -> (made: JsValue)
    requires
        live_in(js_views(elements@), *old(context)),
    ensures
        is_fresh(*old(context), js_view(made), true),
        grows(
            *old(context),
            js_view(made),
            JsNode::Array(js_views(elements@)),
            *final(context),
        ),
        same_vm(*old(context), *final(context)),
{
    JsValue::from(JsArray::from_iter(elements, context))
}

/// A new object with the usual prototype: `ObjectInitializer::build`.
#[verifier::external_body]
fn raw_record(context: &mut Context) -> (made: JsValue)
    ensures
        is_fresh(*old(context), js_view(made), false),
        grows(
            *old(context),
            js_view(made),
            JsNode::Object { data: Map::empty(), plain: true, bare: false },
            *final(context),
        ),
        same_vm(*old(context), *final(context)),
{
    JsValue::from(ObjectInitializer::new(context).build())
}

/// Gives an object a property that is writable, enumerable and configurable, in the place of one
/// with the same key: `JsObject::insert_property`.
///
/// Nothing else changes but the form in which the object keeps numbers.
#[verifier::external_body]
fn raw_insert(context: &mut Context, object: &JsValue, key: &JsValue, value: &JsValue)
    requires
        own_properties(js_heap(*old(context)), js_view(*object)) is Some,
        lives_in(js_view(*object), *old(context)),
        lives_in(js_view(*value), *old(context)),
        js_view(*key) is Str,
    ensures
        insert_effect(
            *old(context),
            js_view(*object),
            js_view(*key)->Str_0,
            js_view(*value),
            *final(context),
        ),
        same_vm(*old(context), *final(context)),
{
    let property = PropertyDescriptor::builder().value(value.clone());
    let property = property.writable(true).enumerable(true).configurable(true);
    object.as_object().unwrap().insert_property(key.as_string().unwrap().clone(), property);
}

/// The double with the given bits: `JsDataView::get_float64` of a new buffer that holds them.
///
/// A NaN may come back as another NaN.
#[verifier::external_body]
fn raw_number(context: &mut Context, bits: u64) -> (made: JsValue)
    ensures
        js_view(made) is Rational,
        !is_nan(bits) ==> js_view(made) == JsView::Rational(bits),
        is_nan(bits) ==> is_nan(js_view(made)->Rational_0),
        untouched(*old(context), *final(context)),
        same_vm(*old(context), *final(context)),
{
    JsArrayBuffer::from_byte_block(bits.to_le_bytes().to_vec(), context)
        .and_then(|buffer| JsDataView::from_js_array_buffer(buffer, None, None, context))
        .and_then(|view| view.get_float64(0, true, context))
        .map_or(JsValue::nan(), JsValue::from)
}

/// A new wrapper of a host value for a virtual machine: `JsObject::from_proto_and_data`.
#[verifier::external_body]
fn raw_reference(context: &Context, prototype: Option<JsValue>, reference: u64) -> (made: JsValue)
    requires
        prototype matches Some(prototype) ==> js_view(prototype) is Object && lives_in(
            js_view(prototype),
            *context,
        ),
    ensures
        js_birth_prototype(js_view(made)) == js_option(prototype),
        js_view(made) is Object,
        js_view(made)->Object_0 == (ObjectView {
            id: object_id(js_view(made)),
            vm: js_vm(*context),
            callable: false,
            constructs: false,
            reference: Some(reference),
            token: None,
            array: false,
            error: false,
            lists_keys: false,
        }),
{
    let prototype = prototype.and_then(|prototype| prototype.as_object().cloned());
    let data = (reference, PhantomData::<JsReflectReference>);
    JsValue::from(JsObject::from_proto_and_data(prototype, data))
}

/// A new token of a type for a virtual machine: `JsObject::from_proto_and_data`.
#[verifier::external_body]
fn raw_token(context: &Context, prototype: Option<JsValue>, token: TypeId) -> (made: JsValue)
    requires
        prototype matches Some(prototype) ==> js_view(prototype) is Object && lives_in(
            js_view(prototype),
            *context,
        ),
    ensures
        js_birth_prototype(js_view(made)) == js_option(prototype),
        js_view(made) is Object,
        js_view(made)->Object_0 == (ObjectView {
            id: object_id(js_view(made)),
            vm: js_vm(*context),
            callable: false,
            constructs: false,
            reference: None,
            token: Some(token),
            array: false,
            error: false,
            lists_keys: false,
        }),
{
    let prototype = prototype.and_then(|prototype| prototype.as_object().cloned());
    JsValue::from(JsObject::from_proto_and_data(prototype, token))
}

/// A new function that runs [`call_native`]: `NativeFunction::from_copy_closure` and
/// `FunctionObjectBuilder`.
///
/// Its own properties are its length and its name, it takes others, it inherits from the prototype of
/// functions, and nothing inherits from it. It asks `serve`, of which nothing is said: it can be of any
/// type.
#[verifier::external_body]
fn raw_function<H: Fn(Query) -> Answer + Copy + 'static>(
    context: &mut Context,
    name: &str,
    length: usize,
    native: Native,
    serve: H,
) -> (made: JsValue)
    requires
        forall|query: Query| call_requires(serve, (query,)),
    ensures
        js_native_of(js_view(made)) == (name@, length, native),
        function_effect(*old(context), js_view(made), *final(context)),
        js_apart(*final(context), js_view(made)),
        same_vm(*old(context), *final(context)),
{
    let run = NativeFunction::from_copy_closure(
        move |this, arguments, context| call_native(native, this, arguments, context, serve).0,
    );
    let name = JsString::from(name);
    let made = FunctionObjectBuilder::new(context.realm(), run).name(name).length(length).build();
    JsValue::from(made)
}

/// A new function that runs [`call_named`]: `NativeFunction::from_copy_closure_with_captures`
/// and `FunctionObjectBuilder`.
///
/// Its own properties are its length and its name, it takes others, it inherits from the prototype of
/// functions, and nothing inherits from it. It asks `serve`, of which nothing is said: it can be of any
/// type.
#[verifier::external_body]
fn raw_named<H: Fn(Query) -> Answer + Copy + 'static>(
    context: &mut Context,
    name: &str,
    target: CallTarget,
    method: String,
    serve: H,
) -> (made: JsValue)
    requires
        forall|query: Query| call_requires(serve, (query,)),
    ensures
        js_bound_to(js_view(made)) == (name@, target, method@),
        function_effect(*old(context), js_view(made), *final(context)),
        same_vm(*old(context), *final(context)),
{
    let run = NativeFunction::from_copy_closure_with_captures(
        move |_, arguments, method, context| call_named(target, method, arguments, context, serve).0,
        method,
    );
    let name = JsString::from(name);
    let made = FunctionObjectBuilder::new(context.realm(), run).name(name).build();
    JsValue::from(made)
}

/// Defines a property of the global object: `Context::register_global_property`.
///
/// An open property is writable, enumerable and configurable, so that it can be defined anew. Another
/// one is none of these, so that it can only be defined as it is, and nothing can change it if no
/// script ran before. A definition on an ordinary object runs no code of the script, and does not fail
/// where there is room.
#[verifier::external_body]
fn raw_define(context: &mut Context, name: &str, value: &JsValue, open: bool) -> (reply: Result<
    (),
    JsError,
>)
    requires
        lives_in(js_view(*value), *old(context)),
    ensures
        throws_own(reply, *final(context)),
        js_defines(
            *old(context),
            name@,
            js_view(*value),
            open,
            reply,
            *final(context),
        ),
        define_effect(
            *old(context),
            name@,
            js_view(*value),
            open,
            reply,
            *final(context),
        ),
        !open && reply is Ok && ordinary_global(*old(context)) && js_pristine(*old(context))
            && js_view(*value) is Object ==> js_fixed(*final(context)).contains_key(
            js_units(name@),
        ),
        forall|other: JsView|
            open && reply is Ok && ordinary_global(*old(context)) ==> #[trigger] js_admits(
                *final(context),
                js_units(name@),
                other,
                true,
            ),
        same_vm(*old(context), *final(context)),
{
    let key = PropertyKey::from(JsString::from(name));
    let mut attributes = Attribute::empty();
    attributes.set(Attribute::all(), open);
    context.register_global_property(key, value.clone(), attributes)
}

/// Evaluates a script: `Context::eval`.
///
/// Nothing is said of what becomes of the virtual machine. A script can run for ever or use up the
/// stack, which no condition on its text can tell.
#[verifier::external_body]
fn raw_eval(context: &mut Context, source: &[u8]) -> (reply: Result<JsValue, JsError>)
    ensures
        replied(engine_view(reply), *final(context)),
        throws_own(reply, *final(context)),
        js_evaluates(*old(context), source@, engine_view(reply), *final(context)),
        js_vm(*final(context)) == js_vm(*old(context)),
        same_vm(*old(context), *final(context)),
{
    context.eval(Source::from_bytes(source))
}

/// Whether what an object has or inherits under a name, within some steps, is no object.
fn looks_simple(object: &JsValue, name: &str, steps: usize, context: &Context) -> (simple: bool)
    requires
        js_view(*object) is Object,
        lives_in(js_view(*object), *context),
    ensures
        simple == is_simple(*context, js_view(*object), js_units(name@), steps as nat),
    decreases steps,
{
    if steps == 0 {
        return false;
    }
    match raw_property(context, object, name) {
        Some(property) => match property.value {
            Some(value) => kind_of(&value) != JsKind::Object,
            None => true,
        },
        None => match raw_parent(context, object) {
            Some(parent) => looks_simple(&parent, name, steps - 1, context),
            None => true,
        },
    }
}

/// What is said of a thrown object that is no error with a name and a message.
pub const NO_TEXT: &'static str = "an object was thrown that has no text of its own";

/// The text of an error: the one that the engine shows, or that there is none.
pub open spec fn told_text(context: Context, error: JsError) -> Seq<char> {
    if has_text(context, error) {
        js_shown(context, error)
    } else {
        NO_TEXT@
    }
}

/// The text of an error.
fn tell(error: &JsError, context: &Context) -> (text: String)
    requires
        js_thrown(*error) matches Some(value) ==> lives_in(value, *context),
    ensures
        text@ == told_text(*context, *error),
{
    let told = match thrown_value(error) {
        None => true,
        Some(value) => kind_of(&value) != JsKind::Object || (is_error(&value) && looks_simple(
            &value,
            "name",
            CHAIN_LIMIT,
            context,
        ) && looks_simple(&value, "message", CHAIN_LIMIT, context)),
    };
    if told {
        error_text(error, context)
    } else {
        NO_TEXT.to_owned()
    }
}

/// The text of the error of a reply, in the place of the error.
fn told<T>(raw: Result<T, JsError>, context: &Context) -> (reply: Result<T, String>)
    requires
        throws_own(raw, *context),
    ensures
        match raw {
            Ok(value) => reply == Ok::<T, String>(value),
            Err(error) => reply matches Err(text) && text@ == told_text(*context, error),
        },
{
    match raw {
        Ok(value) => Ok(value),
        Err(error) => Err(tell(&error, context)),
    }
}

/// The reply of the engine, with the text of an error in the place of the error.
pub open spec fn worded<T>(raw: Result<T, JsError>, after: Context) -> Result<T, Seq<char>> {
    match raw {
        Ok(value) => Ok(value),
        Err(error) => Err(told_text(after, error)),
    }
}

/// The engine reads a property, as [`js_gets`] has it. The reply has the text of an error in its place.
pub open spec fn gets(
    before: Context,
    object: JsView,
    key: KeyView,
    reply: Result<JsView, Seq<char>>,
    after: Context,
) -> bool {
    exists|raw: Result<JsView, JsError>| #[trigger]
        js_gets(before, object, key, raw, after) && reply == worded(raw, after)
}

/// The engine writes a property, as [`js_sets`] has it. The reply has the text of an error in its place.
pub open spec fn puts(
    before: Context,
    object: JsView,
    key: KeyView,
    value: JsView,
    reply: Result<bool, Seq<char>>,
    after: Context,
) -> bool {
    exists|raw: Result<bool, JsError>| #[trigger]
        js_sets(before, object, key, value, raw, after) && reply == worded(raw, after)
}

/// The engine reads the length of an array, as [`js_measures`] has it. The reply has the text of an error in its place.
pub open spec fn measures(
    before: Context,
    array: JsView,
    reply: Result<u64, Seq<char>>,
    after: Context,
) -> bool {
    exists|raw: Result<u64, JsError>| #[trigger]
        js_measures(before, array, raw, after) && reply == worded(raw, after)
}

/// The engine calls a function, as [`js_calls`] has it. The reply has the text of an error in its place.
pub open spec fn runs(
    before: Context,
    function: JsView,
    arguments: Seq<JsView>,
    reply: Result<JsView, Seq<char>>,
    after: Context,
) -> bool {
    exists|raw: Result<JsView, JsError>| #[trigger]
        js_calls(before, function, arguments, raw, after) && reply == worded(raw, after)
}

/// The engine converts a value to a string, as [`js_writes_out`] has it. The reply has the text of an error in its place.
pub open spec fn writes_out(
    before: Context,
    value: JsView,
    reply: Result<JsView, Seq<char>>,
    after: Context,
) -> bool {
    exists|raw: Result<JsView, JsError>| #[trigger]
        js_writes_out(before, value, raw, after) && reply == worded(raw, after)
}

/// The engine defines a global, as [`js_defines`] has it. The reply has the text of an error in its place.
pub open spec fn places(
    before: Context,
    name: Seq<char>,
    value: JsView,
    open: bool,
    reply: Result<(), Seq<char>>,
    after: Context,
) -> bool {
    exists|raw: Result<(), JsError>| #[trigger]
        js_defines(before, name, value, open, raw, after) && reply == worded(raw, after)
}

/// The engine evaluates a script, as [`js_evaluates`] has it. The reply has the text of an error in its place.
pub open spec fn evaluates(
    before: Context,
    source: Seq<u8>,
    reply: Result<JsView, Seq<char>>,
    after: Context,
) -> bool {
    exists|raw: Result<JsView, JsError>| #[trigger]
        js_evaluates(before, source, raw, after) && reply == worded(raw, after)
}

/// A session of the bindings with the engine and the host application.
///
/// It belongs to one virtual machine, and knows the state in which its last step left it. A step needs
/// the virtual machine in that state, so that its journal holds all that happened from the first step
/// to the last one, but for what the host application and the scripts did while a step took place.
pub struct Session<H> {
    serve: H,
    at: Ghost<Context>,
    journal: Ghost<Seq<Step>>,
}

/// A session went on by one step.
pub open spec fn took<H>(before: Session<H>, after: Session<H>, step: Step) -> bool {
    &&& after.follows(before)
    &&& after.journal() == before.journal().push(step)
    &&& extends(after.journal(), before.journal())
}

impl<H> Session<H> {
    /// The steps that were taken so far.
    pub closed spec fn journal(self) -> Seq<Step> {
        self.journal@
    }

    /// What answers for the host application.
    pub closed spec fn server(self) -> H {
        self.serve
    }

    /// The state in which the last step left the virtual machine.
    pub closed spec fn at(self) -> Context {
        self.at@
    }

    /// The virtual machine is as the last step left it: nothing happened in it since.
    pub open spec fn attached(self, context: Context) -> bool {
        self.at() == context
    }

    /// It is the same session, at another time.
    pub open spec fn follows(self, earlier: Session<H>) -> bool {
        self.server() == earlier.server()
    }

    /// It is the same session at another time, and nothing happened in the virtual machine since.
    pub open spec fn stays(self, earlier: Session<H>) -> bool {
        self.follows(earlier) && self.at() == earlier.at()
    }
}

impl<H: Fn(Query) -> Answer + Copy + 'static> Session<H> {
    /// The host application takes every question.
    pub open spec fn served(self) -> bool {
        forall|query: Query| #[trigger] call_requires(self.server(), (query,))
    }

    /// Nothing happened in the virtual machine since the last step, and the host application takes
    /// every question.
    pub open spec fn ready(self, context: Context) -> bool {
        self.attached(context) && self.served()
    }

    /// A session with a virtual machine that took no step yet. Every step of another one in the same
    /// virtual machine ends it.
    pub fn new(serve: H, context: &Context) -> (session: Session<H>)
        ensures
            session.server() == serve,
            session.attached(*context),
            session.journal() == Seq::<Step>::empty(),
    {
        Session { serve, at: Ghost(*context), journal: Ghost(Seq::empty()) }
    }

    /// Asks the host application something that it answers without running a script.
    pub fn ask(&mut self, query: Query) -> (answer: Answer)
        requires
            old(self).served(),
            !runs_scripts(query@),
        ensures
            final(self).stays(*old(self)),
            took(*old(self), *final(self), Step::Ask { query: query@, answer, idle: true }),
            call_ensures(old(self).server(), (query,), answer),
    {
        let ghost asked = query@;
        let answer = (self.serve)(query);
        self.journal = Ghost(self.journal@.push(Step::Ask { query: asked, answer, idle: true }));
        answer
    }

    /// Asks the host application something while it has the virtual machine.
    ///
    /// It can run functions of the script meanwhile, in sessions of their own, so that the virtual
    /// machine is no longer known to be in the state in which the last step left it. The step says
    /// whether it is.
    pub fn consult(&mut self, query: Query, context: &mut Context) -> (answer: Answer)
        requires
            old(self).ready(*old(context)),
        ensures
            final(self).follows(*old(self)),
            final(self).attached(*final(context)),
            same_vm(*old(context), *final(context)),
            exists|idle: bool|
                {
                    &&& #[trigger] took(
                        *old(self),
                        *final(self),
                        Step::Ask { query: query@, answer, idle },
                    )
                    &&& idle ==> *final(context) == *old(context)
                },
            call_ensures(old(self).server(), (query,), answer),
    {
        let ghost asked = query@;
        let answer = (self.serve)(query);
        let ghost idle = *context == *old(context);
        self.at = Ghost(*context);
        self.journal = Ghost(self.journal@.push(Step::Ask { query: asked, answer, idle }));
        assert(took(*old(self), *self, Step::Ask { query: asked, answer, idle }));
        answer
    }

    /// Looks up the property that an object has of its own under a name.
    pub fn inspect(&mut self, context: &Context, object: &JsValue, name: &str) -> (found: Option<
        JsProperty,
    >)
        requires
            old(self).attached(*context),
            js_view(*object) is Object,
            lives_in(js_view(*object), *context),
        ensures
            final(self).stays(*old(self)),
            took(
                *old(self),
                *final(self),
                Step::Inspect {
                    object: js_view(*object),
                    name: name@,
                    reply: property_view(found),
                },
            ),
            property_view(found) == js_property(*context, js_view(*object), js_units(name@)),
            holds_own(property_view(found), *context),
            reads_property(*context, js_view(*object), js_units(name@), property_view(found)),
    {
        let found = raw_property(context, object, name);
        self.journal = Ghost(
            self.journal@.push(
                Step::Inspect {
                    object: js_view(*object),
                    name: name@,
                    reply: property_view(found),
                },
            ),
        );
        found
    }

    /// The global object.
    pub fn global(&mut self, context: &Context) -> (global: JsValue)
        requires
            old(self).attached(*context),
        ensures
            final(self).stays(*old(self)),
            took(*old(self), *final(self), Step::Global { reply: js_view(global) }),
            js_view(global) == js_global(*context),
            js_view(global) is Object,
            lives_in(js_view(global), *context),
    {
        let global = raw_global(context);
        self.journal = Ghost(self.journal@.push(Step::Global { reply: js_view(global) }));
        global
    }

    /// Reads a property.
    pub fn get(&mut self, context: &mut Context, object: &JsValue, key: Key<'_>) -> (reply: Result<
        JsValue,
        String,
    >)
        requires
            old(self).attached(*old(context)),
            js_view(*object) is Object,
            lives_in(js_view(*object), *old(context)),
            key.wf(),
        ensures
            replied(reply_view(reply), *final(context)),
            gets(
                *old(context),
                js_view(*object),
                key.spec_view(),
                reply_view(reply),
                *final(context),
            ),
            final(self).attached(*final(context)),
            same_vm(*old(context), *final(context)),
            took(
                *old(self),
                *final(self),
                Step::Get {
                    object: js_view(*object),
                    key: key.spec_view(),
                    reply: reply_view(reply),
                },
            ),
            get_effect(
                *old(context),
                js_view(*object),
                key.spec_view(),
                reply_view(reply),
                *final(context),
            ),
    {
        let ghost view = key.spec_view();
        let raw = raw_get(context, object, key);
        let reply = told(raw, context);
        self.at = Ghost(*context);
        self.journal = Ghost(
            self.journal@.push(
                Step::Get { object: js_view(*object), key: view, reply: reply_view(reply) },
            ),
        );
        reply
    }

    /// Writes a property.
    pub fn put(
        &mut self,
        context: &mut Context,
        object: &JsValue,
        key: Key<'_>,
        value: &JsValue,
    ) -> (reply: Result<bool, String>)
        requires
            old(self).attached(*old(context)),
            js_view(*object) is Object,
            lives_in(js_view(*object), *old(context)),
            lives_in(js_view(*value), *old(context)),
            key.wf(),
        ensures
            puts(
                *old(context),
                js_view(*object),
                key.spec_view(),
                js_view(*value),
                plain_reply(reply),
                *final(context),
            ),
            final(self).attached(*final(context)),
            same_vm(*old(context), *final(context)),
            took(
                *old(self),
                *final(self),
                Step::Put {
                    object: js_view(*object),
                    key: key.spec_view(),
                    value: js_view(*value),
                    reply: plain_reply(reply),
                },
            ),
            put_effect(
                *old(context),
                js_view(*object),
                key.spec_view(),
                js_view(*value),
                plain_reply(reply),
                *final(context),
            ),
    {
        let ghost view = key.spec_view();
        let raw = raw_set(context, object, key, value);
        let reply = told(raw, context);
        self.at = Ghost(*context);
        self.journal = Ghost(
            self.journal@.push(
                Step::Put {
                    object: js_view(*object),
                    key: view,
                    value: js_view(*value),
                    reply: plain_reply(reply),
                },
            ),
        );
        reply
    }

    /// The length of an array.
    pub fn length(&mut self, context: &mut Context, array: &JsValue) -> (reply: Result<u64, String>)
        requires
            old(self).attached(*old(context)),
            js_view(*array) matches JsView::Object(object) && object.array,
            lives_in(js_view(*array), *old(context)),
        ensures
            measures(*old(context), js_view(*array), plain_reply(reply), *final(context)),
            final(self).attached(*final(context)),
            same_vm(*old(context), *final(context)),
            took(
                *old(self),
                *final(self),
                Step::Length { array: js_view(*array), reply: plain_reply(reply) },
            ),
            length_effect(*old(context), js_view(*array), plain_reply(reply), *final(context)),
    {
        let raw = raw_length(context, array);
        let reply = told(raw, context);
        self.at = Ghost(*context);
        self.journal = Ghost(
            self.journal@.push(
                Step::Length { array: js_view(*array), reply: plain_reply(reply) },
            ),
        );
        reply
    }

    /// Calls a function.
    pub fn call(&mut self, context: &mut Context, function: &JsValue, arguments: &Vec<JsValue>) -> (reply:
        Result<JsValue, String>)
        requires
            old(self).attached(*old(context)),
            js_view(*function) is Object,
            lives_in(js_view(*function), *old(context)),
            live_in(js_views(arguments@), *old(context)),
        ensures
            replied(reply_view(reply), *final(context)),
            runs(
                *old(context),
                js_view(*function),
                js_views(arguments@),
                reply_view(reply),
                *final(context),
            ),
            final(self).attached(*final(context)),
            same_vm(*old(context), *final(context)),
            took(
                *old(self),
                *final(self),
                Step::Call {
                    function: js_view(*function),
                    arguments: js_views(arguments@),
                    reply: reply_view(reply),
                },
            ),
            call_effect(
                *old(context),
                js_view(*function),
                js_views(arguments@),
                reply_view(reply),
                *final(context),
            ),
    {
        let raw = raw_call(context, function, arguments);
        let reply = told(raw, context);
        self.at = Ghost(*context);
        self.journal = Ghost(
            self.journal@.push(
                Step::Call {
                    function: js_view(*function),
                    arguments: js_views(arguments@),
                    reply: reply_view(reply),
                },
            ),
        );
        reply
    }

    /// Converts a value to a string.
    pub fn to_text(&mut self, context: &mut Context, value: &JsValue) -> (reply: Result<
        JsValue,
        String,
    >)
        requires
            old(self).attached(*old(context)),
            lives_in(js_view(*value), *old(context)),
        ensures
            writes_out(*old(context), js_view(*value), reply_view(reply), *final(context)),
            final(self).attached(*final(context)),
            same_vm(*old(context), *final(context)),
            took(
                *old(self),
                *final(self),
                Step::ToText { value: js_view(*value), reply: reply_view(reply) },
            ),
            to_text_effect(*old(context), js_view(*value), reply_view(reply), *final(context)),
    {
        let raw = raw_to_text(context, value);
        let reply = told(raw, context);
        self.at = Ghost(*context);
        self.journal = Ghost(
            self.journal@.push(
                Step::ToText { value: js_view(*value), reply: reply_view(reply) },
            ),
        );
        reply
    }

    /// Makes an object without a prototype.
    pub fn new_object(&mut self, context: &mut Context) -> (made: JsValue)
        requires
            old(self).attached(*old(context)),
        ensures
            final(self).attached(*final(context)),
            same_vm(*old(context), *final(context)),
            took(*old(self), *final(self), Step::NewObject { reply: js_view(made) }),
            is_fresh(*old(context), js_view(made), false),
            grows(
                *old(context),
                js_view(made),
                JsNode::Object { data: Map::empty(), plain: true, bare: true },
                *final(context),
            ),
    {
        let made = raw_object(context);
        self.at = Ghost(*context);
        self.journal = Ghost(self.journal@.push(Step::NewObject { reply: js_view(made) }));
        made
    }

    /// Makes an array.
    pub fn new_array(&mut self, context: &mut Context, elements: Vec<JsValue>) -> (made: JsValue)
        requires
            old(self).attached(*old(context)),
            live_in(js_views(elements@), *old(context)),
        ensures
            final(self).attached(*final(context)),
            same_vm(*old(context), *final(context)),
            took(
                *old(self),
                *final(self),
                Step::NewArray { elements: js_views(elements@), reply: js_view(made) },
            ),
            is_fresh(*old(context), js_view(made), true),
            grows(
                *old(context),
                js_view(made),
                JsNode::Array(js_views(elements@)),
                *final(context),
            ),
    {
        let ghost views = js_views(elements@);
        let made = raw_array(context, elements);
        self.at = Ghost(*context);
        self.journal = Ghost(
            self.journal@.push(Step::NewArray { elements: views, reply: js_view(made) }),
        );
        made
    }

    /// Makes an object.
    pub fn new_record(&mut self, context: &mut Context) -> (made: JsValue)
        requires
            old(self).attached(*old(context)),
        ensures
            final(self).attached(*final(context)),
            same_vm(*old(context), *final(context)),
            took(*old(self), *final(self), Step::NewRecord { reply: js_view(made) }),
            is_fresh(*old(context), js_view(made), false),
            grows(
                *old(context),
                js_view(made),
                JsNode::Object { data: Map::empty(), plain: true, bare: false },
                *final(context),
            ),
    {
        let made = raw_record(context);
        self.at = Ghost(*context);
        self.journal = Ghost(self.journal@.push(Step::NewRecord { reply: js_view(made) }));
        made
    }

    /// Gives an object a property.
    pub fn insert(&mut self, context: &mut Context, object: &JsValue, key: &JsValue, value: &JsValue)
        requires
            old(self).attached(*old(context)),
            own_properties(js_heap(*old(context)), js_view(*object)) is Some,
            lives_in(js_view(*object), *old(context)),
            lives_in(js_view(*value), *old(context)),
            js_view(*key) is Str,
        ensures
            final(self).attached(*final(context)),
            same_vm(*old(context), *final(context)),
            took(
                *old(self),
                *final(self),
                Step::Insert {
                    object: js_view(*object),
                    key: js_view(*key)->Str_0,
                    value: js_view(*value),
                },
            ),
            insert_effect(
                *old(context),
                js_view(*object),
                js_view(*key)->Str_0,
                js_view(*value),
                *final(context),
            ),
    {
        raw_insert(context, object, key, value);
        self.at = Ghost(*context);
        self.journal = Ghost(
            self.journal@.push(
                Step::Insert {
                    object: js_view(*object),
                    key: js_view(*key)->Str_0,
                    value: js_view(*value),
                },
            ),
        );
    }

    /// Makes a number of a double.
    pub fn new_number(&mut self, context: &mut Context, bits: u64) -> (made: JsValue)
        requires
            old(self).attached(*old(context)),
        ensures
            final(self).attached(*final(context)),
            same_vm(*old(context), *final(context)),
            took(*old(self), *final(self), Step::NewNumber { bits, reply: js_view(made) }),
            js_view(made) is Rational,
            !is_nan(bits) ==> js_view(made) == JsView::Rational(bits),
            is_nan(bits) ==> is_nan(js_view(made)->Rational_0),
            untouched(*old(context), *final(context)),
    {
        let made = raw_number(context, bits);
        self.at = Ghost(*context);
        self.journal = Ghost(self.journal@.push(Step::NewNumber { bits, reply: js_view(made) }));
        made
    }

    /// Makes a wrapper of a host value.
    pub fn new_reference(&mut self, context: &Context, prototype: Option<JsValue>, reference: u64) -> (made:
        JsValue)
        requires
            old(self).attached(*context),
            prototype matches Some(prototype) ==> js_view(prototype) is Object && lives_in(
                js_view(prototype),
                *context,
            ),
        ensures
            js_birth_prototype(js_view(made)) == js_option(prototype),
            final(self).stays(*old(self)),
            took(
                *old(self),
                *final(self),
                Step::NewReference {
                    prototype: js_option(prototype),
                    reference,
                    reply: js_view(made),
                },
            ),
            js_view(made) is Object,
            js_view(made)->Object_0 == (ObjectView {
                id: object_id(js_view(made)),
                vm: js_vm(*context),
                callable: false,
                constructs: false,
                reference: Some(reference),
                token: None,
                array: false,
                error: false,
                lists_keys: false,
            }),
    {
        let ghost view = js_option(prototype);
        let made = raw_reference(context, prototype, reference);
        self.journal = Ghost(
            self.journal@.push(
                Step::NewReference { prototype: view, reference, reply: js_view(made) },
            ),
        );
        made
    }

    /// Makes a token of a type.
    pub fn new_token(&mut self, context: &Context, prototype: Option<JsValue>, token: TypeId) -> (made:
        JsValue)
        requires
            old(self).attached(*context),
            prototype matches Some(prototype) ==> js_view(prototype) is Object && lives_in(
                js_view(prototype),
                *context,
            ),
        ensures
            js_birth_prototype(js_view(made)) == js_option(prototype),
            final(self).stays(*old(self)),
            took(
                *old(self),
                *final(self),
                Step::NewToken { prototype: js_option(prototype), token, reply: js_view(made) },
            ),
            js_view(made) is Object,
            js_view(made)->Object_0 == (ObjectView {
                id: object_id(js_view(made)),
                vm: js_vm(*context),
                callable: false,
                constructs: false,
                reference: None,
                token: Some(token),
                array: false,
                error: false,
                lists_keys: false,
            }),
    {
        let ghost view = js_option(prototype);
        let made = raw_token(context, prototype, token);
        self.journal = Ghost(
            self.journal@.push(Step::NewToken { prototype: view, token, reply: js_view(made) }),
        );
        made
    }

    /// Makes a function that runs a native one.
    pub fn new_function(
        &mut self,
        context: &mut Context,
        name: &str,
        length: usize,
        native: Native,
    ) -> (made: JsValue)
        requires
            old(self).ready(*old(context)),
        ensures
            js_native_of(js_view(made)) == (name@, length, native),
            final(self).attached(*final(context)),
            same_vm(*old(context), *final(context)),
            took(
                *old(self),
                *final(self),
                Step::NewFunction { name: name@, length, native, reply: js_view(made) },
            ),
            function_effect(*old(context), js_view(made), *final(context)),
    {
        let made = raw_function(context, name, length, native, self.serve);
        self.at = Ghost(*context);
        self.journal = Ghost(
            self.journal@.push(
                Step::NewFunction { name: name@, length, native, reply: js_view(made) },
            ),
        );
        made
    }

    /// Makes a function that calls one of the host application by its name.
    pub fn new_named(
        &mut self,
        context: &mut Context,
        name: &str,
        target: CallTarget,
        method: String,
    ) -> (made: JsValue)
        requires
            old(self).ready(*old(context)),
        ensures
            js_bound_to(js_view(made)) == (name@, target, method@),
            final(self).attached(*final(context)),
            same_vm(*old(context), *final(context)),
            took(
                *old(self),
                *final(self),
                Step::NewNamed { name: name@, target, method: method@, reply: js_view(made) },
            ),
            function_effect(*old(context), js_view(made), *final(context)),
    {
        let ghost called = method@;
        let made = raw_named(context, name, target, method, self.serve);
        self.at = Ghost(*context);
        self.journal = Ghost(
            self.journal@.push(
                Step::NewNamed { name: name@, target, method: called, reply: js_view(made) },
            ),
        );
        made
    }

    /// Defines a property of the global object, which scripts can see and change if it is open.
    pub fn define(&mut self, context: &mut Context, name: &str, value: &JsValue, open: bool) -> (reply:
        Result<(), String>)
        requires
            old(self).attached(*old(context)),
            lives_in(js_view(*value), *old(context)),
        ensures
            places(
                *old(context),
                name@,
                js_view(*value),
                open,
                plain_reply(reply),
                *final(context),
            ),
            final(self).attached(*final(context)),
            same_vm(*old(context), *final(context)),
            took(
                *old(self),
                *final(self),
                Step::Define {
                    name: name@,
                    value: js_view(*value),
                    open,
                    reply: plain_reply(reply),
                },
            ),
            define_effect(
                *old(context),
                name@,
                js_view(*value),
                open,
                plain_reply(reply),
                *final(context),
            ),
    {
        let raw = raw_define(context, name, value, open);
        let reply = told(raw, context);
        self.at = Ghost(*context);
        self.journal = Ghost(
            self.journal@.push(
                Step::Define {
                    name: name@,
                    value: js_view(*value),
                    open,
                    reply: plain_reply(reply),
                },
            ),
        );
        reply
    }

    /// Evaluates a script.
    pub fn eval(&mut self, context: &mut Context, source: &[u8]) -> (reply: Result<JsValue, String>)
        requires
            old(self).attached(*old(context)),
        ensures
            replied(reply_view(reply), *final(context)),
            evaluates(*old(context), source@, reply_view(reply), *final(context)),
            final(self).attached(*final(context)),
            same_vm(*old(context), *final(context)),
            took(
                *old(self),
                *final(self),
                Step::Eval { source: source@, reply: reply_view(reply) },
            ),
    {
        let raw = raw_eval(context, source);
        let reply = told(raw, context);
        self.at = Ghost(*context);
        self.journal = Ghost(
            self.journal@.push(Step::Eval { source: source@, reply: reply_view(reply) }),
        );
        reply
    }
}

/// A virtual machine as the engine makes it, in which the bindings can define their globals.
pub open spec fn fresh(context: Context) -> bool {
    &&& intact(context)
    &&& js_pristine(context)
    &&& has_symbols(context)
    &&& forall|name: Seq<char>| #[trigger]
        is_own_name(name) ==> js_vacant(context, js_global(context), js_units(name))
            && js_property(context, js_global(context), js_units(name)) is None
    &&& js_vacant(context, js_function_prototype(context), js_units("prototype"@))
    &&& js_vacant(context, js_function_prototype(context), js_units("ref_set"@))
}

/// A fresh virtual machine.
pub fn new_context() -> (context: Context)
    ensures
        fresh(context),
{
    raw_context()
}

} // verus!
