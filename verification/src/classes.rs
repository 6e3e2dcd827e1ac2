//! The classes that every virtual machine has for host values and types.
use crate::calls::{part_of, put_property, put_run};
use crate::data::PROTOTYPE;
use crate::engine::{
    alike_data, holds_closed, is_closed, js_admits, js_apart, js_failure, js_global, js_heap,
    js_thrown, js_units, js_vacant, js_view, kind_of, lemma_alike_data_through, lives_in, raise,
    FailureView, JsFailure, JsKind, JsView, PropertyView,
};
use crate::host::{Answer, Query};
use crate::native::Native;
use crate::reference::{JsReflectReference, JsStaticReflectReference};
use crate::session::{
    and_then, data_of, define_effect, define_reply, function_effect, function_reply, get_reply,
    global_reply, inspect_reply, name_key, object_id, object_node, object_reply, ordinary, own_data,
    property_view, put_effect, put_reply, replays, same_vm, takes, Key, KeyView, Session, Step,
};
use crate::setup::{
    can_define, can_place, global_data, has_methods, installs_reference, installs_token,
    is_workpiece, lemma_define_prepared, lemma_names_differ, lemma_steady_class,
    lemma_steady_function, lemma_steady_method, lemma_steady_object, lemma_steady_untouched,
    placeable, prepared, registrable, runs_native, spares, steady,
};
use boa_engine::{Context, JsError, JsValue};
use vstd::prelude::*;

verus! {

broadcast use crate::session::lemma_extends_earlier;

/// The keys of the methods of a prototype.
pub open spec fn methods_of(context: Context, prototype: JsView) -> Set<Seq<u16>> {
    data_of(js_heap(context), prototype).dom()
}

/// A function was made and given to a prototype as a method.
proof fn lemma_method_added(
    before: Context,
    function: JsView,
    made: Context,
    prototype: JsView,
    key: KeyView,
    after: Context,
)
    requires
        prepared(before),
        same_vm(before, made),
        same_vm(made, after),
        function_effect(before, function, made),
        is_workpiece(before, prototype),
        key matches KeyView::Units(units) && spares(units),
        put_effect(made, prototype, key, function, Ok::<bool, Seq<char>>(true), after),
    ensures
        steady(before, after, prototype),
        is_workpiece(after, prototype),
        methods_of(after, prototype) =~= methods_of(before, prototype).insert(key->Units_0),
{
    lemma_steady_function(before, function, made);
    assert(js_heap(before).contains_key(object_id(prototype)));
    lemma_steady_method(made, prototype, key, function, after);
}

/// Adding a method to a prototype.
pub open spec fn define_method_run(
    prototype: JsView,
    name: Seq<char>,
    native: Native,
    j: Seq<Step>,
    p: nat,
) -> Option<(Result<(), FailureView>, nat)> {
    match function_reply(j, p, name, 0, native) {
        None => None,
        Some(function) => put_run(prototype, name_key(name), function, j, p + 1),
    }
}

/// Adds a method to a prototype.
pub fn define_method<H: Fn(Query) -> Answer + Copy + 'static>(
    prototype: &JsValue,
    name: &str,
    native: Native,
    context: &mut Context,
    session: &mut Session<H>,
) -> (result: Result<(), JsFailure>)
    requires
        old(session).ready(*old(context)),
        js_view(*prototype) is Object,
        lives_in(js_view(*prototype), *old(context)),
    ensures
        final(session).follows(*old(session)),
        final(session).attached(*final(context)),
        same_vm(*old(context), *final(context)),
        prepared(*old(context)) && is_workpiece(*old(context), js_view(*prototype)) && spares(
            js_units(name@),
        ) ==> {
            &&& result is Ok
            &&& steady(*old(context), *final(context), js_view(*prototype))
            &&& is_workpiece(*final(context), js_view(*prototype))
            &&& methods_of(*final(context), js_view(*prototype)) =~= methods_of(
                *old(context),
                js_view(*prototype),
            ).insert(js_units(name@))
        },
        replays(
            |j: Seq<Step>, p: nat| define_method_run(js_view(*prototype), name@, native, j, p),
            old(session).journal(),
            final(session).journal(),
            part_of(result),
        ),
{
    let ghost first = *context;
    let function = session.new_function(context, name, 0, native);
    let ghost made = *context;
    let result = put_property(prototype, Key::Name(name), &function, context, session);
    proof {
        if prepared(first) && is_workpiece(first, js_view(*prototype)) && spares(js_units(name@)) {
            lemma_method_added(
                first,
                js_view(function),
                made,
                js_view(*prototype),
                name_key(name@),
                *context,
            );
        }
    }
    result
}

/// Reading a property that has to be an object.
pub open spec fn read_object_run(
    object: JsView,
    name: Seq<char>,
    complaint: Seq<char>,
    j: Seq<Step>,
    p: nat,
) -> Option<(Result<JsView, FailureView>, nat)> {
    match get_reply(j, p, object, name_key(name)) {
        None => None,
        Some(Err(text)) => Some((Err(FailureView::General(text)), p + 1)),
        Some(Ok(found)) => if found is Object {
            Some((Ok(found), p + 1))
        } else {
            Some((Err(FailureView::General(complaint)), p + 1))
        },
    }
}

/// Adding the method that makes an iterator to a prototype.
pub open spec fn define_symbol_iterator_run(
    prototype: JsView,
    native: Native,
    j: Seq<Step>,
    p: nat,
) -> Option<(Result<(), FailureView>, nat)> {
    match function_reply(j, p, "[Symbol.iterator]"@, 0, native) {
        None => None,
        Some(function) => match global_reply(j, p + 1) {
            None => None,
            Some(global) => and_then(
                read_object_run(
                    global,
                    "Symbol"@,
                    "global Symbol is not an object"@,
                    j,
                    p + 2,
                ),
                |constructor: JsView, p: nat|
                    match get_reply(j, p, constructor, name_key("iterator"@)) {
                        None => None,
                        Some(Err(text)) => Some((Err(FailureView::General(text)), p + 1)),
                        Some(Ok(JsView::Symbol(symbol))) => put_run(
                            prototype,
                            KeyView::Symbol(symbol),
                            function,
                            j,
                            p + 1,
                        ),
                        Some(Ok(_)) => Some(
                            (
                                Err(FailureView::General("Symbol.iterator is not a symbol"@)),
                                p + 1,
                            ),
                        ),
                    },
            ),
        },
    }
}

/// Adds the method that makes an iterator to a prototype.
pub fn define_symbol_iterator<H: Fn(Query) -> Answer + Copy + 'static>(
    prototype: &JsValue,
    native: Native,
    context: &mut Context,
    session: &mut Session<H>,
) -> (result: Result<(), JsFailure>)
    requires
        old(session).ready(*old(context)),
        js_view(*prototype) is Object,
        lives_in(js_view(*prototype), *old(context)),
    ensures
        final(session).follows(*old(session)),
        final(session).attached(*final(context)),
        same_vm(*old(context), *final(context)),
        prepared(*old(context)) && is_workpiece(*old(context), js_view(*prototype)) ==> {
            &&& result is Ok
            &&& steady(*old(context), *final(context), js_view(*prototype))
            &&& is_workpiece(*final(context), js_view(*prototype))
            &&& methods_of(*final(context), js_view(*prototype)) =~= methods_of(
                *old(context),
                js_view(*prototype),
            )
        },
        replays(
            |j: Seq<Step>, p: nat| define_symbol_iterator_run(js_view(*prototype), native, j, p),
            old(session).journal(),
            final(session).journal(),
            part_of(result),
        ),
{
    let ghost first = *context;
    let function = session.new_function(context, "[Symbol.iterator]", 0, native);
    let ghost made = *context;
    proof {
        if prepared(first) {
            lemma_steady_function(first, js_view(function), made);
        }
    }
    let global = session.global(context);
    let constructor = match session.get(context, &global, Key::Name("Symbol")) {
        Err(text) => {
            return Err(JsFailure::General(text));
        },
        Ok(constructor) => constructor,
    };
    if kind_of(&constructor) != JsKind::Object {
        return Err(JsFailure::General("global Symbol is not an object".to_owned()));
    }
    let symbol = match session.get(context, &constructor, Key::Name("iterator")) {
        Err(text) => {
            return Err(JsFailure::General(text));
        },
        Ok(symbol) => symbol,
    };
    if kind_of(&symbol) != JsKind::Symbol {
        return Err(JsFailure::General("Symbol.iterator is not a symbol".to_owned()));
    }
    let ghost read = *context;
    let result = put_property(prototype, Key::Value(&symbol), &function, context, session);
    proof {
        if prepared(first) && is_workpiece(first, js_view(*prototype)) {
            assert(js_heap(first).contains_key(object_id(js_view(*prototype))));
            lemma_steady_untouched(made, js_view(*prototype), read);
            lemma_steady_method(
                read,
                js_view(*prototype),
                KeyView::Symbol(js_view(symbol)->Symbol_0),
                js_view(function),
                *context,
            );
        }
    }
    result
}

/// Defining a global.
pub open spec fn define_run(
    name: Seq<char>,
    value: JsView,
    open: bool,
    j: Seq<Step>,
    p: nat,
) -> Option<(Result<(), FailureView>, nat)> {
    match define_reply(j, p, name, value, open) {
        None => None,
        Some(Err(text)) => Some((Err(FailureView::General(text)), p + 1)),
        Some(Ok(())) => Some((Ok(()), p + 1)),
    }
}

/// The reply that a definition gave, by its result.
pub open spec fn defined(result: Result<(), FailureView>) -> Result<(), Seq<char>> {
    match result {
        Ok(()) => Ok(()),
        Err(FailureView::General(text)) => Err(text),
        Err(_) => Err(Seq::empty()),
    }
}

/// Defines a global.
fn define_global<H: Fn(Query) -> Answer + Copy + 'static>(
    name: &str,
    value: &JsValue,
    open: bool,
    context: &mut Context,
    session: &mut Session<H>,
) -> (result: Result<(), JsFailure>)
    requires
        old(session).attached(*old(context)),
        lives_in(js_view(*value), *old(context)),
    ensures
        final(session).follows(*old(session)),
        final(session).attached(*final(context)),
        same_vm(*old(context), *final(context)),
        define_effect(
            *old(context),
            name@,
            js_view(*value),
            open,
            defined(part_of(result)),
            *final(context),
        ),
        replays(
            |j: Seq<Step>, p: nat| define_run(name@, js_view(*value), open, j, p),
            old(session).journal(),
            final(session).journal(),
            part_of(result),
        ),
{
    match session.define(context, name, value, open) {
        Err(text) => Err(JsFailure::General(text)),
        Ok(()) => Ok(()),
    }
}

/// The prototype that a property holds, if it is one that cannot be replaced.
pub open spec fn lasting_prototype(found: Option<PropertyView>) -> Option<JsView> {
    match found {
        Some(property) => match property.value {
            Some(JsView::Object(object)) => if !property.writable && !property.enumerable
                && !property.configurable {
                Some(JsView::Object(object))
            } else {
                None
            },
            _ => None,
        },
        None => None,
    }
}

/// Finding the prototype of reference wrappers that cannot be replaced, or making one where there is
/// none.
pub open spec fn prototype_run(j: Seq<Step>, p: nat) -> Option<(JsView, nat)> {
    match global_reply(j, p) {
        None => None,
        Some(global) => match inspect_reply(j, p + 1, global, PROTOTYPE@) {
            None => None,
            Some(found) => match lasting_prototype(found) {
                Some(prototype) => Some((prototype, p + 2)),
                None => match object_reply(j, p + 2) {
                    None => None,
                    Some(made) => Some((made, p + 3)),
                },
            },
        },
    }
}

/// A constructor was made and given its prototype.
proof fn lemma_class_made(
    before: Context,
    class: JsView,
    made: Context,
    prototype: JsView,
    after: Context,
)
    requires
        prepared(before),
        same_vm(before, made),
        same_vm(made, after),
        prototype is Object,
        function_effect(before, class, made),
        takes(made, class, name_key("prototype"@)) ==> put_effect(
            made,
            class,
            name_key("prototype"@),
            prototype,
            Ok::<bool, Seq<char>>(true),
            after,
        ),
    ensures
        takes(made, class, name_key("prototype"@)),
        steady(before, after, class),
        ordinary(js_heap(after), object_id(class)),
        js_apart(after, class),
        js_vacant(after, class, js_units("ref_set"@)),
        own_data(js_heap(after), class, name_key("prototype"@)) == Some(prototype),
{
    lemma_names_differ();
    lemma_steady_function(before, class, made);
    let symbol = own_data(js_heap(before), js_global(before), name_key("Symbol"@))->0;
    assert(js_heap(before).contains_key(object_id(symbol)));
    assert(js_heap(before).contains_key(object_id(js_global(before))));
    assert(js_vacant(made, class, js_units("prototype"@)));
    assert(js_vacant(made, class, js_units("ref_set"@)));
    lemma_steady_class(made, class, js_units("prototype"@), prototype, after);
    assert(data_of(js_heap(made), class).insert(js_units("prototype"@), prototype).contains_key(
        js_units("prototype"@),
    ));
}

/// The static setter was made and given to the constructor of references.
proof fn lemma_setter_added(
    before: Context,
    class: JsView,
    prototype: JsView,
    function: JsView,
    made: Context,
    after: Context,
)
    requires
        prepared(before),
        same_vm(before, made),
        same_vm(made, after),
        prototype is Object,
        class is Object,
        js_apart(before, class),
        ordinary(js_heap(before), object_id(class)),
        object_id(class) != object_id(js_global(before)),
        own_data(js_heap(before), js_global(before), name_key("Symbol"@)) matches Some(symbol)
            ==> object_id(symbol) != object_id(class),
        js_vacant(before, class, js_units("ref_set"@)),
        own_data(js_heap(before), class, name_key("prototype"@)) == Some(prototype),
        function_effect(before, function, made),
        takes(made, class, name_key("ref_set"@)) ==> put_effect(
            made,
            class,
            name_key("ref_set"@),
            function,
            Ok::<bool, Seq<char>>(true),
            after,
        ),
    ensures
        takes(made, class, name_key("ref_set"@)),
        steady(before, after, class),
        own_data(js_heap(after), class, name_key("prototype"@)) == Some(prototype),
{
    lemma_names_differ();
    lemma_steady_function(before, function, made);
    lemma_steady_class(made, class, js_units("ref_set"@), function, after);
    let key = js_units("prototype"@);
    assert(data_of(js_heap(made), class).insert(js_units("ref_set"@), function).contains_key(key));
}

/// The constructor of references and the prototype of wrappers were defined.
proof fn lemma_reference_defined(
    before: Context,
    ready: Context,
    class: JsView,
    prototype: JsView,
    named: Context,
    after: Context,
)
    requires
        prepared(before),
        is_workpiece(before, prototype),
        has_methods(before, prototype),
        steady(before, ready, class),
        runs_native(class, "ReflectReference"@, Native::ReferenceConstructor),
        !js_heap(before).contains_key(object_id(class)),
        own_data(js_heap(ready), class, name_key("prototype"@)) == Some(prototype),
        same_vm(ready, named),
        define_effect(ready, "ReflectReference"@, class, true, Ok::<(), Seq<char>>(()), named),
        same_vm(named, after),
        define_effect(named, PROTOTYPE@, prototype, false, Ok::<(), Seq<char>>(()), after),
    ensures
        installs_reference(before, after, class, prototype),
{
    lemma_names_differ();
    assert(js_heap(before).contains_key(object_id(prototype)));
    assert(js_heap(before).contains_key(object_id(js_global(before))));
    lemma_define_prepared(ready, "ReflectReference"@, class, true, named);
    assert(js_heap(ready).contains_key(object_id(prototype)));
    assert(is_workpiece(named, prototype));
    lemma_define_prepared(named, PROTOTYPE@, prototype, false, after);
    let name = js_units("ReflectReference"@);
    let one = global_data(before).insert(name, class);
    let place = js_units(PROTOTYPE@);
    assert(alike_data(one, global_data(named)));
    let between = global_data(named).insert(place, prototype);
    lemma_alike_data_through(one, global_data(named), global_data(after), place, prototype);
    assert(between.contains_key(name));
    assert(js_heap(ready).contains_key(object_id(prototype)));
    assert(js_heap(named).contains_key(object_id(prototype)));
}

/// The prototype of reference wrappers, which a virtual machine has only one of.
fn ensure_prototype<H: Fn(Query) -> Answer + Copy + 'static>(
    context: &mut Context,
    session: &mut Session<H>,
) -> (prototype: JsValue)
    requires
        old(session).attached(*old(context)),
    ensures
        lives_in(js_view(prototype), *final(context)),
        final(session).follows(*old(session)),
        final(session).attached(*final(context)),
        same_vm(*old(context), *final(context)),
        js_view(prototype) is Object,
        prepared(*old(context)) ==> {
            &&& steady(*old(context), *final(context), js_view(prototype))
            &&& is_workpiece(*final(context), js_view(prototype))
            &&& placeable(*old(context)) ==> can_place(*final(context), js_view(prototype))
        },
        replays(
            |j: Seq<Step>, p: nat| prototype_run(j, p),
            old(session).journal(),
            final(session).journal(),
            js_view(prototype),
        ),
{
    let ghost first = *context;
    let global = session.global(context);
    let found = session.inspect(context, &global, PROTOTYPE);
    let ghost view = property_view(found);
    if let Some(property) = found {
        if let Some(value) = property.value {
            if !property.writable && !property.enumerable && !property.configurable && kind_of(
                &value,
            ) == JsKind::Object {
                proof {
                    assert(is_closed(view, js_view(value)));
                    assert(holds_closed(first, js_units(PROTOTYPE@), js_view(value)));
                }
                return value;
            }
        }
    }
    let made = session.new_object(context);
    proof {
        if prepared(first) {
            lemma_steady_object(
                first,
                js_view(made),
                object_node(Map::empty(), true, true),
                *context,
            );
            assert forall|prototype: JsView| prototype is Object implies !(#[trigger] holds_closed(
                first,
                js_units(PROTOTYPE@),
                prototype,
            )) by {
                if holds_closed(first, js_units(PROTOTYPE@), prototype) {
                    assert(is_closed(view, prototype));
                }
            }
            assert(js_heap(first).contains_key(object_id(js_global(first))));
            let key = js_units(PROTOTYPE@);
            if js_admits(first, key, js_view(made), false) {
                assert(js_admits(*context, key, js_view(made), false));
            }
        }
    }
    made
}

/// Adding the methods of references to a prototype.
#[verifier::opaque]
pub open spec fn reference_methods_run(prototype: JsView, j: Seq<Step>, p: nat) -> Option<
    (Result<(), FailureView>, nat),
> {
    and_then(
        define_method_run(prototype, "get"@, Native::Get, j, p),
        |unit: (), p: nat|
            and_then(
                define_method_run(prototype, "set"@, Native::Put, j, p),
                |unit: (), p: nat|
                    and_then(
                        define_method_run(prototype, "call"@, Native::Call, j, p),
                        |unit: (), p: nat|
                            and_then(
                                define_method_run(prototype, "method"@, Native::Method, j, p),
                                |unit: (), p: nat|
                                    and_then(
                                        define_method_run(prototype, "len"@, Native::Len, j, p),
                                        |unit: (), p: nat|
                                            and_then(
                                                define_method_run(
                                                    prototype,
                                                    "toString"@,
                                                    Native::Text,
                                                    j,
                                                    p,
                                                ),
                                                |unit: (), p: nat|
                                                    define_symbol_iterator_run(
                                                        prototype,
                                                        Native::Iterator,
                                                        j,
                                                        p,
                                                    ),
                                            ),
                                    ),
                            ),
                    ),
            ),
    )
}

/// Adds the methods of references to a prototype.
fn define_reference_methods<H: Fn(Query) -> Answer + Copy + 'static>(
    prototype: &JsValue,
    context: &mut Context,
    session: &mut Session<H>,
) -> (result: Result<(), JsFailure>)
    requires
        old(session).ready(*old(context)),
        js_view(*prototype) is Object,
        lives_in(js_view(*prototype), *old(context)),
    ensures
        final(session).follows(*old(session)),
        final(session).attached(*final(context)),
        same_vm(*old(context), *final(context)),
        prepared(*old(context)) && is_workpiece(*old(context), js_view(*prototype)) ==> {
            &&& result is Ok
            &&& steady(*old(context), *final(context), js_view(*prototype))
            &&& is_workpiece(*final(context), js_view(*prototype))
            &&& has_methods(*final(context), js_view(*prototype))
        },
        replays(
            |j: Seq<Step>, p: nat| reference_methods_run(js_view(*prototype), j, p),
            old(session).journal(),
            final(session).journal(),
            part_of(result),
        ),
{
    proof {
        reveal(reference_methods_run);
        lemma_names_differ();
    }
    define_method(prototype, "get", Native::Get, context, session)?;
    define_method(prototype, "set", Native::Put, context, session)?;
    define_method(prototype, "call", Native::Call, context, session)?;
    define_method(prototype, "method", Native::Method, context, session)?;
    define_method(prototype, "len", Native::Len, context, session)?;
    define_method(prototype, "toString", Native::Text, context, session)?;
    define_symbol_iterator(prototype, Native::Iterator, context, session)
}

/// Making the constructor of references, and defining it and the prototype on the global object.
#[verifier::opaque]
pub open spec fn reference_constructor_run(prototype: JsView, j: Seq<Step>, p: nat) -> Option<
    (Result<(), FailureView>, nat),
> {
    match function_reply(j, p, "ReflectReference"@, 0, Native::ReferenceConstructor) {
        None => None,
        Some(constructor) => and_then(
            put_run(constructor, name_key("prototype"@), prototype, j, p + 1),
            |unit: (), p: nat|
                and_then(
                    static_set_run(constructor, j, p),
                    |unit: (), p: nat|
                        and_then(
                            define_run("ReflectReference"@, constructor, true, j, p),
                            |unit: (), p: nat| define_run(PROTOTYPE@, prototype, false, j, p),
                        ),
                ),
        ),
    }
}

/// Installing the class of references.
#[verifier::opaque]
pub open spec fn install_reference_run(j: Seq<Step>, p: nat) -> Option<
    (Result<(), FailureView>, nat),
> {
    match prototype_run(j, p) {
        None => None,
        Some((prototype, p)) => and_then(
            reference_methods_run(prototype, j, p),
            |unit: (), p: nat| reference_constructor_run(prototype, j, p),
        ),
    }
}

/// Adding `ref_set` to the constructor of references.
pub open spec fn static_set_run(constructor: JsView, j: Seq<Step>, p: nat) -> Option<
    (Result<(), FailureView>, nat),
> {
    match function_reply(j, p, "ref_set"@, 3, Native::StaticSet) {
        None => None,
        Some(function) => put_run(constructor, name_key("ref_set"@), function, j, p + 1),
    }
}

/// The result of an installation as contracts see it.
pub open spec fn installed(result: Result<(), JsError>) -> Result<(), FailureView> {
    match result {
        Ok(()) => Ok(()),
        Err(error) => Err(js_failure(error)),
    }
}

/// Makes the constructor of references, and defines it and the prototype on the global object.
fn define_reference_constructor<H: Fn(Query) -> Answer + Copy + 'static>(
    prototype: &JsValue,
    context: &mut Context,
    session: &mut Session<H>,
) -> (result: Result<(), JsFailure>)
    requires
        old(session).ready(*old(context)),
        js_view(*prototype) is Object,
        lives_in(js_view(*prototype), *old(context)),
    ensures
        final(session).follows(*old(session)),
        final(session).attached(*final(context)),
        same_vm(*old(context), *final(context)),
        prepared(*old(context)) && is_workpiece(*old(context), js_view(*prototype)) && has_methods(
            *old(context),
            js_view(*prototype),
        ) ==> {
            &&& can_define(*old(context), "ReflectReference"@) && can_place(
                *old(context),
                js_view(*prototype),
            ) ==> result is Ok
            &&& result is Ok ==> exists|class: JsView| #[trigger]
                installs_reference(*old(context), *final(context), class, js_view(*prototype))
        },
        replays(
            |j: Seq<Step>, p: nat| reference_constructor_run(js_view(*prototype), j, p),
            old(session).journal(),
            final(session).journal(),
            part_of(result),
        ),
{
    proof {
        reveal(reference_constructor_run);
    }
    let ghost first = *context;
    let constructor = session.new_function(
        context,
        "ReflectReference",
        0,
        Native::ReferenceConstructor,
    );
    let ghost made = *context;
    let put = put_property(&constructor, Key::Name("prototype"), prototype, context, session);
    let ghost with_prototype = *context;
    proof {
        if prepared(first) && is_workpiece(first, js_view(*prototype)) {
            lemma_class_made(
                first,
                js_view(constructor),
                made,
                js_view(*prototype),
                with_prototype,
            );
        }
    }
    put?;
    let function = session.new_function(context, "ref_set", 3, Native::StaticSet);
    let ghost with_function = *context;
    let put = put_property(&constructor, Key::Name("ref_set"), &function, context, session);
    let ghost with_set = *context;
    proof {
        if prepared(first) && is_workpiece(first, js_view(*prototype)) {
            lemma_setter_added(
                with_prototype,
                js_view(constructor),
                js_view(*prototype),
                js_view(function),
                with_function,
                with_set,
            );
        }
    }
    put?;
    let ghost ready = prepared(first) && is_workpiece(first, js_view(*prototype)) && has_methods(
        first,
        js_view(*prototype),
    );
    let ghost steady_so_far = steady(first, with_set, js_view(constructor)) && !js_heap(
        first,
    ).contains_key(object_id(js_view(constructor))) && own_data(
        js_heap(with_set),
        js_view(constructor),
        name_key("prototype"@),
    ) == Some(js_view(*prototype));
    assert(ready ==> steady_so_far);
    define_global("ReflectReference", &constructor, true, context, session)?;
    let ghost named = *context;
    proof {
        if ready {
            lemma_names_differ();
            lemma_define_prepared(
                with_set,
                "ReflectReference"@,
                js_view(constructor),
                true,
                named,
            );
        }
    }
    let result = define_global(PROTOTYPE, prototype, false, context, session);
    proof {
        if ready && result is Ok {
            lemma_reference_defined(
                first,
                with_set,
                js_view(constructor),
                js_view(*prototype),
                named,
                *context,
            );
        }
    }
    result
}

/// Installs the class of references.
fn install_reference<H: Fn(Query) -> Answer + Copy + 'static>(
    context: &mut Context,
    session: &mut Session<H>,
) -> (result: Result<(), JsFailure>)
    requires
        old(session).ready(*old(context)),
    ensures
        final(session).follows(*old(session)),
        final(session).attached(*final(context)),
        same_vm(*old(context), *final(context)),
        registrable(*old(context)) ==> result is Ok,
        prepared(*old(context)) && result is Ok ==> exists|class: JsView, prototype: JsView|
            #[trigger] installs_reference(*old(context), *final(context), class, prototype),
        replays(
            |j: Seq<Step>, p: nat| install_reference_run(j, p),
            old(session).journal(),
            final(session).journal(),
            part_of(result),
        ),
{
    proof {
        reveal(install_reference_run);
    }
    let ghost first = *context;
    let prototype = ensure_prototype(context, session);
    define_reference_methods(&prototype, context, session)?;
    let ghost ready = *context;
    let result = define_reference_constructor(&prototype, context, session);
    proof {
        if prepared(first) && result is Ok {
            let class = choose|class: JsView| #[trigger]
                installs_reference(ready, *context, class, js_view(prototype));
            assert(installs_reference(first, *context, class, js_view(prototype)));
        }
    }
    result
}

/// The constructor of type tokens was defined.
proof fn lemma_token_defined(
    before: Context,
    with_methods: Context,
    ready: Context,
    class: JsView,
    prototype: JsView,
    after: Context,
)
    requires
        prepared(before),
        steady(before, with_methods, prototype),
        !js_heap(before).contains_key(object_id(prototype)),
        is_workpiece(with_methods, prototype),
        methods_of(with_methods, prototype) =~= Set::empty().insert(js_units("fn"@)).insert(
            js_units("call"@),
        ),
        steady(with_methods, ready, class),
        runs_native(class, "StaticReflectReference"@, Native::TokenConstructor),
        !js_heap(with_methods).contains_key(object_id(class)),
        own_data(js_heap(ready), class, name_key("prototype"@)) == Some(prototype),
        same_vm(ready, after),
        define_effect(ready, "StaticReflectReference"@, class, true, Ok::<(), Seq<char>>(()), after),
    ensures
        installs_token(before, after, class, prototype),
{
    lemma_names_differ();
    assert(js_heap(before).contains_key(object_id(js_global(before))));
    assert(js_heap(with_methods).contains_key(object_id(js_global(before))));
    assert(js_heap(with_methods).contains_key(object_id(prototype)));
    lemma_define_prepared(ready, "StaticReflectReference"@, class, true, after);
}

/// Installing the class of type tokens.
#[verifier::opaque]
pub open spec fn install_token_run(j: Seq<Step>, p: nat) -> Option<(Result<(), FailureView>, nat)> {
    match object_reply(j, p) {
        None => None,
        Some(prototype) => and_then(
            define_method_run(prototype, "fn"@, Native::TokenFn, j, p + 1),
            |unit: (), p: nat|
                and_then(
                    define_method_run(prototype, "call"@, Native::TokenCall, j, p),
                    |unit: (), p: nat|
                        match function_reply(
                            j,
                            p,
                            "StaticReflectReference"@,
                            0,
                            Native::TokenConstructor,
                        ) {
                            None => None,
                            Some(constructor) => and_then(
                                put_run(constructor, name_key("prototype"@), prototype, j, p + 1),
                                |unit: (), p: nat|
                                    define_run("StaticReflectReference"@, constructor, true, j, p),
                            ),
                        },
                ),
        ),
    }
}

/// Installs the class of type tokens.
fn install_token<H: Fn(Query) -> Answer + Copy + 'static>(
    context: &mut Context,
    session: &mut Session<H>,
) -> (result: Result<(), JsFailure>)
    requires
        old(session).ready(*old(context)),
    ensures
        final(session).follows(*old(session)),
        final(session).attached(*final(context)),
        same_vm(*old(context), *final(context)),
        prepared(*old(context)) && can_define(*old(context), "StaticReflectReference"@) ==> result is Ok,
        prepared(*old(context)) && result is Ok ==> exists|class: JsView, prototype: JsView|
            #[trigger] installs_token(*old(context), *final(context), class, prototype),
        replays(
            |j: Seq<Step>, p: nat| install_token_run(j, p),
            old(session).journal(),
            final(session).journal(),
            part_of(result),
        ),
{
    proof {
        reveal(install_token_run);
    }
    proof {
        lemma_names_differ();
    }
    let ghost first = *context;
    let prototype = session.new_object(context);
    let ghost with_object = *context;
    proof {
        if prepared(first) {
            lemma_steady_object(
                first,
                js_view(prototype),
                object_node(Map::empty(), true, true),
                with_object,
            );
            assert(js_heap(first).contains_key(object_id(js_global(first))));
        }
    }
    define_method(&prototype, "fn", Native::TokenFn, context, session)?;
    define_method(&prototype, "call", Native::TokenCall, context, session)?;
    let ghost with_methods = *context;
    let constructor = session.new_function(
        context,
        "StaticReflectReference",
        0,
        Native::TokenConstructor,
    );
    let ghost made = *context;
    let put = put_property(&constructor, Key::Name("prototype"), &prototype, context, session);
    let ghost ready = *context;
    proof {
        if prepared(first) {
            lemma_class_made(
                with_methods,
                js_view(constructor),
                made,
                js_view(prototype),
                ready,
            );
        }
    }
    put?;
    let result = define_global("StaticReflectReference", &constructor, true, context, session);
    proof {
        if prepared(first) && result is Ok {
            lemma_token_defined(
                first,
                with_methods,
                ready,
                js_view(constructor),
                js_view(prototype),
                *context,
            );
        }
    }
    result
}

impl JsReflectReference {
    /// Installs the `ReflectReference` constructor and its prototype on `globalThis`.
    ///
    /// It can be installed again: the prototype that wrappers have stays the same.
    pub fn install_class<H: Fn(Query) -> Answer + Copy + 'static>(
        context: &mut Context,
        session: &mut Session<H>,
    ) -> (result: Result<(), JsError>)
        requires
            old(session).ready(*old(context)),
        ensures
            final(session).follows(*old(session)),
            final(session).attached(*final(context)),
            same_vm(*old(context), *final(context)),
            result matches Err(error) ==> !(js_failure(error) is Other) && js_thrown(error) is None,
            registrable(*old(context)) ==> result is Ok,
            prepared(*old(context)) && result is Ok ==> exists|class: JsView, prototype: JsView|
                #[trigger] installs_reference(*old(context), *final(context), class, prototype),
            replays(
                |j: Seq<Step>, p: nat| install_reference_run(j, p),
                old(session).journal(),
                final(session).journal(),
                installed(result),
            ),
    {
        match install_reference(context, session) {
            Ok(()) => Ok(()),
            Err(failure) => Err(raise(failure)),
        }
    }
}

impl JsStaticReflectReference {
    /// Installs the `StaticReflectReference` constructor and its prototype on `globalThis`.
    pub fn install_class<H: Fn(Query) -> Answer + Copy + 'static>(
        context: &mut Context,
        session: &mut Session<H>,
    ) -> (result: Result<(), JsError>)
        requires
            old(session).ready(*old(context)),
        ensures
            final(session).follows(*old(session)),
            final(session).attached(*final(context)),
            same_vm(*old(context), *final(context)),
            result matches Err(error) ==> !(js_failure(error) is Other) && js_thrown(error) is None,
            prepared(*old(context)) && can_define(*old(context), "StaticReflectReference"@)
                ==> result is Ok,
            prepared(*old(context)) && result is Ok ==> exists|class: JsView, prototype: JsView|
                #[trigger] installs_token(*old(context), *final(context), class, prototype),
            replays(
                |j: Seq<Step>, p: nat| install_token_run(j, p),
                old(session).journal(),
                final(session).journal(),
                installed(result),
            ),
    {
        match install_token(context, session) {
            Ok(()) => Ok(()),
            Err(failure) => Err(raise(failure)),
        }
    }
}

/// Installing the class of references never goes back in the journal.
pub proof fn lemma_install_reference_goes_on(j: Seq<Step>, p: nat)
    ensures
        install_reference_run(j, p) matches Some((_, q)) ==> p <= q,
{
    reveal(install_reference_run);
    reveal(reference_methods_run);
    reveal(reference_constructor_run);
}

/// Installing the class of type tokens never goes back in the journal.
pub proof fn lemma_install_token_goes_on(j: Seq<Step>, p: nat)
    ensures
        install_token_run(j, p) matches Some((_, q)) ==> p <= q,
{
    reveal(install_token_run);
}

/// Two steps gave a prototype a method that runs a native function.
pub open spec fn adds_method(
    j: Seq<Step>,
    at: nat,
    prototype: JsView,
    name: Seq<char>,
    native: Native,
) -> bool {
    function_reply(j, at, name, 0, native) matches Some(function) && put_reply(
        j,
        at + 1,
        prototype,
        name_key(name),
        function,
    ) matches Some(Ok(_))
}

/// Between two positions, a prototype got a method that runs a native function.
pub open spec fn has_method(
    j: Seq<Step>,
    p: nat,
    q: nat,
    prototype: JsView,
    name: Seq<char>,
    native: Native,
) -> bool {
    exists|at: nat| p <= at && at + 1 < q && #[trigger] adds_method(j, at, prototype, name, native)
}

/// Steps gave a prototype the method that makes an iterator.
pub open spec fn adds_iterator(j: Seq<Step>, at: nat, prototype: JsView, symbol: nat) -> bool {
    function_reply(j, at, "[Symbol.iterator]"@, 0, Native::Iterator) matches Some(function)
        && put_reply(j, at + 4, prototype, KeyView::Symbol(symbol), function) matches Some(Ok(_))
}

/// Between two positions, a prototype got the method that makes an iterator.
pub open spec fn has_iterator(j: Seq<Step>, p: nat, q: nat, prototype: JsView) -> bool {
    exists|at: nat, symbol: nat|
        p <= at && at + 4 < q && #[trigger] adds_iterator(j, at, prototype, symbol)
}

/// When the class of references is installed, the prototype of wrappers has the methods by which
/// scripts use host values, and the virtual machine keeps it for the wrappers to come.
pub proof fn law_references_have_methods(j: Seq<Step>, p: nat, q: nat)
    requires
        install_reference_run(j, p) == Some((Ok::<(), FailureView>(()), q)),
    ensures
        prototype_run(j, p) matches Some((prototype, from)) && {
            &&& has_method(j, from, q, prototype, "get"@, Native::Get)
            &&& has_method(j, from, q, prototype, "set"@, Native::Put)
            &&& has_method(j, from, q, prototype, "call"@, Native::Call)
            &&& has_method(j, from, q, prototype, "method"@, Native::Method)
            &&& has_method(j, from, q, prototype, "len"@, Native::Len)
            &&& has_method(j, from, q, prototype, "toString"@, Native::Text)
            &&& has_iterator(j, from, q, prototype)
            &&& define_reply(j, (q - 1) as nat, PROTOTYPE@, prototype, false) matches Some(Ok(_))
        },
{
    reveal(install_reference_run);
    reveal(reference_methods_run);
    reveal(reference_constructor_run);
    let (prototype, from) = prototype_run(j, p)->Some_0;
    assert(adds_method(j, from, prototype, "get"@, Native::Get));
    assert(adds_method(j, from + 2, prototype, "set"@, Native::Put));
    assert(adds_method(j, from + 4, prototype, "call"@, Native::Call));
    assert(adds_method(j, from + 6, prototype, "method"@, Native::Method));
    assert(adds_method(j, from + 8, prototype, "len"@, Native::Len));
    assert(adds_method(j, from + 10, prototype, "toString"@, Native::Text));
    let global = global_reply(j, from + 13)->Some_0;
    let constructor = get_reply(j, from + 14, global, name_key("Symbol"@))->Some_0->Ok_0;
    let symbol = get_reply(j, from + 15, constructor, name_key("iterator"@))->Some_0->Ok_0->Symbol_0;
    assert(adds_iterator(j, from + 12, prototype, symbol));
}

/// When the class of type tokens is installed, its prototype has the methods by which scripts use
/// types.
pub proof fn law_tokens_have_methods(j: Seq<Step>, p: nat, q: nat)
    requires
        install_token_run(j, p) == Some((Ok::<(), FailureView>(()), q)),
    ensures
        object_reply(j, p) matches Some(prototype) && {
            &&& has_method(j, p, q, prototype, "fn"@, Native::TokenFn)
            &&& has_method(j, p, q, prototype, "call"@, Native::TokenCall)
        },
{
    reveal(install_token_run);
    let prototype = object_reply(j, p)->Some_0;
    assert(adds_method(j, p + 1, prototype, "fn"@, Native::TokenFn));
    assert(adds_method(j, p + 3, prototype, "call"@, Native::TokenCall));
}

} // verus!
