//! Virtual machines in which the bindings can install their classes, and what becomes of them.
use crate::data::{holds_prototype, seals_prototype, PROTOTYPE};
use crate::engine::{
    alike_data, calm, holds_closed, js_admits, js_apart, js_function_prototype, js_global, js_heap,
    js_pristine, js_units, js_vacant, law_units_are_injective, lemma_alike_data_through, quiet,
    untouched, JsNode, JsView,
};
use crate::native::Native;
use crate::session::{
    bare_properties, data_of, define_effect, fresh, function_effect, grows, has_symbols,
    is_own_name, js_native_of, lemma_sets, name_key, names_function, object_id, ordinary,
    ordinary_global, own_data, put_effect, same_vm, sets, KeyView,
};
use boa_engine::Context;
use vstd::prelude::*;

verus! {

/// The own data properties of the global object.
pub open spec fn global_data(context: Context) -> Map<Seq<u16>, JsView> {
    data_of(js_heap(context), js_global(context))
}

/// The global object can get an open global under a name.
pub open spec fn can_define(context: Context, name: Seq<char>) -> bool {
    ||| js_vacant(context, js_global(context), js_units(name))
    ||| forall|value: JsView| #[trigger] js_admits(context, js_units(name), value, true)
}

/// The global object can get a prototype for wrappers of host values, or has that one.
pub open spec fn can_place(context: Context, prototype: JsView) -> bool {
    ||| js_vacant(context, js_global(context), js_units(PROTOTYPE@))
    ||| js_admits(context, js_units(PROTOTYPE@), prototype, false)
}

/// A prototype for wrappers that the global object could get, it still can get.
pub open spec fn keeps_place(before: Context, after: Context) -> bool {
    let key = js_units(PROTOTYPE@);
    &&& js_vacant(before, js_global(before), key) ==> js_vacant(after, js_global(after), key)
    &&& forall|prototype: JsView| #[trigger]
        js_admits(before, key, prototype, false) ==> js_admits(after, key, prototype, false)
}

/// The classes that the global object could get, it still can get.
pub open spec fn keeps_names(before: Context, after: Context) -> bool {
    &&& can_define(before, "ReflectReference"@) ==> can_define(after, "ReflectReference"@)
    &&& can_define(before, "StaticReflectReference"@) ==> can_define(
        after,
        "StaticReflectReference"@,
    )
    &&& can_define(before, "ReflectRef"@) ==> can_define(after, "ReflectRef"@)
}

/// A prototype takes methods, and is not the global object.
pub open spec fn is_workpiece(context: Context, prototype: JsView) -> bool {
    &&& bare_properties(js_heap(context), prototype) is Some
    &&& object_id(prototype) != object_id(js_global(context))
}

/// Installing the classes runs no code of a script: the global object is ordinary, `Symbol` is that of
/// the engine, functions inherit neither a `prototype` nor a `ref_set`, and a prototype for wrappers
/// that cannot be replaced takes methods.
pub open spec fn prepared(context: Context) -> bool {
    &&& js_global(context) is Object
    &&& ordinary_global(context)
    &&& has_symbols(context)
    &&& js_vacant(context, js_function_prototype(context), js_units("prototype"@))
    &&& js_vacant(context, js_function_prototype(context), js_units("ref_set"@))
    &&& forall|prototype: JsView|
        prototype is Object && #[trigger] holds_closed(context, js_units(PROTOTYPE@), prototype)
            ==> is_workpiece(context, prototype)
}

/// The global object can get any prototype for wrappers, or has one that cannot be replaced.
pub open spec fn placeable(context: Context) -> bool {
    let key = js_units(PROTOTYPE@);
    ||| js_vacant(context, js_global(context), key)
    ||| forall|prototype: JsView| #[trigger] js_admits(context, key, prototype, false)
    ||| exists|prototype: JsView|
        prototype is Object && #[trigger] holds_closed(context, key, prototype)
}

/// A virtual machine can get the classes of the bindings.
pub open spec fn registrable(context: Context) -> bool {
    &&& prepared(context)
    &&& can_define(context, "ReflectReference"@)
    &&& can_define(context, "StaticReflectReference"@)
    &&& can_define(context, "ReflectRef"@)
    &&& placeable(context)
}

/// A fresh virtual machine can get the classes.
pub proof fn lemma_fresh_is_registrable(context: Context)
    requires
        fresh(context),
    ensures
        registrable(context),
{
    assert(is_own_name(PROTOTYPE@));
    assert(is_own_name("ReflectReference"@));
    assert(is_own_name("StaticReflectReference"@));
    assert(is_own_name("ReflectRef"@));
}

/// A key is none of those that the classes are about.
pub open spec fn spares(key: Seq<u16>) -> bool {
    &&& key != js_units("prototype"@)
    &&& key != js_units("ref_set"@)
    &&& key != js_units("ReflectReference"@)
    &&& key != js_units("StaticReflectReference"@)
    &&& key != js_units("ReflectRef"@)
    &&& key != js_units(PROTOTYPE@)
}

/// The names that the classes are about tell apart.
pub proof fn lemma_names_differ()
    ensures
        js_units("prototype"@) != js_units("ref_set"@),
        js_units("prototype"@) != js_units("ReflectReference"@),
        js_units("prototype"@) != js_units("StaticReflectReference"@),
        js_units("prototype"@) != js_units("ReflectRef"@),
        js_units("prototype"@) != js_units(PROTOTYPE@),
        js_units("ref_set"@) != js_units("ReflectReference"@),
        js_units("ref_set"@) != js_units("StaticReflectReference"@),
        js_units("ref_set"@) != js_units("ReflectRef"@),
        js_units("ref_set"@) != js_units(PROTOTYPE@),
        !names_function(js_units("prototype"@)),
        !names_function(js_units("ref_set"@)),
        spares(js_units("get"@)),
        spares(js_units("set"@)),
        spares(js_units("call"@)),
        spares(js_units("method"@)),
        spares(js_units("len"@)),
        spares(js_units("toString"@)),
        spares(js_units("fn"@)),
        js_units("fn"@) != js_units("call"@),
        js_units("Symbol"@) != js_units("ReflectReference"@),
        js_units("Symbol"@) != js_units("StaticReflectReference"@),
        js_units("Symbol"@) != js_units("ReflectRef"@),
        js_units("Symbol"@) != js_units(PROTOTYPE@),
        js_units("ReflectReference"@) != js_units("StaticReflectReference"@),
        js_units("ReflectReference"@) != js_units("ReflectRef"@),
        js_units("ReflectReference"@) != js_units(PROTOTYPE@),
        js_units("StaticReflectReference"@) != js_units("ReflectRef"@),
        js_units("StaticReflectReference"@) != js_units(PROTOTYPE@),
        js_units("ReflectRef"@) != js_units(PROTOTYPE@),
{
    reveal_strlit("prototype");
    reveal_strlit("ref_set");
    reveal_strlit("length");
    reveal_strlit("name");
    reveal_strlit("get");
    reveal_strlit("set");
    reveal_strlit("call");
    reveal_strlit("method");
    reveal_strlit("len");
    reveal_strlit("toString");
    reveal_strlit("fn");
    reveal_strlit("Symbol");
    reveal_strlit("ReflectReference");
    reveal_strlit("StaticReflectReference");
    reveal_strlit("ReflectRef");
    reveal_strlit("__bms_rr_proto");
    assert("ref_set"@[0] != "prototype"@[0]);
    assert("get"@[0] != "set"@[0] && "get"@[0] != "len"@[0] && "set"@[0] != "len"@[0]);
    assert("call"@[0] != "name"@[0]);
    assert("method"@[0] != "Symbol"@[0]);
    assert("method"@[0] != "length"@[0]);
    assert("toString"@.len() == 8 && "prototype"@.len() == 9 && "ref_set"@.len() == 7);
    assert("fn"@.len() == 2 && "ReflectReference"@.len() == 16 && "ReflectRef"@.len() == 10);
    assert("StaticReflectReference"@.len() == 22 && PROTOTYPE@.len() == 14);
    assert forall|one: Seq<char>, other: Seq<char>| one != other implies #[trigger] js_units(one)
        != #[trigger] js_units(other) by {
        if js_units(one) == js_units(other) {
            law_units_are_injective(one, other);
        }
    }
}

/// The prototype for wrappers that could not be replaced before or after is the same.
pub open spec fn keeps_closed(before: Context, after: Context) -> bool {
    forall|prototype: JsView|
        #![trigger holds_closed(before, js_units(PROTOTYPE@), prototype)]
        #![trigger holds_closed(after, js_units(PROTOTYPE@), prototype)]
        prototype is Object ==> holds_closed(before, js_units(PROTOTYPE@), prototype)
            == holds_closed(after, js_units(PROTOTYPE@), prototype)
}

/// Nothing of a script runs, only one object other than the global one changes, and the virtual
/// machine can still get what it could get.
pub open spec fn steady(before: Context, after: Context, object: JsView) -> bool {
    &&& same_vm(before, after)
    &&& quiet(before, after)
    &&& prepared(after)
    &&& keeps_place(before, after)
    &&& keeps_names(before, after)
    &&& keeps_closed(before, after)
    &&& global_data(after) == global_data(before)
    &&& forall|id: nat| #[trigger]
        js_heap(before).contains_key(id) && id != object_id(object) ==> js_heap(after).contains_key(
            id,
        ) && js_heap(after)[id] == js_heap(before)[id]
}

/// What a virtual machine can get, it can get after something that is not about it.
proof fn lemma_calm_prepared(before: Context, after: Context, key: Option<Seq<u16>>)
    requires
        calm(before, after, key),
        key matches Some(own) ==> own != js_units("ReflectReference"@) && own != js_units(
            "StaticReflectReference"@,
        ) && own != js_units("ReflectRef"@) && own != js_units(PROTOTYPE@),
    ensures
        keeps_names(before, after),
        keeps_closed(before, after),
        keeps_place(before, after),
{
    lemma_can_define(before, after, key, "ReflectReference"@);
    lemma_can_define(before, after, key, "StaticReflectReference"@);
    lemma_can_define(before, after, key, "ReflectRef"@);
}

/// A global that a virtual machine can get, it can get after something that is not about it.
proof fn lemma_can_define(
    before: Context,
    after: Context,
    key: Option<Seq<u16>>,
    name: Seq<char>,
)
    requires
        calm(before, after, key),
        key != Some(js_units(name)),
    ensures
        can_define(before, name) ==> can_define(after, name),
{
    if can_define(before, name) && !js_vacant(before, js_global(before), js_units(name)) {
        assert forall|value: JsView| #[trigger] js_admits(after, js_units(name), value, true) by {
            assert(js_admits(before, js_units(name), value, true));
        }
    }
}

/// Where nothing changes, the rest is as it was.
pub proof fn lemma_steady_untouched(before: Context, object: JsView, after: Context)
    requires
        prepared(before),
        same_vm(before, after),
        untouched(before, after),
    ensures
        steady(before, after, object),
{
    lemma_calm_prepared(before, after, None);
}

/// Making an object leaves the rest as it was.
pub proof fn lemma_steady_object(before: Context, made: JsView, node: JsNode, after: Context)
    requires
        prepared(before),
        same_vm(before, after),
        !js_heap(before).contains_key(object_id(made)),
        grows(before, made, node, after),
    ensures
        steady(before, after, made),
{
    lemma_calm_prepared(before, after, None);
    let global = js_global(before);
    assert(js_heap(before).contains_key(object_id(global)));
    let symbol = own_data(js_heap(before), global, name_key("Symbol"@))->0;
    assert(js_heap(before).contains_key(object_id(symbol)));
}

/// Making a function leaves the rest as it was.
pub proof fn lemma_steady_function(before: Context, made: JsView, after: Context)
    requires
        prepared(before),
        same_vm(before, after),
        function_effect(before, made, after),
    ensures
        steady(before, after, made),
{
    lemma_calm_prepared(before, after, None);
    let global = js_global(before);
    assert(js_heap(before).contains_key(object_id(global)));
    let symbol = own_data(js_heap(before), global, name_key("Symbol"@))->0;
    assert(js_heap(before).contains_key(object_id(symbol)));
}

/// A class of a virtual machine has a prototype.
pub open spec fn has_class(
    context: Context,
    name: Seq<char>,
    class: JsView,
    prototype: JsView,
) -> bool {
    &&& class is Object
    &&& object_id(class) != object_id(js_global(context))
    &&& own_data(js_heap(context), js_global(context), name_key(name)) == Some(class)
    &&& own_data(js_heap(context), class, name_key("prototype"@)) == Some(prototype)
}

/// The objects of a virtual machine other than the global one and another one are as they were.
pub open spec fn keeps_others(before: Context, after: Context, object: JsView) -> bool {
    forall|id: nat| #[trigger]
        js_heap(before).contains_key(id) && id != object_id(object) && id != object_id(
            js_global(before),
        ) ==> js_heap(after).contains_key(id) && js_heap(after)[id] == js_heap(before)[id]
}

/// A prototype has the methods of references.
pub open spec fn has_methods(context: Context, prototype: JsView) -> bool {
    let methods = data_of(js_heap(context), prototype);
    &&& methods.contains_key(js_units("get"@))
    &&& methods.contains_key(js_units("set"@))
    &&& methods.contains_key(js_units("call"@))
    &&& methods.contains_key(js_units("method"@))
    &&& methods.contains_key(js_units("len"@))
    &&& methods.contains_key(js_units("toString"@))
}

/// A class is a function that is called without `new` alone, and runs a native function.
pub open spec fn runs_native(class: JsView, name: Seq<char>, native: Native) -> bool {
    &&& class matches JsView::Object(own) && own.callable && !own.constructs
    &&& js_native_of(class) == (name, 0usize, native)
}

/// The class of references is installed: its prototype is that of wrappers and has their methods, and
/// nothing else changed than the two globals and the prototype.
pub open spec fn installs_reference(
    before: Context,
    after: Context,
    class: JsView,
    prototype: JsView,
) -> bool {
    &&& same_vm(before, after)
    &&& quiet(before, after)
    &&& prepared(after)
    &&& keeps_names(before, after)
    &&& can_define(after, "ReflectReference"@)
    &&& runs_native(class, "ReflectReference"@, Native::ReferenceConstructor)
    &&& has_class(after, "ReflectReference"@, class, prototype)
    &&& has_methods(after, prototype)
    &&& holds_prototype(after, prototype)
    &&& holds_closed(after, js_units(PROTOTYPE@), prototype)
    &&& js_pristine(before) ==> seals_prototype(after, prototype)
    &&& keeps_others(before, after, prototype)
    &&& alike_data(
        global_data(before).insert(js_units("ReflectReference"@), class).insert(
            js_units(PROTOTYPE@),
            prototype,
        ),
        global_data(after),
    )
}

/// The class of type tokens is installed: its prototype has the two methods, and nothing else changed
/// than the global.
pub open spec fn installs_token(
    before: Context,
    after: Context,
    class: JsView,
    prototype: JsView,
) -> bool {
    &&& same_vm(before, after)
    &&& quiet(before, after)
    &&& prepared(after)
    &&& keeps_names(before, after)
    &&& keeps_closed(before, after)
    &&& can_define(after, "StaticReflectReference"@)
    &&& runs_native(class, "StaticReflectReference"@, Native::TokenConstructor)
    &&& has_class(after, "StaticReflectReference"@, class, prototype)
    &&& bare_properties(js_heap(after), prototype) matches Some(methods) && methods.dom()
        =~= Set::empty().insert(js_units("fn"@)).insert(js_units("call"@))
    &&& !js_heap(before).contains_key(object_id(prototype))
    &&& keeps_others(before, after, prototype)
    &&& alike_data(
        global_data(before).insert(js_units("StaticReflectReference"@), class),
        global_data(after),
    )
}

/// Giving a method to a prototype leaves the rest as it was.
pub proof fn lemma_steady_method(
    before: Context,
    prototype: JsView,
    key: KeyView,
    value: JsView,
    after: Context,
)
    requires
        prepared(before),
        same_vm(before, after),
        bare_properties(js_heap(before), prototype) is Some,
        object_id(prototype) != object_id(js_global(before)),
        key matches KeyView::Units(units) ==> spares(units),
        key is Units || key is Symbol,
        put_effect(before, prototype, key, value, Ok::<bool, Seq<char>>(true), after),
    ensures
        steady(before, after, prototype),
        bare_properties(js_heap(after), prototype) is Some,
        key matches KeyView::Units(units) ==> alike_data(
            bare_properties(js_heap(before), prototype)->0.insert(units, value),
            bare_properties(js_heap(after), prototype)->0,
        ),
        key is Symbol ==> bare_properties(js_heap(after), prototype) == bare_properties(
            js_heap(before),
            prototype,
        ),
{
    if let KeyView::Units(units) = key {
        lemma_sets(
            before,
            prototype,
            units,
            data_of(js_heap(before), prototype).insert(units, value),
            js_heap(before)[object_id(prototype)]->plain,
            true,
            after,
        );
        lemma_calm_prepared(before, after, Some(units));
    } else {
        lemma_calm_prepared(before, after, None);
    }
}

/// Giving a property to a class leaves the rest as it was.
pub proof fn lemma_steady_class(
    before: Context,
    class: JsView,
    key: Seq<u16>,
    value: JsView,
    after: Context,
)
    requires
        prepared(before),
        same_vm(before, after),
        key == js_units("prototype"@) || key == js_units("ref_set"@),
        class is Object,
        js_apart(before, class),
        ordinary(js_heap(before), object_id(class)),
        object_id(class) != object_id(js_global(before)),
        own_data(js_heap(before), js_global(before), name_key("Symbol"@)) matches Some(symbol)
            ==> object_id(symbol) != object_id(class),
        js_vacant(before, class, key),
        put_effect(before, class, KeyView::Units(key), value, Ok::<bool, Seq<char>>(true), after),
    ensures
        steady(before, after, class),
        ordinary(js_heap(after), object_id(class)),
        alike_data(
            data_of(js_heap(before), class).insert(key, value),
            data_of(js_heap(after), class),
        ),
        forall|other: Seq<u16>| #[trigger]
            js_vacant(before, class, other) && other != key ==> js_vacant(after, class, other),
{
    lemma_names_differ();
    lemma_sets(
        before,
        class,
        key,
        data_of(js_heap(before), class).insert(key, value),
        js_heap(before)[object_id(class)]->plain,
        js_heap(before)[object_id(class)]->bare,
        after,
    );
    lemma_calm_prepared(before, after, Some(key));
}

/// The classes are registered: those of references and of type tokens are installed, the first one
/// has its short name, and nothing else changed than these globals, the place of the prototype for
/// wrappers and that prototype.
pub open spec fn registers(
    before: Context,
    after: Context,
    class: JsView,
    prototype: JsView,
    token_class: JsView,
    token_prototype: JsView,
) -> bool {
    &&& same_vm(before, after)
    &&& quiet(before, after)
    &&& registrable(after)
    &&& has_class(after, "ReflectReference"@, class, prototype)
    &&& has_class(after, "StaticReflectReference"@, token_class, token_prototype)
    &&& own_data(js_heap(after), js_global(after), name_key("ReflectRef"@)) == Some(class)
    &&& runs_native(class, "ReflectReference"@, Native::ReferenceConstructor)
    &&& runs_native(token_class, "StaticReflectReference"@, Native::TokenConstructor)
    &&& holds_prototype(after, prototype)
    &&& holds_closed(after, js_units(PROTOTYPE@), prototype)
    &&& js_pristine(before) ==> seals_prototype(after, prototype)
    &&& keeps_others(before, after, prototype)
    &&& alike_data(
        global_data(before).insert(js_units("ReflectReference"@), class).insert(
            js_units(PROTOTYPE@),
            prototype,
        ).insert(js_units("StaticReflectReference"@), token_class).insert(
            js_units("ReflectRef"@),
            class,
        ),
        global_data(after),
    )
}

/// The classes are installed one after the other, and the first one gets its short name.
pub proof fn lemma_registers(
    before: Context,
    one: Context,
    two: Context,
    after: Context,
    class: JsView,
    prototype: JsView,
    token_class: JsView,
    token_prototype: JsView,
)
    requires
        installs_reference(before, one, class, prototype),
        installs_token(one, two, token_class, token_prototype),
        same_vm(two, after),
        define_effect(two, "ReflectRef"@, class, true, Ok::<(), Seq<char>>(()), after),
    ensures
        registers(before, after, class, prototype, token_class, token_prototype),
{
    lemma_names_differ();
    lemma_define_prepared(two, "ReflectRef"@, class, true, after);
    let first = js_units("ReflectReference"@);
    let place = js_units(PROTOTYPE@);
    let second = js_units("StaticReflectReference"@);
    let short = js_units("ReflectRef"@);
    let data = global_data(before).insert(first, class).insert(place, prototype);
    lemma_alike_data_through(data, global_data(one), global_data(two), second, token_class);
    let more = data.insert(second, token_class);
    lemma_alike_data_through(more, global_data(two), global_data(after), short, class);
    assert(more.insert(short, class).contains_key(first));
    assert(more.insert(short, class).contains_key(place));
    assert(more.insert(short, class).contains_key(second));
    assert(js_heap(one).contains_key(object_id(class)));
    assert(js_heap(one).contains_key(object_id(prototype)));
    assert(js_heap(two).contains_key(object_id(token_class)));
    assert(js_heap(two).contains_key(object_id(class)));
    assert(holds_closed(after, place, prototype));
}

/// Defining a global of the classes leaves the rest as it was.
pub proof fn lemma_define_prepared(
    before: Context,
    name: Seq<char>,
    value: JsView,
    open: bool,
    after: Context,
)
    requires
        prepared(before),
        same_vm(before, after),
        define_effect(before, name, value, open, Ok::<(), Seq<char>>(()), after),
        name == "ReflectReference"@ || name == "StaticReflectReference"@ || name == "ReflectRef"@
            || name == PROTOTYPE@,
        open == (name != PROTOTYPE@),
        value is Object,
        name == PROTOTYPE@ ==> is_workpiece(before, value),
    ensures
        prepared(after),
        quiet(before, after),
        keeps_names(before, after),
        open ==> can_define(after, name),
        open ==> keeps_closed(before, after),
        alike_data(global_data(before).insert(js_units(name), value), global_data(after)),
        own_data(js_heap(after), js_global(after), name_key(name)) == Some(value),
        forall|id: nat| #[trigger]
            js_heap(before).contains_key(id) && id != object_id(js_global(before)) ==> js_heap(
                after,
            ).contains_key(id) && js_heap(after)[id] == js_heap(before)[id],
        name != PROTOTYPE@ ==> keeps_place(before, after),
        name == PROTOTYPE@ ==> {
            &&& holds_closed(after, js_units(PROTOTYPE@), value)
            &&& holds_prototype(after, value)
            &&& js_pristine(before) ==> seals_prototype(after, value)
        },
{
    lemma_names_differ();
    let key = js_units(name);
    let data = global_data(before).insert(key, value);
    let (plain, bare) = choose|plain: bool, bare: bool| #[trigger]
        sets(before, js_global(before), key, data, plain, bare, after);
    lemma_sets(before, js_global(before), key, data, plain, bare, after);
    assert(data.contains_key(key));
    assert(data.contains_key(js_units("Symbol"@)));
    if name != "ReflectReference"@ {
        lemma_can_define(before, after, Some(key), "ReflectReference"@);
    }
    if name != "StaticReflectReference"@ {
        lemma_can_define(before, after, Some(key), "StaticReflectReference"@);
    }
    if name != "ReflectRef"@ {
        lemma_can_define(before, after, Some(key), "ReflectRef"@);
    }
}

} // verus!
