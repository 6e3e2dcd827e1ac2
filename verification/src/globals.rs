//! What steps in a virtual machine make of its global object.
use crate::data::{equipped, holds_prototype, keeps, wraps_with, PROTOTYPE};
use crate::engine::{
    alike, alike_data, js_global, js_heap, js_units, lemma_alike_data_through, quiet, JsView,
};
use crate::into_js::defines_nothing;
use crate::session::{
    define_effect, extends, lemma_sets, object_id, ordinary_global, same_vm, sets, Step,
};
use crate::setup::{global_data, has_class};
use boa_engine::Context;
use vstd::prelude::*;

verus! {

/// Data with the globals that were defined between two positions of a journal.
pub open spec fn definitions(
    data: Map<Seq<u16>, JsView>,
    j: Seq<Step>,
    p: nat,
    q: nat,
) -> Map<Seq<u16>, JsView>
    decreases q,
{
    if q <= p {
        data
    } else {
        let before = definitions(data, j, p, (q - 1) as nat);
        match j[q - 1] {
            Step::Define { name, value, reply: Ok(_), .. } => before.insert(js_units(name), value),
            _ => before,
        }
    }
}

/// The definitions up to a position are those of every journal that goes on from there.
proof fn lemma_definitions_extended(
    data: Map<Seq<u16>, JsView>,
    j: Seq<Step>,
    earlier: Seq<Step>,
    p: nat,
    q: nat,
)
    requires
        extends(j, earlier),
        q <= earlier.len(),
    ensures
        definitions(data, j, p, q) == definitions(data, earlier, p, q),
    decreases q,
{
    if q > p {
        lemma_definitions_extended(data, j, earlier, p, (q - 1) as nat);
        assert(j[q - 1] == earlier[q - 1]);
    }
}

/// Definitions up to a position and those from there on are definitions.
pub proof fn lemma_definitions_joined(
    data: Map<Seq<u16>, JsView>,
    j: Seq<Step>,
    p: nat,
    q: nat,
    r: nat,
)
    requires
        p <= q <= r,
    ensures
        definitions(definitions(data, j, p, q), j, q, r) == definitions(data, j, p, r),
    decreases r,
{
    if r > q {
        lemma_definitions_joined(data, j, p, q, (r - 1) as nat);
    }
}

/// Definitions over alike data are alike.
proof fn lemma_definitions_alike(
    one: Map<Seq<u16>, JsView>,
    other: Map<Seq<u16>, JsView>,
    j: Seq<Step>,
    p: nat,
    q: nat,
)
    requires
        alike_data(one, other),
    ensures
        alike_data(definitions(one, j, p, q), definitions(other, j, p, q)),
    decreases q,
{
    if q > p {
        lemma_definitions_alike(one, other, j, p, (q - 1) as nat);
    }
}

/// Without definitions, data are as they were.
proof fn lemma_defines_nothing(data: Map<Seq<u16>, JsView>, j: Seq<Step>, p: nat, q: nat)
    requires
        defines_nothing(j, p, q),
    ensures
        definitions(data, j, p, q) == data,
    decreases q,
{
    if q > p {
        lemma_defines_nothing(data, j, p, (q - 1) as nat);
        assert(!(j[q - 1] is Define));
    }
}

/// Every global that is defined between two positions has a key that fits.
pub open spec fn defines_only(
    j: Seq<Step>,
    p: nat,
    q: nat,
    fits: spec_fn(Seq<u16>) -> bool,
) -> bool {
    forall|at: int|
        p <= at < q ==> (#[trigger] j[at] matches Step::Define { name, .. } ==> fits(js_units(name)))
}

/// What fits every definition of a journal fits those of an earlier one.
pub proof fn lemma_defined_only_before(
    j: Seq<Step>,
    earlier: Seq<Step>,
    p: nat,
    fits: spec_fn(Seq<u16>) -> bool,
)
    requires
        extends(j, earlier),
        defines_only(j, p, j.len(), fits),
    ensures
        defines_only(earlier, p, earlier.len(), fits),
{
    assert forall|at: int| p <= at < earlier.len() implies (#[trigger] earlier[at] matches Step::Define {
        name,
        ..
    } ==> fits(js_units(name))) by {
        assert(j[at] == earlier[at]);
    }
}

/// A global that is not defined between two positions is as it was.
pub proof fn lemma_undefined_stays(
    data: Map<Seq<u16>, JsView>,
    j: Seq<Step>,
    p: nat,
    q: nat,
    fits: spec_fn(Seq<u16>) -> bool,
    key: Seq<u16>,
)
    requires
        defines_only(j, p, q, fits),
        !fits(key),
    ensures
        definitions(data, j, p, q).contains_key(key) == data.contains_key(key),
        definitions(data, j, p, q)[key] == data[key],
    decreases q,
{
    if q > p {
        lemma_undefined_stays(data, j, p, (q - 1) as nat, fits, key);
        assert(j[q - 1] matches Step::Define { name, .. } ==> fits(js_units(name)));
    }
}

/// From a position of a journal on, globals were defined, objects made, and nothing else happened in
/// a virtual machine.
pub open spec fn only_defines(before: Context, j: Seq<Step>, p: nat, after: Context) -> bool {
    &&& same_vm(before, after)
    &&& quiet(before, after)
    &&& alike_data(definitions(global_data(before), j, p, j.len()), global_data(after))
    &&& forall|id: nat| #[trigger]
        js_heap(before).contains_key(id) && id != object_id(js_global(before)) ==> js_heap(
            after,
        ).contains_key(id) && js_heap(after)[id] == js_heap(before)[id]
}

/// A virtual machine has a prototype for wrappers, and the classes of the bindings.
pub open spec fn has_classes(context: Context) -> bool {
    &&& js_global(context) is Object
    &&& ordinary_global(context)
    &&& equipped(context)
    &&& exists|class: JsView, prototype: JsView| #[trigger]
        has_class(context, "ReflectReference"@, class, prototype)
    &&& exists|class: JsView, prototype: JsView| #[trigger]
        has_class(context, "StaticReflectReference"@, class, prototype)
}

/// A key is neither that of a class nor that of the prototype for wrappers.
pub open spec fn spares_classes(key: Seq<u16>) -> bool {
    &&& key != js_units("ReflectReference"@)
    &&& key != js_units("StaticReflectReference"@)
    &&& key != js_units(PROTOTYPE@)
}

/// The host application left the virtual machine alone whenever it was asked between two positions.
pub open spec fn all_idle(j: Seq<Step>, p: nat, q: nat) -> bool {
    forall|at: int| p <= at < q ==> (#[trigger] j[at] matches Step::Ask { idle, .. } ==> idle)
}

/// Where the host application left the virtual machine alone, it did so at first.
pub proof fn lemma_idle_before(j: Seq<Step>, earlier: Seq<Step>, p: nat)
    requires
        extends(j, earlier),
        all_idle(j, p, j.len()),
    ensures
        all_idle(earlier, p, earlier.len()),
{
    assert forall|at: int| p <= at < earlier.len() implies (
    #[trigger] earlier[at] matches Step::Ask { idle, .. } ==> idle) by {
        assert(j[at] == earlier[at]);
    }
}

/// Where a virtual machine has its classes, nothing is defined in their places, and the host
/// application leaves the virtual machine alone when it is asked, only the definitions of a journal
/// change the global object.
pub open spec fn binding_effect(before: Context, j: Seq<Step>, p: nat, after: Context) -> bool {
    has_classes(before) && all_idle(j, p, j.len()) && defines_only(
        j,
        p,
        j.len(),
        |key: Seq<u16>| spares_classes(key),
    ) ==> only_defines(before, j, p, after)
}

/// A class stays where only globals are defined, and none in its place.
pub proof fn lemma_class_stays(
    before: Context,
    j: Seq<Step>,
    p: nat,
    after: Context,
    name: Seq<char>,
    class: JsView,
    prototype: JsView,
)
    requires
        ordinary_global(before),
        only_defines(before, j, p, after),
        defines_only(j, p, j.len(), |key: Seq<u16>| spares_classes(key)),
        !spares_classes(js_units(name)),
        has_class(before, name, class, prototype),
    ensures
        has_class(after, name, class, prototype),
{
    let key = js_units(name);
    lemma_undefined_stays(
        global_data(before),
        j,
        p,
        j.len(),
        |key: Seq<u16>| spares_classes(key),
        key,
    );
    let data = definitions(global_data(before), j, p, j.len());
    assert(data.contains_key(key) && data[key] == class);
    assert(js_heap(before).contains_key(object_id(class)));
}

/// Where only globals are defined, and none in the place of a class, a virtual machine still has its
/// classes.
pub proof fn lemma_still_has_classes(before: Context, j: Seq<Step>, p: nat, after: Context)
    requires
        has_classes(before),
        only_defines(before, j, p, after),
        defines_only(j, p, j.len(), |key: Seq<u16>| spares_classes(key)),
    ensures
        has_classes(after),
{
    let kept = choose|prototype: JsView| #[trigger] wraps_with(before, prototype);
    if holds_prototype(before, kept) {
        let key = js_units(PROTOTYPE@);
        let spare = |key: Seq<u16>| spares_classes(key);
        lemma_undefined_stays(global_data(before), j, p, j.len(), spare, key);
        assert(definitions(global_data(before), j, p, j.len()).contains_key(key));
    }
    assert(wraps_with(after, kept));
    let name = "ReflectReference"@;
    let (class, prototype) = choose|class: JsView, prototype: JsView| #[trigger]
        has_class(before, name, class, prototype);
    lemma_class_stays(before, j, p, after, name, class, prototype);
    let name = "StaticReflectReference"@;
    let (class, prototype) = choose|class: JsView, prototype: JsView| #[trigger]
        has_class(before, name, class, prototype);
    lemma_class_stays(before, j, p, after, name, class, prototype);
}

/// Definitions after definitions are definitions.
pub proof fn lemma_defines_more(
    before: Context,
    earlier: Seq<Step>,
    p: nat,
    between: Context,
    j: Seq<Step>,
    after: Context,
)
    requires
        p <= earlier.len(),
        extends(j, earlier),
        only_defines(before, earlier, p, between),
        only_defines(between, j, earlier.len(), after),
    ensures
        only_defines(before, j, p, after),
{
    let q = earlier.len();
    let first = definitions(global_data(before), earlier, p, q);
    lemma_definitions_extended(global_data(before), j, earlier, p, q);
    lemma_definitions_joined(global_data(before), j, p, q, j.len());
    lemma_definitions_alike(first, global_data(between), j, q, j.len());
    lemma_alike_data_through(
        definitions(first, j, q, j.len()),
        definitions(global_data(between), j, q, j.len()),
        global_data(after),
        Seq::empty(),
        JsView::Undefined,
    );
}

/// What changes the global object by definitions alone, twice, changes it by definitions alone.
pub proof fn lemma_binds_more(
    before: Context,
    earlier: Seq<Step>,
    p: nat,
    between: Context,
    j: Seq<Step>,
    after: Context,
)
    requires
        p <= earlier.len(),
        extends(j, earlier),
        binding_effect(before, earlier, p, between),
        binding_effect(between, j, earlier.len(), after),
    ensures
        binding_effect(before, j, p, after),
{
    let spare = |key: Seq<u16>| spares_classes(key);
    if has_classes(before) && all_idle(j, p, j.len()) && defines_only(j, p, j.len(), spare) {
        lemma_idle_before(j, earlier, p);
        lemma_defined_only_before(j, earlier, p, spare);
        lemma_still_has_classes(before, earlier, p, between);
        lemma_defines_more(before, earlier, p, between, j, after);
    }
}

/// Steps that keep the data of a virtual machine and define nothing leave the global object alone.
pub proof fn lemma_keeps_globals(before: Context, j: Seq<Step>, p: nat, after: Context)
    requires
        ordinary_global(before),
        same_vm(before, after),
        keeps(before, after),
        defines_nothing(j, p, j.len()),
    ensures
        only_defines(before, j, p, after),
{
    lemma_defines_nothing(global_data(before), j, p, j.len());
    assert(js_heap(before).contains_key(object_id(js_global(before))));
}

/// A global that is defined holds what it is defined as, but for the form of a number, and the others
/// what they held.
pub proof fn lemma_holds_defined(
    before: Context,
    name: Seq<char>,
    value: JsView,
    after: Context,
)
    requires
        ordinary_global(before),
        same_vm(before, after),
        define_effect(before, name, value, true, Ok::<(), Seq<char>>(()), after),
    ensures
        global_data(after).contains_key(js_units(name)),
        alike(value, global_data(after)[js_units(name)]),
        forall|key: Seq<u16>| #[trigger]
            global_data(before).contains_key(key) && key != js_units(name) ==> global_data(
                after,
            ).contains_key(key) && alike(global_data(before)[key], global_data(after)[key]),
{
    let key = js_units(name);
    let more = global_data(before).insert(key, value);
    let (plain, bare) = choose|plain: bool, bare: bool| #[trigger]
        sets(before, js_global(before), key, more, plain, bare, after);
    lemma_sets(before, js_global(before), key, more, plain, bare, after);
    assert(more.contains_key(key));
    assert forall|other: Seq<u16>| #[trigger]
        global_data(before).contains_key(other) && other != key implies global_data(
        after,
    ).contains_key(other) && alike(global_data(before)[other], global_data(after)[other]) by {
        assert(more.contains_key(other));
    }
}

/// A step that defines a global changes the global object by that alone.
pub proof fn lemma_defines_one(
    before: Context,
    j: Seq<Step>,
    p: nat,
    name: Seq<char>,
    value: JsView,
    reply: Result<(), Seq<char>>,
    after: Context,
)
    requires
        ordinary_global(before),
        same_vm(before, after),
        j.len() == p + 1,
        j[p as int] == (Step::Define { name, value, open: true, reply }),
        define_effect(before, name, value, true, reply, after),
    ensures
        only_defines(before, j, p, after),
{
    let data = global_data(before);
    assert(definitions(data, j, p, p) == data);
    if reply is Ok {
        let key = js_units(name);
        let more = data.insert(key, value);
        let (plain, bare) = choose|plain: bool, bare: bool| #[trigger]
            sets(before, js_global(before), key, more, plain, bare, after);
        lemma_sets(before, js_global(before), key, more, plain, bare, after);
    }
}

} // verus!
