//! Data on both sides: script values that a virtual machine holds as they are.
use crate::engine::{
    alike, is_open, is_small, js_fixed, js_global, js_heap, js_text, js_units, quiet, stays_fixed,
    JsNode, JsView,
};
use crate::number::{
    finite, law_whole_number, lemma_nan_is_no_integer, magnitude, whole_of, WHOLE_LIMIT,
};
use crate::session::{
    data_object, intact, lists, name_key, own_data, own_elements, own_properties, properties,
};
use crate::value::{distinct_keys, entries_view, list_view, ScriptValue, ScriptView};
use boa_engine::Context;
use vstd::prelude::*;

verus! {

/// How many elements or properties can be told apart by an index.
pub const COUNT_LIMIT: u64 = 0x8000_0000;

/// The global under which a virtual machine keeps the prototype of reference wrappers.
pub const PROTOTYPE: &'static str = "__bms_rr_proto";

/// An object that is neither code nor a host value.
pub open spec fn holds_data(view: JsView, array: bool) -> bool {
    view matches JsView::Object(object) && !object.callable && object.reference is None
        && object.token is None && object.array == array
}

/// There is a property whose key reads as a text.
pub open spec fn named(data: Map<Seq<u16>, JsView>, key: Seq<char>) -> bool {
    exists|units: Seq<u16>| #[trigger] data.contains_key(units) && js_text(units) == key
}

/// A value of a virtual machine holds a script value, which is nested less deep than a bound.
pub open spec fn denotes(
    heap: Map<nat, JsNode>,
    view: JsView,
    value: ScriptView,
    depth: nat,
) -> bool
    decreases depth,
{
    if depth == 0 {
        false
    } else {
        match value {
            ScriptView::Unit => view is Undefined || view is Null,
            ScriptView::Bool(truth) => view == JsView::Boolean(truth),
            ScriptView::Integer(integer) => match view {
                JsView::Integer(own) => own == integer,
                JsView::Rational(bits) => whole_of(bits) == Some(integer),
                _ => false,
            },
            ScriptView::Float(bits) => view == JsView::Rational(bits) && finite(bits) && whole_of(
                bits,
            ) is None,
            ScriptView::String(text) => view matches JsView::Str(units) && js_text(units) == text,
            ScriptView::Reference(reference) => view matches JsView::Object(object)
                && !object.callable && object.reference == Some(reference.0),
            ScriptView::List(values) => {
                &&& holds_data(view, true)
                &&& own_elements(heap, view) matches Some(elements) && {
                    &&& elements.len() == values.len() <= COUNT_LIMIT
                    &&& forall|i: int|
                        0 <= i < elements.len() ==> denotes(
                            heap,
                            #[trigger] elements[i],
                            values[i],
                            (depth - 1) as nat,
                        )
                }
            },
            ScriptView::Record(map) => {
                &&& holds_data(view, false)
                &&& own_properties(heap, view) matches Some(data) && {
                    &&& data.dom().finite() && data.dom().len() <= COUNT_LIMIT
                    &&& forall|units: Seq<u16>| #[trigger]
                        data.contains_key(units) ==> map.contains_key(js_text(units)) && denotes(
                            heap,
                            data[units],
                            map[js_text(units)],
                            (depth - 1) as nat,
                        )
                    &&& forall|key: Seq<char>| #[trigger]
                        map.contains_key(key) ==> named(data, key)
                }
            },
            _ => false,
        }
    }
}

/// No map occurs in a script value.
pub open spec fn mapless(value: ScriptView) -> bool
    decreases value,
{
    match value {
        ScriptView::List(values) => forall|i: int|
            0 <= i < values.len() ==> mapless(#[trigger] values[i]),
        ScriptView::Record(_) => false,
        _ => true,
    }
}

/// A heap has at least the objects of another one, as they are there.
pub open spec fn covers(later: Map<nat, JsNode>, heap: Map<nat, JsNode>) -> bool {
    forall|id: nat| #[trigger]
        heap.contains_key(id) ==> later.contains_key(id) && later[id] == heap[id]
}

/// The properties of the objects that a virtual machine has in addition are open.
pub open spec fn adds_open(before: Context, after: Context) -> bool {
    forall|id: nat, key: Seq<u16>|
        is_added(before, id) && has_property(js_heap(after), data_object(before, id, false), key)
            ==> #[trigger] is_open(after, data_object(before, id, false), key)
}

/// A virtual machine does not have an object yet.
pub open spec fn is_added(before: Context, id: nat) -> bool {
    data_object(before, id, false) != js_global(before) && !js_heap(before).contains_key(id)
}

/// An object has a property under a key and no others than data.
pub open spec fn has_property(heap: Map<nat, JsNode>, object: JsView, key: Seq<u16>) -> bool {
    own_properties(heap, object) matches Some(data) && data.contains_key(key)
}

/// Nothing of a script runs in a virtual machine, and it has at least the data that it had. The
/// properties of the objects that it has in addition are writable and configurable.
pub open spec fn keeps(before: Context, after: Context) -> bool {
    &&& covers(js_heap(after), js_heap(before))
    &&& quiet(before, after)
    &&& stays_fixed(before, after)
    &&& adds_open(before, after)
}

/// Wrappers of host values get a prototype: the global object holds it as data.
pub open spec fn holds_prototype(context: Context, prototype: JsView) -> bool {
    prototype is Object && own_data(js_heap(context), js_global(context), name_key(PROTOTYPE@))
        == Some(prototype)
}

/// Wrappers of host values get a prototype that nothing can take from its place.
pub open spec fn seals_prototype(context: Context, prototype: JsView) -> bool {
    prototype is Object && js_fixed(context).contains_key(js_units(PROTOTYPE@)) && js_fixed(
        context,
    )[js_units(PROTOTYPE@)] == prototype
}

/// Wrappers of host values get a prototype.
pub open spec fn wraps_with(context: Context, prototype: JsView) -> bool {
    holds_prototype(context, prototype) || seals_prototype(context, prototype)
}

/// There is a prototype for wrappers of host values that nothing can take from its place.
pub open spec fn sealed(context: Context) -> bool {
    exists|prototype: JsView| #[trigger] seals_prototype(context, prototype)
}

/// What nothing can take from its place is there later too.
pub proof fn lemma_sealed(before: Context, after: Context)
    requires
        sealed(before),
        stays_fixed(before, after),
    ensures
        sealed(after),
        equipped(after),
{
    let prototype = choose|prototype: JsView| #[trigger] seals_prototype(before, prototype);
    assert(seals_prototype(after, prototype));
    assert(wraps_with(after, prototype));
}

/// There is a prototype for wrappers of host values.
pub open spec fn equipped(context: Context) -> bool {
    exists|prototype: JsView| #[trigger] wraps_with(context, prototype)
}

/// A script value that a virtual machine can hold as it is: data, without functions and errors,
/// without doubles that are no finite numbers or that are integers, and without integers that are
/// no doubles. References need the prototype of reference wrappers.
pub open spec fn portable(value: ScriptValue, references: bool, depth: nat) -> bool
    decreases depth,
{
    if depth == 0 {
        false
    } else {
        match value {
            ScriptValue::Unit | ScriptValue::Bool(_) | ScriptValue::String(_) => true,
            ScriptValue::Integer(integer) => magnitude(integer as int) <= WHOLE_LIMIT,
            ScriptValue::Float(bits) => finite(bits) && whole_of(bits) is None,
            ScriptValue::Reference(_) => references,
            ScriptValue::List(values) => values@.len() <= COUNT_LIMIT && forall|i: int|
                0 <= i < values@.len() ==> portable(
                    #[trigger] values@[i],
                    references,
                    (depth - 1) as nat,
                ),
            ScriptValue::Record(map) => map.entries@.len() <= COUNT_LIMIT && forall|
                i: int,
            |
                0 <= i < map.entries@.len() ==> portable(
                    (#[trigger] map.entries@[i]).1,
                    references,
                    (depth - 1) as nat,
                ),
            _ => false,
        }
    }
}

/// What a virtual machine holds, it holds after its heap grew.
pub proof fn lemma_denotes_later(
    heap: Map<nat, JsNode>,
    later: Map<nat, JsNode>,
    view: JsView,
    value: ScriptView,
    depth: nat,
)
    requires
        covers(later, heap),
        denotes(heap, view, value, depth),
    ensures
        denotes(later, view, value, depth),
    decreases depth,
{
    match value {
        ScriptView::List(values) => {
            let elements = own_elements(heap, view)->0;
            let id = view->Object_0.id;
            assert(heap.contains_key(id) && later.contains_key(id) && later[id] == heap[id]);
            assert forall|i: int| 0 <= i < elements.len() implies denotes(
                later,
                #[trigger] elements[i],
                values[i],
                (depth - 1) as nat,
            ) by {
                lemma_denotes_later(heap, later, elements[i], values[i], (depth - 1) as nat);
            }
        },
        ScriptView::Record(map) => {
            let data = own_properties(heap, view)->0;
            let id = view->Object_0.id;
            assert(heap.contains_key(id) && later.contains_key(id) && later[id] == heap[id]);
            assert forall|units: Seq<u16>| #[trigger] data.contains_key(units) implies denotes(
                later,
                data[units],
                map[js_text(units)],
                (depth - 1) as nat,
            ) by {
                lemma_denotes_later(
                    heap,
                    later,
                    data[units],
                    map[js_text(units)],
                    (depth - 1) as nat,
                );
            }
        },
        _ => {},
    }
}

/// What holds a script value holds it in another form of a number too.
pub proof fn lemma_denotes_alike(
    heap: Map<nat, JsNode>,
    one: JsView,
    other: JsView,
    value: ScriptView,
    depth: nat,
)
    requires
        alike(one, other),
        denotes(heap, one, value, depth),
    ensures
        denotes(heap, other, value, depth),
{
    if one != other {
        if exists|integer: i32| #[trigger] is_small(one, integer) && is_small(other, integer) {
            let integer = choose|integer: i32| #[trigger]
                is_small(one, integer) && is_small(other, integer);
            if let JsView::Rational(bits) = one {
                law_whole_number(bits, integer as i64);
            }
            if let JsView::Rational(bits) = other {
                law_whole_number(bits, integer as i64);
            }
        } else {
            lemma_nan_is_no_integer(one->Rational_0);
        }
    }
}

/// A virtual machine stays intact while its heap grows.
pub proof fn lemma_keeps_intact(before: Context, after: Context)
    requires
        intact(before),
        keeps(before, after),
    ensures
        intact(after),
{
}

/// A virtual machine keeps its data from one time to another one, and from then on.
pub proof fn lemma_keeps_through(before: Context, between: Context, after: Context)
    requires
        keeps(before, between),
        keeps(between, after),
    ensures
        keeps(before, after),
{
    assert forall|id: nat, key: Seq<u16>|
        is_added(before, id) && has_property(
            js_heap(after),
            data_object(before, id, false),
            key,
        ) implies #[trigger] is_open(after, data_object(before, id, false), key) by {
        let object = data_object(before, id, false);
        assert(object == data_object(between, id, false));
        if js_heap(between).contains_key(id) {
            assert(has_property(js_heap(between), object, key));
            assert(is_open(between, object, key));
        } else {
            assert(is_added(between, id));
        }
    }
}

/// A list of keys has as many elements as there are keys.
pub proof fn lemma_lists_count(elements: Seq<JsView>, data: Map<Seq<u16>, JsView>)
    requires
        lists(elements, data),
    ensures
        data.dom().finite(),
        elements.len() == data.dom().len(),
{
    let keys = elements.map_values(|element: JsView| element->Str_0);
    assert(keys.no_duplicates()) by {
        assert forall|i: int, k: int| 0 <= i < keys.len() && 0 <= k < keys.len() && i != k implies keys[i]
            != keys[k] by {
            assert(elements[i] is Str && elements[k] is Str);
            if i < k {
                assert(elements[i] != elements[k]);
            } else {
                assert(elements[k] != elements[i]);
            }
        }
    }
    keys.unique_seq_to_set();
    assert(keys.to_set() =~= data.dom()) by {
        assert forall|units: Seq<u16>| keys.to_set().contains(units) implies data.dom().contains(
            units,
        ) by {
            let i = choose|i: int| 0 <= i < keys.len() && keys[i] == units;
            assert(elements[i] matches JsView::Str(own) && data.contains_key(own));
        }
        assert forall|units: Seq<u16>| data.dom().contains(units) implies keys.to_set().contains(
            units,
        ) by {
            assert(data.contains_key(units));
            assert(elements.contains(JsView::Str(units)));
            let i = choose|i: int| 0 <= i < elements.len() && elements[i] == JsView::Str(units);
            assert(keys[i] == units);
        }
    }
}

/// Entries make at most as many properties as there are entries.
pub proof fn lemma_properties_count(entries: Seq<(Seq<u16>, JsView)>)
    ensures
        properties(entries).dom().finite(),
        properties(entries).dom().len() <= entries.len(),
    decreases entries.len(),
{
    if entries.len() > 0 {
        lemma_properties_count(entries.drop_last());
    }
}

/// Under the key of an entry, a map without repeated keys has the value of the entry.
proof fn lemma_entry(entries: Seq<(String, ScriptValue)>, i: int)
    requires
        distinct_keys(entries),
        0 <= i < entries.len(),
    ensures
        entries_view(entries).contains_key(entries[i].0@),
        entries_view(entries)[entries[i].0@] == entries[i].1@,
    decreases entries.len(),
{
    let before = entries.drop_last();
    if i < entries.len() - 1 {
        assert(distinct_keys(before)) by {
            assert forall|k: int, m: int| 0 <= k < m < before.len() implies (#[trigger] before[k]).0@
                != (#[trigger] before[m]).0@ by {
                assert(entries[k].0@ != entries[m].0@);
            }
        }
        lemma_entry(before, i);
        assert(before[i] == entries[i]);
        assert(entries[i].0@ != entries.last().0@);
    }
    assert(entries_view(entries) == entries_view(before).insert(
        entries.last().0@,
        entries.last().1@,
    ));
}

/// An object that holds a map has at least as many properties as the map has entries.
proof fn lemma_entries_count(
    data: Map<Seq<u16>, JsView>,
    entries: Seq<(String, ScriptValue)>,
)
    requires
        data.dom().finite(),
        distinct_keys(entries),
        forall|key: Seq<char>| #[trigger]
            entries_view(entries).contains_key(key) ==> named(data, key),
    ensures
        entries.len() <= data.dom().len(),
{
    let key_of = |i: int|
        choose|units: Seq<u16>| #[trigger]
            data.contains_key(units) && js_text(units) == entries[i].0@;
    let keys = Seq::new(entries.len(), key_of);
    assert forall|i: int| 0 <= i < keys.len() implies data.contains_key(#[trigger] keys[i])
        && js_text(keys[i]) == entries[i].0@ by {
        lemma_entry(entries, i);
        assert(named(data, entries[i].0@));
    }
    assert(keys.no_duplicates()) by {
        assert forall|i: int, k: int| 0 <= i < keys.len() && 0 <= k < keys.len() && i != k implies keys[i]
            != keys[k] by {
            if i < k {
                assert(entries[i].0@ != entries[k].0@);
            } else {
                assert(entries[k].0@ != entries[i].0@);
            }
        }
    }
    keys.unique_seq_to_set();
    assert(keys.to_set().subset_of(data.dom()));
    vstd::set_lib::lemma_len_subset(keys.to_set(), data.dom());
}

/// What a virtual machine holds, it can hold as it is.
pub proof fn lemma_denoted_is_portable(
    heap: Map<nat, JsNode>,
    view: JsView,
    value: ScriptValue,
    depth: nat,
)
    requires
        value.wf(),
        denotes(heap, view, value@, depth),
    ensures
        portable(value, true, depth),
    decreases depth,
{
    match value {
        ScriptValue::List(values) => {
            let elements = own_elements(heap, view)->0;
            assert forall|i: int| 0 <= i < values@.len() implies portable(
                #[trigger] values@[i],
                true,
                (depth - 1) as nat,
            ) by {
                assert(denotes(heap, elements[i], list_view(values@)[i], (depth - 1) as nat));
                lemma_denoted_is_portable(heap, elements[i], values@[i], (depth - 1) as nat);
            }
        },
        ScriptValue::Record(map) => {
            let entries = map.entries@;
            let data = own_properties(heap, view)->0;
            let texts = value@->Record_0;
            assert(texts == entries_view(entries));
            assert forall|key: Seq<char>| #[trigger]
                entries_view(entries).contains_key(key) implies named(data, key) by {
                assert(texts.contains_key(key));
            }
            lemma_entries_count(data, entries);
            assert forall|i: int| 0 <= i < entries.len() implies portable(
                (#[trigger] entries[i]).1,
                true,
                (depth - 1) as nat,
            ) by {
                lemma_entry(entries, i);
                assert(named(data, entries[i].0@));
                let units = choose|units: Seq<u16>| #[trigger]
                    data.contains_key(units) && js_text(units) == entries[i].0@;
                assert(data.contains_key(units));
                assert(denotes(
                    heap,
                    data[units],
                    texts[js_text(units)],
                    (depth - 1) as nat,
                ));
                lemma_denoted_is_portable(
                    heap,
                    data[units],
                    entries[i].1,
                    (depth - 1) as nat,
                );
            }
        },
        _ => {},
    }
}

} // verus!
