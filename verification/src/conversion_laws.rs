//! What conversions make of values, by the steps that they take.
use crate::data::PROTOTYPE;
use crate::dialogue::asks_nothing;
use crate::engine::{js_double, js_text, js_units, JsView};
use crate::from_js::{
    entries_run, from_js_run, items_run, keys_run, law_numbers_keep_their_value, nested_run,
    number_view, CIRCULAR, DEPTH_LIMIT, NO_VALUE, TOO_DEEP, UNSUPPORTED,
};
use crate::function_registry::{function_key, registry_run, store_run, REGISTRY};
use crate::host::{misfit, Answer, QueryView};
use crate::into_js::{elements_run, inserts_run, into_js_run, properties_run, usable_prototype};
use crate::native::Native;
use crate::number::{finite, magnitude, represents, whole_of, WHOLE_LIMIT};
use crate::session::{
    array_reply, call_reply, function_reply, get_reply, global_reply, host_reply, inserts,
    length_reply, name_key, number_reply, put_reply, record_reply, reference_reply, text_reply,
    KeyView, Step,
};
use crate::value::{ErrorView, FunctionRef, ReflectReference, ScriptValue, ScriptView};
use vstd::prelude::*;

verus! {

/// A function of a script was stored under a number that the host application gave for it.
pub open spec fn stored_under(view: JsView, id: u64, j: Seq<Step>, lo: nat, hi: nat) -> bool {
    exists|asked: nat, at: nat, registry: JsView|
        {
            &&& lo <= asked < at < hi
            &&& #[trigger] gave_number(j, asked, id)
            &&& #[trigger] put_reply(
                j,
                at,
                registry,
                name_key(function_key(id)),
                view,
            ) is Some
        }
}

/// The host application gave a number for a function.
pub open spec fn gave_number(j: Seq<Step>, at: nat, id: u64) -> bool {
    host_reply(j, at, QueryView::FunctionId) == Some(Answer::Number(id))
}

/// A double reads as a script value: as the integer that it is, if that has at most 53 bits, and as
/// itself otherwise.
pub open spec fn reads_double(bits: u64, value: ScriptView) -> bool {
    match value {
        ScriptView::Integer(whole) => represents(bits, whole as int) && magnitude(whole as int)
            <= WHOLE_LIMIT,
        ScriptView::Float(own) => own == bits && finite(bits) && forall|whole: i64|
            magnitude(whole as int) <= WHOLE_LIMIT ==> !represents(bits, whole as int),
        _ => false,
    }
}

/// A step read an element of an array.
pub open spec fn reads_element(j: Seq<Step>, at: nat, array: JsView, i: int, element: JsView) -> bool {
    get_reply(j, at, array, KeyView::Index(i as i32)) == Some(Ok::<JsView, Seq<char>>(element))
}

/// Steps read the property of an object that is at an index in the list of its keys.
pub open spec fn reads_property_at(
    j: Seq<Step>,
    at: nat,
    object: JsView,
    keys: JsView,
    i: int,
    units: Seq<u16>,
    property: JsView,
) -> bool {
    &&& get_reply(j, at, keys, KeyView::Index(i as i32)) matches Some(Ok(listed)) && (text_reply(
        j,
        at + 1,
        listed,
    ) matches Some(Ok(name)) && name->Str_0 == units)
    &&& get_reply(j, at + 2, object, KeyView::Units(units)) == Some(
        Ok::<JsView, Seq<char>>(property),
    )
}

/// A call of a function on an object, without a receiver, listed its keys.
pub open spec fn lists_keys_of(j: Seq<Step>, at: nat, object: JsView, keys: JsView, count: u64) -> bool {
    exists|function: JsView|
        {
            &&& #[trigger] call_reply(j, at, function, seq![object]) == Some(
                Ok::<JsView, Seq<char>>(keys),
            )
            &&& at > 0 && exists|constructor: JsView| #[trigger]
                get_reply(j, (at - 1) as nat, constructor, name_key("keys"@)) == Some(
                    Ok::<JsView, Seq<char>>(function),
                )
            &&& length_reply(j, at + 1, keys) == Some(Ok::<u64, Seq<char>>(count))
        }
}

/// A value of the engine reads as a script value: steps between two positions of a journal read what it
/// contains, and each part of the script value is what the part of the value in its place reads as.
pub open spec fn reads(
    view: JsView,
    value: ScriptView,
    j: Seq<Step>,
    lo: nat,
    hi: nat,
    fuel: nat,
) -> bool
    decreases fuel, 0nat,
{
    fuel > 0 && match view {
        JsView::Undefined | JsView::Null => value == ScriptView::Unit,
        JsView::Boolean(truth) => value == ScriptView::Bool(truth),
        JsView::Str(units) => value == ScriptView::String(js_text(units)),
        JsView::Integer(integer) => value == ScriptView::Integer(integer as i64),
        JsView::Rational(bits) => reads_double(bits, value),
        JsView::BigInt(_) | JsView::Symbol(_) => false,
        JsView::Object(object) => if object.callable {
            value matches ScriptView::Function(FunctionRef::Script(id)) && stored_under(
                view,
                id,
                j,
                lo,
                hi,
            )
        } else if object.reference is Some {
            value == ScriptView::Reference(ReflectReference(object.reference->0))
        } else if object.token is Some {
            false
        } else if object.array {
            &&& value is List
            &&& value->List_0.len() <= u64::MAX
            &&& exists|at: nat|
                lo <= at < hi && #[trigger] length_reply(j, at, view) == Some(
                    Ok::<u64, Seq<char>>(value->List_0.len() as u64),
                )
            &&& forall|i: int|
                0 <= i < value->List_0.len() ==> element_reads(
                    view,
                    i,
                    #[trigger] value->List_0[i],
                    j,
                    lo,
                    hi,
                    (fuel - 1) as nat,
                )
        } else {
            &&& value is Record
            &&& exists|keys: JsView, count: u64, listed: nat|
                {
                    &&& lo <= listed < hi
                    &&& #[trigger] lists_keys_of(j, listed, view, keys, count)
                    &&& forall|i: int|
                        0 <= i < count ==> #[trigger] has_property_of(
                            j,
                            lo,
                            hi,
                            view,
                            keys,
                            i,
                            value->Record_0,
                        )
                    &&& forall|key: Seq<char>| #[trigger]
                        value->Record_0.contains_key(key) ==> property_reads(
                            view,
                            keys,
                            count,
                            key,
                            value->Record_0[key],
                            j,
                            lo,
                            hi,
                            (fuel - 1) as nat,
                        )
                }
        },
    }
}

/// The element at an index of an array was read, and reads as a script value.
pub open spec fn element_reads(
    array: JsView,
    i: int,
    value: ScriptView,
    j: Seq<Step>,
    lo: nat,
    hi: nat,
    fuel: nat,
) -> bool
    decreases fuel, 1nat,
{
    exists|at: nat, element: JsView|
        {
            &&& lo <= at < hi
            &&& #[trigger] reads_element(j, at, array, i, element)
            &&& reads(element, value, j, lo, hi, fuel)
        }
}

/// The property of an object under a key was read, and reads as a script value.
pub open spec fn property_reads(
    object: JsView,
    keys: JsView,
    count: u64,
    key: Seq<char>,
    value: ScriptView,
    j: Seq<Step>,
    lo: nat,
    hi: nat,
    fuel: nat,
) -> bool
    decreases fuel, 1nat,
{
    exists|i: int, at: nat, units: Seq<u16>, property: JsView|
        {
            &&& 0 <= i < count && lo <= at && at + 2 < hi
            &&& #[trigger] reads_property_at(j, at, object, keys, i, units, property)
            &&& js_text(units) == key
            &&& reads(property, value, j, lo, hi, fuel)
        }
}

/// A map has a value under the key at an index in the list of the keys of an object.
pub open spec fn has_property_of(
    j: Seq<Step>,
    lo: nat,
    hi: nat,
    object: JsView,
    keys: JsView,
    i: int,
    map: Map<Seq<char>, ScriptView>,
) -> bool {
    exists|at: nat, units: Seq<u16>, property: JsView|
        {
            &&& lo <= at && at + 2 < hi
            &&& #[trigger] reads_property_at(j, at, object, keys, i, units, property)
            &&& map.contains_key(js_text(units))
        }
}

/// A key is that of the registry of functions, or of a function in it.
pub open spec fn is_of_registry(key: KeyView) -> bool {
    ||| key == name_key(REGISTRY@)
    ||| exists|id: u64| key == name_key(#[trigger] function_key(id))
}

/// A step that reads what a value contains, or stores a function.
pub open spec fn is_reading(step: Step) -> bool {
    match step {
        Step::Global { .. } => true,
        Step::Get { .. } => true,
        Step::Length { .. } => true,
        Step::ToText { .. } => true,
        Step::Call { arguments, .. } => arguments.len() == 1,
        Step::NewObject { .. } => true,
        Step::Put { key, .. } => is_of_registry(key),
        Step::Ask { query, .. } => query is FunctionId,
        _ => false,
    }
}

/// All steps between two positions read what values contain, or store functions.
pub open spec fn all_reading(j: Seq<Step>, p: nat, q: nat) -> bool {
    forall|at: int| p <= at < q ==> is_reading(#[trigger] j[at])
}

/// Reading a value never goes back in the journal, and takes no other steps than those of reading.
pub proof fn lemma_nested_reading(value: JsView, path: Seq<JsView>, fuel: nat, j: Seq<Step>, p: nat)
    ensures
        nested_run(value, path, fuel, j, p) matches Some((_, q)) ==> p <= q && all_reading(j, p, q),
    decreases fuel, 0nat,
{
    if fuel > 0 {
        if let JsView::Object(object) = value {
            if !object.callable && object.reference is None && object.token is None
                && !path.contains(value) {
                if object.array {
                    if let Some(Ok(count)) = length_reply(j, p, value) {
                        lemma_items_reading(
                            value,
                            0,
                            count,
                            Seq::empty(),
                            path.push(value),
                            (fuel - 1) as nat,
                            j,
                            p + 1,
                        );
                    }
                } else {
                    if let Some((Ok(keys), q)) = keys_run(value, j, p) {
                        if let Some(Ok(count)) = length_reply(j, q, keys) {
                            lemma_entries_reading(
                                value,
                                keys,
                                0,
                                count,
                                Map::empty(),
                                path.push(value),
                                (fuel - 1) as nat,
                                j,
                                q + 1,
                            );
                        }
                    }
                }
            }
        }
    }
}

/// Reading elements takes no other steps than those of reading.
proof fn lemma_items_reading(
    array: JsView,
    i: u64,
    count: u64,
    done: Seq<ScriptView>,
    path: Seq<JsView>,
    fuel: nat,
    j: Seq<Step>,
    p: nat,
)
    ensures
        items_run(array, i, count, done, path, fuel, j, p) matches Some((_, q)) ==> p <= q
            && all_reading(j, p, q),
    decreases fuel, 1 + count - i,
{
    if i < count {
        if let Some(Ok(element)) = get_reply(j, p, array, KeyView::Index(i as i32)) {
            lemma_nested_reading(element, path, fuel, j, p + 1);
            if let Some((Ok(value), q)) = nested_run(element, path, fuel, j, p + 1) {
                lemma_items_reading(
                    array,
                    (i + 1) as u64,
                    count,
                    done.push(value),
                    path,
                    fuel,
                    j,
                    q,
                );
            }
        }
    }
}

/// Reading properties takes no other steps than those of reading.
proof fn lemma_entries_reading(
    object: JsView,
    keys: JsView,
    i: u64,
    count: u64,
    done: Map<Seq<char>, ScriptView>,
    path: Seq<JsView>,
    fuel: nat,
    j: Seq<Step>,
    p: nat,
)
    ensures
        entries_run(object, keys, i, count, done, path, fuel, j, p) matches Some((_, q)) ==> p <= q
            && all_reading(j, p, q),
    decreases fuel, 1 + count - i,
{
    if i < count {
        if let Some(Ok(listed)) = get_reply(j, p, keys, KeyView::Index(i as i32)) {
            if let Some(Ok(key)) = text_reply(j, p + 1, listed) {
                let units = key->Str_0;
                if let Some(Ok(property)) = get_reply(j, p + 2, object, KeyView::Units(units)) {
                    lemma_nested_reading(property, path, fuel, j, p + 3);
                    if let Some((Ok(value), q)) = nested_run(property, path, fuel, j, p + 3) {
                        lemma_entries_reading(
                            object,
                            keys,
                            (i + 1) as u64,
                            count,
                            done.insert(js_text(units), value),
                            path,
                            fuel,
                            j,
                            q,
                        );
                    }
                }
            }
        }
    }
}

/// Reading a value never goes back in the journal, and asks the host application nothing but for
/// numbers of functions.
pub proof fn lemma_from_js_asks_nothing(value: JsView, fuel: nat, j: Seq<Step>, p: nat)
    ensures
        from_js_run(value, fuel, j, p) matches Some((_, q)) ==> p <= q && asks_nothing(j, p, q)
            && all_reading(j, p, q),
{
    lemma_nested_reading(value, Seq::empty(), fuel, j, p);
    if let Some((_, q)) = from_js_run(value, fuel, j, p) {
        assert forall|at: int| p <= at < q implies (#[trigger] j[at] matches Step::Ask { query, .. }
            ==> query is FunctionId) by {
            assert(is_reading(j[at]));
        }
    }
}

/// What a conversion gives is what the value reads as.
proof fn lemma_nested_reads(
    view: JsView,
    path: Seq<JsView>,
    fuel: nat,
    j: Seq<Step>,
    p: nat,
    value: ScriptView,
    q: nat,
    lo: nat,
    hi: nat,
)
    requires
        nested_run(view, path, fuel, j, p) == Some((Ok::<ScriptView, ErrorView>(value), q)),
        lo <= p,
        q <= hi,
    ensures
        reads(view, value, j, lo, hi, fuel),
    decreases fuel, 0nat,
{
    match view {
        JsView::Rational(bits) => lemma_reads_double(bits, value),
        JsView::Object(object) => if object.callable {
            let id = store_run(view, j, p)->Some_0.0->Ok_0;
            let (registry, at) = registry_run(j, p + 1)->Some_0;
            assert(gave_number(j, p, id));
            assert(put_reply(j, at, registry->Ok_0, name_key(function_key(id)), view) is Some);
        } else if object.reference is None && object.token is None {
            let below = (fuel - 1) as nat;
            let full = path.push(view);
            if object.array {
                let count = length_reply(j, p, view)->Some_0->Ok_0;
                lemma_items_reading(view, 0, count, Seq::empty(), full, below, j, p + 1);
                lemma_items_read(
                    view,
                    0,
                    count,
                    Seq::empty(),
                    full,
                    below,
                    j,
                    p + 1,
                    value,
                    q,
                    lo,
                    hi,
                );
            } else {
                let (keys, counted) = keys_run(view, j, p)->Some_0;
                let keys = keys->Ok_0;
                let count = length_reply(j, counted, keys)->Some_0->Ok_0;
                lemma_entries_reading(
                    view,
                    keys,
                    0,
                    count,
                    Map::empty(),
                    full,
                    below,
                    j,
                    counted + 1,
                );
                lemma_entries_read(
                    view,
                    keys,
                    0,
                    count,
                    Map::empty(),
                    full,
                    below,
                    j,
                    counted + 1,
                    value,
                    q,
                    lo,
                    hi,
                );
                lemma_keys_listed(view, j, p, keys, counted, count);
                assert(lists_keys_of(j, (counted - 1) as nat, view, keys, count));
            }
        },
        _ => {},
    }
}

/// The keys of an object that a conversion goes by are those that a call listed.
proof fn lemma_keys_listed(
    object: JsView,
    j: Seq<Step>,
    p: nat,
    keys: JsView,
    q: nat,
    count: u64,
)
    requires
        keys_run(object, j, p) == Some((Ok::<JsView, ErrorView>(keys), q)),
        length_reply(j, q, keys) == Some(Ok::<u64, Seq<char>>(count)),
    ensures
        q == p + 4,
        lists_keys_of(j, (q - 1) as nat, object, keys, count),
{
    let at = p + 3;
    let global = global_reply(j, p)->Some_0;
    let constructor = get_reply(j, p + 1, global, name_key("Object"@))->Some_0->Ok_0;
    let function = get_reply(j, p + 2, constructor, name_key("keys"@))->Some_0->Ok_0;
    assert(call_reply(j, at, function, seq![object]) == Some(Ok::<JsView, Seq<char>>(keys)));
    assert(get_reply(j, (at - 1) as nat, constructor, name_key("keys"@)) == Some(
        Ok::<JsView, Seq<char>>(function),
    ));
}

/// The script value of a double.
proof fn lemma_reads_double(bits: u64, value: ScriptView)
    requires
        number_view(bits) == Ok::<ScriptView, ErrorView>(value),
    ensures
        reads_double(bits, value),
{
    law_numbers_keep_their_value(bits);
}

/// What converting elements gives is what they read as.
proof fn lemma_items_read(
    array: JsView,
    i: u64,
    count: u64,
    done: Seq<ScriptView>,
    path: Seq<JsView>,
    fuel: nat,
    j: Seq<Step>,
    p: nat,
    value: ScriptView,
    q: nat,
    lo: nat,
    hi: nat,
)
    requires
        items_run(array, i, count, done, path, fuel, j, p) == Some(
            (Ok::<ScriptView, ErrorView>(value), q),
        ),
        i <= count,
        done.len() == i,
        lo <= p,
        q <= hi,
        forall|k: int|
            0 <= k < i ==> element_reads(array, k, #[trigger] done[k], j, lo, hi, fuel),
    ensures
        value is List,
        value->List_0.len() == count,
        forall|k: int|
            0 <= k < count ==> element_reads(
                array,
                k,
                #[trigger] value->List_0[k],
                j,
                lo,
                hi,
                fuel,
            ),
    decreases fuel, 1 + count - i,
{
    if i < count {
        let element = get_reply(j, p, array, KeyView::Index(i as i32))->Some_0->Ok_0;
        let (own, r) = nested_run(element, path, fuel, j, p + 1)->Some_0;
        let own = own->Ok_0;
        let more = done.push(own);
        lemma_items_reading(array, (i + 1) as u64, count, more, path, fuel, j, r);
        lemma_nested_reading(element, path, fuel, j, p + 1);
        lemma_nested_reads(element, path, fuel, j, p + 1, own, r, lo, hi);
        assert(reads_element(j, p, array, i as int, element));
        assert(element_reads(array, i as int, own, j, lo, hi, fuel));
        lemma_items_read(
            array,
            (i + 1) as u64,
            count,
            more,
            path,
            fuel,
            j,
            r,
            value,
            q,
            lo,
            hi,
        );
    }
}

/// What converting properties gives is what they read as.
proof fn lemma_entries_read(
    object: JsView,
    keys: JsView,
    i: u64,
    count: u64,
    done: Map<Seq<char>, ScriptView>,
    path: Seq<JsView>,
    fuel: nat,
    j: Seq<Step>,
    p: nat,
    value: ScriptView,
    q: nat,
    lo: nat,
    hi: nat,
)
    requires
        entries_run(object, keys, i, count, done, path, fuel, j, p) == Some(
            (Ok::<ScriptView, ErrorView>(value), q),
        ),
        i <= count,
        lo <= p,
        q <= hi,
        forall|k: int|
            0 <= k < i ==> #[trigger] has_property_of(j, lo, hi, object, keys, k, done),
        forall|key: Seq<char>| #[trigger]
            done.contains_key(key) ==> property_reads(
                object,
                keys,
                count,
                key,
                done[key],
                j,
                lo,
                hi,
                fuel,
            ),
    ensures
        value is Record,
        forall|k: int|
            0 <= k < count ==> #[trigger] has_property_of(
                j,
                lo,
                hi,
                object,
                keys,
                k,
                value->Record_0,
            ),
        forall|key: Seq<char>| #[trigger]
            value->Record_0.contains_key(key) ==> property_reads(
                object,
                keys,
                count,
                key,
                value->Record_0[key],
                j,
                lo,
                hi,
                fuel,
            ),
    decreases fuel, 1 + count - i,
{
    if i < count {
        let listed = get_reply(j, p, keys, KeyView::Index(i as i32))->Some_0->Ok_0;
        let units = text_reply(j, p + 1, listed)->Some_0->Ok_0->Str_0;
        let property = get_reply(j, p + 2, object, KeyView::Units(units))->Some_0->Ok_0;
        let (own, r) = nested_run(property, path, fuel, j, p + 3)->Some_0;
        let own = own->Ok_0;
        let key = js_text(units);
        let more = done.insert(key, own);
        lemma_nested_reading(property, path, fuel, j, p + 3);
        lemma_entries_reading(object, keys, (i + 1) as u64, count, more, path, fuel, j, r);
        lemma_nested_reads(property, path, fuel, j, p + 3, own, r, lo, hi);
        assert(reads_property_at(j, p, object, keys, i as int, units, property));
        assert(property_reads(object, keys, count, key, own, j, lo, hi, fuel));
        assert forall|k: int| 0 <= k < i + 1 implies #[trigger] has_property_of(
            j,
            lo,
            hi,
            object,
            keys,
            k,
            more,
        ) by {
            if k < i {
                assert(has_property_of(j, lo, hi, object, keys, k, done));
            }
        }
        lemma_entries_read(
            object,
            keys,
            (i + 1) as u64,
            count,
            more,
            path,
            fuel,
            j,
            r,
            value,
            q,
            lo,
            hi,
        );
    }
}

/// A step of the engine failed with a text.
pub open spec fn engine_failed(j: Seq<Step>, at: nat, error: ErrorView) -> bool {
    at < j.len() && match j[at as int] {
        Step::Get { reply: Err(text), .. } => error == ErrorView::Invariant(text),
        Step::Put { reply: Err(text), .. } => error == ErrorView::Invariant(text),
        Step::Length { reply: Err(text), .. } => error == ErrorView::Invariant(text),
        Step::ToText { reply: Err(text), .. } => error == ErrorView::Invariant(text),
        Step::Call { reply: Err(text), .. } => error == ErrorView::Invariant(text),
        Step::Define { reply: Err(text), .. } => error == ErrorView::Invariant(text),
        Step::Eval { reply: Err(text), .. } => error == ErrorView::Invariant(text),
        _ => false,
    }
}

/// The last step of reading found something else than it needs: in the place of `Object`, of its `keys`,
/// in what that returned, or in the place of the registry of functions; or the host application gave no
/// number for a function.
pub open spec fn is_misplaced(j: Seq<Step>, at: nat, error: ErrorView) -> bool {
    at < j.len() && match j[at as int] {
        Step::Get { key, reply: Ok(found), .. } => !(found is Object) && {
            ||| key == name_key("Object"@) && error == ErrorView::Invariant(
                "global Object is not an object"@,
            )
            ||| key == name_key("keys"@) && error == ErrorView::Invariant(
                "Object.keys is not a function"@,
            )
            ||| key == name_key(REGISTRY@) && error == ErrorView::Invariant(
                "registry is not an object"@,
            )
        },
        Step::Call { reply: Ok(JsView::Object(listed)), .. } => !listed.array && error
            == ErrorView::Invariant("Object.keys did not return an array"@),
        Step::Call { reply: Ok(_), .. } => error == ErrorView::Invariant(
            "Object.keys did not return an object"@,
        ),
        Step::Ask { query, answer, .. } => query is FunctionId && match answer {
            Answer::Number(_) => false,
            Answer::Failed(own) => error == own@,
            _ => error == misfit(),
        },
        _ => false,
    }
}

/// A value is one that no script value stands for.
pub open spec fn is_refused(view: JsView, error: ErrorView) -> bool {
    match view {
        JsView::BigInt(_) | JsView::Symbol(_) => error == ErrorView::UnsupportedOperation(
            UNSUPPORTED@,
        ),
        JsView::Rational(bits) => !finite(bits) && error == ErrorView::UnsupportedOperation(
            UNSUPPORTED@,
        ),
        JsView::Object(object) => !object.callable && object.reference is None
            && object.token is Some && error == ErrorView::UnsupportedOperation(NO_VALUE@),
        _ => false,
    }
}

/// A step read a value.
pub open spec fn reads_part(j: Seq<Step>, at: nat, part: JsView) -> bool {
    at < j.len() && (j[at as int] matches Step::Get { reply, .. } && reply == Ok::<JsView, Seq<char>>(
        part,
    ))
}

/// A value is the one that is being read, or was read before a step.
pub open spec fn was_read(view: JsView, part: JsView, j: Seq<Step>, lo: nat, hi: nat) -> bool {
    ||| part == view
    ||| exists|at: nat| lo <= at < hi && #[trigger] reads_part(j, at, part)
}

/// Reading a value failed for a reason: last, a step failed or found something else than it needs; the
/// value or a part of it that was read is one that no script value stands for; an object came up again;
/// or as many steps were taken as the value is too deep for.
pub open spec fn reading_fails(
    view: JsView,
    error: ErrorView,
    j: Seq<Step>,
    lo: nat,
    hi: nat,
) -> bool {
    ||| is_refused(view, error)
    ||| exists|at: nat, part: JsView|
        {
            &&& lo <= at < hi
            &&& #[trigger] reads_part(j, at, part)
            &&& is_refused(part, error) || error == ErrorView::Invariant(CIRCULAR@) && part is Object
                && was_read(view, part, j, lo, at)
        }
    ||| error == ErrorView::Invariant(TOO_DEEP@) && lo + DEPTH_LIMIT <= hi
    ||| lo < hi && engine_failed(j, (hi - 1) as nat, error)
    ||| lo < hi && is_misplaced(j, (hi - 1) as nat, error)
}

/// All values of a path were read before the step before a position.
pub open spec fn path_was_read(
    root: JsView,
    path: Seq<JsView>,
    j: Seq<Step>,
    lo: nat,
    p: nat,
) -> bool {
    &&& lo + path.len() <= p
    &&& forall|k: int|
        0 <= k < path.len() ==> p > lo && was_read(
            root,
            #[trigger] path[k],
            j,
            lo,
            (p - 1) as nat,
        )
}

/// What was read before a position was read before a later one.
proof fn lemma_path_later(
    root: JsView,
    path: Seq<JsView>,
    j: Seq<Step>,
    lo: nat,
    p: nat,
    later: nat,
)
    requires
        path_was_read(root, path, j, lo, p),
        p <= later,
    ensures
        path_was_read(root, path, j, lo, later),
{
    assert forall|k: int| 0 <= k < path.len() implies later > lo && was_read(
        root,
        #[trigger] path[k],
        j,
        lo,
        (later - 1) as nat,
    ) by {
        assert(was_read(root, path[k], j, lo, (p - 1) as nat));
    }
}

/// Reading a part of a value fails for a reason.
proof fn lemma_nested_fails(
    view: JsView,
    path: Seq<JsView>,
    fuel: nat,
    j: Seq<Step>,
    p: nat,
    error: ErrorView,
    q: nat,
    root: JsView,
    lo: nat,
)
    requires
        nested_run(view, path, fuel, j, p) == Some((Err::<ScriptView, ErrorView>(error), q)),
        lo <= p,
        path.len() + fuel == DEPTH_LIMIT,
        path_was_read(root, path, j, lo, p),
        view == root && path.len() == 0 || p > lo && reads_part(j, (p - 1) as nat, view),
    ensures
        reading_fails(root, error, j, lo, q),
    decreases fuel, 0nat,
{
    lemma_nested_reading(view, path, fuel, j, p);
    if fuel > 0 {
        match view {
            JsView::Rational(bits) => law_numbers_keep_their_value(bits),
            JsView::Object(object) => if !object.callable && object.reference is None
                && object.token is None {
                if path.contains(view) {
                    let k = choose|k: int| 0 <= k < path.len() && path[k] == view;
                    assert(was_read(root, path[k], j, lo, (p - 1) as nat));
                    assert(reads_part(j, (p - 1) as nat, view));
                } else {
                    let below = (fuel - 1) as nat;
                    let full = path.push(view);
                    let next = p + 1;
                    assert(path_was_read(root, full, j, lo, next)) by {
                        lemma_path_later(root, path, j, lo, p, next);
                        assert forall|k: int| 0 <= k < full.len() implies was_read(
                            root,
                            #[trigger] full[k],
                            j,
                            lo,
                            (next - 1) as nat,
                        ) by {
                            if k < path.len() {
                                assert(was_read(root, path[k], j, lo, (next - 1) as nat));
                            } else if view != root {
                                assert(lo <= p - 1 < p && reads_part(j, (p - 1) as nat, view));
                            }
                        }
                    }
                    if object.array {
                        if let Some(Ok(count)) = length_reply(j, p, view) {
                            lemma_items_fail(
                                view,
                                0,
                                count,
                                Seq::empty(),
                                full,
                                below,
                                j,
                                next,
                                error,
                                q,
                                root,
                                lo,
                            );
                        }
                    } else {
                        if let Some((Ok(keys), at)) = keys_run(view, j, p) {
                            if let Some(Ok(count)) = length_reply(j, at, keys) {
                                lemma_path_later(root, full, j, lo, next, at + 1);
                                lemma_entries_fail(
                                    view,
                                    keys,
                                    0,
                                    count,
                                    Map::empty(),
                                    full,
                                    below,
                                    j,
                                    at + 1,
                                    error,
                                    q,
                                    root,
                                    lo,
                                );
                            }
                        }
                    }
                }
            },
            _ => {},
        }
        if is_refused(view, error) && view != root {
            assert(reads_part(j, (p - 1) as nat, view));
        }
    }
}

/// Reading elements fails for a reason.
proof fn lemma_items_fail(
    array: JsView,
    i: u64,
    count: u64,
    done: Seq<ScriptView>,
    path: Seq<JsView>,
    fuel: nat,
    j: Seq<Step>,
    p: nat,
    error: ErrorView,
    q: nat,
    root: JsView,
    lo: nat,
)
    requires
        items_run(array, i, count, done, path, fuel, j, p) == Some(
            (Err::<ScriptView, ErrorView>(error), q),
        ),
        lo <= p,
        path.len() > 0,
        path.len() + fuel == DEPTH_LIMIT,
        path_was_read(root, path, j, lo, p),
    ensures
        reading_fails(root, error, j, lo, q),
    decreases fuel, 1 + count - i,
{
    if i < count {
        if let Some(Ok(element)) = get_reply(j, p, array, KeyView::Index(i as i32)) {
            let next = p + 1;
            let (result, r) = nested_run(element, path, fuel, j, next)->Some_0;
            lemma_nested_reading(element, path, fuel, j, next);
            assert(reads_part(j, (next - 1) as nat, element));
            lemma_path_later(root, path, j, lo, p, next);
            if result is Err {
                lemma_nested_fails(element, path, fuel, j, next, error, q, root, lo);
            } else {
                let more = done.push(result->Ok_0);
                lemma_path_later(root, path, j, lo, p, r);
                lemma_items_fail(
                    array,
                    (i + 1) as u64,
                    count,
                    more,
                    path,
                    fuel,
                    j,
                    r,
                    error,
                    q,
                    root,
                    lo,
                );
            }
        }
    }
}

/// Reading properties fails for a reason.
proof fn lemma_entries_fail(
    object: JsView,
    keys: JsView,
    i: u64,
    count: u64,
    done: Map<Seq<char>, ScriptView>,
    path: Seq<JsView>,
    fuel: nat,
    j: Seq<Step>,
    p: nat,
    error: ErrorView,
    q: nat,
    root: JsView,
    lo: nat,
)
    requires
        entries_run(object, keys, i, count, done, path, fuel, j, p) == Some(
            (Err::<ScriptView, ErrorView>(error), q),
        ),
        lo <= p,
        path.len() > 0,
        path.len() + fuel == DEPTH_LIMIT,
        path_was_read(root, path, j, lo, p),
    ensures
        reading_fails(root, error, j, lo, q),
    decreases fuel, 1 + count - i,
{
    if i < count {
        if let Some(Ok(listed)) = get_reply(j, p, keys, KeyView::Index(i as i32)) {
            if let Some(Ok(key)) = text_reply(j, p + 1, listed) {
                let units = key->Str_0;
                if let Some(Ok(property)) = get_reply(j, p + 2, object, KeyView::Units(units)) {
                    let next = p + 3;
                    let (result, r) = nested_run(property, path, fuel, j, next)->Some_0;
                    lemma_nested_reading(property, path, fuel, j, next);
                    assert(reads_part(j, (next - 1) as nat, property));
                    lemma_path_later(root, path, j, lo, p, next);
                    if result is Err {
                        lemma_nested_fails(property, path, fuel, j, next, error, q, root, lo);
                    } else {
                        lemma_path_later(root, path, j, lo, p, r);
                        lemma_entries_fail(
                            object,
                            keys,
                            (i + 1) as u64,
                            count,
                            done.insert(js_text(units), result->Ok_0),
                            path,
                            fuel,
                            j,
                            r,
                            error,
                            q,
                            root,
                            lo,
                        );
                    }
                }
            }
        }
    }
}

/// A conversion of a value of the engine fails for nothing but a reason.
pub proof fn law_reading_fails_for_a_reason(
    view: JsView,
    j: Seq<Step>,
    p: nat,
    error: ErrorView,
    q: nat,
)
    requires
        from_js_run(view, DEPTH_LIMIT as nat, j, p) == Some((Err::<ScriptView, ErrorView>(error), q)),
    ensures
        p <= q,
        reading_fails(view, error, j, p, q),
{
    lemma_from_js_asks_nothing(view, DEPTH_LIMIT as nat, j, p);
    lemma_nested_fails(view, Seq::empty(), DEPTH_LIMIT as nat, j, p, error, q, view, p);
}

/// A value of the engine is converted into what it reads as: numbers, texts and truth values into
/// themselves, arrays and objects part by part, wrappers into the host values that they wrap, and
/// functions into numbers under which they are stored.
pub proof fn law_values_are_read(view: JsView, j: Seq<Step>, p: nat, value: ScriptView, q: nat)
    requires
        from_js_run(view, DEPTH_LIMIT as nat, j, p) == Some((Ok::<ScriptView, ErrorView>(value), q)),
    ensures
        p <= q,
        reads(view, value, j, p, q, DEPTH_LIMIT as nat),
        asks_nothing(j, p, q),
        all_reading(j, p, q),
{
    lemma_from_js_asks_nothing(view, DEPTH_LIMIT as nat, j, p);
    lemma_nested_reads(view, Seq::empty(), DEPTH_LIMIT as nat, j, p, value, q, p, q);
}

/// What is neither an array nor an object without more is converted at once, and what no script value
/// stands for is refused with a reason.
pub proof fn law_simple_values_are_converted(view: JsView, j: Seq<Step>, p: nat)
    requires
        !(view is Object) || (view->Object_0.reference is Some || view->Object_0.token is Some)
            && !view->Object_0.callable,
    ensures
        from_js_run(view, DEPTH_LIMIT as nat, j, p) matches Some((result, q)) && q == p && match view {
            JsView::BigInt(_) | JsView::Symbol(_) => result == Err::<ScriptView, ErrorView>(
                ErrorView::UnsupportedOperation(UNSUPPORTED@),
            ),
            JsView::Rational(bits) => if finite(bits) {
                result is Ok && reads_double(bits, result->Ok_0)
            } else {
                result == Err::<ScriptView, ErrorView>(ErrorView::UnsupportedOperation(UNSUPPORTED@))
            },
            JsView::Object(object) => match object.reference {
                Some(reference) => result == Ok::<ScriptView, ErrorView>(
                    ScriptView::Reference(ReflectReference(reference)),
                ),
                None => result == Err::<ScriptView, ErrorView>(
                    ErrorView::UnsupportedOperation(NO_VALUE@),
                ),
            },
            _ => result is Ok && reads(view, result->Ok_0, j, p, p, DEPTH_LIMIT as nat),
        },
{
    if let JsView::Rational(bits) = view {
        law_numbers_keep_their_value(bits);
        if finite(bits) && whole_of(bits) is Some {
            assert(represents(bits, whole_of(bits)->0 as int));
        }
    }
}

/// A wrapper of a host value was made, with the prototype that was read from its place before.
pub open spec fn wraps_at(j: Seq<Step>, at: nat, reference: ReflectReference, view: JsView) -> bool {
    at > 0 && exists|global: JsView| #[trigger]
        get_reply(j, (at - 1) as nat, global, name_key(PROTOTYPE@)) matches Some(found)
            && reference_reply(
            j,
            at,
            if found matches Ok(JsView::Object(_)) {
                Some(found->Ok_0)
            } else {
                None
            },
            reference.0,
        ) == Some(view)
}

/// A step gave an object a property.
pub open spec fn gives_property(
    j: Seq<Step>,
    lo: nat,
    hi: nat,
    object: JsView,
    key: Seq<u16>,
    value: JsView,
) -> bool {
    exists|at: nat| lo <= at < hi && #[trigger] inserts(j, at, object, key, value)
}

/// A value of the engine was made of a script value: steps between two positions of a journal made it,
/// and each part of it was made of the part of the script value in its place.
pub open spec fn renders_as(value: ScriptValue, view: JsView, j: Seq<Step>, lo: nat, hi: nat) -> bool
    decreases value,
{
    match value {
        ScriptValue::Unit => view == JsView::Undefined,
        ScriptValue::Bool(truth) => view == JsView::Boolean(truth),
        ScriptValue::Integer(integer) => view == JsView::Rational(js_double(integer)),
        ScriptValue::Float(bits) => exists|at: nat|
            lo <= at < hi && #[trigger] number_reply(j, at, bits) == Some(view),
        ScriptValue::String(text) => view == JsView::Str(js_units(text@)),
        ScriptValue::Reference(reference) => exists|at: nat|
            lo < at < hi && #[trigger] wraps_at(j, at, reference, view),
        ScriptValue::Function(function) => exists|at: nat|
            lo <= at < hi && #[trigger] function_reply(
                j,
                at,
                "hostFn"@,
                0,
                Native::HostFunction(function),
            ) == Some(view),
        ScriptValue::FunctionMut(handle) => exists|at: nat|
            lo <= at < hi && #[trigger] function_reply(
                j,
                at,
                "hostFn"@,
                0,
                Native::HostFunctionMut(handle),
            ) == Some(view),
        ScriptValue::List(values) => exists|at: nat, elements: Seq<JsView>|
            {
                &&& lo <= at < hi
                &&& #[trigger] array_reply(j, at, elements) == Some(view)
                &&& elements.len() == values@.len()
                &&& forall|k: int|
                    0 <= k < values@.len() ==> renders_as(
                        #[trigger] values@[k],
                        elements[k],
                        j,
                        lo,
                        hi,
                    )
            },
        ScriptValue::Record(map) => exists|at: nat, made: Seq<JsView>|
            {
                &&& lo <= at < hi
                &&& #[trigger] makes_record(j, at, view, made)
                &&& made.len() == map.entries@.len()
                &&& forall|k: int|
                    0 <= k < map.entries@.len() ==> {
                        &&& renders_as((#[trigger] map.entries@[k]).1, made[k], j, lo, hi)
                        &&& gives_property(
                            j,
                            lo,
                            hi,
                            view,
                            js_units(map.entries@[k].0@),
                            made[k],
                        )
                    }
            },
        ScriptValue::Error(_) => false,
    }
}

/// A step made an object, for values that become its properties.
pub open spec fn makes_record(j: Seq<Step>, at: nat, view: JsView, made: Seq<JsView>) -> bool {
    record_reply(j, at) == Some(view)
}

/// A step that makes a value of the engine.
pub open spec fn is_making(step: Step) -> bool {
    match step {
        Step::Global { .. } => true,
        Step::Get { key, .. } => key == name_key(PROTOTYPE@),
        Step::NewArray { .. } => true,
        Step::NewRecord { .. } => true,
        Step::Insert { .. } => true,
        Step::NewNumber { .. } => true,
        Step::NewReference { .. } => true,
        Step::NewFunction { .. } => true,
        _ => false,
    }
}

/// All steps between two positions make values of the engine.
pub open spec fn all_making(j: Seq<Step>, p: nat, q: nat) -> bool {
    forall|at: int| p <= at < q ==> is_making(#[trigger] j[at])
}

/// Making a value takes no other steps than those of making.
pub proof fn lemma_into_js_making(value: ScriptValue, j: Seq<Step>, p: nat)
    ensures
        into_js_run(value, j, p) matches Some((_, q)) ==> p <= q && all_making(j, p, q),
    decreases value, 0nat,
{
    match value {
        ScriptValue::List(values) => lemma_elements_making(values@, 0, Seq::empty(), j, p),
        ScriptValue::Record(map) => {
            lemma_properties_making(map.entries@, 0, Seq::empty(), j, p);
            if let Some((Ok(entries), q)) = properties_run(map.entries@, 0, Seq::empty(), j, p) {
                if let Some(made) = record_reply(j, q) {
                    lemma_inserts_making(made, entries, 0, j, q + 1);
                }
            }
        },
        _ => {},
    }
}

/// Giving properties takes no other steps than those of making.
proof fn lemma_inserts_making(
    object: JsView,
    entries: Seq<(Seq<u16>, JsView)>,
    i: nat,
    j: Seq<Step>,
    p: nat,
)
    ensures
        inserts_run(object, entries, i, j, p) matches Some((_, q)) ==> p <= q && all_making(j, p, q),
    decreases entries.len() - i,
{
    if i < entries.len() {
        lemma_inserts_making(object, entries, i + 1, j, p + 1);
    }
}

/// Making values takes no other steps than those of making.
pub proof fn lemma_elements_making(
    values: Seq<ScriptValue>,
    i: nat,
    done: Seq<JsView>,
    j: Seq<Step>,
    p: nat,
)
    ensures
        elements_run(values, i, done, j, p) matches Some((_, q)) ==> p <= q && all_making(j, p, q),
    decreases values, values.len() - i,
{
    if i < values.len() {
        lemma_into_js_making(values[i as int], j, p);
        if let Some((Ok(made), q)) = into_js_run(values[i as int], j, p) {
            lemma_elements_making(values, i + 1, done.push(made), j, q);
        }
    }
}

/// Making values of entries takes no other steps than those of making.
proof fn lemma_properties_making(
    entries: Seq<(String, ScriptValue)>,
    i: nat,
    done: Seq<(Seq<u16>, JsView)>,
    j: Seq<Step>,
    p: nat,
)
    ensures
        properties_run(entries, i, done, j, p) matches Some((_, q)) ==> p <= q && all_making(
            j,
            p,
            q,
        ),
    decreases entries, entries.len() - i,
{
    if i < entries.len() {
        lemma_into_js_making(entries[i as int].1, j, p);
        if let Some((Ok(made), q)) = into_js_run(entries[i as int].1, j, p) {
            lemma_properties_making(
                entries,
                i + 1,
                done.push((js_units(entries[i as int].0@), made)),
                j,
                q,
            );
        }
    }
}

/// What a conversion makes renders the script value.
proof fn lemma_into_js_renders(
    value: ScriptValue,
    j: Seq<Step>,
    p: nat,
    view: JsView,
    q: nat,
    lo: nat,
    hi: nat,
)
    requires
        into_js_run(value, j, p) == Some((Ok::<JsView, ErrorView>(view), q)),
        lo <= p,
        q <= hi,
    ensures
        renders_as(value, view, j, lo, hi),
    decreases value, 0nat,
{
    match value {
        ScriptValue::Float(bits) => {
            assert(number_reply(j, p, bits) == Some(view));
        },
        ScriptValue::Reference(reference) => {
            let global = global_reply(j, p)->Some_0;
            let found = get_reply(j, p + 1, global, name_key(PROTOTYPE@))->Some_0;
            let at = p + 2;
            assert(get_reply(j, (at - 1) as nat, global, name_key(PROTOTYPE@)) == Some(found));
            let prototype = usable_prototype(found);
            assert(reference_reply(j, at, prototype, reference.0) == Some(view));
            assert(wraps_at(j, at, reference, view));
        },
        ScriptValue::Function(function) => {
            let native = Native::HostFunction(function);
            assert(function_reply(j, p, "hostFn"@, 0, native) == Some(view));
        },
        ScriptValue::FunctionMut(handle) => {
            let native = Native::HostFunctionMut(handle);
            assert(function_reply(j, p, "hostFn"@, 0, native) == Some(view));
        },
        ScriptValue::List(values) => {
            let (elements, at) = elements_run(values@, 0, Seq::empty(), j, p)->Some_0;
            let elements = elements->Ok_0;
            lemma_elements_making(values@, 0, Seq::empty(), j, p);
            lemma_elements_render(values@, 0, Seq::empty(), j, p, elements, at, lo, hi);
            assert(array_reply(j, at, elements) == Some(view));
        },
        ScriptValue::Record(map) => {
            let entries = map.entries@;
            let (properties, at) = properties_run(entries, 0, Seq::empty(), j, p)->Some_0;
            let properties = properties->Ok_0;
            let own = record_reply(j, at)->Some_0;
            lemma_properties_making(entries, 0, Seq::empty(), j, p);
            lemma_inserts_making(own, properties, 0, j, at + 1);
            lemma_properties_render(entries, 0, Seq::empty(), j, p, properties, at, lo, hi);
            lemma_inserts_give(own, properties, 0, j, at + 1, lo, hi);
            let made = Seq::new(properties.len(), |k: int| properties[k].1);
            assert(makes_record(j, at, view, made));
            assert forall|k: int| 0 <= k < entries.len() implies {
                &&& renders_as((#[trigger] entries[k]).1, made[k], j, lo, hi)
                &&& gives_property(j, lo, hi, view, js_units(entries[k].0@), made[k])
            } by {
                assert(properties[k].0 == js_units(entries[k].0@));
            }
        },
        _ => {},
    }
}

/// Giving properties gives each of them.
proof fn lemma_inserts_give(
    object: JsView,
    entries: Seq<(Seq<u16>, JsView)>,
    i: nat,
    j: Seq<Step>,
    p: nat,
    lo: nat,
    hi: nat,
)
    requires
        inserts_run(object, entries, i, j, p) matches Some((result, q)) && q <= hi,
        lo <= p,
    ensures
        inserts_run(object, entries, i, j, p)->Some_0.0 == Ok::<JsView, ErrorView>(object),
        forall|k: int|
            i <= k < entries.len() ==> gives_property(
                j,
                lo,
                hi,
                object,
                (#[trigger] entries[k]).0,
                entries[k].1,
            ),
    decreases entries.len() - i,
{
    if i < entries.len() {
        lemma_inserts_making(object, entries, i + 1, j, p + 1);
        lemma_inserts_give(object, entries, i + 1, j, p + 1, lo, hi);
        assert(inserts(j, p, object, entries[i as int].0, entries[i as int].1));
    }
}

/// What conversions make of values renders each of them.
pub proof fn lemma_elements_render(
    values: Seq<ScriptValue>,
    i: nat,
    done: Seq<JsView>,
    j: Seq<Step>,
    p: nat,
    elements: Seq<JsView>,
    q: nat,
    lo: nat,
    hi: nat,
)
    requires
        elements_run(values, i, done, j, p) == Some((Ok::<Seq<JsView>, ErrorView>(elements), q)),
        lo <= p,
        q <= hi,
        i <= values.len(),
        done.len() == i,
    ensures
        elements.len() == values.len(),
        forall|k: int| 0 <= k < i ==> elements[k] == done[k],
        forall|k: int|
            i <= k < values.len() ==> renders_as(#[trigger] values[k], elements[k], j, lo, hi),
    decreases values, values.len() - i,
{
    if i < values.len() {
        let (made, r) = into_js_run(values[i as int], j, p)->Some_0;
        let made = made->Ok_0;
        lemma_into_js_making(values[i as int], j, p);
        lemma_elements_making(values, i + 1, done.push(made), j, r);
        lemma_into_js_renders(values[i as int], j, p, made, r, lo, hi);
        lemma_elements_render(values, i + 1, done.push(made), j, r, elements, q, lo, hi);
        assert(elements[i as int] == done.push(made)[i as int]);
        assert forall|k: int| 0 <= k < i implies elements[k] == done[k] by {
            assert(elements[k] == done.push(made)[k]);
        }
    }
}

/// What conversions make of entries renders each of them.
proof fn lemma_properties_render(
    entries: Seq<(String, ScriptValue)>,
    i: nat,
    done: Seq<(Seq<u16>, JsView)>,
    j: Seq<Step>,
    p: nat,
    properties: Seq<(Seq<u16>, JsView)>,
    q: nat,
    lo: nat,
    hi: nat,
)
    requires
        properties_run(entries, i, done, j, p) == Some(
            (Ok::<Seq<(Seq<u16>, JsView)>, ErrorView>(properties), q),
        ),
        lo <= p,
        q <= hi,
        i <= entries.len(),
        done.len() == i,
    ensures
        properties.len() == entries.len(),
        forall|k: int| 0 <= k < i ==> properties[k] == done[k],
        forall|k: int|
            i <= k < entries.len() ==> {
                &&& renders_as((#[trigger] entries[k]).1, properties[k].1, j, lo, hi)
                &&& properties[k].0 == js_units(entries[k].0@)
            },
    decreases entries, entries.len() - i,
{
    if i < entries.len() {
        let own = entries[i as int];
        let (made, r) = into_js_run(own.1, j, p)->Some_0;
        let made = made->Ok_0;
        let more = done.push((js_units(own.0@), made));
        lemma_into_js_making(own.1, j, p);
        lemma_properties_making(entries, i + 1, more, j, r);
        lemma_into_js_renders(own.1, j, p, made, r, lo, hi);
        lemma_properties_render(entries, i + 1, more, j, r, properties, q, lo, hi);
        assert(properties[i as int] == more[i as int]);
        assert forall|k: int| 0 <= k < i implies properties[k] == done[k] by {
            assert(properties[k] == more[k]);
        }
    }
}

/// A script value is converted into a value of the engine that renders it: numbers, texts and truth
/// values become themselves, lists and maps are made part by part and in their order, host values
/// are wrapped, and functions of the host application are called by functions. An error is what the
/// conversion fails with.
pub proof fn law_values_are_rendered(value: ScriptValue, j: Seq<Step>, p: nat)
    ensures
        into_js_run(value, j, p) matches Some((result, q)) ==> {
            &&& p <= q
            &&& all_making(j, p, q)
            &&& asks_nothing(j, p, q)
            &&& result matches Ok(view) ==> renders_as(value, view, j, p, q)
            &&& result matches Err(error) ==> fails_with(value, error)
        },
{
    lemma_into_js_making(value, j, p);
    if let Some((result, q)) = into_js_run(value, j, p) {
        assert forall|at: int| p <= at < q implies (#[trigger] j[at] matches Step::Ask { query, .. }
            ==> query is FunctionId) by {
            assert(is_making(j[at]));
        }
        if result is Ok {
            lemma_into_js_renders(value, j, p, result->Ok_0, q, p, q);
        } else {
            lemma_into_js_fails(value, j, p);
        }
    }
}

/// A script value is an error, or an error occurs in it.
pub open spec fn fails_with(value: ScriptValue, error: ErrorView) -> bool
    decreases value,
{
    match value {
        ScriptValue::Error(own) => own@ == error,
        ScriptValue::List(values) => exists|k: int|
            0 <= k < values@.len() && fails_with(#[trigger] values@[k], error),
        ScriptValue::Record(map) => exists|k: int|
            0 <= k < map.entries@.len() && fails_with((#[trigger] map.entries@[k]).1, error),
        _ => false,
    }
}

/// A conversion fails with nothing but an error that occurs in the script value.
proof fn lemma_into_js_fails(value: ScriptValue, j: Seq<Step>, p: nat)
    ensures
        into_js_run(value, j, p) matches Some((Err(error), _)) ==> fails_with(value, error),
    decreases value, 0nat,
{
    match value {
        ScriptValue::List(values) => lemma_elements_fail(values@, 0, Seq::empty(), j, p),
        ScriptValue::Record(map) => {
            lemma_properties_fail(map.entries@, 0, Seq::empty(), j, p);
            if let Some((Ok(entries), q)) = properties_run(map.entries@, 0, Seq::empty(), j, p) {
                if let Some(made) = record_reply(j, q) {
                    if let Some((_, r)) = inserts_run(made, entries, 0, j, q + 1) {
                        lemma_inserts_give(made, entries, 0, j, q + 1, 0, r);
                    }
                }
            }
        },
        _ => {},
    }
}

/// Conversions of values fail with nothing but an error that occurs in one of them.
pub proof fn lemma_elements_fail(
    values: Seq<ScriptValue>,
    i: nat,
    done: Seq<JsView>,
    j: Seq<Step>,
    p: nat,
)
    ensures
        elements_run(values, i, done, j, p) matches Some((Err(error), _)) ==> exists|k: int|
            0 <= k < values.len() && fails_with(#[trigger] values[k], error),
    decreases values, values.len() - i,
{
    if i < values.len() {
        lemma_into_js_fails(values[i as int], j, p);
        if let Some((Ok(made), q)) = into_js_run(values[i as int], j, p) {
            lemma_elements_fail(values, i + 1, done.push(made), j, q);
        }
    }
}

/// Conversions of entries fail with nothing but an error that occurs in one of them.
proof fn lemma_properties_fail(
    entries: Seq<(String, ScriptValue)>,
    i: nat,
    done: Seq<(Seq<u16>, JsView)>,
    j: Seq<Step>,
    p: nat,
)
    ensures
        properties_run(entries, i, done, j, p) matches Some((Err(error), _)) ==> exists|k: int|
            0 <= k < entries.len() && fails_with((#[trigger] entries[k]).1, error),
    decreases entries, entries.len() - i,
{
    if i < entries.len() {
        lemma_into_js_fails(entries[i as int].1, j, p);
        if let Some((Ok(made), q)) = into_js_run(entries[i as int].1, j, p) {
            lemma_properties_fail(
                entries,
                i + 1,
                done.push((js_units(entries[i as int].0@), made)),
                j,
                q,
            );
        }
    }
}

/// What a conversion gives is what the value reads as, by the steps between wider positions.
pub proof fn lemma_reads(
    view: JsView,
    j: Seq<Step>,
    p: nat,
    value: ScriptView,
    q: nat,
    lo: nat,
    hi: nat,
)
    requires
        from_js_run(view, DEPTH_LIMIT as nat, j, p) == Some((Ok::<ScriptView, ErrorView>(value), q)),
        lo <= p,
        q <= hi,
    ensures
        reads(view, value, j, lo, hi, DEPTH_LIMIT as nat),
{
    lemma_nested_reads(view, Seq::empty(), DEPTH_LIMIT as nat, j, p, value, q, lo, hi);
}

/// What a conversion makes renders the script value, by the steps between wider positions.
pub proof fn lemma_renders(
    value: ScriptValue,
    j: Seq<Step>,
    p: nat,
    view: JsView,
    q: nat,
    lo: nat,
    hi: nat,
)
    requires
        into_js_run(value, j, p) == Some((Ok::<JsView, ErrorView>(view), q)),
        lo <= p,
        q <= hi,
    ensures
        renders_as(value, view, j, lo, hi),
{
    lemma_into_js_renders(value, j, p, view, q, lo, hi);
}

} // verus!
