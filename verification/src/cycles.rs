//! Values of the engine that contain themselves.
use crate::data::{covers, denotes, holds_data, lemma_denotes_later, mapless, COUNT_LIMIT};
use crate::engine::{js_text, JsNode, JsView};
use crate::session::{own_elements, own_properties};
use crate::value::ScriptView;
use vstd::prelude::*;

verus! {

/// An array has an element, or an object a property, that is a value.
pub open spec fn contains(heap: Map<nat, JsNode>, whole: JsView, part: JsView) -> bool {
    ||| holds_data(whole, true) && (own_elements(heap, whole) matches Some(elements)
        && elements.contains(part))
    ||| holds_data(whole, false) && (own_properties(heap, whole) matches Some(data) && exists|
        key: Seq<u16>,
    | #[trigger] data.contains_key(key) && data[key] == part)
}

/// The elements of an array, or the properties of an object, can be told apart by an index.
pub open spec fn countable(heap: Map<nat, JsNode>, view: JsView) -> bool {
    ||| holds_data(view, true) && (own_elements(heap, view) matches Some(elements)
        && elements.len() <= COUNT_LIMIT)
    ||| holds_data(view, false) && (own_properties(heap, view) matches Some(data)
        && data.dom().finite() && data.dom().len() <= COUNT_LIMIT)
}

/// A value holds some script value, which is nested less deep than a bound, with or without maps.
pub open spec fn holds(heap: Map<nat, JsNode>, view: JsView, maps: bool, depth: nat) -> bool {
    exists|value: ScriptView| #[trigger]
        denotes(heap, view, value, depth) && (maps || mapless(value))
}

/// The value that comes after an index of a path that leads to a value.
pub open spec fn next_on(path: Seq<JsView>, view: JsView, i: int) -> JsView {
    if i + 1 < path.len() {
        path[i + 1]
    } else {
        view
    }
}

/// Each value on a path contains the next one, and the last one contains a value.
pub open spec fn leads(heap: Map<nat, JsNode>, path: Seq<JsView>, view: JsView) -> bool {
    forall|i: int|
        0 <= i < path.len() ==> contains(heap, #[trigger] path[i], next_on(path, view, i))
}

/// Each way down from a value, below a path and less deep than a bound, comes to data, or back to a
/// value that it came from, and at least one comes back. It goes through arrays, or through objects too.
pub open spec fn loops(
    heap: Map<nat, JsNode>,
    path: Seq<JsView>,
    view: JsView,
    maps: bool,
    depth: nat,
) -> bool
    decreases depth,
{
    if depth == 0 {
        false
    } else if path.contains(view) {
        holds_data(view, true) || holds_data(view, false)
    } else {
        let below = (depth - 1) as nat;
        &&& maps || holds_data(view, true)
        &&& countable(heap, view)
        &&& exists|part: JsView| #[trigger]
            contains(heap, view, part) && loops(heap, path.push(view), part, maps, below)
        &&& forall|part: JsView| #[trigger]
            contains(heap, view, part) ==> loops(heap, path.push(view), part, maps, below) || holds(
                heap,
                part,
                maps,
                below,
            )
    }
}

/// A path leads on to what its last value contains.
pub proof fn lemma_leads_on(
    heap: Map<nat, JsNode>,
    later: Map<nat, JsNode>,
    path: Seq<JsView>,
    view: JsView,
    part: JsView,
)
    requires
        covers(later, heap),
        leads(heap, path, view),
        contains(heap, view, part),
    ensures
        leads(later, path.push(view), part),
{
    let longer = path.push(view);
    assert forall|i: int| 0 <= i < longer.len() implies contains(
        later,
        #[trigger] longer[i],
        next_on(longer, part, i),
    ) by {
        if i < path.len() {
            assert(contains(heap, path[i], next_on(path, view, i)));
            lemma_contains_later(heap, later, path[i], next_on(path, view, i));
        } else {
            lemma_contains_later(heap, later, view, part);
        }
    }
}

/// What an array or an object contains, it contains after the heap grew.
pub proof fn lemma_contains_later(
    heap: Map<nat, JsNode>,
    later: Map<nat, JsNode>,
    whole: JsView,
    part: JsView,
)
    requires
        covers(later, heap),
        contains(heap, whole, part),
    ensures
        contains(later, whole, part),
{
    let id = whole->Object_0.id;
    assert(heap.contains_key(id));
}

/// What a value that holds data contains holds data that is nested less deep.
proof fn lemma_part_holds(
    heap: Map<nat, JsNode>,
    whole: JsView,
    part: JsView,
    value: ScriptView,
    depth: nat,
) -> (inner: ScriptView)
    requires
        contains(heap, whole, part),
        denotes(heap, whole, value, depth),
    ensures
        depth > 0,
        denotes(heap, part, inner, (depth - 1) as nat),
{
    match value {
        ScriptView::List(values) => {
            let elements = own_elements(heap, whole)->0;
            let i = choose|i: int| 0 <= i < elements.len() && elements[i] == part;
            assert(denotes(heap, elements[i], values[i], (depth - 1) as nat));
            values[i]
        },
        ScriptView::Record(map) => {
            let data = own_properties(heap, whole)->0;
            let key = choose|key: Seq<u16>| #[trigger] data.contains_key(key) && data[key] == part;
            map[js_text(key)]
        },
        _ => value,
    }
}

/// From a value on a path that holds data, the path leads to data that is nested less deep.
proof fn lemma_way_down(
    heap: Map<nat, JsNode>,
    path: Seq<JsView>,
    view: JsView,
    i: int,
    value: ScriptView,
    depth: nat,
) -> (end: (ScriptView, nat))
    requires
        leads(heap, path, view),
        0 <= i < path.len(),
        denotes(heap, path[i], value, depth),
    ensures
        end.1 < depth,
        denotes(heap, view, end.0, end.1),
    decreases path.len() - i,
{
    let inner = lemma_part_holds(heap, path[i], next_on(path, view, i), value, depth);
    if i + 1 < path.len() {
        lemma_way_down(heap, path, view, i + 1, inner, (depth - 1) as nat)
    } else {
        (inner, (depth - 1) as nat)
    }
}

/// A value that holds data is on no path that leads to it.
pub proof fn lemma_data_does_not_loop(
    heap: Map<nat, JsNode>,
    path: Seq<JsView>,
    view: JsView,
    value: ScriptView,
    depth: nat,
)
    requires
        leads(heap, path, view),
        denotes(heap, view, value, depth),
    ensures
        !path.contains(view),
    decreases depth,
{
    if path.contains(view) {
        let i = choose|i: int| 0 <= i < path.len() && path[i] == view;
        let (inner, below) = lemma_way_down(heap, path, view, i, value, depth);
        lemma_data_does_not_loop(heap, path, view, inner, below);
    }
}

/// What comes back to itself comes back to itself after the heap grew.
pub proof fn lemma_loops_later(
    heap: Map<nat, JsNode>,
    later: Map<nat, JsNode>,
    path: Seq<JsView>,
    view: JsView,
    maps: bool,
    depth: nat,
)
    requires
        covers(later, heap),
        loops(heap, path, view, maps, depth),
    ensures
        loops(later, path, view, maps, depth),
    decreases depth,
{
    if !path.contains(view) {
        let below = (depth - 1) as nat;
        let id = view->Object_0.id;
        assert(heap.contains_key(id));
        let part = choose|part: JsView| #[trigger]
            contains(heap, view, part) && loops(heap, path.push(view), part, maps, below);
        lemma_loops_later(heap, later, path.push(view), part, maps, below);
        assert(contains(later, view, part));
        assert forall|part: JsView| #[trigger] contains(later, view, part) implies loops(
            later,
            path.push(view),
            part,
            maps,
            below,
        ) || holds(later, part, maps, below) by {
            assert(contains(heap, view, part));
            if loops(heap, path.push(view), part, maps, below) {
                lemma_loops_later(heap, later, path.push(view), part, maps, below);
            } else {
                let value = choose|value: ScriptView| #[trigger]
                    denotes(heap, part, value, below) && (maps || mapless(value));
                lemma_denotes_later(heap, later, part, value, below);
            }
        }
    }
}

/// An array that is its own element contains itself.
pub proof fn law_array_in_itself_loops(heap: Map<nat, JsNode>, array: JsView, maps: bool, depth: nat)
    requires
        holds_data(array, true),
        own_elements(heap, array) == Some(seq![array]),
        depth >= 2,
    ensures
        loops(heap, Seq::empty(), array, maps, depth),
{
    let path = Seq::<JsView>::empty();
    let below = (depth - 1) as nat;
    assert(seq![array][0] == array);
    assert(contains(heap, array, array));
    assert(path.push(array)[0] == array);
    assert(loops(heap, path.push(array), array, maps, below));
    assert forall|part: JsView| #[trigger] contains(heap, array, part) implies part == array by {}
}

} // verus!
