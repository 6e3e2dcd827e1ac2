//! What the functions that scripts call do: what they ask the host application, and what they make of
//! the answers.
use crate::calls::{
    convert_all_run, convert_run, find_run, hand_back_run, or_throw, throw_run, value_run,
    world_run, Blame,
};
use crate::components::{
    all_resolve_to, all_resolving, gives_reason, is_reason, is_resolving,
    law_all_arguments_are_resolved, law_resolving_fails_for_a_reason, lemma_all_resolving,
    resolve_all_run, takes_components,
};
use crate::conversion_laws::{
    fails_with, law_reading_fails_for_a_reason, law_values_are_rendered, lemma_from_js_asks_nothing,
    lemma_reads, lemma_renders, reading_fails, reads, renders_as,
};
use crate::dialogue::{
    asked, asks, asks_nothing, lemma_asked_first, lemma_asked_joined, lemma_asked_later,
    lemma_asked_nothing, nth,
};
use crate::engine::{js_text, FailureView, JsView};
use crate::from_js::{from_js_run, DEPTH_LIMIT};
use crate::host::{misfit, Answer, CallTarget, MISFIT, QueryView};
use crate::into_js::into_js_run;
use crate::native::{forward_run, native_run, Native};
use crate::reference::{
    bound_run, components_run, next_run, overloads_run, rr_call_run, rr_get_run, rr_len_run,
    rr_method_run, rr_set_run, rr_static_set_run, rr_symbol_iterator_run, rr_to_string_run,
    set_field_run, sref_call_run, sref_fn_run,
};
use crate::session::{
    and_then, function_reply, host_reply, name_key, named_reply, object_reply, put_reply, KeyView,
    Step,
};
use crate::value::{ErrorView, FunctionRef, HostType, ReflectReference, ScriptValue, ScriptView};
use std::any::TypeId;
use vstd::prelude::*;

verus! {

/// A value wraps a host value.
pub open spec fn wraps(view: JsView, target: ReflectReference) -> bool {
    view matches JsView::Object(object) && object.reference == Some(target.0)
}

/// A value stands for a type.
pub open spec fn stands_for(view: JsView, token: TypeId) -> bool {
    view matches JsView::Object(object) && object.token == Some(token)
}

/// A value is a string that reads as a name.
pub open spec fn names(view: JsView, name: Seq<char>) -> bool {
    view matches JsView::Str(units) && js_text(units) == name
}

/// A value reads as a script value, by the steps between two positions.
pub open spec fn holds(view: JsView, value: ScriptView, j: Seq<Step>, lo: nat, hi: nat) -> bool {
    reads(view, value, j, lo, hi, DEPTH_LIMIT as nat)
}

/// Values read as script values, each as what is in its place.
pub open spec fn all_hold(
    views: Seq<JsView>,
    values: Seq<ScriptView>,
    j: Seq<Step>,
    lo: nat,
    hi: nat,
) -> bool {
    &&& values.len() == views.len()
    &&& forall|k: int| 0 <= k < views.len() ==> holds(#[trigger] views[k], values[k], j, lo, hi)
}

/// The host application answered a question with a value, of which a value of the engine was made.
pub open spec fn gives_back(
    query: QueryView,
    result: JsView,
    j: Seq<Step>,
    lo: nat,
    hi: nat,
) -> bool {
    exists|at: nat, value: ScriptValue|
        {
            &&& lo <= at < hi
            &&& #[trigger] asks(j, at, query, Answer::Value(value))
            &&& renders_as(value, result, j, at + 1, hi)
        }
}

/// What an argument was converted into is what it reads as, and nothing was asked meanwhile.
proof fn lemma_converted(
    blame: Blame,
    view: JsView,
    j: Seq<Step>,
    p: nat,
    value: ScriptView,
    q: nat,
    lo: nat,
    hi: nat,
)
    requires
        convert_run(blame, view, j, p) == Some((Ok::<ScriptView, FailureView>(value), q)),
        lo <= p,
        q <= hi,
    ensures
        p <= q,
        asks_nothing(j, p, q),
        holds(view, value, j, lo, hi),
{
    lemma_from_js_asks_nothing(view, DEPTH_LIMIT as nat, j, p);
    lemma_reads(view, j, p, value, q, lo, hi);
}

/// Converting an argument never goes back in the journal.
proof fn lemma_convert_goes_on(blame: Blame, view: JsView, j: Seq<Step>, p: nat)
    ensures
        convert_run(blame, view, j, p) matches Some((_, q)) ==> p <= q,
{
    lemma_from_js_asks_nothing(view, DEPTH_LIMIT as nat, j, p);
}

/// What arguments from an index on were converted into is what they read as, and nothing was asked
/// meanwhile.
proof fn lemma_all_converted(
    blame: Blame,
    views: Seq<JsView>,
    i: nat,
    done: Seq<ScriptView>,
    j: Seq<Step>,
    p: nat,
    values: Seq<ScriptView>,
    q: nat,
    lo: nat,
    hi: nat,
)
    requires
        convert_all_run(blame, views, i, done, j, p) == Some(
            (Ok::<Seq<ScriptView>, FailureView>(values), q),
        ),
        i <= views.len(),
        lo <= p,
        q <= hi,
    ensures
        p <= q,
        asks_nothing(j, p, q),
        values.len() == done.len() + views.len() - i,
        forall|k: int| 0 <= k < done.len() ==> values[k] == done[k],
        forall|k: int|
            i <= k < views.len() ==> holds(
                #[trigger] views[k],
                values[k - i + done.len()],
                j,
                lo,
                hi,
            ),
    decreases views.len() - i,
{
    if i < views.len() {
        let (value, r) = convert_run(blame, views[i as int], j, p)->Some_0;
        let value = value->Ok_0;
        let more = done.push(value);
        lemma_convert_all_goes_on(blame, views, i + 1, more, j, r);
        lemma_converted(blame, views[i as int], j, p, value, r, lo, hi);
        lemma_all_converted(blame, views, i + 1, more, j, r, values, q, lo, hi);
        assert(values[done.len() as int] == more[done.len() as int]);
        assert forall|k: int| 0 <= k < done.len() implies values[k] == done[k] by {
            assert(values[k] == more[k]);
        }
    }
}

/// Converting arguments never goes back in the journal.
proof fn lemma_convert_all_goes_on(
    blame: Blame,
    views: Seq<JsView>,
    i: nat,
    done: Seq<ScriptView>,
    j: Seq<Step>,
    p: nat,
)
    ensures
        convert_all_run(blame, views, i, done, j, p) matches Some((_, q)) ==> p <= q,
    decreases views.len() - i,
{
    if i < views.len() {
        lemma_convert_goes_on(blame, views[i as int], j, p);
        if let Some((Ok(value), q)) = convert_run(blame, views[i as int], j, p) {
            lemma_convert_all_goes_on(blame, views, i + 1, done.push(value), j, q);
        }
    }
}

/// The arguments after the first ones read as what they were converted into.
proof fn lemma_rest_converted(
    blame: Blame,
    views: Seq<JsView>,
    i: nat,
    j: Seq<Step>,
    p: nat,
    values: Seq<ScriptView>,
    q: nat,
    lo: nat,
    hi: nat,
)
    requires
        convert_all_run(blame, views, i, Seq::empty(), j, p) == Some(
            (Ok::<Seq<ScriptView>, FailureView>(values), q),
        ),
        i <= views.len(),
        lo <= p,
        q <= hi,
    ensures
        p <= q,
        asks_nothing(j, p, q),
        all_hold(views.skip(i as int), values, j, lo, hi),
{
    lemma_all_converted(blame, views, i, Seq::empty(), j, p, values, q, lo, hi);
    assert forall|k: int| 0 <= k < views.skip(i as int).len() implies holds(
        #[trigger] views.skip(i as int)[k],
        values[k],
        j,
        lo,
        hi,
    ) by {
        assert(holds(views[k + i], values[k], j, lo, hi));
    }
}

/// A question whose answer is handed back is the only one from there on.
proof fn lemma_answer_is_given_back(
    query: QueryView,
    j: Seq<Step>,
    at: nat,
    value: ScriptValue,
    result: JsView,
    q: nat,
    lo: nat,
)
    requires
        lo <= at,
        !(query is FunctionId),
        asks(j, at, query, Answer::Value(value)),
        into_js_run(value, j, at + 1) == Some((Ok::<JsView, ErrorView>(result), q)),
    ensures
        at < q,
        asked(j, at, q) == seq![query],
        gives_back(query, result, j, lo, q),
{
    law_values_are_rendered(value, j, at + 1);
    lemma_asked_first(j, at, q, query, Answer::Value(value));
    lemma_asked_nothing(j, at + 1, q);
    assert(asked(j, at, q) =~= seq![query]);
}

/// A field of the host value that a value wraps was read, under the key that the first argument reads as.
pub open spec fn gets_field(
    this: JsView,
    arguments: Seq<JsView>,
    j: Seq<Step>,
    p: nat,
    result: JsView,
    q: nat,
) -> bool {
    &&& exists|target: ReflectReference, key: ScriptView|
        {
            let query = QueryView::GetField { target, key };
            &&& #[trigger] wraps(this, target)
            &&& #[trigger] holds(nth(arguments, 0), key, j, p, q)
            &&& asked(j, p, q) == seq![QueryView::World, query]
            &&& gives_back(query, result, j, p, q)
        }
}

/// `get(key)` gives the field of the host value under the key: the host application is asked for it
/// once, with what the argument reads as, and the result is made of the answer.
pub proof fn law_get_gives_the_field(
    this: JsView,
    arguments: Seq<JsView>,
    j: Seq<Step>,
    p: nat,
    result: JsView,
    q: nat,
)
    requires
        rr_get_run(this, arguments, j, p) == Some((Ok::<JsView, FailureView>(result), q)),
    ensures
        gets_field(this, arguments, j, p, result, q),
{
    let target = ReflectReference(this->Object_0.reference->0);
    let view = nth(arguments, 0);
    let (key, at) = convert_run(Blame::Script, view, j, p + 1)->Some_0;
    let key = key->Ok_0;
    let query = QueryView::GetField { target, key };
    lemma_convert_goes_on(Blame::Script, view, j, p + 1);
    let value = value_run(query, j, at)->Some_0.0->Ok_0;
    lemma_answer_is_given_back(query, j, at, value, result, q, p);
    lemma_converted(Blame::Script, view, j, p + 1, key, at, p, q);
    lemma_asked_first(j, p, q, QueryView::World, host_reply(j, p, QueryView::World)->Some_0);
    lemma_asked_later(j, p + 1, at, q);
    assert(asked(j, p, q) =~= seq![QueryView::World, query]);
    assert(wraps(this, target) && holds(view, key, j, p, q));
}

/// Writing a field tells the host application the key and the value that the arguments read as, once,
/// and gives `undefined`.
proof fn lemma_field_is_written(
    target: ReflectReference,
    key_view: JsView,
    value_view: JsView,
    j: Seq<Step>,
    p: nat,
    result: JsView,
    q: nat,
    lo: nat,
) -> (written: (ScriptView, ScriptView))
    requires
        set_field_run(target, key_view, value_view, j, p) == Some(
            (Ok::<JsView, FailureView>(result), q),
        ),
        lo <= p,
    ensures
        p < q,
        result == JsView::Undefined,
        holds(key_view, written.0, j, lo, q),
        holds(value_view, written.1, j, lo, q),
        asked(j, p, q) == seq![
            QueryView::SetField { target, key: written.0, value: written.1 },
        ],
        exists|at: nat|
            lo <= at < q && #[trigger] asks(
                j,
                at,
                QueryView::SetField { target, key: written.0, value: written.1 },
                Answer::Done,
            ),
{
    let (key, r) = convert_run(Blame::Script, key_view, j, p)->Some_0;
    let key = key->Ok_0;
    let (value, at) = convert_run(Blame::Script, value_view, j, r)->Some_0;
    let value = value->Ok_0;
    let query = QueryView::SetField { target, key, value };
    lemma_convert_goes_on(Blame::Script, key_view, j, p);
    lemma_convert_goes_on(Blame::Script, value_view, j, r);
    lemma_converted(Blame::Script, key_view, j, p, key, r, lo, q);
    lemma_converted(Blame::Script, value_view, j, r, value, at, lo, q);
    lemma_asked_later(j, p, r, q);
    lemma_asked_later(j, r, at, q);
    assert(asks(j, at, query, Answer::Done));
    lemma_asked_first(j, at, q, query, Answer::Done);
    assert(asked(j, at + 1, q) == Seq::<QueryView>::empty());
    assert(asked(j, p, q) =~= seq![query]);
    (key, value)
}

/// The host application was told to write a field of a host value, with what two arguments read as.
pub open spec fn writes_field(
    target: ReflectReference,
    key_view: JsView,
    value_view: JsView,
    j: Seq<Step>,
    p: nat,
    q: nat,
) -> bool {
    exists|key: ScriptView, value: ScriptView|
        {
            &&& #[trigger] holds(key_view, key, j, p, q)
            &&& #[trigger] holds(value_view, value, j, p, q)
            &&& asked(j, p, q) == seq![
                QueryView::World,
                QueryView::SetField { target, key, value },
            ]
            &&& exists|at: nat|
                p <= at < q && #[trigger] asks(
                    j,
                    at,
                    QueryView::SetField { target, key, value },
                    Answer::Done,
                )
        }
}

/// A field of the host value that a value wraps was written, with what the arguments read as.
pub open spec fn sets_field(
    this: JsView,
    arguments: Seq<JsView>,
    j: Seq<Step>,
    p: nat,
    result: JsView,
    q: nat,
) -> bool {
    &&& result == JsView::Undefined
    &&& exists|target: ReflectReference| #[trigger]
        wraps(this, target) && writes_field(
            target,
            nth(arguments, 0),
            nth(arguments, 1),
            j,
            p,
            q,
        )
}

/// `set(key, value)` writes a field of the host value: the host application is told once, with the key
/// and the value that the arguments read as, and does it.
pub proof fn law_set_writes_the_field(
    this: JsView,
    arguments: Seq<JsView>,
    j: Seq<Step>,
    p: nat,
    result: JsView,
    q: nat,
)
    requires
        rr_set_run(this, arguments, j, p) == Some((Ok::<JsView, FailureView>(result), q)),
    ensures
        sets_field(this, arguments, j, p, result, q),
{
    let target = ReflectReference(this->Object_0.reference->0);
    lemma_set_after_world(target, nth(arguments, 0), nth(arguments, 1), j, p, result, q);
    assert(wraps(this, target));
}

/// A field of the host value that the first argument wraps was written, with what the others read as.
pub open spec fn sets_field_of_first(
    this: JsView,
    arguments: Seq<JsView>,
    j: Seq<Step>,
    p: nat,
    result: JsView,
    q: nat,
) -> bool {
    &&& result == JsView::Undefined
    &&& exists|target: ReflectReference| #[trigger]
        wraps(nth(arguments, 0), target) && writes_field(
            target,
            nth(arguments, 1),
            nth(arguments, 2),
            j,
            p,
            q,
        )
}

/// `ref_set(reference, key, value)` writes a field of the host value that its first argument wraps.
pub proof fn law_static_set_writes_the_field(
    this: JsView,
    arguments: Seq<JsView>,
    j: Seq<Step>,
    p: nat,
    result: JsView,
    q: nat,
)
    requires
        rr_static_set_run(this, arguments, j, p) == Some((Ok::<JsView, FailureView>(result), q)),
    ensures
        sets_field_of_first(this, arguments, j, p, result, q),
{
    let target = ReflectReference(nth(arguments, 0)->Object_0.reference->0);
    lemma_set_after_world(target, nth(arguments, 1), nth(arguments, 2), j, p, result, q);
    assert(wraps(nth(arguments, 0), target));
}

/// A field is written after the world was reached.
proof fn lemma_set_after_world(
    target: ReflectReference,
    key_view: JsView,
    value_view: JsView,
    j: Seq<Step>,
    p: nat,
    result: JsView,
    q: nat,
)
    requires
        host_reply(j, p, QueryView::World) is Some,
        set_field_run(target, key_view, value_view, j, p + 1) == Some(
            (Ok::<JsView, FailureView>(result), q),
        ),
    ensures
        result == JsView::Undefined,
        writes_field(target, key_view, value_view, j, p, q),
{
    let (key, value) = lemma_field_is_written(
        target,
        key_view,
        value_view,
        j,
        p + 1,
        result,
        q,
        p,
    );
    let query = QueryView::SetField { target, key, value };
    lemma_asked_first(j, p, q, QueryView::World, host_reply(j, p, QueryView::World)->Some_0);
    assert(asked(j, p, q) =~= seq![QueryView::World, query]);
    assert(holds(key_view, key, j, p, q) && holds(value_view, value, j, p, q));
}

/// The length of the host value that a value wraps was asked for, and is the result.
pub open spec fn gives_length(
    this: JsView,
    arguments: Seq<JsView>,
    j: Seq<Step>,
    p: nat,
    result: JsView,
    q: nat,
) -> bool {
    &&& exists|target: ReflectReference, length: Option<u64>, at: nat|
        {
            &&& #[trigger] wraps(this, target)
            &&& asked(j, p, q) == seq![QueryView::World, QueryView::Length(target)]
            &&& p <= at < q && #[trigger] asks(
                j,
                at,
                QueryView::Length(target),
                Answer::Length(length),
            )
            &&& result == match length {
                Some(count) => JsView::Integer(count as i32),
                None => JsView::Undefined,
            }
        }
}

/// `len()` gives how many elements the host application says that the host value has, as a number with
/// its low 32 bits, or `undefined`.
pub proof fn law_len_gives_the_length(
    this: JsView,
    arguments: Seq<JsView>,
    j: Seq<Step>,
    p: nat,
    result: JsView,
    q: nat,
)
    requires
        rr_len_run(this, arguments, j, p) == Some((Ok::<JsView, FailureView>(result), q)),
    ensures
        gives_length(this, arguments, j, p, result, q),
{
    let target = ReflectReference(this->Object_0.reference->0);
    let query = QueryView::Length(target);
    let answer = host_reply(j, p + 1, query)->Some_0;
    assert(wraps(this, target) && asks(j, p + 1, query, Answer::Length(answer->Length_0)));
    lemma_asked_first(j, p, q, QueryView::World, host_reply(j, p, QueryView::World)->Some_0);
    lemma_asked_first(j, p + 1, q, query, answer);
    assert(asked(j, p + 2, q) == Seq::<QueryView>::empty());
    assert(asked(j, p, q) =~= seq![QueryView::World, query]);
}

/// The question that calls a function of the host application on a host value.
pub open spec fn calling(function: u64, target: ReflectReference) -> QueryView {
    QueryView::Invoke {
        function: FunctionRef::Host(function),
        arguments: seq![ScriptView::Reference(target)],
    }
}

/// A function that the host application has for references was looked up and called on a host value.
pub open spec fn calls_on(
    target: ReflectReference,
    name: Seq<char>,
    function: u64,
    j: Seq<Step>,
    p: nat,
    q: nat,
) -> bool {
    let lookup = QueryView::Lookup { on: HostType::ReflectReference, name };
    &&& asked(j, p, q) == seq![QueryView::World, lookup, calling(function, target)]
    &&& exists|at: nat| p <= at < q && #[trigger] asks(j, at, lookup, Answer::Function(function))
}

/// The host value that a value wraps was displayed.
pub open spec fn displays(
    this: JsView,
    arguments: Seq<JsView>,
    j: Seq<Step>,
    p: nat,
    result: JsView,
    q: nat,
) -> bool {
    &&& exists|target: ReflectReference, function: u64|
        {
            &&& #[trigger] wraps(this, target)
            &&& #[trigger] calls_on(target, "display_ref"@, function, j, p, q)
            &&& gives_back(calling(function, target), result, j, p, q)
        }
}

/// `toString()` gives what the host application's `display_ref` gives for the host value.
pub proof fn law_to_string_displays_the_value(
    this: JsView,
    arguments: Seq<JsView>,
    j: Seq<Step>,
    p: nat,
    result: JsView,
    q: nat,
)
    requires
        rr_to_string_run(this, arguments, j, p) == Some((Ok::<JsView, FailureView>(result), q)),
    ensures
        displays(this, arguments, j, p, result, q),
{
    let target = ReflectReference(this->Object_0.reference->0);
    let lookup = QueryView::Lookup { on: HostType::ReflectReference, name: "display_ref"@ };
    let answer = host_reply(j, p + 1, lookup)->Some_0;
    let function = answer->Function_0;
    assert(asks(j, p + 1, lookup, Answer::Function(function)));
    let query = calling(function, target);
    let value = value_run(query, j, p + 2)->Some_0.0->Ok_0;
    lemma_answer_is_given_back(query, j, p + 2, value, result, q, p);
    lemma_asked_first(j, p, q, QueryView::World, host_reply(j, p, QueryView::World)->Some_0);
    lemma_asked_first(j, p + 1, q, lookup, answer);
    assert(asked(j, p, q) =~= seq![QueryView::World, lookup, query]);
    assert(wraps(this, target) && calls_on(target, "display_ref"@, function, j, p, q));
}

/// An iterator over the host value that a value wraps was made.
pub open spec fn makes_iterator(
    this: JsView,
    arguments: Seq<JsView>,
    j: Seq<Step>,
    p: nat,
    result: JsView,
    q: nat,
) -> bool {
    &&& exists|target: ReflectReference, function: u64, handle: u64, next: JsView|
        {
            &&& #[trigger] wraps(this, target)
            &&& #[trigger] calls_on(target, "iter"@, function, j, p, q)
            &&& asks(
                j,
                (q - 4) as nat,
                calling(function, target),
                Answer::Value(ScriptValue::FunctionMut(handle)),
            )
            &&& p + 4 < q
            &&& object_reply(j, (q - 3) as nat) == Some(result)
            &&& #[trigger] function_reply(j, (q - 2) as nat, "next"@, 0, Native::Next(handle))
                == Some(next)
            &&& #[trigger] put_reply(
                j,
                (q - 1) as nat,
                result,
                name_key("next"@),
                next,
            ) matches Some(Ok(_))
        }
}

/// `[Symbol.iterator]()` gives a new object whose `next` steps with the function that the host
/// application's `iter` gives for the host value.
pub proof fn law_iterator_steps_with_the_host(
    this: JsView,
    arguments: Seq<JsView>,
    j: Seq<Step>,
    p: nat,
    result: JsView,
    q: nat,
)
    requires
        rr_symbol_iterator_run(this, arguments, j, p) == Some((Ok::<JsView, FailureView>(result), q)),
    ensures
        makes_iterator(this, arguments, j, p, result, q),
{
    let target = ReflectReference(this->Object_0.reference->0);
    let lookup = QueryView::Lookup { on: HostType::ReflectReference, name: "iter"@ };
    let answer = host_reply(j, p + 1, lookup)->Some_0;
    let function = answer->Function_0;
    assert(asks(j, p + 1, lookup, Answer::Function(function)));
    let query = calling(function, target);
    let value = value_run(query, j, p + 2)->Some_0.0->Ok_0;
    let handle = value->FunctionMut_0;
    assert(q == p + 6);
    let next = function_reply(j, p + 4, "next"@, 0, Native::Next(handle))->Some_0;
    lemma_asked_first(j, p, q, QueryView::World, host_reply(j, p, QueryView::World)->Some_0);
    lemma_asked_first(j, p + 1, q, lookup, answer);
    lemma_asked_first(j, p + 2, q, query, Answer::Value(value));
    assert(asks_nothing(j, p + 3, q)) by {
        assert forall|at: int| p + 3 <= at < q implies (#[trigger] j[at] matches Step::Ask {
            query,
            ..
        } ==> query is FunctionId) by {
            assert(at == p + 3 || at == p + 4 || at == p + 5);
        }
    }
    lemma_asked_nothing(j, p + 3, q);
    assert(asked(j, p, q) =~= seq![QueryView::World, lookup, query]);
    assert(function_reply(j, (q - 2) as nat, "next"@, 0, Native::Next(handle)) == Some(next));
    assert(wraps(this, target) && calls_on(target, "iter"@, function, j, p, q));
}

/// The question that steps with a function of the host application that keeps state.
pub open spec fn stepping(handle: u64) -> QueryView {
    QueryView::InvokeMut { function: handle, arguments: Seq::empty() }
}

/// An iterator was stepped.
pub open spec fn steps(
    handle: u64,
    j: Seq<Step>,
    p: nat,
    result: JsView,
    q: nat,
) -> bool {
    &&& exists|value: ScriptValue|
        {
            &&& #[trigger] asks(j, p, stepping(handle), Answer::Value(value))
            &&& asked(j, p, q) == seq![stepping(handle)]
            &&& p + 2 < q
            &&& object_reply(j, p + 1) == Some(result)
            &&& put_reply(
                j,
                (q - 1) as nat,
                result,
                name_key("done"@),
                JsView::Boolean(value is Unit),
            ) matches Some(Ok(_))
            &&& if value is Unit {
                q == p + 3
            } else {
                exists|made: JsView|
                    {
                        &&& #[trigger] put_reply(
                            j,
                            (q - 2) as nat,
                            result,
                            name_key("value"@),
                            made,
                        ) matches Some(Ok(_))
                        &&& renders_as(value, made, j, p, (q - 2) as nat)
                    }
            }
        }
}

/// `next()` asks the host application to step, once. Where it gives nothing, the step is done; where it
/// gives a value, the step holds what was made of it and is not done.
pub proof fn law_next_steps_to_the_value(
    handle: u64,
    j: Seq<Step>,
    p: nat,
    result: JsView,
    q: nat,
)
    requires
        next_run(handle, j, p) == Some((Ok::<JsView, FailureView>(result), q)),
    ensures
        steps(handle, j, p, result, q),
{
    let query = stepping(handle);
    let value = value_run(query, j, p)->Some_0.0->Ok_0;
    assert(asks(j, p, query, Answer::Value(value)));
    if value is Unit {
        assert(asks_nothing(j, p + 1, q));
    } else {
        law_values_are_rendered(value, j, p + 2);
        let (made, r) = into_js_run(value, j, p + 2)->Some_0;
        let made = made->Ok_0;
        assert(q == r + 2);
        lemma_renders(value, j, p + 2, made, r, p, r);
        assert(put_reply(j, (q - 2) as nat, result, name_key("value"@), made) matches Some(Ok(_)));
        assert(asks_nothing(j, p + 1, q)) by {
            assert forall|at: int| p + 1 <= at < q implies (#[trigger] j[at] matches Step::Ask {
                query,
                ..
            } ==> query is FunctionId) by {
                assert(at == p + 1 || (p + 2 <= at < r) || at == r || at == r + 1);
            }
        }
    }
    lemma_asked_first(j, p, q, query, Answer::Value(value));
    lemma_asked_nothing(j, p + 1, q);
    assert(asked(j, p, q) =~= seq![query]);
}

/// The methods of a query builder whose arguments stand for components.
pub open spec fn is_component_method(name: Seq<char>) -> bool {
    ||| name == "component"@
    ||| name == "components"@
    ||| name == "with_component"@
    ||| name == "with_components"@
    ||| name == "without_component"@
    ||| name == "without_components"@
}

/// Arguments were made ready for a function: they are what the values read as, or, for a method that
/// takes components, what these stand for.
pub open spec fn makes_ready(
    name: Seq<char>,
    views: Seq<JsView>,
    ready: Seq<ScriptView>,
    j: Seq<Step>,
    lo: nat,
    hi: nat,
) -> bool {
    exists|values: Seq<ScriptView>|
        {
            &&& #[trigger] all_hold(views, values, j, lo, hi)
            &&& if is_component_method(name) {
                exists|from: nat, to: nat|
                    lo <= from && to <= hi && #[trigger] all_resolve_to(values, ready, j, from, to)
            } else {
                ready == values
            }
        }
}

/// The question that calls an overloaded function.
pub open spec fn overloaded(
    on: CallTarget,
    name: Seq<char>,
    arguments: Seq<ScriptView>,
) -> QueryView {
    QueryView::CallOverloads { on, name, arguments }
}

/// The question that calls a method of a host value, with the host value before the arguments.
pub open spec fn method_call(
    target: ReflectReference,
    name: Seq<char>,
    ready: Seq<ScriptView>,
) -> QueryView {
    overloaded(CallTarget::BaseOf(target), name, seq![ScriptView::Reference(target)] + ready)
}

/// A method of a host value was called, in the last question, with the host value and the arguments,
/// and the result was made of the answer. Nothing else was asked than for the world and, if the method
/// takes components, for what resolving them needs.
pub open spec fn calls_host_method(
    target: ReflectReference,
    name: Seq<char>,
    views: Seq<JsView>,
    j: Seq<Step>,
    p: nat,
    result: JsView,
    q: nat,
) -> bool {
    exists|ready: Seq<ScriptView>|
        {
            &&& #[trigger] makes_ready(name, views, ready, j, p, q)
            &&& gives_back(method_call(target, name, ready), result, j, p, q)
            &&& asked(j, p, q).len() > 0 && asked(j, p, q).last() == method_call(
                target,
                name,
                ready,
            )
            &&& asked(j, p, q).contains(QueryView::World)
            &&& forall|k: int|
                0 <= k < asked(j, p, q).len() - 1 ==> #[trigger] asked(j, p, q)[k] is World
                    || is_resolving(asked(j, p, q)[k])
            &&& !is_component_method(name) ==> asked(j, p, q) == seq![
                QueryView::World,
                method_call(target, name, ready),
            ]
        }
}

/// A function of a type was called, once, with what the arguments read as, and the result was made of
/// the answer.
pub open spec fn calls_host_function(
    on: CallTarget,
    name: Seq<char>,
    views: Seq<JsView>,
    j: Seq<Step>,
    p: nat,
    result: JsView,
    q: nat,
) -> bool {
    exists|values: Seq<ScriptView>|
        {
            &&& #[trigger] all_hold(views, values, j, p, q)
            &&& asked(j, p, q) == seq![QueryView::World, overloaded(on, name, values)]
            &&& gives_back(overloaded(on, name, values), result, j, p, q)
        }
}

/// Calling an overloaded function asks for that alone, and gives back the answer.
proof fn lemma_overloads(
    on: CallTarget,
    name: Seq<char>,
    values: Seq<ScriptView>,
    j: Seq<Step>,
    p: nat,
    result: JsView,
    q: nat,
    lo: nat,
)
    requires
        overloads_run(on, name, values, j, p) == Some((Ok::<JsView, FailureView>(result), q)),
        lo <= p,
    ensures
        p < q,
        asked(j, p, q) == seq![overloaded(on, name, values)],
        gives_back(overloaded(on, name, values), result, j, lo, q),
{
    let query = overloaded(on, name, values);
    let value = value_run(query, j, p)->Some_0.0->Ok_0;
    lemma_answer_is_given_back(query, j, p, value, result, q, lo);
}

/// Resolving the arguments of a method makes them ready.
proof fn lemma_ready(
    name: Seq<char>,
    views: Seq<JsView>,
    values: Seq<ScriptView>,
    j: Seq<Step>,
    p: nat,
    ready: Seq<ScriptView>,
    q: nat,
    lo: nat,
    hi: nat,
)
    requires
        all_hold(views, values, j, lo, hi),
        components_run(name, values, j, p) == Some(
            (Ok::<Seq<ScriptView>, FailureView>(ready), q),
        ),
        lo <= p,
        q <= hi,
    ensures
        p <= q,
        makes_ready(name, views, ready, j, lo, hi),
        !is_component_method(name) ==> p == q,
{
    if is_component_method(name) {
        law_all_arguments_are_resolved(values, j, p, ready, q);
        assert(all_resolve_to(values, ready, j, p, q));
    }
}

/// Resolving the arguments of a method never goes back in the journal.
proof fn lemma_components_go_on(name: Seq<char>, values: Seq<ScriptView>, j: Seq<Step>, p: nat)
    ensures
        components_run(name, values, j, p) matches Some((Ok(_), q)) ==> p <= q,
{
    if let Some((Ok(ready), q)) = components_run(name, values, j, p) {
        if takes_components(name) {
            law_all_arguments_are_resolved(values, j, p, ready, q);
        }
    }
}

/// Where resolving asks, there are no other questions.
proof fn lemma_asked_resolving(j: Seq<Step>, p: nat, q: nat)
    requires
        all_resolving(j, p, q),
    ensures
        forall|k: int|
            0 <= k < asked(j, p, q).len() ==> is_resolving(#[trigger] asked(j, p, q)[k]),
    decreases q,
{
    if p < q {
        let before = asked(j, p, (q - 1) as nat);
        lemma_asked_resolving(j, p, (q - 1) as nat);
        assert(j[q - 1] matches Step::Ask { query, .. } && is_resolving(query));
        assert forall|k: int| 0 <= k < asked(j, p, q).len() implies is_resolving(
            #[trigger] asked(j, p, q)[k],
        ) by {
            if k < before.len() {
                assert(asked(j, p, q)[k] == before[k]);
            }
        }
    }
}

/// Making the arguments of a method ready asks nothing else than what resolving asks.
proof fn lemma_components_resolving(
    name: Seq<char>,
    values: Seq<ScriptView>,
    j: Seq<Step>,
    p: nat,
)
    ensures
        components_run(name, values, j, p) matches Some((Ok(_), q)) ==> p <= q && forall|k: int|
            0 <= k < asked(j, p, q).len() ==> is_resolving(#[trigger] asked(j, p, q)[k]),
{
    if let Some((Ok(_), q)) = components_run(name, values, j, p) {
        lemma_all_resolving(values, 0, Seq::empty(), j, p);
        lemma_asked_resolving(j, p, q);
    }
}

/// `call(name, ...arguments)` calls the method of the host value that is named: with the host value and
/// what the arguments read as, or stand for, and gives back what the host application answers.
pub proof fn law_call_calls_the_method(
    this: JsView,
    arguments: Seq<JsView>,
    j: Seq<Step>,
    p: nat,
    result: JsView,
    q: nat,
)
    requires
        rr_call_run(this, arguments, j, p) == Some((Ok::<JsView, FailureView>(result), q)),
    ensures
        calls_named_method(this, arguments, j, p, result, q),
{
    let target = ReflectReference(this->Object_0.reference->0);
    let name = js_text(arguments[0]->Str_0);
    let rest = arguments.skip(1);
    let start = p + 1;
    let (values, r) = convert_all_run(Blame::Script, arguments, 1, Seq::empty(), j, start)->Some_0;
    let values = values->Ok_0;
    let (ready, at) = components_run(name, values, j, r)->Some_0;
    let ready = ready->Ok_0;
    lemma_convert_all_goes_on(Blame::Script, arguments, 1, Seq::empty(), j, start);
    lemma_components_resolving(name, values, j, r);
    lemma_components_go_on(name, values, j, r);
    let with = seq![ScriptView::Reference(target)] + ready;
    lemma_overloads(CallTarget::BaseOf(target), name, with, j, at, result, q, p);
    lemma_rest_converted(Blame::Script, arguments, 1, j, start, values, r, p, q);
    lemma_ready(name, rest, values, j, r, ready, at, p, q);
    let query = method_call(target, name, ready);
    lemma_asked_first(j, p, q, QueryView::World, host_reply(j, p, QueryView::World)->Some_0);
    lemma_asked_later(j, start, r, q);
    lemma_asked_joined(j, r, at, q);
    assert(asked(j, p, q) =~= seq![QueryView::World] + (asked(j, r, at) + seq![query]));
    assert(asked(j, p, q)[0] == QueryView::World);
    if !is_component_method(name) {
        assert(asked(j, r, at) == Seq::<QueryView>::empty());
        assert(asked(j, p, q) =~= seq![QueryView::World, query]);
    }
    assert(calls_host_method(target, name, rest, j, p, result, q));
    assert(wraps(this, target) && names(nth(arguments, 0), name));
}

/// The method of the host value that a value wraps was called that the first argument names, with the
/// other arguments.
pub open spec fn calls_named_method(
    this: JsView,
    arguments: Seq<JsView>,
    j: Seq<Step>,
    p: nat,
    result: JsView,
    q: nat,
) -> bool {
    exists|target: ReflectReference, name: Seq<char>|
        {
            &&& #[trigger] wraps(this, target)
            &&& #[trigger] names(nth(arguments, 0), name)
            &&& calls_host_method(target, name, arguments.skip(1), j, p, result, q)
        }
}

/// A function that `method(name)` or `fn(name)` gave was called: the method of the host value, with the
/// host value and the arguments, or the function of the type, with the arguments.
pub open spec fn calls_bound(
    target: CallTarget,
    name: Seq<char>,
    arguments: Seq<JsView>,
    j: Seq<Step>,
    p: nat,
    result: JsView,
    q: nat,
) -> bool {
    match target {
        CallTarget::BaseOf(reference) => calls_host_method(
            reference,
            name,
            arguments,
            j,
            p,
            result,
            q,
        ),
        _ => calls_host_function(target, name, arguments, j, p, result, q),
    }
}

/// The function that `method(name)` gives calls the method of the host value: with the host value and
/// what the arguments read as, or stand for, and gives back what the host application answers. The
/// function that `fn(name)` gives calls the function of the type: with what the arguments read as.
pub proof fn law_bound_functions_are_called(
    target: CallTarget,
    name: Seq<char>,
    arguments: Seq<JsView>,
    j: Seq<Step>,
    p: nat,
    result: JsView,
    q: nat,
)
    requires
        bound_run(target, name, arguments, j, p) == Some((Ok::<JsView, FailureView>(result), q)),
    ensures
        calls_bound(target, name, arguments, j, p, result, q),
{
    let (values, r) = convert_all_run(Blame::Host, arguments, 0, Seq::empty(), j, p)->Some_0;
    let values = values->Ok_0;
    lemma_convert_all_goes_on(Blame::Host, arguments, 0, Seq::empty(), j, p);
    assert(arguments.skip(0) =~= arguments);
    if let CallTarget::BaseOf(reference) = target {
        let from = if takes_components(name) {
            r + 1
        } else {
            r
        };
        let (ready, reached) = components_run(name, values, j, from)->Some_0;
        let ready = ready->Ok_0;
        lemma_components_resolving(name, values, j, from);
        lemma_components_go_on(name, values, j, from);
        let with = seq![ScriptView::Reference(reference)] + ready;
        lemma_overloads(target, name, with, j, reached + 1, result, q, p);
        lemma_rest_converted(Blame::Host, arguments, 0, j, p, values, r, p, q);
        lemma_ready(name, arguments, values, j, from, ready, reached, p, q);
        let query = method_call(reference, name, ready);
        let world = QueryView::World;
        lemma_asked_first(j, reached, q, world, host_reply(j, reached, world)->Some_0);
        lemma_asked_joined(j, p, from, reached);
        lemma_asked_joined(j, p, r, from);
        lemma_asked_nothing(j, p, r);
        if takes_components(name) {
            lemma_asked_first(j, r, from, world, host_reply(j, r, world)->Some_0);
            assert(asked(j, p, reached) =~= seq![world] + asked(j, from, reached));
        } else {
            assert(asked(j, p, reached) =~= asked(j, from, reached));
        }
        lemma_asked_joined(j, p, reached, q);
        assert(asked(j, p, q) =~= asked(j, p, reached) + seq![world, query]);
        assert(asked(j, p, q)[asked(j, p, reached).len() as int] == world);
        if !is_component_method(name) {
            lemma_asked_nothing(j, p, r);
            assert(asked(j, p, q) =~= seq![world, query]);
        }
    } else {
        lemma_overloads(target, name, values, j, r + 1, result, q, p);
        lemma_rest_converted(Blame::Host, arguments, 0, j, p, values, r, p, q);
        let world = QueryView::World;
        lemma_asked_later(j, p, r, q);
        lemma_asked_first(j, r, q, world, host_reply(j, r, world)->Some_0);
        assert(asked(j, p, q) =~= seq![world, overloaded(target, name, values)]);
    }
}

/// The function of the type that a value stands for was called that the first argument names, with the
/// other arguments.
pub open spec fn calls_named_function(
    this: JsView,
    arguments: Seq<JsView>,
    j: Seq<Step>,
    p: nat,
    result: JsView,
    q: nat,
) -> bool {
    exists|token: TypeId, name: Seq<char>|
        {
            &&& #[trigger] stands_for(this, token)
            &&& #[trigger] names(nth(arguments, 0), name)
            &&& calls_host_function(
                CallTarget::Token(token),
                name,
                arguments.skip(1),
                j,
                p,
                result,
                q,
            )
        }
}

/// `call(name, ...arguments)` of a type calls the function of the type that is named, with what the
/// arguments read as, and gives back what the host application answers.
pub proof fn law_token_call_calls_the_function(
    this: JsView,
    arguments: Seq<JsView>,
    j: Seq<Step>,
    p: nat,
    result: JsView,
    q: nat,
)
    requires
        sref_call_run(this, arguments, j, p) == Some((Ok::<JsView, FailureView>(result), q)),
    ensures
        calls_named_function(this, arguments, j, p, result, q),
{
    let token = this->Object_0.token->0;
    let name = js_text(arguments[0]->Str_0);
    let on = CallTarget::Token(token);
    let start = p + 1;
    let (values, r) = convert_all_run(Blame::Script, arguments, 1, Seq::empty(), j, start)->Some_0;
    let values = values->Ok_0;
    lemma_convert_all_goes_on(Blame::Script, arguments, 1, Seq::empty(), j, start);
    lemma_overloads(on, name, values, j, r, result, q, p);
    lemma_rest_converted(Blame::Script, arguments, 1, j, start, values, r, p, q);
    lemma_asked_first(j, p, q, QueryView::World, host_reply(j, p, QueryView::World)->Some_0);
    lemma_asked_later(j, start, r, q);
    assert(asked(j, p, q) =~= seq![QueryView::World, overloaded(on, name, values)]);
    assert(calls_host_function(on, name, arguments.skip(1), j, p, result, q));
    assert(stands_for(this, token) && names(nth(arguments, 0), name));
}

/// A function was made that calls the method of the host value that a value wraps that the first
/// argument names, and nothing else happened.
pub open spec fn binds_method(
    this: JsView,
    arguments: Seq<JsView>,
    j: Seq<Step>,
    p: nat,
    result: JsView,
    q: nat,
) -> bool {
    q == p + 1 && exists|target: ReflectReference, name: Seq<char>|
        {
            &&& #[trigger] wraps(this, target)
            &&& #[trigger] names(nth(arguments, 0), name)
            &&& named_reply(j, p, "method:"@ + name, CallTarget::BaseOf(target), name) == Some(
                result,
            )
        }
}

/// `method(name)` gives a function that calls the method of the host value that is named.
pub proof fn law_method_is_bound(
    this: JsView,
    arguments: Seq<JsView>,
    j: Seq<Step>,
    p: nat,
    result: JsView,
    q: nat,
)
    requires
        rr_method_run(this, arguments, j, p) == Some((Ok::<JsView, FailureView>(result), q)),
    ensures
        binds_method(this, arguments, j, p, result, q),
{
    let target = ReflectReference(this->Object_0.reference->0);
    let name = js_text(arguments[0]->Str_0);
    assert(wraps(this, target) && names(nth(arguments, 0), name));
}

/// A function was made that calls the function of the type that a value stands for that the first
/// argument names, and nothing else happened.
pub open spec fn binds_function(
    this: JsView,
    arguments: Seq<JsView>,
    j: Seq<Step>,
    p: nat,
    result: JsView,
    q: nat,
) -> bool {
    q == p + 1 && exists|token: TypeId, name: Seq<char>|
        {
            &&& #[trigger] stands_for(this, token)
            &&& #[trigger] names(nth(arguments, 0), name)
            &&& named_reply(j, p, name + ".fn"@, CallTarget::Token(token), name) == Some(result)
        }
}

/// `fn(name)` gives a function that calls the function of the type that is named.
pub proof fn law_function_is_bound(
    this: JsView,
    arguments: Seq<JsView>,
    j: Seq<Step>,
    p: nat,
    result: JsView,
    q: nat,
)
    requires
        sref_fn_run(this, arguments, j, p) == Some((Ok::<JsView, FailureView>(result), q)),
    ensures
        binds_function(this, arguments, j, p, result, q),
{
    let token = this->Object_0.token->0;
    let name = js_text(arguments[0]->Str_0);
    assert(stands_for(this, token) && names(nth(arguments, 0), name));
}

/// A function of the host application was called, once, with what the arguments read as, and the result
/// was made of the answer.
pub open spec fn forwards(
    function: FunctionRef,
    arguments: Seq<JsView>,
    j: Seq<Step>,
    p: nat,
    result: JsView,
    q: nat,
) -> bool {
    exists|values: Seq<ScriptView>|
        {
            &&& #[trigger] all_hold(arguments, values, j, p, q)
            &&& asked(j, p, q) == seq![QueryView::Invoke { function, arguments: values }]
            &&& gives_back(QueryView::Invoke { function, arguments: values }, result, j, p, q)
        }
}

/// A function of the host application that keeps state was called, once, with what the arguments read
/// as, and the result was made of the answer.
pub open spec fn forwards_mut(
    handle: u64,
    arguments: Seq<JsView>,
    j: Seq<Step>,
    p: nat,
    result: JsView,
    q: nat,
) -> bool {
    exists|values: Seq<ScriptView>|
        {
            &&& #[trigger] all_hold(arguments, values, j, p, q)
            &&& asked(j, p, q) == seq![
                QueryView::InvokeMut { function: handle, arguments: values },
            ]
            &&& gives_back(
                QueryView::InvokeMut { function: handle, arguments: values },
                result,
                j,
                p,
                q,
            )
        }
}

/// A function of the host application is called with what the arguments read as.
proof fn lemma_forwards(
    make: spec_fn(Seq<ScriptView>) -> QueryView,
    arguments: Seq<JsView>,
    j: Seq<Step>,
    p: nat,
    result: JsView,
    q: nat,
) -> (values: Seq<ScriptView>)
    requires
        forward_run(make, arguments, j, p) == Some((Ok::<JsView, FailureView>(result), q)),
        forall|values: Seq<ScriptView>| !(#[trigger] make(values) is FunctionId),
    ensures
        all_hold(arguments, values, j, p, q),
        asked(j, p, q) == seq![make(values)],
        gives_back(make(values), result, j, p, q),
{
    let (values, r) = convert_all_run(Blame::Host, arguments, 0, Seq::empty(), j, p)->Some_0;
    let values = values->Ok_0;
    assert(arguments.skip(0) =~= arguments);
    lemma_convert_all_goes_on(Blame::Host, arguments, 0, Seq::empty(), j, p);
    let query = make(values);
    let value = value_run(query, j, r)->Some_0.0->Ok_0;
    lemma_answer_is_given_back(query, j, r, value, result, q, p);
    lemma_rest_converted(Blame::Host, arguments, 0, j, p, values, r, p, q);
    lemma_asked_later(j, p, r, q);
    values
}

/// What a native function is for was done.
pub open spec fn does(
    native: Native,
    this: JsView,
    arguments: Seq<JsView>,
    j: Seq<Step>,
    p: nat,
    result: JsView,
    q: nat,
) -> bool {
    match native {
        Native::Get => gets_field(this, arguments, j, p, result, q),
        Native::Put => sets_field(this, arguments, j, p, result, q),
        Native::Call => calls_named_method(this, arguments, j, p, result, q),
        Native::Method => binds_method(this, arguments, j, p, result, q),
        Native::Len => gives_length(this, arguments, j, p, result, q),
        Native::Text => displays(this, arguments, j, p, result, q),
        Native::Iterator => makes_iterator(this, arguments, j, p, result, q),
        Native::Next(handle) => steps(handle, j, p, result, q),
        Native::StaticSet => sets_field_of_first(this, arguments, j, p, result, q),
        Native::TokenFn => binds_function(this, arguments, j, p, result, q),
        Native::TokenCall => calls_named_function(this, arguments, j, p, result, q),
        Native::HostFunction(function) => forwards(function, arguments, j, p, result, q),
        Native::HostFunctionMut(handle) => forwards_mut(handle, arguments, j, p, result, q),
        Native::ReferenceConstructor | Native::TokenConstructor => false,
    }
}

/// Every function that a script calls does what it is for, unless it throws. Constructors throw.
pub proof fn law_native_functions_do_what_they_are_for(
    native: Native,
    this: JsView,
    arguments: Seq<JsView>,
    j: Seq<Step>,
    p: nat,
    result: JsView,
    q: nat,
)
    requires
        native_run(native, this, arguments, j, p) == Some((Ok::<JsView, FailureView>(result), q)),
    ensures
        does(native, this, arguments, j, p, result, q),
{
    match native {
        Native::Get => law_get_gives_the_field(this, arguments, j, p, result, q),
        Native::Put => law_set_writes_the_field(this, arguments, j, p, result, q),
        Native::Call => law_call_calls_the_method(this, arguments, j, p, result, q),
        Native::Method => law_method_is_bound(this, arguments, j, p, result, q),
        Native::Len => law_len_gives_the_length(this, arguments, j, p, result, q),
        Native::Text => law_to_string_displays_the_value(this, arguments, j, p, result, q),
        Native::Iterator => law_iterator_steps_with_the_host(this, arguments, j, p, result, q),
        Native::Next(handle) => law_next_steps_to_the_value(handle, j, p, result, q),
        Native::StaticSet => law_static_set_writes_the_field(this, arguments, j, p, result, q),
        Native::TokenFn => law_function_is_bound(this, arguments, j, p, result, q),
        Native::TokenCall => law_token_call_calls_the_function(this, arguments, j, p, result, q),
        Native::HostFunction(function) => {
            let values = lemma_forwards(
                |values: Seq<ScriptView>| QueryView::Invoke { function, arguments: values },
                arguments,
                j,
                p,
                result,
                q,
            );
        },
        Native::HostFunctionMut(handle) => {
            let values = lemma_forwards(
                |values: Seq<ScriptView>|
                    QueryView::InvokeMut { function: handle, arguments: values },
                arguments,
                j,
                p,
                result,
                q,
            );
        },
        _ => {},
    }
}

/// The text of an answer, if it is one.
pub open spec fn text_given(answer: Answer) -> Seq<char> {
    match answer {
        Answer::Text(text) => text@,
        _ => MISFIT@,
    }
}

/// Between two positions, the host application gave an error: as the reason why it did not do what it
/// was asked for, or in a value.
pub open spec fn comes_up(error: ErrorView, j: Seq<Step>, lo: nat, hi: nat) -> bool {
    ||| gives_reason(error, j, lo, hi)
    ||| exists|at: nat, query: QueryView, value: ScriptValue|
        lo <= at < hi && #[trigger] asks(j, at, query, Answer::Value(value)) && fails_with(
            value,
            error,
        )
}

/// Between two positions, an argument could not be converted, for an error.
pub open spec fn is_not_converted(
    error: ErrorView,
    arguments: Seq<JsView>,
    j: Seq<Step>,
    lo: nat,
    hi: nat,
) -> bool {
    exists|k: int, at: nat, to: nat|
        lo <= at <= to < hi && #[trigger] reading_fails(nth(arguments, k), error, j, at, to)
}

/// The failure of a method that is called on something else than a wrapper of a host value.
pub open spec fn no_receiver(this: JsView, failure: FailureView) -> bool {
    match this {
        JsView::Object(object) => object.reference is None && failure == FailureView::WrongType(
            "this is not a ReflectReference"@,
        ),
        _ => failure == FailureView::WrongType("ReflectReference method called on non-object"@),
    }
}

/// The failure of a function that is called on something else than a type token.
pub open spec fn no_type(this: JsView, failure: FailureView) -> bool {
    match this {
        JsView::Object(object) => object.token is None && failure == FailureView::WrongType(
            "this is not a StaticReflectReference"@,
        ),
        _ => failure == FailureView::WrongType(
            "StaticReflectReference method called on non-object"@,
        ),
    }
}

/// The failure of a function whose first argument is not a name.
pub open spec fn no_name(arguments: Seq<JsView>, complaint: Seq<char>, failure: FailureView) -> bool {
    !(nth(arguments, 0) is Str) && failure == FailureView::WrongType(complaint)
}

/// The host application does not have a function for references.
pub open spec fn misses(
    name: Seq<char>,
    complaint: Seq<char>,
    failure: FailureView,
    j: Seq<Step>,
    lo: nat,
    hi: nat,
) -> bool {
    exists|at: nat, answer: Answer|
        {
            &&& lo <= at < hi
            &&& #[trigger] asks(
                j,
                at,
                QueryView::Lookup { on: HostType::ReflectReference, name },
                answer,
            )
            &&& !(answer is Function)
            &&& failure == FailureView::General(complaint + text_given(answer))
        }
}

/// The engine did not take a property.
pub open spec fn put_fails(failure: FailureView, j: Seq<Step>, lo: nat, hi: nat) -> bool {
    exists|at: nat, object: JsView, key: KeyView, value: JsView| #[trigger]
        put_reply(j, at, object, key, value) matches Some(reply) && lo <= at < hi && (
        reply matches Err(text) && failure == FailureView::General(text))
}

/// A failure is one that a function throws on its own: for a receiver or an argument of another kind
/// than it needs, or for a function that the host application does not have or that gives another kind
/// of value.
pub open spec fn complains(
    native: Native,
    failure: FailureView,
    this: JsView,
    arguments: Seq<JsView>,
    j: Seq<Step>,
    lo: nat,
    hi: nat,
) -> bool {
    match native {
        Native::Get | Native::Put | Native::Len => no_receiver(this, failure),
        Native::Call => no_receiver(this, failure) || no_name(
            arguments,
            "call(name, ...args): name must be a string"@,
            failure,
        ),
        Native::Method => no_receiver(this, failure) || no_name(
            arguments,
            "method(name): name must be a string"@,
            failure,
        ),
        Native::TokenCall => no_type(this, failure) || no_name(
            arguments,
            "call(name, ...args): name must be a string"@,
            failure,
        ),
        Native::TokenFn => no_type(this, failure) || no_name(
            arguments,
            "fn(name): name must be a string"@,
            failure,
        ),
        Native::Text => no_receiver(this, failure) || misses(
            "display_ref"@,
            "missing function display_ref: "@,
            failure,
            j,
            lo,
            hi,
        ),
        Native::Iterator => {
            ||| no_receiver(this, failure)
            ||| misses("iter"@, "missing function iter: "@, failure, j, lo, hi)
            ||| put_fails(failure, j, lo, hi)
            ||| failure == FailureView::General("iter did not return a function"@) && exists|
                at: nat,
                query: QueryView,
                value: ScriptValue,
            |
                lo <= at < hi && #[trigger] asks(j, at, query, Answer::Value(value)) && !(
                value is FunctionMut)
        },
        Native::Next(_) => put_fails(failure, j, lo, hi),
        Native::StaticSet => match nth(arguments, 0) {
            JsView::Object(object) => object.reference is None && failure == FailureView::WrongType(
                "first argument is not a ReflectReference"@,
            ),
            _ => failure == FailureView::WrongType(
                "expected ReflectReference object as first argument"@,
            ),
        },
        _ => false,
    }
}

/// Whether an argument that cannot be converted is the fault of the script that calls a function.
pub open spec fn blames_script(native: Native) -> bool {
    !(native is HostFunction) && !(native is HostFunctionMut)
}

/// An error is thrown with the text that the host application has for it: as an `Error` if the host
/// application gave it, and as an `Error` or a `TypeError` if an argument could not be converted.
pub open spec fn passes_on(
    of_script: bool,
    failure: FailureView,
    arguments: Seq<JsView>,
    j: Seq<Step>,
    lo: nat,
    hi: nat,
) -> bool {
    hi > 0 && exists|error: ErrorView, answer: Answer|
        {
            &&& #[trigger] asks(j, (hi - 1) as nat, QueryView::Describe(error), answer)
            &&& {
                ||| comes_up(error, j, lo, hi) && failure == FailureView::General(
                    text_given(answer),
                )
                ||| is_not_converted(error, arguments, j, lo, hi) && failure == if of_script {
                    FailureView::WrongType(text_given(answer))
                } else {
                    FailureView::General(text_given(answer))
                }
            }
        }
}

/// A function that a script calls throws for a reason: an error came up, of which it throws the text
/// that the host application has for it, or the function complains on its own.
pub open spec fn throws(
    native: Native,
    failure: FailureView,
    this: JsView,
    arguments: Seq<JsView>,
    j: Seq<Step>,
    lo: nat,
    hi: nat,
) -> bool {
    ||| passes_on(blames_script(native), failure, arguments, j, lo, hi)
    ||| complains(native, failure, this, arguments, j, lo, hi)
}

/// An error that is thrown after it came up.
proof fn lemma_thrown(
    native: Native,
    blame: Blame,
    error: ErrorView,
    this: JsView,
    arguments: Seq<JsView>,
    j: Seq<Step>,
    p: nat,
    failure: FailureView,
    q: nat,
    lo: nat,
)
    requires
        throw_run(blame, error, j, p) == Some((failure, q)),
        lo <= p,
        blame is Host && comes_up(error, j, lo, q) || is_not_converted(error, arguments, j, lo, q)
            && (blame is Script) == blames_script(native),
    ensures
        q == p + 1,
        throws(native, failure, this, arguments, j, lo, q),
{
    let query = QueryView::Describe(error);
    assert(asks(j, (q - 1) as nat, query, host_reply(j, p, query)->Some_0));
}

/// A question that fails is a reason.
proof fn lemma_question_fails(
    native: Native,
    query: QueryView,
    error: ErrorView,
    this: JsView,
    arguments: Seq<JsView>,
    j: Seq<Step>,
    p: nat,
    failure: FailureView,
    q: nat,
    lo: nat,
)
    requires
        host_reply(j, p, query) matches Some(answer) && match answer {
            Answer::Failed(own) => own@ == error,
            Answer::Value(_) => false,
            _ => error == misfit(),
        },
        !(query is TailType) && !(query is Lookup),
        throw_run(Blame::Host, error, j, p + 1) == Some((failure, q)),
        lo <= p,
    ensures
        q == p + 2,
        throws(native, failure, this, arguments, j, lo, q),
{
    let answer = host_reply(j, p, query)->Some_0;
    assert(asks(j, p, query, answer) && is_reason(query, answer, error));
    assert(gives_reason(error, j, lo, q));
    lemma_thrown(native, Blame::Host, error, this, arguments, j, p + 1, failure, q, lo);
}

/// A value that a question gave and that cannot be handed back is a reason.
proof fn lemma_handing_back_fails(
    native: Native,
    query: QueryView,
    value: ScriptValue,
    this: JsView,
    arguments: Seq<JsView>,
    j: Seq<Step>,
    at: nat,
    p: nat,
    failure: FailureView,
    q: nat,
    lo: nat,
)
    requires
        asks(j, at, query, Answer::Value(value)),
        lo <= at < p,
        or_throw(Blame::Host, into_js_run(value, j, p), j) == Some(
            (Err::<JsView, FailureView>(failure), q),
        ),
    ensures
        p < q,
        throws(native, failure, this, arguments, j, lo, q),
{
    let (result, r) = into_js_run(value, j, p)->Some_0;
    let error = result->Err_0;
    law_values_are_rendered(value, j, p);
    let other = throw_run(Blame::Host, error, j, r)->Some_0.1;
    assert(lo <= at < q && asks(j, at, query, Answer::Value(value)) && fails_with(value, error));
    assert(comes_up(error, j, lo, q));
    lemma_thrown(native, Blame::Host, error, this, arguments, j, r, failure, q, lo);
}

/// An argument that cannot be converted is a reason.
proof fn lemma_converting_fails(
    native: Native,
    blame: Blame,
    k: int,
    this: JsView,
    arguments: Seq<JsView>,
    j: Seq<Step>,
    p: nat,
    failure: FailureView,
    q: nat,
    lo: nat,
)
    requires
        (blame is Script) == blames_script(native),
        convert_run(blame, nth(arguments, k), j, p) == Some(
            (Err::<ScriptView, FailureView>(failure), q),
        ),
        lo <= p,
    ensures
        p < q,
        throws(native, failure, this, arguments, j, lo, q),
{
    let view = nth(arguments, k);
    let (result, r) = from_js_run(view, DEPTH_LIMIT as nat, j, p)->Some_0;
    let error = result->Err_0;
    lemma_from_js_asks_nothing(view, DEPTH_LIMIT as nat, j, p);
    law_reading_fails_for_a_reason(view, j, p, error, r);
    assert(reading_fails(nth(arguments, k), error, j, p, r));
    assert(is_not_converted(error, arguments, j, lo, q));
    lemma_thrown(native, blame, error, this, arguments, j, r, failure, q, lo);
}

/// Arguments that cannot be converted are a reason.
proof fn lemma_converting_all_fails(
    native: Native,
    blame: Blame,
    this: JsView,
    arguments: Seq<JsView>,
    i: nat,
    done: Seq<ScriptView>,
    j: Seq<Step>,
    p: nat,
    failure: FailureView,
    q: nat,
    lo: nat,
)
    requires
        (blame is Script) == blames_script(native),
        convert_all_run(blame, arguments, i, done, j, p) == Some(
            (Err::<Seq<ScriptView>, FailureView>(failure), q),
        ),
        lo <= p,
    ensures
        p < q,
        throws(native, failure, this, arguments, j, lo, q),
    decreases arguments.len() - i,
{
    if i < arguments.len() {
        let (value, r) = convert_run(blame, arguments[i as int], j, p)->Some_0;
        assert(nth(arguments, i as int) == arguments[i as int]);
        lemma_convert_goes_on(blame, arguments[i as int], j, p);
        if value is Ok {
            let more = done.push(value->Ok_0);
            lemma_converting_all_fails(
                native,
                blame,
                this,
                arguments,
                i + 1,
                more,
                j,
                r,
                failure,
                q,
                lo,
            );
        } else {
            lemma_converting_fails(native, blame, i as int, this, arguments, j, p, failure, q, lo);
        }
    }
}

/// Components that cannot be resolved are a reason.
proof fn lemma_components_fail(
    native: Native,
    name: Seq<char>,
    values: Seq<ScriptView>,
    this: JsView,
    arguments: Seq<JsView>,
    j: Seq<Step>,
    p: nat,
    failure: FailureView,
    q: nat,
    lo: nat,
)
    requires
        components_run(name, values, j, p) == Some(
            (Err::<Seq<ScriptView>, FailureView>(failure), q),
        ),
        lo <= p,
    ensures
        p < q,
        throws(native, failure, this, arguments, j, lo, q),
{
    let (result, r) = resolve_all_run(values, 0, Seq::empty(), j, p)->Some_0;
    let error = result->Err_0;
    law_resolving_fails_for_a_reason(ScriptView::List(values), j, p, error, r);
    assert(gives_reason(error, j, lo, q));
    lemma_thrown(native, Blame::Host, error, this, arguments, j, r, failure, q, lo);
}

/// Not reaching the world is a reason.
proof fn lemma_world_fails(
    native: Native,
    this: JsView,
    arguments: Seq<JsView>,
    j: Seq<Step>,
    p: nat,
    failure: FailureView,
    q: nat,
    lo: nat,
)
    requires
        world_run(j, p) == Some((Err::<(), FailureView>(failure), q)),
        lo <= p,
    ensures
        p < q,
        throws(native, failure, this, arguments, j, lo, q),
{
    let answer = host_reply(j, p, QueryView::World)->Some_0;
    let error = answer.spec_done()->Err_0;
    if answer is Value {
        assert(asks(j, p, QueryView::World, answer));
        assert(error == misfit());
    }
    lemma_misfit_or_failure(native, QueryView::World, error, this, arguments, j, p, failure, q, lo);
}

/// A question other than for a value that fails is a reason.
proof fn lemma_misfit_or_failure(
    native: Native,
    query: QueryView,
    error: ErrorView,
    this: JsView,
    arguments: Seq<JsView>,
    j: Seq<Step>,
    p: nat,
    failure: FailureView,
    q: nat,
    lo: nat,
)
    requires
        host_reply(j, p, query) matches Some(answer) && match answer {
            Answer::Failed(own) => own@ == error,
            _ => error == misfit(),
        },
        query is World || query is SetField || query is Length,
        throw_run(Blame::Host, error, j, p + 1) == Some((failure, q)),
        lo <= p,
    ensures
        q == p + 2,
        throws(native, failure, this, arguments, j, lo, q),
{
    let answer = host_reply(j, p, query)->Some_0;
    assert(asks(j, p, query, answer) && is_reason(query, answer, error));
    assert(gives_reason(error, j, lo, q));
    lemma_thrown(native, Blame::Host, error, this, arguments, j, p + 1, failure, q, lo);
}

/// A question for a value that fails, or a value that cannot be handed back, is a reason.
proof fn lemma_asking_fails(
    native: Native,
    query: QueryView,
    this: JsView,
    arguments: Seq<JsView>,
    j: Seq<Step>,
    p: nat,
    failure: FailureView,
    q: nat,
    lo: nat,
)
    requires
        and_then(
            or_throw(Blame::Host, value_run(query, j, p), j),
            |value: ScriptValue, p: nat| hand_back_run(value, j, p),
        ) == Some((Err::<JsView, FailureView>(failure), q)),
        !(query is TailType) && !(query is Lookup),
        lo <= p,
    ensures
        p < q,
        throws(native, failure, this, arguments, j, lo, q),
{
    let result = value_run(query, j, p)->Some_0.0;
    if result is Ok {
        let value = result->Ok_0;
        assert(asks(j, p, query, Answer::Value(value)));
        lemma_handing_back_fails(
            native,
            query,
            value,
            this,
            arguments,
            j,
            p,
            p + 1,
            failure,
            q,
            lo,
        );
    } else {
        lemma_question_fails(native, query, result->Err_0, this, arguments, j, p, failure, q, lo);
    }
}

/// Writing a field throws for a reason.
proof fn lemma_set_throws(
    native: Native,
    target: ReflectReference,
    key: int,
    value: int,
    this: JsView,
    arguments: Seq<JsView>,
    j: Seq<Step>,
    p: nat,
    failure: FailureView,
    q: nat,
    lo: nat,
)
    requires
        blames_script(native),
        set_field_run(target, nth(arguments, key), nth(arguments, value), j, p) == Some(
            (Err::<JsView, FailureView>(failure), q),
        ),
        lo <= p,
    ensures
        throws(native, failure, this, arguments, j, lo, q),
{
    let (converted, r) = convert_run(Blame::Script, nth(arguments, key), j, p)->Some_0;
    lemma_convert_goes_on(Blame::Script, nth(arguments, key), j, p);
    if converted is Err {
        lemma_converting_fails(native, Blame::Script, key, this, arguments, j, p, failure, q, lo);
    } else {
        let (other, at) = convert_run(Blame::Script, nth(arguments, value), j, r)->Some_0;
        lemma_convert_goes_on(Blame::Script, nth(arguments, value), j, r);
        if other is Err {
            lemma_converting_fails(
                native,
                Blame::Script,
                value,
                this,
                arguments,
                j,
                r,
                failure,
                q,
                lo,
            );
        } else {
            let query = QueryView::SetField {
                target,
                key: converted->Ok_0,
                value: other->Ok_0,
            };
            let error = host_reply(j, at, query)->Some_0.spec_done()->Err_0;
            lemma_misfit_or_failure(native, query, error, this, arguments, j, at, failure, q, lo);
        }
    }
}

/// A function that is looked up and called on a host value throws for a reason.
proof fn lemma_lookup_throws(
    native: Native,
    name: Seq<char>,
    missing: Seq<char>,
    this: JsView,
    arguments: Seq<JsView>,
    j: Seq<Step>,
    p: nat,
    failure: FailureView,
    q: nat,
    lo: nat,
)
    requires
        find_run(HostType::ReflectReference, name, missing, j, p) == Some(
            (Err::<u64, FailureView>(failure), q),
        ),
        lo <= p,
        misses(name, missing, failure, j, lo, q) ==> complains(
            native,
            failure,
            this,
            arguments,
            j,
            lo,
            q,
        ),
    ensures
        throws(native, failure, this, arguments, j, lo, q),
{
    let query = QueryView::Lookup { on: HostType::ReflectReference, name };
    let answer = host_reply(j, p, query)->Some_0;
    assert(asks(j, p, query, answer));
    assert(misses(name, missing, failure, j, lo, q));
}

/// Calling an overloaded method throws for a reason.
proof fn lemma_rr_call_throws(
    native: Native,
    this: JsView,
    arguments: Seq<JsView>,
    j: Seq<Step>,
    p: nat,
    failure: FailureView,
    q: nat,
)
    requires
        native is Call,
        rr_call_run(this, arguments, j, p) == Some((Err::<JsView, FailureView>(failure), q)),
        world_run(j, p) matches Some((Ok(_), _)),
        this matches JsView::Object(object) && object.reference is Some,
        nth(arguments, 0) is Str,
    ensures
        throws(native, failure, this, arguments, j, p, q),
{
    let target = ReflectReference(this->Object_0.reference->0);
    let name = js_text(arguments[0]->Str_0);
    let start = p + 1;
    let (values, r) = convert_all_run(Blame::Script, arguments, 1, Seq::empty(), j, start)->Some_0;
    lemma_convert_all_goes_on(Blame::Script, arguments, 1, Seq::empty(), j, start);
    if values is Err {
        let none = Seq::<ScriptView>::empty();
        lemma_converting_all_fails(
            native,
            Blame::Script,
            this,
            arguments,
            1,
            none,
            j,
            start,
            failure,
            q,
            p,
        );
    } else {
        let (ready, at) = components_run(name, values->Ok_0, j, r)->Some_0;
        lemma_components_go_on(name, values->Ok_0, j, r);
        if ready is Err {
            lemma_components_fail(native, name, values->Ok_0, this, arguments, j, r, failure, q, p);
        } else {
            let query = method_call(target, name, ready->Ok_0);
            lemma_asking_fails(native, query, this, arguments, j, at, failure, q, p);
        }
    }
}

/// A function that a script calls throws for nothing but a reason.
pub proof fn law_native_functions_throw_for_a_reason(
    native: Native,
    this: JsView,
    arguments: Seq<JsView>,
    j: Seq<Step>,
    p: nat,
    failure: FailureView,
    q: nat,
)
    requires
        native_run(native, this, arguments, j, p) == Some((Err::<JsView, FailureView>(failure), q)),
        !(native is ReferenceConstructor) && !(native is TokenConstructor),
    ensures
        throws(native, failure, this, arguments, j, p, q),
{
    let world = world_run(j, p);
    let reaches = !(native is Method) && !(native is TokenFn) && !(native is Next)
        && !(native is HostFunction) && !(native is HostFunctionMut);
    if reaches && world->Some_0.0 is Err {
        lemma_world_fails(native, this, arguments, j, p, failure, q, p);
    } else if reaches && !(native is StaticSet) && !(native is TokenCall) && (!(this is Object)
        || this->Object_0.reference is None) {
        assert(complains(native, failure, this, arguments, j, p, q));
    } else {
        match native {
            Native::Get => {
                let target = ReflectReference(this->Object_0.reference->0);
                let view = nth(arguments, 0);
                let (key, at) = convert_run(Blame::Script, view, j, p + 1)->Some_0;
                lemma_convert_goes_on(Blame::Script, view, j, p + 1);
                if key is Err {
                    lemma_converting_fails(
                        native,
                        Blame::Script,
                        0,
                        this,
                        arguments,
                        j,
                        p + 1,
                        failure,
                        q,
                        p,
                    );
                } else {
                    let query = QueryView::GetField { target, key: key->Ok_0 };
                    lemma_asking_fails(native, query, this, arguments, j, at, failure, q, p);
                }
            },
            Native::Put => {
                let target = ReflectReference(this->Object_0.reference->0);
                lemma_set_throws(native, target, 0, 1, this, arguments, j, p + 1, failure, q, p);
            },
            Native::StaticSet => {
                let first = nth(arguments, 0);
                if first is Object && first->Object_0.reference is Some {
                    let target = ReflectReference(first->Object_0.reference->0);
                    lemma_set_throws(
                        native,
                        target,
                        1,
                        2,
                        this,
                        arguments,
                        j,
                        p + 1,
                        failure,
                        q,
                        p,
                    );
                } else {
                    assert(complains(native, failure, this, arguments, j, p, q));
                }
            },
            Native::Len => {
                let target = ReflectReference(this->Object_0.reference->0);
                let query = QueryView::Length(target);
                let error = host_reply(j, p + 1, query)->Some_0.spec_length()->Err_0;
                lemma_misfit_or_failure(
                    native,
                    query,
                    error,
                    this,
                    arguments,
                    j,
                    p + 1,
                    failure,
                    q,
                    p,
                );
            },
            Native::Text => {
                let target = ReflectReference(this->Object_0.reference->0);
                let missing = "missing function display_ref: "@;
                let found = find_run(
                    HostType::ReflectReference,
                    "display_ref"@,
                    missing,
                    j,
                    p + 1,
                )->Some_0.0;
                if found is Err {
                    lemma_lookup_throws(
                        native,
                        "display_ref"@,
                        missing,
                        this,
                        arguments,
                        j,
                        p + 1,
                        failure,
                        q,
                        p,
                    );
                } else {
                    let query = calling(found->Ok_0, target);
                    lemma_asking_fails(native, query, this, arguments, j, p + 2, failure, q, p);
                }
            },
            Native::Iterator => lemma_iterator_throws(native, this, arguments, j, p, failure, q),
            Native::Next(handle) => lemma_next_throws(
                native,
                handle,
                this,
                arguments,
                j,
                p,
                failure,
                q,
            ),
            Native::Call => {
                if nth(arguments, 0) is Str {
                    lemma_rr_call_throws(native, this, arguments, j, p, failure, q);
                }
            },
            Native::TokenCall => {
                if this is Object && this->Object_0.token is Some && nth(arguments, 0) is Str {
                    let token = this->Object_0.token->0;
                    let name = js_text(arguments[0]->Str_0);
                    let none = Seq::<ScriptView>::empty();
                    let (values, r) = convert_all_run(
                        Blame::Script,
                        arguments,
                        1,
                        none,
                        j,
                        p + 1,
                    )->Some_0;
                    lemma_convert_all_goes_on(Blame::Script, arguments, 1, none, j, p + 1);
                    if values is Err {
                        lemma_converting_all_fails(
                            native,
                            Blame::Script,
                            this,
                            arguments,
                            1,
                            none,
                            j,
                            p + 1,
                            failure,
                            q,
                            p,
                        );
                    } else {
                        let query = overloaded(CallTarget::Token(token), name, values->Ok_0);
                        lemma_asking_fails(native, query, this, arguments, j, r, failure, q, p);
                    }
                }
            },
            Native::HostFunction(function) => lemma_forwarding_throws(
                native,
                |values: Seq<ScriptView>| QueryView::Invoke { function, arguments: values },
                this,
                arguments,
                j,
                p,
                failure,
                q,
            ),
            Native::HostFunctionMut(handle) => lemma_forwarding_throws(
                native,
                |values: Seq<ScriptView>|
                    QueryView::InvokeMut { function: handle, arguments: values },
                this,
                arguments,
                j,
                p,
                failure,
                q,
            ),
            _ => {},
        }
    }
}

/// Calling a function of the host application throws for a reason.
proof fn lemma_forwarding_throws(
    native: Native,
    make: spec_fn(Seq<ScriptView>) -> QueryView,
    this: JsView,
    arguments: Seq<JsView>,
    j: Seq<Step>,
    p: nat,
    failure: FailureView,
    q: nat,
)
    requires
        !blames_script(native),
        forward_run(make, arguments, j, p) == Some((Err::<JsView, FailureView>(failure), q)),
        forall|values: Seq<ScriptView>|
            !(#[trigger] make(values) is TailType) && !(make(values) is Lookup),
    ensures
        throws(native, failure, this, arguments, j, p, q),
{
    let none = Seq::<ScriptView>::empty();
    let (values, r) = convert_all_run(Blame::Host, arguments, 0, none, j, p)->Some_0;
    lemma_convert_all_goes_on(Blame::Host, arguments, 0, none, j, p);
    if values is Err {
        lemma_converting_all_fails(
            native,
            Blame::Host,
            this,
            arguments,
            0,
            none,
            j,
            p,
            failure,
            q,
            p,
        );
    } else {
        lemma_asking_fails(native, make(values->Ok_0), this, arguments, j, r, failure, q, p);
    }
}

/// Starting to iterate throws for a reason.
proof fn lemma_iterator_throws(
    native: Native,
    this: JsView,
    arguments: Seq<JsView>,
    j: Seq<Step>,
    p: nat,
    failure: FailureView,
    q: nat,
)
    requires
        native is Iterator,
        rr_symbol_iterator_run(this, arguments, j, p) == Some(
            (Err::<JsView, FailureView>(failure), q),
        ),
        world_run(j, p) matches Some((Ok(_), _)),
        this matches JsView::Object(object) && object.reference is Some,
    ensures
        throws(native, failure, this, arguments, j, p, q),
{
    let target = ReflectReference(this->Object_0.reference->0);
    let missing = "missing function iter: "@;
    let found = find_run(HostType::ReflectReference, "iter"@, missing, j, p + 1)->Some_0.0;
    if found is Err {
        lemma_lookup_throws(native, "iter"@, missing, this, arguments, j, p + 1, failure, q, p);
    } else {
        let query = calling(found->Ok_0, target);
        let result = value_run(query, j, p + 2)->Some_0.0;
        if result is Err {
            let error = result->Err_0;
            lemma_question_fails(native, query, error, this, arguments, j, p + 2, failure, q, p);
        } else {
            let value = result->Ok_0;
            assert(asks(j, p + 2, query, Answer::Value(value)));
            if let ScriptValue::FunctionMut(handle) = value {
                let iterator = object_reply(j, p + 3)->Some_0;
                let next = function_reply(j, p + 4, "next"@, 0, Native::Next(handle))->Some_0;
                assert(put_reply(j, p + 5, iterator, name_key("next"@), next) is Some);
            }
            assert(complains(native, failure, this, arguments, j, p, q));
        }
    }
}

/// Stepping throws for a reason.
proof fn lemma_next_throws(
    native: Native,
    handle: u64,
    this: JsView,
    arguments: Seq<JsView>,
    j: Seq<Step>,
    p: nat,
    failure: FailureView,
    q: nat,
)
    requires
        native is Next,
        next_run(handle, j, p) == Some((Err::<JsView, FailureView>(failure), q)),
    ensures
        throws(native, failure, this, arguments, j, p, q),
{
    let query = stepping(handle);
    let result = value_run(query, j, p)->Some_0.0;
    if result is Err {
        lemma_question_fails(native, query, result->Err_0, this, arguments, j, p, failure, q, p);
    } else {
        let value = result->Ok_0;
        assert(asks(j, p, query, Answer::Value(value)));
        let step = object_reply(j, p + 1)->Some_0;
        if value is Unit {
            let done = JsView::Boolean(true);
            assert(put_reply(j, p + 2, step, name_key("done"@), done) is Some);
            assert(complains(native, failure, this, arguments, j, p, q));
        } else {
            let (made, r) = hand_back_run(value, j, p + 2)->Some_0;
            law_values_are_rendered(value, j, p + 2);
            if made is Err {
                lemma_handing_back_fails(
                    native,
                    query,
                    value,
                    this,
                    arguments,
                    j,
                    p,
                    p + 2,
                    failure,
                    q,
                    p,
                );
            } else {
                let done = JsView::Boolean(false);
                assert(put_reply(j, r, step, name_key("value"@), made->Ok_0) is Some);
                if q == r + 2 {
                    assert(put_reply(j, r + 1, step, name_key("done"@), done) is Some);
                }
                assert(complains(native, failure, this, arguments, j, p, q));
            }
        }
    }
}

/// Calling an overloaded function throws for a reason.
proof fn lemma_overloads_throw(
    native: Native,
    on: CallTarget,
    name: Seq<char>,
    values: Seq<ScriptView>,
    arguments: Seq<JsView>,
    j: Seq<Step>,
    p: nat,
    failure: FailureView,
    q: nat,
    lo: nat,
)
    requires
        and_then(
            world_run(j, p),
            |unit: (), p: nat| overloads_run(on, name, values, j, p),
        ) == Some((Err::<JsView, FailureView>(failure), q)),
        lo <= p,
    ensures
        throws(native, failure, JsView::Undefined, arguments, j, lo, q),
{
    let this = JsView::Undefined;
    if world_run(j, p)->Some_0.0 is Err {
        lemma_world_fails(native, this, arguments, j, p, failure, q, lo);
    } else {
        let query = overloaded(on, name, values);
        lemma_asking_fails(native, query, this, arguments, j, p + 1, failure, q, lo);
    }
}

/// A function that `method(name)` or `fn(name)` gave throws for nothing but a reason.
pub proof fn law_bound_functions_throw_for_a_reason(
    target: CallTarget,
    name: Seq<char>,
    arguments: Seq<JsView>,
    j: Seq<Step>,
    p: nat,
    failure: FailureView,
    q: nat,
)
    requires
        bound_run(target, name, arguments, j, p) == Some((Err::<JsView, FailureView>(failure), q)),
    ensures
        passes_on(false, failure, arguments, j, p, q),
{
    let native = Native::HostFunctionMut(0);
    let this = JsView::Undefined;
    let none = Seq::<ScriptView>::empty();
    let (values, r) = convert_all_run(Blame::Host, arguments, 0, none, j, p)->Some_0;
    lemma_convert_all_goes_on(Blame::Host, arguments, 0, none, j, p);
    if values is Err {
        lemma_converting_all_fails(
            native,
            Blame::Host,
            this,
            arguments,
            0,
            none,
            j,
            p,
            failure,
            q,
            p,
        );
    } else {
        let values = values->Ok_0;
        if let CallTarget::BaseOf(reference) = target {
            if takes_components(name) && world_run(j, r)->Some_0.0 is Err {
                lemma_world_fails(native, this, arguments, j, r, failure, q, p);
            } else {
                let from = if takes_components(name) {
                    r + 1
                } else {
                    r
                };
                let (ready, at) = components_run(name, values, j, from)->Some_0;
                lemma_components_go_on(name, values, j, from);
                if ready is Err {
                    lemma_components_fail(
                        native,
                        name,
                        values,
                        this,
                        arguments,
                        j,
                        from,
                        failure,
                        q,
                        p,
                    );
                } else {
                    let with = seq![ScriptView::Reference(reference)] + ready->Ok_0;
                    lemma_overloads_throw(
                        native,
                        target,
                        name,
                        with,
                        arguments,
                        j,
                        at,
                        failure,
                        q,
                        p,
                    );
                }
            }
        } else {
            lemma_overloads_throw(
                native,
                target,
                name,
                values,
                arguments,
                j,
                r,
                failure,
                q,
                p,
            );
        }
    }
}

/// Constructing a reference or a type token throws, and nothing happens.
pub proof fn law_constructors_throw(
    native: Native,
    this: JsView,
    arguments: Seq<JsView>,
    j: Seq<Step>,
    p: nat,
)
    requires
        native is ReferenceConstructor || native is TokenConstructor,
    ensures
        native_run(native, this, arguments, j, p) matches Some((result, q)) && q == p && result
            == Err::<JsView, FailureView>(
            FailureView::WrongType(
                if native is ReferenceConstructor {
                    "ReflectReference cannot be constructed from JS"@
                } else {
                    "StaticReflectReference cannot be constructed from JS"@
                },
            ),
        ),
{
}

} // verus!
