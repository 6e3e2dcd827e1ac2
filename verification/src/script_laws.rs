//! What calling, storing and evaluating functions and scripts does, by the steps that it takes.
use crate::conversion_laws::{
    all_making, all_reading, engine_failed, fails_with, gave_number, law_reading_fails_for_a_reason,
    law_values_are_read, lemma_elements_fail, lemma_elements_making, lemma_elements_render,
    lemma_from_js_asks_nothing, reading_fails, reads, renders_as,
};
use crate::engine::JsView;
use crate::from_js::{from_js_run, DEPTH_LIMIT};
use crate::function_registry::{call_stored_run, function_key, registry_run, store_run, REGISTRY};
use crate::into_js::elements_run;
use crate::script_value::{call_function_run, eval_run};
use crate::session::{
    call_reply, eval_reply, get_reply, global_reply, name_key, object_reply, put_reply, Step,
};
use crate::value::{ErrorView, ScriptValue, ScriptView};
use crate::vm::{callback_run, function_run};
use vstd::prelude::*;

verus! {

/// No step between two positions runs code of a script on purpose: none calls a function, and none
/// evaluates a script.
pub open spec fn runs_nothing(j: Seq<Step>, p: nat, q: nat) -> bool {
    forall|at: int|
        p <= at < q ==> !(#[trigger] j[at] is Call) && !(j[at] is Eval)
}

/// Arguments were made of script values, each of what is in its place, and nothing else happened.
pub open spec fn makes_arguments(
    arguments: Seq<ScriptValue>,
    given: Seq<JsView>,
    j: Seq<Step>,
    lo: nat,
    hi: nat,
) -> bool {
    &&& given.len() == arguments.len()
    &&& forall|k: int|
        0 <= k < arguments.len() ==> renders_as(#[trigger] arguments[k], given[k], j, lo, hi)
    &&& all_making(j, lo, hi)
}

/// A function of a script was called in a step, with arguments that were made of script values, in
/// their order, and nothing was called or evaluated before. What is done with its reply is up to what
/// comes of it.
pub open spec fn calls_at(
    function: JsView,
    arguments: Seq<ScriptValue>,
    j: Seq<Step>,
    lo: nat,
    at: nat,
    reply: Result<JsView, Seq<char>>,
) -> bool {
    exists|given: Seq<JsView>|
        {
            &&& #[trigger] makes_arguments(arguments, given, j, lo, at)
            &&& call_reply(j, at, function, given) == Some(reply)
        }
}

/// What a function of a script returned is the result: it was read, and nothing else happened.
pub open spec fn hands_back(
    returned: JsView,
    value: ScriptView,
    j: Seq<Step>,
    lo: nat,
    hi: nat,
) -> bool {
    reads(returned, value, j, lo, hi, DEPTH_LIMIT as nat) && all_reading(j, lo, hi)
}

/// The function of a script under a label is called once, with the arguments in their order, and what
/// it returns is the result. A script without a function under the label is left alone.
pub proof fn law_callback_gets_its_arguments(
    label: Seq<char>,
    arguments: Seq<ScriptValue>,
    j: Seq<Step>,
    p: nat,
    value: ScriptView,
    q: nat,
)
    requires
        callback_run(label, arguments, j, p) == Some((Ok::<ScriptView, ErrorView>(value), q)),
    ensures
        exists|global: JsView, found: Result<JsView, Seq<char>>|
            {
                &&& #[trigger] looks_for(j, p, label, global, found)
                &&& if found matches Ok(JsView::Object(_)) {
                    exists|at: nat, returned: JsView|
                        {
                            &&& p + 2 <= at < q
                            &&& #[trigger] calls_at(
                                found->Ok_0,
                                arguments,
                                j,
                                p + 2,
                                at,
                                Ok(returned),
                            )
                            &&& hands_back(returned, value, j, at + 1, q)
                        }
                } else {
                    value == ScriptView::Unit && q == p + 2
                }
            },
{
    let global = global_reply(j, p)->Some_0;
    let found = get_reply(j, p + 1, global, name_key(label))->Some_0;
    assert(looks_for(j, p, label, global, found));
    if let Ok(JsView::Object(object)) = found {
        let function = JsView::Object(object);
        let (at, returned) = lemma_function_is_called(function, arguments, j, p + 2, value, q);
        assert(calls_at(found->Ok_0, arguments, j, p + 2, at, Ok(returned)));
    }
}

/// Two steps looked for a global under a label.
pub open spec fn looks_for(
    j: Seq<Step>,
    p: nat,
    label: Seq<char>,
    global: JsView,
    found: Result<JsView, Seq<char>>,
) -> bool {
    global_reply(j, p) == Some(global) && get_reply(j, p + 1, global, name_key(label)) == Some(found)
}

/// A function of a script is called with the arguments, and what it returns is read.
proof fn lemma_function_is_called(
    function: JsView,
    arguments: Seq<ScriptValue>,
    j: Seq<Step>,
    p: nat,
    value: ScriptView,
    q: nat,
) -> (called: (nat, JsView))
    requires
        function_run(function, arguments, j, p) == Some((Ok::<ScriptView, ErrorView>(value), q)),
    ensures
        p <= called.0 < q,
        calls_at(function, arguments, j, p, called.0, Ok(called.1)),
        hands_back(called.1, value, j, called.0 + 1, q),
{
    let (given, at) = elements_run(arguments, 0, Seq::empty(), j, p)->Some_0;
    let given = given->Ok_0;
    lemma_elements_making(arguments, 0, Seq::empty(), j, p);
    lemma_elements_render(arguments, 0, Seq::empty(), j, p, given, at, p, at);
    assert(makes_arguments(arguments, given, j, p, at));
    let returned = call_reply(j, at, function, given)->Some_0->Ok_0;
    law_values_are_read(returned, j, at + 1, value, q);
    (at, returned)
}

/// What a call of a function of a script fails with: an error that occurs in an argument, what the
/// function threw, or the reason why what it returned could not be read.
pub open spec fn call_fails(
    function: JsView,
    arguments: Seq<ScriptValue>,
    error: ErrorView,
    j: Seq<Step>,
    lo: nat,
    hi: nat,
) -> bool {
    ||| exists|k: int| 0 <= k < arguments.len() && fails_with(#[trigger] arguments[k], error)
    ||| hi > lo && exists|text: Seq<char>| #[trigger]
        calls_at(function, arguments, j, lo, (hi - 1) as nat, Err(text)) && error
            == ErrorView::Invariant(text)
    ||| exists|at: nat, returned: JsView|
        {
            &&& lo <= at < hi
            &&& #[trigger] calls_at(function, arguments, j, lo, at, Ok(returned))
            &&& reading_fails(returned, error, j, at + 1, hi)
        }
}

/// A call of the function of a script under a label fails for nothing but a reason.
pub proof fn law_callback_fails_for_a_reason(
    label: Seq<char>,
    arguments: Seq<ScriptValue>,
    j: Seq<Step>,
    p: nat,
    error: ErrorView,
    q: nat,
)
    requires
        callback_run(label, arguments, j, p) == Some((Err::<ScriptView, ErrorView>(error), q)),
    ensures
        exists|global: JsView, function: JsView|
            {
                &&& #[trigger] looks_for(j, p, label, global, Ok(function))
                &&& function is Object
                &&& call_fails(function, arguments, error, j, p + 2, q)
            },
{
    let global = global_reply(j, p)->Some_0;
    let function = get_reply(j, p + 1, global, name_key(label))->Some_0->Ok_0;
    assert(looks_for(j, p, label, global, Ok(function)));
    let start = p + 2;
    let (given, at) = elements_run(arguments, 0, Seq::empty(), j, start)->Some_0;
    lemma_elements_making(arguments, 0, Seq::empty(), j, start);
    if given is Err {
        lemma_elements_fail(arguments, 0, Seq::empty(), j, start);
    } else {
        let given = given->Ok_0;
        lemma_elements_render(arguments, 0, Seq::empty(), j, start, given, at, start, at);
        assert(makes_arguments(arguments, given, j, start, at));
        let reply = call_reply(j, at, function, given)->Some_0;
        if reply is Err {
            assert(at == q - 1);
            assert(calls_at(
                function,
                arguments,
                j,
                start,
                (q - 1) as nat,
                Err(reply->Err_0),
            ));
        } else {
            law_reading_fails_for_a_reason(reply->Ok_0, j, at + 1, error, q);
            assert(calls_at(function, arguments, j, start, at, Ok(reply->Ok_0)));
        }
    }
}

/// The registry of functions was found in its place, or made and put there, and nothing else happened.
pub open spec fn finds_registry(j: Seq<Step>, lo: nat, hi: nat, registry: JsView) -> bool {
    exists|global: JsView| #[trigger]
        looks_for_registry(j, lo, global) matches Some(found) && {
            ||| hi == lo + 2 && found == Ok::<JsView, Seq<char>>(registry) && registry is Object
            ||| {
                &&& hi == lo + 4
                &&& found == Ok::<JsView, Seq<char>>(JsView::Undefined)
                &&& object_reply(j, lo + 2) == Some(registry)
                &&& put_reply(j, lo + 3, global, name_key(REGISTRY@), registry) matches Some(Ok(_))
            }
        }
}

/// What two steps found in the place of the registry of functions.
pub open spec fn looks_for_registry(j: Seq<Step>, lo: nat, global: JsView) -> Option<
    Result<JsView, Seq<char>>,
> {
    if global_reply(j, lo) == Some(global) {
        get_reply(j, lo + 1, global, name_key(REGISTRY@))
    } else {
        None
    }
}

/// The registry that is found is the one in its place.
pub proof fn law_registry_is_found(j: Seq<Step>, p: nat, registry: JsView, q: nat)
    requires
        registry_run(j, p) == Some((Ok::<JsView, ErrorView>(registry), q)),
    ensures
        finds_registry(j, p, q, registry),
        runs_nothing(j, p, q),
{
    let global = global_reply(j, p)->Some_0;
    assert(looks_for_registry(j, p, global) is Some);
    assert forall|at: int| p <= at < q implies !(#[trigger] j[at] is Call) && !(j[at] is Eval) by {
        assert(at == p || at == p + 1 || at == p + 2 || at == p + 3);
    }
}

/// A function is stored under the number that the host application gave for it, in the registry, and is
/// not called.
pub proof fn law_function_is_stored(function: JsView, j: Seq<Step>, p: nat, id: u64, q: nat)
    requires
        store_run(function, j, p) == Some((Ok::<u64, ErrorView>(id), q)),
    ensures
        p + 2 < q,
        gave_number(j, p, id),
        runs_nothing(j, p, q),
        exists|registry: JsView|
            {
                &&& #[trigger] finds_registry(j, p + 1, (q - 1) as nat, registry)
                &&& put_reply(
                    j,
                    (q - 1) as nat,
                    registry,
                    name_key(function_key(id)),
                    function,
                ) is Some
            },
{
    let (registry, at) = registry_run(j, p + 1)->Some_0;
    law_registry_is_found(j, p + 1, registry->Ok_0, at);
    assert(finds_registry(j, p + 1, (q - 1) as nat, registry->Ok_0));
}

/// A stored function is called once: the one that the registry has under the number, with the
/// arguments that are given, in the last step, whose reply is the result.
pub proof fn law_stored_function_is_called(
    id: u64,
    arguments: Seq<JsView>,
    j: Seq<Step>,
    p: nat,
    value: JsView,
    q: nat,
)
    requires
        call_stored_run(id, arguments, j, p) == Some((Ok::<JsView, ErrorView>(value), q)),
    ensures
        p + 3 < q,
        runs_nothing(j, p, (q - 1) as nat),
        exists|registry: JsView, function: JsView|
            {
                &&& #[trigger] finds_registry(j, p, (q - 2) as nat, registry)
                &&& #[trigger] finds_function(j, (q - 2) as nat, registry, id, function)
                &&& call_reply(j, (q - 1) as nat, function, arguments) == Some(
                    Ok::<JsView, Seq<char>>(value),
                )
            },
{
    let (registry, at) = registry_run(j, p)->Some_0;
    let registry = registry->Ok_0;
    law_registry_is_found(j, p, registry, at);
    let function = get_reply(j, at, registry, name_key(function_key(id)))->Some_0->Ok_0;
    assert(at == q - 2);
    assert(finds_registry(j, p, (q - 2) as nat, registry));
    assert(finds_function(j, (q - 2) as nat, registry, id, function));
}

/// A step found a function under a number.
pub open spec fn finds_function(
    j: Seq<Step>,
    at: nat,
    registry: JsView,
    id: u64,
    function: JsView,
) -> bool {
    &&& get_reply(j, at, registry, name_key(function_key(id))) == Some(
        Ok::<JsView, Seq<char>>(function),
    )
    &&& function matches JsView::Object(object) && object.callable
}

/// Between two positions, a stored function was looked for, and it was called at the end of them if it
/// was there.
pub open spec fn call_of_stored(
    id: u64,
    given: Seq<JsView>,
    reply: Result<JsView, ErrorView>,
    j: Seq<Step>,
    lo: nat,
    hi: nat,
) -> bool {
    match reply {
        Ok(value) => exists|registry: JsView, function: JsView|
            {
                &&& lo + 3 < hi
                &&& runs_nothing(j, lo, (hi - 1) as nat)
                &&& #[trigger] finds_registry(j, lo, (hi - 2) as nat, registry)
                &&& #[trigger] finds_function(j, (hi - 2) as nat, registry, id, function)
                &&& call_reply(j, (hi - 1) as nat, function, given) == Some(
                    Ok::<JsView, Seq<char>>(value),
                )
            },
        Err(error) => call_stored_fails(id, given, error, j, lo, hi),
    }
}

/// A stored function could not be called, or threw.
pub open spec fn call_stored_fails(
    id: u64,
    given: Seq<JsView>,
    error: ErrorView,
    j: Seq<Step>,
    lo: nat,
    hi: nat,
) -> bool {
    ||| hi > lo && engine_failed(j, (hi - 1) as nat, error)
    ||| error == ErrorView::Invariant("registry is not an object"@) && exists|global: JsView|
        #[trigger] looks_for_registry(j, lo, global) matches Some(Ok(found)) && !(found is Object)
    ||| error == ErrorView::Invariant("stored value is not a function"@) && hi > lo && exists|
        registry: JsView,
    | #[trigger]
        get_reply(j, (hi - 1) as nat, registry, name_key(function_key(id))) matches Some(Ok(found))
            && !(found matches JsView::Object(object) && object.callable)
}

/// A stored function that cannot be called is not called for a reason.
pub proof fn law_stored_function_fails_for_a_reason(
    id: u64,
    arguments: Seq<JsView>,
    j: Seq<Step>,
    p: nat,
    error: ErrorView,
    q: nat,
)
    requires
        call_stored_run(id, arguments, j, p) == Some((Err::<JsView, ErrorView>(error), q)),
    ensures
        p < q,
        call_stored_fails(id, arguments, error, j, p, q),
{
    let (registry, at) = registry_run(j, p)->Some_0;
    let global = global_reply(j, p)->Some_0;
    assert(looks_for_registry(j, p, global) is Some);
    if registry is Ok {
        let found = get_reply(j, at, registry->Ok_0, name_key(function_key(id)))->Some_0;
        if found is Ok && at == q - 1 {
            assert(get_reply(
                j,
                (q - 1) as nat,
                registry->Ok_0,
                name_key(function_key(id)),
            ) is Some);
        }
    }
}

/// A function of a script that the host application calls is the one that was stored under the number.
/// It is called once, with the arguments in their order, and what it returns is the value. What goes
/// wrong is an error as a value.
pub proof fn law_function_of_a_script_is_called(
    id: u64,
    arguments: Seq<ScriptValue>,
    j: Seq<Step>,
    p: nat,
    value: ScriptView,
    q: nat,
)
    requires
        call_function_run(id, arguments, j, p) == Some((value, q)),
    ensures
        (value matches ScriptView::Error(error) && exists|k: int|
            0 <= k < arguments.len() && fails_with(#[trigger] arguments[k], error)) || exists|
            at: nat,
            given: Seq<JsView>,
            end: nat,
            reply: Result<JsView, ErrorView>,
        |
            {
                &&& p <= at <= end <= q
                &&& #[trigger] makes_arguments(arguments, given, j, p, at)
                &&& #[trigger] call_of_stored(id, given, reply, j, at, end)
                &&& match reply {
                    Err(error) => value == ScriptView::Error(error) && end == q,
                    Ok(returned) => all_reading(j, end, q) && (reads(
                        returned,
                        value,
                        j,
                        end,
                        q,
                        DEPTH_LIMIT as nat,
                    ) || (value matches ScriptView::Error(error) && reading_fails(
                        returned,
                        error,
                        j,
                        end,
                        q,
                    ))),
                }
            },
{
    let (given, at) = elements_run(arguments, 0, Seq::empty(), j, p)->Some_0;
    lemma_elements_making(arguments, 0, Seq::empty(), j, p);
    if given is Err {
        lemma_elements_fail(arguments, 0, Seq::empty(), j, p);
    } else {
        let given = given->Ok_0;
        lemma_elements_render(arguments, 0, Seq::empty(), j, p, given, at, p, at);
        assert(makes_arguments(arguments, given, j, p, at));
        let (reply, end) = call_stored_run(id, given, j, at)->Some_0;
        if reply is Err {
            law_stored_function_fails_for_a_reason(id, given, j, at, reply->Err_0, end);
            assert(call_of_stored(id, given, reply, j, at, end));
        } else {
            let returned = reply->Ok_0;
            law_stored_function_is_called(id, given, j, at, returned, end);
            assert(call_of_stored(id, given, reply, j, at, end));
            lemma_from_js_asks_nothing(returned, DEPTH_LIMIT as nat, j, end);
            let result = from_js_run(returned, DEPTH_LIMIT as nat, j, end)->Some_0.0;
            if result is Ok {
                law_values_are_read(returned, j, end, value, q);
            } else {
                law_reading_fails_for_a_reason(returned, j, end, result->Err_0, q);
            }
        }
    }
}

/// A text is evaluated once, and what comes of it is the result.
pub proof fn law_text_is_evaluated(
    source: Seq<u8>,
    j: Seq<Step>,
    p: nat,
    result: Result<JsView, ErrorView>,
    q: nat,
)
    requires
        eval_run(source, j, p) == Some((result, q)),
    ensures
        q == p + 1,
        eval_reply(j, p, source) == Some(
            match result {
                Ok(value) => Ok::<JsView, Seq<char>>(value),
                Err(error) => Err(error->Invariant_0),
            },
        ),
        result matches Err(error) ==> error is Invariant,
{
}

} // verus!
