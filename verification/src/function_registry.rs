//! The functions that scripts hand out, which their virtual machine keeps for later calls.
use crate::engine::{
    alike_data, is_callable, is_open, js_global, js_heap, js_units, js_vacant, js_view, kind_of,
    law_units_are_injective, live_in, lives_in, text_value, untouched, JsKind, JsView,
};
use crate::host::{outcome, Answer, Query, QueryView};
use crate::session::{
    bare_properties, call_reply, data_of, get_reply, global_reply, grows, host_reply, is_fresh,
    js_views, lemma_sets, made_view, name_key, object_id, object_node, object_reply,
    ordinary_global, own_data, put_effect, put_reply, replays, runs, same_vm, takes, Key, Session,
    Step,
};
use crate::text::{decimal, decimal_text, joined, law_decimal_is_injective};
use crate::value::{ErrorView, InteropError};
use boa_engine::{Context, JsValue};
use vstd::prelude::*;

verus! {

broadcast use crate::session::lemma_extends_earlier;

/// The global under which a virtual machine keeps the functions that scripts handed out.
pub const REGISTRY: &'static str = "__bms_fn_reg";

/// The registry of functions of a virtual machine, where it is in its place.
pub open spec fn registry_in(context: Context) -> Option<JsView> {
    match own_data(js_heap(context), js_global(context), name_key(REGISTRY@)) {
        Some(registry) => if bare_properties(js_heap(context), registry) is Some && object_id(
            registry,
        ) != object_id(js_global(context)) {
            Some(registry)
        } else {
            None
        },
        None => None,
    }
}

/// A virtual machine has no registry of functions, and room for one: the global is not there, or it is
/// an open property that holds `undefined`.
pub open spec fn registry_can_be_made(context: Context) -> bool {
    &&& ordinary_global(context)
    &&& js_vacant(context, js_global(context), js_units(REGISTRY@)) || (is_open(
        context,
        js_global(context),
        js_units(REGISTRY@),
    ) && own_data(js_heap(context), js_global(context), name_key(REGISTRY@)) == Some(
        JsView::Undefined,
    ))
}

/// A virtual machine has a new registry of functions: an empty object without a prototype, which the
/// global object holds. The other globals are as they were, but for the form of numbers.
pub open spec fn makes_registry(before: Context, registry: JsView, after: Context) -> bool {
    &&& is_fresh(before, registry, false)
    &&& registry_in(after) == Some(registry)
    &&& bare_properties(js_heap(after), registry) == Some(Map::<Seq<u16>, JsView>::empty())
    &&& alike_data(
        data_of(js_heap(before), js_global(before)).insert(js_units(REGISTRY@), registry),
        data_of(js_heap(after), js_global(after)),
    )
}

/// What [`ensure_registry`] gives where the global object holds something other than `undefined` in
/// the place of the registry, which it leaves alone.
pub open spec fn found_registry(found: JsView) -> Result<JsView, ErrorView> {
    if found is Object {
        Ok(found)
    } else {
        Err(ErrorView::Invariant("registry is not an object"@))
    }
}

/// Asking for the registry again after it was made gives the same one.
pub proof fn law_registry_stays(before: Context, registry: JsView, after: Context)
    requires
        makes_registry(before, registry, after),
    ensures
        own_data(js_heap(after), js_global(after), name_key(REGISTRY@)) == Some(registry),
        found_registry(registry) == Ok::<JsView, ErrorView>(registry),
{
}

/// Finding the registry of functions, and making it where there is none.
pub open spec fn registry_run(j: Seq<Step>, p: nat) -> Option<(Result<JsView, ErrorView>, nat)> {
    match global_reply(j, p) {
        None => None,
        Some(global) => match get_reply(j, p + 1, global, name_key(REGISTRY@)) {
            None => None,
            Some(Err(text)) => Some((Err(ErrorView::Invariant(text)), p + 2)),
            Some(Ok(JsView::Undefined)) => match object_reply(j, p + 2) {
                None => None,
                Some(made) => match put_reply(j, p + 3, global, name_key(REGISTRY@), made) {
                    None => None,
                    Some(Err(text)) => Some((Err(ErrorView::Invariant(text)), p + 4)),
                    Some(Ok(_)) => Some((Ok(made), p + 4)),
                },
            },
            Some(Ok(found)) => if found is Object {
                Some((Ok(found), p + 2))
            } else {
                Some((Err(ErrorView::Invariant("registry is not an object"@)), p + 2))
            },
        },
    }
}

/// The registry was made and put in its place.
proof fn lemma_registry_made(
    before: Context,
    read: Context,
    made: JsView,
    between: Context,
    after: Context,
)
    requires
        registry_can_be_made(before),
        js_global(before) is Object,
        same_vm(before, read),
        untouched(before, read),
        is_fresh(read, made, false),
        grows(read, made, object_node(Map::empty(), true, true), between),
        same_vm(read, between),
        takes(between, js_global(before), name_key(REGISTRY@)) ==> put_effect(
            between,
            js_global(before),
            name_key(REGISTRY@),
            made,
            Ok::<bool, Seq<char>>(true),
            after,
        ),
        same_vm(between, after),
    ensures
        takes(between, js_global(before), name_key(REGISTRY@)),
        makes_registry(before, made, after),
{
    let global = js_global(before);
    let key = js_units(REGISTRY@);
    assert(js_heap(before).contains_key(object_id(global)));
    if !js_vacant(before, global, key) {
        assert(is_open(read, global, key));
        assert(is_open(between, global, key));
    }
    assert(takes(between, global, name_key(REGISTRY@)));
    let more = data_of(js_heap(between), global).insert(key, made);
    lemma_sets(
        between,
        global,
        key,
        more,
        js_heap(between)[object_id(global)]->plain,
        js_heap(between)[object_id(global)]->bare,
        after,
    );
    assert(more.contains_key(key));
}

/// The registry of the functions that scripts handed out.
pub fn ensure_registry<H: Fn(Query) -> Answer + Copy + 'static>(
    context: &mut Context,
    session: &mut Session<H>,
) -> (result: Result<JsValue, InteropError>)
    requires
        old(session).ready(*old(context)),
    ensures
        result matches Ok(registry) ==> lives_in(js_view(registry), *final(context)),
        final(session).follows(*old(session)),
        final(session).attached(*final(context)),
        same_vm(*old(context), *final(context)),
        result matches Ok(registry) ==> js_view(registry) is Object,
        own_data(
            js_heap(*old(context)),
            js_global(*old(context)),
            name_key(REGISTRY@),
        ) matches Some(found) ==> !(found is Undefined) ==> {
            &&& untouched(*old(context), *final(context))
            &&& made_view(result) == found_registry(found)
        },
        registry_can_be_made(*old(context)) ==> result is Ok && makes_registry(
            *old(context),
            js_view(result->Ok_0),
            *final(context),
        ),
        replays(
            |j: Seq<Step>, p: nat| registry_run(j, p),
            old(session).journal(),
            final(session).journal(),
            made_view(result),
        ),
{
    let ghost first = *context;
    let global = session.global(context);
    match session.get(context, &global, Key::Name(REGISTRY)) {
        Err(text) => Err(InteropError::Invariant(text)),
        Ok(found) => match kind_of(&found) {
            JsKind::Undefined => {
                let ghost read = *context;
                let made = session.new_object(context);
                let ghost between = *context;
                let put = session.put(context, &global, Key::Name(REGISTRY), &made);
                proof {
                    if registry_can_be_made(first) {
                        lemma_registry_made(first, read, js_view(made), between, *context);
                    }
                }
                match put {
                    Err(text) => Err(InteropError::Invariant(text)),
                    Ok(_) => Ok(made),
                }
            },
            JsKind::Object => Ok(found),
            _ => Err(InteropError::broken_invariant("registry is not an object")),
        },
    }
}

/// The number after another one, after which the numbers start again.
pub open spec fn following(id: u64) -> u64 {
    if id == u64::MAX {
        0
    } else {
        (id + 1) as u64
    }
}

/// Takes the next number for a function.
pub fn next_fn_id(next: &mut u64) -> (id: u64)
    ensures
        id == *old(next),
        *final(next) == following(*old(next)),
{
    let id: u64 = *next;
    *next = id.wrapping_add(1);
    id
}

/// The number that comes some steps after another one.
pub open spec fn after_steps(id: u64, steps: nat) -> u64
    decreases steps,
{
    if steps == 0 {
        id
    } else {
        following(after_steps(id, (steps - 1) as nat))
    }
}

/// The numbers go through all the values that they can have.
proof fn lemma_after_steps(id: u64, steps: nat)
    ensures
        after_steps(id, steps) == (id + steps) % 0x1_0000_0000_0000_0000,
    decreases steps,
{
    if steps > 0 {
        lemma_after_steps(id, (steps - 1) as nat);
    }
}

/// No number comes again before all the others did.
pub proof fn law_numbers_do_not_repeat(id: u64, one: nat, other: nat)
    requires
        one < other < one + 0x1_0000_0000_0000_0000,
    ensures
        after_steps(id, one) != after_steps(id, other),
{
    lemma_after_steps(id, one);
    lemma_after_steps(id, other);
}

/// The name under which the registry keeps a function.
pub open spec fn function_key(id: u64) -> Seq<char> {
    "fn:"@ + decimal(id as nat)
}

/// The registry keeps a function under a number.
pub open spec fn keeps_function(context: Context, id: u64, function: JsView) -> bool {
    &&& registry_in(context) is Some
    &&& own_data(js_heap(context), registry_in(context)->0, name_key(function_key(id))) == Some(
        function,
    )
}

/// A function is stored under a number, and the functions under other numbers stay.
pub open spec fn stores(before: Context, id: u64, function: JsView, after: Context) -> bool {
    &&& keeps_function(after, id, function)
    &&& forall|other: u64, kept: JsView|
        other != id && kept is Object && #[trigger] keeps_function(before, other, kept)
            ==> keeps_function(after, other, kept)
}

/// The functions that the registry keeps, it keeps later, whatever else scripts did.
pub open spec fn leaves_registry(before: Context, after: Context) -> bool {
    forall|id: u64, kept: JsView|
        kept is Object && #[trigger] keeps_function(before, id, kept) ==> keeps_function(
            after,
            id,
            kept,
        )
}

/// One of the functions that are stored one after the other: the state before and after it, and the
/// function.
pub struct Stored {
    pub before: Context,
    pub function: JsView,
    pub after: Context,
}

/// Functions are stored one after the other under the numbers that [`next_fn_id`] gives from a number
/// on, and scripts leave the registry alone in between.
pub open spec fn stored_in_turn(stored: Seq<Stored>, first: u64) -> bool {
    &&& forall|k: int|
        0 <= k < stored.len() ==> {
            &&& (#[trigger] stored[k]).function is Object
            &&& stores(
                stored[k].before,
                after_steps(first, k as nat),
                stored[k].function,
                stored[k].after,
            )
        }
    &&& forall|k: int|
        0 < k < stored.len() ==> leaves_registry(
            stored[k - 1].after,
            (#[trigger] stored[k]).before,
        )
}

/// A function stays under its number however many functions are stored after it, up to the number of
/// numbers: none of them takes its place.
pub proof fn law_stored_functions_stay(stored: Seq<Stored>, first: u64, k: int)
    requires
        stored_in_turn(stored, first),
        0 <= k < stored.len() <= 0x1_0000_0000_0000_0000,
    ensures
        keeps_function(stored.last().after, after_steps(first, k as nat), stored[k].function),
{
    lemma_stored_stays(stored, first, k, stored.len() - 1);
}

/// A function stays under its number up to a later one.
proof fn lemma_stored_stays(stored: Seq<Stored>, first: u64, k: int, last: int)
    requires
        stored_in_turn(stored, first),
        0 <= k <= last < stored.len() <= 0x1_0000_0000_0000_0000,
    ensures
        keeps_function(stored[last].after, after_steps(first, k as nat), stored[k].function),
    decreases last,
{
    if k < last {
        lemma_stored_stays(stored, first, k, last - 1);
        law_numbers_do_not_repeat(first, k as nat, last as nat);
        assert(stored[k].function is Object);
        assert(leaves_registry(stored[last - 1].after, stored[last].before));
        assert(stores(
            stored[last].before,
            after_steps(first, last as nat),
            stored[last].function,
            stored[last].after,
        ));
    }
}

/// Two functions have different names in the registry.
pub proof fn law_function_keys_differ(one: u64, other: u64)
    requires
        function_key(one) == function_key(other),
    ensures
        one == other,
{
    let prefix = "fn:"@;
    assert(decimal(one as nat) =~= function_key(one).skip(prefix.len() as int));
    assert(decimal(other as nat) =~= function_key(other).skip(prefix.len() as int));
    law_decimal_is_injective(one as nat, other as nat);
}

/// Storing a function.
pub open spec fn store_run(function: JsView, j: Seq<Step>, p: nat) -> Option<
    (Result<u64, ErrorView>, nat),
> {
    match host_reply(j, p, QueryView::FunctionId) {
        None => None,
        Some(answer) => match answer.spec_number() {
            Err(error) => Some((Err(error), p + 1)),
            Ok(id) => match registry_run(j, p + 1) {
                None => None,
                Some((Err(error), q)) => Some((Err(error), q)),
                Some((Ok(registry), q)) => match put_reply(
                    j,
                    q,
                    registry,
                    name_key(function_key(id)),
                    function,
                ) {
                    None => None,
                    Some(_) => Some((Ok(id), q + 1)),
                },
            },
        },
    }
}

/// Stores a function of a script where the engine keeps it alive, and gives the number under which
/// it is found again.
pub fn store_callable<H: Fn(Query) -> Answer + Copy + 'static>(
    function: &JsValue,
    context: &mut Context,
    session: &mut Session<H>,
) -> (result: Result<u64, InteropError>)
    requires
        old(session).ready(*old(context)),
        js_view(*function) is Object,
        lives_in(js_view(*function), *old(context)),
    ensures
        final(session).follows(*old(session)),
        final(session).attached(*final(context)),
        same_vm(*old(context), *final(context)),
        replays(
            |j: Seq<Step>, p: nat| store_run(js_view(*function), j, p),
            old(session).journal(),
            final(session).journal(),
            outcome(result),
        ),
        registry_in(*old(context)) is Some || registry_can_be_made(*old(context)) ==> (
        result matches Ok(id) ==> stores(
            *old(context),
            id,
            js_view(*function),
            *final(context),
        )),
{
    let ghost first = *context;
    let id: u64 = match session.ask(Query::FunctionId).number() {
        Err(error) => {
            return Err(error);
        },
        Ok(id) => id,
    };
    match ensure_registry(context, session) {
        Err(error) => Err(error),
        Ok(registry) => {
            let digits = decimal_text(id);
            let key = joined("fn:", &digits);
            let name = text_value(&key);
            let ghost between = *context;
            let _ = session.put(context, &registry, Key::Value(&name), function);
            proof {
                if registry_in(first) is Some || registry_can_be_made(first) {
                    let units = js_units(function_key(id));
                    let more = data_of(js_heap(between), js_view(registry)).insert(
                        units,
                        js_view(*function),
                    );
                    lemma_sets(
                        between,
                        js_view(registry),
                        units,
                        more,
                        js_heap(between)[object_id(js_view(registry))]->plain,
                        true,
                        *context,
                    );
                    assert(more.contains_key(units));
                    assert(registry_in(*context) == Some(js_view(registry)));
                    assert forall|other: u64, kept: JsView|
                        other != id && kept is Object && #[trigger] keeps_function(
                            first,
                            other,
                            kept,
                        ) implies keeps_function(*context, other, kept) by {
                        if js_units(function_key(other)) == js_units(function_key(id)) {
                            law_units_are_injective(function_key(other), function_key(id));
                            law_function_keys_differ(other, id);
                        }
                        assert(more.contains_key(js_units(function_key(other))));
                    }
                }
            }
            Ok(id)
        },
    }
}

/// Calling a stored function.
pub open spec fn call_stored_run(id: u64, arguments: Seq<JsView>, j: Seq<Step>, p: nat) -> Option<
    (Result<JsView, ErrorView>, nat),
> {
    match registry_run(j, p) {
        None => None,
        Some((Err(error), q)) => Some((Err(error), q)),
        Some((Ok(registry), q)) => match get_reply(j, q, registry, name_key(function_key(id))) {
            None => None,
            Some(Err(text)) => Some((Err(ErrorView::Invariant(text)), q + 1)),
            Some(Ok(found)) => if found matches JsView::Object(object) && object.callable {
                match call_reply(j, q + 1, found, arguments) {
                    None => None,
                    Some(Err(text)) => Some((Err(ErrorView::Invariant(text)), q + 2)),
                    Some(Ok(value)) => Some((Ok(value), q + 2)),
                }
            } else {
                Some((Err(ErrorView::Invariant("stored value is not a function"@)), q + 1))
            },
        },
    }
}

/// The last step of a session called a function, and what the function gave is the result.
pub open spec fn calls(
    before: Seq<Step>,
    after: Seq<Step>,
    function: JsView,
    arguments: Seq<JsView>,
    result: Result<JsView, ErrorView>,
) -> bool {
    &&& before.len() < after.len()
    &&& call_reply(after, (after.len() - 1) as nat, function, arguments) matches Some(reply)
        && result == match reply {
        Ok(value) => Ok(value),
        Err(text) => Err(ErrorView::Invariant(text)),
    }
}

/// A function was run with arguments in a virtual machine, and its result is what it returned, or the
/// text of what it threw.
pub open spec fn runs_function(
    function: JsView,
    arguments: Seq<JsView>,
    result: Result<JsView, ErrorView>,
    after: Context,
) -> bool {
    exists|between: Context, reply: Result<JsView, Seq<char>>|
        {
            &&& #[trigger] runs(between, function, arguments, reply, after)
            &&& result == match reply {
                Ok(value) => Ok(value),
                Err(text) => Err(ErrorView::Invariant(text)),
            }
        }
}

/// Calls a function that [`store_callable`] stored.
pub fn call_stored<H: Fn(Query) -> Answer + Copy + 'static>(
    id: u64,
    arguments: &Vec<JsValue>,
    context: &mut Context,
    session: &mut Session<H>,
) -> (result: Result<JsValue, InteropError>)
    requires
        old(session).ready(*old(context)),
        live_in(js_views(arguments@), *old(context)),
    ensures
        result matches Ok(value) ==> lives_in(js_view(value), *final(context)),
        final(session).follows(*old(session)),
        final(session).attached(*final(context)),
        same_vm(*old(context), *final(context)),
        replays(
            |j: Seq<Step>, p: nat| call_stored_run(id, js_views(arguments@), j, p),
            old(session).journal(),
            final(session).journal(),
            made_view(result),
        ),
        forall|function: JsView| #[trigger]
            keeps_function(*old(context), id, function) && (function matches JsView::Object(own)
                && own.callable) ==> runs_function(
                function,
                js_views(arguments@),
                made_view(result),
                *final(context),
            ),
        forall|function: JsView| #[trigger]
            keeps_function(*old(context), id, function) && (function matches JsView::Object(own)
                && own.callable) ==> calls(
                old(session).journal(),
                final(session).journal(),
                function,
                js_views(arguments@),
                made_view(result),
            ),
{
    let registry = match ensure_registry(context, session) {
        Err(error) => {
            return Err(error);
        },
        Ok(registry) => registry,
    };
    let digits = decimal_text(id);
    let key = joined("fn:", &digits);
    match session.get(context, &registry, Key::Name(&key)) {
        Err(text) => Err(InteropError::Invariant(text)),
        Ok(found) => if is_callable(&found) {
            match session.call(context, &found, arguments) {
                Err(text) => Err(InteropError::Invariant(text)),
                Ok(value) => Ok(value),
            }
        } else {
            Err(InteropError::broken_invariant("stored value is not a function"))
        },
    }
}

} // verus!
