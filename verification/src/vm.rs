//! Virtual machines: how they are set up, loaded, reloaded and called.
use crate::calls::done_run;
use crate::data::{equipped, keeps, seals_prototype, wraps_with};
use crate::engine::{
    js_global, js_heap, js_pristine, js_units, js_view, kind_of, lives_in, JsKind, JsView,
};
use crate::from_js::{from_js_effect, from_js_run, value_from_js, value_view, DEPTH_LIMIT};
use crate::globals::{
    all_idle, binding_effect, defines_only, definitions, has_classes, lemma_defined_only_before,
    lemma_defines_more, lemma_idle_before, lemma_keeps_globals, lemma_still_has_classes,
    only_defines, spares_classes,
};
use crate::host::{outcome, Answer, Global, Query, QueryView};
use crate::into_js::{all_denote, all_portable, elements_into_js, elements_run};
use crate::mirror::{
    bind_call_globals, bind_type_run, call_globals_run, entity_at, functions_run, globals_run,
    identifies, law_other_globals_stay, lemma_call_globals, lemma_call_globals_define,
    lemma_functions_are_bound, lemma_globals_are_bound, lemma_told_names, lemma_type_is_bound,
    lists_functions, lists_globals, mirror_app_globals_into_vm, mirror_run, mirrored, tells,
    tells_script,
};
use crate::registration::{
    gets_classes, keeps_other_globals, law_classes_can_be_registered_again,
    law_registered_machines_have_classes, law_registering_keeps_other_globals, leaves_classes,
    lemma_register_goes_on, register_host_classes, register_run,
};
use crate::session::{
    and_then, call_reply, eval_reply, evaluates, extends, fresh, get_reply, gets, global_reply,
    host_reply, name_key, new_context, object_id, ordinary, replays, reply_view, runs, same_vm, Key,
    Session, Step,
};
use crate::setup::{lemma_fresh_is_registrable, prepared, registers, registrable};
use crate::text::joined;
use crate::value::{list_view, ErrorView, InteropError, ReflectReference, ScriptValue, ScriptView};
use crate::vm_registry::{sid_key, JsVmRegistry};
use boa_engine::{Context, JsValue};
use std::any::TypeId;
use vstd::prelude::*;

verus! {

broadcast use crate::session::lemma_extends_earlier;

/// Evaluating the source of a script, with a text before what went wrong.
pub open spec fn source_run(source: Seq<u8>, complaint: Seq<char>, j: Seq<Step>, p: nat) -> Option<
    (Result<(), ErrorView>, nat),
> {
    match eval_reply(j, p, source) {
        None => None,
        Some(Err(text)) => Some((Err(ErrorView::Invariant(complaint + text)), p + 1)),
        Some(Ok(_)) => Some((Ok(()), p + 1)),
    }
}

/// Loading a script into a fresh virtual machine.
pub open spec fn load_run(
    script_id: Seq<char>,
    source: Seq<u8>,
    world: TypeId,
    j: Seq<Step>,
    p: nat,
) -> Option<(Result<(), ErrorView>, nat)> {
    and_then(
        register_run(j, p),
        |unit: (), p: nat|
            and_then(
                call_globals_run(script_id, j, p),
                |unit: (), p: nat|
                    and_then(
                        mirror_run(world, j, p),
                        |unit: (), p: nat| source_run(source, "eval: "@, j, p),
                    ),
            ),
    )
}

/// The result of loading a script as contracts see it.
pub open spec fn loaded_view(result: Result<Context, InteropError>) -> Result<(), ErrorView> {
    match result {
        Ok(_) => Ok(()),
        Err(error) => Err(error@),
    }
}

/// After the classes of a virtual machine were registered, a script was told what it is about, and
/// nothing else changed. Then globals of the host application were bound. Unless one of these is in the
/// place of a class, and if the host application left the virtual machine alone while it made them, only
/// these definitions changed the global object, and unless one of these is named `entity` or
/// `script_id`, the script is still told what it is about.
pub open spec fn binds_globals(
    registered: Context,
    script_id: Seq<char>,
    entity: ReflectReference,
    j: Seq<Step>,
    from: nat,
    at: nat,
    told: Context,
    ready: Context,
) -> bool {
    &&& from + 4 <= at < j.len()
    &&& entity_at(j, (at - 4) as nat, entity)
    &&& only_defines(registered, j.take(at as int), from, told)
    &&& identifies(registered, told, script_id, entity)
    &&& all_idle(j, at, j.len()) && defines_only(
        j,
        at,
        j.len(),
        |key: Seq<u16>| spares_classes(key),
    ) ==> {
        &&& only_defines(told, j, at, ready)
        &&& defines_only(j, at, j.len(), |key: Seq<u16>| !tells_script(key)) ==> identifies(
            registered,
            ready,
            script_id,
            entity,
        )
    }
}

/// A virtual machine got its classes, then its globals, and then evaluated a script, once.
pub open spec fn loads(
    before: Context,
    script_id: Seq<char>,
    source: Seq<u8>,
    j: Seq<Step>,
    p: nat,
    after: Context,
) -> bool {
    exists|
        registered: Context,
        from: nat,
        entity: ReflectReference,
        at: nat,
        told: Context,
        ready: Context,
    |
        {
            &&& p <= from
            &&& gets_classes(before, registered)
            &&& has_classes(registered)
            &&& #[trigger] binds_globals(registered, script_id, entity, j, from, at, told, ready)
            &&& eval_reply(j, (j.len() - 1) as nat, source) matches Some(reply) && evaluates(
                ready,
                source,
                reply,
                after,
            )
        }
}

/// A script was told what it is about, globals were mirrored, and it was evaluated.
proof fn lemma_binds_globals(
    registered: Context,
    script_id: Seq<char>,
    from: nat,
    introduced: Seq<Step>,
    told: Context,
    mirrored: Seq<Step>,
    ready: Context,
    j: Seq<Step>,
) -> (entity: ReflectReference)
    requires
        has_classes(registered),
        extends(mirrored, introduced),
        extends(j, mirrored),
        j.len() == mirrored.len() + 1,
        j.last() is Eval,
        from + 4 <= introduced.len(),
        only_defines(registered, introduced, from, told),
        call_globals_run(script_id, introduced, from) == Some(
            (Ok::<(), ErrorView>(()), introduced.len()),
        ),
        exists|entity: ReflectReference| #[trigger]
            entity_at(introduced, (introduced.len() - 4) as nat, entity) && identifies(
                registered,
                told,
                script_id,
                entity,
            ),
        binding_effect(told, mirrored, introduced.len(), ready),
    ensures
        binds_globals(registered, script_id, entity, j, from, introduced.len(), told, ready),
{
    let at = introduced.len();
    let entity = choose|entity: ReflectReference| #[trigger]
        entity_at(introduced, (introduced.len() - 4) as nat, entity) && identifies(
            registered,
            told,
            script_id,
            entity,
        );
    assert(j[at - 4] == introduced[at - 4]);
    assert(j.take(at as int) =~= introduced);
    let spare = |key: Seq<u16>| spares_classes(key);
    lemma_told_names();
    lemma_call_globals_define(script_id, introduced, from);
    assert(defines_only(introduced, from, at, spare)) by {
        assert forall|k: int| from <= k < at implies (#[trigger] introduced[k] matches Step::Define {
            name,
            ..
        } ==> spare(js_units(name))) by {}
    }
    lemma_still_has_classes(registered, introduced, from, told);
    if all_idle(j, at, j.len()) && defines_only(j, at, j.len(), spare) {
        lemma_idle_before(j, mirrored, at);
        lemma_defined_only_before(j, mirrored, at, spare);
        assert(ordinary(js_heap(told), object_id(js_global(told))));
        lemma_keeps_globals(ready, j, mirrored.len(), ready);
        lemma_defines_more(told, mirrored, at, ready, j, ready);
        let other = |key: Seq<u16>| !tells_script(key);
        if defines_only(j, at, j.len(), other) {
            law_other_globals_stay(told, j, at, ready, other, js_units("entity"@));
            law_other_globals_stay(told, j, at, ready, other, js_units("script_id"@));
            assert(ordinary(js_heap(ready), object_id(js_global(ready))));
        }
    }
    entity
}

/// Loads a script into a virtual machine: gives it the classes for host values and types, the entity
/// that the script is about and its identifier, and what the host application has for scripts, and
/// evaluates the script.
pub fn load_script<H: Fn(Query) -> Answer + Copy + 'static>(
    script_id: &str,
    content: &[u8],
    world: TypeId,
    context: &mut Context,
    session: &mut Session<H>,
) -> (result: Result<(), InteropError>)
    requires
        old(session).ready(*old(context)),
    ensures
        final(session).follows(*old(session)),
        final(session).attached(*final(context)),
        same_vm(*old(context), *final(context)),
        prepared(*old(context)) && result is Ok ==> {
            &&& js_pristine(*old(context)) ==> exists|prototype: JsView| #[trigger]
                seals_prototype(*final(context), prototype)
            &&& loads(
                *old(context),
                script_id@,
                content@,
                final(session).journal(),
                old(session).journal().len(),
                *final(context),
            )
        },
        replays(
            |j: Seq<Step>, p: nat| load_run(script_id@, content@, world, j, p),
            old(session).journal(),
            final(session).journal(),
            outcome(result),
        ),
{
    let ghost first = *context;
    let ghost start = session.journal().len();
    register_host_classes(context, session)?;
    let ghost registered = *context;
    let ghost from = session.journal().len();
    bind_call_globals(script_id, context, session)?;
    let ghost told = *context;
    let ghost introduced = session.journal();
    assert(extends(introduced, introduced));
    mirror_app_globals_into_vm(world, context, session)?;
    let ghost ready = *context;
    let ghost mirrored = session.journal();
    let reply = session.eval(context, content);
    proof {
        if prepared(first) {
            law_registered_machines_have_classes(first, registered);
            let (class, prototype, token_class, token_prototype) = choose|
                class: JsView,
                prototype: JsView,
                token_class: JsView,
                token_prototype: JsView,
            | #[trigger]
                registers(first, registered, class, prototype, token_class, token_prototype);
            if js_pristine(first) {
                assert(seals_prototype(*context, prototype));
            }
            let entity = lemma_binds_globals(
                registered,
                script_id@,
                from,
                introduced,
                told,
                mirrored,
                ready,
                session.journal(),
            );
        }
    }
    match reply {
        Err(text) => Err(InteropError::Invariant(joined("eval: ", &text))),
        Ok(_) => Ok(()),
    }
}

/// Loads a script into a fresh virtual machine.
///
/// With the result comes the session in which the script was loaded.
pub fn js_context_load<H: Fn(Query) -> Answer + Copy + 'static>(
    script_id: &str,
    content: &[u8],
    world: TypeId,
    serve: H,
) -> (loaded: (Result<Context, InteropError>, Session<H>))
    requires
        forall|query: Query| call_requires(serve, (query,)),
    ensures
        loaded.1.server() == serve,
        loaded.0 matches Ok(context) ==> {
            &&& loaded.1.attached(context)
            &&& exists|prototype: JsView| #[trigger] seals_prototype(context, prototype)
            &&& exists|before: Context| #[trigger]
                fresh(before) && loads(
                    before,
                    script_id@,
                    content@,
                    loaded.1.journal(),
                    0,
                    context,
                )
        },
        replays(
            |j: Seq<Step>, p: nat| load_run(script_id@, content@, world, j, p),
            Seq::empty(),
            loaded.1.journal(),
            loaded_view(loaded.0),
        ),
{
    let mut context = new_context();
    proof {
        lemma_fresh_is_registrable(context);
    }
    let mut session = Session::new(serve, &context);
    match load_script(script_id, content, world, &mut context, &mut session) {
        Ok(()) => (Ok(context), session),
        Err(error) => (Err(error), session),
    }
}

/// Reloading a script in its virtual machine.
pub open spec fn reload_run(source: Seq<u8>, j: Seq<Step>, p: nat) -> Option<
    (Result<(), ErrorView>, nat),
> {
    and_then(
        register_run(j, p),
        |unit: (), p: nat|
            match eval_reply(j, p, source) {
                None => None,
                Some(Err(text)) => Some((Err(ErrorView::Invariant(text)), p + 1)),
                Some(Ok(_)) => Some((Ok(()), p + 1)),
            },
    )
}

/// A virtual machine got its classes, with which nothing else changed, and then evaluated a script,
/// once, whose outcome is the result.
pub open spec fn reloads(
    before: Context,
    source: Seq<u8>,
    result: Result<(), ErrorView>,
    after: Context,
) -> bool {
    exists|ready: Context, reply: Result<JsView, Seq<char>>|
        {
            &&& gets_classes(before, ready)
            &&& keeps_other_globals(before, ready)
            &&& #[trigger] evaluates(ready, source, reply, after)
            &&& result == match reply {
                Ok(_) => Ok(()),
                Err(text) => Err(ErrorView::Invariant(text)),
            }
        }
}

/// Reloads a script in its virtual machine: makes sure that it still has its classes, and evaluates
/// the script.
pub fn reload_script<H: Fn(Query) -> Answer + Copy + 'static>(
    content: &[u8],
    context: &mut Context,
    session: &mut Session<H>,
) -> (result: Result<(), InteropError>)
    requires
        old(session).ready(*old(context)),
    ensures
        final(session).follows(*old(session)),
        final(session).attached(*final(context)),
        same_vm(*old(context), *final(context)),
        registrable(*old(context)) ==> reloads(
            *old(context),
            content@,
            outcome(result),
            *final(context),
        ),
        replays(
            |j: Seq<Step>, p: nat| reload_run(content@, j, p),
            old(session).journal(),
            final(session).journal(),
            outcome(result),
        ),
{
    let ghost first = *context;
    register_host_classes(context, session)?;
    let ghost ready = *context;
    let reply = session.eval(context, content);
    proof {
        if registrable(first) {
            law_registering_keeps_other_globals(first, ready);
            assert(evaluates(ready, content@, reply_view(reply), *context));
        }
    }
    match reply {
        Err(text) => Err(InteropError::Invariant(text)),
        Ok(_) => Ok(()),
    }
}

/// A script can be reloaded after scripts that left alone what the classes need: the classes are
/// registered again, with which the globals that scripts made stay, the script is evaluated in that
/// virtual machine, and what comes of it is the result.
pub proof fn law_reload_evaluates_the_script(
    before: Context,
    registered: Context,
    now: Context,
    source: Seq<u8>,
    result: Result<(), ErrorView>,
    after: Context,
)
    requires
        gets_classes(before, registered),
        leaves_classes(registered, now),
        registrable(now) ==> reloads(now, source, result, after),
    ensures
        reloads(now, source, result, after),
{
    law_classes_can_be_registered_again(before, registered, now);
}

/// What is said where there is no registry.
pub const NO_REGISTRY: &'static str = "JsVmRegistry missing";

/// What is said where a script has no virtual machine.
pub const NO_VM: &'static str = "no VM for this ScriptId";

/// What is said where the registry went away during a call.
pub const LOST_REGISTRY: &'static str = "JsVmRegistry missing (post-call)";

/// Two registries have virtual machines for the same scripts, and the same ones for all but one.
pub open spec fn differ_at_most_at(
    one: Map<Seq<char>, Context>,
    other: Map<Seq<char>, Context>,
    key: Seq<char>,
) -> bool {
    &&& one.dom() == other.dom()
    &&& one.remove(key) == other.remove(key)
}

/// Reloads a script in the virtual machine that the registry has for it.
///
/// With the result comes the session in which the script was reloaded, if it has a virtual machine.
pub fn js_context_reload<H: Fn(Query) -> Answer + Copy + 'static>(
    registry: Option<&mut JsVmRegistry>,
    script_id: &str,
    content: &[u8],
    serve: H,
) -> (reloaded: (Result<(), InteropError>, Option<Session<H>>))
    requires
        forall|query: Query| call_requires(serve, (query,)),
    ensures
        registry is None ==> {
            &&& outcome(reloaded.0) == Err::<(), ErrorView>(ErrorView::Invariant(NO_REGISTRY@))
            &&& reloaded.1 is None
        },
        registry matches Some(own) ==> {
            &&& differ_at_most_at(own@, final(own)@, script_id@)
            &&& !own@.contains_key(script_id@) ==> {
                &&& outcome(reloaded.0) == Err::<(), ErrorView>(ErrorView::Invariant(NO_VM@))
                &&& reloaded.1 is None
            }
            &&& own@.contains_key(script_id@) ==> {
                &&& reloaded.1 is Some
                &&& reloaded.1->0.server() == serve
                &&& reloaded.1->0.attached(final(own)@[script_id@])
                &&& same_vm(own@[script_id@], final(own)@[script_id@])
                &&& registrable(own@[script_id@]) ==> reloads(
                    own@[script_id@],
                    content@,
                    outcome(reloaded.0),
                    final(own)@[script_id@],
                )
                &&& replays(
                    |j: Seq<Step>, p: nat| reload_run(content@, j, p),
                    Seq::empty(),
                    reloaded.1->0.journal(),
                    outcome(reloaded.0),
                )
            }
        },
{
    match registry {
        None => (Err(InteropError::broken_invariant(NO_REGISTRY)), None),
        Some(own) => {
            let ghost before = own@;
            match own.take(script_id) {
                None => {
                    assert(before.remove(script_id@) =~= before);
                    (Err(InteropError::broken_invariant(NO_VM)), None)
                },
                Some(vm) => {
                    let mut vm = vm;
                    let mut session = Session::new(serve, &vm);
                    let result = reload_script(content, &mut vm, &mut session);
                    own.insert(sid_key(script_id), vm);
                    proof {
                        assert(own@.dom() =~= before.dom());
                        assert(own@.remove(script_id@) =~= before.remove(script_id@));
                    }
                    (result, Some(session))
                },
            }
        },
    }
}

/// Takes the virtual machine of a script out of the registry, so that the world is free while the
/// script runs.
pub fn take_vm(registry: Option<&mut JsVmRegistry>, script_id: &str) -> (result: Result<
    Context,
    InteropError,
>)
    ensures
        registry is None ==> outcome(result) == Err::<Context, ErrorView>(
            ErrorView::Invariant(NO_REGISTRY@),
        ),
        registry matches Some(own) ==> {
            &&& final(own)@ == own@.remove(script_id@)
            &&& outcome(result) == if own@.contains_key(script_id@) {
                Ok(own@[script_id@])
            } else {
                Err(ErrorView::Invariant(NO_VM@))
            }
        },
{
    match registry {
        None => Err(InteropError::broken_invariant(NO_REGISTRY)),
        Some(own) => match own.take(script_id) {
            None => Err(InteropError::broken_invariant(NO_VM)),
            Some(vm) => Ok(vm),
        },
    }
}

/// Puts the virtual machine of a script back into the registry, and hands on what the call of the
/// script gave.
pub fn return_vm(
    registry: Option<&mut JsVmRegistry>,
    script_id: &str,
    vm: Context,
    call_result: Result<ScriptValue, InteropError>,
) -> (result: Result<ScriptValue, InteropError>)
    ensures
        registry is None ==> outcome(result) == Err::<ScriptValue, ErrorView>(
            ErrorView::Invariant(LOST_REGISTRY@),
        ),
        registry matches Some(own) ==> {
            &&& final(own)@ == own@.insert(script_id@, vm)
            &&& result == call_result
        },
{
    match registry {
        None => Err(InteropError::broken_invariant(LOST_REGISTRY)),
        Some(own) => {
            let _ = own.insert(sid_key(script_id), vm);
            call_result
        },
    }
}

/// Puts the virtual machine in which a script was loaded into the registry, in the place of an
/// earlier one of that script.
pub fn keep_vm(registry: &mut JsVmRegistry, script_id: &str, vm: Context)
    ensures
        final(registry)@ == old(registry)@.insert(script_id@, vm),
{
    let _ = registry.insert(sid_key(script_id), vm);
}

/// A script is called with the virtual machine that it has, and every script has its virtual
/// machine after the call, whatever came of it.
pub proof fn law_call_keeps_machines(
    before: Map<Seq<char>, Context>,
    taken: Map<Seq<char>, Context>,
    after: Map<Seq<char>, Context>,
    script_id: Seq<char>,
    vm: Context,
)
    requires
        before.contains_key(script_id),
        taken == before.remove(script_id),
        after == taken.insert(script_id, vm),
    ensures
        differ_at_most_at(before, after, script_id),
{
    assert(after.dom() =~= before.dom());
    assert(after.remove(script_id) =~= before.remove(script_id));
}

/// Calling a function of a script.
pub open spec fn function_run(
    function: JsView,
    arguments: Seq<ScriptValue>,
    j: Seq<Step>,
    p: nat,
) -> Option<(Result<ScriptView, ErrorView>, nat)> {
    and_then(
        elements_run(arguments, 0, Seq::empty(), j, p),
        |converted: Seq<JsView>, p: nat|
            match call_reply(j, p, function, converted) {
                None => None,
                Some(Err(text)) => Some((Err(ErrorView::Invariant(text)), p + 1)),
                Some(Ok(returned)) => from_js_run(returned, DEPTH_LIMIT as nat, j, p + 1),
            },
    )
}

/// A function of a script was called with arguments that hold script values that can be handed over, in
/// their order, and its result is what it returned, or the text of what it threw.
pub open spec fn calls_holding(
    before: Context,
    function: JsView,
    arguments: Seq<ScriptValue>,
    result: Result<ScriptView, ErrorView>,
    last: Context,
) -> bool {
    forall|references: bool, depth: nat| #[trigger]
        all_portable(arguments, references, depth) && (references ==> equipped(before)) ==> exists|
            between: Context,
            given: Seq<JsView>,
            reply: Result<JsView, Seq<char>>,
            after: Context,
        |
            {
                &&& #[trigger] runs(between, function, given, reply, after)
                &&& keeps(before, between)
                &&& given.len() == arguments.len()
                &&& all_denote(js_heap(between), given, list_view(arguments), depth)
                &&& match reply {
                    Err(text) => result == Err::<ScriptView, ErrorView>(ErrorView::Invariant(text)),
                    Ok(returned) => from_js_effect(
                        after,
                        returned,
                        DEPTH_LIMIT as nat,
                        result,
                        last,
                    ),
                }
            }
}

/// Calls a function of a script.
fn call_function<H: Fn(Query) -> Answer + Copy + 'static>(
    function: &JsValue,
    arguments: &Vec<ScriptValue>,
    context: &mut Context,
    session: &mut Session<H>,
) -> (result: Result<ScriptValue, InteropError>)
    requires
        old(session).ready(*old(context)),
        js_view(*function) is Object,
        lives_in(js_view(*function), *old(context)),
    ensures
        final(session).follows(*old(session)),
        final(session).attached(*final(context)),
        same_vm(*old(context), *final(context)),
        calls_holding(
            *old(context),
            js_view(*function),
            arguments@,
            value_view(result),
            *final(context),
        ),
        replays(
            |j: Seq<Step>, p: nat| function_run(js_view(*function), arguments@, j, p),
            old(session).journal(),
            final(session).journal(),
            value_view(result),
        ),
{
    let converted = elements_into_js(arguments, context, session)?;
    match session.call(context, function, &converted) {
        Err(text) => Err(InteropError::Invariant(text)),
        Ok(returned) => value_from_js(&returned, DEPTH_LIMIT, context, session),
    }
}

/// Calling the function of a script under a label. A script without one is left alone.
pub open spec fn callback_run(
    label: Seq<char>,
    arguments: Seq<ScriptValue>,
    j: Seq<Step>,
    p: nat,
) -> Option<(Result<ScriptView, ErrorView>, nat)> {
    match global_reply(j, p) {
        None => None,
        Some(global) => match get_reply(j, p + 1, global, name_key(label)) {
            None => None,
            Some(Ok(JsView::Object(function))) => function_run(
                JsView::Object(function),
                arguments,
                j,
                p + 2,
            ),
            Some(_) => Some((Ok(ScriptView::Unit), p + 2)),
        },
    }
}

/// Handling an event.
pub open spec fn handler_run(
    arguments: Seq<ScriptValue>,
    script_id: Seq<char>,
    label: Seq<char>,
    j: Seq<Step>,
    p: nat,
) -> Option<(Result<ScriptView, ErrorView>, nat)> {
    and_then(
        call_globals_run(script_id, j, p),
        |unit: (), p: nat| callback_run(label, arguments, j, p),
    )
}

/// Two steps looked for a global under a label, in a virtual machine in some state.
pub open spec fn looks_up(
    before: Context,
    label: Seq<char>,
    j: Seq<Step>,
    at: nat,
    after: Context,
) -> bool {
    let global = js_global(before);
    &&& global_reply(j, at) == Some(global)
    &&& get_reply(j, at + 1, global, name_key(label)) matches Some(found) && gets(
        before,
        global,
        name_key(label),
        found,
        after,
    )
}

/// The function of a script under a label was looked for in a virtual machine that had been told the
/// entity that the call is about and the identifier of the script, and in which nothing else happened.
#[verifier::opaque]
pub open spec fn calls_back(
    before: Context,
    script_id: Seq<char>,
    label: Seq<char>,
    j: Seq<Step>,
    p: nat,
) -> bool {
    exists|entity: ReflectReference, at: nat, ready: Context, after: Context|
        {
            &&& p + 4 <= at
            &&& #[trigger] entity_at(j, (at - 4) as nat, entity)
            &&& only_defines(before, j.take(at as int), p, ready)
            &&& identifies(before, ready, script_id, entity)
            &&& #[trigger] looks_up(ready, label, j, at, after)
        }
}

/// What a call was told stays in the journal.
proof fn lemma_calls_back_later(
    before: Context,
    script_id: Seq<char>,
    label: Seq<char>,
    earlier: Seq<Step>,
    p: nat,
    j: Seq<Step>,
)
    requires
        calls_back(before, script_id, label, earlier, p),
        extends(j, earlier),
    ensures
        calls_back(before, script_id, label, j, p),
{
    reveal(calls_back);
    let (entity, at, ready, after) = choose|
        entity: ReflectReference,
        at: nat,
        ready: Context,
        after: Context,
    |
        {
            &&& p + 4 <= at
            &&& #[trigger] entity_at(earlier, (at - 4) as nat, entity)
            &&& only_defines(before, earlier.take(at as int), p, ready)
            &&& identifies(before, ready, script_id, entity)
            &&& #[trigger] looks_up(ready, label, earlier, at, after)
        };
    assert(j.take(at as int) =~= earlier.take(at as int));
    assert(j[at - 4] == earlier[at - 4]);
    assert(entity_at(j, (at - 4) as nat, entity));
    assert(j[at as int] == earlier[at as int]);
    assert(j[(at + 1) as int] == earlier[(at + 1) as int]);
    assert(looks_up(ready, label, j, at, after));
}

/// A virtual machine was told what a call is about, and the function of the script was looked for.
proof fn lemma_calls_back(
    before: Context,
    script_id: Seq<char>,
    label: Seq<char>,
    p: nat,
    bound: Seq<Step>,
    ready: Context,
    found: Seq<Step>,
    reply: Result<JsView, Seq<char>>,
    after: Context,
)
    requires
        p + 4 <= bound.len(),
        exists|entity: ReflectReference| #[trigger]
            entity_at(bound, (bound.len() - 4) as nat, entity) && identifies(
                before,
                ready,
                script_id,
                entity,
            ),
        only_defines(before, bound, p, ready),
        extends(found, bound),
        found.len() == bound.len() + 2,
        found[bound.len() as int] == (Step::Global { reply: js_global(ready) }),
        found[(bound.len() + 1) as int] == (Step::Get {
            object: js_global(ready),
            key: name_key(label),
            reply,
        }),
        gets(ready, js_global(ready), name_key(label), reply, after),
    ensures
        calls_back(before, script_id, label, found, p),
        forall|j: Seq<Step>| #[trigger]
            extends(j, found) ==> calls_back(before, script_id, label, j, p),
{
    reveal(calls_back);
    let at = bound.len();
    let entity = choose|entity: ReflectReference| #[trigger]
        entity_at(bound, (bound.len() - 4) as nat, entity) && identifies(
            before,
            ready,
            script_id,
            entity,
        );
    assert(found[at - 4] == bound[at - 4]);
    assert(entity_at(found, (at - 4) as nat, entity));
    assert(found.take(at as int) =~= bound);
    assert(looks_up(ready, label, found, at, after));
    assert(calls_back(before, script_id, label, found, p));
    assert forall|j: Seq<Step>| #[trigger] extends(j, found) implies calls_back(
        before,
        script_id,
        label,
        j,
        p,
    ) by {
        lemma_calls_back_later(before, script_id, label, found, p, j);
    }
}

/// A global was found under a label and called with arguments, if it is an object. Where it is none, there
/// is no result.
pub open spec fn answers_event(
    ready: Context,
    found: Result<JsView, Seq<char>>,
    arguments: Seq<ScriptValue>,
    result: Result<ScriptView, ErrorView>,
    after: Context,
) -> bool {
    match found {
        Ok(JsView::Object(function)) => calls_holding(
            ready,
            JsView::Object(function),
            arguments,
            result,
            after,
        ),
        _ => result == Ok::<ScriptView, ErrorView>(ScriptView::Unit),
    }
}

/// Two steps looked for a global under a label, and it answered an event.
pub open spec fn handles(
    label: Seq<char>,
    arguments: Seq<ScriptValue>,
    j: Seq<Step>,
    p: nat,
    result: Result<ScriptView, ErrorView>,
    after: Context,
) -> bool {
    exists|at: nat, ready: Context, found: Result<JsView, Seq<char>>|
        {
            &&& p <= at && at + 1 < j.len()
            &&& #[trigger] answers_event(ready, found, arguments, result, after)
            &&& #[trigger] get_reply(j, at + 1, js_global(ready), name_key(label)) == Some(found)
        }
}

/// Handles an event: calls the function of a script under a label, about an entity.
///
/// The virtual machine was taken out with [`take_vm`] and goes back with [`return_vm`].
pub fn js_handler<H: Fn(Query) -> Answer + Copy + 'static>(
    arguments: &Vec<ScriptValue>,
    script_id: &str,
    label: &str,
    context: &mut Context,
    session: &mut Session<H>,
) -> (result: Result<ScriptValue, InteropError>)
    requires
        old(session).ready(*old(context)),
    ensures
        final(session).follows(*old(session)),
        final(session).attached(*final(context)),
        same_vm(*old(context), *final(context)),
        has_classes(*old(context)) && result is Ok ==> calls_back(
            *old(context),
            script_id@,
            label@,
            final(session).journal(),
            old(session).journal().len(),
        ),
        result is Ok ==> handles(
            label@,
            arguments@,
            final(session).journal(),
            old(session).journal().len(),
            value_view(result),
            *final(context),
        ),
        replays(
            |j: Seq<Step>, p: nat| handler_run(arguments@, script_id@, label@, j, p),
            old(session).journal(),
            final(session).journal(),
            value_view(result),
        ),
{
    let ghost first = *context;
    bind_call_globals(script_id, context, session)?;
    let ghost ready = *context;
    let ghost bound = session.journal();
    let global = session.global(context);
    let function = session.get(context, &global, Key::Name(label));
    let ghost found = session.journal();
    proof {
        assert(extends(found, bound));
        assert(found.take(bound.len() as int) =~= bound);
        if has_classes(first) {
            lemma_calls_back(
                first,
                script_id@,
                label@,
                old(session).journal().len(),
                bound,
                ready,
                found,
                reply_view(function),
                *context,
            );
        }
    }
    let ghost reply = reply_view(function);
    let ghost read = *context;
    let ghost at = bound.len();
    proof {
        let nothing = Ok::<ScriptView, ErrorView>(ScriptView::Unit);
        assert(get_reply(found, at + 1, js_global(read), name_key(label@)) == Some(reply));
        if !(reply matches Ok(JsView::Object(_))) {
            assert(answers_event(read, reply, arguments@, nothing, read));
        }
    }
    let function = match function {
        Err(_) => {
            return Ok(ScriptValue::Unit);
        },
        Ok(function) => function,
    };
    if kind_of(&function) != JsKind::Object {
        return Ok(ScriptValue::Unit);
    }
    let result = call_function(&function, arguments, context, session);
    proof {
        let j = session.journal();
        assert(answers_event(read, reply, arguments@, value_view(result), *context));
        assert(j[(at + 1) as int] == found[(at + 1) as int]);
        assert(get_reply(j, at + 1, js_global(read), name_key(label@)) == Some(reply));
    }
    result
}

/// Whatever scripts do, wrappers of host values keep the prototype that was put in its place before
/// the first of them ran.
pub proof fn law_wrappers_keep_their_prototype(before: Context, after: Context, prototype: JsView)
    requires
        same_vm(before, after),
        seals_prototype(before, prototype),
    ensures
        seals_prototype(after, prototype),
        wraps_with(after, prototype),
{
}

/// A script that is loaded sees what the host application has for it before it runs: `world` is the
/// token of the type of the world, each global and each function of the global namespace is bound,
/// `entity` is a reference to the entity that it is about and `script_id` is its own identifier. It
/// runs last.
pub proof fn law_loaded_script_has_globals(
    script_id: Seq<char>,
    source: Seq<u8>,
    world: TypeId,
    j: Seq<Step>,
    p: nat,
    q: nat,
)
    requires
        load_run(script_id, source, world, j, p) == Some((Ok::<(), ErrorView>(()), q)),
    ensures
        p < q,
        exists|at: nat, entity: ReflectReference, from: nat|
            {
                &&& p <= at && at + 4 <= from
                &&& #[trigger] tells(j, at, entity, script_id)
                &&& #[trigger] mirrored(world, j, from, (q - 1) as nat)
            },
        eval_reply(j, (q - 1) as nat, source) matches Some(Ok(_)),
{
    reveal(mirror_run);
    lemma_register_goes_on(j, p);
    let from = register_run(j, p)->Some_0.1;
    let start = call_globals_run(script_id, j, from)->Some_0.1;
    lemma_call_globals(script_id, j, from, start);
    let entity = choose|entity: ReflectReference| #[trigger]
        tells(j, (start - 4) as nat, entity, script_id);
    let asked = done_run(QueryView::World, j, start)->Some_0.1;
    let listed = bind_type_run("world"@, world, j, asked)->Some_0.1;
    lemma_type_is_bound("world"@, world, j, asked, listed);
    let globals = host_reply(j, listed, QueryView::Globals)->Some_0.spec_globals()->Ok_0;
    let counted = globals_run(globals@, 0, j, listed + 1)->Some_0.1;
    lemma_globals_are_bound(globals@, 0, j, listed + 1, counted);
    let functions = host_reply(j, counted, QueryView::Functions)->Some_0.spec_functions()->Ok_0;
    let bound = functions_run(functions@, 0, j, counted + 1)->Some_0.1;
    lemma_functions_are_bound(functions@, 0, j, counted + 1, bound);
    assert(lists_globals(j, listed, globals));
    assert(lists_functions(j, counted, functions));
    let end = (q - 1) as nat;
    assert(bound == end);
    assert(mirrored(world, j, asked, end));
    assert(tells(j, (start - 4) as nat, entity, script_id));
}

/// A script that is called sees the entity that the call is about, as a reference to it, and its
/// own identifier, before its function runs.
pub proof fn law_called_script_has_entity(
    arguments: Seq<ScriptValue>,
    script_id: Seq<char>,
    label: Seq<char>,
    j: Seq<Step>,
    p: nat,
    value: ScriptView,
    q: nat,
)
    requires
        handler_run(arguments, script_id, label, j, p) == Some(
            (Ok::<ScriptView, ErrorView>(value), q),
        ),
    ensures
        exists|at: nat, entity: ReflectReference|
            {
                &&& p <= at
                &&& #[trigger] tells(j, at, entity, script_id)
                &&& callback_run(label, arguments, j, at + 4) == Some(
                    (Ok::<ScriptView, ErrorView>(value), q),
                )
            },
{
    let bound = call_globals_run(script_id, j, p)->Some_0.1;
    lemma_call_globals(script_id, j, p, bound);
    let entity = choose|entity: ReflectReference| #[trigger]
        tells(j, (bound - 4) as nat, entity, script_id);
    assert(tells(j, (bound - 4) as nat, entity, script_id));
}

/// A script without a function under a label is left alone: the call gives nothing, and its
/// arguments are not even converted.
pub proof fn law_script_without_callback_is_left_alone(
    label: Seq<char>,
    arguments: Seq<ScriptValue>,
    j: Seq<Step>,
    p: nat,
    global: JsView,
    found: Result<JsView, Seq<char>>,
)
    requires
        global_reply(j, p) == Some(global),
        get_reply(j, p + 1, global, name_key(label)) == Some(found),
        !(found matches Ok(JsView::Object(_))),
    ensures
        callback_run(label, arguments, j, p) == Some(
            (Ok::<ScriptView, ErrorView>(ScriptView::Unit), p + 2),
        ),
{
}

} // verus!
