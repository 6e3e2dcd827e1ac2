//! What a virtual machine has of the host application: its globals, and what tells a script what it
//! is about.
use crate::calls::{done_run, value_run};
use crate::data::PROTOTYPE;
use crate::engine::{
    alike, js_global, js_heap, js_units, js_view, kind_of, law_units_are_injective, lives_in,
    text_value, untouched, JsKind, JsView,
};
use crate::globals::{
    binding_effect, defines_only, definitions, has_classes, lemma_binds_more, lemma_defines_more,
    lemma_defines_one, lemma_definitions_joined, lemma_holds_defined, lemma_keeps_globals,
    lemma_undefined_stays, only_defines, spares_classes,
};
use crate::host::{outcome, Answer, Global, HostFunction, Query, QueryView};
use crate::into_js::{defines_nothing, into_js_run, lemma_into_js_goes_on, value_into_js};
use crate::session::{
    and_then, define_effect, define_reply, extends, get_reply, global_reply, host_reply,
    js_birth_prototype, name_key, object_id, ordinary, ordinary_global, own_data, plain_reply,
    reference_reply, replays, resumes, same_vm, token_reply, took, Key, Session, Step,
};
use crate::setup::{global_data, has_class};
use crate::value::{ErrorView, FunctionRef, InteropError, ReflectReference, ScriptValue};
use boa_engine::{Context, JsValue};
use std::any::TypeId;
use vstd::prelude::*;

verus! {

broadcast use crate::session::lemma_extends_earlier;

/// Defining a global that scripts can see and change.
pub open spec fn publish_run(name: Seq<char>, value: JsView, j: Seq<Step>, p: nat) -> Option<
    (Result<(), ErrorView>, nat),
> {
    match define_reply(j, p, name, value, true) {
        None => None,
        Some(Err(text)) => Some((Err(ErrorView::Invariant(text)), p + 1)),
        Some(Ok(())) => Some((Ok(()), p + 1)),
    }
}

/// The reply that a definition gave, by its result.
pub open spec fn published(result: Result<(), ErrorView>) -> Result<(), Seq<char>> {
    match result {
        Ok(()) => Ok(()),
        Err(ErrorView::Invariant(text)) => Err(text),
        Err(_) => Err(Seq::empty()),
    }
}

/// Defines a global that scripts can see and change.
pub(crate) fn publish<H: Fn(Query) -> Answer + Copy + 'static>(
    name: &str,
    value: &JsValue,
    context: &mut Context,
    session: &mut Session<H>,
) -> (result: Result<(), InteropError>)
    requires
        old(session).attached(*old(context)),
        lives_in(js_view(*value), *old(context)),
    ensures
        final(session).follows(*old(session)),
        final(session).attached(*final(context)),
        same_vm(*old(context), *final(context)),
        final(session).journal().len() == old(session).journal().len() + 1,
        define_effect(
            *old(context),
            name@,
            js_view(*value),
            true,
            published(outcome(result)),
            *final(context),
        ),
        ordinary_global(*old(context)) ==> only_defines(
            *old(context),
            final(session).journal(),
            old(session).journal().len(),
            *final(context),
        ),
        replays(
            |j: Seq<Step>, p: nat| publish_run(name@, js_view(*value), j, p),
            old(session).journal(),
            final(session).journal(),
            outcome(result),
        ),
{
    let ghost first = *context;
    let reply = session.define(context, name, value, true);
    proof {
        if ordinary_global(first) {
            lemma_defines_one(
                first,
                session.journal(),
                old(session).journal().len(),
                name@,
                js_view(*value),
                plain_reply(reply),
                *context,
            );
        }
    }
    match reply {
        Err(text) => Err(InteropError::Invariant(text)),
        Ok(()) => Ok(()),
    }
}

/// Where nothing happens in a virtual machine, only definitions change it.
proof fn lemma_idle(context: Context, j: Seq<Step>, p: nat)
    requires
        defines_nothing(j, p, j.len()),
    ensures
        binding_effect(context, j, p, context),
{
    if has_classes(context) {
        lemma_keeps_globals(context, j, p, context);
    }
}

/// Finding the prototype of a class.
pub open spec fn class_run(
    name: Seq<char>,
    complaint: Seq<char>,
    j: Seq<Step>,
    p: nat,
) -> Option<(Result<Option<JsView>, ErrorView>, nat)> {
    match global_reply(j, p) {
        None => None,
        Some(global) => match get_reply(j, p + 1, global, name_key(name)) {
            None => None,
            Some(Err(text)) => Some((Err(ErrorView::Invariant(text)), p + 2)),
            Some(Ok(class)) => if !(class is Object) {
                Some((Err(ErrorView::Invariant(complaint)), p + 2))
            } else {
                match get_reply(j, p + 2, class, name_key("prototype"@)) {
                    None => None,
                    Some(Err(text)) => Some((Err(ErrorView::Invariant(text)), p + 3)),
                    Some(Ok(prototype)) => Some(
                        (
                            Ok(
                                if prototype is Object {
                                    Some(prototype)
                                } else {
                                    None
                                },
                            ),
                            p + 3,
                        ),
                    ),
                }
            },
        },
    }
}

/// The prototype of a class, as contracts see it.
pub open spec fn prototype_view(result: Result<Option<JsValue>, InteropError>) -> Result<
    Option<JsView>,
    ErrorView,
> {
    match result {
        Ok(Some(prototype)) => Ok(Some(js_view(prototype))),
        Ok(None) => Ok(None),
        Err(error) => Err(error@),
    }
}

/// The prototype of a class.
fn class_prototype<H: Fn(Query) -> Answer + Copy + 'static>(
    name: &str,
    complaint: &str,
    context: &mut Context,
    session: &mut Session<H>,
) -> (result: Result<Option<JsValue>, InteropError>)
    requires
        old(session).attached(*old(context)),
    ensures
        result matches Ok(Some(prototype)) ==> lives_in(js_view(prototype), *final(context)),
        final(session).follows(*old(session)),
        final(session).attached(*final(context)),
        same_vm(*old(context), *final(context)),
        defines_nothing(
            final(session).journal(),
            old(session).journal().len(),
            final(session).journal().len(),
        ),
        forall|class: JsView, prototype: JsView| #[trigger]
            has_class(*old(context), name@, class, prototype) ==> {
                &&& untouched(*old(context), *final(context))
                &&& prototype_view(result) == Ok::<Option<JsView>, ErrorView>(
                    if prototype is Object {
                        Some(prototype)
                    } else {
                        None
                    },
                )
            },
        result matches Ok(Some(prototype)) ==> js_view(prototype) is Object,
        replays(
            |j: Seq<Step>, p: nat| class_run(name@, complaint@, j, p),
            old(session).journal(),
            final(session).journal(),
            prototype_view(result),
        ),
{
    let global = session.global(context);
    let class = match session.get(context, &global, Key::Name(name)) {
        Err(text) => {
            return Err(InteropError::Invariant(text));
        },
        Ok(class) => class,
    };
    if kind_of(&class) != JsKind::Object {
        return Err(InteropError::broken_invariant(complaint));
    }
    match session.get(context, &class, Key::Name("prototype")) {
        Err(text) => Err(InteropError::Invariant(text)),
        Ok(prototype) => if kind_of(&prototype) == JsKind::Object {
            Ok(Some(prototype))
        } else {
            Ok(None)
        },
    }
}

/// What is said where the class of type tokens is missing.
pub const NO_TOKEN_CLASS: &'static str = "StaticReflectReference ctor missing";

/// What is said where the class of references is missing.
pub const NO_REFERENCE_CLASS: &'static str = "ReflectReference ctor missing";

/// Binding a global to a type.
pub open spec fn bind_type_run(name: Seq<char>, token: TypeId, j: Seq<Step>, p: nat) -> Option<
    (Result<(), ErrorView>, nat),
> {
    and_then(
        class_run("StaticReflectReference"@, NO_TOKEN_CLASS@, j, p),
        |prototype: Option<JsView>, p: nat|
            match token_reply(j, p, prototype, token) {
                None => None,
                Some(made) => publish_run(name, made, j, p + 1),
            },
    )
}

/// Binds a global to a type.
fn bind_type<H: Fn(Query) -> Answer + Copy + 'static>(
    name: &str,
    token: TypeId,
    context: &mut Context,
    session: &mut Session<H>,
) -> (result: Result<(), InteropError>)
    requires
        old(session).attached(*old(context)),
    ensures
        final(session).follows(*old(session)),
        final(session).attached(*final(context)),
        same_vm(*old(context), *final(context)),
        binding_effect(
            *old(context),
            final(session).journal(),
            old(session).journal().len(),
            *final(context),
        ),
        replays(
            |j: Seq<Step>, p: nat| bind_type_run(name@, token, j, p),
            old(session).journal(),
            final(session).journal(),
            outcome(result),
        ),
{
    let ghost first = *context;
    let ghost start = session.journal().len();
    let prototype = class_prototype("StaticReflectReference", NO_TOKEN_CLASS, context, session)?;
    let made = session.new_token(context, prototype, token);
    let ghost between = *context;
    let ghost journal = session.journal();
    proof {
        if has_classes(first) {
            lemma_keeps_globals(first, journal, start, between);
        }
    }
    let result = publish(name, &made, context, session);
    proof {
        if has_classes(first) {
            lemma_defines_more(first, journal, start, between, session.journal(), *context);
        }
    }
    result
}

/// Binding a global to a value of the host application.
pub open spec fn bind_value_run(name: Seq<char>, value: ScriptValue, j: Seq<Step>, p: nat) -> Option<
    (Result<(), ErrorView>, nat),
> {
    and_then(
        into_js_run(value, j, p),
        |made: JsView, p: nat| publish_run(name, made, j, p),
    )
}

/// Binds a global to a value of the host application.
fn bind_value<H: Fn(Query) -> Answer + Copy + 'static>(
    name: &str,
    value: &ScriptValue,
    context: &mut Context,
    session: &mut Session<H>,
) -> (result: Result<(), InteropError>)
    requires
        old(session).ready(*old(context)),
    ensures
        final(session).follows(*old(session)),
        final(session).attached(*final(context)),
        same_vm(*old(context), *final(context)),
        binding_effect(
            *old(context),
            final(session).journal(),
            old(session).journal().len(),
            *final(context),
        ),
        replays(
            |j: Seq<Step>, p: nat| bind_value_run(name@, *value, j, p),
            old(session).journal(),
            final(session).journal(),
            outcome(result),
        ),
{
    let ghost first = *context;
    let ghost start = session.journal().len();
    let made = value_into_js(value, context, session);
    let ghost between = *context;
    let ghost journal = session.journal();
    proof {
        assert(extends(journal, journal));
        lemma_into_js_goes_on(*value, journal, start);
        if has_classes(first) {
            lemma_keeps_globals(first, journal, start, between);
        }
    }
    let result = publish(name, &made?, context, session);
    proof {
        if has_classes(first) {
            lemma_defines_more(first, journal, start, between, session.journal(), *context);
        }
    }
    result
}

/// Binding a global of the host application.
pub open spec fn bind_global_run(global: Global, j: Seq<Step>, p: nat) -> Option<
    (Result<(), ErrorView>, nat),
> {
    match global {
        Global::Made { name } => and_then(
            value_run(QueryView::MakeGlobal { name: name@ }, j, p),
            |value: ScriptValue, p: nat| bind_value_run(name@, value, j, p),
        ),
        Global::Type { name, token } => bind_type_run(name@, token, j, p),
    }
}

/// Binds a global of the host application.
fn bind_global<H: Fn(Query) -> Answer + Copy + 'static>(
    global: &Global,
    context: &mut Context,
    session: &mut Session<H>,
) -> (result: Result<(), InteropError>)
    requires
        old(session).ready(*old(context)),
    ensures
        final(session).follows(*old(session)),
        final(session).attached(*final(context)),
        same_vm(*old(context), *final(context)),
        binding_effect(
            *old(context),
            final(session).journal(),
            old(session).journal().len(),
            *final(context),
        ),
        replays(
            |j: Seq<Step>, p: nat| bind_global_run(*global, j, p),
            old(session).journal(),
            final(session).journal(),
            outcome(result),
        ),
{
    match global {
        Global::Made { name } => {
            let ghost first = *context;
            let ghost before = *session;
            let ghost start = session.journal().len();
            let answer = session.consult(Query::MakeGlobal { name: name.clone() }, context);
            let ghost between = *context;
            let ghost journal = session.journal();
            proof {
                let idle = choose|idle: bool|
                    {
                        &&& #[trigger] took(
                            before,
                            *session,
                            Step::Ask {
                                query: QueryView::MakeGlobal { name: name@ },
                                answer,
                                idle,
                            },
                        )
                        &&& idle ==> between == first
                    };
                if idle {
                    lemma_idle(first, journal, start);
                } else {
                    assert(journal[start as int] matches Step::Ask { idle: false, .. });
                }
            }
            let value = answer.value()?;
            let result = bind_value(name, &value, context, session);
            proof {
                lemma_binds_more(first, journal, start, between, session.journal(), *context);
            }
            result
        },
        Global::Type { name, token } => bind_type(name, *token, context, session),
    }
}

/// Binding the globals of the host application from an index on.
pub open spec fn globals_run(globals: Seq<Global>, i: nat, j: Seq<Step>, p: nat) -> Option<
    (Result<(), ErrorView>, nat),
>
    decreases globals.len() - i,
{
    if i >= globals.len() {
        Some((Ok(()), p))
    } else {
        match bind_global_run(globals[i as int], j, p) {
            None => None,
            Some((Err(error), q)) => Some((Err(error), q)),
            Some((Ok(()), q)) => globals_run(globals, i + 1, j, q),
        }
    }
}

/// Binds the globals of the host application.
fn bind_globals<H: Fn(Query) -> Answer + Copy + 'static>(
    globals: &Vec<Global>,
    context: &mut Context,
    session: &mut Session<H>,
) -> (result: Result<(), InteropError>)
    requires
        old(session).ready(*old(context)),
    ensures
        final(session).follows(*old(session)),
        final(session).attached(*final(context)),
        same_vm(*old(context), *final(context)),
        binding_effect(
            *old(context),
            final(session).journal(),
            old(session).journal().len(),
            *final(context),
        ),
        replays(
            |j: Seq<Step>, p: nat| globals_run(globals@, 0, j, p),
            old(session).journal(),
            final(session).journal(),
            outcome(result),
        ),
{
    let ghost first = *context;
    let ghost start = session.journal().len();
    proof {
        lemma_idle(first, session.journal(), start);
    }
    let mut i: usize = 0;
    while i < globals.len()
        invariant
            session.ready(*context),
            same_vm(*old(context), *context),
            session.follows(*old(session)),
            first == *old(context),
            start == old(session).journal().len() <= session.journal().len(),
            binding_effect(first, session.journal(), start, *context),
            i <= globals@.len(),
            resumes(
                |j: Seq<Step>, p: nat| globals_run(globals@, 0, j, p),
                |j: Seq<Step>, p: nat| globals_run(globals@, i as nat, j, p),
                old(session).journal(),
                session.journal(),
            ),
        decreases globals@.len() - i,
    {
        let ghost journal = session.journal();
        let ghost between = *context;
        let result = bind_global(&globals[i], context, session);
        proof {
            lemma_binds_more(first, journal, start, between, session.journal(), *context);
        }
        assert forall|j: Seq<Step>| #[trigger] extends(j, session.journal()) implies globals_run(
            globals@,
            0,
            j,
            old(session).journal().len(),
        ) == match outcome(result) {
            Err(error) => Some((Err(error), session.journal().len())),
            Ok(()) => globals_run(globals@, (i + 1) as nat, j, session.journal().len()),
        } by {
            assert(extends(j, journal));
        }
        result?;
        i = i + 1;
    }
    Ok(())
}

/// Binding the functions of the host application from an index on: those of the global namespace
/// become globals.
pub open spec fn functions_run(functions: Seq<HostFunction>, i: nat, j: Seq<Step>, p: nat) -> Option<
    (Result<(), ErrorView>, nat),
>
    decreases functions.len() - i,
{
    if i >= functions.len() {
        Some((Ok(()), p))
    } else {
        let own = functions[i as int];
        if own.global {
            match bind_value_run(
                own.name@,
                ScriptValue::Function(FunctionRef::Host(own.function)),
                j,
                p,
            ) {
                None => None,
                Some((Err(error), q)) => Some((Err(error), q)),
                Some((Ok(()), q)) => functions_run(functions, i + 1, j, q),
            }
        } else {
            functions_run(functions, i + 1, j, p)
        }
    }
}

/// Binds the functions of the global namespace.
fn bind_functions<H: Fn(Query) -> Answer + Copy + 'static>(
    functions: &Vec<HostFunction>,
    context: &mut Context,
    session: &mut Session<H>,
) -> (result: Result<(), InteropError>)
    requires
        old(session).ready(*old(context)),
    ensures
        final(session).follows(*old(session)),
        final(session).attached(*final(context)),
        same_vm(*old(context), *final(context)),
        binding_effect(
            *old(context),
            final(session).journal(),
            old(session).journal().len(),
            *final(context),
        ),
        replays(
            |j: Seq<Step>, p: nat| functions_run(functions@, 0, j, p),
            old(session).journal(),
            final(session).journal(),
            outcome(result),
        ),
{
    let ghost first = *context;
    let ghost start = session.journal().len();
    proof {
        lemma_idle(first, session.journal(), start);
    }
    let mut i: usize = 0;
    while i < functions.len()
        invariant
            session.ready(*context),
            same_vm(*old(context), *context),
            session.follows(*old(session)),
            first == *old(context),
            start == old(session).journal().len() <= session.journal().len(),
            binding_effect(first, session.journal(), start, *context),
            i <= functions@.len(),
            resumes(
                |j: Seq<Step>, p: nat| functions_run(functions@, 0, j, p),
                |j: Seq<Step>, p: nat| functions_run(functions@, i as nat, j, p),
                old(session).journal(),
                session.journal(),
            ),
        decreases functions@.len() - i,
    {
        let own = &functions[i];
        if own.global {
            let ghost journal = session.journal();
            let ghost between = *context;
            let value = ScriptValue::Function(FunctionRef::Host(own.function));
            let result = bind_value(&own.name, &value, context, session);
            proof {
                lemma_binds_more(first, journal, start, between, session.journal(), *context);
            }
            assert forall|j: Seq<Step>| #[trigger] extends(
                j,
                session.journal(),
            ) implies functions_run(functions@, 0, j, old(session).journal().len()) == match outcome(
                result,
            ) {
                Err(error) => Some((Err(error), session.journal().len())),
                Ok(()) => functions_run(functions@, (i + 1) as nat, j, session.journal().len()),
            } by {
                assert(extends(j, journal));
            }
            result?;
        }
        i = i + 1;
    }
    Ok(())
}

/// Mirroring what the host application has for scripts into a virtual machine.
#[verifier::opaque]
pub open spec fn mirror_run(world: TypeId, j: Seq<Step>, p: nat) -> Option<
    (Result<(), ErrorView>, nat),
> {
    and_then(
        done_run(QueryView::World, j, p),
        |unit: (), p: nat|
            and_then(
                bind_type_run("world"@, world, j, p),
                |unit: (), p: nat|
                    and_then(
                        match host_reply(j, p, QueryView::Globals) {
                            None => None,
                            Some(answer) => Some((answer.spec_globals(), p + 1)),
                        },
                        |globals: Vec<Global>, p: nat|
                            and_then(
                                globals_run(globals@, 0, j, p),
                                |unit: (), p: nat|
                                    and_then(
                                        match host_reply(j, p, QueryView::Functions) {
                                            None => None,
                                            Some(answer) => Some((answer.spec_functions(), p + 1)),
                                        },
                                        |functions: Vec<HostFunction>, p: nat|
                                            functions_run(functions@, 0, j, p),
                                    ),
                            ),
                    ),
            ),
    )
}

/// Mirrors what the host application has for scripts into a virtual machine: the world, the
/// globals and the functions of the global namespace.
pub fn mirror_app_globals_into_vm<H: Fn(Query) -> Answer + Copy + 'static>(
    world: TypeId,
    context: &mut Context,
    session: &mut Session<H>,
) -> (result: Result<(), InteropError>)
    requires
        old(session).ready(*old(context)),
    ensures
        final(session).follows(*old(session)),
        final(session).attached(*final(context)),
        same_vm(*old(context), *final(context)),
        binding_effect(
            *old(context),
            final(session).journal(),
            old(session).journal().len(),
            *final(context),
        ),
        replays(
            |j: Seq<Step>, p: nat| mirror_run(world, j, p),
            old(session).journal(),
            final(session).journal(),
            outcome(result),
        ),
{
    proof {
        reveal(mirror_run);
    }
    let ghost first = *context;
    let ghost start = session.journal().len();
    let world_is_there = session.ask(Query::World).done();
    let ghost asked = session.journal();
    proof {
        lemma_idle(first, asked, start);
    }
    world_is_there?;
    let bound = bind_type("world", world, context, session);
    let ghost with_world = *context;
    let ghost journal = session.journal();
    proof {
        lemma_binds_more(first, asked, start, first, journal, with_world);
    }
    bound?;
    let globals = session.ask(Query::Globals).globals();
    let ghost listed = session.journal();
    proof {
        lemma_idle(with_world, listed, journal.len());
        lemma_binds_more(first, journal, start, with_world, listed, with_world);
    }
    let bound = bind_globals(&globals?, context, session);
    let ghost with_globals = *context;
    let ghost journal = session.journal();
    proof {
        lemma_binds_more(first, listed, start, with_world, journal, with_globals);
    }
    bound?;
    let functions = session.ask(Query::Functions).functions();
    let ghost listed = session.journal();
    proof {
        lemma_idle(with_globals, listed, journal.len());
        lemma_binds_more(first, journal, start, with_globals, listed, with_globals);
    }
    let result = bind_functions(&functions?, context, session);
    proof {
        lemma_binds_more(first, listed, start, with_globals, session.journal(), *context);
    }
    result
}

/// Telling a script which one it is.
pub open spec fn identify_run(script_id: Seq<char>, j: Seq<Step>, p: nat) -> Option<
    (Result<(), ErrorView>, nat),
> {
    publish_run("script_id"@, JsView::Str(js_units(script_id)), j, p)
}

/// Telling a script the entity that it is about, and which script it is.
#[verifier::opaque]
pub open spec fn call_globals_run(script_id: Seq<char>, j: Seq<Step>, p: nat) -> Option<
    (Result<(), ErrorView>, nat),
> {
    and_then(
        class_run("ReflectReference"@, NO_REFERENCE_CLASS@, j, p),
        |prototype: Option<JsView>, p: nat|
            and_then(
                match host_reply(j, p, QueryView::Entity) {
                    None => None,
                    Some(answer) => Some((answer.spec_reference(), p + 1)),
                },
                |entity: ReflectReference, p: nat|
                    match reference_reply(j, p, prototype, entity.0) {
                        None => None,
                        Some(made) => and_then(
                            publish_run("entity"@, made, j, p + 1),
                            |unit: (), p: nat| identify_run(script_id, j, p),
                        ),
                    },
            ),
    )
}

/// A step asked the host application for the entity that a script is about.
pub open spec fn entity_at(j: Seq<Step>, at: nat, entity: ReflectReference) -> bool {
    host_reply(j, at, QueryView::Entity) == Some(Answer::Reference(entity))
}

/// The global `script_id` of a virtual machine is the identifier of a script, and `entity` is a
/// wrapper of an entity that has the prototype of the class of references.
pub open spec fn identifies(
    before: Context,
    after: Context,
    script_id: Seq<char>,
    entity: ReflectReference,
) -> bool {
    &&& own_data(js_heap(after), js_global(after), name_key("script_id"@)) == Some(
        JsView::Str(js_units(script_id)),
    )
    &&& own_data(js_heap(after), js_global(after), name_key("entity"@)) matches Some(made) && {
        &&& made matches JsView::Object(object) && object.reference == Some(entity.0)
            && !object.callable
        &&& forall|class: JsView, prototype: JsView| #[trigger]
            has_class(before, "ReflectReference"@, class, prototype) && prototype is Object
                ==> js_birth_prototype(made) == Some(prototype)
    }
}

/// The globals that tell a script what it is about were defined.
proof fn lemma_identifies(
    before: Context,
    read: Context,
    script_id: Seq<char>,
    entity: ReflectReference,
    made: JsView,
    with_entity: Context,
    after: Context,
)
    requires
        ordinary_global(before),
        js_global(before) is Object,
        same_vm(before, read),
        same_vm(read, with_entity),
        same_vm(with_entity, after),
        made matches JsView::Object(object) && object.reference == Some(entity.0)
            && !object.callable,
        forall|class: JsView, prototype: JsView| #[trigger]
            has_class(before, "ReflectReference"@, class, prototype) && prototype is Object
                ==> js_birth_prototype(made) == Some(prototype),
        define_effect(read, "entity"@, made, true, Ok::<(), Seq<char>>(()), with_entity),
        define_effect(
            with_entity,
            "script_id"@,
            JsView::Str(js_units(script_id)),
            true,
            Ok::<(), Seq<char>>(()),
            after,
        ),
    ensures
        identifies(before, after, script_id, entity),
{
    reveal_strlit("entity");
    reveal_strlit("script_id");
    assert("entity"@.len() != "script_id"@.len());
    if js_units("entity"@) == js_units("script_id"@) {
        law_units_are_injective("entity"@, "script_id"@);
    }
    assert(ordinary(js_heap(before), object_id(js_global(before))));
    assert(ordinary(js_heap(read), object_id(js_global(before))));
    assert(ordinary(js_heap(with_entity), object_id(js_global(before))));
    let text = JsView::Str(js_units(script_id));
    lemma_holds_defined(read, "entity"@, made, with_entity);
    lemma_holds_defined(with_entity, "script_id"@, text, after);
}

/// Tells a script the entity that it is about, and which script it is.
pub(crate) fn bind_call_globals<H: Fn(Query) -> Answer + Copy + 'static>(
    script_id: &str,
    context: &mut Context,
    session: &mut Session<H>,
) -> (result: Result<(), InteropError>)
    requires
        old(session).ready(*old(context)),
    ensures
        final(session).follows(*old(session)),
        final(session).attached(*final(context)),
        same_vm(*old(context), *final(context)),
        has_classes(*old(context)) ==> only_defines(
            *old(context),
            final(session).journal(),
            old(session).journal().len(),
            *final(context),
        ),
        result is Ok ==> old(session).journal().len() + 4 <= final(session).journal().len(),
        has_classes(*old(context)) && result is Ok ==> exists|entity: ReflectReference| #[trigger]
            entity_at(
                final(session).journal(),
                (final(session).journal().len() - 4) as nat,
                entity,
            ) && identifies(*old(context), *final(context), script_id@, entity),
        replays(
            |j: Seq<Step>, p: nat| call_globals_run(script_id@, j, p),
            old(session).journal(),
            final(session).journal(),
            outcome(result),
        ),
{
    proof {
        reveal(call_globals_run);
    }
    let ghost first = *context;
    let ghost start = session.journal().len();
    let prototype = class_prototype("ReflectReference", NO_REFERENCE_CLASS, context, session);
    let ghost read = *context;
    proof {
        if has_classes(first) {
            lemma_keeps_globals(first, session.journal(), start, read);
        }
    }
    let prototype = prototype?;
    let entity = session.ask(Query::Entity).reference();
    let ghost asked = session.journal();
    proof {
        if has_classes(first) {
            lemma_keeps_globals(first, asked, start, read);
        }
    }
    let entity = entity?;
    assert(entity_at(asked, (asked.len() - 1) as nat, entity));
    let made = session.new_reference(context, prototype, entity.0);
    let ghost wrapped = session.journal();
    proof {
        if has_classes(first) {
            lemma_keeps_globals(first, wrapped, start, read);
        }
    }
    let bound = publish("entity", &made, context, session);
    let ghost with_entity = *context;
    let ghost journal = session.journal();
    proof {
        if has_classes(first) {
            lemma_defines_more(first, wrapped, start, read, journal, with_entity);
        }
    }
    bound?;
    let result = publish("script_id", &text_value(script_id), context, session);
    proof {
        if has_classes(first) {
            lemma_defines_more(first, journal, start, with_entity, session.journal(), *context);
            if result is Ok {
                lemma_identifies(
                    first,
                    read,
                    script_id@,
                    entity,
                    js_view(made),
                    with_entity,
                    *context,
                );
            }
        }
        if result is Ok {
            let last = session.journal();
            assert(last[asked.len() - 1] == asked[asked.len() - 1]);
            assert(entity_at(last, (last.len() - 4) as nat, entity));
        }
    }
    result
}

/// A step defined a global that scripts can see and change.
pub open spec fn defines(j: Seq<Step>, at: nat, name: Seq<char>, value: JsView) -> bool {
    define_reply(j, at, name, value, true) matches Some(Ok(_))
}

/// Between two positions, a global was bound to a type.
pub open spec fn binds_type(
    j: Seq<Step>,
    p: nat,
    q: nat,
    name: Seq<char>,
    token: TypeId,
) -> bool {
    exists|at: nat, prototype: Option<JsView>, value: JsView|
        p <= at && at + 1 < q && #[trigger] token_reply(j, at, prototype, token) == Some(value)
            && #[trigger] defines(j, at + 1, name, value)
}

/// Between two positions, a global was bound to what a value of the host application converts to.
pub open spec fn binds_value(
    j: Seq<Step>,
    p: nat,
    q: nat,
    name: Seq<char>,
    value: ScriptValue,
) -> bool {
    exists|from: nat, at: nat, made: JsView|
        p <= from && from <= at < q && #[trigger] into_js_run(value, j, from) == Some(
            (Ok::<JsView, ErrorView>(made), at),
        ) && #[trigger] defines(j, at, name, made)
}

/// Between two positions, a global was bound to what the host application made for it.
pub open spec fn binds_made(j: Seq<Step>, p: nat, q: nat, name: Seq<char>) -> bool {
    exists|at: nat, value: ScriptValue|
        p <= at && #[trigger] value_run(QueryView::MakeGlobal { name }, j, at) == Some(
            (Ok::<ScriptValue, ErrorView>(value), at + 1),
        ) && #[trigger] binds_value(j, at + 1, q, name, value)
}

/// Between two positions, a global of the host application was bound.
pub open spec fn binds_global(j: Seq<Step>, p: nat, q: nat, global: Global) -> bool {
    match global {
        Global::Made { name } => binds_made(j, p, q, name@),
        Global::Type { name, token } => binds_type(j, p, q, name@, token),
    }
}

/// Between two positions, a function of the host application was bound.
pub open spec fn binds_function(j: Seq<Step>, p: nat, q: nat, function: HostFunction) -> bool {
    binds_value(
        j,
        p,
        q,
        function.name@,
        ScriptValue::Function(FunctionRef::Host(function.function)),
    )
}

/// Binding a global to a type that went well bound it.
pub proof fn lemma_type_is_bound(name: Seq<char>, token: TypeId, j: Seq<Step>, p: nat, q: nat)
    requires
        bind_type_run(name, token, j, p) == Some((Ok::<(), ErrorView>(()), q)),
    ensures
        p < q,
        binds_type(j, p, q, name, token),
{
    let (prototype, at) = class_run("StaticReflectReference"@, NO_TOKEN_CLASS@, j, p)->Some_0;
    let prototype = prototype->Ok_0;
    let value = token_reply(j, at, prototype, token)->Some_0;
    assert(defines(j, at + 1, name, value));
}

/// Binding a global to a value that went well bound it.
proof fn lemma_value_is_bound(name: Seq<char>, value: ScriptValue, j: Seq<Step>, p: nat, q: nat)
    requires
        bind_value_run(name, value, j, p) == Some((Ok::<(), ErrorView>(()), q)),
    ensures
        p < q,
        binds_value(j, p, q, name, value),
{
    lemma_into_js_goes_on(value, j, p);
    let (made, at) = into_js_run(value, j, p)->Some_0;
    assert(defines(j, at, name, made->Ok_0));
}

/// Binding a global of the host application that went well bound it.
proof fn lemma_global_is_bound(global: Global, j: Seq<Step>, p: nat, q: nat)
    requires
        bind_global_run(global, j, p) == Some((Ok::<(), ErrorView>(()), q)),
    ensures
        p < q,
        binds_global(j, p, q, global),
{
    match global {
        Global::Made { name } => {
            let value = value_run(QueryView::MakeGlobal { name: name@ }, j, p)->Some_0.0->Ok_0;
            lemma_value_is_bound(name@, value, j, p + 1, q);
        },
        Global::Type { name, token } => lemma_type_is_bound(name@, token, j, p, q),
    }
}

/// What was bound to a value between two positions was bound to it between wider ones.
proof fn lemma_binds_value_wider(
    j: Seq<Step>,
    p: nat,
    q: nat,
    from: nat,
    to: nat,
    name: Seq<char>,
    value: ScriptValue,
)
    requires
        binds_value(j, p, q, name, value),
        from <= p,
        q <= to,
    ensures
        binds_value(j, from, to, name, value),
{
}

/// What was bound between two positions was bound between wider ones.
proof fn lemma_binds_global_wider(
    j: Seq<Step>,
    p: nat,
    q: nat,
    from: nat,
    to: nat,
    global: Global,
)
    requires
        binds_global(j, p, q, global),
        from <= p,
        q <= to,
    ensures
        binds_global(j, from, to, global),
{
    if let Global::Made { name } = global {
        let (at, value) = choose|at: nat, value: ScriptValue|
            p <= at && #[trigger] value_run(QueryView::MakeGlobal { name: name@ }, j, at) == Some(
                (Ok::<ScriptValue, ErrorView>(value), at + 1),
            ) && #[trigger] binds_value(j, at + 1, q, name@, value);
        lemma_binds_value_wider(j, at + 1, q, at + 1, to, name@, value);
    }
}

/// When globals of the host application are bound from an index on, each of them is bound.
pub proof fn lemma_globals_are_bound(globals: Seq<Global>, i: nat, j: Seq<Step>, p: nat, q: nat)
    requires
        globals_run(globals, i, j, p) == Some((Ok::<(), ErrorView>(()), q)),
    ensures
        p <= q,
        forall|k: int| i <= k < globals.len() ==> binds_global(j, p, q, #[trigger] globals[k]),
    decreases globals.len() - i,
{
    if i < globals.len() {
        let r = bind_global_run(globals[i as int], j, p)->Some_0.1;
        lemma_global_is_bound(globals[i as int], j, p, r);
        lemma_globals_are_bound(globals, i + 1, j, r, q);
        lemma_binds_global_wider(j, p, r, p, q, globals[i as int]);
        assert forall|k: int| i < k < globals.len() implies binds_global(
            j,
            p,
            q,
            #[trigger] globals[k],
        ) by {
            lemma_binds_global_wider(j, r, q, p, q, globals[k]);
        }
    }
}

/// When functions of the host application are bound from an index on, each of the global namespace
/// is bound.
pub proof fn lemma_functions_are_bound(
    functions: Seq<HostFunction>,
    i: nat,
    j: Seq<Step>,
    p: nat,
    q: nat,
)
    requires
        functions_run(functions, i, j, p) == Some((Ok::<(), ErrorView>(()), q)),
    ensures
        p <= q,
        forall|k: int|
            i <= k < functions.len() && (#[trigger] functions[k]).global ==> binds_function(
                j,
                p,
                q,
                functions[k],
            ),
    decreases functions.len() - i,
{
    if i < functions.len() {
        let own = functions[i as int];
        let value = ScriptValue::Function(FunctionRef::Host(own.function));
        let r = if own.global {
            bind_value_run(own.name@, value, j, p)->Some_0.1
        } else {
            p
        };
        if own.global {
            lemma_value_is_bound(own.name@, value, j, p, r);
        }
        lemma_functions_are_bound(functions, i + 1, j, r, q);
        assert forall|k: int|
            i <= k < functions.len() && (#[trigger] functions[k]).global implies binds_function(
            j,
            p,
            q,
            functions[k],
        ) by {
            let other = functions[k];
            let bound = ScriptValue::Function(FunctionRef::Host(other.function));
            if k == i {
                lemma_binds_value_wider(j, p, r, p, q, other.name@, bound);
            } else {
                lemma_binds_value_wider(j, r, q, p, q, other.name@, bound);
            }
        }
    }
}

/// Before a position, globals were bound: the world, each global of the host application and each
/// function of its global namespace.
pub open spec fn mirrored(world: TypeId, j: Seq<Step>, p: nat, q: nat) -> bool {
    exists|listed: nat, globals: Vec<Global>, counted: nat, functions: Vec<HostFunction>|
        {
            &&& p <= listed && listed < counted && counted < q
            &&& binds_type(j, p, listed, "world"@, world)
            &&& #[trigger] lists_globals(j, listed, globals)
            &&& forall|k: int|
                0 <= k < globals@.len() ==> binds_global(
                    j,
                    listed + 1,
                    counted,
                    #[trigger] globals@[k],
                )
            &&& #[trigger] lists_functions(j, counted, functions)
            &&& forall|k: int|
                0 <= k < functions@.len() && (#[trigger] functions@[k]).global ==> binds_function(
                    j,
                    counted + 1,
                    q,
                    functions@[k],
                )
        }
}

/// A step asked the host application for its globals.
pub open spec fn lists_globals(j: Seq<Step>, at: nat, globals: Vec<Global>) -> bool {
    host_reply(j, at, QueryView::Globals) == Some(Answer::Globals(globals))
}

/// A step asked the host application for its functions.
pub open spec fn lists_functions(j: Seq<Step>, at: nat, functions: Vec<HostFunction>) -> bool {
    host_reply(j, at, QueryView::Functions) == Some(Answer::Functions(functions))
}

/// The name of a global of the host application.
pub open spec fn global_name(global: Global) -> Seq<char> {
    match global {
        Global::Made { name } => name@,
        Global::Type { name, .. } => name@,
    }
}

/// A key is that of `world`, of a global of the host application or of a function of its global
/// namespace.
pub open spec fn is_mirrored(
    globals: Seq<Global>,
    functions: Seq<HostFunction>,
    key: Seq<u16>,
) -> bool {
    ||| key == js_units("world"@)
    ||| exists|k: int|
        0 <= k < globals.len() && js_units(global_name(#[trigger] globals[k])) == key
    ||| exists|k: int|
        0 <= k < functions.len() && (#[trigger] functions[k]).global && js_units(functions[k].name@)
            == key
}

/// Binding a global to a type defines that global alone.
proof fn lemma_type_defines(name: Seq<char>, token: TypeId, j: Seq<Step>, p: nat)
    ensures
        bind_type_run(name, token, j, p) matches Some((_, q)) ==> p <= q && defines_only(
            j,
            p,
            q,
            |key: Seq<u16>| key == js_units(name),
        ),
{
}

/// Binding a global to a value defines that global alone.
proof fn lemma_value_defines(name: Seq<char>, value: ScriptValue, j: Seq<Step>, p: nat)
    ensures
        bind_value_run(name, value, j, p) matches Some((_, q)) ==> p <= q && defines_only(
            j,
            p,
            q,
            |key: Seq<u16>| key == js_units(name),
        ),
{
    lemma_into_js_goes_on(value, j, p);
}

/// Binding a global of the host application defines that global alone.
proof fn lemma_global_defines(global: Global, j: Seq<Step>, p: nat)
    ensures
        bind_global_run(global, j, p) matches Some((_, q)) ==> p <= q && defines_only(
            j,
            p,
            q,
            |key: Seq<u16>| key == js_units(global_name(global)),
        ),
{
    match global {
        Global::Made { name } => {
            if let Some((Ok(value), q)) = value_run(QueryView::MakeGlobal { name: name@ }, j, p) {
                lemma_value_defines(name@, value, j, q);
            }
        },
        Global::Type { name, token } => lemma_type_defines(name@, token, j, p),
    }
}

/// Binding globals of the host application from an index on defines these globals alone.
proof fn lemma_globals_define(globals: Seq<Global>, i: nat, j: Seq<Step>, p: nat)
    ensures
        globals_run(globals, i, j, p) matches Some((_, q)) ==> p <= q && defines_only(
            j,
            p,
            q,
            |key: Seq<u16>|
                exists|k: int|
                    0 <= k < globals.len() && js_units(global_name(#[trigger] globals[k])) == key,
        ),
    decreases globals.len() - i,
{
    if i < globals.len() {
        lemma_global_defines(globals[i as int], j, p);
        if let Some((Ok(()), q)) = bind_global_run(globals[i as int], j, p) {
            lemma_globals_define(globals, i + 1, j, q);
        }
    }
}

/// Binding functions of the host application from an index on defines globals for those of the global
/// namespace alone.
proof fn lemma_functions_define(functions: Seq<HostFunction>, i: nat, j: Seq<Step>, p: nat)
    ensures
        functions_run(functions, i, j, p) matches Some((_, q)) ==> p <= q && defines_only(
            j,
            p,
            q,
            |key: Seq<u16>|
                exists|k: int|
                    0 <= k < functions.len() && (#[trigger] functions[k]).global && js_units(
                        functions[k].name@,
                    ) == key,
        ),
    decreases functions.len() - i,
{
    if i < functions.len() {
        let own = functions[i as int];
        let value = ScriptValue::Function(FunctionRef::Host(own.function));
        if own.global {
            lemma_value_defines(own.name@, value, j, p);
            if let Some((Ok(()), q)) = bind_value_run(own.name@, value, j, p) {
                lemma_functions_define(functions, i + 1, j, q);
            }
        } else {
            lemma_functions_define(functions, i + 1, j, p);
        }
    }
}

/// Mirroring what the host application has for scripts defines no other global than `world`, the
/// globals of the host application and the functions of its global namespace.
pub proof fn law_only_mirrored_names_are_defined(world: TypeId, j: Seq<Step>, p: nat, q: nat)
    requires
        mirror_run(world, j, p) == Some((Ok::<(), ErrorView>(()), q)),
    ensures
        exists|listed: nat, globals: Vec<Global>, counted: nat, functions: Vec<HostFunction>|
            {
                &&& p <= listed < counted < q
                &&& #[trigger] lists_globals(j, listed, globals)
                &&& #[trigger] lists_functions(j, counted, functions)
                &&& defines_only(
                    j,
                    p,
                    q,
                    |key: Seq<u16>| is_mirrored(globals@, functions@, key),
                )
            },
{
    reveal(mirror_run);
    let asked = done_run(QueryView::World, j, p)->Some_0.1;
    let listed = bind_type_run("world"@, world, j, asked)->Some_0.1;
    lemma_type_defines("world"@, world, j, asked);
    let globals = host_reply(j, listed, QueryView::Globals)->Some_0.spec_globals()->Ok_0;
    let counted = globals_run(globals@, 0, j, listed + 1)->Some_0.1;
    lemma_globals_define(globals@, 0, j, listed + 1);
    let functions = host_reply(j, counted, QueryView::Functions)->Some_0.spec_functions()->Ok_0;
    lemma_functions_define(functions@, 0, j, counted + 1);
    lemma_functions_are_bound(functions@, 0, j, counted + 1, q);
    assert(lists_globals(j, listed, globals));
    assert(lists_functions(j, counted, functions));
    let fits = |key: Seq<u16>| is_mirrored(globals@, functions@, key);
    assert forall|at: int| p <= at < q implies (#[trigger] j[at] matches Step::Define { name, .. }
        ==> fits(js_units(name))) by {
        if let Step::Define { name, .. } = j[at] {
            if listed < at < counted {
                let k = choose|k: int|
                    0 <= k < globals@.len() && js_units(global_name(#[trigger] globals@[k]))
                        == js_units(name);
                assert(js_units(global_name(globals@[k])) == js_units(name));
            } else if counted < at {
                let k = choose|k: int|
                    0 <= k < functions@.len() && (#[trigger] functions@[k]).global && js_units(
                        functions@[k].name@,
                    ) == js_units(name);
                assert(functions@[k].global && js_units(functions@[k].name@) == js_units(name));
            }
        }
    }
    assert(defines_only(j, p, q, fits));
}

/// Where only globals are defined, every other one is as it was, but for the form of a number.
pub proof fn law_other_globals_stay(
    before: Context,
    j: Seq<Step>,
    p: nat,
    after: Context,
    fits: spec_fn(Seq<u16>) -> bool,
    key: Seq<u16>,
)
    requires
        only_defines(before, j, p, after),
        defines_only(j, p, j.len(), fits),
        !fits(key),
    ensures
        global_data(after).contains_key(key) == global_data(before).contains_key(key),
        global_data(before).contains_key(key) ==> alike(
            global_data(before)[key],
            global_data(after)[key],
        ),
{
    lemma_undefined_stays(global_data(before), j, p, j.len(), fits, key);
    let data = definitions(global_data(before), j, p, j.len());
    assert(data.contains_key(key) == global_data(after).contains_key(key));
}

/// Where only globals are defined, one that is defined last holds what it is defined as, but for the
/// form of a number.
pub proof fn law_defined_global_holds(
    before: Context,
    j: Seq<Step>,
    p: nat,
    after: Context,
    at: nat,
    name: Seq<char>,
    value: JsView,
)
    requires
        only_defines(before, j, p, after),
        p <= at,
        defines(j, at, name, value),
        defines_only(j, at + 1, j.len(), |key: Seq<u16>| key != js_units(name)),
    ensures
        global_data(after).contains_key(js_units(name)),
        alike(value, global_data(after)[js_units(name)]),
{
    let data = definitions(global_data(before), j, p, at + 1);
    let other = |key: Seq<u16>| key != js_units(name);
    lemma_definitions_joined(global_data(before), j, p, at + 1, j.len());
    lemma_undefined_stays(data, j, at + 1, j.len(), other, js_units(name));
    assert(definitions(global_data(before), j, p, j.len()).contains_key(js_units(name)));
}

/// Telling a script what it is about ends with the question for the entity, its wrapper, and the two
/// globals.
pub proof fn lemma_call_globals(script_id: Seq<char>, j: Seq<Step>, p: nat, q: nat)
    requires
        call_globals_run(script_id, j, p) == Some((Ok::<(), ErrorView>(()), q)),
    ensures
        p + 4 <= q,
        exists|entity: ReflectReference| #[trigger] tells(j, (q - 4) as nat, entity, script_id),
{
    reveal(call_globals_run);
    let (prototype, asked) = class_run("ReflectReference"@, NO_REFERENCE_CLASS@, j, p)->Some_0;
    let entity = host_reply(j, asked, QueryView::Entity)->Some_0.spec_reference()->Ok_0;
    let made = reference_reply(j, asked + 1, prototype->Ok_0, entity.0)->Some_0;
    assert(reference_reply(j, asked + 1, prototype->Ok_0, entity.0) == Some(made));
    assert(defines(j, asked + 2, "entity"@, made));
    assert(defines(j, asked + 3, "script_id"@, JsView::Str(js_units(script_id))));
    let at = (q - 4) as nat;
    assert(at == asked);
    assert(tells(j, at, entity, script_id));
}

/// A key is one of those that tell a script what it is about.
pub open spec fn tells_script(key: Seq<u16>) -> bool {
    key == js_units("entity"@) || key == js_units("script_id"@)
}

/// The names that tell a script what it is about are none of those of the classes.
pub proof fn lemma_told_names()
    ensures
        forall|key: Seq<u16>| #[trigger] tells_script(key) ==> spares_classes(key),
{
    reveal_strlit("entity");
    reveal_strlit("script_id");
    reveal_strlit("ReflectReference");
    reveal_strlit("StaticReflectReference");
    reveal_strlit("__bms_rr_proto");
    assert("entity"@.len() == 6 && "script_id"@.len() == 9 && "ReflectReference"@.len() == 16);
    assert("StaticReflectReference"@.len() == 22 && PROTOTYPE@.len() == 14);
    assert forall|one: Seq<char>, other: Seq<char>| one != other implies #[trigger] js_units(one)
        != #[trigger] js_units(other) by {
        if js_units(one) == js_units(other) {
            law_units_are_injective(one, other);
        }
    }
}

/// Telling a script what it is about defines no other globals.
pub proof fn lemma_call_globals_define(script_id: Seq<char>, j: Seq<Step>, p: nat)
    ensures
        call_globals_run(script_id, j, p) matches Some((_, q)) ==> p <= q && defines_only(
            j,
            p,
            q,
            |key: Seq<u16>| tells_script(key),
        ),
{
    reveal(call_globals_run);
}

/// Steps asked for an entity, and bound `entity` to a wrapper of it and `script_id` to an identifier.
pub open spec fn tells(j: Seq<Step>, at: nat, entity: ReflectReference, script_id: Seq<char>) -> bool {
    &&& entity_at(j, at, entity)
    &&& exists|prototype: Option<JsView>, made: JsView|
        {
            &&& #[trigger] reference_reply(j, at + 1, prototype, entity.0) == Some(made)
            &&& #[trigger] defines(j, at + 2, "entity"@, made)
        }
    &&& defines(j, at + 3, "script_id"@, JsView::Str(js_units(script_id)))
}

} // verus!
