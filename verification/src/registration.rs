//! Registering the classes of a virtual machine.
use crate::classes::{
    install_reference_run, install_token_run, lemma_install_reference_goes_on,
    lemma_install_token_goes_on,
};
use crate::data::{wraps_with, PROTOTYPE};
use crate::engine::{
    alike, error_text, holds_closed, js_error_text, js_function_prototype, js_global, js_heap,
    js_units, js_vacant, js_view, kind_of, untouched, FailureView, JsKind, JsView,
};
use crate::globals::has_classes;
use crate::host::{outcome, Answer, Query};
use crate::mirror::{publish, publish_run, published};
use crate::reference::{JsReflectReference, JsStaticReflectReference};
use crate::session::{
    and_then, define_effect, get_reply, global_reply, has_symbols, name_key, object_id, ordinary,
    own_data, replays, same_vm, Key, Session, Step,
};
use crate::setup::{
    can_define, global_data, has_class, installs_reference, installs_token, is_workpiece,
    keeps_closed, keeps_names, lemma_names_differ, lemma_registers, lemma_steady_untouched,
    prepared, registers, registrable, spares,
};
use crate::text::joined;
use crate::value::{ErrorView, InteropError};
use boa_engine::Context;
use vstd::prelude::*;

verus! {

broadcast use crate::session::lemma_extends_earlier;

/// An installation, with a text before what went wrong.
pub open spec fn or_complain(
    complaint: Seq<char>,
    part: Option<(Result<(), FailureView>, nat)>,
) -> Option<(Result<(), ErrorView>, nat)> {
    match part {
        None => None,
        Some((Ok(()), q)) => Some((Ok(()), q)),
        Some((Err(failure), q)) => Some(
            (Err(ErrorView::Invariant(complaint + js_error_text(failure))), q),
        ),
    }
}

/// Giving the class of references its short name, if it is there.
pub open spec fn alias_run(j: Seq<Step>, p: nat) -> Option<(Result<(), ErrorView>, nat)> {
    match global_reply(j, p) {
        None => None,
        Some(global) => match get_reply(j, p + 1, global, name_key("ReflectReference"@)) {
            None => None,
            Some(Ok(JsView::Object(class))) => publish_run(
                "ReflectRef"@,
                JsView::Object(class),
                j,
                p + 2,
            ),
            Some(_) => Some((Ok(()), p + 2)),
        },
    }
}

/// Registering the classes of a virtual machine.
#[verifier::opaque]
pub open spec fn register_run(j: Seq<Step>, p: nat) -> Option<(Result<(), ErrorView>, nat)> {
    and_then(
        or_complain("install ReflectReference: "@, install_reference_run(j, p)),
        |unit: (), p: nat|
            and_then(
                or_complain("install StaticReflectReference: "@, install_token_run(j, p)),
                |unit: (), p: nat| alias_run(j, p),
            ),
    )
}

/// After both classes were installed, that of references is found.
proof fn lemma_reference_is_found(before: Context, one: Context, two: Context)
    requires
        exists|class: JsView, prototype: JsView| #[trigger]
            installs_reference(before, one, class, prototype),
        exists|class: JsView, prototype: JsView| #[trigger]
            installs_token(one, two, class, prototype),
    ensures
        own_data(js_heap(two), js_global(two), name_key("ReflectReference"@)) matches Some(found)
            && found is Object && exists|prototype: JsView| #[trigger]
            installs_reference(before, one, found, prototype),
{
    lemma_names_differ();
    let (class, prototype) = choose|class: JsView, prototype: JsView| #[trigger]
        installs_reference(before, one, class, prototype);
    let (token_class, token_prototype) = choose|class: JsView, prototype: JsView| #[trigger]
        installs_token(one, two, class, prototype);
    let data = global_data(one).insert(js_units("StaticReflectReference"@), token_class);
    assert(data.contains_key(js_units("ReflectReference"@)));
}

/// After both classes were installed, that of references gets its short name.
proof fn lemma_gets_classes(
    before: Context,
    one: Context,
    two: Context,
    read: Context,
    class: JsView,
    reply: Result<(), Seq<char>>,
    after: Context,
)
    requires
        exists|prototype: JsView| #[trigger] installs_reference(before, one, class, prototype),
        exists|class: JsView, prototype: JsView| #[trigger]
            installs_token(one, two, class, prototype),
        same_vm(two, read),
        untouched(two, read),
        same_vm(read, after),
        define_effect(read, "ReflectRef"@, class, true, reply, after),
    ensures
        can_define(before, "ReflectRef"@) ==> reply is Ok,
        reply is Ok ==> gets_classes(before, after),
{
    let prototype = choose|prototype: JsView| #[trigger]
        installs_reference(before, one, class, prototype);
    let (token_class, token_prototype) = choose|class: JsView, prototype: JsView| #[trigger]
        installs_token(one, two, class, prototype);
    lemma_token_untouched(one, two, read, token_class, token_prototype);
    if reply is Ok {
        lemma_registers(before, one, read, after, class, prototype, token_class, token_prototype);
    }
}

/// The class of type tokens is installed where nothing changed afterwards.
proof fn lemma_token_untouched(
    before: Context,
    between: Context,
    after: Context,
    class: JsView,
    prototype: JsView,
)
    requires
        installs_token(before, between, class, prototype),
        same_vm(between, after),
        untouched(between, after),
    ensures
        installs_token(before, after, class, prototype),
        prepared(after),
{
    lemma_steady_untouched(between, prototype, after);
}

/// The classes of a virtual machine were registered.
pub open spec fn gets_classes(before: Context, after: Context) -> bool {
    exists|class: JsView, prototype: JsView, token_class: JsView, token_prototype: JsView| #[trigger]
        registers(before, after, class, prototype, token_class, token_prototype)
}

/// Makes sure that a virtual machine has the classes for host values and types.
///
/// It can be done again: a virtual machine that can get the classes still can afterwards.
pub fn register_host_classes<H: Fn(Query) -> Answer + Copy + 'static>(
    context: &mut Context,
    session: &mut Session<H>,
) -> (result: Result<(), InteropError>)
    requires
        old(session).ready(*old(context)),
    ensures
        final(session).follows(*old(session)),
        final(session).attached(*final(context)),
        same_vm(*old(context), *final(context)),
        registrable(*old(context)) ==> result is Ok,
        prepared(*old(context)) && result is Ok ==> gets_classes(*old(context), *final(context)),
        replays(
            |j: Seq<Step>, p: nat| register_run(j, p),
            old(session).journal(),
            final(session).journal(),
            outcome(result),
        ),
{
    proof {
        reveal(register_run);
    }
    let ghost first = *context;
    if let Err(error) = JsReflectReference::install_class(context, session) {
        let text = error_text(&error, context);
        return Err(InteropError::Invariant(joined("install ReflectReference: ", &text)));
    }
    let ghost one = *context;
    if let Err(error) = JsStaticReflectReference::install_class(context, session) {
        let text = error_text(&error, context);
        return Err(InteropError::Invariant(joined("install StaticReflectReference: ", &text)));
    }
    let ghost two = *context;
    let global = session.global(context);
    let found = session.get(context, &global, Key::Name("ReflectReference"));
    let ghost read = *context;
    proof {
        if prepared(first) {
            lemma_reference_is_found(first, one, two);
        }
    }
    if let Ok(class) = found {
        if kind_of(&class) == JsKind::Object {
            let result = publish("ReflectRef", &class, context, session);
            proof {
                if prepared(first) {
                    lemma_gets_classes(
                        first,
                        one,
                        two,
                        read,
                        js_view(class),
                        published(outcome(result)),
                        *context,
                    );
                }
            }
            return result;
        }
    }
    Ok(())
}

/// What the classes of a virtual machine need was left alone, whatever else scripts did: `Symbol`, what
/// functions inherit, the globals of the classes and the prototype for wrappers.
pub open spec fn leaves_classes(before: Context, after: Context) -> bool {
    &&& same_vm(before, after)
    &&& has_symbols(before) ==> has_symbols(after)
    &&& forall|key: Seq<u16>| #[trigger]
        js_vacant(before, js_function_prototype(before), key) && !spares(key) ==> js_vacant(
            after,
            js_function_prototype(before),
            key,
        )
    &&& keeps_names(before, after)
    &&& keeps_closed(before, after)
    &&& forall|prototype: JsView|
        holds_closed(before, js_units(PROTOTYPE@), prototype) && is_workpiece(before, prototype)
            ==> #[trigger] is_workpiece(after, prototype)
}

/// The classes of a virtual machine can be registered again, at once and after scripts that left alone
/// what they need: [`register_host_classes`] succeeds, and the virtual machine has them as before.
pub proof fn law_classes_can_be_registered_again(
    before: Context,
    registered: Context,
    now: Context,
)
    requires
        gets_classes(before, registered),
        leaves_classes(registered, now),
    ensures
        leaves_classes(registered, registered),
        registrable(now),
{
    let (class, prototype, token_class, token_prototype) = choose|
        class: JsView,
        prototype: JsView,
        token_class: JsView,
        token_prototype: JsView,
    | #[trigger]
        registers(before, registered, class, prototype, token_class, token_prototype);
    let key = js_units(PROTOTYPE@);
    assert(holds_closed(registered, key, prototype));
    assert(holds_closed(now, key, prototype));
    assert(ordinary(js_heap(registered), object_id(js_global(registered))));
    assert forall|other: JsView|
        other is Object && #[trigger] holds_closed(now, key, other) implies is_workpiece(
        now,
        other,
    ) by {
        assert(holds_closed(registered, key, other));
        assert(is_workpiece(registered, other));
    }
}

/// A key is none of those under which the classes and the prototype for wrappers are.
pub open spec fn is_other_global(key: Seq<u16>) -> bool {
    &&& key != js_units("ReflectReference"@)
    &&& key != js_units("StaticReflectReference"@)
    &&& key != js_units("ReflectRef"@)
    &&& key != js_units(PROTOTYPE@)
}

/// The globals of a virtual machine that are no classes are as they were, but for the form of numbers.
pub open spec fn keeps_other_globals(before: Context, after: Context) -> bool {
    forall|key: Seq<u16>| #[trigger]
        is_other_global(key) ==> {
            &&& global_data(after).contains_key(key) == global_data(before).contains_key(key)
            &&& global_data(before).contains_key(key) ==> alike(
                global_data(before)[key],
                global_data(after)[key],
            )
        }
}

/// Registering the classes keeps every global of another name, but for the form of a number.
pub proof fn law_registering_keeps_other_globals(before: Context, after: Context)
    requires
        gets_classes(before, after),
    ensures
        keeps_other_globals(before, after),
{
    let (class, prototype, token_class, token_prototype) = choose|
        class: JsView,
        prototype: JsView,
        token_class: JsView,
        token_prototype: JsView,
    | #[trigger]
        registers(before, after, class, prototype, token_class, token_prototype);
    let data = global_data(before).insert(js_units("ReflectReference"@), class).insert(
        js_units(PROTOTYPE@),
        prototype,
    ).insert(js_units("StaticReflectReference"@), token_class).insert(
        js_units("ReflectRef"@),
        class,
    );
    assert forall|key: Seq<u16>| #[trigger] is_other_global(key) implies {
        &&& global_data(after).contains_key(key) == global_data(before).contains_key(key)
        &&& global_data(before).contains_key(key) ==> alike(
            global_data(before)[key],
            global_data(after)[key],
        )
    } by {
        assert(data.contains_key(key) == global_data(before).contains_key(key));
        assert(data.contains_key(key) == global_data(after).contains_key(key));
    }
}

/// Registering the classes never goes back in the journal.
pub proof fn lemma_register_goes_on(j: Seq<Step>, p: nat)
    ensures
        register_run(j, p) matches Some((_, q)) ==> p <= q,
{
    reveal(register_run);
    lemma_install_reference_goes_on(j, p);
    if let Some((Ok(()), q)) = install_reference_run(j, p) {
        lemma_install_token_goes_on(j, q);
    }
}

/// A virtual machine has its classes once they are registered.
pub proof fn law_registered_machines_have_classes(before: Context, after: Context)
    requires
        gets_classes(before, after),
    ensures
        has_classes(after),
{
    let (class, prototype, token_class, token_prototype) = choose|
        class: JsView,
        prototype: JsView,
        token_class: JsView,
        token_prototype: JsView,
    | #[trigger]
        registers(before, after, class, prototype, token_class, token_prototype);
    assert(wraps_with(after, prototype));
    assert(has_class(after, "ReflectReference"@, class, prototype));
    assert(has_class(after, "StaticReflectReference"@, token_class, token_prototype));
}

} // verus!
