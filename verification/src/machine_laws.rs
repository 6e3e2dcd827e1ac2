//! What setting virtual machines up, loading, reloading and calling scripts does, by the steps that it
//! takes.
use crate::calls::{done_run, value_run};
use crate::classes::{
    define_method_run, define_symbol_iterator_run, install_reference_run, install_token_run,
    prototype_run, reference_constructor_run, reference_methods_run,
};
use crate::conversion_laws::{
    engine_failed, fails_with, is_making, law_values_are_rendered, renders_as,
};
use crate::data::PROTOTYPE;
use crate::dialogue::{
    asked, asks, asks_nothing, lemma_asked_first, lemma_asked_joined, lemma_asked_later,
    lemma_asked_nothing,
};
use crate::engine::{js_error_text, FailureView, JsView, PropertyView};
use crate::host::{misfit, Answer, Global, HostFunction, QueryView};
use crate::into_js::into_js_run;
use crate::mirror::{
    bind_global_run, bind_type_run, bind_value_run, call_globals_run, class_run, functions_run,
    global_name, globals_run, lemma_call_globals, lemma_call_globals_define, lists_functions,
    lists_globals, mirror_run, tells, NO_REFERENCE_CLASS, NO_TOKEN_CLASS,
};
use crate::native::Native;
use crate::registration::register_run;
use crate::script_laws::{
    call_fails, calls_at, hands_back, law_callback_fails_for_a_reason,
    law_callback_gets_its_arguments, looks_for, runs_nothing,
};
use crate::session::{
    eval_reply, function_reply, get_reply, global_reply, host_reply, inspect_reply, name_key,
    object_reply, reference_reply, token_reply, KeyView, Step,
};
use crate::value::{ErrorView, FunctionRef, ReflectReference, ScriptValue, ScriptView};
use crate::vm::{handler_run, load_run, reload_run};
use std::any::TypeId;
use vstd::prelude::*;

verus! {

/// A function that runs a native one was made in the step before, for a name.
pub open spec fn just_made(
    j: Seq<Step>,
    at: int,
    name: Seq<char>,
    length: usize,
    native: Native,
    function: JsView,
) -> bool {
    at > 0 && function_reply(j, (at - 1) as nat, name, length, native) == Some(function)
}

/// What is put under a key of a prototype or a constructor is what belongs there: each method of
/// references and of type tokens runs the native function that it is named for, and a constructor gets
/// its prototype.
pub open spec fn belongs(j: Seq<Step>, at: int, key: KeyView, value: JsView) -> bool {
    ||| key == name_key("get"@) && just_made(j, at, "get"@, 0, Native::Get, value)
    ||| key == name_key("set"@) && just_made(j, at, "set"@, 0, Native::Put, value)
    ||| key == name_key("call"@) && (just_made(j, at, "call"@, 0, Native::Call, value) || just_made(
        j,
        at,
        "call"@,
        0,
        Native::TokenCall,
        value,
    ))
    ||| key == name_key("method"@) && just_made(j, at, "method"@, 0, Native::Method, value)
    ||| key == name_key("len"@) && just_made(j, at, "len"@, 0, Native::Len, value)
    ||| key == name_key("toString"@) && just_made(j, at, "toString"@, 0, Native::Text, value)
    ||| key is Symbol && at >= 4 && function_reply(
        j,
        (at - 4) as nat,
        "[Symbol.iterator]"@,
        0,
        Native::Iterator,
    ) == Some(value)
    ||| key == name_key("ref_set"@) && just_made(j, at, "ref_set"@, 3, Native::StaticSet, value)
    ||| key == name_key("fn"@) && just_made(j, at, "fn"@, 0, Native::TokenFn, value)
    ||| key == name_key("prototype"@)
}

/// What is defined when the classes are set up is what belongs there: a constructor that was made and
/// given its prototype, that prototype, which alone is closed, and the class of references under its
/// short name too.
pub open spec fn defines_class(
    j: Seq<Step>,
    at: int,
    name: Seq<char>,
    value: JsView,
    open: bool,
) -> bool {
    ||| {
        &&& open && name == "ReflectReference"@ && at >= 4
        &&& function_reply(
            j,
            (at - 4) as nat,
            "ReflectReference"@,
            0,
            Native::ReferenceConstructor,
        ) == Some(value)
        &&& j[at - 3] matches Step::Put { object, key, .. } && object == value && key == name_key(
            "prototype"@,
        )
    }
    ||| {
        &&& !open && name == PROTOTYPE@ && at >= 5
        &&& j[at - 4] matches Step::Put { key, value: prototype, .. } && key == name_key(
            "prototype"@,
        ) && prototype == value
    }
    ||| {
        &&& open && name == "StaticReflectReference"@ && at >= 2
        &&& function_reply(
            j,
            (at - 2) as nat,
            "StaticReflectReference"@,
            0,
            Native::TokenConstructor,
        ) == Some(value)
        &&& j[at - 1] matches Step::Put { object, key, .. } && object == value && key == name_key(
            "prototype"@,
        )
    }
    ||| {
        &&& open && name == "ReflectRef"@ && at >= 1 && value is Object
        &&& j[at - 1] matches Step::Get { key, reply, .. } && key == name_key("ReflectReference"@)
            && reply == Ok::<JsView, Seq<char>>(value)
    }
}

/// A step that sets the classes of a virtual machine up.
pub open spec fn sets_up(j: Seq<Step>, at: int) -> bool {
    match j[at] {
        Step::Global { .. } => true,
        Step::Get { .. } => true,
        Step::Inspect { .. } => true,
        Step::NewObject { .. } => true,
        Step::NewFunction { .. } => true,
        Step::Put { key, value, .. } => belongs(j, at, key, value),
        Step::Define { name, value, open, .. } => defines_class(j, at, name, value, open),
        _ => false,
    }
}

/// All steps between two positions set the classes of a virtual machine up.
pub open spec fn all_set_up(j: Seq<Step>, p: nat, q: nat) -> bool {
    forall|at: int| #![trigger j[at]] p <= at < q ==> sets_up(j, at)
}

/// A native function is the one that a method of references or type tokens is named for.
pub open spec fn is_named_for(name: Seq<char>, native: Native) -> bool {
    ||| name == "get"@ && native is Get
    ||| name == "set"@ && native is Put
    ||| name == "call"@ && (native is Call || native is TokenCall)
    ||| name == "method"@ && native is Method
    ||| name == "len"@ && native is Len
    ||| name == "toString"@ && native is Text
    ||| name == "fn"@ && native is TokenFn
}

/// Adding a method to a prototype takes two steps that set up.
proof fn lemma_method_sets_up(
    prototype: JsView,
    name: Seq<char>,
    native: Native,
    j: Seq<Step>,
    p: nat,
)
    requires
        is_named_for(name, native),
    ensures
        define_method_run(prototype, name, native, j, p) matches Some((_, q)) ==> q == p + 2
            && all_set_up(j, p, q),
{
    if let Some((_, q)) = define_method_run(prototype, name, native, j, p) {
        assert forall|at: int| #![trigger j[at]] p <= at < q implies sets_up(j, at) by {
            assert(at == p || at == p + 1);
        }
    }
}

/// Adding the methods of references to a prototype takes steps that set up.
proof fn lemma_methods_set_up(prototype: JsView, j: Seq<Step>, p: nat)
    ensures
        reference_methods_run(prototype, j, p) matches Some((_, q)) ==> p <= q && all_set_up(
            j,
            p,
            q,
        ),
{
    reveal(reference_methods_run);
    lemma_method_sets_up(prototype, "get"@, Native::Get, j, p);
    lemma_method_sets_up(prototype, "set"@, Native::Put, j, p + 2);
    lemma_method_sets_up(prototype, "call"@, Native::Call, j, p + 4);
    lemma_method_sets_up(prototype, "method"@, Native::Method, j, p + 6);
    lemma_method_sets_up(prototype, "len"@, Native::Len, j, p + 8);
    lemma_method_sets_up(prototype, "toString"@, Native::Text, j, p + 10);
    let from = p + 12;
    if let Some((_, q)) = define_symbol_iterator_run(prototype, Native::Iterator, j, from) {
        assert forall|at: int| #![trigger j[at]] from <= at < q implies sets_up(j, at) by {
            assert(at == from || at == from + 1 || at == from + 2 || at == from + 3 || at == from
                + 4);
        }
    }
}

/// Making the constructor of references takes steps that set up.
proof fn lemma_constructor_sets_up(prototype: JsView, j: Seq<Step>, p: nat)
    ensures
        reference_constructor_run(prototype, j, p) matches Some((_, q)) ==> p <= q && all_set_up(
            j,
            p,
            q,
        ),
{
    reveal(reference_constructor_run);
    if let Some((_, q)) = reference_constructor_run(prototype, j, p) {
        assert forall|at: int| #![trigger j[at]] p <= at < q implies sets_up(j, at) by {
            assert(at == p || at == p + 1 || at == p + 2 || at == p + 3 || at == p + 4 || at == p
                + 5);
        }
    }
}

/// Registering the classes of a virtual machine does nothing else than set them up: each method runs
/// the native function that it is named for, no other globals are defined than those of the classes
/// and the prototype for wrappers, which alone is closed, the host application is asked nothing, and
/// nothing of a script runs.
pub proof fn law_registering_only_sets_up(j: Seq<Step>, p: nat)
    ensures
        register_run(j, p) matches Some((_, q)) ==> {
            &&& p <= q
            &&& all_set_up(j, p, q)
            &&& runs_nothing(j, p, q)
            &&& asks_nothing(j, p, q)
        },
{
    reveal(register_run);
    reveal(install_reference_run);
    reveal(install_token_run);
    if let Some((_, q)) = register_run(j, p) {
        let (prototype, from) = prototype_run(j, p)->Some_0;
        assert(all_set_up(j, p, from)) by {
            assert forall|at: int| #![trigger j[at]] p <= at < from implies sets_up(j, at) by {
                assert(at == p || at == p + 1 || at == p + 2);
            }
        }
        lemma_methods_set_up(prototype, j, from);
        let (done, made) = reference_methods_run(prototype, j, from)->Some_0;
        if done is Ok {
            lemma_constructor_sets_up(prototype, j, made);
            let (done, start) = reference_constructor_run(prototype, j, made)->Some_0;
            if done is Ok {
                let token_prototype = object_reply(j, start)->Some_0;
                lemma_method_sets_up(token_prototype, "fn"@, Native::TokenFn, j, start + 1);
                lemma_method_sets_up(token_prototype, "call"@, Native::TokenCall, j, start + 3);
                let (done, end) = install_token_run(j, start)->Some_0;
                assert(all_set_up(j, start, end)) by {
                    assert forall|at: int| #![trigger j[at]] start <= at < end implies sets_up(
                        j,
                        at,
                    ) by {
                        assert(at == start || (start + 1 <= at < start + 3) || (start + 3 <= at
                            < start + 5) || at == start + 5 || at == start + 6 || at == start + 7);
                    }
                }
                if done is Ok {
                    assert forall|at: int| #![trigger j[at]] end <= at < q implies sets_up(
                        j,
                        at,
                    ) by {
                        assert(at == end || at == end + 1 || at == end + 2);
                    }
                }
            }
        }
        assert(all_set_up(j, p, q));
        assert forall|at: int| p <= at < q implies !(#[trigger] j[at] is Call) && !(j[at] is Eval) by {
            assert(sets_up(j, at));
        }
        assert forall|at: int| p <= at < q implies (#[trigger] j[at] matches Step::Ask { query, .. }
            ==> query is FunctionId) by {
            assert(sets_up(j, at));
        }
    }
}

/// The three steps before one read a class and the property of it under `prototype`.
pub open spec fn reads_class(
    j: Seq<Step>,
    at: nat,
    name: Seq<char>,
    global: JsView,
    class: JsView,
    found: JsView,
) -> bool {
    &&& at >= 3
    &&& global_reply(j, (at - 3) as nat) == Some(global)
    &&& get_reply(j, (at - 2) as nat, global, name_key(name)) == Some(
        Ok::<JsView, Seq<char>>(class),
    )
    &&& class is Object
    &&& get_reply(j, (at - 1) as nat, class, name_key("prototype"@)) == Some(
        Ok::<JsView, Seq<char>>(found),
    )
}

/// Two steps looked at the property of the global object that holds the prototype for wrappers.
pub open spec fn looks_at_prototype(
    j: Seq<Step>,
    p: nat,
    global: JsView,
    found: Option<PropertyView>,
) -> bool {
    global_reply(j, p) == Some(global) && inspect_reply(j, p + 1, global, PROTOTYPE@) == Some(found)
}

/// The prototype for wrappers is the one that the global object holds in a closed property, or a new
/// object.
pub proof fn law_prototype_is_kept(j: Seq<Step>, p: nat, prototype: JsView, q: nat)
    requires
        prototype_run(j, p) == Some((prototype, q)),
    ensures
        exists|global: JsView, found: Option<PropertyView>|
            {
                &&& #[trigger] looks_at_prototype(j, p, global, found)
                &&& if found matches Some(own) && !own.writable && !own.enumerable
                    && !own.configurable && own.value matches Some(JsView::Object(_)) {
                    found->0.value == Some(prototype) && q == p + 2
                } else {
                    object_reply(j, p + 2) == Some(prototype) && q == p + 3
                }
            },
{
    let global = global_reply(j, p)->Some_0;
    let found = inspect_reply(j, p + 1, global, PROTOTYPE@)->Some_0;
    assert(looks_at_prototype(j, p, global, found));
}

/// In the steps before one, the prototype of a class was found.
pub open spec fn class_found(
    j: Seq<Step>,
    at: nat,
    name: Seq<char>,
    prototype: Option<JsView>,
) -> bool {
    exists|global: JsView, class: JsView, found: JsView|
        {
            &&& #[trigger] reads_class(j, at, name, global, class, found)
            &&& prototype == if found is Object {
                Some(found)
            } else {
                None
            }
        }
}

/// In the step before one, a token of a type was made that has the prototype of the class of tokens.
pub open spec fn token_made(j: Seq<Step>, at: nat, token: TypeId, value: JsView) -> bool {
    at >= 1 && exists|prototype: Option<JsView>|
        {
            &&& #[trigger] class_found(
                j,
                (at - 1) as nat,
                "StaticReflectReference"@,
                prototype,
            )
            &&& token_reply(j, (at - 1) as nat, prototype, token) == Some(value)
        }
}

/// Before a step, the host application made a value for a global, of which a value was made.
pub open spec fn value_made(j: Seq<Step>, lo: nat, at: nat, name: Seq<char>, view: JsView) -> bool {
    exists|asking: nat, value: ScriptValue|
        {
            &&& lo <= asking < at
            &&& #[trigger] asks(
                j,
                asking,
                QueryView::MakeGlobal { name },
                Answer::Value(value),
            )
            &&& renders_as(value, view, j, asking + 1, at)
        }
}

/// The value of a global of the host application is what the host application made for its name, or a
/// token of its type.
pub open spec fn is_value_of(global: Global, j: Seq<Step>, lo: nat, at: nat, view: JsView) -> bool {
    match global {
        Global::Made { name } => value_made(j, lo, at, name@, view),
        Global::Type { token, .. } => token_made(j, at, token, view),
    }
}

/// A global is defined as what it is bound to.
pub open spec fn is_bound_right(
    world: TypeId,
    globals: Seq<Global>,
    functions: Seq<HostFunction>,
    j: Seq<Step>,
    lo: nat,
    at: nat,
    name: Seq<char>,
    view: JsView,
) -> bool {
    ||| name == "world"@ && token_made(j, at, world, view)
    ||| exists|k: int|
        0 <= k < globals.len() && global_name(#[trigger] globals[k]) == name && is_value_of(
            globals[k],
            j,
            lo,
            at,
            view,
        )
    ||| exists|k: int|
        {
            &&& 0 <= k < functions.len() && (#[trigger] functions[k]).global
            &&& functions[k].name@ == name
            &&& renders_as(
                ScriptValue::Function(FunctionRef::Host(functions[k].function)),
                view,
                j,
                lo,
                at,
            )
        }
}

/// All definitions between two positions are right, and nothing of a script runs.
pub open spec fn all_bound_right(
    world: TypeId,
    globals: Seq<Global>,
    functions: Seq<HostFunction>,
    j: Seq<Step>,
    lo: nat,
    p: nat,
    q: nat,
) -> bool {
    &&& runs_nothing(j, p, q)
    &&& forall|at: int|
        p <= at < q ==> (#[trigger] j[at] matches Step::Define { name, value, open, .. } ==> open
            && is_bound_right(world, globals, functions, j, lo, at as nat, name, value))
}

/// Finding the prototype of a class takes three steps.
proof fn lemma_class_found(
    name: Seq<char>,
    complaint: Seq<char>,
    j: Seq<Step>,
    p: nat,
    prototype: Option<JsView>,
    q: nat,
)
    requires
        class_run(name, complaint, j, p) == Some((Ok::<Option<JsView>, ErrorView>(prototype), q)),
    ensures
        q == p + 3,
        class_found(j, q, name, prototype),
{
    let global = global_reply(j, p)->Some_0;
    let class = get_reply(j, p + 1, global, name_key(name))->Some_0->Ok_0;
    let found = get_reply(j, p + 2, class, name_key("prototype"@))->Some_0->Ok_0;
    assert(reads_class(j, q, name, global, class, found));
}

/// Binding a global to a type.
proof fn lemma_type_right(
    name: Seq<char>,
    token: TypeId,
    j: Seq<Step>,
    p: nat,
    q: nat,
    world: TypeId,
    globals: Seq<Global>,
    functions: Seq<HostFunction>,
    lo: nat,
)
    requires
        bind_type_run(name, token, j, p) == Some((Ok::<(), ErrorView>(()), q)),
        forall|at: nat, view: JsView| #[trigger]
            token_made(j, at, token, view) ==> is_bound_right(
                world,
                globals,
                functions,
                j,
                lo,
                at,
                name,
                view,
            ),
    ensures
        p < q,
        all_bound_right(world, globals, functions, j, lo, p, q),
        asked(j, p, q) == Seq::<QueryView>::empty(),
{
    let (prototype, r) = class_run("StaticReflectReference"@, NO_TOKEN_CLASS@, j, p)->Some_0;
    let prototype = prototype->Ok_0;
    lemma_class_found("StaticReflectReference"@, NO_TOKEN_CLASS@, j, p, prototype, r);
    let value = token_reply(j, r, prototype, token)->Some_0;
    let at = r + 1;
    assert(class_found(j, (at - 1) as nat, "StaticReflectReference"@, prototype));
    assert(token_made(j, at, token, value));
    assert(q == p + 5);
    assert forall|k: int| p <= k < q implies {
        &&& !(#[trigger] j[k] is Call) && !(j[k] is Eval) && !(j[k] is Ask)
        &&& j[k] matches Step::Define { name, value, open, .. } ==> open && is_bound_right(
            world,
            globals,
            functions,
            j,
            lo,
            k as nat,
            name,
            value,
        )
    } by {
        assert(k == p || k == p + 1 || k == p + 2 || k == p + 3 || k == p + 4);
    }
    lemma_asked_nothing(j, p, q);
}

/// Binding a global to a value.
proof fn lemma_value_right(
    name: Seq<char>,
    value: ScriptValue,
    j: Seq<Step>,
    p: nat,
    q: nat,
    world: TypeId,
    globals: Seq<Global>,
    functions: Seq<HostFunction>,
    lo: nat,
)
    requires
        bind_value_run(name, value, j, p) == Some((Ok::<(), ErrorView>(()), q)),
        forall|at: nat, view: JsView| #[trigger]
            renders_as(value, view, j, p, at) && p <= at ==> is_bound_right(
                world,
                globals,
                functions,
                j,
                lo,
                at,
                name,
                view,
            ),
    ensures
        p < q,
        all_bound_right(world, globals, functions, j, lo, p, q),
        asked(j, p, q) == Seq::<QueryView>::empty(),
{
    law_values_are_rendered(value, j, p);
    let (view, r) = into_js_run(value, j, p)->Some_0;
    let view = view->Ok_0;
    assert(renders_as(value, view, j, p, r));
    assert(q == r + 1);
    assert forall|k: int| p <= k < q implies {
        &&& !(#[trigger] j[k] is Call) && !(j[k] is Eval) && !(j[k] is Ask)
        &&& j[k] matches Step::Define { name, value, open, .. } ==> open && is_bound_right(
            world,
            globals,
            functions,
            j,
            lo,
            k as nat,
            name,
            value,
        )
    } by {
        assert(k < r ==> is_making(j[k]));
    }
    lemma_asked_nothing(j, p, q);
}

/// The questions for the globals that the host application makes, from an index on, in their order.
pub open spec fn makings(globals: Seq<Global>, i: nat) -> Seq<QueryView>
    decreases globals.len() - i,
{
    if i >= globals.len() {
        Seq::empty()
    } else {
        match globals[i as int] {
            Global::Made { name } => seq![QueryView::MakeGlobal { name: name@ }] + makings(
                globals,
                i + 1,
            ),
            Global::Type { .. } => makings(globals, i + 1),
        }
    }
}

/// Binding globals of the host application.
proof fn lemma_globals_right(
    globals: Seq<Global>,
    i: nat,
    j: Seq<Step>,
    p: nat,
    q: nat,
    world: TypeId,
    functions: Seq<HostFunction>,
    lo: nat,
)
    requires
        globals_run(globals, i, j, p) == Some((Ok::<(), ErrorView>(()), q)),
        lo <= p,
    ensures
        p <= q,
        all_bound_right(world, globals, functions, j, lo, p, q),
        asked(j, p, q) == makings(globals, i),
    decreases globals.len() - i,
{
    if i < globals.len() {
        let global = globals[i as int];
        let r = bind_global_run(global, j, p)->Some_0.1;
        match global {
            Global::Made { name } => {
                let query = QueryView::MakeGlobal { name: name@ };
                let value = value_run(query, j, p)->Some_0.0->Ok_0;
                assert(asks(j, p, query, Answer::Value(value)));
                assert forall|at: nat, view: JsView| #[trigger]
                    renders_as(value, view, j, p + 1, at) && p + 1 <= at implies is_bound_right(
                    world,
                    globals,
                    functions,
                    j,
                    lo,
                    at,
                    name@,
                    view,
                ) by {
                    assert(value_made(j, lo, at, name@, view));
                    assert(global_name(globals[i as int]) == name@);
                }
                lemma_value_right(name@, value, j, p + 1, r, world, globals, functions, lo);
                lemma_asked_first(j, p, r, query, Answer::Value(value));
                assert(asked(j, p, r) =~= seq![query]);
            },
            Global::Type { name, token } => {
                assert forall|at: nat, view: JsView| #[trigger]
                    token_made(j, at, token, view) implies is_bound_right(
                    world,
                    globals,
                    functions,
                    j,
                    lo,
                    at,
                    name@,
                    view,
                ) by {
                    assert(global_name(globals[i as int]) == name@);
                }
                lemma_type_right(name@, token, j, p, r, world, globals, functions, lo);
            },
        }
        lemma_globals_right(globals, i + 1, j, r, q, world, functions, lo);
        lemma_asked_joined(j, p, r, q);
        assert(asked(j, p, q) =~= makings(globals, i));
    } else {
        lemma_asked_nothing(j, p, q);
    }
}

/// Binding functions of the host application.
proof fn lemma_functions_right(
    functions: Seq<HostFunction>,
    i: nat,
    j: Seq<Step>,
    p: nat,
    q: nat,
    world: TypeId,
    globals: Seq<Global>,
    lo: nat,
)
    requires
        functions_run(functions, i, j, p) == Some((Ok::<(), ErrorView>(()), q)),
        lo <= p,
    ensures
        p <= q,
        all_bound_right(world, globals, functions, j, lo, p, q),
        asked(j, p, q) == Seq::<QueryView>::empty(),
    decreases functions.len() - i,
{
    if i < functions.len() {
        let own = functions[i as int];
        if own.global {
            let value = ScriptValue::Function(FunctionRef::Host(own.function));
            let r = bind_value_run(own.name@, value, j, p)->Some_0.1;
            assert forall|at: nat, view: JsView| #[trigger]
                renders_as(value, view, j, p, at) && p <= at implies is_bound_right(
                world,
                globals,
                functions,
                j,
                lo,
                at,
                own.name@,
                view,
            ) by {
                assert(functions[i as int].global);
                assert(renders_as(value, view, j, lo, at));
            }
            lemma_value_right(own.name@, value, j, p, r, world, globals, functions, lo);
            lemma_functions_right(functions, i + 1, j, r, q, world, globals, lo);
            lemma_asked_joined(j, p, r, q);
        } else {
            lemma_functions_right(functions, i + 1, j, p, q, world, globals, lo);
        }
    } else {
        lemma_asked_nothing(j, p, q);
    }
}

/// What the host application has for scripts was mirrored, and nothing else happened: it was asked for
/// the world, for its globals, for what it makes for each of them, once and in their order, and for its
/// functions; every global that was defined is open to scripts and is what it is bound to; and nothing
/// of a script ran.
pub open spec fn mirrors(
    world: TypeId,
    j: Seq<Step>,
    p: nat,
    q: nat,
    globals: Vec<Global>,
    functions: Vec<HostFunction>,
) -> bool {
    &&& asked(j, p, q) == seq![QueryView::World, QueryView::Globals] + makings(globals@, 0) + seq![
        QueryView::Functions,
    ]
    &&& all_bound_right(world, globals@, functions@, j, p, p, q)
}

/// Mirroring defines each global as what it is bound to: `world` as the token of the type of the world,
/// globals as what the host application made for their names or as tokens of their types, and functions
/// as functions that call them.
pub proof fn law_globals_are_bound_right(world: TypeId, j: Seq<Step>, p: nat, q: nat)
    requires
        mirror_run(world, j, p) == Some((Ok::<(), ErrorView>(()), q)),
    ensures
        p < q,
        runs_nothing(j, p, q),
        exists|listed: nat, globals: Vec<Global>, counted: nat, functions: Vec<HostFunction>|
            {
                &&& p <= listed < counted < q
                &&& #[trigger] lists_globals(j, listed, globals)
                &&& #[trigger] lists_functions(j, counted, functions)
                &&& mirrors(world, j, p, q, globals, functions)
            },
{
    reveal(mirror_run);
    let start = done_run(QueryView::World, j, p)->Some_0.1;
    let listed = bind_type_run("world"@, world, j, start)->Some_0.1;
    let answer = host_reply(j, listed, QueryView::Globals)->Some_0;
    let globals = answer.spec_globals()->Ok_0;
    let counted = globals_run(globals@, 0, j, listed + 1)->Some_0.1;
    let reply = host_reply(j, counted, QueryView::Functions)->Some_0;
    let functions = reply.spec_functions()->Ok_0;
    assert(lists_globals(j, listed, globals));
    assert(lists_functions(j, counted, functions));
    lemma_type_right("world"@, world, j, start, listed, world, globals@, functions@, p);
    lemma_globals_right(globals@, 0, j, listed + 1, counted, world, functions@, p);
    lemma_functions_right(functions@, 0, j, counted + 1, q, world, globals@, p);
    assert(all_bound_right(world, globals@, functions@, j, p, p, q)) by {
        assert forall|at: int| p <= at < q implies !(#[trigger] j[at] is Call) && !(j[at] is Eval) by {
            assert(at == p || (start <= at < listed) || at == listed || (listed + 1 <= at < counted)
                || at == counted || (counted + 1 <= at < q));
        }
        assert forall|at: int| p <= at < q implies (#[trigger] j[at] matches Step::Define {
            name,
            value,
            open,
            ..
        } ==> open && is_bound_right(
            world,
            globals@,
            functions@,
            j,
            p,
            at as nat,
            name,
            value,
        )) by {
            assert(at == p || (start <= at < listed) || at == listed || (listed + 1 <= at < counted)
                || at == counted || (counted + 1 <= at < q));
        }
    }
    lemma_asked_first(j, p, q, QueryView::World, host_reply(j, p, QueryView::World)->Some_0);
    lemma_asked_joined(j, start, listed, q);
    lemma_asked_first(j, listed, q, QueryView::Globals, answer);
    lemma_asked_joined(j, listed + 1, counted, q);
    lemma_asked_first(j, counted, q, QueryView::Functions, reply);
    assert(asked(j, p, q) =~= seq![QueryView::World, QueryView::Globals] + makings(globals@, 0)
        + seq![QueryView::Functions]);
}

/// A script was told what it is about: the host application was asked for the entity, once, and for
/// nothing else; `entity` is a wrapper of it with the prototype of the class of references, and
/// `script_id` is the identifier of the script. Nothing of a script ran.
pub open spec fn tells_right(
    script_id: Seq<char>,
    entity: ReflectReference,
    j: Seq<Step>,
    p: nat,
    q: nat,
) -> bool {
    &&& q == p + 7
    &&& tells(j, p + 3, entity, script_id)
    &&& exists|prototype: Option<JsView>|
        {
            &&& #[trigger] class_found(j, p + 3, "ReflectReference"@, prototype)
            &&& reference_reply(j, p + 4, prototype, entity.0) is Some
        }
    &&& asked(j, p, q) == seq![QueryView::Entity]
    &&& runs_nothing(j, p, q)
}

/// A script is told the entity that the host application gives, and its own identifier.
pub proof fn law_script_is_told_right(script_id: Seq<char>, j: Seq<Step>, p: nat, q: nat)
    requires
        call_globals_run(script_id, j, p) == Some((Ok::<(), ErrorView>(()), q)),
    ensures
        exists|entity: ReflectReference| #[trigger] tells_right(script_id, entity, j, p, q),
{
    lemma_call_globals(script_id, j, p, q);
    reveal(call_globals_run);
    let (prototype, at) = class_run("ReflectReference"@, NO_REFERENCE_CLASS@, j, p)->Some_0;
    let prototype = prototype->Ok_0;
    lemma_class_found("ReflectReference"@, NO_REFERENCE_CLASS@, j, p, prototype, at);
    let answer = host_reply(j, at, QueryView::Entity)->Some_0;
    let entity = choose|entity: ReflectReference| #[trigger]
        tells(j, (q - 4) as nat, entity, script_id);
    assert(q == p + 7);
    assert((q - 4) as nat == p + 3);
    assert forall|k: int| p <= k < q implies !(#[trigger] j[k] is Call) && !(j[k] is Eval) && (
    j[k] is Ask ==> k == p + 3) by {
        assert(k == p || k == p + 1 || k == p + 2 || k == p + 3 || k == p + 4 || k == p + 5 || k
            == p + 6);
    }
    lemma_asked_later(j, p, at, q);
    lemma_asked_first(j, at, q, QueryView::Entity, answer);
    lemma_asked_nothing(j, at + 1, q);
    assert(asked(j, p, q) =~= seq![QueryView::Entity]);
    assert(tells_right(script_id, entity, j, p, q));
}

/// A script that is loaded is evaluated once, last, after the classes were set up, it was told what it
/// is about and what the host application has for it was mirrored. Nothing of a script runs before.
pub proof fn law_loaded_script_runs_once(
    script_id: Seq<char>,
    source: Seq<u8>,
    world: TypeId,
    j: Seq<Step>,
    p: nat,
    q: nat,
)
    requires
        load_run(script_id, source, world, j, p) == Some((Ok::<(), ErrorView>(()), q)),
    ensures
        p < q,
        eval_reply(j, (q - 1) as nat, source) matches Some(Ok(_)),
        runs_nothing(j, p, (q - 1) as nat),
        exists|from: nat, entity: ReflectReference, globals: Vec<Global>, functions: Vec<HostFunction>|
            {
                &&& p <= from && from + 7 < q
                &&& all_set_up(j, p, from)
                &&& #[trigger] tells_right(script_id, entity, j, from, from + 7)
                &&& #[trigger] mirrors(world, j, from + 7, (q - 1) as nat, globals, functions)
            },
{
    law_registering_only_sets_up(j, p);
    let from = register_run(j, p)->Some_0.1;
    let start = call_globals_run(script_id, j, from)->Some_0.1;
    law_script_is_told_right(script_id, j, from, start);
    let entity = choose|entity: ReflectReference| #[trigger]
        tells_right(script_id, entity, j, from, start);
    let end = mirror_run(world, j, start)->Some_0.1;
    law_globals_are_bound_right(world, j, start, end);
    let (listed, globals, counted, functions) = choose|
        listed: nat,
        globals: Vec<Global>,
        counted: nat,
        functions: Vec<HostFunction>,
    |
        {
            &&& start <= listed < counted < end
            &&& #[trigger] lists_globals(j, listed, globals)
            &&& #[trigger] lists_functions(j, counted, functions)
            &&& mirrors(world, j, start, end, globals, functions)
        };
    assert(start == from + 7);
    assert((q - 1) as nat == end);
    assert(tells_right(script_id, entity, j, from, from + 7));
    assert(mirrors(world, j, from + 7, (q - 1) as nat, globals, functions));
    assert forall|at: int| p <= at < q - 1 implies !(#[trigger] j[at] is Call) && !(
    j[at] is Eval) by {
        assert((p <= at < from) || (from <= at < start) || (start <= at < end));
    }
}

/// A script that is reloaded is evaluated once, last, after the classes were set up again, and its
/// outcome is the result. Nothing else happens, and where the classes cannot be set up, the script is
/// not evaluated.
pub proof fn law_reloaded_script_runs_once(
    source: Seq<u8>,
    j: Seq<Step>,
    p: nat,
    result: Result<(), ErrorView>,
    q: nat,
)
    requires
        reload_run(source, j, p) == Some((result, q)),
    ensures
        register_run(j, p) matches Some((Err(error), end)) && result == Err::<(), ErrorView>(error)
            && q == end && all_set_up(j, p, q) || {
            &&& p < q
            &&& all_set_up(j, p, (q - 1) as nat)
            &&& runs_nothing(j, p, (q - 1) as nat)
            &&& asks_nothing(j, p, q)
            &&& eval_reply(j, (q - 1) as nat, source) matches Some(reply) && result == match reply {
                Ok(_) => Ok(()),
                Err(text) => Err(ErrorView::Invariant(text)),
            }
        },
{
    law_registering_only_sets_up(j, p);
}

/// An event is handled by the function of the script under a label, if it has one. The script is told
/// what the event is about. The function is called once, with the arguments of the event in their
/// order, and what it returns is the result. A script without such a function is left alone.
pub proof fn law_event_is_handled(
    arguments: Seq<ScriptValue>,
    script_id: Seq<char>,
    label: Seq<char>,
    j: Seq<Step>,
    p: nat,
    value: ScriptView,
    q: nat,
)
    requires
        handler_run(arguments, script_id, label, j, p) == Some(
            (Ok::<ScriptView, ErrorView>(value), q),
        ),
    ensures
        exists|
            entity: ReflectReference,
            global: JsView,
            found: Result<JsView, Seq<char>>,
        |
            {
                &&& #[trigger] tells_right(script_id, entity, j, p, p + 7)
                &&& #[trigger] looks_for(j, p + 7, label, global, found)
                &&& if found matches Ok(JsView::Object(_)) {
                    exists|at: nat, returned: JsView|
                        {
                            &&& p + 9 <= at < q
                            &&& #[trigger] calls_at(
                                found->Ok_0,
                                arguments,
                                j,
                                p + 9,
                                at,
                                Ok(returned),
                            )
                            &&& runs_nothing(j, p, at)
                            &&& hands_back(returned, value, j, at + 1, q)
                        }
                } else {
                    value == ScriptView::Unit && q == p + 9 && runs_nothing(j, p, q)
                }
            },
{
    let start = call_globals_run(script_id, j, p)->Some_0.1;
    law_script_is_told_right(script_id, j, p, start);
    let entity = choose|entity: ReflectReference| #[trigger]
        tells_right(script_id, entity, j, p, start);
    assert(start == p + 7);
    law_callback_gets_its_arguments(label, arguments, j, start, value, q);
    let (global, found) = choose|global: JsView, found: Result<JsView, Seq<char>>|
        {
            &&& #[trigger] looks_for(j, start, label, global, found)
            &&& if found matches Ok(JsView::Object(_)) {
                exists|at: nat, returned: JsView|
                    {
                        &&& start + 2 <= at < q
                        &&& #[trigger] calls_at(
                            found->Ok_0,
                            arguments,
                            j,
                            start + 2,
                            at,
                            Ok(returned),
                        )
                        &&& hands_back(returned, value, j, at + 1, q)
                    }
            } else {
                value == ScriptView::Unit && q == start + 2
            }
        };
    assert(tells_right(script_id, entity, j, p, p + 7));
    assert(looks_for(j, p + 7, label, global, found));
    if found matches Ok(JsView::Object(_)) {
        let (at, returned) = choose|at: nat, returned: JsView|
            {
                &&& start + 2 <= at < q
                &&& #[trigger] calls_at(found->Ok_0, arguments, j, start + 2, at, Ok(returned))
                &&& hands_back(returned, value, j, at + 1, q)
            };
        assert(calls_at(found->Ok_0, arguments, j, p + 9, at, Ok(returned)));
        assert forall|k: int| p <= k < at implies !(#[trigger] j[k] is Call) && !(j[k] is Eval) by {
            assert((p <= k < start) || k == start || k == start + 1 || is_making(j[k]));
        }
    } else {
        assert forall|k: int| p <= k < q implies !(#[trigger] j[k] is Call) && !(j[k] is Eval) by {
            assert((p <= k < start) || k == start || k == start + 1);
        }
    }
}

/// An answer of the host application fits a question about what it has for scripts.
pub open spec fn suits(query: QueryView, answer: Answer) -> bool {
    match query {
        QueryView::World => answer is Done,
        QueryView::Entity => answer is Reference,
        QueryView::Globals => answer is Globals,
        QueryView::Functions => answer is Functions,
        QueryView::MakeGlobal { .. } => answer is Value,
        _ => true,
    }
}

/// A step asked the host application for something that it did not give.
pub open spec fn host_failed(j: Seq<Step>, at: nat, error: ErrorView) -> bool {
    exists|query: QueryView, answer: Answer|
        {
            &&& #[trigger] asks(j, at, query, answer)
            &&& !suits(query, answer)
            &&& error == match answer {
                Answer::Failed(own) => own@,
                _ => misfit(),
            }
        }
}

/// A step read something else than a class in the place of one.
pub open spec fn class_missing(j: Seq<Step>, at: nat, error: ErrorView) -> bool {
    exists|global: JsView, name: Seq<char>|
        {
            &&& #[trigger] get_reply(j, at, global, name_key(name)) matches Some(Ok(found)) && !(
            found is Object)
            &&& {
                ||| name == "ReflectReference"@ && error == ErrorView::Invariant(NO_REFERENCE_CLASS@)
                ||| name == "StaticReflectReference"@ && error == ErrorView::Invariant(
                    NO_TOKEN_CLASS@,
                )
            }
        }
}

/// Between two positions, something went wrong with an error: last, a step of the engine failed with
/// it, the host application did not give what it was asked for, or a class was missing; or the error
/// occurs in a value that the host application made for a global.
pub open spec fn goes_wrong(error: ErrorView, j: Seq<Step>, lo: nat, hi: nat) -> bool {
    ||| lo < hi && engine_failed(j, (hi - 1) as nat, error)
    ||| lo < hi && host_failed(j, (hi - 1) as nat, error)
    ||| lo < hi && class_missing(j, (hi - 1) as nat, error)
    ||| exists|at: nat, name: Seq<char>, value: ScriptValue|
        {
            &&& lo <= at < hi
            &&& #[trigger] asks(j, at, QueryView::MakeGlobal { name }, Answer::Value(value))
            &&& fails_with(value, error)
        }
}

/// Finding the prototype of a class fails for a reason.
proof fn lemma_class_fails(
    name: Seq<char>,
    complaint: Seq<char>,
    j: Seq<Step>,
    p: nat,
    error: ErrorView,
    q: nat,
    lo: nat,
)
    requires
        class_run(name, complaint, j, p) == Some((Err::<Option<JsView>, ErrorView>(error), q)),
        name == "ReflectReference"@ && complaint == NO_REFERENCE_CLASS@ || name
            == "StaticReflectReference"@ && complaint == NO_TOKEN_CLASS@,
        lo <= p,
    ensures
        goes_wrong(error, j, lo, q),
{
    let global = global_reply(j, p)->Some_0;
    let found = get_reply(j, p + 1, global, name_key(name))->Some_0;
    if found is Ok && !(found->Ok_0 is Object) {
        assert(q == p + 2);
        assert(get_reply(j, (q - 1) as nat, global, name_key(name)) is Some);
        assert(class_missing(j, (q - 1) as nat, error));
    }
}

/// Binding a global to a type fails for a reason.
proof fn lemma_type_fails(
    name: Seq<char>,
    token: TypeId,
    j: Seq<Step>,
    p: nat,
    error: ErrorView,
    q: nat,
    lo: nat,
)
    requires
        bind_type_run(name, token, j, p) == Some((Err::<(), ErrorView>(error), q)),
        lo <= p,
    ensures
        goes_wrong(error, j, lo, q),
{
    let found = class_run("StaticReflectReference"@, NO_TOKEN_CLASS@, j, p)->Some_0.0;
    if found is Err {
        lemma_class_fails("StaticReflectReference"@, NO_TOKEN_CLASS@, j, p, error, q, lo);
    }
}

/// A question that the host application does not answer is a reason.
proof fn lemma_question_goes_wrong(
    query: QueryView,
    answer: Answer,
    j: Seq<Step>,
    p: nat,
    error: ErrorView,
    lo: nat,
)
    requires
        asks(j, p, query, answer),
        !suits(query, answer),
        error == match answer {
            Answer::Failed(own) => own@,
            _ => misfit(),
        },
        lo <= p,
    ensures
        goes_wrong(error, j, lo, p + 1),
{
    assert(asks(j, (p + 1 - 1) as nat, query, answer));
}

/// Binding globals of the host application fails for a reason.
proof fn lemma_globals_fail(
    globals: Seq<Global>,
    i: nat,
    j: Seq<Step>,
    p: nat,
    error: ErrorView,
    q: nat,
    lo: nat,
)
    requires
        globals_run(globals, i, j, p) == Some((Err::<(), ErrorView>(error), q)),
        lo <= p,
    ensures
        goes_wrong(error, j, lo, q),
    decreases globals.len() - i,
{
    if i < globals.len() {
        let (bound, r) = bind_global_run(globals[i as int], j, p)->Some_0;
        match globals[i as int] {
            Global::Made { name } => {
                let query = QueryView::MakeGlobal { name: name@ };
                let answer = host_reply(j, p, query)->Some_0;
                assert(asks(j, p, query, answer));
                let result = answer.spec_value();
                if result is Err {
                    lemma_question_goes_wrong(query, answer, j, p, error, lo);
                } else {
                    let value = result->Ok_0;
                    law_values_are_rendered(value, j, p + 1);
                    let rendered = into_js_run(value, j, p + 1)->Some_0.0;
                    if rendered is Err {
                        assert(lo <= p < q && asks(j, p, query, Answer::Value(value)));
                    }
                }
            },
            Global::Type { name, token } => {
                if bound is Err {
                    lemma_type_fails(name@, token, j, p, error, r, lo);
                }
            },
        }
        if bound is Ok {
            lemma_globals_fail(globals, i + 1, j, r, error, q, lo);
        }
    }
}

/// Binding functions of the host application fails for a reason.
proof fn lemma_functions_fail(
    functions: Seq<HostFunction>,
    i: nat,
    j: Seq<Step>,
    p: nat,
    error: ErrorView,
    q: nat,
    lo: nat,
)
    requires
        functions_run(functions, i, j, p) == Some((Err::<(), ErrorView>(error), q)),
        lo <= p,
    ensures
        goes_wrong(error, j, lo, q),
    decreases functions.len() - i,
{
    if i < functions.len() {
        let own = functions[i as int];
        if own.global {
            let value = ScriptValue::Function(FunctionRef::Host(own.function));
            law_values_are_rendered(value, j, p);
            let (bound, r) = bind_value_run(own.name@, value, j, p)->Some_0;
            if bound is Ok {
                lemma_functions_fail(functions, i + 1, j, r, error, q, lo);
            }
        } else {
            lemma_functions_fail(functions, i + 1, j, p, error, q, lo);
        }
    }
}

/// Mirroring what the host application has for scripts fails for nothing but a reason.
pub proof fn law_mirroring_fails_for_a_reason(
    world: TypeId,
    j: Seq<Step>,
    p: nat,
    error: ErrorView,
    q: nat,
)
    requires
        mirror_run(world, j, p) == Some((Err::<(), ErrorView>(error), q)),
    ensures
        goes_wrong(error, j, p, q),
{
    reveal(mirror_run);
    let answer = host_reply(j, p, QueryView::World)->Some_0;
    assert(asks(j, p, QueryView::World, answer));
    if answer.spec_done() is Err {
        lemma_question_goes_wrong(QueryView::World, answer, j, p, error, p);
    } else {
        let start = p + 1;
        let (bound, listed) = bind_type_run("world"@, world, j, start)->Some_0;
        if bound is Err {
            lemma_type_fails("world"@, world, j, start, error, q, p);
        } else {
            assert(listed >= start);
            let answer = host_reply(j, listed, QueryView::Globals)->Some_0;
            assert(asks(j, listed, QueryView::Globals, answer));
            if answer.spec_globals() is Err {
                lemma_question_goes_wrong(QueryView::Globals, answer, j, listed, error, p);
            } else {
                let globals = answer.spec_globals()->Ok_0;
                let (bound, counted) = globals_run(globals@, 0, j, listed + 1)->Some_0;
                if bound is Err {
                    lemma_globals_fail(globals@, 0, j, listed + 1, error, q, p);
                } else {
                    let none = Seq::<HostFunction>::empty();
                    lemma_globals_right(globals@, 0, j, listed + 1, counted, world, none, p);
                    let answer = host_reply(j, counted, QueryView::Functions)->Some_0;
                    assert(asks(j, counted, QueryView::Functions, answer));
                    if answer.spec_functions() is Err {
                        lemma_question_goes_wrong(
                            QueryView::Functions,
                            answer,
                            j,
                            counted,
                            error,
                            p,
                        );
                    } else {
                        let functions = answer.spec_functions()->Ok_0;
                        lemma_functions_fail(functions@, 0, j, counted + 1, error, q, p);
                    }
                }
            }
        }
    }
}

/// Telling a script what it is about fails for nothing but a reason.
pub proof fn law_telling_fails_for_a_reason(
    script_id: Seq<char>,
    j: Seq<Step>,
    p: nat,
    error: ErrorView,
    q: nat,
)
    requires
        call_globals_run(script_id, j, p) == Some((Err::<(), ErrorView>(error), q)),
    ensures
        goes_wrong(error, j, p, q),
{
    reveal(call_globals_run);
    let (found, at) = class_run("ReflectReference"@, NO_REFERENCE_CLASS@, j, p)->Some_0;
    if found is Err {
        lemma_class_fails("ReflectReference"@, NO_REFERENCE_CLASS@, j, p, error, q, p);
    } else {
        let answer = host_reply(j, at, QueryView::Entity)->Some_0;
        assert(asks(j, at, QueryView::Entity, answer));
        if answer.spec_reference() is Err {
            lemma_question_goes_wrong(QueryView::Entity, answer, j, at, error, p);
        }
    }
}

/// What the last of some steps failed with, when the classes of a virtual machine were set up: the
/// engine's text, or that `Symbol` is not what it has to be.
pub open spec fn set_up_fails(text: Seq<char>, j: Seq<Step>, at: nat) -> bool {
    at < j.len() && match j[at as int] {
        Step::Get { reply: Err(own), .. } => own == text,
        Step::Get { reply: Ok(found), key, .. } => {
            ||| key == name_key("Symbol"@) && !(found is Object) && text
                == "global Symbol is not an object"@
            ||| key == name_key("iterator"@) && !(found is Symbol) && text
                == "Symbol.iterator is not a symbol"@
        },
        Step::Put { reply: Err(own), .. } => own == text,
        Step::Define { reply: Err(own), .. } => own == text,
        _ => false,
    }
}

/// The classes could not be set up, for what the last step failed with.
pub open spec fn registering_fails(error: ErrorView, j: Seq<Step>, lo: nat, hi: nat) -> bool {
    lo < hi && exists|text: Seq<char>|
        {
            &&& #[trigger] set_up_fails(text, j, (hi - 1) as nat)
            &&& {
                let told = js_error_text(FailureView::General(text));
                ||| error == ErrorView::Invariant("install ReflectReference: "@ + told)
                ||| error == ErrorView::Invariant("install StaticReflectReference: "@ + told)
                ||| error == ErrorView::Invariant(text) && (j[hi - 1] matches Step::Define {
                    name,
                    ..
                } && name == "ReflectRef"@)
            }
        }
}

/// Adding a method fails for what the last step failed with.
proof fn lemma_method_fails(
    prototype: JsView,
    name: Seq<char>,
    native: Native,
    j: Seq<Step>,
    p: nat,
)
    ensures
        define_method_run(prototype, name, native, j, p) matches Some((Err(failure), q)) ==> q == p
            + 2 && failure is General && set_up_fails(failure->General_0, j, (q - 1) as nat),
        define_method_run(prototype, name, native, j, p) matches Some((Ok(_), q)) ==> q == p + 2,
{
}

/// Adding the methods of references fails for what the last step failed with.
proof fn lemma_methods_fail(prototype: JsView, j: Seq<Step>, p: nat)
    ensures
        reference_methods_run(prototype, j, p) matches Some((Err(failure), q)) ==> p < q
            && failure is General && set_up_fails(failure->General_0, j, (q - 1) as nat),
{
    reveal(reference_methods_run);
    lemma_method_fails(prototype, "get"@, Native::Get, j, p);
    lemma_method_fails(prototype, "set"@, Native::Put, j, p + 2);
    lemma_method_fails(prototype, "call"@, Native::Call, j, p + 4);
    lemma_method_fails(prototype, "method"@, Native::Method, j, p + 6);
    lemma_method_fails(prototype, "len"@, Native::Len, j, p + 8);
    lemma_method_fails(prototype, "toString"@, Native::Text, j, p + 10);
}

/// Registering the classes of a virtual machine fails for nothing but a reason.
pub proof fn law_registering_fails_for_a_reason(j: Seq<Step>, p: nat, error: ErrorView, q: nat)
    requires
        register_run(j, p) == Some((Err::<(), ErrorView>(error), q)),
    ensures
        registering_fails(error, j, p, q),
{
    reveal(register_run);
    reveal(install_reference_run);
    reveal(install_token_run);
    reveal(reference_constructor_run);
    law_registering_only_sets_up(j, p);
    let (prototype, from) = prototype_run(j, p)->Some_0;
    lemma_methods_fail(prototype, j, from);
    lemma_methods_set_up(prototype, j, from);
    let (installed, start) = install_reference_run(j, p)->Some_0;
    if installed is Err {
        let text = installed->Err_0->General_0;
        assert(set_up_fails(text, j, (q - 1) as nat));
    } else {
        let (made, end) = install_token_run(j, start)->Some_0;
        let token_prototype = object_reply(j, start)->Some_0;
        lemma_method_fails(token_prototype, "fn"@, Native::TokenFn, j, start + 1);
        lemma_method_fails(token_prototype, "call"@, Native::TokenCall, j, start + 3);
        lemma_constructor_sets_up(
            prototype,
            j,
            reference_methods_run(prototype, j, from)->Some_0.1,
        );
        if made is Err {
            let text = made->Err_0->General_0;
            assert(set_up_fails(text, j, (q - 1) as nat));
        } else {
            let text = error->Invariant_0;
            assert(set_up_fails(text, j, (q - 1) as nat));
        }
    }
}

/// Loading a script fails for nothing but a reason: the classes could not be set up, something went
/// wrong while it was told what it is about or what the host application has for it was mirrored, or
/// the script failed when it was evaluated.
pub proof fn law_loading_fails_for_a_reason(
    script_id: Seq<char>,
    source: Seq<u8>,
    world: TypeId,
    j: Seq<Step>,
    p: nat,
    error: ErrorView,
    q: nat,
)
    requires
        load_run(script_id, source, world, j, p) == Some((Err::<(), ErrorView>(error), q)),
    ensures
        registering_fails(error, j, p, q) || (exists|from: nat|
            p <= from <= q && #[trigger] goes_wrong(error, j, from, q)) || (p < q && (eval_reply(
            j,
            (q - 1) as nat,
            source,
        ) matches Some(Err(text)) && error == ErrorView::Invariant("eval: "@ + text))),
{
    law_registering_only_sets_up(j, p);
    let (registered, from) = register_run(j, p)->Some_0;
    if registered is Err {
        law_registering_fails_for_a_reason(j, p, error, q);
    } else {
        let (told, start) = call_globals_run(script_id, j, from)->Some_0;
        if told is Err {
            law_telling_fails_for_a_reason(script_id, j, from, error, q);
            assert(from <= q) by {
                lemma_call_globals_define(script_id, j, from);
            }
            assert(goes_wrong(error, j, from, q));
        } else {
            lemma_call_globals(script_id, j, from, start);
            let (mirrored, end) = mirror_run(world, j, start)->Some_0;
            if mirrored is Err {
                law_mirroring_fails_for_a_reason(world, j, start, error, q);
                assert(goes_wrong(error, j, start, q));
            } else {
                law_globals_are_bound_right(world, j, start, end);
            }
        }
    }
}

/// Handling an event fails for nothing but a reason: something went wrong while the script was told
/// what the event is about, or the call of its function failed.
pub proof fn law_handling_fails_for_a_reason(
    arguments: Seq<ScriptValue>,
    script_id: Seq<char>,
    label: Seq<char>,
    j: Seq<Step>,
    p: nat,
    error: ErrorView,
    q: nat,
)
    requires
        handler_run(arguments, script_id, label, j, p) == Some(
            (Err::<ScriptView, ErrorView>(error), q),
        ),
    ensures
        goes_wrong(error, j, p, q) || exists|global: JsView, function: JsView|
            {
                &&& #[trigger] looks_for(j, p + 7, label, global, Ok(function))
                &&& function is Object
                &&& call_fails(function, arguments, error, j, p + 9, q)
            },
{
    let (told, start) = call_globals_run(script_id, j, p)->Some_0;
    if told is Err {
        law_telling_fails_for_a_reason(script_id, j, p, error, q);
    } else {
        law_script_is_told_right(script_id, j, p, start);
        law_callback_fails_for_a_reason(label, arguments, j, start, error, q);
    }
}

} // verus!
