//! Arguments that stand for components.
use crate::calls::value_run;
use crate::dialogue::asks;
use crate::from_js::value_view;
use crate::host::{misfit, outcome, Answer, CallTarget, Query, QueryView, TailType};
use crate::session::{and_then, extends, host_reply, replays, resumes, same_vm, Session, Step};
use crate::text::same_text;
use crate::value::{
    list_view, ErrorView, FunctionRef, HostType, InteropError, ReflectReference, ScriptValue,
    ScriptView,
};
use boa_engine::Context;
use vstd::prelude::*;

verus! {

broadcast use crate::session::lemma_extends_earlier;

/// The methods of a query builder that take components.
pub open spec fn takes_components(name: Seq<char>) -> bool {
    ||| name == "component"@
    ||| name == "components"@
    ||| name == "with_component"@
    ||| name == "with_components"@
    ||| name == "without_component"@
    ||| name == "without_components"@
}

/// Whether a method of a query builder takes components.
pub fn is_qb_componentish_method(name: &str) -> (componentish: bool)
    ensures
        componentish == takes_components(name@),
{
    same_text(name, "component") || same_text(name, "components") || same_text(
        name,
        "with_component",
    ) || same_text(name, "with_components") || same_text(name, "without_component") || same_text(
        name,
        "without_components",
    )
}

/// Asking for the type at the end of a reference's path.
pub open spec fn tail_run(reference: ReflectReference, j: Seq<Step>, p: nat) -> Option<
    (Result<TailType, ErrorView>, nat),
> {
    match host_reply(j, p, QueryView::TailType(reference)) {
        None => None,
        Some(answer) => Some((answer.spec_tail(), p + 1)),
    }
}

/// Asking whether a value is a reference to the registration of a component.
pub open spec fn component_run(value: ScriptValue, j: Seq<Step>, p: nat) -> Option<
    (Result<bool, ErrorView>, nat),
> {
    match value {
        ScriptValue::Reference(reference) => and_then(
            tail_run(reference, j, p),
            |tail: TailType, p: nat| Some((Ok(tail == TailType::Component), p)),
        ),
        _ => Some((Ok(false), p)),
    }
}

/// Whether a value is a reference to the registration of a component.
fn is_component<H: Fn(Query) -> Answer + Copy + 'static>(
    value: &ScriptValue,
    session: &mut Session<H>,
) -> (result: Result<bool, InteropError>)
    requires
        old(session).served(),
    ensures
        final(session).stays(*old(session)),
        replays(
            |j: Seq<Step>, p: nat| component_run(*value, j, p),
            old(session).journal(),
            final(session).journal(),
            outcome(result),
        ),
{
    match value {
        ScriptValue::Reference(reference) => match session.ask(Query::TailType(*reference)).tail() {
            Ok(tail) => Ok(tail == TailType::Component),
            Err(error) => Err(error),
        },
        _ => Ok(false),
    }
}

/// Converting the registration of a type into that of a component.
pub open spec fn as_component(reference: ReflectReference) -> QueryView {
    QueryView::CallOverloads {
        on: CallTarget::Named(HostType::TypeRegistration),
        name: "as_component"@,
        arguments: seq![ScriptView::Reference(reference)],
    }
}

/// Converts the registration of a type into that of a component.
fn convert_registration<H: Fn(Query) -> Answer + Copy + 'static>(
    reference: ReflectReference,
    context: &mut Context,
    session: &mut Session<H>,
) -> (result: Result<ScriptValue, InteropError>)
    requires
        old(session).ready(*old(context)),
    ensures
        final(session).follows(*old(session)),
        final(session).attached(*final(context)),
        same_vm(*old(context), *final(context)),
        replays(
            |j: Seq<Step>, p: nat| value_run(as_component(reference), j, p),
            old(session).journal(),
            final(session).journal(),
            outcome(result),
        ),
{
    let mut arguments: Vec<ScriptValue> = Vec::new();
    arguments.push(ScriptValue::Reference(reference));
    assert(list_view(arguments@) == seq![ScriptView::Reference(reference)]);
    session.consult(
        Query::CallOverloads {
            on: CallTarget::Named(HostType::TypeRegistration),
            name: "as_component".to_owned(),
            arguments,
        },
        context,
    ).value()
}

/// Calling a function of the world on a name.
pub open spec fn call_by_name(function: u64, name: Seq<char>) -> QueryView {
    QueryView::Invoke {
        function: FunctionRef::Host(function),
        arguments: seq![ScriptView::String(name)],
    }
}

/// Calls a function of the world on a name.
fn invoke_on_name<H: Fn(Query) -> Answer + Copy + 'static>(
    function: u64,
    name: &String,
    context: &mut Context,
    session: &mut Session<H>,
) -> (result: Result<ScriptValue, InteropError>)
    requires
        old(session).ready(*old(context)),
    ensures
        final(session).follows(*old(session)),
        final(session).attached(*final(context)),
        same_vm(*old(context), *final(context)),
        replays(
            |j: Seq<Step>, p: nat| value_run(call_by_name(function, name@), j, p),
            old(session).journal(),
            final(session).journal(),
            outcome(result),
        ),
{
    let mut arguments: Vec<ScriptValue> = Vec::new();
    arguments.push(ScriptValue::String(name.clone()));
    assert(list_view(arguments@) == seq![ScriptView::String(name@)]);
    session.consult(
        Query::Invoke { function: FunctionRef::Host(function), arguments },
        context,
    ).value()
}

/// Resolving a reference: the registration of a type becomes that of its component.
pub open spec fn resolve_reference_run(reference: ReflectReference, j: Seq<Step>, p: nat) -> Option<
    (Result<ScriptView, ErrorView>, nat),
> {
    and_then(
        tail_run(reference, j, p),
        |tail: TailType, p: nat|
            if tail == TailType::Registration {
                and_then(
                    value_run(as_component(reference), j, p),
                    |value: ScriptValue, p: nat|
                        and_then(
                            component_run(value, j, p),
                            |component: bool, p: nat|
                                if component {
                                    Some((Ok(value@), p))
                                } else {
                                    Some(
                                        (
                                            Err(
                                                ErrorView::TypeMismatch {
                                                    expected: HostType::ComponentRegistration,
                                                    got: Some(HostType::TypeRegistration),
                                                },
                                            ),
                                            p,
                                        ),
                                    )
                                },
                        ),
                )
            } else {
                Some((Ok(ScriptView::Reference(reference)), p))
            },
    )
}

/// Resolves a reference.
fn resolve_reference<H: Fn(Query) -> Answer + Copy + 'static>(
    reference: ReflectReference,
    context: &mut Context,
    session: &mut Session<H>,
) -> (result: Result<ScriptValue, InteropError>)
    requires
        old(session).ready(*old(context)),
    ensures
        final(session).follows(*old(session)),
        final(session).attached(*final(context)),
        same_vm(*old(context), *final(context)),
        replays(
            |j: Seq<Step>, p: nat| resolve_reference_run(reference, j, p),
            old(session).journal(),
            final(session).journal(),
            value_view(result),
        ),
{
    match session.ask(Query::TailType(reference)).tail()? {
        TailType::Component => Ok(ScriptValue::Reference(reference)),
        TailType::Registration => {
            let value = convert_registration(reference, context, session)?;
            if is_component(&value, session)? {
                Ok(value)
            } else {
                Err(
                    InteropError::TypeMismatch {
                        expected: HostType::ComponentRegistration,
                        got: Some(HostType::TypeRegistration),
                    },
                )
            }
        },
        _ => Ok(ScriptValue::Reference(reference)),
    }
}

/// Looking for a function of the world.
pub open spec fn lookup_run(on: HostType, name: Seq<char>, j: Seq<Step>, p: nat) -> Option<
    (Result<u64, Seq<char>>, nat),
> {
    match host_reply(j, p, QueryView::Lookup { on, name }) {
        None => None,
        Some(answer) => Some((answer.spec_found(), p + 1)),
    }
}

/// The error of a name that stands for no component.
pub open spec fn no_component() -> ErrorView {
    ErrorView::TypeMismatch { expected: HostType::ComponentRegistration, got: None }
}

/// Resolving the reference that the type lookup gave for a name.
pub open spec fn resolve_type_run(reference: ReflectReference, j: Seq<Step>, p: nat) -> Option<
    (Result<ScriptView, ErrorView>, nat),
> {
    and_then(
        tail_run(reference, j, p),
        |tail: TailType, p: nat|
            if tail == TailType::Component {
                Some((Ok(ScriptView::Reference(reference)), p))
            } else {
                and_then(
                    tail_run(reference, j, p),
                    |tail: TailType, p: nat|
                        if tail == TailType::Registration {
                            and_then(
                                value_run(as_component(reference), j, p),
                                |value: ScriptValue, p: nat|
                                    and_then(
                                        component_run(value, j, p),
                                        |component: bool, p: nat|
                                            if component {
                                                Some((Ok(value@), p))
                                            } else {
                                                Some((Err(no_component()), p))
                                            },
                                    ),
                            )
                        } else {
                            Some((Err(no_component()), p))
                        },
                )
            },
    )
}

/// Resolves the reference that the type lookup gave for a name.
fn resolve_type<H: Fn(Query) -> Answer + Copy + 'static>(
    reference: ReflectReference,
    context: &mut Context,
    session: &mut Session<H>,
) -> (result: Result<ScriptValue, InteropError>)
    requires
        old(session).ready(*old(context)),
    ensures
        final(session).follows(*old(session)),
        final(session).attached(*final(context)),
        same_vm(*old(context), *final(context)),
        replays(
            |j: Seq<Step>, p: nat| resolve_type_run(reference, j, p),
            old(session).journal(),
            final(session).journal(),
            value_view(result),
        ),
{
    if session.ask(Query::TailType(reference)).tail()? == TailType::Component {
        return Ok(ScriptValue::Reference(reference));
    }
    if session.ask(Query::TailType(reference)).tail()? == TailType::Registration {
        let value = convert_registration(reference, context, session)?;
        if is_component(&value, session)? {
            return Ok(value);
        }
    }
    Err(InteropError::TypeMismatch { expected: HostType::ComponentRegistration, got: None })
}

/// Resolving a name by the type of that name.
pub open spec fn resolve_by_type_run(name: Seq<char>, j: Seq<Step>, p: nat) -> Option<
    (Result<ScriptView, ErrorView>, nat),
> {
    match lookup_run(HostType::World, "get_type_by_name"@, j, p) {
        None => None,
        Some((Err(_), p)) => Some(
            (
                Err(
                    ErrorView::MissingFunction {
                        on: HostType::World,
                        name: "get_type_by_name"@,
                    },
                ),
                p,
            ),
        ),
        Some((Ok(function), p)) => and_then(
            value_run(call_by_name(function, name), j, p),
            |value: ScriptValue, p: nat|
                match value {
                    ScriptValue::Reference(reference) => resolve_type_run(reference, j, p),
                    _ => Some((Err(no_component()), p)),
                },
        ),
    }
}

/// Resolves a name by the type of that name.
fn resolve_by_type<H: Fn(Query) -> Answer + Copy + 'static>(
    name: &String,
    context: &mut Context,
    session: &mut Session<H>,
) -> (result: Result<ScriptValue, InteropError>)
    requires
        old(session).ready(*old(context)),
    ensures
        final(session).follows(*old(session)),
        final(session).attached(*final(context)),
        same_vm(*old(context), *final(context)),
        replays(
            |j: Seq<Step>, p: nat| resolve_by_type_run(name@, j, p),
            old(session).journal(),
            final(session).journal(),
            value_view(result),
        ),
{
    let lookup = Query::Lookup { on: HostType::World, name: "get_type_by_name".to_owned() };
    let function: u64 = match session.ask(lookup).found() {
        Ok(function) => function,
        Err(_) => {
            return Err(
                InteropError::MissingFunction {
                    on: HostType::World,
                    name: "get_type_by_name".to_owned(),
                },
            );
        },
    };
    match invoke_on_name(function, name, context, session)? {
        ScriptValue::Reference(reference) => resolve_type(reference, context, session),
        _ => Err(
            InteropError::TypeMismatch { expected: HostType::ComponentRegistration, got: None },
        ),
    }
}

/// Resolving a name: the component of that name, or else the component of the type of that name.
pub open spec fn resolve_name_run(name: Seq<char>, j: Seq<Step>, p: nat) -> Option<
    (Result<ScriptView, ErrorView>, nat),
> {
    match lookup_run(HostType::World, "get_component_by_name"@, j, p) {
        None => None,
        Some((Err(_), p)) => resolve_by_type_run(name, j, p),
        Some((Ok(function), p)) => and_then(
            value_run(call_by_name(function, name), j, p),
            |value: ScriptValue, p: nat|
                and_then(
                    component_run(value, j, p),
                    |component: bool, p: nat|
                        if component {
                            Some((Ok(value@), p))
                        } else {
                            resolve_by_type_run(name, j, p)
                        },
                ),
        ),
    }
}

/// Resolves a name.
fn resolve_name<H: Fn(Query) -> Answer + Copy + 'static>(
    name: &String,
    context: &mut Context,
    session: &mut Session<H>,
) -> (result: Result<ScriptValue, InteropError>)
    requires
        old(session).ready(*old(context)),
    ensures
        final(session).follows(*old(session)),
        final(session).attached(*final(context)),
        same_vm(*old(context), *final(context)),
        replays(
            |j: Seq<Step>, p: nat| resolve_name_run(name@, j, p),
            old(session).journal(),
            final(session).journal(),
            value_view(result),
        ),
{
    let lookup = Query::Lookup { on: HostType::World, name: "get_component_by_name".to_owned() };
    match session.ask(lookup).found() {
        Ok(function) => {
            let value = invoke_on_name(function, name, context, session)?;
            if is_component(&value, session)? {
                Ok(value)
            } else {
                resolve_by_type(name, context, session)
            }
        },
        Err(_) => resolve_by_type(name, context, session),
    }
}

/// Resolving an argument into the registration of a component where it stands for one.
pub open spec fn resolve_run(value: ScriptView, j: Seq<Step>, p: nat) -> Option<
    (Result<ScriptView, ErrorView>, nat),
>
    decreases value, 0nat,
{
    match value {
        ScriptView::List(values) => match resolve_all_run(values, 0, Seq::empty(), j, p) {
            None => None,
            Some((Err(error), q)) => Some((Err(error), q)),
            Some((Ok(resolved), q)) => Some((Ok(ScriptView::List(resolved)), q)),
        },
        ScriptView::Reference(reference) => resolve_reference_run(reference, j, p),
        ScriptView::String(name) => resolve_name_run(name, j, p),
        _ => Some((Ok(value), p)),
    }
}

/// Resolving arguments from an index on, after those before it.
pub open spec fn resolve_all_run(
    values: Seq<ScriptView>,
    i: nat,
    done: Seq<ScriptView>,
    j: Seq<Step>,
    p: nat,
) -> Option<(Result<Seq<ScriptView>, ErrorView>, nat)>
    decreases values, values.len() - i,
{
    if i >= values.len() {
        Some((Ok(done), p))
    } else {
        match resolve_run(values[i as int], j, p) {
            None => None,
            Some((Err(error), q)) => Some((Err(error), q)),
            Some((Ok(value), q)) => resolve_all_run(values, i + 1, done.push(value), j, q),
        }
    }
}

/// The result of resolving arguments as contracts see it.
pub open spec fn resolved_view(result: Result<Vec<ScriptValue>, InteropError>) -> Result<
    Seq<ScriptView>,
    ErrorView,
> {
    match result {
        Ok(values) => Ok(list_view(values@)),
        Err(error) => Err(error@),
    }
}

/// Resolves an argument into the registration of a component where it stands for one: a name, the
/// registration of a type, or a list of these. Anything else is left as it is.
pub fn resolve_componentish_arg<H: Fn(Query) -> Answer + Copy + 'static>(
    value: &ScriptValue,
    context: &mut Context,
    session: &mut Session<H>,
) -> (result: Result<ScriptValue, InteropError>)
    requires
        old(session).ready(*old(context)),
    ensures
        final(session).follows(*old(session)),
        final(session).attached(*final(context)),
        same_vm(*old(context), *final(context)),
        replays(
            |j: Seq<Step>, p: nat| resolve_run(value@, j, p),
            old(session).journal(),
            final(session).journal(),
            value_view(result),
        ),
    decreases value, 0nat,
{
    match value {
        ScriptValue::List(values) => match resolve_all(values, context, session) {
            Ok(resolved) => Ok(ScriptValue::List(resolved)),
            Err(error) => Err(error),
        },
        ScriptValue::Reference(reference) => resolve_reference(*reference, context, session),
        ScriptValue::String(name) => resolve_name(name, context, session),
        _ => Ok(value.clone()),
    }
}

/// Resolves arguments.
pub(crate) fn resolve_all<H: Fn(Query) -> Answer + Copy + 'static>(
    values: &Vec<ScriptValue>,
    context: &mut Context,
    session: &mut Session<H>,
) -> (result: Result<Vec<ScriptValue>, InteropError>)
    requires
        old(session).ready(*old(context)),
    ensures
        final(session).follows(*old(session)),
        final(session).attached(*final(context)),
        same_vm(*old(context), *final(context)),
        replays(
            |j: Seq<Step>, p: nat| resolve_all_run(list_view(values@), 0, Seq::empty(), j, p),
            old(session).journal(),
            final(session).journal(),
            resolved_view(result),
        ),
    decreases values, 0nat,
{
    let ghost views = list_view(values@);
    let mut resolved: Vec<ScriptValue> = Vec::new();
    let mut i: usize = 0;
    assert(list_view(resolved@) == Seq::<ScriptView>::empty());
    while i < values.len()
        invariant
            session.ready(*context),
            same_vm(*old(context), *context),
            session.follows(*old(session)),
            i <= values@.len(),
            views == list_view(values@),
            resumes(
                |j: Seq<Step>, p: nat| resolve_all_run(views, 0, Seq::empty(), j, p),
                |j: Seq<Step>, p: nat| resolve_all_run(views, i as nat, list_view(resolved@), j, p),
                old(session).journal(),
                session.journal(),
            ),
        decreases values@.len() - i,
    {
        let ghost journal = session.journal();
        let ghost done = list_view(resolved@);
        let result = resolve_componentish_arg(&values[i], context, session);
        assert forall|j: Seq<Step>| #[trigger] extends(j, session.journal()) implies resolve_all_run(
            views,
            0,
            Seq::empty(),
            j,
            old(session).journal().len(),
        ) == match value_view(result) {
            Err(error) => Some((Err(error), session.journal().len())),
            Ok(value) => resolve_all_run(
                views,
                (i + 1) as nat,
                done.push(value),
                j,
                session.journal().len(),
            ),
        } by {
            assert(extends(j, journal));
        }
        match result {
            Err(error) => {
                return Err(error);
            },
            Ok(value) => {
                resolved.push(value);
                assert(list_view(resolved@) == done.push(value@));
            },
        }
        i = i + 1;
    }
    Ok(resolved)
}

/// The host application said in a step that a reference is one to the registration of a component.
pub open spec fn confirmed(j: Seq<Step>, at: nat, reference: ReflectReference) -> bool {
    host_reply(j, at, QueryView::TailType(reference)) matches Some(answer) && answer.spec_tail()
        == Ok::<TailType, ErrorView>(TailType::Component)
}

/// What a name is resolved into is a reference of which the host application said last that it is
/// one to the registration of a component.
pub proof fn law_resolved_name_is_component(
    name: Seq<char>,
    j: Seq<Step>,
    p: nat,
    value: ScriptView,
    q: nat,
)
    requires
        resolve_run(ScriptView::String(name), j, p) == Some((Ok::<ScriptView, ErrorView>(value), q)),
    ensures
        p < q,
        value matches ScriptView::Reference(reference) && confirmed(j, (q - 1) as nat, reference),
{
}

/// What a reference is resolved into is that reference, or a reference of which the host
/// application said last that it is one to the registration of a component.
pub proof fn law_resolved_reference_is_component(
    reference: ReflectReference,
    j: Seq<Step>,
    p: nat,
    value: ScriptView,
    q: nat,
)
    requires
        resolve_run(ScriptView::Reference(reference), j, p) == Some(
            (Ok::<ScriptView, ErrorView>(value), q),
        ),
    ensures
        p < q,
        value == ScriptView::Reference(reference) || (value matches ScriptView::Reference(found)
            && confirmed(j, (q - 1) as nat, found)),
{
}

/// A value in which no list, no reference and no text occurs.
pub open spec fn unresolvable(value: ScriptView) -> bool {
    !(value is List) && !(value is Reference) && !(value is String)
}

/// Other arguments than lists, references and texts are left as they are, without a question to
/// the host application, alone and in a list.
pub proof fn law_other_arguments_are_left(values: Seq<ScriptView>, j: Seq<Step>, p: nat)
    requires
        forall|i: int| 0 <= i < values.len() ==> unresolvable(#[trigger] values[i]),
    ensures
        forall|i: int|
            0 <= i < values.len() ==> resolve_run(#[trigger] values[i], j, p) == Some(
                (Ok::<ScriptView, ErrorView>(values[i]), p),
            ),
        resolve_run(ScriptView::List(values), j, p) == Some(
            (Ok::<ScriptView, ErrorView>(ScriptView::List(values)), p),
        ),
{
    lemma_rest_is_left(values, 0, j, p);
    assert(values.take(0) == Seq::<ScriptView>::empty());
}

/// The rest of a list without lists, references and texts is left as it is.
proof fn lemma_rest_is_left(values: Seq<ScriptView>, i: nat, j: Seq<Step>, p: nat)
    requires
        forall|k: int| 0 <= k < values.len() ==> unresolvable(#[trigger] values[k]),
        i <= values.len(),
    ensures
        resolve_all_run(values, i, values.take(i as int), j, p) == Some(
            (Ok::<Seq<ScriptView>, ErrorView>(values), p),
        ),
    decreases values.len() - i,
{
    if i < values.len() {
        lemma_rest_is_left(values, i + 1, j, p);
        assert(unresolvable(values[i as int]));
        assert(resolve_run(values[i as int], j, p) == Some(
            (Ok::<ScriptView, ErrorView>(values[i as int]), p),
        ));
        assert(values.take(i as int).push(values[i as int]) == values.take((i + 1) as int));
    } else {
        assert(values.take(i as int) == values);
    }
}

/// The host application says between two positions of a journal which types are at the ends of the paths
/// of references, always the same.
pub open spec fn tells_tails(
    tails: spec_fn(ReflectReference) -> TailType,
    j: Seq<Step>,
    p: nat,
    q: nat,
) -> bool {
    forall|at: int|
        p <= at < q ==> (#[trigger] j[at] matches Step::Ask {
            query: QueryView::TailType(reference),
            answer,
            ..
        } ==> answer.spec_tail() == Ok::<TailType, ErrorView>(tails(reference)))
}

/// A value stands for no component that it is not: it holds no texts, and no references to
/// registrations of types.
pub open spec fn is_resolved(value: ScriptView, tails: spec_fn(ReflectReference) -> TailType) -> bool
    decreases value,
{
    match value {
        ScriptView::List(values) => forall|i: int|
            0 <= i < values.len() ==> is_resolved(#[trigger] values[i], tails),
        ScriptView::Reference(reference) => tails(reference) != TailType::Registration,
        ScriptView::String(_) => false,
        _ => true,
    }
}

/// Resolving never goes back in the journal.
proof fn lemma_resolving_goes_on(value: ScriptView, j: Seq<Step>, p: nat)
    ensures
        resolve_run(value, j, p) matches Some((_, q)) ==> p <= q,
    decreases value, 0nat,
{
    if let ScriptView::List(values) = value {
        lemma_resolving_all_goes_on(values, 0, Seq::empty(), j, p);
    }
}

/// Resolving arguments never goes back in the journal.
proof fn lemma_resolving_all_goes_on(
    values: Seq<ScriptView>,
    i: nat,
    done: Seq<ScriptView>,
    j: Seq<Step>,
    p: nat,
)
    ensures
        resolve_all_run(values, i, done, j, p) matches Some((_, q)) ==> p <= q,
    decreases values, values.len() - i,
{
    if i < values.len() {
        lemma_resolving_goes_on(values[i as int], j, p);
        if let Some((Ok(value), q)) = resolve_run(values[i as int], j, p) {
            lemma_resolving_all_goes_on(values, i + 1, done.push(value), j, q);
        }
    }
}

/// What a value is resolved into is resolved.
proof fn lemma_is_resolved(
    value: ScriptView,
    tails: spec_fn(ReflectReference) -> TailType,
    j: Seq<Step>,
    p: nat,
    resolved: ScriptView,
    q: nat,
)
    requires
        resolve_run(value, j, p) == Some((Ok::<ScriptView, ErrorView>(resolved), q)),
        tells_tails(tails, j, p, q),
    ensures
        is_resolved(resolved, tails),
    decreases value, 0nat,
{
    match value {
        ScriptView::List(values) => {
            let list = resolve_all_run(values, 0, Seq::empty(), j, p)->Some_0.0->Ok_0;
            lemma_all_are_resolved(values, 0, Seq::empty(), tails, j, p, list, q);
        },
        ScriptView::Reference(reference) => {
            law_resolved_reference_is_component(reference, j, p, resolved, q);
        },
        ScriptView::String(name) => {
            law_resolved_name_is_component(name, j, p, resolved, q);
        },
        _ => {},
    }
}

/// What arguments are resolved into is resolved.
proof fn lemma_all_are_resolved(
    values: Seq<ScriptView>,
    i: nat,
    done: Seq<ScriptView>,
    tails: spec_fn(ReflectReference) -> TailType,
    j: Seq<Step>,
    p: nat,
    resolved: Seq<ScriptView>,
    q: nat,
)
    requires
        resolve_all_run(values, i, done, j, p) == Some(
            (Ok::<Seq<ScriptView>, ErrorView>(resolved), q),
        ),
        tells_tails(tails, j, p, q),
        forall|k: int| 0 <= k < done.len() ==> is_resolved(#[trigger] done[k], tails),
    ensures
        forall|k: int| 0 <= k < resolved.len() ==> is_resolved(#[trigger] resolved[k], tails),
    decreases values, values.len() - i,
{
    if i < values.len() {
        let (value, r) = resolve_run(values[i as int], j, p)->Some_0;
        let more = done.push(value->Ok_0);
        lemma_resolving_goes_on(values[i as int], j, p);
        lemma_resolving_all_goes_on(values, i + 1, more, j, r);
        lemma_is_resolved(values[i as int], tails, j, p, value->Ok_0, r);
        lemma_all_are_resolved(values, i + 1, more, tails, j, r, resolved, q);
    }
}

/// What is resolved is left alone.
proof fn lemma_resolved_is_left(
    value: ScriptView,
    tails: spec_fn(ReflectReference) -> TailType,
    j: Seq<Step>,
    p: nat,
    result: Result<ScriptView, ErrorView>,
    q: nat,
)
    requires
        is_resolved(value, tails),
        resolve_run(value, j, p) == Some((result, q)),
        tells_tails(tails, j, p, q),
    ensures
        result == Ok::<ScriptView, ErrorView>(value),
    decreases value, 0nat,
{
    match value {
        ScriptView::List(values) => {
            let list = resolve_all_run(values, 0, Seq::empty(), j, p)->Some_0.0;
            assert(values.take(0) == Seq::<ScriptView>::empty());
            lemma_resolved_rest_is_left(values, 0, tails, j, p, list, q);
        },
        ScriptView::Reference(reference) => {
            assert(j[p as int] is Ask);
        },
        _ => {},
    }
}

/// The rest of a list that is resolved is left alone.
proof fn lemma_resolved_rest_is_left(
    values: Seq<ScriptView>,
    i: nat,
    tails: spec_fn(ReflectReference) -> TailType,
    j: Seq<Step>,
    p: nat,
    result: Result<Seq<ScriptView>, ErrorView>,
    q: nat,
)
    requires
        forall|k: int| 0 <= k < values.len() ==> is_resolved(#[trigger] values[k], tails),
        i <= values.len(),
        resolve_all_run(values, i, values.take(i as int), j, p) == Some((result, q)),
        tells_tails(tails, j, p, q),
    ensures
        result == Ok::<Seq<ScriptView>, ErrorView>(values),
    decreases values, values.len() - i,
{
    if i < values.len() {
        let (value, r) = resolve_run(values[i as int], j, p)->Some_0;
        lemma_resolving_goes_on(values[i as int], j, p);
        if value is Ok {
            let more = values.take(i as int).push(value->Ok_0);
            lemma_resolving_all_goes_on(values, i + 1, more, j, r);
        }
        lemma_resolved_is_left(values[i as int], tails, j, p, value, r);
        assert(values.take(i as int).push(values[i as int]) == values.take((i + 1) as int));
        lemma_resolved_rest_is_left(values, i + 1, tails, j, r, result, q);
    } else {
        assert(values.take(i as int) == values);
    }
}

/// What an argument was resolved into is left alone the second time, through lists too, as long as the
/// types at the ends of the paths of references do not change.
pub proof fn law_resolving_twice_changes_nothing(
    value: ScriptView,
    tails: spec_fn(ReflectReference) -> TailType,
    j: Seq<Step>,
    p: nat,
    resolved: ScriptView,
    q: nat,
    later: Seq<Step>,
    from: nat,
    result: Result<ScriptView, ErrorView>,
    to: nat,
)
    requires
        resolve_run(value, j, p) == Some((Ok::<ScriptView, ErrorView>(resolved), q)),
        tells_tails(tails, j, p, q),
        resolve_run(resolved, later, from) == Some((result, to)),
        tells_tails(tails, later, from, to),
    ensures
        result == Ok::<ScriptView, ErrorView>(resolved),
{
    lemma_is_resolved(value, tails, j, p, resolved, q);
    lemma_resolved_is_left(resolved, tails, later, from, result, to);
}

/// The host application gave a reference when a function of the world was called on a name: the one that
/// finds components, or the one that finds types.
pub open spec fn gives_for_name(
    j: Seq<Step>,
    at: nat,
    finder: Seq<char>,
    name: Seq<char>,
    found: ReflectReference,
) -> bool {
    at > 0 && exists|function: u64|
        {
            &&& #[trigger] asks(
                j,
                (at - 1) as nat,
                QueryView::Lookup { on: HostType::World, name: finder },
                Answer::Function(function),
            )
            &&& asks(
                j,
                at,
                QueryView::Invoke {
                    function: FunctionRef::Host(function),
                    arguments: seq![ScriptView::String(name)],
                },
                Answer::Value(ScriptValue::Reference(found)),
            )
        }
}

/// The host application gave the registration of a component for the registration of a type.
pub open spec fn gives_for_type(
    j: Seq<Step>,
    at: nat,
    found: ReflectReference,
    component: ReflectReference,
) -> bool {
    asks(
        j,
        at,
        QueryView::CallOverloads {
            on: CallTarget::Named(HostType::TypeRegistration),
            name: "as_component"@,
            arguments: seq![ScriptView::Reference(found)],
        },
        Answer::Value(ScriptValue::Reference(component)),
    )
}

/// The host application said which type is at the end of the path of a reference.
pub open spec fn has_tail(j: Seq<Step>, at: nat, reference: ReflectReference, tail: TailType) -> bool {
    asks(j, at, QueryView::TailType(reference), Answer::Tail(tail))
}

/// The component that the host application gave for a name at once, if it has a function that finds
/// components by name and what that gave is one.
pub open spec fn first_choice(
    name: Seq<char>,
    j: Seq<Step>,
    lo: nat,
    first: Option<ReflectReference>,
) -> bool {
    exists|answer: Answer|
        {
            &&& #[trigger] asks(
                j,
                lo,
                QueryView::Lookup { on: HostType::World, name: "get_component_by_name"@ },
                answer,
            )
            &&& match answer {
                Answer::Function(function) => exists|value: ScriptValue|
                    {
                        &&& #[trigger] asks(
                            j,
                            lo + 1,
                            QueryView::Invoke {
                                function: FunctionRef::Host(function),
                                arguments: seq![ScriptView::String(name)],
                            },
                            Answer::Value(value),
                        )
                        &&& first == match value {
                            ScriptValue::Reference(own) => if has_tail(
                                j,
                                lo + 2,
                                own,
                                TailType::Component,
                            ) {
                                Some(own)
                            } else {
                                None
                            },
                            _ => None,
                        }
                    },
                _ => first is None,
            }
        }
}

/// Between two positions, the host application gave a type for a name, which is a component or was
/// turned into one.
pub open spec fn names_type(
    name: Seq<char>,
    component: ReflectReference,
    j: Seq<Step>,
    lo: nat,
    hi: nat,
) -> bool {
    exists|at: nat, found: ReflectReference|
        {
            &&& lo < at < hi
            &&& #[trigger] gives_for_name(j, at, "get_type_by_name"@, name, found)
            &&& found == component || turns_into(found, component, j, lo, hi)
        }
}

/// Between two positions, the host application gave a component for a name: when it was asked for the
/// component of that very name, or, if that gave none, for the type of that name, which it turned into
/// a component if it was none. It said of that reference that it is one to the registration of a
/// component.
pub open spec fn names_component(
    name: Seq<char>,
    component: ReflectReference,
    j: Seq<Step>,
    lo: nat,
    hi: nat,
) -> bool {
    &&& exists|at: nat| lo <= at < hi && #[trigger] has_tail(j, at, component, TailType::Component)
    &&& exists|first: Option<ReflectReference>| #[trigger]
        first_choice(name, j, lo, first) && match first {
            Some(own) => own == component,
            None => names_type(name, component, j, lo, hi),
        }
}

/// Between two positions, the host application said that a reference is one to the registration of a
/// type, and gave the registration of a component for it.
pub open spec fn turns_into(
    found: ReflectReference,
    component: ReflectReference,
    j: Seq<Step>,
    lo: nat,
    hi: nat,
) -> bool {
    &&& exists|at: nat| lo <= at < hi && #[trigger] has_tail(j, at, found, TailType::Registration)
    &&& exists|at: nat| lo <= at < hi && #[trigger] gives_for_type(j, at, found, component)
}

/// An argument stands for what it is resolved into, by what the host application said between two
/// positions of a journal: a name for the component that it names, the registration of a type for that
/// of its component, a list for what its elements stand for, each in its place and in its turn, and
/// anything else for itself.
pub open spec fn resolves_to(
    value: ScriptView,
    resolved: ScriptView,
    j: Seq<Step>,
    lo: nat,
    hi: nat,
) -> bool
    decreases value, 0nat,
{
    match value {
        ScriptView::List(values) => resolved is List && all_resolve_to(
            values,
            resolved->List_0,
            j,
            lo,
            hi,
        ),
        ScriptView::Reference(reference) => exists|at: nat, tail: TailType|
            {
                &&& lo <= at < hi
                &&& #[trigger] has_tail(j, at, reference, tail)
                &&& if tail == TailType::Registration {
                    resolved matches ScriptView::Reference(component) && turns_into(
                        reference,
                        component,
                        j,
                        lo,
                        hi,
                    ) && exists|at: nat|
                        lo <= at < hi && #[trigger] has_tail(j, at, component, TailType::Component)
                } else {
                    resolved == value
                }
            },
        ScriptView::String(name) => resolved matches ScriptView::Reference(component)
            && names_component(name, component, j, lo, hi),
        _ => resolved == value,
    }
}

/// Positions cut a part of a journal into pieces, one after the other.
pub open spec fn cuts(bounds: Seq<nat>, pieces: nat, lo: nat, hi: nat) -> bool {
    &&& bounds.len() == pieces + 1
    &&& bounds[0] == lo
    &&& bounds[pieces as int] == hi
    &&& forall|k: int| 0 <= k < pieces ==> #[trigger] bounds[k] <= bounds[k + 1]
}

/// Arguments stand for what they are resolved into, each for what is in its place, by what the host
/// application said while it was its turn.
pub open spec fn all_resolve_to(
    values: Seq<ScriptView>,
    resolved: Seq<ScriptView>,
    j: Seq<Step>,
    lo: nat,
    hi: nat,
) -> bool
    decreases values, 1nat,
{
    &&& resolved.len() == values.len()
    &&& exists|bounds: Seq<nat>| #[trigger]
        cuts(bounds, values.len(), lo, hi) && forall|k: int|
            0 <= k < values.len() ==> resolves_to(
                #[trigger] values[k],
                resolved[k],
                j,
                bounds[k],
                bounds[k + 1],
            )
}

/// What a type lookup gave for a name is resolved into a component.
proof fn lemma_type_resolves(
    reference: ReflectReference,
    j: Seq<Step>,
    p: nat,
    resolved: ScriptView,
    q: nat,
)
    requires
        resolve_type_run(reference, j, p) == Some((Ok::<ScriptView, ErrorView>(resolved), q)),
    ensures
        p < q,
        resolved matches ScriptView::Reference(component) && has_tail(
            j,
            (q - 1) as nat,
            component,
            TailType::Component,
        ) && (component == reference || turns_into(reference, component, j, p, q)),
{
    let tail = tail_run(reference, j, p)->Some_0.0->Ok_0;
    if tail != TailType::Component {
        let value = value_run(as_component(reference), j, p + 2)->Some_0.0->Ok_0;
        assert(has_tail(j, p + 1, reference, TailType::Registration));
        let component = value->Reference_0;
        assert(gives_for_type(j, p + 2, reference, component));
        assert(has_tail(j, p + 3, component, TailType::Component));
    } else {
        assert(has_tail(j, p, reference, TailType::Component));
    }
}

/// A name is resolved into what the host application gave for the type of that name.
proof fn lemma_name_resolves_by_type(
    name: Seq<char>,
    j: Seq<Step>,
    p: nat,
    resolved: ScriptView,
    q: nat,
    lo: nat,
)
    requires
        resolve_by_type_run(name, j, p) == Some((Ok::<ScriptView, ErrorView>(resolved), q)),
        lo <= p,
    ensures
        p < q,
        resolved matches ScriptView::Reference(component) && has_tail(
            j,
            (q - 1) as nat,
            component,
            TailType::Component,
        ) && names_type(name, component, j, lo, q),
{
    let function = lookup_run(HostType::World, "get_type_by_name"@, j, p)->Some_0.0->Ok_0;
    let value = value_run(call_by_name(function, name), j, p + 1)->Some_0.0->Ok_0;
    let found = value->Reference_0;
    lemma_type_resolves(found, j, p + 2, resolved, q);
    let at = p + 1;
    assert(asks(
        j,
        (at - 1) as nat,
        QueryView::Lookup { on: HostType::World, name: "get_type_by_name"@ },
        Answer::Function(function),
    ));
    assert(gives_for_name(j, at, "get_type_by_name"@, name, found));
    let component = resolved->Reference_0;
    assert(has_tail(j, (q - 1) as nat, component, TailType::Component));
    if component != found {
        let one = choose|at: nat|
            p + 2 <= at < q && #[trigger] has_tail(j, at, found, TailType::Registration);
        assert(lo <= one < q && has_tail(j, one, found, TailType::Registration));
        let other = choose|at: nat|
            p + 2 <= at < q && #[trigger] gives_for_type(j, at, found, component);
        assert(lo <= other < q && gives_for_type(j, other, found, component));
        assert(turns_into(found, component, j, lo, q));
    }
}

/// An argument is resolved into what it stands for.
proof fn lemma_resolves(
    value: ScriptView,
    j: Seq<Step>,
    p: nat,
    resolved: ScriptView,
    q: nat,
)
    requires
        resolve_run(value, j, p) == Some((Ok::<ScriptView, ErrorView>(resolved), q)),
    ensures
        p <= q,
        resolves_to(value, resolved, j, p, q),
    decreases value, 0nat,
{
    match value {
        ScriptView::List(values) => {
            let list = resolve_all_run(values, 0, Seq::empty(), j, p)->Some_0.0->Ok_0;
            lemma_all_resolve(values, 0, Seq::empty(), seq![p], j, p, list, q);
        },
        ScriptView::Reference(reference) => {
            let tail = tail_run(reference, j, p)->Some_0.0->Ok_0;
            assert(has_tail(j, p, reference, tail));
            if tail == TailType::Registration {
                let given = value_run(as_component(reference), j, p + 1)->Some_0.0->Ok_0;
                let component = given->Reference_0;
                assert(gives_for_type(j, p + 1, reference, component));
                assert(has_tail(j, p + 2, component, TailType::Component));
            }
        },
        ScriptView::String(name) => {
            let finder = "get_component_by_name"@;
            let query = QueryView::Lookup { on: HostType::World, name: finder };
            let answer = host_reply(j, p, query)->Some_0;
            assert(asks(j, p, query, answer));
            let (found, r) = lookup_run(HostType::World, finder, j, p)->Some_0;
            let component = resolved->Reference_0;
            if found is Err {
                lemma_name_resolves_by_type(name, j, r, resolved, q, p);
                assert(first_choice(name, j, p, None));
            } else {
                let function = found->Ok_0;
                let given = value_run(call_by_name(function, name), j, r)->Some_0.0->Ok_0;
                assert(asks(j, p + 1, call_by_name(function, name), Answer::Value(given)));
                let (is_one, t) = component_run(given, j, r + 1)->Some_0;
                if is_one == Ok::<bool, ErrorView>(true) {
                    assert(has_tail(j, p + 2, component, TailType::Component));
                    assert(first_choice(name, j, p, Some(component)));
                } else {
                    lemma_name_resolves_by_type(name, j, t, resolved, q, p);
                    assert(first_choice(name, j, p, None));
                }
            }
            assert(has_tail(j, (q - 1) as nat, component, TailType::Component));
        },
        _ => {},
    }
}

/// Arguments are resolved into what they stand for, each in its turn.
proof fn lemma_all_resolve(
    values: Seq<ScriptView>,
    i: nat,
    done: Seq<ScriptView>,
    bounds: Seq<nat>,
    j: Seq<Step>,
    p: nat,
    resolved: Seq<ScriptView>,
    q: nat,
)
    requires
        resolve_all_run(values, i, done, j, p) == Some(
            (Ok::<Seq<ScriptView>, ErrorView>(resolved), q),
        ),
        i <= values.len(),
        done.len() == i,
        cuts(bounds, i, bounds[0], p),
        forall|k: int|
            0 <= k < i ==> resolves_to(
                #[trigger] values[k],
                done[k],
                j,
                bounds[k],
                bounds[k + 1],
            ),
    ensures
        p <= q,
        all_resolve_to(values, resolved, j, bounds[0], q),
    decreases values, values.len() - i,
{
    if i < values.len() {
        let (value, r) = resolve_run(values[i as int], j, p)->Some_0;
        let value = value->Ok_0;
        lemma_resolves(values[i as int], j, p, value, r);
        let more = bounds.push(r);
        assert(cuts(more, i + 1, bounds[0], r)) by {
            assert forall|k: int| 0 <= k < i + 1 implies #[trigger] more[k] <= more[k + 1] by {
                if k < i {
                    assert(bounds[k] <= bounds[k + 1]);
                }
            }
        }
        assert forall|k: int| 0 <= k < i + 1 implies resolves_to(
            #[trigger] values[k],
            done.push(value)[k],
            j,
            more[k],
            more[k + 1],
        ) by {}
        lemma_all_resolve(values, i + 1, done.push(value), more, j, r, resolved, q);
    } else {
        assert(cuts(bounds, values.len(), bounds[0], q));
    }
}

/// An argument is resolved into what it stands for: a name into the component that the host application
/// gave for that very name, and each element of a list on its own.
pub proof fn law_arguments_are_resolved(
    value: ScriptView,
    j: Seq<Step>,
    p: nat,
    resolved: ScriptView,
    q: nat,
)
    requires
        resolve_run(value, j, p) == Some((Ok::<ScriptView, ErrorView>(resolved), q)),
    ensures
        p <= q,
        resolves_to(value, resolved, j, p, q),
{
    lemma_resolves(value, j, p, resolved, q);
}

/// The arguments of a method are resolved one by one: there are as many as before, and each is resolved
/// into what it stands for by what the host application said while it was its turn.
pub proof fn law_all_arguments_are_resolved(
    values: Seq<ScriptView>,
    j: Seq<Step>,
    p: nat,
    resolved: Seq<ScriptView>,
    q: nat,
)
    requires
        resolve_all_run(values, 0, Seq::empty(), j, p) == Some(
            (Ok::<Seq<ScriptView>, ErrorView>(resolved), q),
        ),
    ensures
        p <= q,
        resolved.len() == values.len(),
        all_resolve_to(values, resolved, j, p, q),
{
    lemma_all_resolve(values, 0, Seq::empty(), seq![p], j, p, resolved, q);
}

/// A question that resolving asks: which type is at the end of a path, for the functions of the world
/// that find components and types by name, for what they find, and for the component of a type.
pub open spec fn is_resolving(query: QueryView) -> bool {
    match query {
        QueryView::TailType(_) => true,
        QueryView::Lookup { on, .. } => on == HostType::World,
        QueryView::Invoke { function, arguments } => function is Host && arguments.len() == 1
            && arguments[0] is String,
        QueryView::CallOverloads { on, name, .. } => on == CallTarget::Named(
            HostType::TypeRegistration,
        ) && name == "as_component"@,
        _ => false,
    }
}

/// All steps between two positions are questions that resolving asks.
pub open spec fn all_resolving(j: Seq<Step>, p: nat, q: nat) -> bool {
    forall|at: int|
        p <= at < q ==> (#[trigger] j[at] matches Step::Ask { query, .. } && is_resolving(query))
}

/// Resolving what a type lookup gave asks nothing else.
proof fn lemma_type_resolving(reference: ReflectReference, j: Seq<Step>, p: nat)
    ensures
        resolve_type_run(reference, j, p) matches Some((_, q)) ==> p <= q && all_resolving(j, p, q),
{
    if let Some((_, q)) = resolve_type_run(reference, j, p) {
        assert forall|at: int| p <= at < q implies (#[trigger] j[at] matches Step::Ask { query, .. }
            && is_resolving(query)) by {
            assert(at == p || at == p + 1 || at == p + 2 || at == p + 3);
        }
    }
}

/// Resolving a name by its type asks nothing else.
proof fn lemma_by_type_resolving(name: Seq<char>, j: Seq<Step>, p: nat)
    ensures
        resolve_by_type_run(name, j, p) matches Some((_, q)) ==> p <= q && all_resolving(j, p, q),
{
    if let Some((_, q)) = resolve_by_type_run(name, j, p) {
        if let Some((Ok(function), _)) = lookup_run(HostType::World, "get_type_by_name"@, j, p) {
            if let Some((Ok(ScriptValue::Reference(reference)), _)) = value_run(
                call_by_name(function, name),
                j,
                p + 1,
            ) {
                lemma_type_resolving(reference, j, p + 2);
            }
        }
        assert forall|at: int| p <= at < q implies (#[trigger] j[at] matches Step::Ask { query, .. }
            && is_resolving(query)) by {
            assert(at == p || at == p + 1 || at >= p + 2);
        }
    }
}

/// Resolving a name asks nothing else.
proof fn lemma_name_resolving(name: Seq<char>, j: Seq<Step>, p: nat)
    ensures
        resolve_name_run(name, j, p) matches Some((_, q)) ==> p <= q && all_resolving(j, p, q),
{
    if let Some((_, q)) = resolve_name_run(name, j, p) {
        lemma_by_type_resolving(name, j, p + 1);
        lemma_by_type_resolving(name, j, p + 2);
        lemma_by_type_resolving(name, j, p + 3);
        assert forall|at: int| p <= at < q implies (#[trigger] j[at] matches Step::Ask { query, .. }
            && is_resolving(query)) by {
            assert(at == p || at == p + 1 || at == p + 2 || at >= p + 3);
        }
    }
}

/// Resolving an argument asks nothing else than what resolving asks.
pub proof fn law_resolving_asks_nothing_else(value: ScriptView, j: Seq<Step>, p: nat)
    ensures
        resolve_run(value, j, p) matches Some((_, q)) ==> p <= q && all_resolving(j, p, q),
    decreases value, 0nat,
{
    match value {
        ScriptView::List(values) => lemma_all_resolving(values, 0, Seq::empty(), j, p),
        ScriptView::Reference(reference) => {
            if let Some((_, q)) = resolve_reference_run(reference, j, p) {
                assert forall|at: int| p <= at < q implies (#[trigger] j[at] matches Step::Ask {
                    query,
                    ..
                } && is_resolving(query)) by {
                    assert(at == p || at == p + 1 || at == p + 2);
                }
            }
        },
        ScriptView::String(name) => lemma_name_resolving(name, j, p),
        _ => {},
    }
}

/// Resolving arguments asks nothing else than what resolving asks.
pub proof fn lemma_all_resolving(
    values: Seq<ScriptView>,
    i: nat,
    done: Seq<ScriptView>,
    j: Seq<Step>,
    p: nat,
)
    ensures
        resolve_all_run(values, i, done, j, p) matches Some((_, q)) ==> p <= q && all_resolving(
            j,
            p,
            q,
        ),
    decreases values, values.len() - i,
{
    if i < values.len() {
        law_resolving_asks_nothing_else(values[i as int], j, p);
        if let Some((Ok(value), r)) = resolve_run(values[i as int], j, p) {
            lemma_all_resolving(values, i + 1, done.push(value), j, r);
        }
    }
}

/// The error of a type that is no component: for a name, or for the registration of a type.
pub open spec fn is_mismatch(error: ErrorView) -> bool {
    ||| error == no_component()
    ||| error == (ErrorView::TypeMismatch {
        expected: HostType::ComponentRegistration,
        got: Some(HostType::TypeRegistration),
    })
}

/// An answer of the host application is a reason for an error: the host application failed, the answer
/// does not fit the question, or there is no component for what it was asked.
pub open spec fn is_reason(query: QueryView, answer: Answer, error: ErrorView) -> bool {
    match (query, answer) {
        (QueryView::Lookup { on, name }, _) => !(answer is Function) && name == "get_type_by_name"@
            && error == (ErrorView::MissingFunction { on, name }),
        (_, Answer::Failed(own)) => own@ == error,
        (QueryView::TailType(_), Answer::Tail(tail)) => tail != TailType::Component && is_mismatch(
            error,
        ),
        (QueryView::TailType(_), _) => error == misfit(),
        (_, Answer::Value(value)) => if query is Invoke || query is CallOverloads {
            !(value is Reference) && is_mismatch(error)
        } else {
            error == misfit()
        },
        _ => error == misfit(),
    }
}

/// A step looked for the function that finds components by name.
pub open spec fn looks_for_components(j: Seq<Step>, at: int) -> bool {
    0 <= at < j.len() && (j[at] matches Step::Ask { query, .. } && query == (QueryView::Lookup {
        on: HostType::World,
        name: "get_component_by_name"@,
    }))
}

/// A step asked about what the host application gives for a name at once. That it is no component is no
/// reason to fail, as it may still be found by its type.
pub open spec fn is_first_try(query: QueryView, j: Seq<Step>, at: nat) -> bool {
    match query {
        QueryView::Invoke { .. } => looks_for_components(j, at - 1),
        QueryView::TailType(_) => looks_for_components(j, at - 2) && (j[at - 1] matches Step::Ask {
            query: earlier,
            ..
        } && earlier is Invoke),
        _ => false,
    }
}

/// Between two positions, the host application gave a reason for an error.
pub open spec fn gives_reason(error: ErrorView, j: Seq<Step>, lo: nat, hi: nat) -> bool {
    exists|at: nat, query: QueryView, answer: Answer|
        {
            &&& lo <= at < hi
            &&& #[trigger] asks(j, at, query, answer)
            &&& is_reason(query, answer, error)
            &&& (answer is Value || answer is Tail) && is_mismatch(error) ==> !is_first_try(
                query,
                j,
                at,
            )
        }
}

/// Resolving fails only for a reason that the host application gave: it failed, it has no function that
/// finds types by name, or what it gave is no registration of a component.
pub proof fn law_resolving_fails_for_a_reason(
    value: ScriptView,
    j: Seq<Step>,
    p: nat,
    error: ErrorView,
    q: nat,
)
    requires
        resolve_run(value, j, p) == Some((Err::<ScriptView, ErrorView>(error), q)),
    ensures
        p < q,
        gives_reason(error, j, p, q),
    decreases value, 0nat,
{
    match value {
        ScriptView::List(values) => {
            lemma_all_fail_for_a_reason(values, 0, Seq::empty(), j, p, error, q);
        },
        ScriptView::Reference(reference) => lemma_reference_fails(reference, j, p, error, q),
        ScriptView::String(name) => lemma_name_fails(name, j, p, error, q),
        _ => {},
    }
}

/// Resolving arguments fails only for a reason.
proof fn lemma_all_fail_for_a_reason(
    values: Seq<ScriptView>,
    i: nat,
    done: Seq<ScriptView>,
    j: Seq<Step>,
    p: nat,
    error: ErrorView,
    q: nat,
)
    requires
        resolve_all_run(values, i, done, j, p) == Some((Err::<Seq<ScriptView>, ErrorView>(error), q)),
    ensures
        p < q,
        gives_reason(error, j, p, q),
    decreases values, values.len() - i,
{
    if i < values.len() {
        let (value, r) = resolve_run(values[i as int], j, p)->Some_0;
        lemma_resolving_goes_on(values[i as int], j, p);
        if value is Ok {
            lemma_all_fail_for_a_reason(values, i + 1, done.push(value->Ok_0), j, r, error, q);
            lemma_reason_wider(error, j, r, q, p, q);
        } else {
            law_resolving_fails_for_a_reason(values[i as int], j, p, error, q);
        }
    }
}

/// A reason between two positions is one between wider ones.
proof fn lemma_reason_wider(error: ErrorView, j: Seq<Step>, lo: nat, hi: nat, from: nat, to: nat)
    requires
        gives_reason(error, j, lo, hi),
        from <= lo,
        hi <= to,
    ensures
        gives_reason(error, j, from, to),
{
}

/// A reference fails to resolve only for a reason.
proof fn lemma_reference_fails(
    reference: ReflectReference,
    j: Seq<Step>,
    p: nat,
    error: ErrorView,
    q: nat,
)
    requires
        resolve_reference_run(reference, j, p) == Some((Err::<ScriptView, ErrorView>(error), q)),
    ensures
        p < q,
        gives_reason(error, j, p, q),
{
    let query = QueryView::TailType(reference);
    let answer = host_reply(j, p, query)->Some_0;
    assert(asks(j, p, query, answer));
    if answer.spec_tail() is Ok {
        let query = as_component(reference);
        let answer = host_reply(j, p + 1, query)->Some_0;
        assert(asks(j, p + 1, query, answer));
        if let Answer::Value(ScriptValue::Reference(component)) = answer {
            let query = QueryView::TailType(component);
            assert(asks(j, p + 2, query, host_reply(j, p + 2, query)->Some_0));
        }
    }
}

/// What a type lookup gave fails to resolve only for a reason.
proof fn lemma_type_fails(
    reference: ReflectReference,
    j: Seq<Step>,
    p: nat,
    error: ErrorView,
    q: nat,
    lo: nat,
)
    requires
        resolve_type_run(reference, j, p) == Some((Err::<ScriptView, ErrorView>(error), q)),
        !looks_for_components(j, p - 2),
        lo <= p,
    ensures
        p < q,
        gives_reason(error, j, lo, q),
{
    let query = QueryView::TailType(reference);
    let answer = host_reply(j, p, query)->Some_0;
    assert(asks(j, p, query, answer));
    if answer.spec_tail() is Ok {
        let answer = host_reply(j, p + 1, query)->Some_0;
        assert(asks(j, p + 1, query, answer));
        if answer.spec_tail() == Ok::<TailType, ErrorView>(TailType::Registration) {
            let query = as_component(reference);
            let answer = host_reply(j, p + 2, query)->Some_0;
            assert(asks(j, p + 2, query, answer));
            if let Answer::Value(ScriptValue::Reference(component)) = answer {
                let query = QueryView::TailType(component);
                assert(asks(j, p + 3, query, host_reply(j, p + 3, query)->Some_0));
            }
        }
    }
}

/// A name fails to resolve by its type only for a reason.
proof fn lemma_name_fails_by_type(
    name: Seq<char>,
    j: Seq<Step>,
    p: nat,
    error: ErrorView,
    q: nat,
    lo: nat,
)
    requires
        resolve_by_type_run(name, j, p) == Some((Err::<ScriptView, ErrorView>(error), q)),
        lo <= p,
    ensures
        p < q,
        gives_reason(error, j, lo, q),
{
    reveal_strlit("get_type_by_name");
    reveal_strlit("get_component_by_name");
    assert("get_type_by_name"@.len() != "get_component_by_name"@.len());
    let query = QueryView::Lookup { on: HostType::World, name: "get_type_by_name"@ };
    let answer = host_reply(j, p, query)->Some_0;
    assert(asks(j, p, query, answer));
    if let Answer::Function(function) = answer {
        let query = call_by_name(function, name);
        let answer = host_reply(j, p + 1, query)->Some_0;
        assert(asks(j, p + 1, query, answer));
        if let Answer::Value(ScriptValue::Reference(reference)) = answer {
            lemma_type_fails(reference, j, p + 2, error, q, lo);
        }
    }
}

/// A name fails to resolve only for a reason.
proof fn lemma_name_fails(name: Seq<char>, j: Seq<Step>, p: nat, error: ErrorView, q: nat)
    requires
        resolve_name_run(name, j, p) == Some((Err::<ScriptView, ErrorView>(error), q)),
    ensures
        p < q,
        gives_reason(error, j, p, q),
{
    let query = QueryView::Lookup { on: HostType::World, name: "get_component_by_name"@ };
    let answer = host_reply(j, p, query)->Some_0;
    if let Answer::Function(function) = answer {
        let query = call_by_name(function, name);
        let answer = host_reply(j, p + 1, query)->Some_0;
        assert(asks(j, p + 1, query, answer));
        if let Answer::Value(value) = answer {
            let (component, r) = component_run(value, j, p + 2)->Some_0;
            if let ScriptValue::Reference(reference) = value {
                let query = QueryView::TailType(reference);
                assert(asks(j, p + 2, query, host_reply(j, p + 2, query)->Some_0));
            }
            if component == Ok::<bool, ErrorView>(false) {
                lemma_name_fails_by_type(name, j, r, error, q, p);
            }
        }
    } else {
        lemma_name_fails_by_type(name, j, p + 1, error, q, p);
    }
}

} // verus!
