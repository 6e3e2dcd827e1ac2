//! What every function that scripts call does with its arguments and its result.
use crate::components::lookup_run;
use crate::conversion_laws::law_values_are_rendered;
use crate::data::{
    equipped, keeps, lemma_keeps_through, lemma_sealed, portable, sealed, seals_prototype,
    wraps_with,
};
use crate::dialogue::asks_nothing;
use crate::engine::{
    clone_value, js_text, js_view, kind_of, live_in, lives_in, text_of, undefined_value,
    FailureView, JsFailure, JsKind, JsView,
};
use crate::from_js::{from_js_run, lemma_reachable_later, reachable, value_from_js, DEPTH_LIMIT};
use crate::host::{Answer, Query, QueryView};
use crate::into_js::{handed, into_js_run, lemma_handed_earlier, value_into_js};
use crate::session::{
    extends, host_reply, js_views, put_effect, put_reply, replays, resumes, same_vm, takes, Key,
    KeyView, Session, Step,
};
use crate::text::joined;
use crate::value::{list_view, ErrorView, HostType, InteropError, ScriptValue, ScriptView};
use boa_engine::{Context, JsValue};
use vstd::prelude::*;

verus! {

broadcast use crate::session::lemma_extends_earlier;

/// The result of a function that scripts call, as contracts see it.
pub open spec fn reply_of(result: Result<JsValue, JsFailure>) -> Result<JsView, FailureView> {
    match result {
        Ok(value) => Ok(js_view(value)),
        Err(failure) => Err(failure@),
    }
}

/// The result of a step towards one, as contracts see it.
pub open spec fn part_of<T>(result: Result<T, JsFailure>) -> Result<T, FailureView> {
    match result {
        Ok(value) => Ok(value),
        Err(failure) => Err(failure@),
    }
}

/// The result of converting an argument, as contracts see it.
pub open spec fn argument_of(result: Result<ScriptValue, JsFailure>) -> Result<
    ScriptView,
    FailureView,
> {
    match result {
        Ok(value) => Ok(value@),
        Err(failure) => Err(failure@),
    }
}

/// The result of converting arguments, as contracts see it.
pub open spec fn arguments_of(result: Result<Vec<ScriptValue>, JsFailure>) -> Result<
    Seq<ScriptView>,
    FailureView,
> {
    match result {
        Ok(values) => Ok(list_view(values@)),
        Err(failure) => Err(failure@),
    }
}

/// The kinds of errors that are thrown into scripts.
#[derive(Debug, Clone, Copy, PartialEq, Eq, Structural)]
pub enum Blame {
    /// An `Error`.
    Host,
    /// A `TypeError`.
    Script,
}

/// The failure with a text.
pub open spec fn blamed(blame: Blame, text: Seq<char>) -> FailureView {
    match blame {
        Blame::Host => FailureView::General(text),
        Blame::Script => FailureView::WrongType(text),
    }
}

/// Throwing an error of the host application into a script, with the text that the host
/// application has for it.
pub open spec fn throw_run(blame: Blame, error: ErrorView, j: Seq<Step>, p: nat) -> Option<
    (FailureView, nat),
> {
    match host_reply(j, p, QueryView::Describe(error)) {
        None => None,
        Some(answer) => Some((blamed(blame, answer.spec_text()), p + 1)),
    }
}

/// Throws an error of the host application into a script.
pub(crate) fn throw<H: Fn(Query) -> Answer + Copy + 'static>(
    blame: Blame,
    error: InteropError,
    session: &mut Session<H>,
) -> (failure: JsFailure)
    requires
        old(session).served(),
    ensures
        final(session).stays(*old(session)),
        replays(
            |j: Seq<Step>, p: nat| throw_run(blame, error@, j, p),
            old(session).journal(),
            final(session).journal(),
            failure@,
        ),
{
    let text = session.ask(Query::Describe(error)).text();
    match blame {
        Blame::Host => JsFailure::General(text),
        Blame::Script => JsFailure::WrongType(text),
    }
}

/// What becomes of a part of a run that ends with an error of the host application: the error is
/// thrown into the script.
pub open spec fn or_throw<T>(
    blame: Blame,
    part: Option<(Result<T, ErrorView>, nat)>,
    j: Seq<Step>,
) -> Option<(Result<T, FailureView>, nat)> {
    match part {
        None => None,
        Some((Ok(value), q)) => Some((Ok(value), q)),
        Some((Err(error), q)) => match throw_run(blame, error, j, q) {
            None => None,
            Some((failure, r)) => Some((Err(failure), r)),
        },
    }
}

/// Reaching the world.
pub open spec fn world_run(j: Seq<Step>, p: nat) -> Option<(Result<(), FailureView>, nat)> {
    or_throw(
        Blame::Host,
        match host_reply(j, p, QueryView::World) {
            None => None,
            Some(answer) => Some((answer.spec_done(), p + 1)),
        },
        j,
    )
}

/// Makes sure that the world is within reach.
pub(crate) fn reach_world<H: Fn(Query) -> Answer + Copy + 'static>(session: &mut Session<H>) -> (result:
    Result<(), JsFailure>)
    requires
        old(session).served(),
    ensures
        final(session).stays(*old(session)),
        replays(
            |j: Seq<Step>, p: nat| world_run(j, p),
            old(session).journal(),
            final(session).journal(),
            part_of(result),
        ),
{
    match session.ask(Query::World).done() {
        Ok(()) => Ok(()),
        Err(error) => Err(throw(Blame::Host, error, session)),
    }
}

/// Asking the host application for a value.
pub open spec fn value_run(query: QueryView, j: Seq<Step>, p: nat) -> Option<
    (Result<ScriptValue, ErrorView>, nat),
> {
    match host_reply(j, p, query) {
        None => None,
        Some(answer) => Some((answer.spec_value(), p + 1)),
    }
}

/// Asks the host application for a value.
pub(crate) fn ask_value<H: Fn(Query) -> Answer + Copy + 'static>(
    query: Query,
    context: &mut Context,
    session: &mut Session<H>,
) -> (result: Result<ScriptValue, JsFailure>)
    requires
        old(session).ready(*old(context)),
    ensures
        result is Ok && !(query@ is FunctionId) ==> old(session).journal().len()
            < final(session).journal().len() && answers_with(
            final(session).journal(),
            (final(session).journal().len() - 1) as nat,
            result->Ok_0,
        ),
        final(session).follows(*old(session)),
        final(session).attached(*final(context)),
        same_vm(*old(context), *final(context)),
        replays(
            |j: Seq<Step>, p: nat| or_throw(Blame::Host, value_run(query@, j, p), j),
            old(session).journal(),
            final(session).journal(),
            part_of(result),
        ),
{
    match session.consult(query, context).value() {
        Ok(value) => Ok(value),
        Err(error) => Err(throw(Blame::Host, error, session)),
    }
}

/// The argument at an index.
pub open spec fn argument(arguments: Seq<JsView>, i: int) -> JsView {
    if i < arguments.len() {
        arguments[i]
    } else {
        JsView::Undefined
    }
}

/// The argument at an index, which is `undefined` where there are not as many.
pub(crate) fn argument_at(arguments: &[JsValue], i: usize) -> (value: JsValue)
    ensures
        js_view(value) == argument(js_views(arguments@), i as int),
{
    if i < arguments.len() {
        clone_value(&arguments[i])
    } else {
        undefined_value()
    }
}

/// Converting an argument.
pub open spec fn convert_run(blame: Blame, value: JsView, j: Seq<Step>, p: nat) -> Option<
    (Result<ScriptView, FailureView>, nat),
> {
    or_throw(blame, from_js_run(value, DEPTH_LIMIT as nat, j, p), j)
}

/// Converts an argument.
pub(crate) fn convert<H: Fn(Query) -> Answer + Copy + 'static>(
    blame: Blame,
    value: &JsValue,
    context: &mut Context,
    session: &mut Session<H>,
) -> (result: Result<ScriptValue, JsFailure>)
    requires
        old(session).ready(*old(context)),
        lives_in(js_view(*value), *old(context)),
    ensures
        forall|held: ScriptView, depth: nat| #[trigger]
            reachable(
                *old(context),
                Seq::empty(),
                js_view(*value),
                DEPTH_LIMIT as nat,
                held,
                depth,
            ) ==> argument_of(result) == Ok::<ScriptView, FailureView>(held) && keeps(
                *old(context),
                *final(context),
            ),
        final(session).follows(*old(session)),
        final(session).attached(*final(context)),
        same_vm(*old(context), *final(context)),
        replays(
            |j: Seq<Step>, p: nat| convert_run(blame, js_view(*value), j, p),
            old(session).journal(),
            final(session).journal(),
            argument_of(result),
        ),
{
    match value_from_js(value, DEPTH_LIMIT, context, session) {
        Ok(value) => Ok(value),
        Err(error) => Err(throw(blame, error, session)),
    }
}

/// Converting the arguments from an index on, after those before it.
pub open spec fn convert_all_run(
    blame: Blame,
    arguments: Seq<JsView>,
    i: nat,
    done: Seq<ScriptView>,
    j: Seq<Step>,
    p: nat,
) -> Option<(Result<Seq<ScriptView>, FailureView>, nat)>
    decreases arguments.len() - i,
{
    if i >= arguments.len() {
        Some((Ok(done), p))
    } else {
        match convert_run(blame, arguments[i as int], j, p) {
            None => None,
            Some((Err(failure), q)) => Some((Err(failure), q)),
            Some((Ok(value), q)) => convert_all_run(
                blame,
                arguments,
                i + 1,
                done.push(value),
                j,
                q,
            ),
        }
    }
}

/// Arguments were converted one after the other between two positions, into script values.
pub open spec fn converts(
    arguments: Seq<JsView>,
    values: Seq<ScriptView>,
    j: Seq<Step>,
    p: nat,
    q: nat,
) -> bool
    decreases arguments.len(),
{
    if arguments.len() == 0 {
        values.len() == 0 && p == q
    } else {
        match from_js_run(arguments[0], DEPTH_LIMIT as nat, j, p) {
            Some((Ok(value), r)) => values.len() > 0 && values[0] == value && converts(
                arguments.skip(1),
                values.skip(1),
                j,
                r,
                q,
            ),
            _ => false,
        }
    }
}

/// Converting the arguments from an index on that went well converted them, whoever is blamed
/// otherwise.
pub proof fn lemma_converts(
    blame: Blame,
    arguments: Seq<JsView>,
    i: nat,
    done: Seq<ScriptView>,
    j: Seq<Step>,
    p: nat,
    values: Seq<ScriptView>,
    q: nat,
)
    requires
        i <= arguments.len(),
        convert_all_run(blame, arguments, i, done, j, p) == Some(
            (Ok::<Seq<ScriptView>, FailureView>(values), q),
        ),
    ensures
        done.len() <= values.len(),
        values.take(done.len() as int) == done,
        converts(arguments.skip(i as int), values.skip(done.len() as int), j, p, q),
    decreases arguments.len() - i,
{
    if i < arguments.len() {
        let (value, r) = convert_run(blame, arguments[i as int], j, p)->Some_0;
        let more = done.push(value->Ok_0);
        lemma_converts(blame, arguments, i + 1, more, j, r, values, q);
        assert(values.take(done.len() as int) =~= values.take(more.len() as int).drop_last());
        assert(more.drop_last() =~= done);
        assert(values.take(more.len() as int)[done.len() as int] == value->Ok_0);
        assert(arguments.skip(i as int).skip(1) =~= arguments.skip((i + 1) as int));
        assert(values.skip(done.len() as int).skip(1) =~= values.skip(more.len() as int));
    }
}

/// Values of a virtual machine hold script values, which a conversion can reach.
pub open spec fn all_reachable(
    before: Context,
    views: Seq<JsView>,
    held: Seq<ScriptView>,
    depth: nat,
) -> bool {
    &&& held.len() == views.len()
    &&& forall|k: int|
        0 <= k < views.len() ==> reachable(
            before,
            Seq::empty(),
            #[trigger] views[k],
            DEPTH_LIMIT as nat,
            held[k],
            depth,
        )
}

/// Converts the arguments from an index on.
pub(crate) fn convert_all<H: Fn(Query) -> Answer + Copy + 'static>(
    blame: Blame,
    arguments: &[JsValue],
    from: usize,
    context: &mut Context,
    session: &mut Session<H>,
) -> (result: Result<Vec<ScriptValue>, JsFailure>)
    requires
        old(session).ready(*old(context)),
        from <= arguments@.len(),
        live_in(js_views(arguments@), *old(context)),
    ensures
        forall|held: Seq<ScriptView>, depth: nat| #[trigger]
            all_reachable(
                *old(context),
                js_views(arguments@).skip(from as int),
                held,
                depth,
            ) ==> arguments_of(result) == Ok::<Seq<ScriptView>, FailureView>(held) && keeps(
                *old(context),
                *final(context),
            ),
        final(session).follows(*old(session)),
        final(session).attached(*final(context)),
        same_vm(*old(context), *final(context)),
        replays(
            |j: Seq<Step>, p: nat|
                convert_all_run(blame, js_views(arguments@), from as nat, Seq::empty(), j, p),
            old(session).journal(),
            final(session).journal(),
            arguments_of(result),
        ),
{
    let ghost views = js_views(arguments@);
    let ghost first = *context;
    let mut values: Vec<ScriptValue> = Vec::new();
    let mut i: usize = from;
    assert(list_view(values@) == Seq::<ScriptView>::empty());
    while i < arguments.len()
        invariant
            session.ready(*context),
            same_vm(*old(context), *context),
            session.follows(*old(session)),
            from <= i <= arguments@.len(),
            first == *old(context),
            keeps(first, first),
            values@.len() == i - from,
            forall|held: Seq<ScriptView>, depth: nat| #[trigger]
                all_reachable(first, views.skip(from as int), held, depth) ==> list_view(values@)
                    == held.take(i - from) && keeps(first, *context),
            views == js_views(arguments@),
            live_in(views, *context),
            resumes(
                |j: Seq<Step>, p: nat| convert_all_run(blame, views, from as nat, Seq::empty(), j, p),
                |j: Seq<Step>, p: nat|
                    convert_all_run(blame, views, i as nat, list_view(values@), j, p),
                old(session).journal(),
                session.journal(),
            ),
        decreases arguments@.len() - i,
    {
        let ghost journal = session.journal();
        let ghost done = list_view(values@);
        assert(views[i as int] == js_view(arguments@[i as int]));
        let ghost between = *context;
        let converted = convert(blame, &arguments[i], context, session);
        assert forall|held: Seq<ScriptView>, depth: nat| #[trigger]
            all_reachable(first, views.skip(from as int), held, depth) implies argument_of(converted)
            == Ok::<ScriptView, FailureView>(held[i - from]) && keeps(first, *context) by {
            let view = views.skip(from as int)[i - from];
            assert(reachable(first, Seq::empty(), view, DEPTH_LIMIT as nat, held[i - from], depth));
            lemma_reachable_later(first, between, view, DEPTH_LIMIT as nat, held[i - from], depth);
            lemma_keeps_through(first, between, *context);
        }
        assert forall|j: Seq<Step>| #[trigger] extends(j, session.journal()) implies convert_all_run(
            blame,
            views,
            from as nat,
            Seq::empty(),
            j,
            old(session).journal().len(),
        ) == match argument_of(converted) {
            Err(failure) => Some((Err(failure), session.journal().len())),
            Ok(value) => convert_all_run(
                blame,
                views,
                (i + 1) as nat,
                done.push(value),
                j,
                session.journal().len(),
            ),
        } by {
            assert(extends(j, journal));
        }
        match converted {
            Err(failure) => {
                return Err(failure);
            },
            Ok(value) => {
                values.push(value);
                assert(list_view(values@) == done.push(value@));
                assert forall|held: Seq<ScriptView>, depth: nat| #[trigger]
                    all_reachable(first, views.skip(from as int), held, depth) implies list_view(
                    values@,
                ) == held.take(i + 1 - from) by {
                    assert(held.take(i + 1 - from) =~= held.take(i - from).push(held[i - from]));
                }
            },
        }
        i = i + 1;
    }
    assert forall|held: Seq<ScriptView>, depth: nat| #[trigger]
        all_reachable(first, views.skip(from as int), held, depth) implies list_view(values@)
        == held by {
        assert(held.take(i - from) =~= held);
    }
    Ok(values)
}

/// Handing a value of the host application back to a script.
pub open spec fn hand_back_run(value: ScriptValue, j: Seq<Step>, p: nat) -> Option<
    (Result<JsView, FailureView>, nat),
> {
    or_throw(Blame::Host, into_js_run(value, j, p), j)
}

/// The last answer of the host application was a value, which was handed to a script.
pub open spec fn gives_answer(
    before: Context,
    j: Seq<Step>,
    p: nat,
    reply: Result<JsView, FailureView>,
    after: Context,
) -> bool {
    reply is Ok ==> exists|at: nat| #[trigger] gives_answer_at(before, j, p, at, reply, after)
}

/// The host application answered with a value in a step, which was handed to a script, and nothing was
/// asked afterwards.
pub open spec fn gives_answer_at(
    before: Context,
    j: Seq<Step>,
    p: nat,
    at: nat,
    reply: Result<JsView, FailureView>,
    after: Context,
) -> bool {
    &&& p <= at < j.len()
    &&& answers_with(j, at, handed_value(j, at))
    &&& handed(before, handed_value(j, at), reply, after)
    &&& asks_nothing(j, at + 1, j.len())
}

/// The value that the host application answered with in a step.
pub open spec fn handed_value(j: Seq<Step>, at: nat) -> ScriptValue {
    j[at as int]->Ask_answer->Value_0
}

/// The host application answered with a value in a step.
pub open spec fn answers_with(j: Seq<Step>, at: nat, value: ScriptValue) -> bool {
    j[at as int] matches Step::Ask { query, answer, .. } && answer == Answer::Value(value) && !(
    query is FunctionId)
}

/// Hands a value of the host application back to a script.
pub(crate) fn hand_back<H: Fn(Query) -> Answer + Copy + 'static>(
    value: &ScriptValue,
    context: &mut Context,
    session: &mut Session<H>,
) -> (result: Result<JsValue, JsFailure>)
    requires
        old(session).ready(*old(context)),
    ensures
        forall|earlier: Context, p: nat|
            same_vm(earlier, *old(context)) && p < old(session).journal().len() && answers_with(
                old(session).journal(),
                (old(session).journal().len() - 1) as nat,
                *value,
            ) ==> #[trigger] gives_answer(
                earlier,
                final(session).journal(),
                p,
                reply_of(result),
                *final(context),
            ),
        result is Ok ==> handed(*old(context), *value, reply_of(result), *final(context)),
        result matches Ok(value) ==> lives_in(js_view(value), *final(context)),
        final(session).follows(*old(session)),
        final(session).attached(*final(context)),
        same_vm(*old(context), *final(context)),
        replays(
            |j: Seq<Step>, p: nat| hand_back_run(*value, j, p),
            old(session).journal(),
            final(session).journal(),
            reply_of(result),
        ),
        forall|references: bool, depth: nat| #[trigger]
            portable(*value, references, depth) && (references ==> equipped(*old(context)))
                ==> result is Ok && keeps(*old(context), *final(context)),
{
    let ghost first = *context;
    proof {
        if sealed(first) {
            lemma_sealed(first, first);
        }
        assert forall|prototype: JsView| #[trigger]
            seals_prototype(first, prototype) implies wraps_with(first, prototype) by {}
    }
    let ghost journal = session.journal();
    let ghost given = *value;
    let result = match value_into_js(value, context, session) {
        Ok(value) => Ok(value),
        Err(error) => Err(throw(Blame::Host, error, session)),
    };
    proof {
        let j = session.journal();
        assert(extends(j, j));
        if result is Ok && journal.len() > 0 {
            let at = (journal.len() - 1) as nat;
            assert(j[at as int] == journal[at as int]);
            law_values_are_rendered(given, j, journal.len());
            assert forall|earlier: Context, p: nat|
                same_vm(earlier, first) && p < journal.len() && answers_with(
                    journal,
                    at,
                    given,
                ) implies #[trigger] gives_answer(
                earlier,
                j,
                p,
                reply_of(result),
                *context,
            ) by {
                lemma_handed_earlier(earlier, first, given, reply_of(result), *context);
                assert(gives_answer_at(earlier, j, p, at, reply_of(result), *context));
            }
        }
    }
    result
}

/// Telling the host application to do something.
pub open spec fn done_run(query: QueryView, j: Seq<Step>, p: nat) -> Option<
    (Result<(), ErrorView>, nat),
> {
    match host_reply(j, p, query) {
        None => None,
        Some(answer) => Some((answer.spec_done(), p + 1)),
    }
}

/// Tells the host application to do something.
pub(crate) fn ask_done<H: Fn(Query) -> Answer + Copy + 'static>(
    query: Query,
    context: &mut Context,
    session: &mut Session<H>,
) -> (result: Result<(), JsFailure>)
    requires
        old(session).ready(*old(context)),
    ensures
        final(session).follows(*old(session)),
        final(session).attached(*final(context)),
        same_vm(*old(context), *final(context)),
        replays(
            |j: Seq<Step>, p: nat| or_throw(Blame::Host, done_run(query@, j, p), j),
            old(session).journal(),
            final(session).journal(),
            part_of(result),
        ),
{
    match session.consult(query, context).done() {
        Ok(()) => Ok(()),
        Err(error) => Err(throw(Blame::Host, error, session)),
    }
}

/// Finding a function of a type, without which a script gets an error with a text before the
/// reason.
pub open spec fn find_run(
    on: HostType,
    name: Seq<char>,
    missing: Seq<char>,
    j: Seq<Step>,
    p: nat,
) -> Option<(Result<u64, FailureView>, nat)> {
    match lookup_run(on, name, j, p) {
        None => None,
        Some((Ok(function), q)) => Some((Ok(function), q)),
        Some((Err(text), q)) => Some((Err(FailureView::General(missing + text)), q)),
    }
}

/// Finds a function of a type.
pub(crate) fn find<H: Fn(Query) -> Answer + Copy + 'static>(
    on: HostType,
    name: &str,
    missing: &str,
    session: &mut Session<H>,
) -> (result: Result<u64, JsFailure>)
    requires
        old(session).served(),
    ensures
        final(session).stays(*old(session)),
        replays(
            |j: Seq<Step>, p: nat| find_run(on, name@, missing@, j, p),
            old(session).journal(),
            final(session).journal(),
            part_of(result),
        ),
{
    match session.ask(Query::Lookup { on, name: name.to_owned() }).found() {
        Ok(function) => Ok(function),
        Err(text) => Err(JsFailure::General(joined(missing, &text))),
    }
}

/// Writing a property.
pub open spec fn put_run(object: JsView, key: KeyView, value: JsView, j: Seq<Step>, p: nat) -> Option<
    (Result<(), FailureView>, nat),
> {
    match put_reply(j, p, object, key, value) {
        None => None,
        Some(Ok(_)) => Some((Ok(()), p + 1)),
        Some(Err(text)) => Some((Err(FailureView::General(text)), p + 1)),
    }
}

/// Writes a property.
pub(crate) fn put_property<H: Fn(Query) -> Answer + Copy + 'static>(
    object: &JsValue,
    key: Key<'_>,
    value: &JsValue,
    context: &mut Context,
    session: &mut Session<H>,
) -> (result: Result<(), JsFailure>)
    requires
        old(session).attached(*old(context)),
        js_view(*object) is Object,
        key.wf(),
        lives_in(js_view(*object), *old(context)),
        lives_in(js_view(*value), *old(context)),
    ensures
        final(session).follows(*old(session)),
        final(session).attached(*final(context)),
        same_vm(*old(context), *final(context)),
        takes(*old(context), js_view(*object), key.spec_view()) ==> result is Ok
            && put_effect(
            *old(context),
            js_view(*object),
            key.spec_view(),
            js_view(*value),
            Ok::<bool, Seq<char>>(true),
            *final(context),
        ),
        replays(
            |j: Seq<Step>, p: nat|
                put_run(js_view(*object), key.spec_view(), js_view(*value), j, p),
            old(session).journal(),
            final(session).journal(),
            part_of(result),
        ),
{
    match session.put(context, object, key, value) {
        Ok(_) => Ok(()),
        Err(text) => Err(JsFailure::General(text)),
    }
}

/// The text of the first argument, if it is a string.
pub open spec fn first_name(arguments: Seq<JsView>, complaint: Seq<char>) -> Result<
    Seq<char>,
    FailureView,
> {
    match argument(arguments, 0) {
        JsView::Str(units) => Ok(js_text(units)),
        _ => Err(FailureView::WrongType(complaint)),
    }
}

/// The text of the first argument, if it is a string.
pub(crate) fn name_argument(arguments: &[JsValue], complaint: &str) -> (result: Result<
    String,
    JsFailure,
>)
    ensures
        (match result {
            Ok(name) => Ok::<Seq<char>, FailureView>(name@),
            Err(failure) => Err(failure@),
        }) == first_name(js_views(arguments@), complaint@),
{
    let first = argument_at(arguments, 0);
    if kind_of(&first) == JsKind::Text {
        Ok(text_of(&first))
    } else {
        Err(JsFailure::WrongType(complaint.to_owned()))
    }
}

} // verus!
