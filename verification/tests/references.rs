use bevy_mod_scripting_js::classes::{define_method, define_symbol_iterator};
use bevy_mod_scripting_js::components::{is_qb_componentish_method, resolve_componentish_arg};
use bevy_mod_scripting_js::engine::JsFailure;
use bevy_mod_scripting_js::host::{Answer, CallTarget, Query, TailType};
use bevy_mod_scripting_js::native::Native;
use bevy_mod_scripting_js::reference::{
    arg_as_rr, rr_this, sref_this, JsReflectReference, JsStaticReflectReference,
};
use bevy_mod_scripting_js::registration::register_host_classes;
use bevy_mod_scripting_js::script_value::{eval_in_context, FromJs, IntoJs, JsScriptValue};
use bevy_mod_scripting_js::session::{new_context, Session};
use bevy_mod_scripting_js::value::{
    FunctionRef, HostType, InteropError, ReflectReference, ScriptValue,
};
use bevy_mod_scripting_js::vm::load_script;
use boa_engine::{Context, JsString, JsValue};
use std::any::TypeId;
use std::cell::RefCell;

type Log = &'static RefCell<Vec<String>>;

fn new_log() -> Log {
    Box::leak(Box::new(RefCell::new(Vec::new())))
}

/// Writes every question down and leaves the answer to `answer`, but for those about the world and the
/// entity, about texts of errors and about numbers of functions.
fn serving(log: Log, answer: fn(Query) -> Answer) -> impl Fn(Query) -> Answer + Copy + 'static {
    move |query| {
        log.borrow_mut().push(format!("{query:?}"));
        match query {
            Query::World => Answer::Done,
            Query::Describe(InteropError::Host(handle)) => Answer::Text(format!("host error {handle}")),
            Query::Describe(error) => Answer::Text(format!("{error:?}")),
            Query::FunctionId => Answer::Number(0),
            Query::Globals => Answer::Globals(vec![]),
            Query::Functions => Answer::Functions(vec![]),
            Query::Entity => Answer::Reference(ReflectReference(900)),
            query => answer(query),
        }
    }
}

struct World;

/// Loads a script that sees `thing`, a reference, and `world`, a type token, and evaluates a text to
/// a text.
fn run(source: &str, answer: fn(Query) -> Answer) -> (String, Vec<String>) {
    let log = new_log();
    let serve = serving(log, answer);
    let mut context = new_context();
    let mut session = Session::new(serve, &context);
    load_script("life", b"", TypeId::of::<World>(), &mut context, &mut session).unwrap();
    let thing = JsScriptValue(ScriptValue::Reference(ReflectReference(5)))
        .into_js(&mut context, &mut session)
        .unwrap();
    let global = context.global_object();
    global.set(JsString::from("thing"), thing, false, &mut context).unwrap();
    log.borrow_mut().clear();
    let source = format!("try {{ String(eval({source:?})) }} catch (error) {{ String(error) }}");
    let value = eval_in_context(&source, &mut context, &mut session).unwrap();
    let text = value.as_string().unwrap().to_std_string_escaped();
    let questions = log.borrow().clone();
    (text, questions)
}

fn refuse(_: Query) -> Answer {
    Answer::Failed(InteropError::Host(9))
}

fn echo(query: Query) -> Answer {
    Answer::Value(ScriptValue::String(format!("{query:?}")))
}

#[test]
fn get_reads_a_field() {
    let (text, questions) = run("thing.get('hp')", |_| Answer::Value(ScriptValue::Integer(40)));
    assert_eq!(text, "40");
    assert_eq!(
        questions,
        vec!["World", "GetField { target: ReflectReference(5), key: String(\"hp\") }"]
    );
}

#[test]
fn get_without_a_key_reads_under_nothing() {
    let (_, questions) = run("thing.get()", |_| Answer::Value(ScriptValue::Unit));
    assert_eq!(questions[1], "GetField { target: ReflectReference(5), key: Unit }");
}

#[test]
fn get_throws_what_the_host_says() {
    let (text, questions) = run("thing.get('hp')", refuse);
    assert_eq!(text, "Error: host error 9");
    assert_eq!(questions[2], "Describe(Host(9))");
}

#[test]
fn get_throws_a_type_error_for_a_key_that_is_refused() {
    let (text, questions) = run("thing.get(Symbol('s'))", refuse);
    assert_eq!(text, "TypeError: UnsupportedOperation(\"Unsupported JsValue -> ScriptValue\")");
    assert_eq!(questions.len(), 2);
}

#[test]
fn get_throws_for_a_value_that_is_an_error() {
    let (text, _) = run("thing.get('hp')", |_| Answer::Value(ScriptValue::Error(InteropError::Host(3))));
    assert_eq!(text, "Error: host error 3");
}

#[test]
fn methods_need_a_reference() {
    let (text, questions) = run("thing.get.call(5, 'hp')", refuse);
    assert_eq!(text, "TypeError: ReflectReference method called on non-object");
    assert_eq!(questions, vec!["World"]);
    let (text, _) = run("thing.get.call({}, 'hp')", refuse);
    assert_eq!(text, "TypeError: this is not a ReflectReference");
    let (text, _) = run("thing.get.call(world, 'hp')", refuse);
    assert_eq!(text, "TypeError: this is not a ReflectReference");
}

#[test]
fn methods_need_the_world() {
    let log = new_log();
    let mut context = new_context();
    let serve = move |query: Query| {
        log.borrow_mut().push(format!("{query:?}"));
        match query {
            Query::World => Answer::Failed(InteropError::Host(1)),
            Query::Describe(_) => Answer::Text("no world".to_string()),
            _ => Answer::Done,
        }
    };
    let mut session = Session::new(serve, &context);
    register_host_classes(&mut context, &mut session).unwrap();
    for call in ["get()", "set()", "call('f')", "len()", "toString()", "[Symbol.iterator]()"] {
        let dot = if call.starts_with('[') { "" } else { "." };
        let source = format!("try {{ __bms_rr_proto{dot}{call} }} catch (error) {{ String(error) }}");
        let value = eval_in_context(&source, &mut context, &mut session).unwrap();
        assert_eq!(value, JsValue::from(JsString::from("Error: no world")));
    }
    let value = eval_in_context(
        "try { __bms_rr_proto.method('f') } catch (error) { String(error) }",
        &mut context,
        &mut session,
    )
    .unwrap();
    assert_eq!(value, JsValue::from(JsString::from("TypeError: this is not a ReflectReference")));
}

#[test]
fn set_writes_a_field() {
    let (text, questions) = run("thing.set(0, [1, 'x'])", |_| Answer::Done);
    assert_eq!(text, "undefined");
    assert_eq!(
        questions,
        vec![
            "World",
            "SetField { target: ReflectReference(5), key: Integer(0), value: List([Integer(1), String(\"x\")]) }"
        ]
    );
    let (text, _) = run("thing.set(0, 1)", refuse);
    assert_eq!(text, "Error: host error 9");
    let (text, _) = run("thing.set(0, 1n)", refuse);
    assert_eq!(text, "TypeError: UnsupportedOperation(\"Unsupported JsValue -> ScriptValue\")");
}

#[test]
fn ref_set_writes_a_field_of_its_first_argument() {
    let (text, questions) = run("ReflectReference.ref_set(thing, 'hp', 7)", |_| Answer::Done);
    assert_eq!(text, "undefined");
    assert_eq!(
        questions[1],
        "SetField { target: ReflectReference(5), key: String(\"hp\"), value: Integer(7) }"
    );
    let (text, _) = run("ReflectReference.ref_set()", refuse);
    assert_eq!(text, "TypeError: expected ReflectReference object as first argument");
    let (text, _) = run("ReflectReference.ref_set(world)", refuse);
    assert_eq!(text, "TypeError: first argument is not a ReflectReference");
    let (text, _) = run("ReflectReference.ref_set.length + ReflectReference.ref_set.name", refuse);
    assert_eq!(text, "3ref_set");
}

#[test]
fn len_asks_for_the_length() {
    let (text, questions) = run("thing.len()", |_| Answer::Length(Some(3)));
    assert_eq!(text, "3");
    assert_eq!(questions, vec!["World", "Length(ReflectReference(5))"]);
    let (text, _) = run("thing.len()", |_| Answer::Length(None));
    assert_eq!(text, "undefined");
    let (text, _) = run("thing.len()", |_| Answer::Length(Some(4294967295)));
    assert_eq!(text, "-1");
    let (text, _) = run("thing.len()", refuse);
    assert_eq!(text, "Error: host error 9");
}

#[test]
fn to_string_shows_a_host_value() {
    fn answer(query: Query) -> Answer {
        match query {
            Query::Lookup { .. } => Answer::Function(31),
            query => echo(query),
        }
    }
    let (text, questions) = run("thing", answer);
    assert_eq!(text, "Invoke { function: Host(31), arguments: [Reference(ReflectReference(5))] }");
    assert_eq!(questions[1], "Lookup { on: ReflectReference, name: \"display_ref\" }");
}

#[test]
fn to_string_needs_its_function() {
    let (text, _) = run("thing.toString()", |_| Answer::Text("display_ref".to_string()));
    assert_eq!(text, "Error: missing function display_ref: display_ref");
}

#[test]
fn call_calls_a_method() {
    let (text, questions) = run("thing.call('hurt', 3, thing)", echo);
    let call = "CallOverloads { on: BaseOf(ReflectReference(5)), name: \"hurt\", arguments: \
                [Reference(ReflectReference(5)), Integer(3), Reference(ReflectReference(5))] }";
    assert_eq!(text, call);
    assert_eq!(questions, vec!["World", call]);
}

#[test]
fn call_needs_a_name() {
    for source in ["thing.call()", "thing.call(5)", "thing.call(new String('f'))"] {
        let (text, _) = run(source, refuse);
        assert_eq!(text, "TypeError: call(name, ...args): name must be a string");
    }
}

#[test]
fn call_throws_what_the_host_says() {
    let (text, _) = run("thing.call('hurt')", refuse);
    assert_eq!(text, "Error: host error 9");
    let (text, _) = run("thing.call('hurt', 1n)", refuse);
    assert_eq!(text, "TypeError: UnsupportedOperation(\"Unsupported JsValue -> ScriptValue\")");
}

#[test]
fn type_tokens_are_no_values() {
    let (text, _) = run("thing.call('hurt', world)", refuse);
    assert_eq!(
        text,
        "TypeError: UnsupportedOperation(\"StaticReflectReference cannot be passed as a value; use its \
         .call(...)/.fn(...) APIs or get a dynamic type handle via world.get_type_by_name(...)\")"
    );
}

#[test]
fn call_resolves_components() {
    fn answer(query: Query) -> Answer {
        match query {
            Query::Lookup { .. } => Answer::Function(2),
            Query::Invoke { .. } => Answer::Value(ScriptValue::Reference(ReflectReference(70))),
            Query::TailType(ReflectReference(70)) => Answer::Tail(TailType::Component),
            query => echo(query),
        }
    }
    let (text, questions) = run("thing.call('component', 'Health', 4)", answer);
    assert_eq!(
        text,
        "CallOverloads { on: BaseOf(ReflectReference(5)), name: \"component\", arguments: \
         [Reference(ReflectReference(5)), Reference(ReflectReference(70)), Integer(4)] }"
    );
    assert_eq!(
        questions[1..4],
        [
            "Lookup { on: World, name: \"get_component_by_name\" }".to_string(),
            "Invoke { function: Host(2), arguments: [String(\"Health\")] }".to_string(),
            "TailType(ReflectReference(70))".to_string(),
        ]
    );
}

#[test]
fn call_throws_for_a_component_that_is_none() {
    let (text, _) = run("thing.call('with_component', 'Health')", |query| match query {
        Query::Lookup { .. } => Answer::Text("gone".to_string()),
        query => echo(query),
    });
    assert_eq!(text, "Error: MissingFunction { on: World, name: \"get_type_by_name\" }");
}

#[test]
fn methods_can_be_bound() {
    let (text, questions) = run(
        "globalThis.hurt = thing.method('hurt'); hurt.name + hurt.length + hurt.call(null, 3)",
        echo,
    );
    assert_eq!(
        text,
        "method:hurt0CallOverloads { on: BaseOf(ReflectReference(5)), name: \"hurt\", arguments: \
         [Reference(ReflectReference(5)), Integer(3)] }"
    );
    assert_eq!(questions[0], "World");
    assert_eq!(questions.len(), 2);
    let (text, _) = run("thing.method(5)", refuse);
    assert_eq!(text, "TypeError: method(name): name must be a string");
    let (text, _) = run("thing.method('f')(1n)", refuse);
    assert_eq!(text, "Error: UnsupportedOperation(\"Unsupported JsValue -> ScriptValue\")");
}

#[test]
fn bound_methods_resolve_components() {
    fn answer(query: Query) -> Answer {
        match query {
            Query::TailType(ReflectReference(5)) => Answer::Tail(TailType::Component),
            query => echo(query),
        }
    }
    let (_, questions) = run("thing.method('components')([thing, 4])", answer);
    assert_eq!(
        questions,
        vec![
            "World",
            "TailType(ReflectReference(5))",
            "World",
            "CallOverloads { on: BaseOf(ReflectReference(5)), name: \"components\", arguments: \
             [Reference(ReflectReference(5)), List([Reference(ReflectReference(5)), Integer(4)])] }"
        ]
    );
}

#[test]
fn host_values_are_iterated_over() {
    fn answer(query: Query) -> Answer {
        match query {
            Query::Lookup { .. } => Answer::Function(8),
            Query::Invoke { .. } => Answer::Value(ScriptValue::FunctionMut(55)),
            Query::InvokeMut { .. } => Answer::Value(ScriptValue::Unit),
            query => echo(query),
        }
    }
    let (text, questions) = run("[...thing].length", answer);
    assert_eq!(text, "0");
    assert_eq!(
        questions,
        vec![
            "World",
            "Lookup { on: ReflectReference, name: \"iter\" }",
            "Invoke { function: Host(8), arguments: [Reference(ReflectReference(5))] }",
            "InvokeMut { function: 55, arguments: [] }"
        ]
    );
}

#[test]
fn an_iterator_gives_the_values_of_the_host() {
    let left: &'static RefCell<Vec<i64>> = Box::leak(Box::new(RefCell::new(vec![30, 20, 10])));
    let serve = move |query: Query| match query {
        Query::World => Answer::Done,
        Query::Lookup { .. } => Answer::Function(8),
        Query::Invoke { .. } => Answer::Value(ScriptValue::FunctionMut(55)),
        Query::InvokeMut { function: 55, .. } => match left.borrow_mut().pop() {
            Some(value) => Answer::Value(ScriptValue::Integer(value)),
            None => Answer::Value(ScriptValue::Unit),
        },
        _ => Answer::Failed(InteropError::Host(0)),
    };
    let mut context = new_context();
    let mut session = Session::new(serve, &context);
    register_host_classes(&mut context, &mut session).unwrap();
    let thing = JsScriptValue(ScriptValue::Reference(ReflectReference(5)))
        .into_js(&mut context, &mut session)
        .unwrap();
    let global = context.global_object();
    global.set(JsString::from("thing"), thing, false, &mut context).unwrap();
    let value = eval_in_context("[...thing]", &mut context, &mut session).unwrap();
    assert_eq!(
        JsScriptValue::from_js(&value, &mut context, &mut session).unwrap().0,
        ScriptValue::List(vec![
            ScriptValue::Integer(10),
            ScriptValue::Integer(20),
            ScriptValue::Integer(30)
        ])
    );
    let value = eval_in_context(
        "const step = thing[Symbol.iterator]().next(); step.done === true && !('value' in step)",
        &mut context,
        &mut session,
    )
    .unwrap();
    assert_eq!(value, JsValue::from(true));
}

#[test]
fn iteration_needs_its_function() {
    let (text, _) = run("[...thing]", |_| Answer::Text("iter".to_string()));
    assert_eq!(text, "Error: missing function iter: iter");
    let (text, _) = run("[...thing]", |query| match query {
        Query::Lookup { .. } => Answer::Function(8),
        _ => Answer::Value(ScriptValue::Integer(1)),
    });
    assert_eq!(text, "Error: iter did not return a function");
    let (text, _) = run("[...thing]", |query| match query {
        Query::Lookup { .. } => Answer::Function(8),
        Query::Invoke { .. } => Answer::Value(ScriptValue::FunctionMut(1)),
        query => refuse(query),
    });
    assert_eq!(text, "Error: host error 9");
}

#[test]
fn types_are_called() {
    let (text, questions) = run("world.call('query', 1).length", |_| {
        Answer::Value(ScriptValue::String("four".to_string()))
    });
    assert_eq!(text, "4");
    let token = TypeId::of::<World>();
    assert_eq!(
        questions,
        vec![
            "World".to_string(),
            format!("CallOverloads {{ on: {:?}, name: \"query\", arguments: [Integer(1)] }}", CallTarget::Token(token)),
        ]
    );
    let (text, _) = run("world.call(1)", refuse);
    assert_eq!(text, "TypeError: call(name, ...args): name must be a string");
    let (text, _) = run("world.call('f')", refuse);
    assert_eq!(text, "Error: host error 9");
    let (text, _) = run("world.call.call(1, 'f')", refuse);
    assert_eq!(text, "TypeError: StaticReflectReference method called on non-object");
    let (text, _) = run("world.call.call(thing, 'f')", refuse);
    assert_eq!(text, "TypeError: this is not a StaticReflectReference");
}

#[test]
fn functions_of_types_can_be_bound() {
    let (text, questions) = run("const f = world.fn('component'); f.name + f.length + f('Health')", |_| {
        Answer::Value(ScriptValue::Bool(true))
    });
    assert_eq!(text, "component.fn0true");
    assert_eq!(questions[0], "World");
    assert!(questions[1].ends_with("name: \"component\", arguments: [String(\"Health\")] }"));
    let (text, _) = run("world.fn()", refuse);
    assert_eq!(text, "TypeError: fn(name): name must be a string");
    let (text, _) = run("world.fn.call({}, 'f')", refuse);
    assert_eq!(text, "TypeError: this is not a StaticReflectReference");
}

#[test]
fn classes_are_not_constructed() {
    let (text, _) = run("ReflectReference()", refuse);
    assert_eq!(text, "TypeError: ReflectReference cannot be constructed from JS");
    let (text, _) = run("StaticReflectReference()", refuse);
    assert_eq!(text, "TypeError: StaticReflectReference cannot be constructed from JS");
}

#[test]
fn wrappers_share_the_prototype_of_the_class() {
    let (text, _) = run(
        "[Object.getPrototypeOf(thing) === ReflectReference.prototype, ReflectRef === ReflectReference, \
         Object.getPrototypeOf(world) === StaticReflectReference.prototype, \
         Object.keys(globalThis).includes('__bms_rr_proto')]",
        refuse,
    );
    assert_eq!(text, "true,true,true,false");
}

#[test]
fn host_functions_are_called() {
    let log = new_log();
    let mut context = new_context();
    let serve = serving(log, |query| match query {
        Query::Invoke { function: FunctionRef::Host(3), arguments } => {
            Answer::Value(ScriptValue::List(arguments))
        }
        Query::InvokeMut { function: 4, arguments } => Answer::Value(ScriptValue::List(arguments)),
        _ => Answer::Failed(InteropError::Host(6)),
    });
    let mut session = Session::new(serve, &context);
    let functions = vec![
        ScriptValue::Function(FunctionRef::Host(3)),
        ScriptValue::FunctionMut(4),
        ScriptValue::Function(FunctionRef::Script(3)),
    ];
    let made = JsScriptValue(ScriptValue::List(functions))
        .into_js(&mut context, &mut session)
        .unwrap();
    let global = context.global_object();
    global.set(JsString::from("functions"), made, false, &mut context).unwrap();
    let value = eval_in_context(
        "const [one, two, three] = functions; let thrown; \
         try { three() } catch (error) { thrown = String(error) } \
         [String(one(1, 2)), String(two()), thrown].join('|')",
        &mut context,
        &mut session,
    )
    .unwrap();
    assert_eq!(value, JsValue::from(JsString::from("1,2||Error: host error 6")));
    let value = eval_in_context(
        "try { one(1n) } catch (error) { String(error) }",
        &mut context,
        &mut session,
    )
    .unwrap();
    assert_eq!(
        value,
        JsValue::from(JsString::from(
            "Error: UnsupportedOperation(\"Unsupported JsValue -> ScriptValue\")"
        ))
    );
}

#[test]
fn receivers_are_told_apart() {
    let mut context = new_context();
    let mut session = Session::new(refuse, &context);
    let wrapper = JsScriptValue(ScriptValue::Reference(ReflectReference(12)))
        .into_js(&mut context, &mut session)
        .unwrap();
    assert_eq!(rr_this(&wrapper), Ok(ReflectReference(12)));
    assert_eq!(arg_as_rr(&[wrapper.clone()]), Ok(ReflectReference(12)));
    assert_eq!(
        sref_this(&wrapper).err(),
        Some(JsFailure::WrongType("this is not a StaticReflectReference".to_string()))
    );
    assert_eq!(
        rr_this(&JsValue::from(1)).err(),
        Some(JsFailure::WrongType("ReflectReference method called on non-object".to_string()))
    );
    assert_eq!(ReflectReference::from(JsReflectReference::from(ReflectReference(1))), ReflectReference(1));
    assert_eq!(JsStaticReflectReference(TypeId::of::<World>()), JsStaticReflectReference(TypeId::of::<World>()));
}

#[test]
fn a_script_can_break_the_symbols() {
    let mut context: Context = new_context();
    let mut session = Session::new(refuse, &context);
    let prototype = eval_in_context("({})", &mut context, &mut session).unwrap();
    assert_eq!(define_method(&prototype, "get", Native::Get, &mut context, &mut session), Ok(()));
    assert_eq!(
        define_symbol_iterator(&prototype, Native::Iterator, &mut context, &mut session),
        Ok(())
    );
    eval_in_context("globalThis.Symbol = { iterator: 5 }", &mut context, &mut session).unwrap();
    assert_eq!(
        define_symbol_iterator(&prototype, Native::Iterator, &mut context, &mut session),
        Err(JsFailure::General("Symbol.iterator is not a symbol".to_string()))
    );
    eval_in_context("globalThis.Symbol = 5", &mut context, &mut session).unwrap();
    assert_eq!(
        define_symbol_iterator(&prototype, Native::Iterator, &mut context, &mut session),
        Err(JsFailure::General("global Symbol is not an object".to_string()))
    );
    let error = JsReflectReference::install_class(&mut context, &mut session).err().unwrap();
    assert_eq!(error.to_string(), "Error: global Symbol is not an object");
    assert_eq!(
        register_host_classes(&mut context, &mut session),
        Err(InteropError::Invariant(
            "install ReflectReference: Error: global Symbol is not an object".to_string()
        ))
    );
}

#[test]
fn a_script_can_break_the_definition_of_classes() {
    let mut context: Context = new_context();
    let mut session = Session::new(refuse, &context);
    eval_in_context(
        "Object.defineProperty(globalThis, 'StaticReflectReference', { value: 5 })",
        &mut context,
        &mut session,
    )
    .unwrap();
    let error = JsStaticReflectReference::install_class(&mut context, &mut session).err().unwrap();
    assert_eq!(error.to_string(), "Error: TypeError: cannot redefine property: StaticReflectReference");
    assert_eq!(
        register_host_classes(&mut context, &mut session),
        Err(InteropError::Invariant(
            "install StaticReflectReference: Error: TypeError: cannot redefine property: \
             StaticReflectReference"
                .to_string()
        ))
    );
}

#[test]
fn methods_that_take_components() {
    for name in [
        "component",
        "components",
        "with_component",
        "with_components",
        "without_component",
        "without_components",
    ] {
        assert!(is_qb_componentish_method(name));
    }
    for name in ["", "Component", "with", "build", "components "] {
        assert!(!is_qb_componentish_method(name));
    }
}

fn resolve(value: ScriptValue, answer: fn(Query) -> Answer) -> (Result<ScriptValue, InteropError>, Vec<String>) {
    let log = new_log();
    let mut context = new_context();
    let mut session = Session::new(serving(log, answer), &context);
    let result = resolve_componentish_arg(&value, &mut context, &mut session);
    let questions = log.borrow().clone();
    (result, questions)
}

fn reference(handle: u64) -> ScriptValue {
    ScriptValue::Reference(ReflectReference(handle))
}

#[test]
fn other_arguments_are_left() {
    let values = vec![
        ScriptValue::Unit,
        ScriptValue::Integer(1),
        ScriptValue::Float(0),
        ScriptValue::Bool(true),
        ScriptValue::FunctionMut(1),
        ScriptValue::Error(InteropError::Host(1)),
    ];
    for value in &values {
        assert_eq!(resolve(value.clone(), refuse), (Ok(value.clone()), vec![]));
    }
    let list = ScriptValue::List(values);
    assert_eq!(resolve(list.clone(), refuse), (Ok(list), vec![]));
}

#[test]
fn registrations_of_components_are_left() {
    let (result, questions) = resolve(reference(1), |_| Answer::Tail(TailType::Component));
    assert_eq!(result, Ok(reference(1)));
    assert_eq!(questions, vec!["TailType(ReflectReference(1))"]);
    let (result, _) = resolve(reference(1), |_| Answer::Tail(TailType::Other));
    assert_eq!(result, Ok(reference(1)));
    let (result, _) = resolve(reference(1), |_| Answer::Tail(TailType::Unknown));
    assert_eq!(result, Ok(reference(1)));
    let (result, _) = resolve(reference(1), refuse);
    assert_eq!(result, Err(InteropError::Host(9)));
}

#[test]
fn registrations_of_types_become_components() {
    let (result, questions) = resolve(reference(1), |query| match query {
        Query::TailType(ReflectReference(1)) => Answer::Tail(TailType::Registration),
        Query::TailType(ReflectReference(2)) => Answer::Tail(TailType::Component),
        Query::CallOverloads { .. } => Answer::Value(ScriptValue::Reference(ReflectReference(2))),
        query => refuse(query),
    });
    assert_eq!(result, Ok(reference(2)));
    assert_eq!(
        questions,
        vec![
            "TailType(ReflectReference(1))",
            "CallOverloads { on: Named(TypeRegistration), name: \"as_component\", arguments: \
             [Reference(ReflectReference(1))] }",
            "TailType(ReflectReference(2))"
        ]
    );
}

#[test]
fn a_type_that_is_no_component_is_refused() {
    let mismatch = InteropError::TypeMismatch {
        expected: HostType::ComponentRegistration,
        got: Some(HostType::TypeRegistration),
    };
    let (result, _) = resolve(reference(1), |query| match query {
        Query::CallOverloads { .. } => Answer::Value(ScriptValue::Unit),
        _ => Answer::Tail(TailType::Registration),
    });
    assert_eq!(result, Err(mismatch.clone()));
    let (result, _) = resolve(reference(1), |query| match query {
        Query::CallOverloads { .. } => Answer::Value(ScriptValue::Reference(ReflectReference(1))),
        _ => Answer::Tail(TailType::Registration),
    });
    assert_eq!(result, Err(mismatch));
}

#[test]
fn names_fall_back_to_types() {
    let (result, questions) = resolve(ScriptValue::String("Health".to_string()), |query| match query {
        Query::Lookup { name, .. } if name == "get_component_by_name" => Answer::Function(1),
        Query::Lookup { .. } => Answer::Function(2),
        Query::Invoke { function: FunctionRef::Host(1), .. } => Answer::Value(ScriptValue::Unit),
        Query::Invoke { .. } => Answer::Value(ScriptValue::Reference(ReflectReference(4))),
        Query::TailType(ReflectReference(4)) => Answer::Tail(TailType::Registration),
        Query::CallOverloads { .. } => Answer::Value(ScriptValue::Reference(ReflectReference(6))),
        Query::TailType(_) => Answer::Tail(TailType::Component),
        query => refuse(query),
    });
    assert_eq!(result, Ok(reference(6)));
    assert_eq!(
        questions,
        vec![
            "Lookup { on: World, name: \"get_component_by_name\" }",
            "Invoke { function: Host(1), arguments: [String(\"Health\")] }",
            "Lookup { on: World, name: \"get_type_by_name\" }",
            "Invoke { function: Host(2), arguments: [String(\"Health\")] }",
            "TailType(ReflectReference(4))",
            "TailType(ReflectReference(4))",
            "CallOverloads { on: Named(TypeRegistration), name: \"as_component\", arguments: \
             [Reference(ReflectReference(4))] }",
            "TailType(ReflectReference(6))"
        ]
    );
}

#[test]
fn names_of_nothing_are_refused() {
    let mismatch =
        InteropError::TypeMismatch { expected: HostType::ComponentRegistration, got: None };
    let name = ScriptValue::List(vec![ScriptValue::String("Health".to_string())]);
    let (result, _) = resolve(name.clone(), |query| match query {
        Query::Lookup { name, .. } if name == "get_component_by_name" => Answer::Text("gone".to_string()),
        Query::Lookup { .. } => Answer::Function(2),
        _ => Answer::Value(ScriptValue::Unit),
    });
    assert_eq!(result, Err(mismatch.clone()));
    let (result, _) = resolve(name.clone(), |query| match query {
        Query::Lookup { .. } => Answer::Function(2),
        Query::Invoke { .. } => Answer::Value(ScriptValue::Reference(ReflectReference(4))),
        _ => Answer::Tail(TailType::Other),
    });
    assert_eq!(result, Err(mismatch));
    let (result, _) = resolve(name, |query| match query {
        Query::Lookup { .. } => Answer::Function(2),
        query => refuse(query),
    });
    assert_eq!(result, Err(InteropError::Host(9)));
}

#[test]
fn the_steps_of_an_iterator_have_no_other_properties() {
    let shape = "const step = thing[Symbol.iterator]().next();
        [Object.getPrototypeOf(step), Object.entries(step)].join()";
    let (text, _) = run(shape, |query| match query {
        Query::Lookup { .. } => Answer::Function(1),
        Query::InvokeMut { .. } => Answer::Value(ScriptValue::Integer(6)),
        _ => Answer::Value(ScriptValue::FunctionMut(2)),
    });
    assert_eq!(text, ",value,6,done,false");
    let (text, _) = run(shape, |query| match query {
        Query::Lookup { .. } => Answer::Function(1),
        Query::InvokeMut { .. } => Answer::Value(ScriptValue::Unit),
        _ => Answer::Value(ScriptValue::FunctionMut(2)),
    });
    assert_eq!(text, ",done,true");
}

#[test]
fn methods_are_called_alike() {
    let (called, _) = run("thing.call('grow', 1, 'a')", echo);
    let (bound, _) = run("thing.method('grow')(1, 'a')", echo);
    assert_eq!(called, bound);
    assert!(called.contains("arguments: [Reference(ReflectReference(5)), Integer(1), String(\"a\")]"));
}

#[test]
fn what_was_resolved_is_left_the_second_time() {
    fn answer(query: Query) -> Answer {
        match query {
            Query::TailType(ReflectReference(1)) => Answer::Tail(TailType::Registration),
            Query::TailType(_) => Answer::Tail(TailType::Component),
            Query::CallOverloads { .. } => Answer::Value(ScriptValue::Reference(ReflectReference(2))),
            Query::Lookup { .. } => Answer::Function(7),
            Query::Invoke { .. } => Answer::Value(ScriptValue::Reference(ReflectReference(3))),
            query => refuse(query),
        }
    }
    let value = ScriptValue::List(vec![
        reference(1),
        ScriptValue::List(vec![ScriptValue::String("Health".to_string()), ScriptValue::Integer(4)]),
    ]);
    let once = resolve(value, answer).0.unwrap();
    assert_eq!(
        once,
        ScriptValue::List(vec![
            reference(2),
            ScriptValue::List(vec![reference(3), ScriptValue::Integer(4)]),
        ])
    );
    assert_eq!(resolve(once.clone(), answer).0, Ok(once));
}

#[test]
fn classes_are_no_constructors() {
    let (text, _) = run("new ReflectReference()", refuse);
    assert!(text.starts_with("TypeError"), "{text}");
    let (text, _) = run("new StaticReflectReference()", refuse);
    assert!(text.starts_with("TypeError"), "{text}");
}
