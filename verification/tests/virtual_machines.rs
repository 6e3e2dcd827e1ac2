use bevy_mod_scripting_js::host::{Answer, Global, HostFunction, Query};
use bevy_mod_scripting_js::mirror::mirror_app_globals_into_vm;
use bevy_mod_scripting_js::number::{is_finite, whole_number};
use bevy_mod_scripting_js::reference::{rr_this, JsReflectReference, JsStaticReflectReference};
use bevy_mod_scripting_js::registration::register_host_classes;
use bevy_mod_scripting_js::script_value::{eval_in_context, FromJs, IntoJs, JsScriptValue};
use bevy_mod_scripting_js::session::{new_context, Session};
use bevy_mod_scripting_js::text::{decimal_text, joined, same_text};
use bevy_mod_scripting_js::value::{
    FunctionRef, InteropError, ReflectReference, ScriptMap, ScriptValue,
};
use bevy_mod_scripting_js::vm::{
    js_context_load, js_context_reload, js_handler, keep_vm, reload_script, return_vm, take_vm,
};
use bevy_mod_scripting_js::vm_registry::{sid_key, JsVmRegistry};
use boa_engine::{Context, JsString, JsValue};
use std::any::TypeId;

struct World;
struct Settings;

fn host(query: Query) -> Answer {
    match query {
        Query::World => Answer::Done,
        Query::Describe(error) => Answer::Text(format!("{error:?}")),
        Query::FunctionId => Answer::Number(0),
        Query::Globals => Answer::Globals(vec![
            Global::Made { name: "greeting".to_string() },
            Global::Type { name: "Settings".to_string(), token: TypeId::of::<Settings>() },
        ]),
        Query::MakeGlobal { name } => Answer::Value(ScriptValue::String(format!("made {name}"))),
        Query::Functions => Answer::Functions(vec![
            HostFunction { name: "info".to_string(), function: 1, global: true },
            HostFunction { name: "hidden".to_string(), function: 2, global: false },
            HostFunction { name: "rand".to_string(), function: 3, global: true },
        ]),
        Query::Invoke { function: FunctionRef::Host(handle), .. } => {
            Answer::Value(ScriptValue::Integer(handle as i64))
        }
        Query::Entity => Answer::Reference(ReflectReference(900)),
        Query::GetField { target, .. } => Answer::Value(ScriptValue::Integer(target.0 as i64)),
        _ => Answer::Failed(InteropError::Host(5)),
    }
}

fn broken(text: &str) -> InteropError {
    InteropError::Invariant(text.to_string())
}

fn load(source: &str) -> Context {
    js_context_load("life", source.as_bytes(), TypeId::of::<World>(), host).0.unwrap()
}

fn look(context: &mut Context, source: &str) -> ScriptValue {
    let mut session = Session::new(host, context);
    let value = eval_in_context(source, context, &mut session).unwrap();
    JsScriptValue::from_js(&value, context, &mut session).unwrap().0
}

fn handle(context: &mut Context, label: &str, arguments: Vec<ScriptValue>) -> Result<ScriptValue, InteropError> {
    let mut session = Session::new(host, context);
    js_handler(&arguments, "script.js", label, context, &mut session)
}

#[test]
fn a_loaded_script_sees_what_the_host_has() {
    let mut context = load(
        "globalThis.seen = [greeting, typeof Settings, info(), rand(), typeof hidden, script_id];",
    );
    assert_eq!(
        look(&mut context, "seen"),
        ScriptValue::List(vec![
            ScriptValue::String("made greeting".to_string()),
            ScriptValue::String("object".to_string()),
            ScriptValue::Integer(1),
            ScriptValue::Integer(3),
            ScriptValue::String("undefined".to_string()),
            ScriptValue::String("life".to_string()),
        ])
    );
    assert_eq!(
        look(
            &mut context,
            "[world, Settings].every((token) => Object.getPrototypeOf(token) === StaticReflectReference.prototype)"
        ),
        ScriptValue::Bool(true)
    );
}

#[test]
fn a_script_that_throws_does_not_load() {
    let error = js_context_load("life", b"throw new Error('early')", TypeId::of::<World>(), host).0.err();
    assert_eq!(error, Some(broken("eval: Error: early")));
}

#[test]
fn nothing_loads_without_a_world() {
    let error = js_context_load("life", b"", TypeId::of::<World>(), |query| match query {
        Query::World => Answer::Failed(InteropError::Host(1)),
        query => host(query),
    })
    .0
    .err();
    assert_eq!(error, Some(InteropError::Host(1)));
}

#[test]
fn nothing_loads_without_its_globals() {
    let error = js_context_load("life", b"", TypeId::of::<World>(), |query| match query {
        Query::Globals => Answer::Failed(InteropError::Host(2)),
        query => host(query),
    })
    .0
    .err();
    assert_eq!(error, Some(InteropError::Host(2)));
    let error = js_context_load("life", b"", TypeId::of::<World>(), |query| match query {
        Query::MakeGlobal { .. } => Answer::Failed(InteropError::Host(3)),
        query => host(query),
    })
    .0
    .err();
    assert_eq!(error, Some(InteropError::Host(3)));
    let error = js_context_load("life", b"", TypeId::of::<World>(), |query| match query {
        Query::MakeGlobal { .. } => Answer::Value(ScriptValue::Error(InteropError::Host(4))),
        query => host(query),
    })
    .0
    .err();
    assert_eq!(error, Some(InteropError::Host(4)));
    let error = js_context_load("life", b"", TypeId::of::<World>(), |query| match query {
        Query::Functions => Answer::Done,
        query => host(query),
    })
    .0
    .err();
    assert_eq!(error, Some(broken("the answer does not fit the question")));
}

#[test]
fn the_world_needs_its_class() {
    let mut context = new_context();
    let mut session = Session::new(host, &context);
    assert_eq!(
        mirror_app_globals_into_vm(TypeId::of::<World>(), &mut context, &mut session),
        Err(broken("StaticReflectReference ctor missing"))
    );
}

#[test]
fn a_script_is_reloaded_in_its_machine() {
    let mut registry = JsVmRegistry::new();
    registry.insert(sid_key("a.js"), load("globalThis.kept = 1; globalThis.version = 1;"));
    registry.insert(sid_key("b.js"), load("globalThis.version = 10;"));
    assert_eq!(
        js_context_reload(Some(&mut registry), "a.js", b"globalThis.version = 2;", host).0,
        Ok(())
    );
    let mut a = registry.take("a.js").unwrap();
    assert_eq!(
        look(&mut a, "[kept, version]"),
        ScriptValue::List(vec![ScriptValue::Integer(1), ScriptValue::Integer(2)])
    );
    let mut b = registry.take("b.js").unwrap();
    assert_eq!(look(&mut b, "version"), ScriptValue::Integer(10));
}

#[test]
fn a_reloaded_machine_keeps_the_prototype_of_wrappers() {
    let mut context = load("globalThis.prototype = ReflectReference.prototype;");
    let mut session = Session::new(host, &context);
    assert_eq!(reload_script(b"", &mut context, &mut session), Ok(()));
    assert_eq!(
        look(&mut context, "prototype === ReflectReference.prototype && prototype === __bms_rr_proto"),
        ScriptValue::Bool(true)
    );
}

#[test]
fn a_script_that_throws_does_not_reload() {
    let mut registry = JsVmRegistry::new();
    registry.insert(sid_key("a.js"), load("globalThis.version = 1;"));
    assert_eq!(
        js_context_reload(Some(&mut registry), "a.js", b"throw new Error('late')", host).0,
        Err(broken("Error: late"))
    );
    let mut a = registry.take("a.js").unwrap();
    assert_eq!(look(&mut a, "version"), ScriptValue::Integer(1));
}

#[test]
fn nothing_reloads_without_a_machine() {
    assert_eq!(js_context_reload(None, "a.js", b"", host).0, Err(broken("JsVmRegistry missing")));
    let mut registry = JsVmRegistry::new();
    registry.insert(sid_key("b.js"), load(""));
    assert_eq!(
        js_context_reload(Some(&mut registry), "a.js", b"", host).0,
        Err(broken("no VM for this ScriptId"))
    );
    assert!(registry.take("b.js").is_some());
}

#[test]
fn a_callback_is_called() {
    let mut context = load("function on_click(x, y) { return { sum: x + y, id: script_id, entity: entity.get(0) } }");
    let result = handle(&mut context, "on_click", vec![ScriptValue::Integer(2), ScriptValue::Integer(3)]);
    let mut expected = ScriptMap::new();
    expected.insert("sum".to_string(), ScriptValue::Integer(5));
    expected.insert("id".to_string(), ScriptValue::String("script.js".to_string()));
    expected.insert("entity".to_string(), ScriptValue::Integer(900));
    assert_eq!(result, Ok(ScriptValue::Record(expected)));
}

#[test]
fn a_callback_can_return_its_entity() {
    let mut context = load("const same = () => entity;\nglobalThis.on_update = same;");
    assert_eq!(
        handle(&mut context, "on_update", vec![]),
        Ok(ScriptValue::Reference(ReflectReference(900)))
    );
}

#[test]
fn a_script_without_a_callback_is_left_alone() {
    let mut context = load("globalThis.on_update = 5;");
    let arguments = vec![ScriptValue::Error(InteropError::Host(1))];
    assert_eq!(handle(&mut context, "on_update", arguments.clone()), Ok(ScriptValue::Unit));
    assert_eq!(handle(&mut context, "on_click", arguments), Ok(ScriptValue::Unit));
    let mut context = load(
        "Object.defineProperty(globalThis, 'on_update', { get() { throw new Error('no') } });",
    );
    assert_eq!(handle(&mut context, "on_update", vec![]), Ok(ScriptValue::Unit));
}

#[test]
fn a_callback_that_fails_is_an_error() {
    let mut context = load("function on_update() { throw new Error('sorry') }");
    assert_eq!(handle(&mut context, "on_update", vec![]), Err(broken("Error: sorry")));
    assert_eq!(
        handle(&mut context, "on_update", vec![ScriptValue::Error(InteropError::Host(1))]),
        Err(InteropError::Host(1))
    );
    let mut context = load("globalThis.on_update = {};");
    let Err(InteropError::Invariant(text)) = handle(&mut context, "on_update", vec![]) else {
        panic!("no error")
    };
    assert_eq!(text, "TypeError: not a callable function");
    let mut context = load("function on_update() { return 1n }");
    assert_eq!(
        handle(&mut context, "on_update", vec![]),
        Err(InteropError::UnsupportedOperation("Unsupported JsValue -> ScriptValue".to_string()))
    );
}

#[test]
fn a_callback_needs_the_class_of_references() {
    let mut context = load("globalThis.ReflectReference = 5;");
    assert_eq!(
        handle(&mut context, "on_update", vec![]),
        Err(broken("ReflectReference ctor missing"))
    );
    let mut context = load(
        "Object.defineProperty(globalThis, 'entity', { value: 1, configurable: false });",
    );
    assert_eq!(
        handle(&mut context, "on_update", vec![]),
        Err(broken("TypeError: cannot redefine property: entity"))
    );
}

#[test]
fn a_callback_is_about_an_entity() {
    let mut context = load("");
    let serve = |query: Query| match query {
        Query::Entity => Answer::Failed(InteropError::Host(7)),
        query => host(query),
    };
    let mut session = Session::new(serve, &context);
    assert_eq!(
        js_handler(&vec![], "script.js", "on_update", &mut context, &mut session),
        Err(InteropError::Host(7))
    );
}

#[test]
fn machines_are_taken_and_returned() {
    let mut registry = JsVmRegistry::new();
    registry.insert(sid_key("a.js"), load("globalThis.name = 'a';"));
    registry.insert(sid_key("b.js"), load("globalThis.name = 'b';"));
    let vm = take_vm(Some(&mut registry), "a.js").unwrap();
    assert_eq!(take_vm(Some(&mut registry), "a.js").err(), Some(broken("no VM for this ScriptId")));
    let result = return_vm(Some(&mut registry), "a.js", vm, Err(InteropError::Host(3)));
    assert_eq!(result, Err(InteropError::Host(3)));
    let mut a = take_vm(Some(&mut registry), "a.js").unwrap();
    assert_eq!(look(&mut a, "name"), ScriptValue::String("a".to_string()));
    let mut b = take_vm(Some(&mut registry), "b.js").unwrap();
    assert_eq!(look(&mut b, "name"), ScriptValue::String("b".to_string()));
}

#[test]
fn a_registry_can_be_missing() {
    assert_eq!(take_vm(None, "a.js").err(), Some(broken("JsVmRegistry missing")));
    assert_eq!(
        return_vm(None, "a.js", new_context(), Ok(ScriptValue::Unit)),
        Err(broken("JsVmRegistry missing (post-call)"))
    );
}

#[test]
fn a_machine_replaces_the_one_before() {
    let mut registry = JsVmRegistry::new();
    assert!(registry.insert(sid_key("a.js"), load("globalThis.version = 1;")).is_none());
    let mut before = registry.insert(sid_key("a.js"), load("globalThis.version = 2;")).unwrap();
    assert_eq!(look(&mut before, "version"), ScriptValue::Integer(1));
    let mut after = registry.take("a.js").unwrap();
    assert_eq!(look(&mut after, "version"), ScriptValue::Integer(2));
    assert!(registry.take("a.js").is_none());
}

#[test]
fn globals_can_be_changed_by_scripts() {
    let mut context = load("greeting = 'changed'; delete globalThis.world;");
    assert_eq!(look(&mut context, "greeting"), ScriptValue::String("changed".to_string()));
    assert_eq!(look(&mut context, "typeof world"), ScriptValue::String("undefined".to_string()));
    let global = context.global_object();
    let alias = global.get(JsString::from("ReflectRef"), &mut context).unwrap();
    let class = global.get(JsString::from("ReflectReference"), &mut context).unwrap();
    assert_eq!(alias, class);
    assert_ne!(alias, JsValue::undefined());
}

#[test]
fn doubles_are_taken_apart() {
    assert_eq!(whole_number(0.0f64.to_bits()), Some(0));
    assert_eq!(whole_number((-0.0f64).to_bits()), Some(0));
    assert_eq!(whole_number(1.0f64.to_bits()), Some(1));
    assert_eq!(whole_number((-123456789.0f64).to_bits()), Some(-123456789));
    assert_eq!(whole_number(9007199254740992.0f64.to_bits()), Some(9007199254740992));
    assert_eq!(whole_number(9007199254740994.0f64.to_bits()), None);
    assert_eq!(whole_number(0.5f64.to_bits()), None);
    assert_eq!(whole_number(4503599627370495.5f64.to_bits()), None);
    assert_eq!(whole_number(f64::MIN_POSITIVE.to_bits()), None);
    assert_eq!(whole_number(f64::NAN.to_bits()), None);
    assert_eq!(whole_number(f64::INFINITY.to_bits()), None);
    assert!(is_finite(f64::MAX.to_bits()));
    assert!(!is_finite(f64::NEG_INFINITY.to_bits()));
    assert!(!is_finite(f64::NAN.to_bits()));
}

#[test]
fn texts_are_put_together() {
    assert_eq!(decimal_text(0), "0");
    assert_eq!(decimal_text(7), "7");
    assert_eq!(decimal_text(10), "10");
    assert_eq!(decimal_text(1234567890), "1234567890");
    assert_eq!(decimal_text(u64::MAX), "18446744073709551615");
    assert_eq!(joined("fn:", "12"), "fn:12");
    assert!(same_text("a\u{e9}", "a\u{e9}"));
    assert!(!same_text("a", "A"));
}

#[test]
fn wrappers_keep_their_prototype_whatever_a_script_does() {
    let mut context = load(
        "globalThis.kept = ReflectReference.prototype;
         try { __bms_rr_proto = 5 } catch (error) {}
         try { delete globalThis.__bms_rr_proto } catch (error) {}
         try { Object.defineProperty(globalThis, '__bms_rr_proto', { value: {} }) } catch (error) {}
         function on_update(wrapper) { return Object.getPrototypeOf(wrapper) === kept }",
    );
    let arguments = vec![ScriptValue::Reference(ReflectReference(4))];
    assert_eq!(handle(&mut context, "on_update", arguments), Ok(ScriptValue::Bool(true)));
}

fn names(context: &mut Context) -> Vec<ScriptValue> {
    let ScriptValue::List(names) = look(context, "Object.getOwnPropertyNames(globalThis).sort()") else {
        panic!("no names")
    };
    names
}

fn added(before: &[ScriptValue], after: &[ScriptValue]) -> Vec<ScriptValue> {
    assert!(before.iter().all(|name| after.contains(name)));
    after.iter().filter(|name| !before.contains(name)).cloned().collect()
}

fn text(text: &str) -> ScriptValue {
    ScriptValue::String(text.to_string())
}

#[test]
fn a_script_knows_its_entity_while_it_loads() {
    let source = "if (typeof entity === 'undefined' || typeof script_id !== 'string') throw 1;
                  globalThis.seen = [entity.get(0), Object.getPrototypeOf(entity) === ReflectReference.prototype];";
    let mut context = load(source);
    assert_eq!(
        look(&mut context, "seen"),
        ScriptValue::List(vec![ScriptValue::Integer(900), ScriptValue::Bool(true)])
    );
    let error = js_context_load("life", b"", TypeId::of::<World>(), |query| match query {
        Query::Entity => Answer::Failed(InteropError::Host(7)),
        query => host(query),
    })
    .0
    .err();
    assert_eq!(error, Some(InteropError::Host(7)));
}

#[test]
fn a_loaded_machine_is_kept() {
    let mut registry = JsVmRegistry::new();
    registry.insert(sid_key("b.js"), load("globalThis.version = 10;"));
    keep_vm(&mut registry, "a.js", load("globalThis.version = 1;"));
    keep_vm(&mut registry, "a.js", load("globalThis.version = 2;"));
    let mut a = registry.take("a.js").unwrap();
    assert_eq!(look(&mut a, "version"), ScriptValue::Integer(2));
    assert!(registry.take("a.js").is_none());
    let mut b = registry.take("b.js").unwrap();
    assert_eq!(look(&mut b, "version"), ScriptValue::Integer(10));
}

#[test]
fn classes_can_be_registered_again() {
    let mut context = new_context();
    let before = names(&mut context);
    let mut session = Session::new(host, &context);
    assert_eq!(register_host_classes(&mut context, &mut session), Ok(()));
    assert_eq!(register_host_classes(&mut context, &mut session), Ok(()));
    let after = names(&mut context);
    assert_eq!(
        added(&before, &after),
        vec![
            text("ReflectRef"),
            text("ReflectReference"),
            text("StaticReflectReference"),
            text("__bms_rr_proto"),
        ]
    );
    assert_eq!(
        look(&mut context, "ReflectRef === ReflectReference && ReflectReference.prototype === __bms_rr_proto"),
        ScriptValue::Bool(true)
    );
}

#[test]
fn the_class_of_tokens_changes_nothing_else() {
    let mut context = new_context();
    let before = names(&mut context);
    let mut session = Session::new(host, &context);
    assert!(JsStaticReflectReference::install_class(&mut context, &mut session).is_ok());
    let after = names(&mut context);
    assert_eq!(added(&before, &after), vec![text("StaticReflectReference")]);
    assert_eq!(
        look(&mut context, "Object.getOwnPropertyNames(StaticReflectReference.prototype).sort()"),
        ScriptValue::List(vec![text("call"), text("fn")])
    );
    assert_eq!(
        look(&mut context, "Object.getPrototypeOf(StaticReflectReference.prototype)"),
        ScriptValue::Unit
    );
}

#[test]
fn wrappers_have_the_prototype_of_their_class() {
    let mut context = new_context();
    let mut session = Session::new(host, &context);
    assert!(JsReflectReference::install_class(&mut context, &mut session).is_ok());
    let value = JsScriptValue(ScriptValue::Reference(ReflectReference(12)));
    let made = value.into_js(&mut context, &mut session).unwrap();
    assert_eq!(rr_this(&made), Ok(ReflectReference(12)));
    let back = JsScriptValue::from_js(&made, &mut context, &mut session).unwrap();
    assert_eq!(back.0, ScriptValue::Reference(ReflectReference(12)));
    let prototype = eval_in_context("ReflectReference.prototype", &mut context, &mut session).unwrap();
    assert_eq!(made.as_object().unwrap().prototype(), prototype.as_object().cloned());
}

#[test]
fn mirroring_defines_no_other_globals() {
    let mut context = new_context();
    let mut session = Session::new(host, &context);
    assert_eq!(register_host_classes(&mut context, &mut session), Ok(()));
    let before = names(&mut context);
    let mut session = Session::new(host, &context);
    assert_eq!(mirror_app_globals_into_vm(TypeId::of::<World>(), &mut context, &mut session), Ok(()));
    let after = names(&mut context);
    assert_eq!(
        added(&before, &after),
        vec![text("Settings"), text("greeting"), text("info"), text("rand"), text("world")]
    );
}

#[test]
fn a_function_wins_over_a_global_of_its_name() {
    let serve = |query: Query| match query {
        Query::Globals => Answer::Globals(vec![Global::Made { name: "info".to_string() }]),
        query => host(query),
    };
    let loaded = js_context_load("life", b"globalThis.seen = info();", TypeId::of::<World>(), serve);
    let mut context = loaded.0.unwrap();
    assert_eq!(look(&mut context, "seen"), ScriptValue::Integer(1));
}

#[test]
fn each_call_is_told_its_own_script_and_entity() {
    let mut context = load("function on_update() { return [script_id, entity.get(0)] }");
    let serve = |query: Query| match query {
        Query::Entity => Answer::Reference(ReflectReference(901)),
        query => host(query),
    };
    assert_eq!(
        handle(&mut context, "on_update", vec![]),
        Ok(ScriptValue::List(vec![text("script.js"), ScriptValue::Integer(900)]))
    );
    let mut session = Session::new(serve, &context);
    assert_eq!(
        js_handler(&vec![], "other.js", "on_update", &mut context, &mut session),
        Ok(ScriptValue::List(vec![text("other.js"), ScriptValue::Integer(901)]))
    );
}

#[test]
fn a_global_in_the_place_of_a_class_does_not_stop_a_script() {
    let serve = |query: Query| match query {
        Query::Globals => Answer::Globals(vec![Global::Made { name: "ReflectReference".to_string() }]),
        query => host(query),
    };
    let loaded = js_context_load("life", b"globalThis.seen = entity.get(0);", TypeId::of::<World>(), serve);
    let mut context = loaded.0.unwrap();
    assert_eq!(look(&mut context, "seen"), ScriptValue::Integer(900));
    assert_eq!(look(&mut context, "ReflectReference"), text("made ReflectReference"));
}

#[test]
fn a_prototype_of_a_script_is_not_taken() {
    let mut context = new_context();
    let mut session = Session::new(host, &context);
    eval_in_context("globalThis.__bms_rr_proto = { mine: 1 };", &mut context, &mut session).unwrap();
    assert_eq!(register_host_classes(&mut context, &mut session), Ok(()));
    assert_eq!(look(&mut context, "ReflectReference.prototype.mine"), ScriptValue::Unit);
    assert_eq!(look(&mut context, "ReflectReference.prototype === __bms_rr_proto"), ScriptValue::Bool(true));
}

#[test]
fn a_reload_keeps_what_scripts_made() {
    let mut context = load("globalThis.kept = [1]; function on_update() { return 1 }");
    let mut session = Session::new(host, &context);
    let source = b"function on_update() { return kept.length + 1 }";
    assert_eq!(reload_script(source, &mut context, &mut session), Ok(()));
    assert_eq!(handle(&mut context, "on_update", vec![]), Ok(ScriptValue::Integer(2)));
    assert_eq!(
        look(&mut context, "ReflectRef === ReflectReference && ReflectReference.prototype === __bms_rr_proto"),
        ScriptValue::Bool(true)
    );
}
