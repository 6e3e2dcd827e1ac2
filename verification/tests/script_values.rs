use bevy_mod_scripting_js::function_registry::{
    call_stored, ensure_registry, next_fn_id, store_callable, REGISTRY,
};
use bevy_mod_scripting_js::host::{Answer, Query};
use bevy_mod_scripting_js::script_value::{
    call_function, eval_in_context, FromJs, IntoJs, JsScriptValue,
};
use bevy_mod_scripting_js::session::{new_context, Session};
use bevy_mod_scripting_js::value::{
    FunctionRef, InteropError, ReflectReference, ScriptMap, ScriptValue,
};
use boa_engine::{Context, JsString, JsValue};
use std::cell::Cell;

/// Counts the functions that scripts hand out, and refuses every other question.
fn counting_host() -> impl Fn(Query) -> Answer + Copy + 'static {
    let next: &'static Cell<u64> = Box::leak(Box::new(Cell::new(0)));
    move |query| match query {
        Query::FunctionId => {
            let mut number = next.get();
            let id = next_fn_id(&mut number);
            next.set(number);
            Answer::Number(id)
        }
        _ => Answer::Failed(InteropError::Host(404)),
    }
}

fn convert(source: &str) -> Result<ScriptValue, InteropError> {
    let mut context = new_context();
    let mut session = Session::new(counting_host(), &context);
    let value = eval_in_context(source, &mut context, &mut session).unwrap();
    JsScriptValue::from_js(&value, &mut context, &mut session).map(|value| value.0)
}

fn unsupported() -> InteropError {
    InteropError::UnsupportedOperation("Unsupported JsValue -> ScriptValue".to_string())
}

fn broken(text: &str) -> InteropError {
    InteropError::Invariant(text.to_string())
}

fn record(entries: Vec<(&str, ScriptValue)>) -> ScriptValue {
    let mut map = ScriptMap::new();
    for (key, value) in entries {
        map.insert(key.to_string(), value);
    }
    ScriptValue::Record(map)
}

#[test]
fn nothing_becomes_unit() {
    assert_eq!(convert("undefined"), Ok(ScriptValue::Unit));
    assert_eq!(convert("null"), Ok(ScriptValue::Unit));
}

#[test]
fn booleans_match() {
    assert_eq!(convert("true"), Ok(ScriptValue::Bool(true)));
    assert_eq!(convert("1 > 2"), Ok(ScriptValue::Bool(false)));
}

#[test]
fn strings_match() {
    assert_eq!(convert("'caf\\u00e9 \\u{1F600}'"), Ok(ScriptValue::String("caf\u{e9} \u{1F600}".to_string())));
    assert_eq!(convert("''"), Ok(ScriptValue::String(String::new())));
}

#[test]
fn broken_utf16_is_escaped() {
    assert_eq!(convert("'a\\ud800b'"), Ok(ScriptValue::String("a\\uD800b".to_string())));
}

#[test]
fn whole_numbers_become_integers() {
    assert_eq!(convert("5"), Ok(ScriptValue::Integer(5)));
    assert_eq!(convert("-7.0"), Ok(ScriptValue::Integer(-7)));
    assert_eq!(convert("-0"), Ok(ScriptValue::Integer(0)));
    assert_eq!(convert("4294967296"), Ok(ScriptValue::Integer(4294967296)));
    assert_eq!(convert("2 ** 53"), Ok(ScriptValue::Integer(9007199254740992)));
    assert_eq!(convert("-(2 ** 53)"), Ok(ScriptValue::Integer(-9007199254740992)));
}

#[test]
fn other_numbers_become_doubles() {
    assert_eq!(convert("1.5"), Ok(ScriptValue::Float(1.5f64.to_bits())));
    assert_eq!(convert("2 ** 53 + 2"), Ok(ScriptValue::Float(9007199254740994.0f64.to_bits())));
    assert_eq!(convert("5e-324"), Ok(ScriptValue::Float(5e-324f64.to_bits())));
}

#[test]
fn no_numbers_are_refused() {
    assert_eq!(convert("NaN"), Err(unsupported()));
    assert_eq!(convert("1 / 0"), Err(unsupported()));
    assert_eq!(convert("-1 / 0"), Err(unsupported()));
}

#[test]
fn symbols_and_big_integers_are_refused() {
    assert_eq!(convert("Symbol('s')"), Err(unsupported()));
    assert_eq!(convert("10n"), Err(unsupported()));
}

#[test]
fn arrays_become_lists() {
    assert_eq!(convert("[]"), Ok(ScriptValue::List(vec![])));
    assert_eq!(
        convert("[1, 'two', [true, null], , 0.5]"),
        Ok(ScriptValue::List(vec![
            ScriptValue::Integer(1),
            ScriptValue::String("two".to_string()),
            ScriptValue::List(vec![ScriptValue::Bool(true), ScriptValue::Unit]),
            ScriptValue::Unit,
            ScriptValue::Float(0.5f64.to_bits()),
        ]))
    );
}

#[test]
fn objects_become_maps() {
    assert_eq!(convert("({})"), Ok(record(vec![])));
    assert_eq!(
        convert("({ b: 1, a: { c: 'x' }, 7: [2] })"),
        Ok(record(vec![
            ("7", ScriptValue::List(vec![ScriptValue::Integer(2)])),
            ("b", ScriptValue::Integer(1)),
            ("a", record(vec![("c", ScriptValue::String("x".to_string()))])),
        ]))
    );
}

#[test]
fn the_first_refused_value_ends_a_conversion() {
    assert_eq!(convert("[1, Symbol('s'), 2]"), Err(unsupported()));
    assert_eq!(convert("({ a: 10n })"), Err(unsupported()));
}

#[test]
fn an_element_that_throws_is_an_error() {
    assert_eq!(
        convert("Object.defineProperty([1], 0, { get() { throw new Error('no') } })"),
        Err(broken("Error: no"))
    );
}

#[test]
fn a_property_that_throws_is_an_error() {
    assert_eq!(
        convert("({ get a() { throw new TypeError('bad') } })"),
        Err(broken("TypeError: bad"))
    );
}

#[test]
fn a_script_can_break_the_listing_of_keys() {
    assert_eq!(
        convert("globalThis.Object = 5; ({})"),
        Err(broken("global Object is not an object"))
    );
    assert_eq!(convert("Object.keys = 5; ({})"), Err(broken("Object.keys is not a function")));
    assert_eq!(
        convert("Object.keys = () => 5; ({})"),
        Err(broken("Object.keys did not return an object"))
    );
    assert_eq!(
        convert("Object.keys = () => ({}); ({})"),
        Err(broken("Object.keys did not return an array"))
    );
    assert_eq!(
        convert("Object.keys = () => { throw new Error('none') }; ({})"),
        Err(broken("Error: none"))
    );
}

#[test]
fn keys_are_made_texts() {
    assert_eq!(
        convert("Object.keys = () => [1, true]; ({ 1: 'one', true: 'yes' })"),
        Ok(record(vec![
            ("1", ScriptValue::String("one".to_string())),
            ("true", ScriptValue::String("yes".to_string())),
        ]))
    );
}

fn into(value: ScriptValue, test: &str) -> bool {
    let mut context = new_context();
    let mut session = Session::new(counting_host(), &context);
    let made = JsScriptValue(value).into_js(&mut context, &mut session).unwrap();
    let global = context.global_object();
    global.set(JsString::from("made"), made, false, &mut context).unwrap();
    eval_in_context(test, &mut context, &mut session).unwrap() == JsValue::from(true)
}

#[test]
fn script_values_go_in() {
    assert!(into(ScriptValue::Unit, "made === undefined"));
    assert!(into(ScriptValue::Bool(true), "made === true"));
    assert!(into(ScriptValue::Integer(-3), "made === -3"));
    assert!(into(ScriptValue::Integer(9007199254740993), "made === 9007199254740992"));
    assert!(into(ScriptValue::Float(0.25f64.to_bits()), "made === 0.25"));
    assert!(into(ScriptValue::Float(f64::NAN.to_bits()), "Number.isNaN(made)"));
    assert!(into(ScriptValue::Float((-0.0f64).to_bits()), "Object.is(made, -0)"));
    assert!(into(ScriptValue::String("caf\u{e9}".to_string()), "made === 'caf\\u00e9'"));
    assert!(into(
        ScriptValue::List(vec![ScriptValue::Integer(1), ScriptValue::Unit]),
        "Array.isArray(made) && made.length === 2 && made[0] === 1 && made[1] === undefined"
    ));
    assert!(into(
        record(vec![("a", ScriptValue::Integer(1)), ("b", ScriptValue::Bool(false))]),
        "made.a === 1 && made.b === false && Object.keys(made).length === 2"
    ));
}

#[test]
fn functions_go_in_as_functions() {
    assert!(into(
        ScriptValue::Function(FunctionRef::Host(3)),
        "typeof made === 'function' && made.name === 'hostFn' && made.length === 0"
    ));
    assert!(into(ScriptValue::FunctionMut(3), "typeof made === 'function' && made.name === 'hostFn'"));
}

#[test]
fn references_go_in_without_a_prototype_where_there_is_none() {
    assert!(into(
        ScriptValue::Reference(ReflectReference(9)),
        "typeof made === 'object' && Object.getPrototypeOf(made) === null"
    ));
}

#[test]
fn errors_do_not_go_in() {
    let mut context = new_context();
    let mut session = Session::new(counting_host(), &context);
    let value = ScriptValue::List(vec![ScriptValue::Integer(1), ScriptValue::Error(InteropError::Host(8))]);
    assert_eq!(
        JsScriptValue(value).into_js(&mut context, &mut session).err(),
        Some(InteropError::Host(8))
    );
}

#[test]
fn data_comes_back_as_it_was() {
    let data = record(vec![
        ("unit", ScriptValue::Unit),
        ("truth", ScriptValue::Bool(true)),
        ("integer", ScriptValue::Integer(-9007199254740992)),
        ("double", ScriptValue::Float(0.1f64.to_bits())),
        ("text", ScriptValue::String("\u{1F600}".to_string())),
        ("reference", ScriptValue::Reference(ReflectReference(77))),
        ("list", ScriptValue::List(vec![record(vec![("5", ScriptValue::Integer(5))])])),
        ("__proto__", ScriptValue::Integer(1)),
    ]);
    let mut context = new_context();
    let mut session = Session::new(counting_host(), &context);
    let made = JsScriptValue(data.clone()).into_js(&mut context, &mut session).unwrap();
    let back = JsScriptValue::from_js(&made, &mut context, &mut session).unwrap().0;
    let ScriptValue::Record(back) = back else { panic!("not a map") };
    let ScriptValue::Record(data) = data else { panic!("not a map") };
    assert_eq!(back.entries.len(), data.entries.len());
    for entry in &data.entries {
        assert!(back.entries.contains(entry));
    }
}

#[test]
fn whole_doubles_come_back_as_integers() {
    let mut context = new_context();
    let mut session = Session::new(counting_host(), &context);
    let made = JsScriptValue(ScriptValue::Float(2.0f64.to_bits()))
        .into_js(&mut context, &mut session)
        .unwrap();
    let back = JsScriptValue::from_js(&made, &mut context, &mut session).unwrap().0;
    assert_eq!(back, ScriptValue::Integer(2));
}

#[test]
fn data_goes_back_as_it_was() {
    let mut context = new_context();
    let mut session = Session::new(counting_host(), &context);
    let value = eval_in_context(
        "globalThis.first = { a: [1, 2.5, 'x', null], b: { c: true } }; first",
        &mut context,
        &mut session,
    )
    .unwrap();
    let data = JsScriptValue::from_js(&value, &mut context, &mut session).unwrap();
    let again = data.into_js(&mut context, &mut session).unwrap();
    let global = context.global_object();
    global.set(JsString::from("again"), again, false, &mut context).unwrap();
    let same = eval_in_context(
        "JSON.stringify(again.a) === '[1,2.5,\"x\",null]' || (again.a.length === 4 && again.a[0] === 1 \
         && again.a[1] === 2.5 && again.a[2] === 'x' && again.a[3] === undefined && again.b.c === true)",
        &mut context,
        &mut session,
    )
    .unwrap();
    assert_eq!(same, JsValue::from(true));
}

#[test]
fn wrapping_is_transparent() {
    let mut wrapped = JsScriptValue::from(ScriptValue::Integer(4));
    assert_eq!(*wrapped, ScriptValue::Integer(4));
    *wrapped = ScriptValue::Unit;
    assert_eq!(wrapped.clone().0, ScriptValue::Unit);
    assert_eq!(ScriptValue::from(wrapped), ScriptValue::Unit);
}

#[test]
fn functions_come_out_and_can_be_called() {
    let mut context = new_context();
    let mut session = Session::new(counting_host(), &context);
    let one = eval_in_context("(a, b) => a + b", &mut context, &mut session).unwrap();
    let two = eval_in_context("(a) => [a, a]", &mut context, &mut session).unwrap();
    let one = JsScriptValue::from_js(&one, &mut context, &mut session).unwrap().0;
    let two = JsScriptValue::from_js(&two, &mut context, &mut session).unwrap().0;
    assert_eq!(one, ScriptValue::Function(FunctionRef::Script(0)));
    assert_eq!(two, ScriptValue::Function(FunctionRef::Script(1)));
    let arguments = vec![ScriptValue::Integer(2), ScriptValue::Integer(3)];
    assert_eq!(
        call_function(0, &arguments, &mut context, &mut session),
        ScriptValue::Integer(5)
    );
    assert_eq!(
        call_function(1, &arguments, &mut context, &mut session),
        ScriptValue::List(vec![ScriptValue::Integer(2), ScriptValue::Integer(2)])
    );
}

#[test]
fn a_function_that_throws_gives_an_error_value() {
    let mut context = new_context();
    let mut session = Session::new(counting_host(), &context);
    let function =
        eval_in_context("() => { throw new RangeError('far') }", &mut context, &mut session).unwrap();
    assert_eq!(store_callable(&function, &mut context, &mut session), Ok(0));
    assert_eq!(
        call_function(0, &vec![], &mut context, &mut session),
        ScriptValue::Error(broken("RangeError: far"))
    );
}

#[test]
fn an_argument_that_is_an_error_is_the_value_of_a_call() {
    let mut context = new_context();
    let mut session = Session::new(counting_host(), &context);
    let arguments = vec![ScriptValue::Error(InteropError::Host(1))];
    assert_eq!(
        call_function(0, &arguments, &mut context, &mut session),
        ScriptValue::Error(InteropError::Host(1))
    );
}

#[test]
fn a_result_that_is_refused_gives_an_error_value() {
    let mut context = new_context();
    let mut session = Session::new(counting_host(), &context);
    let function = eval_in_context("() => 1n", &mut context, &mut session).unwrap();
    assert_eq!(store_callable(&function, &mut context, &mut session), Ok(0));
    assert_eq!(
        call_function(0, &vec![], &mut context, &mut session),
        ScriptValue::Error(unsupported())
    );
}

#[test]
fn a_number_without_a_function_is_an_error() {
    let mut context = new_context();
    let mut session = Session::new(counting_host(), &context);
    assert_eq!(
        call_stored(12, &vec![], &mut context, &mut session).err(),
        Some(broken("stored value is not a function"))
    );
}

#[test]
fn functions_are_kept_under_their_numbers() {
    let mut context = new_context();
    let mut session = Session::new(counting_host(), &context);
    for id in 0..12u64 {
        let source = format!("() => {}", id * 10);
        let function = eval_in_context(&source, &mut context, &mut session).unwrap();
        assert_eq!(store_callable(&function, &mut context, &mut session), Ok(id));
    }
    for id in 0..12u64 {
        assert_eq!(
            call_function(id, &vec![], &mut context, &mut session),
            ScriptValue::Integer(id as i64 * 10)
        );
    }
    let named = eval_in_context("__bms_fn_reg['fn:11']()", &mut context, &mut session).unwrap();
    assert_eq!(named, JsValue::from(110));
}

#[test]
fn the_registry_is_made_once() {
    let mut context = new_context();
    let mut session = Session::new(counting_host(), &context);
    let one = ensure_registry(&mut context, &mut session).unwrap();
    let two = ensure_registry(&mut context, &mut session).unwrap();
    assert_eq!(one, two);
    assert_eq!(REGISTRY, "__bms_fn_reg");
}

#[test]
fn a_script_can_break_the_registry() {
    let mut context = new_context();
    let mut session = Session::new(counting_host(), &context);
    let function = eval_in_context("globalThis.__bms_fn_reg = 5; () => 1", &mut context, &mut session).unwrap();
    assert_eq!(
        ensure_registry(&mut context, &mut session).err(),
        Some(broken("registry is not an object"))
    );
    assert_eq!(
        JsScriptValue::from_js(&function, &mut context, &mut session).map(|value| value.0),
        Err(broken("registry is not an object"))
    );
}

#[test]
fn a_registry_that_throws_is_an_error() {
    let mut context = new_context();
    let mut session = Session::new(counting_host(), &context);
    eval_in_context(
        "Object.defineProperty(globalThis, '__bms_fn_reg', { get() { throw new Error('x') } })",
        &mut context,
        &mut session,
    )
    .unwrap();
    assert_eq!(ensure_registry(&mut context, &mut session).err(), Some(broken("Error: x")));
}

#[test]
fn numbers_for_functions_start_again() {
    let mut next = u64::MAX - 1;
    assert_eq!(next_fn_id(&mut next), u64::MAX - 1);
    assert_eq!(next_fn_id(&mut next), u64::MAX);
    assert_eq!(next_fn_id(&mut next), 0);
    assert_eq!(next, 1);
}

#[test]
fn answers_that_do_not_fit_are_errors() {
    let mut context = new_context();
    let mut session = Session::new(|_: Query| Answer::Done, &context);
    let function = eval_in_context("() => 1", &mut context, &mut session).unwrap();
    assert_eq!(
        store_callable(&function, &mut context, &mut session),
        Err(broken("the answer does not fit the question"))
    );
}

#[test]
fn scripts_that_do_not_parse_are_errors() {
    let mut context: Context = new_context();
    let mut session = Session::new(counting_host(), &context);
    let error = eval_in_context("let let = 5", &mut context, &mut session).err();
    let Some(InteropError::Invariant(text)) = error else { panic!("no error") };
    assert!(text.starts_with("SyntaxError"));
}

#[test]
fn a_value_that_contains_itself_is_refused() {
    let circular = Err(broken("the value contains itself"));
    assert_eq!(convert("let a = []; a.push(a); a"), circular);
    assert_eq!(convert("const o = { x: 1 }; o.self = o; o"), circular);
    assert_eq!(convert("const a = [1]; const b = { a }; a.push(b); [a]"), circular);
    assert_eq!(convert("const a = [[], {}]; a[1].up = a; a[1]"), circular);
}

#[test]
fn a_value_can_occur_twice() {
    let one = ScriptValue::List(vec![ScriptValue::Integer(1)]);
    assert_eq!(
        convert("const s = [1]; [s, [s], s]"),
        Ok(ScriptValue::List(vec![one.clone(), ScriptValue::List(vec![one.clone()]), one]))
    );
}

#[test]
fn numbers_under_index_keys_come_back() {
    let mut context = new_context();
    let mut session = Session::new(counting_host(), &context);
    let value = record(vec![
        ("0", ScriptValue::Integer(3)),
        ("1", ScriptValue::Float(1.5f64.to_bits())),
        ("2", ScriptValue::Integer(1 << 40)),
        ("name", ScriptValue::Integer(-4)),
    ]);
    let made = JsScriptValue(value.clone()).into_js(&mut context, &mut session).unwrap();
    let back = JsScriptValue::from_js(&made, &mut context, &mut session).unwrap();
    assert_eq!(back.0, value);
}

#[test]
fn a_text_goes_back_as_it_was() {
    let mut context = new_context();
    let mut session = Session::new(counting_host(), &context);
    let text = eval_in_context("'caf\\u00e9 \\u{1F600}'", &mut context, &mut session).unwrap();
    let value = JsScriptValue::from_js(&text, &mut context, &mut session).unwrap();
    assert_eq!(value.into_js(&mut context, &mut session).unwrap(), text);
}

#[test]
fn a_function_is_stored_without_a_call_and_called_once() {
    let mut context = new_context();
    let mut session = Session::new(counting_host(), &context);
    let source = "globalThis.calls = 0; (x) => { calls += 1; return x + 1 }";
    let function = eval_in_context(source, &mut context, &mut session).unwrap();
    let stored = JsScriptValue::from_js(&function, &mut context, &mut session).unwrap();
    assert_eq!(stored.0, ScriptValue::Function(FunctionRef::Script(0)));
    let calls = eval_in_context("calls", &mut context, &mut session).unwrap();
    assert_eq!(calls, JsValue::from(0));
    let arguments = vec![ScriptValue::Integer(41)];
    assert_eq!(call_function(0, &arguments, &mut context, &mut session), ScriptValue::Integer(42));
    let calls = eval_in_context("calls", &mut context, &mut session).unwrap();
    assert_eq!(calls, JsValue::from(1));
}

#[test]
fn properties_of_maps_can_be_changed() {
    let value = || record(vec![("a", ScriptValue::Integer(1)), ("b", record(vec![("c", ScriptValue::Unit)]))]);
    let flags = "(o, k) => { const d = Object.getOwnPropertyDescriptor(o, k); return d.writable && d.enumerable && d.configurable }";
    assert!(into(value(), &format!("({flags})(made, 'a') && ({flags})(made.b, 'c')")));
}

#[test]
fn host_functions_are_no_constructors() {
    let value = || ScriptValue::Function(FunctionRef::Host(3));
    assert!(into(value(), "try { new made(); false } catch (error) { error instanceof TypeError }"));
    assert!(into(ScriptValue::FunctionMut(3), "try { new made(); false } catch (error) { error instanceof TypeError }"));
}

#[test]
fn integers_go_to_the_nearest_double() {
    assert!(into(ScriptValue::Integer(i64::MAX), "made === 2 ** 63"));
    assert!(into(ScriptValue::Integer(18014398509481982), "made === 18014398509481982"));
    assert!(into(ScriptValue::Integer(18014398509481983), "made === 18014398509481984"));
}

fn fail(source: &str) -> InteropError {
    let mut context = new_context();
    let mut session = Session::new(counting_host(), &context);
    eval_in_context(source, &mut context, &mut session).unwrap_err()
}

#[test]
fn errors_have_their_texts() {
    assert_eq!(fail("throw new Error('early')"), broken("Error: early"));
    assert_eq!(fail("class Own extends Error { get name() { return 'x' } } throw new Own('late')"), broken("<error>: late"));
    assert_eq!(fail("const e = new Error('m'); e.name = 'Mine'; throw e"), broken("Mine: m"));
    assert_eq!(fail("throw 5"), broken("5"));
    assert_eq!(fail("throw 'text'"), broken("\"text\""));
    assert_eq!(fail("null.x"), broken("TypeError: cannot convert 'null' or 'undefined' to object"));
}

#[test]
fn objects_without_a_text_can_be_thrown() {
    let untold = broken("an object was thrown that has no text of its own");
    assert_eq!(fail("const e = new Error(); e.message = e; throw e"), untold);
    assert_eq!(fail("const e = new Error(); e.name = [e]; throw e"), untold);
    assert_eq!(fail("Error.prototype.message = new Error(); throw new Error()"), untold);
    assert_eq!(fail("throw { code: 1 }"), untold);
    assert_eq!(fail("throw new Array(2147483647)"), untold);
}

#[test]
fn a_registry_that_is_undefined_is_made() {
    let mut context = new_context();
    let mut session = Session::new(counting_host(), &context);
    eval_in_context("globalThis.__bms_fn_reg = undefined;", &mut context, &mut session).unwrap();
    let first = ensure_registry(&mut context, &mut session).unwrap();
    let second = ensure_registry(&mut context, &mut session).unwrap();
    assert_eq!(first, second);
    let found = eval_in_context("Object.getPrototypeOf(__bms_fn_reg) === null && __bms_fn_reg", &mut context, &mut session);
    assert_eq!(found.unwrap(), first);
}

#[test]
fn later_functions_take_no_place() {
    let mut context = new_context();
    let mut session = Session::new(counting_host(), &context);
    for number in 0..20 {
        let source = format!("() => {number}");
        let function = eval_in_context(&source, &mut context, &mut session).unwrap();
        assert_eq!(store_callable(&function, &mut context, &mut session), Ok(number));
    }
    for number in 0..20 {
        let result = call_stored(number, &vec![], &mut context, &mut session);
        assert_eq!(result.unwrap(), JsValue::from(number as i32));
    }
}
