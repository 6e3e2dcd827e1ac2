//! What the bindings see of the Boa engine: its values, its heap and its errors.
use crate::number;
use crate::reference::JsReflectReference;
use boa_engine::{Context, JsError, JsNativeError, JsObject, JsString, JsValue};
use boa_engine::builtins::error::ErrorObject;
use std::any::TypeId;
use std::marker::PhantomData;
use vstd::prelude::*;

verus! {

/// The engine's virtual machine.
#[verifier::external_type_specification]
#[verifier::external_body]
pub struct ExContext(Context);

/// A value of the engine.
#[verifier::external_type_specification]
#[verifier::external_body]
pub struct ExJsValue(JsValue);

/// An error of the engine.
#[verifier::external_type_specification]
#[verifier::external_body]
pub struct ExJsError(JsError);

/// The identity of a Rust type.
#[verifier::external_type_specification]
#[verifier::external_body]
pub struct ExTypeId(TypeId);

/// A JavaScript value as contracts see it.
pub enum JsView {
    Undefined,
    Null,
    Boolean(bool),
    /// The UTF-16 code units of a string.
    Str(Seq<u16>),
    /// A number that the engine keeps as an integer.
    Integer(i32),
    /// A number that the engine keeps as a double, by its bits.
    Rational(u64),
    BigInt(int),
    Symbol(nat),
    Object(ObjectView),
}

/// What never changes about an object.
pub struct ObjectView {
    /// Which object it is.
    pub id: nat,
    /// The virtual machine in which it was made, by [`js_vm`].
    pub vm: nat,
    /// It can be called.
    pub callable: bool,
    /// It can be called with `new`.
    pub constructs: bool,
    /// The host value that it wraps, if it is a reference wrapper.
    pub reference: Option<u64>,
    /// The type that it stands for, if it is a type token.
    pub token: Option<TypeId>,
    /// It is an array.
    pub array: bool,
    /// It was made as an error.
    pub error: bool,
    /// It is the engine's own `Object.keys`.
    pub lists_keys: bool,
}

/// The state of an object that keeps its properties in the ordinary way.
pub enum JsNode {
    /// An array without holes and without accessors, by its elements.
    Array(Seq<JsView>),
    /// An object without native data, or a function of the engine or of the bindings, by its own data
    /// properties.
    Object {
        /// The value of each own data property whose key is a string.
        data: Map<Seq<u16>, JsView>,
        /// Every own property is one of these, and enumerable.
        plain: bool,
        /// It has no prototype and takes new properties, and every own property is data and can be
        /// written.
        bare: bool,
    },
}

/// What a JavaScript value holds.
pub uninterp spec fn js_view(value: JsValue) -> JsView;

/// The arrays of a virtual machine, its objects without native data and the functions of the engine
/// and of the bindings, by their identity, with what reading their properties gives. The functions
/// of scripts are not among them, nor are wrappers, tokens and other objects with native data.
pub uninterp spec fn js_heap(context: Context) -> Map<nat, JsNode>;

/// The global object of a virtual machine.
pub uninterp spec fn js_global(context: Context) -> JsView;

/// Which virtual machine it is, which nothing that happens in it changes.
pub uninterp spec fn js_vm(context: Context) -> nat;

/// A value belongs to a virtual machine: it is no object, or one that was made there.
///
/// Objects are shared: whoever has one can change it. Only values that belong to a virtual machine are
/// handed to it, so that what happens in one virtual machine changes no other.
pub open spec fn lives_in(view: JsView, context: Context) -> bool {
    view matches JsView::Object(object) ==> object.vm == js_vm(context)
}

/// All values of a sequence belong to a virtual machine.
pub open spec fn live_in(views: Seq<JsView>, context: Context) -> bool {
    forall|i: int| 0 <= i < views.len() ==> lives_in(#[trigger] views[i], context)
}

/// A property as contracts see it.
pub struct PropertyView {
    /// What it holds, if it is data.
    pub value: Option<JsView>,
    /// It can be written.
    pub writable: bool,
    /// It is listed.
    pub enumerable: bool,
    /// It can be removed and redefined.
    pub configurable: bool,
}

/// The property that an object has of its own under a key.
pub uninterp spec fn js_property(context: Context, object: JsView, key: Seq<u16>) -> Option<
    PropertyView,
>;

/// The object from which an object inherits.
pub uninterp spec fn js_prototype_of(context: Context, object: JsView) -> Option<JsView>;

/// An object has data of its own under a key that is writable, enumerable and configurable.
pub open spec fn is_open(context: Context, object: JsView, key: Seq<u16>) -> bool {
    js_property(context, object, key) matches Some(property) && property.value is Some
        && property.writable && property.enumerable && property.configurable
}

/// A property holds a value as data, and is neither writable nor enumerable nor configurable.
pub open spec fn is_closed(property: Option<PropertyView>, value: JsView) -> bool {
    property == Some(
        PropertyView {
            value: Some(value),
            writable: false,
            enumerable: false,
            configurable: false,
        },
    )
}

/// The global object holds a value under a key as data that is neither writable nor enumerable nor
/// configurable.
pub open spec fn holds_closed(context: Context, key: Seq<u16>, value: JsView) -> bool {
    is_closed(js_property(context, js_global(context), key), value)
}

/// The calls that are under way in a virtual machine leave room for another one within its
/// runtime limits.
pub uninterp spec fn js_roomy(context: Context) -> bool;

/// The prototype that the engine gives to the functions of the bindings.
pub uninterp spec fn js_function_prototype(context: Context) -> JsView;

/// No script ran in a virtual machine.
pub uninterp spec fn js_pristine(context: Context) -> bool;

/// The own properties of the global object of a virtual machine that nothing can change: those that
/// are data and neither writable nor enumerable nor configurable, and were so before the first script
/// ran, if the global object is ordinary.
pub uninterp spec fn js_fixed(context: Context) -> Map<Seq<u16>, JsView>;

/// What nothing can change in a virtual machine is as it was.
pub open spec fn stays_fixed(before: Context, after: Context) -> bool {
    forall|key: Seq<u16>| #[trigger]
        js_fixed(before).contains_key(key) ==> js_fixed(after).contains_key(key) && js_fixed(
            after,
        )[key] == js_fixed(before)[key]
}

/// An object of a virtual machine has room for a property under a key: it is ordinary and takes new
/// properties, and neither it nor any object in the chain of its prototypes, which are all
/// ordinary, has a property under that key.
pub uninterp spec fn js_vacant(context: Context, object: JsView, key: Seq<u16>) -> bool;

/// The global object of a virtual machine takes the definition of a data property under a key, which
/// is writable, enumerable and configurable if it is open, and none of these otherwise.
pub uninterp spec fn js_admits(context: Context, key: Seq<u16>, value: JsView, open: bool) -> bool;

/// An object is none of those from which the global object of a virtual machine or the prototype of
/// functions inherits, nor one of these two.
pub uninterp spec fn js_apart(context: Context, object: JsView) -> bool;

/// Nothing of a script runs in a virtual machine: it is the same one with the same global object and
/// room for calls, what the global object and the prototype of functions did not inherit from, they do
/// not inherit from, and open properties of other objects than the global one stay open.
pub open spec fn quiet(before: Context, after: Context) -> bool {
    &&& js_vm(after) == js_vm(before)
    &&& js_global(after) == js_global(before)
    &&& js_roomy(after) == js_roomy(before)
    &&& js_pristine(before) ==> js_pristine(after)
    &&& forall|object: JsView| #[trigger] js_apart(before, object) ==> js_apart(after, object)
    &&& forall|object: JsView, key: Seq<u16>|
        is_open(before, object, key) && object != js_global(before) ==> #[trigger] is_open(
            after,
            object,
            key,
        )
}

/// Nothing of a script runs in a virtual machine, and under other keys than one, objects have the room
/// that they had, the global object takes what it took, and its open and closed properties stay what
/// they are.
pub open spec fn calm(before: Context, after: Context, key: Option<Seq<u16>>) -> bool {
    &&& quiet(before, after)
    &&& forall|object: JsView, own: Seq<u16>| #[trigger]
        js_vacant(before, object, own) && key != Some(own) ==> js_vacant(after, object, own)
    &&& forall|own: Seq<u16>, value: JsView, open: bool| #[trigger]
        js_admits(before, own, value, open) && key != Some(own) ==> js_admits(
            after,
            own,
            value,
            open,
        )
    &&& forall|own: Seq<u16>|
        key != Some(own) && is_open(before, js_global(before), own) ==> #[trigger] is_open(
            after,
            js_global(before),
            own,
        )
    &&& forall|own: Seq<u16>, value: JsView|
        #![trigger holds_closed(before, own, value)]
        #![trigger holds_closed(after, own, value)]
        key != Some(own) && value is Object ==> holds_closed(before, own, value) == holds_closed(
            after,
            own,
            value,
        )
}

/// A virtual machine is as it was.
pub open spec fn untouched(before: Context, after: Context) -> bool {
    &&& js_heap(after) == js_heap(before)
    &&& calm(before, after, None)
}

/// The UTF-16 code units of a character.
pub open spec fn units_of(character: char) -> Seq<u16> {
    let code = character as int;
    if code < 0x1_0000 {
        seq![code as u16]
    } else {
        seq![
            (0xd800 + (code - 0x1_0000) / 0x400) as u16,
            (0xdc00 + (code - 0x1_0000) % 0x400) as u16,
        ]
    }
}

/// The UTF-16 code units of a text.
#[verifier::opaque]
pub open spec fn js_units(text: Seq<char>) -> Seq<u16>
    decreases text.len(),
{
    if text.len() == 0 {
        Seq::empty()
    } else {
        js_units(text.drop_last()) + units_of(text.last())
    }
}

/// The code units of a character tell how many they are and which character it is.
proof fn lemma_units_of(character: char)
    ensures
        units_of(character).len() == 1 || units_of(character).len() == 2,
        units_of(character).len() == 1 ==> units_of(character)[0] == character as int && !(0xdc00
            <= units_of(character)[0] < 0xe000),
        units_of(character).len() == 2 ==> {
            &&& units_of(character)[0] == 0xd800 + (character as int - 0x1_0000) / 0x400
            &&& units_of(character)[1] == 0xdc00 + (character as int - 0x1_0000) % 0x400
            &&& 0xdc00 <= units_of(character)[1] < 0xe000
        },
{
    let code = character as int;
    assert(0 <= code <= 0x10_ffff);
    assert(!(0xd800 <= code < 0xe000));
}

/// No two texts have the same code units.
pub proof fn law_units_are_injective(one: Seq<char>, other: Seq<char>)
    requires
        js_units(one) == js_units(other),
    ensures
        one == other,
    decreases one.len(),
{
    reveal(js_units);
    let units = js_units(one);
    if one.len() > 0 && other.len() > 0 {
        let (a, b) = (one.last(), other.last());
        lemma_units_of(a);
        lemma_units_of(b);
        assert(units.last() == units_of(a).last() && units.last() == units_of(b).last());
        assert(units_of(a).len() == units_of(b).len());
        let count = units_of(a).len() as int;
        assert(units_of(a) =~= units.skip(units.len() - count));
        assert(units_of(b) =~= units.skip(units.len() - count));
        assert(units_of(a) == units_of(b));
        assert(a as int == b as int);
        assert(js_units(one.drop_last()) =~= units.take(units.len() - count));
        assert(js_units(other.drop_last()) =~= units.take(units.len() - count));
        law_units_are_injective(one.drop_last(), other.drop_last());
        assert(one =~= one.drop_last().push(a));
        assert(other =~= other.drop_last().push(b));
    } else if one.len() > 0 {
        assert(units_of(one.last()).len() > 0);
        assert(units.len() > 0);
    } else if other.len() > 0 {
        assert(units_of(other.last()).len() > 0);
        assert(units.len() > 0);
    }
}

/// The text of code units, which `JsString::to_std_string_escaped` computes: where they are no
/// UTF-16, the offending unit is written as an escape.
pub uninterp spec fn js_text(units: Seq<u16>) -> Seq<char>;

/// The double that is nearest to an integer, by its bits.
pub uninterp spec fn js_double(value: i64) -> u64;

/// The kind and the message of an error.
pub uninterp spec fn js_failure(error: JsError) -> FailureView;

/// The text that the engine shows of an error.
pub uninterp spec fn js_shown(context: Context, error: JsError) -> Seq<char>;

/// The value that a script threw, if an error is no error of the engine itself.
pub uninterp spec fn js_thrown(error: JsError) -> Option<JsView>;

/// The text of an `Error` or a `TypeError`, which `JsError::to_string` computes of its kind and its
/// message.
pub uninterp spec fn js_error_text(failure: FailureView) -> Seq<char>;

/// A value is a number that is a small integer, kept in either form.
pub open spec fn is_small(view: JsView, integer: i32) -> bool {
    match view {
        JsView::Integer(own) => own == integer,
        JsView::Rational(bits) => number::represents(bits, integer as int),
        _ => false,
    }
}

/// Two values are the same but for the form of a number: the engine can keep a small integer as an
/// integer or as a double, and one NaN for another.
pub open spec fn alike(one: JsView, other: JsView) -> bool {
    ||| one == other
    ||| exists|integer: i32| #[trigger] is_small(one, integer) && is_small(other, integer)
    ||| (one matches JsView::Rational(own) && number::is_nan(own)) && (
    other matches JsView::Rational(own) && number::is_nan(own))
}

/// Properties have the same keys and alike values.
pub open spec fn alike_data(one: Map<Seq<u16>, JsView>, other: Map<Seq<u16>, JsView>) -> bool {
    &&& one.dom() =~= other.dom()
    &&& forall|key: Seq<u16>| #[trigger] one.contains_key(key) ==> alike(one[key], other[key])
}

/// What is like something that is like a third thing is like that.
pub proof fn lemma_alike_through(one: JsView, between: JsView, other: JsView)
    requires
        alike(one, between),
        alike(between, other),
    ensures
        alike(one, other),
{
    if one != between && between != other {
        if exists|integer: i32| #[trigger] is_small(one, integer) && is_small(between, integer) {
            let integer = choose|integer: i32| #[trigger]
                is_small(one, integer) && is_small(between, integer);
            if exists|own: i32| #[trigger] is_small(between, own) && is_small(other, own) {
                let own = choose|own: i32| #[trigger]
                    is_small(between, own) && is_small(other, own);
                if let JsView::Rational(bits) = between {
                    number::law_value_is_unique(bits, integer as int, own as int);
                }
                assert(is_small(one, own));
            }
        }
    }
}

/// Properties like properties that are like others are like those, with another property or without.
pub proof fn lemma_alike_data_through(
    one: Map<Seq<u16>, JsView>,
    between: Map<Seq<u16>, JsView>,
    other: Map<Seq<u16>, JsView>,
    key: Seq<u16>,
    value: JsView,
)
    requires
        alike_data(one, between),
    ensures
        alike_data(between, other) ==> alike_data(one, other),
        alike_data(between.insert(key, value), other) ==> alike_data(one.insert(key, value), other),
{
    if alike_data(between, other) {
        assert forall|own: Seq<u16>| #[trigger] one.contains_key(own) implies alike(
            one[own],
            other[own],
        ) by {
            assert(between.contains_key(own));
            lemma_alike_through(one[own], between[own], other[own]);
        }
    }
    if alike_data(between.insert(key, value), other) {
        let more = one.insert(key, value);
        assert forall|own: Seq<u16>| #[trigger] more.contains_key(own) implies alike(
            more[own],
            other[own],
        ) by {
            assert(between.insert(key, value).contains_key(own));
            if own != key {
                assert(one.contains_key(own));
                lemma_alike_through(one[own], between[own], other[own]);
            }
        }
        assert(more.dom() =~= other.dom());
    }
}

/// The kinds of JavaScript values, with what a primitive holds.
#[derive(Debug, Clone, Copy, PartialEq, Eq, Structural)]
pub enum JsKind {
    Undefined,
    Null,
    Boolean(bool),
    Text,
    Integer(i32),
    Rational(u64),
    BigInt,
    Symbol,
    Object,
}

/// The kind of a value.
pub open spec fn kind_of_view(view: JsView) -> JsKind {
    match view {
        JsView::Undefined => JsKind::Undefined,
        JsView::Null => JsKind::Null,
        JsView::Boolean(value) => JsKind::Boolean(value),
        JsView::Str(_) => JsKind::Text,
        JsView::Integer(value) => JsKind::Integer(value),
        JsView::Rational(bits) => JsKind::Rational(bits),
        JsView::BigInt(_) => JsKind::BigInt,
        JsView::Symbol(_) => JsKind::Symbol,
        JsView::Object(_) => JsKind::Object,
    }
}

/// An error that the bindings throw into a script.
#[derive(Debug, PartialEq)]
pub enum JsFailure {
    /// An `Error`.
    General(String),
    /// A `TypeError`.
    WrongType(String),
}

/// A [`JsFailure`] as contracts see it.
pub enum FailureView {
    General(Seq<char>),
    WrongType(Seq<char>),
    /// An error of another kind, or any other thrown value.
    Other,
}

impl View for JsFailure {
    type V = FailureView;

    open spec fn view(&self) -> FailureView {
        match *self {
            JsFailure::General(text) => FailureView::General(text@),
            JsFailure::WrongType(text) => FailureView::WrongType(text@),
        }
    }
}

/// Tells the variants of [`JsValue`] apart.
///
/// The kind is the variant, with the payload of a boolean or a number; a double is handed over
/// by its bits.
#[verifier::external_body]
pub(crate) fn kind_of(value: &JsValue) -> (kind: JsKind)
    ensures
        kind == kind_of_view(js_view(*value)),
{
    match value {
        JsValue::Undefined => JsKind::Undefined,
        JsValue::Null => JsKind::Null,
        JsValue::Boolean(value) => JsKind::Boolean(*value),
        JsValue::String(_) => JsKind::Text,
        JsValue::Integer(value) => JsKind::Integer(*value),
        JsValue::Rational(value) => JsKind::Rational(value.to_bits()),
        JsValue::BigInt(_) => JsKind::BigInt,
        JsValue::Symbol(_) => JsKind::Symbol,
        JsValue::Object(_) => JsKind::Object,
    }
}

/// Whether a value can be called: `JsValue::is_callable`.
#[verifier::external_body]
pub(crate) fn is_callable(value: &JsValue) -> (callable: bool)
    ensures
        callable == (js_view(*value) matches JsView::Object(object) && object.callable),
{
    value.is_callable()
}

/// Whether an object is an array: `JsObject::is_array`.
#[verifier::external_body]
pub(crate) fn is_array(value: &JsValue) -> (array: bool)
    ensures
        array == (js_view(*value) matches JsView::Object(object) && object.array),
{
    value.as_object().is_some_and(|object| object.is_array())
}

/// Whether two objects are one: `JsObject::equals`.
///
/// An object is a function, an array or a wrapper from the beginning, and stays it.
#[verifier::external_body]
pub(crate) fn same_object(one: &JsValue, other: &JsValue) -> (same: bool)
    requires
        js_view(*one) is Object,
        js_view(*other) is Object,
    ensures
        same == (js_view(*one) == js_view(*other)),
{
    JsObject::equals(one.as_object().unwrap(), other.as_object().unwrap())
}

/// The host value that a reference wrapper holds: `JsObject::downcast_ref`.
///
/// An object is a reference wrapper exactly if it was made as one with
/// [`crate::session::Session::new_reference`].
#[verifier::external_body]
pub(crate) fn reference_of(value: &JsValue) -> (reference: Option<u64>)
    ensures
        reference == match js_view(*value) {
            JsView::Object(object) => object.reference,
            _ => None,
        },
{
    let object = value.as_object()?;
    let data = object.downcast_ref::<(u64, PhantomData<JsReflectReference>)>()?;
    Some(data.0)
}

/// The type that a type token stands for: `JsObject::downcast_ref`.
///
/// An object is a type token exactly if it was made as one with
/// [`crate::session::Session::new_token`].
#[verifier::external_body]
pub(crate) fn token_of(value: &JsValue) -> (token: Option<TypeId>)
    ensures
        token == match js_view(*value) {
            JsView::Object(object) => object.token,
            _ => None,
        },
{
    let object = value.as_object()?;
    let token = object.downcast_ref::<TypeId>()?;
    Some(*token)
}

/// The text of a string: `JsString::to_std_string_escaped`.
///
/// The code units of a text read as that text.
#[verifier::external_body]
pub(crate) fn text_of(value: &JsValue) -> (text: String)
    requires
        js_view(*value) is Str,
    ensures
        text@ == js_text(js_view(*value)->Str_0),
        forall|own: Seq<char>|
            js_view(*value)->Str_0 == #[trigger] js_units(own) ==> text@ == own,
{
    value.as_string().unwrap().to_std_string_escaped()
}

/// Another handle to the same value: `JsValue::clone`.
#[verifier::external_body]
pub(crate) fn clone_value(value: &JsValue) -> (copy: JsValue)
    ensures
        js_view(copy) == js_view(*value),
{
    value.clone()
}

/// `undefined`: `JsValue::undefined`.
#[verifier::external_body]
pub(crate) fn undefined_value() -> (value: JsValue)
    ensures
        js_view(value) == JsView::Undefined,
{
    JsValue::undefined()
}

/// A boolean: `JsValue::from`.
#[verifier::external_body]
pub(crate) fn boolean_value(value: bool) -> (made: JsValue)
    ensures
        js_view(made) == JsView::Boolean(value),
{
    JsValue::from(value)
}

/// A small integer: `JsValue::from`.
#[verifier::external_body]
pub(crate) fn small_integer_value(value: i32) -> (made: JsValue)
    ensures
        js_view(made) == JsView::Integer(value),
{
    JsValue::from(value)
}

/// The double that an integer converts to: `JsValue::from` of an integer, then
/// `JsValue::as_number`.
///
/// The conversion is exact up to two to the power of 53; beyond, it goes to a nearest double.
#[verifier::external_body]
pub(crate) fn integer_value(value: i64) -> (made: JsValue)
    ensures
        js_view(made) == JsView::Rational(js_double(value)),
        number::magnitude(value as int) <= number::WHOLE_LIMIT ==> number::represents(
            js_view(made)->Rational_0,
            value as int,
        ),
        number::is_nearest(js_view(made)->Rational_0, value as int),
{
    JsValue::from(value).as_number().map_or(JsValue::nan(), JsValue::from)
}

/// A string: `JsString::from`.
///
/// The text that it is made of is the text that it reads as.
#[verifier::external_body]
pub(crate) fn text_value(text: &str) -> (made: JsValue)
    ensures
        js_view(made) == JsView::Str(js_units(text@)),
        js_text(js_view(made)->Str_0) == text@,
{
    JsValue::from(JsString::from(text))
}

/// An `Error` with a message: `JsNativeError::error`.
#[verifier::external_body]
pub(crate) fn general_error(message: String) -> (error: JsError)
    ensures
        js_failure(error) == FailureView::General(message@),
        js_thrown(error) is None,
{
    JsNativeError::error().with_message(message).into()
}

/// A `TypeError` with a message: `JsNativeError::typ`.
#[verifier::external_body]
pub(crate) fn type_error(message: String) -> (error: JsError)
    ensures
        js_failure(error) == FailureView::WrongType(message@),
        js_thrown(error) is None,
{
    JsNativeError::typ().with_message(message).into()
}

/// The value that a script threw: `JsError::as_opaque`.
#[verifier::external_body]
pub(crate) fn thrown_value(error: &JsError) -> (thrown: Option<JsValue>)
    ensures
        js_thrown(*error) == match thrown {
            Some(value) => Some(js_view(value)),
            None => None,
        },
{
    error.as_opaque().cloned()
}

/// Whether an object was made as an error: `JsObject::is`.
#[verifier::external_body]
pub(crate) fn is_error(value: &JsValue) -> (error: bool)
    ensures
        error == (js_view(*value) matches JsView::Object(object) && object.error),
{
    value.as_object().is_some_and(|object| object.is::<ErrorObject>())
}

/// What an object has or inherits under a key, within some steps, is no object.
pub open spec fn is_simple(context: Context, object: JsView, key: Seq<u16>, steps: nat) -> bool
    decreases steps,
{
    steps > 0 && match js_property(context, object, key) {
        Some(property) => !(property.value matches Some(JsView::Object(_))),
        None => match js_prototype_of(context, object) {
            Some(parent) => is_simple(context, parent, key, (steps - 1) as nat),
            None => true,
        },
    }
}

/// How far the name and the message of an error are looked for.
pub const CHAIN_LIMIT: usize = 100;

/// An error has a text that is made of no other objects: it is one of the engine itself, a script threw
/// something that is no object, or it threw an error whose name and message are no objects.
pub open spec fn has_text(context: Context, error: JsError) -> bool {
    match js_thrown(error) {
        Some(JsView::Object(object)) => {
            &&& object.error
            &&& is_simple(context, JsView::Object(object), js_units("name"@), CHAIN_LIMIT as nat)
            &&& is_simple(context, JsView::Object(object), js_units("message"@), CHAIN_LIMIT as nat)
        },
        _ => true,
    }
}

/// The text of an error: `JsError::to_string`.
///
/// The text of any other object would be made of what it contains, which can be an object that
/// contains itself. What the text is made of is only said for an `Error` and a `TypeError` of the engine
/// itself.
#[verifier::external_body]
pub(crate) fn error_text(error: &JsError, context: &Context) -> (text: String)
    requires
        has_text(*context, *error),
    ensures
        text@ == js_shown(*context, *error),
        !(js_failure(*error) is Other) ==> text@ == js_error_text(js_failure(*error)),
{
    error.to_string()
}

/// The error that throws a failure into a script.
pub fn raise(failure: JsFailure) -> (error: JsError)
    ensures
        js_failure(error) == failure@,
        js_thrown(error) is None,
{
    match failure {
        JsFailure::General(message) => general_error(message),
        JsFailure::WrongType(message) => type_error(message),
    }
}

} // verus!
