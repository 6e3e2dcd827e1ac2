//! The values that scripts and the host application exchange.
use vstd::prelude::*;

verus! {

/// A handle to a live value that the host application reflects into scripts.
///
/// The host application gives the handles out and keeps what they stand for.
#[derive(Debug, Clone, Copy, PartialEq, Eq, Structural)]
pub struct ReflectReference(pub u64);

/// A type of the host application that the bindings name.
#[derive(Debug, Clone, Copy, PartialEq, Eq, Structural)]
pub enum HostType {
    /// The world.
    World,
    /// A reference to a reflected value.
    ReflectReference,
    /// The registration of a type.
    TypeRegistration,
    /// The registration of a component.
    ComponentRegistration,
}

/// What went wrong between a script and the host application.
#[derive(Debug, PartialEq)]
pub enum InteropError {
    /// Something that had to hold did not.
    Invariant(String),
    /// The operation does not exist for the value.
    UnsupportedOperation(String),
    /// A value has another type than the one that was needed.
    TypeMismatch { expected: HostType, got: Option<HostType> },
    /// A type has no function of that name.
    MissingFunction { on: HostType, name: String },
    /// An error of the host application, which keeps it under this handle.
    Host(u64),
}

/// An [`InteropError`] as contracts see it.
pub enum ErrorView {
    Invariant(Seq<char>),
    UnsupportedOperation(Seq<char>),
    TypeMismatch { expected: HostType, got: Option<HostType> },
    MissingFunction { on: HostType, name: Seq<char> },
    Host(u64),
}

impl View for InteropError {
    type V = ErrorView;

    open spec fn view(&self) -> ErrorView {
        match *self {
            InteropError::Invariant(text) => ErrorView::Invariant(text@),
            InteropError::UnsupportedOperation(text) => ErrorView::UnsupportedOperation(text@),
            InteropError::TypeMismatch { expected, got } => ErrorView::TypeMismatch { expected, got },
            InteropError::MissingFunction { on, name } => ErrorView::MissingFunction { on, name: name@ },
            InteropError::Host(handle) => ErrorView::Host(handle),
        }
    }
}

impl InteropError {
    /// The error of a broken invariant.
    pub fn broken_invariant(text: &str) -> (error: InteropError)
        ensures
            error@ == ErrorView::Invariant(text@),
    {
        InteropError::Invariant(text.to_owned())
    }

    /// The error of an operation that does not exist.
    pub fn unsupported_operation(text: &str) -> (error: InteropError)
        ensures
            error@ == ErrorView::UnsupportedOperation(text@),
    {
        InteropError::UnsupportedOperation(text.to_owned())
    }
}

impl Clone for InteropError {
    fn clone(&self) -> (copy: InteropError)
        ensures
            copy@ == self@,
    {
        match self {
            InteropError::Invariant(text) => InteropError::Invariant(text.clone()),
            InteropError::UnsupportedOperation(text) => InteropError::UnsupportedOperation(
                text.clone(),
            ),
            InteropError::TypeMismatch { expected, got } => InteropError::TypeMismatch {
                expected: *expected,
                got: *got,
            },
            InteropError::MissingFunction { on, name } => InteropError::MissingFunction {
                on: *on,
                name: name.clone(),
            },
            InteropError::Host(handle) => InteropError::Host(*handle),
        }
    }
}

/// A function that a script value stands for.
#[derive(Debug, Clone, Copy, PartialEq, Eq, Structural)]
pub enum FunctionRef {
    /// A function of a script, stored in its virtual machine under this number.
    Script(u64),
    /// A function of the host application, which keeps it under this handle.
    Host(u64),
}

/// A value that passes between scripts and the host application.
#[derive(Debug, PartialEq)]
pub enum ScriptValue {
    /// No value.
    Unit,
    /// A boolean.
    Bool(bool),
    /// An integer.
    Integer(i64),
    /// A double, as the bits of its IEEE 754 representation.
    Float(u64),
    /// Text.
    String(String),
    /// A list.
    List(Vec<ScriptValue>),
    /// A map from text.
    Record(ScriptMap),
    /// A reference to a value of the host application.
    Reference(ReflectReference),
    /// A function of the host application that keeps state between calls, by its handle.
    FunctionMut(u64),
    /// A function.
    Function(FunctionRef),
    /// An error.
    Error(InteropError),
}

/// A map from text to script values, in the order in which its keys came.
#[derive(Debug, PartialEq)]
pub struct ScriptMap {
    pub entries: Vec<(String, ScriptValue)>,
}

/// A [`ScriptValue`] as contracts see it.
#[verifier::ext_equal]
pub enum ScriptView {
    Unit,
    Bool(bool),
    Integer(i64),
    Float(u64),
    String(Seq<char>),
    List(Seq<ScriptView>),
    Record(Map<Seq<char>, ScriptView>),
    Reference(ReflectReference),
    FunctionMut(u64),
    Function(FunctionRef),
    Error(ErrorView),
}

/// The views of a sequence of values.
pub open spec fn list_view(values: Seq<ScriptValue>) -> Seq<ScriptView>
    decreases values,
{
    Seq::new(values.len(), |i: int| if 0 <= i < values.len() { values[i].view() } else { arbitrary() })
}

/// The map that a sequence of entries makes, in which a later entry replaces an earlier one.
pub open spec fn entries_view(entries: Seq<(String, ScriptValue)>) -> Map<Seq<char>, ScriptView>
    decreases entries,
{
    if entries.len() == 0 {
        Map::empty()
    } else {
        entries_view(entries.drop_last()).insert(entries.last().0@, entries.last().1.view())
    }
}

impl View for ScriptValue {
    type V = ScriptView;

    open spec fn view(&self) -> ScriptView
        decreases self,
    {
        match *self {
            ScriptValue::Unit => ScriptView::Unit,
            ScriptValue::Bool(value) => ScriptView::Bool(value),
            ScriptValue::Integer(value) => ScriptView::Integer(value),
            ScriptValue::Float(bits) => ScriptView::Float(bits),
            ScriptValue::String(text) => ScriptView::String(text@),
            ScriptValue::List(values) => ScriptView::List(list_view(values@)),
            ScriptValue::Record(map) => ScriptView::Record(entries_view(map.entries@)),
            ScriptValue::Reference(reference) => ScriptView::Reference(reference),
            ScriptValue::FunctionMut(handle) => ScriptView::FunctionMut(handle),
            ScriptValue::Function(function) => ScriptView::Function(function),
            ScriptValue::Error(error) => ScriptView::Error(error@),
        }
    }
}

impl View for ScriptMap {
    type V = Map<Seq<char>, ScriptView>;

    open spec fn view(&self) -> Map<Seq<char>, ScriptView> {
        entries_view(self.entries@)
    }
}

/// No key occurs twice among entries.
pub open spec fn distinct_keys(entries: Seq<(String, ScriptValue)>) -> bool {
    forall|i: int, k: int|
        0 <= i < k < entries.len() ==> (#[trigger] entries[i]).0@ != (#[trigger] entries[k]).0@
}

impl ScriptValue {
    /// No map in the value has a key twice.
    pub open spec fn wf(self) -> bool
        decreases self,
    {
        match self {
            ScriptValue::List(values) => forall|i: int|
                0 <= i < values@.len() ==> (#[trigger] values@[i]).wf(),
            ScriptValue::Record(map) => {
                &&& distinct_keys(map.entries@)
                &&& forall|i: int|
                    0 <= i < map.entries@.len() ==> (#[trigger] map.entries@[i]).1.wf()
            },
            _ => true,
        }
    }
}

impl ScriptMap {
    /// No key occurs twice, neither in the map nor in a map in it.
    pub open spec fn wf(self) -> bool {
        &&& distinct_keys(self.entries@)
        &&& forall|i: int| 0 <= i < self.entries@.len() ==> (#[trigger] self.entries@[i]).1.wf()
    }

    /// The empty map.
    pub fn new() -> (map: ScriptMap)
        ensures
            map.wf(),
            map@ == Map::<Seq<char>, ScriptView>::empty(),
    {
        ScriptMap { entries: Vec::new() }
    }

    /// Sets what the map holds under `key`.
    pub fn insert(&mut self, key: String, value: ScriptValue)
        requires
            old(self).wf(),
            value.wf(),
        ensures
            final(self).wf(),
            final(self)@ == old(self)@.insert(key@, value@),
    {
        let ghost before = self.entries@;
        let mut i: usize = 0;
        while i < self.entries.len()
            invariant
                i <= self.entries@.len(),
                self.entries@ == before,
                old(self).entries@ == before,
                old(self).wf(),
                value.wf(),
                forall|k: int| 0 <= k < i ==> (#[trigger] before[k]).0@ != key@,
            decreases self.entries@.len() - i,
        {
            if self.entries[i].0 == key {
                let ghost entry = (key, value);
                self.entries.set(i, (key, value));
                proof {
                    lemma_entries_update(before, i as int, entry);
                    assert(self.entries@ == before.update(i as int, entry));
                    assert forall|k: int| 0 <= k < self.entries@.len() implies (
                    #[trigger] self.entries@[k]).1.wf() by {
                        assert(old(self).entries@[k].1.wf());
                    }
                    assert forall|k: int, m: int| 0 <= k < m < self.entries@.len() implies (
                    #[trigger] self.entries@[k]).0@ != (#[trigger] self.entries@[m]).0@ by {
                        assert(before[k].0@ != before[m].0@);
                    }
                }
                return ;
            }
            i = i + 1;
        }
        let ghost entry = (key, value);
        self.entries.push((key, value));
        proof {
            assert(self.entries@ == before.push(entry));
            assert(self.entries@.drop_last() == before);
        }
    }
}

/// Replacing an entry of a key that occurs once replaces what the map holds under it.
proof fn lemma_entries_update(entries: Seq<(String, ScriptValue)>, at: int, entry: (String, ScriptValue))
    requires
        0 <= at < entries.len(),
        entries[at].0@ == entry.0@,
        distinct_keys(entries),
    ensures
        entries_view(entries.update(at, entry)) == entries_view(entries).insert(
            entry.0@,
            entry.1@,
        ),
    decreases entries.len(),
{
    let updated = entries.update(at, entry);
    if at == entries.len() - 1 {
        assert(updated.drop_last() == entries.drop_last());
    } else {
        lemma_entries_update(entries.drop_last(), at, entry);
        assert(updated.drop_last() == entries.drop_last().update(at, entry));
        assert(entries[at].0@ != entries.last().0@);
        assert(updated.last() == entries.last());
    }
    let rest = entries_view(entries.drop_last());
    assert(entries_view(entries) == rest.insert(entries.last().0@, entries.last().1@));
    assert(entries_view(updated) == entries_view(updated.drop_last()).insert(
        updated.last().0@,
        updated.last().1@,
    ));
    assert(entries_view(updated) =~= entries_view(entries).insert(entry.0@, entry.1@));
}

impl Clone for ScriptValue {
    fn clone(&self) -> (copy: ScriptValue)
        ensures
            copy@ == self@,
            self.wf() ==> copy.wf(),
        decreases self,
    {
        match self {
            ScriptValue::Unit => ScriptValue::Unit,
            ScriptValue::Bool(value) => ScriptValue::Bool(*value),
            ScriptValue::Integer(value) => ScriptValue::Integer(*value),
            ScriptValue::Float(bits) => ScriptValue::Float(*bits),
            ScriptValue::String(text) => ScriptValue::String(text.clone()),
            ScriptValue::List(values) => {
                let mut copies: Vec<ScriptValue> = Vec::new();
                let mut i: usize = 0;
                while i < values.len()
                    invariant
                        i <= values@.len(),
                        copies@.len() == i,
                        *self matches ScriptValue::List(own) && own == *values,
                        forall|k: int|
                            0 <= k < i ==> (#[trigger] copies@[k])@ == values@[k]@ && (values@[k].wf()
                                ==> copies@[k].wf()),
                    decreases values@.len() - i,
                {
                    let copy = values[i].clone();
                    copies.push(copy);
                    i = i + 1;
                }
                assert(list_view(copies@) =~= list_view(values@));
                ScriptValue::List(copies)
            },
            ScriptValue::Record(map) => {
                let mut copies: Vec<(String, ScriptValue)> = Vec::new();
                let mut i: usize = 0;
                while i < map.entries.len()
                    invariant
                        i <= map.entries@.len(),
                        copies@.len() == i,
                        *self matches ScriptValue::Record(own) && own == *map,
                        entries_view(copies@) == entries_view(map.entries@.take(i as int)),
                        forall|k: int|
                            0 <= k < i ==> (#[trigger] copies@[k]).0@ == map.entries@[k].0@ && (
                            map.entries@[k].1.wf() ==> copies@[k].1.wf()),
                    decreases map.entries@.len() - i,
                {
                    let copy = (map.entries[i].0.clone(), map.entries[i].1.clone());
                    let ghost before = copies@;
                    copies.push(copy);
                    proof {
                        assert(copies@.drop_last() == before);
                        assert(map.entries@.take(i + 1).drop_last() == map.entries@.take(i as int));
                    }
                    i = i + 1;
                }
                assert(map.entries@.take(map.entries@.len() as int) == map.entries@);
                ScriptValue::Record(ScriptMap { entries: copies })
            },
            ScriptValue::Reference(reference) => ScriptValue::Reference(*reference),
            ScriptValue::FunctionMut(handle) => ScriptValue::FunctionMut(*handle),
            ScriptValue::Function(function) => ScriptValue::Function(*function),
            ScriptValue::Error(error) => ScriptValue::Error(error.clone()),
        }
    }
}

/// Contracts see a script value as it is: of the same kind, with the same content, a list element by
/// element.
pub proof fn law_values_are_seen_as_they_are(value: ScriptValue)
    ensures
        match value {
            ScriptValue::Unit => value@ is Unit,
            ScriptValue::Bool(own) => value@ matches ScriptView::Bool(seen) && seen == own,
            ScriptValue::Integer(own) => value@ matches ScriptView::Integer(seen) && seen == own,
            ScriptValue::Float(own) => value@ matches ScriptView::Float(seen) && seen == own,
            ScriptValue::String(own) => value@ matches ScriptView::String(seen) && seen == own@,
            ScriptValue::List(own) => value@ matches ScriptView::List(seen) && seen.len()
                == own@.len() && forall|i: int|
                0 <= i < own@.len() ==> #[trigger] seen[i] == own@[i]@,
            ScriptValue::Record(own) => value@ is Record,
            ScriptValue::Reference(own) => value@ matches ScriptView::Reference(seen) && seen == own,
            ScriptValue::FunctionMut(own) => value@ matches ScriptView::FunctionMut(seen) && seen
                == own,
            ScriptValue::Function(own) => value@ matches ScriptView::Function(seen) && seen == own,
            ScriptValue::Error(own) => value@ matches ScriptView::Error(seen) && seen == own@,
        },
{
    if let ScriptValue::List(own) = value {
        assert(value@ == ScriptView::List(list_view(own@)));
        assert forall|i: int| 0 <= i < own@.len() implies #[trigger] list_view(own@)[i]
            == own@[i]@ by {}
    }
}

} // verus!
