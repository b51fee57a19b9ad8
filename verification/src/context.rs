use std::any::{Any, TypeId};

use vstd::prelude::*;

use crate::keyed::KeyedList;
use crate::metrics::MetricsSink;
use crate::params::Params;
use crate::slot::Slot;
use crate::text::{concat2, concat3, join_strs, join_with};

verus! {

#[verifier::external_type_specification]
#[verifier::external_body]
pub struct ExTypeId(TypeId);

/// A value of any type, boxed with its type erased (`Box<dyn Any + Send +
/// Sync>`). Verus has no notion of `dyn Any`, so the box is held behind this
/// opaque struct and only reached through the functions below.
#[verifier::external_body]
pub struct ErasedValue {
    inner: Box<dyn Any + Send + Sync>,
}

/// Boxes a value with its type erased (std's `Box::new` into `Box<dyn Any>`).
#[verifier::external_body]
fn erase<T: Send + Sync + 'static>(value: T) -> ErasedValue {
    ErasedValue { inner: Box::new(value) }
}

/// Takes the value out if it has type `T` (std's `Box::<dyn Any>::downcast`);
/// otherwise hands the same box back.
#[verifier::external_body]
fn downcast_owned<T: 'static>(value: ErasedValue) -> (r: Result<T, ErasedValue>)
    ensures
        r matches Err(back) ==> back == value,
{
    match value.inner.downcast::<T>() {
        Ok(b) => Ok(*b),
        Err(inner) => Err(ErasedValue { inner }),
    }
}

/// A shared reference to the value if it has type `T` (std's
/// `<dyn Any>::downcast_ref`). Whether it has is not stated.
#[verifier::external_body]
fn downcast_ref<T: 'static>(value: &ErasedValue) -> Option<&T> {
    value.inner.downcast_ref::<T>()
}

/// A mutable reference to the value if it has type `T` (std's
/// `<dyn Any>::downcast_mut`); when it has not, the value is left as it was.
#[verifier::external_body]
fn downcast_mut<T: 'static>(value: &mut ErasedValue) -> (r: Option<&mut T>)
    ensures
        r is None ==> *final(value) == *old(value),
{
    value.inner.downcast_mut::<T>()
}

/// The `TypeId` of the stored value (std's `<dyn Any>::type_id`).
#[verifier::external_body]
fn erased_type_id(value: &ErasedValue) -> TypeId {
    (*value.inner).type_id()
}

/// The `TypeId` of type `T` (std's `TypeId::of`).
#[verifier::external_body]
fn type_id_of<T: 'static>() -> TypeId {
    TypeId::of::<T>()
}

/// The text that std's `Debug` writes for a `TypeId`.
pub uninterp spec fn type_id_debug(id: TypeId) -> Seq<char>;

/// The debug text of a `TypeId` (std's `Debug` for `TypeId`).
#[verifier::external_body]
fn type_id_text(id: &TypeId) -> (r: String)
    ensures
        r@ == type_id_debug(*id),
{
    format!("{:?}", id)
}

/// Framework-owned runtime capabilities available to steps and hooks: a
/// metrics sink and read-only parameters.
pub struct RuntimeContext {
    metrics: MetricsSink,
    params: Params,
}

impl RuntimeContext {
    /// The parameters held.
    pub closed spec fn params_view(self) -> Params {
        self.params
    }

    /// The metrics sink held.
    pub closed spec fn metrics_view(self) -> MetricsSink {
        self.metrics
    }

    pub fn new(metrics: MetricsSink, params: Params) -> (r: Self)
        ensures
            r.params_view() == params,
            r.metrics_view() == metrics,
    {
        RuntimeContext { metrics, params }
    }

    pub fn metrics(&self) -> (r: &MetricsSink)
        ensures
            *r == self.metrics_view(),
    {
        &self.metrics
    }

    pub fn params(&self) -> (r: &Params)
        ensures
            *r == self.params_view(),
    {
        &self.params
    }
}

/// Errors that can occur when accessing a [`Context`].
#[derive(Debug)]
pub enum ContextError {
    /// The requested slot was not found.
    NotFound { slot_name: &'static str, expected: TypeId, registered: Vec<&'static str> },
    /// The slot exists but contains a value of a different type.
    TypeMismatch { slot_name: &'static str, expected: TypeId, actual: TypeId },
}

/// The views of a list of names.
pub open spec fn name_views(names: Seq<&'static str>) -> Seq<Seq<char>> {
    names.map_values(|s: &'static str| s@)
}

/// The text of a missing-slot error.
pub open spec fn not_found_text(
    slot_name: Seq<char>,
    expected: Seq<char>,
    registered: Seq<Seq<char>>,
) -> Seq<char> {
    "slot '"@ + slot_name + "' not found (expected type: "@ + expected
        + "). Registered slots: ["@ + join_with(registered, ", "@) + "]"@
}

/// The text of a type-mismatch error.
pub open spec fn mismatch_text(slot_name: Seq<char>, expected: Seq<char>, actual: Seq<char>) -> Seq<
    char,
> {
    "slot '"@ + slot_name + "' type mismatch: expected "@ + expected + ", got "@ + actual
}

impl ContextError {
    /// Human-readable description; types are shown by the debug text of
    /// their `TypeId`.
    pub fn message(&self) -> (r: String)
        ensures
            match self {
                ContextError::NotFound { slot_name, expected, registered } => r@ == not_found_text(
                    slot_name@,
                    type_id_debug(*expected),
                    name_views(registered@),
                ),
                ContextError::TypeMismatch { slot_name, expected, actual } => r@ == mismatch_text(
                    slot_name@,
                    type_id_debug(*expected),
                    type_id_debug(*actual),
                ),
            },
    {
        match self {
            ContextError::NotFound { slot_name, expected, registered } => {
                let joined = join_strs(registered, ", ");
                let head = concat3("slot '", slot_name, "' not found (expected type: ");
                let t = type_id_text(expected);
                let tail = concat3("). Registered slots: [", joined.as_str(), "]");
                let r = concat3(head.as_str(), t.as_str(), tail.as_str());
                proof {
                    assert(registered@.map_values(|p: &str| p@) =~= name_views(registered@));
                    assert(r@ =~= not_found_text(
                        slot_name@,
                        type_id_debug(*expected),
                        name_views(registered@),
                    ));
                }
                r
            },
            ContextError::TypeMismatch { slot_name, expected, actual } => {
                let head = concat3("slot '", slot_name, "' type mismatch: expected ");
                let e = type_id_text(expected);
                let a = type_id_text(actual);
                let r = concat3(head.as_str(), e.as_str(), ", got ");
                let r = concat2(r.as_str(), a.as_str());
                proof {
                    assert(r@ =~= mismatch_text(
                        slot_name@,
                        type_id_debug(*expected),
                        type_id_debug(*actual),
                    ));
                }
                r
            },
        }
    }
}

/// Two contexts agree on everything that can be observed of them.
pub open spec fn same_state(a: Context, b: Context) -> bool {
    &&& a.slot_names() == b.slot_names()
    &&& a.slot_values() == b.slot_values()
    &&& a.runtime_view() == b.runtime_view()
}

/// The filled slots: their values by name, and the names in the order they
/// were first filled.
struct SlotStore {
    values: KeyedList<ErasedValue>,
    names: Vec<&'static str>,
}

impl SlotStore {
    /// Slot names are unique, and `names` lists the keys of `values` in the
    /// same order.
    spec fn wf(self) -> bool {
        &&& self.values.wf()
        &&& name_views(self.names@) == self.values.keys()
    }

    fn new() -> (r: Self)
        ensures
            r.wf(),
            r.values.keys() == Seq::<Seq<char>>::empty(),
            r.values.as_map() == Map::<Seq<char>, ErasedValue>::empty(),
    {
        let r = SlotStore { values: KeyedList::new(), names: Vec::new() };
        assert(name_views(r.names@) =~= r.values.keys());
        r
    }
}

/// Central state container passed to every step: runtime capabilities plus
/// values stored under typed slots.
pub struct Context {
    runtime: RuntimeContext,
    slots: SlotStore,
}

impl Context {
    /// Every context keeps its slot store well formed.
    #[verifier::type_invariant]
    spec fn inv(self) -> bool {
        self.slots.wf()
    }

    /// Names of the filled slots, in the order they were first filled.
    pub closed spec fn slot_names(self) -> Seq<Seq<char>> {
        self.slots.values.keys()
    }

    /// The stored (type-erased) values by slot name.
    pub closed spec fn slot_values(self) -> Map<Seq<char>, ErasedValue> {
        self.slots.values.as_map()
    }

    /// The runtime capabilities held.
    pub closed spec fn runtime_view(self) -> RuntimeContext {
        self.runtime
    }

    /// Whether the slot named `name` holds a value.
    pub open spec fn holds(self, name: Seq<char>) -> bool {
        self.slot_values().contains_key(name)
    }

    /// Create a context with a standalone metrics sink whose receiver is
    /// discarded, and empty params.
    pub fn new() -> (r: Self)
        ensures
            r.slot_names() == Seq::<Seq<char>>::empty(),
            r.slot_values() == Map::<Seq<char>, ErasedValue>::empty(),
            r.runtime_view().params_view().map() == Map::<
                Seq<char>,
                crate::document::TomlValue,
            >::empty(),
    {
        let (sink, _rx) = MetricsSink::new();
        Context::with_runtime(sink, Params::empty())
    }

    /// A context over the given metrics sink and params, with no slot filled.
    pub fn with_runtime(metrics: MetricsSink, params: Params) -> (r: Self)
        ensures
            r.slot_names() == Seq::<Seq<char>>::empty(),
            r.slot_values() == Map::<Seq<char>, ErasedValue>::empty(),
            r.runtime_view().params_view() == params,
            r.runtime_view().metrics_view() == metrics,
    {
        Context { runtime: RuntimeContext::new(metrics, params), slots: SlotStore::new() }
    }

    pub fn runtime(&self) -> (r: &RuntimeContext)
        ensures
            *r == self.runtime_view(),
    {
        &self.runtime
    }

    /// Index of the entry for `name`.
    fn find(&self, name: &str) -> (r: Option<usize>)
        ensures
            r is None <==> !self.holds(name@),
            r matches Some(i) ==> i < self.slot_names().len() && i < self.slots.names@.len()
                && self.slot_names()[i as int] == name@,
    {
        proof {
            use_type_invariant(self);
        }
        self.slots.values.find(name)
    }

    fn registered_slots(&self) -> (r: Vec<&'static str>)
        ensures
            name_views(r@) == self.slot_names(),
    {
        proof {
            use_type_invariant(self);
        }
        let mut out: Vec<&'static str> = Vec::new();
        let mut i: usize = 0;
        while i < self.slots.names.len()
            invariant
                self.slots.wf(),
                i <= self.slots.names@.len(),
                out@ == self.slots.names@.take(i as int),
            decreases self.slots.names@.len() - i,
        {
            out.push(self.slots.names[i]);
            proof {
                assert(out@ =~= self.slots.names@.take(i + 1));
            }
            i = i + 1;
        }
        proof {
            assert(out@ =~= self.slots.names@);
        }
        out
    }

    /// Insert a value into the context. Returns the previous value if one
    /// existed and had type `T`.
    ///
    /// The contract fixes which slots exist afterwards, in what order, and
    /// that every other slot keeps its value. It does not state that the
    /// slot now holds `value`, nor that `Some` comes back exactly when the
    /// old value had type `T`: a stored value is type-erased
    /// (`Box<dyn Any>`), and saying what it holds would need a function of
    /// the type parameter `T`, which the specification language here has no
    /// way to name.
    pub fn insert<T: Send + Sync + 'static>(&mut self, slot: Slot<T>, value: T) -> (r: Option<T>)
        ensures
            final(self).holds(slot.key()),
            final(self).slot_names().no_duplicates(),
            final(self).slot_values().remove(slot.key()) == old(self).slot_values().remove(
                slot.key(),
            ),
            old(self).holds(slot.key()) ==> final(self).slot_names() == old(self).slot_names(),
            !old(self).holds(slot.key()) ==> final(self).slot_names() == old(
                self,
            ).slot_names().push(slot.key()),
            r is Some ==> old(self).holds(slot.key()),
            final(self).runtime_view() == old(self).runtime_view(),
    {
        proof {
            use_type_invariant(&*self);
        }
        let mut slots = SlotStore::new();
        std::mem::swap(&mut slots, &mut self.slots);
        let name = slot.name();
        let previous = match slots.values.find(name) {
            Some(i) => {
                let ghost ok = slots.values.keys();
                let (key, previous) = slots.values.remove_at(i);
                proof {
                    assert(key@ == ok[i as int]);
                    assert forall|j: int| 0 <= j < ok.remove(i as int).len() implies #[trigger] ok.remove(
                        i as int,
                    )[j] != key@ by {
                        let oj = if j < i { j } else { j + 1 };
                        assert(ok.remove(i as int)[j] == ok[oj]);
                    }
                }
                slots.values.insert_at(i, (key, erase(value)));
                proof {
                    assert(slots.values.keys() =~= ok);
                }
                Some(previous)
            },
            None => {
                slots.values.insert(name.to_owned(), erase(value));
                slots.names.push(name);
                proof {
                    let k = slot.key();
                    assert(name_views(slots.names@) =~= name_views(old(self).slots.names@).push(
                        k,
                    ));
                }
                None
            },
        };
        self.slots = slots;
        proof {
            let k = slot.key();
            assert(self.slot_values().remove(k) =~= old(self).slot_values().remove(k));
        }
        match previous {
            Some(p) => match downcast_owned::<T>(p) {
                Ok(v) => Some(v),
                Err(_) => None,
            },
            None => None,
        }
    }

    /// Get an immutable reference to a stored value.
    ///
    /// The contract states when `NotFound` comes back and what it carries.
    /// On a filled slot the answer is `Ok` or `TypeMismatch` according to
    /// the stored value's runtime type; which of the two, and that `Ok`
    /// holds the value last inserted, is not stated (see [`Context::insert`]).
    pub fn get<T: Send + Sync + 'static>(&self, slot: Slot<T>) -> (r: Result<&T, ContextError>)
        ensures
            (r matches Err(ContextError::NotFound { .. })) <==> !self.holds(slot.key()),
            r matches Err(ContextError::NotFound { slot_name, registered, .. }) ==> slot_name@
                == slot.key() && name_views(registered@) == self.slot_names(),
            r matches Err(ContextError::TypeMismatch { slot_name, .. }) ==> slot_name@
                == slot.key(),
    {
        match self.find(slot.name()) {
            Some(i) => {
                let e = self.slots.values.entry(i);
                match downcast_ref::<T>(&e.1) {
                    Some(v) => Ok(v),
                    None => Err(
                        ContextError::TypeMismatch {
                            slot_name: slot.name(),
                            expected: type_id_of::<T>(),
                            actual: erased_type_id(&e.1),
                        },
                    ),
                }
            },
            None => Err(
                ContextError::NotFound {
                    slot_name: slot.name(),
                    expected: type_id_of::<T>(),
                    registered: self.registered_slots(),
                },
            ),
        }
    }

    /// Get a mutable reference to a stored value.
    ///
    /// As with [`Context::get`], the choice between `Ok` and `TypeMismatch`
    /// on a filled slot, and what the reference points at, are not stated;
    /// the contract fixes the slot names, the other slots, and that an
    /// error leaves the context as it was.
    pub fn get_mut<T: Send + Sync + 'static>(&mut self, slot: Slot<T>) -> (r: Result<
        &mut T,
        ContextError,
    >)
        ensures
            (r matches Err(ContextError::NotFound { .. })) <==> !old(self).holds(slot.key()),
            r matches Err(ContextError::NotFound { slot_name, registered, .. }) ==> slot_name@
                == slot.key() && name_views(registered@) == old(self).slot_names(),
            r matches Err(ContextError::TypeMismatch { slot_name, .. }) ==> slot_name@
                == slot.key(),
            r is Err ==> same_state(*final(self), *old(self)),
            final(self).slot_names() == old(self).slot_names(),
            final(self).slot_values().remove(slot.key()) == old(self).slot_values().remove(
                slot.key(),
            ),
            final(self).runtime_view() == old(self).runtime_view(),
    {
        proof {
            use_type_invariant(&*self);
        }
        match self.find(slot.name()) {
            Some(i) => {
                let actual = erased_type_id(&self.slots.values.entry(i).1);
                let value = self.slots.values.value_mut(i);
                match downcast_mut::<T>(value) {
                    Some(v) => Ok(v),
                    None => {
                        proof {
                            let m = old(self).slots.values.as_map();
                            let k = slot.key();
                            old(self).slots.values.lemma_position(i as int);
                            assert(m.insert(k, m[k]) =~= m);
                        }
                        Err(
                            ContextError::TypeMismatch {
                                slot_name: slot.name(),
                                expected: type_id_of::<T>(),
                                actual,
                            },
                        )
                    },
                }
            },
            None => Err(
                ContextError::NotFound {
                    slot_name: slot.name(),
                    expected: type_id_of::<T>(),
                    registered: self.registered_slots(),
                },
            ),
        }
    }

    /// Remove a value from the context and return it. A value of another
    /// type stays where it was.
    ///
    /// The contract states `NotFound`, that `Ok` empties the slot and keeps
    /// the order of the others, and that an error changes nothing. Whether a
    /// filled slot gives `Ok` or `TypeMismatch`, and which value comes back,
    /// depend on the erased runtime type and are not stated (see
    /// [`Context::insert`]).
    pub fn remove<T: Send + Sync + 'static>(&mut self, slot: Slot<T>) -> (r: Result<
        T,
        ContextError,
    >)
        ensures
            (r matches Err(ContextError::NotFound { .. })) <==> !old(self).holds(slot.key()),
            r matches Err(ContextError::NotFound { slot_name, registered, .. }) ==> slot_name@
                == slot.key() && name_views(registered@) == old(self).slot_names(),
            r matches Err(ContextError::TypeMismatch { slot_name, .. }) ==> slot_name@
                == slot.key(),
            r is Err ==> same_state(*final(self), *old(self)),
            r is Ok ==> final(self).slot_values() == old(self).slot_values().remove(slot.key())
                && final(self).slot_names() == old(self).slot_names().remove(
                old(self).slot_names().index_of(slot.key()),
            ),
            final(self).runtime_view() == old(self).runtime_view(),
    {
        proof {
            use_type_invariant(&*self);
        }
        let registered = self.registered_slots();
        match self.find(slot.name()) {
            Some(i) => {
                let mut slots = SlotStore::new();
                std::mem::swap(&mut slots, &mut self.slots);
                let ghost ok = slots.values.keys();
                let ghost old_names = slots.names@;
                let (key, value) = slots.values.remove_at(i);
                let name = slots.names.remove(i);
                proof {
                    assert(name_views(slots.names@) =~= slots.values.keys());
                    assert forall|j: int| 0 <= j < ok.remove(i as int).len() implies #[trigger] ok.remove(
                        i as int,
                    )[j] != key@ by {
                        let oj = if j < i { j } else { j + 1 };
                        assert(ok.remove(i as int)[j] == ok[oj]);
                    }
                    assert(ok.index_of(slot.key()) == i) by {
                        let j = ok.index_of(slot.key());
                        assert(ok.contains(slot.key()));
                        assert(ok[j] == slot.key());
                    }
                }
                match downcast_owned::<T>(value) {
                    Ok(v) => {
                        self.slots = slots;
                        Ok(v)
                    },
                    Err(back) => {
                        slots.values.insert_at(i, (key, back));
                        slots.names.insert(i, name);
                        proof {
                            assert(slots.values.entries() =~= old(self).slots.values.entries());
                            assert(slots.names@ =~= old_names);
                        }
                        self.slots = slots;
                        Err(
                            ContextError::TypeMismatch {
                                slot_name: slot.name(),
                                expected: type_id_of::<T>(),
                                actual: erased_type_id(&self.slots.values.entry(i).1),
                            },
                        )
                    },
                }
            },
            None => Err(
                ContextError::NotFound {
                    slot_name: slot.name(),
                    expected: type_id_of::<T>(),
                    registered,
                },
            ),
        }
    }

    /// Check whether a slot is present in the context.
    pub fn contains<T>(&self, slot: Slot<T>) -> (r: bool)
        ensures
            r == self.holds(slot.key()),
    {
        proof {
            use_type_invariant(self);
        }
        self.slots.values.contains_key(slot.name())
    }
}

/// Removing a slot that an insert has just filled, where it was empty
/// before, gives back the context as it was: the same slots in the same
/// order, holding the same values. The premises are what `insert` and a
/// successful `remove` ensure.
pub proof fn lemma_remove_undoes_insert(
    before: Context,
    filled: Context,
    after: Context,
    key: Seq<char>,
)
    requires
        !before.holds(key),
        filled.holds(key),
        filled.slot_names().no_duplicates(),
        filled.slot_values().remove(key) == before.slot_values().remove(key),
        filled.slot_names() == before.slot_names().push(key),
        after.slot_values() == filled.slot_values().remove(key),
        after.slot_names() == filled.slot_names().remove(filled.slot_names().index_of(key)),
    ensures
        after.slot_values() == before.slot_values(),
        after.slot_names() == before.slot_names(),
{
    assert(before.slot_values().remove(key) =~= before.slot_values());
    let names = filled.slot_names();
    let n = before.slot_names().len();
    assert(names[n as int] == key);
    let j = names.index_of(key);
    assert(names.contains(key));
    assert(names[j] == key);
    assert(j == n);
    assert(names.remove(n as int) =~= before.slot_names());
}

impl Default for Context {
    fn default() -> (r: Self)
        ensures
            r.slot_names() == Seq::<Seq<char>>::empty(),
            r.slot_values() == Map::<Seq<char>, ErasedValue>::empty(),
            r.runtime_view().params_view().map() == Map::<
                Seq<char>,
                crate::document::TomlValue,
            >::empty(),
    {
        Context::new()
    }
}

} // verus!
