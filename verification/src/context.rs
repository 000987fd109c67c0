//! The shared context: a store of typed values under string keys, which the
//! modules read and write to talk to each other.
//!
//! A value is stored as a `ContextValue`, and read back with the type it was
//! stored as: reading it with another type finds nothing.
use vstd::prelude::*;
use crate::keyed::KeyedList;
use crate::math::MathEngine;

verus! {

/// A value held by the context.
pub enum ContextValue {
    Bool(bool),
    U8(u8),
    U16(u16),
    U32(u32),
    U64(u64),
    Usize(usize),
    I8(i8),
    I16(i16),
    I32(i32),
    I64(i64),
    Isize(isize),
    Text(String),
    Engine(MathEngine),
}

/// A type whose values the context can hold.
pub trait ContextItem: Sized + crate::seal::Sealed {
    /// The value of this type that a context value holds, if it holds one.
    spec fn from_value(v: ContextValue) -> Option<Self>;

    /// The context value that holds this value.
    spec fn to_value(self) -> ContextValue;

    /// A value stored is found again, and only what was stored is found.
    proof fn lemma_round_trip(x: Self, v: ContextValue)
        ensures
            Self::from_value(x.to_value()) == Some(x),
            Self::from_value(v) == Some(x) ==> v == x.to_value(),
    ;

    /// Wraps the value.
    fn into_value(self) -> (v: ContextValue)
        ensures
            v == self.to_value(),
    ;

    /// A shared reference to the value that `v` holds.
    fn ref_from(v: &ContextValue) -> (r: Option<&Self>)
        ensures
            r == (match Self::from_value(*v) {
                Some(x) => Some(&x),
                None => None::<&Self>,
            }),
    ;

    /// A mutable reference to the value that `v` holds.
    fn mut_from(v: &mut ContextValue) -> (r: Option<&mut Self>)
        ensures
            match r {
                Some(x) => Self::from_value(*old(v)) == Some(*x) && *final(v) == (*final(x)).to_value(),
                None => Self::from_value(*old(v)) is None && *final(v) == *old(v),
            },
    ;
}

impl ContextItem for bool {
    open spec fn from_value(v: ContextValue) -> Option<bool> {
        match v {
            ContextValue::Bool(x) => Some(x),
            _ => None,
        }
    }

    open spec fn to_value(self) -> ContextValue {
        ContextValue::Bool(self)
    }

    proof fn lemma_round_trip(x: bool, v: ContextValue) {
    }

    fn into_value(self) -> (v: ContextValue) {
        ContextValue::Bool(self)
    }

    fn ref_from(v: &ContextValue) -> (r: Option<&bool>) {
        match v {
            ContextValue::Bool(x) => Some(x),
            _ => None,
        }
    }

    fn mut_from(v: &mut ContextValue) -> (r: Option<&mut bool>) {
        match v {
            ContextValue::Bool(x) => Some(x),
            _ => None,
        }
    }
}

impl ContextItem for u8 {
    open spec fn from_value(v: ContextValue) -> Option<u8> {
        match v {
            ContextValue::U8(x) => Some(x),
            _ => None,
        }
    }

    open spec fn to_value(self) -> ContextValue {
        ContextValue::U8(self)
    }

    proof fn lemma_round_trip(x: u8, v: ContextValue) {
    }

    fn into_value(self) -> (v: ContextValue) {
        ContextValue::U8(self)
    }

    fn ref_from(v: &ContextValue) -> (r: Option<&u8>) {
        match v {
            ContextValue::U8(x) => Some(x),
            _ => None,
        }
    }

    fn mut_from(v: &mut ContextValue) -> (r: Option<&mut u8>) {
        match v {
            ContextValue::U8(x) => Some(x),
            _ => None,
        }
    }
}

impl ContextItem for u16 {
    open spec fn from_value(v: ContextValue) -> Option<u16> {
        match v {
            ContextValue::U16(x) => Some(x),
            _ => None,
        }
    }

    open spec fn to_value(self) -> ContextValue {
        ContextValue::U16(self)
    }

    proof fn lemma_round_trip(x: u16, v: ContextValue) {
    }

    fn into_value(self) -> (v: ContextValue) {
        ContextValue::U16(self)
    }

    fn ref_from(v: &ContextValue) -> (r: Option<&u16>) {
        match v {
            ContextValue::U16(x) => Some(x),
            _ => None,
        }
    }

    fn mut_from(v: &mut ContextValue) -> (r: Option<&mut u16>) {
        match v {
            ContextValue::U16(x) => Some(x),
            _ => None,
        }
    }
}

impl ContextItem for u32 {
    open spec fn from_value(v: ContextValue) -> Option<u32> {
        match v {
            ContextValue::U32(x) => Some(x),
            _ => None,
        }
    }

    open spec fn to_value(self) -> ContextValue {
        ContextValue::U32(self)
    }

    proof fn lemma_round_trip(x: u32, v: ContextValue) {
    }

    fn into_value(self) -> (v: ContextValue) {
        ContextValue::U32(self)
    }

    fn ref_from(v: &ContextValue) -> (r: Option<&u32>) {
        match v {
            ContextValue::U32(x) => Some(x),
            _ => None,
        }
    }

    fn mut_from(v: &mut ContextValue) -> (r: Option<&mut u32>) {
        match v {
            ContextValue::U32(x) => Some(x),
            _ => None,
        }
    }
}

impl ContextItem for u64 {
    open spec fn from_value(v: ContextValue) -> Option<u64> {
        match v {
            ContextValue::U64(x) => Some(x),
            _ => None,
        }
    }

    open spec fn to_value(self) -> ContextValue {
        ContextValue::U64(self)
    }

    proof fn lemma_round_trip(x: u64, v: ContextValue) {
    }

    fn into_value(self) -> (v: ContextValue) {
        ContextValue::U64(self)
    }

    fn ref_from(v: &ContextValue) -> (r: Option<&u64>) {
        match v {
            ContextValue::U64(x) => Some(x),
            _ => None,
        }
    }

    fn mut_from(v: &mut ContextValue) -> (r: Option<&mut u64>) {
        match v {
            ContextValue::U64(x) => Some(x),
            _ => None,
        }
    }
}

impl ContextItem for usize {
    open spec fn from_value(v: ContextValue) -> Option<usize> {
        match v {
            ContextValue::Usize(x) => Some(x),
            _ => None,
        }
    }

    open spec fn to_value(self) -> ContextValue {
        ContextValue::Usize(self)
    }

    proof fn lemma_round_trip(x: usize, v: ContextValue) {
    }

    fn into_value(self) -> (v: ContextValue) {
        ContextValue::Usize(self)
    }

    fn ref_from(v: &ContextValue) -> (r: Option<&usize>) {
        match v {
            ContextValue::Usize(x) => Some(x),
            _ => None,
        }
    }

    fn mut_from(v: &mut ContextValue) -> (r: Option<&mut usize>) {
        match v {
            ContextValue::Usize(x) => Some(x),
            _ => None,
        }
    }
}

impl ContextItem for i8 {
    open spec fn from_value(v: ContextValue) -> Option<i8> {
        match v {
            ContextValue::I8(x) => Some(x),
            _ => None,
        }
    }

    open spec fn to_value(self) -> ContextValue {
        ContextValue::I8(self)
    }

    proof fn lemma_round_trip(x: i8, v: ContextValue) {
    }

    fn into_value(self) -> (v: ContextValue) {
        ContextValue::I8(self)
    }

    fn ref_from(v: &ContextValue) -> (r: Option<&i8>) {
        match v {
            ContextValue::I8(x) => Some(x),
            _ => None,
        }
    }

    fn mut_from(v: &mut ContextValue) -> (r: Option<&mut i8>) {
        match v {
            ContextValue::I8(x) => Some(x),
            _ => None,
        }
    }
}

impl ContextItem for i16 {
    open spec fn from_value(v: ContextValue) -> Option<i16> {
        match v {
            ContextValue::I16(x) => Some(x),
            _ => None,
        }
    }

    open spec fn to_value(self) -> ContextValue {
        ContextValue::I16(self)
    }

    proof fn lemma_round_trip(x: i16, v: ContextValue) {
    }

    fn into_value(self) -> (v: ContextValue) {
        ContextValue::I16(self)
    }

    fn ref_from(v: &ContextValue) -> (r: Option<&i16>) {
        match v {
            ContextValue::I16(x) => Some(x),
            _ => None,
        }
    }

    fn mut_from(v: &mut ContextValue) -> (r: Option<&mut i16>) {
        match v {
            ContextValue::I16(x) => Some(x),
            _ => None,
        }
    }
}

impl ContextItem for i32 {
    open spec fn from_value(v: ContextValue) -> Option<i32> {
        match v {
            ContextValue::I32(x) => Some(x),
            _ => None,
        }
    }

    open spec fn to_value(self) -> ContextValue {
        ContextValue::I32(self)
    }

    proof fn lemma_round_trip(x: i32, v: ContextValue) {
    }

    fn into_value(self) -> (v: ContextValue) {
        ContextValue::I32(self)
    }

    fn ref_from(v: &ContextValue) -> (r: Option<&i32>) {
        match v {
            ContextValue::I32(x) => Some(x),
            _ => None,
        }
    }

    fn mut_from(v: &mut ContextValue) -> (r: Option<&mut i32>) {
        match v {
            ContextValue::I32(x) => Some(x),
            _ => None,
        }
    }
}

impl ContextItem for i64 {
    open spec fn from_value(v: ContextValue) -> Option<i64> {
        match v {
            ContextValue::I64(x) => Some(x),
            _ => None,
        }
    }

    open spec fn to_value(self) -> ContextValue {
        ContextValue::I64(self)
    }

    proof fn lemma_round_trip(x: i64, v: ContextValue) {
    }

    fn into_value(self) -> (v: ContextValue) {
        ContextValue::I64(self)
    }

    fn ref_from(v: &ContextValue) -> (r: Option<&i64>) {
        match v {
            ContextValue::I64(x) => Some(x),
            _ => None,
        }
    }

    fn mut_from(v: &mut ContextValue) -> (r: Option<&mut i64>) {
        match v {
            ContextValue::I64(x) => Some(x),
            _ => None,
        }
    }
}

impl ContextItem for isize {
    open spec fn from_value(v: ContextValue) -> Option<isize> {
        match v {
            ContextValue::Isize(x) => Some(x),
            _ => None,
        }
    }

    open spec fn to_value(self) -> ContextValue {
        ContextValue::Isize(self)
    }

    proof fn lemma_round_trip(x: isize, v: ContextValue) {
    }

    fn into_value(self) -> (v: ContextValue) {
        ContextValue::Isize(self)
    }

    fn ref_from(v: &ContextValue) -> (r: Option<&isize>) {
        match v {
            ContextValue::Isize(x) => Some(x),
            _ => None,
        }
    }

    fn mut_from(v: &mut ContextValue) -> (r: Option<&mut isize>) {
        match v {
            ContextValue::Isize(x) => Some(x),
            _ => None,
        }
    }
}

impl ContextItem for String {
    open spec fn from_value(v: ContextValue) -> Option<String> {
        match v {
            ContextValue::Text(x) => Some(x),
            _ => None,
        }
    }

    open spec fn to_value(self) -> ContextValue {
        ContextValue::Text(self)
    }

    proof fn lemma_round_trip(x: String, v: ContextValue) {
    }

    fn into_value(self) -> (v: ContextValue) {
        ContextValue::Text(self)
    }

    fn ref_from(v: &ContextValue) -> (r: Option<&String>) {
        match v {
            ContextValue::Text(x) => Some(x),
            _ => None,
        }
    }

    fn mut_from(v: &mut ContextValue) -> (r: Option<&mut String>) {
        match v {
            ContextValue::Text(x) => Some(x),
            _ => None,
        }
    }
}

impl ContextItem for MathEngine {
    open spec fn from_value(v: ContextValue) -> Option<MathEngine> {
        match v {
            ContextValue::Engine(x) => Some(x),
            _ => None,
        }
    }

    open spec fn to_value(self) -> ContextValue {
        ContextValue::Engine(self)
    }

    proof fn lemma_round_trip(x: MathEngine, v: ContextValue) {
    }

    fn into_value(self) -> (v: ContextValue) {
        ContextValue::Engine(self)
    }

    fn ref_from(v: &ContextValue) -> (r: Option<&MathEngine>) {
        match v {
            ContextValue::Engine(x) => Some(x),
            _ => None,
        }
    }

    fn mut_from(v: &mut ContextValue) -> (r: Option<&mut MathEngine>) {
        match v {
            ContextValue::Engine(x) => Some(x),
            _ => None,
        }
    }
}

/// What reading `key` as a `T` gives in a context whose view is `m`.
pub open spec fn lookup<T: ContextItem>(m: Map<Seq<char>, ContextValue>, key: Seq<char>) -> Option<T> {
    if m.contains_key(key) {
        T::from_value(m[key])
    } else {
        None
    }
}

/// A type-tagged key-value store shared across modules.
pub struct Context {
    store: KeyedList<ContextValue>,
}

impl View for Context {
    type V = Map<Seq<char>, ContextValue>;

    closed spec fn view(&self) -> Map<Seq<char>, ContextValue> {
        self.store@
    }
}

impl Context {
    /// Well-formedness: no key is stored twice.
    pub closed spec fn wf(&self) -> bool {
        self.store.wf()
    }

    /// A well-formed context has finitely many keys.
    pub proof fn lemma_finite(&self)
        requires
            self.wf(),
        ensures
            self@.dom().finite(),
    {
        self.store.lemma_dom();
    }

    /// An empty context.
    pub fn new() -> (r: Self)
        ensures
            r.wf(),
            r@ == Map::<Seq<char>, ContextValue>::empty(),
    {
        Context { store: KeyedList::new() }
    }

    /// Stores a value under a key, replacing what was there.
    pub fn set<T: ContextItem>(&mut self, key: &str, value: T)
        requires
            old(self).wf(),
        ensures
            final(self).wf(),
            final(self)@ == old(self)@.insert(key@, value.to_value()),
    {
        let v = value.into_value();
        let _ = self.store.insert(key.to_owned(), v);
    }

    /// A shared reference to the `T` stored under a key, if a `T` is stored there.
    pub fn get<T: ContextItem>(&self, key: &str) -> (r: Option<&T>)
        requires
            self.wf(),
        ensures
            r == (match lookup::<T>(self@, key@) {
                Some(x) => Some(&x),
                None => None::<&T>,
            }),
    {
        match self.store.get(key) {
            Some(v) => T::ref_from(v),
            None => None,
        }
    }

    /// A mutable reference to the `T` stored under a key, if a `T` is stored there.
    pub fn get_mut<T: ContextItem>(&mut self, key: &str) -> (r: Option<&mut T>)
        requires
            old(self).wf(),
        ensures
            final(self).wf(),
            match r {
                Some(x) => {
                    &&& lookup::<T>(old(self)@, key@) == Some(*x)
                    &&& final(self)@ == old(self)@.insert(key@, (*final(x)).to_value())
                },
                None => lookup::<T>(old(self)@, key@) is None && final(self)@ == old(self)@,
            },
    {
        match self.store.get_mut(key) {
            Some(v) => T::mut_from(v),
            None => None,
        }
    }

    /// Removes a key and what is stored under it.
    pub fn remove(&mut self, key: &str)
        requires
            old(self).wf(),
        ensures
            final(self).wf(),
            final(self)@ == old(self)@.remove(key@),
    {
        let _ = self.store.remove(key);
    }

    /// Whether anything is stored under a key.
    pub fn contains(&self, key: &str) -> (r: bool)
        requires
            self.wf(),
        ensures
            r == self@.contains_key(key@),
    {
        self.store.contains_key(key)
    }

    /// Number of keys in use.
    pub fn len(&self) -> (n: usize)
        requires
            self.wf(),
        ensures
            n == self@.dom().len(),
    {
        self.store.len()
    }

    /// Whether no key is in use.
    pub fn is_empty(&self) -> (r: bool)
        requires
            self.wf(),
        ensures
            r == (self@.dom().len() == 0),
    {
        self.store.len() == 0
    }
}

impl Default for Context {
    fn default() -> (r: Self)
        ensures
            r.wf(),
            r@ == Map::<Seq<char>, ContextValue>::empty(),
    {
        Context::new()
    }
}

/// Reading a key right after storing a value there, with the value's own
/// type, gives that value back.
pub proof fn get_after_set<T: ContextItem>(m: Map<Seq<char>, ContextValue>, key: Seq<char>, value: T)
    ensures
        lookup::<T>(m.insert(key, value.to_value()), key) == Some(value),
{
    T::lemma_round_trip(value, value.to_value());
}

/// Storing a second value under a key replaces the first: reading gives the
/// second.
pub proof fn set_overwrites<T: ContextItem>(
    m: Map<Seq<char>, ContextValue>,
    key: Seq<char>,
    first: T,
    second: T,
)
    ensures
        lookup::<T>(m.insert(key, first.to_value()).insert(key, second.to_value()), key) == Some(
            second,
        ),
{
    T::lemma_round_trip(second, second.to_value());
}

/// Storing under one key leaves what every other key gives unchanged.
pub proof fn set_keeps_other_keys<T: ContextItem, U: ContextItem>(
    m: Map<Seq<char>, ContextValue>,
    key: Seq<char>,
    value: T,
    other: Seq<char>,
)
    requires
        other != key,
    ensures
        lookup::<U>(m.insert(key, value.to_value()), other) == lookup::<U>(m, other),
{
}

/// After a key is removed nothing is found under it, and every other key
/// gives what it gave before.
pub proof fn remove_forgets_key<T: ContextItem>(
    m: Map<Seq<char>, ContextValue>,
    key: Seq<char>,
    other: Seq<char>,
)
    ensures
        lookup::<T>(m.remove(key), key) is None,
        !m.remove(key).contains_key(key),
        other != key ==> lookup::<T>(m.remove(key), other) == lookup::<T>(m, other),
{
}

/// Storing under a new key adds one key; storing under a key in use adds none.
pub proof fn set_len(c: &Context, key: Seq<char>, value: ContextValue)
    requires
        c.wf(),
    ensures
        c@.insert(key, value).dom().len() == c@.dom().len() + (if c@.contains_key(key) {
            0int
        } else {
            1int
        }),
{
    c.lemma_finite();
    if c@.contains_key(key) {
        assert(c@.insert(key, value).dom() =~= c@.dom());
    }
}

} // verus!
