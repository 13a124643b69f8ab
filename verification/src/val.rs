//! The tree value model: a tagged value over shared, copy-on-write
//! containers, together with the policy tag and the error taxonomy of
//! path evaluation.

use std::rc::Rc;
use vstd::prelude::*;

verus! {

/// Per-step error-tolerance policy: an `Essential` step's failure aborts
/// the whole path evaluation, an `Optional` step's failure silently
/// drops that branch.
#[derive(Clone, Copy, Debug)]
pub enum Opt {
    Optional,
    Essential,
}

/// The kind of value an operation required; carried by `Error::Type`.
#[derive(Clone, Copy, Debug)]
pub enum Kind {
    /// An integer (as a container index or range bound).
    Int,
    /// An iterable container (sequence or mapping).
    Iter,
    /// A value a range can slice (sequence or string).
    Range,
    /// A sequence.
    Arr,
}

/// A JSON-like tree value.  `Seq` and `Obj` containers sit behind
/// reference-counted handles so that trees produced by `update` share
/// untouched substructure with the original; a mapping is a sequence of
/// key-value entries in insertion order, keys unique.
#[derive(Debug)]
pub enum Value {
    Null,
    Bool(bool),
    Int(isize),
    Str(Rc<Vec<char>>),
    Arr(Rc<Vec<Value>>),
    Obj(Rc<Vec<(Rc<Vec<char>>, Value)>>),
}

/// The mathematical model of a `Value`: the same tree with every
/// container handle replaced by the sequence it holds.  Contracts and
/// proofs speak of `Node`s; `Value@` is the `Node` a value stands for.
#[verifier::ext_equal]
pub enum Node {
    Null,
    Bool(bool),
    Int(isize),
    Str(Seq<char>),
    Arr(Seq<Node>),
    Obj(Seq<(Seq<char>, Node)>),
}

/// The `Node` a `Value` stands for.
pub open spec fn value_model(v: Value) -> Node
    decreases v, 1int,
    via value_model_decreases
{
    match v {
        Value::Null => Node::Null,
        Value::Bool(b) => Node::Bool(b),
        Value::Int(i) => Node::Int(i),
        Value::Str(s) => Node::Str(s@),
        Value::Arr(a) => Node::Arr(models_of(a@)),
        Value::Obj(o) => Node::Obj(entry_models_of(o@)),
    }
}

/// The models of a sequence of values, element by element.
pub open spec fn models_of(s: Seq<Value>) -> Seq<Node>
    decreases s, 0int,
{
    if s.len() == 0 {
        Seq::empty()
    } else {
        models_of(s.drop_last()).push(value_model(s.last()))
    }
}

/// The models of a mapping's entries, keys kept, values modelled.
pub open spec fn entry_models_of(s: Seq<(Rc<Vec<char>>, Value)>) -> Seq<(Seq<char>, Node)>
    decreases s, 0int,
{
    if s.len() == 0 {
        Seq::empty()
    } else {
        entry_models_of(s.drop_last()).push((s.last().0@, value_model(s.last().1)))
    }
}

/// Appending one value appends its model.
pub proof fn lemma_models_of_push(s: Seq<Value>, v: Value)
    ensures
        models_of(s.push(v)) == models_of(s).push(value_model(v)),
{
    assert(s.push(v).drop_last() =~= s);
    assert(s.push(v).last() == v);
    assert(models_of(s.push(v)) == models_of(s.push(v).drop_last()).push(
        value_model(s.push(v).last()),
    ));
}

#[via_fn]
proof fn value_model_decreases(v: Value) {
    match v {
        Value::Arr(a) => {
            assert(decreases_to!(v => a));
            assert(decreases_to!(a => a@));
        },
        Value::Obj(o) => {
            assert(decreases_to!(v => o));
            assert(decreases_to!(o => o@));
        },
        _ => {},
    }
}

/// `models_of` is the element-wise model.
pub proof fn lemma_models_of(s: Seq<Value>)
    ensures
        models_of(s).len() == s.len(),
        forall|i: int| 0 <= i < s.len() ==> models_of(s)[i] == value_model(s[i]),
    decreases s.len(),
{
    if s.len() > 0 {
        lemma_models_of(s.drop_last());
    }
}

/// `entry_models_of` keeps every key and models every value in place.
pub proof fn lemma_entry_models_of(s: Seq<(Rc<Vec<char>>, Value)>)
    ensures
        entry_models_of(s).len() == s.len(),
        forall|i: int|
            0 <= i < s.len() ==> entry_models_of(s)[i] == (s[i].0@, value_model(s[i].1)),
    decreases s.len(),
{
    if s.len() > 0 {
        lemma_entry_models_of(s.drop_last());
    }
}

impl View for Value {
    type V = Node;

    open spec fn view(&self) -> Node {
        value_model(*self)
    }
}

/// Failures of path evaluation; every operation that can fail returns
/// one of these, never an abort.
#[derive(Debug)]
pub enum Error {
    /// The value is not of the kind the operation requires.
    Type(Value, Kind),
    /// The key is of the wrong kind for the container.
    Index(Value, Value),
    /// An integer index resolved outside the container where strictness
    /// is required (sequence update).
    IndexOutOfBounds(isize),
}

/// The model of an `Error`: the same taxonomy with every carried value
/// modelled.
#[verifier::ext_equal]
pub enum ErrM {
    Type(Node, Kind),
    Index(Node, Node),
    IndexOutOfBounds(isize),
}

impl View for Error {
    type V = ErrM;

    open spec fn view(&self) -> ErrM {
        match self {
            Error::Type(v, k) => ErrM::Type(v@, *k),
            Error::Index(c, i) => ErrM::Index(c@, i@),
            Error::IndexOutOfBounds(i) => ErrM::IndexOutOfBounds(*i),
        }
    }
}

impl Error {
    /// Structural copy, sharing the carried values' containers.
    pub fn dup(&self) -> (r: Error)
        ensures
            r == *self,
    {
        match self {
            Error::Type(v, k) => Error::Type(v.dup(), *k),
            Error::Index(c, i) => Error::Index(c.dup(), i.dup()),
            Error::IndexOutOfBounds(i) => Error::IndexOutOfBounds(*i),
        }
    }
}

/// Relies on `<Rc<T> as Clone>::clone`: the returned handle refers to
/// the same underlying value, so spec-level equality with the original
/// holds by reference-counted sharing.
#[verifier::external_body]
pub fn rc_dup<T>(rc: &Rc<T>) -> (r: Rc<T>)
    ensures
        r == *rc,
{
    Rc::clone(rc)
}

/// Relies on `Rc::try_unwrap`: a uniquely owned handle gives up its
/// value in place; an aliased one is handed back unchanged.  This is the
/// copy-on-write gate: callers clone the contents only in the aliased
/// case.
#[verifier::external_body]
pub fn rc_unwrap_or_keep<T>(rc: Rc<T>) -> (r: Result<T, Rc<T>>)
    ensures
        match r {
            Ok(t) => t == rc,
            Err(e) => e == rc,
        },
{
    Rc::try_unwrap(rc)
}

impl Value {
    /// Cheap structural copy: scalars are copied, containers share
    /// their reference-counted handle.
    pub fn dup(&self) -> (r: Value)
        ensures
            r == *self,
    {
        match self {
            Value::Null => Value::Null,
            Value::Bool(b) => Value::Bool(*b),
            Value::Int(i) => Value::Int(*i),
            Value::Str(s) => Value::Str(rc_dup(s)),
            Value::Arr(a) => Value::Arr(rc_dup(a)),
            Value::Obj(o) => Value::Obj(rc_dup(o)),
        }
    }

    /// The integer a step may use as an index or bound; any other kind
    /// of value is a type error.
    pub fn as_int(&self) -> (r: Result<isize, Error>)
        ensures
            match r {
                Ok(i) => crate::model::node_as_int((*self)@) == Ok::<isize, ErrM>(i),
                Err(e) => crate::model::node_as_int((*self)@) == Err::<isize, ErrM>(e@),
            },
    {
        match self {
            Value::Int(i) => Ok(*i),
            _ => Err(Error::Type(self.dup(), Kind::Int)),
        }
    }
}

/// Character-wise string equality.
pub fn str_eq(a: &Vec<char>, b: &Vec<char>) -> (r: bool)
    ensures
        r == (a@ == b@),
{
    if a.len() != b.len() {
        proof {
            assert(a@.len() != b@.len());
        }
        return false;
    }
    let mut i: usize = 0;
    while i < a.len()
        invariant
            i <= a.len(),
            a.len() == b.len(),
            forall|j: int| 0 <= j < i ==> a@[j] == b@[j],
        decreases a.len() - i,
    {
        if a[i] != b[i] {
            return false;
        }
        i += 1;
    }
    proof {
        assert(a@ =~= b@);
    }
    true
}

/// The first value stored under `key`, going by entry order.
pub open spec fn spec_obj_get(entries: Seq<(Rc<Vec<char>>, Value)>, key: Seq<char>) -> Option<
    Value,
>
    decreases entries.len(),
{
    if entries.len() == 0 {
        None
    } else if entries[0].0@ == key {
        Some(entries[0].1)
    } else {
        spec_obj_get(entries.skip(1), key)
    }
}

/// The position of the first entry stored under `key`, if any.
pub open spec fn spec_obj_find(entries: Seq<(Rc<Vec<char>>, Value)>, key: Seq<char>) -> Option<
    int,
>
    decreases entries.len(),
{
    if entries.len() == 0 {
        None
    } else if entries[0].0@ == key {
        Some(0)
    } else {
        match spec_obj_find(entries.skip(1), key) {
            Some(i) => Some(i + 1),
            None => None,
        }
    }
}

/// Look a key up in a mapping's entry list; `None` when the key is
/// absent.
pub fn obj_find(entries: &Vec<(Rc<Vec<char>>, Value)>, key: &Vec<char>) -> (r: Option<usize>)
    ensures
        r == match spec_obj_find(entries@, key@) {
            Some(i) => Some(i as usize),
            None => None::<usize>,
        },
        match r {
            Some(i) => i < entries@.len() && entries@[i as int].0@ == key@,
            None => true,
        },
{
    proof {
        assert(entries@.skip(0) =~= entries@);
    }
    let mut i: usize = 0;
    while i < entries.len()
        invariant
            i <= entries.len(),
            forall|j: int| 0 <= j < i ==> entries@[j].0@ != key@,
            spec_obj_find(entries@, key@) == match spec_obj_find(entries@.skip(i as int), key@) {
                Some(k) => Some(k + i),
                None => None::<int>,
            },
        decreases entries.len() - i,
    {
        if str_eq(&entries[i].0, key) {
            proof {
                assert(entries@.skip(i as int)[0] == entries@[i as int]);
            }
            return Some(i);
        }
        proof {
            assert(entries@.skip(i as int).skip(1) =~= entries@.skip(i as int + 1));
            assert(entries@.skip(i as int)[0] == entries@[i as int]);
        }
        i += 1;
    }
    proof {
        assert(entries@.skip(i as int).len() == 0);
    }
    None
}

/// `spec_obj_find` and `spec_obj_get` agree: the found position holds
/// the value the lookup returns.
pub proof fn lemma_obj_find_get(entries: Seq<(Rc<Vec<char>>, Value)>, key: Seq<char>)
    ensures
        match spec_obj_find(entries, key) {
            Some(i) => 0 <= i < entries.len() && entries[i].0@ == key && spec_obj_get(entries, key)
                == Some(entries[i].1),
            None => spec_obj_get(entries, key) is None && forall|j: int|
                0 <= j < entries.len() ==> entries[j].0@ != key,
        },
    decreases entries.len(),
{
    if entries.len() == 0 {
    } else if entries[0].0@ == key {
    } else {
        lemma_obj_find_get(entries.skip(1), key);
        match spec_obj_find(entries.skip(1), key) {
            Some(i) => {
                assert(entries.skip(1)[i] == entries[i + 1]);
                assert(spec_obj_find(entries, key) == Some(i + 1));
            },
            None => {
                assert(spec_obj_find(entries, key) is None);
                assert forall|j: int| 0 <= j < entries.len() implies entries[j].0@ != key by {
                    if j > 0 {
                        assert(entries.skip(1)[j - 1] == entries[j]);
                    }
                }
            },
        }
    }
}

} // verus!
