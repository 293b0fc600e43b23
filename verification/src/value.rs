//! The runtime values the interpreter's stack holds, and their
//! mathematical model.
//!
//! A `Value` is a tagged union of the shapes a program can build: signed and
//! unsigned 64-bit integers, a 64-bit IEEE-754 float carried as its raw bit
//! pattern, a byte string, an object (a key-value mapping with unique byte
//! string keys), an array, a boolean, and a null marker. Floats are stored as
//! bits because the language only ever manufactures them by reinterpreting an
//! integer's bit pattern, by negation (a sign-bit flip), or as one of the two
//! constants infinity and NaN; no float arithmetic takes place.

use vstd::prelude::*;

verus! {

/// A value the interpreter's stack holds.
///
/// `Float` carries the raw IEEE-754 bit pattern of the 64-bit float.
/// `Object` carries its entries in insertion order; the key of each entry is
/// unique among the entries, which the insertion operation enforces.
#[derive(Debug, PartialEq)]
pub enum Value {
    Int(i64),
    Uint(u64),
    Float(u64),
    String(Vec<u8>),
    Object(Vec<(Vec<u8>, Value)>),
    Array(Vec<Value>),
    Bool(bool),
    Nil,
}

/// The mathematical model of a `Value`: the same tree with every vector
/// replaced by a sequence.
pub enum ValueView {
    Int(i64),
    Uint(u64),
    Float(u64),
    Str(Seq<u8>),
    Obj(Seq<(Seq<u8>, ValueView)>),
    Arr(Seq<ValueView>),
    Bool(bool),
    Nil,
}

/// The model of a value: each vector becomes the sequence of the models of
/// its elements.
pub open spec fn value_view(v: Value) -> ValueView
    decreases v,
{
    match v {
        Value::Int(i) => ValueView::Int(i),
        Value::Uint(u) => ValueView::Uint(u),
        Value::Float(bits) => ValueView::Float(bits),
        Value::String(s) => ValueView::Str(s@),
        Value::Object(entries) => ValueView::Obj(obj_view(entries@)),
        Value::Array(elems) => ValueView::Arr(arr_view(elems@)),
        Value::Bool(b) => ValueView::Bool(b),
        Value::Nil => ValueView::Nil,
    }
}

/// The models of a sequence of values, element by element.
pub open spec fn arr_view(elems: Seq<Value>) -> Seq<ValueView>
    decreases elems,
{
    if elems.len() == 0 {
        Seq::<ValueView>::empty()
    } else {
        seq![value_view(elems[0])] + arr_view(elems.drop_first())
    }
}

/// The models of a sequence of object entries, element by element.
pub open spec fn obj_view(entries: Seq<(Vec<u8>, Value)>) -> Seq<(Seq<u8>, ValueView)>
    decreases entries,
{
    if entries.len() == 0 {
        Seq::<(Seq<u8>, ValueView)>::empty()
    } else {
        seq![(entries[0].0@, value_view(entries[0].1))] + obj_view(entries.drop_first())
    }
}

/// `arr_view` maps the sequence pointwise.
pub proof fn lemma_arr_view(elems: Seq<Value>)
    ensures
        arr_view(elems).len() == elems.len(),
        forall|i: int| 0 <= i < elems.len() ==> arr_view(elems)[i] == value_view(elems[i]),
    decreases elems.len(),
{
    if elems.len() > 0 {
        lemma_arr_view(elems.drop_first());
        assert forall|i: int| 0 <= i < elems.len() implies arr_view(elems)[i] == value_view(
            elems[i],
        ) by {
            if i > 0 {
                assert(elems.drop_first()[i - 1] == elems[i]);
            }
        }
    }
}

/// `obj_view` maps the sequence pointwise.
pub proof fn lemma_obj_view(entries: Seq<(Vec<u8>, Value)>)
    ensures
        obj_view(entries).len() == entries.len(),
        forall|i: int| 0 <= i < entries.len() ==> obj_view(entries)[i] == (
        entries[i].0@,
        value_view(entries[i].1),
        ),
    decreases entries.len(),
{
    if entries.len() > 0 {
        lemma_obj_view(entries.drop_first());
        assert forall|i: int| 0 <= i < entries.len() implies obj_view(entries)[i] == (
            entries[i].0@,
            value_view(entries[i].1),
        ) by {
            if i > 0 {
                assert(entries.drop_first()[i - 1] == entries[i]);
            }
        }
    }
}

/// No two entries share a key.
pub open spec fn unique_keys(entries: Seq<(Seq<u8>, ValueView)>) -> bool {
    forall|i: int, j: int| 0 <= i < j < entries.len() ==> entries[i].0 != entries[j].0
}

/// A model value is well formed when every object in it has unique keys.
pub open spec fn view_wf(v: ValueView) -> bool
    decreases v,
{
    match v {
        ValueView::Obj(entries) => unique_keys(entries) && forall|i: int|
            0 <= i < entries.len() ==> view_wf(#[trigger] entries[i].1),
        ValueView::Arr(elems) => forall|i: int|
            0 <= i < elems.len() ==> view_wf(#[trigger] elems[i]),
        _ => true,
    }
}

/// The value stored under a key, if the key is present.
pub open spec fn obj_lookup(entries: Seq<(Seq<u8>, ValueView)>, key: Seq<u8>) -> Option<ValueView>
    decreases entries,
{
    if entries.len() == 0 {
        None
    } else if entries[0].0 == key {
        Some(entries[0].1)
    } else {
        obj_lookup(entries.drop_first(), key)
    }
}

/// Insertion with last-write-wins: an existing entry for the key is replaced
/// in place, otherwise the new entry goes to the end.
pub open spec fn obj_insert(
    entries: Seq<(Seq<u8>, ValueView)>,
    key: Seq<u8>,
    val: ValueView,
) -> Seq<(Seq<u8>, ValueView)>
    decreases entries,
{
    if entries.len() == 0 {
        seq![(key, val)]
    } else if entries[0].0 == key {
        seq![(key, val)] + entries.drop_first()
    } else {
        seq![entries[0]] + obj_insert(entries.drop_first(), key, val)
    }
}

/// Inserting with a key already present replaces that entry in place;
/// inserting a fresh key appends. Either way the inserted value is found
/// under its key afterwards, every other key keeps its value, and keys stay
/// unique.
pub proof fn lemma_obj_insert(entries: Seq<(Seq<u8>, ValueView)>, key: Seq<u8>, val: ValueView)
    requires
        unique_keys(entries),
    ensures
        obj_lookup(obj_insert(entries, key, val), key) == Some(val),
        forall|k2: Seq<u8>|
            k2 != key ==> obj_lookup(obj_insert(entries, key, val), k2) == obj_lookup(entries, k2),
        unique_keys(obj_insert(entries, key, val)),
        obj_lookup(entries, key) is Some ==> obj_insert(entries, key, val).len() == entries.len(),
        obj_lookup(entries, key) is None ==> obj_insert(entries, key, val).len() == entries.len()
            + 1,
    decreases entries.len(),
{
    let out = obj_insert(entries, key, val);
    if entries.len() == 0 {
        assert(out == seq![(key, val)]);
        assert(out.drop_first() =~= Seq::<(Seq<u8>, ValueView)>::empty());
        assert forall|k2: Seq<u8>| k2 != key implies obj_lookup(out, k2) == obj_lookup(
            entries,
            k2,
        ) by {
            assert(obj_lookup(out, k2) == obj_lookup(out.drop_first(), k2));
        }
    } else if entries[0].0 == key {
        assert(out.drop_first() =~= entries.drop_first());
        assert(out[0] == (key, val));
        assert forall|i: int, j: int| 0 <= i < j < out.len() implies out[i].0 != out[j].0 by {
            if i == 0 {
                assert(out[j] == entries[j]);
            } else {
                assert(out[i] == entries[i] && out[j] == entries[j]);
            }
        }
        assert forall|k2: Seq<u8>| k2 != key implies obj_lookup(out, k2) == obj_lookup(
            entries,
            k2,
        ) by {
            assert(obj_lookup(out, k2) == obj_lookup(out.drop_first(), k2));
            assert(obj_lookup(entries, k2) == obj_lookup(entries.drop_first(), k2));
        }
    } else {
        let rest = entries.drop_first();
        assert(unique_keys(rest)) by {
            assert forall|i: int, j: int| 0 <= i < j < rest.len() implies rest[i].0 != rest[j].0 by {
                assert(rest[i] == entries[i + 1] && rest[j] == entries[j + 1]);
            }
        }
        lemma_obj_insert(rest, key, val);
        assert(out[0] == entries[0]);
        assert(out.drop_first() =~= obj_insert(rest, key, val));
        assert(obj_lookup(out, key) == obj_lookup(obj_insert(rest, key, val), key));
        assert forall|k2: Seq<u8>| k2 != key implies obj_lookup(out, k2) == obj_lookup(
            entries,
            k2,
        ) by {
            if k2 != entries[0].0 {
                assert(obj_lookup(out, k2) == obj_lookup(obj_insert(rest, key, val), k2));
                assert(obj_lookup(entries, k2) == obj_lookup(rest, k2));
            }
        }
        // Keys of the inserted tail are the old tail's keys plus possibly `key`,
        // and `key` differs from `entries[0].0`.
        assert forall|i: int, j: int| 0 <= i < j < out.len() implies out[i].0 != out[j].0 by {
            if i == 0 {
                let tail = obj_insert(rest, key, val);
                assert(out[j] == tail[j - 1]);
                lemma_obj_insert_keys(rest, key, val, j - 1);
            } else {
                let tail = obj_insert(rest, key, val);
                assert(out[i] == tail[i - 1] && out[j] == tail[j - 1]);
            }
        }
    }
}

/// Every key of `obj_insert(entries, key, val)` is `key` or a key of `entries`.
pub proof fn lemma_obj_insert_keys(
    entries: Seq<(Seq<u8>, ValueView)>,
    key: Seq<u8>,
    val: ValueView,
    i: int,
)
    requires
        0 <= i < obj_insert(entries, key, val).len(),
    ensures
        obj_insert(entries, key, val)[i].0 == key || exists|j: int|
            0 <= j < entries.len() && entries[j].0 == obj_insert(entries, key, val)[i].0,
    decreases entries.len(),
{
    let out = obj_insert(entries, key, val);
    if entries.len() == 0 {
    } else if entries[0].0 == key {
        if i > 0 {
            assert(out[i] == entries.drop_first()[i - 1]);
            assert(entries.drop_first()[i - 1] == entries[i]);
        }
    } else {
        if i > 0 {
            let tail = obj_insert(entries.drop_first(), key, val);
            assert(out[i] == tail[i - 1]);
            lemma_obj_insert_keys(entries.drop_first(), key, val, i - 1);
            if tail[i - 1].0 != key {
                let j = choose|j: int|
                    0 <= j < entries.drop_first().len() && entries.drop_first()[j].0 == tail[i
                        - 1].0;
                assert(entries[j + 1].0 == out[i].0);
            }
        }
    }
}

/// When the key sits at position `i` (and nowhere earlier), insertion
/// replaces that entry in place.
pub proof fn lemma_obj_insert_found(
    entries: Seq<(Seq<u8>, ValueView)>,
    key: Seq<u8>,
    val: ValueView,
    i: int,
)
    requires
        0 <= i < entries.len(),
        entries[i].0 == key,
        forall|j: int| 0 <= j < i ==> entries[j].0 != key,
    ensures
        obj_insert(entries, key, val) == entries.update(i, (key, val)),
    decreases i,
{
    if i == 0 {
        assert(obj_insert(entries, key, val) =~= entries.update(0, (key, val)));
    } else {
        let rest = entries.drop_first();
        assert(rest[i - 1] == entries[i]);
        assert forall|j: int| 0 <= j < i - 1 implies rest[j].0 != key by {
            assert(rest[j] == entries[j + 1]);
        }
        lemma_obj_insert_found(rest, key, val, i - 1);
        assert(obj_insert(entries, key, val) =~= entries.update(i, (key, val)));
    }
}

/// When the key is absent, insertion appends the new entry.
pub proof fn lemma_obj_insert_absent(
    entries: Seq<(Seq<u8>, ValueView)>,
    key: Seq<u8>,
    val: ValueView,
)
    requires
        forall|j: int| 0 <= j < entries.len() ==> entries[j].0 != key,
    ensures
        obj_insert(entries, key, val) == entries.push((key, val)),
    decreases entries.len(),
{
    if entries.len() == 0 {
        assert(obj_insert(entries, key, val) =~= entries.push((key, val)));
    } else {
        let rest = entries.drop_first();
        assert forall|j: int| 0 <= j < rest.len() implies rest[j].0 != key by {
            assert(rest[j] == entries[j + 1]);
        }
        lemma_obj_insert_absent(rest, key, val);
        assert(obj_insert(entries, key, val) =~= entries.push((key, val)));
    }
}

/// Insertion keeps every stored value well formed when the inserted value
/// and the existing ones are.
pub proof fn lemma_obj_insert_wf(entries: Seq<(Seq<u8>, ValueView)>, key: Seq<u8>, val: ValueView)
    requires
        forall|i: int| 0 <= i < entries.len() ==> view_wf((#[trigger] entries[i]).1),
        view_wf(val),
    ensures
        forall|i: int|
            0 <= i < obj_insert(entries, key, val).len() ==> view_wf(
                (#[trigger] obj_insert(entries, key, val)[i]).1,
            ),
    decreases entries.len(),
{
    let out = obj_insert(entries, key, val);
    if entries.len() == 0 {
        assert(out == seq![(key, val)]);
    } else if entries[0].0 == key {
        assert forall|i: int| 0 <= i < out.len() implies view_wf((#[trigger] out[i]).1) by {
            if i > 0 {
                assert(out[i] == entries.drop_first()[i - 1]);
                assert(entries.drop_first()[i - 1] == entries[i]);
            }
        }
    } else {
        let rest = entries.drop_first();
        assert forall|i: int| 0 <= i < rest.len() implies view_wf((#[trigger] rest[i]).1) by {
            assert(rest[i] == entries[i + 1]);
        }
        lemma_obj_insert_wf(rest, key, val);
        assert forall|i: int| 0 <= i < out.len() implies view_wf((#[trigger] out[i]).1) by {
            if i > 0 {
                assert(out[i] == obj_insert(rest, key, val)[i - 1]);
            }
        }
    }
}

/// Whether two byte vectors hold the same bytes.
pub fn bytes_eq(a: &Vec<u8>, b: &Vec<u8>) -> (r: bool)
    ensures
        r == (a@ == b@),
{
    if a.len() != b.len() {
        return false;
    }
    let mut i: usize = 0;
    while i < a.len()
        invariant
            i <= a@.len(),
            a@.len() == b@.len(),
            forall|j: int| 0 <= j < i ==> a@[j] == b@[j],
        decreases a@.len() - i,
    {
        if a[i] != b[i] {
            return false;
        }
        i += 1;
    }
    proof {
        assert(a@ =~= b@);
    }
    true
}

/// A fresh vector with the same bytes.
pub fn clone_bytes(b: &Vec<u8>) -> (r: Vec<u8>)
    ensures
        r@ == b@,
{
    let mut out: Vec<u8> = Vec::new();
    let mut i: usize = 0;
    while i < b.len()
        invariant
            i <= b@.len(),
            out@ =~= b@.take(i as int),
        decreases b@.len() - i,
    {
        out.push(b[i]);
        proof {
            assert(out@ =~= b@.take(i + 1));
        }
        i += 1;
    }
    proof {
        assert(b@.take(b@.len() as int) =~= b@);
    }
    out
}

impl Value {
    /// A fresh value with the same model: containers are copied element by
    /// element all the way down.
    #[verifier::loop_isolation(false)]
    pub fn deep_clone(&self) -> (r: Value)
        ensures
            value_view(r) == value_view(*self),
        decreases *self,
    {
        match self {
            Value::Int(i) => Value::Int(*i),
            Value::Uint(u) => Value::Uint(*u),
            Value::Float(bits) => Value::Float(*bits),
            Value::String(s) => Value::String(clone_bytes(s)),
            Value::Bool(b) => Value::Bool(*b),
            Value::Nil => Value::Nil,
            Value::Array(elems) => {
                let mut out: Vec<Value> = Vec::new();
                let mut i: usize = 0;
                while i < elems.len()
                    invariant
                        i <= elems@.len(),
                        out@.len() == i as int,
                        forall|j: int|
                            0 <= j < i ==> value_view(#[trigger] out@[j]) == value_view(elems@[j]),
                    decreases elems@.len() - i,
                {
                    let e = &elems[i];
                    proof {
                        assert(decreases_to!(*self => *elems));
                        assert(decreases_to!(*elems => elems@[i as int]));
                    }
                    out.push(e.deep_clone());
                    i += 1;
                }
                proof {
                    lemma_arr_view(out@);
                    lemma_arr_view(elems@);
                    assert(arr_view(out@) =~= arr_view(elems@));
                }
                Value::Array(out)
            },
            Value::Object(entries) => {
                let mut out: Vec<(Vec<u8>, Value)> = Vec::new();
                let mut i: usize = 0;
                while i < entries.len()
                    invariant
                        i <= entries@.len(),
                        out@.len() == i as int,
                        forall|j: int|
                            0 <= j < i ==> (#[trigger] out@[j]).0@ == entries@[j].0@ && value_view(
                                out@[j].1,
                            ) == value_view(entries@[j].1),
                    decreases entries@.len() - i,
                {
                    let k = clone_bytes(&entries[i].0);
                    proof {
                        assert(decreases_to!(*self => *entries));
                        assert(decreases_to!(*entries => entries@[i as int]));
                        assert(decreases_to!(entries@[i as int] => entries@[i as int].1));
                    }
                    let v = entries[i].1.deep_clone();
                    out.push((k, v));
                    i += 1;
                }
                proof {
                    lemma_obj_view(out@);
                    lemma_obj_view(entries@);
                    assert(obj_view(out@) =~= obj_view(entries@));
                }
                Value::Object(out)
            },
        }
    }
}

/// Inserts `(key, val)`, overwriting the entry of an equal key if one is
/// there, appending otherwise.
pub fn object_insert(entries: &mut Vec<(Vec<u8>, Value)>, key: Vec<u8>, val: Value)
    ensures
        obj_view(final(entries)@) == obj_insert(obj_view(old(entries)@), key@, value_view(val)),
{
    proof {
        lemma_obj_view(entries@);
    }
    let mut i: usize = 0;
    while i < entries.len()
        invariant
            i <= entries@.len(),
            entries@ == old(entries)@,
            forall|j: int| 0 <= j < i ==> (#[trigger] entries@[j]).0@ != key@,
        decreases entries@.len() - i,
    {
        if bytes_eq(&entries[i].0, &key) {
            let ghost old_view = obj_view(entries@);
            proof {
                lemma_obj_view(entries@);
                assert forall|j: int| 0 <= j < i implies old_view[j].0 != key@ by {
                    assert(old_view[j] == (entries@[j].0@, value_view(entries@[j].1)));
                }
                lemma_obj_insert_found(old_view, key@, value_view(val), i as int);
            }
            entries.remove(i);
            entries.insert(i, (key, val));
            proof {
                assert(entries@ =~= old(entries)@.update(i as int, (key, val)));
                lemma_obj_view(entries@);
                lemma_obj_view(old(entries)@);
                assert(obj_view(entries@) =~= old_view.update(
                    i as int,
                    (key@, value_view(val)),
                ));
            }
            return ;
        }
        i += 1;
    }
    let ghost old_view = obj_view(entries@);
    proof {
        lemma_obj_view(entries@);
        assert forall|j: int| 0 <= j < old_view.len() implies old_view[j].0 != key@ by {
            assert(old_view[j] == (entries@[j].0@, value_view(entries@[j].1)));
        }
        lemma_obj_insert_absent(old_view, key@, value_view(val));
    }
    entries.push((key, val));
    proof {
        lemma_obj_view(entries@);
        assert(obj_view(entries@) =~= old_view.push((key@, value_view(val))));
    }
}

} // verus!
