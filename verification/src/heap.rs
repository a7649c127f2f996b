//! Objects, callables and the heap.
//!
//! The heap is an arena: a vector of objects addressed by stable index.  It
//! only ever grows, so an index stays valid for the rest of a run; sharing
//! and cycles need no collector.  An object is an ordered string-keyed
//! property map, one internal prototype slot used for lookup delegation,
//! and, for function objects, a callable.

use vstd::prelude::*;
use vstd::string::StringExecFns;
use std::rc::Rc;
use crate::ast::Expr;
use crate::value::MVal;
use crate::value::Value;
use crate::value::val_ok;

verus! {

/// What a function object can do when invoked.
pub enum Callable {
    /// A host-implemented function, identified by a number the host chose
    /// when it registered the function.
    Native(u64),
    /// A user-defined function: its parameter names and its body, each
    /// declaration owning its own copy of both.
    Regular(Rc<Vec<String>>, Rc<Expr>),
}

/// The model of a callable.
#[verifier::ext_equal]
pub enum MCall {
    Native(u64),
    Regular(Seq<Seq<char>>, Expr),
}

impl View for Callable {
    type V = MCall;

    open spec fn view(&self) -> MCall {
        match self {
            Callable::Native(id) => MCall::Native(*id),
            Callable::Regular(ps, body) => MCall::Regular(
                ps@.map_values(|s: String| s@),
                **body,
            ),
        }
    }
}

/// One object of the heap.
pub struct ObjectData {
    /// The ordered property map.
    pub props: Vec<(String, Value)>,
    /// The internal prototype slot: lookup of a missing property delegates
    /// to this value when it refers to an object.
    pub proto: Value,
    /// The callable, for function objects.
    pub call: Option<Callable>,
}

/// The model of one object.
#[verifier::ext_equal]
pub struct MObj {
    pub props: Seq<(Seq<char>, MVal)>,
    pub proto: MVal,
    pub call: Option<MCall>,
}

impl View for ObjectData {
    type V = MObj;

    open spec fn view(&self) -> MObj {
        MObj {
            props: self.props@.map_values(|p: (String, Value)| (p.0@, p.1@)),
            proto: self.proto@,
            call: match &self.call {
                Option::None => Option::None,
                Option::Some(c) => Option::Some(c@),
            },
        }
    }
}

/// The model of the whole heap.
pub open spec fn hview(h: Seq<ObjectData>) -> Seq<MObj> {
    h.map_values(|o: ObjectData| o@)
}

/// Whether every value an object holds points below the heap length `n`.
pub open spec fn obj_ok(o: MObj, n: int) -> bool {
    &&& val_ok(o.proto, n)
    &&& forall|i: int| 0 <= i < o.props.len() ==> val_ok(#[trigger] o.props[i].1, n)
}

/// Whether every value the heap holds points into the heap.
pub open spec fn heap_ok(h: Seq<MObj>) -> bool {
    forall|i: int| 0 <= i < h.len() ==> obj_ok(#[trigger] h[i], h.len() as int)
}

/// The first property of `props` named `key`, if any.
pub open spec fn lookup_prop(props: Seq<(Seq<char>, MVal)>, key: Seq<char>) -> Option<MVal>
    decreases props.len(),
{
    if props.len() == 0 {
        Option::None
    } else if props[0].0 == key {
        Option::Some(props[0].1)
    } else {
        lookup_prop(props.drop_first(), key)
    }
}

/// `props` with the first property named `key` replaced by `value`, or with
/// `(key, value)` appended when no property has that name.
pub open spec fn set_prop(
    props: Seq<(Seq<char>, MVal)>,
    key: Seq<char>,
    value: MVal,
) -> Seq<(Seq<char>, MVal)>
    decreases props.len(),
{
    if props.len() == 0 {
        seq![(key, value)]
    } else if props[0].0 == key {
        seq![(key, value)] + props.drop_first()
    } else {
        seq![props[0]] + set_prop(props.drop_first(), key, value)
    }
}

/// Property lookup through the prototype chain.  A missing property
/// delegates to the prototype; a non-object receiver, a missing object, and
/// an exhausted chain all answer `undefined`.  The chain is walked at most
/// `depth` steps past the first object, which loses nothing when `depth` is
/// the heap length, since an acyclic chain of distinct objects cannot be
/// longer than that; a cyclic chain answers `undefined`.  The key
/// `__proto__` reads the prototype slot itself.
pub open spec fn get_field_m(heap: Seq<MObj>, v: MVal, key: Seq<char>, depth: nat) -> MVal
    decreases depth,
{
    match v {
        MVal::Obj(i) | MVal::Fun(i) => {
            if 0 <= i < heap.len() {
                if key == "__proto__"@ {
                    heap[i].proto
                } else {
                    match lookup_prop(heap[i].props, key) {
                        Option::Some(x) => x,
                        Option::None => {
                            if depth == 0 {
                                MVal::Undefined
                            } else {
                                get_field_m(heap, heap[i].proto, key, (depth - 1) as nat)
                            }
                        },
                    }
                }
            } else {
                MVal::Undefined
            }
        },
        _ => MVal::Undefined,
    }
}

/// The heap after setting a property.  A non-object target makes the write
/// a silent no-op.  The key `__proto__` writes the prototype slot.
pub open spec fn set_field_m(heap: Seq<MObj>, v: MVal, key: Seq<char>, value: MVal) -> Seq<MObj> {
    match v {
        MVal::Obj(i) | MVal::Fun(i) => {
            if 0 <= i < heap.len() {
                if key == "__proto__"@ {
                    heap.update(i, MObj { proto: value, ..heap[i] })
                } else {
                    heap.update(i, MObj { props: set_prop(heap[i].props, key, value), ..heap[i] })
                }
            } else {
                heap
            }
        },
        _ => heap,
    }
}

proof fn lemma_lookup_skip(props: Seq<(Seq<char>, MVal)>, key: Seq<char>, i: int)
    requires
        0 <= i <= props.len(),
        forall|j: int| 0 <= j < i ==> (#[trigger] props[j]).0 != key,
    ensures
        lookup_prop(props, key) == lookup_prop(props.skip(i), key),
    decreases i,
{
    if i > 0 {
        assert(props[0].0 != key);
        assert forall|j: int| 0 <= j < i - 1 implies (#[trigger] props.drop_first()[j]).0 != key by {
            assert(props.drop_first()[j] == props[j + 1]);
        }
        lemma_lookup_skip(props.drop_first(), key, i - 1);
        assert(props.drop_first().skip(i - 1) =~= props.skip(i));
    } else {
        assert(props.skip(0) =~= props);
    }
}

proof fn lemma_set_skip(props: Seq<(Seq<char>, MVal)>, key: Seq<char>, value: MVal, i: int)
    requires
        0 <= i <= props.len(),
        forall|j: int| 0 <= j < i ==> (#[trigger] props[j]).0 != key,
    ensures
        set_prop(props, key, value) == props.take(i) + set_prop(props.skip(i), key, value),
    decreases i,
{
    if i == 0 {
        assert(props.take(0) + set_prop(props.skip(0), key, value)
            =~= set_prop(props, key, value)) by {
            assert(props.skip(0) =~= props);
        }
    } else {
        lemma_set_skip(props.drop_first(), key, value, i - 1);
        assert(props.drop_first().skip(i - 1) =~= props.skip(i));
        assert(props.drop_first().take(i - 1) =~= props.take(i).drop_first());
        assert(set_prop(props, key, value)
            =~= props.take(i) + set_prop(props.skip(i), key, value));
    }
}

/// Looking a property up right after setting it yields the set value.
pub proof fn lemma_set_then_lookup(props: Seq<(Seq<char>, MVal)>, key: Seq<char>, value: MVal)
    ensures
        lookup_prop(set_prop(props, key, value), key) == Option::Some(value),
    decreases props.len(),
{
    if props.len() == 0 {
    } else if props[0].0 == key {
    } else {
        lemma_set_then_lookup(props.drop_first(), key, value);
        let out = set_prop(props, key, value);
        assert(out.drop_first() =~= set_prop(props.drop_first(), key, value));
    }
}

/// Whether `key` names the internal prototype slot.
fn is_proto_key(key: &String) -> (r: bool)
    ensures
        r == (key@ == "__proto__"@),
{
    let p = String::from_str("__proto__");
    *key == p
}

/// The first property of `props` named `key`, or `undefined`.
pub fn props_lookup(props: &Vec<(String, Value)>, key: &String) -> (r: Option<Value>)
    ensures
        match r {
            Option::Some(v) => lookup_prop(pview(props@), key@) == Option::Some(v@),
            Option::None => lookup_prop(pview(props@), key@) is None,
        },
{
    let n = props.len();
    let mut i: usize = 0;
    while i < n
        invariant
            0 <= i <= n,
            n == props@.len(),
            forall|j: int| 0 <= j < i ==> (#[trigger] pview(props@)[j]).0 != key@,
        decreases n - i,
    {
        assert(pview(props@)[i as int].0 == props@[i as int].0@);
        if props[i].0 == *key {
            let v = props[i].1.dup();
            proof {
                lemma_lookup_skip(pview(props@), key@, i as int);
                assert(pview(props@).skip(i as int)[0] == pview(props@)[i as int]);
            }
            return Option::Some(v);
        }
        i = i + 1;
    }
    proof {
        lemma_lookup_skip(pview(props@), key@, n as int);
        assert(pview(props@).skip(n as int).len() == 0);
    }
    Option::None
}

/// The model of a property vector.
pub open spec fn pview(props: Seq<(String, Value)>) -> Seq<(Seq<char>, MVal)> {
    props.map_values(|p: (String, Value)| (p.0@, p.1@))
}

/// Replaces the first property named `key`, or appends one.
pub fn props_set(props: &mut Vec<(String, Value)>, key: &String, value: Value)
    ensures
        pview(final(props)@) == set_prop(pview(old(props)@), key@, value@),
{
    let n = props.len();
    let mut i: usize = 0;
    while i < n
        invariant
            0 <= i <= n,
            n == props@.len(),
            *props == *old(props),
            forall|j: int| 0 <= j < i ==> (#[trigger] pview(props@)[j]).0 != key@,
        decreases n - i,
    {
        assert(pview(props@)[i as int].0 == props@[i as int].0@);
        if props[i].0 == *key {
            proof {
                lemma_set_skip(pview(old(props)@), key@, value@, i as int);
            }
            let kc = key.clone();
            props.set(i, (kc, value));
            proof {
                let oldp = pview(old(props)@);
                let newp = pview(props@);
                assert(oldp.skip(i as int)[0] == oldp[i as int]);
                assert(newp =~= oldp.take(i as int) + set_prop(oldp.skip(i as int), key@, value@));
            }
            return;
        }
        i = i + 1;
    }
    proof {
        lemma_set_skip(pview(old(props)@), key@, value@, n as int);
        assert(pview(old(props)@).skip(n as int).len() == 0);
    }
    let kc = key.clone();
    props.push((kc, value));
    proof {
        let oldp = pview(old(props)@);
        assert(pview(props@) =~= oldp.take(n as int) + seq![(key@, value@)]);
        assert(oldp.take(n as int) =~= oldp);
    }
}

/// Property lookup through the prototype chain, walking at most `depth`
/// delegation steps.
fn get_field_depth(heap: &Vec<ObjectData>, v: &Value, key: &String, depth: usize) -> (r: Value)
    ensures
        r@ == get_field_m(hview(heap@), v@, key@, depth as nat),
    decreases depth,
{
    let i: usize = match v {
        Value::Object(i) => *i,
        Value::Function(i) => *i,
        _ => {
            return Value::Undefined;
        },
    };
    if i >= heap.len() {
        return Value::Undefined;
    }
    assert(hview(heap@)[i as int] == heap@[i as int]@);
    if is_proto_key(key) {
        return heap[i].proto.dup();
    }
    match props_lookup(&heap[i].props, key) {
        Option::Some(x) => x,
        Option::None => {
            if depth == 0 {
                Value::Undefined
            } else {
                let p = heap[i].proto.dup();
                get_field_depth(heap, &p, key, depth - 1)
            }
        },
    }
}

/// Property lookup through the prototype chain.
pub fn heap_get_field(heap: &Vec<ObjectData>, v: &Value, key: &String) -> (r: Value)
    ensures
        r@ == get_field_m(hview(heap@), v@, key@, heap@.len() as nat),
{
    let d = heap.len();
    get_field_depth(heap, v, key, d)
}

/// Sets a property on the value's object, a silent no-op when the value is
/// not an object.
pub fn heap_set_field(heap: &mut Vec<ObjectData>, v: &Value, key: &String, value: Value)
    ensures
        hview(final(heap)@) == set_field_m(hview(old(heap)@), v@, key@, value@),
{
    let i: usize = match v {
        Value::Object(i) => *i,
        Value::Function(i) => *i,
        _ => {
            return;
        },
    };
    if i >= heap.len() {
        return;
    }
    assert(hview(heap@)[i as int] == heap@[i as int]@);
    if is_proto_key(key) {
        let o = &mut heap[i];
        o.proto = value;
        assert(hview(heap@) =~= set_field_m(hview(old(heap)@), v@, key@, value@));
    } else {
        let o = &mut heap[i];
        props_set(&mut o.props, key, value);
        assert(hview(heap@) =~= set_field_m(hview(old(heap)@), v@, key@, value@));
    }
}

/// Appends a fresh object and returns its index.
pub fn heap_alloc(heap: &mut Vec<ObjectData>, obj: ObjectData) -> (i: usize)
    ensures
        hview(final(heap)@) == hview(old(heap)@).push(obj@),
        i as int == old(heap)@.len(),
{
    let i = heap.len();
    heap.push(obj);
    assert(hview(heap@) =~= hview(old(heap)@).push(heap@[i as int]@));
    i
}


/// A value closed for a heap of length `n` is closed for any longer heap.
pub proof fn lemma_val_ok_mono(v: MVal, n: int, m: int)
    requires
        val_ok(v, n),
        n <= m,
    ensures
        val_ok(v, m),
{
}

/// An object closed for a heap of length `n` is closed for any longer heap.
pub proof fn lemma_obj_ok_mono(o: MObj, n: int, m: int)
    requires
        obj_ok(o, n),
        n <= m,
    ensures
        obj_ok(o, m),
{
}

/// Appending a closed object keeps the heap closed.
pub proof fn lemma_heap_push_ok(h: Seq<MObj>, o: MObj)
    requires
        heap_ok(h),
        obj_ok(o, h.len() + 1 as int),
    ensures
        heap_ok(h.push(o)),
{
    let h1 = h.push(o);
    assert forall|i: int| 0 <= i < h1.len() implies obj_ok(#[trigger] h1[i], h1.len() as int) by {
        if i < h.len() {
            assert(h1[i] == h[i]);
            lemma_obj_ok_mono(h[i], h.len() as int, h1.len() as int);
        }
    }
}

/// A property found in a closed object's map is a closed value.
pub proof fn lemma_lookup_prop_ok(props: Seq<(Seq<char>, MVal)>, key: Seq<char>, n: int)
    requires
        forall|i: int| 0 <= i < props.len() ==> val_ok(#[trigger] props[i].1, n),
    ensures
        match lookup_prop(props, key) {
            Option::Some(x) => val_ok(x, n),
            Option::None => true,
        },
    decreases props.len(),
{
    if props.len() > 0 && props[0].0 != key {
        assert forall|i: int| 0 <= i < props.drop_first().len()
            implies val_ok(#[trigger] props.drop_first()[i].1, n) by {
            assert(props.drop_first()[i] == props[i + 1]);
        }
        lemma_lookup_prop_ok(props.drop_first(), key, n);
    }
}

/// Setting a property to a closed value keeps every property closed.
pub proof fn lemma_set_prop_ok(props: Seq<(Seq<char>, MVal)>, key: Seq<char>, value: MVal, n: int)
    requires
        forall|i: int| 0 <= i < props.len() ==> val_ok(#[trigger] props[i].1, n),
        val_ok(value, n),
    ensures
        forall|i: int| 0 <= i < set_prop(props, key, value).len()
            ==> val_ok(#[trigger] set_prop(props, key, value)[i].1, n),
    decreases props.len(),
{
    let out = set_prop(props, key, value);
    if props.len() == 0 {
    } else if props[0].0 == key {
        assert forall|i: int| 0 <= i < out.len() implies val_ok(#[trigger] out[i].1, n) by {
            if i > 0 {
                assert(out[i] == props[i]);
            }
        }
    } else {
        assert forall|i: int| 0 <= i < props.drop_first().len()
            implies val_ok(#[trigger] props.drop_first()[i].1, n) by {
            assert(props.drop_first()[i] == props[i + 1]);
        }
        lemma_set_prop_ok(props.drop_first(), key, value, n);
        let rest = set_prop(props.drop_first(), key, value);
        assert forall|i: int| 0 <= i < out.len() implies val_ok(#[trigger] out[i].1, n) by {
            if i > 0 {
                assert(out[i] == rest[i - 1]);
            }
        }
    }
}

/// Property lookup through the prototype chain yields a closed value.
pub proof fn lemma_get_field_ok(heap: Seq<MObj>, v: MVal, key: Seq<char>, depth: nat)
    requires
        heap_ok(heap),
    ensures
        val_ok(get_field_m(heap, v, key, depth), heap.len() as int),
    decreases depth,
{
    match v {
        MVal::Obj(i) | MVal::Fun(i) => {
            if 0 <= i < heap.len() {
                if key == "__proto__"@ {
                } else {
                    lemma_lookup_prop_ok(heap[i].props, key, heap.len() as int);
                    if lookup_prop(heap[i].props, key) is None && depth > 0 {
                        lemma_get_field_ok(heap, heap[i].proto, key, (depth - 1) as nat);
                    }
                }
            }
        },
        _ => {},
    }
}

/// Setting a field to a closed value keeps the heap closed and its length
/// unchanged.
pub proof fn lemma_set_field_ok(heap: Seq<MObj>, v: MVal, key: Seq<char>, value: MVal)
    requires
        heap_ok(heap),
        val_ok(value, heap.len() as int),
    ensures
        heap_ok(set_field_m(heap, v, key, value)),
        set_field_m(heap, v, key, value).len() == heap.len(),
{
    let out = set_field_m(heap, v, key, value);
    match v {
        MVal::Obj(i) | MVal::Fun(i) => {
            if 0 <= i < heap.len() {
                if key == "__proto__"@ {
                    assert forall|j: int| 0 <= j < out.len()
                        implies obj_ok(#[trigger] out[j], out.len() as int) by {
                        if j != i {
                            assert(out[j] == heap[j]);
                        }
                    }
                } else {
                    lemma_set_prop_ok(heap[i].props, key, value, heap.len() as int);
                    assert forall|j: int| 0 <= j < out.len()
                        implies obj_ok(#[trigger] out[j], out.len() as int) by {
                        if j != i {
                            assert(out[j] == heap[j]);
                        }
                    }
                }
            }
        },
        _ => {},
    }
}

} // verus!
