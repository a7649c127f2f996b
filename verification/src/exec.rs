//! The execution engine: the executable interpreter, proved to agree with
//! the specification-level evaluator in [`crate::semantics`].
//!
//! The interpreter owns the heap and the environment.  Host-implemented
//! native functions reach it through the [`Host`] trait: the engine hands
//! the host the call's `this`, the callee value and the arguments, and
//! takes any returned value back, discarding out-of-range heap references
//! so that the state invariant survives whatever the host answers.

use vstd::prelude::*;
use vstd::string::StringExecFns;
use crate::ast::BinOp;
use crate::ast::BitOp;
use crate::ast::CompOp;
use crate::ast::Const;
use crate::ast::Expr;
use crate::ast::ExprDef;
use crate::ast::LogOp;
use crate::ast::NumOp;
use crate::ast::UnaryOp;
use crate::coerce::add64;
use crate::coerce::div64;
use crate::coerce::mul64;
use crate::coerce::neg64;
use crate::coerce::rem64;
use crate::coerce::render_int;
use crate::coerce::sub64;
use crate::coerce::to_i32_exec;
use crate::coerce::value_to_number;
use crate::coerce::value_to_string;
use crate::heap::Callable;
use crate::heap::MObj;
use crate::heap::ObjectData;
use crate::heap::heap_alloc;
use crate::heap::heap_get_field;
use crate::heap::heap_set_field;
use crate::heap::hview;
use crate::heap::lemma_get_field_ok;
use crate::heap::lemma_val_ok_mono;
use crate::semantics::MBind;
use crate::semantics::MState;
use crate::semantics::Out;
use crate::semantics::apply_bit;
use crate::semantics::apply_comp;
use crate::semantics::apply_log;
use crate::semantics::apply_num;
use crate::semantics::apply_unary;
use crate::semantics::blank_obj;
use crate::semantics::const_val;
use crate::semantics::declare_name;
use crate::semantics::lemma_declare_name_ok;
use crate::semantics::lemma_lookup_name_ok;
use crate::semantics::lemma_state_push_obj;
use crate::semantics::lookup_name;
use crate::semantics::scope_declare;
use crate::semantics::scope_lookup;
use crate::semantics::scopes_lookup;
use crate::semantics::state_ok;
use crate::semantics::eval;
use crate::semantics::eval_arr;
use crate::semantics::eval_block;
use crate::semantics::eval_callee;
use crate::semantics::eval_decls;
use crate::semantics::eval_list;
use crate::semantics::eval_member;
use crate::semantics::eval_props;
use crate::semantics::eval_switch;
use crate::semantics::eval_while;
use crate::semantics::switch_cases;
use crate::semantics::box_val;
use crate::semantics::construct_val;
use crate::semantics::invoke_val;
use crate::semantics::is_native_callable;
use crate::semantics::construct_alloc;
use crate::semantics::construct_frame;
use crate::semantics::bind_frame;
use crate::semantics::push_scope;
use crate::semantics::pop_scope;
use crate::semantics::ListOut;
use crate::semantics::PairOut;
use crate::coerce::int_str;
use crate::heap::get_field_m;
use crate::value::MVal;
use crate::value::ResultValue;
use crate::value::Value;
use crate::value::is_boxable;
use crate::value::type_of;
use crate::value::val_ok;

verus! {

/// One executable binding: name, value, mutability.
pub type Binding = (String, Value, bool);

/// The model of one executable scope.
pub open spec fn bview(sc: Seq<Binding>) -> Seq<MBind> {
    sc.map_values(|b: Binding| MBind { name: b.0@, val: b.1@, mutable: b.2 })
}

/// The model of the executable scope stack.
pub open spec fn ssview(ss: Seq<Vec<Binding>>) -> Seq<Seq<MBind>> {
    ss.map_values(|sc: Vec<Binding>| bview(sc@))
}

/// The models of a vector of argument values.
pub open spec fn vals_of(vs: Seq<Value>) -> Seq<MVal> {
    vs.map_values(|v: Value| v@)
}

/// Whether the executable outcome `r`, ending in state `st`, agrees with
/// the specified outcome `o`.  A `Stuck` specification constrains nothing
/// beyond the interpreter's standing guarantees.
pub open spec fn agrees(o: Out, st: MState, r: ResultValue) -> bool {
    match o {
        Out::Val(s, v) => s == st && match r {
            Result::Ok(x) => x@ == v,
            Result::Err(_) => false,
        },
        Out::Thrown(s, t) => s == st && match r {
            Result::Err(x) => x@ == t,
            Result::Ok(_) => false,
        },
        Out::Stuck => true,
    }
}

/// Whether a result's value is closed for a heap of length `n`.
pub open spec fn result_ok(r: ResultValue, n: int) -> bool {
    match r {
        Result::Ok(v) => val_ok(v@, n),
        Result::Err(t) => val_ok(t@, n),
    }
}

/// The state of a freshly constructed engine: one empty global object and
/// no local scopes.
pub open spec fn initial_state() -> MState {
    MState { heap: seq![blank_obj(MVal::Null)], global: 0, scopes: Seq::empty() }
}

/// What the embedder supplies: the behaviour of native functions.  The
/// engine calls `call_native` with the identifier the function was
/// registered under, the call's `this` value, the callee value and the
/// evaluated arguments, and uses whatever comes back as the call's result,
/// after discarding heap references the current heap does not contain.
pub trait Host {
    /// Runs the native function registered under `id`.
    fn call_native(&mut self, id: u64, this: Value, callee: Value, args: Vec<Value>) -> ResultValue;
}

/// The host that implements no native functions: every native call
/// answers `undefined`.
pub struct DefaultHost;

impl Host for DefaultHost {
    fn call_native(&mut self, id: u64, this: Value, callee: Value, args: Vec<Value>) -> ResultValue {
        Result::Ok(Value::Undefined)
    }
}

/// An execution engine.
pub trait Executor: Sized {
    /// Whether the engine is in a state it can run from.
    spec fn ready(&self) -> bool;

    /// Make a new execution engine.
    fn new() -> (r: Self)
        ensures
            r.ready(),
    ;

    /// Run an expression.
    fn run(&mut self, expr: &Expr) -> (r: ResultValue)
        requires
            old(self).ready(),
        ensures
            final(self).ready(),
    ;
}

/// The tree-walking interpreter: the heap of objects, the index of the
/// global object, and the stack of call scopes.
pub struct Interpreter {
    heap: Vec<ObjectData>,
    global: usize,
    scopes: Vec<Vec<Binding>>,
}

impl View for Interpreter {
    type V = MState;

    closed spec fn view(&self) -> MState {
        MState {
            heap: hview(self.heap@),
            global: self.global as int,
            scopes: ssview(self.scopes@),
        }
    }
}



proof fn lemma_scope_lookup_skip(sc: Seq<MBind>, name: Seq<char>, i: int)
    requires
        0 <= i <= sc.len(),
        forall|j: int| 0 <= j < i ==> (#[trigger] sc[j]).name != name,
    ensures
        scope_lookup(sc, name) == scope_lookup(sc.skip(i), name),
    decreases i,
{
    if i > 0 {
        assert(sc[0].name != name);
        assert forall|j: int| 0 <= j < i - 1 implies (#[trigger] sc.drop_first()[j]).name != name by {
            assert(sc.drop_first()[j] == sc[j + 1]);
        }
        lemma_scope_lookup_skip(sc.drop_first(), name, i - 1);
        assert(sc.drop_first().skip(i - 1) =~= sc.skip(i));
    } else {
        assert(sc.skip(0) =~= sc);
    }
}

proof fn lemma_scope_declare_skip(sc: Seq<MBind>, name: Seq<char>, v: MVal, m: bool, i: int)
    requires
        0 <= i <= sc.len(),
        forall|j: int| 0 <= j < i ==> (#[trigger] sc[j]).name != name,
    ensures
        scope_declare(sc, name, v, m) == sc.take(i) + scope_declare(sc.skip(i), name, v, m),
    decreases i,
{
    if i == 0 {
        assert(sc.take(0) + scope_declare(sc.skip(0), name, v, m)
            =~= scope_declare(sc, name, v, m)) by {
            assert(sc.skip(0) =~= sc);
        }
    } else {
        assert(sc[0].name != name);
        assert forall|j: int| 0 <= j < i - 1 implies (#[trigger] sc.drop_first()[j]).name != name by {
            assert(sc.drop_first()[j] == sc[j + 1]);
        }
        lemma_scope_declare_skip(sc.drop_first(), name, v, m, i - 1);
        assert(sc.drop_first().skip(i - 1) =~= sc.skip(i));
        assert(sc.drop_first().take(i - 1) =~= sc.take(i).drop_first());
        assert(scope_declare(sc, name, v, m)
            =~= sc.take(i) + scope_declare(sc.skip(i), name, v, m));
    }
}

/// The first binding of this scope with the given name.
fn scope_find(sc: &Vec<Binding>, name: &String) -> (r: Option<Value>)
    ensures
        match r {
            Option::Some(v) => scope_lookup(bview(sc@), name@) == Option::Some(v@),
            Option::None => scope_lookup(bview(sc@), name@) is None,
        },
{
    let n = sc.len();
    let mut i: usize = 0;
    while i < n
        invariant
            0 <= i <= n,
            n == sc@.len(),
            forall|j: int| 0 <= j < i ==> (#[trigger] bview(sc@)[j]).name != name@,
        decreases n - i,
    {
        assert(bview(sc@)[i as int].name == sc@[i as int].0@);
        if sc[i].0 == *name {
            let v = sc[i].1.dup();
            proof {
                lemma_scope_lookup_skip(bview(sc@), name@, i as int);
                assert(bview(sc@).skip(i as int)[0] == bview(sc@)[i as int]);
            }
            return Option::Some(v);
        }
        i = i + 1;
    }
    proof {
        lemma_scope_lookup_skip(bview(sc@), name@, n as int);
        assert(bview(sc@).skip(n as int).len() == 0);
    }
    Option::None
}

/// Overwrites the first binding of the given name, or appends one.
fn scope_put(sc: &mut Vec<Binding>, name: &String, v: Value, m: bool)
    ensures
        bview(final(sc)@) == scope_declare(bview(old(sc)@), name@, v@, m),
{
    let n = sc.len();
    let mut i: usize = 0;
    while i < n
        invariant
            0 <= i <= n,
            n == sc@.len(),
            *sc == *old(sc),
            forall|j: int| 0 <= j < i ==> (#[trigger] bview(sc@)[j]).name != name@,
        decreases n - i,
    {
        assert(bview(sc@)[i as int].name == sc@[i as int].0@);
        if sc[i].0 == *name {
            proof {
                lemma_scope_declare_skip(bview(old(sc)@), name@, v@, m, i as int);
            }
            let kc = name.clone();
            sc.set(i, (kc, v, m));
            proof {
                let oldb = bview(old(sc)@);
                assert(oldb.skip(i as int)[0] == oldb[i as int]);
                assert(bview(sc@) =~= oldb.take(i as int)
                    + scope_declare(oldb.skip(i as int), name@, v@, m));
            }
            return;
        }
        i = i + 1;
    }
    proof {
        lemma_scope_declare_skip(bview(old(sc)@), name@, v@, m, n as int);
        assert(bview(old(sc)@).skip(n as int).len() == 0);
    }
    let kc = name.clone();
    sc.push((kc, v, m));
    proof {
        let oldb = bview(old(sc)@);
        assert(bview(sc@) =~= oldb.take(n as int)
            + seq![MBind { name: name@, val: v@, mutable: m }]);
        assert(oldb.take(n as int) =~= oldb);
    }
}

/// Whether the value is a primitive other than `null` and `undefined`.
fn is_boxable_exec(v: &Value) -> (r: bool)
    ensures
        r == is_boxable(v@),
{
    match v {
        Value::Boolean(_) => true,
        Value::Number(_) => true,
        Value::Integer(_) => true,
        Value::String(_) => true,
        _ => false,
    }
}

/// Whether the value holds no heap reference at or above `n`.
fn value_in_bounds(v: &Value, n: usize) -> (r: bool)
    ensures
        r == val_ok(v@, n as int),
{
    match v {
        Value::Object(i) => *i < n,
        Value::Function(i) => *i < n,
        _ => true,
    }
}

/// The value of a literal constant.
fn const_to_value(c: &Const) -> (r: Value)
    ensures
        r@ == const_val(*c),
{
    match c {
        Const::Null => Value::Null,
        Const::Undefined => Value::Undefined,
        Const::Num(n) => Value::Number(*n),
        Const::Int(i) => Value::Integer(*i),
        Const::Str(s) => Value::String(s.clone()),
        Const::Bool(b) => Value::Boolean(*b),
        Const::RegExp(_, _, _) => Value::Undefined,
    }
}

/// The `typeof` string of a value.
fn type_of_exec(v: &Value) -> (r: Value)
    ensures
        r@ == MVal::Str(type_of(v@)),
{
    match v {
        Value::Undefined => Value::String(String::from_str("undefined")),
        Value::Null => Value::String(String::from_str("object")),
        Value::Boolean(_) => Value::String(String::from_str("boolean")),
        Value::Number(_) => Value::String(String::from_str("number")),
        Value::Integer(_) => Value::String(String::from_str("number")),
        Value::String(_) => Value::String(String::from_str("string")),
        Value::Object(_) => Value::String(String::from_str("object")),
        Value::Function(_) => Value::String(String::from_str("function")),
    }
}

/// The value of an arithmetic operation on two evaluated operands.
fn apply_num_exec(op: &NumOp, a: &Value, b: &Value) -> (r: Value)
    ensures
        r@ == apply_num(*op, a@, b@),
{
    match op {
        NumOp::Add => {
            let a_is_str = match a {
                Value::String(_) => true,
                _ => false,
            };
            let b_is_str = match b {
                Value::String(_) => true,
                _ => false,
            };
            if a_is_str || b_is_str {
                let sa = value_to_string(a);
                let sb = value_to_string(b);
                Value::String(sa.concat(sb.as_str()))
            } else {
                Value::Number(add64(value_to_number(a), value_to_number(b)))
            }
        },
        NumOp::Sub => Value::Number(sub64(value_to_number(a), value_to_number(b))),
        NumOp::Mul => Value::Number(mul64(value_to_number(a), value_to_number(b))),
        NumOp::Div => Value::Number(div64(value_to_number(a), value_to_number(b))),
        NumOp::Mod => Value::Number(rem64(value_to_number(a), value_to_number(b))),
    }
}

/// The value of a bitwise operation on two numerically coerced operands.
fn apply_bit_exec(op: &BitOp, a: i64, b: i64) -> (r: i32)
    ensures
        r as int == apply_bit(*op, a as int, b as int),
{
    let x = to_i32_exec(a);
    let y = to_i32_exec(b);
    match op {
        BitOp::And => x & y,
        BitOp::Or => x | y,
        BitOp::Xor => x ^ y,
        BitOp::Shl => {
            let s = y & 31;
            proof {
                assert(0 <= (y & 31i32) < 32) by (bit_vector);
            }
            x << s
        },
        BitOp::Shr => {
            let s = y & 31;
            proof {
                assert(0 <= (y & 31i32) < 32) by (bit_vector);
            }
            x >> s
        },
    }
}

/// The value of a comparison on two evaluated operands.
fn apply_comp_exec(op: &CompOp, a: &Value, b: &Value) -> (r: bool)
    ensures
        r == apply_comp(*op, a@, b@),
{
    match op {
        CompOp::Equal => a.same_value_as(b),
        CompOp::NotEqual => !a.same_value_as(b),
        CompOp::StrictEqual => a.same_value_as(b),
        CompOp::StrictNotEqual => !a.same_value_as(b),
        CompOp::GreaterThan => value_to_number(a) > value_to_number(b),
        CompOp::GreaterThanOrEqual => value_to_number(a) >= value_to_number(b),
        CompOp::LessThan => value_to_number(a) < value_to_number(b),
        CompOp::LessThanOrEqual => value_to_number(a) <= value_to_number(b),
    }
}

/// The value of a logical operation on two evaluated operands.
fn apply_log_exec(op: &LogOp, a: &Value, b: &Value) -> (r: bool)
    ensures
        r == apply_log(*op, a@, b@),
{
    match op {
        LogOp::And => {
            let ta = a.is_truthy();
            let tb = b.is_truthy();
            ta && tb
        },
        LogOp::Or => {
            let ta = a.is_truthy();
            let tb = b.is_truthy();
            ta || tb
        },
    }
}

/// The value of a unary operation on an evaluated operand.
fn apply_unary_exec(op: &UnaryOp, a: &Value) -> (r: Value)
    ensures
        r@ == apply_unary(*op, a@),
{
    match op {
        UnaryOp::Minus => Value::Number(neg64(value_to_number(a))),
        UnaryOp::Plus => Value::Number(value_to_number(a)),
        UnaryOp::Not => Value::Boolean(!a.is_truthy()),
    }
}

impl Interpreter {
    /// A fresh engine: an empty global object and no local scopes.  The
    /// builtin initializers an embedder may want run afterwards, through
    /// [`Interpreter::register_global`] and [`Interpreter::make_native`].
    pub fn fresh() -> (r: Interpreter)
        ensures
            r@ == initial_state(),
    {
        let mut heap: Vec<ObjectData> = Vec::new();
        heap.push(ObjectData { props: Vec::new(), proto: Value::Null, call: Option::None });
        let r = Interpreter { heap, global: 0, scopes: Vec::new() };
        proof {
            assert(r.heap@.len() == 1);
            assert(r@.heap[0] == r.heap@[0]@);
            assert(r@.heap[0].props =~= Seq::<(Seq<char>, MVal)>::empty());
            assert(r@.heap[0] =~= initial_state().heap[0]);
            assert(r@.heap =~= initial_state().heap);
            assert(r@.scopes =~= initial_state().scopes);
            assert(r@ =~= initial_state());
        }
        r
    }

    /// A fresh function object whose invocations the host serves under
    /// `id`.  Returns the function value.
    pub fn make_native(&mut self, id: u64) -> (r: Value)
        requires
            state_ok(old(self)@),
        ensures
            state_ok(final(self)@),
            final(self)@.heap == old(self)@.heap.push(
                MObj {
                    props: Seq::empty(),
                    proto: MVal::Null,
                    call: Option::Some(crate::heap::MCall::Native(id)),
                },
            ),
            final(self)@.global == old(self)@.global,
            final(self)@.scopes == old(self)@.scopes,
            r@ == MVal::Fun(old(self)@.heap.len() as int),
    {
        let idx = heap_alloc(
            &mut self.heap,
            ObjectData { props: Vec::new(), proto: Value::Null, call: Option::Some(Callable::Native(id)) },
        );
        proof {
            let o = MObj {
                props: Seq::empty(),
                proto: MVal::Null,
                call: Option::Some(crate::heap::MCall::Native(id)),
            };
            assert(self@.heap.last() =~= o);
            assert(self@.heap =~= old(self)@.heap.push(o));
            lemma_state_push_obj(old(self)@, o);
        }
        Value::Function(idx)
    }

    /// Binds `name` in the global environment: what a builtin initializer
    /// does to register an object or constructor before user code runs.
    pub fn register_global(&mut self, name: &str, v: Value)
        requires
            state_ok(old(self)@),
            val_ok(v@, old(self)@.heap.len() as int),
        ensures
            state_ok(final(self)@),
            final(self)@ == declare_name(old(self)@, name@, v@, true),
    {
        let key = String::from_str(name);
        self.declare_binding(&key, v, true);
    }

    /// Resolution of a name through the scope chain and the global object.
    fn lookup_binding(&self, name: &String) -> (r: Value)
        requires
            state_ok(self@),
        ensures
            r@ == lookup_name(self@, name@),
            val_ok(r@, self@.heap.len() as int),
    {
        proof {
            lemma_lookup_name_ok(self@, name@);
        }
        let mut j = self.scopes.len();
        proof {
            assert(ssview(self.scopes@).take(j as int) =~= ssview(self.scopes@));
        }
        while j > 0
        invariant
            0 <= j <= self.scopes@.len(),
            state_ok(self@),
            scopes_lookup(ssview(self.scopes@), name@)
                == scopes_lookup(ssview(self.scopes@).take(j as int), name@),
        decreases j,
        {
            j = j - 1;
            assert(ssview(self.scopes@).take(j + 1).last() == ssview(self.scopes@)[j as int]);
            assert(ssview(self.scopes@)[j as int] == bview(self.scopes@[j as int]@));
            match scope_find(&self.scopes[j], name) {
                Option::Some(v) => {
                    proof {
                        assert(scopes_lookup(ssview(self.scopes@), name@) == Option::Some(v@));
                        lemma_lookup_name_ok(self@, name@);
                    }
                    return v;
                },
                Option::None => {
                    proof {
                        assert(ssview(self.scopes@).take(j + 1).drop_last()
                            =~= ssview(self.scopes@).take(j as int));
                    }
                },
            }
        }
        proof {
            assert(ssview(self.scopes@).take(0).len() == 0);
        }
        let g = self.global;
        assert(hview(self.heap@)[g as int] == self.heap@[g as int]@);
        match crate::heap::props_lookup(&self.heap[g].props, name) {
            Option::Some(v) => v,
            Option::None => Value::Undefined,
        }
    }

    /// Declare-or-update of a binding in the innermost scope, or on the
    /// global object when no local scope is active.
    fn declare_binding(&mut self, name: &String, v: Value, m: bool)
        requires
            state_ok(old(self)@),
            val_ok(v@, old(self)@.heap.len() as int),
        ensures
            state_ok(final(self)@),
            final(self)@ == declare_name(old(self)@, name@, v@, m),
            final(self)@.heap.len() == old(self)@.heap.len(),
            final(self)@.global == old(self)@.global,
            final(self)@.scopes.len() == old(self)@.scopes.len(),
    {
        proof {
            lemma_declare_name_ok(old(self)@, name@, v@, m);
        }
        let ns = self.scopes.len();
        if ns > 0 {
            let li = ns - 1;
            assert(ssview(self.scopes@)[li as int] == bview(self.scopes@[li as int]@));
            assert(ssview(self.scopes@).last() == bview(self.scopes@[li as int]@));
            let sc = &mut self.scopes[li];
            scope_put(sc, name, v, m);
            proof {
                assert(ssview(self.scopes@) =~= declare_name(old(self)@, name@, v@, m).scopes);
                assert(self@ =~= declare_name(old(self)@, name@, v@, m));
            }
        } else {
            let g = self.global;
            assert(hview(self.heap@)[g as int] == self.heap@[g as int]@);
            let o = &mut self.heap[g];
            crate::heap::props_set(&mut o.props, name, v);
            proof {
                assert(hview(self.heap@) =~= declare_name(old(self)@, name@, v@, m).heap);
                assert(self@ =~= declare_name(old(self)@, name@, v@, m));
            }
        }
    }
}


/// The standing guarantees of one evaluation step: the global object and
/// the scope depth are kept, the heap only grows, and the state stays
/// well formed.
pub open spec fn evolves(pre: MState, post: MState) -> bool {
    &&& post.global == pre.global
    &&& post.scopes.len() == pre.scopes.len()
    &&& pre.heap.len() <= post.heap.len()
    &&& state_ok(post)
}

impl Executor for Interpreter {
    open spec fn ready(&self) -> bool {
        state_ok(self@)
    }

    fn new() -> (r: Interpreter)
        ensures
            r@ == initial_state(),
    {
        let r = Interpreter::fresh();
        proof {
            assert(state_ok(initial_state()));
        }
        r
    }

    fn run(&mut self, expr: &Expr) -> (r: ResultValue)
        ensures
            agrees(eval(old(self)@, *expr, u64::MAX as nat), final(self)@, r),
            evolves(old(self)@, final(self)@),
            result_ok(r, final(self)@.heap.len() as int),
    {
        let mut host = DefaultHost;
        self.run_with_host(&mut host, expr, u64::MAX)
    }
}

impl Interpreter {
    /// Runs an expression against the engine's state, dispatching native
    /// calls to `host` and bounding call depth and loop iterations by
    /// `fuel`.  The result and the new state are exactly those of the
    /// specification-level evaluator whenever it pins them down.
    #[verifier::rlimit(100)]
    pub fn run_with_host<H: Host>(&mut self, host: &mut H, e: &Expr, fuel: u64) -> (r: ResultValue)
        requires
            state_ok(old(self)@),
        ensures
            agrees(eval(old(self)@, *e, fuel as nat), final(self)@, r),
            evolves(old(self)@, final(self)@),
            result_ok(r, final(self)@.heap.len() as int),
        decreases fuel, e, 4int, 0int,
    {
        let ghost st0 = self@;
        match &e.def {
            ExprDef::ConstExpr(c) => Result::Ok(const_to_value(c)),
            ExprDef::BlockExpr(es) => {
                if es.len() == 0 {
                    Result::Ok(Value::Null)
                } else {
                    self.run_block(host, es, 0, fuel)
                }
            },
            ExprDef::LocalExpr(name) => Result::Ok(self.lookup_binding(name)),
            ExprDef::GetConstFieldExpr(oe, field) => {
                let v = self.run_with_host(host, oe, fuel)?;
                if fuel == 0 {
                    return Result::Err(Value::Undefined);
                }
                self.member_access(host, v, field, fuel - 1)
            },
            ExprDef::GetFieldExpr(oe, fe) => {
                let v = self.run_with_host(host, oe, fuel)?;
                let ghost st1 = self@;
                let fv = self.run_with_host(host, fe, fuel)?;
                proof {
                    lemma_val_ok_mono(v@, st1.heap.len() as int, self@.heap.len() as int);
                }
                if fuel == 0 {
                    return Result::Err(Value::Undefined);
                }
                let key = value_to_string(&fv);
                self.member_access(host, v, &key, fuel - 1)
            },
            ExprDef::CallExpr(callee, args) => {
                let (this_v, func) = match &(**callee).def {
                    ExprDef::GetConstFieldExpr(oe, field) => {
                        let v = self.run_with_host(host, oe, fuel)?;
                        if fuel == 0 {
                            return Result::Err(Value::Undefined);
                        }
                        self.resolve_callee(host, v, field, fuel - 1)?
                    },
                    ExprDef::GetFieldExpr(oe, fe) => {
                        let v = self.run_with_host(host, oe, fuel)?;
                        let fv = self.run_with_host(host, fe, fuel)?;
                        if fuel == 0 {
                            return Result::Err(Value::Undefined);
                        }
                        let key = value_to_string(&fv);
                        self.resolve_callee(host, v, &key, fuel - 1)?
                    },
                    _ => {
                        let f = self.run_with_host(host, callee, fuel)?;
                        let g = self.global;
                        (Value::Object(g), f)
                    },
                };
                let ghost stp = self@;
                assert(eval_callee(st0, **callee, fuel as nat)
                    == PairOut::Pair(stp, this_v@, func@)
                    || eval_callee(st0, **callee, fuel as nat) is Stuck);
                let v_args = match self.run_list(host, args, 0, fuel) {
                    Result::Ok(vs) => vs,
                    Result::Err(t) => {
                        return Result::Err(t);
                    },
                };
                proof {
                    lemma_val_ok_mono(this_v@, stp.heap.len() as int, self@.heap.len() as int);
                    lemma_val_ok_mono(func@, stp.heap.len() as int, self@.heap.len() as int);
                }
                if fuel == 0 {
                    return Result::Err(Value::Undefined);
                }
                self.invoke(host, this_v, func, v_args, fuel - 1)
            },
            ExprDef::WhileLoopExpr(c, b) => self.run_while(host, e, Value::Undefined, fuel),
            ExprDef::IfExpr(c, t, els) => {
                let cv = self.run_with_host(host, c, fuel)?;
                if cv.is_truthy() {
                    self.run_with_host(host, t, fuel)
                } else {
                    match els {
                        Option::Some(el) => self.run_with_host(host, el, fuel),
                        Option::None => Result::Ok(Value::Undefined),
                    }
                }
            },
            ExprDef::SwitchExpr(disc, cases, default) => {
                let dv = self.run_with_host(host, disc, fuel)?;
                self.run_switch(host, e, 0, dv, fuel)
            },
            ExprDef::ObjectDeclExpr(props) => {
                let idx = heap_alloc(
                    &mut self.heap,
                    ObjectData { props: Vec::new(), proto: Value::Null, call: Option::None },
                );
                proof {
                    assert(self@.heap.last() =~= blank_obj(MVal::Null));
                    assert(self@.heap =~= st0.heap.push(blank_obj(MVal::Null)));
                    lemma_state_push_obj(st0, blank_obj(MVal::Null));
                }
                self.run_props(host, props, 0, idx, fuel)?;
                Result::Ok(Value::Object(idx))
            },
            ExprDef::ArrayDeclExpr(es) => {
                if es.len() > 2147483647usize {
                    return Result::Err(Value::Undefined);
                }
                let idx = heap_alloc(
                    &mut self.heap,
                    ObjectData { props: Vec::new(), proto: Value::Null, call: Option::None },
                );
                proof {
                    assert(self@.heap.last() =~= blank_obj(MVal::Null));
                    assert(self@.heap =~= st0.heap.push(blank_obj(MVal::Null)));
                    lemma_state_push_obj(st0, blank_obj(MVal::Null));
                }
                self.run_arr(host, es, 0, idx, fuel)?;
                let ghost st2 = self@;
                let arr_name = String::from_str("Array");
                let ctor = self.lookup_binding(&arr_name);
                let proto_key = String::from_str("prototype");
                let proto = heap_get_field(&self.heap, &ctor, &proto_key);
                proof {
                    lemma_get_field_ok(st2.heap, ctor@, "prototype"@, st2.heap.len() as nat);
                }
                let proto_slot = String::from_str("__proto__");
                heap_set_field(&mut self.heap, &Value::Object(idx), &proto_slot, proto);
                proof {
                    crate::semantics::lemma_state_set_field(st2, MVal::Obj(idx as int), "__proto__"@, get_field_m(st2.heap, lookup_name(st2, "Array"@), "prototype"@, st2.heap.len() as nat));
                }
                let ghost st3 = self@;
                let len_key = String::from_str("length");
                let count: i32 = es.len() as i32;
                heap_set_field(&mut self.heap, &Value::Object(idx), &len_key, Value::Integer(count));
                proof {
                    crate::semantics::lemma_state_set_field(st3, MVal::Obj(idx as int), "length"@, MVal::Int(count as int));
                }
                Result::Ok(Value::Object(idx))
            },
            ExprDef::FunctionDeclExpr(name, params, body) => {
                let cal = Callable::Regular(params.clone(), body.clone());
                let idx = heap_alloc(
                    &mut self.heap,
                    ObjectData { props: Vec::new(), proto: Value::Null, call: Option::Some(cal) },
                );
                proof {
                    let fobj = self@.heap.last();
                    assert(fobj.props =~= Seq::<(Seq<char>, MVal)>::empty());
                    assert(self@.heap =~= st0.heap.push(fobj));
                    lemma_state_push_obj(st0, fobj);
                }
                match name {
                    Option::Some(n) => {
                        self.declare_binding(n, Value::Function(idx), true);
                    },
                    Option::None => {},
                }
                Result::Ok(Value::Function(idx))
            },
            ExprDef::ArrowFunctionDeclExpr(params, body) => {
                let cal = Callable::Regular(params.clone(), body.clone());
                let idx = heap_alloc(
                    &mut self.heap,
                    ObjectData { props: Vec::new(), proto: Value::Null, call: Option::Some(cal) },
                );
                proof {
                    let fobj = self@.heap.last();
                    assert(fobj.props =~= Seq::<(Seq<char>, MVal)>::empty());
                    assert(self@.heap =~= st0.heap.push(fobj));
                    lemma_state_push_obj(st0, fobj);
                }
                Result::Ok(Value::Function(idx))
            },
            ExprDef::BinOpExpr(op, a, b) => {
                let va = self.run_with_host(host, a, fuel)?;
                let vb = self.run_with_host(host, b, fuel)?;
                let r: Value = match op {
                    BinOp::Num(o) => apply_num_exec(o, &va, &vb),
                    BinOp::Bit(o) => {
                        let x = value_to_number(&va);
                        let y = value_to_number(&vb);
                        Value::Integer(apply_bit_exec(o, x, y))
                    },
                    BinOp::Comp(o) => Value::Boolean(apply_comp_exec(o, &va, &vb)),
                    BinOp::Log(o) => Value::Boolean(apply_log_exec(o, &va, &vb)),
                };
                Result::Ok(r)
            },
            ExprDef::UnaryOpExpr(op, a) => {
                let va = self.run_with_host(host, a, fuel)?;
                Result::Ok(apply_unary_exec(op, &va))
            },
            ExprDef::ConstructExpr(callee, args) => {
                let f = self.run_with_host(host, callee, fuel)?;
                let ghost st1 = self@;
                let v_args = match self.run_list(host, args, 0, fuel) {
                    Result::Ok(vs) => vs,
                    Result::Err(t) => {
                        return Result::Err(t);
                    },
                };
                proof {
                    lemma_val_ok_mono(f@, st1.heap.len() as int, self@.heap.len() as int);
                }
                if fuel == 0 {
                    return Result::Err(Value::Undefined);
                }
                self.construct_new_object(host, f, v_args, fuel - 1)
            },
            ExprDef::ReturnExpr(inner) => {
                match inner {
                    Option::Some(v) => self.run_with_host(host, v, fuel),
                    Option::None => Result::Ok(Value::Undefined),
                }
            },
            ExprDef::ThrowExpr(x) => {
                let v = self.run_with_host(host, x, fuel)?;
                Result::Err(v)
            },
            ExprDef::AssignExpr(lhs, rhs) => {
                let v = self.run_with_host(host, rhs, fuel)?;
                let ghost st1 = self@;
                match &(**lhs).def {
                    ExprDef::LocalExpr(name) => {
                        self.declare_binding(name, v.dup(), true);
                        Result::Ok(v)
                    },
                    ExprDef::GetConstFieldExpr(oe, field) => {
                        let ov = self.run_with_host(host, oe, fuel)?;
                        proof {
                            lemma_val_ok_mono(v@, st1.heap.len() as int, self@.heap.len() as int);
                            crate::semantics::lemma_state_set_field(self@, ov@, field@, v@);
                        }
                        heap_set_field(&mut self.heap, &ov, field, v.dup());
                        Result::Ok(v)
                    },
                    _ => Result::Ok(v),
                }
            },
            ExprDef::VarDeclExpr(decls) => self.run_decls(host, decls, 0, true, fuel),
            ExprDef::LetDeclExpr(decls) => self.run_decls(host, decls, 0, true, fuel),
            ExprDef::ConstDeclExpr(decls) => self.run_decls(host, decls, 0, false, fuel),
            ExprDef::TypeOfExpr(x) => {
                let v = self.run_with_host(host, x, fuel)?;
                Result::Ok(type_of_exec(&v))
            },
        }
    }

    /// Member access on an evaluated receiver, boxing primitives first.
    fn member_access<H: Host>(&mut self, host: &mut H, v: Value, key: &String, fuel: u64) -> (r: ResultValue)
        requires
            state_ok(old(self)@),
            val_ok(v@, old(self)@.heap.len() as int),
        ensures
            agrees(eval_member(old(self)@, v@, key@, fuel as nat), final(self)@, r),
            evolves(old(self)@, final(self)@),
            result_ok(r, final(self)@.heap.len() as int),
        decreases fuel, v, 3int, 0int,
    {
        if is_boxable_exec(&v) {
            let inst = self.box_into_instance(host, v, fuel)?;
            let r = heap_get_field(&self.heap, &inst, key);
            proof {
                lemma_get_field_ok(self@.heap, inst@, key@, self@.heap.len() as nat);
            }
            Result::Ok(r)
        } else {
            let r = heap_get_field(&self.heap, &v, key);
            proof {
                lemma_get_field_ok(self@.heap, v@, key@, self@.heap.len() as nat);
            }
            Result::Ok(r)
        }
    }

    /// Resolution of a member-access callee: the (boxed when primitive)
    /// receiver and its property.
    #[verifier::rlimit(50)]
    fn resolve_callee<H: Host>(&mut self, host: &mut H, v: Value, key: &String, fuel: u64) -> (r: Result<(Value, Value), Value>)
        requires
            state_ok(old(self)@),
            val_ok(v@, old(self)@.heap.len() as int),
        ensures
            match crate::semantics::resolve_receiver(old(self)@, v@, key@, fuel as nat) {
                PairOut::Pair(s, tv, f) => final(self)@ == s && match r {
                    Result::Ok(p) => p.0@ == tv && p.1@ == f,
                    Result::Err(_) => false,
                },
                PairOut::Thrown(s, t) => final(self)@ == s && match r {
                    Result::Err(x) => x@ == t,
                    Result::Ok(_) => false,
                },
                PairOut::Stuck => true,
            },
            evolves(old(self)@, final(self)@),
            match r {
                Result::Ok(p) => val_ok(p.0@, final(self)@.heap.len() as int)
                    && val_ok(p.1@, final(self)@.heap.len() as int),
                Result::Err(t) => val_ok(t@, final(self)@.heap.len() as int),
            },
        decreases fuel, v, 3int, 1int,
    {
        if is_boxable_exec(&v) {
            let inst = self.box_into_instance(host, v, fuel)?;
            let f = heap_get_field(&self.heap, &inst, key);
            proof {
                lemma_get_field_ok(self@.heap, inst@, key@, self@.heap.len() as nat);
            }
            Result::Ok((inst, f))
        } else {
            let f = heap_get_field(&self.heap, &v, key);
            proof {
                lemma_get_field_ok(self@.heap, v@, key@, self@.heap.len() as nat);
            }
            Result::Ok((v, f))
        }
    }

    /// A sequence of expressions whose value is the last one's.
    fn run_block<H: Host>(&mut self, host: &mut H, es: &Vec<Expr>, i: usize, fuel: u64) -> (r: ResultValue)
        requires
            state_ok(old(self)@),
        ensures
            agrees(eval_block(old(self)@, *es, i as int, fuel as nat), final(self)@, r),
            evolves(old(self)@, final(self)@),
            result_ok(r, final(self)@.heap.len() as int),
        decreases fuel, es, 0int, es.len() - i,
    {
        if i >= es.len() {
            return Result::Ok(Value::Null);
        }
        let v = self.run_with_host(host, &es[i], fuel)?;
        if i + 1 >= es.len() {
            Result::Ok(v)
        } else {
            self.run_block(host, es, i + 1, fuel)
        }
    }

    /// Strict left-to-right evaluation of an argument list.
    fn run_list<H: Host>(&mut self, host: &mut H, es: &Vec<Expr>, i: usize, fuel: u64) -> (r: Result<Vec<Value>, Value>)
        requires
            state_ok(old(self)@),
        ensures
            match eval_list(old(self)@, *es, i as int, fuel as nat) {
                ListOut::Vals(s, vs) => final(self)@ == s && match r {
                    Result::Ok(xs) => vals_of(xs@) == vs,
                    Result::Err(_) => false,
                },
                ListOut::Thrown(s, t) => final(self)@ == s && match r {
                    Result::Err(x) => x@ == t,
                    Result::Ok(_) => false,
                },
                ListOut::Stuck => true,
            },
            evolves(old(self)@, final(self)@),
            match r {
                Result::Ok(xs) => forall|j: int| 0 <= j < xs@.len()
                    ==> val_ok(#[trigger] xs@[j]@, final(self)@.heap.len() as int),
                Result::Err(t) => val_ok(t@, final(self)@.heap.len() as int),
            },
        decreases fuel, es, 0int, es.len() - i,
    {
        if i >= es.len() {
            let empty: Vec<Value> = Vec::new();
            proof {
                assert(vals_of(empty@) =~= Seq::<MVal>::empty());
            }
            return Result::Ok(empty);
        }
        let v = self.run_with_host(host, &es[i], fuel)?;
        let ghost st1 = self@;
        let mut rest = match self.run_list(host, es, i + 1, fuel) {
            Result::Ok(vs) => vs,
            Result::Err(t) => {
                return Result::Err(t);
            },
        };
        proof {
            if eval_list(st1, *es, i + 1, fuel as nat) is Vals {
                lemma_val_ok_mono(v@, st1.heap.len() as int, self@.heap.len() as int);
            }
        }
        let ghost old_rest = rest@;
        rest.insert(0, v);
        proof {
            if eval_list(st1, *es, i + 1, fuel as nat) is Vals {
                assert(vals_of(rest@) =~= seq![rest@[0]@] + vals_of(old_rest));
            }
            assert(forall|j: int| 0 <= j < rest@.len()
                ==> val_ok(#[trigger] rest@[j]@, self@.heap.len() as int)) by {
                assert forall|j: int| 0 <= j < rest@.len()
                    implies val_ok(#[trigger] rest@[j]@, self@.heap.len() as int) by {
                    if j > 0 {
                        assert(rest@[j] == old_rest[j - 1]);
                    }
                }
            }
        }
        Result::Ok(rest)
    }

    /// An object literal's properties, each set as soon as evaluated.
    fn run_props<H: Host>(&mut self, host: &mut H, props: &Vec<(String, Expr)>, i: usize, idx: usize, fuel: u64) -> (r: ResultValue)
        requires
            state_ok(old(self)@),
        ensures
            agrees(eval_props(old(self)@, *props, i as int, idx as int, fuel as nat), final(self)@, r),
            evolves(old(self)@, final(self)@),
            result_ok(r, final(self)@.heap.len() as int),
        decreases fuel, props, 0int, props.len() - i,
    {
        if i >= props.len() {
            return Result::Ok(Value::Undefined);
        }
        let ghost st0 = self@;
        let v = self.run_with_host(host, &props[i].1, fuel)?;
        proof {
            crate::semantics::lemma_state_set_field(self@, MVal::Obj(idx as int), props@[i as int].0@, v@);
        }
        heap_set_field(&mut self.heap, &Value::Object(idx), &props[i].0, v);
        self.run_props(host, props, i + 1, idx, fuel)
    }

    /// An array literal's elements, each assigned to its index key.
    fn run_arr<H: Host>(&mut self, host: &mut H, es: &Vec<Expr>, i: usize, idx: usize, fuel: u64) -> (r: ResultValue)
        requires
            state_ok(old(self)@),
            es@.len() <= i32::MAX,
        ensures
            agrees(eval_arr(old(self)@, *es, i as int, idx as int, fuel as nat), final(self)@, r),
            evolves(old(self)@, final(self)@),
            result_ok(r, final(self)@.heap.len() as int),
        decreases fuel, es, 1int, es.len() - i,
    {
        if i >= es.len() {
            return Result::Ok(Value::Undefined);
        }
        let ghost st0 = self@;
        let v = self.run_with_host(host, &es[i], fuel)?;
        let key = render_int(i as i64);
        proof {
            crate::semantics::lemma_state_set_field(self@, MVal::Obj(idx as int), int_str(i as int), v@);
        }
        heap_set_field(&mut self.heap, &Value::Object(idx), &key, v);
        self.run_arr(host, es, i + 1, idx, fuel)
    }

    /// A declaration list, each initializer bound in order.
    fn run_decls<H: Host>(&mut self, host: &mut H, decls: &Vec<(String, Option<Expr>)>, i: usize, m: bool, fuel: u64) -> (r: ResultValue)
        requires
            state_ok(old(self)@),
        ensures
            agrees(eval_decls(old(self)@, *decls, i as int, m, fuel as nat), final(self)@, r),
            evolves(old(self)@, final(self)@),
            result_ok(r, final(self)@.heap.len() as int),
        decreases fuel, decls, 0int, decls.len() - i,
    {
        if i >= decls.len() {
            return Result::Ok(Value::Undefined);
        }
        let ghost st0 = self@;
        let val = match &decls[i].1 {
            Option::Some(init) => self.run_with_host(host, init, fuel)?,
            Option::None => Value::Null,
        };
        self.declare_binding(&decls[i].0, val, m);
        self.run_decls(host, decls, i + 1, m, fuel)
    }

    /// The switch cases, in order, first matching guard winning.
    fn run_switch<H: Host>(&mut self, host: &mut H, e: &Expr, i: usize, dv: Value, fuel: u64) -> (r: ResultValue)
        requires
            state_ok(old(self)@),
        ensures
            agrees(eval_switch(old(self)@, *e, i as int, dv@, fuel as nat), final(self)@, r),
            evolves(old(self)@, final(self)@),
            result_ok(r, final(self)@.heap.len() as int),
        decreases fuel, e, 2int, switch_cases(*e).len() - i,
    {
        match &e.def {
            ExprDef::SwitchExpr(_, cases, default) => {
                if i >= cases.len() {
                    match default {
                        Option::Some(d) => self.run_with_host(host, d, fuel),
                        Option::None => Result::Ok(Value::Undefined),
                    }
                } else {
                    let cv = self.run_with_host(host, &cases[i].0, fuel)?;
                    if dv.same_value_as(&cv) {
                        if cases[i].1.len() == 0 {
                            Result::Ok(Value::Null)
                        } else {
                            self.run_block(host, &cases[i].1, 0, fuel)
                        }
                    } else {
                        self.run_switch(host, e, i + 1, dv, fuel)
                    }
                }
            },
            _ => Result::Ok(Value::Undefined),
        }
    }

    /// The while loop, `acc` holding the most recent body value.
    fn run_while<H: Host>(&mut self, host: &mut H, e: &Expr, acc: Value, fuel: u64) -> (r: ResultValue)
        requires
            state_ok(old(self)@),
            val_ok(acc@, old(self)@.heap.len() as int),
        ensures
            agrees(eval_while(old(self)@, *e, acc@, fuel as nat), final(self)@, r),
            evolves(old(self)@, final(self)@),
            result_ok(r, final(self)@.heap.len() as int),
        decreases fuel, e, 3int, 0int,
    {
        match &e.def {
            ExprDef::WhileLoopExpr(c, b) => {
                let ghost st0 = self@;
                let cv = self.run_with_host(host, c, fuel)?;
                if !cv.is_truthy() {
                    proof {
                        lemma_val_ok_mono(acc@, st0.heap.len() as int, self@.heap.len() as int);
                    }
                    return Result::Ok(acc);
                }
                let bv = self.run_with_host(host, b, fuel)?;
                if fuel == 0 {
                    return Result::Err(Value::Undefined);
                }
                self.run_while(host, e, bv, fuel - 1)
            },
            _ => Result::Err(Value::Undefined),
        }
    }

    /// The call protocol on resolved `this`, callee and arguments: a
    /// user-defined callable runs its body in a fresh scope; a native
    /// callable is dispatched to the host, whose answer is taken after
    /// discarding out-of-range heap references; a non-callable is a
    /// distinct failure, thrown as `undefined`.
    fn invoke<H: Host>(&mut self, host: &mut H, this_v: Value, func: Value, args: Vec<Value>, fuel: u64) -> (r: ResultValue)
        requires
            state_ok(old(self)@),
            forall|j: int| 0 <= j < args@.len()
                ==> val_ok(#[trigger] args@[j]@, old(self)@.heap.len() as int),
        ensures
            agrees(invoke_val(old(self)@, func@, vals_of(args@), fuel as nat), final(self)@, r),
            evolves(old(self)@, final(self)@),
            result_ok(r, final(self)@.heap.len() as int),
            is_native_callable(old(self)@, func@) ==> final(self)@ == old(self)@,
        decreases fuel, func, 0int, 0int,
    {
        let ghost st0 = self@;
        let fi: usize = match &func {
            Value::Function(i) => *i,
            _ => {
                return Result::Err(Value::Undefined);
            },
        };
        if fi >= self.heap.len() {
            return Result::Err(Value::Undefined);
        }
        assert(self@.heap[fi as int] == self.heap@[fi as int]@);
        let (params, body) = match &self.heap[fi].call {
            Option::None => {
                return Result::Err(Value::Undefined);
            },
            Option::Some(Callable::Native(id)) => {
                let nid: u64 = *id;
                let res = host.call_native(nid, this_v, func, args);
                let hl = self.heap.len();
                let out = match res {
                    Result::Ok(v) => {
                        if value_in_bounds(&v, hl) {
                            Result::Ok(v)
                        } else {
                            Result::Ok(Value::Undefined)
                        }
                    },
                    Result::Err(t) => {
                        if value_in_bounds(&t, hl) {
                            Result::Err(t)
                        } else {
                            Result::Err(Value::Undefined)
                        }
                    },
                };
                return out;
            },
            Option::Some(Callable::Regular(ps, bd)) => (ps.clone(), bd.clone()),
        };
        if args.len() < params.len() {
            return Result::Err(Value::Undefined);
        }
        if fuel == 0 {
            return Result::Err(Value::Undefined);
        }
        let frame: Vec<Binding> = Vec::new();
        self.scopes.push(frame);
        proof {
            assert(ssview(self.scopes@) =~~= st0.scopes.push(Seq::<MBind>::empty()));
            assert(self@ =~~= push_scope(st0, Seq::<MBind>::empty()));
            crate::semantics::lemma_push_scope_ok(st0, Seq::<MBind>::empty());
        }
        let ghost psv = params@.map_values(|s: String| s@);
        let ghost vsv = vals_of(args@);
        let n = params.len();
        let mut k: usize = 0;
        while k < n
            invariant
                0 <= k <= n,
                n == params@.len(),
                n <= args@.len(),
                psv == params@.map_values(|s: String| s@),
                vsv == vals_of(args@),
                forall|j: int| 0 <= j < args@.len()
                    ==> val_ok(#[trigger] args@[j]@, self@.heap.len() as int),
                state_ok(self@),
                self@.heap == st0.heap,
                self@.global == st0.global,
                self@.scopes.len() == st0.scopes.len() + 1,
                self@.scopes.drop_last() == st0.scopes,
                bind_frame(self@.scopes.last(), psv, vsv, k as int)
                    == bind_frame(Seq::<MBind>::empty(), psv, vsv, 0),
            decreases n - k,
        {
            let ghost pre = self@;
            assert(psv[k as int] == params@[k as int]@);
            assert(vsv[k as int] == args@[k as int]@);
            self.declare_binding(&params[k], args[k].dup(), true);
            proof {
                assert(self@.scopes.last()
                    == scope_declare(pre.scopes.last(), psv[k as int], vsv[k as int], true));
                assert(self@.scopes.drop_last() =~~= pre.scopes.drop_last());
            }
            k = k + 1;
        }
        proof {
            assert(self@ =~~= push_scope(st0, bind_frame(Seq::<MBind>::empty(), psv, vsv, 0)));
        }
        let res = self.run_with_host(host, &body, fuel - 1);
        let ghost st3 = self@;
        let popped = self.scopes.pop();
        proof {
            assert(ssview(self.scopes@) =~~= st3.scopes.drop_last());
            assert(self@ =~~= pop_scope(st3));
            crate::semantics::lemma_pop_scope_ok(st3);
        }
        res
    }

    /// Construction, `new func(args)`: allocates the instance, links its
    /// prototype slot to `func`'s `prototype` property, and dispatches on
    /// the callable kind.  A user-defined callable runs with `this` bound
    /// to the instance; the result is whatever the callable returns — the
    /// constructed object is not forced to be the result unless the body
    /// returns `this`.  A native construction leaves the state exactly one
    /// freshly allocated, prototype-linked instance larger, whatever the
    /// host answers.
    pub fn construct_new_object<H: Host>(&mut self, host: &mut H, func: Value, v_args: Vec<Value>, fuel: u64) -> (r: ResultValue)
        requires
            state_ok(old(self)@),
            val_ok(func@, old(self)@.heap.len() as int),
            forall|j: int| 0 <= j < v_args@.len()
                ==> val_ok(#[trigger] v_args@[j]@, old(self)@.heap.len() as int),
        ensures
            agrees(construct_val(old(self)@, func@, vals_of(v_args@), fuel as nat), final(self)@, r),
            evolves(old(self)@, final(self)@),
            result_ok(r, final(self)@.heap.len() as int),
            old(self)@.heap.len() < final(self)@.heap.len(),
            is_native_callable(old(self)@, func@)
                ==> final(self)@ == construct_alloc(old(self)@, func@),
        decreases fuel, func, 1int, 0int,
    {
        let ghost st0 = self@;
        let proto_key = String::from_str("prototype");
        let proto = heap_get_field(&self.heap, &func, &proto_key);
        proof {
            lemma_get_field_ok(st0.heap, func@, "prototype"@, st0.heap.len() as nat);
        }
        let idx = heap_alloc(
            &mut self.heap,
            ObjectData { props: Vec::new(), proto, call: Option::None },
        );
        let ghost pv = get_field_m(st0.heap, func@, "prototype"@, st0.heap.len() as nat);
        proof {
            assert(self@.heap.last() =~= blank_obj(pv));
            assert(self@.heap =~= st0.heap.push(blank_obj(pv)));
            lemma_val_ok_mono(pv, st0.heap.len() as int, st0.heap.len() + 1 as int);
            lemma_state_push_obj(st0, blank_obj(pv));
            assert(self@ =~~= construct_alloc(st0, func@));
        }
        let ghost st1 = self@;
        let this = Value::Object(idx);
        let fi: usize = match &func {
            Value::Function(i) => *i,
            _ => {
                return Result::Ok(Value::Undefined);
            },
        };
        if fi >= self.heap.len() {
            return Result::Ok(Value::Undefined);
        }
        assert(self@.heap[fi as int] == self.heap@[fi as int]@);
        let (params, body) = match &self.heap[fi].call {
            Option::None => {
                return Result::Ok(Value::Undefined);
            },
            Option::Some(Callable::Native(id)) => {
                let nid: u64 = *id;
                let res = host.call_native(nid, this, Value::Undefined, v_args);
                let hl = self.heap.len();
                let out = match res {
                    Result::Ok(v) => {
                        if value_in_bounds(&v, hl) {
                            Result::Ok(v)
                        } else {
                            Result::Ok(Value::Undefined)
                        }
                    },
                    Result::Err(t) => {
                        if value_in_bounds(&t, hl) {
                            Result::Err(t)
                        } else {
                            Result::Err(Value::Undefined)
                        }
                    },
                };
                return out;
            },
            Option::Some(Callable::Regular(ps, bd)) => (ps.clone(), bd.clone()),
        };
        if v_args.len() < params.len() {
            return Result::Err(Value::Undefined);
        }
        if fuel == 0 {
            return Result::Err(Value::Undefined);
        }
        let frame: Vec<Binding> = Vec::new();
        self.scopes.push(frame);
        proof {
            assert(ssview(self.scopes@) =~~= st1.scopes.push(Seq::<MBind>::empty()));
            assert(self@ =~~= push_scope(st1, Seq::<MBind>::empty()));
            crate::semantics::lemma_push_scope_ok(st1, Seq::<MBind>::empty());
        }
        let ghost frame0 = scope_declare(Seq::<MBind>::empty(), "this"@, MVal::Obj(idx as int), true);
        let this_name = String::from_str("this");
        self.declare_binding(&this_name, this, true);
        proof {
            assert(self@.scopes =~~= st1.scopes.push(frame0));
            assert(self@ =~~= push_scope(st1, frame0));
        }
        let ghost psv = params@.map_values(|s: String| s@);
        let ghost vsv = vals_of(v_args@);
        let n = params.len();
        let mut k: usize = 0;
        while k < n
            invariant
                0 <= k <= n,
                n == params@.len(),
                n <= v_args@.len(),
                psv == params@.map_values(|s: String| s@),
                vsv == vals_of(v_args@),
                forall|j: int| 0 <= j < v_args@.len()
                    ==> val_ok(#[trigger] v_args@[j]@, self@.heap.len() as int),
                state_ok(self@),
                self@.heap == st1.heap,
                self@.global == st1.global,
                self@.scopes.len() == st1.scopes.len() + 1,
                self@.scopes.drop_last() == st1.scopes,
                bind_frame(self@.scopes.last(), psv, vsv, k as int)
                    == bind_frame(frame0, psv, vsv, 0),
            decreases n - k,
        {
            let ghost pre = self@;
            assert(psv[k as int] == params@[k as int]@);
            assert(vsv[k as int] == v_args@[k as int]@);
            self.declare_binding(&params[k], v_args[k].dup(), true);
            proof {
                assert(self@.scopes.last()
                    == scope_declare(pre.scopes.last(), psv[k as int], vsv[k as int], true));
                assert(self@.scopes.drop_last() =~~= pre.scopes.drop_last());
            }
            k = k + 1;
        }
        proof {
            assert(bind_frame(frame0, psv, vsv, 0) == construct_frame(idx as int, psv, vsv));
            assert(self@ =~~= push_scope(st1, construct_frame(idx as int, psv, vsv)));
        }
        let res = self.run_with_host(host, &body, fuel - 1);
        let ghost st3 = self@;
        let popped = self.scopes.pop();
        proof {
            assert(ssview(self.scopes@) =~~= st3.scopes.drop_last());
            assert(self@ =~~= pop_scope(st3));
            crate::semantics::lemma_pop_scope_ok(st3);
        }
        res
    }

    /// Boxing of a primitive: the matching global wrapper constructor is
    /// run through the construction protocol with the primitive as the
    /// sole argument.  Any other kind boxes to `undefined`.
    pub fn box_into_instance<H: Host>(&mut self, host: &mut H, val: Value, fuel: u64) -> (r: ResultValue)
        requires
            state_ok(old(self)@),
            val_ok(val@, old(self)@.heap.len() as int),
        ensures
            agrees(box_val(old(self)@, val@, fuel as nat), final(self)@, r),
            evolves(old(self)@, final(self)@),
            result_ok(r, final(self)@.heap.len() as int),
        decreases fuel, val, 2int, 0int,
    {
        let ghost st0 = self@;
        let ctor_name: &str = match &val {
            Value::Boolean(_) => "Boolean",
            Value::Number(_) => "Number",
            Value::Integer(_) => "Number",
            Value::String(_) => "String",
            _ => {
                return Result::Ok(Value::Undefined);
            },
        };
        let key = String::from_str(ctor_name);
        let g = self.global;
        let ctor = heap_get_field(&self.heap, &Value::Object(g), &key);
        proof {
            lemma_get_field_ok(st0.heap, MVal::Obj(st0.global), key@, st0.heap.len() as nat);
        }
        if fuel == 0 {
            return Result::Err(Value::Undefined);
        }
        let mut args: Vec<Value> = Vec::new();
        args.push(val);
        proof {
            assert(vals_of(args@) =~= seq![args@[0]@]);
        }
        self.construct_new_object(host, ctor, args, fuel - 1)
    }
}

} // verus!
