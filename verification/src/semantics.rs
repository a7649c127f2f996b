//! The meaning of evaluation, written once as a specification-level
//! interpreter over a mathematical state.
//!
//! [`eval`] is a fuel-bounded big-step evaluator: structural work is free,
//! and one unit of fuel is spent on each function-body entry, each loop
//! iteration, and each construction or boxing step.  Its outcome is either
//! a value with the new state, a thrown value with the new state, or
//! [`Out::Stuck`].  `Stuck` marks the two places this specification does
//! not pin down: fuel running out, and a call into a host-implemented
//! native function, whose behaviour belongs to the host.  The executable
//! interpreter is proved to agree with `eval` exactly whenever the outcome
//! is not `Stuck`, and to preserve the state invariants always.

use vstd::prelude::*;
use crate::ast::BinOp;
use crate::ast::BitOp;
use crate::ast::CompOp;
use crate::ast::Const;
use crate::ast::Expr;
use crate::ast::ExprDef;
use crate::ast::LogOp;
use crate::ast::NumOp;
use crate::ast::UnaryOp;
use crate::coerce::int_str;
use crate::coerce::num_add;
use crate::coerce::num_div;
use crate::coerce::num_mul;
use crate::coerce::num_neg;
use crate::coerce::num_rem;
use crate::coerce::num_sub;
use crate::coerce::to_i32;
use crate::coerce::to_num;
use crate::coerce::to_str;
use crate::heap::MCall;
use crate::heap::MObj;
use crate::heap::get_field_m;
use crate::heap::heap_ok;
use crate::heap::lookup_prop;
use crate::heap::set_field_m;
use crate::heap::set_prop;
use crate::value::MVal;
use crate::value::is_boxable;
use crate::value::truthy;
use crate::value::type_of;
use crate::value::val_eq;
use crate::value::val_ok;

verus! {

/// One binding: name, value, and whether it is mutable.
#[verifier::ext_equal]
pub struct MBind {
    pub name: Seq<char>,
    pub val: MVal,
    pub mutable: bool,
}

/// The interpreter state: the heap, the index of the global object, and the
/// stack of local scopes.  Bindings at the bottom of the chain are the
/// global object's properties; each scope above is one call frame.  A
/// freshly pushed frame chains to the frames below it, the caller's active
/// environment.
#[verifier::ext_equal]
pub struct MState {
    pub heap: Seq<MObj>,
    pub global: int,
    pub scopes: Seq<Seq<MBind>>,
}

/// Whether every binding of a scope holds a value that points into a heap
/// of length `n`.
pub open spec fn scope_ok(sc: Seq<MBind>, n: int) -> bool {
    forall|i: int| 0 <= i < sc.len() ==> val_ok((#[trigger] sc[i]).val, n)
}

/// The state invariant: the global index is an object of the heap, the heap
/// is closed, and every scope holds closed values.
pub open spec fn state_ok(st: MState) -> bool {
    &&& 0 <= st.global < st.heap.len()
    &&& heap_ok(st.heap)
    &&& forall|i: int| 0 <= i < st.scopes.len() ==> scope_ok(#[trigger] st.scopes[i], st.heap.len() as int)
}

/// The outcome of evaluation.
#[verifier::ext_equal]
pub enum Out {
    /// Success: the state after evaluation and the expression's value.
    Val(MState, MVal),
    /// Failure: the state after evaluation and the thrown value.
    Thrown(MState, MVal),
    /// The specification does not determine the outcome: fuel ran out, or a
    /// host-implemented native function was called.
    Stuck,
}

/// The outcome of evaluating an argument list.
#[verifier::ext_equal]
pub enum ListOut {
    Vals(MState, Seq<MVal>),
    Thrown(MState, MVal),
    Stuck,
}

/// The outcome of resolving a call's `this` and callee.
#[verifier::ext_equal]
pub enum PairOut {
    Pair(MState, MVal, MVal),
    Thrown(MState, MVal),
    Stuck,
}

/// The value of a literal constant.  A regular-expression literal is an
/// unimplemented placeholder and evaluates to `undefined`.
pub open spec fn const_val(c: Const) -> MVal {
    match c {
        Const::Null => MVal::Null,
        Const::Undefined => MVal::Undefined,
        Const::Num(n) => MVal::Num(n as int),
        Const::Int(i) => MVal::Int(i as int),
        Const::Str(s) => MVal::Str(s@),
        Const::Bool(b) => MVal::Bool(b),
        Const::RegExp(_, _, _) => MVal::Undefined,
    }
}

/// The first binding of this scope with the given name.
pub open spec fn scope_lookup(sc: Seq<MBind>, name: Seq<char>) -> Option<MVal>
    decreases sc.len(),
{
    if sc.len() == 0 {
        Option::None
    } else if sc[0].name == name {
        Option::Some(sc[0].val)
    } else {
        scope_lookup(sc.drop_first(), name)
    }
}

/// This scope with the first binding of the given name overwritten, or with
/// a new binding appended.
pub open spec fn scope_declare(sc: Seq<MBind>, name: Seq<char>, v: MVal, m: bool) -> Seq<MBind>
    decreases sc.len(),
{
    if sc.len() == 0 {
        seq![MBind { name, val: v, mutable: m }]
    } else if sc[0].name == name {
        seq![MBind { name, val: v, mutable: m }] + sc.drop_first()
    } else {
        seq![sc[0]] + scope_declare(sc.drop_first(), name, v, m)
    }
}

/// Lookup through the scope stack, innermost first.
pub open spec fn scopes_lookup(scopes: Seq<Seq<MBind>>, name: Seq<char>) -> Option<MVal>
    decreases scopes.len(),
{
    if scopes.len() == 0 {
        Option::None
    } else {
        match scope_lookup(scopes.last(), name) {
            Option::Some(v) => Option::Some(v),
            Option::None => scopes_lookup(scopes.drop_last(), name),
        }
    }
}

/// Resolution of a name: the innermost local binding, else the global
/// object's own property of that name, else `undefined`.
pub open spec fn lookup_name(st: MState, name: Seq<char>) -> MVal {
    match scopes_lookup(st.scopes, name) {
        Option::Some(v) => v,
        Option::None => {
            if 0 <= st.global < st.heap.len() {
                match lookup_prop(st.heap[st.global].props, name) {
                    Option::Some(v) => v,
                    Option::None => MVal::Undefined,
                }
            } else {
                MVal::Undefined
            }
        },
    }
}

/// Declare-or-update of a binding: in the innermost local scope when one
/// exists, else as a property of the global object.
pub open spec fn declare_name(st: MState, name: Seq<char>, v: MVal, m: bool) -> MState {
    if st.scopes.len() > 0 {
        MState {
            scopes: st.scopes.update(
                st.scopes.len() - 1,
                scope_declare(st.scopes.last(), name, v, m),
            ),
            ..st
        }
    } else if 0 <= st.global < st.heap.len() {
        MState {
            heap: st.heap.update(
                st.global,
                MObj { props: set_prop(st.heap[st.global].props, name, v), ..st.heap[st.global] },
            ),
            ..st
        }
    } else {
        st
    }
}

/// The state with one more scope on the stack.
pub open spec fn push_scope(st: MState, frame: Seq<MBind>) -> MState {
    MState { scopes: st.scopes.push(frame), ..st }
}

/// The state with the innermost scope removed.
pub open spec fn pop_scope(st: MState) -> MState {
    if st.scopes.len() > 0 {
        MState { scopes: st.scopes.drop_last(), ..st }
    } else {
        st
    }
}

/// The frame for a function entry: each parameter bound positionally to
/// the matching argument, in order.
pub open spec fn bind_frame(
    frame: Seq<MBind>,
    params: Seq<Seq<char>>,
    vals: Seq<MVal>,
    i: int,
) -> Seq<MBind>
    decreases params.len() - i,
{
    if i < 0 || i >= params.len() {
        frame
    } else {
        bind_frame(scope_declare(frame, params[i], vals[i], true), params, vals, i + 1)
    }
}

/// The value of an arithmetic operation.  Addition prefers string
/// concatenation when either operand is a string; everything else coerces
/// both operands to numbers and yields the general numeric kind.
pub open spec fn apply_num(op: NumOp, a: MVal, b: MVal) -> MVal {
    match op {
        NumOp::Add => {
            if a is Str || b is Str {
                MVal::Str(to_str(a) + to_str(b))
            } else {
                MVal::Num(num_add(to_num(a), to_num(b)))
            }
        },
        NumOp::Sub => MVal::Num(num_sub(to_num(a), to_num(b))),
        NumOp::Mul => MVal::Num(num_mul(to_num(a), to_num(b))),
        NumOp::Div => MVal::Num(num_div(to_num(a), to_num(b))),
        NumOp::Mod => MVal::Num(num_rem(to_num(a), to_num(b))),
    }
}

/// The value of a bitwise operation: both operands are coerced to the
/// 32-bit window, shifts mask their count to five bits, and the result is
/// of the integer kind.
pub open spec fn apply_bit(op: BitOp, a: int, b: int) -> int {
    let x = to_i32(a) as i32;
    let y = to_i32(b) as i32;
    match op {
        BitOp::And => (x & y) as int,
        BitOp::Or => (x | y) as int,
        BitOp::Xor => (x ^ y) as int,
        BitOp::Shl => (x << (y & 31)) as int,
        BitOp::Shr => (x >> (y & 31)) as int,
    }
}

/// The value of a comparison.  The four equality forms compare by value
/// for primitives and by heap identity for objects and functions; the
/// relational forms coerce both sides numerically.
pub open spec fn apply_comp(op: CompOp, a: MVal, b: MVal) -> bool {
    match op {
        CompOp::Equal => val_eq(a, b),
        CompOp::NotEqual => !val_eq(a, b),
        CompOp::StrictEqual => val_eq(a, b),
        CompOp::StrictNotEqual => !val_eq(a, b),
        CompOp::GreaterThan => to_num(a) > to_num(b),
        CompOp::GreaterThanOrEqual => to_num(a) >= to_num(b),
        CompOp::LessThan => to_num(a) < to_num(b),
        CompOp::LessThanOrEqual => to_num(a) <= to_num(b),
    }
}

/// The value of a logical operation: both operands are coerced to
/// booleans eagerly, with no short-circuit.
pub open spec fn apply_log(op: LogOp, a: MVal, b: MVal) -> bool {
    match op {
        LogOp::And => truthy(a) && truthy(b),
        LogOp::Or => truthy(a) || truthy(b),
    }
}

/// The value of a unary operation.
pub open spec fn apply_unary(op: UnaryOp, a: MVal) -> MVal {
    match op {
        UnaryOp::Minus => MVal::Num(num_neg(to_num(a))),
        UnaryOp::Plus => MVal::Num(to_num(a)),
        UnaryOp::Not => MVal::Bool(!truthy(a)),
    }
}

/// A fresh plain object.
pub open spec fn blank_obj(proto: MVal) -> MObj {
    MObj { props: Seq::empty(), proto, call: Option::None }
}

/// The heap object a function declaration allocates.
pub open spec fn fun_obj(params: std::rc::Rc<Vec<String>>, body: std::rc::Rc<Expr>) -> MObj {
    MObj {
        props: Seq::empty(),
        proto: MVal::Null,
        call: Option::Some(MCall::Regular(params@.map_values(|s: String| s@), *body)),
    }
}

/// The specification-level evaluator.
pub open spec fn eval(st: MState, e: Expr, fuel: nat) -> Out
    decreases fuel, e, 4int, 0int,
{
    match e.def {
        ExprDef::ConstExpr(c) => Out::Val(st, const_val(c)),
        ExprDef::BlockExpr(es) => {
            if es.len() == 0 {
                Out::Val(st, MVal::Null)
            } else {
                eval_block(st, es, 0, fuel)
            }
        },
        ExprDef::LocalExpr(name) => Out::Val(st, lookup_name(st, name@)),
        ExprDef::GetConstFieldExpr(oe, field) => {
            match eval(st, *oe, fuel) {
                Out::Val(st1, v) => {
                    if fuel == 0 {
                        Out::Stuck
                    } else {
                        eval_member(st1, v, field@, (fuel - 1) as nat)
                    }
                },
                Out::Thrown(st1, t) => Out::Thrown(st1, t),
                Out::Stuck => Out::Stuck,
            }
        },
        ExprDef::GetFieldExpr(oe, fe) => {
            match eval(st, *oe, fuel) {
                Out::Val(st1, v) => {
                    match eval(st1, *fe, fuel) {
                        Out::Val(st2, fv) => {
                            if fuel == 0 {
                                Out::Stuck
                            } else {
                                eval_member(st2, v, to_str(fv), (fuel - 1) as nat)
                            }
                        },
                        Out::Thrown(st2, t) => Out::Thrown(st2, t),
                        Out::Stuck => Out::Stuck,
                    }
                },
                Out::Thrown(st1, t) => Out::Thrown(st1, t),
                Out::Stuck => Out::Stuck,
            }
        },
        ExprDef::CallExpr(callee, args) => {
            match eval_callee(st, *callee, fuel) {
                PairOut::Pair(st1, this_v, f) => {
                    match eval_list(st1, args, 0, fuel) {
                        ListOut::Vals(st2, vals) => {
                            if fuel == 0 {
                                Out::Stuck
                            } else {
                                invoke_val(st2, f, vals, (fuel - 1) as nat)
                            }
                        },
                        ListOut::Thrown(st2, t) => Out::Thrown(st2, t),
                        ListOut::Stuck => Out::Stuck,
                    }
                },
                PairOut::Thrown(st1, t) => Out::Thrown(st1, t),
                PairOut::Stuck => Out::Stuck,
            }
        },
        ExprDef::WhileLoopExpr(c, b) => eval_while(st, e, MVal::Undefined, fuel),
        ExprDef::IfExpr(c, t, None) => {
            match eval(st, *c, fuel) {
                Out::Val(st1, cv) => {
                    if truthy(cv) {
                        eval(st1, *t, fuel)
                    } else {
                        Out::Val(st1, MVal::Undefined)
                    }
                },
                Out::Thrown(st1, t1) => Out::Thrown(st1, t1),
                Out::Stuck => Out::Stuck,
            }
        },
        ExprDef::IfExpr(c, t, Some(el)) => {
            match eval(st, *c, fuel) {
                Out::Val(st1, cv) => {
                    if truthy(cv) {
                        eval(st1, *t, fuel)
                    } else {
                        eval(st1, *el, fuel)
                    }
                },
                Out::Thrown(st1, t1) => Out::Thrown(st1, t1),
                Out::Stuck => Out::Stuck,
            }
        },
        ExprDef::SwitchExpr(disc, cases, default) => {
            match eval(st, *disc, fuel) {
                Out::Val(st1, dv) => eval_switch(st1, e, 0, dv, fuel),
                Out::Thrown(st1, t) => Out::Thrown(st1, t),
                Out::Stuck => Out::Stuck,
            }
        },
        ExprDef::ObjectDeclExpr(props) => {
            let idx = st.heap.len() as int;
            let st1 = MState { heap: st.heap.push(blank_obj(MVal::Null)), ..st };
            match eval_props(st1, props, 0, idx, fuel) {
                Out::Val(st2, _) => Out::Val(st2, MVal::Obj(idx)),
                Out::Thrown(st2, t) => Out::Thrown(st2, t),
                Out::Stuck => Out::Stuck,
            }
        },
        ExprDef::ArrayDeclExpr(es) => {
            if es.len() > i32::MAX {
                Out::Stuck
            } else {
                let idx = st.heap.len() as int;
                let st1 = MState { heap: st.heap.push(blank_obj(MVal::Null)), ..st };
                match eval_arr(st1, es, 0, idx, fuel) {
                    Out::Val(st2, _) => {
                        let proto = get_field_m(
                            st2.heap,
                            lookup_name(st2, "Array"@),
                            "prototype"@,
                            st2.heap.len() as nat,
                        );
                        let h3 = set_field_m(st2.heap, MVal::Obj(idx), "__proto__"@, proto);
                        let h4 = set_field_m(h3, MVal::Obj(idx), "length"@, MVal::Int(es.len() as int));
                        Out::Val(MState { heap: h4, ..st2 }, MVal::Obj(idx))
                    },
                    Out::Thrown(st2, t) => Out::Thrown(st2, t),
                    Out::Stuck => Out::Stuck,
                }
            }
        },
        ExprDef::FunctionDeclExpr(name, params, body) => {
            let idx = st.heap.len() as int;
            let callable = MCall::Regular(params@.map_values(|s: String| s@), *body);
            let st1 = MState {
                heap: st.heap.push(
                    MObj { props: Seq::empty(), proto: MVal::Null, call: Option::Some(callable) },
                ),
                ..st
            };
            let st2 = match name {
                Option::Some(n) => declare_name(st1, n@, MVal::Fun(idx), true),
                Option::None => st1,
            };
            Out::Val(st2, MVal::Fun(idx))
        },
        ExprDef::ArrowFunctionDeclExpr(params, body) => {
            let idx = st.heap.len() as int;
            let callable = MCall::Regular(params@.map_values(|s: String| s@), *body);
            let st1 = MState {
                heap: st.heap.push(
                    MObj { props: Seq::empty(), proto: MVal::Null, call: Option::Some(callable) },
                ),
                ..st
            };
            Out::Val(st1, MVal::Fun(idx))
        },
        ExprDef::BinOpExpr(op, a, b) => {
            match eval(st, *a, fuel) {
                Out::Val(st1, va) => {
                    match eval(st1, *b, fuel) {
                        Out::Val(st2, vb) => {
                            let r = match op {
                                BinOp::Num(o) => apply_num(o, va, vb),
                                BinOp::Bit(o) => MVal::Int(apply_bit(o, to_num(va), to_num(vb))),
                                BinOp::Comp(o) => MVal::Bool(apply_comp(o, va, vb)),
                                BinOp::Log(o) => MVal::Bool(apply_log(o, va, vb)),
                            };
                            Out::Val(st2, r)
                        },
                        Out::Thrown(st2, t) => Out::Thrown(st2, t),
                        Out::Stuck => Out::Stuck,
                    }
                },
                Out::Thrown(st1, t) => Out::Thrown(st1, t),
                Out::Stuck => Out::Stuck,
            }
        },
        ExprDef::UnaryOpExpr(op, a) => {
            match eval(st, *a, fuel) {
                Out::Val(st1, va) => Out::Val(st1, apply_unary(op, va)),
                Out::Thrown(st1, t) => Out::Thrown(st1, t),
                Out::Stuck => Out::Stuck,
            }
        },
        ExprDef::ConstructExpr(callee, args) => {
            match eval(st, *callee, fuel) {
                Out::Val(st1, f) => {
                    match eval_list(st1, args, 0, fuel) {
                        ListOut::Vals(st2, vals) => {
                            if fuel == 0 {
                                Out::Stuck
                            } else {
                                construct_val(st2, f, vals, (fuel - 1) as nat)
                            }
                        },
                        ListOut::Thrown(st2, t) => Out::Thrown(st2, t),
                        ListOut::Stuck => Out::Stuck,
                    }
                },
                Out::Thrown(st1, t) => Out::Thrown(st1, t),
                Out::Stuck => Out::Stuck,
            }
        },
        ExprDef::ReturnExpr(r) => {
            match r {
                Option::Some(v) => eval(st, *v, fuel),
                Option::None => Out::Val(st, MVal::Undefined),
            }
        },
        ExprDef::ThrowExpr(x) => {
            match eval(st, *x, fuel) {
                Out::Val(st1, v) => Out::Thrown(st1, v),
                Out::Thrown(st1, t) => Out::Thrown(st1, t),
                Out::Stuck => Out::Stuck,
            }
        },
        ExprDef::AssignExpr(lhs, rhs) => {
            match eval(st, *rhs, fuel) {
                Out::Val(st1, v) => {
                    match (*lhs).def {
                        ExprDef::LocalExpr(name) => Out::Val(declare_name(st1, name@, v, true), v),
                        ExprDef::GetConstFieldExpr(oe, field) => {
                            match eval(st1, *oe, fuel) {
                                Out::Val(st2, ov) => Out::Val(
                                    MState {
                                        heap: set_field_m(st2.heap, ov, field@, v),
                                        ..st2
                                    },
                                    v,
                                ),
                                Out::Thrown(st2, t) => Out::Thrown(st2, t),
                                Out::Stuck => Out::Stuck,
                            }
                        },
                        _ => Out::Val(st1, v),
                    }
                },
                Out::Thrown(st1, t) => Out::Thrown(st1, t),
                Out::Stuck => Out::Stuck,
            }
        },
        ExprDef::VarDeclExpr(decls) => eval_decls(st, decls, 0, true, fuel),
        ExprDef::LetDeclExpr(decls) => eval_decls(st, decls, 0, true, fuel),
        ExprDef::ConstDeclExpr(decls) => eval_decls(st, decls, 0, false, fuel),
        ExprDef::TypeOfExpr(x) => {
            match eval(st, *x, fuel) {
                Out::Val(st1, v) => Out::Val(st1, MVal::Str(type_of(v))),
                Out::Thrown(st1, t) => Out::Thrown(st1, t),
                Out::Stuck => Out::Stuck,
            }
        },
    }
}

/// Member access on an already evaluated receiver: a primitive other than
/// `null` and `undefined` is boxed first, then the property is fetched.
pub open spec fn eval_member(st: MState, v: MVal, key: Seq<char>, fuel: nat) -> Out
    decreases fuel, v, 2int, 0int,
{
    if is_boxable(v) {
        match box_val(st, v, fuel) {
            Out::Val(st1, inst) => Out::Val(
                st1,
                get_field_m(st1.heap, inst, key, st1.heap.len() as nat),
            ),
            Out::Thrown(st1, t) => Out::Thrown(st1, t),
            Out::Stuck => Out::Stuck,
        }
    } else {
        Out::Val(st, get_field_m(st.heap, v, key, st.heap.len() as nat))
    }
}

/// Evaluation of a sequence of expressions whose result is the value of
/// the last one.
pub open spec fn eval_block(st: MState, es: Vec<Expr>, i: int, fuel: nat) -> Out
    decreases fuel, es, 0int, es.len() - i,
{
    if i < 0 || i >= es.len() {
        Out::Val(st, MVal::Null)
    } else {
        match eval(st, es[i], fuel) {
            Out::Val(st1, v) => {
                if i + 1 >= es.len() {
                    Out::Val(st1, v)
                } else {
                    eval_block(st1, es, i + 1, fuel)
                }
            },
            Out::Thrown(st1, t) => Out::Thrown(st1, t),
            Out::Stuck => Out::Stuck,
        }
    }
}

/// Strict left-to-right evaluation of an argument list.
pub open spec fn eval_list(st: MState, es: Vec<Expr>, i: int, fuel: nat) -> ListOut
    decreases fuel, es, 0int, es.len() - i,
{
    if i < 0 || i >= es.len() {
        ListOut::Vals(st, Seq::empty())
    } else {
        match eval(st, es[i], fuel) {
            Out::Val(st1, v) => {
                match eval_list(st1, es, i + 1, fuel) {
                    ListOut::Vals(st2, rest) => ListOut::Vals(st2, seq![v] + rest),
                    ListOut::Thrown(st2, t) => ListOut::Thrown(st2, t),
                    ListOut::Stuck => ListOut::Stuck,
                }
            },
            Out::Thrown(st1, t) => ListOut::Thrown(st1, t),
            Out::Stuck => ListOut::Stuck,
        }
    }
}

/// Evaluation of an object literal's properties, in declared order, each
/// set on the object at `idx` as soon as it is evaluated.  The outcome's
/// value is unused.
pub open spec fn eval_props(
    st: MState,
    props: Vec<(String, Expr)>,
    i: int,
    idx: int,
    fuel: nat,
) -> Out
    decreases fuel, props, 0int, props.len() - i,
{
    if i < 0 || i >= props.len() {
        Out::Val(st, MVal::Undefined)
    } else {
        match eval(st, props[i].1, fuel) {
            Out::Val(st1, v) => eval_props(
                MState { heap: set_field_m(st1.heap, MVal::Obj(idx), props@[i].0@, v), ..st1 },
                props,
                i + 1,
                idx,
                fuel,
            ),
            Out::Thrown(st1, t) => Out::Thrown(st1, t),
            Out::Stuck => Out::Stuck,
        }
    }
}

/// Evaluation of an array literal's elements, in order, each assigned to
/// its decimal index key as soon as it is evaluated.  The outcome's value
/// is unused.
pub open spec fn eval_arr(st: MState, es: Vec<Expr>, i: int, idx: int, fuel: nat) -> Out
    decreases fuel, es, 1int, es.len() - i,
{
    if i < 0 || i >= es.len() {
        Out::Val(st, MVal::Undefined)
    } else {
        match eval(st, es[i], fuel) {
            Out::Val(st1, v) => eval_arr(
                MState { heap: set_field_m(st1.heap, MVal::Obj(idx), int_str(i), v), ..st1 },
                es,
                i + 1,
                idx,
                fuel,
            ),
            Out::Thrown(st1, t) => Out::Thrown(st1, t),
            Out::Stuck => Out::Stuck,
        }
    }
}

/// Evaluation of a declaration list: each initializer evaluated in order,
/// defaulting to `null` when absent, and bound with the given mutability.
/// The whole declaration evaluates to `undefined`.
pub open spec fn eval_decls(
    st: MState,
    decls: Vec<(String, Option<Expr>)>,
    i: int,
    m: bool,
    fuel: nat,
) -> Out
    decreases fuel, decls, 0int, decls.len() - i,
{
    if i < 0 || i >= decls.len() {
        Out::Val(st, MVal::Undefined)
    } else {
        match decls[i].1 {
            Option::Some(e) => {
                match eval(st, e, fuel) {
                    Out::Val(st1, v) => eval_decls(
                        declare_name(st1, decls@[i].0@, v, m),
                        decls,
                        i + 1,
                        m,
                        fuel,
                    ),
                    Out::Thrown(st1, t) => Out::Thrown(st1, t),
                    Out::Stuck => Out::Stuck,
                }
            },
            Option::None => eval_decls(
                declare_name(st, decls@[i].0@, MVal::Null, m),
                decls,
                i + 1,
                m,
                fuel,
            ),
        }
    }
}

/// The switch cases in declared order: the first case whose guard equals
/// the discriminant wins and its block's last value is the result; an
/// unmatched discriminant falls to the default expression when present,
/// else to `undefined`.
pub open spec fn eval_switch(st: MState, e: Expr, i: int, dv: MVal, fuel: nat) -> Out
    decreases fuel, e, 2int, switch_cases(e).len() - i,
{
    let cases = switch_cases(e);
    if i < 0 || i >= cases.len() {
        match e.def {
            ExprDef::SwitchExpr(_, _, Option::Some(d)) => eval(st, *d, fuel),
            _ => Out::Val(st, MVal::Undefined),
        }
    } else {
        match eval(st, cases[i].0, fuel) {
            Out::Val(st1, cv) => {
                if val_eq(dv, cv) {
                    if cases[i].1.len() == 0 {
                        Out::Val(st1, MVal::Null)
                    } else {
                        eval_block(st1, cases[i].1, 0, fuel)
                    }
                } else {
                    eval_switch(st1, e, i + 1, dv, fuel)
                }
            },
            Out::Thrown(st1, t) => Out::Thrown(st1, t),
            Out::Stuck => Out::Stuck,
        }
    }
}

/// The case list of a switch expression.
pub open spec fn switch_cases(e: Expr) -> Seq<(Expr, Vec<Expr>)> {
    match e.def {
        ExprDef::SwitchExpr(_, cases, _) => cases@,
        _ => Seq::empty(),
    }
}

/// The while loop, with `acc` the value of the most recent body run:
/// while the condition is truthy the body runs and its value becomes the
/// result; a loop whose condition is falsy at once yields `undefined`.
/// Each iteration costs one unit of fuel.
pub open spec fn eval_while(st: MState, e: Expr, acc: MVal, fuel: nat) -> Out
    decreases fuel, e, 3int, 0int,
{
    match e.def {
        ExprDef::WhileLoopExpr(c, b) => {
            match eval(st, *c, fuel) {
                Out::Val(st1, cv) => {
                    if !truthy(cv) {
                        Out::Val(st1, acc)
                    } else {
                        match eval(st1, *b, fuel) {
                            Out::Val(st2, bv) => {
                                if fuel == 0 {
                                    Out::Stuck
                                } else {
                                    eval_while(st2, e, bv, (fuel - 1) as nat)
                                }
                            },
                            Out::Thrown(st2, t) => Out::Thrown(st2, t),
                            Out::Stuck => Out::Stuck,
                        }
                    }
                },
                Out::Thrown(st1, t) => Out::Thrown(st1, t),
                Out::Stuck => Out::Stuck,
            }
        },
        _ => Out::Stuck,
    }
}

/// The frame a construction enters its callable's body with: the name
/// `this` bound to the fresh instance, then each parameter bound
/// positionally.
pub open spec fn construct_frame(idx: int, params: Seq<Seq<char>>, vals: Seq<MVal>) -> Seq<MBind> {
    bind_frame(scope_declare(Seq::empty(), "this"@, MVal::Obj(idx), true), params, vals, 0)
}

/// Whether `f` is a function object of the heap whose callable is
/// host-implemented.
pub open spec fn is_native_callable(st: MState, f: MVal) -> bool {
    match f {
        MVal::Fun(fi) => 0 <= fi < st.heap.len()
            && (st.heap[fi].call matches Option::Some(MCall::Native(_))),
        _ => false,
    }
}

/// The state right after a construction allocates its instance: the old
/// heap extended by exactly one blank object whose prototype slot is
/// `f`'s own `prototype` property as read at entry.
pub open spec fn construct_alloc(st: MState, f: MVal) -> MState {
    let proto = get_field_m(st.heap, f, "prototype"@, st.heap.len() as nat);
    MState { heap: st.heap.push(blank_obj(proto)), ..st }
}

/// Construction, `new f(vals)`: a fresh object is allocated whose
/// prototype slot is `f`'s own `prototype` property; a user-defined
/// callable then runs with `this` bound to that instance and the
/// parameters bound positionally, and the body's result is returned as is
/// — the protocol does not force the constructed object to be the result
/// unless the body returns `this`.  A native callable is host behaviour
/// and is not pinned down here.  A non-callable yields `undefined` (the
/// object is still allocated).
pub open spec fn construct_val(st: MState, f: MVal, vals: Seq<MVal>, fuel: nat) -> Out
    decreases fuel, f, 0int, 0int,
{
    let idx = st.heap.len() as int;
    let st1 = construct_alloc(st, f);
    match f {
        MVal::Fun(fi) => {
            if 0 <= fi < st1.heap.len() {
                match st1.heap[fi].call {
                    Option::Some(MCall::Native(_)) => Out::Stuck,
                    Option::Some(MCall::Regular(params, body)) => {
                        if vals.len() < params.len() {
                            Out::Thrown(st1, MVal::Undefined)
                        } else if fuel == 0 {
                            Out::Stuck
                        } else {
                            let st2 = push_scope(st1, construct_frame(idx, params, vals));
                            match eval(st2, body, (fuel - 1) as nat) {
                                Out::Val(st3, v) => Out::Val(pop_scope(st3), v),
                                Out::Thrown(st3, t) => Out::Thrown(pop_scope(st3), t),
                                Out::Stuck => Out::Stuck,
                            }
                        }
                    },
                    Option::None => Out::Val(st1, MVal::Undefined),
                }
            } else {
                Out::Val(st1, MVal::Undefined)
            }
        },
        _ => Out::Val(st1, MVal::Undefined),
    }
}

/// Boxing of a primitive: the matching global wrapper constructor
/// (`Boolean`, `Number` or `String`) is fetched from the global object and
/// run through the construction protocol with the primitive as the sole
/// argument.  Any other kind boxes to `undefined`.
pub open spec fn box_val(st: MState, v: MVal, fuel: nat) -> Out
    decreases fuel, v, 1int, 0int,
{
    let name = match v {
        MVal::Bool(_) => Option::Some("Boolean"@),
        MVal::Num(_) => Option::Some("Number"@),
        MVal::Int(_) => Option::Some("Number"@),
        MVal::Str(_) => Option::Some("String"@),
        _ => Option::None,
    };
    match name {
        Option::Some(n) => {
            let ctor = get_field_m(st.heap, MVal::Obj(st.global), n, st.heap.len() as nat);
            if fuel == 0 {
                Out::Stuck
            } else {
                construct_val(st, ctor, seq![v], (fuel - 1) as nat)
            }
        },
        Option::None => Out::Val(st, MVal::Undefined),
    }
}

/// The call protocol on an already resolved `this` and callee value, with
/// arguments already evaluated: a user-defined callable runs its body in a
/// fresh frame chained to the caller's active environment; a native
/// callable is host behaviour and is not pinned down here; anything else
/// is a distinct failure, thrown as `undefined`.
pub open spec fn invoke_val(st: MState, f: MVal, vals: Seq<MVal>, fuel: nat) -> Out
    decreases fuel, f, 0int, 1int,
{
    match f {
        MVal::Fun(fi) => {
            if 0 <= fi < st.heap.len() {
                match st.heap[fi].call {
                    Option::Some(MCall::Native(_)) => Out::Stuck,
                    Option::Some(MCall::Regular(params, body)) => {
                        if vals.len() < params.len() {
                            Out::Thrown(st, MVal::Undefined)
                        } else if fuel == 0 {
                            Out::Stuck
                        } else {
                            let st1 = push_scope(st, bind_frame(Seq::empty(), params, vals, 0));
                            match eval(st1, body, (fuel - 1) as nat) {
                                Out::Val(st2, v) => Out::Val(pop_scope(st2), v),
                                Out::Thrown(st2, t) => Out::Thrown(pop_scope(st2), t),
                                Out::Stuck => Out::Stuck,
                            }
                        }
                    },
                    Option::None => Out::Thrown(st, MVal::Undefined),
                }
            } else {
                Out::Thrown(st, MVal::Undefined)
            }
        },
        _ => Out::Thrown(st, MVal::Undefined),
    }
}

/// Resolution of a call's `this` and callee: a member-access callee yields
/// the (boxed when primitive) receiver and its property; any other callee
/// shape yields the global object and the callee's value, resolved once.
pub open spec fn eval_callee(st: MState, callee: Expr, fuel: nat) -> PairOut
    decreases fuel, callee, 5int, 0int,
{
    match callee.def {
        ExprDef::GetConstFieldExpr(oe, field) => {
            match eval(st, *oe, fuel) {
                Out::Val(st1, v) => {
                    if fuel == 0 {
                        PairOut::Stuck
                    } else {
                        resolve_receiver(st1, v, field@, (fuel - 1) as nat)
                    }
                },
                Out::Thrown(st1, t) => PairOut::Thrown(st1, t),
                Out::Stuck => PairOut::Stuck,
            }
        },
        ExprDef::GetFieldExpr(oe, fe) => {
            match eval(st, *oe, fuel) {
                Out::Val(st1, v) => {
                    match eval(st1, *fe, fuel) {
                        Out::Val(st2, fv) => {
                            if fuel == 0 {
                                PairOut::Stuck
                            } else {
                                resolve_receiver(st2, v, to_str(fv), (fuel - 1) as nat)
                            }
                        },
                        Out::Thrown(st2, t) => PairOut::Thrown(st2, t),
                        Out::Stuck => PairOut::Stuck,
                    }
                },
                Out::Thrown(st1, t) => PairOut::Thrown(st1, t),
                Out::Stuck => PairOut::Stuck,
            }
        },
        _ => {
            match eval(st, callee, fuel) {
                Out::Val(st1, f) => PairOut::Pair(st1, MVal::Obj(st1.global), f),
                Out::Thrown(st1, t) => PairOut::Thrown(st1, t),
                Out::Stuck => PairOut::Stuck,
            }
        },
    }
}

/// The `this` and callee for a member-access callee whose receiver has
/// been evaluated: a boxable receiver is boxed and both the `this` value
/// and the property lookup use the box; otherwise the receiver itself.
pub open spec fn resolve_receiver(st: MState, v: MVal, key: Seq<char>, fuel: nat) -> PairOut
    decreases fuel, v, 2int, 1int,
{
    if is_boxable(v) {
        match box_val(st, v, fuel) {
                Out::Val(st1, inst) => PairOut::Pair(
                    st1,
                    inst,
                    get_field_m(st1.heap, inst, key, st1.heap.len() as nat),
                ),
                Out::Thrown(st1, t) => PairOut::Thrown(st1, t),
                Out::Stuck => PairOut::Stuck,
        }
    } else {
        PairOut::Pair(st, v, get_field_m(st.heap, v, key, st.heap.len() as nat))
    }
}


/// A value found in a closed scope is closed.
pub proof fn lemma_scope_lookup_ok(sc: Seq<MBind>, name: Seq<char>, n: int)
    requires
        scope_ok(sc, n),
    ensures
        match scope_lookup(sc, name) {
            Option::Some(v) => val_ok(v, n),
            Option::None => true,
        },
    decreases sc.len(),
{
    if sc.len() > 0 && sc[0].name != name {
        assert forall|i: int| 0 <= i < sc.drop_first().len()
            implies val_ok((#[trigger] sc.drop_first()[i]).val, n) by {
            assert(sc.drop_first()[i] == sc[i + 1]);
        }
        lemma_scope_lookup_ok(sc.drop_first(), name, n);
    } else if sc.len() > 0 {
        assert(val_ok(sc[0].val, n));
    }
}

/// Declaring a closed value keeps the scope closed.
pub proof fn lemma_scope_declare_ok(sc: Seq<MBind>, name: Seq<char>, v: MVal, m: bool, n: int)
    requires
        scope_ok(sc, n),
        val_ok(v, n),
    ensures
        scope_ok(scope_declare(sc, name, v, m), n),
    decreases sc.len(),
{
    let out = scope_declare(sc, name, v, m);
    if sc.len() == 0 {
    } else if sc[0].name == name {
        assert forall|i: int| 0 <= i < out.len() implies val_ok((#[trigger] out[i]).val, n) by {
            if i > 0 {
                assert(out[i] == sc[i]);
            }
        }
    } else {
        assert forall|i: int| 0 <= i < sc.drop_first().len()
            implies val_ok((#[trigger] sc.drop_first()[i]).val, n) by {
            assert(sc.drop_first()[i] == sc[i + 1]);
        }
        lemma_scope_declare_ok(sc.drop_first(), name, v, m, n);
        let rest = scope_declare(sc.drop_first(), name, v, m);
        assert forall|i: int| 0 <= i < out.len() implies val_ok((#[trigger] out[i]).val, n) by {
            if i > 0 {
                assert(out[i] == rest[i - 1]);
            }
        }
    }
}

/// A value found anywhere on a closed scope stack is closed.
pub proof fn lemma_scopes_lookup_ok(scopes: Seq<Seq<MBind>>, name: Seq<char>, n: int)
    requires
        forall|i: int| 0 <= i < scopes.len() ==> scope_ok(#[trigger] scopes[i], n),
    ensures
        match scopes_lookup(scopes, name) {
            Option::Some(v) => val_ok(v, n),
            Option::None => true,
        },
    decreases scopes.len(),
{
    if scopes.len() > 0 {
        lemma_scope_lookup_ok(scopes.last(), name, n);
        assert forall|i: int| 0 <= i < scopes.drop_last().len()
            implies scope_ok(#[trigger] scopes.drop_last()[i], n) by {
            assert(scopes.drop_last()[i] == scopes[i]);
        }
        lemma_scopes_lookup_ok(scopes.drop_last(), name, n);
    }
}

/// Name resolution in a well-formed state yields a closed value.
pub proof fn lemma_lookup_name_ok(st: MState, name: Seq<char>)
    requires
        state_ok(st),
    ensures
        val_ok(lookup_name(st, name), st.heap.len() as int),
{
    lemma_scopes_lookup_ok(st.scopes, name, st.heap.len() as int);
    if scopes_lookup(st.scopes, name) is None {
        crate::heap::lemma_lookup_prop_ok(st.heap[st.global].props, name, st.heap.len() as int);
    }
}

/// Declaring a closed value preserves well-formedness and the state's
/// shape: the heap length, the global index and the scope count.
pub proof fn lemma_declare_name_ok(st: MState, name: Seq<char>, v: MVal, m: bool)
    requires
        state_ok(st),
        val_ok(v, st.heap.len() as int),
    ensures
        state_ok(declare_name(st, name, v, m)),
        declare_name(st, name, v, m).heap.len() == st.heap.len(),
        declare_name(st, name, v, m).global == st.global,
        declare_name(st, name, v, m).scopes.len() == st.scopes.len(),
{
    let out = declare_name(st, name, v, m);
    let n = st.heap.len() as int;
    if st.scopes.len() > 0 {
        lemma_scope_declare_ok(st.scopes.last(), name, v, m, n);
        assert forall|i: int| 0 <= i < out.scopes.len()
            implies scope_ok(#[trigger] out.scopes[i], n) by {
            if i != st.scopes.len() - 1 {
                assert(out.scopes[i] == st.scopes[i]);
            }
        }
    } else {
        crate::heap::lemma_set_prop_ok(st.heap[st.global].props, name, v, n);
        assert forall|i: int| 0 <= i < out.heap.len()
            implies crate::heap::obj_ok(#[trigger] out.heap[i], n) by {
            if i != st.global {
                assert(out.heap[i] == st.heap[i]);
            }
        }
    }
}

/// A frame whose bindings are all closed stays closed as parameters are
/// bound to closed argument values.
pub proof fn lemma_bind_frame_ok(
    frame: Seq<MBind>,
    params: Seq<Seq<char>>,
    vals: Seq<MVal>,
    i: int,
    n: int,
)
    requires
        scope_ok(frame, n),
        forall|j: int| 0 <= j < vals.len() ==> val_ok(#[trigger] vals[j], n),
        params.len() <= vals.len(),
    ensures
        scope_ok(bind_frame(frame, params, vals, i), n),
    decreases params.len() - i,
{
    if 0 <= i < params.len() {
        lemma_scope_declare_ok(frame, params[i], vals[i], true, n);
        lemma_bind_frame_ok(scope_declare(frame, params[i], vals[i], true), params, vals, i + 1, n);
    }
}

/// A scope closed for a heap of length `n` is closed for any longer heap.
pub proof fn lemma_scope_ok_mono(sc: Seq<MBind>, n: int, m: int)
    requires
        scope_ok(sc, n),
        n <= m,
    ensures
        scope_ok(sc, m),
{
}

/// Pushing a closed object onto the heap preserves well-formedness.
pub proof fn lemma_state_push_obj(st: MState, o: MObj)
    requires
        state_ok(st),
        crate::heap::obj_ok(o, st.heap.len() + 1 as int),
    ensures
        state_ok(MState { heap: st.heap.push(o), ..st }),
{
    crate::heap::lemma_heap_push_ok(st.heap, o);
    let out = MState { heap: st.heap.push(o), ..st };
    assert forall|i: int| 0 <= i < out.scopes.len()
        implies scope_ok(#[trigger] out.scopes[i], out.heap.len() as int) by {
        lemma_scope_ok_mono(st.scopes[i], st.heap.len() as int, out.heap.len() as int);
    }
}

/// Setting a field to a closed value preserves well-formedness and the
/// state's shape.
pub proof fn lemma_state_set_field(st: MState, v: MVal, key: Seq<char>, value: MVal)
    requires
        state_ok(st),
        val_ok(value, st.heap.len() as int),
    ensures
        state_ok(MState { heap: set_field_m(st.heap, v, key, value), ..st }),
        set_field_m(st.heap, v, key, value).len() == st.heap.len(),
{
    crate::heap::lemma_set_field_ok(st.heap, v, key, value);
}

/// Pushing a closed frame preserves well-formedness.
pub proof fn lemma_push_scope_ok(st: MState, frame: Seq<MBind>)
    requires
        state_ok(st),
        scope_ok(frame, st.heap.len() as int),
    ensures
        state_ok(push_scope(st, frame)),
{
    let out = push_scope(st, frame);
    assert forall|i: int| 0 <= i < out.scopes.len()
        implies scope_ok(#[trigger] out.scopes[i], out.heap.len() as int) by {
        if i < st.scopes.len() {
            assert(out.scopes[i] == st.scopes[i]);
        }
    }
}

/// Dropping the innermost frame preserves well-formedness.
pub proof fn lemma_pop_scope_ok(st: MState)
    requires
        state_ok(st),
    ensures
        state_ok(pop_scope(st)),
        pop_scope(st).heap == st.heap,
        pop_scope(st).global == st.global,
{
    let out = pop_scope(st);
    assert forall|i: int| 0 <= i < out.scopes.len()
        implies scope_ok(#[trigger] out.scopes[i], out.heap.len() as int) by {
        assert(out.scopes[i] == st.scopes[i]);
    }
}


/// Looking a name up right after declaring it yields the declared value.
pub proof fn lemma_scope_declare_lookup(sc: Seq<MBind>, name: Seq<char>, v: MVal, m: bool)
    ensures
        scope_lookup(scope_declare(sc, name, v, m), name) == Option::Some(v),
    decreases sc.len(),
{
    if sc.len() == 0 {
    } else if sc[0].name == name {
    } else {
        lemma_scope_declare_lookup(sc.drop_first(), name, v, m);
        let out = scope_declare(sc, name, v, m);
        assert(out.drop_first() =~= scope_declare(sc.drop_first(), name, v, m));
    }
}

/// Reading a name back right after binding it yields the bound value.
pub proof fn lemma_declare_then_lookup(st: MState, name: Seq<char>, v: MVal, m: bool)
    requires
        0 <= st.global < st.heap.len(),
    ensures
        lookup_name(declare_name(st, name, v, m), name) == v,
{
    let out = declare_name(st, name, v, m);
    if st.scopes.len() > 0 {
        lemma_scope_declare_lookup(st.scopes.last(), name, v, m);
        assert(out.scopes.last() == scope_declare(st.scopes.last(), name, v, m));
    } else {
        crate::heap::lemma_set_then_lookup(st.heap[st.global].props, name, v);
        assert(out.heap[st.global].props == set_prop(st.heap[st.global].props, name, v));
    }
}

/// The state of an outcome, when it has one.
pub open spec fn out_state(o: Out) -> Option<MState> {
    match o {
        Out::Val(s, _) => Option::Some(s),
        Out::Thrown(s, _) => Option::Some(s),
        Out::Stuck => Option::None,
    }
}

/// What every evaluation step guarantees of its outcome: the global index
/// and the scope depth are kept, the heap only grows, the state stays well
/// formed, and the produced or thrown value is closed.
pub open spec fn out_good(pre: MState, o: Out) -> bool {
    match o {
        Out::Val(s, v) => state_shape(pre, s) && val_ok(v, s.heap.len() as int),
        Out::Thrown(s, t) => state_shape(pre, s) && val_ok(t, s.heap.len() as int),
        Out::Stuck => true,
    }
}

/// The state relation every evaluation step preserves.
pub open spec fn state_shape(pre: MState, s: MState) -> bool {
    &&& s.global == pre.global
    &&& s.scopes.len() == pre.scopes.len()
    &&& pre.heap.len() <= s.heap.len()
    &&& state_ok(s)
}

/// `out_good` for a list outcome.
pub open spec fn list_good(pre: MState, o: ListOut) -> bool {
    match o {
        ListOut::Vals(s, vs) => state_shape(pre, s)
            && forall|j: int| 0 <= j < vs.len() ==> val_ok(#[trigger] vs[j], s.heap.len() as int),
        ListOut::Thrown(s, t) => state_shape(pre, s) && val_ok(t, s.heap.len() as int),
        ListOut::Stuck => true,
    }
}

/// `out_good` for a callee-resolution outcome.
pub open spec fn pair_good(pre: MState, o: PairOut) -> bool {
    match o {
        PairOut::Pair(s, tv, f) => state_shape(pre, s)
            && val_ok(tv, s.heap.len() as int) && val_ok(f, s.heap.len() as int),
        PairOut::Thrown(s, t) => state_shape(pre, s) && val_ok(t, s.heap.len() as int),
        PairOut::Stuck => true,
    }
}

/// Evaluation preserves the state invariants: from a well-formed state,
/// every outcome of the evaluator keeps the global object and the scope
/// depth, only grows the heap, keeps the state well formed, and yields a
/// closed value.
#[verifier::rlimit(100)]
pub proof fn lemma_eval_good(st: MState, e: Expr, fuel: nat)
    requires
        state_ok(st),
    ensures
        out_good(st, eval(st, e, fuel)),
    decreases fuel, e, 4int, 0int,
{
    match e.def {
        ExprDef::ConstExpr(c) => {},
        ExprDef::BlockExpr(es) => {
            if es.len() > 0 {
                lemma_eval_block_good(st, es, 0, fuel);
            }
        },
        ExprDef::LocalExpr(name) => {
            lemma_lookup_name_ok(st, name@);
        },
        ExprDef::GetConstFieldExpr(oe, field) => {
            lemma_eval_good(st, *oe, fuel);
            match eval(st, *oe, fuel) {
                Out::Val(st1, v) => {
                    if fuel > 0 {
                        lemma_eval_member_good(st1, v, field@, (fuel - 1) as nat);
                    }
        },
                _ => {},
            }
        },
        ExprDef::GetFieldExpr(oe, fe) => {
            lemma_eval_good(st, *oe, fuel);
            match eval(st, *oe, fuel) {
                Out::Val(st1, v) => {
                    lemma_eval_good(st1, *fe, fuel);
                    match eval(st1, *fe, fuel) {
                        Out::Val(st2, fv) => {
                            if fuel > 0 {
                                crate::heap::lemma_val_ok_mono(v, st1.heap.len() as int, st2.heap.len() as int);
                                lemma_eval_member_good(st2, v, to_str(fv), (fuel - 1) as nat);
                            }
        },
                        _ => {},
                    }
        },
                _ => {},
            }
        },
        ExprDef::CallExpr(callee, args) => {
            lemma_eval_callee_good(st, *callee, fuel);
            match eval_callee(st, *callee, fuel) {
                PairOut::Pair(st1, tv, f) => {
                    lemma_eval_list_good(st1, args, 0, fuel);
                    match eval_list(st1, args, 0, fuel) {
                        ListOut::Vals(st2, vals) => {
                            if fuel > 0 {
                                lemma_invoke_good(st2, f, vals, (fuel - 1) as nat);
                            }
        },
                        _ => {},
                    }
        },
                _ => {},
            }
        },
        ExprDef::WhileLoopExpr(c, b) => {
            lemma_eval_while_good(st, e, MVal::Undefined, fuel);
        },
        ExprDef::IfExpr(c, t, None) => {
            lemma_eval_good(st, *c, fuel);
            match eval(st, *c, fuel) {
                Out::Val(st1, cv) => {
                    if truthy(cv) {
                        lemma_eval_good(st1, *t, fuel);
                    }
        },
                _ => {},
            }
        },
        ExprDef::IfExpr(c, t, Some(el)) => {
            lemma_eval_good(st, *c, fuel);
            match eval(st, *c, fuel) {
                Out::Val(st1, cv) => {
                    if truthy(cv) {
                        lemma_eval_good(st1, *t, fuel);
                    } else {
                        lemma_eval_good(st1, *el, fuel);
                    }
        },
                _ => {},
            }
        },
        ExprDef::SwitchExpr(disc, cases, default) => {
            lemma_eval_good(st, *disc, fuel);
            match eval(st, *disc, fuel) {
                Out::Val(st1, dv) => {
                    lemma_eval_switch_good(st1, e, 0, dv, fuel);
        },
                _ => {},
            }
        },
        ExprDef::ObjectDeclExpr(props) => {
            let idx = st.heap.len() as int;
            let st1 = MState { heap: st.heap.push(blank_obj(MVal::Null)), ..st };
            lemma_state_push_obj(st, blank_obj(MVal::Null));
            lemma_eval_props_good(st1, props, 0, idx, fuel);
        },
        ExprDef::ArrayDeclExpr(es) => {
            if es.len() <= i32::MAX {
                let idx = st.heap.len() as int;
                let st1 = MState { heap: st.heap.push(blank_obj(MVal::Null)), ..st };
                lemma_state_push_obj(st, blank_obj(MVal::Null));
                lemma_eval_arr_good(st1, es, 0, idx, fuel);
                match eval_arr(st1, es, 0, idx, fuel) {
                    Out::Val(st2, _) => {
                        let proto = get_field_m(
                            st2.heap,
                            lookup_name(st2, "Array"@),
                            "prototype"@,
                            st2.heap.len() as nat,
                        );
                        crate::heap::lemma_get_field_ok(st2.heap, lookup_name(st2, "Array"@), "prototype"@, st2.heap.len() as nat);
                        lemma_state_set_field(st2, MVal::Obj(idx), "__proto__"@, proto);
                        let st3 = MState { heap: set_field_m(st2.heap, MVal::Obj(idx), "__proto__"@, proto), ..st2 };
                        lemma_state_set_field(st3, MVal::Obj(idx), "length"@, MVal::Int(es.len() as int));
        },
                    _ => {},
                }
            }
        },
        ExprDef::FunctionDeclExpr(name, params, body) => {
            let idx = st.heap.len() as int;
            lemma_state_push_obj(st, fun_obj(params, body));
            let st1 = MState { heap: st.heap.push(fun_obj(params, body)), ..st };
            match name {
                Option::Some(n) => {
                    lemma_declare_name_ok(st1, n@, MVal::Fun(idx), true);
        },
                Option::None => {},
            }
        },
        ExprDef::ArrowFunctionDeclExpr(params, body) => {
            lemma_state_push_obj(st, fun_obj(params, body));
        },
        ExprDef::BinOpExpr(op, a, b) => {
            lemma_eval_good(st, *a, fuel);
            match eval(st, *a, fuel) {
                Out::Val(st1, va) => {
                    lemma_eval_good(st1, *b, fuel);
        },
                _ => {},
            }
        },
        ExprDef::UnaryOpExpr(op, a) => {
            lemma_eval_good(st, *a, fuel);
            match eval(st, *a, fuel) {
                Out::Val(st1, va) => {
                    crate::coerce::lemma_to_num_range(va);
                },
                _ => {},
            }
        },
        ExprDef::ConstructExpr(callee, args) => {
            lemma_eval_good(st, *callee, fuel);
            match eval(st, *callee, fuel) {
                Out::Val(st1, f) => {
                    lemma_eval_list_good(st1, args, 0, fuel);
                    match eval_list(st1, args, 0, fuel) {
                        ListOut::Vals(st2, vals) => {
                            if fuel > 0 {
                                crate::heap::lemma_val_ok_mono(f, st1.heap.len() as int, st2.heap.len() as int);
                                lemma_construct_good(st2, f, vals, (fuel - 1) as nat);
                            }
        },
                        _ => {},
                    }
        },
                _ => {},
            }
        },
        ExprDef::ReturnExpr(r) => {
            match r {
                Option::Some(v) => {
                    lemma_eval_good(st, *v, fuel);
        },
                Option::None => {},
            }
        },
        ExprDef::ThrowExpr(x) => {
            lemma_eval_good(st, *x, fuel);
        },
        ExprDef::AssignExpr(lhs, rhs) => {
            lemma_eval_good(st, *rhs, fuel);
            match eval(st, *rhs, fuel) {
                Out::Val(st1, v) => {
                    match (*lhs).def {
                        ExprDef::LocalExpr(name) => {
                            lemma_declare_name_ok(st1, name@, v, true);
        },
                        ExprDef::GetConstFieldExpr(oe, field) => {
                            lemma_eval_good(st1, *oe, fuel);
                            match eval(st1, *oe, fuel) {
                                Out::Val(st2, ov) => {
                                    crate::heap::lemma_val_ok_mono(v, st1.heap.len() as int, st2.heap.len() as int);
                                    lemma_state_set_field(st2, ov, field@, v);
        },
                                _ => {},
                            }
        },
                        _ => {},
                    }
        },
                _ => {},
            }
        },
        ExprDef::VarDeclExpr(decls) => {
            lemma_eval_decls_good(st, decls, 0, true, fuel);
        },
        ExprDef::LetDeclExpr(decls) => {
            lemma_eval_decls_good(st, decls, 0, true, fuel);
        },
        ExprDef::ConstDeclExpr(decls) => {
            lemma_eval_decls_good(st, decls, 0, false, fuel);
        },
        ExprDef::TypeOfExpr(x) => {
            lemma_eval_good(st, *x, fuel);
        },
    }
}

proof fn lemma_eval_member_good(st: MState, v: MVal, key: Seq<char>, fuel: nat)
    requires
        state_ok(st),
        val_ok(v, st.heap.len() as int),
    ensures
        out_good(st, eval_member(st, v, key, fuel)),
    decreases fuel, v, 2int, 0int,
{
    if is_boxable(v) {
        lemma_box_good(st, v, fuel);
        match box_val(st, v, fuel) {
            Out::Val(st1, inst) => {
                crate::heap::lemma_get_field_ok(st1.heap, inst, key, st1.heap.len() as nat);
            },
            _ => {},
        }
    } else {
        crate::heap::lemma_get_field_ok(st.heap, v, key, st.heap.len() as nat);
    }
}

proof fn lemma_eval_callee_good(st: MState, callee: Expr, fuel: nat)
    requires
        state_ok(st),
    ensures
        pair_good(st, eval_callee(st, callee, fuel)),
    decreases fuel, callee, 5int, 0int,
{
    match callee.def {
        ExprDef::GetConstFieldExpr(oe, field) => {
            lemma_eval_good(st, *oe, fuel);
            match eval(st, *oe, fuel) {
                Out::Val(st1, v) => {
                    if fuel > 0 {
                        lemma_resolve_good(st1, v, field@, (fuel - 1) as nat);
                    }
                },
                _ => {},
            }
        },
        ExprDef::GetFieldExpr(oe, fe) => {
            lemma_eval_good(st, *oe, fuel);
            match eval(st, *oe, fuel) {
                Out::Val(st1, v) => {
                    lemma_eval_good(st1, *fe, fuel);
                    match eval(st1, *fe, fuel) {
                        Out::Val(st2, fv) => {
                            if fuel > 0 {
                                crate::heap::lemma_val_ok_mono(v, st1.heap.len() as int, st2.heap.len() as int);
                                lemma_resolve_good(st2, v, to_str(fv), (fuel - 1) as nat);
                            }
                        },
                        _ => {},
                    }
                },
                _ => {},
            }
        },
        _ => {
            lemma_eval_good(st, callee, fuel);
        },
    }
}

proof fn lemma_resolve_good(st: MState, v: MVal, key: Seq<char>, fuel: nat)
    requires
        state_ok(st),
        val_ok(v, st.heap.len() as int),
    ensures
        pair_good(st, resolve_receiver(st, v, key, fuel)),
    decreases fuel, v, 2int, 1int,
{
    if is_boxable(v) {
        lemma_box_good(st, v, fuel);
        match box_val(st, v, fuel) {
            Out::Val(st1, inst) => {
                crate::heap::lemma_get_field_ok(st1.heap, inst, key, st1.heap.len() as nat);
            },
            _ => {},
        }
    } else {
        crate::heap::lemma_get_field_ok(st.heap, v, key, st.heap.len() as nat);
    }
}

proof fn lemma_eval_block_good(st: MState, es: Vec<Expr>, i: int, fuel: nat)
    requires
        state_ok(st),
    ensures
        out_good(st, eval_block(st, es, i, fuel)),
    decreases fuel, es, 0int, es.len() - i,
{
    if 0 <= i < es.len() {
        lemma_eval_good(st, es[i], fuel);
        match eval(st, es[i], fuel) {
            Out::Val(st1, v) => {
                if i + 1 < es.len() {
                    lemma_eval_block_good(st1, es, i + 1, fuel);
                }
            },
            _ => {},
        }
    }
}

proof fn lemma_eval_list_good(st: MState, es: Vec<Expr>, i: int, fuel: nat)
    requires
        state_ok(st),
    ensures
        list_good(st, eval_list(st, es, i, fuel)),
    decreases fuel, es, 0int, es.len() - i,
{
    if 0 <= i < es.len() {
        lemma_eval_good(st, es[i], fuel);
        match eval(st, es[i], fuel) {
            Out::Val(st1, v) => {
                lemma_eval_list_good(st1, es, i + 1, fuel);
                match eval_list(st1, es, i + 1, fuel) {
                    ListOut::Vals(st2, rest) => {
                        crate::heap::lemma_val_ok_mono(v, st1.heap.len() as int, st2.heap.len() as int);
                        assert forall|j: int| 0 <= j < (seq![v] + rest).len()
                            implies val_ok(#[trigger] (seq![v] + rest)[j], st2.heap.len() as int) by {
                            if j > 0 {
                                assert((seq![v] + rest)[j] == rest[j - 1]);
                            }
                        }
                    },
                    _ => {},
                }
            },
            _ => {},
        }
    }
}

pub proof fn lemma_eval_props_good(st: MState, props: Vec<(String, Expr)>, i: int, idx: int, fuel: nat)
    requires
        state_ok(st),
    ensures
        out_good(st, eval_props(st, props, i, idx, fuel)),
    decreases fuel, props, 0int, props.len() - i,
{
    if 0 <= i < props.len() {
        lemma_eval_good(st, props[i].1, fuel);
        match eval(st, props[i].1, fuel) {
            Out::Val(st1, v) => {
                lemma_state_set_field(st1, MVal::Obj(idx), props@[i].0@, v);
                lemma_eval_props_good(
                    MState { heap: set_field_m(st1.heap, MVal::Obj(idx), props@[i].0@, v), ..st1 },
                    props,
                    i + 1,
                    idx,
                    fuel,
                );
            },
            _ => {},
        }
    }
}

proof fn lemma_eval_arr_good(st: MState, es: Vec<Expr>, i: int, idx: int, fuel: nat)
    requires
        state_ok(st),
    ensures
        out_good(st, eval_arr(st, es, i, idx, fuel)),
    decreases fuel, es, 1int, es.len() - i,
{
    if 0 <= i < es.len() {
        lemma_eval_good(st, es[i], fuel);
        match eval(st, es[i], fuel) {
            Out::Val(st1, v) => {
                lemma_state_set_field(st1, MVal::Obj(idx), int_str(i), v);
                lemma_eval_arr_good(
                    MState { heap: set_field_m(st1.heap, MVal::Obj(idx), int_str(i), v), ..st1 },
                    es,
                    i + 1,
                    idx,
                    fuel,
                );
            },
            _ => {},
        }
    }
}

proof fn lemma_eval_decls_good(st: MState, decls: Vec<(String, Option<Expr>)>, i: int, m: bool, fuel: nat)
    requires
        state_ok(st),
    ensures
        out_good(st, eval_decls(st, decls, i, m, fuel)),
    decreases fuel, decls, 0int, decls.len() - i,
{
    if 0 <= i < decls.len() {
        match decls[i].1 {
            Option::Some(e) => {
                lemma_eval_good(st, e, fuel);
                match eval(st, e, fuel) {
                    Out::Val(st1, v) => {
                        lemma_declare_name_ok(st1, decls@[i].0@, v, m);
                        lemma_eval_decls_good(declare_name(st1, decls@[i].0@, v, m), decls, i + 1, m, fuel);
                    },
                    _ => {},
                }
            },
            Option::None => {
                lemma_declare_name_ok(st, decls@[i].0@, MVal::Null, m);
                lemma_eval_decls_good(declare_name(st, decls@[i].0@, MVal::Null, m), decls, i + 1, m, fuel);
            },
        }
    }
}

proof fn lemma_eval_switch_good(st: MState, e: Expr, i: int, dv: MVal, fuel: nat)
    requires
        state_ok(st),
    ensures
        out_good(st, eval_switch(st, e, i, dv, fuel)),
    decreases fuel, e, 2int, switch_cases(e).len() - i,
{
    let cases = switch_cases(e);
    if i < 0 || i >= cases.len() {
        match e.def {
            ExprDef::SwitchExpr(_, _, Option::Some(d)) => {
                lemma_eval_good(st, *d, fuel);
            },
            _ => {},
        }
    } else {
        lemma_eval_good(st, cases[i].0, fuel);
        match eval(st, cases[i].0, fuel) {
            Out::Val(st1, cv) => {
                if val_eq(dv, cv) {
                    if cases[i].1.len() > 0 {
                        lemma_eval_block_good(st1, cases[i].1, 0, fuel);
                    }
                } else {
                    lemma_eval_switch_good(st1, e, i + 1, dv, fuel);
                }
            },
            _ => {},
        }
    }
}

proof fn lemma_eval_while_good(st: MState, e: Expr, acc: MVal, fuel: nat)
    requires
        state_ok(st),
        val_ok(acc, st.heap.len() as int),
    ensures
        out_good(st, eval_while(st, e, acc, fuel)),
    decreases fuel, e, 3int, 0int,
{
    match e.def {
        ExprDef::WhileLoopExpr(c, b) => {
            lemma_eval_good(st, *c, fuel);
            match eval(st, *c, fuel) {
                Out::Val(st1, cv) => {
                    if !truthy(cv) {
                        crate::heap::lemma_val_ok_mono(acc, st.heap.len() as int, st1.heap.len() as int);
                    } else {
                        lemma_eval_good(st1, *b, fuel);
                        match eval(st1, *b, fuel) {
                            Out::Val(st2, bv) => {
                                if fuel > 0 {
                                    lemma_eval_while_good(st2, e, bv, (fuel - 1) as nat);
                                }
                            },
                            _ => {},
                        }
                    }
                },
                _ => {},
            }
        },
        _ => {},
    }
}

proof fn lemma_construct_good(st: MState, f: MVal, vals: Seq<MVal>, fuel: nat)
    requires
        state_ok(st),
        val_ok(f, st.heap.len() as int),
        forall|j: int| 0 <= j < vals.len() ==> val_ok(#[trigger] vals[j], st.heap.len() as int),
    ensures
        out_good(st, construct_val(st, f, vals, fuel)),
    decreases fuel, f, 0int, 1int,
{
    let proto = get_field_m(st.heap, f, "prototype"@, st.heap.len() as nat);
    let idx = st.heap.len() as int;
    crate::heap::lemma_get_field_ok(st.heap, f, "prototype"@, st.heap.len() as nat);
    crate::heap::lemma_val_ok_mono(proto, st.heap.len() as int, st.heap.len() + 1 as int);
    lemma_state_push_obj(st, blank_obj(proto));
    let st1 = construct_alloc(st, f);
    assert forall|j: int| 0 <= j < vals.len()
        implies val_ok(#[trigger] vals[j], st1.heap.len() as int) by {
        crate::heap::lemma_val_ok_mono(vals[j], st.heap.len() as int, st1.heap.len() as int);
    }
    match f {
        MVal::Fun(fi) => {
            if 0 <= fi < st1.heap.len() {
                match st1.heap[fi].call {
                    Option::Some(MCall::Regular(params, body)) => {
                        if vals.len() >= params.len() && fuel > 0 {
                            let frame0 = scope_declare(Seq::empty(), "this"@, MVal::Obj(idx), true);
                            lemma_scope_declare_ok(Seq::empty(), "this"@, MVal::Obj(idx), true, st1.heap.len() as int);
                            lemma_regular_entry_good(st1, f, frame0, params, vals, body, fuel);
                        }
                    },
                    _ => {},
                }
            }
        },
        _ => {},
    }
}

proof fn lemma_invoke_good(st: MState, f: MVal, vals: Seq<MVal>, fuel: nat)
    requires
        state_ok(st),
        forall|j: int| 0 <= j < vals.len() ==> val_ok(#[trigger] vals[j], st.heap.len() as int),
    ensures
        out_good(st, invoke_val(st, f, vals, fuel)),
    decreases fuel, f, 0int, 2int,
{
    match f {
        MVal::Fun(fi) => {
            if 0 <= fi < st.heap.len() {
                match st.heap[fi].call {
                    Option::Some(MCall::Regular(params, body)) => {
                        if vals.len() >= params.len() && fuel > 0 {
                            lemma_regular_entry_good(st, f, Seq::empty(), params, vals, body, fuel);
                        }
                    },
                    _ => {},
                }
            }
        },
        _ => {},
    }
}

proof fn lemma_regular_entry_good(st: MState, f: MVal, frame0: Seq<MBind>, params: Seq<Seq<char>>, vals: Seq<MVal>, body: Expr, fuel: nat)
    requires
        state_ok(st),
        fuel > 0,
        vals.len() >= params.len(),
        scope_ok(frame0, st.heap.len() as int),
        forall|j: int| 0 <= j < vals.len() ==> val_ok(#[trigger] vals[j], st.heap.len() as int),
    ensures
        ({
            let st1 = push_scope(st, bind_frame(frame0, params, vals, 0));
            match eval(st1, body, (fuel - 1) as nat) {
                Out::Val(st2, v) => state_shape(st, pop_scope(st2)) && val_ok(v, pop_scope(st2).heap.len() as int),
                Out::Thrown(st2, t) => state_shape(st, pop_scope(st2)) && val_ok(t, pop_scope(st2).heap.len() as int),
                Out::Stuck => true,
            }
        }),
    decreases fuel, f, 0int, 0int,
{
    lemma_bind_frame_ok(frame0, params, vals, 0, st.heap.len() as int);
    lemma_push_scope_ok(st, bind_frame(frame0, params, vals, 0));
    let st1 = push_scope(st, bind_frame(frame0, params, vals, 0));
    lemma_eval_good(st1, body, (fuel - 1) as nat);
    match eval(st1, body, (fuel - 1) as nat) {
        Out::Val(st2, v) => {
            lemma_pop_scope_ok(st2);
        },
        Out::Thrown(st2, t) => {
            lemma_pop_scope_ok(st2);
        },
        Out::Stuck => {},
    }
}

proof fn lemma_box_good(st: MState, v: MVal, fuel: nat)
    requires
        state_ok(st),
        val_ok(v, st.heap.len() as int),
    ensures
        out_good(st, box_val(st, v, fuel)),
    decreases fuel, v, 1int, 0int,
{
    if is_boxable(v) && fuel > 0 {
        let name = match v {
            MVal::Bool(_) => "Boolean"@,
            MVal::Num(_) => "Number"@,
            MVal::Int(_) => "Number"@,
            _ => "String"@,
        };
        let ctor = get_field_m(st.heap, MVal::Obj(st.global), name, st.heap.len() as nat);
        crate::heap::lemma_get_field_ok(st.heap, MVal::Obj(st.global), name, st.heap.len() as nat);
        assert forall|j: int| 0 <= j < seq![v].len()
            implies val_ok(#[trigger] seq![v][j], st.heap.len() as int) by {
            assert(seq![v][j] == v);
        }
        lemma_construct_good(st, ctor, seq![v], (fuel - 1) as nat);
    }
}

} // verus!
