//! The laws of the evaluator, stated and proved once and for all against
//! the specification-level interpreter of [`crate::semantics`], to which
//! the executable interpreter is proved equivalent.

use vstd::prelude::*;
use crate::ast::BinOp;
use crate::ast::CompOp;
use crate::ast::Const;
use crate::ast::Expr;
use crate::ast::ExprDef;
use crate::semantics::MState;
use crate::semantics::Out;
use crate::semantics::const_val;
use crate::semantics::declare_name;
use crate::semantics::eval;
use crate::semantics::eval_block;
use crate::semantics::eval_props;
use crate::semantics::lemma_declare_then_lookup;
use crate::semantics::lemma_eval_good;
use crate::semantics::lemma_eval_props_good;
use crate::semantics::state_ok;
use crate::semantics::construct_alloc;
use crate::semantics::construct_frame;
use crate::semantics::construct_val;
use crate::semantics::pop_scope;
use crate::semantics::push_scope;
use crate::semantics::scope_declare;
use crate::semantics::MBind;
use crate::heap::MCall;
use crate::value::MVal;

verus! {

/// Every literal constant evaluates, in any state and with any fuel, to
/// the value its meaning gives — number, string, boolean, null and
/// undefined each to their own kind — and leaves the state untouched.
pub proof fn law_literal(st: MState, e: Expr, c: Const, fuel: nat)
    requires
        e.def matches ExprDef::ConstExpr(d) && d == c,
    ensures
        eval(st, e, fuel) == Out::Val(st, const_val(c)),
{
}

/// Whether the first `i` expressions of `es` all evaluate to values when
/// run in order from `st`.
pub open spec fn prefix_runs(st: MState, es: Seq<Expr>, i: int, fuel: nat) -> bool
    decreases i,
{
    if i <= 0 {
        true
    } else {
        prefix_runs(st, es, i - 1, fuel)
            && eval(state_after_prefix(st, es, i - 1, fuel), es[i - 1], fuel) is Val
    }
}

/// The state after the first `i` expressions of `es`, meaningful when
/// `prefix_runs` holds of them.
pub open spec fn state_after_prefix(st: MState, es: Seq<Expr>, i: int, fuel: nat) -> MState
    decreases i,
{
    if i <= 0 {
        st
    } else {
        match eval(state_after_prefix(st, es, i - 1, fuel), es[i - 1], fuel) {
            Out::Val(s, _) => s,
            Out::Thrown(s, _) => s,
            Out::Stuck => st,
        }
    }
}

proof fn lemma_block_chain(st: MState, es: Vec<Expr>, i: int, fuel: nat)
    requires
        0 <= i < es.len(),
        prefix_runs(st, es@, i, fuel),
    ensures
        eval_block(st, es, 0, fuel) == eval_block(state_after_prefix(st, es@, i, fuel), es, i, fuel),
    decreases i,
{
    if i > 0 {
        lemma_block_chain(st, es, i - 1, fuel);
    }
}

/// Block evaluation is the last expression's evaluation when every prior
/// expression succeeds: the block's outcome — value, failure and state
/// alike — is exactly that of the last expression, run from the state the
/// prefix produced.
pub proof fn law_block_last(st: MState, e: Expr, fuel: nat)
    requires
        e.def matches ExprDef::BlockExpr(es) && es@.len() > 0
            && prefix_runs(st, es@, es@.len() - 1, fuel),
    ensures
        e.def matches ExprDef::BlockExpr(es) ==> eval(st, e, fuel) == eval(
            state_after_prefix(st, es@, es@.len() - 1, fuel),
            es@[es@.len() - 1],
            fuel,
        ),
{
    match e.def {
        ExprDef::BlockExpr(es) => {
            let n = es@.len() as int;
            lemma_block_chain(st, es, n - 1, fuel);
        },
        _ => {},
    }
}

/// A failure short-circuits a block: when the first `k` expressions
/// succeed and the next one throws, the block's outcome is exactly that
/// failure, with the state the failure left behind — the expressions after
/// position `k` contribute nothing.
pub proof fn law_block_short_circuit(st: MState, e: Expr, k: int, fuel: nat)
    requires
        e.def matches ExprDef::BlockExpr(es) && 0 <= k < es@.len()
            && prefix_runs(st, es@, k, fuel)
            && eval(state_after_prefix(st, es@, k, fuel), es@[k], fuel) is Thrown,
    ensures
        e.def matches ExprDef::BlockExpr(es) ==> eval(st, e, fuel) == eval(
            state_after_prefix(st, es@, k, fuel),
            es@[k],
            fuel,
        ),
{
    match e.def {
        ExprDef::BlockExpr(es) => {
            lemma_block_chain(st, es, k, fuel);
        },
        _ => {},
    }
}

/// Assigning a value to a name and then reading that name back yields the
/// assigned value, under the language's equality: the very same value, so
/// primitives compare by content and objects by identity.  The block
/// `[name = rhs, name]` evaluates, whenever `rhs` does, to exactly the
/// value `rhs` produced.
pub proof fn law_assign_then_read(st: MState, e: Expr, name: String, rhs: Expr, fuel: nat)
    requires
        state_ok(st),
        e.def matches ExprDef::BlockExpr(es) && es@.len() == 2
            && (es@[0].def matches ExprDef::AssignExpr(lhs, r)
                && (*lhs).def matches ExprDef::LocalExpr(n1) && n1@ == name@ && *r == rhs)
            && (es@[1].def matches ExprDef::LocalExpr(n2) && n2@ == name@),
        eval(st, rhs, fuel) is Val,
    ensures
        eval(st, e, fuel) matches Out::Val(s2, w)
            && (eval(st, rhs, fuel) matches Out::Val(s1, v) && w == v),
{
    match e.def {
        ExprDef::BlockExpr(es) => {
            match eval(st, rhs, fuel) {
                Out::Val(s1, v) => {
                    lemma_eval_good(st, rhs, fuel);
                    let s2 = declare_name(s1, name@, v, true);
                    assert(eval(st, es[0], fuel) == Out::Val(s2, v));
                    lemma_declare_then_lookup(s1, name@, v, true);
                    assert(eval(s2, es[1], fuel) == Out::Val(s2, v));
                    assert(eval_block(s2, es, 1, fuel) == Out::Val(s2, v));
                    assert(eval_block(st, es, 0, fuel) == Out::Val(s2, v));
                    assert(eval(st, e, fuel) == Out::Val(s2, v));
                },
                _ => {},
            }
        },
        _ => {},
    }
}

/// Two distinct object literals with identical properties compare unequal
/// under both equality forms: each literal allocates a fresh object, the
/// two ever get distinct heap identities, and equality on objects is
/// identity, not structure.
pub proof fn law_object_identity(st: MState, e: Expr, fuel: nat)
    requires
        state_ok(st),
        e.def matches ExprDef::BinOpExpr(op, a, b)
            && (op matches BinOp::Comp(c)
                && (c matches CompOp::Equal || c matches CompOp::StrictEqual))
            && ((*a).def matches ExprDef::ObjectDeclExpr(ps)
                && ((*b).def matches ExprDef::ObjectDeclExpr(qs) && ps@ == qs@)),
    ensures
        eval(st, e, fuel) matches Out::Val(s, v) ==> v == MVal::Bool(false),
{
    match e.def {
        ExprDef::BinOpExpr(op, a, b) => {
            match ((*a).def, (*b).def) {
                (ExprDef::ObjectDeclExpr(ps), ExprDef::ObjectDeclExpr(qs)) => {
                    let idx1 = st.heap.len() as int;
                    let st1 = MState {
                        heap: st.heap.push(crate::semantics::blank_obj(MVal::Null)),
                        ..st
                    };
                    crate::semantics::lemma_state_push_obj(st, crate::semantics::blank_obj(MVal::Null));
                    lemma_eval_props_good(st1, ps, 0, idx1, fuel);
                    match eval_props(st1, ps, 0, idx1, fuel) {
                        Out::Val(st2, _) => {
                            assert(eval(st, *a, fuel) == Out::Val(st2, MVal::Obj(idx1)));
                            assert(st2.heap.len() > idx1);
                            let idx2 = st2.heap.len() as int;
                            let st3 = MState {
                                heap: st2.heap.push(crate::semantics::blank_obj(MVal::Null)),
                                ..st2
                            };
                            crate::semantics::lemma_state_push_obj(st2, crate::semantics::blank_obj(MVal::Null));
                            lemma_eval_props_good(st3, qs, 0, idx2, fuel);
                            match eval_props(st3, qs, 0, idx2, fuel) {
                                Out::Val(st4, _) => {
                                    assert(eval(st2, *b, fuel) == Out::Val(st4, MVal::Obj(idx2)));
                                    assert(MVal::Obj(idx1) != MVal::Obj(idx2));
                                },
                                _ => {},
                            }
                        },
                        _ => {},
                    }
                },
                _ => {},
            }
        },
        _ => {},
    }
}

/// Two numeric literals of equal value compare equal, and of unequal
/// value unequal, under both equality forms; this holds within each
/// numeric kind, which compares by value.
pub proof fn law_number_equality(st: MState, e: Expr, x: int, y: int, fuel: nat)
    requires
        e.def matches ExprDef::BinOpExpr(op, a, b)
            && (op matches BinOp::Comp(c)
                && (c matches CompOp::Equal || c matches CompOp::StrictEqual))
            && (((*a).def matches ExprDef::ConstExpr(ca) && ca matches Const::Int(i1) && i1 == x
                    && ((*b).def matches ExprDef::ConstExpr(cb) && cb matches Const::Int(i2)
                        && i2 == y))
                || ((*a).def matches ExprDef::ConstExpr(ca) && ca matches Const::Num(n1) && n1 == x
                    && ((*b).def matches ExprDef::ConstExpr(cb) && cb matches Const::Num(n2)
                        && n2 == y))),
    ensures
        eval(st, e, fuel) == Out::Val(st, MVal::Bool(x == y)),
{
    match e.def {
        ExprDef::BinOpExpr(op, a, b) => {
            match ((*a).def, (*b).def) {
                (ExprDef::ConstExpr(ca), ExprDef::ConstExpr(cb)) => {
                    assert(eval(st, *a, fuel) == Out::Val(st, const_val(ca)));
                    assert(eval(st, *b, fuel) == Out::Val(st, const_val(cb)));
                    assert(crate::value::val_eq(const_val(ca), const_val(cb)) == (x == y));
                },
                _ => {},
            }
        },
        _ => {},
    }
}

/// `typeof` of a literal constant: the answer is the type string of the
/// literal's value, in the same state; in particular `null` answers
/// `"object"`, and both numeric kinds answer `"number"`.
pub proof fn law_typeof_literal(st: MState, e: Expr, c: Const, fuel: nat)
    requires
        e.def matches ExprDef::TypeOfExpr(x)
            && ((*x).def matches ExprDef::ConstExpr(d) && d == c),
    ensures
        eval(st, e, fuel) == Out::Val(st, MVal::Str(crate::value::type_of(const_val(c)))),
        c matches Const::Null ==> crate::value::type_of(const_val(c)) == "object"@,
        c matches Const::Int(i) ==> crate::value::type_of(const_val(c)) == "number"@,
        c matches Const::Num(n) ==> crate::value::type_of(const_val(c)) == "number"@,
{
    match e.def {
        ExprDef::TypeOfExpr(x) => {
            assert(eval(st, *x, fuel) == Out::Val(st, const_val(c)));
        },
        _ => {},
    }
}

/// `typeof` of an object literal answers `"object"`, just as it does for
/// `null`.
pub proof fn law_typeof_object_literal(st: MState, e: Expr, fuel: nat)
    requires
        state_ok(st),
        e.def matches ExprDef::TypeOfExpr(x) && (*x).def matches ExprDef::ObjectDeclExpr(ps),
    ensures
        eval(st, e, fuel) matches Out::Val(s, v) ==> v == MVal::Str("object"@),
{
    match e.def {
        ExprDef::TypeOfExpr(x) => {
            match (*x).def {
                ExprDef::ObjectDeclExpr(ps) => {
                    let idx1 = st.heap.len() as int;
                    let st1 = MState {
                        heap: st.heap.push(crate::semantics::blank_obj(MVal::Null)),
                        ..st
                    };
                    crate::semantics::lemma_state_push_obj(st, crate::semantics::blank_obj(MVal::Null));
                    lemma_eval_props_good(st1, ps, 0, idx1, fuel);
                    match eval_props(st1, ps, 0, idx1, fuel) {
                        Out::Val(st2, _) => {
                            assert(eval(st, *x, fuel) == Out::Val(st2, MVal::Obj(idx1)));
                            assert(eval(st, e, fuel) == Out::Val(st2, MVal::Str("object"@)));
                        },
                        _ => {},
                    }
                },
                _ => {},
            }
        },
        _ => {},
    }
}


/// Construction supplies the fresh instance to its callable's body as
/// `this`: a user-defined constructor without parameters whose body is
/// `this` yields exactly the instance — the object freshly allocated at
/// the old heap's end, whose prototype slot is the constructor's own
/// `prototype` property, through which member lookup delegates.
pub proof fn law_construction_supplies_instance(st: MState, f: MVal, vals: Seq<MVal>, fuel: nat)
    requires
        state_ok(st),
        fuel > 0,
        f matches MVal::Fun(fi) && 0 <= fi < st.heap.len()
            && (st.heap[fi].call matches Option::Some(c)
                && (c matches MCall::Regular(params, body)
                    && params.len() == 0
                    && (body.def matches ExprDef::LocalExpr(n) && n@ == "this"@))),
    ensures
        construct_val(st, f, vals, fuel) == Out::Val(
            construct_alloc(st, f),
            MVal::Obj(st.heap.len() as int),
        ),
{
    let idx = st.heap.len() as int;
    let st1 = construct_alloc(st, f);
    match f {
        MVal::Fun(fi) => {
            match st1.heap[fi].call {
                Option::Some(MCall::Regular(params, body)) => {
                    let frame0 = scope_declare(Seq::<MBind>::empty(), "this"@, MVal::Obj(idx), true);
                    assert(construct_frame(idx, params, vals) == frame0);
                    let st2 = push_scope(st1, frame0);
                    assert(frame0 =~= seq![MBind { name: "this"@, val: MVal::Obj(idx), mutable: true }]);
                    assert(crate::semantics::scope_lookup(frame0, "this"@) == Option::Some(MVal::Obj(idx)));
                    assert(crate::semantics::lookup_name(st2, "this"@) == MVal::Obj(idx));
                    assert(eval(st2, body, (fuel - 1) as nat) == Out::Val(st2, MVal::Obj(idx)));
                    assert(pop_scope(st2).scopes =~~= st1.scopes);
                    assert(pop_scope(st2) =~~= st1);
                },
                _ => {},
            }
        },
        _ => {},
    }
}

} // verus!
