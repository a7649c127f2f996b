//! The expression tree that the evaluator consumes.
//!
//! The tree is produced elsewhere (by a parser) and is immutable input here:
//! the evaluator reads it and never changes it.  Function declarations share
//! their body subtree through `Rc`, which keeps the tree a plain value.

use vstd::prelude::*;
use std::rc::Rc;

verus! {

/// A literal constant.
#[derive(Debug, Clone)]
pub enum Const {
    /// The `null` literal.
    Null,
    /// The `undefined` literal.
    Undefined,
    /// A numeric literal of the general (double) kind, modelled exactly
    /// over 64-bit integers.
    Num(i64),
    /// An integer literal.
    Int(i32),
    /// A string literal.
    Str(String),
    /// A boolean literal.
    Bool(bool),
    /// A regular-expression literal: body and two flag markers.  The
    /// evaluator treats it as an unimplemented placeholder.
    RegExp(String, bool, bool),
}

/// A unary operator.
#[derive(Debug, Clone)]
pub enum UnaryOp {
    /// Numeric negation.
    Minus,
    /// Numeric coercion without negation.
    Plus,
    /// Boolean complement of truthiness.
    Not,
}

/// An arithmetic operator.
#[derive(Debug, Clone)]
pub enum NumOp {
    Add,
    Sub,
    Mul,
    Div,
    Mod,
}

/// A bitwise operator.  Operands are coerced to 32-bit integers first.
#[derive(Debug, Clone)]
pub enum BitOp {
    And,
    Or,
    Xor,
    Shl,
    Shr,
}

/// A comparison operator.
#[derive(Debug, Clone)]
pub enum CompOp {
    Equal,
    NotEqual,
    StrictEqual,
    StrictNotEqual,
    GreaterThan,
    GreaterThanOrEqual,
    LessThan,
    LessThanOrEqual,
}

/// A logical operator.  Both operands are coerced to booleans eagerly.
#[derive(Debug, Clone)]
pub enum LogOp {
    And,
    Or,
}

/// A binary operator, grouped by kind.
#[derive(Debug, Clone)]
pub enum BinOp {
    Num(NumOp),
    Bit(BitOp),
    Comp(CompOp),
    Log(LogOp),
}

/// The shape of an expression node.
#[derive(Debug)]
pub enum ExprDef {
    /// A literal constant.
    ConstExpr(Const),
    /// A sequence of expressions; the value of the block is the value of the
    /// last one, `null` for an empty block.
    BlockExpr(Vec<Expr>),
    /// A name resolved through the environment.
    LocalExpr(String),
    /// Member access with a constant key: `obj.field`.
    GetConstFieldExpr(Box<Expr>, String),
    /// Member access with a computed key: `obj[field]`.
    GetFieldExpr(Box<Expr>, Box<Expr>),
    /// A call: callee and positional arguments.
    CallExpr(Box<Expr>, Vec<Expr>),
    /// A while loop: condition and body.
    WhileLoopExpr(Box<Expr>, Box<Expr>),
    /// A conditional: condition, then-branch and optional else-branch.
    IfExpr(Box<Expr>, Box<Expr>, Option<Box<Expr>>),
    /// A switch: discriminant, cases (each a guard expression and a block)
    /// and an optional default expression.
    SwitchExpr(Box<Expr>, Vec<(Expr, Vec<Expr>)>, Option<Box<Expr>>),
    /// An object literal: keys and value expressions in declared order.
    ObjectDeclExpr(Vec<(String, Expr)>),
    /// An array literal: elements in declared order.
    ArrayDeclExpr(Vec<Expr>),
    /// A function declaration: optional name, parameter names, body.
    FunctionDeclExpr(Option<String>, Rc<Vec<String>>, Rc<Expr>),
    /// An arrow function: parameter names and body, never a name binding.
    ArrowFunctionDeclExpr(Rc<Vec<String>>, Rc<Expr>),
    /// A binary operation.
    BinOpExpr(BinOp, Box<Expr>, Box<Expr>),
    /// A unary operation.
    UnaryOpExpr(UnaryOp, Box<Expr>),
    /// A construction: `new callee(args)`.
    ConstructExpr(Box<Expr>, Vec<Expr>),
    /// A return: yields its inner expression, `undefined` when empty.
    ReturnExpr(Option<Box<Expr>>),
    /// A throw: surfaces its operand as a failure.
    ThrowExpr(Box<Expr>),
    /// An assignment: target and value.
    AssignExpr(Box<Expr>, Box<Expr>),
    /// A `var` declaration list: names with optional initializers.
    VarDeclExpr(Vec<(String, Option<Expr>)>),
    /// A `let` declaration list; behaves exactly like `var` here.
    LetDeclExpr(Vec<(String, Option<Expr>)>),
    /// A `const` declaration list: bindings are created immutable.
    ConstDeclExpr(Vec<(String, Option<Expr>)>),
    /// The `typeof` operator.
    TypeOfExpr(Box<Expr>),
}

/// An expression node.
#[derive(Debug)]
pub struct Expr {
    /// The shape of this node.
    pub def: ExprDef,
}

} // verus!
