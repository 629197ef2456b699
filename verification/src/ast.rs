//! The abstract syntax the parser front end produces: programs, statements,
//! and expressions.

use vstd::prelude::*;

verus! {

use std::rc::Rc;

use crate::text::{bool_text, int_text};

/// An ordered sequence of statements, executed first to last.
#[derive(Debug)]
pub struct Program {
    pub stmts: Vec<Stmt>,
}

/// A top-level statement, or a local definition inside a function literal.
#[verifier::ext_equal]
#[derive(Debug)]
pub enum Stmt {
    ExpStmt { exp: Exp },
    PrintStmt { print_type: PrintType, exp: Exp },
    DefStmt { id: Exp, exp: Exp },
}

/// The kind a `print` statement coerces its value to.
#[derive(Debug, Clone, Copy, PartialEq, Eq, Structural)]
pub enum PrintType {
    PrintNum,
    PrintBool,
}

/// An expression.
#[verifier::ext_equal]
#[derive(Debug)]
pub enum Exp {
    Bool(bool),
    Num(i64),
    Id(String),
    NumExp { op: NumOp, args: Vec<Box<Exp>> },
    LogicalExp { op: LogicalOp, args: Vec<Box<Exp>> },
    FunExp { params: Vec<Exp>, def_stmts: Vec<Stmt>, body: Rc<Exp> },
    FunCall { func: Box<Exp>, args: Vec<Box<Exp>> },
    IfExp { cond_exp: Box<Exp>, then_exp: Box<Exp>, else_exp: Box<Exp> },
}

/// An arithmetic or comparison operator over integer arguments.
#[derive(Debug, Clone, Copy, PartialEq, Eq, Structural)]
pub enum NumOp {
    Plus,
    Minus,
    Multiply,
    Divide,
    Modulus,
    Greater,
    Smaller,
    Equal,
}

/// A logical operator over boolean arguments.
#[derive(Debug, Clone, Copy, PartialEq, Eq, Structural)]
pub enum LogicalOp {
    And,
    Or,
    Not,
}

impl Exp {
    /// Whether this expression is a literal or an identifier, the forms
    /// that have a textual name of their own.
    pub open spec fn is_atomic(self) -> bool {
        match self {
            Exp::Bool(_) => true,
            Exp::Num(_) => true,
            Exp::Id(_) => true,
            _ => false,
        }
    }
}

/// The textual name of a literal or an identifier; empty for other forms.
pub open spec fn exp_text(e: Exp) -> Seq<char> {
    match e {
        Exp::Bool(b) => bool_text(b),
        Exp::Num(n) => int_text(n as int),
        Exp::Id(s) => s@,
        _ => Seq::empty(),
    }
}

/// A well-formed expression: every binding position (a function literal's
/// parameters, a definition's name) is a literal or an identifier.  The
/// parser only produces well-formed nodes; evaluation is specified on them.
pub open spec fn exp_wf(e: Exp) -> bool
    decreases e,
{
    match e {
        Exp::Bool(_) => true,
        Exp::Num(_) => true,
        Exp::Id(_) => true,
        Exp::NumExp { op, args } => forall|i: int|
            0 <= i < args@.len() ==> exp_wf(#[trigger] *args@[i]),
        Exp::LogicalExp { op, args } => forall|i: int|
            0 <= i < args@.len() ==> exp_wf(#[trigger] *args@[i]),
        Exp::FunExp { params, def_stmts, body } => {
            &&& forall|i: int| 0 <= i < params@.len() ==> (#[trigger] params@[i]).is_atomic()
            &&& forall|i: int| 0 <= i < def_stmts@.len() ==> stmt_wf(#[trigger] def_stmts@[i])
            &&& exp_wf(*body)
        },
        Exp::FunCall { func, args } => {
            &&& exp_wf(*func)
            &&& forall|i: int| 0 <= i < args@.len() ==> exp_wf(#[trigger] *args@[i])
        },
        Exp::IfExp { cond_exp, then_exp, else_exp } => {
            &&& exp_wf(*cond_exp)
            &&& exp_wf(*then_exp)
            &&& exp_wf(*else_exp)
        },
    }
}

/// A well-formed statement: see `exp_wf`.
pub open spec fn stmt_wf(s: Stmt) -> bool
    decreases s,
{
    match s {
        Stmt::ExpStmt { exp } => exp_wf(exp),
        Stmt::PrintStmt { print_type, exp } => exp_wf(exp),
        Stmt::DefStmt { id, exp } => id.is_atomic() && exp_wf(exp),
    }
}

/// A well-formed program: every statement is well-formed.
pub open spec fn program_wf(p: Program) -> bool {
    forall|i: int| 0 <= i < p.stmts@.len() ==> stmt_wf(#[trigger] p.stmts@[i])
}

impl Exp {
    /// The textual name of a literal or an identifier.
    pub fn to_string(&self) -> (r: String)
        requires
            self.is_atomic(),
        ensures
            r@ == exp_text(*self),
    {
        match self {
            Exp::Bool(b) => crate::text::bool_string(*b),
            Exp::Num(n) => {
                let mut s = String::new();
                crate::text::push_i64(*n, &mut s);
                s
            },
            Exp::Id(s) => s.clone(),
            _ => vstd::pervasive::unreached(),
        }
    }
}

} // verus!
