use vstd::prelude::*;

verus! {

/// An expression: a literal with its source text, a variable reference, or
/// a call.
pub enum Expr {
    IntLit(String),
    FloatLit(String),
    BoolLit(String),
    /// A string literal as written, quotes and escapes included.
    StrLit(String),
    Var(String),
    Call(FuncCall),
}

/// A call of a function by name, with its argument expressions.
pub struct FuncCall {
    pub name: String,
    pub args: Vec<Expr>,
}

/// One statement of a program.
pub enum Statement {
    /// `name = expr` as a declaration in the innermost scope.
    Declare(String, Expr),
    /// A declaration without a value: binds `Null`.
    DeclareEmpty(String),
    /// Assignment to a name that an enclosing scope already declares.
    Reassign(String, Expr),
    /// A call whose result is dropped.
    Call(FuncCall),
    /// A guard and the body that runs, in a scope of its own, when it is true.
    If(Expr, Vec<Statement>),
    /// Writes the innermost scope's bindings to the diagnostic stream.
    DebugVars,
}

} // verus!
