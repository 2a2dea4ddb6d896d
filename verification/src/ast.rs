use vstd::prelude::*;
use std::rc::Rc;

verus! {

/// Arithmetic operators of the language.
#[derive(Clone, Copy, PartialEq, Eq, Structural, Debug)]
pub enum CalcOp {
    Plus,
    Minus,
    Times,
    Divide,
    Modulus,
    Power,
}

/// Comparison operators of the language.
#[derive(Clone, Copy, PartialEq, Eq, Structural, Debug)]
pub enum ComparisonOp {
    Equal,
    BiggerThan,
    SmallerThan,
    EbiggerThan,
    EsmallerThan,
}

/// Logical connectives; both operands are always evaluated.
#[derive(Clone, Copy, PartialEq, Eq, Structural, Debug)]
pub enum LogicalOp {
    And,
    Or,
}

/// Which function a call node invokes: one of the two built-ins, or a
/// user-defined function looked up in the environment.
#[derive(Clone, Copy, PartialEq, Eq, Structural, Debug)]
pub enum FnKind {
    Print,
    Println,
    UserDefined,
}

/// The declaration kind an assignment carries, and the kind recorded on a
/// bound variable: a fresh `let` declaration, a reassignment of an existing
/// binding, or a constant declaration.
#[derive(Clone, Copy, PartialEq, Eq, Structural, Debug)]
pub enum VarType {
    Constant,
    VariableFirstAssigned,
    VariableReAssigned,
}

/// The binding kind of an environment key: variable bindings and function
/// bindings are kept apart, so a variable and a function may share a name.
#[derive(Clone, Copy, PartialEq, Eq, Structural, Debug, Hash)]
pub enum FunctionOrValueType {
    Value,
    Function,
}

/// One node of the abstract syntax tree handed in by a parser. The
/// evaluator never mutates a node; a function definition's pieces are held
/// behind `Rc` so that defining a function shares them instead of copying.
#[derive(Debug, PartialEq)]
pub enum AstNode {
    /// A numeric literal. Numbers are exact signed 64-bit integers.
    Number(i64),
    /// A binary arithmetic expression.
    Calc(CalcOp, Box<AstNode>, Box<AstNode>),
    /// A reference to a bound name.
    Ident(String),
    /// An assignment: declaration kind, target name, right-hand expression.
    Assign(VarType, String, Box<AstNode>),
    /// A call: built-in kind or user function, callee name, argument
    /// expressions.
    FunctionCall(FnKind, String, Vec<AstNode>),
    /// A function definition: name, parameter-name nodes, body statements,
    /// return expression.
    FunctionDefine(String, Rc<Vec<AstNode>>, Rc<Vec<AstNode>>, Rc<AstNode>),
    /// A named argument binding: name and bound expression.
    Argument(String, Box<AstNode>),
    /// A string literal.
    Str(String),
    /// String interpolation: the parts are evaluated in order, stringified
    /// and concatenated.
    Strs(Vec<AstNode>),
    /// A logical AND/OR over two sub-expressions.
    Condition(LogicalOp, Box<AstNode>, Box<AstNode>),
    /// A comparison over two sub-expressions.
    Comparison(Box<AstNode>, ComparisonOp, Box<AstNode>),
    /// A conditional: primary condition, primary body, else-if clauses
    /// (each a condition list and a body), else body.
    IF(
        Box<AstNode>,
        Vec<AstNode>,
        Vec<(Vec<AstNode>, Vec<AstNode>)>,
        Vec<AstNode>,
    ),
    /// A boolean literal.
    Bool(bool),
    /// A numeric range loop: inclusive flag, declaration kind of the loop
    /// variable, its name, start and end expressions, body statements.
    ForLoop(bool, VarType, String, Box<AstNode>, Box<AstNode>, Vec<AstNode>),
    /// The null literal.
    Null,
}

} // verus!
