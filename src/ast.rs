use vstd::prelude::*;

verus! {

/// A half-open range of character offsets in the source text.
#[derive(Clone, Copy, Debug, PartialEq, Eq)]
pub struct Span {
    pub start: usize,
    pub end: usize,
}

/// The span of a diagnostic that no source position belongs to.
pub open spec fn nowhere() -> Span {
    Span { start: 0, end: 0 }
}

/// A binary operator.
#[derive(Clone, Copy, Debug, PartialEq, Eq)]
pub enum Op {
    Le,
    Add,
    Mult,
    Sub,
    Div,
    Eq,
}

/// A type as written in the source, before resolution.
#[derive(Debug)]
pub enum CustomType {
    Union(Vec<CustomType>),
    Callible(Vec<CustomType>, Box<CustomType>),
    Lone(String),
}

/// A terminal of the syntax tree.
#[derive(Debug)]
pub enum Symbol {
    Identifier(String),
    Data(RawData),
}

/// A literal value as written in the source.
#[derive(Debug)]
pub enum RawData {
    Int(i64),
    /// A floating-point literal, kept as its source text.
    Float(String),
    Str(String),
    Bool(bool),
    Null,
    Func(FunctionLiteral),
}

/// A function literal: parameters with their types, a return type and, unless the
/// function is provided by the runtime, a body.
#[derive(Debug)]
pub struct FunctionLiteral {
    pub generics: Vec<String>,
    pub args: Vec<(String, CustomType)>,
    pub return_type: CustomType,
    pub body: Option<Box<Expression>>,
}

/// A node of the syntax tree handed over by the parser.
#[derive(Debug)]
pub enum Expression {
    Terminal(Symbol, Span),
    Typeof(String, Span),
    Index(Box<Expression>, Box<Expression>, Span),
    TypeDeclaration(String, CustomType, Span),
    /// `extern`, `const`, the name, the declared type and the initialiser.
    InitAssign(bool, bool, String, Option<CustomType>, Box<Expression>, Span),
    Assign(Box<Expression>, Box<Expression>, Span),
    IfElse(Box<Expression>, Box<Expression>, Box<Expression>, Span),
    Loop(Box<Expression>, Box<Expression>, Span),
    Block(Vec<Expression>, Span),
    LessThan(Box<Expression>, Box<Expression>, Span),
    Addition(Box<Expression>, Box<Expression>, Span),
    Multiplication(Box<Expression>, Box<Expression>, Span),
    Subtraction(Box<Expression>, Box<Expression>, Span),
    Division(Box<Expression>, Box<Expression>, Span),
    Equal(Box<Expression>, Box<Expression>, Span),
    FuncCall(String, Vec<Expression>, Span),
}

/// The span of a node.
pub open spec fn span_of(e: Expression) -> Span {
    match e {
        Expression::Terminal(_, s) => s,
        Expression::Typeof(_, s) => s,
        Expression::Index(_, _, s) => s,
        Expression::TypeDeclaration(_, _, s) => s,
        Expression::InitAssign(_, _, _, _, _, s) => s,
        Expression::Assign(_, _, s) => s,
        Expression::IfElse(_, _, _, s) => s,
        Expression::Loop(_, _, s) => s,
        Expression::Block(_, s) => s,
        Expression::LessThan(_, _, s) => s,
        Expression::Addition(_, _, s) => s,
        Expression::Multiplication(_, _, s) => s,
        Expression::Subtraction(_, _, s) => s,
        Expression::Division(_, _, s) => s,
        Expression::Equal(_, _, s) => s,
        Expression::FuncCall(_, _, s) => s,
    }
}

impl Expression {
    /// The span of the node.
    pub fn span(&self) -> (r: Span)
        ensures
            r == span_of(*self),
    {
        match self {
            Expression::Terminal(_, s) => *s,
            Expression::Typeof(_, s) => *s,
            Expression::Index(_, _, s) => *s,
            Expression::TypeDeclaration(_, _, s) => *s,
            Expression::InitAssign(_, _, _, _, _, s) => *s,
            Expression::Assign(_, _, s) => *s,
            Expression::IfElse(_, _, _, s) => *s,
            Expression::Loop(_, _, s) => *s,
            Expression::Block(_, s) => *s,
            Expression::LessThan(_, _, s) => *s,
            Expression::Addition(_, _, s) => *s,
            Expression::Multiplication(_, _, s) => *s,
            Expression::Subtraction(_, _, s) => *s,
            Expression::Division(_, _, s) => *s,
            Expression::Equal(_, _, s) => *s,
            Expression::FuncCall(_, _, s) => *s,
        }
    }
}

} // verus!
