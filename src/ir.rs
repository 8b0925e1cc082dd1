use vstd::prelude::*;
use crate::ast::Op;
use crate::scope::{CompScope, CompVariable, ScopeM, VarM, duplicate_vars, var_views};
use crate::types::{CompType, Ty};

verus! {

broadcast use vstd::std_specs::vec::axiom_vec_index_decreases;

/// A literal value of the typed representation.
#[derive(Debug)]
pub enum CompData {
    Int(i64),
    /// A floating-point literal, kept as its source text.
    Float(String),
    Str(String),
    Bool(bool),
    Null,
    Func(FunctionAst),
}

/// A function value: without a body it is provided by the runtime.
#[derive(Debug)]
pub struct FunctionAst {
    pub generics: Vec<String>,
    pub arguments: Vec<CompVariable>,
    pub return_type: CompType,
    pub body: Option<Box<Program>>,
}

/// A block with the scope of its own declarations.
#[derive(Debug)]
pub struct Program {
    pub scope: CompScope,
    pub body: CompExpression,
}

/// A node of the typed representation.
#[derive(Debug)]
pub enum CompExpression {
    Value(CompData),
    Read(CompVariable),
    Assign(CompVariable, Box<CompExpression>),
    BinOp(Op, Box<CompExpression>, Box<CompExpression>),
    OneOp(Op, Box<CompExpression>),
    Call(CompVariable, Vec<CompExpression>),
    Index(Box<CompExpression>, Box<CompExpression>),
    Typeof(CompVariable),
    List(Vec<CompExpression>),
    Prog(Box<Program>),
    IfElse { cond: Box<CompExpression>, then: Box<CompExpression>, otherwise: Box<CompExpression> },
    IfOnly { cond: Box<CompExpression>, then: Box<CompExpression> },
    WhileLoop { cond: Box<CompExpression>, body: Box<CompExpression> },
}

/// Mathematical model of a literal value.
pub enum DataM {
    Int(i64),
    Float(Seq<char>),
    Str(Seq<char>),
    Bool(bool),
    Null,
    Func(FuncM),
}

/// Mathematical model of a function value.
pub struct FuncM {
    pub generics: Seq<Seq<char>>,
    pub arguments: Seq<VarM>,
    pub return_type: Ty,
    pub body: Option<Box<ProgM>>,
}

/// Mathematical model of a block with its scope.
pub struct ProgM {
    pub scope: ScopeM,
    pub body: IrM,
}

/// Mathematical model of a node of the typed representation.
pub enum IrM {
    Value(DataM),
    Read(VarM),
    Assign(VarM, Box<IrM>),
    BinOp(Op, Box<IrM>, Box<IrM>),
    OneOp(Op, Box<IrM>),
    Call(VarM, Seq<IrM>),
    Index(Box<IrM>, Box<IrM>),
    Typeof(VarM),
    List(Seq<IrM>),
    Prog(Box<ProgM>),
    IfElse(Box<IrM>, Box<IrM>, Box<IrM>),
    IfOnly(Box<IrM>, Box<IrM>),
    WhileLoop(Box<IrM>, Box<IrM>),
}

pub open spec fn string_views(s: Seq<String>) -> Seq<Seq<char>> {
    Seq::new(s.len(), |i: int| s[i]@)
}

impl CompData {
    pub open spec fn view(&self) -> DataM
        decreases self,
    {
        match self {
            CompData::Int(v) => DataM::Int(*v),
            CompData::Float(s) => DataM::Float(s@),
            CompData::Str(s) => DataM::Str(s@),
            CompData::Bool(b) => DataM::Bool(*b),
            CompData::Null => DataM::Null,
            CompData::Func(f) => DataM::Func(f.view()),
        }
    }
}

impl FunctionAst {
    pub open spec fn view(&self) -> FuncM
        decreases self,
    {
        FuncM {
            generics: string_views(self.generics@),
            arguments: var_views(self.arguments@),
            return_type: self.return_type@,
            body: match self.body {
                Some(p) => Some(Box::new(p.view())),
                None => None,
            },
        }
    }
}

impl Program {
    pub open spec fn view(&self) -> ProgM
        decreases self,
    {
        ProgM { scope: self.scope@, body: self.body.view() }
    }
}

impl CompExpression {
    pub open spec fn view(&self) -> IrM
        decreases self,
    {
        match self {
            CompExpression::Value(d) => IrM::Value(d.view()),
            CompExpression::Read(v) => IrM::Read(v@),
            CompExpression::Assign(v, e) => IrM::Assign(v@, Box::new(e.view())),
            CompExpression::BinOp(o, a, b) => IrM::BinOp(*o, Box::new(a.view()), Box::new(b.view())),
            CompExpression::OneOp(o, a) => IrM::OneOp(*o, Box::new(a.view())),
            CompExpression::Call(v, args) => IrM::Call(
                v@,
                Seq::new(args@.len(), |i: int| if 0 <= i < args@.len() { args@[i].view() } else { IrM::List(Seq::empty()) }),
            ),
            CompExpression::Index(a, b) => IrM::Index(Box::new(a.view()), Box::new(b.view())),
            CompExpression::Typeof(v) => IrM::Typeof(v@),
            CompExpression::List(es) => IrM::List(
                Seq::new(es@.len(), |i: int| if 0 <= i < es@.len() { es@[i].view() } else { IrM::List(Seq::empty()) }),
            ),
            CompExpression::Prog(p) => IrM::Prog(Box::new(p.view())),
            CompExpression::IfElse { cond, then, otherwise } => IrM::IfElse(
                Box::new(cond.view()),
                Box::new(then.view()),
                Box::new(otherwise.view()),
            ),
            CompExpression::IfOnly { cond, then } => IrM::IfOnly(Box::new(cond.view()), Box::new(then.view())),
            CompExpression::WhileLoop { cond, body } => IrM::WhileLoop(Box::new(cond.view()), Box::new(body.view())),
        }
    }
}

/// The models of a sequence of nodes.
pub open spec fn ir_views(s: Seq<CompExpression>) -> Seq<IrM> {
    Seq::new(s.len(), |i: int| s[i]@)
}

pub broadcast proof fn lemma_ir_view(e: CompExpression)
    ensures
        #[trigger] e@ == match e {
            CompExpression::Call(v, args) => IrM::Call(v@, ir_views(args@)),
            CompExpression::List(es) => IrM::List(ir_views(es@)),
            _ => e@,
        },
{
    match e {
        CompExpression::Call(v, args) => {
            assert(ir_views(args@) =~= e@->Call_1);
        },
        CompExpression::List(es) => {
            assert(ir_views(es@) =~= e@->List_0);
        },
        _ => {},
    }
}

/// Copies every name of `v`.
pub fn clone_names(v: &Vec<String>) -> (r: Vec<String>)
    ensures
        r@ == v@,
{
    let mut out: Vec<String> = Vec::new();
    let mut i: usize = 0;
    while i < v.len()
        invariant
            i <= v@.len(),
            out@ == v@.take(i as int),
        decreases v@.len() - i,
    {
        out.push(v[i].clone());
        assert(out@ =~= v@.take(i as int + 1));
        i += 1;
    }
    assert(v@.take(v@.len() as int) =~= v@);
    out
}

/// Copies every node of `v`.
pub fn duplicate_exps(v: &Vec<CompExpression>) -> (r: Vec<CompExpression>)
    ensures
        ir_views(r@) == ir_views(v@),
    decreases v,
{
    let mut out: Vec<CompExpression> = Vec::new();
    let mut i: usize = 0;
    while i < v.len()
        invariant
            i <= v@.len(),
            out@.len() == i,
            forall|j: int| 0 <= j < i ==> out@[j]@ == v@[j]@,
        decreases v@.len() - i,
    {
        out.push(v[i].duplicate());
        i += 1;
    }
    assert(ir_views(out@) =~= ir_views(v@));
    out
}

impl CompData {
    /// A copy of the value.
    pub fn duplicate(&self) -> (r: CompData)
        ensures
            r@ == self@,
        decreases self,
    {
        match self {
            CompData::Int(v) => CompData::Int(*v),
            CompData::Float(s) => CompData::Float(s.clone()),
            CompData::Str(s) => CompData::Str(s.clone()),
            CompData::Bool(b) => CompData::Bool(*b),
            CompData::Null => CompData::Null,
            CompData::Func(f) => CompData::Func(f.duplicate()),
        }
    }
}

impl FunctionAst {
    /// A copy of the function value, body included.
    pub fn duplicate(&self) -> (r: FunctionAst)
        ensures
            r@ == self@,
        decreases self,
    {
        let body = match &self.body {
            Some(p) => Some(Box::new(p.duplicate())),
            None => None,
        };
        FunctionAst {
            generics: clone_names(&self.generics),
            arguments: duplicate_vars(&self.arguments),
            return_type: self.return_type.duplicate(),
            body,
        }
    }
}

impl Program {
    /// A copy of the program.
    pub fn duplicate(&self) -> (r: Program)
        ensures
            r@ == self@,
        decreases self,
    {
        Program { scope: self.scope.duplicate(), body: self.body.duplicate() }
    }
}

impl CompExpression {
    /// A copy of the node.
    pub fn duplicate(&self) -> (r: CompExpression)
        ensures
            r@ == self@,
        decreases self,
    {
        proof {
            lemma_ir_view(*self);
        }
        let r = match self {
            CompExpression::Value(d) => CompExpression::Value(d.duplicate()),
            CompExpression::Read(v) => CompExpression::Read(v.duplicate()),
            CompExpression::Assign(v, e) => CompExpression::Assign(v.duplicate(), Box::new(e.duplicate())),
            CompExpression::BinOp(o, a, b) => CompExpression::BinOp(*o, Box::new(a.duplicate()), Box::new(b.duplicate())),
            CompExpression::OneOp(o, a) => CompExpression::OneOp(*o, Box::new(a.duplicate())),
            CompExpression::Call(v, args) => CompExpression::Call(v.duplicate(), duplicate_exps(args)),
            CompExpression::Index(a, b) => CompExpression::Index(Box::new(a.duplicate()), Box::new(b.duplicate())),
            CompExpression::Typeof(v) => CompExpression::Typeof(v.duplicate()),
            CompExpression::List(es) => CompExpression::List(duplicate_exps(es)),
            CompExpression::Prog(p) => CompExpression::Prog(Box::new(p.duplicate())),
            CompExpression::IfElse { cond, then, otherwise } => CompExpression::IfElse {
                cond: Box::new(cond.duplicate()),
                then: Box::new(then.duplicate()),
                otherwise: Box::new(otherwise.duplicate()),
            },
            CompExpression::IfOnly { cond, then } => CompExpression::IfOnly {
                cond: Box::new(cond.duplicate()),
                then: Box::new(then.duplicate()),
            },
            CompExpression::WhileLoop { cond, body } => CompExpression::WhileLoop {
                cond: Box::new(cond.duplicate()),
                body: Box::new(body.duplicate()),
            },
        };
        proof {
            lemma_ir_view(r);
        }
        r
    }
}

/// Specialises a function for its generic parameters. Generics are not monomorphised yet:
/// the function comes back as it is.
pub fn substitute_generics(func: &FunctionAst) -> (r: FunctionAst)
    ensures
        r@ == func@,
{
    func.duplicate()
}

} // verus!
