use vstd::prelude::*;
use crate::ast::{Op, Span};
use crate::types::{CompType, Ty};

verus! {

/// A diagnostic, with the source span it refers to.
#[derive(Debug, PartialEq)]
pub enum CompError {
    CannotFindVariable(String, Span),
    CannotFindType(String, Span),
    RedeclareInSameScope(String, Span),
    ConstReassign(String, Span),
    GlobalReassign(String, Span),
    /// The declared type and the type of the assigned value.
    InvalidAssignment(CompType, CompType, Span),
    InvalidLeftHandForAssignment(Span),
    EmptyType(Span),
    BoolInWhile(CompType, Span),
    BoolInIf(CompType, Span),
    NonfunctionCall(String, CompType, Span),
    CannotIndexType(CompType, Span),
    InvalidIndexType(CompType, Span),
    TypeAlreadyDefined(String, Span),
    InvalidOperands(Op, CompType, CompType, Span),
    /// The number of parameters and the number of arguments.
    WrongArgumentCount(usize, usize, Span),
    /// The position, the parameter's type and the argument's type.
    InvalidArgument(usize, CompType, CompType, Span),
}

/// Mathematical model of a diagnostic.
pub enum ErrM {
    CannotFindVariable(Seq<char>, Span),
    CannotFindType(Seq<char>, Span),
    RedeclareInSameScope(Seq<char>, Span),
    ConstReassign(Seq<char>, Span),
    GlobalReassign(Seq<char>, Span),
    InvalidAssignment(Ty, Ty, Span),
    InvalidLeftHandForAssignment(Span),
    EmptyType(Span),
    BoolInWhile(Ty, Span),
    BoolInIf(Ty, Span),
    NonfunctionCall(Seq<char>, Ty, Span),
    CannotIndexType(Ty, Span),
    InvalidIndexType(Ty, Span),
    TypeAlreadyDefined(Seq<char>, Span),
    InvalidOperands(Op, Ty, Ty, Span),
    WrongArgumentCount(nat, nat, Span),
    InvalidArgument(nat, Ty, Ty, Span),
}

impl CompError {
    pub open spec fn view(&self) -> ErrM {
        match self {
            CompError::CannotFindVariable(n, s) => ErrM::CannotFindVariable(n@, *s),
            CompError::CannotFindType(n, s) => ErrM::CannotFindType(n@, *s),
            CompError::RedeclareInSameScope(n, s) => ErrM::RedeclareInSameScope(n@, *s),
            CompError::ConstReassign(n, s) => ErrM::ConstReassign(n@, *s),
            CompError::GlobalReassign(n, s) => ErrM::GlobalReassign(n@, *s),
            CompError::InvalidAssignment(a, b, s) => ErrM::InvalidAssignment(a@, b@, *s),
            CompError::InvalidLeftHandForAssignment(s) => ErrM::InvalidLeftHandForAssignment(*s),
            CompError::EmptyType(s) => ErrM::EmptyType(*s),
            CompError::BoolInWhile(t, s) => ErrM::BoolInWhile(t@, *s),
            CompError::BoolInIf(t, s) => ErrM::BoolInIf(t@, *s),
            CompError::NonfunctionCall(n, t, s) => ErrM::NonfunctionCall(n@, t@, *s),
            CompError::CannotIndexType(t, s) => ErrM::CannotIndexType(t@, *s),
            CompError::InvalidIndexType(t, s) => ErrM::InvalidIndexType(t@, *s),
            CompError::TypeAlreadyDefined(n, s) => ErrM::TypeAlreadyDefined(n@, *s),
            CompError::InvalidOperands(o, a, b, s) => ErrM::InvalidOperands(*o, a@, b@, *s),
            CompError::WrongArgumentCount(a, b, s) => ErrM::WrongArgumentCount(*a as nat, *b as nat, *s),
            CompError::InvalidArgument(i, a, b, s) => ErrM::InvalidArgument(*i as nat, a@, b@, *s),
        }
    }
}

/// The diagnostic `e`, pointing at `loc` instead.
pub open spec fn with_span(e: ErrM, loc: Span) -> ErrM {
    match e {
        ErrM::CannotFindVariable(n, _) => ErrM::CannotFindVariable(n, loc),
        ErrM::CannotFindType(n, _) => ErrM::CannotFindType(n, loc),
        ErrM::RedeclareInSameScope(n, _) => ErrM::RedeclareInSameScope(n, loc),
        ErrM::ConstReassign(n, _) => ErrM::ConstReassign(n, loc),
        ErrM::GlobalReassign(n, _) => ErrM::GlobalReassign(n, loc),
        ErrM::InvalidAssignment(a, b, _) => ErrM::InvalidAssignment(a, b, loc),
        ErrM::InvalidLeftHandForAssignment(_) => ErrM::InvalidLeftHandForAssignment(loc),
        ErrM::EmptyType(_) => ErrM::EmptyType(loc),
        ErrM::BoolInWhile(t, _) => ErrM::BoolInWhile(t, loc),
        ErrM::BoolInIf(t, _) => ErrM::BoolInIf(t, loc),
        ErrM::NonfunctionCall(n, t, _) => ErrM::NonfunctionCall(n, t, loc),
        ErrM::CannotIndexType(t, _) => ErrM::CannotIndexType(t, loc),
        ErrM::InvalidIndexType(t, _) => ErrM::InvalidIndexType(t, loc),
        ErrM::TypeAlreadyDefined(n, _) => ErrM::TypeAlreadyDefined(n, loc),
        ErrM::InvalidOperands(o, a, b, _) => ErrM::InvalidOperands(o, a, b, loc),
        ErrM::WrongArgumentCount(a, b, _) => ErrM::WrongArgumentCount(a, b, loc),
        ErrM::InvalidArgument(i, a, b, _) => ErrM::InvalidArgument(i, a, b, loc),
    }
}

impl CompError {
    /// The diagnostic, pointing at `loc` instead.
    pub fn at(self, loc: Span) -> (r: CompError)
        ensures
            r@ == with_span(self@, loc),
    {
        match self {
            CompError::CannotFindVariable(n, _) => CompError::CannotFindVariable(n, loc),
            CompError::CannotFindType(n, _) => CompError::CannotFindType(n, loc),
            CompError::RedeclareInSameScope(n, _) => CompError::RedeclareInSameScope(n, loc),
            CompError::ConstReassign(n, _) => CompError::ConstReassign(n, loc),
            CompError::GlobalReassign(n, _) => CompError::GlobalReassign(n, loc),
            CompError::InvalidAssignment(a, b, _) => CompError::InvalidAssignment(a, b, loc),
            CompError::InvalidLeftHandForAssignment(_) => CompError::InvalidLeftHandForAssignment(loc),
            CompError::EmptyType(_) => CompError::EmptyType(loc),
            CompError::BoolInWhile(t, _) => CompError::BoolInWhile(t, loc),
            CompError::BoolInIf(t, _) => CompError::BoolInIf(t, loc),
            CompError::NonfunctionCall(n, t, _) => CompError::NonfunctionCall(n, t, loc),
            CompError::CannotIndexType(t, _) => CompError::CannotIndexType(t, loc),
            CompError::InvalidIndexType(t, _) => CompError::InvalidIndexType(t, loc),
            CompError::TypeAlreadyDefined(n, _) => CompError::TypeAlreadyDefined(n, loc),
            CompError::InvalidOperands(o, a, b, _) => CompError::InvalidOperands(o, a, b, loc),
            CompError::WrongArgumentCount(a, b, _) => CompError::WrongArgumentCount(a, b, loc),
            CompError::InvalidArgument(i, a, b, _) => CompError::InvalidArgument(i, a, b, loc),
        }
    }
}

/// The models of a sequence of diagnostics.
pub open spec fn errs_view(s: Seq<CompError>) -> Seq<ErrM> {
    Seq::new(s.len(), |i: int| s[i]@)
}

pub proof fn lemma_errs_view_concat(a: Seq<CompError>, b: Seq<CompError>)
    ensures
        errs_view(a + b) == errs_view(a) + errs_view(b),
{
    assert(errs_view(a + b) =~= errs_view(a) + errs_view(b));
}

pub proof fn lemma_errs_view_push(a: Seq<CompError>, e: CompError)
    ensures
        errs_view(a.push(e)) == errs_view(a).push(e@),
{
    assert(errs_view(a.push(e)) =~= errs_view(a).push(e@));
}

pub proof fn lemma_errs_view_single(e: CompError)
    ensures
        errs_view(seq![e]) == seq![e@],
{
    assert(errs_view(seq![e]) =~= seq![e@]);
}

/// A list of one diagnostic.
pub fn single_error(e: CompError) -> (r: Vec<CompError>)
    ensures
        errs_view(r@) == seq![e@],
{
    proof {
        lemma_errs_view_single(e);
    }
    vec![e]
}

/// An empty list of diagnostics.
pub fn no_errors() -> (r: Vec<CompError>)
    ensures
        errs_view(r@) == Seq::<ErrM>::empty(),
{
    let r: Vec<CompError> = Vec::new();
    assert(errs_view(r@) =~= Seq::<ErrM>::empty());
    r
}

/// Appends all of `b` to `a`.
pub fn append_errors(a: &mut Vec<CompError>, b: Vec<CompError>)
    ensures
        errs_view(final(a)@) == errs_view(old(a)@) + errs_view(b@),
{
    let mut b = b;
    proof {
        lemma_errs_view_concat(a@, b@);
    }
    a.append(&mut b);
}

} // verus!
