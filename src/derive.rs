use vstd::prelude::*;
use crate::ast::{nowhere, Op, Span};
use crate::errors::{errs_view, CompError, ErrM, lemma_errs_view_push, lemma_errs_view_single};
use crate::ir::{CompData, CompExpression, DataM, IrM, ir_views, lemma_ir_view};
use crate::scope::{opt_ty_view, CompVariable, VarM};
use crate::types::{CompType, Ty, denotes, flat, lemma_comp_type_view, prim, super_of, ty_views};

verus! {

broadcast use vstd::std_specs::vec::axiom_vec_index_decreases;

/// The type of a literal value.
pub open spec fn data_type(d: DataM) -> Ty {
    match d {
        DataM::Int(_) => Ty::Int,
        DataM::Float(_) => Ty::Float,
        DataM::Str(_) => Ty::Str,
        DataM::Bool(_) => Ty::Bool,
        DataM::Null => Ty::Null,
        DataM::Func(f) => Ty::Callible(
            Seq::new(f.arguments.len(), |i: int| f.arguments[i].typing),
            Box::new(f.return_type),
        ),
    }
}

/// The result type of a binary operator on operands of types `a` and `b`. Addition of two
/// integers is an integer; any other addition that involves a string or `null` is a string,
/// whatever the other operand.
pub open spec fn op_type(op: Op, a: Ty, b: Ty) -> Result<Ty, ErrM> {
    let (pa, pb) = (prim(a), prim(b));
    let bad = Err(ErrM::InvalidOperands(op, a, b, nowhere()));
    match op {
        Op::Add => if pa == Some(Ty::Int) && pb == Some(Ty::Int) {
            Ok(Ty::Int)
        } else if pa == Some(Ty::Str) || pa == Some(Ty::Null) || pb == Some(Ty::Str) || pb == Some(
            Ty::Null,
        ) {
            Ok(Ty::Str)
        } else {
            bad
        },
        Op::Sub | Op::Mult | Op::Div => if pa == Some(Ty::Int) && pb == Some(Ty::Int) {
            Ok(Ty::Int)
        } else {
            bad
        },
        Op::Le | Op::Eq => if pa is Some && pa == pb {
            Ok(Ty::Bool)
        } else {
            bad
        },
    }
}

/// The type of a sequence: the first failure, else the type of the last element (`Null` if empty).
pub open spec fn seq_result(rs: Seq<Result<Ty, ErrM>>) -> Result<Ty, ErrM>
    decreases rs.len(),
{
    if rs.len() == 0 {
        Ok(Ty::Null)
    } else {
        let p = seq_result(rs.drop_last());
        if p is Err {
            p
        } else {
            rs.last()
        }
    }
}

/// The failures among `rs`, in order.
pub open spec fn result_errors(rs: Seq<Result<Ty, ErrM>>) -> Seq<ErrM>
    decreases rs.len(),
{
    if rs.len() == 0 {
        Seq::empty()
    } else {
        result_errors(rs.drop_last()) + match rs.last() {
            Err(x) => seq![x],
            Ok(_) => Seq::empty(),
        }
    }
}

/// One diagnostic for each of the first `n` arguments whose type its parameter does not accept.
pub open spec fn mismatches(ps: Seq<Ty>, rs: Seq<Result<Ty, ErrM>>, n: nat, loc: Span) -> Seq<ErrM>
    decreases n,
{
    if n == 0 || n > rs.len() || n > ps.len() {
        Seq::empty()
    } else {
        mismatches(ps, rs, (n - 1) as nat, loc) + match rs[n - 1] {
            Ok(t) => if super_of(ps[n - 1], t) {
                Seq::empty()
            } else {
                seq![ErrM::InvalidArgument((n - 1) as nat, ps[n - 1], t, loc)]
            },
            Err(_) => Seq::empty(),
        }
    }
}

/// Every diagnostic of a call of `v` on arguments whose types are `rs`.
pub open spec fn call_errors(v: VarM, rs: Seq<Result<Ty, ErrM>>, loc: Span) -> Seq<ErrM> {
    let errs = result_errors(rs);
    if errs.len() > 0 {
        errs
    } else {
        match v.typing {
            Ty::Callible(ps, _) => if ps.len() != rs.len() {
                seq![ErrM::WrongArgumentCount(ps.len(), rs.len(), loc)]
            } else {
                mismatches(ps, rs, rs.len(), loc)
            },
            _ => seq![ErrM::NonfunctionCall(v.name, v.typing, loc)],
        }
    }
}

/// What a call of `v` returns.
pub open spec fn call_type(v: VarM) -> Ty {
    match v.typing {
        Ty::Callible(_, r) => *r,
        _ => Ty::Null,
    }
}

/// The type of a node, or the first failure found bottom-up.
pub open spec fn type_of(e: IrM) -> Result<Ty, ErrM>
    decreases e,
{
    match e {
        IrM::Typeof(_) => Ok(Ty::Type),
        IrM::Prog(p) => type_of(p.body),
        IrM::List(es) => seq_result(type_of_each(es)),
        IrM::WhileLoop(c, b) => match type_of(*c) {
            Ok(ct) => if denotes(Ty::Bool, ct) {
                type_of(*b)
            } else {
                Err(ErrM::BoolInWhile(ct, nowhere()))
            },
            Err(x) => Err(x),
        },
        IrM::IfElse(c, t, o) => match type_of(*c) {
            Ok(ct) => if denotes(Ty::Bool, ct) {
                match type_of(*t) {
                    Err(x) => Err(x),
                    Ok(tt) => match type_of(*o) {
                        Err(x) => Err(x),
                        Ok(ot) => Ok(flat(Ty::Union(seq![tt, ot]))),
                    },
                }
            } else {
                Err(ErrM::BoolInIf(ct, nowhere()))
            },
            Err(x) => Err(x),
        },
        IrM::IfOnly(c, t) => match type_of(*c) {
            Ok(ct) => if denotes(Ty::Bool, ct) {
                match type_of(*t) {
                    Err(x) => Err(x),
                    Ok(_) => Ok(Ty::Null),
                }
            } else {
                Err(ErrM::BoolInIf(ct, nowhere()))
            },
            Err(x) => Err(x),
        },
        IrM::Value(d) => Ok(data_type(d)),
        IrM::Index(a, i) => match type_of(*a) {
            Err(x) => Err(x),
            Ok(ta) => match type_of(*i) {
                Err(x) => Err(x),
                Ok(ti) => if !denotes(Ty::Str, ta) {
                    Err(ErrM::CannotIndexType(ta, nowhere()))
                } else if !denotes(Ty::Int, ti) {
                    Err(ErrM::InvalidIndexType(ti, nowhere()))
                } else {
                    Ok(Ty::Int)
                },
            },
        },
        IrM::Assign(v, x) => match type_of(*x) {
            Err(y) => Err(y),
            Ok(t) => if super_of(v.typing, flat(t)) {
                Ok(v.typing)
            } else {
                Err(ErrM::InvalidAssignment(v.typing, flat(t), nowhere()))
            },
        },
        IrM::BinOp(op, a, b) => match type_of(*a) {
            Err(x) => Err(x),
            Ok(ta) => match type_of(*b) {
                Err(x) => Err(x),
                Ok(tb) => op_type(op, ta, tb),
            },
        },
        IrM::OneOp(_, v) => type_of(*v),
        IrM::Read(v) => Ok(v.typing),
        IrM::Call(v, args) => {
            let errs = call_errors(v, type_of_each(args), nowhere());
            if errs.len() == 0 {
                Ok(call_type(v))
            } else {
                Err(errs[0])
            }
        },
    }
}

/// The type of each node of `es`.
pub open spec fn type_of_each(es: Seq<IrM>) -> Seq<Result<Ty, ErrM>>
    decreases es,
{
    if es.len() == 0 {
        Seq::empty()
    } else {
        type_of_each(es.drop_last()).push(type_of(es[es.len() - 1]))
    }
}

pub proof fn lemma_type_of_each(es: Seq<IrM>)
    ensures
        type_of_each(es).len() == es.len(),
        forall|j: int| 0 <= j < es.len() ==> #[trigger] type_of_each(es)[j] == type_of(es[j]),
    decreases es.len(),
{
    if es.len() > 0 {
        lemma_type_of_each(es.drop_last());
    }
}

pub open spec fn ty_result_view(r: Result<CompType, CompError>) -> Result<Ty, ErrM> {
    match r {
        Ok(t) => Ok(t@),
        Err(e) => Err(e@),
    }
}

impl CompData {
    /// The type of the value.
    pub fn get_type(&self) -> (r: CompType)
        ensures
            r@ == data_type(self@),
    {
        match self {
            CompData::Int(_) => CompType::Int,
            CompData::Float(_) => CompType::Float,
            CompData::Str(_) => CompType::Str,
            CompData::Bool(_) => CompType::Bool,
            CompData::Null => CompType::Null,
            CompData::Func(f) => {
                let mut params: Vec<CompType> = Vec::new();
                let mut i: usize = 0;
                while i < f.arguments.len()
                    invariant
                        i <= f.arguments@.len(),
                        params@.len() == i,
                        forall|j: int| 0 <= j < i ==> params@[j]@ == f.arguments@[j].typing@,
                    decreases f.arguments@.len() - i,
                {
                    params.push(f.arguments[i].typing.duplicate());
                    i += 1;
                }
                let r = CompType::Callible(params, Box::new(f.return_type.duplicate()));
                proof {
                    lemma_comp_type_view(r);
                    assert(ty_views(params@) =~= data_type(self@)->Callible_0);
                }
                r
            },
        }
    }
}

fn is_str_or_null(t: &CompType) -> (r: bool)
    ensures
        r == (t@ == Ty::Str || t@ == Ty::Null),
{
    match t {
        CompType::Str => true,
        CompType::Null => true,
        _ => false,
    }
}

fn is_stringish(p: &Option<CompType>) -> (r: bool)
    ensures
        r == (opt_ty_view(*p) == Some(Ty::Str) || opt_ty_view(*p) == Some(Ty::Null)),
{
    match p {
        Some(x) => is_str_or_null(x),
        None => false,
    }
}

fn is_int_type(t: &CompType) -> (r: bool)
    ensures
        r == (t@ == Ty::Int),
{
    match t {
        CompType::Int => true,
        _ => false,
    }
}

impl Op {
    /// The result type of this operator on operands of types `a` and `b`.
    pub fn resulting_type(&self, a: &CompType, b: &CompType) -> (r: Result<CompType, CompError>)
        ensures
            ty_result_view(r) == op_type(*self, a@, b@),
    {
        let pa = a.primitive();
        let pb = b.primitive();
        let ok: Option<CompType> = match self {
            Op::Add => {
                let both_int = match (&pa, &pb) {
                    (Some(x), Some(y)) => is_int_type(x) && is_int_type(y),
                    _ => false,
                };
                if both_int {
                    Some(CompType::Int)
                } else if is_stringish(&pa) || is_stringish(&pb) {
                    Some(CompType::Str)
                } else {
                    None
                }
            },
            Op::Sub | Op::Mult | Op::Div => match (&pa, &pb) {
                (Some(x), Some(y)) => {
                    if is_int_type(x) && is_int_type(y) {
                        Some(CompType::Int)
                    } else {
                        None
                    }
                },
                _ => None,
            },
            Op::Le | Op::Eq => match (&pa, &pb) {
                (Some(x), Some(y)) => {
                    if x.same(y) {
                        Some(CompType::Bool)
                    } else {
                        None
                    }
                },
                _ => None,
            },
        };
        match ok {
            Some(t) => Ok(t),
            None => Err(
                CompError::InvalidOperands(*self, a.duplicate(), b.duplicate(), Span { start: 0, end: 0 }),
            ),
        }
    }
}

/// Every diagnostic of a call of `func` on `args`: failing arguments, a callee that is no
/// function, a wrong number of arguments, or each argument that its parameter does not accept.
pub fn check_call(func: &CompVariable, args: &Vec<CompExpression>, loc: Span) -> (r: Vec<CompError>)
    ensures
        errs_view(r@) == call_errors(func@, type_of_each(ir_views(args@)), loc),
    decreases args,
{
    let ghost am = ir_views(args@);
    let mut errs: Vec<CompError> = Vec::new();
    let mut tys: Vec<CompType> = Vec::new();
    let mut i: usize = 0;
    proof {
        lemma_type_of_each(am);
    }
    while i < args.len()
        invariant
            am == ir_views(args@),
            type_of_each(am).len() == am.len(),
            forall|j: int| 0 <= j < am.len() ==> #[trigger] type_of_each(am)[j] == type_of(am[j]),
            i <= args@.len(),
            errs_view(errs@) == result_errors(type_of_each(am).take(i as int)),
            errs@.len() == 0 ==> tys@.len() == i,
            errs@.len() == 0 ==> forall|j: int| 0 <= j < i ==> type_of(am[j]) == Ok::<Ty, ErrM>(#[trigger] tys@[j]@),
        decreases args@.len() - i,
    {
        let ghost rs = type_of_each(am).take(i as int + 1);
        assert(rs.drop_last() =~= type_of_each(am).take(i as int));
        assert(rs.last() == type_of(am[i as int]));
        match get_type_from_exp(&args[i]) {
            Ok(t) => {
                assert(result_errors(rs) =~= result_errors(rs.drop_last()));
                tys.push(t);
            },
            Err(e) => {
                proof {
                    lemma_errs_view_push(errs@, e);
                }
                errs.push(e);
            },
        }
        i += 1;
    }
    assert(type_of_each(am).take(args@.len() as int) =~= type_of_each(am));
    if errs.len() > 0 {
        return errs;
    }
    proof {
        lemma_comp_type_view(func.typing);
    }
    match &func.typing {
        CompType::Callible(ps, _) => {
            if ps.len() != args.len() {
                let e = CompError::WrongArgumentCount(ps.len(), args.len(), loc);
                proof {
                    lemma_errs_view_single(e);
                }
                return vec![e];
            }
            let ghost pm = ty_views(ps@);
            let ghost rs = type_of_each(am);
            let mut out: Vec<CompError> = Vec::new();
            let mut j: usize = 0;
            while j < ps.len()
                invariant
                    pm == ty_views(ps@),
                    rs == type_of_each(am),
                    rs.len() == am.len(),
                    forall|k: int| 0 <= k < am.len() ==> #[trigger] rs[k] == type_of(am[k]),
                    am.len() == ps@.len(),
                    tys@.len() == ps@.len(),
                    forall|k: int| 0 <= k < am.len() ==> type_of(am[k]) == Ok::<Ty, ErrM>(#[trigger] tys@[k]@),
                    j <= ps@.len(),
                    errs_view(out@) == mismatches(pm, rs, j as nat, loc),
                decreases ps@.len() - j,
            {
                assert(rs[j as int] == Ok::<Ty, ErrM>(tys@[j as int]@));
                assert(pm[j as int] == ps@[j as int]@);
                if !ps[j].super_of(&tys[j]) {
                    let e = CompError::InvalidArgument(j, ps[j].duplicate(), tys[j].duplicate(), loc);
                    proof {
                        lemma_errs_view_push(out@, e);
                    }
                    out.push(e);
                }
                j += 1;
            }
            out
        },
        _ => {
            let e = CompError::NonfunctionCall(func.name.clone(), func.typing.duplicate(), loc);
            proof {
                lemma_errs_view_single(e);
            }
            vec![e]
        },
    }
}

/// The type of a node of the typed representation, or the first failure found bottom-up.
pub fn get_type_from_exp(exp: &CompExpression) -> (r: Result<CompType, CompError>)
    ensures
        ty_result_view(r) == type_of(exp@),
    decreases exp,
{
    proof {
        lemma_ir_view(*exp);
    }
    match exp {
        CompExpression::Typeof(_) => Ok(CompType::Type),
        CompExpression::Prog(prog) => {
            assert(prog.view().body == prog.body.view());
            get_type_from_exp(&prog.body)
        },
        CompExpression::List(exps) => {
            let ghost em = ir_views(exps@);
            let mut acc: Result<CompType, CompError> = Ok(CompType::Null);
            let mut i: usize = 0;
            while i < exps.len()
                invariant
                    exp is List,
                    exp->List_0 == *exps,
                    em == ir_views(exps@),
                    i <= exps@.len(),
                    ty_result_view(acc) == seq_result(type_of_each(em.take(i as int))),
                decreases exps@.len() - i,
            {
                let ghost pre = em.take(i as int + 1);
                assert(pre.drop_last() =~= em.take(i as int));
                assert(type_of_each(pre).drop_last() =~= type_of_each(em.take(i as int)));
                let r = get_type_from_exp(&exps[i]);
                if acc.is_ok() {
                    acc = r;
                }
                i += 1;
            }
            assert(em.take(exps@.len() as int) =~= em);
            acc
        },
        CompExpression::WhileLoop { cond, body } => {
            match get_type_from_exp(cond) {
                Ok(c) => {
                    if c.is_bool() {
                        get_type_from_exp(body)
                    } else {
                        Err(CompError::BoolInWhile(c, Span { start: 0, end: 0 }))
                    }
                },
                Err(e) => Err(e),
            }
        },
        CompExpression::IfElse { cond, then, otherwise } => {
            match get_type_from_exp(cond) {
                Ok(c) => {
                    if c.is_bool() {
                        match get_type_from_exp(then) {
                            Err(e) => Err(e),
                            Ok(tt) => match get_type_from_exp(otherwise) {
                                Err(e) => Err(e),
                                Ok(ot) => {
                                    let ghost (a, b) = (tt@, ot@);
                                    let u = CompType::Union(vec![tt, ot]);
                                    proof {
                                        lemma_comp_type_view(u);
                                        assert(ty_views(u->Union_0@) =~= seq![a, b]);
                                    }
                                    Ok(u.flatten())
                                },
                            },
                        }
                    } else {
                        Err(CompError::BoolInIf(c, Span { start: 0, end: 0 }))
                    }
                },
                Err(e) => Err(e),
            }
        },
        CompExpression::IfOnly { cond, then } => {
            match get_type_from_exp(cond) {
                Ok(c) => {
                    if c.is_bool() {
                        match get_type_from_exp(then) {
                            Err(e) => Err(e),
                            Ok(_) => Ok(CompType::Null),
                        }
                    } else {
                        Err(CompError::BoolInIf(c, Span { start: 0, end: 0 }))
                    }
                },
                Err(e) => Err(e),
            }
        },
        CompExpression::Value(data) => Ok(data.get_type()),
        CompExpression::Index(arr, i) => {
            let arr_ty = match get_type_from_exp(arr) {
                Ok(t) => t,
                Err(e) => return Err(e),
            };
            let i_ty = match get_type_from_exp(i) {
                Ok(t) => t,
                Err(e) => return Err(e),
            };
            if !arr_ty.is_str() {
                Err(CompError::CannotIndexType(arr_ty, Span { start: 0, end: 0 }))
            } else if !i_ty.is_int() {
                Err(CompError::InvalidIndexType(i_ty, Span { start: 0, end: 0 }))
            } else {
                Ok(CompType::Int)
            }
        },
        CompExpression::Assign(var, e) => {
            match get_type_from_exp(e) {
                Ok(t) => {
                    let t = t.flatten();
                    if var.typing.super_of(&t) {
                        Ok(var.typing.duplicate())
                    } else {
                        Err(CompError::InvalidAssignment(var.typing.duplicate(), t, Span { start: 0, end: 0 }))
                    }
                },
                Err(e) => Err(e),
            }
        },
        CompExpression::BinOp(op, a, b) => {
            match get_type_from_exp(a) {
                Err(e) => Err(e),
                Ok(ta) => match get_type_from_exp(b) {
                    Err(e) => Err(e),
                    Ok(tb) => op.resulting_type(&ta, &tb),
                },
            }
        },
        CompExpression::OneOp(_, v) => get_type_from_exp(v),
        CompExpression::Read(var) => Ok(var.typing.duplicate()),
        CompExpression::Call(var, args) => {
            let mut errs = check_call(var, args, Span { start: 0, end: 0 });
            if errs.len() == 0 {
                proof {
                    lemma_comp_type_view(var.typing);
                }
                match &var.typing {
                    CompType::Callible(_, ret) => Ok(ret.duplicate()),
                    _ => Ok(CompType::Null),
                }
            } else {
                let ghost before = errs@;
                let e = errs.remove(0);
                assert(e@ == errs_view(before)[0]);
                Err(e)
            }
        },
    }
}

} // verus!
