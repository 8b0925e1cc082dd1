use vstd::prelude::*;
use crate::ast::{CustomType, Expression, FunctionLiteral, Op, RawData, Span, Symbol};
use crate::derive::{call_errors, check_call, get_type_from_exp, type_of, type_of_each};
use crate::errors::{append_errors, errs_view, no_errors, single_error, with_span, CompError, ErrM};
use crate::ir::{
    CompData, CompExpression, DataM, FuncM, FunctionAst, IrM, ProgM, Program, ir_views,
    lemma_ir_view, clone_names, string_views,
};
use crate::resolve::{
    collect, collect_ok_or_err, lemma_collect_ok, lemma_gather_collect, lemma_resolve_types_index, map_seq, res_ty_view, resolve,
    resolve_scope, resolve_type, resolve_types, transform_type,
};
use crate::scope::{
    child_of, has_type, is_initialised, snapshot, temp_constant, temp_var, with_initialised,
    with_type, duplicate_vars, new_views, type_views, var_views, CompVariable, TempM, TempScope, VarM,
};
use crate::types::{super_of, ty_views, CompType, Ty};

verus! {

broadcast use vstd::std_specs::vec::axiom_vec_index_decreases;

/// Two sibling outcomes: both values, or the failures of both.
pub open spec fn pair<A, B>(ra: Result<A, Seq<ErrM>>, rb: Result<B, Seq<ErrM>>) -> Result<(A, B), Seq<ErrM>> {
    match (ra, rb) {
        (Ok(a), Ok(b)) => Ok((a, b)),
        (Err(x), Err(y)) => Err(x + y),
        (Err(x), Ok(_)) => Err(x),
        (Ok(_), Err(y)) => Err(y),
    }
}

/// A node that must also pass the type deriver; its failure points at `loc`, the span of the
/// node of the syntax tree being lowered.
pub open spec fn checked(n: IrM, loc: Span) -> Result<IrM, Seq<ErrM>> {
    match type_of(n) {
        Ok(_) => Ok(n),
        Err(x) => Err(seq![with_span(x, loc)]),
    }
}

pub open spec fn bin(op: Op, rl: Result<IrM, Seq<ErrM>>, rr: Result<IrM, Seq<ErrM>>) -> Result<IrM, Seq<ErrM>> {
    match pair(rl, rr) {
        Ok((a, b)) => Ok(IrM::BinOp(op, Box::new(a), Box::new(b))),
        Err(es) => Err(es),
    }
}

/// The written types of the parameters of a function literal.
pub open spec fn param_types(f: FunctionLiteral) -> Seq<CustomType> {
    Seq::new(f.args@.len(), |i: int| f.args@[i].1)
}

/// The parameters of a function literal as symbols; all of them constant.
pub open spec fn params_of(f: FunctionLiteral, ps: Seq<Ty>) -> Seq<VarM> {
    Seq::new(ps.len(), |i: int| VarM { name: f.args@[i].0@, typing: ps[i], constant: true, external: false })
}

/// Lowers `e` in scope `t`: the typed node or every failure, and the scope afterwards.
pub open spec fn lower(e: Expression, t: TempM) -> (Result<IrM, Seq<ErrM>>, TempM)
    decreases e, 0nat,
{
    match e {
        Expression::Typeof(name, loc) => (
            match temp_var(t, name@) {
                Some(v) => Ok(IrM::Typeof(v)),
                None => Err(seq![ErrM::CannotFindVariable(name@, loc)]),
            },
            t,
        ),
        Expression::Index(a, i, loc) => {
            let (ra, t1) = lower(*a, t);
            let (ri, t2) = lower(*i, t1);
            (
                match pair(ra, ri) {
                    Ok((x, y)) => checked(IrM::Index(Box::new(x), Box::new(y)), loc),
                    Err(es) => Err(es),
                },
                t2,
            )
        },
        Expression::TypeDeclaration(_, _, _) => (Ok(IrM::List(Seq::empty())), t),
        Expression::InitAssign(_, _, name, _, x, loc) => if is_initialised(t, name@) {
            (Err(seq![ErrM::RedeclareInSameScope(name@, loc)]), t)
        } else {
            let (rx, t1) = lower(*x, t);
            match rx {
                Err(es) => (Err(es), t1),
                Ok(xe) => match type_of(xe) {
                    Err(z) => (Err(seq![with_span(z, loc)]), t1),
                    Ok(ty) => {
                        let had = has_type(t1, name@);
                        let t2 = if had {
                            t1
                        } else {
                            with_type(t1, name@, ty)
                        };
                        let t3 = with_initialised(t2, name@);
                        match temp_var(t3, name@) {
                            None => (Err(seq![ErrM::CannotFindVariable(name@, loc)]), t3),
                            Some(v) => if had && !super_of(v.typing, ty) {
                                (Err(seq![ErrM::InvalidAssignment(v.typing, ty, loc)]), t3)
                            } else {
                                (Ok(IrM::Assign(v, Box::new(xe))), t3)
                            },
                        }
                    },
                },
            }
        },
        Expression::Assign(lhs, rhs, loc) => match *lhs {
            Expression::Terminal(Symbol::Identifier(name), _) => {
                let (rr, t1) = lower(*rhs, t);
                match rr {
                    Err(es) => (Err(es), t1),
                    Ok(x) => if temp_constant(t1, name@) {
                        (Err(seq![ErrM::ConstReassign(name@, loc)]), t1)
                    } else {
                        match temp_var(t1, name@) {
                            None => (Err(seq![ErrM::CannotFindVariable(name@, loc)]), t1),
                            Some(v) => match type_of(x) {
                                Err(z) => (Err(seq![with_span(z, loc)]), t1),
                                Ok(ty) => if super_of(v.typing, ty) {
                                    (Ok(IrM::Assign(v, Box::new(x))), t1)
                                } else {
                                    (Err(seq![ErrM::InvalidAssignment(v.typing, ty, loc)]), t1)
                                },
                            },
                        }
                    },
                }
            },
            _ => (Err(seq![ErrM::InvalidLeftHandForAssignment(loc)]), t),
        },
        Expression::IfElse(c, th, el, loc) => {
            let (rc, t1) = lower(*c, t);
            match rc {
                Err(es) => (Err(es), t1),
                Ok(ce) => match lower_block(*th, t1, Seq::empty()) {
                    Err(es) => (Err(es), t1),
                    Ok(pt) => match lower_block(*el, t1, Seq::empty()) {
                        Err(es) => (Err(es), t1),
                        Ok(pe) => (
                            checked(
                                IrM::IfElse(
                                    Box::new(ce),
                                    Box::new(IrM::Prog(Box::new(pt))),
                                    Box::new(IrM::Prog(Box::new(pe))),
                                ),
                                loc,
                            ),
                            t1,
                        ),
                    },
                },
            }
        },
        Expression::Loop(c, b, loc) => {
            let (rc, t1) = lower(*c, t);
            match rc {
                Err(es) => (Err(es), t1),
                Ok(ce) => match lower_block(*b, t1, Seq::empty()) {
                    Err(es) => (Err(es), t1),
                    Ok(pb) => (
                        checked(IrM::WhileLoop(Box::new(ce), Box::new(IrM::Prog(Box::new(pb)))), loc),
                        t1,
                    ),
                },
            }
        },
        Expression::Block(es, _) => {
            let (rs, t1) = lower_all(es@, t);
            (
                match collect(rs) {
                    Ok(xs) => Ok(IrM::List(xs)),
                    Err(errs) => Err(errs),
                },
                t1,
            )
        },
        Expression::LessThan(l, r, _) => {
            let (rl, t1) = lower(*l, t);
            let (rr, t2) = lower(*r, t1);
            (bin(Op::Le, rl, rr), t2)
        },
        Expression::Addition(l, r, _) => {
            let (rl, t1) = lower(*l, t);
            let (rr, t2) = lower(*r, t1);
            (bin(Op::Add, rl, rr), t2)
        },
        Expression::Multiplication(l, r, _) => {
            let (rl, t1) = lower(*l, t);
            let (rr, t2) = lower(*r, t1);
            (bin(Op::Mult, rl, rr), t2)
        },
        Expression::Subtraction(l, r, _) => {
            let (rl, t1) = lower(*l, t);
            let (rr, t2) = lower(*r, t1);
            (bin(Op::Sub, rl, rr), t2)
        },
        Expression::Division(l, r, _) => {
            let (rl, t1) = lower(*l, t);
            let (rr, t2) = lower(*r, t1);
            (bin(Op::Div, rl, rr), t2)
        },
        Expression::Equal(l, r, _) => {
            let (rl, t1) = lower(*l, t);
            let (rr, t2) = lower(*r, t1);
            (bin(Op::Eq, rl, rr), t2)
        },
        Expression::FuncCall(name, args, loc) => match temp_var(t, name@) {
            None => (Err(seq![ErrM::CannotFindVariable(name@, loc)]), t),
            Some(v) => {
                let (rs, t1) = lower_all(args@, t);
                (
                    match collect(rs) {
                        Err(es) => Err(es),
                        Ok(xs) => {
                            let errs = call_errors(v, type_of_each(xs), loc);
                            if errs.len() == 0 {
                                Ok(IrM::Call(v, xs))
                            } else {
                                Err(errs)
                            }
                        },
                    },
                    t1,
                )
            },
        },
        Expression::Terminal(Symbol::Identifier(name), loc) => (
            match temp_var(t, name@) {
                Some(v) => Ok(IrM::Read(v)),
                None => Err(seq![ErrM::CannotFindVariable(name@, loc)]),
            },
            t,
        ),
        Expression::Terminal(Symbol::Data(d), loc) => (
            match d {
                RawData::Int(v) => Ok(IrM::Value(DataM::Int(v))),
                RawData::Float(s) => Ok(IrM::Value(DataM::Float(s@))),
                RawData::Str(s) => Ok(IrM::Value(DataM::Str(s@))),
                RawData::Bool(b) => Ok(IrM::Value(DataM::Bool(b))),
                RawData::Null => Ok(IrM::Value(DataM::Null)),
                RawData::Func(f) => lower_func(f, t, loc),
            },
            t,
        ),
    }
}

/// Lowers each of `es` in turn, threading the scope.
pub open spec fn lower_all(es: Seq<Expression>, t: TempM) -> (Seq<Result<IrM, Seq<ErrM>>>, TempM)
    decreases es, 0nat,
{
    if es.len() == 0 {
        (Seq::empty(), t)
    } else {
        let (rs, t1) = lower_all(es.drop_last(), t);
        let (r, t2) = lower(es[es.len() - 1], t1);
        (rs.push(r), t2)
    }
}

/// A nested block: a fresh scope under a snapshot of `t`, holding `preset`, is resolved and
/// then lowered; the block keeps its scope.
pub open spec fn lower_block(b: Expression, t: TempM, preset: Seq<VarM>) -> Result<ProgM, Seq<ErrM>>
    decreases b, 2nat,
{
    let (errs, c1) = resolve(b, child_of(t, preset));
    if errs.len() > 0 {
        Err(errs)
    } else {
        let (r, c2) = lower(b, c1);
        match r {
            Ok(body) => Ok(ProgM { scope: snapshot(c2), body }),
            Err(es) => Err(es),
        }
    }
}

/// A function literal as a value: its parameter and return types resolved in `t`, and its
/// body, if any, lowered in a scope that captures `t` as it stands.
pub open spec fn lower_func(f: FunctionLiteral, t: TempM, loc: Span) -> Result<IrM, Seq<ErrM>>
    decreases f, 3nat,
{
    match pair(collect(resolve_types(param_types(f), t)), resolve_type(f.return_type, t)) {
        Err(es) => Err(es),
        Ok((ps, ret)) => {
            let arguments = params_of(f, ps);
            match f.body {
                None => Ok(func_value(f, arguments, ret, None)),
                Some(b) => match lower_block(*b, t, arguments) {
                    Err(es) => Err(es),
                    Ok(p) => match type_of(p.body) {
                        Err(x) => Err(seq![with_span(x, loc)]),
                        Ok(_) => Ok(func_value(f, arguments, ret, Some(Box::new(p)))),
                    },
                },
            }
        },
    }
}

/// A function value built from a literal.
pub open spec fn func_value(f: FunctionLiteral, arguments: Seq<VarM>, ret: Ty, body: Option<Box<ProgM>>) -> IrM {
    IrM::Value(
        DataM::Func(
            FuncM { generics: string_views(f.generics@), arguments, return_type: ret, body },
        ),
    )
}

/// The failures of every failed outcome of `rs`, in order.
pub open spec fn failures<A>(rs: Seq<Result<A, Seq<ErrM>>>) -> Seq<ErrM>
    decreases rs.len(),
{
    if rs.len() == 0 {
        Seq::empty()
    } else {
        failures(rs.drop_last()) + match rs.last() {
            Err(e) => e,
            Ok(_) => Seq::empty(),
        }
    }
}

proof fn lemma_collect_failures<A>(rs: Seq<Result<A, Seq<ErrM>>>)
    ensures
        (forall|i: int| 0 <= i < rs.len() ==> (#[trigger] rs[i]) is Ok) ==> collect(rs) is Ok
            && failures(rs) == Seq::<ErrM>::empty(),
        (exists|i: int| 0 <= i < rs.len() && (#[trigger] rs[i]) is Err) ==> collect(rs) == Err::<Seq<A>, Seq<ErrM>>(failures(rs)),
    decreases rs.len(),
{
    if rs.len() > 0 {
        let p = rs.drop_last();
        lemma_collect_failures(p);
        assert forall|i: int| 0 <= i < p.len() implies p[i] == rs[i] by {}
        if exists|i: int| 0 <= i < rs.len() && (#[trigger] rs[i]) is Err {
            if !(exists|i: int| 0 <= i < p.len() && (#[trigger] p[i]) is Err) {
                assert(collect(p) is Ok);
                assert(rs.last() is Err);
                assert(failures(p) + rs.last()->Err_0 =~= rs.last()->Err_0);
            } else if rs.last() is Ok {
                assert(failures(p) + Seq::<ErrM>::empty() =~= failures(p));
            }
        } else {
            assert forall|i: int| 0 <= i < p.len() implies (#[trigger] p[i]) is Ok by {
                assert(rs[i] is Ok);
            }
            assert(rs[rs.len() - 1] is Ok);
            assert(failures(p) + Seq::<ErrM>::empty() =~= Seq::<ErrM>::empty());
        }
    }
}

/// A block reports the failures of every statement that fails, in order, not only those of the
/// first one.
pub proof fn lemma_block_reports_every_failure(es: Vec<Expression>, loc: Span, t: TempM)
    ensures
        (exists|i: int| 0 <= i < lower_all(es@, t).0.len() && (#[trigger] lower_all(es@, t).0[i]) is Err)
            ==> lower(Expression::Block(es, loc), t).0 == Err::<IrM, Seq<ErrM>>(failures(lower_all(es@, t).0)),
{
    lemma_collect_failures(lower_all(es@, t).0);
}

/// Lowers a block as a program of its own, in scope `t`.
pub open spec fn lower_program(e: Expression, t: TempM) -> (Result<ProgM, Seq<ErrM>>, TempM) {
    let (r, t1) = lower(e, t);
    (
        match r {
            Ok(body) => Ok(ProgM { scope: snapshot(t1), body }),
            Err(es) => Err(es),
        },
        t1,
    )
}

pub open spec fn res_ir_view(r: Result<CompExpression, Vec<CompError>>) -> Result<IrM, Seq<ErrM>> {
    match r {
        Ok(e) => Ok(e@),
        Err(es) => Err(errs_view(es@)),
    }
}

pub open spec fn res_prog_view(r: Result<Program, Vec<CompError>>) -> Result<ProgM, Seq<ErrM>> {
    match r {
        Ok(p) => Ok(p@),
        Err(es) => Err(errs_view(es@)),
    }
}

fn pair_results(
    ra: Result<CompExpression, Vec<CompError>>,
    rb: Result<CompExpression, Vec<CompError>>,
) -> (r: Result<(CompExpression, CompExpression), Vec<CompError>>)
    ensures
        match r {
            Ok((a, b)) => pair(res_ir_view(ra), res_ir_view(rb)) == Ok::<(IrM, IrM), Seq<ErrM>>((a@, b@)),
            Err(es) => pair(res_ir_view(ra), res_ir_view(rb)) == Err::<(IrM, IrM), Seq<ErrM>>(errs_view(es@)),
        },
{
    match (ra, rb) {
        (Ok(a), Ok(b)) => Ok((a, b)),
        (Err(x), Err(y)) => {
            let mut x = x;
            append_errors(&mut x, y);
            Err(x)
        },
        (Err(x), Ok(_)) => Err(x),
        (Ok(_), Err(y)) => Err(y),
    }
}

/// The node, provided that the type deriver accepts it; a failure points at `loc`.
fn checked_node(n: CompExpression, loc: Span) -> (r: Result<CompExpression, Vec<CompError>>)
    ensures
        res_ir_view(r) == checked(n@, loc),
{
    match get_type_from_exp(&n) {
        Ok(_) => Ok(n),
        Err(x) => Err(single_error(x.at(loc))),
    }
}

/// A binary operation on two lowered operands; the failures of both are reported together.
fn bin_exp(
    op: Op,
    left: Result<CompExpression, Vec<CompError>>,
    right: Result<CompExpression, Vec<CompError>>,
) -> (r: Result<CompExpression, Vec<CompError>>)
    ensures
        res_ir_view(r) == bin(op, res_ir_view(left), res_ir_view(right)),
{
    match pair_results(left, right) {
        Ok((a, b)) => {
            let n = CompExpression::BinOp(op, Box::new(a), Box::new(b));
            Ok(n)
        },
        Err(es) => Err(es),
    }
}

/// Lowers each of `es` in turn; all the results, or the failures of every failing one.
pub fn transform_all(es: &Vec<Expression>, scope: &mut TempScope) -> (r: Result<Vec<CompExpression>, Vec<CompError>>)
    ensures
        final(scope)@ == lower_all(es@, old(scope)@).1,
        match r {
            Ok(v) => collect(lower_all(es@, old(scope)@).0) == Ok::<Seq<IrM>, Seq<ErrM>>(ir_views(v@)),
            Err(x) => collect(lower_all(es@, old(scope)@).0) == Err::<Seq<IrM>, Seq<ErrM>>(errs_view(x@)),
        },
    decreases es, 0nat,
{
    let ghost start = scope@;
    let mut results: Vec<Result<CompExpression, Vec<CompError>>> = Vec::new();
    let mut i: usize = 0;
    assert(es@.take(0) =~= Seq::<Expression>::empty());
    while i < es.len()
        invariant
            start == old(scope)@,
            i <= es@.len(),
            lower_all(es@.take(i as int), start).1 == scope@,
            lower_all(es@.take(i as int), start).0.len() == i,
            results@.len() == i,
            forall|k: int| 0 <= k < i ==> #[trigger] res_ir_view(results@[k]) == lower_all(
                es@.take(i as int),
                start,
            ).0[k],
        decreases es@.len() - i,
    {
        let ghost pre = es@.take(i as int + 1);
        assert(pre.drop_last() =~= es@.take(i as int));
        results.push(transform_exp(&es[i], scope));
        i += 1;
    }
    assert(es@.take(es@.len() as int) =~= es@);
    let ghost ms = lower_all(es@, start).0;
    let ghost f = |e: CompExpression| e@;
    proof {
        assert forall|k: int| 0 <= k < results@.len() implies #[trigger] ms[k] == match results@[k] {
            Ok(x) => Ok::<IrM, Seq<ErrM>>(f(x)),
            Err(e) => Err::<IrM, Seq<ErrM>>(errs_view(e@)),
        } by {
            assert(res_ir_view(results@[k]) == ms[k]);
        }
        lemma_gather_collect(results@, ms, f);
    }
    match collect_ok_or_err(results) {
        None => {
            let v: Vec<CompExpression> = Vec::new();
            assert(ir_views(v@) =~= Seq::<IrM>::empty());
            assert(ms =~= Seq::<Result<IrM, Seq<ErrM>>>::empty());
            Ok(v)
        },
        Some(Ok(v)) => {
            assert(ir_views(v@) =~= map_seq(v@, f));
            Ok(v)
        },
        Some(Err(e)) => Err(e),
    }
}

/// Lowers a block as a program of its own, keeping the scope it leaves behind.
pub fn transform_ast(ast: &Expression, scope: &mut TempScope) -> (r: Result<Program, Vec<CompError>>)
    ensures
        (res_prog_view(r), final(scope)@) == lower_program(*ast, old(scope)@),
    decreases ast, 3nat,
{
    let expression = match transform_exp(ast, scope) {
        Ok(e) => e,
        Err(es) => return Err(es),
    };
    let p = Program { scope: scope.to_comp_scope_so_far(), body: expression };
    assert(p@ == ProgM { scope: p.scope@, body: p.body@ });
    Ok(p)
}

/// Lowers a nested block in a fresh scope under a snapshot of `scope`, holding `preset`.
fn transform_block(b: &Expression, scope: &TempScope, preset: Vec<CompVariable>) -> (r: Result<Program, Vec<CompError>>)
    ensures
        res_prog_view(r) == lower_block(*b, scope@, var_views(preset@)),
    decreases b, 4nat,
{
    let mut local = TempScope {
        variables: Vec::new(),
        preset_variables: preset,
        types: Vec::new(),
        parent: Some(Box::new(scope.to_comp_scope_so_far())),
        outermost: false,
    };
    assert(new_views(local.variables@) =~= Seq::empty());
    assert(type_views(local.types@) =~= Seq::empty());
    assert(local@ == child_of(scope@, var_views(local.preset_variables@)));
    match resolve_scope(b, &mut local) {
        Err(es) => return Err(es),
        Ok(_) => {},
    }
    transform_ast(b, &mut local)
}

/// Resolves the parameter types of a function literal, gathering the results as `collect` does.
fn transform_params(f: &FunctionLiteral, scope: &TempScope) -> (r: Result<Vec<CompType>, Vec<CompError>>)
    ensures
        match r {
            Ok(v) => collect(resolve_types(param_types(*f), scope@)) == Ok::<Seq<Ty>, Seq<ErrM>>(ty_views(v@)),
            Err(es) => collect(resolve_types(param_types(*f), scope@)) == Err::<Seq<Ty>, Seq<ErrM>>(errs_view(es@)),
        },
{
    let ghost pts = param_types(*f);
    let ghost pm = resolve_types(pts, scope@);
    let mut results: Vec<Result<CompType, Vec<CompError>>> = Vec::new();
    let mut i: usize = 0;
    proof {
        lemma_resolve_types_index(pts, scope@);
    }
    while i < f.args.len()
        invariant
            pts == param_types(*f),
            pm == resolve_types(pts, scope@),
            pm.len() == pts.len(),
            forall|k: int| 0 <= k < pts.len() ==> #[trigger] pm[k] == resolve_type(pts[k], scope@),
            i <= f.args@.len(),
            results@.len() == i,
            forall|k: int| 0 <= k < i ==> #[trigger] res_ty_view(results@[k]) == pm[k],
        decreases f.args@.len() - i,
    {
        assert(pts[i as int] == f.args@[i as int].1);
        results.push(transform_type(&f.args[i].1, scope));
        i += 1;
    }
    let ghost g = |t: CompType| t@;
    proof {
        assert forall|k: int| 0 <= k < results@.len() implies #[trigger] pm[k] == match results@[k] {
            Ok(x) => Ok::<Ty, Seq<ErrM>>(g(x)),
            Err(e) => Err::<Ty, Seq<ErrM>>(errs_view(e@)),
        } by {
            assert(res_ty_view(results@[k]) == pm[k]);
        }
        lemma_gather_collect(results@, pm, g);
    }
    match collect_ok_or_err(results) {
        None => {
            let v: Vec<CompType> = Vec::new();
            assert(ty_views(v@) =~= Seq::<Ty>::empty());
            assert(pm =~= Seq::<Result<Ty, Seq<ErrM>>>::empty());
            Ok(v)
        },
        Some(Ok(v)) => {
            assert(ty_views(v@) =~= map_seq(v@, g));
            Ok(v)
        },
        Some(Err(e)) => Err(e),
    }
}

/// A function literal as a value. Failures of its parameter types and of its return type are
/// reported together; its body is lowered in a scope that captures `scope` as it stands.
fn transform_func(f: &FunctionLiteral, scope: &TempScope, loc: Span) -> (r: Result<CompExpression, Vec<CompError>>)
    ensures
        res_ir_view(r) == lower_func(*f, scope@, loc),
    decreases f, 5nat,
{
    let params = transform_params(f, scope);
    let ret = transform_type(&f.return_type, scope);
    let (ps, return_type) = match (params, ret) {
        (Ok(ps), Ok(r)) => (ps, r),
        (Err(mut errs), Err(y)) => {
            append_errors(&mut errs, y);
            return Err(errs);
        },
        (Err(errs), Ok(_)) => return Err(errs),
        (Ok(_), Err(y)) => return Err(y),
    };
    let ghost pts = param_types(*f);
    proof {
        lemma_resolve_types_index(pts, scope@);
        lemma_collect_ok(resolve_types(pts, scope@));
    }
    let ghost pm = ty_views(ps@);
    let mut arguments: Vec<CompVariable> = Vec::new();
    let mut j: usize = 0;
    while j < ps.len()
        invariant
            pm == ty_views(ps@),
            ps@.len() == pts.len(),
            pts == param_types(*f),
            j <= ps@.len(),
            arguments@.len() == j,
            forall|k: int| 0 <= k < j ==> #[trigger] arguments@[k]@ == params_of(*f, pm)[k],
        decreases ps@.len() - j,
    {
        arguments.push(
            CompVariable {
                name: f.args[j].0.clone(),
                typing: ps[j].duplicate(),
                constant: true,
                external: false,
            },
        );
        j += 1;
    }
    assert(var_views(arguments@) =~= params_of(*f, pm));
    let generics = clone_names(&f.generics);
    match &f.body {
        None => {
            let fa = FunctionAst { generics, arguments, return_type, body: None };
            let d = CompData::Func(fa);
            assert(fa@ == FuncM { generics: string_views(f.generics@), arguments: params_of(*f, pm), return_type: return_type@, body: None });
            assert(d@ == DataM::Func(fa@));
            Ok(CompExpression::Value(d))
        },
        Some(b) => {
            let p = match transform_block(b, scope, duplicate_vars(&arguments)) {
                Ok(p) => p,
                Err(es) => return Err(es),
            };
            assert(p@.body == p.body@);
            match get_type_from_exp(&p.body) {
                Err(x) => Err(single_error(x.at(loc))),
                Ok(_) => {
                    let ghost pv = p@;
                    let fa = FunctionAst { generics, arguments, return_type, body: Some(Box::new(p)) };
                    assert(fa@ == FuncM { generics: string_views(f.generics@), arguments: params_of(*f, pm), return_type: return_type@, body: Some(Box::new(pv)) });
                    let d = CompData::Func(fa);
                    assert(d@ == DataM::Func(fa@));
                    Ok(CompExpression::Value(d))
                },
            }
        },
    }
}

/// Lowers a node of the syntax tree to the typed representation, in `scope`.
pub fn transform_exp(exp: &Expression, scope: &mut TempScope) -> (r: Result<CompExpression, Vec<CompError>>)
    ensures
        (res_ir_view(r), final(scope)@) == lower(*exp, old(scope)@),
    decreases exp, 2nat,
{
    match exp {
        Expression::Typeof(..) => lower_typeof(exp, scope),
        Expression::Index(..) => lower_index(exp, scope),
        Expression::TypeDeclaration(..) => lower_type_declaration(exp, scope),
        Expression::InitAssign(..) => lower_init_assign(exp, scope),
        Expression::Assign(..) => lower_assign(exp, scope),
        Expression::IfElse(..) => lower_if_else(exp, scope),
        Expression::Loop(..) => lower_loop(exp, scope),
        Expression::Block(..) => lower_block_exp(exp, scope),
        Expression::FuncCall(..) => lower_call(exp, scope),
        Expression::Terminal(..) => lower_terminal(exp, scope),
        _ => lower_binary(exp, scope),
    }
}

fn lower_typeof(exp: &Expression, scope: &mut TempScope) -> (r: Result<CompExpression, Vec<CompError>>)
    requires
        exp is Typeof,
    ensures
        (res_ir_view(r), final(scope)@) == lower(*exp, old(scope)@),
{
    match exp {
        Expression::Typeof(name, loc) => match scope.get_variable(name) {
            Some(v) => Ok(CompExpression::Typeof(v)),
            None => Err(single_error(CompError::CannotFindVariable(name.clone(), *loc))),
        },
        _ => Err(no_errors()),
    }
}

fn lower_index(exp: &Expression, scope: &mut TempScope) -> (r: Result<CompExpression, Vec<CompError>>)
    requires
        exp is Index,
    ensures
        (res_ir_view(r), final(scope)@) == lower(*exp, old(scope)@),
    decreases exp, 1nat,
{
    match exp {
        Expression::Index(arr, index, loc) => {
            let ra = transform_exp(arr, scope);
            let ri = transform_exp(index, scope);
            match pair_results(ra, ri) {
                Ok((a, i)) => checked_node(CompExpression::Index(Box::new(a), Box::new(i)), *loc),
                Err(es) => Err(es),
            }
        },
        _ => Err(no_errors()),
    }
}

fn lower_type_declaration(exp: &Expression, scope: &mut TempScope) -> (r: Result<CompExpression, Vec<CompError>>)
    requires
        exp is TypeDeclaration,
    ensures
        (res_ir_view(r), final(scope)@) == lower(*exp, old(scope)@),
{
    let n = CompExpression::List(Vec::new());
    proof {
        lemma_ir_view(n);
        assert(ir_views(n->List_0@) =~= Seq::<IrM>::empty());
    }
    Ok(n)
}

fn lower_init_assign(exp: &Expression, scope: &mut TempScope) -> (r: Result<CompExpression, Vec<CompError>>)
    requires
        exp is InitAssign,
    ensures
        (res_ir_view(r), final(scope)@) == lower(*exp, old(scope)@),
    decreases exp, 1nat,
{
    match exp {
        Expression::InitAssign(_, _, name, _, x, loc) => {
            if scope.variable_initialised(name) {
                return Err(single_error(CompError::RedeclareInSameScope(name.clone(), *loc)));
            }
            let xe = match transform_exp(x, scope) {
                Ok(e) => e,
                Err(es) => return Err(es),
            };
            let ty = match get_type_from_exp(&xe) {
                Ok(t) => t,
                Err(z) => return Err(single_error(z.at(*loc))),
            };
            let had = scope.variable_has_type(name);
            if !had {
                scope.set_variable_type(name, ty.duplicate());
            }
            scope.set_variable_initialised(name);
            let v = match scope.get_variable(name) {
                Some(v) => v,
                None => return Err(single_error(CompError::CannotFindVariable(name.clone(), *loc))),
            };
            if had && !v.typing.super_of(&ty) {
                return Err(single_error(CompError::InvalidAssignment(v.typing, ty, *loc)));
            }
            Ok(CompExpression::Assign(v, Box::new(xe)))
        },
        _ => Err(no_errors()),
    }
}

fn lower_assign(exp: &Expression, scope: &mut TempScope) -> (r: Result<CompExpression, Vec<CompError>>)
    requires
        exp is Assign,
    ensures
        (res_ir_view(r), final(scope)@) == lower(*exp, old(scope)@),
    decreases exp, 1nat,
{
    match exp {
        Expression::Assign(lhs, rhs, loc) => match &**lhs {
            Expression::Terminal(Symbol::Identifier(name), _) => {
                let x = match transform_exp(rhs, scope) {
                    Ok(e) => e,
                    Err(es) => return Err(es),
                };
                if scope.constant_exists(name) {
                    return Err(single_error(CompError::ConstReassign(name.clone(), *loc)));
                }
                let v = match scope.get_variable(name) {
                    Some(v) => v,
                    None => return Err(single_error(CompError::CannotFindVariable(name.clone(), *loc))),
                };
                let ty = match get_type_from_exp(&x) {
                    Ok(t) => t,
                    Err(z) => return Err(single_error(z.at(*loc))),
                };
                if v.typing.super_of(&ty) {
                    Ok(CompExpression::Assign(v, Box::new(x)))
                } else {
                    Err(single_error(CompError::InvalidAssignment(v.typing, ty, *loc)))
                }
            },
            _ => Err(single_error(CompError::InvalidLeftHandForAssignment(*loc))),
        },
        _ => Err(no_errors()),
    }
}

fn lower_if_else(exp: &Expression, scope: &mut TempScope) -> (r: Result<CompExpression, Vec<CompError>>)
    requires
        exp is IfElse,
    ensures
        (res_ir_view(r), final(scope)@) == lower(*exp, old(scope)@),
    decreases exp, 1nat,
{
    match exp {
        Expression::IfElse(c, th, el, loc) => {
            let ce = match transform_exp(c, scope) {
                Ok(e) => e,
                Err(es) => return Err(es),
            };
            let none: Vec<CompVariable> = Vec::new();
            assert(var_views(none@) =~= Seq::<VarM>::empty());
            let pt = match transform_block(th, scope, none) {
                Ok(p) => p,
                Err(es) => return Err(es),
            };
            let none: Vec<CompVariable> = Vec::new();
            assert(var_views(none@) =~= Seq::<VarM>::empty());
            let pe = match transform_block(el, scope, none) {
                Ok(p) => p,
                Err(es) => return Err(es),
            };
            let ghost (cv, tv, ev) = (ce@, pt@, pe@);
            let then = CompExpression::Prog(Box::new(pt));
            let otherwise = CompExpression::Prog(Box::new(pe));
            assert(then@ == IrM::Prog(Box::new(tv)));
            assert(otherwise@ == IrM::Prog(Box::new(ev)));
            let n = CompExpression::IfElse { cond: Box::new(ce), then: Box::new(then), otherwise: Box::new(otherwise) };
            assert(n@ == IrM::IfElse(Box::new(cv), Box::new(IrM::Prog(Box::new(tv))), Box::new(IrM::Prog(Box::new(ev)))));
            checked_node(n, *loc)
        },
        _ => Err(no_errors()),
    }
}

fn lower_loop(exp: &Expression, scope: &mut TempScope) -> (r: Result<CompExpression, Vec<CompError>>)
    requires
        exp is Loop,
    ensures
        (res_ir_view(r), final(scope)@) == lower(*exp, old(scope)@),
    decreases exp, 1nat,
{
    match exp {
        Expression::Loop(c, b, loc) => {
            let ce = match transform_exp(c, scope) {
                Ok(e) => e,
                Err(es) => return Err(es),
            };
            let none: Vec<CompVariable> = Vec::new();
            assert(var_views(none@) =~= Seq::<VarM>::empty());
            let pb = match transform_block(b, scope, none) {
                Ok(p) => p,
                Err(es) => return Err(es),
            };
            let ghost (cv, bv) = (ce@, pb@);
            let body = CompExpression::Prog(Box::new(pb));
            assert(body@ == IrM::Prog(Box::new(bv)));
            let n = CompExpression::WhileLoop { cond: Box::new(ce), body: Box::new(body) };
            assert(n@ == IrM::WhileLoop(Box::new(cv), Box::new(IrM::Prog(Box::new(bv)))));
            checked_node(n, *loc)
        },
        _ => Err(no_errors()),
    }
}

fn lower_block_exp(exp: &Expression, scope: &mut TempScope) -> (r: Result<CompExpression, Vec<CompError>>)
    requires
        exp is Block,
    ensures
        (res_ir_view(r), final(scope)@) == lower(*exp, old(scope)@),
    decreases exp, 1nat,
{
    match exp {
        Expression::Block(expressions, _) => match transform_all(expressions, scope) {
            Ok(v) => {
                let n = CompExpression::List(v);
                proof {
                    lemma_ir_view(n);
                }
                Ok(n)
            },
            Err(es) => Err(es),
        },
        _ => Err(no_errors()),
    }
}

fn lower_binary(exp: &Expression, scope: &mut TempScope) -> (r: Result<CompExpression, Vec<CompError>>)
    requires
        exp is LessThan || exp is Addition || exp is Multiplication || exp is Subtraction
            || exp is Division || exp is Equal,
    ensures
        (res_ir_view(r), final(scope)@) == lower(*exp, old(scope)@),
    decreases exp, 1nat,
{
    let (op, l, r) = match exp {
        Expression::LessThan(l, r, _) => (Op::Le, l, r),
        Expression::Addition(l, r, _) => (Op::Add, l, r),
        Expression::Multiplication(l, r, _) => (Op::Mult, l, r),
        Expression::Subtraction(l, r, _) => (Op::Sub, l, r),
        Expression::Division(l, r, _) => (Op::Div, l, r),
        Expression::Equal(l, r, _) => (Op::Eq, l, r),
        _ => return Err(no_errors()),
    };
    let rl = transform_exp(l, scope);
    let rr = transform_exp(r, scope);
    bin_exp(op, rl, rr)
}

fn lower_call(exp: &Expression, scope: &mut TempScope) -> (r: Result<CompExpression, Vec<CompError>>)
    requires
        exp is FuncCall,
    ensures
        (res_ir_view(r), final(scope)@) == lower(*exp, old(scope)@),
    decreases exp, 1nat,
{
    match exp {
        Expression::FuncCall(name, args, loc) => {
            let func = match scope.get_variable(name) {
                Some(v) => v,
                None => return Err(single_error(CompError::CannotFindVariable(name.clone(), *loc))),
            };
            let args = match transform_all(args, scope) {
                Ok(v) => v,
                Err(es) => return Err(es),
            };
            let errs = check_call(&func, &args, *loc);
            if errs.len() == 0 {
                let n = CompExpression::Call(func, args);
                proof {
                    lemma_ir_view(n);
                }
                Ok(n)
            } else {
                Err(errs)
            }
        },
        _ => Err(no_errors()),
    }
}

fn value_node(d: CompData) -> (r: CompExpression)
    ensures
        r@ == IrM::Value(d@),
{
    CompExpression::Value(d)
}

fn lower_terminal(exp: &Expression, scope: &mut TempScope) -> (r: Result<CompExpression, Vec<CompError>>)
    requires
        exp is Terminal,
    ensures
        (res_ir_view(r), final(scope)@) == lower(*exp, old(scope)@),
    decreases exp, 1nat,
{
    match exp {
        Expression::Terminal(Symbol::Identifier(name), loc) => match scope.get_variable(name) {
            Some(v) => Ok(CompExpression::Read(v)),
            None => Err(single_error(CompError::CannotFindVariable(name.clone(), *loc))),
        },
        Expression::Terminal(Symbol::Data(data), loc) => match data {
            RawData::Int(v) => Ok(value_node(CompData::Int(*v))),
            RawData::Float(s) => Ok(value_node(CompData::Float(s.clone()))),
            RawData::Str(s) => Ok(value_node(CompData::Str(s.clone()))),
            RawData::Bool(b) => Ok(value_node(CompData::Bool(*b))),
            RawData::Null => Ok(value_node(CompData::Null)),
            RawData::Func(f) => transform_func(f, scope, *loc),
        },
        _ => Err(no_errors()),
    }
}

} // verus!
