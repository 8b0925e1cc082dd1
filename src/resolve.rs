use vstd::prelude::*;
use crate::ast::{nowhere, CustomType, Expression, Span, Symbol};
use crate::errors::{
    errs_view, append_errors, lemma_errs_view_concat, no_errors, single_error, CompError, ErrM,
};
use crate::scope::{
    declared_here, find_type, find_var, lemma_declared_after_push, lemma_temp_type_canonical,
    new_names, scope_var, temp_constant, temp_declared, temp_type, temp_types_canonical,
    var_names, with_type_decl, with_var, NewVarM, NewVariable, ScopeM, TempM, TempScope,
};
use crate::types::{
    canonical, flat, lemma_all_canonical, lemma_comp_type_view, lemma_flatten_canonical,
    lemma_ty_views_push, ty_views, CompType, Ty,
};

verus! {

broadcast use vstd::std_specs::vec::axiom_vec_index_decreases;

/// Gathers a sequence of outcomes: all successes, or the failures of every failed one, in order.
pub open spec fn collect<A>(rs: Seq<Result<A, Seq<ErrM>>>) -> Result<Seq<A>, Seq<ErrM>>
    decreases rs.len(),
{
    if rs.len() == 0 {
        Ok(Seq::empty())
    } else {
        match (collect(rs.drop_last()), rs.last()) {
            (Ok(xs), Ok(x)) => Ok(xs.push(x)),
            (Ok(_), Err(e)) => Err(e),
            (Err(es), Ok(_)) => Err(es),
            (Err(es), Err(e)) => Err(es + e),
        }
    }
}

/// All the successes of `rs`, or the failures of every failed outcome, in order.
pub open spec fn gather<T>(rs: Seq<Result<T, Vec<CompError>>>) -> Result<Seq<T>, Seq<CompError>>
    decreases rs.len(),
{
    if rs.len() == 0 {
        Ok(Seq::empty())
    } else {
        match (gather(rs.drop_last()), rs.last()) {
            (Ok(xs), Ok(x)) => Ok(xs.push(x)),
            (Ok(_), Err(e)) => Err(e@),
            (Err(es), Ok(_)) => Err(es),
            (Err(es), Err(e)) => Err(es + e@),
        }
    }
}

/// Gathers outcomes: nothing when there is none; else all the successes, or the failures of
/// every failed outcome, in order.
pub fn collect_ok_or_err<T>(items: Vec<Result<T, Vec<CompError>>>) -> (r: Option<Result<Vec<T>, Vec<CompError>>>)
    ensures
        items@.len() == 0 <==> r is None,
        match r {
            Some(Ok(v)) => gather(items@) == Ok::<Seq<T>, Seq<CompError>>(v@),
            Some(Err(e)) => gather(items@) == Err::<Seq<T>, Seq<CompError>>(e@),
            None => true,
        },
{
    let ghost orig = items@;
    let n = items.len();
    let mut items = items;
    let mut oks: Vec<T> = Vec::new();
    let mut errs: Vec<CompError> = Vec::new();
    let mut failed = false;
    let mut i: usize = 0;
    assert(orig.take(0) =~= Seq::<Result<T, Vec<CompError>>>::empty());
    assert(oks@ =~= Seq::<T>::empty());
    while i < n
        invariant
            n == orig.len(),
            i <= n,
            items@ =~= orig.subrange(i as int, n as int),
            gather(orig.take(i as int)) == if failed {
                Err::<Seq<T>, Seq<CompError>>(errs@)
            } else {
                Ok::<Seq<T>, Seq<CompError>>(oks@)
            },
        decreases n - i,
    {
        let ghost before = items@;
        let r = items.remove(0);
        assert(r == orig[i as int]);
        assert(items@ =~= orig.subrange(i as int + 1, n as int));
        assert(orig.take(i as int + 1).drop_last() =~= orig.take(i as int));
        match r {
            Ok(x) => {
                if !failed {
                    oks.push(x);
                }
            },
            Err(e) => {
                if !failed {
                    errs = e;
                    failed = true;
                } else {
                    let mut e = e;
                    errs.append(&mut e);
                }
            },
        }
        i += 1;
    }
    assert(orig.take(n as int) =~= orig);
    if n == 0 {
        None
    } else if failed {
        Some(Err(errs))
    } else {
        Some(Ok(oks))
    }
}

/// `f` applied to each element of `xs`.
pub open spec fn map_seq<T, V>(xs: Seq<T>, f: spec_fn(T) -> V) -> Seq<V> {
    Seq::new(xs.len(), |k: int| f(xs[k]))
}

/// `gather` on executable outcomes agrees with `collect` on their models.
pub proof fn lemma_gather_collect<T, V>(
    rs: Seq<Result<T, Vec<CompError>>>,
    ms: Seq<Result<V, Seq<ErrM>>>,
    f: spec_fn(T) -> V,
)
    requires
        rs.len() == ms.len(),
        forall|k: int| 0 <= k < rs.len() ==> #[trigger] ms[k] == match rs[k] {
            Ok(x) => Ok::<V, Seq<ErrM>>(f(x)),
            Err(e) => Err::<V, Seq<ErrM>>(errs_view(e@)),
        },
    ensures
        collect(ms) == match gather(rs) {
            Ok(xs) => Ok::<Seq<V>, Seq<ErrM>>(map_seq(xs, f)),
            Err(es) => Err::<Seq<V>, Seq<ErrM>>(errs_view(es)),
        },
    decreases rs.len(),
{
    if rs.len() == 0 {
        assert(map_seq(Seq::<T>::empty(), f) =~= Seq::<V>::empty());
    } else {
        let (rp, mp) = (rs.drop_last(), ms.drop_last());
        assert forall|k: int| 0 <= k < rp.len() implies #[trigger] mp[k] == match rp[k] {
            Ok(x) => Ok::<V, Seq<ErrM>>(f(x)),
            Err(e) => Err::<V, Seq<ErrM>>(errs_view(e@)),
        } by {
            assert(mp[k] == ms[k]);
            assert(rp[k] == rs[k]);
        }
        lemma_gather_collect(rp, mp, f);
        let last = rs[rs.len() - 1];
        assert(ms[ms.len() - 1] == match last {
            Ok(x) => Ok::<V, Seq<ErrM>>(f(x)),
            Err(e) => Err::<V, Seq<ErrM>>(errs_view(e@)),
        });
        match (gather(rp), last) {
            (Ok(xs), Ok(x)) => {
                assert(map_seq(xs.push(x), f) =~= map_seq(xs, f).push(f(x)));
            },
            (Err(es), Err(e)) => {
                lemma_errs_view_concat(es, e@);
            },
            _ => {},
        }
    }
}

/// The type that a written type stands for in scope `t`, or every reason it stands for none.
pub open spec fn resolve_type(ct: CustomType, t: TempM) -> Result<Ty, Seq<ErrM>>
    decreases ct,
{
    match ct {
        CustomType::Union(subs) => if subs@.len() == 0 {
            Err(seq![ErrM::EmptyType(nowhere())])
        } else {
            match collect(resolve_types(subs@, t)) {
                Ok(ms) => Ok(flat(Ty::Union(ms))),
                Err(es) => Err(es),
            }
        },
        CustomType::Callible(args, ret) => {
            let ra = collect(resolve_types(args@, t));
            let rr = resolve_type(*ret, t);
            match (ra, rr) {
                (Ok(a), Ok(r)) => Ok(Ty::Callible(a, Box::new(r))),
                (Err(a), Err(r)) => Err(a + r),
                (Err(a), Ok(_)) => Err(a),
                (Ok(_), Err(r)) => Err(r),
            }
        },
        CustomType::Lone(name) => match temp_type(t, name@) {
            Some(ty) => Ok(ty),
            None => Err(seq![ErrM::CannotFindType(name@, nowhere())]),
        },
    }
}

/// `resolve_type` of each written type.
pub open spec fn resolve_types(cs: Seq<CustomType>, t: TempM) -> Seq<Result<Ty, Seq<ErrM>>>
    decreases cs,
{
    if cs.len() == 0 {
        Seq::empty()
    } else {
        resolve_types(cs.drop_last(), t).push(resolve_type(cs[cs.len() - 1], t))
    }
}

/// The declarations of a statement registered into `t`: the failures found and the new scope.
pub open spec fn resolve(e: Expression, t: TempM) -> (Seq<ErrM>, TempM)
    decreases e,
{
    match e {
        Expression::TypeDeclaration(name, ct, loc) => if find_type(t.types, name@) is Some {
            (seq![ErrM::TypeAlreadyDefined(name@, loc)], t)
        } else {
            match resolve_type(ct, t) {
                Ok(ty) => (Seq::empty(), with_type_decl(t, name@, ty)),
                Err(es) => (es, t),
            }
        },
        Expression::InitAssign(external, constant, name, declared, _, loc) => if declared_here(
            t,
            name@,
        ) {
            (seq![ErrM::RedeclareInSameScope(name@, loc)], t)
        } else {
            match declared {
                None => (
                    Seq::empty(),
                    with_var(t, NewVarM { name: name@, typing: None, constant, initialised: false, external }),
                ),
                Some(ct) => match resolve_type(ct, t) {
                    Ok(ty) => (
                        Seq::empty(),
                        with_var(
                            t,
                            NewVarM { name: name@, typing: Some(ty), constant, initialised: false, external },
                        ),
                    ),
                    Err(es) => (es, t),
                },
            }
        },
        Expression::Assign(lhs, _, loc) => match *lhs {
            Expression::Terminal(Symbol::Identifier(name), _) => if temp_constant(t, name@) {
                (seq![ErrM::ConstReassign(name@, loc)], t)
            } else if t.outermost {
                (seq![ErrM::GlobalReassign(name@, loc)], t)
            } else if !temp_declared(t, name@) {
                (seq![ErrM::CannotFindVariable(name@, loc)], t)
            } else {
                (Seq::empty(), t)
            },
            _ => (seq![ErrM::InvalidLeftHandForAssignment(loc)], t),
        },
        Expression::Block(es, _) => resolve_all(es@, t),
        _ => (Seq::empty(), t),
    }
}

/// `resolve` of each statement in turn, on one scope; the failures of all of them.
pub open spec fn resolve_all(es: Seq<Expression>, t: TempM) -> (Seq<ErrM>, TempM)
    decreases es,
{
    if es.len() == 0 {
        (Seq::empty(), t)
    } else {
        let (e1, t1) = resolve_all(es.drop_last(), t);
        let (e2, t2) = resolve(es[es.len() - 1], t1);
        (e1 + e2, t2)
    }
}

pub proof fn lemma_collect_ok<A>(rs: Seq<Result<A, Seq<ErrM>>>)
    ensures
        collect(rs) is Ok ==> collect(rs)->Ok_0.len() == rs.len() && forall|k: int|
            0 <= k < rs.len() ==> #[trigger] rs[k] == Ok::<A, Seq<ErrM>>(collect(rs)->Ok_0[k]),
    decreases rs.len(),
{
    if rs.len() > 0 {
        lemma_collect_ok(rs.drop_last());
        if collect(rs) is Ok {
            let xs = collect(rs)->Ok_0;
            assert forall|k: int| 0 <= k < rs.len() implies #[trigger] rs[k] == Ok::<A, Seq<ErrM>>(xs[k]) by {
                if k < rs.len() - 1 {
                    assert(rs[k] == rs.drop_last()[k]);
                }
            }
        }
    }
}

pub proof fn lemma_resolve_types_index(cs: Seq<CustomType>, t: TempM)
    ensures
        resolve_types(cs, t).len() == cs.len(),
        forall|k: int| 0 <= k < cs.len() ==> #[trigger] resolve_types(cs, t)[k] == resolve_type(cs[k], t),
    decreases cs.len(),
{
    if cs.len() > 0 {
        lemma_resolve_types_index(cs.drop_last(), t);
    }
}

/// Resolution keeps unions flattened: in a scope whose named types are canonical, every
/// type that a written type resolves to is canonical.
pub proof fn lemma_resolved_type_canonical(ct: CustomType, t: TempM)
    requires
        temp_types_canonical(t),
    ensures
        resolve_type(ct, t) is Ok ==> canonical(resolve_type(ct, t)->Ok_0),
    decreases ct,
{
    match ct {
        CustomType::Union(subs) => {
            let rs = resolve_types(subs@, t);
            lemma_resolve_types_index(subs@, t);
            lemma_collect_ok(rs);
            if subs@.len() > 0 && collect(rs) is Ok {
                let ms = collect(rs)->Ok_0;
                assert forall|k: int| 0 <= k < ms.len() implies #[trigger] canonical(ms[k]) by {
                    lemma_resolved_type_canonical(subs@[k], t);
                    assert(rs[k] == resolve_type(subs@[k], t));
                }
                lemma_flatten_canonical(Ty::Union(ms));
            }
        },
        CustomType::Callible(args, ret) => {
            let rs = resolve_types(args@, t);
            lemma_resolve_types_index(args@, t);
            lemma_collect_ok(rs);
            lemma_resolved_type_canonical(*ret, t);
            if collect(rs) is Ok && resolve_type(*ret, t) is Ok {
                let ps = collect(rs)->Ok_0;
                assert forall|k: int| 0 <= k < ps.len() implies #[trigger] canonical(ps[k]) by {
                    lemma_resolved_type_canonical(args@[k], t);
                    assert(rs[k] == resolve_type(args@[k], t));
                }
                lemma_all_canonical(ps, ps.len());
            }
        },
        CustomType::Lone(name) => {
            lemma_temp_type_canonical(t, name@);
        },
    }
}

proof fn lemma_collect_err_nonempty<A>(rs: Seq<Result<A, Seq<ErrM>>>)
    requires
        forall|i: int| 0 <= i < rs.len() && (#[trigger] rs[i]) is Err ==> rs[i]->Err_0.len() > 0,
    ensures
        collect(rs) is Err ==> collect(rs)->Err_0.len() > 0,
    decreases rs.len(),
{
    if rs.len() > 0 {
        let p = rs.drop_last();
        assert forall|i: int| 0 <= i < p.len() && (#[trigger] p[i]) is Err implies p[i]->Err_0.len() > 0 by {
            assert(p[i] == rs[i]);
        }
        lemma_collect_err_nonempty(p);
        assert(rs.last() == rs[rs.len() - 1]);
    }
}

/// A written type that does not resolve comes with at least one diagnostic.
proof fn lemma_resolve_type_err_nonempty(ct: CustomType, t: TempM)
    ensures
        resolve_type(ct, t) is Err ==> resolve_type(ct, t)->Err_0.len() > 0,
    decreases ct,
{
    match ct {
        CustomType::Union(subs) => {
            lemma_resolve_types_index(subs@, t);
            let rs = resolve_types(subs@, t);
            assert forall|i: int| 0 <= i < rs.len() && (#[trigger] rs[i]) is Err implies rs[i]->Err_0.len() > 0 by {
                lemma_resolve_type_err_nonempty(subs@[i], t);
            }
            lemma_collect_err_nonempty(rs);
        },
        CustomType::Callible(args, ret) => {
            lemma_resolve_types_index(args@, t);
            let rs = resolve_types(args@, t);
            assert forall|i: int| 0 <= i < rs.len() && (#[trigger] rs[i]) is Err implies rs[i]->Err_0.len() > 0 by {
                lemma_resolve_type_err_nonempty(args@[i], t);
            }
            lemma_collect_err_nonempty(rs);
            lemma_resolve_type_err_nonempty(*ret, t);
        },
        CustomType::Lone(_) => {},
    }
}

/// Declaring a name twice in one block is reported, not taken as shadowing: once `first` has
/// declared a name, resolving `second`, which declares the same name, reports exactly that.
pub proof fn lemma_redeclaration_rejected(first: Expression, second: Expression, t: TempM)
    requires
        first is InitAssign,
        second is InitAssign,
        first->InitAssign_2@ == second->InitAssign_2@,
        resolve(first, t).0.len() == 0,
    ensures
        resolve_all(seq![first, second], t).0 == seq![
            ErrM::RedeclareInSameScope(second->InitAssign_2@, second->InitAssign_5),
        ],
{
    reveal_with_fuel(resolve_all, 3);
    let t1 = resolve(first, t).1;
    let name = first->InitAssign_2@;
    assert(!declared_here(t, name));
    if let Some(ct) = first->InitAssign_3 {
        lemma_resolve_type_err_nonempty(ct, t);
    }
    let nv = t1.variables[t.variables.len() as int];
    assert(t1 == with_var(t, nv));
    lemma_declared_after_push(t, nv);
    assert(declared_here(t1, name));
    assert(seq![first, second].drop_last() =~= seq![first]);
    assert(seq![first].drop_last() =~= Seq::<Expression>::empty());
    assert(resolve_all(seq![first], t).0 =~= Seq::<ErrM>::empty());
    assert(resolve_all(seq![first, second], t).0 =~= resolve(second, t1).0);
}

/// A constant is not reassigned: once `decl` has declared a name constant, resolving an
/// assignment `asg` to that name reports exactly that.
pub proof fn lemma_constant_reassign_rejected(decl: Expression, asg: Expression, t: TempM)
    requires
        decl is InitAssign,
        decl->InitAssign_1,
        resolve(decl, t).0.len() == 0,
        asg is Assign,
        *asg->Assign_0 is Terminal,
        asg->Assign_0->Terminal_0 is Identifier,
        asg->Assign_0->Terminal_0->Identifier_0@ == decl->InitAssign_2@,
    ensures
        resolve_all(seq![decl, asg], t).0 == seq![
            ErrM::ConstReassign(decl->InitAssign_2@, asg->Assign_2),
        ],
{
    reveal_with_fuel(resolve_all, 3);
    let t1 = resolve(decl, t).1;
    let name = decl->InitAssign_2@;
    assert(!declared_here(t, name));
    if let Some(ct) = decl->InitAssign_3 {
        lemma_resolve_type_err_nonempty(ct, t);
    }
    let nv = t1.variables[t.variables.len() as int];
    assert(t1 == with_var(t, nv));
    lemma_declared_after_push(t, nv);
    assert(find_var(t1.preset, name) is None);
    assert(temp_constant(t1, name));
    assert(seq![decl, asg].drop_last() =~= seq![decl]);
    assert(seq![decl].drop_last() =~= Seq::<Expression>::empty());
    assert(resolve_all(seq![decl], t).0 =~= Seq::<ErrM>::empty());
    assert(resolve_all(seq![decl, asg], t).0 =~= resolve(asg, t1).0);
}

/// Bindings of a program's own scope are declare-once: as its first statement, an assignment
/// to a name that the environment `s` does not hold reports a global reassignment.
pub proof fn lemma_first_statement_global_reassign(asg: Expression, s: ScopeM)
    requires
        asg is Assign,
        *asg->Assign_0 is Terminal,
        asg->Assign_0->Terminal_0 is Identifier,
        scope_var(s, asg->Assign_0->Terminal_0->Identifier_0@) is None,
    ensures
        resolve(asg, crate::program::root_scope(s)).0 == seq![
            ErrM::GlobalReassign(asg->Assign_0->Terminal_0->Identifier_0@, asg->Assign_2),
        ],
{
    let t = crate::program::root_scope(s);
    let name = asg->Assign_0->Terminal_0->Identifier_0@;
    assert(var_names(t.preset) =~= Seq::<Seq<char>>::empty());
    assert(new_names(t.variables) =~= Seq::<Seq<char>>::empty());
    assert(!temp_constant(t, name));
}

pub open spec fn res_ty_view(r: Result<CompType, Vec<CompError>>) -> Result<Ty, Seq<ErrM>> {
    match r {
        Ok(t) => Ok(t@),
        Err(es) => Err(errs_view(es@)),
    }
}

/// Resolves each written type of `cs`, gathering the results as `collect` does.
pub fn transform_types(cs: &Vec<CustomType>, scope: &TempScope) -> (r: Result<Vec<CompType>, Vec<CompError>>)
    ensures
        match r {
            Ok(v) => collect(resolve_types(cs@, scope@)) == Ok::<Seq<Ty>, Seq<ErrM>>(ty_views(v@)),
            Err(es) => collect(resolve_types(cs@, scope@)) == Err::<Seq<Ty>, Seq<ErrM>>(errs_view(es@)),
        },
    decreases cs,
{
    let ghost ms = resolve_types(cs@, scope@);
    proof {
        lemma_resolve_types_index(cs@, scope@);
    }
    let mut results: Vec<Result<CompType, Vec<CompError>>> = Vec::new();
    let mut i: usize = 0;
    while i < cs.len()
        invariant
            ms == resolve_types(cs@, scope@),
            ms.len() == cs@.len(),
            forall|k: int| 0 <= k < cs@.len() ==> #[trigger] ms[k] == resolve_type(cs@[k], scope@),
            i <= cs@.len(),
            results@.len() == i,
            forall|k: int| 0 <= k < i ==> #[trigger] res_ty_view(results@[k]) == ms[k],
        decreases cs@.len() - i,
    {
        results.push(transform_type(&cs[i], scope));
        i += 1;
    }
    let ghost f = |t: CompType| t@;
    proof {
        assert forall|k: int| 0 <= k < results@.len() implies #[trigger] ms[k] == match results@[k] {
            Ok(x) => Ok::<Ty, Seq<ErrM>>(f(x)),
            Err(e) => Err::<Ty, Seq<ErrM>>(errs_view(e@)),
        } by {
            assert(res_ty_view(results@[k]) == ms[k]);
        }
        lemma_gather_collect(results@, ms, f);
    }
    match collect_ok_or_err(results) {
        None => {
            let v: Vec<CompType> = Vec::new();
            assert(ty_views(v@) =~= Seq::<Ty>::empty());
            assert(ms =~= Seq::<Result<Ty, Seq<ErrM>>>::empty());
            Ok(v)
        },
        Some(Ok(v)) => {
            assert(ty_views(v@) =~= map_seq(v@, f));
            Ok(v)
        },
        Some(Err(e)) => Err(e),
    }
}

/// Resolves a written type in `scope`. Failures of the members of a union, or of the
/// parameters and the result of a function type, are all reported together.
pub fn transform_type(ty: &CustomType, scope: &TempScope) -> (r: Result<CompType, Vec<CompError>>)
    ensures
        res_ty_view(r) == resolve_type(*ty, scope@),
    decreases ty,
{
    match ty {
        CustomType::Union(sub_types) => {
            if sub_types.len() == 0 {
                return Err(single_error(CompError::EmptyType(Span { start: 0, end: 0 })));
            }
            match transform_types(sub_types, scope) {
                Ok(members) => {
                    let u = CompType::Union(members);
                    proof {
                        lemma_comp_type_view(u);
                    }
                    Ok(u.flatten())
                },
                Err(es) => Err(es),
            }
        },
        CustomType::Callible(args, ret) => {
            let args = transform_types(args, scope);
            let ret = transform_type(ret, scope);
            match (args, ret) {
                (Ok(args), Ok(ret)) => {
                    let c = CompType::Callible(args, Box::new(ret));
                    proof {
                        lemma_comp_type_view(c);
                    }
                    Ok(c)
                },
                (Err(args), Err(ret)) => {
                    let mut errs = args;
                    append_errors(&mut errs, ret);
                    Err(errs)
                },
                (Err(args), Ok(_)) => Err(args),
                (Ok(_), Err(ret)) => Err(ret),
            }
        },
        CustomType::Lone(name) => match scope.get_type(name) {
            Some(t) => Ok(t),
            None => {
                Err(single_error(CompError::CannotFindType(name.clone(), Span { start: 0, end: 0 })))
            },
        },
    }
}

/// Registers the declarations of `ast` into `scope` and checks that its assignments are legal,
/// before any expression is lowered. Statements of a block are registered in order, and the
/// failures of all of them are reported.
pub fn resolve_scope(ast: &Expression, scope: &mut TempScope) -> (r: Result<(), Vec<CompError>>)
    ensures
        final(scope)@ == resolve(*ast, old(scope)@).1,
        match r {
            Ok(_) => resolve(*ast, old(scope)@).0.len() == 0,
            Err(es) => es@.len() > 0 && errs_view(es@) == resolve(*ast, old(scope)@).0,
        },
    decreases ast,
{
    let errs = resolve_errors(ast, scope);
    if errs.len() == 0 {
        Ok(())
    } else {
        Err(errs)
    }
}

fn resolve_errors(ast: &Expression, scope: &mut TempScope) -> (r: Vec<CompError>)
    ensures
        final(scope)@ == resolve(*ast, old(scope)@).1,
        errs_view(r@) == resolve(*ast, old(scope)@).0,
    decreases ast,
{
    match ast {
        Expression::TypeDeclaration(name, declared_type, loc) => {
            if scope.type_declared_here(name) {
                single_error(CompError::TypeAlreadyDefined(name.clone(), *loc))
            } else {
                match transform_type(declared_type, scope) {
                    Ok(t) => {
                        scope.add_type(name.clone(), t);
                        no_errors()
                    },
                    Err(es) => es,
                }
            }
        },
        Expression::InitAssign(external, constant, name, declared_type, _, loc) => {
            if scope.declared_here(name) {
                single_error(CompError::RedeclareInSameScope(name.clone(), *loc))
            } else {
                let typing = match declared_type {
                    None => None,
                    Some(x) => match transform_type(x, scope) {
                        Ok(t) => Some(t),
                        Err(es) => return es,
                    },
                };
                scope.add_variable(
                    NewVariable {
                        name: name.clone(),
                        typing,
                        constant: *constant,
                        initialised: false,
                        external: *external,
                    },
                );
                no_errors()
            }
        },
        Expression::Assign(lhs, _, loc) => {
            match &**lhs {
                Expression::Terminal(Symbol::Identifier(name), _) => {
                    if scope.constant_exists(name) {
                        single_error(CompError::ConstReassign(name.clone(), *loc))
                    } else if scope.outermost {
                        single_error(CompError::GlobalReassign(name.clone(), *loc))
                    } else if !scope.variable_exists(name) {
                        single_error(CompError::CannotFindVariable(name.clone(), *loc))
                    } else {
                        no_errors()
                    }
                },
                _ => single_error(CompError::InvalidLeftHandForAssignment(*loc)),
            }
        },
        Expression::Block(expressions, _) => {
            let mut errs: Vec<CompError> = Vec::new();
            let ghost start = scope@;
            let mut i: usize = 0;
            while i < expressions.len()
                invariant
                    ast is Block,
                    ast->Block_0 == *expressions,
                    start == old(scope)@,
                    i <= expressions@.len(),
                    resolve_all(expressions@.take(i as int), start) == (errs_view(errs@), scope@),
                decreases expressions@.len() - i,
            {
                let ghost pre = expressions@.take(i as int + 1);
                assert(pre.drop_last() =~= expressions@.take(i as int));
                let es = resolve_errors(&expressions[i], scope);
                append_errors(&mut errs, es);
                i += 1;
            }
            assert(expressions@.take(expressions@.len() as int) =~= expressions@);
            errs
        },
        _ => {
            no_errors()
        },
    }
}

} // verus!
