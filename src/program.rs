use vstd::prelude::*;
use crate::ast::{span_of, Expression};
use crate::derive::{get_type_from_exp, type_of};
use crate::errors::{errs_view, single_error, with_span, CompError, ErrM};
use crate::ir::{CompExpression, IrM, ProgM, Program, lemma_ir_view};
use crate::lower::{lower_program, res_prog_view, transform_ast};
use crate::resolve::{resolve, resolve_scope};
use crate::scope::{new_views, type_views, var_views, CompScope, ScopeM, TempM, TempScope};

verus! {

/// The scope of a program's own block, under the environment `s` that the caller provides.
pub open spec fn root_scope(s: ScopeM) -> TempM {
    TempM {
        variables: Seq::empty(),
        preset: Seq::empty(),
        types: Seq::empty(),
        parent: Some(s),
        outermost: true,
    }
}

/// The validated program that `e` stands for in environment `s`, or its diagnostics:
/// declarations are resolved, then the block is lowered, then its type is derived (a failure
/// there points at the program's span).
pub open spec fn program_of(e: Expression, s: ScopeM) -> Result<ProgM, Seq<ErrM>> {
    let (errs, t1) = resolve(e, root_scope(s));
    if errs.len() > 0 {
        Err(errs)
    } else {
        match lower_program(e, t1).0 {
            Err(es) => Err(es),
            Ok(p) => match type_of(p.body) {
                Err(x) => Err(seq![with_span(x, span_of(e))]),
                Ok(_) => Ok(p),
            },
        }
    }
}

/// Resolves, lowers and validates a whole program in the environment `scope`.
pub fn create_program(ast: &Expression, scope: &CompScope) -> (r: Result<Program, Vec<CompError>>)
    ensures
        res_prog_view(r) == program_of(*ast, scope@),
{
    let mut local = TempScope {
        variables: Vec::new(),
        preset_variables: Vec::new(),
        types: Vec::new(),
        parent: Some(Box::new(scope.duplicate())),
        outermost: true,
    };
    assert(new_views(local.variables@) =~= Seq::empty());
    assert(var_views(local.preset_variables@) =~= Seq::empty());
    assert(type_views(local.types@) =~= Seq::empty());
    assert(local@ == root_scope(scope@));
    match resolve_scope(ast, &mut local) {
        Err(es) => return Err(es),
        Ok(_) => {},
    }
    let prog = match transform_ast(ast, &mut local) {
        Ok(p) => p,
        Err(es) => return Err(es),
    };
    assert(prog@.body == prog.body@);
    match get_type_from_exp(&prog.body) {
        Err(x) => Err(single_error(x.at(ast.span()))),
        Ok(_) => Ok(prog),
    }
}

/// A node simplified for execution: a block that declares nothing gives way to its body, an
/// empty list to nothing, and a conditional whose alternative is nothing to a one-armed one.
pub open spec fn flat_action(e: IrM) -> Option<IrM>
    decreases e,
{
    match e {
        IrM::Prog(p) => if p.scope.variables.len() == 0 && p.scope.types.len() == 0 {
            flat_action(p.body)
        } else {
            Some(e)
        },
        IrM::List(es) => if es.len() == 0 {
            None
        } else {
            Some(e)
        },
        IrM::IfElse(c, t, o) => match flat_action(*o) {
            Some(o2) => Some(IrM::IfElse(c, t, Box::new(o2))),
            None => Some(IrM::IfOnly(c, t)),
        },
        _ => Some(e),
    }
}

pub open spec fn opt_ir_view(o: Option<CompExpression>) -> Option<IrM> {
    match o {
        Some(e) => Some(e@),
        None => None,
    }
}

/// Simplifies a node for execution, as `flat_action` says.
pub fn flatten_action(action: CompExpression) -> (r: Option<CompExpression>)
    ensures
        opt_ir_view(r) == flat_action(action@),
    decreases action,
{
    let ghost av = action@;
    match action {
        CompExpression::Prog(prog) => {
            assert(prog.view().scope == prog.scope@);
            assert(prog.view().body == prog.body@);
            if prog.scope.variables.len() == 0 && prog.scope.types.len() == 0 {
                let p = *prog;
                assert(p@.body == p.body@);
                flatten_action(p.body)
            } else {
                Some(CompExpression::Prog(prog))
            }
        },
        CompExpression::List(exps) => {
            proof {
                lemma_ir_view(CompExpression::List(exps));
            }
            if exps.len() == 0 {
                None
            } else {
                Some(CompExpression::List(exps))
            }
        },
        CompExpression::IfElse { cond, then, otherwise } => {
            let ghost (cv, tv) = (cond@, then@);
            Some(
                match flatten_action(*otherwise) {
                    Some(o) => {
                        let ghost ov = o@;
                        let n = CompExpression::IfElse { cond, then, otherwise: Box::new(o) };
                        assert(n@ == IrM::IfElse(Box::new(cv), Box::new(tv), Box::new(ov)));
                        n
                    },
                    None => {
                        let n = CompExpression::IfOnly { cond, then };
                        assert(n@ == IrM::IfOnly(Box::new(cv), Box::new(tv)));
                        n
                    },
                },
            )
        },
        x => Some(x),
    }
}

} // verus!
