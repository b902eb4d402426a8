//! The checking pass: the driver that folds a statement sequence into a
//! symbol table, stopping at the first error.

pub mod utils;

use vstd::prelude::*;
use crate::classes::Context;
use crate::classes::ErrView;
use crate::classes::TypeError;
use crate::classes::VarView;
use crate::classes::insert_result;
use crate::classes::table_view;
use crate::classes::types_subset;
use crate::typycheck::utils::Expr;
use crate::typycheck::utils::Stmt;
use crate::typycheck::utils::create_variables_from_assign;
use crate::typycheck::utils::expr_types;
use crate::typycheck::utils::stmt_vars;

verus! {

/// The table and the outcome after folding a record sequence into the table,
/// record by record, stopping at the first error.
pub open spec fn insert_all(tbl: Seq<VarView>, vs: Seq<VarView>) -> (Seq<VarView>, Option<ErrView>)
    decreases vs.len(),
{
    if vs.len() == 0 {
        (tbl, None)
    } else {
        match insert_result(tbl, vs[0]) {
            Err(e) => (tbl, Some(e)),
            Ok(t2) => insert_all(t2, vs.drop_first()),
        }
    }
}

/// The table and the outcome after checking one statement against the table.
pub open spec fn stmt_step(tbl: Seq<VarView>, s: Stmt) -> (Seq<VarView>, Option<ErrView>) {
    match stmt_vars(s) {
        Err(e) => (tbl, Some(e)),
        Ok(vs) => insert_all(tbl, vs),
    }
}

/// The table and the outcome after checking a whole statement sequence,
/// stopping at the first error.
pub open spec fn check_all(tbl: Seq<VarView>, stmts: Seq<Stmt>) -> (Seq<VarView>, Option<ErrView>)
    decreases stmts.len(),
{
    if stmts.len() == 0 {
        (tbl, None)
    } else {
        let step = stmt_step(tbl, stmts[0]);
        if step.1 is Some {
            step
        } else {
            check_all(step.0, stmts.drop_first())
        }
    }
}

/// Type-checks one statement, folding the variable records it induces into
/// the context one by one.
pub fn type_check_stmt(statement: &Stmt, context: &mut Context) -> (r: Result<(), TypeError>)
    requires
        old(context).wf(),
    ensures
        final(context).wf(),
        final(context).modules == old(context).modules,
        final(context).classes == old(context).classes,
        final(context).functions == old(context).functions,
        final(context)@ == stmt_step(old(context)@, *statement).0,
        match r {
            Ok(()) => stmt_step(old(context)@, *statement).1 is None,
            Err(e) => stmt_step(old(context)@, *statement).1 == Some(e@),
        },
{
    let mut variables = match create_variables_from_assign(statement) {
        Ok(vars) => vars,
        Err(e) => {
            return Err(e);
        },
    };
    let ghost all = table_view(variables@);
    while variables.len() > 0
        invariant
            context.wf(),
            context.modules == old(context).modules,
            context.classes == old(context).classes,
            context.functions == old(context).functions,
            stmt_vars(*statement) == Ok::<Seq<VarView>, ErrView>(all),
            insert_all(old(context)@, all) == insert_all(context@, table_view(variables@)),
        decreases variables@.len(),
    {
        let ghost prev = table_view(variables@);
        let ghost t1 = context@;
        let v = variables.remove(0);
        proof {
            assert(prev[0] == v@);
            assert(prev.drop_first() =~= table_view(variables@));
        }
        match context.add_variable(v) {
            Ok(()) => {},
            Err(e) => {
                proof {
                    assert(insert_all(t1, prev) == (t1, Some(e@)));
                }
                return Err(e);
            },
        }
    }
    proof {
        assert(table_view(variables@) =~= Seq::<VarView>::empty());
    }
    Ok(())
}

/// Runs one checking pass over a parsed statement sequence: on success the
/// fully populated context, on failure the first error.
pub fn check_unit(statements: &Vec<Stmt>) -> (r: Result<Context, TypeError>)
    ensures
        match r {
            Ok(ctx) => ctx.wf() && check_all(Seq::<VarView>::empty(), statements@) == (
                ctx@,
                None::<ErrView>,
            ) && ctx.modules@.len() == 0 && ctx.classes@.len() == 0 && ctx.functions@.len() == 0,
            Err(e) => check_all(Seq::<VarView>::empty(), statements@).1 == Some(e@),
        },
{
    let mut context = Context::init();
    proof {
        assert(statements@.skip(0) =~= statements@);
    }
    let mut i: usize = 0;
    while i < statements.len()
        invariant
            context.wf(),
            context.modules@.len() == 0,
            context.classes@.len() == 0,
            context.functions@.len() == 0,
            i <= statements@.len(),
            check_all(Seq::<VarView>::empty(), statements@) == check_all(
                context@,
                statements@.skip(i as int),
            ),
        decreases statements@.len() - i,
    {
        let ghost pre = context@;
        let ghost rem = statements@.skip(i as int);
        proof {
            assert(rem[0] == statements@[i as int]);
            assert(rem.drop_first() =~= statements@.skip(i as int + 1));
        }
        match type_check_stmt(&statements[i], &mut context) {
            Ok(()) => {},
            Err(e) => {
                proof {
                    assert(check_all(pre, rem) == (context@, Some(e@)));
                }
                return Err(e);
            },
        }
        i = i + 1;
    }
    proof {
        assert(statements@.skip(statements@.len() as int) =~= Seq::<Stmt>::empty());
    }
    Ok(context)
}

/// One fixed statement sequence always checks to one outcome: `check_all` is
/// a function of the sequence alone, so repeated passes agree both on
/// success or failure and on the first diagnostic.
pub proof fn lemma_check_deterministic(
    stmts: Seq<Stmt>,
    r1: (Seq<VarView>, Option<ErrView>),
    r2: (Seq<VarView>, Option<ErrView>),
)
    requires
        r1 == check_all(Seq::<VarView>::empty(), stmts),
        r2 == check_all(Seq::<VarView>::empty(), stmts),
    ensures
        r1 == r2,
{
}

/// An annotated assignment whose value types are not all admitted by its
/// annotation fails with the annotation diagnostic before any insertion: the
/// table comes back unchanged.
pub proof fn lemma_annotation_enforced(
    tbl: Seq<VarView>,
    target: Box<Expr>,
    annotation: Box<Expr>,
    value: Box<Expr>,
)
    requires
        !types_subset(expr_types(*value), expr_types(*annotation)),
    ensures
        stmt_step(tbl, Stmt::AnnAssign { target, annotation, value: Some(value) }) == (
            tbl,
            Some(ErrView::AnnotationMismatch),
        ),
{
}

} // verus!
