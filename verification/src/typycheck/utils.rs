//! Statement and expression nodes, and the per-statement inference that turns
//! an assignment into variable records.
//!
//! The nodes mirror what the external parser produces; anything the checker
//! does not inspect arrives as the `Other` form and yields nothing.

use vstd::prelude::*;
use vstd::string::StringExecFns;
use crate::classes::ErrView;
use crate::classes::Type;
use crate::classes::TypeError;
use crate::classes::VarView;
use crate::classes::Variable;
use crate::classes::table_view;
use crate::classes::types_contained;
use crate::classes::types_subset;

verus! {

/// The syntactic class of a literal constant.
#[derive(PartialEq, Eq, Clone, Copy, Debug)]
pub enum ConstantKind {
    Int,
    Float,
    Bool,
    Str,
    NoneLit,
    Other,
}

/// An expression node.
#[derive(Debug)]
pub enum Expr {
    /// A literal constant of the given syntactic class.
    Constant(ConstantKind),
    /// A bare identifier.
    Name(String),
    /// A binary operation; which operator it is does not matter to inference.
    BinOp(Box<Expr>, Box<Expr>),
    /// Any expression form the checker does not inspect.
    Other,
}

/// A statement node.
#[derive(Debug)]
pub enum Stmt {
    /// A plain assignment: one or more targets, one value expression.
    Assign { targets: Vec<Expr>, value: Box<Expr> },
    /// An annotated assignment: a target, an annotation, an optional value.
    AnnAssign { target: Box<Expr>, annotation: Box<Expr>, value: Option<Box<Expr>> },
    /// Any statement form the checker does not inspect.
    Other,
}

/// The type a literal constant exhibits, if its class yields one.
pub open spec fn const_type(k: ConstantKind) -> Option<Type> {
    match k {
        ConstantKind::Int => Some(Type::PyInt),
        ConstantKind::Float => Some(Type::PyFloat),
        ConstantKind::Bool => Some(Type::PyBool),
        ConstantKind::Str => Some(Type::PyString),
        ConstantKind::NoneLit => Some(Type::PyNone),
        ConstantKind::Other => None,
    }
}

/// The built-in type a bare name denotes, if recognized; any other name
/// yields no type.
pub open spec fn builtin_type(id: Seq<char>) -> Option<Type> {
    if id == "int"@ {
        Some(Type::PyInt)
    } else if id == "float"@ {
        Some(Type::PyFloat)
    } else if id == "str"@ {
        Some(Type::PyString)
    } else if id == "bool"@ {
        Some(Type::PyBool)
    } else {
        None
    }
}

/// The type set inferred from an annotation or value expression: a constant
/// or a recognized built-in name yields one type, a binary operation unions
/// (concatenates) its operands' sets, and anything else yields none.
pub open spec fn expr_types(e: Expr) -> Seq<Type>
    decreases e,
{
    match e {
        Expr::Constant(k) => match const_type(k) {
            Some(t) => seq![t],
            None => Seq::empty(),
        },
        Expr::Name(id) => match builtin_type(id@) {
            Some(t) => seq![t],
            None => Seq::empty(),
        },
        Expr::BinOp(lhs, rhs) => expr_types(*lhs) + expr_types(*rhs),
        Expr::Other => Seq::empty(),
    }
}

/// The type a plain assignment's value exhibits: only literal constants do.
pub open spec fn assign_value_type(e: Expr) -> Option<Type> {
    match e {
        Expr::Constant(k) => const_type(k),
        _ => None,
    }
}

/// The identifiers among an assignment's targets, in order.
pub open spec fn target_names(ts: Seq<Expr>) -> Seq<Seq<char>>
    decreases ts.len(),
{
    if ts.len() == 0 {
        Seq::empty()
    } else {
        (match ts[0] {
            Expr::Name(id) => seq![id@],
            _ => Seq::<Seq<char>>::empty(),
        }) + target_names(ts.drop_first())
    }
}

/// Appending one target extends the collected names by that target's
/// identifier, if it has one.
pub proof fn lemma_target_names_push(ts: Seq<Expr>, e: Expr)
    ensures
        target_names(ts.push(e)) == target_names(ts) + (match e {
            Expr::Name(id) => seq![id@],
            _ => Seq::<Seq<char>>::empty(),
        }),
    decreases ts.len(),
{
    let tail = (match e {
        Expr::Name(id) => seq![id@],
        _ => Seq::<Seq<char>>::empty(),
    });
    if ts.len() == 0 {
        assert(ts.push(e)[0] == e);
        assert(ts.push(e).drop_first() =~= Seq::<Expr>::empty());
        assert(target_names(ts.push(e)) == tail + target_names(Seq::<Expr>::empty()));
        assert(tail + Seq::<Seq<char>>::empty() =~= tail);
        assert(target_names(ts) + tail =~= tail);
    } else {
        let head = (match ts[0] {
            Expr::Name(id) => seq![id@],
            _ => Seq::<Seq<char>>::empty(),
        });
        assert(ts.push(e)[0] == ts[0]);
        assert(ts.push(e).drop_first() =~= ts.drop_first().push(e));
        lemma_target_names_push(ts.drop_first(), e);
        assert(head + (target_names(ts.drop_first()) + tail) =~= (head + target_names(
            ts.drop_first(),
        )) + tail);
    }
}

/// The records one statement induces: for a plain assignment, one record per
/// named target, each carrying the single type of the constant value (an
/// error when targets exist but no type can be inferred); for an annotated
/// assignment, one record carrying the annotation's full type set, provided a
/// value exists and its types are all admitted by the annotation; nothing for
/// any other statement.
pub open spec fn stmt_vars(s: Stmt) -> Result<Seq<VarView>, ErrView> {
    match s {
        Stmt::Assign { targets, value } => {
            let names = target_names(targets@);
            match assign_value_type(*value) {
                Some(t) => Ok(
                    names.map_values(|n: Seq<char>| VarView { name: n, types: seq![t] }),
                ),
                None => if names.len() == 0 {
                    Ok(Seq::empty())
                } else {
                    Err(ErrView::CannotInfer)
                },
            }
        },
        Stmt::AnnAssign { target, annotation, value } => {
            let name = (match *target {
                Expr::Name(id) => id@,
                _ => Seq::<char>::empty(),
            });
            match value {
                None => Err(ErrView::MissingValue),
                Some(vexpr) => {
                    let ann = expr_types(*annotation);
                    let val = expr_types(*vexpr);
                    if !types_subset(val, ann) {
                        Err(ErrView::AnnotationMismatch)
                    } else {
                        Ok(seq![VarView { name: name, types: ann }])
                    }
                },
            }
        },
        Stmt::Other => Ok(Seq::empty()),
    }
}

/// Decides the type a literal constant exhibits.
fn constant_type(k: ConstantKind) -> (r: Option<Type>)
    ensures
        r == const_type(k),
{
    match k {
        ConstantKind::Int => Some(Type::PyInt),
        ConstantKind::Float => Some(Type::PyFloat),
        ConstantKind::Bool => Some(Type::PyBool),
        ConstantKind::Str => Some(Type::PyString),
        ConstantKind::NoneLit => Some(Type::PyNone),
        ConstantKind::Other => None,
    }
}

/// Decides which built-in type a name denotes.
fn builtin_of(id: &String) -> (r: Option<Type>)
    ensures
        r == builtin_type(id@),
{
    if *id == String::from_str("int") {
        Some(Type::PyInt)
    } else if *id == String::from_str("float") {
        Some(Type::PyFloat)
    } else if *id == String::from_str("str") {
        Some(Type::PyString)
    } else if *id == String::from_str("bool") {
        Some(Type::PyBool)
    } else {
        None
    }
}

/// Decides the type a plain assignment's value exhibits.
fn assign_type(e: &Expr) -> (r: Option<Type>)
    ensures
        r == assign_value_type(*e),
{
    match e {
        Expr::Constant(k) => constant_type(*k),
        _ => None,
    }
}

/// Infers the type set of an annotation or value expression.
pub fn get_types(expr: &Expr) -> (r: Vec<Type>)
    ensures
        r@ == expr_types(*expr),
    decreases *expr,
{
    match expr {
        Expr::Constant(k) => {
            let mut types: Vec<Type> = Vec::new();
            match constant_type(*k) {
                Some(t) => types.push(t),
                None => {},
            }
            proof {
                assert(types@ =~= expr_types(*expr));
            }
            types
        },
        Expr::Name(id) => {
            let mut types: Vec<Type> = Vec::new();
            match builtin_of(id) {
                Some(t) => types.push(t),
                None => {},
            }
            proof {
                assert(types@ =~= expr_types(*expr));
            }
            types
        },
        Expr::BinOp(lhs, rhs) => {
            let mut types = get_types(&**lhs);
            let mut right = get_types(&**rhs);
            types.append(&mut right);
            types
        },
        Expr::Other => {
            let types: Vec<Type> = Vec::new();
            types
        },
    }
}

/// Extracts the variable records a statement induces: the named targets of a
/// plain assignment each paired with the constant value's type, or the single
/// annotated target paired with its annotation's type set.
pub fn create_variables_from_assign(assign: &Stmt) -> (r: Result<Vec<Variable>, TypeError>)
    ensures
        match r {
            Ok(vars) => stmt_vars(*assign) == Ok::<Seq<VarView>, ErrView>(table_view(vars@)),
            Err(e) => stmt_vars(*assign) == Err::<Seq<VarView>, ErrView>(e@),
        },
{
    match assign {
        Stmt::Assign { targets, value } => {
            let mut var_names: Vec<String> = Vec::new();
            let mut i: usize = 0;
            while i < targets.len()
                invariant
                    i <= targets@.len(),
                    var_names@.map_values(|s: String| s@) == target_names(
                        targets@.take(i as int),
                    ),
                decreases targets@.len() - i,
            {
                match &targets[i] {
                    Expr::Name(name) => {
                        var_names.push(name.clone());
                    },
                    _ => {},
                }
                proof {
                    lemma_target_names_push(targets@.take(i as int), targets@[i as int]);
                    assert(targets@.take(i as int + 1) =~= targets@.take(i as int).push(
                        targets@[i as int],
                    ));
                    assert(var_names@.map_values(|s: String| s@) =~= target_names(
                        targets@.take(i as int + 1),
                    ));
                }
                i = i + 1;
            }
            proof {
                assert(targets@.take(targets@.len() as int) =~= targets@);
            }
            if assign_type(value).is_none() {
                if var_names.len() > 0 {
                    return Err(TypeError::CannotInfer);
                }
                let out: Vec<Variable> = Vec::new();
                proof {
                    assert(table_view(out@) =~= Seq::<VarView>::empty());
                }
                return Ok(out);
            }
            let ghost tspec = (match assign_value_type(**value) {
                Some(t) => t,
                None => Type::PyObject,
            });
            let mut variables: Vec<Variable> = Vec::new();
            let mut j: usize = 0;
            while j < var_names.len()
                invariant
                    j <= var_names@.len(),
                    variables@.len() == j,
                    assign_value_type(**value) == Some(tspec),
                    forall|k: int|
                        0 <= k < j ==> #[trigger] variables@[k]@ == (VarView {
                            name: var_names@[k]@,
                            types: seq![tspec],
                        }),
                decreases var_names@.len() - j,
            {
                let t = assign_type(value).unwrap();
                let mut ts: Vec<Type> = Vec::new();
                ts.push(t);
                let nm = var_names[j].clone();
                variables.push(Variable { name: nm, type_: ts });
                proof {
                    assert(variables@[j as int]@.types =~= seq![tspec]);
                }
                j = j + 1;
            }
            proof {
                assert(table_view(variables@) =~= target_names(targets@).map_values(
                    |n: Seq<char>| VarView { name: n, types: seq![tspec] },
                ));
            }
            Ok(variables)
        },
        Stmt::AnnAssign { target, annotation, value } => {
            let var_name: String = match &**target {
                Expr::Name(id) => id.clone(),
                _ => String::new(),
            };
            let types = get_types(&**annotation);
            match value {
                None => Err(TypeError::MissingValue),
                Some(vexpr) => {
                    let value_types = get_types(&**vexpr);
                    if !types_contained(&value_types, &types) {
                        return Err(TypeError::AnnotationMismatch);
                    }
                    let mut out: Vec<Variable> = Vec::new();
                    out.push(Variable { name: var_name, type_: types });
                    proof {
                        assert(table_view(out@) =~= seq![
                            VarView {
                                name: (match **target {
                                    Expr::Name(id) => id@,
                                    _ => Seq::<char>::empty(),
                                }),
                                types: expr_types(**annotation),
                            },
                        ]);
                    }
                    Ok(out)
                },
            }
        },
        Stmt::Other => {
            let out: Vec<Variable> = Vec::new();
            proof {
                assert(table_view(out@) =~= Seq::<VarView>::empty());
            }
            Ok(out)
        },
    }
}

} // verus!
