use typy::classes::Context;
use typy::classes::Type;
use typy::classes::TypeError;
use typy::classes::Variable;
use typy::classes::render_type;
use typy::classes::render_types;
use typy::classes::type_eq;
use typy::strcmp::str_lt;
use typy::typycheck::check_unit;
use typy::typycheck::type_check_stmt;
use typy::typycheck::utils::ConstantKind;
use typy::typycheck::utils::Expr;
use typy::typycheck::utils::Stmt;
use typy::typycheck::utils::create_variables_from_assign;
use typy::typycheck::utils::get_types;

fn name(s: &str) -> Expr {
    Expr::Name(String::from(s))
}

fn assign(targets: Vec<Expr>, value: Expr) -> Stmt {
    Stmt::Assign { targets, value: Box::new(value) }
}

fn ann_assign(target: &str, annotation: Expr, value: Option<Expr>) -> Stmt {
    Stmt::AnnAssign {
        target: Box::new(name(target)),
        annotation: Box::new(annotation),
        value: value.map(Box::new),
    }
}

fn int_lit() -> Expr {
    Expr::Constant(ConstantKind::Int)
}

fn str_lit() -> Expr {
    Expr::Constant(ConstantKind::Str)
}

fn none_lit() -> Expr {
    Expr::Constant(ConstantKind::NoneLit)
}

fn var(n: &str, types: Vec<Type>) -> Variable {
    Variable { name: String::from(n), type_: types }
}

#[test]
fn scenario_reassign_same_type() {
    let stmts = vec![
        assign(vec![name("x")], int_lit()),
        assign(vec![name("x")], int_lit()),
    ];
    let ctx = check_unit(&stmts).expect("both assignments should succeed");
    assert_eq!(ctx.variables.len(), 1);
    assert_eq!(ctx.variables[0].name, "x");
    assert_eq!(ctx.variables[0].type_, vec![Type::PyInt]);
}

#[test]
fn scenario_reassign_conflicting_type() {
    let stmts = vec![
        assign(vec![name("x")], int_lit()),
        assign(vec![name("x")], str_lit()),
    ];
    let err = check_unit(&stmts).expect_err("second assignment should fail");
    assert_eq!(
        err.message(),
        "Variable 'x' type mismatch. Expected: int, got: str"
    );
}

#[test]
fn scenario_annotated_declaration() {
    let stmts = vec![ann_assign("x", name("int"), Some(int_lit()))];
    let ctx = check_unit(&stmts).expect("declaration should succeed");
    assert_eq!(ctx.variables.len(), 1);
    assert_eq!(ctx.variables[0].name, "x");
    assert_eq!(ctx.variables[0].type_, vec![Type::PyInt]);
}

#[test]
fn scenario_annotated_mismatch_leaves_context_untouched() {
    let mut ctx = Context::init();
    let stmt = ann_assign("x", name("int"), Some(str_lit()));
    let err = type_check_stmt(&stmt, &mut ctx).expect_err("annotation mismatch");
    assert_eq!(err, TypeError::AnnotationMismatch);
    assert_eq!(err.message(), "Value type does not match annotation");
    assert_eq!(ctx.variables.len(), 0);
}

#[test]
fn scenario_none_reassigned() {
    let stmts = vec![
        assign(vec![name("y")], none_lit()),
        assign(vec![name("y")], none_lit()),
    ];
    let ctx = check_unit(&stmts).expect("both assignments should succeed");
    assert_eq!(ctx.variables.len(), 1);
    assert_eq!(ctx.variables[0].name, "y");
    assert_eq!(ctx.variables[0].type_, vec![Type::PyNone]);
}

#[test]
fn repeated_checks_agree() {
    let make = || {
        vec![
            assign(vec![name("a")], int_lit()),
            assign(vec![name("b")], str_lit()),
            assign(vec![name("a")], str_lit()),
        ]
    };
    let first = check_unit(&make());
    let second = check_unit(&make());
    let msg1 = first.expect_err("conflict expected").message();
    let msg2 = second.expect_err("conflict expected").message();
    assert_eq!(msg1, msg2);
    assert_eq!(msg1, "Variable 'a' type mismatch. Expected: int, got: str");
}

#[test]
fn add_variable_idempotent() {
    let mut ctx = Context::init();
    ctx.add_variable(var("x", vec![Type::PyInt, Type::PyFloat]))
        .expect("first insertion");
    ctx.add_variable(var("x", vec![Type::PyInt, Type::PyFloat]))
        .expect("exact re-insertion is a no-op");
    assert_eq!(ctx.variables.len(), 1);
    assert_eq!(ctx.variables[0].type_, vec![Type::PyInt, Type::PyFloat]);
}

#[test]
fn add_variable_subset_compatible() {
    let mut ctx = Context::init();
    ctx.add_variable(var("x", vec![Type::PyInt, Type::PyFloat]))
        .expect("first insertion");
    ctx.add_variable(var("x", vec![Type::PyInt]))
        .expect("narrower occurrence is compatible");
    assert_eq!(ctx.variables.len(), 1);
    assert_eq!(ctx.variables[0].type_, vec![Type::PyInt, Type::PyFloat]);
}

#[test]
fn add_variable_conflict_leaves_table() {
    let mut ctx = Context::init();
    ctx.add_variable(var("x", vec![Type::PyInt])).expect("first insertion");
    let err = ctx
        .add_variable(var("x", vec![Type::PyString]))
        .expect_err("conflicting type");
    assert_eq!(
        err,
        TypeError::TypeMismatch {
            name: String::from("x"),
            expected: String::from("int"),
            actual: String::from("str"),
        }
    );
    assert_eq!(ctx.variables.len(), 1);
    assert_eq!(ctx.variables[0].type_, vec![Type::PyInt]);
}

#[test]
fn add_variable_keeps_names_sorted() {
    let mut ctx = Context::init();
    for n in ["mu", "alpha", "zeta", "beta", "nu", "aa"] {
        ctx.add_variable(var(n, vec![Type::PyInt])).expect("insertion");
    }
    let names: Vec<&str> = ctx.variables.iter().map(|v| v.name.as_str()).collect();
    assert_eq!(names, vec!["aa", "alpha", "beta", "mu", "nu", "zeta"]);
}

#[test]
fn exists_variable_reports_lookup() {
    let mut ctx = Context::init();
    ctx.add_variable(var("a", vec![Type::PyInt])).expect("insertion");
    ctx.add_variable(var("b", vec![Type::PyString])).expect("insertion");
    assert_eq!(ctx.exists_variable(&var("a", vec![Type::PyInt])), Ok(true));
    assert_eq!(ctx.exists_variable(&var("c", vec![Type::PyInt])), Ok(false));
    let err = ctx
        .exists_variable(&var("b", vec![Type::PyBool]))
        .expect_err("bool not recorded for b");
    assert_eq!(
        err.message(),
        "Variable 'b' type mismatch. Expected: str, got: bool"
    );
}

#[test]
fn missing_value_is_an_error() {
    let stmts = vec![ann_assign("x", name("int"), None)];
    let err = check_unit(&stmts).expect_err("initializer required");
    assert_eq!(err, TypeError::MissingValue);
    assert_eq!(err.message(), "Variable must have a value");
}

#[test]
fn uninferrable_assignment_is_an_error() {
    let stmts = vec![assign(vec![name("x")], Expr::Other)];
    let err = check_unit(&stmts).expect_err("no type to infer");
    assert_eq!(err, TypeError::CannotInfer);
    assert_eq!(err.message(), "Cannot infer a type for the assigned value");

    let from_name = vec![assign(vec![name("x")], name("y"))];
    let err = check_unit(&from_name).expect_err("a name value yields no type");
    assert_eq!(err, TypeError::CannotInfer);
}

#[test]
fn assignment_without_named_targets_is_skipped() {
    let stmts = vec![assign(vec![Expr::Other], Expr::Other), Stmt::Other];
    let ctx = check_unit(&stmts).expect("nothing to record");
    assert_eq!(ctx.variables.len(), 0);
}

#[test]
fn multi_target_assignment_records_each_name() {
    let stmts = vec![assign(vec![name("x"), name("y")], int_lit())];
    let ctx = check_unit(&stmts).expect("chained assignment");
    assert_eq!(ctx.variables.len(), 2);
    assert_eq!(ctx.variables[0].name, "x");
    assert_eq!(ctx.variables[0].type_, vec![Type::PyInt]);
    assert_eq!(ctx.variables[1].name, "y");
    assert_eq!(ctx.variables[1].type_, vec![Type::PyInt]);
}

#[test]
fn union_annotation_admits_both_types() {
    let union = Expr::BinOp(Box::new(name("int")), Box::new(name("str")));
    let stmts = vec![
        ann_assign("x", union, Some(str_lit())),
        assign(vec![name("x")], int_lit()),
    ];
    let ctx = check_unit(&stmts).expect("both statements fit the union");
    assert_eq!(ctx.variables.len(), 1);
    assert_eq!(ctx.variables[0].type_, vec![Type::PyInt, Type::PyString]);
}

#[test]
fn union_annotation_still_rejects_others() {
    let union = Expr::BinOp(Box::new(name("int")), Box::new(name("str")));
    let stmts = vec![
        ann_assign("x", union, Some(str_lit())),
        assign(vec![name("x")], Expr::Constant(ConstantKind::Bool)),
    ];
    let err = check_unit(&stmts).expect_err("bool is outside the union");
    assert_eq!(
        err.message(),
        "Variable 'x' type mismatch. Expected: int | str, got: bool"
    );
}

#[test]
fn unknown_annotation_name_yields_empty_set() {
    let stmts = vec![ann_assign("x", name("list"), Some(Expr::Other))];
    let ctx = check_unit(&stmts).expect("empty set against empty set");
    assert_eq!(ctx.variables.len(), 1);
    assert_eq!(ctx.variables[0].type_, Vec::<Type>::new());
}

#[test]
fn get_types_unions_binop_operands() {
    let e = Expr::BinOp(Box::new(int_lit()), Box::new(name("str")));
    assert_eq!(get_types(&e), vec![Type::PyInt, Type::PyString]);
    assert_eq!(get_types(&Expr::Other), Vec::<Type>::new());
    assert_eq!(get_types(&name("float")), vec![Type::PyFloat]);
    assert_eq!(get_types(&name("unknown")), Vec::<Type>::new());
}

#[test]
fn create_variables_from_annotated_uses_annotation_set() {
    let stmt = ann_assign("x", name("int"), Some(int_lit()));
    let vars = create_variables_from_assign(&stmt).expect("records");
    assert_eq!(vars.len(), 1);
    assert_eq!(vars[0].name, "x");
    assert_eq!(vars[0].type_, vec![Type::PyInt]);
}

#[test]
fn render_scalar_tokens() {
    assert_eq!(render_type(&Type::PyInt), "int");
    assert_eq!(render_type(&Type::PyFloat), "float");
    assert_eq!(render_type(&Type::PyString), "str");
    assert_eq!(render_type(&Type::PyBool), "bool");
    assert_eq!(render_type(&Type::PyNone), "None");
    assert_eq!(render_type(&Type::PyBytes), "bytes");
    assert_eq!(render_type(&Type::PyObject), "object");
}

#[test]
fn render_nested_types() {
    let list = Type::PyList(vec![Type::PyInt, Type::PyString]);
    assert_eq!(render_type(&list), "List[int | str]");
    let tuple = Type::PyTuple(vec![Type::PyBool]);
    assert_eq!(render_type(&tuple), "Tuple[bool]");
    assert_eq!(render_types(&vec![Type::PyInt, Type::PyNone]), "int | None");
    assert_eq!(render_types(&Vec::new()), "");
}

#[test]
fn type_eq_is_structural() {
    let a = Type::PyList(vec![Type::PyInt, Type::PyString]);
    let b = Type::PyList(vec![Type::PyInt, Type::PyString]);
    let c = Type::PyList(vec![Type::PyString, Type::PyInt]);
    assert!(type_eq(&a, &b));
    assert!(!type_eq(&a, &c));
    assert!(!type_eq(&a, &Type::PyTuple(vec![Type::PyInt, Type::PyString])));
    assert!(type_eq(&Type::PyNone, &Type::PyNone));
}

#[test]
fn str_lt_is_lexicographic() {
    assert!(str_lt("a", "b"));
    assert!(!str_lt("b", "a"));
    assert!(str_lt("ab", "b"));
    assert!(str_lt("a", "ab"));
    assert!(!str_lt("ab", "ab"));
    assert!(str_lt("", "a"));
    assert!(!str_lt("", ""));
}

#[test]
fn empty_unit_checks_clean() {
    let stmts: Vec<Stmt> = Vec::new();
    let ctx = check_unit(&stmts).expect("nothing to check");
    assert_eq!(ctx.variables.len(), 0);
    assert_eq!(ctx.modules.len(), 0);
    assert_eq!(ctx.classes.len(), 0);
    assert_eq!(ctx.functions.len(), 0);
}
