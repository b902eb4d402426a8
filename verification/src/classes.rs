//! The type model and the symbol table.
//!
//! `Type` is the closed set of value-type tags the checker knows, `Variable`
//! pairs a name with the set of types admissible for it, and `Context` is the
//! name-sorted symbol table that one checking pass accumulates.

use std::collections::HashMap;
use vstd::prelude::*;
use vstd::string::StringExecFns;
use crate::strcmp::lemma_seq_lt_asym;
use crate::strcmp::lemma_seq_lt_connected;
use crate::strcmp::lemma_seq_lt_irrefl;
use crate::strcmp::lemma_seq_lt_trans;
use crate::strcmp::seq_lt;
use crate::strcmp::str_lt;

verus! {

/// A value type observed for a variable. `PyList` and `PyTuple` carry the
/// element types actually seen, so they compare structurally.
#[derive(PartialEq, Eq, PartialOrd, Ord, Debug)]
pub enum Type {
    PyInt,
    PyFloat,
    PyString,
    PyBool,
    PyNone,
    PyBytes,
    PyObject,
    PyList(Vec<Type>),
    PyTuple(Vec<Type>),
}

/// Structural equality on types: two `PyList` (or `PyTuple`) types are equal
/// exactly when their element lists are pointwise equal.
pub open spec fn teq(a: Type, b: Type) -> bool
    decreases a,
{
    match (a, b) {
        (Type::PyInt, Type::PyInt) => true,
        (Type::PyFloat, Type::PyFloat) => true,
        (Type::PyString, Type::PyString) => true,
        (Type::PyBool, Type::PyBool) => true,
        (Type::PyNone, Type::PyNone) => true,
        (Type::PyBytes, Type::PyBytes) => true,
        (Type::PyObject, Type::PyObject) => true,
        (Type::PyList(x), Type::PyList(y)) => types_eq(x@, y@),
        (Type::PyTuple(x), Type::PyTuple(y)) => types_eq(x@, y@),
        _ => false,
    }
}

/// Pointwise structural equality of two type sequences.
pub open spec fn types_eq(a: Seq<Type>, b: Seq<Type>) -> bool
    decreases a,
{
    a.len() == b.len() && (a.len() == 0 || (teq(a[0], b[0]) && types_eq(
        a.drop_first(),
        b.drop_first(),
    )))
}

/// Structural equality is reflexive.
pub proof fn lemma_teq_refl(t: Type)
    ensures
        teq(t, t),
    decreases t,
{
    match t {
        Type::PyList(x) => lemma_types_eq_refl(x@),
        Type::PyTuple(x) => lemma_types_eq_refl(x@),
        _ => {},
    }
}

pub proof fn lemma_types_eq_refl(s: Seq<Type>)
    ensures
        types_eq(s, s),
    decreases s,
{
    if s.len() > 0 {
        lemma_teq_refl(s[0]);
        lemma_types_eq_refl(s.drop_first());
    }
}

/// Structural equality is symmetric.
pub proof fn lemma_teq_sym(a: Type, b: Type)
    requires
        teq(a, b),
    ensures
        teq(b, a),
    decreases a,
{
    match (a, b) {
        (Type::PyList(x), Type::PyList(y)) => lemma_types_eq_sym(x@, y@),
        (Type::PyTuple(x), Type::PyTuple(y)) => lemma_types_eq_sym(x@, y@),
        _ => {},
    }
}

pub proof fn lemma_types_eq_sym(a: Seq<Type>, b: Seq<Type>)
    requires
        types_eq(a, b),
    ensures
        types_eq(b, a),
    decreases a,
{
    if a.len() > 0 {
        lemma_teq_sym(a[0], b[0]);
        lemma_types_eq_sym(a.drop_first(), b.drop_first());
    }
}

/// Pointwise-equal sequences are `types_eq`.
pub proof fn lemma_types_eq_pointwise(a: Seq<Type>, b: Seq<Type>)
    requires
        a.len() == b.len(),
        forall|i: int| 0 <= i < a.len() ==> teq(a[i], b[i]),
    ensures
        types_eq(a, b),
    decreases a,
{
    if a.len() > 0 {
        assert forall|i: int| 0 <= i < a.drop_first().len() implies teq(
            a.drop_first()[i],
            b.drop_first()[i],
        ) by {
            assert(a.drop_first()[i] == a[i + 1]);
            assert(b.drop_first()[i] == b[i + 1]);
        }
        lemma_types_eq_pointwise(a.drop_first(), b.drop_first());
    }
}

/// `types_eq` sequences are pointwise equal.
pub proof fn lemma_types_eq_index(a: Seq<Type>, b: Seq<Type>, i: int)
    requires
        types_eq(a, b),
        0 <= i < a.len(),
    ensures
        teq(a[i], b[i]),
    decreases i,
{
    if i > 0 {
        lemma_types_eq_index(a.drop_first(), b.drop_first(), i - 1);
        assert(a.drop_first()[i - 1] == a[i]);
        assert(b.drop_first()[i - 1] == b[i]);
    }
}

/// Decides structural equality of two types.
pub fn type_eq(a: &Type, b: &Type) -> (r: bool)
    ensures
        r == teq(*a, *b),
    decreases *a,
{
    match (a, b) {
        (Type::PyInt, Type::PyInt) => true,
        (Type::PyFloat, Type::PyFloat) => true,
        (Type::PyString, Type::PyString) => true,
        (Type::PyBool, Type::PyBool) => true,
        (Type::PyNone, Type::PyNone) => true,
        (Type::PyBytes, Type::PyBytes) => true,
        (Type::PyObject, Type::PyObject) => true,
        (Type::PyList(x), Type::PyList(y)) => type_vec_eq(x, y),
        (Type::PyTuple(x), Type::PyTuple(y)) => type_vec_eq(x, y),
        _ => false,
    }
}

/// Decides pointwise structural equality of two type lists.
pub fn type_vec_eq(x: &Vec<Type>, y: &Vec<Type>) -> (r: bool)
    ensures
        r == types_eq(x@, y@),
    decreases x@,
{
    if x.len() != y.len() {
        return false;
    }
    let mut j: usize = 0;
    loop
        invariant
            x@.len() == y@.len(),
            j <= x@.len(),
            forall|k: int| 0 <= k < j ==> teq(x@[k], y@[k]),
        decreases x@.len() - j,
    {
        if j == x.len() {
            proof {
                lemma_types_eq_pointwise(x@, y@);
            }
            return true;
        }
        if !type_eq(&x[j], &y[j]) {
            proof {
                if types_eq(x@, y@) {
                    lemma_types_eq_index(x@, y@, j as int);
                }
            }
            return false;
        }
        j = j + 1;
    }
}

/// The display token of a type: `int`, `str`, ..., `List[...]`, `Tuple[...]`.
pub open spec fn type_display(t: Type) -> Seq<char>
    decreases t,
{
    match t {
        Type::PyInt => "int"@,
        Type::PyFloat => "float"@,
        Type::PyString => "str"@,
        Type::PyBool => "bool"@,
        Type::PyNone => "None"@,
        Type::PyBytes => "bytes"@,
        Type::PyObject => "object"@,
        Type::PyList(ts) => "List["@ + union_display(ts@) + "]"@,
        Type::PyTuple(ts) => "Tuple["@ + union_display(ts@) + "]"@,
    }
}

/// The rendering of a type set: the member tokens joined by `" | "`.
pub open spec fn union_display(ts: Seq<Type>) -> Seq<char>
    decreases ts,
{
    if ts.len() == 0 {
        Seq::empty()
    } else if ts.len() == 1 {
        type_display(ts[0])
    } else {
        type_display(ts[0]) + " | "@ + union_display(ts.drop_first())
    }
}

/// Extending a joined rendering by one more type appends a separator and the
/// new type's token (no separator when the set was empty).
pub proof fn lemma_union_display_push(s: Seq<Type>, t: Type)
    ensures
        union_display(s.push(t)) == if s.len() == 0 {
            type_display(t)
        } else {
            union_display(s) + " | "@ + type_display(t)
        },
    decreases s,
{
    if s.len() == 0 {
        assert(s.push(t)[0] == t);
        assert(union_display(s.push(t)) == type_display(t));
    } else if s.len() == 1 {
        assert(s.push(t)[0] == s[0]);
        assert(s.push(t).drop_first() =~= seq![t]);
        assert(union_display(seq![t]) == type_display(t));
    } else {
        assert(s.push(t).drop_first() =~= s.drop_first().push(t));
        lemma_union_display_push(s.drop_first(), t);
        assert(s.push(t)[0] == s[0]);
        assert((type_display(s[0]) + " | "@ + (union_display(s.drop_first()) + " | "@
            + type_display(t))) =~= ((type_display(s[0]) + " | "@ + union_display(s.drop_first()))
            + " | "@ + type_display(t)));
    }
}

/// Renders one type as its display token.
pub fn render_type(t: &Type) -> (r: String)
    ensures
        r@ == type_display(*t),
    decreases *t,
{
    match t {
        Type::PyInt => String::from_str("int"),
        Type::PyFloat => String::from_str("float"),
        Type::PyString => String::from_str("str"),
        Type::PyBool => String::from_str("bool"),
        Type::PyNone => String::from_str("None"),
        Type::PyBytes => String::from_str("bytes"),
        Type::PyObject => String::from_str("object"),
        Type::PyList(ts) => {
            let mut s = String::from_str("List[");
            let inner = render_types(ts);
            s.append(inner.as_str());
            s.append("]");
            proof {
                assert(s@ =~= "List["@ + union_display(ts@) + "]"@);
            }
            s
        },
        Type::PyTuple(ts) => {
            let mut s = String::from_str("Tuple[");
            let inner = render_types(ts);
            s.append(inner.as_str());
            s.append("]");
            proof {
                assert(s@ =~= "Tuple["@ + union_display(ts@) + "]"@);
            }
            s
        },
    }
}

/// Renders a type set as its member tokens joined by `" | "`.
pub fn render_types(ts: &Vec<Type>) -> (r: String)
    ensures
        r@ == union_display(ts@),
    decreases ts@,
{
    let mut s = String::new();
    let mut i: usize = 0;
    loop
        invariant
            i <= ts@.len(),
            s@ == union_display(ts@.take(i as int)),
        decreases ts@.len() - i,
    {
        if i == ts.len() {
            proof {
                assert(ts@.take(i as int) =~= ts@);
            }
            return s;
        }
        if i > 0 {
            s.append(" | ");
        }
        let token = render_type(&ts[i]);
        s.append(token.as_str());
        proof {
            lemma_union_display_push(ts@.take(i as int), ts@[i as int]);
            assert(ts@.take(i as int + 1) =~= ts@.take(i as int).push(ts@[i as int]));
            assert(s@ =~= union_display(ts@.take(i as int + 1)));
        }
        i = i + 1;
    }
}


/// A variable record: a name and the non-shrinking set of types admissible
/// for it.
#[derive(PartialEq, Eq, PartialOrd, Ord, Debug)]
pub struct Variable {
    pub name: String,
    pub type_: Vec<Type>,
}

/// The mathematical content of a `Variable`.
pub struct VarView {
    pub name: Seq<char>,
    pub types: Seq<Type>,
}

impl View for Variable {
    type V = VarView;

    open spec fn view(&self) -> VarView {
        VarView { name: self.name@, types: self.type_@ }
    }
}

/// The view of a whole variable table.
pub open spec fn table_view(vars: Seq<Variable>) -> Seq<VarView> {
    vars.map_values(|v: Variable| v@)
}

/// An error detected during one checking pass.
#[derive(PartialEq, Eq, Debug)]
pub enum TypeError {
    /// A name already recorded with some type set is reused with a type
    /// outside that set. The fields carry the name and the two renderings.
    TypeMismatch { name: String, expected: String, actual: String },
    /// An annotated assignment has no value expression.
    MissingValue,
    /// A value's inferred type is not admitted by its annotation.
    AnnotationMismatch,
    /// A plain assignment's value yields no type for its targets.
    CannotInfer,
}

/// The mathematical content of a `TypeError`.
pub enum ErrView {
    Mismatch { name: Seq<char>, expected: Seq<char>, actual: Seq<char> },
    MissingValue,
    AnnotationMismatch,
    CannotInfer,
}

impl View for TypeError {
    type V = ErrView;

    open spec fn view(&self) -> ErrView {
        match self {
            TypeError::TypeMismatch { name, expected, actual } => ErrView::Mismatch {
                name: name@,
                expected: expected@,
                actual: actual@,
            },
            TypeError::MissingValue => ErrView::MissingValue,
            TypeError::AnnotationMismatch => ErrView::AnnotationMismatch,
            TypeError::CannotInfer => ErrView::CannotInfer,
        }
    }
}

/// The diagnostic text of an error.
pub open spec fn err_display(e: ErrView) -> Seq<char> {
    match e {
        ErrView::Mismatch { name, expected, actual } => "Variable '"@ + name
            + "' type mismatch. Expected: "@ + expected + ", got: "@ + actual,
        ErrView::MissingValue => "Variable must have a value"@,
        ErrView::AnnotationMismatch => "Value type does not match annotation"@,
        ErrView::CannotInfer => "Cannot infer a type for the assigned value"@,
    }
}

impl TypeError {
    /// Renders the diagnostic message for this error.
    pub fn message(&self) -> (r: String)
        ensures
            r@ == err_display(self@),
    {
        match self {
            TypeError::TypeMismatch { name, expected, actual } => {
                let mut s = String::from_str("Variable '");
                s.append(name.as_str());
                s.append("' type mismatch. Expected: ");
                s.append(expected.as_str());
                s.append(", got: ");
                s.append(actual.as_str());
                proof {
                    assert(s@ =~= err_display(self@));
                }
                s
            },
            TypeError::MissingValue => String::from_str("Variable must have a value"),
            TypeError::AnnotationMismatch => String::from_str(
                "Value type does not match annotation",
            ),
            TypeError::CannotInfer => String::from_str("Cannot infer a type for the assigned value"),
        }
    }
}

/// A function symbol. Reserved for future scope handling; no current logic
/// populates it.
#[derive(Debug)]
pub struct Function {
    pub name: String,
    pub args: Vec<Type>,
    pub mapped_args: HashMap<String, Type>,
    pub return_type: Vec<Type>,
}

/// A class symbol. Reserved for future scope handling.
#[derive(Debug)]
pub struct Class {
    pub name: String,
    pub methods: Vec<Function>,
    pub attributes: Vec<Variable>,
}

/// A module symbol. Reserved for future scope handling.
#[derive(Debug)]
pub struct Module {
    pub name: String,
    pub classes: Vec<Class>,
    pub functions: Vec<Function>,
    pub variables: Vec<Variable>,
}

/// The symbol table of one checking pass. Only `variables` is populated by
/// the current logic; the other containers are reserved.
#[derive(Debug)]
pub struct Context {
    pub modules: Vec<Module>,
    pub classes: Vec<Class>,
    pub functions: Vec<Function>,
    pub variables: Vec<Variable>,
}

impl View for Context {
    type V = Seq<VarView>;

    open spec fn view(&self) -> Seq<VarView> {
        table_view(self.variables@)
    }
}

/// A table is well formed when its entries are strictly sorted by name, which
/// also makes the names pairwise distinct.
pub open spec fn table_sorted(tbl: Seq<VarView>) -> bool {
    forall|i: int, j: int|
        0 <= i < j < tbl.len() ==> seq_lt(#[trigger] tbl[i].name, #[trigger] tbl[j].name)
}

/// Is some entry of the table named `name`?
pub open spec fn has_name(tbl: Seq<VarView>, name: Seq<char>) -> bool {
    exists|i: int| 0 <= i < tbl.len() && #[trigger] tbl[i].name == name
}

/// The index of the entry named `name` (meaningful when `has_name` holds; in
/// a sorted table it is unique).
pub open spec fn name_index(tbl: Seq<VarView>, name: Seq<char>) -> int {
    choose|i: int| 0 <= i < tbl.len() && #[trigger] tbl[i].name == name
}

/// Membership of a type in a type set, up to structural equality.
pub open spec fn type_in(t: Type, s: Seq<Type>) -> bool {
    exists|i: int| 0 <= i < s.len() && teq(#[trigger] s[i], t)
}

/// Every type of `a` is a member of `b`.
pub open spec fn types_subset(a: Seq<Type>, b: Seq<Type>) -> bool {
    forall|i: int| 0 <= i < a.len() ==> type_in(#[trigger] a[i], b)
}

/// The position at which a new name belongs in a sorted table: past every
/// entry whose name precedes it.
pub open spec fn insert_pos(tbl: Seq<VarView>, name: Seq<char>) -> int
    decreases tbl.len(),
{
    if tbl.len() == 0 {
        0
    } else if seq_lt(tbl[0].name, name) {
        1 + insert_pos(tbl.drop_first(), name)
    } else {
        0
    }
}

/// What looking a record up in the table yields: `Ok(true)` when its name is
/// recorded and its types are all admitted, `Ok(false)` when the name is
/// absent, and the mismatch diagnostic otherwise.
pub open spec fn lookup_result(tbl: Seq<VarView>, v: VarView) -> Result<bool, ErrView> {
    if !has_name(tbl, v.name) {
        Ok(false)
    } else if types_subset(v.types, tbl[name_index(tbl, v.name)].types) {
        Ok(true)
    } else {
        Err(
            ErrView::Mismatch {
                name: v.name,
                expected: union_display(tbl[name_index(tbl, v.name)].types),
                actual: union_display(v.types),
            },
        )
    }
}

/// What inserting a record into the table yields: the table unchanged when a
/// compatible entry exists, the table with the record at its sorted position
/// when the name is new, and the mismatch diagnostic otherwise.
pub open spec fn insert_result(tbl: Seq<VarView>, v: VarView) -> Result<Seq<VarView>, ErrView> {
    match lookup_result(tbl, v) {
        Ok(true) => Ok(tbl),
        Ok(false) => Ok(tbl.insert(insert_pos(tbl, v.name), v)),
        Err(e) => Err(e),
    }
}

/// In a sorted table, `name_index` picks exactly the entry one points at.
pub proof fn lemma_name_index_of(tbl: Seq<VarView>, i: int)
    requires
        table_sorted(tbl),
        0 <= i < tbl.len(),
    ensures
        has_name(tbl, tbl[i].name),
        name_index(tbl, tbl[i].name) == i,
{
    assert(has_name(tbl, tbl[i].name)) by {
        assert(0 <= i < tbl.len() && tbl[i].name == tbl[i].name);
    }
    let j = name_index(tbl, tbl[i].name);
    if j < i {
        lemma_seq_lt_irrefl(tbl[i].name);
    }
    if j > i {
        lemma_seq_lt_irrefl(tbl[i].name);
    }
}

/// Sorted tables hold pairwise distinct names.
pub proof fn lemma_sorted_unique_names(tbl: Seq<VarView>, i: int, j: int)
    requires
        table_sorted(tbl),
        0 <= i < tbl.len(),
        0 <= j < tbl.len(),
        i != j,
    ensures
        tbl[i].name != tbl[j].name,
{
    if i < j {
        lemma_seq_lt_asym(tbl[i].name, tbl[j].name);
    } else {
        lemma_seq_lt_asym(tbl[j].name, tbl[i].name);
    }
}

/// Structurally equal type sets are subsets of each other.
pub proof fn lemma_types_eq_subset(a: Seq<Type>, b: Seq<Type>)
    requires
        types_eq(a, b),
    ensures
        types_subset(a, b),
        types_subset(b, a),
{
    assert forall|i: int| 0 <= i < a.len() implies type_in(a[i], b) by {
        lemma_types_eq_index(a, b, i);
        lemma_teq_sym(a[i], b[i]);
        assert(0 <= i < b.len() && teq(b[i], a[i]));
    }
    assert forall|i: int| 0 <= i < b.len() implies type_in(b[i], a) by {
        lemma_types_eq_index(a, b, i);
        assert(0 <= i < a.len() && teq(a[i], b[i]));
    }
}

/// The sorted position of a name is pinned by what lies on each side of it.
pub proof fn lemma_insert_pos_unique(tbl: Seq<VarView>, name: Seq<char>, p: int)
    requires
        0 <= p <= tbl.len(),
        forall|k: int| 0 <= k < p ==> seq_lt(#[trigger] tbl[k].name, name),
        forall|k: int| p <= k < tbl.len() ==> seq_lt(name, #[trigger] tbl[k].name),
    ensures
        insert_pos(tbl, name) == p,
    decreases tbl.len(),
{
    if tbl.len() == 0 {
    } else if p == 0 {
        lemma_seq_lt_asym(name, tbl[0].name);
    } else {
        assert forall|k: int| 0 <= k < p - 1 implies seq_lt(
            #[trigger] tbl.drop_first()[k].name,
            name,
        ) by {
            assert(tbl.drop_first()[k] == tbl[k + 1]);
        }
        assert forall|k: int| p - 1 <= k < tbl.drop_first().len() implies seq_lt(
            name,
            #[trigger] tbl.drop_first()[k].name,
        ) by {
            assert(tbl.drop_first()[k] == tbl[k + 1]);
        }
        lemma_insert_pos_unique(tbl.drop_first(), name, p - 1);
    }
}

/// Does the type set `s` contain `t`?
fn contains_type(s: &Vec<Type>, t: &Type) -> (r: bool)
    ensures
        r == type_in(*t, s@),
{
    let mut i: usize = 0;
    loop
        invariant
            i <= s@.len(),
            forall|k: int| 0 <= k < i ==> !teq(#[trigger] s@[k], *t),
        decreases s@.len() - i,
    {
        if i == s.len() {
            return false;
        }
        if type_eq(&s[i], t) {
            return true;
        }
        i = i + 1;
    }
}

/// Is every type of `a` a member of `b`?
pub fn types_contained(a: &Vec<Type>, b: &Vec<Type>) -> (r: bool)
    ensures
        r == types_subset(a@, b@),
{
    let mut i: usize = 0;
    loop
        invariant
            i <= a@.len(),
            forall|k: int| 0 <= k < i ==> type_in(#[trigger] a@[k], b@),
        decreases a@.len() - i,
    {
        if i == a.len() {
            return true;
        }
        if !contains_type(b, &a[i]) {
            return false;
        }
        i = i + 1;
    }
}

/// Checks a fresh occurrence's types against the recorded entry, and builds
/// the mismatch diagnostic when one is absent.
fn check_compat(stored: &Variable, fresh: &Variable) -> (r: Result<(), TypeError>)
    ensures
        match r {
            Ok(()) => types_subset(fresh.type_@, stored.type_@),
            Err(e) => !types_subset(fresh.type_@, stored.type_@) && e@ == (ErrView::Mismatch {
                name: fresh.name@,
                expected: union_display(stored.type_@),
                actual: union_display(fresh.type_@),
            }),
        },
{
    let mut i: usize = 0;
    loop
        invariant
            i <= fresh.type_@.len(),
            forall|k: int| 0 <= k < i ==> type_in(#[trigger] fresh.type_@[k], stored.type_@),
        decreases fresh.type_@.len() - i,
    {
        if i == fresh.type_.len() {
            return Ok(());
        }
        if !contains_type(&stored.type_, &fresh.type_[i]) {
            return Err(
                TypeError::TypeMismatch {
                    name: fresh.name.clone(),
                    expected: render_types(&stored.type_),
                    actual: render_types(&fresh.type_),
                },
            );
        }
        i = i + 1;
    }
}

/// Structural equality of two variable records.
fn variable_eq(a: &Variable, b: &Variable) -> (r: bool)
    ensures
        r == (a@.name == b@.name && types_eq(a@.types, b@.types)),
{
    if a.name == b.name {
        type_vec_eq(&a.type_, &b.type_)
    } else {
        false
    }
}

/// Finds the sorted position for a name that is not yet in the table.
fn find_insert_pos(vars: &Vec<Variable>, name: &String) -> (pos: usize)
    requires
        table_sorted(table_view(vars@)),
        !has_name(table_view(vars@), name@),
    ensures
        pos <= vars@.len(),
        pos == insert_pos(table_view(vars@), name@),
        forall|k: int|
            0 <= k < pos ==> seq_lt(#[trigger] table_view(vars@)[k].name, name@),
        forall|k: int|
            pos <= k < vars@.len() ==> seq_lt(name@, #[trigger] table_view(vars@)[k].name),
{
    let ghost tbl = table_view(vars@);
    if vars.len() == 0 {
        proof {
            lemma_insert_pos_unique(tbl, name@, 0);
        }
        return 0;
    }
    let mut lo: usize = 0;
    let mut hi: usize = vars.len();
    while hi - lo > 1
        invariant
            table_sorted(tbl),
            !has_name(tbl, name@),
            tbl == table_view(vars@),
            tbl.len() == vars@.len(),
            0 <= lo < hi <= vars@.len(),
            forall|k: int| 0 <= k < lo ==> seq_lt(#[trigger] tbl[k].name, name@),
            forall|k: int| hi <= k < tbl.len() ==> seq_lt(name@, #[trigger] tbl[k].name),
        decreases hi - lo,
    {
        let mid = lo + (hi - lo) / 2;
        if str_lt(name.as_str(), vars[mid].name.as_str()) {
            proof {
                assert forall|k: int| mid <= k < tbl.len() implies seq_lt(
                    name@,
                    #[trigger] tbl[k].name,
                ) by {
                    if k > mid {
                        lemma_seq_lt_trans(name@, tbl[mid as int].name, tbl[k].name);
                    }
                }
            }
            hi = mid;
        } else {
            proof {
                assert(tbl[mid as int].name != name@);
                lemma_seq_lt_connected(name@, tbl[mid as int].name);
                assert forall|k: int| 0 <= k <= mid implies seq_lt(
                    #[trigger] tbl[k].name,
                    name@,
                ) by {
                    if k < mid {
                        lemma_seq_lt_trans(tbl[k].name, tbl[mid as int].name, name@);
                    }
                }
            }
            lo = mid;
        }
    }
    let pos: usize = if str_lt(name.as_str(), vars[lo].name.as_str()) {
        lo
    } else {
        proof {
            assert(tbl[lo as int].name != name@);
            lemma_seq_lt_connected(name@, tbl[lo as int].name);
        }
        hi
    };
    proof {
        lemma_insert_pos_unique(tbl, name@, pos as int);
    }
    pos
}

impl Context {
    /// The symbol-table invariant: variables strictly sorted by name.
    pub open spec fn wf(self) -> bool {
        table_sorted(self@)
    }

    /// Creates an empty context.
    pub fn init() -> (r: Context)
        ensures
            r@ == Seq::<VarView>::empty(),
            r.wf(),
            r.modules@ == Seq::<Module>::empty(),
            r.classes@ == Seq::<Class>::empty(),
            r.functions@ == Seq::<Function>::empty(),
    {
        let r = Context {
            modules: Vec::new(),
            classes: Vec::new(),
            functions: Vec::new(),
            variables: Vec::new(),
        };
        proof {
            assert(r@ =~= Seq::<VarView>::empty());
        }
        r
    }

    /// Looks a variable up by binary search over the name-sorted table and
    /// checks its type set for compatibility with the recorded entry.
    pub fn exists_variable(&self, variable: &Variable) -> (r: Result<bool, TypeError>)
        requires
            self.wf(),
        ensures
            match r {
                Ok(b) => lookup_result(self@, variable@) == Ok::<bool, ErrView>(b),
                Err(e) => lookup_result(self@, variable@) == Err::<bool, ErrView>(e@),
            },
    {
        let ghost tbl = self@;
        if self.variables.len() == 0 {
            return Ok(false);
        }
        let mut lo: usize = 0;
        let mut hi: usize = self.variables.len();
        while hi - lo > 1
            invariant
                self.wf(),
                tbl == self@,
                tbl.len() == self.variables@.len(),
                0 <= lo < hi <= self.variables@.len(),
                forall|k: int|
                    0 <= k < tbl.len() && #[trigger] tbl[k].name == variable@.name ==> lo <= k
                        < hi,
            decreases hi - lo,
        {
            let mid = lo + (hi - lo) / 2;
            if str_lt(variable.name.as_str(), self.variables[mid].name.as_str()) {
                proof {
                    assert forall|k: int|
                        mid <= k < tbl.len() implies #[trigger] tbl[k].name
                        != variable@.name by {
                        if k > mid {
                            lemma_seq_lt_trans(variable@.name, tbl[mid as int].name, tbl[k].name);
                        }
                        lemma_seq_lt_asym(variable@.name, tbl[k].name);
                    }
                }
                hi = mid;
            } else if str_lt(self.variables[mid].name.as_str(), variable.name.as_str()) {
                proof {
                    assert forall|k: int|
                        0 <= k <= mid implies #[trigger] tbl[k].name != variable@.name by {
                        if k < mid {
                            lemma_seq_lt_trans(tbl[k].name, tbl[mid as int].name, variable@.name);
                        }
                        lemma_seq_lt_asym(tbl[k].name, variable@.name);
                    }
                }
                lo = mid;
            } else {
                proof {
                    lemma_seq_lt_connected(variable@.name, tbl[mid as int].name);
                    lemma_name_index_of(tbl, mid as int);
                }
                if variable_eq(variable, &self.variables[mid]) {
                    proof {
                        lemma_types_eq_subset(variable@.types, tbl[mid as int].types);
                    }
                    return Ok(true);
                }
                match check_compat(&self.variables[mid], variable) {
                    Ok(()) => {
                        return Ok(true);
                    },
                    Err(e) => {
                        return Err(e);
                    },
                }
            }
        }
        if variable.name == self.variables[lo].name {
            proof {
                lemma_name_index_of(tbl, lo as int);
            }
            match check_compat(&self.variables[lo], variable) {
                Ok(()) => Ok(true),
                Err(e) => Err(e),
            }
        } else {
            Ok(false)
        }
    }

    /// Inserts a variable record: a no-op when a compatible entry already
    /// exists, an error (table untouched) on a type mismatch, and otherwise a
    /// sorted insertion of the new record.
    pub fn add_variable(&mut self, variable: Variable) -> (r: Result<(), TypeError>)
        requires
            old(self).wf(),
        ensures
            final(self).wf(),
            final(self).modules == old(self).modules,
            final(self).classes == old(self).classes,
            final(self).functions == old(self).functions,
            match r {
                Ok(()) => insert_result(old(self)@, variable@) == Ok::<Seq<VarView>, ErrView>(
                    final(self)@,
                ),
                Err(e) => insert_result(old(self)@, variable@) == Err::<Seq<VarView>, ErrView>(e@)
                    && final(self)@ == old(self)@,
            },
    {
        match self.exists_variable(&variable) {
            Ok(true) => {
                return Ok(());
            },
            Ok(false) => {},
            Err(e) => {
                return Err(e);
            },
        }
        let ghost t0 = self@;
        let ghost nm = variable@.name;
        let pos = find_insert_pos(&self.variables, &variable.name);
        self.variables.insert(pos, variable);
        proof {
            assert(self@ =~= t0.insert(insert_pos(t0, nm), variable@));
            assert forall|i: int, j: int|
                0 <= i < j < self@.len() implies seq_lt(
                #[trigger] self@[i].name,
                #[trigger] self@[j].name,
            ) by {
                if i < pos as int {
                    assert(self@[i] == t0[i]);
                }
                if j < pos as int {
                    assert(self@[j] == t0[j]);
                }
                if i > pos as int {
                    assert(self@[i] == t0[i - 1]);
                }
                if j > pos as int {
                    assert(self@[j] == t0[j - 1]);
                }
            }
        }
        Ok(())
    }
}

/// Re-inserting a record whose name and exact type set are already recorded
/// succeeds and leaves the table unchanged.
pub proof fn lemma_insert_idempotent(tbl: Seq<VarView>, v: VarView, i: int)
    requires
        table_sorted(tbl),
        0 <= i < tbl.len(),
        tbl[i].name == v.name,
        types_eq(v.types, tbl[i].types),
    ensures
        insert_result(tbl, v) == Ok::<Seq<VarView>, ErrView>(tbl),
{
    lemma_name_index_of(tbl, i);
    lemma_types_eq_subset(v.types, tbl[i].types);
}

/// Re-inserting a record whose type set is a subset of the recorded set for
/// the same name succeeds and leaves the table unchanged.
pub proof fn lemma_insert_subset_compatible(tbl: Seq<VarView>, v: VarView, i: int)
    requires
        table_sorted(tbl),
        0 <= i < tbl.len(),
        tbl[i].name == v.name,
        types_subset(v.types, tbl[i].types),
    ensures
        insert_result(tbl, v) == Ok::<Seq<VarView>, ErrView>(tbl),
{
    lemma_name_index_of(tbl, i);
}

/// Inserting a record holding any type absent from the recorded set for its
/// name fails with the mismatch diagnostic.
pub proof fn lemma_insert_conflict(tbl: Seq<VarView>, v: VarView, i: int)
    requires
        table_sorted(tbl),
        0 <= i < tbl.len(),
        tbl[i].name == v.name,
        !types_subset(v.types, tbl[i].types),
    ensures
        insert_result(tbl, v) == Err::<Seq<VarView>, ErrView>(
            ErrView::Mismatch {
                name: v.name,
                expected: union_display(tbl[i].types),
                actual: union_display(v.types),
            },
        ),
{
    lemma_name_index_of(tbl, i);
}

} // verus!
