use vstd::prelude::*;

pub use crate::frontend::lexer::{Loc, Operator};
use crate::frontend::typeast::{opt_type_duplicate, opt_type_eq, opt_type_equals, type_eq, TypeDef};

verus! {

/// Data of every node: where it starts and, once checked, its type.
#[derive(Debug, PartialEq, Eq)]
pub struct AstData {
    pub loc: Loc,
    pub node_type: Option<TypeDef>,
}

impl AstData {
    pub fn new(loc: Loc) -> (d: Self)
        ensures
            d.loc == loc,
            d.node_type is None,
    {
        Self { loc, node_type: None }
    }

    /// Records the type of the node and gives it back.
    pub fn set_type(&mut self, t: TypeDef) -> (r: TypeDef)
        ensures
            final(self).loc == old(self).loc,
            final(self).node_type == Some(t),
            type_eq(r, t),
            type_eq(t, r),
    {
        let r = t.duplicate();
        self.node_type = Some(t);
        r
    }
}

/// A node of the syntax tree: a value and its data.
#[derive(Debug, PartialEq, Eq)]
pub struct AstNode<T> {
    pub value: T,
    pub data: AstData,
}

impl<T> AstNode<T> {
    pub fn new(value: T, data: AstData) -> (n: Self)
        ensures
            n.value == value,
            n.data == data,
    {
        Self { value, data }
    }

    /// Records the type of the node and gives it back.
    pub fn set_type(&mut self, t: TypeDef) -> (r: TypeDef)
        ensures
            final(self).value == old(self).value,
            final(self).data.loc == old(self).data.loc,
            final(self).data.node_type == Some(t),
            type_eq(r, t),
            type_eq(t, r),
    {
        self.data.set_type(t)
    }

    pub fn loc(&self) -> (l: Loc)
        ensures
            l == self.data.loc,
    {
        self.data.loc
    }

    /// The recorded type of a node whose type is known.
    pub fn get_type(&self) -> (t: TypeDef)
        requires
            self.data.node_type is Some,
        ensures
            type_eq(t, self.data.node_type->0),
            type_eq(self.data.node_type->0, t),
    {
        match &self.data.node_type {
            Some(t) => t.duplicate(),
            None => TypeDef::Void,
        }
    }
}

impl<T: Clone> AstNode<T> {
    /// A copy of the node with the given type recorded.
    pub fn typed(&self, t: TypeDef) -> (n: Self)
        ensures
            n.data.loc == self.data.loc,
            n.data.node_type == Some(t),
            cloned(self.value, n.value),
    {
        let data = AstData { loc: self.data.loc, node_type: Some(t) };
        Self { value: self.value.clone(), data }
    }
}

/// Literal values.
#[derive(Debug, PartialEq, Eq, Clone, Copy, Structural)]
pub enum Val {
    Integer(i64),
    Char(char),
}

/// A whole program: its top-level items in order.
#[derive(Debug, PartialEq, Eq)]
pub struct Program {
    pub items: Vec<TopLevel>,
}

impl Program {
    /// The empty program.
    pub fn default() -> (p: Self)
        ensures
            p.items@.len() == 0,
    {
        Self { items: Vec::new() }
    }
}

/// Top-level items.
#[derive(Debug, PartialEq, Eq)]
pub enum TopLevel {
    Function(FnDef),
    Var(VarDecl),
    Structure(StructDef),
}

pub type Expr = AstNode<ExprType>;

/// Expressions.
#[derive(Debug, PartialEq, Eq)]
pub enum ExprType {
    BinOp(Operator, Box<Expr>, Box<Expr>),
    UnaryPreOp(Operator, Box<Expr>),
    UnaryPostOp(Operator, Box<Expr>),
    Value(Val),
    Ident(String),
    Call(Box<Expr>, Vec<Expr>),
    Index(Box<Expr>, Box<Expr>),
    Deref(Box<Expr>),
    Address(Box<Expr>),
    Cast(TypeDef, Box<Expr>),
    FieldAccess(Box<Expr>, String),
    SysCall(i64, Vec<Expr>),
}

/// Equality of expressions: same shape, same names, literals and places, equal types.
pub open spec fn expr_eq(a: Expr, b: Expr) -> bool
    decreases a,
{
    &&& a.data.loc == b.data.loc
    &&& opt_type_eq(a.data.node_type, b.data.node_type)
    &&& match (a.value, b.value) {
        (ExprType::BinOp(o1, l1, r1), ExprType::BinOp(o2, l2, r2)) => o1 == o2 && expr_eq(*l1, *l2)
            && expr_eq(*r1, *r2),
        (ExprType::UnaryPreOp(o1, e1), ExprType::UnaryPreOp(o2, e2)) => o1 == o2 && expr_eq(
            *e1,
            *e2,
        ),
        (ExprType::UnaryPostOp(o1, e1), ExprType::UnaryPostOp(o2, e2)) => o1 == o2 && expr_eq(
            *e1,
            *e2,
        ),
        (ExprType::Value(v1), ExprType::Value(v2)) => v1 == v2,
        (ExprType::Ident(s1), ExprType::Ident(s2)) => s1@ == s2@,
        (ExprType::Call(f1, a1), ExprType::Call(f2, a2)) => {
            &&& expr_eq(*f1, *f2)
            &&& a1@.len() == a2@.len()
            &&& forall|i: int| 0 <= i < a1@.len() ==> expr_eq(#[trigger] a1@[i], a2@[i])
        },
        (ExprType::Index(x1, y1), ExprType::Index(x2, y2)) => expr_eq(*x1, *x2) && expr_eq(
            *y1,
            *y2,
        ),
        (ExprType::Deref(e1), ExprType::Deref(e2)) => expr_eq(*e1, *e2),
        (ExprType::Address(e1), ExprType::Address(e2)) => expr_eq(*e1, *e2),
        (ExprType::Cast(t1, e1), ExprType::Cast(t2, e2)) => type_eq(t1, t2) && expr_eq(*e1, *e2),
        (ExprType::FieldAccess(e1, s1), ExprType::FieldAccess(e2, s2)) => expr_eq(*e1, *e2) && s1@
            == s2@,
        (ExprType::SysCall(n1, a1), ExprType::SysCall(n2, a2)) => {
            &&& n1 == n2
            &&& a1@.len() == a2@.len()
            &&& forall|i: int| 0 <= i < a1@.len() ==> expr_eq(#[trigger] a1@[i], a2@[i])
        },
        _ => false,
    }
}

/// Equality of optional expressions.
pub open spec fn opt_expr_eq(a: Option<Expr>, b: Option<Expr>) -> bool
    decreases a,
{
    match (a, b) {
        (None, None) => true,
        (Some(x), Some(y)) => expr_eq(x, y),
        _ => false,
    }
}

/// Equality of expression lists element by element, as `expr_eq` states it.
fn exprs_equals(a: &Vec<Expr>, b: &Vec<Expr>, Ghost(outer): Ghost<Expr>) -> (r: bool)
    requires
        forall|i: int| 0 <= i < a@.len() ==> decreases_to!(outer => #[trigger] a@[i]),
    ensures
        r == (a@.len() == b@.len() && forall|i: int|
            0 <= i < a@.len() ==> expr_eq(#[trigger] a@[i], b@[i])),
    decreases outer, 0nat,
{
    if a.len() != b.len() {
        return false;
    }
    let mut i: usize = 0;
    while i < a.len()
        invariant
            0 <= i <= a@.len(),
            a@.len() == b@.len(),
            forall|j: int| 0 <= j < a@.len() ==> decreases_to!(outer => #[trigger] a@[j]),
            forall|j: int| 0 <= j < i ==> expr_eq(#[trigger] a@[j], b@[j]),
        decreases a@.len() - i,
    {
        assert(decreases_to!(outer => a@[i as int]));
        if !expr_equals(&a[i], &b[i]) {
            return false;
        }
        i += 1;
    }
    true
}

/// Equality of expressions as `expr_eq` states it.
pub fn expr_equals(a: &Expr, b: &Expr) -> (r: bool)
    ensures
        r == expr_eq(*a, *b),
    decreases *a, 1nat,
{
    let d = a.data.loc == b.data.loc && opt_type_equals(&a.data.node_type, &b.data.node_type);
    if !d {
        return false;
    }
    match (&a.value, &b.value) {
        (ExprType::BinOp(o1, l1, r1), ExprType::BinOp(o2, l2, r2)) => *o1 == *o2 && expr_equals(
            l1,
            l2,
        ) && expr_equals(r1, r2),
        (ExprType::UnaryPreOp(o1, e1), ExprType::UnaryPreOp(o2, e2)) => *o1 == *o2 && expr_equals(
            e1,
            e2,
        ),
        (ExprType::UnaryPostOp(o1, e1), ExprType::UnaryPostOp(o2, e2)) => *o1 == *o2
            && expr_equals(e1, e2),
        (ExprType::Value(v1), ExprType::Value(v2)) => *v1 == *v2,
        (ExprType::Ident(s1), ExprType::Ident(s2)) => *s1 == *s2,
        (ExprType::Call(f1, a1), ExprType::Call(f2, a2)) => {
            proof {
                assert forall|i: int| 0 <= i < a1@.len() implies decreases_to!(*a => #[trigger] a1@[i]) by {
                    assert(decreases_to!(*a => a.value));
                    assert(decreases_to!(a.value => *a1));
                    assert(decreases_to!(*a1 => a1@));
                }
            }
            expr_equals(f1, f2) && exprs_equals(a1, a2, Ghost(*a))
        },
        (ExprType::Index(x1, y1), ExprType::Index(x2, y2)) => expr_equals(x1, x2) && expr_equals(
            y1,
            y2,
        ),
        (ExprType::Deref(e1), ExprType::Deref(e2)) => expr_equals(e1, e2),
        (ExprType::Address(e1), ExprType::Address(e2)) => expr_equals(e1, e2),
        (ExprType::Cast(t1, e1), ExprType::Cast(t2, e2)) => t1.equals(t2) && expr_equals(e1, e2),
        (ExprType::FieldAccess(e1, s1), ExprType::FieldAccess(e2, s2)) => expr_equals(e1, e2) && *s1
            == *s2,
        (ExprType::SysCall(n1, a1), ExprType::SysCall(n2, a2)) => {
            proof {
                assert forall|i: int| 0 <= i < a1@.len() implies decreases_to!(*a => #[trigger] a1@[i]) by {
                    assert(decreases_to!(*a => a.value));
                    assert(decreases_to!(a.value => *a1));
                    assert(decreases_to!(*a1 => a1@));
                }
            }
            *n1 == *n2 && exprs_equals(a1, a2, Ghost(*a))
        },
        _ => false,
    }
}

/// Copies of a list of expressions.
fn exprs_duplicate(a: &Vec<Expr>, Ghost(outer): Ghost<Expr>) -> (r: Vec<Expr>)
    requires
        forall|i: int| 0 <= i < a@.len() ==> decreases_to!(outer => #[trigger] a@[i]),
    ensures
        r@.len() == a@.len(),
        forall|i: int| 0 <= i < a@.len() ==> expr_eq(#[trigger] r@[i], a@[i]) && expr_eq(a@[i], r@[i]),
    decreases outer, 0nat,
{
    let mut out: Vec<Expr> = Vec::new();
    let mut i: usize = 0;
    while i < a.len()
        invariant
            0 <= i <= a@.len(),
            out@.len() == i,
            forall|j: int| 0 <= j < a@.len() ==> decreases_to!(outer => #[trigger] a@[j]),
            forall|j: int| 0 <= j < i ==> expr_eq(#[trigger] out@[j], a@[j]) && expr_eq(a@[j], out@[j]),
        decreases a@.len() - i,
    {
        assert(decreases_to!(outer => a@[i as int]));
        out.push(expr_duplicate(&a[i]));
        i += 1;
    }
    out
}

/// A copy of an expression.
pub fn expr_duplicate(a: &Expr) -> (r: Expr)
    ensures
        expr_eq(r, *a),
        expr_eq(*a, r),
    decreases *a, 1nat,
{
    let data = AstData { loc: a.data.loc, node_type: opt_type_duplicate(&a.data.node_type) };
    let value = match &a.value {
        ExprType::BinOp(o, l, r) => ExprType::BinOp(
            *o,
            Box::new(expr_duplicate(l)),
            Box::new(expr_duplicate(r)),
        ),
        ExprType::UnaryPreOp(o, e) => ExprType::UnaryPreOp(*o, Box::new(expr_duplicate(e))),
        ExprType::UnaryPostOp(o, e) => ExprType::UnaryPostOp(*o, Box::new(expr_duplicate(e))),
        ExprType::Value(v) => ExprType::Value(*v),
        ExprType::Ident(s) => ExprType::Ident(s.clone()),
        ExprType::Call(f, args) => {
            proof {
                assert forall|i: int| 0 <= i < args@.len() implies decreases_to!(*a => #[trigger] args@[i]) by {
                    assert(decreases_to!(*a => a.value));
                    assert(decreases_to!(a.value => *args));
                    assert(decreases_to!(*args => args@));
                }
            }
            ExprType::Call(Box::new(expr_duplicate(f)), exprs_duplicate(args, Ghost(*a)))
        },
        ExprType::Index(x, y) => ExprType::Index(
            Box::new(expr_duplicate(x)),
            Box::new(expr_duplicate(y)),
        ),
        ExprType::Deref(e) => ExprType::Deref(Box::new(expr_duplicate(e))),
        ExprType::Address(e) => ExprType::Address(Box::new(expr_duplicate(e))),
        ExprType::Cast(t, e) => ExprType::Cast(t.duplicate(), Box::new(expr_duplicate(e))),
        ExprType::FieldAccess(e, s) => ExprType::FieldAccess(Box::new(expr_duplicate(e)), s.clone()),
        ExprType::SysCall(n, args) => {
            proof {
                assert forall|i: int| 0 <= i < args@.len() implies decreases_to!(*a => #[trigger] args@[i]) by {
                    assert(decreases_to!(*a => a.value));
                    assert(decreases_to!(a.value => *args));
                    assert(decreases_to!(*args => args@));
                }
            }
            ExprType::SysCall(*n, exprs_duplicate(args, Ghost(*a)))
        },
    };
    AstNode { value, data }
}

impl AstNode<ExprType> {
    /// The statement that evaluates this expression.
    pub fn into_statement(self) -> (s: Statement)
        ensures
            s.value == StatementType::Expr(self),
            s.data.loc == self.data.loc,
            opt_type_eq(s.data.node_type, self.data.node_type),
    {
        let data = AstData { loc: self.data.loc, node_type: opt_type_duplicate(&self.data.node_type) };
        AstNode { value: StatementType::Expr(self), data }
    }
}

pub type VarDecl = AstNode<VarDeclType>;

impl AstNode<VarDeclType> {
    /// The statement that declares this variable.
    pub fn into_statement(self) -> (s: Statement)
        ensures
            s.value == StatementType::VarDecl(self),
            s.data.loc == self.data.loc,
            opt_type_eq(s.data.node_type, self.data.node_type),
    {
        let data = AstData { loc: self.data.loc, node_type: opt_type_duplicate(&self.data.node_type) };
        AstNode { value: StatementType::VarDecl(self), data }
    }
}

/// A variable declaration: name, type and the optional initial value.
#[derive(Debug, PartialEq, Eq)]
pub struct VarDeclType {
    pub name: String,
    pub var_type: TypeDef,
    pub init_val: Option<Expr>,
}

pub type Statement = AstNode<StatementType>;

/// Statements.
#[derive(Debug, PartialEq, Eq)]
pub enum StatementType {
    Expr(Expr),
    VarDecl(VarDecl),
    Block(Vec<Statement>),
    If(Expr, Box<Statement>),
    IfElse(Expr, Box<Statement>, Box<Statement>),
    For(Option<Box<Statement>>, Option<Expr>, Option<Box<Statement>>, Box<Statement>),
    While(Expr, Box<Statement>),
    Break,
    Continue,
    Return(Option<Box<Expr>>),
}

pub type FnDecl = AstNode<FnDeclType>;

/// Header of a function: name, named parameters and return type.
#[derive(Debug, PartialEq, Eq)]
pub struct FnDeclType {
    pub name: String,
    pub params: Vec<(String, TypeDef)>,
    pub ret_type: TypeDef,
}

pub type FnDef = AstNode<FnDefType>;

/// A function: its header and, unless only declared, its body.
#[derive(Debug, PartialEq, Eq)]
pub struct FnDefType {
    pub header: FnDecl,
    pub body: Option<Statement>,
}

pub type StructDef = AstNode<StructDefType>;

/// A structure: its name and, unless only declared, its fields.
#[derive(Debug, PartialEq, Eq)]
pub struct StructDefType {
    pub name: String,
    pub fields: Option<Vec<VarDecl>>,
}

/// Type of the first field named `field`, if any.
pub open spec fn spec_field_type(fields: Seq<VarDecl>, field: Seq<char>) -> Option<TypeDef>
    decreases fields.len(),
{
    if fields.len() == 0 {
        None
    } else if fields[0].value.name@ == field {
        Some(fields[0].value.var_type)
    } else {
        spec_field_type(fields.drop_first(), field)
    }
}

impl StructDefType {
    /// Type of the field named `field`: the first such field, if the structure has fields.
    pub fn field_type(&self, field: &String) -> (r: Option<TypeDef>)
        ensures
            match self.fields {
                None => r is None,
                Some(fs) => opt_type_eq(r, spec_field_type(fs@, field@)),
            },
    {
        match &self.fields {
            None => None,
            Some(fs) => {
                let mut i: usize = 0;
                assert(fs@.skip(0) =~= fs@);
                while i < fs.len()
                    invariant
                        0 <= i <= fs@.len(),
                        self.fields == Some(*fs),
                        spec_field_type(fs@, field@) == spec_field_type(fs@.skip(i as int), field@),
                    decreases fs@.len() - i,
                {
                    assert(fs@.skip(i as int).drop_first() =~= fs@.skip(i + 1));
                    if fs[i].value.name == *field {
                        return Some(fs[i].value.var_type.duplicate());
                    }
                    i += 1;
                }
                None
            },
        }
    }
}

} // verus!
