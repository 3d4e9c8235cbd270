use vstd::prelude::*;

use crate::frontend::ast::{opt_expr_eq, AstData, AstNode, StructDefType, VarDecl, VarDeclType};

verus! {

/// Primitive types.
#[derive(Debug, PartialEq, Eq, Clone, Copy, Structural)]
pub enum PrimType {
    Int,
    Char,
}

impl PrimType {
    /// The type made of this primitive type.
    pub fn into_type(self) -> (t: TypeDef)
        ensures
            t == TypeDef::PrimType(self),
    {
        TypeDef::PrimType(self)
    }
}

/// Type of a function: its parameters, its return type and whether a body defines it.
#[derive(Debug, PartialEq, Eq)]
pub struct FnType {
    pub params: Vec<TypeDef>,
    pub ret_type: Box<TypeDef>,
    pub body_def: bool,
}

/// Type of a fixed-size array.
#[derive(Debug, PartialEq, Eq)]
pub struct ArrayType {
    pub inner_type: Box<TypeDef>,
    pub index: usize,
}

/// Types of the language. `Alias` names a structure that is not resolved yet.
#[derive(Debug, Eq)]
pub enum TypeDef {
    Void,
    PrimType(PrimType),
    PointerType(Box<TypeDef>),
    Function(FnType),
    Alias(String),
    Struct(StructDefType),
    Array(ArrayType),
}

/// Equality of types: structural, except that a pointer and an array of the same
/// element type are equal; names compare by their characters.
pub open spec fn type_eq(a: TypeDef, b: TypeDef) -> bool
    decreases a,
{
    match (a, b) {
        (TypeDef::Void, TypeDef::Void) => true,
        (TypeDef::PrimType(x), TypeDef::PrimType(y)) => x == y,
        (TypeDef::PointerType(x), TypeDef::PointerType(y)) => type_eq(*x, *y),
        (TypeDef::PointerType(x), TypeDef::Array(y)) => type_eq(*x, *y.inner_type),
        (TypeDef::Function(x), TypeDef::Function(y)) => {
            &&& x.params@.len() == y.params@.len()
            &&& forall|i: int| 0 <= i < x.params@.len() ==> type_eq(#[trigger] x.params@[i], y.params@[i])
            &&& type_eq(*x.ret_type, *y.ret_type)
            &&& x.body_def == y.body_def
        },
        (TypeDef::Alias(x), TypeDef::Alias(y)) => x@ == y@,
        (TypeDef::Struct(x), TypeDef::Struct(y)) => {
            &&& x.name@ == y.name@
            &&& match (x.fields, y.fields) {
                (None, None) => true,
                (Some(fx), Some(fy)) => {
                    &&& fx@.len() == fy@.len()
                    &&& forall|i: int| 0 <= i < fx@.len() ==> vardecl_eq(#[trigger] fx@[i], fy@[i])
                },
                _ => false,
            }
        },
        (TypeDef::Array(x), TypeDef::PointerType(y)) => type_eq(*x.inner_type, *y),
        (TypeDef::Array(x), TypeDef::Array(y)) => type_eq(*x.inner_type, *y.inner_type) && x.index
            == y.index,
        _ => false,
    }
}

/// Equality of optional types.
pub open spec fn opt_type_eq(a: Option<TypeDef>, b: Option<TypeDef>) -> bool
    decreases a,
{
    match (a, b) {
        (None, None) => true,
        (Some(x), Some(y)) => type_eq(x, y),
        _ => false,
    }
}

/// Equality of variable declarations.
pub open spec fn vardecl_eq(a: VarDecl, b: VarDecl) -> bool
    decreases a,
{
    &&& a.value.name@ == b.value.name@
    &&& type_eq(a.value.var_type, b.value.var_type)
    &&& opt_expr_eq(a.value.init_val, b.value.init_val)
    &&& a.data.loc == b.data.loc
    &&& opt_type_eq(a.data.node_type, b.data.node_type)
}

impl PartialEq for TypeDef {
    fn eq(&self, other: &Self) -> (r: bool) {
        self.equals(other)
    }
}

impl vstd::std_specs::cmp::PartialEqSpecImpl for TypeDef {
    open spec fn obeys_eq_spec() -> bool {
        true
    }

    open spec fn eq_spec(&self, other: &TypeDef) -> bool {
        type_eq(*self, *other)
    }
}

/// Whether a structure is defined with its fields.
pub open spec fn spec_sized(t: TypeDef) -> bool
    decreases t,
{
    match t {
        TypeDef::Struct(s) => s.fields is Some,
        TypeDef::Array(a) => spec_sized(*a.inner_type),
        _ => true,
    }
}

impl TypeDef {
    pub open spec fn spec_is_pointer(&self) -> bool {
        self is PointerType || self is Array
    }

    /// Whether this is a pointer or an array.
    pub fn is_pointer(&self) -> (r: bool)
        ensures
            r == self.spec_is_pointer(),
    {
        match self {
            TypeDef::PointerType(_) | TypeDef::Array(_) => true,
            _ => false,
        }
    }

    /// Whether values of this type have a known size: a structure must have its fields.
    pub fn sized(&self) -> (r: bool)
        ensures
            r == spec_sized(*self),
        decreases self,
    {
        match self {
            TypeDef::Struct(s) => s.fields.is_some(),
            TypeDef::Array(a) => a.inner_type.sized(),
            _ => true,
        }
    }

    /// Equality as `type_eq` states it.
    pub fn equals(&self, other: &TypeDef) -> (r: bool)
        ensures
            r == type_eq(*self, *other),
        decreases self, 1nat,
    {
        match (self, other) {
            (TypeDef::Void, TypeDef::Void) => true,
            (TypeDef::PrimType(x), TypeDef::PrimType(y)) => *x == *y,
            (TypeDef::PointerType(x), TypeDef::PointerType(y)) => x.equals(y),
            (TypeDef::PointerType(x), TypeDef::Array(y)) => x.equals(&y.inner_type),
            (TypeDef::Function(x), TypeDef::Function(y)) => {
                if x.params.len() != y.params.len() {
                    return false;
                }
                let mut i: usize = 0;
                while i < x.params.len()
                    invariant
                        0 <= i <= x.params@.len(),
                        x.params@.len() == y.params@.len(),
                        *self == TypeDef::Function(*x),
                        *other == TypeDef::Function(*y),
                        forall|j: int| 0 <= j < i ==> type_eq(#[trigger] x.params@[j], y.params@[j]),
                    decreases x.params@.len() - i,
                {
                    proof {
                        let fx = (*self)->Function_0;
                        assert(decreases_to!(*self => fx));
                        assert(decreases_to!(fx => fx.params));
                        assert(decreases_to!(fx.params => fx.params@));
                        assert(decreases_to!(fx.params@ => fx.params@[i as int]));
                    }
                    if !x.params[i].equals(&y.params[i]) {
                        return false;
                    }
                    i += 1;
                }
                x.ret_type.equals(&y.ret_type) && x.body_def == y.body_def
            },
            (TypeDef::Alias(x), TypeDef::Alias(y)) => *x == *y,
            (TypeDef::Struct(x), TypeDef::Struct(y)) => {
                if !(x.name == y.name) {
                    return false;
                }
                match (&x.fields, &y.fields) {
                    (None, None) => true,
                    (Some(fx), Some(fy)) => {
                        if fx.len() != fy.len() {
                            return false;
                        }
                        let mut i: usize = 0;
                        while i < fx.len()
                            invariant
                                0 <= i <= fx@.len(),
                                fx@.len() == fy@.len(),
                                x.fields == Some(*fx),
                                y.fields == Some(*fy),
                                x.name@ == y.name@,
                                *self == TypeDef::Struct(*x),
                                *other == TypeDef::Struct(*y),
                                forall|j: int| 0 <= j < i ==> vardecl_eq(#[trigger] fx@[j], fy@[j]),
                            decreases fx@.len() - i,
                        {
                            proof {
                                let sx = (*self)->Struct_0;
                                assert(decreases_to!(*self => sx));
                                assert(decreases_to!(sx => sx.fields));
                                assert(decreases_to!(sx.fields => sx.fields->0));
                                assert(decreases_to!(*fx => fx@));
                                assert(decreases_to!(fx@ => fx@[i as int]));
                            }
                            if !vardecl_equals(&fx[i], &fy[i]) {
                                return false;
                            }
                            i += 1;
                        }
                        true
                    },
                    _ => false,
                }
            },
            (TypeDef::Array(x), TypeDef::PointerType(y)) => x.inner_type.equals(y),
            (TypeDef::Array(x), TypeDef::Array(y)) => x.inner_type.equals(&y.inner_type) && x.index
                == y.index,
            _ => false,
        }
    }

    /// A copy of this type.
    pub fn duplicate(&self) -> (r: TypeDef)
        ensures
            type_eq(r, *self),
            type_eq(*self, r),
            spec_sized(r) == spec_sized(*self),
        decreases self, 1nat,
    {
        match self {
            TypeDef::Void => TypeDef::Void,
            TypeDef::PrimType(p) => TypeDef::PrimType(*p),
            TypeDef::PointerType(x) => TypeDef::PointerType(Box::new(x.duplicate())),
            TypeDef::Function(f) => {
                let mut params: Vec<TypeDef> = Vec::new();
                let mut i: usize = 0;
                while i < f.params.len()
                    invariant
                        0 <= i <= f.params@.len(),
                        params@.len() == i,
                        *self == TypeDef::Function(*f),
                        forall|j: int| 0 <= j < i ==> type_eq(#[trigger] params@[j], f.params@[j])
                            && type_eq(f.params@[j], params@[j]),
                    decreases f.params@.len() - i,
                {
                    proof {
                        let ff = (*self)->Function_0;
                        assert(decreases_to!(*self => ff));
                        assert(decreases_to!(ff => ff.params));
                        assert(decreases_to!(ff.params => ff.params@));
                        assert(decreases_to!(ff.params@ => ff.params@[i as int]));
                    }
                    params.push(f.params[i].duplicate());
                    i += 1;
                }
                TypeDef::Function(
                    FnType {
                        params,
                        ret_type: Box::new(f.ret_type.duplicate()),
                        body_def: f.body_def,
                    },
                )
            },
            TypeDef::Alias(s) => TypeDef::Alias(s.clone()),
            TypeDef::Struct(s) => {
                let fields = match &s.fields {
                    None => None,
                    Some(fs) => {
                        let mut out: Vec<VarDecl> = Vec::new();
                        let mut i: usize = 0;
                        while i < fs.len()
                            invariant
                                0 <= i <= fs@.len(),
                                s.fields == Some(*fs),
                                *self == TypeDef::Struct(*s),
                                out@.len() == i,
                                forall|j: int| 0 <= j < i ==> vardecl_eq(#[trigger] out@[j], fs@[j])
                                    && vardecl_eq(fs@[j], out@[j]),
                            decreases fs@.len() - i,
                        {
                            proof {
                                let ss = (*self)->Struct_0;
                                assert(decreases_to!(*self => ss));
                                assert(decreases_to!(ss => ss.fields));
                                assert(decreases_to!(ss.fields => ss.fields->0));
                                assert(decreases_to!(*fs => fs@));
                                assert(decreases_to!(fs@ => fs@[i as int]));
                            }
                            out.push(vardecl_duplicate(&fs[i]));
                            i += 1;
                        }
                        Some(out)
                    },
                };
                TypeDef::Struct(StructDefType { name: s.name.clone(), fields })
            },
            TypeDef::Array(a) => TypeDef::Array(
                ArrayType { inner_type: Box::new(a.inner_type.duplicate()), index: a.index },
            ),
        }
    }
}

/// A copy of a structure definition.
pub fn struct_duplicate(s: &StructDefType) -> (r: StructDefType)
    ensures
        type_eq(TypeDef::Struct(r), TypeDef::Struct(*s)),
        type_eq(TypeDef::Struct(*s), TypeDef::Struct(r)),
{
    let fields = match &s.fields {
        None => None,
        Some(fs) => {
            let mut out: Vec<VarDecl> = Vec::new();
            let mut i: usize = 0;
            while i < fs.len()
                invariant
                    0 <= i <= fs@.len(),
                    out@.len() == i,
                    forall|j: int| 0 <= j < i ==> vardecl_eq(#[trigger] out@[j], fs@[j])
                        && vardecl_eq(fs@[j], out@[j]),
                decreases fs@.len() - i,
            {
                out.push(vardecl_duplicate(&fs[i]));
                i += 1;
            }
            Some(out)
        },
    };
    StructDefType { name: s.name.clone(), fields }
}

/// Equality of optional types as `opt_type_eq` states it.
pub fn opt_type_equals(a: &Option<TypeDef>, b: &Option<TypeDef>) -> (r: bool)
    ensures
        r == opt_type_eq(*a, *b),
    decreases a, 1nat,
{
    match (a, b) {
        (None, None) => true,
        (Some(x), Some(y)) => x.equals(y),
        _ => false,
    }
}

/// A copy of an optional type.
pub fn opt_type_duplicate(a: &Option<TypeDef>) -> (r: Option<TypeDef>)
    ensures
        opt_type_eq(r, *a),
        opt_type_eq(*a, r),
    decreases a, 1nat,
{
    match a {
        None => None,
        Some(x) => Some(x.duplicate()),
    }
}

/// Equality of variable declarations as `vardecl_eq` states it.
pub fn vardecl_equals(a: &VarDecl, b: &VarDecl) -> (r: bool)
    ensures
        r == vardecl_eq(*a, *b),
    decreases a, 1nat,
{
    let init_eq = match (&a.value.init_val, &b.value.init_val) {
        (None, None) => true,
        (Some(x), Some(y)) => crate::frontend::ast::expr_equals(x, y),
        _ => false,
    };
    a.value.name == b.value.name && a.value.var_type.equals(&b.value.var_type) && init_eq
        && a.data.loc == b.data.loc && opt_type_equals(&a.data.node_type, &b.data.node_type)
}

/// A copy of a variable declaration.
pub fn vardecl_duplicate(a: &VarDecl) -> (r: VarDecl)
    ensures
        vardecl_eq(r, *a),
        vardecl_eq(*a, r),
    decreases a, 1nat,
{
    let init_val = match &a.value.init_val {
        None => None,
        Some(e) => Some(crate::frontend::ast::expr_duplicate(e)),
    };
    AstNode {
        value: VarDeclType {
            name: a.value.name.clone(),
            var_type: a.value.var_type.duplicate(),
            init_val,
        },
        data: AstData { loc: a.data.loc, node_type: opt_type_duplicate(&a.data.node_type) },
    }
}

} // verus!
