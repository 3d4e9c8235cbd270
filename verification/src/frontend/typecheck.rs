use vstd::prelude::*;

use crate::frontend::ast::{
    expr_duplicate, AstNode, Expr, ExprType, FnDef, FnDefType, Program, Statement, StatementType, StructDef,
    StructDefType, TopLevel, Val, VarDecl, VarDeclType,
};
use crate::frontend::errors::{only_type_error, FrontendError, TypeError};
use crate::frontend::lexer::Operator;
use crate::frontend::typeast::{
    opt_type_duplicate, opt_type_eq, opt_type_equals, spec_sized, struct_duplicate, type_eq, FnType,
    PrimType, TypeDef,
};

verus! {

/// The type of the first binding of `name`.
pub open spec fn lookup(env: Seq<(String, TypeDef)>, name: Seq<char>) -> Option<TypeDef>
    decreases env.len(),
{
    if env.len() == 0 {
        None
    } else if env[0].0@ == name {
        Some(env[0].1)
    } else {
        lookup(env.drop_first(), name)
    }
}

/// Index of the first binding of `name`, if any.
pub open spec fn first_index(env: Seq<(String, TypeDef)>, name: Seq<char>, i: int) -> bool {
    &&& 0 <= i < env.len()
    &&& env[i].0@ == name
    &&& forall|j: int| 0 <= j < i ==> (#[trigger] env[j]).0@ != name
}

proof fn lemma_lookup_none(env: Seq<(String, TypeDef)>, name: Seq<char>)
    requires
        forall|j: int| 0 <= j < env.len() ==> (#[trigger] env[j]).0@ != name,
    ensures
        lookup(env, name) is None,
    decreases env.len(),
{
    if env.len() > 0 {
        assert forall|j: int| 0 <= j < env.drop_first().len() implies (#[trigger] env.drop_first()[j]).0@ != name by {
            assert(env.drop_first()[j] == env[j + 1]);
        }
        lemma_lookup_none(env.drop_first(), name);
    }
}

proof fn lemma_lookup_first(env: Seq<(String, TypeDef)>, name: Seq<char>, i: int)
    requires
        first_index(env, name, i),
    ensures
        lookup(env, name) == Some(env[i].1),
    decreases env.len(),
{
    if i > 0 {
        assert(env[0].0@ != name);
        assert(first_index(env.drop_first(), name, i - 1)) by {
            assert forall|j: int| 0 <= j < i - 1 implies (#[trigger] env.drop_first()[j]).0@ != name by {
                assert(env.drop_first()[j] == env[j + 1]);
            }
        }
        lemma_lookup_first(env.drop_first(), name, i - 1);
    }
}

/// Replacing the first binding of a name, or adding one at the end when there is none,
/// binds the name to the new type and keeps every other binding.
proof fn lemma_lookup_update(
    env: Seq<(String, TypeDef)>,
    new_env: Seq<(String, TypeDef)>,
    name: Seq<char>,
    t: TypeDef,
)
    requires
        (exists|i: int| first_index(env, name, i) && new_env == env.update(i, (new_env[i].0, t))
            && new_env[i].0@ == name) || ((forall|j: int|
            0 <= j < env.len() ==> (#[trigger] env[j]).0@ != name) && new_env.len() == env.len()
            + 1 && new_env.drop_last() == env && new_env.last().0@ == name && new_env.last().1
            == t),
    ensures
        lookup(new_env, name) == Some(t),
        forall|m: Seq<char>| m != name ==> lookup(new_env, m) == #[trigger] lookup(env, m),
    decreases env.len(),
{
    if exists|i: int| first_index(env, name, i) && new_env == env.update(i, (new_env[i].0, t))
        && new_env[i].0@ == name {
        let i = choose|i: int|
            first_index(env, name, i) && new_env == env.update(i, (new_env[i].0, t))
                && new_env[i].0@ == name;
        assert(first_index(new_env, name, i));
        lemma_lookup_first(new_env, name, i);
        assert forall|m: Seq<char>| m != name implies lookup(new_env, m) == #[trigger] lookup(
            env,
            m,
        ) by {
            lemma_lookup_other(env, new_env, name, m);
        }
    } else {
        assert forall|m: Seq<char>| m != name implies lookup(new_env, m) == #[trigger] lookup(
            env,
            m,
        ) by {
            lemma_lookup_push(env, new_env, m);
        }
        lemma_lookup_push(env, new_env, name);
        if exists|j: int| 0 <= j < env.len() && env[j].0@ == name {
        } else {
            lemma_lookup_none(env, name);
        }
    }
}

proof fn lemma_lookup_other(
    env: Seq<(String, TypeDef)>,
    new_env: Seq<(String, TypeDef)>,
    name: Seq<char>,
    m: Seq<char>,
)
    requires
        m != name,
        new_env.len() == env.len(),
        forall|j: int| 0 <= j < env.len() ==> (#[trigger] new_env[j]).0@ == env[j].0@,
        forall|j: int| 0 <= j < env.len() && env[j].0@ != name ==> #[trigger] new_env[j] == env[j],
    ensures
        lookup(new_env, m) == lookup(env, m),
    decreases env.len(),
{
    if env.len() > 0 {
        lemma_lookup_other(env.drop_first(), new_env.drop_first(), name, m);
    }
}

proof fn lemma_lookup_push(env: Seq<(String, TypeDef)>, new_env: Seq<(String, TypeDef)>, m: Seq<char>)
    requires
        new_env.len() == env.len() + 1,
        new_env.drop_last() == env,
    ensures
        lookup(env, m) is Some ==> lookup(new_env, m) == lookup(env, m),
        lookup(env, m) is None ==> lookup(new_env, m) == (if new_env.last().0@ == m {
            Some(new_env.last().1)
        } else {
            None
        }),
    decreases env.len(),
{
    if env.len() > 0 {
        assert(new_env.drop_first().drop_last() =~= env.drop_first());
        assert(new_env[0] == env[0]);
        lemma_lookup_push(env.drop_first(), new_env.drop_first(), m);
    } else {
        assert(new_env.drop_first().len() == 0);
        assert(new_env[0] == new_env.last());
        assert(lookup(new_env.drop_first(), m) is None);
    }
}

/// One scope of bindings and the return type of the function it belongs to.
pub struct EnvLevel {
    pub env: Vec<(String, TypeDef)>,
    pub ret: Option<TypeDef>,
}

impl EnvLevel {
    fn new(ret: Option<TypeDef>) -> (l: Self)
        ensures
            l.env@.len() == 0,
            l.ret == ret,
    {
        Self { env: Vec::new(), ret }
    }

    fn add_var(&mut self, name: &String, var_type: TypeDef)
        ensures
            final(self).ret == old(self).ret,
            lookup(final(self).env@, name@) == Some(var_type),
            forall|m: Seq<char>| m != name@ ==> lookup(final(self).env@, m) == #[trigger] lookup(
                old(self).env@,
                m,
            ),
    {
        let ghost old_env = self.env@;
        let mut i: usize = 0;
        while i < self.env.len()
            invariant
                0 <= i <= self.env@.len(),
                self.env@ == old_env,
                old_env == old(self).env@,
                self.ret == old(self).ret,
                forall|j: int| 0 <= j < i ==> (#[trigger] self.env@[j]).0@ != name@,
            decreases self.env@.len() - i,
        {
            if self.env[i].0 == *name {
                self.env.set(i, (name.clone(), var_type));
                proof {
                    assert(first_index(old_env, name@, i as int));
                    assert(self.env@ == old_env.update(i as int, (self.env@[i as int].0, var_type)));
                    lemma_lookup_update(old_env, self.env@, name@, var_type);
                    assert(old_env == old(self).env@);
                }
                return;
            }
            i += 1;
        }
        self.env.push((name.clone(), var_type));
        proof {
            assert(self.env@.drop_last() =~= old_env);
            lemma_lookup_update(old_env, self.env@, name@, var_type);
        }
    }

    fn get_type(&self, name: &String) -> (r: Option<TypeDef>)
        ensures
            opt_type_eq(r, lookup(self.env@, name@)),
    {
        let mut i: usize = 0;
        while i < self.env.len()
            invariant
                0 <= i <= self.env@.len(),
                forall|j: int| 0 <= j < i ==> (#[trigger] self.env@[j]).0@ != name@,
            decreases self.env@.len() - i,
        {
            if self.env[i].0 == *name {
                proof {
                    assert(first_index(self.env@, name@, i as int));
                    lemma_lookup_first(self.env@, name@, i as int);
                }
                return Some(self.env[i].1.duplicate());
            }
            i += 1;
        }
        proof {
            lemma_lookup_none(self.env@, name@);
        }
        None
    }
}

/// The type of `name` in the innermost scope that binds it.
pub open spec fn scope_lookup(levels: Seq<EnvLevel>, name: Seq<char>) -> Option<TypeDef>
    decreases levels.len(),
{
    if levels.len() == 0 {
        None
    } else {
        match lookup(levels.last().env@, name) {
            Some(t) => Some(t),
            None => scope_lookup(levels.drop_last(), name),
        }
    }
}

/// State of the type checker: the named types, the stack of scopes and the errors met.
pub struct TypeData {
    pub type_map: Vec<(String, TypeDef)>,
    pub env: Vec<EnvLevel>,
    pub errors: Vec<TypeError>,
}

impl TypeData {
    /// There is always an outermost scope.
    pub open spec fn wf(&self) -> bool {
        self.env@.len() >= 1
    }

    pub open spec fn spec_ret(&self) -> Option<TypeDef> {
        self.env@.last().ret
    }

    /// A state with no types, one empty scope outside any function, and no errors.
    pub fn default() -> (d: Self)
        ensures
            d.wf(),
            d.type_map@.len() == 0,
            d.env@.len() == 1,
            d.env@[0].env@.len() == 0,
            d.env@[0].ret is None,
            d.errors@.len() == 0,
    {
        let mut env: Vec<EnvLevel> = Vec::new();
        env.push(EnvLevel::new(None));
        Self { type_map: Vec::new(), env, errors: Vec::new() }
    }

    /// Binds a new name in the innermost scope; fails when the name is already visible.
    fn add_var(&mut self, name: &String, var_type: TypeDef) -> (r: Result<(), FrontendError>)
        requires
            old(self).wf(),
        ensures
            final(self).wf(),
            final(self).env@.len() == old(self).env@.len(),
            final(self).type_map == old(self).type_map,
            final(self).spec_ret() == old(self).spec_ret(),
            final(self).env@.drop_last() == old(self).env@.drop_last(),
            r is Ok <==> scope_lookup(old(self).env@, name@) is None,
            r is Ok ==> scope_lookup(final(self).env@, name@) == Some(var_type),
            r is Err ==> final(self).env == old(self).env,
            r matches Err(e) ==> (only_type_error(e) matches Some(TypeError::IdentAlreadyExists(n)) && n@ == name@),
    {
        if let Ok(_) = self.get_ident_type(name) {
            return Err(FrontendError::from_type_error(TypeError::IdentAlreadyExists(name.clone())));
        }
        self.add_force(name, var_type)
    }

    /// Binds a name in the innermost scope, replacing a binding there.
    fn add_force(&mut self, name: &String, var_type: TypeDef) -> (r: Result<(), FrontendError>)
        requires
            old(self).wf(),
        ensures
            r is Ok,
            final(self).wf(),
            final(self).env@.len() == old(self).env@.len(),
            final(self).type_map == old(self).type_map,
            final(self).spec_ret() == old(self).spec_ret(),
            final(self).env@.drop_last() == old(self).env@.drop_last(),
            scope_lookup(final(self).env@, name@) == Some(var_type),
            forall|m: Seq<char>| m != name@ ==> scope_lookup(final(self).env@, m)
                == #[trigger] scope_lookup(old(self).env@, m),
    {
        let ghost old_env = self.env@;
        let mut lvl = self.env.pop().unwrap();
        lvl.add_var(name, var_type);
        self.env.push(lvl);
        proof {
            assert(self.env@.drop_last() =~= old_env.drop_last());
        }
        Ok(())
    }

    fn add_type(&mut self, name: &String, value: TypeDef)
        ensures
            final(self).env == old(self).env,
            lookup(final(self).type_map@, name@) == Some(value),
            forall|m: Seq<char>| m != name@ ==> lookup(final(self).type_map@, m) == #[trigger] lookup(
                old(self).type_map@,
                m,
            ),
    {
        let mut l = EnvLevel { env: Vec::new(), ret: None };
        std::mem::swap(&mut l.env, &mut self.type_map);
        l.add_var(name, value);
        std::mem::swap(&mut l.env, &mut self.type_map);
    }

    /// The structure named `name`.
    fn get_type(&self, name: &String) -> (r: Result<TypeDef, FrontendError>)
        ensures
            match lookup(self.type_map@, name@) {
                Some(t) => r matches Ok(u) && type_eq(u, t) && spec_sized(u) == spec_sized(t),
                None => r matches Err(e) && (only_type_error(e) matches Some(TypeError::IdentDoesNotExist(n)) && n@ == name@),
            },
    {
        let mut i: usize = 0;
        while i < self.type_map.len()
            invariant
                0 <= i <= self.type_map@.len(),
                forall|j: int| 0 <= j < i ==> (#[trigger] self.type_map@[j]).0@ != name@,
            decreases self.type_map@.len() - i,
        {
            if self.type_map[i].0 == *name {
                proof {
                    assert(first_index(self.type_map@, name@, i as int));
                    lemma_lookup_first(self.type_map@, name@, i as int);
                }
                return Ok(self.type_map[i].1.duplicate());
            }
            i += 1;
        }
        proof {
            lemma_lookup_none(self.type_map@, name@);
        }
        Err(FrontendError::from_type_error(TypeError::IdentDoesNotExist(name.clone())))
    }

    /// Resolves a structure name to its structure; any other type stays as it is.
    fn translate_type(&self, type_def: TypeDef) -> (r: Result<TypeDef, FrontendError>)
        ensures
            match type_def {
                TypeDef::Alias(name) => match lookup(self.type_map@, name@) {
                    Some(t) => r matches Ok(u) && type_eq(u, t) && spec_sized(u) == spec_sized(t),
                    None => r is Err,
                },
                _ => r == Ok::<TypeDef, FrontendError>(type_def),
            },
    {
        match type_def {
            TypeDef::Alias(name) => self.get_type(&name),
            t => Ok(t),
        }
    }

    fn ret_ref(&self) -> (r: &Option<TypeDef>)
        requires
            self.wf(),
        ensures
            *r == self.spec_ret(),
    {
        let last_index = self.env.len() - 1;
        &self.env[last_index].ret
    }

    fn ret(&self) -> (r: Option<TypeDef>)
        requires
            self.wf(),
        ensures
            opt_type_eq(r, self.spec_ret()),
    {
        let last_index = self.env.len() - 1;
        opt_type_duplicate(&self.env[last_index].ret)
    }

    /// The type of `name` in the innermost scope that binds it.
    fn get_ident_type(&self, name: &String) -> (r: Result<TypeDef, FrontendError>)
        ensures
            match scope_lookup(self.env@, name@) {
                Some(t) => r matches Ok(u) && type_eq(u, t),
                None => r matches Err(e) && (only_type_error(e) matches Some(TypeError::IdentDoesNotExist(n)) && n@ == name@),
            },
    {
        let mut k: usize = self.env.len();
        assert(self.env@.take(k as int) =~= self.env@);
        while k > 0
            invariant
                0 <= k <= self.env@.len(),
                scope_lookup(self.env@, name@) == scope_lookup(self.env@.take(k as int), name@),
            decreases k,
        {
            let ghost pre = self.env@.take(k as int);
            proof {
                assert(pre.drop_last() =~= self.env@.take(k - 1));
                assert(pre.last() == self.env@[k - 1]);
            }
            if let Some(t) = self.env[k - 1].get_type(name) {
                return Ok(t);
            }
            k -= 1;
        }
        Err(FrontendError::from_type_error(TypeError::IdentDoesNotExist(name.clone())))
    }

    /// The binding of `name` in the innermost scope that binds it, without copying it.
    fn ident_type_ref(&self, name: &String) -> (r: Option<&TypeDef>)
        ensures
            match scope_lookup(self.env@, name@) {
                Some(t) => r matches Some(u) && *u == t,
                None => r is None,
            },
    {
        let mut k: usize = self.env.len();
        assert(self.env@.take(k as int) =~= self.env@);
        while k > 0
            invariant
                0 <= k <= self.env@.len(),
                scope_lookup(self.env@, name@) == scope_lookup(self.env@.take(k as int), name@),
            decreases k,
        {
            let ghost pre = self.env@.take(k as int);
            proof {
                assert(pre.drop_last() =~= self.env@.take(k - 1));
                assert(pre.last() == self.env@[k - 1]);
            }
            let lvl = &self.env[k - 1];
            let mut i: usize = 0;
            while i < lvl.env.len()
                invariant
                    0 <= i <= lvl.env@.len(),
                    0 < k <= self.env@.len(),
                    *lvl == self.env@[k - 1],
                    pre == self.env@.take(k as int),
                    pre.last() == self.env@[k - 1],
                    pre.drop_last() == self.env@.take(k - 1),
                    scope_lookup(self.env@, name@) == scope_lookup(pre, name@),
                    forall|j: int| 0 <= j < i ==> (#[trigger] lvl.env@[j]).0@ != name@,
                decreases lvl.env@.len() - i,
            {
                if lvl.env[i].0 == *name {
                    proof {
                        assert(first_index(lvl.env@, name@, i as int));
                        lemma_lookup_first(lvl.env@, name@, i as int);
                    }
                    return Some(&lvl.env[i].1);
                }
                i += 1;
            }
            proof {
                lemma_lookup_none(lvl.env@, name@);
            }
            k -= 1;
        }
        None
    }

    /// Opens a scope inside the current function.
    fn push_env(&mut self)
        requires
            old(self).wf(),
        ensures
            final(self).wf(),
            final(self).type_map == old(self).type_map,
            final(self).env@.len() == old(self).env@.len() + 1,
            final(self).env@.drop_last() == old(self).env@,
            final(self).env@.last().env@.len() == 0,
            opt_type_eq(final(self).spec_ret(), old(self).spec_ret()),
            forall|m: Seq<char>| scope_lookup(final(self).env@, m) == #[trigger] scope_lookup(
                old(self).env@,
                m,
            ),
    {
        let r = self.ret();
        self.env.push(EnvLevel::new(r));
        proof {
            assert(self.env@.drop_last() =~= old(self).env@);
        }
    }

    /// Opens the scope of a function body returning `ret_type`.
    fn push_fn(&mut self, ret_type: TypeDef)
        ensures
            final(self).type_map == old(self).type_map,
            final(self).env@ == old(self).env@.push(EnvLevel { env: final(self).env@.last().env, ret: Some(ret_type) }),
            final(self).env@.last().env@.len() == 0,
            final(self).spec_ret() == Some(ret_type),
            forall|m: Seq<char>| scope_lookup(final(self).env@, m) == #[trigger] scope_lookup(
                old(self).env@,
                m,
            ),
    {
        self.env.push(EnvLevel::new(Some(ret_type)));
        proof {
            assert(self.env@.drop_last() =~= old(self).env@);
        }
    }

    /// Closes the innermost scope.
    fn pop_env(&mut self)
        ensures
            final(self).type_map == old(self).type_map,
            final(self).env@ == old(self).env@.drop_last() || (old(self).env@.len() == 0
                && final(self).env@.len() == 0),
    {
        self.env.pop();
    }

    fn create_err(&mut self, err: TypeError)
        ensures
            final(self).errors@ == old(self).errors@.push(err),
            final(self).env == old(self).env,
            final(self).type_map == old(self).type_map,
    {
        self.errors.push(err);
    }
}


fn type_err(e: TypeError) -> (r: FrontendError)
    ensures
        only_type_error(r) == Some(e),
{
    FrontendError::from_type_error(e)
}

/// Type of a unary operation on an operand of type `t`, if it is allowed.
pub open spec fn unary_result(op: Operator, t: TypeDef) -> Option<TypeDef> {
    match t {
        TypeDef::PrimType(p) => Some(TypeDef::PrimType(p)),
        TypeDef::PointerType(x) => Some(TypeDef::PointerType(x)),
        _ => None,
    }
}

/// Types of a unary operation whose operand is checked.
fn unary_op(op: Operator, e: &Expr) -> (r: Result<TypeDef, FrontendError>)
    requires
        e.data.node_type is Some,
    ensures
        match unary_result(op, e.data.node_type->0) {
            Some(t) => r matches Ok(u) && type_eq(u, t),
            None => r matches Err(err) && only_type_error(err) == Some(TypeError::InvalidOperation(op)),
        },
{
    match &e.data.node_type {
        Some(TypeDef::PrimType(p)) => Ok(TypeDef::PrimType(*p)),
        Some(TypeDef::PointerType(x)) => Ok(TypeDef::PointerType(Box::new(x.duplicate()))),
        _ => Err(type_err(TypeError::InvalidOperation(op))),
    }
}

/// Whether an expression denotes a place that can be assigned.
pub open spec fn spec_assignable(e: Expr) -> bool
    decreases e,
{
    match e.value {
        ExprType::Ident(_) => !(e.data.node_type matches Some(TypeDef::Function(_))),
        ExprType::Index(arr, _) => spec_assignable(*arr),
        ExprType::Deref(_) => true,
        ExprType::FieldAccess(s, _) => spec_assignable(*s),
        _ => false,
    }
}

impl AstNode<ExprType> {
    fn assignable(&self) -> (r: bool)
        ensures
            r == spec_assignable(*self),
        decreases self,
    {
        match &self.value {
            ExprType::Ident(_) => match &self.data.node_type {
                Some(TypeDef::Function(_)) => false,
                _ => true,
            },
            ExprType::Index(arr, _) => arr.assignable(),
            ExprType::Deref(_) => true,
            ExprType::FieldAccess(s, _) => s.assignable(),
            _ => false,
        }
    }
}

/// Whether two operand types fit a binary operator.
pub open spec fn binary_compatible(op: Operator, l: TypeDef, r: TypeDef) -> bool {
    type_eq(l, r) || (op == Operator::Add && l.spec_is_pointer() && type_eq(
        r,
        TypeDef::PrimType(PrimType::Int),
    ))
}

/// Type of a binary operation other than assignment, by the type of its left operand.
pub open spec fn binary_table(op: Operator, l: TypeDef) -> Option<TypeDef> {
    match (op, l) {
        (Operator::Add, TypeDef::PointerType(p)) => Some(TypeDef::PointerType(p)),
        (Operator::Sub, TypeDef::PointerType(p)) => Some(TypeDef::PointerType(p)),
        (Operator::Add, TypeDef::PrimType(t)) => Some(TypeDef::PrimType(t)),
        (Operator::Sub, TypeDef::PrimType(t)) => Some(TypeDef::PrimType(t)),
        (Operator::Mul, TypeDef::PrimType(t)) => Some(TypeDef::PrimType(t)),
        (Operator::Div, TypeDef::PrimType(t)) => Some(TypeDef::PrimType(t)),
        (Operator::Lt, _) => Some(TypeDef::PrimType(PrimType::Int)),
        (Operator::Le, _) => Some(TypeDef::PrimType(PrimType::Int)),
        (Operator::Gt, _) => Some(TypeDef::PrimType(PrimType::Int)),
        (Operator::Ge, _) => Some(TypeDef::PrimType(PrimType::Int)),
        (Operator::Eql, _) => Some(TypeDef::PrimType(PrimType::Int)),
        (Operator::Neq, _) => Some(TypeDef::PrimType(PrimType::Int)),
        (Operator::BitOr, TypeDef::PrimType(t)) => Some(TypeDef::PrimType(t)),
        (Operator::BitAnd, TypeDef::PrimType(t)) => Some(TypeDef::PrimType(t)),
        (Operator::And, TypeDef::PrimType(PrimType::Int)) => Some(TypeDef::PrimType(PrimType::Int)),
        (Operator::Or, TypeDef::PrimType(PrimType::Int)) => Some(TypeDef::PrimType(PrimType::Int)),
        (Operator::BitNot, TypeDef::PrimType(t)) => Some(TypeDef::PrimType(t)),
        (Operator::Mod, TypeDef::PrimType(PrimType::Int)) => Some(TypeDef::PrimType(PrimType::Int)),
        (Operator::ShiftLeft, TypeDef::PrimType(t)) => Some(TypeDef::PrimType(t)),
        (Operator::ShiftRight, TypeDef::PrimType(t)) => Some(TypeDef::PrimType(t)),
        _ => None,
    }
}

/// The type that checking gave an expression.
fn node_type_of(e: &Expr) -> (t: &TypeDef)
    requires
        e.data.node_type is Some,
    ensures
        *t == e.data.node_type->0,
{
    e.data.node_type.as_ref().unwrap()
}

/// Types a binary operation whose operands are checked.
fn binary_op(op: Operator, left: &Expr, right: &Expr) -> (r: Result<TypeDef, FrontendError>)
    requires
        left.data.node_type is Some,
        right.data.node_type is Some,
    ensures
        ({
            let l = left.data.node_type->0;
            let rt = right.data.node_type->0;
            if !binary_compatible(op, l, rt) {
                r matches Err(e) && only_type_error(e) matches Some(TypeError::BinaryTypeMissmatch(o, _, _)) && o == op
            } else if l is Function {
                r matches Err(e) && only_type_error(e) == Some(TypeError::BinaryOperatorError)
            } else if op == Operator::Assign {
                if spec_assignable(*left) {
                    r == Ok::<TypeDef, FrontendError>(TypeDef::Void)
                } else {
                    r matches Err(e) && only_type_error(e) matches Some(TypeError::CannotAssignInto(_))
                }
            } else {
                match binary_table(op, l) {
                    Some(t) => r matches Ok(u) && type_eq(u, t),
                    None => r matches Err(e) && only_type_error(e) == Some(TypeError::BinaryOperatorError),
                }
            }
        }),
{
    let lt = node_type_of(left);
    let rt = node_type_of(right);
    let is_int = rt.equals(&TypeDef::PrimType(PrimType::Int));
    let compatible = lt.equals(rt) || (op == Operator::Add && lt.is_pointer() && is_int);
    if !compatible {
        return Err(type_err(TypeError::BinaryTypeMissmatch(op, lt.duplicate(), rt.duplicate())));
    }
    if let TypeDef::Function(_) = lt {
        return Err(type_err(TypeError::BinaryOperatorError));
    }
    if op == Operator::Assign {
        if left.assignable() {
            return Ok(TypeDef::Void);
        } else {
            return Err(type_err(TypeError::CannotAssignInto(expr_duplicate(left))));
        }
    }
    let int_t = TypeDef::PrimType(PrimType::Int);
    match (op, lt) {
        (Operator::Add, TypeDef::PointerType(p)) => Ok(TypeDef::PointerType(Box::new(p.duplicate()))),
        (Operator::Sub, TypeDef::PointerType(p)) => Ok(TypeDef::PointerType(Box::new(p.duplicate()))),
        (Operator::Add, TypeDef::PrimType(t)) => Ok(TypeDef::PrimType(*t)),
        (Operator::Sub, TypeDef::PrimType(t)) => Ok(TypeDef::PrimType(*t)),
        (Operator::Mul, TypeDef::PrimType(t)) => Ok(TypeDef::PrimType(*t)),
        (Operator::Div, TypeDef::PrimType(t)) => Ok(TypeDef::PrimType(*t)),
        (Operator::Lt, _) => Ok(int_t),
        (Operator::Le, _) => Ok(int_t),
        (Operator::Gt, _) => Ok(int_t),
        (Operator::Ge, _) => Ok(int_t),
        (Operator::Eql, _) => Ok(int_t),
        (Operator::Neq, _) => Ok(int_t),
        (Operator::BitOr, TypeDef::PrimType(t)) => Ok(TypeDef::PrimType(*t)),
        (Operator::BitAnd, TypeDef::PrimType(t)) => Ok(TypeDef::PrimType(*t)),
        (Operator::And, TypeDef::PrimType(PrimType::Int)) => Ok(int_t),
        (Operator::Or, TypeDef::PrimType(PrimType::Int)) => Ok(int_t),
        (Operator::BitNot, TypeDef::PrimType(t)) => Ok(TypeDef::PrimType(*t)),
        (Operator::Mod, TypeDef::PrimType(PrimType::Int)) => Ok(int_t),
        (Operator::ShiftLeft, TypeDef::PrimType(t)) => Ok(TypeDef::PrimType(*t)),
        (Operator::ShiftRight, TypeDef::PrimType(t)) => Ok(TypeDef::PrimType(*t)),
        _ => Err(type_err(TypeError::BinaryOperatorError)),
    }
}


/// The annotation of a node (meaningful once it has one).
pub open spec fn ann(e: Expr) -> TypeDef {
    e.data.node_type->0
}

/// The type the typing rules give the root of `e`, from the annotations of its
/// direct subexpressions and the scopes `env`; `None` when a rule refuses it.
pub open spec fn rule_type(env: Seq<EnvLevel>, e: Expr) -> Option<TypeDef> {
    match e.value {
        ExprType::BinOp(op, l, r) => {
            if !binary_compatible(op, ann(*l), ann(*r)) || ann(*l) is Function {
                None
            } else if op == Operator::Assign {
                if spec_assignable(*l) {
                    Some(TypeDef::Void)
                } else {
                    None
                }
            } else {
                binary_table(op, ann(*l))
            }
        },
        ExprType::UnaryPreOp(op, x) => unary_result(op, ann(*x)),
        ExprType::UnaryPostOp(op, x) => unary_result(op, ann(*x)),
        ExprType::Value(Val::Integer(_)) => Some(TypeDef::PrimType(PrimType::Int)),
        ExprType::Value(Val::Char(_)) => Some(TypeDef::PrimType(PrimType::Char)),
        ExprType::Ident(n) => scope_lookup(env, n@),
        ExprType::Call(f, args) => match ann(*f) {
            TypeDef::Function(ft) => {
                if ft.params@.len() == args@.len() && forall|i: int|
                    0 <= i < args@.len() ==> type_eq(ann(#[trigger] args@[i]), ft.params@[i]) {
                    Some(*ft.ret_type)
                } else {
                    None
                }
            },
            _ => None,
        },
        ExprType::Index(o, i) => {
            if type_eq(ann(*i), TypeDef::PrimType(PrimType::Int)) {
                match ann(*o) {
                    TypeDef::PointerType(p) => Some(*p),
                    TypeDef::Array(a) => Some(*a.inner_type),
                    _ => None,
                }
            } else {
                None
            }
        },
        ExprType::Deref(x) => match ann(*x) {
            TypeDef::PointerType(p) => Some(*p),
            _ => None,
        },
        ExprType::Address(x) => Some(TypeDef::PointerType(Box::new(ann(*x)))),
        ExprType::Cast(t, _) => Some(t),
        ExprType::FieldAccess(x, f) => match ann(*x) {
            TypeDef::Struct(s) => match s.fields {
                Some(fs) => crate::frontend::ast::spec_field_type(fs@, f@),
                None => None,
            },
            _ => None,
        },
        ExprType::SysCall(_, _) => Some(TypeDef::PrimType(PrimType::Int)),
    }
}

/// The typing of arithmetic and comparisons: `+`, `-`, `*` and `/` on two operands of
/// one primitive type give that type, `%` on two ints gives an int, and comparing two
/// operands of one primitive type gives an int.
pub proof fn law_arith_types(env: Seq<EnvLevel>, e: Expr, op: Operator, l: Expr, r: Expr, t: PrimType)
    requires
        e.value == ExprType::BinOp(op, Box::new(l), Box::new(r)),
        ann(l) == TypeDef::PrimType(t),
        ann(r) == TypeDef::PrimType(t),
    ensures
        op == Operator::Add || op == Operator::Sub || op == Operator::Mul || op == Operator::Div
            ==> rule_type(env, e) == Some(TypeDef::PrimType(t)),
        op == Operator::Mod && t == PrimType::Int ==> rule_type(env, e) == Some(TypeDef::PrimType(PrimType::Int)),
        op == Operator::Lt || op == Operator::Le || op == Operator::Gt || op == Operator::Ge || op == Operator::Eql
            ==> rule_type(env, e) == Some(TypeDef::PrimType(PrimType::Int)),
{
    assert(type_eq(TypeDef::PrimType(t), TypeDef::PrimType(t)));
    assert(binary_compatible(op, ann(l), ann(r)));
}

/// Every checked node of `e` carries an annotation equal to what the typing rules give it.
/// The operand of a cast is not checked.
pub open spec fn expr_typed(env: Seq<EnvLevel>, e: Expr) -> bool
    decreases e,
{
    &&& e.data.node_type is Some
    &&& rule_type(env, e) matches Some(u) && type_eq(ann(e), u)
    &&& match e.value {
        ExprType::BinOp(_, l, r) => expr_typed(env, *l) && expr_typed(env, *r),
        ExprType::UnaryPreOp(_, x) => expr_typed(env, *x),
        ExprType::UnaryPostOp(_, x) => expr_typed(env, *x),
        ExprType::Call(f, args) => expr_typed(env, *f) && forall|i: int|
            0 <= i < args@.len() ==> expr_typed(env, #[trigger] args@[i]),
        ExprType::Index(o, i) => expr_typed(env, *o) && expr_typed(env, *i),
        ExprType::Deref(x) => expr_typed(env, *x),
        ExprType::Address(x) => expr_typed(env, *x),
        ExprType::FieldAccess(x, _) => expr_typed(env, *x),
        ExprType::SysCall(_, args) => forall|i: int|
            0 <= i < args@.len() ==> expr_typed(env, #[trigger] args@[i]),
        _ => true,
    }
}

/// Every checked direct subexpression of `e` is typed; the operand of a cast is not
/// checked.
pub open spec fn parts_typed(env: Seq<EnvLevel>, e: Expr) -> bool {
    match e.value {
        ExprType::BinOp(_, l, r) => expr_typed(env, *l) && expr_typed(env, *r),
        ExprType::UnaryPreOp(_, x) => expr_typed(env, *x),
        ExprType::UnaryPostOp(_, x) => expr_typed(env, *x),
        ExprType::Call(f, args) => expr_typed(env, *f) && forall|i: int|
            0 <= i < args@.len() ==> expr_typed(env, #[trigger] args@[i]),
        ExprType::Index(o, i) => expr_typed(env, *o) && expr_typed(env, *i),
        ExprType::Deref(x) => expr_typed(env, *x),
        ExprType::Address(x) => expr_typed(env, *x),
        ExprType::FieldAccess(x, _) => expr_typed(env, *x),
        ExprType::SysCall(_, args) => forall|i: int|
            0 <= i < args@.len() ==> expr_typed(env, #[trigger] args@[i]),
        _ => true,
    }
}

/// Two expressions that differ at most in their annotations.
pub open spec fn expr_same(a: Expr, b: Expr) -> bool
    decreases a,
{
    &&& a.data.loc == b.data.loc
    &&& match (a.value, b.value) {
        (ExprType::BinOp(o1, l1, r1), ExprType::BinOp(o2, l2, r2)) => o1 == o2 && expr_same(*l1, *l2)
            && expr_same(*r1, *r2),
        (ExprType::UnaryPreOp(o1, e1), ExprType::UnaryPreOp(o2, e2)) => o1 == o2 && expr_same(*e1, *e2),
        (ExprType::UnaryPostOp(o1, e1), ExprType::UnaryPostOp(o2, e2)) => o1 == o2 && expr_same(*e1, *e2),
        (ExprType::Value(v1), ExprType::Value(v2)) => v1 == v2,
        (ExprType::Ident(s1), ExprType::Ident(s2)) => s1 == s2,
        (ExprType::Call(f1, a1), ExprType::Call(f2, a2)) => {
            &&& expr_same(*f1, *f2)
            &&& a1@.len() == a2@.len()
            &&& forall|i: int| 0 <= i < a1@.len() ==> expr_same(#[trigger] a1@[i], a2@[i])
        },
        (ExprType::Index(x1, y1), ExprType::Index(x2, y2)) => expr_same(*x1, *x2) && expr_same(*y1, *y2),
        (ExprType::Deref(e1), ExprType::Deref(e2)) => expr_same(*e1, *e2),
        (ExprType::Address(e1), ExprType::Address(e2)) => expr_same(*e1, *e2),
        (ExprType::Cast(t1, e1), ExprType::Cast(t2, e2)) => t1 == t2 && e1 == e2,
        (ExprType::FieldAccess(e1, s1), ExprType::FieldAccess(e2, s2)) => expr_same(*e1, *e2) && s1 == s2,
        (ExprType::SysCall(n1, a1), ExprType::SysCall(n2, a2)) => {
            &&& n1 == n2
            &&& a1@.len() == a2@.len()
            &&& forall|i: int| 0 <= i < a1@.len() ==> expr_same(#[trigger] a1@[i], a2@[i])
        },
        _ => false,
    }
}

/// Every expression differs from itself at most in its annotations.
pub proof fn lemma_expr_same_refl(e: Expr)
    ensures
        expr_same(e, e),
    decreases e,
{
    match e.value {
        ExprType::BinOp(_, l, r) => {
            lemma_expr_same_refl(*l);
            lemma_expr_same_refl(*r);
        },
        ExprType::UnaryPreOp(_, x) => lemma_expr_same_refl(*x),
        ExprType::UnaryPostOp(_, x) => lemma_expr_same_refl(*x),
        ExprType::Call(f, args) => {
            lemma_expr_same_refl(*f);
            assert forall|i: int| 0 <= i < args@.len() implies expr_same(#[trigger] args@[i], args@[i]) by {
                lemma_expr_same_refl(args@[i]);
            }
        },
        ExprType::Index(x, y) => {
            lemma_expr_same_refl(*x);
            lemma_expr_same_refl(*y);
        },
        ExprType::Deref(x) => lemma_expr_same_refl(*x),
        ExprType::Address(x) => lemma_expr_same_refl(*x),
        ExprType::FieldAccess(x, _) => lemma_expr_same_refl(*x),
        ExprType::SysCall(_, args) => {
            assert forall|i: int| 0 <= i < args@.len() implies expr_same(#[trigger] args@[i], args@[i]) by {
                lemma_expr_same_refl(args@[i]);
            }
        },
        _ => {},
    }
}

/// Result of checking the arguments of a call or system call.
pub enum ArgsOutcome {
    Checked,
    Failed(FrontendError),
    Mismatch(usize),
}

/// Checks each expression of `args` in order, stopping at the first that fails or, when
/// `params` is given, whose type differs from the parameter at its place.
fn typecheck_args(
    args: &mut Vec<Expr>,
    params: Option<&Vec<TypeDef>>,
    data: &TypeData,
    Ghost(outer): Ghost<Expr>,
) -> (r: ArgsOutcome)
    requires
        forall|i: int| 0 <= i < old(args)@.len() ==> decreases_to!(outer => #[trigger] old(args)@[i]),
        params matches Some(ps) ==> ps@.len() == old(args)@.len(),
    ensures
        final(args)@.len() == old(args)@.len(),
        forall|i: int| 0 <= i < old(args)@.len() ==> expr_same(#[trigger] old(args)@[i], final(args)@[i]),
        r is Checked <==> forall|i: int| 0 <= i < final(args)@.len() ==> {
            &&& expr_typed(data.env@, #[trigger] final(args)@[i])
            &&& (params matches Some(ps) ==> type_eq(ann(final(args)@[i]), ps@[i]))
        },
        r matches ArgsOutcome::Mismatch(k) ==> k < final(args)@.len() && params is Some
            && expr_typed(data.env@, final(args)@[k as int])
            && !type_eq(ann(final(args)@[k as int]), params->0@[k as int]),
    decreases outer, 0nat,
{
    let ghost orig = args@;
    let mut i: usize = 0;
    while i < args.len()
        invariant
            0 <= i <= args@.len(),
            args@.len() == orig.len(),
            orig == old(args)@,
            params matches Some(ps) ==> ps@.len() == orig.len(),
            forall|j: int| 0 <= j < orig.len() ==> decreases_to!(outer => #[trigger] orig[j]),
            forall|j: int| i <= j < orig.len() ==> #[trigger] args@[j] == orig[j],
            forall|j: int| 0 <= j < i ==> expr_same(#[trigger] orig[j], args@[j]),
            forall|j: int| 0 <= j < i ==> {
                &&& expr_typed(data.env@, #[trigger] args@[j])
                &&& (params matches Some(ps) ==> type_eq(ann(args@[j]), ps@[j]))
            },
        decreases orig.len() - i,
    {
        let mut x = args.remove(i);
        assert(x == orig[i as int]);
        assert(decreases_to!(outer => orig[i as int]));
        let rx = x.typecheck(data);
        match rx {
            Err(e) => {
                args.insert(i, x);
                proof {
                    assert forall|j: int| 0 <= j < orig.len() implies expr_same(#[trigger] orig[j], args@[j]) by {
                        if j > i {
                            lemma_expr_same_refl(orig[j]);
                        }
                    }
                }
                return ArgsOutcome::Failed(e);
            },
            Ok(_) => {},
        }
        let mismatch = match params {
            Some(ps) => !node_type_of(&x).equals(&ps[i]),
            None => false,
        };
        args.insert(i, x);
        if mismatch {
            proof {
                assert forall|j: int| 0 <= j < orig.len() implies expr_same(#[trigger] orig[j], args@[j]) by {
                    if j > i {
                        lemma_expr_same_refl(orig[j]);
                    }
                }
            }
            return ArgsOutcome::Mismatch(i);
        }
        i += 1;
    }
    ArgsOutcome::Checked
}

impl AstNode<ExprType> {
    /// Checks the expression in the scopes of `data` and annotates each node it checks
    /// with its type. The check succeeds exactly when the annotations it leaves follow
    /// the typing rules; nothing but annotations changes.
    #[verifier::rlimit(100)]
    #[verifier::spinoff_prover]
    pub fn typecheck(&mut self, data: &TypeData) -> (r: Result<TypeDef, FrontendError>)
        ensures
            expr_same(*old(self), *final(self)),
            r is Ok <==> expr_typed(data.env@, *final(self)),
            parts_typed(data.env@, *final(self)) && rule_type(data.env@, *final(self)) is Some ==> r is Ok,
            r matches Ok(t) ==> t == TypeDef::Void,
            old(self).value is Value ==> r is Ok,
            old(self).value is Cast ==> r is Ok,
            old(self).value matches ExprType::Ident(n) ==> (r is Ok <==> scope_lookup(data.env@, n@) is Some),
            final(self).value matches ExprType::Index(ob, ix) ==> (old(self).value is Index && expr_typed(data.env@, *ob)
                && expr_typed(data.env@, *ix) ==> ({
                &&& !type_eq(ann(*ix), TypeDef::PrimType(PrimType::Int)) ==> (r matches Err(e) && only_type_error(e)
                    == Some(TypeError::IndexMustBeInteger))
                &&& type_eq(ann(*ix), TypeDef::PrimType(PrimType::Int)) && !(ann(*ob) is PointerType || ann(*ob) is Array)
                    ==> (r matches Err(e) && only_type_error(e) == Some(TypeError::NonPointerDeref))
            })),
            final(self).value matches ExprType::Deref(x) ==> (old(self).value is Deref && expr_typed(data.env@, *x)
                && !(ann(*x) is PointerType) ==> (r matches Err(e) && only_type_error(e) == Some(TypeError::NonPointerDeref))),
        decreases *old(self), 1nat,
    {
        let ghost o = *old(self);
        proof {
            assert(decreases_to!(o => o.value));
        }
        let mut v = ExprType::Value(Val::Integer(0));
        std::mem::swap(&mut v, &mut self.value);
        match v {
            ExprType::BinOp(op, mut l, mut r) => {
                proof {
                    assert(decreases_to!(o.value => *l));
                    assert(decreases_to!(o.value => *r));
                }
                if let Err(e) = l.typecheck(data) {
                    proof {
                        lemma_expr_same_refl(*r);
                    }
                    self.value = ExprType::BinOp(op, l, r);
                    return Err(e);
                }
                if let Err(e) = r.typecheck(data) {
                    self.value = ExprType::BinOp(op, l, r);
                    return Err(e);
                }
                let t = binary_op(op, &l, &r);
                self.value = ExprType::BinOp(op, l, r);
                match t {
                    Ok(t) => {
                        self.set_type(t);
                        Ok(TypeDef::Void)
                    },
                    Err(e) => Err(e),
                }
            },
            ExprType::UnaryPreOp(op, mut x) => {
                proof {
                    assert(decreases_to!(o.value => *x));
                }
                if let Err(e) = x.typecheck(data) {
                    self.value = ExprType::UnaryPreOp(op, x);
                    return Err(e);
                }
                let t = unary_op(op, &x);
                self.value = ExprType::UnaryPreOp(op, x);
                match t {
                    Ok(t) => {
                        self.set_type(t);
                        Ok(TypeDef::Void)
                    },
                    Err(e) => Err(e),
                }
            },
            ExprType::UnaryPostOp(op, mut x) => {
                proof {
                    assert(decreases_to!(o.value => *x));
                }
                if let Err(e) = x.typecheck(data) {
                    self.value = ExprType::UnaryPostOp(op, x);
                    return Err(e);
                }
                let t = unary_op(op, &x);
                self.value = ExprType::UnaryPostOp(op, x);
                match t {
                    Ok(t) => {
                        self.set_type(t);
                        Ok(TypeDef::Void)
                    },
                    Err(e) => Err(e),
                }
            },
            ExprType::Value(val) => {
                self.value = ExprType::Value(val);
                match val {
                    Val::Integer(_) => {
                        self.set_type(TypeDef::PrimType(PrimType::Int));
                    },
                    Val::Char(_) => {
                        self.set_type(TypeDef::PrimType(PrimType::Char));
                    },
                }
                Ok(TypeDef::Void)
            },
            ExprType::Ident(name) => {
                let t = data.get_ident_type(&name);
                self.value = ExprType::Ident(name);
                match t {
                    Ok(t) => {
                        self.set_type(t);
                        Ok(TypeDef::Void)
                    },
                    Err(e) => Err(e),
                }
            },
            ExprType::Call(mut f, mut args) => {
                proof {
                    assert(decreases_to!(o.value => *f));
                    assert forall|i: int| 0 <= i < args@.len() implies decreases_to!(o => #[trigger] args@[i]) by {
                        assert(decreases_to!(o => o.value));
                        assert(decreases_to!(o.value => args));
                        assert(decreases_to!(args => args@));
                    }
                }
                proof {
                    assert forall|i: int| 0 <= i < args@.len() implies expr_same(#[trigger] args@[i], args@[i]) by {
                        lemma_expr_same_refl(args@[i]);
                    }
                }
                if let Err(e) = f.typecheck(data) {
                    self.value = ExprType::Call(f, args);
                    return Err(e);
                }
                let res: Result<TypeDef, FrontendError> = match node_type_of(&f) {
                    TypeDef::Function(ft) => {
                        if ft.params.len() != args.len() {
                            Err(type_err(TypeError::WrongNumberOfParametes(ft.params.len(), args.len())))
                        } else {
                            match typecheck_args(&mut args, Some(&ft.params), data, Ghost(o)) {
                                ArgsOutcome::Checked => Ok(ft.ret_type.duplicate()),
                                ArgsOutcome::Failed(e) => Err(e),
                                ArgsOutcome::Mismatch(k) => Err(type_err(TypeError::WrongParamType(
                                    ft.params[k].duplicate(),
                                    args[k].get_type(),
                                ))),
                            }
                        }
                    },
                    _ => Err(type_err(TypeError::NonFunctionCall)),
                };
                self.value = ExprType::Call(f, args);
                match res {
                    Ok(t) => {
                        self.set_type(t);
                        assert(expr_typed(data.env@, *self));
                        Ok(TypeDef::Void)
                    },
                    Err(e) => {
                        assert(!expr_typed(data.env@, *self));
                        Err(e)
                    },
                }
            },
            ExprType::Index(mut obj, mut index) => {
                proof {
                    assert(decreases_to!(o.value => *obj));
                    assert(decreases_to!(o.value => *index));
                }
                if let Err(e) = obj.typecheck(data) {
                    proof {
                        lemma_expr_same_refl(*index);
                    }
                    self.value = ExprType::Index(obj, index);
                    return Err(e);
                }
                if let Err(e) = index.typecheck(data) {
                    self.value = ExprType::Index(obj, index);
                    return Err(e);
                }
                let res: Result<TypeDef, FrontendError> = if !node_type_of(&index).equals(
                    &TypeDef::PrimType(PrimType::Int),
                ) {
                    Err(type_err(TypeError::IndexMustBeInteger))
                } else {
                    match node_type_of(&obj) {
                        TypeDef::PointerType(p) => Ok(p.duplicate()),
                        TypeDef::Array(a) => Ok(a.inner_type.duplicate()),
                        _ => Err(type_err(TypeError::NonPointerDeref)),
                    }
                };
                self.value = ExprType::Index(obj, index);
                match res {
                    Ok(t) => {
                        self.set_type(t);
                        Ok(TypeDef::Void)
                    },
                    Err(e) => Err(e),
                }
            },
            ExprType::Deref(mut x) => {
                proof {
                    assert(decreases_to!(o.value => *x));
                }
                if let Err(e) = x.typecheck(data) {
                    self.value = ExprType::Deref(x);
                    return Err(e);
                }
                let res: Result<TypeDef, FrontendError> = match node_type_of(&x) {
                    TypeDef::PointerType(p) => Ok(p.duplicate()),
                    _ => Err(type_err(TypeError::NonPointerDeref)),
                };
                self.value = ExprType::Deref(x);
                match res {
                    Ok(t) => {
                        self.set_type(t);
                        Ok(TypeDef::Void)
                    },
                    Err(e) => Err(e),
                }
            },
            ExprType::Address(mut x) => {
                proof {
                    assert(decreases_to!(o.value => *x));
                }
                if let Err(e) = x.typecheck(data) {
                    self.value = ExprType::Address(x);
                    return Err(e);
                }
                let t = TypeDef::PointerType(Box::new(x.get_type()));
                self.value = ExprType::Address(x);
                self.set_type(t);
                Ok(TypeDef::Void)
            },
            ExprType::Cast(t, inner) => {
                let ct = t.duplicate();
                self.value = ExprType::Cast(t, inner);
                self.set_type(ct);
                Ok(TypeDef::Void)
            },
            ExprType::FieldAccess(mut x, field) => {
                proof {
                    assert(decreases_to!(o.value => *x));
                }
                if let Err(e) = x.typecheck(data) {
                    self.value = ExprType::FieldAccess(x, field);
                    return Err(e);
                }
                let res: Result<TypeDef, FrontendError> = match node_type_of(&x) {
                    TypeDef::Struct(s) => match s.field_type(&field) {
                        Some(t) => Ok(t),
                        None => Err(type_err(TypeError::MissingField(field.clone()))),
                    },
                    _ => Err(type_err(TypeError::NonStructType)),
                };
                self.value = ExprType::FieldAccess(x, field);
                match res {
                    Ok(t) => {
                        self.set_type(t);
                        Ok(TypeDef::Void)
                    },
                    Err(e) => Err(e),
                }
            },
            ExprType::SysCall(n, mut args) => {
                proof {
                    assert forall|i: int| 0 <= i < args@.len() implies decreases_to!(o => #[trigger] args@[i]) by {
                        assert(decreases_to!(o => o.value));
                        assert(decreases_to!(o.value => args));
                        assert(decreases_to!(args => args@));
                    }
                }
                let res = typecheck_args(&mut args, None, data, Ghost(o));
                let ghost a = args@;
                self.value = ExprType::SysCall(n, args);
                match res {
                    ArgsOutcome::Failed(e) => {
                        proof {
                            assert(!(forall|i: int| 0 <= i < a.len() ==> expr_typed(data.env@, #[trigger] a[i])));
                            assert(self.value is SysCall);
                            assert(self.value->SysCall_1@ == a);
                            assert(!expr_typed(data.env@, *self));
                        }
                        Err(e)
                    },
                    _ => {
                        self.set_type(TypeDef::PrimType(PrimType::Int));
                        assert(expr_typed(data.env@, *self));
                        Ok(TypeDef::Void)
                    },
                }
            },
        }
    }
}

/// The type `t` stands for once structure names are resolved in `type_map`.
pub open spec fn translated(type_map: Seq<(String, TypeDef)>, t: TypeDef) -> Option<TypeDef> {
    match t {
        TypeDef::Alias(n) => lookup(type_map, n@),
        _ => Some(t),
    }
}

/// Types equal by `type_eq` resolve alike: both or neither.
proof fn lemma_translated_alike(type_map: Seq<(String, TypeDef)>, a: TypeDef, b: TypeDef)
    requires
        type_eq(a, b),
    ensures
        (translated(type_map, a) is Some) == (translated(type_map, b) is Some),
{
}

/// Two optional expressions that differ at most in their annotations.
pub open spec fn opt_expr_same(a: Option<Expr>, b: Option<Expr>) -> bool {
    match (a, b) {
        (None, None) => true,
        (Some(x), Some(y)) => expr_same(x, y),
        _ => false,
    }
}

impl AstNode<VarDeclType> {
    /// Checks a declaration: its type must resolve to a sized type, its name must not be
    /// visible yet, and its initial value must check to the same type. On success the
    /// name is bound in the innermost scope.
    pub fn typecheck(&mut self, data: &mut TypeData) -> (r: Result<TypeDef, FrontendError>)
        requires
            old(data).wf(),
        ensures
            final(data).wf(),
            final(data).type_map == old(data).type_map,
            final(data).env@.len() == old(data).env@.len(),
            final(data).spec_ret() == old(data).spec_ret(),
            final(data).env@.drop_last() == old(data).env@.drop_last(),
            final(self).data.loc == old(self).data.loc,
            final(self).value.name == old(self).value.name,
            final(self).value.var_type == old(self).value.var_type,
            opt_expr_same(old(self).value.init_val, final(self).value.init_val),
            r matches Ok(t) ==> t == TypeDef::Void,
            r is Ok ==> {
                &&& translated(old(data).type_map@, old(self).value.var_type) matches Some(u)
                &&& spec_sized(u)
                &&& scope_lookup(old(data).env@, old(self).value.name@) is None
                &&& scope_lookup(final(data).env@, old(self).value.name@) matches Some(w)
                &&& type_eq(w, u)
                &&& (final(self).value.init_val matches Some(i) ==> expr_typed(final(data).env@, i)
                    && type_eq(ann(i), w))
                &&& final(self).data.node_type == Some(TypeDef::Void)
            },
            translated(old(data).type_map@, old(self).value.var_type) is None ==> r is Err,
            translated(old(data).type_map@, old(self).value.var_type) matches Some(u) && !spec_sized(u)
                ==> r is Err,
            scope_lookup(old(data).env@, old(self).value.name@) is Some ==> r is Err,
            ({
                &&& translated(old(data).type_map@, old(self).value.var_type) is Some
                &&& spec_sized(translated(old(data).type_map@, old(self).value.var_type)->0)
                &&& scope_lookup(old(data).env@, old(self).value.name@) is None
                &&& (final(self).value.init_val matches Some(i) ==> expr_typed(final(data).env@, i)
                    && scope_lookup(final(data).env@, old(self).value.name@) is Some && type_eq(
                    ann(i),
                    scope_lookup(final(data).env@, old(self).value.name@)->0,
                ))
            }) ==> r is Ok,
    {
        let t = match data.translate_type(self.value.var_type.duplicate()) {
            Ok(t) => t,
            Err(e) => {
                proof {
                    if old(self).value.init_val is Some {
                        lemma_expr_same_refl(old(self).value.init_val->0);
                    }
                }
                return Err(e);
            },
        };
        proof {
            if old(self).value.init_val is Some {
                lemma_expr_same_refl(old(self).value.init_val->0);
            }
        }
        if !t.sized() {
            return Err(type_err(TypeError::TypeIsNotSized));
        }
        if let Err(e) = data.add_var(&self.value.name, t) {
            return Err(e);
        }
        let mut init: Option<Expr> = None;
        std::mem::swap(&mut init, &mut self.value.init_val);
        match init {
            Some(mut i) => {
                let ri = i.typecheck(data);
                if let Err(e) = ri {
                    self.value.init_val = Some(i);
                    return Err(e);
                }
                let bound = data.ident_type_ref(&self.value.name).unwrap();
                if !node_type_of(&i).equals(bound) {
                    let err = TypeError::VariableTypeError(self.value.name.clone(), bound.duplicate(), i.get_type());
                    self.value.init_val = Some(i);
                    return Err(type_err(err));
                }
                self.value.init_val = Some(i);
            },
            None => {},
        }
        self.set_type(TypeDef::Void);
        Ok(TypeDef::Void)
    }
}

/// `t` is a type that the statement `s` gives back, as the checker computes it: a block
/// gives what its last statement gives, a return what its value is, an `if` with an
/// `else` the type of its branches when they agree, and any other statement nothing.
pub open spec fn returns_as(s: Statement, t: TypeDef) -> bool
    decreases s,
{
    match s.value {
        StatementType::Block(ss) => if ss@.len() == 0 {
            t == TypeDef::Void
        } else {
            returns_as(ss@.last(), t)
        },
        StatementType::IfElse(_, a, b) => exists|ta: TypeDef, tb: TypeDef|
            returns_as(*a, ta) && returns_as(*b, tb) && if type_eq(ta, tb) {
                t == ta
            } else {
                t == TypeDef::Void
            },
        StatementType::Return(Some(e)) => type_eq(t, ann(*e)),
        _ => t == TypeDef::Void,
    }
}

/// The scopes after a successful check: as many as before, the outer ones untouched and
/// the innermost one still in the same function.
pub open spec fn scopes_kept(before: TypeData, after: TypeData) -> bool {
    &&& after.env@.len() == before.env@.len()
    &&& after.env@.drop_last() == before.env@.drop_last()
    &&& after.spec_ret() == before.spec_ret()
}

impl AstNode<StatementType> {
    /// Checks a statement in the scopes of `data`; blocks and the bodies of `if` and
    /// `while` get a scope of their own. Gives back the type the statement returns.
    #[verifier::rlimit(100)]
    #[verifier::spinoff_prover]
    pub fn typecheck(&mut self, data: &mut TypeData) -> (r: Result<TypeDef, FrontendError>)
        requires
            old(data).wf(),
        ensures
            final(data).wf(),
            final(data).type_map == old(data).type_map,
            final(data).env@.len() >= old(data).env@.len(),
            r is Ok ==> scopes_kept(*old(data), *final(data)),
            final(self).data.loc == old(self).data.loc,
            r matches Ok(t) ==> returns_as(*final(self), t),
            r is Ok ==> final(self).data.node_type is Some,
            old(self).value is Expr ==> (r is Ok <==> (final(self).value matches StatementType::Expr(e)
                && expr_typed(old(data).env@, e))),
            (old(self).value is If && r is Ok) ==> (final(self).value matches StatementType::If(c, _)
                && expr_typed(old(data).env@, c) && type_eq(ann(c), TypeDef::PrimType(PrimType::Int))),
            (old(self).value is While && r is Ok) ==> (final(self).value matches StatementType::While(c, _)
                && expr_typed(old(data).env@, c) && type_eq(ann(c), TypeDef::PrimType(PrimType::Int))),
            old(self).value matches StatementType::Return(None) ==> (r is Ok <==> (old(data).spec_ret() is None
                || old(data).spec_ret() == Some(TypeDef::Void))),
            old(self).value matches StatementType::Return(Some(_)) ==> (r is Ok <==> (old(data).spec_ret() matches Some(x)
                && final(self).value matches StatementType::Return(Some(e)) && expr_typed(old(data).env@, *e)
                && type_eq(ann(*e), x))),
            old(self).value is Break || old(self).value is Continue ==> r is Ok,
            old(self).value matches StatementType::Block(b) && (forall|j: int| 0 <= j < b@.len()
                ==> (#[trigger] b@[j]).value is Break || b@[j].value is Continue) ==> r is Ok,
            old(self).value matches StatementType::Block(b) && b@.len() == 0 ==> r == Ok::<TypeDef, FrontendError>(
                TypeDef::Void,
            ),
        decreases *old(self),
    {
        let ghost o = *old(self);
        proof {
            assert(decreases_to!(o => o.value));
        }
        let mut v = StatementType::Break;
        std::mem::swap(&mut v, &mut self.value);
        match v {
            StatementType::Expr(mut e) => {
                if let Err(err) = e.typecheck(data) {
                    self.value = StatementType::Expr(e);
                    return Err(err);
                }
                let t = e.get_type();
                self.value = StatementType::Expr(e);
                self.set_type(t);
                Ok(TypeDef::Void)
            },
            StatementType::VarDecl(mut d) => {
                let rd = d.typecheck(data);
                self.value = StatementType::VarDecl(d);
                if let Err(err) = rd {
                    return Err(err);
                }
                self.set_type(TypeDef::Void);
                Ok(TypeDef::Void)
            },
            StatementType::Block(mut ss) => {
                proof {
                    assert forall|i: int| 0 <= i < ss@.len() implies decreases_to!(o => #[trigger] ss@[i]) by {
                        assert(decreases_to!(o => o.value));
                        assert(decreases_to!(o.value => ss));
                        assert(decreases_to!(ss => ss@));
                    }
                }
                let ghost orig = ss@;
                let ghost jumps_only = forall|j: int| 0 <= j < orig.len()
                    ==> (#[trigger] orig[j]).value is Break || orig[j].value is Continue;
                let ghost d0 = *data;
                data.push_env();
                let ghost d1 = *data;
                let mut ret_type = TypeDef::Void;
                let mut i: usize = 0;
                while i < ss.len()
                    invariant
                        0 <= i <= ss@.len(),
                        ss@.len() == orig.len(),
                        o == *old(self),
                        o.value is Block,
                        d0 == *old(data),
                        self.data == o.data,
                        forall|j: int| 0 <= j < orig.len() ==> decreases_to!(o => #[trigger] orig[j]),
                        forall|j: int| i <= j < orig.len() ==> #[trigger] ss@[j] == orig[j],
                        data.wf(),
                        data.type_map == d0.type_map,
                        scopes_kept(d1, *data),
                        d1.env@.len() == d0.env@.len() + 1,
                        i == 0 ==> ret_type == TypeDef::Void,
                        i > 0 ==> returns_as(ss@[i - 1], ret_type),
                        jumps_only == (forall|j: int| 0 <= j < orig.len()
                            ==> (#[trigger] orig[j]).value is Break || orig[j].value is Continue),
                        o.value matches StatementType::Block(bb) && bb@ == orig,
                    decreases orig.len() - i,
                {
                    let mut st = ss.remove(i);
                    assert(st == orig[i as int]);
                    let rs = st.typecheck(data);
                    ss.insert(i, st);
                    match rs {
                        Err(err) => {
                            self.value = StatementType::Block(ss);
                            return Err(err);
                        },
                        Ok(t) => {
                            ret_type = t;
                        },
                    }
                    i += 1;
                }
                data.pop_env();
                proof {
                    assert(data.env@ =~= d0.env@);
                    if ss@.len() > 0 {
                        assert(ss@.last() == ss@[ss@.len() - 1]);
                    }
                }
                self.value = StatementType::Block(ss);
                self.set_type(TypeDef::Void);
                Ok(ret_type)
            },
            StatementType::If(mut c, mut body) => {
                proof {
                    assert(decreases_to!(o.value => *body));
                }
                if let Err(err) = c.typecheck(data) {
                    self.value = StatementType::If(c, body);
                    return Err(err);
                }
                if !node_type_of(&c).equals(&TypeDef::PrimType(PrimType::Int)) {
                    self.value = StatementType::If(c, body);
                    return Err(type_err(TypeError::ConditionMustBeInt));
                }
                let ghost d0 = *data;
                data.push_env();
                let rb = body.typecheck(data);
                self.value = StatementType::If(c, body);
                if let Err(err) = rb {
                    return Err(err);
                }
                data.pop_env();
                proof {
                    assert(data.env@ =~= d0.env@);
                }
                self.set_type(TypeDef::Void);
                Ok(TypeDef::Void)
            },
            StatementType::IfElse(mut c, mut a, mut b) => {
                proof {
                    assert(decreases_to!(o.value => *a));
                    assert(decreases_to!(o.value => *b));
                }
                if let Err(err) = c.typecheck(data) {
                    self.value = StatementType::IfElse(c, a, b);
                    return Err(err);
                }
                if !node_type_of(&c).equals(&TypeDef::PrimType(PrimType::Int)) {
                    self.value = StatementType::IfElse(c, a, b);
                    return Err(type_err(TypeError::ConditionMustBeInt));
                }
                let ghost d0 = *data;
                data.push_env();
                let ra = a.typecheck(data);
                let then_ret = match ra {
                    Err(err) => {
                        self.value = StatementType::IfElse(c, a, b);
                        return Err(err);
                    },
                    Ok(t) => t,
                };
                data.pop_env();
                proof {
                    assert(data.env@ =~= d0.env@);
                }
                data.push_env();
                let rb = b.typecheck(data);
                let else_ret = match rb {
                    Err(err) => {
                        self.value = StatementType::IfElse(c, a, b);
                        return Err(err);
                    },
                    Ok(t) => t,
                };
                data.pop_env();
                proof {
                    assert(data.env@ =~= d0.env@);
                }
                let ghost ta = then_ret;
                let ghost tb = else_ret;
                self.value = StatementType::IfElse(c, a, b);
                self.set_type(TypeDef::Void);
                if then_ret.equals(&else_ret) {
                    Ok(then_ret)
                } else {
                    Ok(TypeDef::Void)
                }
            },
            StatementType::For(init, cond, update, mut body) => {
                proof {
                    assert(decreases_to!(o.value => *body));
                }
                let mut init = init;
                let mut cond = cond;
                let mut update = update;
                let ghost d0 = *data;
                if let Some(mut s) = init {
                    proof {
                        assert(decreases_to!(o.value => o.value->For_0));
                        assert(decreases_to!(o.value->For_0 => *s));
                    }
                    let rs = s.typecheck(data);
                    init = Some(s);
                    if let Err(err) = rs {
                        self.value = StatementType::For(init, cond, update, body);
                        return Err(err);
                    }
                } else {
                    init = None;
                }
                let ghost d1 = *data;
                if let Some(mut c) = cond {
                    let rc = c.typecheck(data);
                    let bad = match rc {
                        Ok(_) => !node_type_of(&c).equals(&TypeDef::PrimType(PrimType::Int)),
                        Err(_) => false,
                    };
                    cond = Some(c);
                    if let Err(err) = rc {
                        self.value = StatementType::For(init, cond, update, body);
                        return Err(err);
                    }
                    if bad {
                        self.value = StatementType::For(init, cond, update, body);
                        return Err(type_err(TypeError::ConditionMustBeInt));
                    }
                } else {
                    cond = None;
                }
                if let Some(mut u) = update {
                    proof {
                        assert(decreases_to!(o.value => o.value->For_2));
                        assert(decreases_to!(o.value->For_2 => *u));
                    }
                    let ru = u.typecheck(data);
                    update = Some(u);
                    if let Err(err) = ru {
                        self.value = StatementType::For(init, cond, update, body);
                        return Err(err);
                    }
                } else {
                    update = None;
                }
                let ghost d2 = *data;
                let rb = body.typecheck(data);
                self.value = StatementType::For(init, cond, update, body);
                if let Err(err) = rb {
                    return Err(err);
                }
                proof {
                    assert(data.env@.drop_last() == d0.env@.drop_last());
                }
                self.set_type(TypeDef::Void);
                Ok(TypeDef::Void)
            },
            StatementType::While(mut c, mut body) => {
                proof {
                    assert(decreases_to!(o.value => *body));
                }
                if let Err(err) = c.typecheck(data) {
                    self.value = StatementType::While(c, body);
                    return Err(err);
                }
                if !node_type_of(&c).equals(&TypeDef::PrimType(PrimType::Int)) {
                    self.value = StatementType::While(c, body);
                    return Err(type_err(TypeError::ConditionMustBeInt));
                }
                let ghost d0 = *data;
                data.push_env();
                let rb = body.typecheck(data);
                self.value = StatementType::While(c, body);
                if let Err(err) = rb {
                    return Err(err);
                }
                data.pop_env();
                proof {
                    assert(data.env@ =~= d0.env@);
                }
                self.set_type(TypeDef::Void);
                Ok(TypeDef::Void)
            },
            StatementType::Break => {
                self.value = StatementType::Break;
                self.set_type(TypeDef::Void);
                Ok(TypeDef::Void)
            },
            StatementType::Continue => {
                self.value = StatementType::Continue;
                self.set_type(TypeDef::Void);
                Ok(TypeDef::Void)
            },
            StatementType::Return(None) => {
                self.value = StatementType::Return(None);
                let ok = match data.ret_ref() {
                    None => true,
                    Some(TypeDef::Void) => true,
                    Some(_) => false,
                };
                if ok {
                    self.set_type(TypeDef::Void);
                    Ok(TypeDef::Void)
                } else {
                    Err(type_err(TypeError::ExpectingRet))
                }
            },
            StatementType::Return(Some(mut e)) => {
                if data.ret_ref().is_none() {
                    self.value = StatementType::Return(Some(e));
                    return Err(type_err(TypeError::UnexpectedRet));
                }
                let re = e.typecheck(data);
                if let Err(err) = re {
                    self.value = StatementType::Return(Some(e));
                    return Err(err);
                }
                let exp = data.ret_ref().as_ref().unwrap();
                if !node_type_of(&e).equals(exp) {
                    let err = TypeError::ReturnTypeError(e.get_type(), exp.duplicate());
                    self.value = StatementType::Return(Some(e));
                    return Err(type_err(err));
                }
                let t = e.get_type();
                self.value = StatementType::Return(Some(e));
                self.set_type(TypeDef::Void);
                Ok(t)
            },
        }
    }
}

impl AstNode<FnDefType> {
    /// Checks a function definition or declaration: its return type must resolve to a
    /// sized type; an earlier binding of its name must be a declaration with the same
    /// return type and parameters. The function is then bound in the current scope and
    /// its body checked in a scope of its own that holds its parameters.
    #[verifier::rlimit(50)]
    pub fn typecheck(&mut self, data: &mut TypeData) -> (r: Result<TypeDef, FrontendError>)
        requires
            old(data).wf(),
        ensures
            final(data).wf(),
            final(data).type_map == old(data).type_map,
            final(self).value.header.value.name == old(self).value.header.value.name,
            r matches Ok(t) ==> t == TypeDef::Void,
            r is Ok ==> {
                &&& scopes_kept(*old(data), *final(data))
                &&& final(self).data.node_type == Some(TypeDef::Void)
                &&& scope_lookup(final(data).env@, old(self).value.header.value.name@) matches Some(TypeDef::Function(ft))
                &&& !ft.body_def
                &&& ft.params@.len() == old(self).value.header.value.params@.len()
                &&& (final(self).value.body matches Some(b) ==> exists|t: TypeDef| returns_as(b, t)
                    && type_eq(t, final(self).value.header.value.ret_type))
            },
            translated(old(data).type_map@, old(self).value.header.value.ret_type) is None ==> r is Err,
            translated(old(data).type_map@, old(self).value.header.value.ret_type) matches Some(u)
                && !spec_sized(u) ==> r is Err,
            scope_lookup(old(data).env@, old(self).value.header.value.name@) matches Some(t)
                && !(t is Function) ==> r is Err,
            ({
                &&& old(self).value.body is None
                &&& scope_lookup(old(data).env@, old(self).value.header.value.name@) is None
                &&& translated(old(data).type_map@, old(self).value.header.value.ret_type) is Some
                &&& spec_sized(translated(old(data).type_map@, old(self).value.header.value.ret_type)->0)
                &&& forall|i: int| 0 <= i < old(self).value.header.value.params@.len() ==> (#[trigger] translated(
                    old(data).type_map@,
                    old(self).value.header.value.params@[i].1,
                )) is Some
            }) ==> r is Ok,
            ({
                &&& old(self).value.body matches Some(b) && b.value matches StatementType::Block(ss) && ss@.len() == 0
                &&& old(self).value.header.value.params@.len() == 0
                &&& scope_lookup(old(data).env@, old(self).value.header.value.name@) is None
                &&& translated(old(data).type_map@, old(self).value.header.value.ret_type) == Some(TypeDef::Void)
            }) ==> r is Ok,
    {
        let f_ret = match data.translate_type(self.value.header.value.ret_type.duplicate()) {
            Ok(t) => t,
            Err(e) => return Err(e),
        };
        if !f_ret.sized() {
            return Err(type_err(TypeError::TypeIsNotSized));
        }
        match data.ident_type_ref(&self.value.header.value.name) {
            Some(TypeDef::Function(ft)) => {
                let hp = &self.value.header.value.params;
                if ft.body_def || ft.params.len() != hp.len() || !ft.ret_type.equals(&f_ret) {
                    return Err(type_err(TypeError::IdentAlreadyExists(self.value.header.value.name.clone())));
                }
                let mut i: usize = 0;
                while i < ft.params.len()
                    invariant
                        0 <= i <= ft.params@.len(),
                        ft.params@.len() == hp@.len(),
                        *data == *old(data),
                        data.wf(),
                        *self == *old(self),
                        scope_lookup(old(data).env@, old(self).value.header.value.name@) is Some,
                    decreases ft.params@.len() - i,
                {
                    if !ft.params[i].equals(&hp[i].1) {
                        return Err(type_err(TypeError::TypeParametrMissmatch));
                    }
                    i += 1;
                }
            },
            Some(_) => {
                return Err(type_err(TypeError::IdentAlreadyExists(self.value.header.value.name.clone())));
            },
            None => {},
        }
        self.value.header.value.ret_type = f_ret;
        let mut translated_params: Vec<(String, TypeDef)> = Vec::new();
        let mut i: usize = 0;
        while i < self.value.header.value.params.len()
            invariant
                0 <= i <= self.value.header.value.params@.len(),
                translated_params@.len() == i,
                *data == *old(data),
                data.wf(),
                self.value.header.value.name == old(self).value.header.value.name,
                self.value.header.value.params@.len() == old(self).value.header.value.params@.len(),
                self.value.header.value.params@ == old(self).value.header.value.params@,
                self.value.body == old(self).value.body,
            decreases self.value.header.value.params@.len() - i,
        {
            let name = self.value.header.value.params[i].0.clone();
            let dup = self.value.header.value.params[i].1.duplicate();
            proof {
                lemma_translated_alike(data.type_map@, dup, self.value.header.value.params@[i as int].1);
            }
            let pt = match data.translate_type(dup) {
                Ok(t) => t,
                Err(e) => return Err(e),
            };
            translated_params.push((name, pt));
            i += 1;
        }
        self.value.header.value.params = translated_params;
        let mut param_types: Vec<TypeDef> = Vec::new();
        let mut j: usize = 0;
        while j < self.value.header.value.params.len()
            invariant
                0 <= j <= self.value.header.value.params@.len(),
                param_types@.len() == j,
            decreases self.value.header.value.params@.len() - j,
        {
            param_types.push(self.value.header.value.params[j].1.duplicate());
            j += 1;
        }
        let fn_type = FnType {
            params: param_types,
            ret_type: Box::new(self.value.header.value.ret_type.duplicate()),
            body_def: false,
        };
        let ghost d0 = *data;
        let _ = data.add_force(&self.value.header.value.name, TypeDef::Function(fn_type));
        let ghost d1 = *data;
        let mut body: Option<Statement> = None;
        std::mem::swap(&mut body, &mut self.value.body);
        match body {
            Some(mut b) => {
                data.push_fn(self.value.header.value.ret_type.duplicate());
                let ghost d2 = *data;
                let mut k: usize = 0;
                while k < self.value.header.value.params.len()
                    invariant
                        0 <= k <= self.value.header.value.params@.len(),
                        data.wf(),
                        data.type_map == d2.type_map,
                        d2.type_map == old(data).type_map,
                        d2.env@.len() == d1.env@.len() + 1,
                        d2.env@.drop_last() == d1.env@,
                        d1.wf(),
                        scopes_kept(d2, *data),
                        self.value.header.value.name == old(self).value.header.value.name,
                        old(self).value.body is Some,
                        b == old(self).value.body->0,
                        self.value.header.value.params@.len() == old(self).value.header.value.params@.len(),
                        self.value.header.value.ret_type == f_ret,
                    decreases self.value.header.value.params@.len() - k,
                {
                    let pt = self.value.header.value.params[k].1.duplicate();
                    if let Err(e) = data.add_var(&self.value.header.value.params[k].0, pt) {
                        self.value.body = Some(b);
                        return Err(e);
                    }
                    k += 1;
                }
                let rb = b.typecheck(data);
                let ret = match rb {
                    Ok(t) => t,
                    Err(e) => {
                        self.value.body = Some(b);
                        return Err(e);
                    },
                };
                self.value.body = Some(b);
                data.pop_env();
                proof {
                    assert(data.env@ =~= d1.env@);
                }
                if !ret.equals(&self.value.header.value.ret_type) {
                    return Err(type_err(TypeError::ExpectingRet));
                }
            },
            None => {},
        }
        self.set_type(TypeDef::Void);
        Ok(TypeDef::Void)
    }
}

/// Two structure definitions with the same name and the same presence of fields.
pub open spec fn same_struct(a: StructDefType, name: Seq<char>, has_fields: bool) -> bool {
    a.name@ == name && (a.fields is Some) == has_fields
}

impl AstNode<StructDefType> {
    /// Checks a structure: its name is first known as an undefined structure, so that
    /// its fields may point to it; each field is checked as a declaration in a scope of
    /// its own. On success the name stands for the whole structure.
    pub fn typecheck(&mut self, data: &mut TypeData) -> (r: Result<TypeDef, FrontendError>)
        requires
            old(data).wf(),
        ensures
            final(data).wf(),
            final(self).value.name == old(self).value.name,
            r matches Ok(t) ==> t == TypeDef::Void,
            r is Ok ==> {
                &&& final(data).env@ == old(data).env@
                &&& lookup(final(data).type_map@, old(self).value.name@) matches Some(TypeDef::Struct(sd))
                &&& same_struct(sd, old(self).value.name@, old(self).value.fields is Some)
                &&& forall|m: Seq<char>| m != old(self).value.name@ ==> lookup(final(data).type_map@, m)
                    == #[trigger] lookup(old(data).type_map@, m)
            },
            old(self).value.fields is None ==> r is Ok,
    {
        let placeholder = TypeDef::Struct(StructDefType { name: self.value.name.clone(), fields: None });
        data.add_type(&self.value.name, placeholder);
        let ghost d0 = *data;
        let mut fields: Option<Vec<VarDecl>> = None;
        std::mem::swap(&mut fields, &mut self.value.fields);
        match fields {
            Some(mut fs) => {
                data.push_env();
                let ghost d1 = *data;
                let mut i: usize = 0;
                while i < fs.len()
                    invariant
                        0 <= i <= fs@.len(),
                        data.wf(),
                        data.type_map == d1.type_map,
                        scopes_kept(d1, *data),
                        d1.env@.len() == d0.env@.len() + 1,
                        d1.env@.drop_last() == d0.env@,
                        d0.wf(),
                        self.value.name == old(self).value.name,
                        old(self).value.fields is Some,
                    decreases fs@.len() - i,
                {
                    let mut field = fs.remove(i);
                    let rf = field.typecheck(data);
                    fs.insert(i, field);
                    if let Err(e) = rf {
                        self.value.fields = Some(fs);
                        return Err(e);
                    }
                    i += 1;
                }
                data.pop_env();
                proof {
                    assert(data.env@ =~= d0.env@);
                }
                self.value.fields = Some(fs);
            },
            None => {},
        }
        let full = TypeDef::Struct(struct_duplicate(&self.value));
        data.add_type(&self.value.name, full);
        Ok(TypeDef::Void)
    }
}

impl TopLevel {
    /// Checks one item of a program.
    pub fn typecheck(&mut self, data: &mut TypeData) -> (r: Result<TypeDef, FrontendError>)
        requires
            old(data).wf(),
        ensures
            final(data).wf(),
            r matches Ok(t) ==> t == TypeDef::Void,
            r is Ok ==> match *final(self) {
                TopLevel::Function(f) => f.data.node_type == Some(TypeDef::Void),
                TopLevel::Var(v) => v.data.node_type == Some(TypeDef::Void),
                TopLevel::Structure(_) => true,
            },
            (*old(self) is Function) == (*final(self) is Function),
            (*old(self) is Var) == (*final(self) is Var),
            (*old(self) matches TopLevel::Structure(sd) && sd.value.fields is None) ==> r is Ok,
            (*old(self) matches TopLevel::Function(f) && {
                &&& f.value.body is None
                &&& scope_lookup(old(data).env@, f.value.header.value.name@) is None
                &&& translated(old(data).type_map@, f.value.header.value.ret_type) is Some
                &&& spec_sized(translated(old(data).type_map@, f.value.header.value.ret_type)->0)
                &&& forall|i: int| 0 <= i < f.value.header.value.params@.len() ==> (#[trigger] translated(
                    old(data).type_map@,
                    f.value.header.value.params@[i].1,
                )) is Some
            }) ==> r is Ok,
            (*old(self) matches TopLevel::Function(f) && {
                &&& f.value.body matches Some(b) && b.value matches StatementType::Block(ss) && ss@.len() == 0
                &&& f.value.header.value.params@.len() == 0
                &&& scope_lookup(old(data).env@, f.value.header.value.name@) is None
                &&& translated(old(data).type_map@, f.value.header.value.ret_type) == Some(TypeDef::Void)
            }) ==> r is Ok,
    {
        match self {
            TopLevel::Function(f) => f.typecheck(data),
            TopLevel::Var(v) => v.typecheck(data),
            TopLevel::Structure(s) => s.typecheck(data),
        }
    }
}

/// Checks a whole program, item by item in one outermost scope; stops at the first error.
pub fn type_program(program: &mut Program) -> (r: Result<(), FrontendError>)
    ensures
        final(program).items@.len() == old(program).items@.len(),
        (forall|i: int| 0 <= i < old(program).items@.len() ==> ((#[trigger] old(program).items@[i]) matches TopLevel::Structure(
            sd,
        ) && sd.value.fields is None)) ==> r is Ok,
        r is Ok ==> forall|i: int| 0 <= i < final(program).items@.len() ==> match #[trigger] final(program).items@[i] {
            TopLevel::Function(f) => f.data.node_type == Some(TypeDef::Void),
            TopLevel::Var(v) => v.data.node_type == Some(TypeDef::Void),
            TopLevel::Structure(_) => true,
        },
{
    let mut data = TypeData::default();
    let mut i: usize = 0;
    while i < program.items.len()
        invariant
            0 <= i <= program.items@.len(),
            program.items@.len() == old(program).items@.len(),
            data.wf(),
            forall|j: int| 0 <= j < i ==> match #[trigger] program.items@[j] {
                TopLevel::Function(f) => f.data.node_type == Some(TypeDef::Void),
                TopLevel::Var(v) => v.data.node_type == Some(TypeDef::Void),
                TopLevel::Structure(_) => true,
            },
            forall|j: int| i <= j < program.items@.len() ==> #[trigger] program.items@[j] == old(program).items@[j],
        decreases program.items@.len() - i,
    {
        let ghost before = program.items@;
        let mut item = program.items.remove(i);
        let r = item.typecheck(&mut data);
        program.items.insert(i, item);
        proof {
            assert forall|j: int| i + 1 <= j < program.items@.len() implies #[trigger] program.items@[j] == old(program).items@[j] by {
                assert(program.items@[j] == before[j]);
            }
            assert forall|j: int| 0 <= j < i implies program.items@[j] == before[j] by {}
        }
        if let Err(e) = r {
            return Err(e);
        }
        i += 1;
    }
    Ok(())
}
} // verus!
