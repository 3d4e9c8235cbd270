use vstd::prelude::*;

use crate::frontend::ast::{
    Expr, ExprType, FnDef, Operator, Program, Statement, StatementType, TopLevel, Val, VarDecl,
};
use crate::frontend::typeast::{PrimType, TypeDef};
use crate::middleend::builder::{FunctionBuilder, IrBuilder, IrBuilderError};
use crate::middleend::inst::{
    is_terminator, ImmC, ImmI, InstructionType, Reg, RegReg, RegRegs, SymRegs, Terminator,
    TerminatorBranch, TerminatorJump, TerminatorReg,
};
use crate::middleend::ir::{
    has_function, BasicBlock, Function, InstUUID, Instruction, IrProgram, RegType, Register,
};
use crate::middleend::ir_interpret::{st_get, st_set, step, InterpretError, State, Value};
use crate::middleend::optimalizations::death_store_load::{effect_ids, insts_total};

verus! {

/// Errors of the translation to the intermediate representation.
#[derive(Debug)]
pub enum IrCompErr {
    Builder(IrBuilderError),
    NonExistingVar(String),
    Unknown,
}

/// What an instruction is, with the registers of a call as a sequence.
pub enum Code {
    Plain(InstructionType),
    Call(Register, Seq<Register>),
    CallDirect(Seq<char>, Seq<Register>),
}

/// The instruction `d` as code.
pub open spec fn code_of(d: InstructionType) -> Code {
    match d {
        InstructionType::Call(RegRegs(t, args)) => Code::Call(t, args@),
        InstructionType::CallDirect(SymRegs(name, args)) => Code::CallDirect(name@, args@),
        _ => Code::Plain(d),
    }
}

/// Whether an entry of emitted code is effectful: it defines no register and is no store,
/// load or copy.
pub open spec fn code_effectful(e: (RegType, Code)) -> bool {
    e.0 == RegType::Void && !(e.1 matches Code::Plain(d) && (d is St || d is Ld || d is Mov))
}

/// How many effectful entries a block of emitted code has.
pub open spec fn code_effects(blk: Seq<(RegType, Code)>) -> nat
    decreases blk.len(),
{
    if blk.len() == 0 {
        0
    } else {
        code_effects(blk.drop_last()) + if code_effectful(blk.last()) { 1nat } else { 0nat }
    }
}

/// A block has as many effectful instructions as its code has effectful entries.
proof fn lemma_code_effects(insts: Seq<Instruction>)
    ensures
        effect_ids(insts).len() == code_effects(insts.map_values(|i: Instruction| (i.reg_type, code_of(i.data)))),
    decreases insts.len(),
{
    let f = |i: Instruction| (i.reg_type, code_of(i.data));
    if insts.len() > 0 {
        assert(insts.map_values(f).drop_last() =~= insts.drop_last().map_values(f));
        lemma_code_effects(insts.drop_last());
    }
}

/// A function under construction: its current block and, block by block, the type and
/// code of each instruction.
pub type Emitted = (int, Seq<Seq<(RegType, Code)>>);

/// What a function builder holds, as emitted code.
pub open spec fn built(fb: FunctionBuilder) -> Emitted {
    (
        fb.act_bb as int,
        fb.blocks@.map_values(
            |b: BasicBlock| b.instruction@.map_values(|i: Instruction| (i.reg_type, code_of(i.data))),
        ),
    )
}

/// The register the next instruction of the current block defines.
pub open spec fn next_reg(s: Emitted) -> Register {
    InstUUID(false, s.0 as usize, s.1[s.0].len() as usize)
}

/// `s` with one more instruction at the end of the current block.
pub open spec fn emit(s: Emitted, t: RegType, c: Code) -> Emitted {
    (s.0, s.1.update(s.0, s.1[s.0].push((t, c))))
}

/// `s` with one more, empty, block.
pub open spec fn new_block(s: Emitted) -> Emitted {
    (s.0, s.1.push(Seq::empty()))
}

/// `s` with `b` as the current block.
pub open spec fn switch_to(s: Emitted, b: int) -> Emitted {
    (b, s.1)
}

/// Whether the current block ends with a terminator.
pub open spec fn ends_block(s: Emitted) -> bool {
    &&& s.1[s.0].len() > 0
    &&& match s.1[s.0].last().1 {
        Code::Plain(d) => is_terminator(d),
        _ => false,
    }
}

/// The register holding the address of `name`: the latest binding of that name.
pub open spec fn addr_of(env: Seq<(String, Register)>, name: Seq<char>) -> Option<Register>
    decreases env.len(),
{
    if env.len() == 0 {
        None
    } else if env.last().0@ == name {
        Some(env.last().1)
    } else {
        addr_of(env.drop_last(), name)
    }
}

/// The register type of a value of type `t`.
pub open spec fn reg_type_of(t: TypeDef) -> RegType {
    match t {
        TypeDef::Void => RegType::Void,
        TypeDef::PrimType(PrimType::Char) => RegType::Char,
        _ => RegType::Int,
    }
}

/// The register type of a value of type `t`.
pub fn reg_type_from(t: &TypeDef) -> (r: RegType)
    ensures
        r == reg_type_of(*t),
{
    match t {
        TypeDef::Void => RegType::Void,
        TypeDef::PrimType(PrimType::Char) => RegType::Char,
        _ => RegType::Int,
    }
}

/// The instruction of a binary operator on two registers, if the operator has one.
pub open spec fn binop_inst(op: Operator, rr: RegReg) -> Option<InstructionType> {
    match op {
        Operator::Add => Some(InstructionType::Add(rr)),
        Operator::Sub => Some(InstructionType::Sub(rr)),
        Operator::Mul => Some(InstructionType::Mul(rr)),
        Operator::Div => Some(InstructionType::Div(rr)),
        Operator::Mod => Some(InstructionType::Mod(rr)),
        Operator::Lt => Some(InstructionType::Lt(rr)),
        Operator::Le => Some(InstructionType::Le(rr)),
        Operator::Gt => Some(InstructionType::Gt(rr)),
        Operator::Ge => Some(InstructionType::Ge(rr)),
        Operator::Eql => Some(InstructionType::Eql(rr)),
        Operator::BitOr => Some(InstructionType::Or(rr)),
        Operator::Or => Some(InstructionType::Or(rr)),
        Operator::BitAnd => Some(InstructionType::And(rr)),
        Operator::And => Some(InstructionType::And(rr)),
        Operator::ShiftLeft => Some(InstructionType::Shl(rr)),
        Operator::ShiftRight => Some(InstructionType::Shr(rr)),
        _ => None,
    }
}

/// What the instruction of a binary operator computes when run on two integers, the
/// left operand in `x` and the right one in `y`: the sum, difference and product for
/// `+`, `-` and `*`, the quotient of naturals for `/`, and one or zero as the comparison
/// `<`, `<=`, `>`, `>=` or `==` holds.
pub proof fn law_binop_meaning(s: State, id: Register, t: RegType, op: Operator, x: Register, y: Register, a: i64, b: i64)
    requires
        st_get(s, x) == Ok::<Value, InterpretError>(Value::Signed(a)),
        st_get(s, y) == Ok::<Value, InterpretError>(Value::Signed(b)),
    ensures
        ({
            let d = binop_inst(op, RegReg(x, y))->0;
            let run = step(s, Instruction { id, reg_type: t, data: d });
            &&& op == Operator::Add && i64::MIN <= a + b <= i64::MAX ==> run == st_set(s, id, Value::Signed((a + b) as i64))
            &&& op == Operator::Sub && i64::MIN <= a - b <= i64::MAX ==> run == st_set(s, id, Value::Signed((a - b) as i64))
            &&& op == Operator::Mul && i64::MIN <= a * b <= i64::MAX ==> run == st_set(s, id, Value::Signed((a * b) as i64))
            &&& op == Operator::Div && a >= 0 && b > 0 ==> run == st_set(s, id, Value::Signed((a / b) as i64))
            &&& op == Operator::Lt ==> run == st_set(s, id, Value::Signed(if a < b { 1 } else { 0 }))
            &&& op == Operator::Le ==> run == st_set(s, id, Value::Signed(if a <= b { 1 } else { 0 }))
            &&& op == Operator::Gt ==> run == st_set(s, id, Value::Signed(if a > b { 1 } else { 0 }))
            &&& op == Operator::Ge ==> run == st_set(s, id, Value::Signed(if a >= b { 1 } else { 0 }))
            &&& op == Operator::Eql ==> run == st_set(s, id, Value::Signed(if a == b { 1 } else { 0 }))
        }),
{
    if op == Operator::Mul && i64::MIN <= a * b <= i64::MAX {
        assert(a.checked_mul(b) == Some((a * b) as i64));
    }
    if op == Operator::Div && a >= 0 && b > 0 {
        assert(a.checked_div(b) == Some((a / b) as i64));
    }
}

/// The code of a binary operation: the code of its left operand, then that of its right
/// operand, then the instruction of its operator reading the register of the left operand
/// first and that of the right one second, which defines the register of the whole.
pub proof fn law_binop_code(env: Seq<(String, Register)>, e: Expr, op: Operator, l: Expr, r: Expr, s: Emitted)
    requires
        e.value == ExprType::BinOp(op, Box::new(l), Box::new(r)),
        cexpr(env, e, s) is Ok,
    ensures
        cexpr(env, l, s) is Ok,
        cexpr(env, r, cexpr(env, l, s)->Ok_0.0) is Ok,
        e.data.node_type is Some,
        ({
            let (s1, lr) = cexpr(env, l, s)->Ok_0;
            let (s2, rr) = cexpr(env, r, s1)->Ok_0;
            &&& binop_inst(op, RegReg(lr, rr)) is Some
            &&& cexpr(env, e, s) == Ok::<(Emitted, Register), IrCompErr>((
                emit(s2, reg_type_of(e.data.node_type->0), Code::Plain(binop_inst(op, RegReg(lr, rr))->0)),
                next_reg(s2),
            ))
        }),
{
}

/// Emits `c`, typed by the recorded type of `e`; fails when `e` has none.
pub open spec fn typed_emit(s: Emitted, e: Expr, c: Code) -> Result<(Emitted, Register), IrCompErr> {
    match e.data.node_type {
        Some(t) => Ok((emit(s, reg_type_of(t), c), next_reg(s))),
        None => Err(IrCompErr::Unknown),
    }
}

/// Translation of an expression: the code emitted and the register holding its value.
pub open spec fn cexpr(env: Seq<(String, Register)>, e: Expr, s: Emitted) -> Result<(Emitted, Register), IrCompErr>
    decreases e, 0int,
{
    match e.value {
        ExprType::Value(Val::Integer(k)) => Ok(
            (emit(s, RegType::Int, Code::Plain(InstructionType::Ldi(ImmI(k)))), next_reg(s)),
        ),
        ExprType::Value(Val::Char(c)) => Ok(
            (emit(s, RegType::Char, Code::Plain(InstructionType::Ldc(ImmC(c)))), next_reg(s)),
        ),
        ExprType::Ident(name) => match addr_of(env, name@) {
            None => Err(IrCompErr::NonExistingVar(name)),
            Some(a) => typed_emit(s, e, Code::Plain(InstructionType::Ld(Reg(a)))),
        },
        ExprType::BinOp(op, l, r) => match cexpr(env, *l, s) {
            Err(x) => Err(x),
            Ok((s1, lr)) => match cexpr(env, *r, s1) {
                Err(x) => Err(x),
                Ok((s2, rr)) => match binop_inst(op, RegReg(lr, rr)) {
                    None => Err(IrCompErr::Unknown),
                    Some(d) => typed_emit(s2, e, Code::Plain(d)),
                },
            },
        },
        ExprType::UnaryPreOp(_, x) => match cexpr(env, *x, s) {
            Err(y) => Err(y),
            Ok(_) => Err(IrCompErr::Unknown),
        },
        ExprType::Deref(p) => match cexpr(env, *p, s) {
            Err(x) => Err(x),
            Ok((s1, pr)) => typed_emit(s1, e, Code::Plain(InstructionType::Ld(Reg(pr)))),
        },
        ExprType::Address(x) => match x.value {
            ExprType::Ident(name) => match addr_of(env, name@) {
                None => Err(IrCompErr::NonExistingVar(name)),
                Some(a) => Ok((s, a)),
            },
            _ => Err(IrCompErr::Unknown),
        },
        ExprType::Call(target, args) => match cargs(env, args@, args@.len() as int, s) {
            Err(x) => Err(x),
            Ok((s1, regs)) => if target.value is Ident && addr_of(env, target.value->Ident_0@) is None {
                typed_emit(s1, e, Code::CallDirect(target.value->Ident_0@, regs))
            } else {
                match cexpr(env, *target, s1) {
                    Err(x) => Err(x),
                    Ok((s2, t)) => typed_emit(s2, e, Code::Call(t, regs)),
                }
            },
        },
        _ => Err(IrCompErr::Unknown),
    }
}

/// Translation of the first `n` arguments of a call, left to right.
pub open spec fn cargs(env: Seq<(String, Register)>, args: Seq<Expr>, n: int, s: Emitted) -> Result<
    (Emitted, Seq<Register>),
    IrCompErr,
>
    decreases args, n,
{
    if n <= 0 || n > args.len() {
        Ok((s, Seq::empty()))
    } else {
        match cargs(env, args, n - 1, s) {
            Err(x) => Err(x),
            Ok((s1, regs)) => match cexpr(env, args[n - 1], s1) {
                Err(x) => Err(x),
                Ok((s2, r)) => Ok((s2, regs.push(r))),
            },
        }
    }
}


/// Stores `v` at the address held by `a`.
pub open spec fn store(s: Emitted, a: Register, v: Register) -> Emitted {
    emit(s, RegType::Void, Code::Plain(InstructionType::St(RegReg(a, v))))
}

/// Ends the current block with a jump to `target`, unless it already ends.
pub open spec fn close_to(s: Emitted, target: int) -> Emitted {
    if ends_block(s) {
        s
    } else {
        emit(s, RegType::Void, Code::Plain(InstructionType::Jmp(TerminatorJump(target as usize))))
    }
}

/// Translation of the assignment of `e` to the variable `name`.
pub open spec fn cnamed(env: Seq<(String, Register)>, name: String, e: Expr, s: Emitted) -> Result<Emitted, IrCompErr> {
    match addr_of(env, name@) {
        None => Err(IrCompErr::NonExistingVar(name)),
        Some(a) => match cexpr(env, e, s) {
            Err(x) => Err(x),
            Ok((s1, v)) => Ok(store(s1, a, v)),
        },
    }
}

/// Translation of the assignment of `e` to the place `target`: a variable or a dereference.
pub open spec fn cassign(env: Seq<(String, Register)>, target: Expr, e: Expr, s: Emitted) -> Result<Emitted, IrCompErr> {
    let place = match target.value {
        ExprType::Ident(name) => match addr_of(env, name@) {
            None => Err(IrCompErr::NonExistingVar(name)),
            Some(a) => Ok((s, a)),
        },
        ExprType::Deref(x) => cexpr(env, *x, s),
        _ => Err(IrCompErr::Unknown),
    };
    match place {
        Err(x) => Err(x),
        Ok((s1, a)) => match cexpr(env, e, s1) {
            Err(x) => Err(x),
            Ok((s2, v)) => Ok(store(s2, a, v)),
        },
    }
}

/// Bytes a local variable of type `t` takes, for the types that locals can have.
pub open spec fn var_size(t: TypeDef) -> Option<i64> {
    match t {
        TypeDef::PrimType(PrimType::Int) => Some(8),
        TypeDef::PrimType(PrimType::Char) => Some(1),
        TypeDef::PointerType(_) => Some(8),
        _ => None,
    }
}

/// Translation of a local declaration: room on the stack, the binding, and the initial value.
pub open spec fn cvardecl(env: Seq<(String, Register)>, d: VarDecl, s: Emitted) -> Result<
    (Seq<(String, Register)>, Emitted),
    IrCompErr,
> {
    match var_size(d.value.var_type) {
        None => Err(IrCompErr::Unknown),
        Some(size) => {
            let reg = next_reg(s);
            let s1 = emit(s, RegType::Int, Code::Plain(InstructionType::Alloca(ImmI(size))));
            let env1 = env.push((d.value.name, reg));
            match d.value.init_val {
                None => Ok((env1, s1)),
                Some(iv) => match cnamed(env1, d.value.name, iv, s1) {
                    Err(x) => Err(x),
                    Ok(s2) => Ok((env1, s2)),
                },
            }
        },
    }
}

/// The branch on `g` to `a` or `b`.
pub open spec fn branch(g: Register, a: int, b: int) -> Code {
    Code::Plain(InstructionType::Branch(TerminatorBranch(g, a as usize, b as usize)))
}

/// The jump to `a`.
pub open spec fn jump(a: int) -> Code {
    Code::Plain(InstructionType::Jmp(TerminatorJump(a as usize)))
}

/// Translation of a statement: the bindings after it and the code emitted.
pub open spec fn cstmt(env: Seq<(String, Register)>, st: Statement, s: Emitted) -> Result<
    (Seq<(String, Register)>, Emitted),
    IrCompErr,
>
    decreases st, 0int,
{
    match st.value {
        StatementType::Expr(e) => match e.value {
            ExprType::BinOp(Operator::Assign, l, r) => match cassign(env, *l, *r, s) {
                Err(x) => Err(x),
                Ok(s1) => Ok((env, s1)),
            },
            _ => match cexpr(env, e, s) {
                Err(x) => Err(x),
                Ok((s1, _)) => Ok((env, s1)),
            },
        },
        StatementType::VarDecl(d) => cvardecl(env, d, s),
        StatementType::Block(ss) => cstmts(env, ss@, ss@.len() as int, s),
        StatementType::If(g, b) => match cexpr(env, g, s) {
            Err(x) => Err(x),
            Ok((s1, gr)) => {
                let then_bb = s1.1.len() as int;
                let after = then_bb + 1;
                let s2 = emit(new_block(new_block(s1)), RegType::Void, branch(gr, then_bb, after));
                match cstmt(env, *b, switch_to(s2, then_bb)) {
                    Err(x) => Err(x),
                    Ok((env1, s3)) => Ok((env1, switch_to(close_to(s3, after), after))),
                }
            },
        },
        StatementType::IfElse(g, tb, eb) => match cexpr(env, g, s) {
            Err(x) => Err(x),
            Ok((s1, gr)) => {
                let then_bb = s1.1.len() as int;
                let else_bb = then_bb + 1;
                let after = then_bb + 2;
                let s2 = emit(new_block(new_block(new_block(s1))), RegType::Void, branch(gr, then_bb, else_bb));
                match cstmt(env, *tb, switch_to(s2, then_bb)) {
                    Err(x) => Err(x),
                    Ok((env1, s3)) => match cstmt(env1, *eb, switch_to(close_to(s3, after), else_bb)) {
                        Err(x) => Err(x),
                        Ok((env2, s4)) => Ok((env2, switch_to(close_to(s4, after), after))),
                    },
                }
            },
        },
        StatementType::For(init, guard, step, body) => {
            let check = s.1.len() as int;
            let body_bb = check + 1;
            let after = check + 2;
            let s1 = new_block(new_block(new_block(s)));
            let start = match init {
                Some(i) => cstmt(env, *i, s1),
                None => Ok((env, s1)),
            };
            match start {
                Err(x) => Err(x),
                Ok((env1, s2)) => {
                    let s3 = switch_to(s2, check);
                    let cond = match guard {
                        Some(g) => cexpr(env1, g, s3),
                        None => Ok(
                            (emit(s3, RegType::Int, Code::Plain(InstructionType::Ldi(ImmI(1)))), next_reg(s3)),
                        ),
                    };
                    match cond {
                        Err(x) => Err(x),
                        Ok((s4, gr)) => {
                            let s5 = switch_to(emit(s4, RegType::Void, branch(gr, body_bb, after)), body_bb);
                            match cstmt(env1, *body, s5) {
                                Err(x) => Err(x),
                                Ok((env2, s6)) => {
                                    let stepped = match step {
                                        Some(a) => cstmt(env2, *a, s6),
                                        None => Ok((env2, s6)),
                                    };
                                    match stepped {
                                        Err(x) => Err(x),
                                        Ok((env3, s7)) => Ok(
                                            (env3, switch_to(emit(s7, RegType::Void, jump(check)), after)),
                                        ),
                                    }
                                },
                            }
                        },
                    }
                },
            }
        },
        StatementType::While(g, body) => {
            let check = s.1.len() as int;
            let s1 = switch_to(emit(new_block(s), RegType::Void, jump(check)), check);
            match cexpr(env, g, s1) {
                Err(x) => Err(x),
                Ok((s2, gr)) => {
                    let body_bb = s2.1.len() as int;
                    let after = body_bb + 1;
                    let s3 = emit(new_block(new_block(s2)), RegType::Void, branch(gr, body_bb, after));
                    match cstmt(env, *body, switch_to(s3, body_bb)) {
                        Err(x) => Err(x),
                        Ok((env1, s4)) => Ok((env1, switch_to(emit(s4, RegType::Void, jump(check)), after))),
                    }
                },
            }
        },
        StatementType::Return(Some(e)) => match cexpr(env, *e, s) {
            Err(x) => Err(x),
            Ok((s1, r)) => Ok(
                (env, emit(s1, RegType::Void, Code::Plain(InstructionType::Retr(TerminatorReg(r))))),
            ),
        },
        StatementType::Return(None) => Ok(
            (env, emit(s, RegType::Void, Code::Plain(InstructionType::Ret(Terminator)))),
        ),
        _ => Err(IrCompErr::Unknown),
    }
}

/// Translation of the first `n` statements of a block, in order.
pub open spec fn cstmts(env: Seq<(String, Register)>, ss: Seq<Statement>, n: int, s: Emitted) -> Result<
    (Seq<(String, Register)>, Emitted),
    IrCompErr,
>
    decreases ss, n,
{
    if n <= 0 || n > ss.len() {
        Ok((env, s))
    } else {
        match cstmts(env, ss, n - 1, s) {
            Err(x) => Err(x),
            Ok((env1, s1)) => cstmt(env1, ss[n - 1], s1),
        }
    }
}


/// Number of instructions emitted.
pub open spec fn code_size(code: Seq<Seq<(RegType, Code)>>) -> int
    decreases code.len(),
{
    if code.len() == 0 {
        0
    } else {
        code_size(code.drop_last()) + code.last().len()
    }
}

/// A function with one empty block, the current one.
pub open spec fn fresh_function() -> Emitted {
    (0, seq![Seq::empty()])
}

/// Translation of the first `n` parameters: each is read into a register and stored in
/// a stack slot, and its name is bound to the slot.
pub open spec fn cparams(env: Seq<(String, Register)>, params: Seq<(String, TypeDef)>, n: int, s: Emitted) -> (
    Seq<(String, Register)>,
    Emitted,
)
    decreases n,
{
    if n <= 0 {
        (env, s)
    } else {
        let (env1, s1) = cparams(env, params, n - 1, s);
        let reg = next_reg(s1);
        let s2 = emit(s1, reg_type_of(params[n - 1].1), Code::Plain(InstructionType::Arg(ImmI((n - 1) as i64))));
        let addr = next_reg(s2);
        let s3 = emit(s2, RegType::Int, Code::Plain(InstructionType::Alloca(ImmI(8))));
        (env1.push((params[n - 1].0, addr)), store(s3, addr, reg))
    }
}

/// Ends the current block with a return, unless it already ends.
pub open spec fn close_with_ret(s: Emitted) -> Emitted {
    if ends_block(s) {
        s
    } else {
        emit(s, RegType::Void, Code::Plain(InstructionType::Ret(Terminator)))
    }
}

/// Translation of a function with a body: its parameters, then its body, closed by a
/// return; the bindings after it and the code emitted.
pub open spec fn cfunc(env: Seq<(String, Register)>, f: FnDef) -> Result<(Seq<(String, Register)>, Emitted), IrCompErr> {
    let params = f.value.header.value.params@;
    let (env1, s1) = cparams(env, params, params.len() as int, fresh_function());
    match cstmt(env1, f.value.body->0, s1) {
        Err(x) => Err(x),
        Ok((env2, s2)) => Ok((env2, close_with_ret(s2))),
    }
}

/// Translation of the first `n` items of a program: the bindings after them and the names
/// of the functions added, in order.
pub open spec fn cprog(env: Seq<(String, Register)>, names: Seq<Seq<char>>, items: Seq<TopLevel>, n: int) -> Result<
    (Seq<(String, Register)>, Seq<Seq<char>>),
    IrCompErr,
>
    decreases n,
{
    if n <= 0 || n > items.len() {
        Ok((env, names))
    } else {
        match cprog(env, names, items, n - 1) {
            Err(x) => Err(x),
            Ok((env1, names1)) => match items[n - 1] {
                TopLevel::Function(f) => cfn_item(env1, names1, f),
                _ => Err(IrCompErr::Unknown),
            },
        }
    }
}

/// The code of the functions that the first `n` items of a program define, in order, as
/// far as their translation succeeds.
pub open spec fn cprog_codes(env: Seq<(String, Register)>, names: Seq<Seq<char>>, items: Seq<TopLevel>, n: int) -> Seq<
    Seq<Seq<(RegType, Code)>>,
>
    decreases n,
{
    if n <= 0 || n > items.len() {
        Seq::empty()
    } else {
        let prev = cprog_codes(env, names, items, n - 1);
        match cprog(env, names, items, n - 1) {
            Ok((env1, _)) => match items[n - 1] {
                TopLevel::Function(f) => if f.value.body is Some {
                    prev.push(cfunc(env1, f)->Ok_0.1.1)
                } else {
                    prev
                },
                _ => prev,
            },
            Err(_) => prev,
        }
    }
}

/// Whether the function `f` has the blocks of `code`, each with as many effectful
/// instructions as its code has effectful entries.
pub open spec fn fn_compiled_as(f: Function, code: Seq<Seq<(RegType, Code)>>) -> bool {
    &&& f.blocks@.len() == code.len()
    &&& forall|k: int| 0 <= k < code.len() ==> effect_ids(#[trigger] f.blocks@[k].instruction@).len() == code_effects(code[k])
}

/// Translation of a function item after functions named `names`: a declaration adds
/// nothing; a definition adds its name, unless a function of that name was added.
pub open spec fn cfn_item(env: Seq<(String, Register)>, names: Seq<Seq<char>>, f: FnDef) -> Result<
    (Seq<(String, Register)>, Seq<Seq<char>>),
    IrCompErr,
> {
    if f.value.body is None {
        Ok((env, names))
    } else {
        match cfunc(env, f) {
            Err(x) => Err(x),
            Ok((env2, _)) => if names.contains(f.value.header.value.name@) {
                Err(IrCompErr::Builder(IrBuilderError::FuncRedef))
            } else {
                Ok((env2, names.push(f.value.header.value.name@)))
            },
        }
    }
}

/// The names of functions, in order.
pub open spec fn names_of(funcs: Seq<Function>) -> Seq<Seq<char>> {
    funcs.map_values(|f: Function| f.name@)
}

proof fn lemma_addr_of_found(env: Seq<(String, Register)>, name: Seq<char>, i: int)
    requires
        0 <= i < env.len(),
        env[i].0@ == name,
        forall|k: int| i < k < env.len() ==> (#[trigger] env[k]).0@ != name,
    ensures
        addr_of(env, name) == Some(env[i].1),
    decreases env.len(),
{
    if i < env.len() - 1 {
        assert(env.last() == env[env.len() - 1]);
        lemma_addr_of_found(env.drop_last(), name, i);
    }
}

proof fn lemma_addr_of_missing(env: Seq<(String, Register)>, name: Seq<char>)
    requires
        forall|k: int| 0 <= k < env.len() ==> (#[trigger] env[k]).0@ != name,
    ensures
        addr_of(env, name) is None,
    decreases env.len(),
{
    if env.len() > 0 {
        assert(env.last() == env[env.len() - 1]);
        lemma_addr_of_missing(env.drop_last(), name);
    }
}

proof fn lemma_built_add(before: FunctionBuilder, after: FunctionBuilder, r: Register, t: RegType, d: InstructionType)
    requires
        before.act_bb < before.blocks@.len(),
        after.blocks@.len() == before.blocks@.len(),
        after.blocks@[before.act_bb as int].instruction@ == before.blocks@[before.act_bb as int].instruction@.push(
            (Instruction { id: r, reg_type: t, data: d }),
        ),
        forall|k: int| 0 <= k < before.blocks@.len() && k != before.act_bb ==> #[trigger] after.blocks@[k]
            == before.blocks@[k],
        after.act_bb == before.act_bb,
    ensures
        built(after) == emit(built(before), t, code_of(d)),
{
    let f = |i: Instruction| (i.reg_type, code_of(i.data));
    let a = before.act_bb as int;
    assert(after.blocks@[a].instruction@.map_values(f) =~= before.blocks@[a].instruction@.map_values(f).push(
        (t, code_of(d)),
    ));
    assert(built(after).1 =~= emit(built(before), t, code_of(d)).1);
}

proof fn lemma_built_new_block(before: FunctionBuilder, after: FunctionBuilder)
    requires
        after.blocks@.len() == before.blocks@.len() + 1,
        after.blocks@.drop_last() == before.blocks@,
        after.blocks@.last().instruction@.len() == 0,
        after.act_bb == before.act_bb,
    ensures
        built(after) == new_block(built(before)),
{
    let f = |i: Instruction| (i.reg_type, code_of(i.data));
    assert forall|k: int| 0 <= k < before.blocks@.len() implies after.blocks@[k] == before.blocks@[k] by {
        assert(after.blocks@.drop_last()[k] == after.blocks@[k]);
    }
    assert(after.blocks@.last().instruction@.map_values(f) =~= Seq::<(RegType, Code)>::empty());
    assert(built(after).1 =~= new_block(built(before)).1);
}

proof fn lemma_cargs_err(env: Seq<(String, Register)>, args: Seq<Expr>, k: int, n: int, s: Emitted)
    requires
        0 <= k <= n <= args.len(),
        cargs(env, args, k, s) is Err,
    ensures
        cargs(env, args, n, s) == cargs(env, args, k, s),
    decreases n - k,
{
    if k < n {
        lemma_cargs_err(env, args, k, n - 1, s);
    }
}


proof fn lemma_cstmts_err(env: Seq<(String, Register)>, ss: Seq<Statement>, k: int, n: int, s: Emitted)
    requires
        0 <= k <= n <= ss.len(),
        cstmts(env, ss, k, s) is Err,
    ensures
        cstmts(env, ss, n, s) == cstmts(env, ss, k, s),
    decreases n - k,
{
    if k < n {
        lemma_cstmts_err(env, ss, k, n - 1, s);
    }
}

proof fn lemma_built_ends(fb: FunctionBuilder)
    requires
        fb.act_bb < fb.blocks@.len(),
    ensures
        ends_block(built(fb)) == (fb.blocks@[fb.act_bb as int].instruction@.len() > 0 && is_terminator(
            fb.blocks@[fb.act_bb as int].instruction@.last().data,
        )),
{
    let insts = fb.blocks@[fb.act_bb as int].instruction@;
    if insts.len() > 0 {
        assert(built(fb).1[fb.act_bb as int].last() == (insts.last().reg_type, code_of(insts.last().data)));
    }
}


proof fn lemma_cprog_err(
    env: Seq<(String, Register)>,
    names: Seq<Seq<char>>,
    items: Seq<TopLevel>,
    k: int,
    n: int,
)
    requires
        0 <= k <= n <= items.len(),
        cprog(env, names, items, k) is Err,
    ensures
        cprog(env, names, items, n) == cprog(env, names, items, k),
    decreases n - k,
{
    if k < n {
        lemma_cprog_err(env, names, items, k, n - 1);
    }
}

proof fn lemma_code_size(blocks: Seq<BasicBlock>)
    ensures
        insts_total(blocks) == code_size(
            blocks.map_values(
                |b: BasicBlock| b.instruction@.map_values(|i: Instruction| (i.reg_type, code_of(i.data))),
            ),
        ),
    decreases blocks.len(),
{
    let f = |b: BasicBlock| b.instruction@.map_values(|i: Instruction| (i.reg_type, code_of(i.data)));
    if blocks.len() > 0 {
        assert(blocks.map_values(f).drop_last() =~= blocks.drop_last().map_values(f));
        lemma_code_size(blocks.drop_last());
    }
}

proof fn lemma_names_push(funcs: Seq<Function>, f: Function)
    ensures
        names_of(funcs.push(f)) == names_of(funcs).push(f.name@),
        has_function(funcs, f.name@) == names_of(funcs).contains(f.name@),
{
    assert(names_of(funcs.push(f)) =~= names_of(funcs).push(f.name@));
    if has_function(funcs, f.name@) {
        let i = choose|i: int| 0 <= i < funcs.len() && (#[trigger] funcs[i]).name@ == f.name@;
        assert(names_of(funcs)[i] == f.name@);
    }
    if names_of(funcs).contains(f.name@) {
        let i = choose|i: int| 0 <= i < names_of(funcs).len() && names_of(funcs)[i] == f.name@;
        assert(funcs[i].name@ == f.name@);
    }
}

/// Translates a program's functions, one at a time, into the intermediate representation.
pub struct IrCompiler {
    pub env: Vec<(String, Register)>,
    pub ir_builder: IrBuilder,
}

impl IrCompiler {
    /// The register holding the address of `name`.
    fn get_addreg(&self, name: String) -> (r: Result<Register, IrCompErr>)
        ensures
            r == (match addr_of(self.env@, name@) {
                Some(a) => Ok(a),
                None => Err(IrCompErr::NonExistingVar(name)),
            }),
    {
        let mut i = self.env.len();
        while i > 0
            invariant
                i <= self.env@.len(),
                forall|k: int| i <= k < self.env@.len() ==> (#[trigger] self.env@[k]).0@ != name@,
            decreases i,
        {
            i -= 1;
            if self.env[i].0 == name {
                proof {
                    lemma_addr_of_found(self.env@, name@, i as int);
                }
                return Ok(self.env[i].1);
            }
        }
        proof {
            lemma_addr_of_missing(self.env@, name@);
        }
        Err(IrCompErr::NonExistingVar(name))
    }

    /// Emits `d` with the recorded type of `e`.
    fn add_typed(e: &Expr, d: InstructionType, f_b: &mut FunctionBuilder) -> (r: Result<Register, IrCompErr>)
        requires
            old(f_b).act_bb < old(f_b).blocks@.len(),
        ensures
            final(f_b).act_bb < final(f_b).blocks@.len(),
            final(f_b).blocks@.len() == old(f_b).blocks@.len(),
            final(f_b).arg_count == old(f_b).arg_count,
            final(f_b).ret_type == old(f_b).ret_type,
            match typed_emit(built(*old(f_b)), *e, code_of(d)) {
                Ok((s, reg)) => r == Ok::<Register, IrCompErr>(reg) && built(*final(f_b)) == s,
                Err(x) => r == Err::<Register, IrCompErr>(x),
            },
    {
        match &e.data.node_type {
            Some(t) => {
                let rt = reg_type_from(t);
                let ghost before = *f_b;
                let reg = f_b.add(d, rt);
                proof {
                    lemma_built_add(before, *f_b, reg, rt, d);
                }
                Ok(reg)
            },
            None => Err(IrCompErr::Unknown),
        }
    }

    /// Emits the load of a literal.
    fn compile_val(&mut self, val: &Val, f_b: &mut FunctionBuilder) -> (r: Result<Register, IrCompErr>)
        requires
            old(f_b).act_bb < old(f_b).blocks@.len(),
        ensures
            final(f_b).act_bb < final(f_b).blocks@.len(),
            final(f_b).blocks@.len() == old(f_b).blocks@.len(),
            final(f_b).arg_count == old(f_b).arg_count,
            final(f_b).ret_type == old(f_b).ret_type,
            *final(self) == *old(self),
            r == Ok::<Register, IrCompErr>(next_reg(built(*old(f_b)))),
            built(*final(f_b)) == (match *val {
                Val::Integer(k) => emit(built(*old(f_b)), RegType::Int, Code::Plain(InstructionType::Ldi(ImmI(k)))),
                Val::Char(c) => emit(built(*old(f_b)), RegType::Char, Code::Plain(InstructionType::Ldc(ImmC(c)))),
            }),
    {
        let ghost before = *f_b;
        match val {
            Val::Integer(num) => {
                let reg = f_b.add(InstructionType::Ldi(ImmI(*num)), RegType::Int);
                proof {
                    lemma_built_add(before, *f_b, reg, RegType::Int, InstructionType::Ldi(ImmI(*num)));
                }
                Ok(reg)
            },
            Val::Char(c) => {
                let reg = f_b.add(InstructionType::Ldc(ImmC(*c)), RegType::Char);
                proof {
                    lemma_built_add(before, *f_b, reg, RegType::Char, InstructionType::Ldc(ImmC(*c)));
                }
                Ok(reg)
            },
        }
    }

    /// Emits the code of an expression and gives back the register holding its value.
    fn compile_expr(&mut self, expr: &Expr, f_b: &mut FunctionBuilder) -> (r: Result<Register, IrCompErr>)
        requires
            old(f_b).act_bb < old(f_b).blocks@.len(),
        ensures
            *final(self) == *old(self),
            final(f_b).act_bb < final(f_b).blocks@.len(),
            final(f_b).blocks@.len() == old(f_b).blocks@.len(),
            final(f_b).arg_count == old(f_b).arg_count,
            final(f_b).ret_type == old(f_b).ret_type,
            match cexpr(old(self).env@, *expr, built(*old(f_b))) {
                Ok((s, reg)) => r == Ok::<Register, IrCompErr>(reg) && built(*final(f_b)) == s,
                Err(x) => r == Err::<Register, IrCompErr>(x),
            },
        decreases *expr,
    {
        let ghost s0 = built(*f_b);
        let ghost env = self.env@;
        match &expr.value {
            ExprType::BinOp(op, l, r) => {
                let l_reg = match self.compile_expr(l, f_b) {
                    Ok(x) => x,
                    Err(x) => return Err(x),
                };
                let r_reg = match self.compile_expr(r, f_b) {
                    Ok(x) => x,
                    Err(x) => return Err(x),
                };
                let rr = RegReg(l_reg, r_reg);
                let d = match op {
                    Operator::Add => InstructionType::Add(rr),
                    Operator::Sub => InstructionType::Sub(rr),
                    Operator::Mul => InstructionType::Mul(rr),
                    Operator::Div => InstructionType::Div(rr),
                    Operator::Mod => InstructionType::Mod(rr),
                    Operator::Lt => InstructionType::Lt(rr),
                    Operator::Le => InstructionType::Le(rr),
                    Operator::Gt => InstructionType::Gt(rr),
                    Operator::Ge => InstructionType::Ge(rr),
                    Operator::Eql => InstructionType::Eql(rr),
                    Operator::BitOr => InstructionType::Or(rr),
                    Operator::Or => InstructionType::Or(rr),
                    Operator::BitAnd => InstructionType::And(rr),
                    Operator::And => InstructionType::And(rr),
                    Operator::ShiftLeft => InstructionType::Shl(rr),
                    Operator::ShiftRight => InstructionType::Shr(rr),
                    _ => return Err(IrCompErr::Unknown),
                };
                Self::add_typed(expr, d, f_b)
            },
            ExprType::UnaryPreOp(_, x) => {
                match self.compile_expr(x, f_b) {
                    Ok(_) => Err(IrCompErr::Unknown),
                    Err(y) => Err(y),
                }
            },
            ExprType::Value(v) => self.compile_val(v, f_b),
            ExprType::Ident(name) => {
                let reg = match self.get_addreg(name.clone()) {
                    Ok(x) => x,
                    Err(x) => return Err(x),
                };
                Self::add_typed(expr, InstructionType::Ld(Reg(reg)), f_b)
            },
            ExprType::Call(target, args) => {
                proof {
                    assert forall|j: int| 0 <= j < args@.len() implies decreases_to!(*expr => #[trigger] args@[j]) by {
                        assert(decreases_to!(*expr => expr.value));
                        assert(decreases_to!(expr.value => *args));
                        assert(decreases_to!(*args => args@));
                    }
                }
                let mut args_regs: Vec<Register> = Vec::new();
                let mut i: usize = 0;
                while i < args.len()
                    invariant
                        0 <= i <= args@.len(),
                        forall|j: int| 0 <= j < args@.len() ==> decreases_to!(*expr => #[trigger] args@[j]),
                        expr.value == ExprType::Call(*target, *args),
                        s0 == built(*old(f_b)),
                        *self == *old(self),
                        env == self.env@,
                        f_b.act_bb < f_b.blocks@.len(),
                        f_b.blocks@.len() == old(f_b).blocks@.len(),
                        f_b.arg_count == old(f_b).arg_count,
                        f_b.ret_type == old(f_b).ret_type,
                        cargs(env, args@, i as int, s0) == Ok::<(Emitted, Seq<Register>), IrCompErr>(
                            (built(*f_b), args_regs@),
                        ),
                    decreases args@.len() - i,
                {
                    match self.compile_expr(&args[i], f_b) {
                        Ok(x) => {
                            args_regs.push(x);
                        },
                        Err(x) => {
                            proof {
                                lemma_cargs_err(env, args@, i + 1, args@.len() as int, s0);
                            }
                            return Err(x);
                        },
                    }
                    i += 1;
                }
                let direct = match &target.value {
                    ExprType::Ident(name) => {
                        match self.get_addreg(name.clone()) {
                            Ok(_) => None,
                            Err(_) => Some(name.clone()),
                        }
                    },
                    _ => None,
                };
                match direct {
                    Some(name) => {
                        let d = InstructionType::CallDirect(SymRegs(name, args_regs));
                        Self::add_typed(expr, d, f_b)
                    },
                    None => {
                        let t = match self.compile_expr(target, f_b) {
                            Ok(x) => x,
                            Err(x) => return Err(x),
                        };
                        let d = InstructionType::Call(RegRegs(t, args_regs));
                        Self::add_typed(expr, d, f_b)
                    },
                }
            },
            ExprType::Deref(pointer) => {
                let reg = match self.compile_expr(pointer, f_b) {
                    Ok(x) => x,
                    Err(x) => return Err(x),
                };
                Self::add_typed(expr, InstructionType::Ld(Reg(reg)), f_b)
            },
            ExprType::Address(e) => match &e.value {
                ExprType::Ident(name) => self.get_addreg(name.clone()),
                _ => Err(IrCompErr::Unknown),
            },
            _ => Err(IrCompErr::Unknown),
        }
    }
    /// Stores the value of `expr` in the variable `name`.
    fn compile_named_assign(&mut self, name: String, expr: &Expr, f_b: &mut FunctionBuilder) -> (r: Result<(), IrCompErr>)
        requires
            old(f_b).act_bb < old(f_b).blocks@.len(),
        ensures
            *final(self) == *old(self),
            final(f_b).act_bb < final(f_b).blocks@.len(),
            final(f_b).blocks@.len() == old(f_b).blocks@.len(),
            final(f_b).arg_count == old(f_b).arg_count,
            final(f_b).ret_type == old(f_b).ret_type,
            match cnamed(old(self).env@, name, *expr, built(*old(f_b))) {
                Ok(s) => r is Ok && built(*final(f_b)) == s,
                Err(x) => r == Err::<(), IrCompErr>(x),
            },
    {
        let reg_store = match self.get_addreg(name) {
            Ok(x) => x,
            Err(x) => return Err(x),
        };
        let reg_val = match self.compile_expr(expr, f_b) {
            Ok(x) => x,
            Err(x) => return Err(x),
        };
        let ghost before = *f_b;
        let id = f_b.add(InstructionType::St(RegReg(reg_store, reg_val)), RegType::Void);
        proof {
            lemma_built_add(before, *f_b, id, RegType::Void, InstructionType::St(RegReg(reg_store, reg_val)));
        }
        Ok(())
    }

    /// Stores the value of `expr` at the place `store`: a variable or a dereference.
    fn compile_assign(&mut self, store: &Expr, expr: &Expr, f_b: &mut FunctionBuilder) -> (r: Result<(), IrCompErr>)
        requires
            old(f_b).act_bb < old(f_b).blocks@.len(),
        ensures
            *final(self) == *old(self),
            final(f_b).act_bb < final(f_b).blocks@.len(),
            final(f_b).blocks@.len() == old(f_b).blocks@.len(),
            final(f_b).arg_count == old(f_b).arg_count,
            final(f_b).ret_type == old(f_b).ret_type,
            match cassign(old(self).env@, *store, *expr, built(*old(f_b))) {
                Ok(s) => r is Ok && built(*final(f_b)) == s,
                Err(x) => r == Err::<(), IrCompErr>(x),
            },
    {
        let place = match &store.value {
            ExprType::Ident(name) => self.get_addreg(name.clone()),
            ExprType::Deref(e) => self.compile_expr(e, f_b),
            _ => Err(IrCompErr::Unknown),
        };
        let reg_store = match place {
            Ok(x) => x,
            Err(x) => return Err(x),
        };
        let reg_val = match self.compile_expr(expr, f_b) {
            Ok(x) => x,
            Err(x) => return Err(x),
        };
        let ghost before = *f_b;
        let id = f_b.add(InstructionType::St(RegReg(reg_store, reg_val)), RegType::Void);
        proof {
            lemma_built_add(before, *f_b, id, RegType::Void, InstructionType::St(RegReg(reg_store, reg_val)));
        }
        Ok(())
    }

    /// Makes room for a local variable, binds its name and stores its initial value.
    fn compile_vardecl(&mut self, decl: &VarDecl, f_b: &mut FunctionBuilder) -> (r: Result<(), IrCompErr>)
        requires
            old(f_b).act_bb < old(f_b).blocks@.len(),
        ensures
            final(self).ir_builder == old(self).ir_builder,
            final(f_b).act_bb < final(f_b).blocks@.len(),
            final(f_b).blocks@.len() == old(f_b).blocks@.len(),
            final(f_b).arg_count == old(f_b).arg_count,
            final(f_b).ret_type == old(f_b).ret_type,
            match cvardecl(old(self).env@, *decl, built(*old(f_b))) {
                Ok((env, s)) => r is Ok && final(self).env@ == env && built(*final(f_b)) == s,
                Err(x) => r == Err::<(), IrCompErr>(x),
            },
    {
        let size: i64 = match &decl.value.var_type {
            TypeDef::PrimType(PrimType::Int) => 8,
            TypeDef::PrimType(PrimType::Char) => 1,
            TypeDef::PointerType(_) => 8,
            _ => return Err(IrCompErr::Unknown),
        };
        let ghost before = *f_b;
        let reg = f_b.add(InstructionType::Alloca(ImmI(size)), RegType::Int);
        proof {
            lemma_built_add(before, *f_b, reg, RegType::Int, InstructionType::Alloca(ImmI(size)));
        }
        self.env.push((decl.value.name.clone(), reg));
        match &decl.value.init_val {
            Some(init_val) => self.compile_named_assign(decl.value.name.clone(), init_val, f_b),
            None => Ok(()),
        }
    }

    /// Ends the current block with a jump to `target`, unless it already ends.
    fn close_block(f_b: &mut FunctionBuilder, target: usize)
        requires
            old(f_b).act_bb < old(f_b).blocks@.len(),
        ensures
            final(f_b).act_bb == old(f_b).act_bb,
            final(f_b).blocks@.len() == old(f_b).blocks@.len(),
            final(f_b).arg_count == old(f_b).arg_count,
            final(f_b).ret_type == old(f_b).ret_type,
            built(*final(f_b)) == close_to(built(*old(f_b)), target as int),
    {
        proof {
            lemma_built_ends(*f_b);
        }
        if !f_b.terminated() {
            let ghost before = *f_b;
            let id = f_b.add(InstructionType::Jmp(TerminatorJump(target)), RegType::Void);
            proof {
                lemma_built_add(before, *f_b, id, RegType::Void, InstructionType::Jmp(TerminatorJump(target)));
            }
        }
    }

    /// Adds an empty block and gives back its index.
    fn fresh_block(f_b: &mut FunctionBuilder) -> (r: usize)
        ensures
            r == old(f_b).blocks@.len(),
            final(f_b).act_bb == old(f_b).act_bb,
            final(f_b).blocks@.len() == old(f_b).blocks@.len() + 1,
            final(f_b).arg_count == old(f_b).arg_count,
            final(f_b).ret_type == old(f_b).ret_type,
            built(*final(f_b)) == new_block(built(*old(f_b))),
    {
        let ghost before = *f_b;
        let r = f_b.create_bb();
        proof {
            lemma_built_new_block(before, *f_b);
        }
        r
    }

    /// Adds an instruction to the current block and gives back its register.
    fn put(f_b: &mut FunctionBuilder, d: InstructionType, t: RegType) -> (r: Register)
        requires
            old(f_b).act_bb < old(f_b).blocks@.len(),
        ensures
            r == next_reg(built(*old(f_b))),
            final(f_b).act_bb == old(f_b).act_bb,
            final(f_b).blocks@.len() == old(f_b).blocks@.len(),
            final(f_b).arg_count == old(f_b).arg_count,
            final(f_b).ret_type == old(f_b).ret_type,
            built(*final(f_b)) == emit(built(*old(f_b)), t, code_of(d)),
    {
        let ghost before = *f_b;
        let r = f_b.add(d, t);
        proof {
            lemma_built_add(before, *f_b, r, t, d);
        }
        r
    }

    /// Emits the statements of a block in order.
    #[verifier::rlimit(40)]
    fn compile_block(&mut self, stmt: &Statement, f_b: &mut FunctionBuilder) -> (r: Result<(), IrCompErr>)
        requires
            old(f_b).act_bb < old(f_b).blocks@.len(),
            stmt.value is Block,
        ensures
            final(self).ir_builder == old(self).ir_builder,
            final(f_b).act_bb < final(f_b).blocks@.len(),
            final(f_b).blocks@.len() >= old(f_b).blocks@.len(),
            final(f_b).arg_count == old(f_b).arg_count,
            final(f_b).ret_type == old(f_b).ret_type,
            match cstmt(old(self).env@, *stmt, built(*old(f_b))) {
                Ok((env, s)) => r is Ok && final(self).env@ == env && built(*final(f_b)) == s,
                Err(x) => r == Err::<(), IrCompErr>(x),
            },
        decreases *stmt, 0nat,
    {
        match &stmt.value {
            StatementType::Block(stmts) => {
                    let ghost env0 = self.env@;
                    let ghost s0 = built(*f_b);
                    proof {
                        assert forall|j: int| 0 <= j < stmts@.len() implies decreases_to!(*stmt => #[trigger] stmts@[j]) by {
                            assert(decreases_to!(*stmt => stmt.value));
                            assert(decreases_to!(stmt.value => *stmts));
                            assert(decreases_to!(*stmts => stmts@));
                        }
                    }
                    let mut i: usize = 0;
                    while i < stmts.len()
                        invariant
                            0 <= i <= stmts@.len(),
                            forall|j: int| 0 <= j < stmts@.len() ==> decreases_to!(*stmt => #[trigger] stmts@[j]),
                            stmt.value == StatementType::Block(*stmts),
                            s0 == built(*old(f_b)),
                            env0 == old(self).env@,
                            self.ir_builder == old(self).ir_builder,
                            f_b.act_bb < f_b.blocks@.len(),
                            f_b.blocks@.len() >= old(f_b).blocks@.len(),
                            f_b.arg_count == old(f_b).arg_count,
                            f_b.ret_type == old(f_b).ret_type,
                            cstmts(env0, stmts@, i as int, s0) == Ok::<(Seq<(String, Register)>, Emitted), IrCompErr>(
                                (self.env@, built(*f_b)),
                            ),
                        decreases stmts@.len() - i,
                    {
                        match self.compile_stmt(&stmts[i], f_b) {
                            Ok(()) => {},
                            Err(x) => {
                                proof {
                                    lemma_cstmts_err(env0, stmts@, i + 1, stmts@.len() as int, s0);
                                }
                                return Err(x);
                            },
                        }
                        i += 1;
                    }
                    Ok(())
                        },
            _ => Err(IrCompErr::Unknown),
        }
    }

    /// Emits a conditional: a branch to the guarded block or past it.
    #[verifier::rlimit(40)]
    fn compile_if(&mut self, stmt: &Statement, f_b: &mut FunctionBuilder) -> (r: Result<(), IrCompErr>)
        requires
            old(f_b).act_bb < old(f_b).blocks@.len(),
            stmt.value is If,
        ensures
            final(self).ir_builder == old(self).ir_builder,
            final(f_b).act_bb < final(f_b).blocks@.len(),
            final(f_b).blocks@.len() >= old(f_b).blocks@.len(),
            final(f_b).arg_count == old(f_b).arg_count,
            final(f_b).ret_type == old(f_b).ret_type,
            match cstmt(old(self).env@, *stmt, built(*old(f_b))) {
                Ok((env, s)) => r is Ok && final(self).env@ == env && built(*final(f_b)) == s,
                Err(x) => r == Err::<(), IrCompErr>(x),
            },
        decreases *stmt, 0nat,
    {
        match &stmt.value {
            StatementType::If(guard, block) => {
                    let guard_reg = match self.compile_expr(guard, f_b) {
                        Ok(x) => x,
                        Err(x) => return Err(x),
                    };
                    let then = Self::fresh_block(f_b);
                    let after = Self::fresh_block(f_b);
                    Self::put(f_b, InstructionType::Branch(TerminatorBranch(guard_reg, then, after)), RegType::Void);
                    f_b.set_bb(then);
                    match self.compile_stmt(block, f_b) {
                        Ok(()) => {},
                        Err(x) => return Err(x),
                    }
                    Self::close_block(f_b, after);
                    f_b.set_bb(after);
                    Ok(())
                        },
            _ => Err(IrCompErr::Unknown),
        }
    }

    /// Emits a conditional with two arms that meet after it.
    #[verifier::rlimit(40)]
    fn compile_if_else(&mut self, stmt: &Statement, f_b: &mut FunctionBuilder) -> (r: Result<(), IrCompErr>)
        requires
            old(f_b).act_bb < old(f_b).blocks@.len(),
            stmt.value is IfElse,
        ensures
            final(self).ir_builder == old(self).ir_builder,
            final(f_b).act_bb < final(f_b).blocks@.len(),
            final(f_b).blocks@.len() >= old(f_b).blocks@.len(),
            final(f_b).arg_count == old(f_b).arg_count,
            final(f_b).ret_type == old(f_b).ret_type,
            match cstmt(old(self).env@, *stmt, built(*old(f_b))) {
                Ok((env, s)) => r is Ok && final(self).env@ == env && built(*final(f_b)) == s,
                Err(x) => r == Err::<(), IrCompErr>(x),
            },
        decreases *stmt, 0nat,
    {
        match &stmt.value {
            StatementType::IfElse(guard, then_block, else_block) => {
                    let guard_reg = match self.compile_expr(guard, f_b) {
                        Ok(x) => x,
                        Err(x) => return Err(x),
                    };
                    let then_bb = Self::fresh_block(f_b);
                    let else_bb = Self::fresh_block(f_b);
                    let after = Self::fresh_block(f_b);
                    Self::put(f_b, InstructionType::Branch(TerminatorBranch(guard_reg, then_bb, else_bb)), RegType::Void);
                    f_b.set_bb(then_bb);
                    match self.compile_stmt(then_block, f_b) {
                        Ok(()) => {},
                        Err(x) => return Err(x),
                    }
                    Self::close_block(f_b, after);
                    f_b.set_bb(else_bb);
                    match self.compile_stmt(else_block, f_b) {
                        Ok(()) => {},
                        Err(x) => return Err(x),
                    }
                    Self::close_block(f_b, after);
                    f_b.set_bb(after);
                    Ok(())
                        },
            _ => Err(IrCompErr::Unknown),
        }
    }

    /// Emits a `for` loop: initialisation, a check block, the body and the step.
    #[verifier::rlimit(40)]
    fn compile_for(&mut self, stmt: &Statement, f_b: &mut FunctionBuilder) -> (r: Result<(), IrCompErr>)
        requires
            old(f_b).act_bb < old(f_b).blocks@.len(),
            stmt.value is For,
        ensures
            final(self).ir_builder == old(self).ir_builder,
            final(f_b).act_bb < final(f_b).blocks@.len(),
            final(f_b).blocks@.len() >= old(f_b).blocks@.len(),
            final(f_b).arg_count == old(f_b).arg_count,
            final(f_b).ret_type == old(f_b).ret_type,
            match cstmt(old(self).env@, *stmt, built(*old(f_b))) {
                Ok((env, s)) => r is Ok && final(self).env@ == env && built(*final(f_b)) == s,
                Err(x) => r == Err::<(), IrCompErr>(x),
            },
        decreases *stmt, 0nat,
    {
        match &stmt.value {
            StatementType::For(init, guard, step, body) => {
                    let check_bb = Self::fresh_block(f_b);
                    let body_bb = Self::fresh_block(f_b);
                    let after_bb = Self::fresh_block(f_b);
                    match init {
                        Some(init) => match self.compile_stmt(init, f_b) {
                            Ok(()) => {},
                            Err(x) => return Err(x),
                        },
                        None => {},
                    }
                    f_b.set_bb(check_bb);
                    let guard_reg = match guard {
                        Some(guard) => match self.compile_expr(guard, f_b) {
                            Ok(x) => x,
                            Err(x) => return Err(x),
                        },
                        None => Self::put(f_b, InstructionType::Ldi(ImmI(1)), RegType::Int),
                    };
                    Self::put(f_b, InstructionType::Branch(TerminatorBranch(guard_reg, body_bb, after_bb)), RegType::Void);
                    f_b.set_bb(body_bb);
                    match self.compile_stmt(body, f_b) {
                        Ok(()) => {},
                        Err(x) => return Err(x),
                    }
                    match step {
                        Some(step) => match self.compile_stmt(step, f_b) {
                            Ok(()) => {},
                            Err(x) => return Err(x),
                        },
                        None => {},
                    }
                    Self::put(f_b, InstructionType::Jmp(TerminatorJump(check_bb)), RegType::Void);
                    f_b.set_bb(after_bb);
                    Ok(())
                        },
            _ => Err(IrCompErr::Unknown),
        }
    }

    /// Emits a `while` loop: a check block, the body, and a jump back to the check.
    #[verifier::rlimit(40)]
    fn compile_while(&mut self, stmt: &Statement, f_b: &mut FunctionBuilder) -> (r: Result<(), IrCompErr>)
        requires
            old(f_b).act_bb < old(f_b).blocks@.len(),
            stmt.value is While,
        ensures
            final(self).ir_builder == old(self).ir_builder,
            final(f_b).act_bb < final(f_b).blocks@.len(),
            final(f_b).blocks@.len() >= old(f_b).blocks@.len(),
            final(f_b).arg_count == old(f_b).arg_count,
            final(f_b).ret_type == old(f_b).ret_type,
            match cstmt(old(self).env@, *stmt, built(*old(f_b))) {
                Ok((env, s)) => r is Ok && final(self).env@ == env && built(*final(f_b)) == s,
                Err(x) => r == Err::<(), IrCompErr>(x),
            },
        decreases *stmt, 0nat,
    {
        match &stmt.value {
            StatementType::While(guard, body) => {
                    let check_bb = Self::fresh_block(f_b);
                    Self::put(f_b, InstructionType::Jmp(TerminatorJump(check_bb)), RegType::Void);
                    f_b.set_bb(check_bb);
                    let guard_reg = match self.compile_expr(guard, f_b) {
                        Ok(x) => x,
                        Err(x) => return Err(x),
                    };
                    let body_bb = Self::fresh_block(f_b);
                    let after_bb = Self::fresh_block(f_b);
                    Self::put(f_b, InstructionType::Branch(TerminatorBranch(guard_reg, body_bb, after_bb)), RegType::Void);
                    f_b.set_bb(body_bb);
                    match self.compile_stmt(body, f_b) {
                        Ok(()) => {},
                        Err(x) => return Err(x),
                    }
                    Self::put(f_b, InstructionType::Jmp(TerminatorJump(check_bb)), RegType::Void);
                    f_b.set_bb(after_bb);
                    Ok(())
                        },
            _ => Err(IrCompErr::Unknown),
        }
    }

    /// Emits the code of a statement.
    fn compile_stmt(&mut self, stmt: &Statement, f_b: &mut FunctionBuilder) -> (r: Result<(), IrCompErr>)
        requires
            old(f_b).act_bb < old(f_b).blocks@.len(),
        ensures
            final(self).ir_builder == old(self).ir_builder,
            final(f_b).act_bb < final(f_b).blocks@.len(),
            final(f_b).blocks@.len() >= old(f_b).blocks@.len(),
            final(f_b).arg_count == old(f_b).arg_count,
            final(f_b).ret_type == old(f_b).ret_type,
            match cstmt(old(self).env@, *stmt, built(*old(f_b))) {
                Ok((env, s)) => r is Ok && final(self).env@ == env && built(*final(f_b)) == s,
                Err(x) => r == Err::<(), IrCompErr>(x),
            },
        decreases *stmt, 1nat,
    {
        match &stmt.value {
            StatementType::Expr(e) => match &e.value {
                ExprType::BinOp(Operator::Assign, l, r) => self.compile_assign(l, r, f_b),
                _ => match self.compile_expr(e, f_b) {
                    Ok(_) => Ok(()),
                    Err(x) => Err(x),
                },
            },
            StatementType::VarDecl(decl) => self.compile_vardecl(decl, f_b),
            StatementType::Block(..) => self.compile_block(stmt, f_b),
            StatementType::If(..) => self.compile_if(stmt, f_b),
            StatementType::IfElse(..) => self.compile_if_else(stmt, f_b),
            StatementType::For(..) => self.compile_for(stmt, f_b),
            StatementType::While(..) => self.compile_while(stmt, f_b),
            StatementType::Return(Some(expr)) => {
                let reg = match self.compile_expr(expr, f_b) {
                    Ok(x) => x,
                    Err(x) => return Err(x),
                };
                Self::put(f_b, InstructionType::Retr(TerminatorReg(reg)), RegType::Void);
                Ok(())
            },
            StatementType::Return(None) => {
                Self::put(f_b, InstructionType::Ret(Terminator), RegType::Void);
                Ok(())
            },
            _ => Err(IrCompErr::Unknown),
        }
    }
    /// Translates a function with a body and adds it to the program; a declaration adds
    /// nothing.
    #[verifier::rlimit(30)]
    fn function(&mut self, func: &FnDef) -> (r: Result<(), IrCompErr>)
        requires
            old(self).ir_builder.wf(),
        ensures
            final(self).ir_builder.wf(),
            final(self).ir_builder.global == old(self).ir_builder.global,
            func.value.body is None ==> *final(self) == *old(self),
            match cfn_item(old(self).env@, names_of(old(self).ir_builder.prog.funcs@), *func) {
                Err(x) => r == Err::<(), IrCompErr>(x) && (x is Builder ==> final(self).ir_builder.prog.funcs
                    == old(self).ir_builder.prog.funcs),
                Ok((env, names)) => r is Ok && final(self).env@ == env && names_of(final(self).ir_builder.prog.funcs@)
                    == names,
            },
            func.value.body is Some && r is Ok ==> {
                let funcs = final(self).ir_builder.prog.funcs@;
                let code = cfunc(old(self).env@, *func)->Ok_0.1;
                &&& funcs == old(self).ir_builder.prog.funcs@.push(funcs.last())
                &&& funcs.last().name@ == func.value.header.value.name@
                &&& funcs.last().arg_count == func.value.header.value.params@.len()
                &&& funcs.last().ret_type == reg_type_of(func.value.header.value.ret_type)
                &&& funcs.last().blocks@.len() == code.1.len()
                &&& insts_total(funcs.last().blocks@) <= code_size(code.1)
                &&& fn_compiled_as(funcs.last(), code.1)
            },
    {
        match &func.value.body {
            None => Ok(()),
            Some(body) => {
                let header = &func.value.header.value;
                let ghost params = header.params@;
                let n = header.params.len();
                let mut fn_b = FunctionBuilder::new(n as u64, reg_type_from(&header.ret_type));
                proof {
                    assert(built(fn_b).1[0] =~= Seq::<(RegType, Code)>::empty());
                    assert(built(fn_b).1 =~= fresh_function().1);
                }
                let ghost env0 = self.env@;
                let mut index: usize = 0;
                while index < n
                    invariant
                        0 <= index <= n,
                        n == params.len(),
                        params == header.params@,
                        self.ir_builder == old(self).ir_builder,
                        fn_b.act_bb == 0,
                        fn_b.blocks@.len() == 1,
                        fn_b.arg_count == n as u64,
                        fn_b.ret_type == reg_type_of(header.ret_type),
                        cparams(env0, params, index as int, fresh_function()) == (self.env@, built(fn_b)),
                    decreases n - index,
                {
                    let t = reg_type_from(&header.params[index].1);
                    let reg = Self::put(&mut fn_b, InstructionType::Arg(ImmI(index as i64)), t);
                    let addr = Self::put(&mut fn_b, InstructionType::Alloca(ImmI(8)), RegType::Int);
                    Self::put(&mut fn_b, InstructionType::St(RegReg(addr, reg)), RegType::Void);
                    self.env.push((header.params[index].0.clone(), addr));
                    index += 1;
                }
                match self.compile_stmt(body, &mut fn_b) {
                    Ok(()) => {},
                    Err(x) => return Err(x),
                }
                proof {
                    lemma_built_ends(fn_b);
                }
                if !fn_b.terminated() {
                    Self::put(&mut fn_b, InstructionType::Ret(Terminator), RegType::Void);
                }
                let ghost code = built(fn_b);
                proof {
                    lemma_code_size(fn_b.blocks@);
                }
                let f = fn_b.create(header.name.as_str());
                let ghost funcs0 = self.ir_builder.prog.funcs@;
                proof {
                    lemma_names_push(funcs0, f);
                    assert forall|k: int| 0 <= k < code.1.len() implies effect_ids(#[trigger] f.blocks@[k].instruction@).len()
                        == code_effects(code.1[k]) by {
                        lemma_code_effects(fn_b.blocks@[k].instruction@);
                        assert(effect_ids(f.blocks@[k].instruction@) == effect_ids(fn_b.blocks@[k].instruction@));
                    }
                }
                match self.ir_builder.add_fn(f) {
                    Ok(()) => {
                        proof {
                            assert(self.ir_builder.prog.funcs@.last() == f);
                        }
                        Ok(())
                    },
                    Err(e) => Err(IrCompErr::Builder(e)),
                }
            },
        }
    }

    /// Translates the items of a program in order, ends the global code with an exit
    /// and gives back the program built.
    #[verifier::rlimit(40)]
    fn compile(&mut self, prog: &Program) -> (r: Result<IrProgram, IrCompErr>)
        requires
            old(self).ir_builder.wf(),
        ensures
            match cprog(old(self).env@, names_of(old(self).ir_builder.prog.funcs@), prog.items@, prog.items@.len() as int) {
                Err(x) => r == Err::<IrProgram, IrCompErr>(x),
                Ok((_, names)) => r matches Ok(p) && p.wf() && names_of(p.funcs@) == names
                    && p.funcs@.len() == old(self).ir_builder.prog.funcs@.len() + cprog_codes(
                        old(self).env@,
                        names_of(old(self).ir_builder.prog.funcs@),
                        prog.items@,
                        prog.items@.len() as int,
                    ).len()
                    && (forall|j: int| 0 <= j < cprog_codes(
                        old(self).env@,
                        names_of(old(self).ir_builder.prog.funcs@),
                        prog.items@,
                        prog.items@.len() as int,
                    ).len() ==> fn_compiled_as(
                        #[trigger] p.funcs@[old(self).ir_builder.prog.funcs@.len() + j],
                        cprog_codes(
                            old(self).env@,
                            names_of(old(self).ir_builder.prog.funcs@),
                            prog.items@,
                            prog.items@.len() as int,
                        )[j],
                    ))
                    && p.glob.blocks@.len() == 1
                    && p.glob.blocks@[0].instruction@ == old(self).ir_builder.global.blocks@[0].instruction@.push(
                        (Instruction {
                            id: InstUUID(true, 0, old(self).ir_builder.global.blocks@[0].instruction@.len() as usize),
                            reg_type: RegType::Void,
                            data: InstructionType::Exit(Terminator),
                        }),
                    ),
            },
    {
        let ghost env0 = self.env@;
        let ghost names0 = names_of(self.ir_builder.prog.funcs@);
        let ghost glob0 = self.ir_builder.global;
        let ghost n0 = self.ir_builder.prog.funcs@.len();
        let mut i: usize = 0;
        while i < prog.items.len()
            invariant
                0 <= i <= prog.items@.len(),
                self.ir_builder.wf(),
                self.ir_builder.global == glob0,
                glob0 == old(self).ir_builder.global,
                env0 == old(self).env@,
                names0 == names_of(old(self).ir_builder.prog.funcs@),
                cprog(env0, names0, prog.items@, i as int) == Ok::<(Seq<(String, Register)>, Seq<Seq<char>>), IrCompErr>(
                    (self.env@, names_of(self.ir_builder.prog.funcs@)),
                ),
                n0 == old(self).ir_builder.prog.funcs@.len(),
                self.ir_builder.prog.funcs@.len() == n0 + cprog_codes(env0, names0, prog.items@, i as int).len(),
                forall|j: int| 0 <= j < cprog_codes(env0, names0, prog.items@, i as int).len() ==> fn_compiled_as(
                    #[trigger] self.ir_builder.prog.funcs@[n0 + j],
                    cprog_codes(env0, names0, prog.items@, i as int)[j],
                ),
            decreases prog.items@.len() - i,
        {
            let ghost funcs_before = self.ir_builder.prog.funcs@;
            let ghost env_before = self.env@;
            let ghost codes_before = cprog_codes(env0, names0, prog.items@, i as int);
            let res = match &prog.items[i] {
                TopLevel::Function(fn_def) => {
                    let res = self.function(fn_def);
                    proof {
                        if res is Ok {
                            let codes = cprog_codes(env0, names0, prog.items@, i + 1);
                            assert(prog.items@[i as int] == TopLevel::Function(*fn_def));
                            if fn_def.value.body is Some {
                                assert(codes == codes_before.push(cfunc(env_before, *fn_def)->Ok_0.1.1));
                                assert forall|j: int| 0 <= j < codes.len() implies fn_compiled_as(
                                    #[trigger] self.ir_builder.prog.funcs@[n0 + j],
                                    codes[j],
                                ) by {
                                    if j < codes_before.len() {
                                        assert(self.ir_builder.prog.funcs@[n0 + j] == funcs_before[n0 + j]);
                                    }
                                }
                            } else {
                                assert(codes == codes_before);
                            }
                        }
                    }
                    proof {
                        if res is Err {
                            assert(cprog(env0, names0, prog.items@, i + 1) == Err::<(Seq<(String, Register)>, Seq<Seq<char>>), IrCompErr>(res->Err_0));
                        }
                    }
                    res
                },
                _ => {
                    proof {
                        assert(cprog(env0, names0, prog.items@, i + 1) == Err::<(Seq<(String, Register)>, Seq<Seq<char>>), IrCompErr>(IrCompErr::Unknown));
                    }
                    Err(IrCompErr::Unknown)
                },
            };
            match res {
                Ok(()) => {},
                Err(x) => {
                    proof {
                        lemma_cprog_err(env0, names0, prog.items@, i + 1, prog.items@.len() as int);
                    }
                    return Err(x);
                },
            }
            i += 1;
        }
        self.ir_builder.add(InstructionType::Exit(Terminator), RegType::Void);
        let mut builder = IrBuilder::default();
        std::mem::swap(&mut builder, &mut self.ir_builder);
        Ok(builder.create())
    }

    /// A translator with no bindings and an empty program.
    pub fn default() -> (c: Self)
        ensures
            c.env@.len() == 0,
            c.ir_builder.wf(),
            c.ir_builder.global.blocks@[0].instruction@.len() == 0,
            c.ir_builder.prog.funcs@.len() == 0,
    {
        IrCompiler { env: Vec::new(), ir_builder: IrBuilder::default() }
    }
}

/// Translates a program into the intermediate representation: each function with a body
/// becomes a function of the program, in order, and the global code ends with an exit.
/// Fails on the first construct that has no translation, on a variable read before it is
/// declared, or on a function defined twice.
pub fn ir_compile(program: Program) -> (r: Result<IrProgram, IrCompErr>)
    ensures
        match cprog(Seq::empty(), Seq::empty(), program.items@, program.items@.len() as int) {
            Err(x) => r == Err::<IrProgram, IrCompErr>(x),
            Ok((_, names)) => r matches Ok(p) && p.wf() && names_of(p.funcs@) == names
                && p.funcs@.len() == cprog_codes(Seq::empty(), Seq::empty(), program.items@, program.items@.len() as int).len()
                && (forall|j: int| 0 <= j < p.funcs@.len() ==> fn_compiled_as(
                    #[trigger] p.funcs@[j],
                    cprog_codes(Seq::empty(), Seq::empty(), program.items@, program.items@.len() as int)[j],
                ))
                && p.glob.blocks@.len() == 1
                && p.glob.blocks@[0].instruction@ == seq![
                    Instruction {
                        id: InstUUID(true, 0, 0),
                        reg_type: RegType::Void,
                        data: InstructionType::Exit(Terminator),
                    },
                ],
        },
{
    let mut compiler = IrCompiler::default();
    proof {
        assert(names_of(compiler.ir_builder.prog.funcs@) =~= Seq::<Seq<char>>::empty());
        assert(compiler.env@ =~= Seq::<(String, Register)>::empty());
    }
    let ghost n0 = compiler.ir_builder.prog.funcs@.len();
    let r = compiler.compile(&program);
    proof {
        let codes = cprog_codes(Seq::empty(), Seq::empty(), program.items@, program.items@.len() as int);
        if r is Ok {
            let p = r->Ok_0;
            assert(n0 == 0);
            assert forall|j: int| 0 <= j < p.funcs@.len() implies fn_compiled_as(#[trigger] p.funcs@[j], codes[j]) by {
                assert(p.funcs@[n0 + j] == p.funcs@[j]);
            }
        }
    }
    r
}

} // verus!
