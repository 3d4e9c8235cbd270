use vstd::prelude::*;

use crate::middleend::inst::{ImmC, ImmI, InstructionType, Reg, RegReg};
use crate::middleend::ir::{BBIndex, BasicBlock, Instruction, IrProgram, RegType, Register};

verus! {

/// Errors of running the intermediate representation.
#[derive(Debug)]
pub enum InterpretError {
    VoidRegister(Instruction),
    InvalidAddress(Value),
    OutOfBoundRead(Value),
    OutOfBoundWrite,
    NonExistingRead(Register),
    DoubleWrite(Register),
    InvalidOp(Instruction),
    BasicBlockConti,
    Unknown,
}

/// Values that registers hold.
#[derive(Debug, PartialEq, Eq, Clone, Copy, Structural)]
pub enum Value {
    Signed(i64),
    Char(u8),
}

/// Runs a whole program. Running programs is not supported: this always fails.
pub fn run(program: IrProgram) -> (r: Result<(), InterpretError>)
    ensures
        r == Err::<(), InterpretError>(InterpretError::Unknown),
{
    Err(InterpretError::Unknown)
}

/// The address a value denotes.
pub open spec fn addr_value(v: Value) -> usize {
    match v {
        Value::Signed(x) => x as usize,
        Value::Char(x) => x as usize,
    }
}

/// The address a value denotes.
pub fn value_addr(v: Value) -> (r: usize)
    ensures
        r == addr_value(v),
{
    match v {
        Value::Signed(x) => x as usize,
        Value::Char(x) => x as usize,
    }
}

/// A memory: its stack size, the stack and the heap.
pub type MemView = (usize, Seq<u8>, Seq<u8>);

/// The bytes an address falls in and its offset there: below the stack size it is the
/// stack, above it the heap.
pub open spec fn region(m: MemView, a: usize) -> (Seq<u8>, int) {
    if a < m.0 {
        (m.1, a as int)
    } else {
        (m.2, a - m.0)
    }
}

/// The number the bytes denote, least significant first.
pub open spec fn le_word(s: Seq<u8>) -> int
    decreases s.len(),
{
    if s.len() == 0 {
        0
    } else {
        s[0] + 256 * le_word(s.drop_first())
    }
}

/// `256` to the power `n`.
pub open spec fn pow256(n: nat) -> int
    decreases n,
{
    if n == 0 {
        1
    } else {
        256 * pow256((n - 1) as nat)
    }
}

/// The integer of eight bytes at the address `v`, least significant byte first.
pub open spec fn read_int_spec(m: MemView, v: Value) -> Result<Value, InterpretError> {
    let (bytes, off) = region(m, addr_value(v));
    if off + 8 <= bytes.len() {
        Ok(Value::Signed(le_word(bytes.subrange(off, off + 8)) as i64))
    } else {
        Err(InterpretError::OutOfBoundRead(v))
    }
}

/// The byte at the address `v`.
pub open spec fn read_char_spec(m: MemView, v: Value) -> Result<Value, InterpretError> {
    let (bytes, off) = region(m, addr_value(v));
    if off < bytes.len() {
        Ok(Value::Char(bytes[off]))
    } else {
        Err(InterpretError::OutOfBoundRead(v))
    }
}

/// `amount` zero bytes on top of the stack, and their address; fails when the stack
/// would outgrow its size.
pub open spec fn alloca_spec(m: MemView, amount: i64) -> Result<(MemView, Value), InterpretError> {
    if amount < 0 || amount as usize > m.0 - m.1.len() {
        Err(InterpretError::OutOfBoundWrite)
    } else {
        Ok(((m.0, m.1 + Seq::new(amount as usize as nat, |i: int| 0u8), m.2), Value::Signed(m.1.len() as i64)))
    }
}

proof fn lemma_le_word_bound(s: Seq<u8>)
    ensures
        0 <= le_word(s) < pow256(s.len()),
    decreases s.len(),
{
    if s.len() > 0 {
        lemma_le_word_bound(s.drop_first());
    }
}

/// Byte memory: a stack of bounded size and a heap.
pub struct Memory {
    pub stack_size: usize,
    pub stack: Vec<u8>,
    pub heap: Vec<u8>,
}

impl View for Memory {
    type V = MemView;

    open spec fn view(&self) -> MemView {
        (self.stack_size, self.stack@, self.heap@)
    }
}

impl Memory {
    /// The stack fits its size.
    pub open spec fn wf(&self) -> bool {
        self.stack@.len() <= self.stack_size
    }

    /// An empty memory whose stack holds at most `stack_size` bytes.
    pub fn new(stack_size: usize) -> (m: Self)
        ensures
            m.wf(),
            m@ == (stack_size, Seq::<u8>::empty(), Seq::<u8>::empty()),
    {
        Self { stack_size, stack: Vec::new(), heap: Vec::new() }
    }

    /// Reads the integer at `addr_val`.
    pub fn read_int(&self, addr_val: Value) -> (r: Result<Value, InterpretError>)
        ensures
            r == read_int_spec(self@, addr_val),
    {
        let mut addr: usize = value_addr(addr_val);
        let vec = if addr < self.stack_size {
            &self.stack
        } else {
            addr = addr - self.stack_size;
            &self.heap
        };
        if addr >= vec.len() || vec.len() - addr < 8 {
            return Err(InterpretError::OutOfBoundRead(addr_val));
        }
        let ghost bytes = vec@;
        let mut res: u64 = 0;
        let mut i: usize = 8;
        proof {
            reveal_with_fuel(pow256, 9);
        }
        while i > 0
            invariant
                i <= 8,
                addr + 8 <= bytes.len(),
                addr + 8 <= vec.len(),
                bytes == vec@,
                res == le_word(bytes.subrange(addr + i, addr + 8)),
                pow256(8) == 0x1_0000_0000_0000_0000,
            decreases i,
        {
            i -= 1;
            proof {
                let s = bytes.subrange(addr + i, addr + 8);
                assert(s.drop_first() =~= bytes.subrange(addr + i + 1, addr + 8));
                lemma_le_word_bound(s.drop_first());
                assert(s.drop_first().len() == (7 - i) as nat);
                assert(res < pow256((7 - i) as nat));
                assert(pow256((7 - i) as nat) * 256 == pow256((8 - i) as nat));
                assert(pow256((8 - i) as nat) <= pow256(8)) by {
                    lemma_pow256_mono((8 - i) as nat, 8);
                }
            }
            res = res * 256 + vec[addr + i] as u64;
            proof {
                assert(bytes.subrange(addr + i, addr + 8)[0] == vec@[addr + i]);
            }
        }
        Ok(Value::Signed(res as i64))
    }

    /// Reads the byte at `addr_val`.
    pub fn read_char(&self, addr_val: Value) -> (r: Result<Value, InterpretError>)
        ensures
            r == read_char_spec(self@, addr_val),
    {
        let mut addr: usize = value_addr(addr_val);
        let vec = if addr < self.stack_size {
            &self.stack
        } else {
            addr = addr - self.stack_size;
            &self.heap
        };
        if addr < vec.len() {
            Ok(Value::Char(vec[addr]))
        } else {
            Err(InterpretError::OutOfBoundRead(addr_val))
        }
    }

    /// Puts `amount` zero bytes on top of the stack and gives back their address.
    pub fn alloca(&mut self, amount: i64) -> (r: Result<Value, InterpretError>)
        requires
            old(self).wf(),
        ensures
            final(self).wf(),
            match alloca_spec(old(self)@, amount) {
                Ok((m, v)) => r == Ok::<Value, InterpretError>(v) && final(self)@ == m,
                Err(e) => r == Err::<Value, InterpretError>(e) && final(self)@ == old(self)@,
            },
    {
        if amount < 0 || amount as usize > self.stack_size - self.stack.len() {
            return Err(InterpretError::OutOfBoundWrite);
        }
        let res = self.stack.len();
        let n = amount as usize;
        let mut i: usize = 0;
        while i < n
            invariant
                i <= n,
                n == amount as usize,
                self.stack_size == old(self).stack_size,
                self.heap == old(self).heap,
                res == old(self).stack@.len(),
                res + n <= self.stack_size,
                self.stack@ == old(self).stack@ + Seq::new(i as nat, |k: int| 0u8),
            decreases n - i,
        {
            self.stack.push(0);
            i += 1;
            proof {
                assert(self.stack@ =~= old(self).stack@ + Seq::new(i as nat, |k: int| 0u8));
            }
        }
        Ok(Value::Signed(res as i64))
    }
}


/// Registers and their values, later bindings first in lookups.
pub type Frame = Seq<(Register, Value)>;

/// The state of a run: memory, global registers, and one frame of local registers per
/// call in progress.
pub type State = (MemView, Frame, Seq<Frame>);

/// The value bound to `r` last in `f`.
pub open spec fn frame_lookup(f: Frame, r: Register) -> Option<Value>
    decreases f.len(),
{
    if f.len() == 0 {
        None
    } else if f.last().0 == r {
        Some(f.last().1)
    } else {
        frame_lookup(f.drop_last(), r)
    }
}

/// The value of `r`: from the innermost frame, else from the globals.
pub open spec fn st_get(s: State, r: Register) -> Result<Value, InterpretError> {
    if s.2.len() > 0 && frame_lookup(s.2.last(), r) is Some {
        Ok(frame_lookup(s.2.last(), r)->0)
    } else if frame_lookup(s.1, r) is Some {
        Ok(frame_lookup(s.1, r)->0)
    } else {
        Err(InterpretError::NonExistingRead(r))
    }
}

/// Binds `r` to `v` in the innermost frame, or among the globals outside any call; a
/// register is written once.
pub open spec fn st_set(s: State, r: Register, v: Value) -> Result<State, InterpretError> {
    if s.2.len() == 0 {
        if frame_lookup(s.1, r) is Some {
            Err(InterpretError::DoubleWrite(r))
        } else {
            Ok((s.0, s.1.push((r, v)), s.2))
        }
    } else {
        if frame_lookup(s.2.last(), r) is Some {
            Err(InterpretError::DoubleWrite(r))
        } else {
            Ok((s.0, s.1, s.2.update(s.2.len() - 1, s.2.last().push((r, v)))))
        }
    }
}

/// Arithmetic and bitwise operators.
#[derive(Debug, PartialEq, Eq, Clone, Copy, Structural)]
pub enum ArithOp {
    Add,
    Sub,
    Mul,
    Div,
    Mod,
    Shr,
    Shl,
    And,
    Or,
    Xor,
}

/// Comparisons.
#[derive(Debug, PartialEq, Eq, Clone, Copy, Structural)]
pub enum CompareOp {
    Lt,
    Le,
    Gt,
    Ge,
    Eql,
}

/// `op` on two integers; nothing where it overflows, divides by zero or shifts by a
/// negative amount or by the width or more.
pub open spec fn arith_i64(op: ArithOp, a: i64, b: i64) -> Option<i64> {
    match op {
        ArithOp::Add => a.checked_add(b),
        ArithOp::Sub => a.checked_sub(b),
        ArithOp::Mul => a.checked_mul(b),
        ArithOp::Div => a.checked_div(b),
        ArithOp::Mod => a.checked_rem(b),
        ArithOp::Shr => if 0 <= b < 64 { Some(a >> (b as u32)) } else { None },
        ArithOp::Shl => if 0 <= b < 64 { Some(a << (b as u32)) } else { None },
        ArithOp::And => Some(a & b),
        ArithOp::Or => Some(a | b),
        ArithOp::Xor => Some(a ^ b),
    }
}

/// `op` on two bytes; nothing where it overflows, divides by zero or shifts by the
/// width or more.
pub open spec fn arith_u8(op: ArithOp, a: u8, b: u8) -> Option<u8> {
    match op {
        ArithOp::Add => a.checked_add(b),
        ArithOp::Sub => a.checked_sub(b),
        ArithOp::Mul => a.checked_mul(b),
        ArithOp::Div => if b == 0 { None } else { Some(a / b) },
        ArithOp::Mod => a.checked_rem(b),
        ArithOp::Shr => if b < 8 { Some(a >> (b as u32)) } else { None },
        ArithOp::Shl => if b < 8 { Some(a << (b as u32)) } else { None },
        ArithOp::And => Some(a & b),
        ArithOp::Or => Some(a | b),
        ArithOp::Xor => Some(a ^ b),
    }
}

/// `op` on two integers.
pub fn apply_i64(op: ArithOp, a: i64, b: i64) -> (r: Option<i64>)
    ensures
        r == arith_i64(op, a, b),
{
    match op {
        ArithOp::Add => a.checked_add(b),
        ArithOp::Sub => a.checked_sub(b),
        ArithOp::Mul => a.checked_mul(b),
        ArithOp::Div => a.checked_div(b),
        ArithOp::Mod => a.checked_rem(b),
        ArithOp::Shr => if 0 <= b && b < 64 { Some(a >> (b as u32)) } else { None },
        ArithOp::Shl => if 0 <= b && b < 64 { Some(a << (b as u32)) } else { None },
        ArithOp::And => Some(a & b),
        ArithOp::Or => Some(a | b),
        ArithOp::Xor => Some(a ^ b),
    }
}

/// `op` on two bytes.
pub fn apply_u8(op: ArithOp, a: u8, b: u8) -> (r: Option<u8>)
    ensures
        r == arith_u8(op, a, b),
{
    match op {
        ArithOp::Add => a.checked_add(b),
        ArithOp::Sub => a.checked_sub(b),
        ArithOp::Mul => a.checked_mul(b),
        ArithOp::Div => if b == 0 { None } else { Some(a / b) },
        ArithOp::Mod => a.checked_rem(b),
        ArithOp::Shr => if b < 8 { Some(a >> (b as u32)) } else { None },
        ArithOp::Shl => if b < 8 { Some(a << (b as u32)) } else { None },
        ArithOp::And => Some(a & b),
        ArithOp::Or => Some(a | b),
        ArithOp::Xor => Some(a ^ b),
    }
}

/// Whether the comparison holds.
pub open spec fn compare(op: CompareOp, a: int, b: int) -> bool {
    match op {
        CompareOp::Lt => a < b,
        CompareOp::Le => a <= b,
        CompareOp::Gt => a > b,
        CompareOp::Ge => a >= b,
        CompareOp::Eql => a == b,
    }
}

/// The arithmetic instruction `inst` on the registers `regs`: both values of one kind.
pub open spec fn binop_spec(s: State, inst: Instruction, regs: RegReg, op: ArithOp) -> Result<State, InterpretError> {
    match st_get(s, regs.0) {
        Err(e) => Err(e),
        Ok(l) => match st_get(s, regs.1) {
            Err(e) => Err(e),
            Ok(r) => match (l, r) {
                (Value::Signed(a), Value::Signed(b)) => match arith_i64(op, a, b) {
                    Some(x) => st_set(s, inst.id, Value::Signed(x)),
                    None => Err(InterpretError::InvalidOp(inst)),
                },
                (Value::Char(a), Value::Char(b)) => match arith_u8(op, a, b) {
                    Some(x) => st_set(s, inst.id, Value::Char(x)),
                    None => Err(InterpretError::InvalidOp(inst)),
                },
                _ => Err(InterpretError::InvalidOp(inst)),
            },
        },
    }
}

/// The comparison `inst` on the registers `regs`: one or zero.
pub open spec fn comparison_spec(s: State, inst: Instruction, regs: RegReg, op: CompareOp) -> Result<State, InterpretError> {
    match st_get(s, regs.0) {
        Err(e) => Err(e),
        Ok(l) => match st_get(s, regs.1) {
            Err(e) => Err(e),
            Ok(r) => match (l, r) {
                (Value::Signed(a), Value::Signed(b)) => st_set(
                    s,
                    inst.id,
                    Value::Signed(if compare(op, a as int, b as int) { 1 } else { 0 }),
                ),
                (Value::Char(a), Value::Char(b)) => st_set(
                    s,
                    inst.id,
                    Value::Signed(if compare(op, a as int, b as int) { 1 } else { 0 }),
                ),
                _ => Err(InterpretError::InvalidOp(inst)),
            },
        },
    }
}

/// One instruction run in the state `s`.
pub open spec fn step(s: State, inst: Instruction) -> Result<State, InterpretError> {
    match inst.data {
        InstructionType::Ldi(ImmI(k)) => st_set(s, inst.id, Value::Signed(k)),
        InstructionType::Ldc(ImmC(c)) => st_set(s, inst.id, Value::Char(c as u8)),
        InstructionType::Ld(Reg(r)) => match st_get(s, r) {
            Err(e) => Err(e),
            Ok(a) => {
                let read = match inst.reg_type {
                    RegType::Void => Err(InterpretError::VoidRegister(inst)),
                    RegType::Int => read_int_spec(s.0, a),
                    RegType::Char => read_char_spec(s.0, a),
                };
                match read {
                    Err(e) => Err(e),
                    Ok(v) => st_set(s, inst.id, v),
                }
            },
        },
        InstructionType::St(RegReg(a, v)) => match st_get(s, a) {
            Err(e) => Err(e),
            Ok(_) => match st_get(s, v) {
                Err(e) => Err(e),
                Ok(_) => Err(InterpretError::Unknown),
            },
        },
        InstructionType::Alloca(ImmI(k)) => match alloca_spec(s.0, k) {
            Err(e) => Err(e),
            Ok((m, a)) => st_set((m, s.1, s.2), inst.id, a),
        },
        InstructionType::Allocg(ImmI(k)) => match alloca_spec(s.0, k) {
            Err(e) => Err(e),
            Ok((m, a)) => st_set((m, s.1, s.2), inst.id, a),
        },
        InstructionType::Add(rr) => binop_spec(s, inst, rr, ArithOp::Add),
        InstructionType::Sub(rr) => binop_spec(s, inst, rr, ArithOp::Sub),
        InstructionType::Mul(rr) => binop_spec(s, inst, rr, ArithOp::Mul),
        InstructionType::Div(rr) => binop_spec(s, inst, rr, ArithOp::Div),
        InstructionType::Mod(rr) => binop_spec(s, inst, rr, ArithOp::Mod),
        InstructionType::Shr(rr) => binop_spec(s, inst, rr, ArithOp::Shr),
        InstructionType::Shl(rr) => binop_spec(s, inst, rr, ArithOp::Shl),
        InstructionType::And(rr) => binop_spec(s, inst, rr, ArithOp::And),
        InstructionType::Or(rr) => binop_spec(s, inst, rr, ArithOp::Or),
        InstructionType::Xor(rr) => binop_spec(s, inst, rr, ArithOp::Xor),
        InstructionType::Neg(Reg(r)) => match st_get(s, r) {
            Err(e) => Err(e),
            Ok(Value::Signed(x)) => st_set(s, inst.id, Value::Signed(!x)),
            Ok(Value::Char(x)) => st_set(s, inst.id, Value::Char(!x)),
        },
        InstructionType::Lt(rr) => comparison_spec(s, inst, rr, CompareOp::Lt),
        InstructionType::Le(rr) => comparison_spec(s, inst, rr, CompareOp::Le),
        InstructionType::Gt(rr) => comparison_spec(s, inst, rr, CompareOp::Gt),
        InstructionType::Ge(rr) => comparison_spec(s, inst, rr, CompareOp::Ge),
        InstructionType::Eql(rr) => comparison_spec(s, inst, rr, CompareOp::Eql),
        _ => Err(InterpretError::Unknown),
    }
}

/// The first `n` instructions run in order from the state `s`.
pub open spec fn run_insts(s: State, insts: Seq<Instruction>, n: int) -> Result<State, InterpretError>
    decreases n,
{
    if n <= 0 || n > insts.len() {
        Ok(s)
    } else {
        match run_insts(s, insts, n - 1) {
            Err(e) => Err(e),
            Ok(s1) => step(s1, insts[n - 1]),
        }
    }
}

proof fn lemma_frame_found(f: Frame, r: Register, i: int)
    requires
        0 <= i < f.len(),
        f[i].0 == r,
        forall|k: int| i < k < f.len() ==> (#[trigger] f[k]).0 != r,
    ensures
        frame_lookup(f, r) == Some(f[i].1),
    decreases f.len(),
{
    if i < f.len() - 1 {
        lemma_frame_found(f.drop_last(), r, i);
    }
}

proof fn lemma_frame_missing(f: Frame, r: Register)
    requires
        forall|k: int| 0 <= k < f.len() ==> (#[trigger] f[k]).0 != r,
    ensures
        frame_lookup(f, r) is None,
    decreases f.len(),
{
    if f.len() > 0 {
        lemma_frame_missing(f.drop_last(), r);
    }
}

proof fn lemma_run_err(s: State, insts: Seq<Instruction>, k: int, n: int)
    requires
        0 <= k <= n <= insts.len(),
        run_insts(s, insts, k) is Err,
    ensures
        run_insts(s, insts, n) == run_insts(s, insts, k),
    decreases n - k,
{
    if k < n {
        lemma_run_err(s, insts, k, n - 1);
    }
}

/// The value bound to `r` last in `frame`.
fn frame_get(frame: &Vec<(Register, Value)>, r: Register) -> (v: Option<Value>)
    ensures
        v == frame_lookup(frame@, r),
{
    let mut i = frame.len();
    while i > 0
        invariant
            i <= frame@.len(),
            forall|k: int| i <= k < frame@.len() ==> (#[trigger] frame@[k]).0 != r,
        decreases i,
    {
        i -= 1;
        if frame[i].0 == r {
            proof {
                lemma_frame_found(frame@, r, i as int);
            }
            return Some(frame[i].1);
        }
    }
    proof {
        lemma_frame_missing(frame@, r);
    }
    None
}

/// Runs instructions of the intermediate representation.
pub struct Interpret {
    pub mem: Memory,
    pub globals: Vec<(Register, Value)>,
    pub locals: Vec<Vec<(Register, Value)>>,
    pub program: IrProgram,
}

impl View for Interpret {
    type V = State;

    open spec fn view(&self) -> State {
        (self.mem@, self.globals@, self.locals@.map_values(|f: Vec<(Register, Value)>| f@))
    }
}

impl Interpret {
    /// A run of `program` with an empty memory whose stack holds `stack_size` bytes.
    pub fn new(program: IrProgram, stack_size: usize) -> (i: Self)
        ensures
            i.mem.wf(),
            i@ == ((stack_size, Seq::<u8>::empty(), Seq::<u8>::empty()), Seq::<(Register, Value)>::empty(), Seq::<Frame>::empty()),
    {
        let r = Self { mem: Memory::new(stack_size), globals: Vec::new(), locals: Vec::new(), program };
        proof {
            assert(r@.2 =~= Seq::<Frame>::empty());
        }
        r
    }

    /// Binds `reg` to `value`; a register is written once.
    pub fn set(&mut self, reg: Register, value: Value) -> (r: Result<(), InterpretError>)
        requires
            old(self).mem.wf(),
        ensures
            final(self).mem.wf(),
            final(self).program == old(self).program,
            match st_set(old(self)@, reg, value) {
                Ok(s) => r is Ok && final(self)@ == s,
                Err(e) => r == Err::<(), InterpretError>(e) && final(self)@ == old(self)@,
            },
    {
        if self.locals.len() == 0 {
            if frame_get(&self.globals, reg).is_some() {
                return Err(InterpretError::DoubleWrite(reg));
            }
            self.globals.push((reg, value));
            Ok(())
        } else {
            let last = self.locals.len() - 1;
            if frame_get(&self.locals[last], reg).is_some() {
                return Err(InterpretError::DoubleWrite(reg));
            }
            let ghost before = self@;
            let mut frame = self.locals.pop().unwrap();
            frame.push((reg, value));
            self.locals.push(frame);
            proof {
                assert(self@.2 =~= before.2.update(before.2.len() - 1, before.2.last().push((reg, value))));
            }
            Ok(())
        }
    }

    /// The value of `reg`.
    pub fn get(&self, reg: Register) -> (r: Result<Value, InterpretError>)
        ensures
            r == st_get(self@, reg),
    {
        if self.locals.len() > 0 {
            let last = self.locals.len() - 1;
            match frame_get(&self.locals[last], reg) {
                Some(v) => {
                    return Ok(v);
                },
                None => {},
            }
        }
        match frame_get(&self.globals, reg) {
            Some(v) => Ok(v),
            None => Err(InterpretError::NonExistingRead(reg)),
        }
    }

    /// Runs the arithmetic instruction `inst` on the registers `regs`.
    fn binary_op(&mut self, inst: Instruction, regs: RegReg, op: ArithOp) -> (r: Result<(), InterpretError>)
        requires
            old(self).mem.wf(),
        ensures
            final(self).mem.wf(),
            final(self).program == old(self).program,
            match binop_spec(old(self)@, inst, regs, op) {
                Ok(s) => r is Ok && final(self)@ == s,
                Err(e) => r == Err::<(), InterpretError>(e),
            },
    {
        let l_val = match self.get(regs.0) {
            Ok(v) => v,
            Err(e) => return Err(e),
        };
        let r_val = match self.get(regs.1) {
            Ok(v) => v,
            Err(e) => return Err(e),
        };
        let val = match (l_val, r_val) {
            (Value::Signed(a), Value::Signed(b)) => match apply_i64(op, a, b) {
                Some(x) => Value::Signed(x),
                None => return Err(InterpretError::InvalidOp(inst)),
            },
            (Value::Char(a), Value::Char(b)) => match apply_u8(op, a, b) {
                Some(x) => Value::Char(x),
                None => return Err(InterpretError::InvalidOp(inst)),
            },
            _ => return Err(InterpretError::InvalidOp(inst)),
        };
        self.set(inst.id, val)
    }

    /// Runs the comparison `inst` on the registers `regs`.
    fn logic_bin_op(&mut self, inst: Instruction, regs: RegReg, op: CompareOp) -> (r: Result<(), InterpretError>)
        requires
            old(self).mem.wf(),
        ensures
            final(self).mem.wf(),
            final(self).program == old(self).program,
            match comparison_spec(old(self)@, inst, regs, op) {
                Ok(s) => r is Ok && final(self)@ == s,
                Err(e) => r == Err::<(), InterpretError>(e),
            },
    {
        let l_val = match self.get(regs.0) {
            Ok(v) => v,
            Err(e) => return Err(e),
        };
        let r_val = match self.get(regs.1) {
            Ok(v) => v,
            Err(e) => return Err(e),
        };
        let holds = match (l_val, r_val) {
            (Value::Signed(a), Value::Signed(b)) => match op {
                CompareOp::Lt => a < b,
                CompareOp::Le => a <= b,
                CompareOp::Gt => a > b,
                CompareOp::Ge => a >= b,
                CompareOp::Eql => a == b,
            },
            (Value::Char(a), Value::Char(b)) => match op {
                CompareOp::Lt => a < b,
                CompareOp::Le => a <= b,
                CompareOp::Gt => a > b,
                CompareOp::Ge => a >= b,
                CompareOp::Eql => a == b,
            },
            _ => return Err(InterpretError::InvalidOp(inst)),
        };
        self.set(inst.id, Value::Signed(if holds { 1 } else { 0 }))
    }
    /// Runs the instructions of a block in order, stopping at the first error. Gives
    /// back the block to go to next, which no instruction run here chooses.
    #[verifier::rlimit(40)]
    pub fn run_basicblock(&mut self, bb: &BasicBlock) -> (r: Result<Option<BBIndex>, InterpretError>)
        requires
            old(self).mem.wf(),
        ensures
            final(self).mem.wf(),
            final(self).program == old(self).program,
            match run_insts(old(self)@, bb.instruction@, bb.instruction@.len() as int) {
                Ok(s) => r == Ok::<Option<BBIndex>, InterpretError>(None) && final(self)@ == s,
                Err(e) => r == Err::<Option<BBIndex>, InterpretError>(e),
            },
    {
        let next: Option<BBIndex> = None;
        let ghost s0 = self@;
        let ghost insts = bb.instruction@;
        let mut i: usize = 0;
        while i < bb.instruction.len()
            invariant
                0 <= i <= insts.len(),
                insts == bb.instruction@,
                s0 == old(self)@,
                next is None,
                self.mem.wf(),
                self.program == old(self).program,
                run_insts(s0, insts, i as int) == Ok::<State, InterpretError>(self@),
            decreases insts.len() - i,
        {
            if next.is_some() {
                return Err(InterpretError::BasicBlockConti);
            }
            let inst = &bb.instruction[i];
            let res: Result<(), InterpretError> = match &inst.data {
                InstructionType::Ldi(ImmI(imm)) => self.set(inst.id, Value::Signed(*imm)),
                InstructionType::Ldc(ImmC(imm)) => self.set(inst.id, Value::Char(*imm as u8)),
                InstructionType::Ld(Reg(reg)) => {
                    match self.get(*reg) {
                        Err(e) => Err(e),
                        Ok(val) => {
                            let read = match inst.reg_type {
                                RegType::Void => Err(
                                    InterpretError::VoidRegister(
                                        Instruction { id: inst.id, reg_type: inst.reg_type, data: InstructionType::Ld(Reg(*reg)) },
                                    ),
                                ),
                                RegType::Int => self.mem.read_int(val),
                                RegType::Char => self.mem.read_char(val),
                            };
                            match read {
                                Err(e) => Err(e),
                                Ok(v) => self.set(inst.id, v),
                            }
                        },
                    }
                },
                InstructionType::St(RegReg(reg_addr, reg_source)) => {
                    match self.get(*reg_addr) {
                        Err(e) => Err(e),
                        Ok(_) => match self.get(*reg_source) {
                            Err(e) => Err(e),
                            Ok(_) => Err(InterpretError::Unknown),
                        },
                    }
                },
                InstructionType::Alloca(ImmI(imm)) | InstructionType::Allocg(ImmI(imm)) => {
                    match self.mem.alloca(*imm) {
                        Err(e) => Err(e),
                        Ok(addr) => self.set(inst.id, addr),
                    }
                },
                InstructionType::Add(regs) => self.binary_op(
                    Instruction { id: inst.id, reg_type: inst.reg_type, data: InstructionType::Add(*regs) },
                    *regs,
                    ArithOp::Add,
                ),
                InstructionType::Sub(regs) => self.binary_op(
                    Instruction { id: inst.id, reg_type: inst.reg_type, data: InstructionType::Sub(*regs) },
                    *regs,
                    ArithOp::Sub,
                ),
                InstructionType::Mul(regs) => self.binary_op(
                    Instruction { id: inst.id, reg_type: inst.reg_type, data: InstructionType::Mul(*regs) },
                    *regs,
                    ArithOp::Mul,
                ),
                InstructionType::Div(regs) => self.binary_op(
                    Instruction { id: inst.id, reg_type: inst.reg_type, data: InstructionType::Div(*regs) },
                    *regs,
                    ArithOp::Div,
                ),
                InstructionType::Mod(regs) => self.binary_op(
                    Instruction { id: inst.id, reg_type: inst.reg_type, data: InstructionType::Mod(*regs) },
                    *regs,
                    ArithOp::Mod,
                ),
                InstructionType::Shr(regs) => self.binary_op(
                    Instruction { id: inst.id, reg_type: inst.reg_type, data: InstructionType::Shr(*regs) },
                    *regs,
                    ArithOp::Shr,
                ),
                InstructionType::Shl(regs) => self.binary_op(
                    Instruction { id: inst.id, reg_type: inst.reg_type, data: InstructionType::Shl(*regs) },
                    *regs,
                    ArithOp::Shl,
                ),
                InstructionType::And(regs) => self.binary_op(
                    Instruction { id: inst.id, reg_type: inst.reg_type, data: InstructionType::And(*regs) },
                    *regs,
                    ArithOp::And,
                ),
                InstructionType::Or(regs) => self.binary_op(
                    Instruction { id: inst.id, reg_type: inst.reg_type, data: InstructionType::Or(*regs) },
                    *regs,
                    ArithOp::Or,
                ),
                InstructionType::Xor(regs) => self.binary_op(
                    Instruction { id: inst.id, reg_type: inst.reg_type, data: InstructionType::Xor(*regs) },
                    *regs,
                    ArithOp::Xor,
                ),
                InstructionType::Neg(Reg(reg)) => {
                    match self.get(*reg) {
                        Err(e) => Err(e),
                        Ok(Value::Signed(x)) => self.set(inst.id, Value::Signed(!x)),
                        Ok(Value::Char(x)) => self.set(inst.id, Value::Char(!x)),
                    }
                },
                InstructionType::Lt(regs) => self.logic_bin_op(
                    Instruction { id: inst.id, reg_type: inst.reg_type, data: InstructionType::Lt(*regs) },
                    *regs,
                    CompareOp::Lt,
                ),
                InstructionType::Le(regs) => self.logic_bin_op(
                    Instruction { id: inst.id, reg_type: inst.reg_type, data: InstructionType::Le(*regs) },
                    *regs,
                    CompareOp::Le,
                ),
                InstructionType::Gt(regs) => self.logic_bin_op(
                    Instruction { id: inst.id, reg_type: inst.reg_type, data: InstructionType::Gt(*regs) },
                    *regs,
                    CompareOp::Gt,
                ),
                InstructionType::Ge(regs) => self.logic_bin_op(
                    Instruction { id: inst.id, reg_type: inst.reg_type, data: InstructionType::Ge(*regs) },
                    *regs,
                    CompareOp::Ge,
                ),
                InstructionType::Eql(regs) => self.logic_bin_op(
                    Instruction { id: inst.id, reg_type: inst.reg_type, data: InstructionType::Eql(*regs) },
                    *regs,
                    CompareOp::Eql,
                ),
                _ => Err(InterpretError::Unknown),
            };
            match res {
                Ok(()) => {},
                Err(e) => {
                    proof {
                        lemma_run_err(s0, insts, i + 1, insts.len() as int);
                    }
                    return Err(e);
                },
            }
            i += 1;
        }
        Ok(next)
    }
}

/// A register reads back the value written to it.
pub proof fn lemma_get_after_set(s: State, r: Register, v: Value)
    requires
        st_set(s, r, v) is Ok,
    ensures
        st_get(st_set(s, r, v)->Ok_0, r) == Ok::<Value, InterpretError>(v),
{
    let s2 = st_set(s, r, v)->Ok_0;
    if s.2.len() > 0 {
        assert(s2.2.last() == s.2.last().push((r, v)));
        assert(s2.2.last().drop_last() =~= s.2.last());
    } else {
        assert(s2.1.drop_last() =~= s.1);
    }
}

/// A register is written once: a second write fails.
pub proof fn lemma_written_once(s: State, r: Register, v: Value, w: Value)
    requires
        st_set(s, r, v) is Ok,
    ensures
        st_set(st_set(s, r, v)->Ok_0, r, w) == Err::<State, InterpretError>(InterpretError::DoubleWrite(r)),
{
    let s2 = st_set(s, r, v)->Ok_0;
    if s.2.len() > 0 {
        assert(s2.2.last() == s.2.last().push((r, v)));
    }
}

/// Memory that the stack hands out reads as zero, an integer where it has room for
/// one and a byte anywhere.
pub proof fn lemma_alloca_reads_zero(m: MemView, amount: i64)
    requires
        m.1.len() <= m.0,
        alloca_spec(m, amount) is Ok,
        amount as usize >= 1,
    ensures
        read_char_spec(alloca_spec(m, amount)->Ok_0.0, alloca_spec(m, amount)->Ok_0.1) == Ok::<Value, InterpretError>(Value::Char(0)),
        amount as usize >= 8 ==> read_int_spec(alloca_spec(m, amount)->Ok_0.0, alloca_spec(m, amount)->Ok_0.1) == Ok::<Value, InterpretError>(Value::Signed(0)),
{
    let (m2, a) = alloca_spec(m, amount)->Ok_0;
    let len: usize = m.1.len() as usize;
    assert(((len as i64) as usize) == len) by (bit_vector);
    assert(addr_value(a) == len);
    assert(len < m.0);
    assert(m2.1[len as int] == 0u8);
    if amount as usize >= 8 {
        let w = m2.1.subrange(len as int, len + 8);
        assert(w =~= Seq::new(8, |i: int| 0u8));
        lemma_le_word_zeros(w);
    }
}

proof fn lemma_le_word_zeros(s: Seq<u8>)
    requires
        forall|i: int| 0 <= i < s.len() ==> s[i] == 0u8,
    ensures
        le_word(s) == 0,
    decreases s.len(),
{
    if s.len() > 0 {
        lemma_le_word_zeros(s.drop_first());
    }
}

proof fn lemma_pow256_mono(a: nat, b: nat)
    requires
        a <= b,
    ensures
        pow256(a) <= pow256(b),
    decreases b,
{
    if a < b {
        lemma_pow256_mono(a, (b - 1) as nat);
        assert(pow256((b - 1) as nat) >= 1) by {
            lemma_pow256_pos((b - 1) as nat);
        }
    }
}

proof fn lemma_pow256_pos(a: nat)
    ensures
        pow256(a) >= 1,
    decreases a,
{
    if a > 0 {
        lemma_pow256_pos((a - 1) as nat);
    }
}

} // verus!
