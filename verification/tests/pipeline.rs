use lib::backend::backend_ir::{AsmFunction, AsmProgram};
use lib::backend::emit::emit_assembly;
use lib::backend::fn_builder::AsmFunctionBuilder;
use lib::backend::register_alloc::NaiveAllocator;
use lib::backend::insts::{AsmInstruction, Rd};
use lib::frontend::parse;
use lib::middleend::analysis::analysis::analyze_program;
use lib::middleend::analysis::dataflow::DataFlowAnalysis;
use lib::middleend::analysis::lattice::MemoryPlace;
use lib::middleend::analysis::live::LiveRegisterAnalysis;
use lib::middleend::analysis::possible_mem::PossibleMemAnalysis;
use lib::middleend::builder::FunctionBuilder;
use lib::middleend::inst::{
    ImmC, ImmI, InstructionType, Reg, RegReg, RegRegs, SymRegs, Terminator, TerminatorBranch,
    TerminatorJump, TerminatorReg,
};
use lib::middleend::ir::{BasicBlock, InstUUID, Instruction, IrProgram, RegType};
use lib::middleend::ir_compile::{ir_compile, IrCompErr};
use lib::middleend::ir_interpret::{run, Interpret, InterpretError, Memory, Value};
use lib::middleend::optimalizations::phinode_create::create_phinodes;

fn reg(k: usize) -> InstUUID {
    InstUUID(false, 0, k)
}

fn inst(k: usize, reg_type: RegType, data: InstructionType) -> Instruction {
    Instruction::new(reg(k), reg_type, data)
}

fn block(insts: Vec<Instruction>) -> BasicBlock {
    let mut b = BasicBlock::default();
    b.instruction = insts;
    b
}

fn compile(src: &str) -> Result<IrProgram, IrCompErr> {
    let prog = parse(src.to_string(), "test.c".to_string()).unwrap();
    ir_compile(prog)
}

#[test]
fn compiles_a_return_of_a_literal() {
    let p = compile("int main() { return 7; }").unwrap();
    assert_eq!(p.funcs.len(), 1);
    assert_eq!(p.funcs[0].name, "main");
    assert_eq!(p.funcs[0].arg_count, 0);
    assert_eq!(p.funcs[0].ret_type, RegType::Int);
    assert_eq!(p.glob.blocks.len(), 1);
    assert_eq!(p.glob.blocks[0].instruction.len(), 1);
    assert_eq!(p.glob.blocks[0].instruction[0].data, InstructionType::Exit(Terminator));
    assert_eq!(
        p.funcs[0].display(),
        "function main(0) : int {\nBB0:\n\t%0 : int = ldi 7\n\tretr %0\n}"
    );
}

#[test]
fn compiles_functions_in_order() {
    let p = compile("int f(int a) { return a; } int main() { return f(2); }").unwrap();
    assert_eq!(p.funcs.len(), 2);
    assert_eq!(p.funcs[0].name, "f");
    assert_eq!(p.funcs[0].arg_count, 1);
    assert_eq!(p.funcs[1].name, "main");
    assert!(p.display().starts_with("global:\nfunction global(0) : void {\nBB0:\n\texit\n}\nfunction f(1) : int {"));
}

#[test]
fn a_conditional_gets_its_blocks() {
    let p = compile("int main() { int a = 1; if (a) { a = 2; } return a; }").unwrap();
    assert_eq!(p.funcs[0].blocks.len(), 3);
    let first = &p.funcs[0].blocks[0].instruction;
    let last = first.last().unwrap();
    assert!(matches!(last.data, InstructionType::Branch(TerminatorBranch(_, 1, 2))));
}

#[test]
fn a_global_variable_has_no_translation() {
    assert!(matches!(compile("int g; int main() { return 0; }"), Err(IrCompErr::Unknown)));
}

#[test]
fn a_break_has_no_translation() {
    assert!(matches!(compile("int main() { while (1) { break; } return 0; }"), Err(IrCompErr::Unknown)));
}

#[test]
fn interpreter_runs_arithmetic_and_memory() {
    let mut it = Interpret::new(IrProgram::default(), 64);
    let bb = block(vec![
        inst(0, RegType::Int, InstructionType::Ldi(ImmI(5))),
        inst(1, RegType::Int, InstructionType::Ldi(ImmI(7))),
        inst(2, RegType::Int, InstructionType::Add(RegReg(reg(0), reg(1)))),
        inst(3, RegType::Int, InstructionType::Lt(RegReg(reg(0), reg(1)))),
        inst(4, RegType::Int, InstructionType::Alloca(ImmI(8))),
        inst(5, RegType::Int, InstructionType::Ld(Reg(reg(4)))),
        inst(6, RegType::Char, InstructionType::Ldc(ImmC('a'))),
        inst(7, RegType::Int, InstructionType::Neg(Reg(reg(0)))),
    ]);
    assert!(matches!(it.run_basicblock(&bb), Ok(None)));
    assert_eq!(it.get(reg(2)).unwrap(), Value::Signed(12));
    assert_eq!(it.get(reg(3)).unwrap(), Value::Signed(1));
    assert_eq!(it.get(reg(4)).unwrap(), Value::Signed(0));
    assert_eq!(it.get(reg(5)).unwrap(), Value::Signed(0));
    assert_eq!(it.get(reg(6)).unwrap(), Value::Char(97));
    assert_eq!(it.get(reg(7)).unwrap(), Value::Signed(!5));
}

#[test]
fn interpreter_reports_errors() {
    let mut it = Interpret::new(IrProgram::default(), 64);
    assert!(it.set(reg(0), Value::Signed(1)).is_ok());
    assert!(matches!(it.set(reg(0), Value::Signed(2)), Err(InterpretError::DoubleWrite(_))));
    assert!(matches!(it.get(reg(9)), Err(InterpretError::NonExistingRead(_))));
    let bb = block(vec![
        inst(1, RegType::Int, InstructionType::Ldi(ImmI(0))),
        inst(2, RegType::Int, InstructionType::Div(RegReg(reg(0), reg(1)))),
    ]);
    assert!(matches!(it.run_basicblock(&bb), Err(InterpretError::InvalidOp(_))));
    let mut small = Interpret::new(IrProgram::default(), 4);
    let bb = block(vec![inst(0, RegType::Int, InstructionType::Alloca(ImmI(8)))]);
    assert!(matches!(small.run_basicblock(&bb), Err(InterpretError::OutOfBoundWrite)));
    assert!(matches!(run(IrProgram::default()), Err(InterpretError::Unknown)));
}

#[test]
fn memory_reads_least_significant_byte_first() {
    let m = Memory { stack_size: 2, stack: vec![9, 8], heap: vec![1, 1, 0, 0, 0, 0, 0, 0, 0xff] };
    assert_eq!(m.read_int(Value::Signed(2)).unwrap(), Value::Signed(257));
    assert_eq!(m.read_char(Value::Signed(1)).unwrap(), Value::Char(8));
    assert_eq!(m.read_char(Value::Char(10)).unwrap(), Value::Char(0xff));
    assert!(matches!(m.read_int(Value::Signed(4)), Err(InterpretError::OutOfBoundRead(_))));
    let mut m = Memory::new(16);
    assert_eq!(m.alloca(3).unwrap(), Value::Signed(0));
    assert_eq!(m.alloca(4).unwrap(), Value::Signed(3));
    assert_eq!(m.stack, vec![0; 7]);
    assert!(matches!(m.alloca(-1), Err(InterpretError::OutOfBoundWrite)));
}

#[test]
fn instructions_as_text() {
    assert_eq!(InstructionType::Ldi(ImmI(-5)).to_text(), "ldi -5");
    assert_eq!(InstructionType::Add(RegReg(reg(1), reg(2))).to_text(), "add %1 %2");
    assert_eq!(InstructionType::Branch(TerminatorBranch(reg(0), 1, 2)).to_text(), "branch %0 BB1 BB2");
    assert_eq!(InstructionType::Call(RegRegs(reg(3), vec![reg(1), reg(12)])).to_text(), "call %3 [%1%12]");
    assert_eq!(InstructionType::CallDirect(SymRegs("f".to_string(), vec![])).to_text(), "calldirect f []");
    assert_eq!(InstructionType::Jmp(TerminatorJump(10)).to_text(), "jmp BB10");
    assert_eq!(InstructionType::Retr(TerminatorReg(reg(0))).to_text(), "retr %0");
}

#[test]
fn assembly_as_text() {
    assert_eq!(AsmInstruction::Addi(Rd::Arch(1), Rd::Sp, -8).to_text(), "addi xx1, xsp, -8");
    assert_eq!(AsmInstruction::Ld(Rd::Ra, Rd::Sp, 16).to_text(), "ld xra, 16(xsp)");
    assert_eq!(AsmInstruction::Add(Rd::ArgReg(0), Rd::Zero, Rd::Ir(reg(4))).to_text(), "add xa0, xzero, xir=(4)");
    assert_eq!(
        emit_assembly(AsmProgram::default()),
        ".global _start\n_start:\n    call main\n    addi a7, zero, 93\n    ecall"
    );
    let mut p = AsmProgram::default();
    p.text.push(AsmFunction { name: "main".to_string(), blocks: vec![vec![AsmInstruction::Ret]] });
    assert_eq!(
        emit_assembly(p),
        ".global _start\n_start:\n    call main\n    addi a7, zero, 93\n    ecall\nmain:\n    ret"
    );
}

#[test]
fn possible_memory_follows_stores() {
    let mut fb = FunctionBuilder::new(0, RegType::Void);
    let a = fb.add(InstructionType::Alloca(ImmI(8)), RegType::Int);
    let v = fb.add(InstructionType::Ldi(ImmI(1)), RegType::Int);
    fb.add(InstructionType::St(RegReg(a, v)), RegType::Void);
    fb.add(InstructionType::Ret(Terminator), RegType::Void);
    let f = lib::middleend::ir::Function {
        name: "f".to_string(),
        arg_count: 0,
        ret_type: RegType::Void,
        blocks: fb.blocks,
    };
    let mut analysis = PossibleMemAnalysis::new(&f);
    assert_eq!(analysis.inner_lattice.map, vec![MemoryPlace(a)]);
    let facts = analysis.analyze();
    assert_eq!(facts[0].len(), 4);
    assert_eq!(facts[0][2], vec![vec![v]]);
    assert_eq!(facts[0][3], vec![vec![v]]);
}

#[test]
fn analyses_run_on_each_function() {
    let mut p = compile("int f() { return 1; } int main() { return 2; }").unwrap();
    let live = LiveRegisterAnalysis::new(&p.glob);
    let result = analyze_program(&p, live);
    assert_eq!(result.len(), 2);
    assert_eq!(result[0].0, "f");
    assert_eq!(result[1].0, "main");
    assert_eq!(result[1].1.len(), p.funcs[1].blocks.len());
    let text = p.funcs[0].display();
    create_phinodes(&mut p.funcs[0]);
    assert_eq!(p.funcs[0].display(), text);
}

#[test]
fn load_from_an_allocation_slot_uses_the_stack_pointer() {
    let mut fb = FunctionBuilder::new(0, RegType::Void);
    let _a0 = fb.add(InstructionType::Alloca(ImmI(16)), RegType::Int);
    let a1 = fb.add(InstructionType::Alloca(ImmI(8)), RegType::Int);
    let f = lib::middleend::ir::Function {
        name: "f".to_string(),
        arg_count: 0,
        ret_type: RegType::Void,
        blocks: fb.blocks,
    };
    let alloc = NaiveAllocator::new(&f);
    let mut block: Vec<AsmInstruction> = Vec::new();
    let added = AsmFunctionBuilder::patch_ir_register_inst(
        &alloc,
        AsmInstruction::Ld(Rd::Arch(5), Rd::Ir(a1), 8),
        &mut block,
        0,
    );
    assert_eq!(added, 0);
    assert_eq!(block, vec![AsmInstruction::Ld(Rd::Arch(5), Rd::Sp, 24)]);
}
