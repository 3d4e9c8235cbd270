use lib::middleend::analysis::anderson::AndersenAnalysis;
use lib::middleend::analysis::cubicsolver::{Cell, CubicSolver, Place};
use lib::middleend::analysis::dataflow::DataFlowAnalysis;
use lib::middleend::analysis::lattice::{FlatElem, FlatLattice, Lattice, PowerSetLattice};
use lib::middleend::analysis::live::LiveRegisterAnalysis;
use lib::middleend::builder::{FunctionBuilder, IrBuilder, IrBuilderError};
use lib::middleend::inst::{ImmI, InstructionType, Reg, RegReg, Terminator, TerminatorJump, TerminatorReg};
use lib::middleend::ir::{InstStore, InstUUID, RegType, Register};

// for better writing
type I = InstructionType;

#[test]
fn correct_builder_api() {
    let mut builder = IrBuilder::default();
    let reg: Register = builder.add(I::Ldi(ImmI(5)), RegType::Int);
    builder.add(I::Ret(Terminator), RegType::Void);
    let mut fn_b = FunctionBuilder::new(0, RegType::Void);
    let bi = fn_b.create_bb();
    fn_b.add(I::Jmp(TerminatorJump(bi)), RegType::Void);
    fn_b.set_bb(bi);
    fn_b.add(I::Print(Reg(reg)), RegType::Void);
    fn_b.add(I::Ret(Terminator), RegType::Void);
    builder.add_fn(fn_b.create("main")).unwrap();
}

#[test]
fn it_works() {
    let result = lib::middleend::add(2, 2);
    assert_eq!(result, 4);
}

#[test]
fn builder_refuses_a_second_function_of_the_same_name() {
    let mut builder = IrBuilder::default();
    let f = FunctionBuilder::new(0, RegType::Void).create("f");
    let g = FunctionBuilder::new(1, RegType::Int).create("f");
    assert!(builder.add_fn(f).is_ok());
    assert_eq!(builder.add_fn(g), Err(IrBuilderError::FuncRedef));
    let prog = builder.create();
    assert_eq!(prog.funcs.len(), 1);
    assert_eq!(prog.glob.name, "global");
}

#[test]
fn builder_ids_are_places() {
    let mut builder = IrBuilder::default();
    assert_eq!(builder.add(I::Ldi(ImmI(1)), RegType::Int), InstUUID(true, 0, 0));
    assert_eq!(builder.add(I::Ldi(ImmI(2)), RegType::Int), InstUUID(true, 0, 1));
    let mut fb = FunctionBuilder::new(0, RegType::Void);
    let b1 = fb.create_bb();
    assert_eq!(b1, 1);
    fb.set_bb(b1);
    assert_eq!(fb.get_act_bb(), 1);
    assert_eq!(fb.add(I::Ret(Terminator), RegType::Void), InstUUID(false, 1, 0));
    assert!(fb.terminated());
    fb.set_predecesors(1, &[0]);
    assert_eq!(fb.blocks[1].pred(), vec![0]);
}

#[test]
fn rename_maps_the_registers_read() {
    let a = InstUUID(false, 0, 0);
    let b = InstUUID(false, 0, 1);
    let c = InstUUID(false, 0, 2);
    let mut inst = I::Add(RegReg(a, b));
    inst.rename_regs(&vec![(a, c)]);
    assert_eq!(inst.get_regs(), vec![c, b]);
    assert_eq!(inst, I::Add(RegReg(c, b)));
    let mut ret = I::Retr(TerminatorReg(b));
    ret.rename_regs(&vec![(b, a), (b, c)]);
    assert_eq!(ret.get_regs(), vec![a]);
    assert!(I::Jmp(TerminatorJump(0)).terminator());
    assert!(I::Exit(Terminator).terminator());
    assert!(!I::Add(RegReg(a, b)).terminator());
}

#[test]
fn store_gives_back_what_was_added() {
    let mut store = InstStore::default();
    let id = store.add_inst(I::Ldi(ImmI(7)), RegType::Int);
    assert_eq!(id, InstUUID(true, 0, 0));
    assert_eq!(store.get(id).data, I::Ldi(ImmI(7)));
    store.replace_inst(id, I::Ldi(ImmI(8)), RegType::Char);
    assert_eq!(store.get(id).data, I::Ldi(ImmI(8)));
    assert_eq!(store.get(id).reg_type, RegType::Char);
    assert_eq!(store.get_next_id(), InstUUID(true, 0, 1));
}

#[test]
fn flat_lattice_joins() {
    let l = FlatLattice::new();
    let r = InstUUID(false, 0, 0);
    let s = InstUUID(false, 0, 1);
    assert_eq!(l.lub(&FlatElem::Value(r), &FlatElem::Value(r)), FlatElem::Value(r));
    assert_eq!(l.lub(&FlatElem::Value(r), &FlatElem::Value(s)), FlatElem::Top);
    assert_eq!(l.lub(&FlatElem::Bot, &FlatElem::Value(s)), FlatElem::Value(s));
    assert_eq!(l.lub(&FlatElem::Top, &FlatElem::Bot), FlatElem::Top);
    let p = PowerSetLattice::new(vec![r, s]);
    assert_eq!(p.lub(&vec![r], &vec![s, r]), vec![r, s]);
    assert_eq!(p.top(), vec![r, s]);
    assert!(p.bot().is_empty());
}

#[test]
fn loads_of_stored_values_disappear() {
    let mut fb = FunctionBuilder::new(0, RegType::Int);
    let a = fb.add(I::Alloca(ImmI(8)), RegType::Int);
    let v = fb.add(I::Ldi(ImmI(5)), RegType::Int);
    fb.add(I::St(RegReg(a, v)), RegType::Void);
    let l = fb.add(I::Ld(Reg(a)), RegType::Int);
    fb.add(I::Retr(TerminatorReg(l)), RegType::Void);
    let f = fb.create("f");
    assert_eq!(f.blocks.len(), 1);
    let insts: Vec<I> = f.blocks[0].instruction.iter().map(|i| match &i.data {
        I::Ldi(x) => I::Ldi(*x),
        I::Retr(x) => I::Retr(*x),
        _ => I::Exit(Terminator),
    }).collect();
    assert_eq!(insts, vec![I::Ldi(ImmI(5)), I::Retr(TerminatorReg(v))]);
}

#[test]
fn liveness_of_a_straight_function() {
    let mut fb = FunctionBuilder::new(0, RegType::Int);
    let v = fb.add(I::Ldi(ImmI(5)), RegType::Int);
    fb.add(I::Retr(TerminatorReg(v)), RegType::Void);
    let f = fb.create("f");
    let mut live = LiveRegisterAnalysis::new(&f);
    let state = live.analyze();
    assert_eq!(state.len(), 1);
    assert_eq!(state[0][1], vec![v]);
    assert!(state[0][0].is_empty());
}

#[test]
fn solver_propagates_along_edges() {
    let r = InstUUID(false, 0, 0);
    let s = InstUUID(false, 0, 1);
    let mut solver = CubicSolver::new();
    solver.includes(Cell::Alloc(r), Place::Register(r));
    solver.add_edge(Place::Register(r), Place::Register(s));
    solver.propagate();
    let sol = solver.solution();
    let of_s: Vec<Cell> = sol.iter().filter(|x| x.0 == Place::Register(s)).map(|x| x.1.clone()).next().unwrap();
    assert_eq!(of_s, vec![Cell::Alloc(r)]);
}

#[test]
fn points_to_of_an_allocation() {
    let mut fb = FunctionBuilder::new(0, RegType::Void);
    let a = fb.add(I::Alloca(ImmI(8)), RegType::Int);
    let m = fb.add(I::Mov(Reg(a)), RegType::Int);
    fb.add(I::Ret(Terminator), RegType::Void);
    let f = lib::middleend::ir::Function { name: "f".to_string(), arg_count: 0, ret_type: RegType::Void, blocks: fb.blocks };
    let mut an = AndersenAnalysis::new(&f);
    let res = an.analyze();
    let of_m: Vec<Cell> = res.iter().filter(|x| x.0 == m).map(|x| x.1.clone()).next().unwrap();
    assert_eq!(of_m, vec![Cell::Alloc(a)]);
}

#[test]
fn argument_registers_point_to_volatile_memory() {
    let mut fb = FunctionBuilder::new(1, RegType::Int);
    let x = fb.add(I::Arg(ImmI(0)), RegType::Int);
    let a = fb.add(I::Alloca(ImmI(8)), RegType::Int);
    fb.add(I::Ret(Terminator), RegType::Void);
    let f = lib::middleend::ir::Function { name: "f".to_string(), arg_count: 1, ret_type: RegType::Int, blocks: fb.blocks };
    let mut an = AndersenAnalysis::new(&f);
    let res = an.analyze();
    let of_x: Vec<Cell> = res.iter().filter(|e| e.0 == x).map(|e| e.1.clone()).next().unwrap();
    assert_eq!(of_x, vec![Cell::Volatile]);
    for (_, cells) in res.iter() {
        for c in cells.iter() {
            assert!(*c == Cell::Volatile || *c == Cell::Alloc(a));
        }
    }
}

#[test]
fn solver_adding_a_token_twice_changes_nothing() {
    let r = InstUUID(false, 0, 0);
    let s = InstUUID(false, 0, 1);
    let mut solver = CubicSolver::new();
    solver.includes(Cell::Alloc(r), Place::Register(r));
    solver.add_edge(Place::Register(r), Place::Register(s));
    solver.propagate();
    let before = solver.solution();
    let mut again = CubicSolver::new();
    again.includes(Cell::Alloc(r), Place::Register(r));
    again.add_edge(Place::Register(r), Place::Register(s));
    again.propagate();
    again.add_token(Cell::Alloc(r), Place::Register(r));
    again.add_edge(Place::Register(r), Place::Register(s));
    again.propagate();
    assert_eq!(again.solution(), before);
}

#[test]
fn solver_holds_only_tokens_that_were_placed() {
    let r = InstUUID(false, 0, 0);
    let s = InstUUID(false, 0, 1);
    let t = InstUUID(false, 0, 2);
    let mut solver = CubicSolver::new();
    solver.includes(Cell::Alloc(r), Place::Register(r));
    solver.includes_implies(Cell::Alloc(t), Place::Memory(r), Place::Register(s), Place::Memory(t));
    solver.add_edge(Place::Register(r), Place::Register(s));
    solver.propagate();
    for (_, cells) in solver.solution().iter() {
        for c in cells.iter() {
            assert_eq!(*c, Cell::Alloc(r));
        }
    }
}

#[test]
fn create_keeps_prints_and_terminators() {
    let mut fb = FunctionBuilder::new(0, RegType::Void);
    let a = fb.add(I::Alloca(ImmI(8)), RegType::Int);
    let v = fb.add(I::Ldi(ImmI(3)), RegType::Int);
    fb.add(I::St(RegReg(a, v)), RegType::Void);
    let l = fb.add(I::Ld(Reg(a)), RegType::Int);
    let p = fb.add(I::Print(Reg(l)), RegType::Void);
    let r = fb.add(I::Ret(Terminator), RegType::Void);
    let f = fb.create("f");
    let ids: Vec<InstUUID> = f.blocks[0].instruction.iter().map(|i| i.id).collect();
    assert!(ids.contains(&p));
    assert!(ids.contains(&r));
    assert!(ids.len() <= 6);
    let _ = l;
}
