use rasm::assembler::Instr;
use rasm::errors::AsmError;
use rasm::errors::RuntimeFault;
use rasm::machine::ExecStatus;
use rasm::machine::MachineState;
use rasm::machine::run_source;

const STEPS: usize = 10_000;

fn run(source: &str) -> (MachineState, ExecStatus) {
    run_source(String::from(source), STEPS).expect("should assemble")
}

fn halted(source: &str) -> MachineState {
    let (state, status) = run(source);
    assert_eq!(status, ExecStatus::Halted);
    state
}

#[test]
fn addition_wraps_modulo_256() {
    // 250 + 10 = 260 = 4 mod 256.
    let state = halted("ldi r0 250; ldi r1 10; add r0 r1 r2; halt;");
    assert_eq!(state.register_value(2), 4);
}

#[test]
fn subtraction_wraps_modulo_256() {
    // 5 - 10 = -5 = 251 mod 256.
    let state = halted("ldi r0 5; ldi r1 10; sub r0 r1 r2; halt;");
    assert_eq!(state.register_value(2), 251);
}

#[test]
fn end_to_end_define_and_arithmetic() {
    let state = halted(".define FOO 5\nldi r0 FOO;\nldi r1 3;\nadd r0 r1 r2;\nhalt;");
    assert_eq!(state.register_value(0), 5);
    assert_eq!(state.register_value(1), 3);
    assert_eq!(state.register_value(2), 8);
    for i in 3..16 {
        assert_eq!(state.register_value(i), 0);
    }
    for i in 0..128 {
        assert_eq!(state.memory_value(i), 0);
    }
}

#[test]
fn nop_changes_nothing_but_the_program_counter() {
    let state = halted("nop; nop; nop; halt;");
    for i in 0..16 {
        assert_eq!(state.register_value(i), 0);
    }
    for i in 0..128 {
        assert_eq!(state.memory_value(i), 0);
    }
    assert_eq!(state.program_counter(), 3);
}

#[test]
fn mov_copies_between_registers() {
    let state = halted("ldi r3 77; mov r3 r9; halt;");
    assert_eq!(state.register_value(3), 77);
    assert_eq!(state.register_value(9), 77);
}

#[test]
fn bitwise_ops_compute_exact_values() {
    // 0b1100 = 12, 0b1010 = 10.
    let state = halted(
        "ldi r0 12; ldi r1 10;\n\
         and r0 r1 r2;\n\
         or r0 r1 r3;\n\
         xor r0 r1 r4;\n\
         nor r0 r1 r5;\n\
         halt;",
    );
    assert_eq!(state.register_value(2), 8);
    assert_eq!(state.register_value(3), 14);
    assert_eq!(state.register_value(4), 6);
    assert_eq!(state.register_value(5), 241); // !(12 | 10) = 255 - 14
}

#[test]
fn shifts_by_register_amount() {
    let state = halted("ldi r0 3; ldi r1 2; lsh r0 r1 r2; ldi r3 160; rsh r3 r1 r4; halt;");
    assert_eq!(state.register_value(2), 12); // 3 << 2
    assert_eq!(state.register_value(4), 40); // 160 >> 2
}

#[test]
fn shift_left_truncates_to_eight_bits() {
    let state = halted("ldi r0 129; ldi r1 1; lsh r0 r1 r2; halt;");
    assert_eq!(state.register_value(2), 2); // (129 << 1) mod 256
}

#[test]
fn shifts_of_eight_or_more_yield_zero() {
    let state = halted("ldi r0 255; ldi r1 8; lsh r0 r1 r2; rsh r0 r1 r3; halt;");
    assert_eq!(state.register_value(2), 0);
    assert_eq!(state.register_value(3), 0);
}

#[test]
fn store_then_load_round_trips_through_memory() {
    let state = halted("ldi r0 99; store m17 r0; load m17 r5; halt;");
    assert_eq!(state.memory_value(17), 99);
    assert_eq!(state.register_value(5), 99);
}

#[test]
fn jump_moves_the_program_counter() {
    // The jump skips the instruction that would overwrite r0.
    let state = halted("ldi r0 1; jmp end; ldi r0 2; end: halt;");
    assert_eq!(state.register_value(0), 1);
}

#[test]
fn running_off_the_end_faults_with_pc_out_of_range() {
    let (state, status) = run("nop;");
    assert_eq!(
        status,
        ExecStatus::Faulted { kind: RuntimeFault::ProgramCounterOutOfRange, at: 1 }
    );
    assert_eq!(state.program_counter(), 1);
}

#[test]
fn empty_program_faults_at_address_zero() {
    let (_, status) = run("# only a comment\n");
    assert_eq!(
        status,
        ExecStatus::Faulted { kind: RuntimeFault::ProgramCounterOutOfRange, at: 0 }
    );
}

#[test]
fn infinite_loop_exhausts_the_step_budget() {
    let (_, status) = run_source(String::from("spin: jmp spin;"), 50).expect("should assemble");
    assert_eq!(status, ExecStatus::Faulted { kind: RuntimeFault::StepLimitExceeded, at: 0 });
}

#[test]
fn faulted_state_keeps_completed_work() {
    // r0 is set before the program runs off the end.
    let (state, status) = run("ldi r0 11;");
    assert!(matches!(status, ExecStatus::Faulted { .. }));
    assert_eq!(state.register_value(0), 11);
}

#[test]
fn assembly_errors_stop_execution_before_it_begins() {
    let outcome = run_source(String::from("jmp nowhere;"), STEPS);
    assert!(matches!(outcome, Err(AsmError::UndefinedSymbol)));
}

#[test]
fn fresh_machine_is_zeroed() {
    let machine = MachineState::new();
    assert_eq!(machine.program_counter(), 0);
    for i in 0..16 {
        assert_eq!(machine.register_value(i), 0);
    }
    for i in 0..128 {
        assert_eq!(machine.memory_value(i), 0);
    }
}

#[test]
fn step_executes_one_instruction() {
    let mut machine = MachineState::new();
    machine.step(&Instr::LoadImmediate { reg: 4, value: 200 });
    assert_eq!(machine.register_value(4), 200);
    assert_eq!(machine.program_counter(), 1);
    machine.step(&Instr::Jump { target: 9 });
    assert_eq!(machine.program_counter(), 9);
}

#[test]
fn run_executes_a_decoded_program() {
    let prog = vec![
        Instr::LoadImmediate { reg: 0, value: 250 },
        Instr::LoadImmediate { reg: 1, value: 10 },
        Instr::Add { src1: 0, src2: 1, dst: 2 },
        Instr::Halt,
    ];
    let mut machine = MachineState::new();
    let status = machine.run(&prog, STEPS);
    assert_eq!(status, ExecStatus::Halted);
    assert_eq!(machine.register_value(2), 4);
}

#[test]
fn jumping_to_a_label_past_the_last_instruction_faults() {
    let (_, status) = run("jmp end; nop; end:");
    assert_eq!(
        status,
        ExecStatus::Faulted { kind: RuntimeFault::ProgramCounterOutOfRange, at: 2 }
    );
}
