use rasm::assembler::Instr;
use rasm::assembler::assemble;
use rasm::assembler::assemble_source;
use rasm::errors::AsmError;
use rasm::errors::LexError;
use rasm::lexer::tokenize;
use rasm::symbols::SymbolTable;
use rasm::symbols::SymbolValue;
use rasm::symbols::build_symbols;
use rasm::token::Token;

fn assemble_text(source: &str) -> Result<Vec<Instr>, AsmError> {
    assemble_source(String::from(source))
}

#[test]
fn three_register_ops_decode_with_their_operands() {
    assert_eq!(assemble_text("add r0 r1 r2;"), Ok(vec![Instr::Add { src1: 0, src2: 1, dst: 2 }]));
    assert_eq!(assemble_text("sub r3 r4 r5;"), Ok(vec![Instr::Sub { src1: 3, src2: 4, dst: 5 }]));
    assert_eq!(assemble_text("and r1 r2 r3;"), Ok(vec![Instr::And { src1: 1, src2: 2, dst: 3 }]));
    assert_eq!(assemble_text("or r1 r2 r3;"), Ok(vec![Instr::Or { src1: 1, src2: 2, dst: 3 }]));
    assert_eq!(assemble_text("xor r1 r2 r3;"), Ok(vec![Instr::Xor { src1: 1, src2: 2, dst: 3 }]));
    assert_eq!(assemble_text("nor r1 r2 r3;"), Ok(vec![Instr::Nor { src1: 1, src2: 2, dst: 3 }]));
    assert_eq!(assemble_text("lsh r1 r2 r3;"), Ok(vec![Instr::ShiftLeft { src1: 1, src2: 2, dst: 3 }]));
    assert_eq!(assemble_text("rsh r1 r2 r3;"), Ok(vec![Instr::ShiftRight { src1: 1, src2: 2, dst: 3 }]));
}

#[test]
fn nop_halt_mov_ldi_decode() {
    assert_eq!(
        assemble_text("nop; ldi r7 42; mov r7 r8; halt;"),
        Ok(vec![
            Instr::Nop,
            Instr::LoadImmediate { reg: 7, value: 42 },
            Instr::Move { src: 7, dst: 8 },
            Instr::Halt,
        ])
    );
}

#[test]
fn load_and_store_take_memory_then_register() {
    assert_eq!(
        assemble_text("store m5 r1; load m5 r2;"),
        Ok(vec![Instr::Store { addr: 5, src: 1 }, Instr::Load { addr: 5, dst: 2 }])
    );
}

#[test]
fn memory_address_128_is_rejected() {
    assert_eq!(assemble_text("load m128 r0;"), Err(AsmError::MalformedInstruction));
    assert_eq!(assemble_text("store m127 r0;"), Ok(vec![Instr::Store { addr: 127, src: 0 }]));
}

#[test]
fn wrong_arity_is_malformed() {
    assert_eq!(assemble_text("add r0 r1;"), Err(AsmError::MalformedInstruction));
    assert_eq!(assemble_text("add r0 r1 r2 r3;"), Err(AsmError::MalformedInstruction));
    assert_eq!(assemble_text("nop r0;"), Err(AsmError::MalformedInstruction));
    assert_eq!(assemble_text("mov r0;"), Err(AsmError::MalformedInstruction));
    assert_eq!(assemble_text("ldi r0;"), Err(AsmError::MalformedInstruction));
}

#[test]
fn wrong_operand_kind_is_malformed() {
    assert_eq!(assemble_text("add r0 r1 7;"), Err(AsmError::MalformedInstruction));
    assert_eq!(assemble_text("jmp r0;"), Err(AsmError::MalformedInstruction));
    assert_eq!(assemble_text("load r0 r1;"), Err(AsmError::MalformedInstruction));
}

#[test]
fn define_substitutes_its_constant() {
    assert_eq!(
        assemble_text(".define FIVE 5\nldi r0 FIVE;"),
        Ok(vec![Instr::LoadImmediate { reg: 0, value: 5 }])
    );
}

#[test]
fn undefined_symbol_in_jmp_fails_assembly() {
    assert_eq!(assemble_text("jmp undefined_label;"), Err(AsmError::UndefinedSymbol));
}

#[test]
fn undefined_symbol_in_ldi_fails_assembly() {
    assert_eq!(assemble_text("ldi r0 MISSING;"), Err(AsmError::UndefinedSymbol));
}

#[test]
fn register_16_anywhere_fails_assembly_before_execution() {
    assert_eq!(assemble_text("nop; ldi r16 5; halt;"), Err(AsmError::Lexical(LexError::InvalidRegister)));
}

#[test]
fn number_overflow_fails_assembly() {
    assert_eq!(assemble_text("ldi r0 300;"), Err(AsmError::Lexical(LexError::NumberOverflow)));
}

#[test]
fn duplicate_define_is_rejected() {
    assert_eq!(assemble_text(".define A 1\n.define A 2\n"), Err(AsmError::DuplicateSymbol));
}

#[test]
fn duplicate_label_is_rejected() {
    assert_eq!(assemble_text("l: nop; l: halt;"), Err(AsmError::DuplicateSymbol));
}

#[test]
fn malformed_define_is_rejected() {
    assert_eq!(assemble_text(".define A"), Err(AsmError::MalformedInstruction));
    assert_eq!(assemble_text(".define 5 A"), Err(AsmError::MalformedInstruction));
}

#[test]
fn jmp_to_a_define_constant_is_malformed() {
    assert_eq!(assemble_text(".define FIVE 5\njmp FIVE;"), Err(AsmError::MalformedInstruction));
}

#[test]
fn ldi_of_a_label_is_malformed() {
    assert_eq!(assemble_text("l: ldi r0 l;"), Err(AsmError::MalformedInstruction));
}

#[test]
fn stray_operand_token_is_malformed() {
    assert_eq!(assemble_text("42;"), Err(AsmError::MalformedInstruction));
}

#[test]
fn forward_label_resolves_to_its_address() {
    assert_eq!(
        assemble_text("jmp skip; nop; skip: halt;"),
        Ok(vec![Instr::Jump { target: 2 }, Instr::Nop, Instr::Halt])
    );
}

#[test]
fn backward_label_resolves_to_its_address() {
    assert_eq!(
        assemble_text("nop; back: nop; jmp back; halt;"),
        Ok(vec![Instr::Nop, Instr::Nop, Instr::Jump { target: 1 }, Instr::Halt])
    );
}

#[test]
fn forward_and_backward_references_agree_on_the_address() {
    // The label sits after one instruction in both programs; the jump
    // target is 1 whether the label is defined after or before its use.
    let forward = assemble_text("jmp l; l: nop;").expect("should assemble");
    let backward = assemble_text("nop; l: jmp l;").expect("should assemble");
    assert_eq!(forward[0], Instr::Jump { target: 1 });
    assert_eq!(backward[1], Instr::Jump { target: 1 });
}

#[test]
fn comments_labels_and_defines_consume_no_address() {
    assert_eq!(
        assemble_text("# leading comment\n.define X 9\nstart: nop; # inline\njmp start;"),
        Ok(vec![Instr::Nop, Instr::Jump { target: 0 }])
    );
}

#[test]
fn one_instruction_per_line_in_source_order() {
    let prog = assemble_text("nop; ldi r0 1; mov r0 r1; add r0 r1 r2; halt;").expect("should assemble");
    assert_eq!(prog.len(), 5);
    assert!(matches!(prog[0], Instr::Nop));
    assert!(matches!(prog[1], Instr::LoadImmediate { .. }));
    assert!(matches!(prog[2], Instr::Move { .. }));
    assert!(matches!(prog[3], Instr::Add { .. }));
    assert!(matches!(prog[4], Instr::Halt));
}

#[test]
fn semicolons_are_optional_between_lines() {
    assert_eq!(assemble_text("nop\nhalt"), Ok(vec![Instr::Nop, Instr::Halt]));
}

#[test]
fn symbol_table_insert_rejects_duplicates() {
    let mut table = SymbolTable::new();
    assert_eq!(table.insert(String::from("a"), SymbolValue::Constant(1)), Ok(()));
    assert_eq!(
        table.insert(String::from("a"), SymbolValue::Address(3)),
        Err(AsmError::DuplicateSymbol)
    );
    assert_eq!(table.lookup("a"), Some(SymbolValue::Constant(1)));
    assert_eq!(table.lookup("b"), None);
}

#[test]
fn build_symbols_records_defines_and_label_addresses() {
    let tokens = tokenize(String::from(".define K 7\nnop; mid: nop; end: halt;"))
        .expect("should scan");
    let table = build_symbols(&tokens).expect("should build");
    assert_eq!(table.lookup("K"), Some(SymbolValue::Constant(7)));
    assert_eq!(table.lookup("mid"), Some(SymbolValue::Address(1)));
    assert_eq!(table.lookup("end"), Some(SymbolValue::Address(2)));
}

#[test]
fn assemble_accepts_a_token_vector() {
    let tokens = vec![Token::Instruction(rasm::token::Mnemonic::Nop), Token::Semicolon];
    assert_eq!(assemble(&tokens), Ok(vec![Instr::Nop]));
}

#[test]
fn define_may_follow_its_use() {
    // Symbols are collected over the whole program before resolution.
    assert_eq!(
        assemble_text("ldi r0 K; halt; .define K 9\n"),
        Ok(vec![Instr::LoadImmediate { reg: 0, value: 9 }, Instr::Halt])
    );
}

#[test]
fn label_at_the_end_points_past_the_last_instruction() {
    assert_eq!(
        assemble_text("jmp end; nop; end:"),
        Ok(vec![Instr::Jump { target: 2 }, Instr::Nop])
    );
}
