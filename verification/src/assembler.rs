//! The resolver: walks the token sequence with the symbol table and emits
//! the decoded instruction sequence. Every operand is range-checked here,
//! so a decoded instruction never holds a register index of 16 or more, a
//! memory address of 128 or more, or an unresolved symbol.

use vstd::prelude::*;

use crate::errors::AsmError;
use crate::errors::LexError;
use crate::lexer::tokenize;
use crate::lexer::tokens_from;
use crate::symbols::SymbolTable;
use crate::symbols::SymbolValue;
use crate::symbols::build_symbols;
use crate::symbols::build_symbols_spec;
use crate::symbols::lookup_spec;
use crate::token::Mnemonic;
use crate::token::Token;
use crate::token::TokenV;
use crate::token::all_digits;
use crate::token::all_digits_range;
use crate::token::digits_value;
use crate::token::parse_decimal;
use crate::token::tokens_view;

verus! {

/// The symbol table's mathematical shape.
pub type SymbolsV = Seq<(Seq<char>, SymbolValue)>;

/// A decoded operation: every operand already resolved and range-checked.
#[derive(Debug, Clone, Copy, PartialEq, Eq, Structural)]
pub enum Instr {
    Nop,
    Halt,
    LoadImmediate { reg: u8, value: u8 },
    Move { src: u8, dst: u8 },
    Add { src1: u8, src2: u8, dst: u8 },
    Sub { src1: u8, src2: u8, dst: u8 },
    And { src1: u8, src2: u8, dst: u8 },
    Or { src1: u8, src2: u8, dst: u8 },
    Xor { src1: u8, src2: u8, dst: u8 },
    Nor { src1: u8, src2: u8, dst: u8 },
    ShiftLeft { src1: u8, src2: u8, dst: u8 },
    ShiftRight { src1: u8, src2: u8, dst: u8 },
    Load { addr: u8, dst: u8 },
    Store { addr: u8, src: u8 },
    Jump { target: usize },
}

/// Every register index is below 16 and every memory address below 128.
pub open spec fn instr_wf(ins: Instr) -> bool {
    match ins {
        Instr::Nop => true,
        Instr::Halt => true,
        Instr::LoadImmediate { reg, value } => reg < 16,
        Instr::Move { src, dst } => src < 16 && dst < 16,
        Instr::Add { src1, src2, dst } => src1 < 16 && src2 < 16 && dst < 16,
        Instr::Sub { src1, src2, dst } => src1 < 16 && src2 < 16 && dst < 16,
        Instr::And { src1, src2, dst } => src1 < 16 && src2 < 16 && dst < 16,
        Instr::Or { src1, src2, dst } => src1 < 16 && src2 < 16 && dst < 16,
        Instr::Xor { src1, src2, dst } => src1 < 16 && src2 < 16 && dst < 16,
        Instr::Nor { src1, src2, dst } => src1 < 16 && src2 < 16 && dst < 16,
        Instr::ShiftLeft { src1, src2, dst } => src1 < 16 && src2 < 16 && dst < 16,
        Instr::ShiftRight { src1, src2, dst } => src1 < 16 && src2 < 16 && dst < 16,
        Instr::Load { addr, dst } => addr < 128 && dst < 16,
        Instr::Store { addr, src } => addr < 128 && src < 16,
        Instr::Jump { target } => true,
    }
}

// ---------------------------------------------------------------------------
// Operands
// ---------------------------------------------------------------------------

/// The register index an operand token carries, if it is a register one.
pub open spec fn spec_reg_operand(t: TokenV) -> Option<u8> {
    match t {
        TokenV::Register(r) => if r < 16 {
            Some(r)
        } else {
            None
        },
        _ => None,
    }
}

fn reg_operand(t: &Token) -> (r: Option<u8>)
    ensures
        r == spec_reg_operand(t@),
{
    match t {
        Token::Register(r) => {
            if *r < 16 {
                Some(*r)
            } else {
                None
            }
        },
        _ => None,
    }
}

/// Memory-operand shape: `m` followed by decimal digits.
pub open spec fn is_mem_text(s: Seq<char>) -> bool {
    s.len() >= 2 && s[0] == 'm' && all_digits(s.subrange(1, s.len() as int))
}

/// The memory address a piece of text names: `mN` with N below 128.
pub open spec fn spec_mem_operand(s: Seq<char>) -> Option<u8> {
    if is_mem_text(s) && digits_value(s.subrange(1, s.len() as int)) < 128 {
        Some(digits_value(s.subrange(1, s.len() as int)) as u8)
    } else {
        None
    }
}

fn mem_operand(name: &String) -> (r: Option<u8>)
    ensures
        r == spec_mem_operand(name@),
{
    let n = name.as_str().unicode_len();
    if n >= 2 && name.as_str().get_char(0) == 'm' && all_digits_range(name.as_str(), 1, n) {
        match parse_decimal(name.as_str(), 1, n) {
            Some(v) => {
                if v < 128 {
                    Some(v)
                } else {
                    None
                }
            },
            None => None,
        }
    } else {
        None
    }
}

/// Tokens that may stand as operands after a mnemonic.
pub open spec fn is_operand_token(t: TokenV) -> bool {
    t is Register || t is Number || t is Identifier
}

fn operand_token(t: &Token) -> (r: bool)
    ensures
        r == is_operand_token(t@),
{
    match t {
        Token::Register(_) => true,
        Token::Number(_) => true,
        Token::Identifier(_) => true,
        _ => false,
    }
}

/// First position at or after `pos` whose token is not an operand one.
pub open spec fn operands_end(toks: Seq<TokenV>, pos: nat) -> nat
    decreases toks.len() - pos,
{
    if pos >= toks.len() {
        pos
    } else if is_operand_token(toks[pos as int]) {
        operands_end(toks, pos + 1)
    } else {
        pos
    }
}

/// `operands_end` stays within the sequence and does not move backwards.
pub proof fn lemma_operands_end_bounds(toks: Seq<TokenV>, pos: nat)
    requires
        pos <= toks.len(),
    ensures
        pos <= operands_end(toks, pos) <= toks.len(),
    decreases toks.len() - pos,
{
    if pos < toks.len() && is_operand_token(toks[pos as int]) {
        lemma_operands_end_bounds(toks, pos + 1);
    }
}

/// Everything before `operands_end` is an operand token.
pub proof fn lemma_operands_end_operands(toks: Seq<TokenV>, pos: nat)
    requires
        pos <= toks.len(),
    ensures
        forall|k: int|
            pos <= k < operands_end(toks, pos) ==> is_operand_token(#[trigger] toks[k]),
    decreases toks.len() - pos,
{
    if pos < toks.len() && is_operand_token(toks[pos as int]) {
        lemma_operands_end_operands(toks, pos + 1);
    }
}

// ---------------------------------------------------------------------------
// Decoding one instruction line
// ---------------------------------------------------------------------------

/// The three-register operation a mnemonic stands for.
pub open spec fn spec_alu_instr(m: Mnemonic, a: u8, b: u8, d: u8) -> Instr {
    match m {
        Mnemonic::Add => Instr::Add { src1: a, src2: b, dst: d },
        Mnemonic::Sub => Instr::Sub { src1: a, src2: b, dst: d },
        Mnemonic::And => Instr::And { src1: a, src2: b, dst: d },
        Mnemonic::Or => Instr::Or { src1: a, src2: b, dst: d },
        Mnemonic::Xor => Instr::Xor { src1: a, src2: b, dst: d },
        Mnemonic::Nor => Instr::Nor { src1: a, src2: b, dst: d },
        Mnemonic::Lsh => Instr::ShiftLeft { src1: a, src2: b, dst: d },
        Mnemonic::Rsh => Instr::ShiftRight { src1: a, src2: b, dst: d },
        _ => Instr::Nop,
    }
}

/// Decodes one instruction line: the mnemonic and its operand tokens.
/// Arity and operand kinds are mnemonic-specific; an identifier operand
/// is resolved through the symbol table, and an unresolved one is fatal.
pub open spec fn decode_line(m: Mnemonic, ops: Seq<TokenV>, tab: SymbolsV) -> Result<
    Instr,
    AsmError,
> {
    match m {
        Mnemonic::Nop => if ops.len() == 0 {
            Ok(Instr::Nop)
        } else {
            Err(AsmError::MalformedInstruction)
        },
        Mnemonic::Halt => if ops.len() == 0 {
            Ok(Instr::Halt)
        } else {
            Err(AsmError::MalformedInstruction)
        },
        Mnemonic::Ldi => if ops.len() == 2 && spec_reg_operand(ops[0]) is Some {
            match ops[1] {
                TokenV::Number(v) => Ok(
                    Instr::LoadImmediate { reg: spec_reg_operand(ops[0])->Some_0, value: v },
                ),
                TokenV::Identifier(name) => match lookup_spec(tab, name) {
                    Some(SymbolValue::Constant(v)) => Ok(
                        Instr::LoadImmediate { reg: spec_reg_operand(ops[0])->Some_0, value: v },
                    ),
                    Some(SymbolValue::Address(_)) => Err(AsmError::MalformedInstruction),
                    None => Err(AsmError::UndefinedSymbol),
                },
                _ => Err(AsmError::MalformedInstruction),
            }
        } else {
            Err(AsmError::MalformedInstruction)
        },
        Mnemonic::Mov => if ops.len() == 2 && spec_reg_operand(ops[0]) is Some && spec_reg_operand(
            ops[1],
        ) is Some {
            Ok(
                Instr::Move {
                    src: spec_reg_operand(ops[0])->Some_0,
                    dst: spec_reg_operand(ops[1])->Some_0,
                },
            )
        } else {
            Err(AsmError::MalformedInstruction)
        },
        Mnemonic::Jmp => if ops.len() == 1 {
            match ops[0] {
                TokenV::Identifier(name) => match lookup_spec(tab, name) {
                    Some(SymbolValue::Address(a)) => Ok(Instr::Jump { target: a }),
                    Some(SymbolValue::Constant(_)) => Err(AsmError::MalformedInstruction),
                    None => Err(AsmError::UndefinedSymbol),
                },
                _ => Err(AsmError::MalformedInstruction),
            }
        } else {
            Err(AsmError::MalformedInstruction)
        },
        Mnemonic::Load => if ops.len() == 2 && ops[0] is Identifier && spec_mem_operand(
            ops[0]->Identifier_0,
        ) is Some && spec_reg_operand(ops[1]) is Some {
            Ok(
                Instr::Load {
                    addr: spec_mem_operand(ops[0]->Identifier_0)->Some_0,
                    dst: spec_reg_operand(ops[1])->Some_0,
                },
            )
        } else {
            Err(AsmError::MalformedInstruction)
        },
        Mnemonic::Store => if ops.len() == 2 && ops[0] is Identifier && spec_mem_operand(
            ops[0]->Identifier_0,
        ) is Some && spec_reg_operand(ops[1]) is Some {
            Ok(
                Instr::Store {
                    addr: spec_mem_operand(ops[0]->Identifier_0)->Some_0,
                    src: spec_reg_operand(ops[1])->Some_0,
                },
            )
        } else {
            Err(AsmError::MalformedInstruction)
        },
        _ => if ops.len() == 3 && spec_reg_operand(ops[0]) is Some && spec_reg_operand(
            ops[1],
        ) is Some && spec_reg_operand(ops[2]) is Some {
            Ok(
                spec_alu_instr(
                    m,
                    spec_reg_operand(ops[0])->Some_0,
                    spec_reg_operand(ops[1])->Some_0,
                    spec_reg_operand(ops[2])->Some_0,
                ),
            )
        } else {
            Err(AsmError::MalformedInstruction)
        },
    }
}

/// A decoded instruction is well-formed by construction.
pub proof fn lemma_decode_wf(m: Mnemonic, ops: Seq<TokenV>, tab: SymbolsV)
    ensures
        decode_line(m, ops, tab) is Ok ==> instr_wf(decode_line(m, ops, tab)->Ok_0),
{
}

fn alu_instr(m: Mnemonic, a: u8, b: u8, d: u8) -> (r: Instr)
    requires
        m is Add || m is Sub || m is And || m is Or || m is Xor || m is Nor || m is Lsh
            || m is Rsh,
    ensures
        r == spec_alu_instr(m, a, b, d),
{
    match m {
        Mnemonic::Add => Instr::Add { src1: a, src2: b, dst: d },
        Mnemonic::Sub => Instr::Sub { src1: a, src2: b, dst: d },
        Mnemonic::And => Instr::And { src1: a, src2: b, dst: d },
        Mnemonic::Or => Instr::Or { src1: a, src2: b, dst: d },
        Mnemonic::Xor => Instr::Xor { src1: a, src2: b, dst: d },
        Mnemonic::Nor => Instr::Nor { src1: a, src2: b, dst: d },
        Mnemonic::Lsh => Instr::ShiftLeft { src1: a, src2: b, dst: d },
        _ => Instr::ShiftRight { src1: a, src2: b, dst: d },
    }
}

/// Decodes the instruction line whose operand tokens stand at
/// `start..end` of the token sequence.
fn decode_instruction(
    m: Mnemonic,
    tokens: &Vec<Token>,
    start: usize,
    end: usize,
    table: &SymbolTable,
) -> (r: Result<Instr, AsmError>)
    requires
        start <= end <= tokens@.len(),
    ensures
        ({
            let d = decode_line(m, tokens_view(tokens@).subrange(start as int, end as int), table@);
            match r {
                Ok(ins) => d == Ok::<Instr, AsmError>(ins),
                Err(e) => d == Err::<Instr, AsmError>(e),
            }
        }),
{
    let ghost ops = tokens_view(tokens@).subrange(start as int, end as int);
    let count = end - start;
    proof {
        assert forall|k: int| 0 <= k < count implies ops[k] == tokens@[start + k]@ by {}
    }
    match m {
        Mnemonic::Nop => {
            if count == 0 {
                Ok(Instr::Nop)
            } else {
                Err(AsmError::MalformedInstruction)
            }
        },
        Mnemonic::Halt => {
            if count == 0 {
                Ok(Instr::Halt)
            } else {
                Err(AsmError::MalformedInstruction)
            }
        },
        Mnemonic::Ldi => {
            if count != 2 {
                return Err(AsmError::MalformedInstruction);
            }
            let reg = match reg_operand(&tokens[start]) {
                Some(r) => r,
                None => {
                    return Err(AsmError::MalformedInstruction);
                },
            };
            match &tokens[start + 1] {
                Token::Number(v) => Ok(Instr::LoadImmediate { reg, value: *v }),
                Token::Identifier(name) => match table.lookup(name.as_str()) {
                    Some(SymbolValue::Constant(v)) => Ok(Instr::LoadImmediate { reg, value: v }),
                    Some(SymbolValue::Address(_)) => Err(AsmError::MalformedInstruction),
                    None => Err(AsmError::UndefinedSymbol),
                },
                _ => Err(AsmError::MalformedInstruction),
            }
        },
        Mnemonic::Mov => {
            if count != 2 {
                return Err(AsmError::MalformedInstruction);
            }
            match (reg_operand(&tokens[start]), reg_operand(&tokens[start + 1])) {
                (Some(src), Some(dst)) => Ok(Instr::Move { src, dst }),
                _ => Err(AsmError::MalformedInstruction),
            }
        },
        Mnemonic::Jmp => {
            if count != 1 {
                return Err(AsmError::MalformedInstruction);
            }
            match &tokens[start] {
                Token::Identifier(name) => match table.lookup(name.as_str()) {
                    Some(SymbolValue::Address(a)) => Ok(Instr::Jump { target: a }),
                    Some(SymbolValue::Constant(_)) => Err(AsmError::MalformedInstruction),
                    None => Err(AsmError::UndefinedSymbol),
                },
                _ => Err(AsmError::MalformedInstruction),
            }
        },
        Mnemonic::Load => {
            if count != 2 {
                return Err(AsmError::MalformedInstruction);
            }
            match (&tokens[start], reg_operand(&tokens[start + 1])) {
                (Token::Identifier(name), Some(dst)) => match mem_operand(name) {
                    Some(addr) => Ok(Instr::Load { addr, dst }),
                    None => Err(AsmError::MalformedInstruction),
                },
                _ => Err(AsmError::MalformedInstruction),
            }
        },
        Mnemonic::Store => {
            if count != 2 {
                return Err(AsmError::MalformedInstruction);
            }
            match (&tokens[start], reg_operand(&tokens[start + 1])) {
                (Token::Identifier(name), Some(src)) => match mem_operand(name) {
                    Some(addr) => Ok(Instr::Store { addr, src }),
                    None => Err(AsmError::MalformedInstruction),
                },
                _ => Err(AsmError::MalformedInstruction),
            }
        },
        _ => {
            if count != 3 {
                return Err(AsmError::MalformedInstruction);
            }
            match (
                reg_operand(&tokens[start]),
                reg_operand(&tokens[start + 1]),
                reg_operand(&tokens[start + 2]),
            ) {
                (Some(a), Some(b), Some(d)) => Ok(alu_instr(m, a, b, d)),
                _ => Err(AsmError::MalformedInstruction),
            }
        },
    }
}

// ---------------------------------------------------------------------------
// Resolving the whole sequence
// ---------------------------------------------------------------------------

/// The resolver from token `i` on: comments, separators and label markers
/// take no space; a `.define` and its two arguments are skipped (the
/// symbol pass has bound them); a mnemonic opens a line whose operands
/// run to the next non-operand token; any other token is out of place.
pub open spec fn resolve_from(toks: Seq<TokenV>, tab: SymbolsV, i: nat) -> Result<
    Seq<Instr>,
    AsmError,
>
    decreases toks.len() - i,
    via resolve_from_decreases
{
    if i >= toks.len() {
        Ok(Seq::empty())
    } else {
        match toks[i as int] {
            TokenV::Comment(_) => resolve_from(toks, tab, i + 1),
            TokenV::Semicolon => resolve_from(toks, tab, i + 1),
            TokenV::Label(_) => resolve_from(toks, tab, i + 1),
            TokenV::Define => {
                if i + 2 < toks.len() && toks[i + 1 as int] is Identifier && toks[
                    i + 2 as int
                ] is Number {
                    resolve_from(toks, tab, i + 3)
                } else {
                    Err(AsmError::MalformedInstruction)
                }
            },
            TokenV::Instruction(m) => {
                let e = operands_end(toks, i + 1);
                match decode_line(m, toks.subrange(i + 1 as int, e as int), tab) {
                    Err(err) => Err(err),
                    Ok(ins) => match resolve_from(toks, tab, e) {
                        Err(err) => Err(err),
                        Ok(rest) => Ok(seq![ins] + rest),
                    },
                }
            },
            _ => Err(AsmError::MalformedInstruction),
        }
    }
}

#[via_fn]
proof fn resolve_from_decreases(toks: Seq<TokenV>, tab: SymbolsV, i: nat) {
    if i < toks.len() {
        lemma_operands_end_bounds(toks, i + 1);
    }
}

/// Every instruction a successful resolution emits is well-formed.
pub proof fn lemma_resolve_wf(toks: Seq<TokenV>, tab: SymbolsV, i: nat)
    requires
        resolve_from(toks, tab, i) is Ok,
    ensures
        forall|k: int|
            0 <= k < resolve_from(toks, tab, i)->Ok_0.len() ==> instr_wf(
                #[trigger] resolve_from(toks, tab, i)->Ok_0[k],
            ),
    decreases toks.len() - i,
{
    if i >= toks.len() {
    } else {
        match toks[i as int] {
            TokenV::Comment(_) => lemma_resolve_wf(toks, tab, i + 1),
            TokenV::Semicolon => lemma_resolve_wf(toks, tab, i + 1),
            TokenV::Label(_) => lemma_resolve_wf(toks, tab, i + 1),
            TokenV::Define => {
                if i + 2 < toks.len() && toks[i + 1 as int] is Identifier && toks[
                    i + 2 as int
                ] is Number {
                    lemma_resolve_wf(toks, tab, i + 3);
                }
            },
            TokenV::Instruction(m) => {
                let e = operands_end(toks, i + 1);
                lemma_operands_end_bounds(toks, i + 1);
                lemma_decode_wf(m, toks.subrange(i + 1 as int, e as int), tab);
                if resolve_from(toks, tab, e) is Ok {
                    lemma_resolve_wf(toks, tab, e);
                }
            },
            _ => {},
        }
    }
}

// ---------------------------------------------------------------------------
// One instruction per instruction line
// ---------------------------------------------------------------------------

/// The mnemonics of the instruction tokens of a sequence, in order.
pub open spec fn mnemonics_of(toks: Seq<TokenV>) -> Seq<Mnemonic>
    decreases toks.len(),
{
    if toks.len() == 0 {
        Seq::empty()
    } else if toks[0] is Instruction {
        seq![toks[0]->Instruction_0] + mnemonics_of(toks.drop_first())
    } else {
        mnemonics_of(toks.drop_first())
    }
}

/// The mnemonic a decoded instruction came from.
pub open spec fn instr_mnemonic(ins: Instr) -> Mnemonic {
    match ins {
        Instr::Nop => Mnemonic::Nop,
        Instr::Halt => Mnemonic::Halt,
        Instr::LoadImmediate { .. } => Mnemonic::Ldi,
        Instr::Move { .. } => Mnemonic::Mov,
        Instr::Add { .. } => Mnemonic::Add,
        Instr::Sub { .. } => Mnemonic::Sub,
        Instr::And { .. } => Mnemonic::And,
        Instr::Or { .. } => Mnemonic::Or,
        Instr::Xor { .. } => Mnemonic::Xor,
        Instr::Nor { .. } => Mnemonic::Nor,
        Instr::ShiftLeft { .. } => Mnemonic::Lsh,
        Instr::ShiftRight { .. } => Mnemonic::Rsh,
        Instr::Load { .. } => Mnemonic::Load,
        Instr::Store { .. } => Mnemonic::Store,
        Instr::Jump { .. } => Mnemonic::Jmp,
    }
}

/// The mnemonics of an emitted instruction sequence, in order.
pub open spec fn mnemonics_emitted(instrs: Seq<Instr>) -> Seq<Mnemonic> {
    instrs.map_values(|ins: Instr| instr_mnemonic(ins))
}

/// A stretch without instruction tokens contributes no mnemonic.
proof fn lemma_mnemonics_skip(toks: Seq<TokenV>, a: int, b: int)
    requires
        0 <= a <= b <= toks.len(),
        forall|k: int| a <= k < b ==> !(#[trigger] toks[k] is Instruction),
    ensures
        mnemonics_of(toks.subrange(a, toks.len() as int)) == mnemonics_of(
            toks.subrange(b, toks.len() as int),
        ),
    decreases b - a,
{
    if a < b {
        assert(toks.subrange(a, toks.len() as int)[0] == toks[a]);
        assert(toks.subrange(a, toks.len() as int).drop_first() =~= toks.subrange(
            a + 1,
            toks.len() as int,
        ));
        lemma_mnemonics_skip(toks, a + 1, b);
    }
}

/// A successfully decoded line carries its own mnemonic.
proof fn lemma_decode_mnemonic(m: Mnemonic, ops: Seq<TokenV>, tab: SymbolsV)
    ensures
        decode_line(m, ops, tab) is Ok ==> instr_mnemonic(decode_line(m, ops, tab)->Ok_0) == m,
{
}

/// Successful resolution emits exactly one instruction per instruction
/// line, in source order: the mnemonics of the output are exactly the
/// mnemonics of the instruction tokens, whatever operands, comments,
/// separators, `.define`s and labels stand around them. Assembly of a
/// program without symbol constructs is thus a function of its token
/// sequence alone, order-preserving and one instruction per line.
pub proof fn lemma_one_instruction_per_line(toks: Seq<TokenV>, tab: SymbolsV, i: nat)
    requires
        i <= toks.len(),
        resolve_from(toks, tab, i) is Ok,
    ensures
        mnemonics_emitted(resolve_from(toks, tab, i)->Ok_0) == mnemonics_of(
            toks.subrange(i as int, toks.len() as int),
        ),
    decreases toks.len() - i,
{
    let len = toks.len() as int;
    if i >= toks.len() {
        assert(toks.subrange(i as int, len).len() == 0);
        assert(mnemonics_emitted(resolve_from(toks, tab, i)->Ok_0) =~= Seq::<Mnemonic>::empty());
    } else {
        assert(toks.subrange(i as int, len)[0] == toks[i as int]);
        assert(toks.subrange(i as int, len).drop_first() =~= toks.subrange(i as int + 1, len));
        match toks[i as int] {
            TokenV::Comment(_) => lemma_one_instruction_per_line(toks, tab, i + 1),
            TokenV::Semicolon => lemma_one_instruction_per_line(toks, tab, i + 1),
            TokenV::Label(_) => lemma_one_instruction_per_line(toks, tab, i + 1),
            TokenV::Define => {
                assert(toks.subrange(i as int + 1, len)[0] == toks[i as int + 1]);
                assert(toks.subrange(i as int + 1, len).drop_first() =~= toks.subrange(
                    i as int + 2,
                    len,
                ));
                assert(toks.subrange(i as int + 2, len)[0] == toks[i as int + 2]);
                assert(toks.subrange(i as int + 2, len).drop_first() =~= toks.subrange(
                    i as int + 3,
                    len,
                ));
                lemma_one_instruction_per_line(toks, tab, i + 3);
                assert(mnemonics_of(toks.subrange(i as int, len)) == mnemonics_of(
                    toks.subrange(i as int + 1, len),
                ));
                assert(mnemonics_of(toks.subrange(i as int + 1, len)) == mnemonics_of(
                    toks.subrange(i as int + 2, len),
                ));
                assert(mnemonics_of(toks.subrange(i as int + 2, len)) == mnemonics_of(
                    toks.subrange(i as int + 3, len),
                ));
            },
            TokenV::Instruction(m) => {
                let e = operands_end(toks, i + 1);
                lemma_operands_end_bounds(toks, i + 1);
                lemma_operands_end_operands(toks, i + 1);
                lemma_decode_mnemonic(m, toks.subrange(i as int + 1, e as int), tab);
                lemma_mnemonics_skip(toks, i as int + 1, e as int);
                lemma_one_instruction_per_line(toks, tab, e);
                let ins = decode_line(m, toks.subrange(i as int + 1, e as int), tab)->Ok_0;
                let rest = resolve_from(toks, tab, e)->Ok_0;
                assert(mnemonics_emitted(seq![ins] + rest) =~= seq![m] + mnemonics_emitted(rest));
            },
            _ => {},
        }
    }
}

/// The assembly of a token sequence: the symbol pass, then the resolver.
pub open spec fn assemble_spec(toks: Seq<TokenV>) -> Result<Seq<Instr>, AsmError> {
    match build_symbols_spec(toks) {
        Err(e) => Err(e),
        Ok(tab) => resolve_from(toks, tab, 0),
    }
}

/// Assembles a token sequence into its instruction sequence.
pub fn assemble(tokens: &Vec<Token>) -> (r: Result<Vec<Instr>, AsmError>)
    ensures
        match r {
            Ok(v) => assemble_spec(tokens_view(tokens@)) == Ok::<Seq<Instr>, AsmError>(v@)
                && forall|k: int| 0 <= k < v@.len() ==> instr_wf(#[trigger] v@[k]),
            Err(e) => assemble_spec(tokens_view(tokens@)) == Err::<Seq<Instr>, AsmError>(e),
        },
{
    let ghost toks = tokens_view(tokens@);
    let table = match build_symbols(tokens) {
        Ok(t) => t,
        Err(e) => {
            return Err(e);
        },
    };
    let n = tokens.len();
    let mut out: Vec<Instr> = Vec::new();
    let mut i: usize = 0;
    proof {
        assert(out@ + resolve_from(toks, table@, 0)->Ok_0 =~= resolve_from(toks, table@, 0)->Ok_0);
    }
    while i < n
        invariant
            0 <= i <= n,
            n == tokens@.len(),
            toks == tokens_view(tokens@),
            build_symbols_spec(toks) == Ok::<SymbolsV, AsmError>(table@),
            match resolve_from(toks, table@, i as nat) {
                Ok(rest) => resolve_from(toks, table@, 0) == Ok::<Seq<Instr>, AsmError>(
                    out@ + rest,
                ),
                Err(e) => resolve_from(toks, table@, 0) == Err::<Seq<Instr>, AsmError>(e),
            },
            forall|k: int| 0 <= k < out@.len() ==> instr_wf(#[trigger] out@[k]),
        decreases n - i,
    {
        proof {
            assert(toks[i as int] == tokens@[i as int]@);
        }
        match &tokens[i] {
            Token::Comment(_) => {
                i = i + 1;
            },
            Token::Semicolon => {
                i = i + 1;
            },
            Token::Label(_) => {
                i = i + 1;
            },
            Token::Define => {
                if n - i <= 2 {
                    return Err(AsmError::MalformedInstruction);
                }
                proof {
                    assert(toks[i + 1 as int] == tokens@[i + 1 as int]@);
                    assert(toks[i + 2 as int] == tokens@[i + 2 as int]@);
                }
                let ok1 = match &tokens[i + 1] {
                    Token::Identifier(_) => true,
                    _ => false,
                };
                let ok2 = match &tokens[i + 2] {
                    Token::Number(_) => true,
                    _ => false,
                };
                if !(ok1 && ok2) {
                    return Err(AsmError::MalformedInstruction);
                }
                i = i + 3;
            },
            Token::Instruction(m) => {
                let m = *m;
                let mut j = i + 1;
                loop
                    invariant
                        i + 1 <= j <= n,
                        n == tokens@.len(),
                        toks == tokens_view(tokens@),
                        operands_end(toks, (i + 1) as nat) == operands_end(toks, j as nat),
                    ensures
                        i + 1 <= j <= n,
                        j as nat == operands_end(toks, (i + 1) as nat),
                    decreases n - j,
                {
                    if j >= n {
                        break;
                    }
                    proof {
                        assert(toks[j as int] == tokens@[j as int]@);
                    }
                    if !operand_token(&tokens[j]) {
                        break;
                    }
                    j = j + 1;
                }
                let ghost out0 = out@;
                let ghost e = operands_end(toks, (i + 1) as nat);
                match decode_instruction(m, tokens, i + 1, j, &table) {
                    Err(err) => {
                        return Err(err);
                    },
                    Ok(ins) => {
                        proof {
                            lemma_decode_wf(m, toks.subrange(i + 1 as int, e as int), table@);
                        }
                        out.push(ins);
                        proof {
                            assert(out@ =~= out0 + seq![ins]);
                            if resolve_from(toks, table@, e) is Ok {
                                assert((out0 + seq![ins]) + resolve_from(toks, table@, e)->Ok_0
                                    =~= out0 + (seq![ins] + resolve_from(toks, table@, e)->Ok_0));
                            }
                        }
                        i = j;
                    },
                }
            },
            _ => {
                return Err(AsmError::MalformedInstruction);
            },
        }
    }
    proof {
        assert(out@ + Seq::<Instr>::empty() =~= out@);
    }
    Ok(out)
}

/// The assembly of source text: scanning, the symbol pass, resolution.
pub open spec fn assemble_source_spec(src: Seq<char>) -> Result<Seq<Instr>, AsmError> {
    match tokens_from(src, 0) {
        Err(e) => Err(AsmError::Lexical(e)),
        Ok(ts) => assemble_spec(ts),
    }
}

/// Assembles source text into its instruction sequence; a text with a
/// lexical, symbol or syntax error assembles to that error and nothing
/// of it ever executes.
pub fn assemble_source(source: String) -> (r: Result<Vec<Instr>, AsmError>)
    ensures
        match r {
            Ok(v) => assemble_source_spec(source@) == Ok::<Seq<Instr>, AsmError>(v@) && forall|
                k: int,
            | 0 <= k < v@.len() ==> instr_wf(#[trigger] v@[k]),
            Err(e) => assemble_source_spec(source@) == Err::<Seq<Instr>, AsmError>(e),
        },
{
    let tokens = match tokenize(source) {
        Ok(t) => t,
        Err(e) => {
            return Err(AsmError::Lexical(e));
        },
    };
    assemble(&tokens)
}

} // verus!
