//! Lexical classes of the assembly dialect: the token type, character
//! classes, decimal literals, and the classification of identifier-shaped
//! text into mnemonics, the `.define` directive, registers and plain
//! identifiers.
//!
//! Letters and digits are the ASCII ones; any other character stands
//! outside every lexical class and is skipped by the scanner.

use vstd::prelude::*;

use crate::errors::LexError;

verus! {

/// The textual instruction names the dialect knows.
#[derive(Debug, Clone, Copy, PartialEq, Eq, Structural)]
pub enum Mnemonic {
    Nop,
    Halt,
    Ldi,
    Mov,
    Jmp,
    Add,
    Sub,
    And,
    Or,
    Xor,
    Nor,
    Rsh,
    Lsh,
    Load,
    Store,
}

/// One token of the source text.
#[derive(Debug, PartialEq)]
pub enum Token {
    /// The `.define` directive.
    Define,
    /// A plain name: a label use, a `.define` use, or a memory operand `mN`.
    Identifier(String),
    /// A name immediately followed by `:`, binding the name to the address
    /// of the next instruction.
    Label(String),
    /// A decimal literal, already checked to fit in 8 bits.
    Number(u8),
    /// A register operand `rN`, already checked to satisfy N < 16.
    Register(u8),
    /// A reserved instruction mnemonic.
    Instruction(Mnemonic),
    /// A `#` or `/` line comment, verbatim up to the end of the line.
    Comment(String),
    /// The statement separator `;`.
    Semicolon,
    /// The terminal token: repeated scanning keeps returning it.
    EndOfInput,
}

/// The mathematical shape of a token: text fields as character sequences.
pub enum TokenV {
    Define,
    Identifier(Seq<char>),
    Label(Seq<char>),
    Number(u8),
    Register(u8),
    Instruction(Mnemonic),
    Comment(Seq<char>),
    Semicolon,
    EndOfInput,
}

impl View for Token {
    type V = TokenV;

    open spec fn view(&self) -> TokenV {
        match self {
            Token::Define => TokenV::Define,
            Token::Identifier(s) => TokenV::Identifier(s@),
            Token::Label(s) => TokenV::Label(s@),
            Token::Number(n) => TokenV::Number(*n),
            Token::Register(n) => TokenV::Register(*n),
            Token::Instruction(m) => TokenV::Instruction(*m),
            Token::Comment(s) => TokenV::Comment(s@),
            Token::Semicolon => TokenV::Semicolon,
            Token::EndOfInput => TokenV::EndOfInput,
        }
    }
}

/// The views of a token sequence.
pub open spec fn tokens_view(ts: Seq<Token>) -> Seq<TokenV> {
    ts.map_values(|t: Token| t@)
}

/// The view of a scanning result.
pub open spec fn token_res_view(r: Result<Token, LexError>) -> Result<TokenV, LexError> {
    match r {
        Ok(t) => Ok(t@),
        Err(e) => Err(e),
    }
}

// ---------------------------------------------------------------------------
// Character classes
// ---------------------------------------------------------------------------

pub open spec fn is_space_char(c: char) -> bool {
    c == ' ' || c == '\t' || c == '\r' || c == '\n'
}

pub open spec fn is_digit_char(c: char) -> bool {
    '0' <= c && c <= '9'
}

pub open spec fn is_alpha_char(c: char) -> bool {
    ('a' <= c && c <= 'z') || ('A' <= c && c <= 'Z')
}

/// Characters that may continue an identifier.
pub open spec fn is_ident_char(c: char) -> bool {
    is_alpha_char(c) || is_digit_char(c) || c == '_' || c == '.'
}

pub fn space_char(c: char) -> (r: bool)
    ensures
        r == is_space_char(c),
{
    c == ' ' || c == '\t' || c == '\r' || c == '\n'
}

pub fn digit_char(c: char) -> (r: bool)
    ensures
        r == is_digit_char(c),
{
    '0' <= c && c <= '9'
}

pub fn alpha_char(c: char) -> (r: bool)
    ensures
        r == is_alpha_char(c),
{
    ('a' <= c && c <= 'z') || ('A' <= c && c <= 'Z')
}

pub fn ident_char(c: char) -> (r: bool)
    ensures
        r == is_ident_char(c),
{
    alpha_char(c) || digit_char(c) || c == '_' || c == '.'
}

// ---------------------------------------------------------------------------
// Decimal literals
// ---------------------------------------------------------------------------

/// The numeric value of one decimal digit.
pub open spec fn digit_value(c: char) -> nat
    recommends
        is_digit_char(c),
{
    ((c as u32) - ('0' as u32)) as nat
}

pub open spec fn all_digits(s: Seq<char>) -> bool {
    forall|i: int| 0 <= i < s.len() ==> is_digit_char(#[trigger] s[i])
}

/// The value of a run of decimal digits, most significant first.
pub open spec fn digits_value(s: Seq<char>) -> nat
    decreases s.len(),
{
    if s.len() == 0 {
        0
    } else {
        10 * digits_value(s.drop_last()) + digit_value(s.last())
    }
}

/// Appending a digit multiplies the value by ten and adds the digit.
pub proof fn lemma_digits_value_push(s: Seq<char>, c: char)
    ensures
        digits_value(s.push(c)) == 10 * digits_value(s) + digit_value(c),
{
    assert(s.push(c).drop_last() =~= s);
    assert(s.push(c).last() == c);
}

/// A digit run is worth at least any of its prefixes.
pub proof fn lemma_digits_value_prefix(s: Seq<char>, k: int)
    requires
        0 <= k <= s.len(),
    ensures
        digits_value(s.subrange(0, k)) <= digits_value(s),
    decreases s.len(),
{
    if k == s.len() {
        assert(s.subrange(0, k) =~= s);
    } else {
        lemma_digits_value_prefix(s.drop_last(), k);
        assert(s.drop_last().subrange(0, k) =~= s.subrange(0, k));
    }
}

/// Reads the decimal value of `s[from..to]`, a run of digits: the value if
/// it fits in 8 bits, `None` if it exceeds 255.
pub fn parse_decimal(s: &str, from: usize, to: usize) -> (r: Option<u8>)
    requires
        from <= to <= s@.len(),
        all_digits(s@.subrange(from as int, to as int)),
    ensures
        match r {
            Some(v) => digits_value(s@.subrange(from as int, to as int)) == v,
            None => digits_value(s@.subrange(from as int, to as int)) > 255,
        },
{
    let ghost whole = s@.subrange(from as int, to as int);
    let mut acc: u32 = 0;
    let mut i: usize = from;
    while i < to
        invariant
            from <= i <= to <= s@.len(),
            all_digits(whole),
            whole == s@.subrange(from as int, to as int),
            acc <= 255,
            acc == digits_value(s@.subrange(from as int, i as int)),
        decreases to - i,
    {
        let c = s.get_char(i);
        proof {
            assert(whole[i - from] == c);
            assert(is_digit_char(c));
        }
        let d: u32 = (c as u32) - ('0' as u32);
        let next: u32 = acc * 10 + d;
        proof {
            assert(s@.subrange(from as int, i + 1 as int) =~= s@.subrange(
                from as int,
                i as int,
            ).push(c));
            lemma_digits_value_push(s@.subrange(from as int, i as int), c);
        }
        if next > 255 {
            proof {
                assert(whole.subrange(0, i + 1 - from as int) =~= s@.subrange(
                    from as int,
                    i + 1 as int,
                ));
                lemma_digits_value_prefix(whole, i + 1 - from as int);
            }
            return None;
        }
        acc = next;
        i = i + 1;
    }
    proof {
        assert(s@.subrange(from as int, i as int) =~= whole);
    }
    Some(acc as u8)
}

// ---------------------------------------------------------------------------
// String comparison
// ---------------------------------------------------------------------------

/// Character-by-character string equality.
pub fn str_eq(a: &str, b: &str) -> (r: bool)
    ensures
        r == (a@ == b@),
{
    let alen = a.unicode_len();
    let blen = b.unicode_len();
    if alen != blen {
        return false;
    }
    let mut i: usize = 0;
    while i < alen
        invariant
            0 <= i <= alen,
            alen == a@.len(),
            alen == b@.len(),
            forall|j: int| 0 <= j < i ==> a@[j] == b@[j],
        decreases alen - i,
    {
        if a.get_char(i) != b.get_char(i) {
            return false;
        }
        i = i + 1;
    }
    proof {
        assert(a@ =~= b@);
    }
    true
}

/// Whether `s[from..to]` consists of decimal digits only.
pub fn all_digits_range(s: &str, from: usize, to: usize) -> (r: bool)
    requires
        from <= to <= s@.len(),
    ensures
        r == all_digits(s@.subrange(from as int, to as int)),
{
    let mut i: usize = from;
    while i < to
        invariant
            from <= i <= to <= s@.len(),
            forall|j: int| from <= j < i ==> is_digit_char(#[trigger] s@[j]),
        decreases to - i,
    {
        if !digit_char(s.get_char(i)) {
            proof {
                assert(s@.subrange(from as int, to as int)[i - from] == s@[i as int]);
            }
            return false;
        }
        i = i + 1;
    }
    true
}

// ---------------------------------------------------------------------------
// Identifier classification
// ---------------------------------------------------------------------------

/// The mnemonic a piece of text names, if any.
pub open spec fn spec_mnemonic_of(s: Seq<char>) -> Option<Mnemonic> {
    if s == "nop"@ {
        Some(Mnemonic::Nop)
    } else if s == "halt"@ {
        Some(Mnemonic::Halt)
    } else if s == "ldi"@ {
        Some(Mnemonic::Ldi)
    } else if s == "mov"@ {
        Some(Mnemonic::Mov)
    } else if s == "jmp"@ {
        Some(Mnemonic::Jmp)
    } else if s == "add"@ {
        Some(Mnemonic::Add)
    } else if s == "sub"@ {
        Some(Mnemonic::Sub)
    } else if s == "and"@ {
        Some(Mnemonic::And)
    } else if s == "or"@ {
        Some(Mnemonic::Or)
    } else if s == "xor"@ {
        Some(Mnemonic::Xor)
    } else if s == "nor"@ {
        Some(Mnemonic::Nor)
    } else if s == "rsh"@ {
        Some(Mnemonic::Rsh)
    } else if s == "lsh"@ {
        Some(Mnemonic::Lsh)
    } else if s == "load"@ {
        Some(Mnemonic::Load)
    } else if s == "store"@ {
        Some(Mnemonic::Store)
    } else {
        None
    }
}

pub fn mnemonic_of(s: &str) -> (r: Option<Mnemonic>)
    ensures
        r == spec_mnemonic_of(s@),
{
    if str_eq(s, "nop") {
        Some(Mnemonic::Nop)
    } else if str_eq(s, "halt") {
        Some(Mnemonic::Halt)
    } else if str_eq(s, "ldi") {
        Some(Mnemonic::Ldi)
    } else if str_eq(s, "mov") {
        Some(Mnemonic::Mov)
    } else if str_eq(s, "jmp") {
        Some(Mnemonic::Jmp)
    } else if str_eq(s, "add") {
        Some(Mnemonic::Add)
    } else if str_eq(s, "sub") {
        Some(Mnemonic::Sub)
    } else if str_eq(s, "and") {
        Some(Mnemonic::And)
    } else if str_eq(s, "or") {
        Some(Mnemonic::Or)
    } else if str_eq(s, "xor") {
        Some(Mnemonic::Xor)
    } else if str_eq(s, "nor") {
        Some(Mnemonic::Nor)
    } else if str_eq(s, "rsh") {
        Some(Mnemonic::Rsh)
    } else if str_eq(s, "lsh") {
        Some(Mnemonic::Lsh)
    } else if str_eq(s, "load") {
        Some(Mnemonic::Load)
    } else if str_eq(s, "store") {
        Some(Mnemonic::Store)
    } else {
        None
    }
}

/// Register-operand shape: `r` followed by at least one decimal digit.
pub open spec fn is_register_text(s: Seq<char>) -> bool {
    s.len() >= 2 && s[0] == 'r' && all_digits(s.subrange(1, s.len() as int))
}

/// What an identifier-shaped piece of text is: a reserved mnemonic, the
/// `.define` directive, a register operand, or a plain identifier.
///
/// Only `r` followed by nothing but decimal digits is a register operand,
/// and its index must be below 16: `r16` (or worse) is the fatal
/// `InvalidRegister` error. Text such as `rax` has no numeric suffix and
/// stays a plain identifier, so label and symbol names may start with `r`.
pub open spec fn classify_ident(s: Seq<char>) -> Result<TokenV, LexError> {
    match spec_mnemonic_of(s) {
        Some(m) => Ok(TokenV::Instruction(m)),
        None => {
            if s == ".define"@ {
                Ok(TokenV::Define)
            } else if is_register_text(s) {
                let n = digits_value(s.subrange(1, s.len() as int));
                if n < 16 {
                    Ok(TokenV::Register(n as u8))
                } else {
                    Err(LexError::InvalidRegister)
                }
            } else {
                Ok(TokenV::Identifier(s))
            }
        },
    }
}

/// Classifies one identifier-shaped piece of text.
pub fn classify_identifier(s: String) -> (r: Result<Token, LexError>)
    ensures
        token_res_view(r) == classify_ident(s@),
{
    if let Some(m) = mnemonic_of(s.as_str()) {
        return Ok(Token::Instruction(m));
    }
    if str_eq(s.as_str(), ".define") {
        return Ok(Token::Define);
    }
    let n = s.as_str().unicode_len();
    if n >= 2 && s.as_str().get_char(0) == 'r' && all_digits_range(s.as_str(), 1, n) {
        match parse_decimal(s.as_str(), 1, n) {
            Some(v) => {
                if v < 16 {
                    Ok(Token::Register(v))
                } else {
                    Err(LexError::InvalidRegister)
                }
            },
            None => Err(LexError::InvalidRegister),
        }
    } else {
        Ok(Token::Identifier(s))
    }
}

} // verus!
