use rasm::errors::LexError;
use rasm::lexer::Lexer;
use rasm::lexer::tokenize;
use rasm::token::Mnemonic;
use rasm::token::Token;

fn next(lexer: &mut Lexer) -> Token {
    lexer.next_token().expect("unexpected lexical error")
}

#[test]
fn registers_r0_through_r15_scan_to_their_index() {
    for n in 0u8..16 {
        let mut lexer = Lexer::new(format!("r{}", n));
        assert_eq!(next(&mut lexer), Token::Register(n));
        assert_eq!(next(&mut lexer), Token::EndOfInput);
    }
}

#[test]
fn register_16_is_a_lexical_error() {
    let mut lexer = Lexer::new(String::from("r16"));
    assert_eq!(lexer.next_token(), Err(LexError::InvalidRegister));
}

#[test]
fn register_with_huge_suffix_is_a_lexical_error() {
    let mut lexer = Lexer::new(String::from("r99999999999999999999"));
    assert_eq!(lexer.next_token(), Err(LexError::InvalidRegister));
}

#[test]
fn register_with_leading_zeros_keeps_its_value() {
    let mut lexer = Lexer::new(String::from("r007"));
    assert_eq!(next(&mut lexer), Token::Register(7));
}

#[test]
fn r_followed_by_letters_is_a_plain_identifier() {
    let mut lexer = Lexer::new(String::from("rax"));
    assert_eq!(next(&mut lexer), Token::Identifier(String::from("rax")));
}

#[test]
fn numbers_scan_to_their_value() {
    let mut lexer = Lexer::new(String::from("0 42 255"));
    assert_eq!(next(&mut lexer), Token::Number(0));
    assert_eq!(next(&mut lexer), Token::Number(42));
    assert_eq!(next(&mut lexer), Token::Number(255));
    assert_eq!(next(&mut lexer), Token::EndOfInput);
}

#[test]
fn number_256_overflows() {
    let mut lexer = Lexer::new(String::from("256"));
    assert_eq!(lexer.next_token(), Err(LexError::NumberOverflow));
}

#[test]
fn huge_number_overflows_rather_than_truncating() {
    let mut lexer = Lexer::new(String::from("99999999999999999999"));
    assert_eq!(lexer.next_token(), Err(LexError::NumberOverflow));
}

#[test]
fn mnemonics_scan_to_instructions() {
    let source = "nop halt ldi mov jmp add sub and or xor nor rsh lsh load store";
    let expected = [
        Mnemonic::Nop,
        Mnemonic::Halt,
        Mnemonic::Ldi,
        Mnemonic::Mov,
        Mnemonic::Jmp,
        Mnemonic::Add,
        Mnemonic::Sub,
        Mnemonic::And,
        Mnemonic::Or,
        Mnemonic::Xor,
        Mnemonic::Nor,
        Mnemonic::Rsh,
        Mnemonic::Lsh,
        Mnemonic::Load,
        Mnemonic::Store,
    ];
    let mut lexer = Lexer::new(String::from(source));
    for m in expected {
        assert_eq!(next(&mut lexer), Token::Instruction(m));
    }
    assert_eq!(next(&mut lexer), Token::EndOfInput);
}

#[test]
fn define_directive_scans_to_define() {
    let mut lexer = Lexer::new(String::from(".define FOO 5"));
    assert_eq!(next(&mut lexer), Token::Define);
    assert_eq!(next(&mut lexer), Token::Identifier(String::from("FOO")));
    assert_eq!(next(&mut lexer), Token::Number(5));
}

#[test]
fn identifier_followed_by_colon_is_a_label() {
    let mut lexer = Lexer::new(String::from("loop: nop"));
    assert_eq!(next(&mut lexer), Token::Label(String::from("loop")));
    assert_eq!(next(&mut lexer), Token::Instruction(Mnemonic::Nop));
}

#[test]
fn hash_and_slash_comments_run_to_end_of_line() {
    let mut lexer = Lexer::new(String::from("# first\n/ second\nnop"));
    assert_eq!(next(&mut lexer), Token::Comment(String::from("# first")));
    assert_eq!(next(&mut lexer), Token::Comment(String::from("/ second")));
    assert_eq!(next(&mut lexer), Token::Instruction(Mnemonic::Nop));
}

#[test]
fn semicolon_scans_to_semicolon() {
    let mut lexer = Lexer::new(String::from("nop;"));
    assert_eq!(next(&mut lexer), Token::Instruction(Mnemonic::Nop));
    assert_eq!(next(&mut lexer), Token::Semicolon);
}

#[test]
fn end_of_input_is_terminal_and_repeats() {
    let mut lexer = Lexer::new(String::from("nop"));
    assert_eq!(next(&mut lexer), Token::Instruction(Mnemonic::Nop));
    assert_eq!(next(&mut lexer), Token::EndOfInput);
    assert_eq!(next(&mut lexer), Token::EndOfInput);
    assert_eq!(next(&mut lexer), Token::EndOfInput);
}

#[test]
fn unrecognized_characters_are_skipped() {
    let mut lexer = Lexer::new(String::from("@! nop $%"));
    assert_eq!(next(&mut lexer), Token::Instruction(Mnemonic::Nop));
    assert_eq!(next(&mut lexer), Token::EndOfInput);
}

#[test]
fn whitespace_is_insignificant() {
    let mut lexer = Lexer::new(String::from("  \t\r\n  nop \n\t halt  "));
    assert_eq!(next(&mut lexer), Token::Instruction(Mnemonic::Nop));
    assert_eq!(next(&mut lexer), Token::Instruction(Mnemonic::Halt));
    assert_eq!(next(&mut lexer), Token::EndOfInput);
}

#[test]
fn identifiers_may_hold_digits_underscores_and_dots() {
    let mut lexer = Lexer::new(String::from("foo_bar.2"));
    assert_eq!(next(&mut lexer), Token::Identifier(String::from("foo_bar.2")));
}

#[test]
fn tokenize_collects_the_whole_sequence() {
    let tokens = tokenize(String::from("ldi r0 5;")).expect("should scan");
    assert_eq!(
        tokens,
        vec![
            Token::Instruction(Mnemonic::Ldi),
            Token::Register(0),
            Token::Number(5),
            Token::Semicolon,
        ]
    );
}

#[test]
fn tokenize_reports_the_first_lexical_error() {
    assert_eq!(tokenize(String::from("nop r16 999")), Err(LexError::InvalidRegister));
    assert_eq!(tokenize(String::from("nop 999 r16")), Err(LexError::NumberOverflow));
}
