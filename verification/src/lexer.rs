//! The scanner: turns source text into tokens.
//!
//! `scan` is the mathematical scanner: given the text and a cursor it says
//! which token (or lexical error) comes next and where the cursor lands.
//! `Lexer::next_token` is proved to compute exactly that. `tokenize`
//! collects the whole token sequence, as `tokens_from` describes it.

use vstd::prelude::*;

use crate::errors::LexError;
use crate::token::Token;
use crate::token::TokenV;
use crate::token::all_digits;
use crate::token::classify_ident;
use crate::token::classify_identifier;
use crate::token::digit_char;
use crate::token::digits_value;
use crate::token::ident_char;
use crate::token::is_alpha_char;
use crate::token::is_digit_char;
use crate::token::is_ident_char;
use crate::token::is_register_text;
use crate::token::is_space_char;
use crate::token::parse_decimal;
use crate::token::space_char;
use crate::token::token_res_view;
use crate::token::tokens_view;

verus! {

// ---------------------------------------------------------------------------
// The mathematical scanner
// ---------------------------------------------------------------------------

/// First position at or after `pos` that does not continue an identifier.
pub open spec fn ident_end(s: Seq<char>, pos: nat) -> nat
    decreases s.len() - pos,
{
    if pos >= s.len() {
        pos
    } else if is_ident_char(s[pos as int]) {
        ident_end(s, pos + 1)
    } else {
        pos
    }
}

/// First position at or after `pos` that is not a decimal digit.
pub open spec fn digits_end(s: Seq<char>, pos: nat) -> nat
    decreases s.len() - pos,
{
    if pos >= s.len() {
        pos
    } else if is_digit_char(s[pos as int]) {
        digits_end(s, pos + 1)
    } else {
        pos
    }
}

/// First position at or after `pos` holding a line break, or the end.
pub open spec fn comment_end(s: Seq<char>, pos: nat) -> nat
    decreases s.len() - pos,
{
    if pos >= s.len() {
        pos
    } else if s[pos as int] == '\n' {
        pos
    } else {
        comment_end(s, pos + 1)
    }
}

/// One scanning step: the token or error found, and the cursor after it.
pub struct ScanStep {
    pub result: Result<TokenV, LexError>,
    pub next: nat,
}

/// The scanner: skips whitespace and unrecognized characters, then reads
/// one token starting at `pos`.
pub open spec fn scan(s: Seq<char>, pos: nat) -> ScanStep
    decreases s.len() - pos,
{
    if pos >= s.len() {
        ScanStep { result: Ok(TokenV::EndOfInput), next: pos }
    } else if is_space_char(s[pos as int]) {
        scan(s, pos + 1)
    } else {
        let c = s[pos as int];
        if c == ';' {
            ScanStep { result: Ok(TokenV::Semicolon), next: pos + 1 }
        } else if c == '#' || c == '/' {
            let e = comment_end(s, pos);
            ScanStep { result: Ok(TokenV::Comment(s.subrange(pos as int, e as int))), next: e }
        } else if is_alpha_char(c) || c == '.' {
            let e = ident_end(s, pos);
            match classify_ident(s.subrange(pos as int, e as int)) {
                Ok(TokenV::Identifier(name)) => {
                    if e < s.len() && s[e as int] == ':' {
                        ScanStep { result: Ok(TokenV::Label(name)), next: e + 1 }
                    } else {
                        ScanStep { result: Ok(TokenV::Identifier(name)), next: e }
                    }
                },
                Ok(t) => ScanStep { result: Ok(t), next: e },
                Err(err) => ScanStep { result: Err(err), next: e },
            }
        } else if is_digit_char(c) {
            let e = digits_end(s, pos);
            let v = digits_value(s.subrange(pos as int, e as int));
            if v <= 255 {
                ScanStep { result: Ok(TokenV::Number(v as u8)), next: e }
            } else {
                ScanStep { result: Err(LexError::NumberOverflow), next: e }
            }
        } else {
            scan(s, pos + 1)
        }
    }
}

/// `ident_end` stays within the text and does not move backwards.
pub proof fn lemma_ident_end_bounds(s: Seq<char>, pos: nat)
    requires
        pos <= s.len(),
    ensures
        pos <= ident_end(s, pos) <= s.len(),
    decreases s.len() - pos,
{
    if pos < s.len() && is_ident_char(s[pos as int]) {
        lemma_ident_end_bounds(s, pos + 1);
    }
}

/// `digits_end` stays within the text and does not move backwards.
pub proof fn lemma_digits_end_bounds(s: Seq<char>, pos: nat)
    requires
        pos <= s.len(),
    ensures
        pos <= digits_end(s, pos) <= s.len(),
    decreases s.len() - pos,
{
    if pos < s.len() && is_digit_char(s[pos as int]) {
        lemma_digits_end_bounds(s, pos + 1);
    }
}

/// `comment_end` stays within the text and does not move backwards.
pub proof fn lemma_comment_end_bounds(s: Seq<char>, pos: nat)
    requires
        pos <= s.len(),
    ensures
        pos <= comment_end(s, pos) <= s.len(),
    decreases s.len() - pos,
{
    if pos < s.len() && s[pos as int] != '\n' {
        lemma_comment_end_bounds(s, pos + 1);
    }
}

/// The cursor never moves backwards, stays within the text, and moves
/// strictly forward whenever a token other than the terminal one is read.
pub proof fn lemma_scan_bounds(s: Seq<char>, pos: nat)
    requires
        pos <= s.len(),
    ensures
        pos <= scan(s, pos).next <= s.len(),
        !(scan(s, pos).result == Ok::<TokenV, LexError>(TokenV::EndOfInput)) ==> scan(
            s,
            pos,
        ).next > pos,
    decreases s.len() - pos,
{
    if pos >= s.len() {
    } else if is_space_char(s[pos as int]) {
        lemma_scan_bounds(s, pos + 1);
    } else {
        let c = s[pos as int];
        if c == ';' {
        } else if c == '#' || c == '/' {
            lemma_comment_end_bounds(s, pos + 1);
            assert(comment_end(s, pos) == comment_end(s, pos + 1));
        } else if is_alpha_char(c) || c == '.' {
            lemma_ident_end_bounds(s, pos + 1);
            assert(ident_end(s, pos) == ident_end(s, pos + 1));
        } else if is_digit_char(c) {
            lemma_digits_end_bounds(s, pos + 1);
            assert(digits_end(s, pos) == digits_end(s, pos + 1));
        } else {
            lemma_scan_bounds(s, pos + 1);
        }
    }
}

// ---------------------------------------------------------------------------
// The executable scanner
// ---------------------------------------------------------------------------

/// The scanner's cursor over the source text.
pub struct Lexer {
    input: String,
    position: usize,
    length: usize,
}

impl Lexer {
    /// The text being scanned.
    pub closed spec fn text(&self) -> Seq<char> {
        self.input@
    }

    /// The cursor, as a character index into the text.
    pub closed spec fn pos(&self) -> nat {
        self.position as nat
    }

    /// The cursor is inside the text and the cached length is its length.
    pub closed spec fn wf(&self) -> bool {
        self.length == self.input@.len() && self.position <= self.length
    }

    /// A fresh scanner, at the start of the given text.
    pub fn new(input: String) -> (r: Lexer)
        ensures
            r.wf(),
            r.text() == input@,
            r.pos() == 0,
    {
        let length = input.as_str().unicode_len();
        Lexer { input, position: 0, length }
    }

    /// The character under the cursor, or `None` at the end of the text.
    fn peek_char(&self) -> (r: Option<char>)
        requires
            self.wf(),
        ensures
            r == if self.pos() < self.text().len() {
                Some(self.text()[self.pos() as int])
            } else {
                None::<char>
            },
    {
        if self.position < self.length {
            Some(self.input.as_str().get_char(self.position))
        } else {
            None
        }
    }

    /// Moves the cursor one character forward.
    fn read_char(&mut self)
        requires
            old(self).wf(),
            old(self).pos() < old(self).text().len(),
        ensures
            final(self).wf(),
            final(self).text() == old(self).text(),
            final(self).pos() == old(self).pos() + 1,
    {
        self.position = self.position + 1;
    }

    /// Moves the cursor past any whitespace; scanning is unaffected.
    fn skip_whitespace(&mut self)
        requires
            old(self).wf(),
        ensures
            final(self).wf(),
            final(self).text() == old(self).text(),
            old(self).pos() <= final(self).pos(),
            final(self).pos() == final(self).text().len() || !is_space_char(
                final(self).text()[final(self).pos() as int],
            ),
            scan(old(self).text(), old(self).pos()) == scan(final(self).text(), final(self).pos()),
    {
        loop
            invariant
                self.wf(),
                self.text() == old(self).text(),
                old(self).pos() <= self.pos(),
                scan(old(self).text(), old(self).pos()) == scan(self.text(), self.pos()),
            ensures
                self.wf(),
                self.text() == old(self).text(),
                old(self).pos() <= self.pos(),
                self.pos() == self.text().len() || !is_space_char(
                    self.text()[self.pos() as int],
                ),
                scan(old(self).text(), old(self).pos()) == scan(self.text(), self.pos()),
            decreases self.text().len() - self.pos(),
        {
            if self.position >= self.length {
                break;
            }
            let c = self.input.as_str().get_char(self.position);
            if !space_char(c) {
                break;
            }
            self.position = self.position + 1;
        }
    }

    /// Reads the rest of the line, verbatim, as comment text; the line
    /// break itself stays unread.
    fn read_comment(&mut self) -> (r: String)
        requires
            old(self).wf(),
        ensures
            final(self).wf(),
            final(self).text() == old(self).text(),
            final(self).pos() == comment_end(old(self).text(), old(self).pos()),
            r@ == old(self).text().subrange(old(self).pos() as int, final(self).pos() as int),
    {
        let start = self.position;
        loop
            invariant
                self.wf(),
                self.text() == old(self).text(),
                start == old(self).position,
                start <= self.position,
                comment_end(self.text(), start as nat) == comment_end(self.text(), self.pos()),
            ensures
                self.wf(),
                self.text() == old(self).text(),
                start <= self.position,
                self.pos() == comment_end(self.text(), start as nat),
            decreases self.text().len() - self.pos(),
        {
            if self.position >= self.length {
                break;
            }
            let c = self.input.as_str().get_char(self.position);
            if c == '\n' {
                break;
            }
            self.position = self.position + 1;
        }
        let text = self.input.as_str().substring_char(start, self.position).to_owned();
        text
    }

    /// Reads a maximal run of identifier characters.
    fn read_identifier(&mut self) -> (r: String)
        requires
            old(self).wf(),
        ensures
            final(self).wf(),
            final(self).text() == old(self).text(),
            final(self).pos() == ident_end(old(self).text(), old(self).pos()),
            r@ == old(self).text().subrange(old(self).pos() as int, final(self).pos() as int),
    {
        let start = self.position;
        loop
            invariant
                self.wf(),
                self.text() == old(self).text(),
                start == old(self).position,
                start <= self.position,
                ident_end(self.text(), start as nat) == ident_end(self.text(), self.pos()),
            ensures
                self.wf(),
                self.text() == old(self).text(),
                start <= self.position,
                self.pos() == ident_end(self.text(), start as nat),
            decreases self.text().len() - self.pos(),
        {
            if self.position >= self.length {
                break;
            }
            let c = self.input.as_str().get_char(self.position);
            if !ident_char(c) {
                break;
            }
            self.position = self.position + 1;
        }
        let text = self.input.as_str().substring_char(start, self.position).to_owned();
        text
    }

    /// Reads a maximal run of decimal digits and its 8-bit value; a run
    /// worth more than 255 is a `NumberOverflow`, never truncated.
    fn read_number(&mut self) -> (r: Result<u8, LexError>)
        requires
            old(self).wf(),
        ensures
            final(self).wf(),
            final(self).text() == old(self).text(),
            final(self).pos() == digits_end(old(self).text(), old(self).pos()),
            ({
                let v = digits_value(
                    old(self).text().subrange(old(self).pos() as int, final(self).pos() as int),
                );
                match r {
                    Ok(n) => v == n,
                    Err(e) => v > 255 && e == LexError::NumberOverflow,
                }
            }),
    {
        let start = self.position;
        loop
            invariant
                self.wf(),
                self.text() == old(self).text(),
                start == old(self).position,
                start <= self.position,
                digits_end(self.text(), start as nat) == digits_end(self.text(), self.pos()),
                all_digits(self.text().subrange(start as int, self.position as int)),
            ensures
                self.wf(),
                self.text() == old(self).text(),
                start <= self.position,
                self.pos() == digits_end(self.text(), start as nat),
                all_digits(self.text().subrange(start as int, self.position as int)),
            decreases self.text().len() - self.pos(),
        {
            if self.position >= self.length {
                break;
            }
            let c = self.input.as_str().get_char(self.position);
            if !digit_char(c) {
                break;
            }
            proof {
                assert(self.text().subrange(start as int, self.position + 1 as int) =~= self.text()
                    .subrange(start as int, self.position as int).push(c));
            }
            self.position = self.position + 1;
        }
        match parse_decimal(self.input.as_str(), start, self.position) {
            Some(v) => Ok(v),
            None => Err(LexError::NumberOverflow),
        }
    }

    /// Reads the next token, exactly as the mathematical scanner does:
    /// whitespace and unrecognized characters are skipped, and after the
    /// end of the text every call returns `EndOfInput`.
    pub fn next_token(&mut self) -> (r: Result<Token, LexError>)
        requires
            old(self).wf(),
        ensures
            final(self).wf(),
            final(self).text() == old(self).text(),
            token_res_view(r) == scan(old(self).text(), old(self).pos()).result,
            final(self).pos() == scan(old(self).text(), old(self).pos()).next,
    {
        loop
            invariant
                self.wf(),
                self.text() == old(self).text(),
                old(self).pos() <= self.pos(),
                scan(old(self).text(), old(self).pos()) == scan(self.text(), self.pos()),
            decreases self.text().len() - self.pos(),
        {
            self.skip_whitespace();
            let ghost s = self.text();
            let ghost p = self.pos();
            let c = match self.peek_char() {
                None => {
                    return Ok(Token::EndOfInput);
                },
                Some(c) => c,
            };
            if c == ';' {
                self.read_char();
                return Ok(Token::Semicolon);
            } else if c == '#' || c == '/' {
                let text = self.read_comment();
                return Ok(Token::Comment(text));
            } else if alpha_or_dot(c) {
                let text = self.read_identifier();
                proof {
                    lemma_ident_end_bounds(s, p);
                }
                match classify_identifier(text) {
                    Ok(Token::Identifier(name)) => {
                        if let Some(next) = self.peek_char() {
                            if next == ':' {
                                self.read_char();
                                return Ok(Token::Label(name));
                            }
                        }
                        return Ok(Token::Identifier(name));
                    },
                    other => {
                        return other;
                    },
                }
            } else if digit_char(c) {
                proof {
                    lemma_digits_end_bounds(s, p);
                }
                match self.read_number() {
                    Ok(v) => {
                        return Ok(Token::Number(v));
                    },
                    Err(e) => {
                        return Err(e);
                    },
                }
            } else {
                self.read_char();
            }
        }
    }
}

/// Whether a character may open an identifier.
fn alpha_or_dot(c: char) -> (r: bool)
    ensures
        r == (is_alpha_char(c) || c == '.'),
{
    crate::token::alpha_char(c) || c == '.'
}

// ---------------------------------------------------------------------------
// The whole token sequence
// ---------------------------------------------------------------------------

/// The token sequence of the text from `pos` on, or its first lexical
/// error; the terminal token is not part of the sequence.
pub open spec fn tokens_from(s: Seq<char>, pos: nat) -> Result<Seq<TokenV>, LexError>
    decreases s.len() - pos,
    via tokens_from_decreases
{
    let st = scan(s, pos);
    match st.result {
        Err(e) => Err(e),
        Ok(TokenV::EndOfInput) => Ok(Seq::empty()),
        Ok(t) => match tokens_from(s, st.next) {
            Err(e) => Err(e),
            Ok(rest) => Ok(seq![t] + rest),
        },
    }
}

#[via_fn]
proof fn tokens_from_decreases(s: Seq<char>, pos: nat) {
    if pos <= s.len() {
        lemma_scan_bounds(s, pos);
    }
}

/// Scans the whole text into its token sequence, or reports the first
/// lexical error; nothing is assembled from a text that does not scan.
pub fn tokenize(source: String) -> (r: Result<Vec<Token>, LexError>)
    ensures
        match r {
            Ok(v) => tokens_from(source@, 0) == Ok::<Seq<TokenV>, LexError>(tokens_view(v@)),
            Err(e) => tokens_from(source@, 0) == Err::<Seq<TokenV>, LexError>(e),
        },
{
    let ghost s = source@;
    let mut lexer = Lexer::new(source);
    let mut out: Vec<Token> = Vec::new();
    proof {
        assert(tokens_view(out@) + tokens_from(s, 0)->Ok_0 =~= tokens_from(s, 0)->Ok_0);
    }
    loop
        invariant
            s == source@,
            lexer.wf(),
            lexer.text() == s,
            lexer.pos() <= s.len(),
            match tokens_from(s, lexer.pos()) {
                Ok(rest) => tokens_from(s, 0) == Ok::<Seq<TokenV>, LexError>(
                    tokens_view(out@) + rest,
                ),
                Err(e) => tokens_from(s, 0) == Err::<Seq<TokenV>, LexError>(e),
            },
        decreases s.len() - lexer.pos(),
    {
        let ghost p = lexer.pos();
        let ghost out0 = out@;
        let t = lexer.next_token();
        proof {
            lemma_scan_bounds(s, p);
        }
        match t {
            Err(e) => {
                return Err(e);
            },
            Ok(tok) => {
                if let Token::EndOfInput = tok {
                    proof {
                        assert(tokens_view(out@) + Seq::<TokenV>::empty() =~= tokens_view(out@));
                    }
                    return Ok(out);
                }
                proof {
                    assert(!(tok@ == TokenV::EndOfInput));
                }
                out.push(tok);
                proof {
                    assert(tokens_view(out@) =~= tokens_view(out0) + seq![tok@]);
                    if tokens_from(s, lexer.pos()) is Ok {
                        assert((tokens_view(out0) + seq![tok@]) + tokens_from(s, lexer.pos())->Ok_0
                            =~= tokens_view(out0) + (seq![tok@] + tokens_from(
                            s,
                            lexer.pos(),
                        )->Ok_0));
                    }
                }
            },
        }
    }
}

/// Register operand text, `r` followed by decimal digits, is classified
/// as the register token holding its index whenever the index is 15 or
/// less, and is the `InvalidRegister` lexical error whenever the index is
/// 16 or more.
pub proof fn lemma_register_classification(t: Seq<char>)
    requires
        t.len() >= 2,
        t[0] == 'r',
        all_digits(t.subrange(1, t.len() as int)),
    ensures
        digits_value(t.subrange(1, t.len() as int)) < 16 ==> classify_ident(t) == Ok::<
            TokenV,
            LexError,
        >(TokenV::Register(digits_value(t.subrange(1, t.len() as int)) as u8)),
        digits_value(t.subrange(1, t.len() as int)) >= 16 ==> classify_ident(t) == Err::<
            TokenV,
            LexError,
        >(LexError::InvalidRegister),
{
    reveal_strlit("nop");
    reveal_strlit("halt");
    reveal_strlit("ldi");
    reveal_strlit("mov");
    reveal_strlit("jmp");
    reveal_strlit("add");
    reveal_strlit("sub");
    reveal_strlit("and");
    reveal_strlit("or");
    reveal_strlit("xor");
    reveal_strlit("nor");
    reveal_strlit("rsh");
    reveal_strlit("lsh");
    reveal_strlit("load");
    reveal_strlit("store");
    reveal_strlit(".define");
    assert(t.subrange(1, t.len() as int)[0] == t[1]);
    assert(is_digit_char(t[1]));
    // Of the mnemonics only `rsh` starts with `r`, and its second
    // character is no digit, so `t` names no mnemonic.
    assert(t != "rsh"@);
    assert(is_register_text(t));
}

} // verus!
