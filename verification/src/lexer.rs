//! The lexer: a single-pass finite-state scanner over the input characters.
//!
//! Exactly one state is active at a time; entering a new state clears the
//! accumulation buffer. A character that ends a token is re-dispatched
//! against the fresh `Default` state, since the character ending one token
//! may simultaneously start the next. Scope markers are single-character
//! tokens: `{` opens a scope and `}` closes one, chosen to match the
//! single-character style of the special arithmetic operators.

use crate::char_scanner::{char_at, CharScanner};
use crate::numeric::{is_digit_char, is_dot_char, is_minus_char, parse_num, NumValue};
use crate::numeric::parse_num_value;
use crate::text::{str_to_chars, string_from_chars};
use vstd::prelude::*;

verus! {

// ---------------------------------------------------------------------------
// Character classes
// ---------------------------------------------------------------------------
/// What `char::is_whitespace` answers beyond ASCII.
pub uninterp spec fn whitespace_ext(c: char) -> bool;

/// What `char::is_alphabetic` answers beyond ASCII.
pub uninterp spec fn alphabetic_ext(c: char) -> bool;

/// What `char::is_alphanumeric` answers beyond ASCII.
pub uninterp spec fn alphanumeric_ext(c: char) -> bool;

/// Whitespace: in ASCII, space, tab, line feed, vertical tab, form feed and
/// carriage return; beyond ASCII, whatever `char::is_whitespace` answers.
pub open spec fn is_whitespace_char(c: char) -> bool {
    if (c as u32) < 128 {
        (c as u32) == 32 || (9 <= (c as u32) && (c as u32) <= 13)
    } else {
        whitespace_ext(c)
    }
}

/// Letters: in ASCII, `A` to `Z` and `a` to `z`; beyond ASCII, whatever
/// `char::is_alphabetic` answers.
pub open spec fn is_alphabetic_char(c: char) -> bool {
    if (c as u32) < 128 {
        (65 <= (c as u32) && (c as u32) <= 90) || (97 <= (c as u32) && (c as u32) <= 122)
    } else {
        alphabetic_ext(c)
    }
}

/// Letters and digits; beyond ASCII, whatever `char::is_alphanumeric`
/// answers.
pub open spec fn is_alphanumeric_char(c: char) -> bool {
    if (c as u32) < 128 {
        is_alphabetic_char(c) || is_digit_char(c)
    } else {
        alphanumeric_ext(c)
    }
}

/// Relies on `char::is_whitespace`: the ASCII whitespace characters are
/// exactly space, tab, line feed, vertical tab, form feed and carriage
/// return, and the answer is a function of the character alone.
#[verifier::external_body]
fn char_is_whitespace(c: char) -> (r: bool)
    ensures
        r == is_whitespace_char(c),
        (c as u32) >= 128 ==> r == whitespace_ext(c),
{
    c.is_whitespace()
}

/// Relies on `char::is_alphabetic`: the ASCII alphabetic characters are
/// exactly the upper- and lower-case letters, and the answer is a function
/// of the character alone.
#[verifier::external_body]
fn char_is_alphabetic(c: char) -> (r: bool)
    ensures
        r == is_alphabetic_char(c),
        (c as u32) >= 128 ==> r == alphabetic_ext(c),
{
    c.is_alphabetic()
}

/// Relies on `char::is_alphanumeric`: the ASCII alphanumeric characters are
/// exactly the letters and the decimal digits, and the answer is a function
/// of the character alone.
#[verifier::external_body]
fn char_is_alphanumeric(c: char) -> (r: bool)
    ensures
        r == is_alphanumeric_char(c),
        (c as u32) >= 128 ==> r == alphanumeric_ext(c),
{
    c.is_alphanumeric()
}

fn char_is_digit(c: char) -> (r: bool)
    ensures
        r == is_digit_char(c),
{
    let cc: u32 = c as u32;
    48 <= cc && cc <= 57
}

/// The four special single-character operators `+`, `-`, `*`, `/`.
pub open spec fn is_special_char(c: char) -> bool {
    (c as u32) == 43 || (c as u32) == 45 || (c as u32) == 42 || (c as u32) == 47
}

fn char_is_special(c: char) -> (r: bool)
    ensures
        r == is_special_char(c),
{
    let cc: u32 = c as u32;
    cc == 43 || cc == 45 || cc == 42 || cc == 47
}

pub open spec fn is_quote_char(c: char) -> bool {
    (c as u32) == 34
}

pub open spec fn is_dollar_char(c: char) -> bool {
    (c as u32) == 36
}

pub open spec fn is_backslash_char(c: char) -> bool {
    (c as u32) == 92
}

pub open spec fn is_underscore_char(c: char) -> bool {
    (c as u32) == 95
}

pub open spec fn is_open_brace_char(c: char) -> bool {
    (c as u32) == 123
}

pub open spec fn is_close_brace_char(c: char) -> bool {
    (c as u32) == 125
}

// ---------------------------------------------------------------------------
// Tokens
// ---------------------------------------------------------------------------
#[derive(Debug, Clone, PartialEq)]
pub enum Token {
    NumberLiteral(NumValue),
    StringLiteral(String),
    Operator(String),
    VariableIdentifier(String),
    ScopeStart,
    ScopeEnd,
}

/// The mathematical shape of a token: a number is its count of millionths,
/// a text payload is its character sequence.
pub enum TokenV {
    NumberLiteral(int),
    StringLiteral(Seq<char>),
    Operator(Seq<char>),
    VariableIdentifier(Seq<char>),
    ScopeStart,
    ScopeEnd,
}

impl View for Token {
    type V = TokenV;

    open spec fn view(&self) -> TokenV {
        match self {
            Token::NumberLiteral(v) => TokenV::NumberLiteral(v@),
            Token::StringLiteral(s) => TokenV::StringLiteral(s@),
            Token::Operator(s) => TokenV::Operator(s@),
            Token::VariableIdentifier(s) => TokenV::VariableIdentifier(s@),
            Token::ScopeStart => TokenV::ScopeStart,
            Token::ScopeEnd => TokenV::ScopeEnd,
        }
    }
}

pub open spec fn tokens_view(ts: Seq<Token>) -> Seq<TokenV> {
    ts.map_values(|t: Token| t@)
}

#[derive(Debug, Clone, PartialEq)]
pub enum LexError {
    UnexpectedCharacter(char),
    InvalidNumber(String),
    EmptyOperator,
    EmptyVariableIdentifier,
}

pub enum LexErrorV {
    UnexpectedCharacter(char),
    InvalidNumber(Seq<char>),
    EmptyOperator,
    EmptyVariableIdentifier,
}

impl View for LexError {
    type V = LexErrorV;

    open spec fn view(&self) -> LexErrorV {
        match self {
            LexError::UnexpectedCharacter(c) => LexErrorV::UnexpectedCharacter(*c),
            LexError::InvalidNumber(s) => LexErrorV::InvalidNumber(s@),
            LexError::EmptyOperator => LexErrorV::EmptyOperator,
            LexError::EmptyVariableIdentifier => LexErrorV::EmptyVariableIdentifier,
        }
    }
}

impl Token {
    /// Parse `raw_value` as a numeric literal token.
    pub fn new_number_literal(raw_value: &str) -> (r: Result<Token, LexError>)
        ensures
            match r {
                Ok(t) => parse_num(raw_value@) is Some && t@ == TokenV::NumberLiteral(
                    parse_num(raw_value@).unwrap(),
                ),
                Err(e) => parse_num(raw_value@) is None && e@ == LexErrorV::InvalidNumber(
                    raw_value@,
                ),
            },
    {
        let chars = str_to_chars(raw_value);
        match parse_num_value(&chars) {
            Some(v) => Ok(Token::NumberLiteral(v)),
            None => Err(LexError::InvalidNumber(raw_value.to_owned())),
        }
    }

    pub fn new_string_literal(raw_value: &str) -> (r: Result<Token, LexError>)
        ensures
            r is Ok && r->Ok_0@ == TokenV::StringLiteral(raw_value@),
    {
        Ok(Token::StringLiteral(raw_value.to_owned()))
    }

    /// An operator token; the name must not be empty.
    pub fn new_operator(raw_value: &str) -> (r: Result<Token, LexError>)
        ensures
            raw_value@.len() > 0 ==> r is Ok && r->Ok_0@ == TokenV::Operator(raw_value@),
            raw_value@.len() == 0 ==> r is Err && r->Err_0@ == LexErrorV::EmptyOperator,
    {
        if raw_value.is_empty() {
            Err(LexError::EmptyOperator)
        } else {
            Ok(Token::Operator(raw_value.to_owned()))
        }
    }

    /// A variable identifier token; the name must not be empty.
    pub fn new_variable_identifier(raw_value: &str) -> (r: Result<Token, LexError>)
        ensures
            raw_value@.len() > 0 ==> r is Ok && r->Ok_0@ == TokenV::VariableIdentifier(raw_value@),
            raw_value@.len() == 0 ==> r is Err && r->Err_0@ == LexErrorV::EmptyVariableIdentifier,
    {
        if raw_value.is_empty() {
            Err(LexError::EmptyVariableIdentifier)
        } else {
            Ok(Token::VariableIdentifier(raw_value.to_owned()))
        }
    }
}

// ---------------------------------------------------------------------------
// The state machine, as a specification
// ---------------------------------------------------------------------------
#[derive(Clone, Copy, PartialEq, Eq, Structural, Debug)]
pub enum LexerState {
    Default,
    NumberLiteral,
    StringLiteral,
    Operator,
    VariableIdentifier,
}

pub open spec fn next_is_digit(next: Option<char>) -> bool {
    match next {
        Some(c) => is_digit_char(c),
        None => false,
    }
}

pub open spec fn prev_is_backslash(prev: Option<char>) -> bool {
    match prev {
        Some(c) => is_backslash_char(c),
        None => false,
    }
}

/// The tokens, if any, emitted when a state ends with accumulated text
/// `buf`.
pub open spec fn end_token_spec(st: LexerState, buf: Seq<char>) -> Result<
    Seq<TokenV>,
    LexErrorV,
> {
    match st {
        LexerState::Default => Ok(seq![]),
        LexerState::NumberLiteral => match parse_num(buf) {
            Some(m) => Ok(seq![TokenV::NumberLiteral(m)]),
            None => Err(LexErrorV::InvalidNumber(buf)),
        },
        LexerState::StringLiteral => Ok(seq![TokenV::StringLiteral(buf)]),
        LexerState::Operator => {
            if buf.len() == 0 {
                Err(LexErrorV::EmptyOperator)
            } else {
                Ok(seq![TokenV::Operator(buf)])
            }
        },
        LexerState::VariableIdentifier => {
            if buf.len() == 0 {
                Err(LexErrorV::EmptyVariableIdentifier)
            } else {
                Ok(seq![TokenV::VariableIdentifier(buf)])
            }
        },
    }
}

/// Dispatching a character from the `Default` state: the new state, the new
/// accumulation buffer, and any token emitted at once.
pub open spec fn default_step(c: char, next: Option<char>) -> Result<
    (LexerState, Seq<char>, Seq<TokenV>),
    LexErrorV,
> {
    if is_whitespace_char(c) {
        Ok((LexerState::Default, Seq::empty(), seq![]))
    } else if is_digit_char(c) || (is_minus_char(c) && next_is_digit(next)) {
        Ok((LexerState::NumberLiteral, seq![c], seq![]))
    } else if is_quote_char(c) {
        Ok((LexerState::StringLiteral, Seq::empty(), seq![]))
    } else if is_special_char(c) {
        Ok((LexerState::Operator, seq![c], seq![]))
    } else if is_alphabetic_char(c) {
        Ok((LexerState::Operator, seq![c], seq![]))
    } else if is_dollar_char(c) {
        Ok((LexerState::VariableIdentifier, Seq::empty(), seq![]))
    } else if is_open_brace_char(c) {
        Ok((LexerState::Default, Seq::empty(), seq![TokenV::ScopeStart]))
    } else if is_close_brace_char(c) {
        Ok((LexerState::Default, Seq::empty(), seq![TokenV::ScopeEnd]))
    } else {
        Err(LexErrorV::UnexpectedCharacter(c))
    }
}

/// Ending the current token and re-dispatching the same character from
/// `Default`.
pub open spec fn end_and_redispatch(st: LexerState, buf: Seq<char>, c: char, next: Option<char>)
    -> Result<(LexerState, Seq<char>, Seq<TokenV>), LexErrorV> {
    match end_token_spec(st, buf) {
        Ok(toks) => match default_step(c, next) {
            Ok((st2, buf2, toks2)) => Ok((st2, buf2, toks + toks2)),
            Err(e) => Err(e),
        },
        Err(e) => Err(e),
    }
}

/// One step of the scanner on the character `c`, given the character after
/// it and the raw character before it in the input.
pub open spec fn lex_step(
    st: LexerState,
    buf: Seq<char>,
    c: char,
    next: Option<char>,
    prev: Option<char>,
) -> Result<(LexerState, Seq<char>, Seq<TokenV>), LexErrorV> {
    match st {
        LexerState::Default => default_step(c, next),
        LexerState::NumberLiteral => {
            if is_digit_char(c) || is_dot_char(c) {
                Ok((st, buf.push(c), seq![]))
            } else {
                end_and_redispatch(st, buf, c, next)
            }
        },
        LexerState::StringLiteral => {
            if is_quote_char(c) && !prev_is_backslash(prev) {
                Ok((LexerState::Default, Seq::empty(), seq![TokenV::StringLiteral(buf)]))
            } else if is_backslash_char(c) {
                Ok((st, buf, seq![]))
            } else {
                Ok((st, buf.push(c), seq![]))
            }
        },
        LexerState::Operator => {
            if buf.len() == 1 && is_special_char(buf[0]) {
                match default_step(c, next) {
                    Ok((st2, buf2, toks2)) => Ok((st2, buf2, seq![TokenV::Operator(buf)] + toks2)),
                    Err(e) => Err(e),
                }
            } else if is_alphanumeric_char(c) || is_dot_char(c) {
                Ok((st, buf.push(c), seq![]))
            } else {
                end_and_redispatch(st, buf, c, next)
            }
        },
        LexerState::VariableIdentifier => {
            if is_alphanumeric_char(c) || is_underscore_char(c) {
                Ok((st, buf.push(c), seq![]))
            } else {
                end_and_redispatch(st, buf, c, next)
            }
        },
    }
}

/// The scanner's final result from position `i` onward, in state `st` with
/// accumulated text `buf`, with `toks` already emitted.
pub open spec fn scan_from(
    s: Seq<char>,
    i: int,
    st: LexerState,
    buf: Seq<char>,
    toks: Seq<TokenV>,
) -> Result<Seq<TokenV>, LexErrorV>
    decreases s.len() - i,
    when 0 <= i <= s.len()
{
    if i >= s.len() {
        match end_token_spec(st, buf) {
            Ok(t2) => Ok(toks + t2),
            Err(e) => Err(e),
        }
    } else {
        match lex_step(st, buf, s[i], char_at(s, i + 1), char_at(s, i - 1)) {
            Ok((st2, buf2, emitted)) => scan_from(s, i + 1, st2, buf2, toks + emitted),
            Err(e) => Err(e),
        }
    }
}

/// What scanning a whole text yields: the token sequence, or the first
/// lexical error. Scanning is a function of the input text alone.
pub open spec fn scan_spec(s: Seq<char>) -> Result<Seq<TokenV>, LexErrorV> {
    scan_from(s, 0, LexerState::Default, Seq::empty(), seq![])
}


// ---------------------------------------------------------------------------
// The executable scanner
// ---------------------------------------------------------------------------
proof fn lemma_tokens_view_push(ts: Seq<Token>, t: Token)
    ensures
        tokens_view(ts.push(t)) == tokens_view(ts).push(t@),
{
    assert(tokens_view(ts.push(t)) =~= tokens_view(ts).push(t@));
}

proof fn lemma_seq_add_assoc<A>(a: Seq<A>, b: Seq<A>, c: Seq<A>)
    ensures
        (a + b) + c == a + (b + c),
{
    assert((a + b) + c =~= a + (b + c));
}

fn next_digit(next: Option<char>) -> (r: bool)
    ensures
        r == next_is_digit(next),
{
    match next {
        Some(c) => char_is_digit(c),
        None => false,
    }
}

fn prev_backslash(prev: Option<char>) -> (r: bool)
    ensures
        r == prev_is_backslash(prev),
{
    match prev {
        Some(c) => (c as u32) == 92,
        None => false,
    }
}

pub struct Lexer {
    scanner: CharScanner,
    state: LexerState,
    pub token_list: Vec<Token>,
    current_token: Vec<char>,
}

impl Lexer {
    /// The views of the tokens produced.
    pub closed spec fn tokens(&self) -> Seq<TokenV> {
        tokens_view(self.token_list@)
    }

    /// Scan source text into a token list; the result is a function of the
    /// input text alone.
    pub fn scan(source_code: &str) -> (r: Result<Lexer, LexError>)
        ensures
            match r {
                Ok(lexer) => scan_spec(source_code@) is Ok && lexer.tokens() == scan_spec(
                    source_code@,
                )->Ok_0,
                Err(e) => scan_spec(source_code@) is Err && e@ == scan_spec(source_code@)->Err_0,
            },
    {
        let mut lexer = Lexer {
            scanner: CharScanner::new(source_code),
            state: LexerState::Default,
            token_list: Vec::new(),
            current_token: Vec::new(),
        };
        proof {
            assert(tokens_view(lexer.token_list@) =~= Seq::<TokenV>::empty());
            assert(lexer.current_token@ =~= Seq::<char>::empty());
            assert(Seq::<TokenV>::empty() =~= seq![]);
            assert(scan_from(
                source_code@,
                0,
                LexerState::Default,
                lexer.current_token@,
                tokens_view(lexer.token_list@),
            ) == scan_spec(source_code@));
        }
        // Scan the source one character at a time; fail on the first error.
        loop
            invariant
                lexer.scanner.wf(),
                lexer.scanner.text() == source_code@,
                lexer.state is Default ==> lexer.current_token@.len() == 0,
                scan_from(
                    source_code@,
                    lexer.scanner.pos(),
                    lexer.state,
                    lexer.current_token@,
                    tokens_view(lexer.token_list@),
                ) == scan_spec(source_code@),
            ensures
                lexer.scanner.wf(),
                lexer.scanner.pos() == source_code@.len(),
                scan_from(
                    source_code@,
                    lexer.scanner.pos(),
                    lexer.state,
                    lexer.current_token@,
                    tokens_view(lexer.token_list@),
                ) == scan_spec(source_code@),
            decreases source_code@.len() - lexer.scanner.pos(),
        {
            let ghost pos0 = lexer.scanner.pos();
            let ghost st0 = lexer.state;
            let ghost buf0 = lexer.current_token@;
            let ghost toks0 = tokens_view(lexer.token_list@);
            match lexer.scanner.next() {
                Some(ch) => {
                    match lexer.evaluate_char(ch) {
                        Ok(u) => {
                            proof {
                                assert(scan_from(source_code@, pos0, st0, buf0, toks0) == (
                                match lex_step(
                                    st0,
                                    buf0,
                                    source_code@[pos0],
                                    char_at(source_code@, pos0 + 1),
                                    char_at(source_code@, pos0 - 1),
                                ) {
                                    Ok((st2, buf2, emitted)) => scan_from(
                                        source_code@,
                                        pos0 + 1,
                                        st2,
                                        buf2,
                                        toks0 + emitted,
                                    ),
                                    Err(e) => Err(e),
                                }));
                            }
                        },
                        Err(e) => {
                            proof {
                                assert(scan_from(source_code@, pos0, st0, buf0, toks0)
                                    == Err::<Seq<TokenV>, LexErrorV>(e@));
                            }
                            return Err(e);
                        },
                    }
                },
                None => {
                    break ;
                },
            }
        }
        // End of input finalizes whatever token is mid-accumulation.
        let ghost stf = lexer.state;
        let ghost buff = lexer.current_token@;
        let ghost toksf = tokens_view(lexer.token_list@);
        match lexer.end_token() {
            Ok(u) => {
                proof {
                    assert(scan_from(source_code@, source_code@.len() as int, stf, buff, toksf)
                        == scan_spec(source_code@));
                }
                Ok(lexer)
            },
            Err(e) => {
                proof {
                    assert(scan_from(source_code@, source_code@.len() as int, stf, buff, toksf)
                        == scan_spec(source_code@));
                }
                Err(e)
            },
        }
    }

    /// Dispatch a character from the `Default` state.
    fn evaluate_default(&mut self, ch: char) -> (r: Result<(), LexError>)
        requires
            old(self).scanner.wf(),
            1 <= old(self).scanner.pos() <= old(self).scanner.text().len(),
            ch == old(self).scanner.text()[old(self).scanner.pos() - 1],
            old(self).current_token@.len() == 0,
            old(self).state is Default,
        ensures
            final(self).scanner == old(self).scanner,
            match default_step(
                ch,
                char_at(old(self).scanner.text(), old(self).scanner.pos()),
            ) {
                Ok((st2, buf2, emitted)) => r is Ok && final(self).state == st2 && final(self).current_token@ == buf2 && tokens_view(final(self).token_list@) == tokens_view(
                    old(self).token_list@,
                ) + emitted,
                Err(e) => r is Err && r->Err_0@ == e,
            },
    {
        let ghost toks0 = tokens_view(self.token_list@);
        let next = self.scanner.peek();
        let cc: u32 = ch as u32;
        if char_is_whitespace(ch) {
            proof {
                assert(tokens_view(self.token_list@) =~= toks0 + seq![]);
                assert(self.current_token@ =~= Seq::<char>::empty());
            }
            Ok(())
        } else if char_is_digit(ch) || (cc == 45 && next_digit(next)) {
            self.current_token.push(ch);
            self.state = LexerState::NumberLiteral;
            proof {
                assert(self.current_token@ =~= seq![ch]);
                assert(tokens_view(self.token_list@) =~= toks0 + seq![]);
            }
            Ok(())
        } else if cc == 34 {
            self.state = LexerState::StringLiteral;
            proof {
                assert(self.current_token@ =~= Seq::<char>::empty());
                assert(tokens_view(self.token_list@) =~= toks0 + seq![]);
            }
            Ok(())
        } else if char_is_special(ch) {
            self.current_token.push(ch);
            self.state = LexerState::Operator;
            proof {
                assert(self.current_token@ =~= seq![ch]);
                assert(tokens_view(self.token_list@) =~= toks0 + seq![]);
            }
            Ok(())
        } else if char_is_alphabetic(ch) {
            self.current_token.push(ch);
            self.state = LexerState::Operator;
            proof {
                assert(self.current_token@ =~= seq![ch]);
                assert(tokens_view(self.token_list@) =~= toks0 + seq![]);
            }
            Ok(())
        } else if cc == 36 {
            self.state = LexerState::VariableIdentifier;
            proof {
                assert(self.current_token@ =~= Seq::<char>::empty());
                assert(tokens_view(self.token_list@) =~= toks0 + seq![]);
            }
            Ok(())
        } else if cc == 123 {
            self.token_list.push(Token::ScopeStart);
            proof {
                lemma_tokens_view_push(old(self).token_list@, Token::ScopeStart);
                assert(tokens_view(self.token_list@) =~= toks0 + seq![TokenV::ScopeStart]);
                assert(self.current_token@ =~= Seq::<char>::empty());
            }
            Ok(())
        } else if cc == 125 {
            self.token_list.push(Token::ScopeEnd);
            proof {
                lemma_tokens_view_push(old(self).token_list@, Token::ScopeEnd);
                assert(tokens_view(self.token_list@) =~= toks0 + seq![TokenV::ScopeEnd]);
                assert(self.current_token@ =~= Seq::<char>::empty());
            }
            Ok(())
        } else {
            Err(LexError::UnexpectedCharacter(ch))
        }
    }

    /// Evaluate one consumed character against the current state.
    fn evaluate_char(&mut self, ch: char) -> (r: Result<(), LexError>)
        requires
            old(self).scanner.wf(),
            1 <= old(self).scanner.pos() <= old(self).scanner.text().len(),
            ch == old(self).scanner.text()[old(self).scanner.pos() - 1],
            old(self).state is Default ==> old(self).current_token@.len() == 0,
        ensures
            final(self).scanner == old(self).scanner,
            match lex_step(
                old(self).state,
                old(self).current_token@,
                ch,
                char_at(old(self).scanner.text(), old(self).scanner.pos()),
                char_at(old(self).scanner.text(), old(self).scanner.pos() - 2),
            ) {
                Ok((st2, buf2, emitted)) => r is Ok && final(self).state == st2 && final(self).current_token@ == buf2 && tokens_view(final(self).token_list@) == tokens_view(
                    old(self).token_list@,
                ) + emitted,
                Err(e) => r is Err && r->Err_0@ == e,
            },
    {
        let ghost toks0 = tokens_view(self.token_list@);
        let ghost buf0 = self.current_token@;
        match self.state {
            LexerState::Default => self.evaluate_default(ch),
            LexerState::NumberLiteral => {
                if char_is_digit(ch) || (ch as u32) == 46 {
                    // Continue building the number literal.
                    self.current_token.push(ch);
                    proof {
                        assert(tokens_view(self.token_list@) =~= toks0 + seq![]);
                    }
                    Ok(())
                } else {
                    // Any other character ends the number literal; it is then
                    // re-dispatched against the fresh `Default` state.
                    match self.end_token() {
                        Ok(u) => {
                            self.state = LexerState::Default;
                            let res = self.evaluate_default(ch);
                            proof {
                                let nxt = char_at(old(self).scanner.text(), old(self).scanner.pos());
                                if res is Ok {
                                    lemma_seq_add_assoc(
                                        toks0,
                                        end_token_spec(LexerState::NumberLiteral, buf0)->Ok_0,
                                        default_step(ch, nxt)->Ok_0.2,
                                    );
                                }
                            }
                            res
                        },
                        Err(e) => Err(e),
                    }
                }
            },
            LexerState::StringLiteral => {
                let prev = self.scanner.peek_offset(-1);
                if (ch as u32) == 34 && !prev_backslash(prev) {
                    // An unescaped quote terminates the string.
                    match self.end_token() {
                        Ok(u) => {
                            self.state = LexerState::Default;
                            Ok(())
                        },
                        Err(e) => Err(e),
                    }
                } else if (ch as u32) == 92 {
                    // Drop the escape character; the following character is
                    // taken literally.
                    proof {
                        assert(tokens_view(self.token_list@) =~= toks0 + seq![]);
                    }
                    Ok(())
                } else {
                    self.current_token.push(ch);
                    proof {
                        assert(tokens_view(self.token_list@) =~= toks0 + seq![]);
                    }
                    Ok(())
                }
            },
            LexerState::Operator => {
                let special = self.current_token.len() == 1 && char_is_special(
                    self.current_token[0],
                );
                if special {
                    // Special symbol operators are always exactly one
                    // character: end at once and re-dispatch.
                    match self.end_token() {
                        Ok(u) => {
                            self.state = LexerState::Default;
                            let res = self.evaluate_default(ch);
                            proof {
                                let nxt = char_at(old(self).scanner.text(), old(self).scanner.pos());
                                if res is Ok {
                                    lemma_seq_add_assoc(
                                        toks0,
                                        seq![TokenV::Operator(buf0)],
                                        default_step(ch, nxt)->Ok_0.2,
                                    );
                                }
                            }
                            res
                        },
                        Err(e) => Err(e),
                    }
                } else if char_is_alphanumeric(ch) || (ch as u32) == 46 {
                    self.current_token.push(ch);
                    proof {
                        assert(tokens_view(self.token_list@) =~= toks0 + seq![]);
                    }
                    Ok(())
                } else {
                    match self.end_token() {
                        Ok(u) => {
                            self.state = LexerState::Default;
                            let res = self.evaluate_default(ch);
                            proof {
                                let nxt = char_at(old(self).scanner.text(), old(self).scanner.pos());
                                if res is Ok {
                                    lemma_seq_add_assoc(
                                        toks0,
                                        end_token_spec(LexerState::Operator, buf0)->Ok_0,
                                        default_step(ch, nxt)->Ok_0.2,
                                    );
                                }
                            }
                            res
                        },
                        Err(e) => Err(e),
                    }
                }
            },
            LexerState::VariableIdentifier => {
                if char_is_alphanumeric(ch) || (ch as u32) == 95 {
                    self.current_token.push(ch);
                    proof {
                        assert(tokens_view(self.token_list@) =~= toks0 + seq![]);
                    }
                    Ok(())
                } else {
                    match self.end_token() {
                        Ok(u) => {
                            self.state = LexerState::Default;
                            let res = self.evaluate_default(ch);
                            proof {
                                let nxt = char_at(old(self).scanner.text(), old(self).scanner.pos());
                                if res is Ok {
                                    lemma_seq_add_assoc(
                                        toks0,
                                        end_token_spec(LexerState::VariableIdentifier, buf0)->Ok_0,
                                        default_step(ch, nxt)->Ok_0.2,
                                    );
                                }
                            }
                            res
                        },
                        Err(e) => Err(e),
                    }
                }
            },
        }
    }

    /// Finalize whatever token is mid-accumulation.
    fn end_token(&mut self) -> (r: Result<(), LexError>)
        ensures
            final(self).scanner == old(self).scanner,
            final(self).state == old(self).state,
            match end_token_spec(old(self).state, old(self).current_token@) {
                Ok(emitted) => r is Ok && tokens_view(final(self).token_list@) == tokens_view(
                    old(self).token_list@,
                ) + emitted && (old(self).state is Default ==> final(self).current_token == old(self).current_token) && (!(old(self).state is Default) ==> final(self).current_token@.len() == 0),
                Err(e) => r is Err && r->Err_0@ == e,
            },
    {
        let ghost toks0 = tokens_view(self.token_list@);
        match self.state {
            LexerState::Default => {
                proof {
                    assert(tokens_view(self.token_list@) =~= toks0 + seq![]);
                }
                Ok(())
            },
            LexerState::NumberLiteral => {
                let raw = string_from_chars(&self.current_token);
                let tok = Token::new_number_literal(raw.as_str());
                self.process_new_token(tok)
            },
            LexerState::StringLiteral => {
                let raw = string_from_chars(&self.current_token);
                let tok = Token::new_string_literal(raw.as_str());
                self.process_new_token(tok)
            },
            LexerState::Operator => {
                let raw = string_from_chars(&self.current_token);
                let tok = Token::new_operator(raw.as_str());
                self.process_new_token(tok)
            },
            LexerState::VariableIdentifier => {
                let raw = string_from_chars(&self.current_token);
                let tok = Token::new_variable_identifier(raw.as_str());
                self.process_new_token(tok)
            },
        }
    }

    /// Push a freshly built token and clear the accumulation buffer, or pass
    /// the constructor's error through.
    fn process_new_token(&mut self, token: Result<Token, LexError>) -> (r: Result<(), LexError>)
        ensures
            final(self).scanner == old(self).scanner,
            final(self).state == old(self).state,
            match token {
                Ok(t) => r is Ok && tokens_view(final(self).token_list@) == tokens_view(
                    old(self).token_list@,
                ).push(t@) && final(self).current_token@.len() == 0,
                Err(e) => r is Err && r->Err_0 == e,
            },
    {
        match token {
            Ok(t) => {
                proof {
                    lemma_tokens_view_push(self.token_list@, t);
                }
                self.token_list.push(t);
                self.current_token.clear();
                Ok(())
            },
            Err(e) => Err(e),
        }
    }
}


// ---------------------------------------------------------------------------
// A law of the scanner
// ---------------------------------------------------------------------------
/// A well-formed numeric literal, as a whole input: it parses to a value,
/// and its first character lets the scanner enter the number state — a
/// digit, or a minus sign immediately followed by a digit.
pub open spec fn wf_numeric_literal(s: Seq<char>) -> bool {
    &&& parse_num(s) is Some
    &&& s.len() > 0
    &&& (is_digit_char(s[0]) || (is_minus_char(s[0]) && s.len() >= 2 && is_digit_char(s[1])))
}

proof fn lemma_scan_number_state(s: Seq<char>, i: int, buf: Seq<char>, toks: Seq<TokenV>)
    requires
        0 <= i <= s.len(),
        forall|k: int| i <= k < s.len() ==> is_digit_char(#[trigger] s[k]) || is_dot_char(s[k]),
        parse_num(buf + s.skip(i)) is Some,
    ensures
        scan_from(s, i, LexerState::NumberLiteral, buf, toks) == Ok::<Seq<TokenV>, LexErrorV>(
            toks.push(TokenV::NumberLiteral(parse_num(buf + s.skip(i)).unwrap())),
        ),
    decreases s.len() - i,
{
    if i == s.len() {
        assert(buf + s.skip(i) =~= buf);
        assert(toks + seq![TokenV::NumberLiteral(parse_num(buf).unwrap())] =~= toks.push(
            TokenV::NumberLiteral(parse_num(buf).unwrap()),
        ));
    } else {
        let c = s[i];
        assert(is_digit_char(c) || is_dot_char(c));
        assert(buf.push(c) + s.skip(i + 1) =~= buf + s.skip(i));
        lemma_scan_number_state(s, i + 1, buf.push(c), toks);
        assert(toks + seq![] =~= toks);
    }
}

/// Law: scanning a well-formed numeric literal yields exactly one number
/// token, whose value is the parsed value of the literal.
pub proof fn lemma_scan_numeric_literal(s: Seq<char>)
    requires
        wf_numeric_literal(s),
    ensures
        scan_spec(s) == Ok::<Seq<TokenV>, LexErrorV>(
            seq![TokenV::NumberLiteral(parse_num(s).unwrap())],
        ),
{
    let c = s[0];
    assert(!is_whitespace_char(c));
    let body = crate::numeric::num_body(s);
    assert(forall|k: int|
        0 <= k < body.len() ==> is_digit_char(#[trigger] body[k]) || is_dot_char(body[k]));
    if is_digit_char(c) {
        assert(!crate::numeric::num_is_neg(s));
        assert(body =~= s);
        assert forall|k: int| 1 <= k < s.len() implies is_digit_char(#[trigger] s[k]) || is_dot_char(
            s[k],
        ) by {
            assert(s[k] == body[k]);
        }
        assert(seq![c] + s.skip(1) =~= s);
        lemma_scan_number_state(s, 1, seq![c], seq![]);
        assert(seq![] + seq![] =~= Seq::<TokenV>::empty());
        assert(Seq::<TokenV>::empty().push(TokenV::NumberLiteral(parse_num(s).unwrap())) =~= seq![
            TokenV::NumberLiteral(parse_num(s).unwrap()),
        ]);
        assert(scan_from(s, 0, LexerState::Default, Seq::empty(), seq![]) == scan_from(
            s,
            1,
            LexerState::NumberLiteral,
            seq![c],
            seq![] + seq![],
        ));
        assert(seq![] + seq![] =~= Seq::<TokenV>::empty());
    } else {
        assert(is_minus_char(c) && s.len() >= 2 && is_digit_char(s[1]));
        assert(!is_digit_char(c));
        assert(char_at(s, 1) == Some(s[1]));
        assert(next_is_digit(char_at(s, 1)));
        assert(crate::numeric::num_is_neg(s));
        assert(body =~= s.skip(1));
        assert forall|k: int| 1 <= k < s.len() implies is_digit_char(#[trigger] s[k]) || is_dot_char(
            s[k],
        ) by {
            assert(s[k] == body[k - 1]);
        }
        assert(seq![c] + s.skip(1) =~= s);
        lemma_scan_number_state(s, 1, seq![c], seq![]);
        assert(scan_from(s, 0, LexerState::Default, Seq::empty(), seq![]) == scan_from(
            s,
            1,
            LexerState::NumberLiteral,
            seq![c],
            seq![] + seq![],
        ));
        assert(seq![] + seq![] =~= Seq::<TokenV>::empty());
        assert(Seq::<TokenV>::empty().push(TokenV::NumberLiteral(parse_num(s).unwrap())) =~= seq![
            TokenV::NumberLiteral(parse_num(s).unwrap()),
        ]);
    }
}

} // verus!
