//! The lexer: turns Unicode source text into a flat token sequence.
//!
//! The mathematical model is `spec_tokens`, a recursive function over the
//! character sequence of the source.  `tokenize` and `Lexer::tokenize_all`
//! are proved to return exactly what the model says, so lexing is a pure
//! function of the source text.

use vstd::prelude::*;
use crate::error::{Error, ErrM};
use crate::text::{alpha, char_is_alpha, digit, digit_run_value, num_from_digits, push_char,
    str_chars, str_eq};

verus! {

/// A lexical token.
#[derive(Debug, Clone, PartialEq)]
pub enum Token {
    // Keywords
    Begin,
    End,
    Print,
    Let,
    True,
    False,
    Plus,
    Minus,
    Multiply,
    Divide,
    Function,
    Return,
    Input,
    // Conditionals
    If,
    Else,
    ElseIf,
    // Loops
    While,
    For,
    In,
    Break,
    Continue,
    // Comparisons
    Equal,
    NotEqual,
    Less,
    Greater,
    LessEqual,
    GreaterEqual,
    // Logical negation
    Not,
    // Method-call dot
    Dot,
    // Delimiters
    LeftParen,
    RightParen,
    LeftBrace,
    RightBrace,
    LeftBracket,
    RightBracket,
    Comma,
    // Literals
    Identifier(String),
    Number(i64),
    String(String),
    // Assignment
    Equals,
    // Separators
    Newline,
    Eof,
}

/// Mathematical model of a token: payloads are character sequences.
pub enum TokM {
    Begin,
    End,
    Print,
    Let,
    True,
    False,
    Plus,
    Minus,
    Multiply,
    Divide,
    Function,
    Return,
    Input,
    If,
    Else,
    ElseIf,
    While,
    For,
    In,
    Break,
    Continue,
    Equal,
    NotEqual,
    Less,
    Greater,
    LessEqual,
    GreaterEqual,
    Not,
    Dot,
    LeftParen,
    RightParen,
    LeftBrace,
    RightBrace,
    LeftBracket,
    RightBracket,
    Comma,
    Ident(Seq<char>),
    Num(i64),
    Str(Seq<char>),
    Equals,
    Newline,
    Eof,
}

impl View for Token {
    type V = TokM;

    open spec fn view(&self) -> TokM {
        match self {
            Token::Begin => TokM::Begin,
            Token::End => TokM::End,
            Token::Print => TokM::Print,
            Token::Let => TokM::Let,
            Token::True => TokM::True,
            Token::False => TokM::False,
            Token::Plus => TokM::Plus,
            Token::Minus => TokM::Minus,
            Token::Multiply => TokM::Multiply,
            Token::Divide => TokM::Divide,
            Token::Function => TokM::Function,
            Token::Return => TokM::Return,
            Token::Input => TokM::Input,
            Token::If => TokM::If,
            Token::Else => TokM::Else,
            Token::ElseIf => TokM::ElseIf,
            Token::While => TokM::While,
            Token::For => TokM::For,
            Token::In => TokM::In,
            Token::Break => TokM::Break,
            Token::Continue => TokM::Continue,
            Token::Equal => TokM::Equal,
            Token::NotEqual => TokM::NotEqual,
            Token::Less => TokM::Less,
            Token::Greater => TokM::Greater,
            Token::LessEqual => TokM::LessEqual,
            Token::GreaterEqual => TokM::GreaterEqual,
            Token::Not => TokM::Not,
            Token::Dot => TokM::Dot,
            Token::LeftParen => TokM::LeftParen,
            Token::RightParen => TokM::RightParen,
            Token::LeftBrace => TokM::LeftBrace,
            Token::RightBrace => TokM::RightBrace,
            Token::LeftBracket => TokM::LeftBracket,
            Token::RightBracket => TokM::RightBracket,
            Token::Comma => TokM::Comma,
            Token::Identifier(s) => TokM::Ident(s@),
            Token::Number(n) => TokM::Num(*n),
            Token::String(s) => TokM::Str(s@),
            Token::Equals => TokM::Equals,
            Token::Newline => TokM::Newline,
            Token::Eof => TokM::Eof,
        }
    }
}

impl DeepView for Token {
    type V = TokM;

    open spec fn deep_view(&self) -> TokM {
        self.view()
    }
}

/// The keyword table: the token a spelling maps to, if it is a keyword.
/// Several keywords have a second, Latin-only spelling that maps to the
/// same token.
pub open spec fn keyword_token(w: Seq<char>) -> Option<TokM> {
    if w == "fara"@ {
        Some(TokM::Begin)
    } else if w == "ƙare"@ || w == "kare"@ {
        Some(TokM::End)
    } else if w == "rubuta"@ {
        Some(TokM::Print)
    } else if w == "naɗa"@ || w == "nada"@ {
        Some(TokM::Let)
    } else if w == "gaskiya"@ {
        Some(TokM::True)
    } else if w == "karya"@ {
        Some(TokM::False)
    } else if w == "ƙara"@ || w == "kara"@ {
        Some(TokM::Plus)
    } else if w == "rage"@ {
        Some(TokM::Minus)
    } else if w == "ninka"@ {
        Some(TokM::Multiply)
    } else if w == "raba"@ {
        Some(TokM::Divide)
    } else if w == "aiki"@ {
        Some(TokM::Function)
    } else if w == "mayar"@ {
        Some(TokM::Return)
    } else if w == "karɓa"@ {
        Some(TokM::Input)
    } else if w == "idan"@ {
        Some(TokM::If)
    } else if w == "amma"@ {
        Some(TokM::Else)
    } else if w == "ammaina"@ {
        Some(TokM::ElseIf)
    } else if w == "yayinda"@ {
        Some(TokM::While)
    } else if w == "domin"@ {
        Some(TokM::For)
    } else if w == "cikin"@ {
        Some(TokM::In)
    } else if w == "tsaya"@ {
        Some(TokM::Break)
    } else if w == "cigaba"@ {
        Some(TokM::Continue)
    } else {
        None
    }
}

/// Whitespace that the lexer skips: space, tab and carriage return.  A
/// newline is significant and becomes its own token.
pub open spec fn white(c: char) -> bool {
    c == ' ' || c == '\t' || c == '\r'
}

/// The script-specific letters accepted in identifiers.
pub open spec fn hausa_char(c: char) -> bool {
    c == 'ɓ' || c == 'ɗ' || c == 'ƙ' || c == 'ƴ' || c == 'ʔ'
}

/// Whether a character can start an identifier or keyword.
pub open spec fn ident_start(c: char) -> bool {
    alpha(c) || hausa_char(c)
}

/// Whether a character can continue an identifier or keyword.
pub open spec fn ident_cont(c: char) -> bool {
    alpha(c) || c == '_' || digit(c) || hausa_char(c)
}

/// The end of the whitespace run starting at `i`.
pub open spec fn white_end(s: Seq<char>, i: int) -> int
    decreases s.len() - i,
{
    if 0 <= i < s.len() && white(s[i]) {
        white_end(s, i + 1)
    } else {
        i
    }
}

/// The position of the newline (or the end of input) that closes a comment
/// scanned from `i`.
pub open spec fn comment_end(s: Seq<char>, i: int) -> int
    decreases s.len() - i,
{
    if 0 <= i < s.len() && s[i] != '\n' {
        comment_end(s, i + 1)
    } else {
        i
    }
}

/// The end of the digit run starting at `i`.
pub open spec fn digits_end(s: Seq<char>, i: int) -> int
    decreases s.len() - i,
{
    if 0 <= i < s.len() && digit(s[i]) {
        digits_end(s, i + 1)
    } else {
        i
    }
}

/// The end of the identifier run starting at `i`.
pub open spec fn ident_end(s: Seq<char>, i: int) -> int
    decreases s.len() - i,
{
    if 0 <= i < s.len() && ident_cont(s[i]) {
        ident_end(s, i + 1)
    } else {
        i
    }
}

/// The position of the closing quote of a string literal scanned from `i`,
/// or the length of the input if the literal is unterminated.
pub open spec fn str_end(s: Seq<char>, i: int) -> int
    decreases s.len() - i,
{
    if 0 <= i < s.len() {
        if s[i] == '"' {
            i
        } else {
            str_end(s, i + 1)
        }
    } else {
        i
    }
}

/// One step of the lexer model: the next token and the position after it,
/// or the failure the input produces.
pub enum LexM {
    Tok(TokM, int),
    Unknown(char),
    Unterm,
}

/// The next token of `s` starting at position `i`.
pub open spec fn spec_next(s: Seq<char>, i: int) -> LexM
    decreases s.len() - i, 0int,
{
    if !(0 <= i < s.len()) {
        LexM::Tok(TokM::Eof, i)
    } else {
        let c = s[i];
        if white(c) {
            spec_next(s, i + 1)
        } else if c == '#' {
            spec_next_in_comment(s, i + 1)
        } else if c == '\n' {
            LexM::Tok(TokM::Newline, i + 1)
        } else if c == '=' {
            if i + 1 < s.len() && s[i + 1] == '=' {
                LexM::Tok(TokM::Equal, i + 2)
            } else {
                LexM::Tok(TokM::Equals, i + 1)
            }
        } else if c == '+' {
            LexM::Tok(TokM::Plus, i + 1)
        } else if c == '-' {
            LexM::Tok(TokM::Minus, i + 1)
        } else if c == '*' {
            LexM::Tok(TokM::Multiply, i + 1)
        } else if c == '/' {
            LexM::Tok(TokM::Divide, i + 1)
        } else if c == '(' {
            LexM::Tok(TokM::LeftParen, i + 1)
        } else if c == ')' {
            LexM::Tok(TokM::RightParen, i + 1)
        } else if c == '{' {
            LexM::Tok(TokM::LeftBrace, i + 1)
        } else if c == '}' {
            LexM::Tok(TokM::RightBrace, i + 1)
        } else if c == '[' {
            LexM::Tok(TokM::LeftBracket, i + 1)
        } else if c == ']' {
            LexM::Tok(TokM::RightBracket, i + 1)
        } else if c == ',' {
            LexM::Tok(TokM::Comma, i + 1)
        } else if c == '.' {
            LexM::Tok(TokM::Dot, i + 1)
        } else if c == '!' {
            if i + 1 < s.len() && s[i + 1] == '=' {
                LexM::Tok(TokM::NotEqual, i + 2)
            } else {
                LexM::Tok(TokM::Not, i + 1)
            }
        } else if c == '<' {
            if i + 1 < s.len() && s[i + 1] == '=' {
                LexM::Tok(TokM::LessEqual, i + 2)
            } else {
                LexM::Tok(TokM::Less, i + 1)
            }
        } else if c == '>' {
            if i + 1 < s.len() && s[i + 1] == '=' {
                LexM::Tok(TokM::GreaterEqual, i + 2)
            } else {
                LexM::Tok(TokM::Greater, i + 1)
            }
        } else if c == '"' {
            let e = str_end(s, i + 1);
            if e < s.len() {
                LexM::Tok(TokM::Str(s.subrange(i + 1, e)), e + 1)
            } else {
                LexM::Unterm
            }
        } else if digit(c) {
            let e = digits_end(s, i);
            LexM::Tok(TokM::Num(num_from_digits(s.subrange(i, e))), e)
        } else if ident_start(c) {
            let e = ident_end(s, i);
            let w = s.subrange(i, e);
            match keyword_token(w) {
                Some(t) => LexM::Tok(t, e),
                None => LexM::Tok(TokM::Ident(w), e),
            }
        } else {
            LexM::Unknown(c)
        }
    }
}

/// The next token when the scan stands inside a line comment.
pub open spec fn spec_next_in_comment(s: Seq<char>, i: int) -> LexM
    decreases s.len() - i, 1int,
{
    if !(0 <= i < s.len()) {
        LexM::Tok(TokM::Eof, i)
    } else if s[i] == '\n' {
        spec_next(s, i)
    } else {
        spec_next_in_comment(s, i + 1)
    }
}

/// The error value a failed lexer step maps to.
pub open spec fn lex_err(l: LexM) -> ErrM {
    match l {
        LexM::Unknown(c) => ErrM::Lex("Ba a gane kalmar '"@ + seq![c] + "'"@),
        _ => ErrM::Lex("Babu ƙarshen jimlar da aka rubuta"@),
    }
}

/// The token sequence of `s` from position `i` on: every token up to and
/// including the end-of-input token, or the first failure.  The guard on the
/// new position only records that a token other than end-of-input always
/// stands on at least one character.
pub open spec fn spec_tokens(s: Seq<char>, i: int) -> Result<Seq<TokM>, ErrM>
    decreases s.len() - i,
{
    match spec_next(s, i) {
        LexM::Tok(t, j) => {
            if t == TokM::Eof {
                Ok(seq![TokM::Eof])
            } else if i < j <= s.len() {
                match spec_tokens(s, j) {
                    Ok(rest) => Ok(seq![t] + rest),
                    Err(e) => Err(e),
                }
            } else {
                Err(lex_err(LexM::Unterm))
            }
        },
        other => Err(lex_err(other)),
    }
}

proof fn lemma_white_end_bounds(s: Seq<char>, i: int)
    requires
        0 <= i <= s.len(),
    ensures
        i <= white_end(s, i) <= s.len(),
    decreases s.len() - i,
{
    if i < s.len() && white(s[i]) {
        lemma_white_end_bounds(s, i + 1);
    }
}

proof fn lemma_comment_end_bounds(s: Seq<char>, i: int)
    requires
        0 <= i <= s.len(),
    ensures
        i <= comment_end(s, i) <= s.len(),
    decreases s.len() - i,
{
    if i < s.len() && s[i] != '\n' {
        lemma_comment_end_bounds(s, i + 1);
    }
}

proof fn lemma_digits_end_bounds(s: Seq<char>, i: int)
    requires
        0 <= i <= s.len(),
    ensures
        i <= digits_end(s, i) <= s.len(),
        forall|j: int| i <= j < digits_end(s, i) ==> digit(s[j]),
    decreases s.len() - i,
{
    if i < s.len() && digit(s[i]) {
        lemma_digits_end_bounds(s, i + 1);
    }
}

proof fn lemma_ident_end_bounds(s: Seq<char>, i: int)
    requires
        0 <= i <= s.len(),
    ensures
        i <= ident_end(s, i) <= s.len(),
    decreases s.len() - i,
{
    if i < s.len() && ident_cont(s[i]) {
        lemma_ident_end_bounds(s, i + 1);
    }
}

proof fn lemma_str_end_bounds(s: Seq<char>, i: int)
    requires
        0 <= i <= s.len(),
    ensures
        i <= str_end(s, i) <= s.len(),
    decreases s.len() - i,
{
    if i < s.len() && s[i] != '"' {
        lemma_str_end_bounds(s, i + 1);
    }
}

/// Skipping a whitespace run does not change the next token.
proof fn lemma_next_skip_white(s: Seq<char>, i: int)
    requires
        0 <= i <= s.len(),
    ensures
        spec_next(s, i) == spec_next(s, white_end(s, i)),
    decreases s.len() - i,
{
    if i < s.len() && white(s[i]) {
        lemma_next_skip_white(s, i + 1);
    }
}

/// Scanning to the end of a comment reaches the same next token.
proof fn lemma_next_skip_comment(s: Seq<char>, i: int)
    requires
        0 <= i <= s.len(),
    ensures
        spec_next_in_comment(s, i) == spec_next(s, comment_end(s, i)),
    decreases s.len() - i,
{
    if i < s.len() && s[i] != '\n' {
        lemma_next_skip_comment(s, i + 1);
    }
}

impl Token {
    /// The keyword token a spelling maps to, if any.
    pub fn from_keyword(word: &str) -> (r: Option<Token>)
        ensures
            (match r {
                Some(t) => Some(t@),
                None => None,
            }) == keyword_token(word@),
    {
        if str_eq(word, "fara") {
            Some(Token::Begin)
        } else if str_eq(word, "ƙare") || str_eq(word, "kare") {
            Some(Token::End)
        } else if str_eq(word, "rubuta") {
            Some(Token::Print)
        } else if str_eq(word, "naɗa") || str_eq(word, "nada") {
            Some(Token::Let)
        } else if str_eq(word, "gaskiya") {
            Some(Token::True)
        } else if str_eq(word, "karya") {
            Some(Token::False)
        } else if str_eq(word, "ƙara") || str_eq(word, "kara") {
            Some(Token::Plus)
        } else if str_eq(word, "rage") {
            Some(Token::Minus)
        } else if str_eq(word, "ninka") {
            Some(Token::Multiply)
        } else if str_eq(word, "raba") {
            Some(Token::Divide)
        } else if str_eq(word, "aiki") {
            Some(Token::Function)
        } else if str_eq(word, "mayar") {
            Some(Token::Return)
        } else if str_eq(word, "karɓa") {
            Some(Token::Input)
        } else if str_eq(word, "idan") {
            Some(Token::If)
        } else if str_eq(word, "amma") {
            Some(Token::Else)
        } else if str_eq(word, "ammaina") {
            Some(Token::ElseIf)
        } else if str_eq(word, "yayinda") {
            Some(Token::While)
        } else if str_eq(word, "domin") {
            Some(Token::For)
        } else if str_eq(word, "cikin") {
            Some(Token::In)
        } else if str_eq(word, "tsaya") {
            Some(Token::Break)
        } else if str_eq(word, "cigaba") {
            Some(Token::Continue)
        } else {
            None
        }
    }
}

/// The lexer: a cursor over the character sequence of the source text.
pub struct Lexer {
    input: Vec<char>,
    position: usize,
    current_char: Option<char>,
}

impl Lexer {
    /// The cursor is inside the input and the cached character matches it.
    pub closed spec fn wf(&self) -> bool {
        &&& self.position <= self.input@.len()
        &&& self.current_char == (if self.position < self.input@.len() {
            Some(self.input@[self.position as int])
        } else {
            None::<char>
        })
    }

    /// The character sequence being lexed.
    pub closed spec fn src(&self) -> Seq<char> {
        self.input@
    }

    /// The current position of the cursor.
    pub closed spec fn pos(&self) -> int {
        self.position as int
    }

    /// A lexer at the start of the given source text.
    pub fn new(input: &str) -> (l: Self)
        ensures
            l.wf(),
            l.src() == input@,
            l.pos() == 0,
    {
        let chars = str_chars(input);
        let current_char = if chars.len() > 0 {
            Some(chars[0])
        } else {
            None
        };
        Lexer { input: chars, position: 0, current_char }
    }

    fn advance(&mut self)
        requires
            old(self).wf(),
            old(self).position < old(self).input@.len(),
        ensures
            final(self).wf(),
            final(self).input == old(self).input,
            final(self).position == old(self).position + 1,
    {
        let n = self.input.len();
        self.position = self.position + 1;
        self.current_char = if self.position < n {
            Some(self.input[self.position])
        } else {
            None
        };
    }

    fn peek(&self) -> (r: Option<char>)
        requires
            self.wf(),
        ensures
            r == (if self.position + 1 < self.input@.len() {
                Some(self.input@[self.position + 1])
            } else {
                None::<char>
            }),
    {
        let n = self.input.len();
        if n - self.position > 1 {
            Some(self.input[self.position + 1])
        } else {
            None
        }
    }

    fn skip_whitespace(&mut self)
        requires
            old(self).wf(),
        ensures
            final(self).wf(),
            final(self).input == old(self).input,
            final(self).position as int == white_end(old(self).input@, old(self).position as int),
    {
        let ghost p0 = self.position as int;
        loop
            invariant
                self.wf(),
                self.input == old(self).input,
                white_end(self.input@, p0) == white_end(self.input@, self.position as int),
            ensures
                self.wf(),
                self.input == old(self).input,
                self.position as int == white_end(self.input@, p0),
            decreases self.input@.len() - self.position,
        {
            let go = match self.current_char {
                Some(c) => c == ' ' || c == '\t' || c == '\r',
                None => false,
            };
            if !go {
                break ;
            }
            self.advance();
        }
    }

    fn skip_comment(&mut self)
        requires
            old(self).wf(),
        ensures
            final(self).wf(),
            final(self).input == old(self).input,
            final(self).position as int == comment_end(old(self).input@, old(self).position as int),
    {
        let ghost p0 = self.position as int;
        loop
            invariant
                self.wf(),
                self.input == old(self).input,
                comment_end(self.input@, p0) == comment_end(self.input@, self.position as int),
            ensures
                self.wf(),
                self.input == old(self).input,
                self.position as int == comment_end(self.input@, p0),
            decreases self.input@.len() - self.position,
        {
            let go = match self.current_char {
                Some(c) => c != '\n',
                None => false,
            };
            if !go {
                break ;
            }
            self.advance();
        }
    }

    fn read_number(&mut self) -> (n: i64)
        requires
            old(self).wf(),
        ensures
            final(self).wf(),
            final(self).input == old(self).input,
            final(self).position as int == digits_end(old(self).input@, old(self).position as int),
            n == num_from_digits(
                old(self).input@.subrange(
                    old(self).position as int,
                    digits_end(old(self).input@, old(self).position as int),
                ),
            ),
    {
        let start = self.position;
        loop
            invariant
                self.wf(),
                self.input == old(self).input,
                start == old(self).position,
                start <= self.position,
                digits_end(self.input@, start as int) == digits_end(
                    self.input@,
                    self.position as int,
                ),
                forall|j: int| start <= j < self.position ==> digit(self.input@[j]),
            ensures
                self.wf(),
                self.input == old(self).input,
                start <= self.position,
                self.position as int == digits_end(self.input@, start as int),
                forall|j: int| start <= j < self.position ==> digit(self.input@[j]),
            decreases self.input@.len() - self.position,
        {
            let go = match self.current_char {
                Some(c) => '0' <= c && c <= '9',
                None => false,
            };
            if !go {
                break ;
            }
            self.advance();
        }
        digit_run_value(&self.input, start, self.position)
    }

    fn read_string(&mut self) -> (r: Result<String, Error>)
        requires
            old(self).wf(),
            old(self).position < old(self).input@.len(),
            old(self).input@[old(self).position as int] == '"',
        ensures
            final(self).wf(),
            final(self).input == old(self).input,
            ({
                let e = str_end(old(self).input@, old(self).position + 1);
                if e < old(self).input@.len() {
                    r matches Ok(sv) && sv@ == old(self).input@.subrange(
                        old(self).position + 1,
                        e,
                    ) && final(self).position as int == e + 1
                } else {
                    r matches Err(er) && er@ == ErrM::Lex(
                        "Babu ƙarshen jimlar da aka rubuta"@,
                    )
                }
            }),
    {
        self.advance();
        let start = self.position;
        loop
            invariant
                self.wf(),
                self.input == old(self).input,
                start as int == old(self).position + 1,
                start <= self.position,
                str_end(self.input@, start as int) == str_end(self.input@, self.position as int),
            decreases self.input@.len() - self.position,
        {
            match self.current_char {
                Some(c) => {
                    if c == '"' {
                        let sv = crate::text::chars_to_string(&self.input, start, self.position);
                        self.advance();
                        return Ok(sv);
                    }
                    self.advance();
                },
                None => {
                    return Err(Error::unterminated_string());
                },
            }
        }
    }

    fn read_identifier(&mut self) -> (w: String)
        requires
            old(self).wf(),
        ensures
            final(self).wf(),
            final(self).input == old(self).input,
            final(self).position as int == ident_end(old(self).input@, old(self).position as int),
            w@ == old(self).input@.subrange(
                old(self).position as int,
                ident_end(old(self).input@, old(self).position as int),
            ),
    {
        let start = self.position;
        loop
            invariant
                self.wf(),
                self.input == old(self).input,
                start == old(self).position,
                start <= self.position,
                ident_end(self.input@, start as int) == ident_end(
                    self.input@,
                    self.position as int,
                ),
            ensures
                self.wf(),
                self.input == old(self).input,
                start <= self.position,
                self.position as int == ident_end(self.input@, start as int),
            decreases self.input@.len() - self.position,
        {
            let go = match self.current_char {
                Some(c) => char_is_alpha(c) || c == '_' || ('0' <= c && c <= '9')
                    || self.is_hausa_char(c),
                None => false,
            };
            if !go {
                break ;
            }
            self.advance();
        }
        crate::text::chars_to_string(&self.input, start, self.position)
    }

    fn is_hausa_char(&self, ch: char) -> (r: bool)
        ensures
            r == hausa_char(ch),
    {
        ch == 'ɓ' || ch == 'ɗ' || ch == 'ƙ' || ch == 'ƴ' || ch == 'ʔ'
    }

    /// Reads the next token.  The result is exactly what the lexer model
    /// `spec_next` says for the current position.
    pub fn next_token(&mut self) -> (r: Result<Token, Error>)
        requires
            old(self).wf(),
        ensures
            final(self).wf(),
            final(self).src() == old(self).src(),
            match spec_next(old(self).src(), old(self).pos()) {
                LexM::Tok(t, j) => r matches Ok(tok) && tok@ == t && final(self).pos() == j && (
                t != TokM::Eof ==> final(self).pos() > old(self).pos()),
                l => r matches Err(e) && e@ == lex_err(l),
            },
    {
        loop
            invariant
                self.wf(),
                self.input == old(self).input,
                self.position >= old(self).position,
                spec_next(self.input@, old(self).position as int) == spec_next(
                    self.input@,
                    self.position as int,
                ),
            decreases self.input@.len() - self.position,
        {
            let ghost s = self.input@;
            let ghost p = self.position as int;
            match self.current_char {
                None => {
                    return Ok(Token::Eof);
                },
                Some(c) => {
                    if c == ' ' || c == '\t' || c == '\r' {
                        proof {
                            lemma_next_skip_white(s, p);
                            lemma_white_end_bounds(s, p);
                            lemma_white_end_bounds(s, p + 1);
                        }
                        self.skip_whitespace();
                    } else if c == '\n' {
                        self.advance();
                        return Ok(Token::Newline);
                    } else if c == '=' {
                        if self.peek() == Some('=') {
                            self.advance();
                            self.advance();
                            return Ok(Token::Equal);
                        }
                        self.advance();
                        return Ok(Token::Equals);
                    } else if c == '+' {
                        self.advance();
                        return Ok(Token::Plus);
                    } else if c == '-' {
                        self.advance();
                        return Ok(Token::Minus);
                    } else if c == '*' {
                        self.advance();
                        return Ok(Token::Multiply);
                    } else if c == '/' {
                        self.advance();
                        return Ok(Token::Divide);
                    } else if c == '#' {
                        proof {
                            lemma_next_skip_comment(s, p + 1);
                            lemma_comment_end_bounds(s, p + 1);
                        }
                        self.skip_comment();
                    } else if c == '(' {
                        self.advance();
                        return Ok(Token::LeftParen);
                    } else if c == ')' {
                        self.advance();
                        return Ok(Token::RightParen);
                    } else if c == '{' {
                        self.advance();
                        return Ok(Token::LeftBrace);
                    } else if c == '}' {
                        self.advance();
                        return Ok(Token::RightBrace);
                    } else if c == ',' {
                        self.advance();
                        return Ok(Token::Comma);
                    } else if c == '[' {
                        self.advance();
                        return Ok(Token::LeftBracket);
                    } else if c == ']' {
                        self.advance();
                        return Ok(Token::RightBracket);
                    } else if c == '.' {
                        self.advance();
                        return Ok(Token::Dot);
                    } else if c == '!' {
                        if self.peek() == Some('=') {
                            self.advance();
                            self.advance();
                            return Ok(Token::NotEqual);
                        }
                        self.advance();
                        return Ok(Token::Not);
                    } else if c == '<' {
                        if self.peek() == Some('=') {
                            self.advance();
                            self.advance();
                            return Ok(Token::LessEqual);
                        }
                        self.advance();
                        return Ok(Token::Less);
                    } else if c == '>' {
                        if self.peek() == Some('=') {
                            self.advance();
                            self.advance();
                            return Ok(Token::GreaterEqual);
                        }
                        self.advance();
                        return Ok(Token::Greater);
                    } else if c == '"' {
                        proof {
                            lemma_str_end_bounds(s, self.position + 1);
                        }
                        let sv = self.read_string()?;
                        return Ok(Token::String(sv));
                    } else if '0' <= c && c <= '9' {
                        proof {
                            lemma_digits_end_bounds(s, self.position as int);
                            lemma_digits_end_bounds(s, self.position + 1);
                        }
                        let n = self.read_number();
                        return Ok(Token::Number(n));
                    } else if char_is_alpha(c) || self.is_hausa_char(c) {
                        proof {
                            lemma_ident_end_bounds(s, self.position as int);
                            lemma_ident_end_bounds(s, self.position + 1);
                        }
                        let w = self.read_identifier();
                        match Token::from_keyword(w.as_str()) {
                            Some(t) => {
                                return Ok(t);
                            },
                            None => {
                                return Ok(Token::Identifier(w));
                            },
                        }
                    } else {
                        let mut cs = String::new();
                        push_char(&mut cs, c);
                        proof {
                            assert(cs@ =~= seq![c]);
                        }
                        return Err(Error::unknown_token(cs.as_str()));
                    }
                },
            }
        }
    }

    /// Tokenizes the whole input: every token up to and including the
    /// end-of-input token, exactly as the lexer model says.
    pub fn tokenize_all(&mut self) -> (r: Result<Vec<Token>, Error>)
        requires
            old(self).wf(),
        ensures
            final(self).wf(),
            match spec_tokens(old(self).src(), old(self).pos()) {
                Ok(ts) => r matches Ok(v) && v.deep_view() == ts,
                Err(e) => r matches Err(er) && er@ == e,
            },
    {
        let mut tokens: Vec<Token> = Vec::new();
        loop
            invariant
                self.wf(),
                self.input@ == old(self).input@,
                match spec_tokens(self.input@, self.position as int) {
                    Ok(rest) => spec_tokens(old(self).input@, old(self).position as int)
                        == Ok::<Seq<TokM>, ErrM>(tokens.deep_view() + rest),
                    Err(e) => spec_tokens(old(self).input@, old(self).position as int) == Err::<
                        Seq<TokM>,
                        ErrM,
                    >(e),
                },
            decreases self.input@.len() - self.position + 1,
        {
            let ghost p = self.position as int;
            let token = match self.next_token() {
                Ok(t) => t,
                Err(e) => {
                    return Err(e);
                },
            };
            let is_eof = match token {
                Token::Eof => true,
                _ => false,
            };
            let ghost prev = tokens.deep_view();
            let ghost tm = token@;
            tokens.push(token);
            proof {
                assert(tokens.deep_view() =~= prev + seq![tm]);
            }
            if is_eof {
                proof {
                    assert(prev + seq![TokM::Eof] =~= prev + seq![TokM::Eof]);
                }
                return Ok(tokens);
            }
            proof {
                match spec_tokens(self.input@, self.position as int) {
                    Ok(rest) => {
                        assert((prev + seq![tm]) + rest =~= prev + (seq![tm] + rest));
                    },
                    Err(e) => {},
                }
            }
        }
    }
}

/// An exact copy of a token, including its payload.
pub fn clone_token(t: &Token) -> (r: Token)
    ensures
        r@ == t@,
{
    match t {
        Token::Begin => Token::Begin,
        Token::End => Token::End,
        Token::Print => Token::Print,
        Token::Let => Token::Let,
        Token::True => Token::True,
        Token::False => Token::False,
        Token::Plus => Token::Plus,
        Token::Minus => Token::Minus,
        Token::Multiply => Token::Multiply,
        Token::Divide => Token::Divide,
        Token::Function => Token::Function,
        Token::Return => Token::Return,
        Token::Input => Token::Input,
        Token::If => Token::If,
        Token::Else => Token::Else,
        Token::ElseIf => Token::ElseIf,
        Token::While => Token::While,
        Token::For => Token::For,
        Token::In => Token::In,
        Token::Break => Token::Break,
        Token::Continue => Token::Continue,
        Token::Equal => Token::Equal,
        Token::NotEqual => Token::NotEqual,
        Token::Less => Token::Less,
        Token::Greater => Token::Greater,
        Token::LessEqual => Token::LessEqual,
        Token::GreaterEqual => Token::GreaterEqual,
        Token::Not => Token::Not,
        Token::Dot => Token::Dot,
        Token::LeftParen => Token::LeftParen,
        Token::RightParen => Token::RightParen,
        Token::LeftBrace => Token::LeftBrace,
        Token::RightBrace => Token::RightBrace,
        Token::LeftBracket => Token::LeftBracket,
        Token::RightBracket => Token::RightBracket,
        Token::Comma => Token::Comma,
        Token::Identifier(s) => Token::Identifier(s.clone()),
        Token::Number(n) => Token::Number(*n),
        Token::String(s) => Token::String(s.clone()),
        Token::Equals => Token::Equals,
        Token::Newline => Token::Newline,
        Token::Eof => Token::Eof,
    }
}

/// Tokenizes a source string.
pub fn tokenize(input: &str) -> (r: Result<Vec<Token>, Error>)
    ensures
        match spec_tokens(input@, 0) {
            Ok(ts) => r matches Ok(v) && v.deep_view() == ts,
            Err(e) => r matches Err(er) && er@ == e,
        },
{
    let mut lexer = Lexer::new(input);
    lexer.tokenize_all()
}

/// The Latin spellings of the end-of-block, declaration and addition
/// keywords lex to exactly the same tokens as their Hausa spellings, so
/// the spellings are interchangeable anywhere in a program.
pub proof fn lemma_keyword_synonyms()
    ensures
        keyword_token("kare"@) == keyword_token("ƙare"@),
        keyword_token("ƙare"@) == Some(TokM::End),
        keyword_token("nada"@) == keyword_token("naɗa"@),
        keyword_token("naɗa"@) == Some(TokM::Let),
        keyword_token("kara"@) == keyword_token("ƙara"@),
        keyword_token("ƙara"@) == Some(TokM::Plus),
{
    reveal_strlit("fara");
    reveal_strlit("ƙare");
    reveal_strlit("kare");
    reveal_strlit("rubuta");
    reveal_strlit("naɗa");
    reveal_strlit("nada");
    reveal_strlit("gaskiya");
    reveal_strlit("karya");
    reveal_strlit("ƙara");
    reveal_strlit("kara");
    assert("kare"@[0] != "fara"@[0]);
    assert("kare"@ != "fara"@);
    assert("ƙare"@[0] != "fara"@[0]);
    assert("ƙare"@ != "fara"@);
    assert("nada"@[0] != "fara"@[0]);
    assert("nada"@ != "fara"@);
    assert("nada"@[0] != "ƙare"@[0]);
    assert("nada"@ != "ƙare"@);
    assert("nada"@[0] != "kare"@[0]);
    assert("nada"@ != "kare"@);
    assert("nada"@.len() != "rubuta"@.len());
    assert("nada"@ != "rubuta"@);
    assert("naɗa"@[0] != "fara"@[0]);
    assert("naɗa"@ != "fara"@);
    assert("naɗa"@[0] != "ƙare"@[0]);
    assert("naɗa"@ != "ƙare"@);
    assert("naɗa"@[0] != "kare"@[0]);
    assert("naɗa"@ != "kare"@);
    assert("naɗa"@.len() != "rubuta"@.len());
    assert("naɗa"@ != "rubuta"@);
    assert("kara"@[0] != "fara"@[0]);
    assert("kara"@ != "fara"@);
    assert("kara"@[0] != "ƙare"@[0]);
    assert("kara"@ != "ƙare"@);
    assert("kara"@[3] != "kare"@[3]);
    assert("kara"@ != "kare"@);
    assert("kara"@.len() != "rubuta"@.len());
    assert("kara"@ != "rubuta"@);
    assert("kara"@[0] != "naɗa"@[0]);
    assert("kara"@ != "naɗa"@);
    assert("kara"@[0] != "nada"@[0]);
    assert("kara"@ != "nada"@);
    assert("kara"@.len() != "gaskiya"@.len());
    assert("kara"@ != "gaskiya"@);
    assert("kara"@.len() != "karya"@.len());
    assert("kara"@ != "karya"@);
    assert("ƙara"@[0] != "fara"@[0]);
    assert("ƙara"@ != "fara"@);
    assert("ƙara"@[3] != "ƙare"@[3]);
    assert("ƙara"@ != "ƙare"@);
    assert("ƙara"@[0] != "kare"@[0]);
    assert("ƙara"@ != "kare"@);
    assert("ƙara"@.len() != "rubuta"@.len());
    assert("ƙara"@ != "rubuta"@);
    assert("ƙara"@[0] != "naɗa"@[0]);
    assert("ƙara"@ != "naɗa"@);
    assert("ƙara"@[0] != "nada"@[0]);
    assert("ƙara"@ != "nada"@);
    assert("ƙara"@.len() != "gaskiya"@.len());
    assert("ƙara"@ != "gaskiya"@);
    assert("ƙara"@.len() != "karya"@.len());
    assert("ƙara"@ != "karya"@);
}

/// Tokenizing the same source twice yields the same token sequence: the
/// lexer is a pure function of the source text.
pub proof fn lemma_tokenize_deterministic(
    s: Seq<char>,
    r1: Result<Seq<TokM>, ErrM>,
    r2: Result<Seq<TokM>, ErrM>,
)
    requires
        r1 == spec_tokens(s, 0),
        r2 == spec_tokens(s, 0),
    ensures
        r1 == r2,
{
}

} // verus!
