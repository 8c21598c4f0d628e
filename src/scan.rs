//! The scanner: source text to the token sequence that the parser reads.
use vstd::prelude::*;
use crate::ast::{Token, TokenInstance};
use crate::value::FloatArithmetic;

verus! {

/// Why source text could not be scanned.
#[derive(Debug, Clone, PartialEq)]
pub enum ScanError {
    /// A character that starts no token, and its line.
    UnexpectedChar(char, usize),
    /// A string literal that the input ends inside; the line it started on.
    UnterminatedString(usize),
}

/// The kind of a scanned token in the model: text payloads as character
/// sequences; a number's value is the host's reading of its lexeme.
pub enum LexedKind {
    Identifier(Seq<char>),
    String(Seq<char>),
    Number,
    Fixed(Token),
}

/// The model of a scanned token.
pub struct Lexed {
    pub kind: LexedKind,
    pub lexeme: Seq<char>,
    pub line: nat,
}

/// The model of a scan failure.
pub enum LexError {
    UnexpectedChar(char, nat),
    UnterminatedString(nat),
}

/// The token `t` is the one that the model describes; a number token holds
/// a value that the host's `from_decimal` can return for its lexeme.
pub open spec fn token_matches<A: FloatArithmetic>(arith: &A, t: TokenInstance, l: Lexed) -> bool {
    &&& t.lexeme@ == l.lexeme
    &&& t.line as nat == l.line
    &&& match l.kind {
        LexedKind::Identifier(s) => t.token_type is Identifier && t.token_type->Identifier_0@ == s,
        LexedKind::String(s) => t.token_type is String && t.token_type->String_0@ == s,
        LexedKind::Number => t.token_type is Number && exists|numeral: &str|
            #[trigger] call_ensures(A::from_decimal, (arith, numeral), t.token_type->Number_0)
                && numeral@ == l.lexeme,
        LexedKind::Fixed(k) => t.token_type == k,
    }
}

/// The error `e` is the one that the model describes.
pub open spec fn error_matches(e: ScanError, l: LexError) -> bool {
    match (e, l) {
        (ScanError::UnexpectedChar(c, line), LexError::UnexpectedChar(d, m)) => c == d && line as nat == m,
        (ScanError::UnterminatedString(line), LexError::UnterminatedString(m)) => line as nat == m,
        _ => false,
    }
}

pub open spec fn digit(c: char) -> bool {
    '0' <= c && c <= '9'
}

pub open spec fn alpha(c: char) -> bool {
    ('a' <= c && c <= 'z') || ('A' <= c && c <= 'Z') || c == '_'
}

/// The end of the run of digits from `p`.
pub open spec fn digits_end(cs: Seq<char>, p: int) -> int
    decreases cs.len() - p,
{
    if 0 <= p < cs.len() && digit(cs[p]) {
        digits_end(cs, p + 1)
    } else {
        p
    }
}

/// The end of the run of letters, digits and underscores from `p`.
pub open spec fn word_end(cs: Seq<char>, p: int) -> int
    decreases cs.len() - p,
{
    if 0 <= p < cs.len() && (alpha(cs[p]) || digit(cs[p])) {
        word_end(cs, p + 1)
    } else {
        p
    }
}

/// The position of the next newline from `p`, or the end.
pub open spec fn line_end(cs: Seq<char>, p: int) -> int
    decreases cs.len() - p,
{
    if 0 <= p < cs.len() && cs[p] != '\n' {
        line_end(cs, p + 1)
    } else {
        p
    }
}

/// The position of the next `"` from `p`, or the end.
pub open spec fn quote_end(cs: Seq<char>, p: int) -> int
    decreases cs.len() - p,
{
    if 0 <= p < cs.len() && cs[p] != '"' {
        quote_end(cs, p + 1)
    } else {
        p
    }
}

/// The number of newlines in `cs[a..b]`.
pub open spec fn newlines(cs: Seq<char>, a: int, b: int) -> nat
    decreases b - a,
{
    if b <= a {
        0
    } else {
        newlines(cs, a, b - 1) + if cs[b - 1] == '\n' {
            1nat
        } else {
            0nat
        }
    }
}

/// The end of a number literal that starts at `p`: digits, then a `.` and
/// digits if a digit follows the `.`.
pub open spec fn number_end(cs: Seq<char>, p: int) -> int {
    let e = digits_end(cs, p);
    if e + 1 < cs.len() && cs[e] == '.' && digit(cs[e + 1]) {
        digits_end(cs, e + 1)
    } else {
        e
    }
}

/// The keyword spelled by `word`, if it is one.
pub open spec fn keyword_of(word: Seq<char>) -> Option<Token> {
    if word == "and"@ {
        Some(Token::And)
    } else if word == "class"@ {
        Some(Token::Class)
    } else if word == "else"@ {
        Some(Token::Else)
    } else if word == "false"@ {
        Some(Token::False)
    } else if word == "fun"@ {
        Some(Token::Fun)
    } else if word == "for"@ {
        Some(Token::For)
    } else if word == "if"@ {
        Some(Token::If)
    } else if word == "nil"@ {
        Some(Token::Nil)
    } else if word == "or"@ {
        Some(Token::Or)
    } else if word == "print"@ {
        Some(Token::Print)
    } else if word == "return"@ {
        Some(Token::Return)
    } else if word == "super"@ {
        Some(Token::Super)
    } else if word == "this"@ {
        Some(Token::This)
    } else if word == "true"@ {
        Some(Token::True)
    } else if word == "var"@ {
        Some(Token::Var)
    } else if word == "while"@ {
        Some(Token::While)
    } else {
        None
    }
}

/// The token of a character that is a token by itself.
pub open spec fn single_token(c: char) -> Option<Token> {
    match c {
        '(' => Some(Token::LeftParen),
        ')' => Some(Token::RightParen),
        '{' => Some(Token::LeftBrace),
        '}' => Some(Token::RightBrace),
        ',' => Some(Token::Comma),
        '.' => Some(Token::Dot),
        '-' => Some(Token::Minus),
        '+' => Some(Token::Plus),
        ';' => Some(Token::Semicolon),
        '*' => Some(Token::Star),
        _ => None,
    }
}

/// The one- and two-character tokens of a character that may be followed
/// by `=`.
pub open spec fn paired_tokens(c: char) -> Option<(Token, Token)> {
    match c {
        '=' => Some((Token::Equal, Token::EqualEqual)),
        '!' => Some((Token::Bang, Token::BangEqual)),
        '>' => Some((Token::Greater, Token::GreaterEqual)),
        '<' => Some((Token::Less, Token::LessEqual)),
        _ => None,
    }
}

/// Scanning from `pos` on line `line`, after the tokens `acc`: whitespace
/// and `//` comments are skipped, newlines counted, and the end marker
/// closes the sequence.
pub open spec fn lex(cs: Seq<char>, pos: int, line: nat, acc: Seq<Lexed>) -> Result<Seq<Lexed>, LexError>
    decreases cs.len() - pos,
{
    if pos < 0 || pos >= cs.len() {
        Ok(acc.push(Lexed { kind: LexedKind::Fixed(Token::Eof), lexeme: Seq::empty(), line }))
    } else {
        let c = cs[pos];
        if c == ' ' || c == '\t' || c == '\r' {
            lex(cs, pos + 1, line, acc)
        } else if c == '\n' {
            lex(cs, pos + 1, line + 1, acc)
        } else if c == '/' {
            if pos + 1 < cs.len() && cs[pos + 1] == '/' {
                let e = line_end(cs, pos + 2);
                if pos < e <= cs.len() {
                    lex(cs, e, line, acc)
                } else {
                    Err(LexError::UnexpectedChar(c, line))
                }
            } else {
                lex(
                    cs,
                    pos + 1,
                    line,
                    acc.push(Lexed { kind: LexedKind::Fixed(Token::Slash), lexeme: seq![c], line }),
                )
            }
        } else if c == '"' {
            let e = quote_end(cs, pos + 1);
            if e >= cs.len() || e <= pos {
                Err(LexError::UnterminatedString(line))
            } else {
                let text = cs.subrange(pos + 1, e);
                let end_line = line + newlines(cs, pos + 1, e);
                lex(
                    cs,
                    e + 1,
                    end_line,
                    acc.push(Lexed { kind: LexedKind::String(text), lexeme: text, line: end_line }),
                )
            }
        } else if digit(c) {
            let e = number_end(cs, pos + 1);
            if pos < e <= cs.len() {
                lex(
                    cs,
                    e,
                    line,
                    acc.push(Lexed { kind: LexedKind::Number, lexeme: cs.subrange(pos, e), line }),
                )
            } else {
                Err(LexError::UnexpectedChar(c, line))
            }
        } else if alpha(c) {
            let e = word_end(cs, pos + 1);
            if pos < e <= cs.len() {
                let word = cs.subrange(pos, e);
                let kind = match keyword_of(word) {
                    Some(k) => LexedKind::Fixed(k),
                    None => LexedKind::Identifier(word),
                };
                lex(cs, e, line, acc.push(Lexed { kind, lexeme: word, line }))
            } else {
                Err(LexError::UnexpectedChar(c, line))
            }
        } else if single_token(c) is Some {
            lex(
                cs,
                pos + 1,
                line,
                acc.push(Lexed { kind: LexedKind::Fixed(single_token(c)->Some_0), lexeme: seq![c], line }),
            )
        } else if paired_tokens(c) is Some {
            let (one, two) = paired_tokens(c)->Some_0;
            if pos + 1 < cs.len() && cs[pos + 1] == '=' {
                lex(
                    cs,
                    pos + 2,
                    line,
                    acc.push(Lexed { kind: LexedKind::Fixed(two), lexeme: cs.subrange(pos, pos + 2), line }),
                )
            } else {
                lex(cs, pos + 1, line, acc.push(Lexed { kind: LexedKind::Fixed(one), lexeme: seq![c], line }))
            }
        } else {
            Err(LexError::UnexpectedChar(c, line))
        }
    }
}

/// The keyword spelled by `word`, if it is one.
fn keyword(word: &String) -> (r: Option<Token>)
    ensures
        r == keyword_of(word@),
        r is Some ==> r->Some_0 != Token::Eof,
{
    if word.eq(&String::from_str("and")) {
        Some(Token::And)
    } else if word.eq(&String::from_str("class")) {
        Some(Token::Class)
    } else if word.eq(&String::from_str("else")) {
        Some(Token::Else)
    } else if word.eq(&String::from_str("false")) {
        Some(Token::False)
    } else if word.eq(&String::from_str("fun")) {
        Some(Token::Fun)
    } else if word.eq(&String::from_str("for")) {
        Some(Token::For)
    } else if word.eq(&String::from_str("if")) {
        Some(Token::If)
    } else if word.eq(&String::from_str("nil")) {
        Some(Token::Nil)
    } else if word.eq(&String::from_str("or")) {
        Some(Token::Or)
    } else if word.eq(&String::from_str("print")) {
        Some(Token::Print)
    } else if word.eq(&String::from_str("return")) {
        Some(Token::Return)
    } else if word.eq(&String::from_str("super")) {
        Some(Token::Super)
    } else if word.eq(&String::from_str("this")) {
        Some(Token::This)
    } else if word.eq(&String::from_str("true")) {
        Some(Token::True)
    } else if word.eq(&String::from_str("var")) {
        Some(Token::Var)
    } else if word.eq(&String::from_str("while")) {
        Some(Token::While)
    } else {
        None
    }
}

fn is_digit(c: char) -> (r: bool)
    ensures
        r == digit(c),
{
    '0' <= c && c <= '9'
}

fn is_alpha(c: char) -> (r: bool)
    ensures
        r == alpha(c),
{
    ('a' <= c && c <= 'z') || ('A' <= c && c <= 'Z') || c == '_'
}

/// The token of a character that is a token by itself.
fn single_character(c: char) -> (r: Option<Token>)
    ensures
        r == single_token(c),
        r is Some ==> r->Some_0 != Token::Eof,
{
    match c {
        '(' => Some(Token::LeftParen),
        ')' => Some(Token::RightParen),
        '{' => Some(Token::LeftBrace),
        '}' => Some(Token::RightBrace),
        ',' => Some(Token::Comma),
        '.' => Some(Token::Dot),
        '-' => Some(Token::Minus),
        '+' => Some(Token::Plus),
        ';' => Some(Token::Semicolon),
        '*' => Some(Token::Star),
        _ => None,
    }
}

/// The one- and two-character tokens of a character that may be followed
/// by `=`.
fn single_or_double(c: char) -> (r: Option<(Token, Token)>)
    ensures
        r == paired_tokens(c),
        r is Some ==> r->Some_0.0 != Token::Eof && r->Some_0.1 != Token::Eof,
{
    match c {
        '=' => Some((Token::Equal, Token::EqualEqual)),
        '!' => Some((Token::Bang, Token::BangEqual)),
        '>' => Some((Token::Greater, Token::GreaterEqual)),
        '<' => Some((Token::Less, Token::LessEqual)),
        _ => None,
    }
}

/// Scans source text into tokens as [`lex`] describes, ending with the end
/// marker, so that the parser accepts them. Each number literal is read by
/// `arith.from_decimal` from its lexeme.
pub fn scan<A: FloatArithmetic>(input: &str, arith: &A) -> (r: Result<Vec<TokenInstance>, ScanError>)
    requires
        input@.len() + 2 < usize::MAX,
    ensures
        match lex(input@, 0, 1, Seq::empty()) {
            Ok(ls) => r is Ok && r->Ok_0@.len() == ls.len() && forall|i: int|
                0 <= i < ls.len() ==> #[trigger] token_matches(arith, r->Ok_0@[i], ls[i]),
            Err(le) => r is Err && error_matches(r->Err_0, le),
        },
        r is Ok ==> crate::grammar::tokens_wf(r->Ok_0@),
        r is Ok ==> forall|i: int| 0 <= i < r->Ok_0@.len() - 1 ==> (#[trigger] r->Ok_0@[i]).token_type
            != Token::Eof,
{
    let ghost cs = input@;
    let n = input.unicode_len();
    let mut tokens: Vec<TokenInstance> = Vec::new();
    let mut line: usize = 1;
    let mut current: usize = 0;
    let ghost mut acc: Seq<Lexed> = Seq::empty();
    while current < n
        invariant
            cs == input@,
            n == cs.len(),
            current <= n,
            tokens@.len() <= current,
            1 <= line <= current + 1,
            n + 2 < usize::MAX,
            forall|i: int| 0 <= i < tokens@.len() ==> (#[trigger] tokens@[i]).token_type != Token::Eof,
            acc.len() == tokens@.len(),
            forall|i: int| 0 <= i < acc.len() ==> #[trigger] token_matches(arith, tokens@[i], acc[i]),
            lex(cs, current as int, line as nat, acc) == lex(cs, 0, 1, Seq::empty()),
        decreases n - current,
    {
        let start = current;
        let c = input.get_char(current);
        current = current + 1;
        if c == ' ' || c == '\t' || c == '\r' {
        } else if c == '\n' {
            line = line + 1;
        } else if c == '/' {
            if current < n && input.get_char(current) == '/' {
                current = current + 1;
                while current < n && input.get_char(current) != '\n'
                    invariant
                        cs == input@,
                        n == cs.len(),
                        start + 2 <= current <= n,
                        line_end(cs, current as int) == line_end(cs, start + 2),
                    decreases n - current,
                {
                    current = current + 1;
                }
            } else {
                let t = TokenInstance { token_type: Token::Slash, lexeme: input.substring_char(start, current).to_owned(), line };
                proof {
                    let l = Lexed { kind: LexedKind::Fixed(Token::Slash), lexeme: seq![c], line: line as nat };
                    assert(cs.subrange(start as int, current as int) =~= seq![c]);
                    acc = acc.push(l);
                }
                tokens.push(t);
            }
        } else if c == '"' {
            let first_line = line;
            while current < n && input.get_char(current) != '"'
                invariant
                    cs == input@,
                    n == cs.len(),
                    start < current <= n,
                    1 <= line <= current + 1,
                    n + 2 < usize::MAX,
                    quote_end(cs, current as int) == quote_end(cs, start + 1),
                    line as nat == first_line as nat + newlines(cs, start + 1, current as int),
                    1 <= first_line,
                decreases n - current,
            {
                if input.get_char(current) == '\n' {
                    line = line + 1;
                }
                current = current + 1;
            }
            if current >= n {
                return Err(ScanError::UnterminatedString(first_line));
            }
            current = current + 1;
            let text = input.substring_char(start + 1, current - 1).to_owned();
            let lexeme = input.substring_char(start + 1, current - 1).to_owned();
            proof {
                let ghost sub = cs.subrange(start + 1, current - 1);
                let l = Lexed { kind: LexedKind::String(sub), lexeme: sub, line: line as nat };
                acc = acc.push(l);
            }
            tokens.push(TokenInstance { token_type: Token::String(text), lexeme, line });
        } else if is_digit(c) {
            while current < n && is_digit(input.get_char(current))
                invariant
                    cs == input@,
                    n == cs.len(),
                    start < current <= n,
                    digits_end(cs, current as int) == digits_end(cs, start + 1),
                decreases n - current,
            {
                current = current + 1;
            }
            if current + 1 < n && input.get_char(current) == '.' && is_digit(input.get_char(current + 1)) {
                current = current + 1;
                let ghost frac = current;
                while current < n && is_digit(input.get_char(current))
                    invariant
                        cs == input@,
                        n == cs.len(),
                        start < current <= n,
                        digits_end(cs, current as int) == digits_end(cs, frac as int),
                    decreases n - current,
                {
                    current = current + 1;
                }
            }
            let numeral = input.substring_char(start, current);
            let value = arith.from_decimal(numeral);
            let t = TokenInstance { token_type: Token::Number(value), lexeme: numeral.to_owned(), line };
            proof {
                let l = Lexed {
                    kind: LexedKind::Number,
                    lexeme: cs.subrange(start as int, current as int),
                    line: line as nat,
                };
                assert(t.token_type->Number_0 == value);
                assert(call_ensures(A::from_decimal, (arith, numeral), t.token_type->Number_0));
                assert(numeral@ == l.lexeme);
                assert(t.lexeme@ == l.lexeme);
                assert(token_matches(arith, t, l));
                acc = acc.push(l);
            }
            tokens.push(t);
        } else if is_alpha(c) {
            while current < n && (is_alpha(input.get_char(current)) || is_digit(input.get_char(current)))
                invariant
                    cs == input@,
                    n == cs.len(),
                    start < current <= n,
                    word_end(cs, current as int) == word_end(cs, start + 1),
                decreases n - current,
            {
                current = current + 1;
            }
            let word = input.substring_char(start, current).to_owned();
            let token_type = match keyword(&word) {
                Some(k) => k,
                None => Token::Identifier(input.substring_char(start, current).to_owned()),
            };
            proof {
                let w = cs.subrange(start as int, current as int);
                let kind = match keyword_of(w) {
                    Some(k) => LexedKind::Fixed(k),
                    None => LexedKind::Identifier(w),
                };
                acc = acc.push(Lexed { kind, lexeme: w, line: line as nat });
            }
            tokens.push(TokenInstance { token_type, lexeme: word, line });
        } else {
            match single_character(c) {
                Some(t) => {
                    proof {
                        assert(cs.subrange(start as int, current as int) =~= seq![c]);
                        acc = acc.push(Lexed { kind: LexedKind::Fixed(t), lexeme: seq![c], line: line as nat });
                    }
                    tokens.push(TokenInstance { token_type: t, lexeme: input.substring_char(start, current).to_owned(), line });
                },
                None => match single_or_double(c) {
                    Some((one, two)) => {
                        if current < n && input.get_char(current) == '=' {
                            current = current + 1;
                            proof {
                                acc = acc.push(Lexed {
                                    kind: LexedKind::Fixed(two),
                                    lexeme: cs.subrange(start as int, current as int),
                                    line: line as nat,
                                });
                            }
                            tokens.push(TokenInstance { token_type: two, lexeme: input.substring_char(start, current).to_owned(), line });
                        } else {
                            proof {
                                assert(cs.subrange(start as int, current as int) =~= seq![c]);
                                acc = acc.push(Lexed { kind: LexedKind::Fixed(one), lexeme: seq![c], line: line as nat });
                            }
                            tokens.push(TokenInstance { token_type: one, lexeme: input.substring_char(start, current).to_owned(), line });
                        }
                    },
                    None => return Err(ScanError::UnexpectedChar(c, line)),
                },
            }
        }
    }
    proof {
        acc = acc.push(Lexed { kind: LexedKind::Fixed(Token::Eof), lexeme: Seq::empty(), line: line as nat });
    }
    tokens.push(TokenInstance { token_type: Token::Eof, lexeme: String::new(), line });
    Ok(tokens)
}

} // verus!
