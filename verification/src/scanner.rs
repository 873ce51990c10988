//! The lexer: pulls one token at a time from the source text.
use vstd::prelude::*;

use crate::num::is_digit_seq;
use crate::num::is_number_lexeme;

verus! {

pub struct Scanner {
    source: String,
    start: usize,
    current: usize,
    line: usize,
}

#[derive(Debug)]
pub struct Token {
    pub t_type: TokenType,
    pub token: String,
    pub line: usize,
}

#[derive(Debug, PartialEq, Clone, Copy, Eq, Hash, Structural)]
pub enum TokenType {
    LeftParen,
    RightParen,
    LeftBrace,
    RightBrace,
    Comma,
    Dot,
    Minus,
    Plus,
    Semicolon,
    Slash,
    Star,
    Bang,
    BangEqual,
    Equal,
    EqualEqual,
    Greater,
    GreaterEqual,
    Less,
    LessEqual,
    Identifier,
    String,
    Number,
    And,
    Class,
    Else,
    False,
    For,
    Fun,
    If,
    Nil,
    Or,
    Print,
    Return,
    Super,
    This,
    True,
    Var,
    While,
    Error,
    Eof,
}

impl Clone for Token {
    fn clone(&self) -> (r: Self)
        ensures
            r == *self,
    {
        Token { t_type: self.t_type, token: self.token.clone(), line: self.line }
    }
}

pub open spec fn is_digit_c(c: char) -> bool {
    '0' <= c <= '9'
}

pub open spec fn is_alpha_c(c: char) -> bool {
    ('a' <= c <= 'z') || ('A' <= c <= 'Z') || c == '_'
}

/// The kind that an identifier-shaped lexeme denotes: one of the fixed
/// keywords by exact match, or a plain identifier.
pub open spec fn keyword_kind(s: Seq<char>) -> TokenType {
    if s == "and"@ {
        TokenType::And
    } else if s == "class"@ {
        TokenType::Class
    } else if s == "else"@ {
        TokenType::Else
    } else if s == "false"@ {
        TokenType::False
    } else if s == "for"@ {
        TokenType::For
    } else if s == "fun"@ {
        TokenType::Fun
    } else if s == "if"@ {
        TokenType::If
    } else if s == "nil"@ {
        TokenType::Nil
    } else if s == "or"@ {
        TokenType::Or
    } else if s == "print"@ {
        TokenType::Print
    } else if s == "return"@ {
        TokenType::Return
    } else if s == "super"@ {
        TokenType::Super
    } else if s == "this"@ {
        TokenType::This
    } else if s == "true"@ {
        TokenType::True
    } else if s == "var"@ {
        TokenType::Var
    } else if s == "while"@ {
        TokenType::While
    } else {
        TokenType::Identifier
    }
}

/// A sequence splits at any point into its two subranges.
proof fn lemma_concat_split(s: Seq<char>, k: int)
    requires
        0 <= k <= s.len(),
    ensures
        s == s.subrange(0, k) + s.subrange(k, s.len() as int),
{
    assert(s =~= s.subrange(0, k) + s.subrange(k, s.len() as int));
}

/// Each keyword equals a first character, a length, and a tail; this is
/// the shape that the keyword check inspects.
proof fn lemma_keyword_shapes(lex: Seq<char>)
    ensures
        (lex == "and"@) <==> (lex.len() == 3 && lex[0] == 'a' && lex.subrange(1, 3) == "nd"@),
        (lex == "class"@) <==> (lex.len() == 5 && lex[0] == 'c' && lex.subrange(1, 5) == "lass"@),
        (lex == "else"@) <==> (lex.len() == 4 && lex[0] == 'e' && lex.subrange(1, 4) == "lse"@),
        (lex == "false"@) <==> (lex.len() == 5 && lex[0] == 'f' && lex[1] == 'a' && lex.subrange(
            2,
            5,
        ) == "lse"@),
        (lex == "for"@) <==> (lex.len() == 3 && lex[0] == 'f' && lex[1] == 'o' && lex.subrange(
            2,
            3,
        ) == "r"@),
        (lex == "fun"@) <==> (lex.len() == 3 && lex[0] == 'f' && lex[1] == 'u' && lex.subrange(
            2,
            3,
        ) == "n"@),
        (lex == "if"@) <==> (lex.len() == 2 && lex[0] == 'i' && lex.subrange(1, 2) == "f"@),
        (lex == "nil"@) <==> (lex.len() == 3 && lex[0] == 'n' && lex.subrange(1, 3) == "il"@),
        (lex == "or"@) <==> (lex.len() == 2 && lex[0] == 'o' && lex.subrange(1, 2) == "r"@),
        (lex == "print"@) <==> (lex.len() == 5 && lex[0] == 'p' && lex.subrange(1, 5) == "rint"@),
        (lex == "return"@) <==> (lex.len() == 6 && lex[0] == 'r' && lex.subrange(1, 6)
            == "eturn"@),
        (lex == "super"@) <==> (lex.len() == 5 && lex[0] == 's' && lex.subrange(1, 5) == "uper"@),
        (lex == "this"@) <==> (lex.len() == 4 && lex[0] == 't' && lex[1] == 'h' && lex.subrange(
            2,
            4,
        ) == "is"@),
        (lex == "true"@) <==> (lex.len() == 4 && lex[0] == 't' && lex[1] == 'r' && lex.subrange(
            2,
            4,
        ) == "ue"@),
        (lex == "var"@) <==> (lex.len() == 3 && lex[0] == 'v' && lex.subrange(1, 3) == "ar"@),
        (lex == "while"@) <==> (lex.len() == 5 && lex[0] == 'w' && lex.subrange(1, 5) == "hile"@),
{
    reveal_strlit("and");
    reveal_strlit("class");
    reveal_strlit("else");
    reveal_strlit("false");
    reveal_strlit("for");
    reveal_strlit("fun");
    reveal_strlit("if");
    reveal_strlit("nil");
    reveal_strlit("or");
    reveal_strlit("print");
    reveal_strlit("return");
    reveal_strlit("super");
    reveal_strlit("this");
    reveal_strlit("true");
    reveal_strlit("var");
    reveal_strlit("while");
    reveal_strlit("nd");
    reveal_strlit("lass");
    reveal_strlit("lse");
    reveal_strlit("r");
    reveal_strlit("n");
    reveal_strlit("f");
    reveal_strlit("il");
    reveal_strlit("rint");
    reveal_strlit("eturn");
    reveal_strlit("uper");
    reveal_strlit("is");
    reveal_strlit("ue");
    reveal_strlit("ar");
    reveal_strlit("hile");
    if lex.len() == 3 && lex[0] == 'a' && lex.subrange(1, 3) == "nd"@ {
        lemma_concat_split(lex, 1);
        assert(lex.subrange(0, 1) =~= seq!['a']);
        assert("and"@ =~= seq!['a'] + "nd"@);
    }
    if lex == "and"@ {
        assert(lex.subrange(1, 3) =~= "nd"@);
    }
    if lex.len() == 5 && lex[0] == 'c' && lex.subrange(1, 5) == "lass"@ {
        lemma_concat_split(lex, 1);
        assert(lex.subrange(0, 1) =~= seq!['c']);
        assert("class"@ =~= seq!['c'] + "lass"@);
    }
    if lex == "class"@ {
        assert(lex.subrange(1, 5) =~= "lass"@);
    }
    if lex.len() == 4 && lex[0] == 'e' && lex.subrange(1, 4) == "lse"@ {
        lemma_concat_split(lex, 1);
        assert(lex.subrange(0, 1) =~= seq!['e']);
        assert("else"@ =~= seq!['e'] + "lse"@);
    }
    if lex == "else"@ {
        assert(lex.subrange(1, 4) =~= "lse"@);
    }
    if lex.len() == 5 && lex[0] == 'f' && lex[1] == 'a' && lex.subrange(2, 5) == "lse"@ {
        lemma_concat_split(lex, 2);
        assert(lex.subrange(0, 2) =~= seq!['f', 'a']);
        assert("false"@ =~= seq!['f', 'a'] + "lse"@);
    }
    if lex == "false"@ {
        assert(lex.subrange(2, 5) =~= "lse"@);
    }
    if lex.len() == 3 && lex[0] == 'f' && lex[1] == 'o' && lex.subrange(2, 3) == "r"@ {
        lemma_concat_split(lex, 2);
        assert(lex.subrange(0, 2) =~= seq!['f', 'o']);
        assert("for"@ =~= seq!['f', 'o'] + "r"@);
    }
    if lex == "for"@ {
        assert(lex.subrange(2, 3) =~= "r"@);
    }
    if lex.len() == 3 && lex[0] == 'f' && lex[1] == 'u' && lex.subrange(2, 3) == "n"@ {
        lemma_concat_split(lex, 2);
        assert(lex.subrange(0, 2) =~= seq!['f', 'u']);
        assert("fun"@ =~= seq!['f', 'u'] + "n"@);
    }
    if lex == "fun"@ {
        assert(lex.subrange(2, 3) =~= "n"@);
    }
    if lex.len() == 2 && lex[0] == 'i' && lex.subrange(1, 2) == "f"@ {
        lemma_concat_split(lex, 1);
        assert(lex.subrange(0, 1) =~= seq!['i']);
        assert("if"@ =~= seq!['i'] + "f"@);
    }
    if lex == "if"@ {
        assert(lex.subrange(1, 2) =~= "f"@);
    }
    if lex.len() == 3 && lex[0] == 'n' && lex.subrange(1, 3) == "il"@ {
        lemma_concat_split(lex, 1);
        assert(lex.subrange(0, 1) =~= seq!['n']);
        assert("nil"@ =~= seq!['n'] + "il"@);
    }
    if lex == "nil"@ {
        assert(lex.subrange(1, 3) =~= "il"@);
    }
    if lex.len() == 2 && lex[0] == 'o' && lex.subrange(1, 2) == "r"@ {
        lemma_concat_split(lex, 1);
        assert(lex.subrange(0, 1) =~= seq!['o']);
        assert("or"@ =~= seq!['o'] + "r"@);
    }
    if lex == "or"@ {
        assert(lex.subrange(1, 2) =~= "r"@);
    }
    if lex.len() == 5 && lex[0] == 'p' && lex.subrange(1, 5) == "rint"@ {
        lemma_concat_split(lex, 1);
        assert(lex.subrange(0, 1) =~= seq!['p']);
        assert("print"@ =~= seq!['p'] + "rint"@);
    }
    if lex == "print"@ {
        assert(lex.subrange(1, 5) =~= "rint"@);
    }
    if lex.len() == 6 && lex[0] == 'r' && lex.subrange(1, 6) == "eturn"@ {
        lemma_concat_split(lex, 1);
        assert(lex.subrange(0, 1) =~= seq!['r']);
        assert("return"@ =~= seq!['r'] + "eturn"@);
    }
    if lex == "return"@ {
        assert(lex.subrange(1, 6) =~= "eturn"@);
    }
    if lex.len() == 5 && lex[0] == 's' && lex.subrange(1, 5) == "uper"@ {
        lemma_concat_split(lex, 1);
        assert(lex.subrange(0, 1) =~= seq!['s']);
        assert("super"@ =~= seq!['s'] + "uper"@);
    }
    if lex == "super"@ {
        assert(lex.subrange(1, 5) =~= "uper"@);
    }
    if lex.len() == 4 && lex[0] == 't' && lex[1] == 'h' && lex.subrange(2, 4) == "is"@ {
        lemma_concat_split(lex, 2);
        assert(lex.subrange(0, 2) =~= seq!['t', 'h']);
        assert("this"@ =~= seq!['t', 'h'] + "is"@);
    }
    if lex == "this"@ {
        assert(lex.subrange(2, 4) =~= "is"@);
    }
    if lex.len() == 4 && lex[0] == 't' && lex[1] == 'r' && lex.subrange(2, 4) == "ue"@ {
        lemma_concat_split(lex, 2);
        assert(lex.subrange(0, 2) =~= seq!['t', 'r']);
        assert("true"@ =~= seq!['t', 'r'] + "ue"@);
    }
    if lex == "true"@ {
        assert(lex.subrange(2, 4) =~= "ue"@);
    }
    if lex.len() == 3 && lex[0] == 'v' && lex.subrange(1, 3) == "ar"@ {
        lemma_concat_split(lex, 1);
        assert(lex.subrange(0, 1) =~= seq!['v']);
        assert("var"@ =~= seq!['v'] + "ar"@);
    }
    if lex == "var"@ {
        assert(lex.subrange(1, 3) =~= "ar"@);
    }
    if lex.len() == 5 && lex[0] == 'w' && lex.subrange(1, 5) == "hile"@ {
        lemma_concat_split(lex, 1);
        assert(lex.subrange(0, 1) =~= seq!['w']);
        assert("while"@ =~= seq!['w'] + "hile"@);
    }
    if lex == "while"@ {
        assert(lex.subrange(1, 5) =~= "hile"@);
    }
}

/// One scanned token, positionally: its kind, where its lexeme starts
/// and ends in the source, and the line it is reported on.
pub struct ScanStep {
    pub kind: TokenType,
    pub start: int,
    pub end: int,
    pub line: int,
}

/// The position and line after whitespace and line comments, walking one
/// character at a time; `in_comment` marks that a `//` has been entered
/// and everything up to the next newline is being skipped.
pub open spec fn skip_ws_mode(src: Seq<char>, pos: int, line: int, in_comment: bool) -> (int, int)
    decreases src.len() - pos, (if in_comment { 1int } else { 0int }),
{
    if !(0 <= pos < src.len()) {
        (pos, line)
    } else {
        let c = src[pos];
        if in_comment {
            if c == '\n' {
                skip_ws_mode(src, pos, line, false)
            } else {
                skip_ws_mode(src, pos + 1, line, true)
            }
        } else if c == ' ' || c == '\r' || c == '\t' {
            skip_ws_mode(src, pos + 1, line, false)
        } else if c == '\n' {
            if line == usize::MAX {
                (pos, line)
            } else {
                skip_ws_mode(src, pos + 1, line + 1, false)
            }
        } else if c == '/' && pos + 1 < src.len() && src[pos + 1] == '/' {
            skip_ws_mode(src, pos + 2, line, true)
        } else {
            (pos, line)
        }
    }
}

/// The position and line of the next token start.
pub open spec fn skip_ws(src: Seq<char>, pos: int, line: int) -> (int, int) {
    skip_ws_mode(src, pos, line, false)
}

/// The end of the run of digits beginning at `pos`.
pub open spec fn digits_end(src: Seq<char>, pos: int) -> int
    decreases src.len() - pos,
{
    if 0 <= pos < src.len() && is_digit_c(src[pos]) {
        digits_end(src, pos + 1)
    } else {
        pos
    }
}

/// The end of a number lexeme whose first digit was consumed at
/// `pos - 1`: the remaining digits, then a fraction only when a digit
/// follows the decimal point.
pub open spec fn number_end(src: Seq<char>, pos: int) -> int {
    let d = digits_end(src, pos);
    if d < src.len() && src[d] == '.' && d + 1 < src.len() && is_digit_c(src[d + 1]) {
        digits_end(src, d + 2)
    } else {
        d
    }
}

/// The end of the identifier run continuing at `pos`.
pub open spec fn ident_end(src: Seq<char>, pos: int) -> int
    decreases src.len() - pos,
{
    if 0 <= pos < src.len() && (is_alpha_c(src[pos]) || is_digit_c(src[pos])) {
        ident_end(src, pos + 1)
    } else {
        pos
    }
}

/// Walks a string literal's body from just after the opening quote:
/// whether a closing quote was found, the position just past where the
/// scan stopped, and the line after counting embedded newlines.
pub open spec fn string_scan(src: Seq<char>, pos: int, line: int) -> (bool, int, int)
    decreases src.len() - pos,
{
    if !(0 <= pos < src.len()) {
        (false, pos, line)
    } else if src[pos] == '"' {
        (true, pos + 1, line)
    } else {
        string_scan(
            src,
            pos + 1,
            if src[pos] == '\n' && line < usize::MAX {
                line + 1
            } else {
                line
            },
        )
    }
}

/// A token of one character at `p`.
pub open spec fn step_one(kind: TokenType, p: int, l: int) -> ScanStep {
    ScanStep { kind, start: p, end: p + 1, line: l }
}

/// A one-character operator at `p`, extended by a following `=`.
pub open spec fn step_two(
    src: Seq<char>,
    p: int,
    l: int,
    single: TokenType,
    double: TokenType,
) -> ScanStep {
    if p + 1 < src.len() && src[p + 1] == '=' {
        ScanStep { kind: double, start: p, end: p + 2, line: l }
    } else {
        step_one(single, p, l)
    }
}

/// The one token scanned from position `pos` on line `line`: the lexer,
/// as a function of the source text.
pub open spec fn spec_scan(src: Seq<char>, pos: int, line: int) -> ScanStep {
    let pl = skip_ws(src, pos, line);
    let p = pl.0;
    let l = pl.1;
    if p >= src.len() {
        ScanStep { kind: TokenType::Eof, start: p, end: p, line: l }
    } else {
        let c = src[p];
        if c == '(' {
            step_one(TokenType::LeftParen, p, l)
        } else if c == ')' {
            step_one(TokenType::RightParen, p, l)
        } else if c == '{' {
            step_one(TokenType::LeftBrace, p, l)
        } else if c == '}' {
            step_one(TokenType::RightBrace, p, l)
        } else if c == ';' {
            step_one(TokenType::Semicolon, p, l)
        } else if c == ',' {
            step_one(TokenType::Comma, p, l)
        } else if c == '.' {
            step_one(TokenType::Dot, p, l)
        } else if c == '-' {
            step_one(TokenType::Minus, p, l)
        } else if c == '+' {
            step_one(TokenType::Plus, p, l)
        } else if c == '/' {
            step_one(TokenType::Slash, p, l)
        } else if c == '*' {
            step_one(TokenType::Star, p, l)
        } else if c == '!' {
            step_two(src, p, l, TokenType::Bang, TokenType::BangEqual)
        } else if c == '=' {
            step_two(src, p, l, TokenType::Equal, TokenType::EqualEqual)
        } else if c == '<' {
            step_two(src, p, l, TokenType::Less, TokenType::LessEqual)
        } else if c == '>' {
            step_two(src, p, l, TokenType::Greater, TokenType::GreaterEqual)
        } else if c == '"' {
            let ss = string_scan(src, p + 1, l);
            ScanStep {
                kind: if ss.0 {
                    TokenType::String
                } else {
                    TokenType::Error
                },
                start: p,
                end: ss.1,
                line: ss.2,
            }
        } else if is_digit_c(c) {
            ScanStep { kind: TokenType::Number, start: p, end: number_end(src, p + 1), line: l }
        } else if is_alpha_c(c) {
            let e = ident_end(src, p + 1);
            ScanStep { kind: keyword_kind(src.subrange(p, e)), start: p, end: e, line: l }
        } else {
            ScanStep { kind: TokenType::Error, start: p, end: p + 1, line: l }
        }
    }
}

/// The text a scanned token carries: its source slice, or, for an error
/// token, its diagnostic message (an unterminated string is the only
/// error that begins at a quote).
pub open spec fn lexeme_of(src: Seq<char>, st: ScanStep) -> Seq<char> {
    if st.kind == TokenType::Error {
        if 0 <= st.start < src.len() && src[st.start] == '"' {
            "Unterminated string."@
        } else {
            "Unexpected character."@
        }
    } else {
        src.subrange(st.start, st.end)
    }
}

/// The scanner is a function of the text: the token returned, the
/// position and line reached, and the token's text are exactly what
/// [`spec_scan`] gives from the old position and line.
pub open spec fn scan_exact(pre: Scanner, post: Scanner, t: Token) -> bool {
    let st = spec_scan(pre.src(), pre.pos(), pre.line_no());
    &&& t.t_type == st.kind
    &&& post.start_pos() == st.start
    &&& post.pos() == st.end
    &&& post.line_no() == st.line
    &&& t.line == st.line
    &&& t.token@ == lexeme_of(pre.src(), st)
}

/// What every token handed out by the scanner satisfies.
pub open spec fn token_wf(t: Token) -> bool {
    &&& t.t_type == TokenType::Number ==> is_number_lexeme(t.token@)
    &&& t.t_type == TokenType::Eof ==> t.token@.len() == 0
    &&& t.t_type == TokenType::Error ==> (t.token@ == "Unterminated string."@ || t.token@
        == "Unexpected character."@)
}

/// How one scanned token relates the scanner's old state, its new state
/// and the token: the token's text is the slice between the new start
/// and the new position, and its kind is fixed by the first character.
pub open spec fn scan_result(pre: Scanner, post: Scanner, t: Token) -> bool {
    &&& post.wf()
    &&& post.src() == pre.src()
    &&& pre.pos() <= post.start_pos() <= post.pos() <= pre.src().len()
    &&& t.line == post.line_no()
    &&& post.line_no() >= pre.line_no()
    &&& token_wf(t)
    &&& t.t_type == TokenType::Eof ==> post.pos() == pre.src().len() && post.start_pos()
        == post.pos()
    &&& t.t_type != TokenType::Eof ==> post.start_pos() < post.pos()
    &&& t.t_type != TokenType::Error ==> t.token@ == pre.src().subrange(
        post.start_pos(),
        post.pos(),
    )
    &&& (pre.pos() < pre.src().len() && !is_skip_start(pre.src(), pre.pos())) ==> post.start_pos()
        == pre.pos()
    &&& t.t_type != TokenType::Eof ==> scan_kind(pre.src(), post.start_pos(), post.pos(), t)
}

/// The token kind determined by the character at the token's start.
pub open spec fn scan_kind(src: Seq<char>, sp: int, ep: int, t: Token) -> bool {
    let c = src[sp];
    &&& sp < src.len()
    &&& (c == '(' ==> t.t_type == TokenType::LeftParen && ep == sp + 1)
    &&& (c == ')' ==> t.t_type == TokenType::RightParen && ep == sp + 1)
    &&& (c == '{' ==> t.t_type == TokenType::LeftBrace && ep == sp + 1)
    &&& (c == '}' ==> t.t_type == TokenType::RightBrace && ep == sp + 1)
    &&& (c == ';' ==> t.t_type == TokenType::Semicolon && ep == sp + 1)
    &&& (c == ',' ==> t.t_type == TokenType::Comma && ep == sp + 1)
    &&& (c == '.' ==> t.t_type == TokenType::Dot && ep == sp + 1)
    &&& (c == '-' ==> t.t_type == TokenType::Minus && ep == sp + 1)
    &&& (c == '+' ==> t.t_type == TokenType::Plus && ep == sp + 1)
    &&& (c == '/' ==> t.t_type == TokenType::Slash && ep == sp + 1)
    &&& (c == '*' ==> t.t_type == TokenType::Star && ep == sp + 1)
    &&& (c == '!' ==> two_char_kind(src, sp, ep, t, TokenType::Bang, TokenType::BangEqual))
    &&& (c == '=' ==> two_char_kind(src, sp, ep, t, TokenType::Equal, TokenType::EqualEqual))
    &&& (c == '<' ==> two_char_kind(src, sp, ep, t, TokenType::Less, TokenType::LessEqual))
    &&& (c == '>' ==> two_char_kind(src, sp, ep, t, TokenType::Greater, TokenType::GreaterEqual))
    &&& (c == '"' ==> (t.t_type == TokenType::String || (t.t_type == TokenType::Error && t.token@
        == "Unterminated string."@)))
    &&& (is_digit_c(c) ==> t.t_type == TokenType::Number)
    &&& (is_alpha_c(c) ==> t.t_type == keyword_kind(t.token@))
    &&& (!one_of_lexical(c) ==> t.t_type == TokenType::Error && t.token@
        == "Unexpected character."@ && ep == sp + 1)
}

/// A one-character operator possibly extended by `=`.
pub open spec fn two_char_kind(
    src: Seq<char>,
    sp: int,
    ep: int,
    t: Token,
    single: TokenType,
    double: TokenType,
) -> bool {
    if sp + 1 < src.len() && src[sp + 1] == '=' {
        t.t_type == double && ep == sp + 2
    } else {
        t.t_type == single && ep == sp + 1
    }
}

/// Whether the character at `p` begins something the scanner skips:
/// whitespace, a newline, or a line comment.
pub open spec fn is_skip_start(src: Seq<char>, p: int) -> bool {
    ||| src[p] == ' ' || src[p] == '\r' || src[p] == '\t' || src[p] == '\n'
    ||| (src[p] == '/' && p + 1 < src.len() && src[p + 1] == '/')
}

/// The characters that begin some token other than an error token.
pub open spec fn one_of_lexical(c: char) -> bool {
    ||| c == '(' || c == ')' || c == '{' || c == '}' || c == ';' || c == ',' || c == '.'
    ||| c == '-' || c == '+' || c == '/' || c == '*' || c == '!' || c == '=' || c == '<' || c == '>'
    ||| c == '"'
    ||| is_digit_c(c)
    ||| is_alpha_c(c)
}

impl Scanner {
    pub closed spec fn src(&self) -> Seq<char> {
        self.source@
    }

    pub closed spec fn pos(&self) -> int {
        self.current as int
    }

    pub closed spec fn start_pos(&self) -> int {
        self.start as int
    }

    pub closed spec fn line_no(&self) -> int {
        self.line as int
    }

    pub open spec fn wf(&self) -> bool {
        0 <= self.start_pos() <= self.pos() <= self.src().len() && self.line_no() >= 1
    }

    /// The lexeme between the last token start and the position.
    pub open spec fn lexeme(&self) -> Seq<char> {
        self.src().subrange(self.start_pos(), self.pos())
    }

    pub fn new(source: &str) -> (r: Self)
        ensures
            r.src() == source@,
            r.pos() == 0,
            r.start_pos() == 0,
            r.line_no() == 1,
            r.wf(),
    {
        Self { source: String::from_str(source), start: 0, current: 0, line: 1 }
    }

    pub fn scan_token(&mut self) -> (t: Token)
        requires
            old(self).wf(),
        ensures
            scan_result(*old(self), *final(self), t),
            scan_exact(*old(self), *final(self), t),
    {
        self.skip_whitespace();
        self.start = self.current;

        if self.is_at_end() {
            return self.make_token(TokenType::Eof);
        }

        let c = self.advance();

        match c {
            '(' => self.make_token(TokenType::LeftParen),
            ')' => self.make_token(TokenType::RightParen),
            '{' => self.make_token(TokenType::LeftBrace),
            '}' => self.make_token(TokenType::RightBrace),
            ';' => self.make_token(TokenType::Semicolon),
            ',' => self.make_token(TokenType::Comma),
            '.' => self.make_token(TokenType::Dot),
            '-' => self.make_token(TokenType::Minus),
            '+' => self.make_token(TokenType::Plus),
            '/' => self.make_token(TokenType::Slash),
            '*' => self.make_token(TokenType::Star),
            '!' => {
                let is_equal_next = self.match_char('=');
                self.make_token(
                    if is_equal_next {
                        TokenType::BangEqual
                    } else {
                        TokenType::Bang
                    },
                )
            },
            '=' => {
                let is_equal_next = self.match_char('=');
                self.make_token(
                    if is_equal_next {
                        TokenType::EqualEqual
                    } else {
                        TokenType::Equal
                    },
                )
            },
            '<' => {
                let is_equal_next = self.match_char('=');
                self.make_token(
                    if is_equal_next {
                        TokenType::LessEqual
                    } else {
                        TokenType::Less
                    },
                )
            },
            '>' => {
                let is_equal_next = self.match_char('=');
                self.make_token(
                    if is_equal_next {
                        TokenType::GreaterEqual
                    } else {
                        TokenType::Greater
                    },
                )
            },
            '"' => self.string(),
            _ => {
                if is_digit(c) {
                    self.number()
                } else if is_alpha(c) {
                    self.identifier()
                } else {
                    self.error_token("Unexpected character.")
                }
            },
        }
    }

    fn advance(&mut self) -> (c: char)
        requires
            old(self).wf(),
            old(self).pos() < old(self).src().len(),
        ensures
            final(self).wf(),
            final(self).src() == old(self).src(),
            final(self).start_pos() == old(self).start_pos(),
            final(self).line_no() == old(self).line_no(),
            final(self).pos() == old(self).pos() + 1,
            c == old(self).src()[old(self).pos()],
    {
        let len: usize = self.source.as_str().unicode_len();
        let c = self.source.as_str().get_char(self.current);
        proof {
            assert(self.current < len);
        }
        self.current = self.current + 1;
        c
    }

    fn char_at(&self, index: usize) -> (c: char)
        ensures
            c == if index < self.src().len() {
                self.src()[index as int]
            } else {
                '\0'
            },
    {
        if index >= self.source.as_str().unicode_len() {
            '\0'
        } else {
            self.source.as_str().get_char(index)
        }
    }

    fn peek(&self) -> (c: char)
        ensures
            c == if self.pos() < self.src().len() {
                self.src()[self.pos()]
            } else {
                '\0'
            },
    {
        self.char_at(self.current)
    }

    fn peek_next(&self) -> (c: char)
        requires
            self.wf(),
        ensures
            c == if self.pos() + 1 < self.src().len() {
                self.src()[self.pos() + 1]
            } else {
                '\0'
            },
    {
        let len: usize = self.source.as_str().unicode_len();
        if self.current >= len {
            '\0'
        } else {
            self.char_at(self.current + 1)
        }
    }

    fn match_char(&mut self, expected: char) -> (r: bool)
        requires
            old(self).wf(),
        ensures
            final(self).wf(),
            final(self).src() == old(self).src(),
            final(self).start_pos() == old(self).start_pos(),
            final(self).line_no() == old(self).line_no(),
            r == (old(self).pos() < old(self).src().len() && old(self).src()[old(self).pos()]
                == expected),
            final(self).pos() == if r {
                old(self).pos() + 1
            } else {
                old(self).pos()
            },
    {
        let len: usize = self.source.as_str().unicode_len();
        if self.current >= len {
            false
        } else if self.peek() != expected {
            false
        } else {
            self.current = self.current + 1;
            true
        }
    }

    fn is_at_end(&self) -> (r: bool)
        ensures
            r == (self.pos() >= self.src().len()),
    {
        self.current >= self.source.as_str().unicode_len()
    }

    fn skip_whitespace(&mut self)
        requires
            old(self).wf(),
        ensures
            final(self).wf(),
            final(self).src() == old(self).src(),
            final(self).start_pos() == old(self).start_pos(),
            final(self).pos() >= old(self).pos(),
            final(self).line_no() >= old(self).line_no(),
            (final(self).pos() < final(self).src().len() && final(self).src()[final(self).pos()]
                == '/') ==> !(final(self).pos() + 1 < final(self).src().len()
                && final(self).src()[final(self).pos() + 1] == '/'),
            (old(self).pos() < old(self).src().len() && !is_skip_start(
                old(self).src(),
                old(self).pos(),
            )) ==> final(self).pos() == old(self).pos(),
            final(self).pos() == skip_ws(old(self).src(), old(self).pos(), old(self).line_no()).0,
            final(self).line_no() == skip_ws(
                old(self).src(),
                old(self).pos(),
                old(self).line_no(),
            ).1,
    {
        loop
            invariant
                self.wf(),
                self.src() == old(self).src(),
                self.start_pos() == old(self).start_pos(),
                self.pos() >= old(self).pos(),
                self.line_no() >= old(self).line_no(),
                self.pos() == old(self).pos() || (old(self).pos() < old(self).src().len()
                    && is_skip_start(old(self).src(), old(self).pos())),
                skip_ws_mode(self.src(), self.pos(), self.line_no(), false) == skip_ws(
                    old(self).src(),
                    old(self).pos(),
                    old(self).line_no(),
                ),
            decreases self.src().len() - self.pos(),
        {
            let ch = self.peek();
            match ch {
                ' ' | '\r' | '\t' => {
                    self.advance();
                },
                '\n' => {
                    if self.line == usize::MAX {
                        return ;
                    }
                    self.line = self.line + 1;
                    self.advance();
                },
                '/' => {
                    if self.peek_next() == '/' {
                        let ghost p0 = self.pos();
                        self.advance();
                        proof {
                            assert(skip_ws_mode(self.src(), p0, self.line_no(), false)
                                == skip_ws_mode(self.src(), p0 + 2, self.line_no(), true));
                            assert(skip_ws_mode(self.src(), p0 + 1, self.line_no(), true)
                                == skip_ws_mode(self.src(), p0 + 2, self.line_no(), true));
                        }
                        while self.peek() != '\n' && !self.is_at_end()
                            invariant
                                self.wf(),
                                self.src() == old(self).src(),
                                self.start_pos() == old(self).start_pos(),
                                self.pos() > p0,
                                p0 >= old(self).pos(),
                                self.line_no() >= old(self).line_no(),
                                old(self).pos() < old(self).src().len() && is_skip_start(
                                    old(self).src(),
                                    old(self).pos(),
                                ),
                                skip_ws_mode(self.src(), self.pos(), self.line_no(), true)
                                    == skip_ws(
                                    old(self).src(),
                                    old(self).pos(),
                                    old(self).line_no(),
                                ),
                            decreases self.src().len() - self.pos(),
                        {
                            self.advance();
                        }
                        proof {
                            assert(skip_ws_mode(self.src(), self.pos(), self.line_no(), false)
                                == skip_ws_mode(self.src(), self.pos(), self.line_no(), true));
                        }
                    } else {
                        return ;
                    }
                },
                _ => { return ; },
            }
        }
    }

    fn string(&mut self) -> (t: Token)
        requires
            old(self).wf(),
        ensures
            final(self).wf(),
            final(self).src() == old(self).src(),
            final(self).start_pos() == old(self).start_pos(),
            final(self).pos() >= old(self).pos(),
            final(self).line_no() >= old(self).line_no(),
            t.line == final(self).line_no(),
            t.t_type == TokenType::String || (t.t_type == TokenType::Error && t.token@
                == "Unterminated string."@),
            t.t_type == TokenType::String ==> t.token@ == final(self).lexeme(),
            ({
                let ss = string_scan(old(self).src(), old(self).pos(), old(self).line_no());
                &&& final(self).pos() == ss.1
                &&& final(self).line_no() == ss.2
                &&& t.t_type == (if ss.0 {
                    TokenType::String
                } else {
                    TokenType::Error
                })
            }),
    {
        loop
            invariant
                self.wf(),
                self.src() == old(self).src(),
                self.start_pos() == old(self).start_pos(),
                self.pos() >= old(self).pos(),
                self.line_no() >= old(self).line_no(),
                string_scan(self.src(), self.pos(), self.line_no()) == string_scan(
                    old(self).src(),
                    old(self).pos(),
                    old(self).line_no(),
                ),
            decreases self.src().len() - self.pos(),
        {
            if self.is_at_end() {
                return self.error_token("Unterminated string.");
            }
            let c = self.peek();
            if c == '"' {
                self.advance();
                return self.make_token(TokenType::String);
            }
            if c == '\n' && self.line < usize::MAX {
                self.line = self.line + 1;
            }
            self.advance();
        }
    }

    fn number(&mut self) -> (t: Token)
        requires
            old(self).wf(),
            old(self).start_pos() < old(self).pos(),
            is_digit_seq(old(self).lexeme()),
        ensures
            final(self).wf(),
            final(self).src() == old(self).src(),
            final(self).start_pos() == old(self).start_pos(),
            final(self).pos() >= old(self).pos(),
            final(self).line_no() == old(self).line_no(),
            t.line == final(self).line_no(),
            t.t_type == TokenType::Number,
            t.token@ == final(self).lexeme(),
            is_number_lexeme(t.token@),
            final(self).pos() == number_end(old(self).src(), old(self).pos()),
    {
        self.consume_digits();
        if self.peek() == '.' && is_digit(self.peek_next()) {
            let ghost k = self.pos();
            self.advance();
            self.advance();
            proof {
                assert(is_digit_seq(self.src().subrange(k + 1, self.pos())));
            }
            self.consume_fraction_digits(Ghost(k));
            proof {
                let lex = self.lexeme();
                let kk = k - self.start_pos();
                assert(lex.subrange(0, kk) =~= self.src().subrange(self.start_pos(), k));
                assert(lex.subrange(kk + 1, lex.len() as int) =~= self.src().subrange(
                    k + 1,
                    self.pos(),
                ));
                assert(lex[kk] == self.src()[k]);
                assert(is_number_lexeme(lex));
            }
        } else {
            proof {
                assert(is_number_lexeme(self.lexeme()));
            }
        }
        self.make_token(TokenType::Number)
    }

    /// Consumes the run of digits at the position; the lexeme so far must
    /// be all digits and stays so.
    fn consume_digits(&mut self)
        requires
            old(self).wf(),
            old(self).start_pos() < old(self).pos(),
            is_digit_seq(old(self).lexeme()),
        ensures
            final(self).wf(),
            final(self).src() == old(self).src(),
            final(self).start_pos() == old(self).start_pos(),
            final(self).pos() >= old(self).pos(),
            final(self).line_no() == old(self).line_no(),
            is_digit_seq(final(self).lexeme()),
            !(final(self).pos() < final(self).src().len() && is_digit_c(
                final(self).src()[final(self).pos()],
            )),
            final(self).pos() == digits_end(old(self).src(), old(self).pos()),
    {
        loop
            invariant
                self.wf(),
                self.src() == old(self).src(),
                self.start_pos() == old(self).start_pos(),
                self.pos() >= old(self).pos(),
                self.line_no() == old(self).line_no(),
                self.start_pos() < self.pos(),
                is_digit_seq(self.lexeme()),
                digits_end(self.src(), self.pos()) == digits_end(
                    old(self).src(),
                    old(self).pos(),
                ),
            decreases self.src().len() - self.pos(),
        {
            let c = self.peek();
            if !is_digit(c) {
                return ;
            }
            let ghost before = self.lexeme();
            self.advance();
            proof {
                assert(self.lexeme() =~= before.push(c));
            }
        }
    }

    /// Consumes the run of digits after the decimal point at `k`.
    fn consume_fraction_digits(&mut self, Ghost(k): Ghost<int>)
        requires
            old(self).wf(),
            0 <= k,
            k + 1 < old(self).pos(),
            is_digit_seq(old(self).src().subrange(k + 1, old(self).pos())),
        ensures
            final(self).wf(),
            final(self).src() == old(self).src(),
            final(self).start_pos() == old(self).start_pos(),
            final(self).pos() >= old(self).pos(),
            final(self).line_no() == old(self).line_no(),
            k + 1 < final(self).pos(),
            is_digit_seq(final(self).src().subrange(k + 1, final(self).pos())),
            final(self).pos() == digits_end(old(self).src(), old(self).pos()),
    {
        loop
            invariant
                self.wf(),
                self.src() == old(self).src(),
                self.start_pos() == old(self).start_pos(),
                self.pos() >= old(self).pos(),
                self.line_no() == old(self).line_no(),
                0 <= k,
                k + 1 < self.pos(),
                is_digit_seq(self.src().subrange(k + 1, self.pos())),
                digits_end(self.src(), self.pos()) == digits_end(
                    old(self).src(),
                    old(self).pos(),
                ),
            decreases self.src().len() - self.pos(),
        {
            let c = self.peek();
            if !is_digit(c) {
                return ;
            }
            let ghost before = self.src().subrange(k + 1, self.pos());
            self.advance();
            proof {
                assert(self.src().subrange(k + 1, self.pos()) =~= before.push(c));
            }
        }
    }

    fn identifier(&mut self) -> (t: Token)
        requires
            old(self).wf(),
            old(self).start_pos() < old(self).pos(),
        ensures
            final(self).wf(),
            final(self).src() == old(self).src(),
            final(self).start_pos() == old(self).start_pos(),
            final(self).pos() >= old(self).pos(),
            final(self).line_no() == old(self).line_no(),
            t.line == final(self).line_no(),
            t.t_type == keyword_kind(t.token@),
            t.token@ == final(self).lexeme(),
            t.t_type != TokenType::Error && t.t_type != TokenType::Eof && t.t_type
                != TokenType::Number,
            final(self).pos() == ident_end(old(self).src(), old(self).pos()),
    {
        loop
            invariant
                self.wf(),
                self.src() == old(self).src(),
                self.start_pos() == old(self).start_pos(),
                self.pos() >= old(self).pos(),
                self.line_no() == old(self).line_no(),
                self.start_pos() < self.pos(),
                ident_end(self.src(), self.pos()) == ident_end(old(self).src(), old(self).pos()),
            decreases self.src().len() - self.pos(),
        {
            let c = self.peek();
            if !(is_alpha(c) || is_digit(c)) {
                let kind = self.identifier_type();
                return self.make_token(kind);
            }
            self.advance();
        }
    }

    fn identifier_type(&self) -> (t: TokenType)
        requires
            self.wf(),
            self.start_pos() < self.pos(),
        ensures
            t == keyword_kind(self.lexeme()),
            t != TokenType::Error && t != TokenType::Eof && t != TokenType::Number,
    {
        proof {
            reveal_strlit("and");
            reveal_strlit("class");
            reveal_strlit("else");
            reveal_strlit("false");
            reveal_strlit("for");
            reveal_strlit("fun");
            reveal_strlit("if");
            reveal_strlit("nil");
            reveal_strlit("or");
            reveal_strlit("print");
            reveal_strlit("return");
            reveal_strlit("super");
            reveal_strlit("this");
            reveal_strlit("true");
            reveal_strlit("var");
            reveal_strlit("while");
            reveal_strlit("nd");
            reveal_strlit("lass");
            reveal_strlit("lse");
            reveal_strlit("r");
            reveal_strlit("n");
            reveal_strlit("f");
            reveal_strlit("il");
            reveal_strlit("rint");
            reveal_strlit("eturn");
            reveal_strlit("uper");
            reveal_strlit("is");
            reveal_strlit("ue");
            reveal_strlit("ar");
            reveal_strlit("hile");
            lemma_keyword_shapes(self.lexeme());
            assert(self.lexeme()[0] == self.src()[self.start_pos()]);
            assert(self.start_pos() + 1 < self.pos() ==> self.lexeme()[1] == self.src()[
                self.start_pos() + 1
            ]);
        }
        match self.char_at(self.start) {
            'a' => self.check_keyword(1, 2, "nd", TokenType::And),
            'c' => self.check_keyword(1, 4, "lass", TokenType::Class),
            'e' => self.check_keyword(1, 3, "lse", TokenType::Else),
            'f' => {
                if self.current - self.start > 1 {
                    match self.char_at(self.start + 1) {
                        'a' => self.check_keyword(2, 3, "lse", TokenType::False),
                        'o' => self.check_keyword(2, 1, "r", TokenType::For),
                        'u' => self.check_keyword(2, 1, "n", TokenType::Fun),
                        _ => TokenType::Identifier,
                    }
                } else {
                    TokenType::Identifier
                }
            },
            'i' => self.check_keyword(1, 1, "f", TokenType::If),
            'n' => self.check_keyword(1, 2, "il", TokenType::Nil),
            'o' => self.check_keyword(1, 1, "r", TokenType::Or),
            'p' => self.check_keyword(1, 4, "rint", TokenType::Print),
            'r' => self.check_keyword(1, 5, "eturn", TokenType::Return),
            's' => self.check_keyword(1, 4, "uper", TokenType::Super),
            't' => {
                if self.current - self.start > 1 {
                    match self.char_at(self.start + 1) {
                        'h' => self.check_keyword(2, 2, "is", TokenType::This),
                        'r' => self.check_keyword(2, 2, "ue", TokenType::True),
                        _ => TokenType::Identifier,
                    }
                } else {
                    TokenType::Identifier
                }
            },
            'v' => self.check_keyword(1, 2, "ar", TokenType::Var),
            'w' => self.check_keyword(1, 4, "hile", TokenType::While),
            _ => TokenType::Identifier,
        }
    }

    /// Compares the tail of the lexeme, from `kstart` on, against `rest`
    /// by maximal exact match.
    fn check_keyword(&self, kstart: usize, length: usize, rest: &str, t_type: TokenType) -> (t:
        TokenType)
        requires
            self.wf(),
            kstart <= 8,
            length <= 8,
            rest@.len() == length,
        ensures
            t == if self.lexeme().len() == kstart + length && self.lexeme().subrange(
                kstart as int,
                kstart + length,
            ) == rest@ {
                t_type
            } else {
                TokenType::Identifier
            },
    {
        if self.current - self.start != kstart + length {
            return TokenType::Identifier;
        }
        let mut i: usize = 0;
        while i < length
            invariant
                self.wf(),
                kstart <= 8,
                length <= 8,
                rest@.len() == length,
                i <= length,
                self.pos() - self.start_pos() == kstart + length,
                forall|j: int|
                    0 <= j < i ==> self.src()[self.start_pos() + kstart + j] == rest@[j],
            decreases length - i,
        {
            if self.char_at(self.start + kstart + i) != rest.get_char(i) {
                return TokenType::Identifier;
            }
            i = i + 1;
        }
        proof {
            assert(self.lexeme().subrange(kstart as int, kstart + length) =~= rest@);
        }
        t_type
    }

    fn make_token(&self, token_type: TokenType) -> (t: Token)
        requires
            self.wf(),
        ensures
            t.t_type == token_type,
            t.token@ == self.lexeme(),
            t.line == self.line_no(),
    {
        let token = self.source.as_str().substring_char(self.start, self.current);
        Token { t_type: token_type, token: String::from_str(token), line: self.line }
    }

    fn error_token(&self, message: &str) -> (t: Token)
        ensures
            t.t_type == TokenType::Error,
            t.token@ == message@,
            t.line == self.line_no(),
    {
        Token { t_type: TokenType::Error, token: String::from_str(message), line: self.line }
    }
}

pub fn is_digit(ch: char) -> (r: bool)
    ensures
        r == is_digit_c(ch),
{
    ch >= '0' && ch <= '9'
}

pub fn is_alpha(ch: char) -> (r: bool)
    ensures
        r == is_alpha_c(ch),
{
    (ch >= 'a' && ch <= 'z') || (ch >= 'A' && ch <= 'Z') || ch == '_'
}

} // verus!
