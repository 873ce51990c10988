//! The compiler: a single-pass precedence-climbing parser that drives
//! the lexer token by token and emits bytecode straight into a chunk,
//! with no intermediate tree.
//!
//! Errors are sticky: the first diagnostic per compilation is recorded
//! and later ones are suppressed, while parsing continues to the end of
//! the input.  The caller must check [`Parser::had_error`] and refuse to
//! execute a chunk compiled under an error.
use vstd::prelude::*;

use crate::chunk::Chunk;
use crate::chunk::OpCode;
use crate::expr::code_of;
use crate::expr::lits;
use crate::expr::lits_values;
use crate::expr::Expr;
use crate::num::bits_of_number_lexeme;
use crate::num::num_from_lexeme;
use crate::scanner::lexeme_of;
use crate::scanner::spec_scan;
use crate::scanner::token_wf;
use crate::scanner::ScanStep;
use crate::scanner::Scanner;
use crate::scanner::Token;
use crate::scanner::TokenType;
use crate::text::dec_str;
use crate::text::usize_text;
use crate::value::Value;

verus! {

pub struct Parser {
    previous: Option<Token>,
    current: Option<Token>,
    scanner: Scanner,
    had_error: bool,
    chunk: Chunk,
    /// Compile-error reports, one entry per line; at most one per
    /// compilation under the sticky first-error policy.
    pub diagnostics: Vec<String>,
    /// Where in the source the lookahead token was scanned: the anchor
    /// that ties the parser's run to the reference parse.
    cur_step: Ghost<ScanStep>,
}

/// The binding strengths, weakest first.
#[derive(Debug, Clone, Copy, PartialEq, Eq, Structural)]
pub enum Precedence {
    Lowest,
    Assignment,
    Or,
    And,
    Equality,
    Comparison,
    Term,
    Factor,
    Unary,
    Call,
    Primary,
}

/// The position of a precedence in the total order.
pub open spec fn prec_rank(p: Precedence) -> int {
    match p {
        Precedence::Lowest => 0,
        Precedence::Assignment => 1,
        Precedence::Or => 2,
        Precedence::And => 3,
        Precedence::Equality => 4,
        Precedence::Comparison => 5,
        Precedence::Term => 6,
        Precedence::Factor => 7,
        Precedence::Unary => 8,
        Precedence::Call => 9,
        Precedence::Primary => 10,
    }
}

/// The next-higher precedence, used to make binary operators
/// left-associative; the highest is its own successor.
pub open spec fn spec_next(p: Precedence) -> Precedence {
    match p {
        Precedence::Lowest => Precedence::Assignment,
        Precedence::Assignment => Precedence::Or,
        Precedence::Or => Precedence::And,
        Precedence::And => Precedence::Equality,
        Precedence::Equality => Precedence::Comparison,
        Precedence::Comparison => Precedence::Term,
        Precedence::Term => Precedence::Factor,
        Precedence::Factor => Precedence::Unary,
        Precedence::Unary => Precedence::Call,
        Precedence::Call => Precedence::Primary,
        Precedence::Primary => Precedence::Primary,
    }
}

impl Precedence {
    pub fn next(&self) -> (r: Self)
        ensures
            r == spec_next(*self),
    {
        match self {
            Precedence::Lowest => Precedence::Assignment,
            Precedence::Assignment => Precedence::Or,
            Precedence::Or => Precedence::And,
            Precedence::And => Precedence::Equality,
            Precedence::Equality => Precedence::Comparison,
            Precedence::Comparison => Precedence::Term,
            Precedence::Term => Precedence::Factor,
            Precedence::Factor => Precedence::Unary,
            Precedence::Unary => Precedence::Call,
            Precedence::Call => Precedence::Primary,
            Precedence::Primary => Precedence::Primary,
        }
    }

    fn rank(&self) -> (r: u8)
        ensures
            r == prec_rank(*self),
    {
        match self {
            Precedence::Lowest => 0,
            Precedence::Assignment => 1,
            Precedence::Or => 2,
            Precedence::And => 3,
            Precedence::Equality => 4,
            Precedence::Comparison => 5,
            Precedence::Term => 6,
            Precedence::Factor => 7,
            Precedence::Unary => 8,
            Precedence::Call => 9,
            Precedence::Primary => 10,
        }
    }
}

#[derive(Debug, Clone, Copy, PartialEq, Eq, Structural)]
enum ParseFn {
    Unary,
    Grouping,
    Binary,
    Number,
    Literal,
}

#[derive(Debug, Clone, Copy)]
struct ParseRule {
    prefix: Option<ParseFn>,
    infix: Option<ParseFn>,
    precedence: Precedence,
}

/// The static rule table: for each token kind, its prefix handler, its
/// infix handler, and its binding precedence.  It never changes.
spec fn spec_rule(t: TokenType) -> ParseRule {
    match t {
        TokenType::LeftParen => ParseRule {
            prefix: Some(ParseFn::Grouping),
            infix: None,
            precedence: Precedence::Lowest,
        },
        TokenType::Minus => ParseRule {
            prefix: Some(ParseFn::Unary),
            infix: Some(ParseFn::Binary),
            precedence: Precedence::Term,
        },
        TokenType::Plus => ParseRule {
            prefix: None,
            infix: Some(ParseFn::Binary),
            precedence: Precedence::Term,
        },
        TokenType::Slash => ParseRule {
            prefix: None,
            infix: Some(ParseFn::Binary),
            precedence: Precedence::Factor,
        },
        TokenType::Star => ParseRule {
            prefix: None,
            infix: Some(ParseFn::Binary),
            precedence: Precedence::Factor,
        },
        TokenType::Number => ParseRule {
            prefix: Some(ParseFn::Number),
            infix: None,
            precedence: Precedence::Lowest,
        },
        TokenType::True => ParseRule {
            prefix: Some(ParseFn::Literal),
            infix: None,
            precedence: Precedence::Lowest,
        },
        TokenType::False => ParseRule {
            prefix: Some(ParseFn::Literal),
            infix: None,
            precedence: Precedence::Lowest,
        },
        TokenType::Nil => ParseRule {
            prefix: Some(ParseFn::Literal),
            infix: None,
            precedence: Precedence::Lowest,
        },
        _ => ParseRule { prefix: None, infix: None, precedence: Precedence::Lowest },
    }
}

/// Whether a token is one of the three value-literal keywords.
pub open spec fn is_lit_token(t: TokenType) -> bool {
    t == TokenType::True || t == TokenType::False || t == TokenType::Nil
}

/// The expression a value-literal keyword denotes.
pub open spec fn lit_expr(t: TokenType) -> Expr {
    if t == TokenType::True {
        Expr::Bool(true)
    } else if t == TokenType::False {
        Expr::Bool(false)
    } else {
        Expr::Nil
    }
}

/// The instruction a binary operator token stands for.
pub open spec fn bin_instr(t: TokenType) -> OpCode {
    match t {
        TokenType::Plus => OpCode::OpAdd,
        TokenType::Minus => OpCode::OpSubtract,
        TokenType::Star => OpCode::OpMultiply,
        TokenType::Slash => OpCode::OpDivide,
        _ => OpCode::OpReturn,
    }
}

/// The expression node a binary operator token builds from its two
/// operands.
pub open spec fn bin_node(t: TokenType, l: Expr, r: Expr) -> Expr {
    match t {
        TokenType::Plus => Expr::Add(Box::new(l), Box::new(r)),
        TokenType::Minus => Expr::Sub(Box::new(l), Box::new(r)),
        TokenType::Star => Expr::Mul(Box::new(l), Box::new(r)),
        TokenType::Slash => Expr::Div(Box::new(l), Box::new(r)),
        _ => Expr::Num(0),
    }
}

pub open spec fn is_bin_token(t: TokenType) -> bool {
    t == TokenType::Plus || t == TokenType::Minus || t == TokenType::Star || t == TokenType::Slash
}

/// A binary node's code is its operands' code and then its instruction,
/// and its literals are its operands' literals in order.
proof fn lemma_bin_node_shape(t: TokenType, l: Expr, r: Expr, base: int)
    requires
        is_bin_token(t),
    ensures
        code_of(bin_node(t, l, r), base) == code_of(l, base) + code_of(r, base + lits(l).len())
            + seq![bin_instr(t)],
        lits_values(bin_node(t, l, r)) == lits_values(l) + lits_values(r),
{
    let e = bin_node(t, l, r);
    assert(lits(e) == lits(l) + lits(r));
    assert(lits_values(e) =~= lits_values(l) + lits_values(r)) by {
        assert(forall|k: int|
            0 <= k < lits(l).len() ==> #[trigger] lits(e)[k] == lits(l)[k]);
        assert(forall|k: int|
            0 <= k < lits(r).len() ==> #[trigger] lits(r)[k] == lits(e)[lits(l).len() + k]);
    }
}

/// A binary operator token's binding rank: additive operators bind at
/// the term level, multiplicative ones a level higher; everything else
/// binds not at all.
pub open spec fn op_rank(t: TokenType) -> int {
    if t == TokenType::Plus || t == TokenType::Minus {
        6
    } else if t == TokenType::Star || t == TokenType::Slash {
        7
    } else {
        0
    }
}

/// The outcome of one reference-parse step: whether it succeeded, the
/// expression recognised, the lookahead token it left behind, the line
/// entries it emitted alongside its code, and the line of the token it
/// consumed last (the line the next emitted instruction would carry).
pub struct PResult {
    pub ok: bool,
    pub expr: Expr,
    pub cur: ScanStep,
    pub lines: Seq<usize>,
    pub last: int,
}

/// How much input is ahead of a lookahead token: the unscanned text and
/// one for the token itself while it is not the end-of-input marker.
pub open spec fn tmeasure(src: Seq<char>, cur: ScanStep) -> int {
    src.len() - cur.end + if cur.kind == TokenType::Eof {
        0int
    } else {
        1int
    }
}

/// What one scan must do for the parse to go on: stay inside the text
/// and make progress.  Real scans always do; the reference parser treats
/// anything else as a failed parse, so that it is well-founded.
pub open spec fn adv_ok(src: Seq<char>, c0: ScanStep, c1: ScanStep) -> bool {
    c1.end <= src.len() && (if c1.kind == TokenType::Eof {
        c1.end >= c0.end
    } else {
        c1.end > c0.end
    })
}

pub open spec fn p_fail(cur: ScanStep) -> PResult {
    PResult { ok: false, expr: Expr::Num(0), cur, lines: Seq::empty(), last: 0 }
}

/// The reference parser's climb: the token `cur0` was just consumed; run
/// its prefix rule, then fold in infix operators binding at least as
/// strongly as `min_rank`.  Mirrors [`Parser::parse_precedence`].
pub open spec fn sp_pp(src: Seq<char>, cur0: ScanStep, min_rank: int) -> PResult
    decreases tmeasure(src, cur0), 2int,
{
    let cur1 = spec_scan(src, cur0.end, cur0.line);
    if cur1.kind == TokenType::Error || !adv_ok(src, cur0, cur1) {
        p_fail(cur1)
    } else if cur0.kind == TokenType::Number {
        sp_loop(
            src,
            Expr::Num(bits_of_number_lexeme(src.subrange(cur0.start, cur0.end))),
            seq![cur0.line as usize],
            cur0.line,
            cur1,
            min_rank,
        )
    } else if is_lit_token(cur0.kind) {
        sp_loop(src, lit_expr(cur0.kind), seq![cur0.line as usize], cur0.line, cur1, min_rank)
    } else if cur0.kind == TokenType::Minus {
        let r = sp_pp(src, cur1, 8);
        if !r.ok || !(0 <= tmeasure(src, r.cur) < tmeasure(src, cur0)) {
            p_fail(r.cur)
        } else {
            sp_loop(
                src,
                Expr::Neg(Box::new(r.expr)),
                r.lines.push(r.last as usize),
                r.last,
                r.cur,
                min_rank,
            )
        }
    } else if cur0.kind == TokenType::LeftParen {
        let r = sp_pp(src, cur1, 1);
        if !r.ok {
            p_fail(r.cur)
        } else if r.cur.kind == TokenType::RightParen {
            let cur2 = spec_scan(src, r.cur.end, r.cur.line);
            if cur2.kind == TokenType::Error || !(0 <= tmeasure(src, cur2) < tmeasure(src, cur0)) {
                p_fail(cur2)
            } else {
                sp_loop(src, r.expr, r.lines, r.cur.line, cur2, min_rank)
            }
        } else {
            p_fail(r.cur)
        }
    } else {
        p_fail(cur1)
    }
}

/// The infix fold of the climb: while the lookahead operator binds at
/// least as strongly as `min_rank`, consume it, parse its right operand
/// one level higher, and build the node.
pub open spec fn sp_loop(
    src: Seq<char>,
    acc: Expr,
    acc_lines: Seq<usize>,
    last: int,
    cur: ScanStep,
    min_rank: int,
) -> PResult
    decreases tmeasure(src, cur), 1int,
{
    if is_bin_token(cur.kind) && op_rank(cur.kind) >= min_rank {
        let cur1 = spec_scan(src, cur.end, cur.line);
        if cur1.kind == TokenType::Error || !adv_ok(src, cur, cur1) {
            p_fail(cur1)
        } else {
            let r = sp_pp(src, cur1, op_rank(cur.kind) + 1);
            if !r.ok || !(0 <= tmeasure(src, r.cur) < tmeasure(src, cur)) {
                p_fail(r.cur)
            } else {
                sp_loop(
                    src,
                    bin_node(cur.kind, acc, r.expr),
                    acc_lines + r.lines.push(r.last as usize),
                    r.last,
                    r.cur,
                    min_rank,
                )
            }
        }
    } else {
        PResult { ok: true, expr: acc, cur, lines: acc_lines, last }
    }
}

/// The reference parse of a whole source unit: scan the first token,
/// parse one expression, and require end of input after it.  A source
/// parses to exactly one expression or to nothing.
pub open spec fn parse(src: Seq<char>) -> Option<Expr> {
    let cur0 = spec_scan(src, 0, 1);
    if cur0.kind == TokenType::Error || cur0.end > src.len() {
        None
    } else {
        let r = sp_pp(src, cur0, 1);
        if r.ok && r.cur.kind == TokenType::Eof {
            Some(r.expr)
        } else {
            None
        }
    }
}

/// The line table a successful parse emits: one entry per instruction
/// of its code, each the line of the token that completed most recently
/// at that emission, and a final entry for the trailing return, carrying
/// the end-of-input token's line.
pub open spec fn parse_lines(src: Seq<char>) -> Seq<usize> {
    let cur0 = spec_scan(src, 0, 1);
    let r = sp_pp(src, cur0, 1);
    r.lines.push(r.cur.line as usize)
}

/// A token kind whose rule has a prefix handler begins a token the
/// scanner actually produced, never the end-of-input marker.
proof fn lemma_prefix_is_real(t: TokenType)
    ensures
        spec_rule(t).prefix is Some ==> t != TokenType::Eof,
        prec_rank(spec_rule(t).precedence) >= 1 ==> t != TokenType::Eof,
{
}

/// The rule table's binding precedence is the operator rank, and the
/// next-higher precedence of an operator is one rank up.
proof fn lemma_op_rank(t: TokenType)
    ensures
        op_rank(t) == prec_rank(spec_rule(t).precedence),
        is_bin_token(t) ==> prec_rank(spec_next(spec_rule(t).precedence)) == op_rank(t) + 1,
        is_bin_token(t) <==> op_rank(t) >= 1,
{
}

impl Parser {
    pub closed spec fn spec_prev(&self) -> Option<Token> {
        self.previous
    }

    pub closed spec fn spec_cur(&self) -> Option<Token> {
        self.current
    }

    pub closed spec fn spec_had_error(&self) -> bool {
        self.had_error
    }

    pub closed spec fn spec_code(&self) -> Seq<OpCode> {
        self.chunk.code@
    }

    pub closed spec fn spec_lines(&self) -> Seq<usize> {
        self.chunk.lines@
    }

    pub closed spec fn spec_constants(&self) -> Seq<Value> {
        self.chunk.constants@
    }

    pub closed spec fn spec_diagnostics(&self) -> Seq<Seq<char>> {
        self.diagnostics.deep_view()
    }

    pub closed spec fn spec_src(&self) -> Seq<char> {
        self.scanner.src()
    }

    pub closed spec fn spec_pos(&self) -> int {
        self.scanner.pos()
    }

    pub closed spec fn spec_line(&self) -> int {
        self.scanner.line_no()
    }

    pub closed spec fn spec_cur_step(&self) -> ScanStep {
        self.cur_step@
    }

    pub closed spec fn scanner_wf(&self) -> bool {
        self.scanner.wf()
    }

    /// How much input is still ahead of the parser: the unscanned text,
    /// plus one for a lookahead token not yet consumed.  Every parsing
    /// step leaves this the same or smaller, and consuming a token
    /// shrinks it; the recursion of the precedence climber bottoms out
    /// on it.
    pub open spec fn remaining(&self) -> int {
        self.spec_src().len() - self.spec_pos() + if has_pending(self.spec_cur()) {
            1int
        } else {
            0int
        }
    }

    /// The parser's invariant: a sound scanner, a well-formed chunk
    /// whose pool holds only numbers, sound lookahead tokens, and the
    /// sticky flag set exactly when a diagnostic was recorded.
    pub open spec fn inv(&self) -> bool {
        &&& self.scanner_wf()
        &&& self.chunk_wf()
        &&& (self.spec_cur() matches Some(t) ==> token_wf(t) && t.t_type != TokenType::Error)
        &&& (self.spec_prev() matches Some(t) ==> token_wf(t) && t.t_type != TokenType::Error)
        &&& (self.spec_cur() matches Some(t) && t.t_type == TokenType::Eof ==> self.spec_pos()
            == self.spec_src().len())
        &&& (self.spec_had_error() <==> self.spec_diagnostics().len() > 0)
        &&& (self.spec_cur() matches Some(t) ==> {
            let st = self.spec_cur_step();
            &&& t.t_type == st.kind
            &&& t.line == st.line
            &&& t.token@ == lexeme_of(self.spec_src(), st)
            &&& self.spec_pos() == st.end
            &&& self.spec_line() == st.line
            &&& 0 <= st.start <= st.end
        })
    }

    pub open spec fn chunk_wf(&self) -> bool {
        &&& self.spec_code().len() == self.spec_lines().len()
        &&& forall|i: int|
            0 <= i < self.spec_code().len() ==> (#[trigger] self.spec_code()[i] matches
                OpCode::OpConstant { index } ==> index < self.spec_constants().len())
        &&& forall|i: int|
            0 <= i < self.spec_constants().len() ==> #[trigger] self.spec_constants()[i] is Number
    }

    /// A parsing step from `pre` to `post` emitted exactly the code of
    /// the expression `e` and registered exactly its literals.
    pub open spec fn emitted(pre: Self, post: Self, e: Expr) -> bool {
        &&& post.spec_code() == pre.spec_code() + code_of(
            e,
            pre.spec_constants().len() as int,
        )
        &&& post.spec_constants() == pre.spec_constants() + lits_values(e)
    }

    /// A parser as [`Parser::new`] hands it out: nothing scanned,
    /// nothing reported.
    pub open spec fn fresh(&self) -> bool {
        &&& !self.spec_had_error()
        &&& self.spec_cur() is None
        &&& self.spec_prev() is None
        &&& self.spec_pos() == 0
        &&& self.spec_line() == 1
    }

    /// What every parsing step preserves: the source, the invariant, a
    /// chunk that only grows, monotone progress through the input, and
    /// the sticky error flag only ever rising.
    pub open spec fn step_ok(pre: Self, post: Self) -> bool {
        &&& post.inv()
        &&& post.spec_src() == pre.spec_src()
        &&& post.remaining() <= pre.remaining()
        &&& pre.spec_code().is_prefix_of(post.spec_code())
        &&& pre.spec_lines().is_prefix_of(post.spec_lines())
        &&& pre.spec_constants().is_prefix_of(post.spec_constants())
        &&& pre.spec_diagnostics().is_prefix_of(post.spec_diagnostics())
        &&& (pre.spec_had_error() ==> post.spec_had_error())
        &&& (!post.spec_had_error() ==> post.spec_diagnostics() == pre.spec_diagnostics())
        &&& (pre.spec_had_error() ==> post.spec_diagnostics() == pre.spec_diagnostics())
        &&& post.spec_diagnostics().len() <= pre.spec_diagnostics().len() + 1
    }

    pub fn new(source: &str) -> (p: Self)
        ensures
            p.inv(),
            p.spec_src() == source@,
            p.spec_pos() == 0,
            p.spec_line() == 1,
            p.spec_prev() is None,
            p.spec_cur() is None,
            !p.spec_had_error(),
            p.spec_code() == Seq::<OpCode>::empty(),
            p.spec_lines() == Seq::<usize>::empty(),
            p.spec_constants() == Seq::<Value>::empty(),
            p.spec_diagnostics() == Seq::<Seq<char>>::empty(),
            p.fresh(),
    {
        let p = Self {
            previous: None,
            current: None,
            scanner: Scanner::new(source),
            had_error: false,
            chunk: Chunk::new(),
            diagnostics: Vec::new(),
            cur_step: Ghost(ScanStep { kind: TokenType::Eof, start: 0, end: 0, line: 1 }),
        };
        proof {
            assert(p.spec_diagnostics() =~= Seq::<Seq<char>>::empty());
        }
        p
    }

    /// Hands the recorded diagnostics out, leaving none behind.
    pub fn take_diagnostics(&mut self) -> (r: Vec<String>)
        ensures
            r.deep_view() == old(self).spec_diagnostics(),
            final(self).spec_had_error() == old(self).spec_had_error(),
    {
        let mut d: Vec<String> = Vec::new();
        core::mem::swap(&mut self.diagnostics, &mut d);
        d
    }

    /// Whether this compilation has reported an error.  A chunk compiled
    /// under an error must not be executed.
    pub fn had_error(&self) -> (r: bool)
        ensures
            r == self.spec_had_error(),
    {
        self.had_error
    }

    /// Compiles one expression followed by end of input, then a trailing
    /// return instruction, and hands the chunk out.  Success or failure
    /// is signalled out of band through [`Parser::had_error`].
    pub fn compile(&mut self) -> (r: Chunk)
        requires
            old(self).inv(),
        ensures
            final(self).inv(),
            r.code@ == final(self).spec_code(),
            r.lines@ == final(self).spec_lines(),
            r.constants@ == final(self).spec_constants(),
            r.wf(),
            r.code@.len() >= 1,
            r.code@.last() == OpCode::OpReturn,
            forall|i: int| 0 <= i < r.constants@.len() ==> #[trigger] r.constants@[i] is Number,
            old(self).spec_had_error() ==> final(self).spec_had_error(),
            final(self).spec_had_error() <==> final(self).spec_diagnostics().len() > 0,
            old(self).spec_diagnostics().is_prefix_of(final(self).spec_diagnostics()),
            final(self).spec_diagnostics().len() <= old(self).spec_diagnostics().len() + 1,
            old(self).spec_had_error() ==> final(self).spec_diagnostics() == old(self).spec_diagnostics(),
            !final(self).spec_had_error() ==> (final(self).spec_prev() matches Some(t) && t.t_type
                == TokenType::Eof),
            !final(self).spec_had_error() ==> exists|e: Expr|
                final(self).spec_code() == old(self).spec_code() + code_of(
                    e,
                    old(self).spec_constants().len() as int,
                ) + seq![OpCode::OpReturn] && final(self).spec_constants() == old(self).spec_constants() + lits_values(e),
            (old(self).fresh() && spec_scan(old(self).spec_src(), 0, 1).kind == TokenType::Error)
                ==> final(self).spec_diagnostics() == old(self).spec_diagnostics().push(
                scan_error_report(old(self).spec_src(), spec_scan(old(self).spec_src(), 0, 1)),
            ),
            old(self).fresh() ==> ({
                let p = parse(old(self).spec_src());
                &&& (final(self).spec_had_error() <==> p is None)
                &&& (p matches Some(e) ==> final(self).spec_code() == old(self).spec_code()
                    + code_of(e, old(self).spec_constants().len() as int) + seq![OpCode::OpReturn]
                    && final(self).spec_constants() == old(self).spec_constants() + lits_values(e)
                    && final(self).spec_lines() == old(self).spec_lines() + parse_lines(
                    old(self).spec_src(),
                ))
            }),
    {
        let ghost src = old(self).spec_src();
        let ghost cur0 = spec_scan(src, 0, 1);
        self.advance();
        let ghost sa = *self;
        self.expression();
        let ghost s1 = *self;
        self.consume(&TokenType::Eof, "Expect end of expression.");
        let ghost s2 = *self;
        self.end_compile();
        proof {
            if !self.spec_had_error() {
                let e = choose|e: Expr| Self::emitted(sa, s1, e);
                let base = old(self).spec_constants().len() as int;
                assert(self.spec_code() =~= old(self).spec_code() + code_of(e, base) + seq![
                    OpCode::OpReturn,
                ]);
                assert(self.spec_constants() =~= old(self).spec_constants() + lits_values(e));
            }
            if old(self).fresh() {
                if sa.spec_had_error() {
                    assert(cur0.kind == TokenType::Error);
                } else {
                    assert(sa.spec_cur_step() == cur0);
                    assert(cur0.end <= src.len());
                    let r = sp_pp(src, cur0, 1);
                    if r.ok {
                        assert(!s1.spec_had_error());
                        assert(s1.spec_cur_step() == r.cur);
                        if r.cur.kind == TokenType::Eof {
                            assert(s1.spec_pos() == src.len());
                            assert(spec_scan(src, r.cur.end, r.cur.line).kind == TokenType::Eof);
                            assert(!s2.spec_had_error());
                            let e = r.expr;
                            let base = old(self).spec_constants().len() as int;
                            assert(self.spec_code() =~= old(self).spec_code() + code_of(e, base)
                                + seq![OpCode::OpReturn]);
                            assert(self.spec_constants() =~= old(self).spec_constants()
                                + lits_values(e));
                            assert(s2.spec_prev() == s1.spec_cur());
                            assert(s2.spec_prev()->Some_0.line as int == r.cur.line);
                            assert(self.spec_lines() =~= old(self).spec_lines() + r.lines.push(
                                r.cur.line as usize,
                            ));
                        } else {
                            assert(s2.spec_had_error());
                        }
                    } else {
                        assert(s1.spec_had_error());
                    }
                }
            }
        }
        self.chunk.clone()
    }

    fn end_compile(&mut self)
        requires
            old(self).inv(),
            old(self).spec_prev() is Some,
        ensures
            Self::step_ok(*old(self), *final(self)),
            final(self).spec_code() == old(self).spec_code().push(OpCode::OpReturn),
            final(self).spec_lines() == old(self).spec_lines().push(
                old(self).spec_prev()->Some_0.line,
            ),
            final(self).spec_constants() == old(self).spec_constants(),
            final(self).spec_prev() == old(self).spec_prev(),
            final(self).spec_cur() == old(self).spec_cur(),
            final(self).spec_had_error() == old(self).spec_had_error(),
            final(self).spec_diagnostics() == old(self).spec_diagnostics(),
            final(self).spec_cur_step() == old(self).spec_cur_step(),
    {
        self.emit_return();
    }

    /// Advances when the lookahead has the expected kind; otherwise
    /// reports the given message at the lookahead.
    fn consume(&mut self, token_type: &TokenType, message: &str)
        requires
            old(self).inv(),
            old(self).spec_cur() is Some,
        ensures
            Self::step_ok(*old(self), *final(self)),
            final(self).spec_code() == old(self).spec_code(),
            final(self).spec_lines() == old(self).spec_lines(),
            final(self).spec_constants() == old(self).spec_constants(),
            final(self).spec_cur() is Some,
            old(self).spec_cur() matches Some(t) && t.t_type == *token_type ==> final(self).spec_prev() == old(self).spec_cur(),
            !(old(self).spec_cur() matches Some(t) && t.t_type == *token_type) ==> final(self).spec_had_error() && final(self).spec_prev() == old(self).spec_prev(),
            (!old(self).spec_had_error() && (old(self).spec_cur() matches Some(t) && t.t_type
                == *token_type)) ==> ({
                let st1 = spec_scan(
                    old(self).spec_src(),
                    old(self).spec_pos(),
                    old(self).spec_line(),
                );
                &&& (final(self).spec_had_error() <==> st1.kind == TokenType::Error)
                &&& (!final(self).spec_had_error() ==> final(self).spec_cur_step() == st1)
            }),
    {
        let matches_kind = {
            let t = self.current.as_ref().unwrap();
            t.t_type == *token_type
        };
        if matches_kind {
            self.advance();
        } else {
            self.error_at_current(message);
        }
    }

    /// Shifts the lookahead into `previous` and scans the next token,
    /// reporting and skipping error tokens as they come.
    fn advance(&mut self)
        requires
            old(self).inv(),
        ensures
            Self::step_ok(*old(self), *final(self)),
            final(self).spec_code() == old(self).spec_code(),
            final(self).spec_lines() == old(self).spec_lines(),
            final(self).spec_constants() == old(self).spec_constants(),
            final(self).spec_prev() == old(self).spec_cur(),
            final(self).spec_cur() is Some,
            has_pending(old(self).spec_cur()) ==> final(self).remaining() < old(self).remaining(),
            old(self).spec_cur() matches Some(t) && t.t_type == TokenType::Eof ==> (final(self).spec_cur() matches Some(u) && u.t_type == TokenType::Eof),
            !old(self).spec_had_error() ==> (final(self).spec_had_error() <==> spec_scan(
                old(self).spec_src(),
                old(self).spec_pos(),
                old(self).spec_line(),
            ).kind == TokenType::Error),
            !old(self).spec_had_error() && !final(self).spec_had_error() ==> final(self).spec_cur_step() == spec_scan(
                old(self).spec_src(),
                old(self).spec_pos(),
                old(self).spec_line(),
            ),
            (!old(self).spec_had_error() && spec_scan(
                old(self).spec_src(),
                old(self).spec_pos(),
                old(self).spec_line(),
            ).kind == TokenType::Error) ==> final(self).spec_diagnostics() == old(self).spec_diagnostics().push(
                scan_error_report(
                    old(self).spec_src(),
                    spec_scan(old(self).spec_src(), old(self).spec_pos(), old(self).spec_line()),
                ),
            ),
    {
        self.previous = take_token(&mut self.current);
        let ghost p0 = self.spec_pos();
        let ghost l0 = self.spec_line();
        let t = self.scanner.scan_token();
        if t.t_type != TokenType::Error {
            self.cur_step = Ghost(spec_scan(self.spec_src(), p0, l0));
            self.current = Some(t);
            return ;
        }
        let msg = t.token.clone();
        self.error_at(&t, msg.as_str());
        loop
            invariant
                self.inv(),
                self.spec_had_error(),
                spec_scan(old(self).spec_src(), p0, l0).kind == TokenType::Error,
                p0 == old(self).spec_pos(),
                l0 == old(self).spec_line(),
                self.spec_src() == old(self).spec_src(),
                self.spec_code() == old(self).spec_code(),
                self.spec_lines() == old(self).spec_lines(),
                self.spec_constants() == old(self).spec_constants(),
                self.spec_prev() == old(self).spec_cur(),
                self.spec_cur() is None,
                old(self).spec_diagnostics().is_prefix_of(self.spec_diagnostics()),
                old(self).spec_had_error() ==> self.spec_diagnostics() == old(self).spec_diagnostics(),
                self.spec_diagnostics().len() <= old(self).spec_diagnostics().len() + 1,
                !old(self).spec_had_error() ==> self.spec_diagnostics() == old(self).spec_diagnostics().push(
                    scan_error_report(old(self).spec_src(), spec_scan(old(self).spec_src(), p0, l0)),
                ),
                self.spec_pos() >= old(self).spec_pos(),
                old(self).spec_cur() matches Some(t) && t.t_type == TokenType::Eof ==> self.spec_pos()
                    == self.spec_src().len(),
            decreases self.spec_src().len() - self.spec_pos(),
        {
            let ghost p = self.spec_pos();
            let ghost l = self.spec_line();
            let t2 = self.scanner.scan_token();
            if t2.t_type != TokenType::Error {
                self.cur_step = Ghost(spec_scan(self.spec_src(), p, l));
                self.current = Some(t2);
                return ;
            }
            let msg2 = t2.token.clone();
            self.error_at(&t2, msg2.as_str());
        }
    }

    fn expression(&mut self)
        requires
            old(self).inv(),
            old(self).spec_cur() is Some,
        ensures
            Self::step_ok(*old(self), *final(self)),
            final(self).spec_cur() is Some,
            final(self).spec_prev() is Some,
            !final(self).spec_had_error() ==> exists|e: Expr|
                Self::emitted(*old(self), *final(self), e),
            !old(self).spec_had_error() ==> ({
                let r = sp_pp(old(self).spec_src(), old(self).spec_cur_step(), 1);
                &&& (final(self).spec_had_error() <==> !r.ok)
                &&& (r.ok ==> Self::emitted(*old(self), *final(self), r.expr) && final(self).spec_cur_step() == r.cur && final(self).spec_lines() == old(self).spec_lines() + r.lines && (final(self).spec_prev() matches Some(pt) && pt.line as int == r.last))
            }),
        decreases old(self).remaining(), 1int,
    {
        self.parse_precedence(Precedence::Assignment);
    }

    /// Parses the previously consumed number literal and emits a
    /// constant load for its value.
    fn number(&mut self)
        requires
            old(self).inv(),
            old(self).spec_prev() matches Some(t) && t.t_type == TokenType::Number,
        ensures
            Self::step_ok(*old(self), *final(self)),
            ({
                let t = old(self).spec_prev()->Some_0;
                &&& final(self).spec_code() == old(self).spec_code().push(
                    OpCode::OpConstant { index: old(self).spec_constants().len() as usize },
                )
                &&& final(self).spec_constants() == old(self).spec_constants().push(
                    Value::Number(bits_of_number_lexeme(t.token@)),
                )
                &&& final(self).spec_lines() == old(self).spec_lines().push(t.line)
            }),
            final(self).spec_prev() == old(self).spec_prev(),
            final(self).spec_cur() == old(self).spec_cur(),
            final(self).spec_had_error() == old(self).spec_had_error(),
            final(self).spec_diagnostics() == old(self).spec_diagnostics(),
            final(self).remaining() == old(self).remaining(),
            final(self).spec_cur_step() == old(self).spec_cur_step(),
            Self::emitted(
                *old(self),
                *final(self),
                Expr::Num(bits_of_number_lexeme(old(self).spec_prev()->Some_0.token@)),
            ),
    {
        let bits = {
            let t = self.previous.as_ref().unwrap();
            num_from_lexeme(t.token.as_str())
        };
        self.emit_constant(Value::Number(bits));
        proof {
            let e = Expr::Num(bits_of_number_lexeme(old(self).spec_prev()->Some_0.token@));
            let base = old(self).spec_constants().len() as int;
            assert(code_of(e, base) =~= seq![
                OpCode::OpConstant { index: old(self).spec_constants().len() as usize },
            ]);
            assert(self.spec_code() =~= old(self).spec_code() + code_of(e, base));
            assert(lits_values(e) =~= seq![Value::Number(bits_of_number_lexeme(old(self).spec_prev()->Some_0.token@))]);
            assert(self.spec_constants() =~= old(self).spec_constants() + lits_values(e));
        }
    }

    /// Emits the instruction for a value-literal keyword: `true`,
    /// `false` or `nil`.
    fn literal(&mut self)
        requires
            old(self).inv(),
            old(self).spec_prev() matches Some(t) && is_lit_token(t.t_type),
        ensures
            Self::step_ok(*old(self), *final(self)),
            final(self).spec_prev() == old(self).spec_prev(),
            final(self).spec_cur() == old(self).spec_cur(),
            final(self).spec_had_error() == old(self).spec_had_error(),
            final(self).spec_diagnostics() == old(self).spec_diagnostics(),
            final(self).remaining() == old(self).remaining(),
            final(self).spec_cur_step() == old(self).spec_cur_step(),
            final(self).spec_lines() == old(self).spec_lines().push(
                old(self).spec_prev()->Some_0.line,
            ),
            Self::emitted(
                *old(self),
                *final(self),
                lit_expr(old(self).spec_prev()->Some_0.t_type),
            ),
    {
        let kind = {
            let t = self.previous.as_ref().unwrap();
            t.t_type
        };
        match kind {
            TokenType::True => self.emit_byte(OpCode::OpTrue),
            TokenType::False => self.emit_byte(OpCode::OpFalse),
            _ => self.emit_byte(OpCode::OpNil),
        }
        proof {
            let e = lit_expr(kind);
            let base = old(self).spec_constants().len() as int;
            assert(self.spec_code() =~= old(self).spec_code() + code_of(e, base));
            assert(lits_values(e) =~= Seq::<Value>::empty());
            assert(self.spec_constants() =~= old(self).spec_constants() + lits_values(e));
        }
    }

    /// Parses a parenthesised expression: the group's inner expression,
    /// then the required closing parenthesis.
    fn grouping(&mut self)
        requires
            old(self).inv(),
            old(self).spec_cur() is Some,
        ensures
            Self::step_ok(*old(self), *final(self)),
            final(self).spec_cur() is Some,
            final(self).spec_prev() is Some,
            !final(self).spec_had_error() ==> exists|e: Expr|
                Self::emitted(*old(self), *final(self), e),
            !old(self).spec_had_error() ==> ({
                let r = sp_pp(old(self).spec_src(), old(self).spec_cur_step(), 1);
                if !r.ok {
                    final(self).spec_had_error()
                } else if r.cur.kind == TokenType::RightParen {
                    let cur2 = spec_scan(old(self).spec_src(), r.cur.end, r.cur.line);
                    &&& (final(self).spec_had_error() <==> cur2.kind == TokenType::Error)
                    &&& (!final(self).spec_had_error() ==> Self::emitted(
                        *old(self),
                        *final(self),
                        r.expr,
                    ) && final(self).spec_cur_step() == cur2 && final(self).spec_lines() == old(self).spec_lines() + r.lines && (final(self).spec_prev() matches Some(pt) && pt.line as int == r.cur.line))
                } else {
                    final(self).spec_had_error()
                }
            }),
        decreases old(self).remaining(), 2int,
    {
        self.expression();
        let ghost s1 = *self;
        self.consume(&TokenType::RightParen, "Expect ')' after expression.");
        proof {
            if !self.spec_had_error() {
                let e = choose|e: Expr| Self::emitted(*old(self), s1, e);
                assert(Self::emitted(*old(self), *final(self), e));
            }
        }
    }

    /// Parses the operand of a prefix operator at unary precedence, then
    /// emits the operator's instruction.
    fn unary(&mut self)
        requires
            old(self).inv(),
            old(self).spec_cur() is Some,
            old(self).spec_prev() matches Some(t) && t.t_type == TokenType::Minus,
        ensures
            Self::step_ok(*old(self), *final(self)),
            final(self).spec_cur() is Some,
            final(self).spec_prev() is Some,
            !final(self).spec_had_error() ==> exists|e: Expr|
                Self::emitted(*old(self), *final(self), e),
            !old(self).spec_had_error() ==> ({
                let r = sp_pp(old(self).spec_src(), old(self).spec_cur_step(), 8);
                &&& (final(self).spec_had_error() <==> !r.ok)
                &&& (r.ok ==> Self::emitted(*old(self), *final(self), Expr::Neg(Box::new(r.expr)))
                    && final(self).spec_cur_step() == r.cur && final(self).spec_lines() == old(self).spec_lines() + r.lines.push(r.last as usize) && (final(self).spec_prev() matches Some(pt) && pt.line as int == r.last))
            }),
        decreases old(self).remaining(), 2int,
    {
        let operator_type = {
            let t = self.previous.as_ref().unwrap();
            t.t_type
        };

        let ghost s0 = *self;
        self.parse_precedence(Precedence::Unary);
        let ghost s1 = *self;

        match operator_type {
            TokenType::Minus => self.emit_byte(OpCode::OpNegate),
            _ => {},
        }
        proof {
            if !self.spec_had_error() {
                let e1 = choose|e1: Expr| Self::emitted(s0, s1, e1);
                let e = Expr::Neg(Box::new(e1));
                let base = old(self).spec_constants().len() as int;
                assert(lits_values(e) =~= lits_values(e1));
                assert(self.spec_code() =~= old(self).spec_code() + code_of(e, base));
                assert(Self::emitted(*old(self), *final(self), e));
            }
            if !old(self).spec_had_error() {
                let r = sp_pp(old(self).spec_src(), old(self).spec_cur_step(), 8);
                if r.ok && !s1.spec_had_error() {
                    let en = Expr::Neg(Box::new(r.expr));
                    assert(lits_values(en) =~= lits_values(r.expr));
                    assert(self.spec_code() =~= old(self).spec_code() + code_of(
                        en,
                        old(self).spec_constants().len() as int,
                    ));
                    assert(Self::emitted(*old(self), *final(self), en));
                }
            }
        }
    }

    /// Parses the right operand of a binary operator one level above the
    /// operator's own precedence, which makes equal-precedence operators
    /// left-associative, then emits the operator's instruction.
    fn binary(&mut self)
        requires
            old(self).inv(),
            old(self).spec_cur() is Some,
            old(self).spec_prev() matches Some(t) && is_bin_token(t.t_type),
        ensures
            Self::step_ok(*old(self), *final(self)),
            final(self).spec_cur() is Some,
            final(self).spec_prev() is Some,
            !final(self).spec_had_error() ==> exists|e2: Expr|
                final(self).spec_code() == old(self).spec_code() + code_of(
                    e2,
                    old(self).spec_constants().len() as int,
                ) + seq![bin_instr(old(self).spec_prev()->Some_0.t_type)] && final(self).spec_constants() == old(self).spec_constants() + lits_values(e2),
            !old(self).spec_had_error() ==> ({
                let op = old(self).spec_prev()->Some_0.t_type;
                let r = sp_pp(old(self).spec_src(), old(self).spec_cur_step(), op_rank(op) + 1);
                &&& (final(self).spec_had_error() <==> !r.ok)
                &&& (r.ok ==> final(self).spec_code() == old(self).spec_code() + code_of(
                    r.expr,
                    old(self).spec_constants().len() as int,
                ) + seq![bin_instr(op)] && final(self).spec_constants() == old(self).spec_constants()
                    + lits_values(r.expr) && final(self).spec_cur_step() == r.cur && final(self).spec_lines() == old(self).spec_lines() + r.lines.push(r.last as usize) && (final(self).spec_prev() matches Some(pt) && pt.line as int == r.last))
            }),
        decreases old(self).remaining(), 2int,
    {
        let operator_type = {
            let t = self.previous.as_ref().unwrap();
            t.t_type
        };
        let rule = self.get_rule(&operator_type);
        proof {
            lemma_op_rank(operator_type);
        }
        let ghost s0 = *self;
        self.parse_precedence(rule.precedence.next());
        let ghost s1 = *self;

        match operator_type {
            TokenType::Plus => self.emit_byte(OpCode::OpAdd),
            TokenType::Minus => self.emit_byte(OpCode::OpSubtract),
            TokenType::Star => self.emit_byte(OpCode::OpMultiply),
            TokenType::Slash => self.emit_byte(OpCode::OpDivide),
            _ => {},
        }
        proof {
            if !self.spec_had_error() {
                let e2 = choose|e2: Expr| Self::emitted(s0, s1, e2);
                assert(self.spec_code() =~= old(self).spec_code() + code_of(
                    e2,
                    old(self).spec_constants().len() as int,
                ) + seq![bin_instr(operator_type)]);
            }
            if !old(self).spec_had_error() {
                let r = sp_pp(
                    old(self).spec_src(),
                    old(self).spec_cur_step(),
                    op_rank(operator_type) + 1,
                );
                if r.ok && !s1.spec_had_error() {
                    assert(self.spec_code() =~= old(self).spec_code() + code_of(
                        r.expr,
                        old(self).spec_constants().len() as int,
                    ) + seq![bin_instr(operator_type)]);
                }
            }
        }
    }

    fn dispatch_parse_fn(&mut self, parse_fn: &ParseFn)
        requires
            old(self).inv(),
            old(self).spec_cur() is Some,
            old(self).spec_prev() is Some,
            *parse_fn == ParseFn::Number ==> (old(self).spec_prev() matches Some(t) && t.t_type
                == TokenType::Number),
            *parse_fn == ParseFn::Literal ==> (old(self).spec_prev() matches Some(t) && is_lit_token(
                t.t_type,
            )),
            *parse_fn == ParseFn::Unary ==> (old(self).spec_prev() matches Some(t) && t.t_type
                == TokenType::Minus),
            *parse_fn == ParseFn::Binary ==> (old(self).spec_prev() matches Some(t)
                && is_bin_token(t.t_type)),
        ensures
            Self::step_ok(*old(self), *final(self)),
            final(self).spec_cur() is Some,
            final(self).spec_prev() is Some,
            !final(self).spec_had_error() && *parse_fn != ParseFn::Binary ==> exists|e: Expr|
                Self::emitted(*old(self), *final(self), e),
            !final(self).spec_had_error() && *parse_fn == ParseFn::Binary ==> exists|e2: Expr|
                final(self).spec_code() == old(self).spec_code() + code_of(
                    e2,
                    old(self).spec_constants().len() as int,
                ) + seq![bin_instr(old(self).spec_prev()->Some_0.t_type)] && final(self).spec_constants() == old(self).spec_constants() + lits_values(e2),
            !old(self).spec_had_error() && *parse_fn == ParseFn::Number ==> (!final(self).spec_had_error() && Self::emitted(
                *old(self),
                *final(self),
                Expr::Num(bits_of_number_lexeme(old(self).spec_prev()->Some_0.token@)),
            ) && final(self).spec_cur_step() == old(self).spec_cur_step() && final(self).spec_lines() == old(self).spec_lines().push(old(self).spec_prev()->Some_0.line) && final(self).spec_prev() == old(self).spec_prev()),
            !old(self).spec_had_error() && *parse_fn == ParseFn::Literal ==> (!final(self).spec_had_error() && Self::emitted(
                *old(self),
                *final(self),
                lit_expr(old(self).spec_prev()->Some_0.t_type),
            ) && final(self).spec_cur_step() == old(self).spec_cur_step() && final(self).spec_lines() == old(self).spec_lines().push(old(self).spec_prev()->Some_0.line) && final(self).spec_prev() == old(self).spec_prev()),
            !old(self).spec_had_error() && *parse_fn == ParseFn::Unary ==> ({
                let r = sp_pp(old(self).spec_src(), old(self).spec_cur_step(), 8);
                &&& (final(self).spec_had_error() <==> !r.ok)
                &&& (r.ok ==> Self::emitted(*old(self), *final(self), Expr::Neg(Box::new(r.expr)))
                    && final(self).spec_cur_step() == r.cur && final(self).spec_lines() == old(self).spec_lines() + r.lines.push(r.last as usize) && (final(self).spec_prev() matches Some(pt) && pt.line as int == r.last))
            }),
            !old(self).spec_had_error() && *parse_fn == ParseFn::Grouping ==> ({
                let r = sp_pp(old(self).spec_src(), old(self).spec_cur_step(), 1);
                if !r.ok {
                    final(self).spec_had_error()
                } else if r.cur.kind == TokenType::RightParen {
                    let cur2 = spec_scan(old(self).spec_src(), r.cur.end, r.cur.line);
                    &&& (final(self).spec_had_error() <==> cur2.kind == TokenType::Error)
                    &&& (!final(self).spec_had_error() ==> Self::emitted(
                        *old(self),
                        *final(self),
                        r.expr,
                    ) && final(self).spec_cur_step() == cur2 && final(self).spec_lines() == old(self).spec_lines() + r.lines && (final(self).spec_prev() matches Some(pt) && pt.line as int == r.cur.line))
                } else {
                    final(self).spec_had_error()
                }
            }),
            !old(self).spec_had_error() && *parse_fn == ParseFn::Binary ==> ({
                let op = old(self).spec_prev()->Some_0.t_type;
                let r = sp_pp(old(self).spec_src(), old(self).spec_cur_step(), op_rank(op) + 1);
                &&& (final(self).spec_had_error() <==> !r.ok)
                &&& (r.ok ==> final(self).spec_code() == old(self).spec_code() + code_of(
                    r.expr,
                    old(self).spec_constants().len() as int,
                ) + seq![bin_instr(op)] && final(self).spec_constants() == old(self).spec_constants()
                    + lits_values(r.expr) && final(self).spec_cur_step() == r.cur && final(self).spec_lines() == old(self).spec_lines() + r.lines.push(r.last as usize) && (final(self).spec_prev() matches Some(pt) && pt.line as int == r.last))
            }),
        decreases old(self).remaining(), 3int,
    {
        match parse_fn {
            ParseFn::Unary => self.unary(),
            ParseFn::Grouping => self.grouping(),
            ParseFn::Binary => self.binary(),
            ParseFn::Literal => self.literal(),
            ParseFn::Number => {
                self.number();
                proof {
                    let e = Expr::Num(
                        bits_of_number_lexeme(old(self).spec_prev()->Some_0.token@),
                    );
                    assert(Self::emitted(*old(self), *final(self), e));
                }
            },
        }
    }

    fn get_rule(&self, t_type: &TokenType) -> (r: ParseRule)
        ensures
            r == spec_rule(*t_type),
    {
        match t_type {
            TokenType::LeftParen => ParseRule {
                prefix: Some(ParseFn::Grouping),
                infix: None,
                precedence: Precedence::Lowest,
            },
            TokenType::Minus => ParseRule {
                prefix: Some(ParseFn::Unary),
                infix: Some(ParseFn::Binary),
                precedence: Precedence::Term,
            },
            TokenType::Plus => ParseRule {
                prefix: None,
                infix: Some(ParseFn::Binary),
                precedence: Precedence::Term,
            },
            TokenType::Slash => ParseRule {
                prefix: None,
                infix: Some(ParseFn::Binary),
                precedence: Precedence::Factor,
            },
            TokenType::Star => ParseRule {
                prefix: None,
                infix: Some(ParseFn::Binary),
                precedence: Precedence::Factor,
            },
            TokenType::Number => ParseRule {
                prefix: Some(ParseFn::Number),
                infix: None,
                precedence: Precedence::Lowest,
            },
            TokenType::True => ParseRule {
                prefix: Some(ParseFn::Literal),
                infix: None,
                precedence: Precedence::Lowest,
            },
            TokenType::False => ParseRule {
                prefix: Some(ParseFn::Literal),
                infix: None,
                precedence: Precedence::Lowest,
            },
            TokenType::Nil => ParseRule {
                prefix: Some(ParseFn::Literal),
                infix: None,
                precedence: Precedence::Lowest,
            },
            _ => ParseRule { prefix: None, infix: None, precedence: Precedence::Lowest },
        }
    }

    /// The climb itself: consume one token and run its prefix handler,
    /// then, while the upcoming token binds at least as strongly as
    /// `precedence`, consume it and run its infix handler.  A token with
    /// no prefix handler is a missing expression.
    fn parse_precedence(&mut self, precedence: Precedence)
        requires
            old(self).inv(),
            old(self).spec_cur() is Some,
            prec_rank(precedence) >= 1,
        ensures
            Self::step_ok(*old(self), *final(self)),
            final(self).spec_cur() is Some,
            final(self).spec_prev() is Some,
            !final(self).spec_had_error() ==> exists|e: Expr|
                Self::emitted(*old(self), *final(self), e),
            !old(self).spec_had_error() ==> ({
                let r = sp_pp(
                    old(self).spec_src(),
                    old(self).spec_cur_step(),
                    prec_rank(precedence),
                );
                &&& (final(self).spec_had_error() <==> !r.ok)
                &&& (r.ok ==> Self::emitted(*old(self), *final(self), r.expr) && final(self).spec_cur_step() == r.cur && final(self).spec_lines() == old(self).spec_lines() + r.lines && (final(self).spec_prev() matches Some(pt) && pt.line as int == r.last))
            }),
        decreases old(self).remaining(), 0int,
    {
        let ghost pre = *self;
        let ghost src = pre.spec_src();
        let ghost c0 = pre.spec_cur_step();
        let ghost minr = prec_rank(precedence);
        let ghost target = sp_pp(src, c0, minr);
        let ghost cur1s = spec_scan(src, c0.end, c0.line);
        let ghost mut e_acc: Expr = Expr::Num(0);
        let ghost mut l_acc: Seq<usize> = Seq::empty();
        let ghost mut last_acc: int = 0;
        self.advance();
        proof {
            if !pre.spec_had_error() {
                if !self.spec_had_error() {
                    assert(self.spec_cur_step() == cur1s);
                    assert(adv_ok(src, c0, cur1s));
                }
            }
        }
        let prev_type = {
            let t = self.previous.as_ref().unwrap();
            t.t_type
        };
        let rule = self.get_rule(&prev_type);
        if let Some(prefix_parse_fn) = rule.prefix {
            proof {
                lemma_prefix_is_real(prev_type);
                assert(self.remaining() < pre.remaining());
                assert(prefix_parse_fn != ParseFn::Binary);
            }
            let ghost d0 = *self;
            self.dispatch_parse_fn(&prefix_parse_fn);
            proof {
                if !self.spec_had_error() {
                    let e0 = choose|e0: Expr| Self::emitted(d0, *self, e0);
                    assert(Self::emitted(pre, *self, e0));
                }
                if !pre.spec_had_error() {
                    if d0.spec_had_error() {
                        assert(cur1s.kind == TokenType::Error);
                        assert(!target.ok);
                    } else {
                        assert(d0.spec_cur_step() == cur1s);
                        if prefix_parse_fn == ParseFn::Number {
                            e_acc = Expr::Num(
                                bits_of_number_lexeme(src.subrange(c0.start, c0.end)),
                            );
                            l_acc = seq![c0.line as usize];
                            last_acc = c0.line;
                            assert(Self::emitted(pre, *self, e_acc));
                            assert(self.spec_prev() == pre.spec_cur());
                            assert(self.spec_prev()->Some_0.line as int == c0.line);
                            assert(self.spec_lines() =~= pre.spec_lines() + l_acc);
                            assert(target == sp_loop(
                                src,
                                e_acc,
                                l_acc,
                                last_acc,
                                self.spec_cur_step(),
                                minr,
                            ));
                        } else if prefix_parse_fn == ParseFn::Literal {
                            e_acc = lit_expr(c0.kind);
                            l_acc = seq![c0.line as usize];
                            last_acc = c0.line;
                            assert(Self::emitted(pre, *self, e_acc));
                            assert(self.spec_prev() == pre.spec_cur());
                            assert(self.spec_prev()->Some_0.line as int == c0.line);
                            assert(self.spec_lines() =~= pre.spec_lines() + l_acc);
                            assert(target == sp_loop(
                                src,
                                e_acc,
                                l_acc,
                                last_acc,
                                self.spec_cur_step(),
                                minr,
                            ));
                        } else if prefix_parse_fn == ParseFn::Unary {
                            let r0 = sp_pp(src, cur1s, 8);
                            if r0.ok {
                                assert(!self.spec_had_error());
                                e_acc = Expr::Neg(Box::new(r0.expr));
                                l_acc = r0.lines.push(r0.last as usize);
                                last_acc = r0.last;
                                assert(tmeasure(src, self.spec_cur_step()) == self.remaining());
                                assert(tmeasure(src, cur1s) == d0.remaining());
                                assert(0 <= tmeasure(src, r0.cur) < tmeasure(src, c0));
                                assert(target == sp_loop(
                                    src,
                                    e_acc,
                                    l_acc,
                                    last_acc,
                                    self.spec_cur_step(),
                                    minr,
                                ));
                            } else {
                                assert(self.spec_had_error());
                                assert(!target.ok);
                            }
                        } else {
                            let r0 = sp_pp(src, cur1s, 1);
                            if r0.ok && r0.cur.kind == TokenType::RightParen {
                                let cur2 = spec_scan(src, r0.cur.end, r0.cur.line);
                                if !self.spec_had_error() {
                                    assert(cur2.kind != TokenType::Error);
                                    e_acc = r0.expr;
                                    l_acc = r0.lines;
                                    last_acc = r0.cur.line;
                                    assert(self.spec_cur_step() == cur2);
                                    assert(tmeasure(src, cur2) == self.remaining());
                                    assert(0 <= tmeasure(src, cur2) < tmeasure(src, c0));
                                    assert(target == sp_loop(
                                        src,
                                        e_acc,
                                        l_acc,
                                        last_acc,
                                        cur2,
                                        minr,
                                    ));
                                } else {
                                    assert(cur2.kind == TokenType::Error);
                                    assert(!target.ok);
                                }
                            } else {
                                assert(self.spec_had_error());
                                assert(!target.ok);
                            }
                        }
                    }
                }
            }

            loop
                invariant
                    pre == *old(self),
                    src == pre.spec_src(),
                    c0 == pre.spec_cur_step(),
                    minr == prec_rank(precedence),
                    target == sp_pp(src, c0, minr),
                    prec_rank(precedence) >= 1,
                    self.inv(),
                    self.spec_cur() is Some,
                    self.spec_prev() is Some,
                    self.spec_src() == pre.spec_src(),
                    self.remaining() < pre.remaining(),
                    pre.spec_code().is_prefix_of(self.spec_code()),
                    pre.spec_lines().is_prefix_of(self.spec_lines()),
                    pre.spec_constants().is_prefix_of(self.spec_constants()),
                    pre.spec_diagnostics().is_prefix_of(self.spec_diagnostics()),
                    pre.spec_had_error() ==> self.spec_had_error(),
                    !self.spec_had_error() ==> self.spec_diagnostics() == pre.spec_diagnostics(),
                    pre.spec_had_error() ==> self.spec_diagnostics() == pre.spec_diagnostics(),
                    self.spec_diagnostics().len() <= pre.spec_diagnostics().len() + 1,
                    !self.spec_had_error() ==> exists|e: Expr| Self::emitted(pre, *self, e),
                    !pre.spec_had_error() && !self.spec_had_error() ==> (Self::emitted(
                        pre,
                        *self,
                        e_acc,
                    ) && self.spec_lines() == pre.spec_lines() + l_acc && (self.spec_prev() matches Some(pt) && pt.line as int == last_acc) && target == sp_loop(
                        src,
                        e_acc,
                        l_acc,
                        last_acc,
                        self.spec_cur_step(),
                        minr,
                    )),
                    !pre.spec_had_error() && self.spec_had_error() ==> !target.ok,
                decreases self.remaining(),
            {
                let cur_type = {
                    let t = self.current.as_ref().unwrap();
                    t.t_type
                };
                let cur_rule = self.get_rule(&cur_type);
                proof {
                    lemma_op_rank(cur_type);
                }
                if cur_rule.precedence.rank() < precedence.rank() {
                    proof {
                        if !pre.spec_had_error() && !self.spec_had_error() {
                            assert(target == PResult {
                                ok: true,
                                expr: e_acc,
                                cur: self.spec_cur_step(),
                                lines: l_acc,
                                last: last_acc,
                            });
                        }
                    }
                    return ;
                }
                proof {
                    lemma_prefix_is_real(cur_type);
                }
                let ghost acc0 = *self;
                let ghost st_inf = self.spec_cur_step();
                let ghost cur1i = spec_scan(src, st_inf.end, st_inf.line);
                self.advance();
                let infix_type = {
                    let t = self.previous.as_ref().unwrap();
                    t.t_type
                };
                let infix_rule = self.get_rule(&infix_type);
                if let Some(infix_parse_fn) = infix_rule.infix {
                    proof {
                        assert(infix_parse_fn == ParseFn::Binary);
                        assert(is_bin_token(infix_type));
                        if !pre.spec_had_error() && !acc0.spec_had_error()
                            && !self.spec_had_error() {
                            assert(self.spec_cur_step() == cur1i);
                            assert(adv_ok(src, st_inf, cur1i));
                        }
                    }
                    let ghost s2 = *self;
                    self.dispatch_parse_fn(&infix_parse_fn);
                    proof {
                        if !self.spec_had_error() {
                            let ea = choose|ea: Expr| Self::emitted(pre, acc0, ea);
                            let e2 = choose|e2: Expr|
                                self.spec_code() == s2.spec_code() + code_of(
                                    e2,
                                    s2.spec_constants().len() as int,
                                ) + seq![bin_instr(infix_type)] && self.spec_constants()
                                    == s2.spec_constants() + lits_values(e2);
                            let base0 = pre.spec_constants().len() as int;
                            lemma_bin_node_shape(infix_type, ea, e2, base0);
                            let e = bin_node(infix_type, ea, e2);
                            assert(s2.spec_constants().len() == base0 + lits(ea).len());
                            assert(self.spec_code() =~= pre.spec_code() + code_of(e, base0));
                            assert(self.spec_constants() =~= pre.spec_constants() + lits_values(
                                e,
                            ));
                            assert(Self::emitted(pre, *self, e));
                        }
                        if !pre.spec_had_error() {
                            if acc0.spec_had_error() {
                                assert(self.spec_had_error());
                            } else if s2.spec_had_error() {
                                assert(cur1i.kind == TokenType::Error);
                                assert(sp_loop(src, e_acc, l_acc, last_acc, st_inf, minr)
                                    == p_fail(cur1i));
                                assert(!target.ok);
                            } else {
                                let r2 = sp_pp(src, cur1i, op_rank(infix_type) + 1);
                                let base0 = pre.spec_constants().len() as int;
                                if r2.ok {
                                    assert(!self.spec_had_error());
                                    lemma_bin_node_shape(infix_type, e_acc, r2.expr, base0);
                                    assert(tmeasure(src, self.spec_cur_step())
                                        == self.remaining());
                                    assert(tmeasure(src, cur1i) == s2.remaining());
                                    assert(tmeasure(src, st_inf) == acc0.remaining());
                                    assert(0 <= tmeasure(src, r2.cur) < tmeasure(src, st_inf));
                                    assert(s2.spec_constants().len() == base0 + lits(
                                        e_acc,
                                    ).len());
                                    let enew = bin_node(infix_type, e_acc, r2.expr);
                                    let lnew = l_acc + r2.lines.push(r2.last as usize);
                                    assert(self.spec_code() =~= pre.spec_code() + code_of(
                                        enew,
                                        base0,
                                    ));
                                    assert(self.spec_constants() =~= pre.spec_constants()
                                        + lits_values(enew));
                                    assert(self.spec_lines() =~= pre.spec_lines() + lnew);
                                    assert(sp_loop(src, e_acc, l_acc, last_acc, st_inf, minr)
                                        == sp_loop(src, enew, lnew, r2.last, r2.cur, minr));
                                    e_acc = enew;
                                    l_acc = lnew;
                                    last_acc = r2.last;
                                    assert(Self::emitted(pre, *self, e_acc));
                                    assert(target == sp_loop(
                                        src,
                                        e_acc,
                                        l_acc,
                                        last_acc,
                                        self.spec_cur_step(),
                                        minr,
                                    ));
                                } else {
                                    assert(self.spec_had_error());
                                    assert(sp_loop(src, e_acc, l_acc, last_acc, st_inf, minr)
                                        == p_fail(r2.cur));
                                    assert(!target.ok);
                                }
                            }
                        }
                    }
                }
            }
        } else {
            self.error("Expect expression.");
            proof {
                if !pre.spec_had_error() {
                    assert(!target.ok);
                }
            }
        }
    }

    fn emit_byte(&mut self, op_code: OpCode)
        requires
            old(self).inv(),
            old(self).spec_prev() is Some,
            op_code matches OpCode::OpConstant { index } ==> index < old(self).spec_constants().len(),
        ensures
            Self::step_ok(*old(self), *final(self)),
            final(self).spec_code() == old(self).spec_code().push(op_code),
            final(self).spec_lines() == old(self).spec_lines().push(
                old(self).spec_prev()->Some_0.line,
            ),
            final(self).spec_constants() == old(self).spec_constants(),
            final(self).spec_prev() == old(self).spec_prev(),
            final(self).spec_cur() == old(self).spec_cur(),
            final(self).spec_had_error() == old(self).spec_had_error(),
            final(self).spec_diagnostics() == old(self).spec_diagnostics(),
            final(self).remaining() == old(self).remaining(),
            final(self).spec_cur_step() == old(self).spec_cur_step(),
    {
        let line = {
            let t = self.previous.as_ref().unwrap();
            t.line
        };
        self.chunk.write_chunk(op_code, line);
    }

    /// Registers the value in the pool and emits a load of it.
    fn emit_constant(&mut self, value: Value)
        requires
            old(self).inv(),
            old(self).spec_prev() is Some,
            value is Number,
        ensures
            Self::step_ok(*old(self), *final(self)),
            final(self).spec_code() == old(self).spec_code().push(
                OpCode::OpConstant { index: old(self).spec_constants().len() as usize },
            ),
            final(self).spec_constants() == old(self).spec_constants().push(value),
            final(self).spec_lines() == old(self).spec_lines().push(
                old(self).spec_prev()->Some_0.line,
            ),
            final(self).spec_prev() == old(self).spec_prev(),
            final(self).spec_cur() == old(self).spec_cur(),
            final(self).spec_had_error() == old(self).spec_had_error(),
            final(self).spec_diagnostics() == old(self).spec_diagnostics(),
            final(self).remaining() == old(self).remaining(),
            final(self).spec_cur_step() == old(self).spec_cur_step(),
    {
        let index = self.chunk.add_constant(value);
        self.emit_byte(OpCode::OpConstant { index });
    }

    fn emit_return(&mut self)
        requires
            old(self).inv(),
            old(self).spec_prev() is Some,
        ensures
            Self::step_ok(*old(self), *final(self)),
            final(self).spec_code() == old(self).spec_code().push(OpCode::OpReturn),
            final(self).spec_lines() == old(self).spec_lines().push(
                old(self).spec_prev()->Some_0.line,
            ),
            final(self).spec_constants() == old(self).spec_constants(),
            final(self).spec_prev() == old(self).spec_prev(),
            final(self).spec_cur() == old(self).spec_cur(),
            final(self).spec_had_error() == old(self).spec_had_error(),
            final(self).spec_diagnostics() == old(self).spec_diagnostics(),
            final(self).spec_cur_step() == old(self).spec_cur_step(),
    {
        self.emit_byte(OpCode::OpReturn);
    }

    fn error_at_current(&mut self, message: &str)
        requires
            old(self).inv(),
            old(self).spec_cur() is Some,
        ensures
            Self::step_ok(*old(self), *final(self)),
            final(self).spec_code() == old(self).spec_code(),
            final(self).spec_lines() == old(self).spec_lines(),
            final(self).spec_constants() == old(self).spec_constants(),
            final(self).spec_prev() == old(self).spec_prev(),
            final(self).spec_cur() == old(self).spec_cur(),
            final(self).remaining() == old(self).remaining(),
            final(self).spec_had_error(),
            final(self).spec_cur_step() == old(self).spec_cur_step(),
    {
        let token = take_cloned(&self.current);
        self.error_at(&token, message);
    }

    fn error(&mut self, message: &str)
        requires
            old(self).inv(),
            old(self).spec_prev() is Some,
        ensures
            Self::step_ok(*old(self), *final(self)),
            final(self).spec_code() == old(self).spec_code(),
            final(self).spec_lines() == old(self).spec_lines(),
            final(self).spec_constants() == old(self).spec_constants(),
            final(self).spec_prev() == old(self).spec_prev(),
            final(self).spec_cur() == old(self).spec_cur(),
            final(self).remaining() == old(self).remaining(),
            final(self).spec_had_error(),
            final(self).spec_cur_step() == old(self).spec_cur_step(),
    {
        let token = take_cloned(&self.previous);
        self.error_at(&token, message);
    }

    /// Records one compile error: the line, where it happened, and the
    /// message.  Under the sticky first-error policy a report after the
    /// first changes nothing.
    fn error_at(&mut self, token: &Token, message: &str)
        requires
            old(self).inv(),
        ensures
            Self::step_ok(*old(self), *final(self)),
            final(self).spec_code() == old(self).spec_code(),
            final(self).spec_lines() == old(self).spec_lines(),
            final(self).spec_constants() == old(self).spec_constants(),
            final(self).spec_prev() == old(self).spec_prev(),
            final(self).spec_cur() == old(self).spec_cur(),
            final(self).remaining() == old(self).remaining(),
            final(self).spec_had_error(),
            final(self).spec_cur_step() == old(self).spec_cur_step(),
            old(self).spec_had_error() ==> final(self).spec_diagnostics() == old(self).spec_diagnostics(),
            !old(self).spec_had_error() ==> final(self).spec_diagnostics() == old(self).spec_diagnostics().push(error_line(*token, message@)),
    {
        if self.had_error {
            return ;
        }

        let ghost before = self.spec_diagnostics();
        let mut s = String::from_str("[line ");
        let line_text = usize_text(token.line);
        s.append(line_text.as_str());
        s.append("] Error");

        if token.t_type == TokenType::Eof {
            s.append(" at end");
        } else if token.t_type == TokenType::Error {
            // nothing: the message is the token's own diagnostic
        } else {
            s.append(" at '");
            s.append(token.token.as_str());
            s.append("'");
        }

        s.append(": ");
        s.append(message);
        self.diagnostics.push(s);
        self.had_error = true;
        proof {
            assert(s@ =~= error_line(*token, message@));
            assert(self.spec_diagnostics() =~= before.push(error_line(*token, message@)));
        }
    }
}

/// Whether a lookahead slot still holds a token of real input.
pub open spec fn has_pending(t: Option<Token>) -> bool {
    t matches Some(tok) && tok.t_type != TokenType::Eof
}

/// One compile error's report line, over the token's kind, text and
/// line: the location context names the lexeme, says `at end` for the
/// end of input, and is suppressed for an error token, whose message is
/// its own diagnostic.
pub open spec fn error_line_at(kind: TokenType, lexeme: Seq<char>, line: int, msg: Seq<char>) -> Seq<
    char,
> {
    "[line "@ + dec_str(line as nat) + "] Error"@ + (if kind == TokenType::Eof {
        " at end"@
    } else if kind == TokenType::Error {
        Seq::<char>::empty()
    } else {
        " at '"@ + lexeme + "'"@
    }) + ": "@ + msg
}

/// One compile error's report line for a token.
pub open spec fn error_line(t: Token, msg: Seq<char>) -> Seq<char> {
    error_line_at(t.t_type, t.token@, t.line as int, msg)
}

/// The report recorded when the scanner itself rejects the text at the
/// scan step `st`: the error token's own message, at its line.
pub open spec fn scan_error_report(src: Seq<char>, st: ScanStep) -> Seq<char> {
    error_line_at(TokenType::Error, lexeme_of(src, st), st.line, lexeme_of(src, st))
}

/// Moves a token out of a lookahead slot, leaving it empty.
fn take_token(slot: &mut Option<Token>) -> (r: Option<Token>)
    ensures
        r == *old(slot),
        *final(slot) is None,
{
    let mut taken: Option<Token> = None;
    core::mem::swap(slot, &mut taken);
    taken
}

/// Copies the token out of a lookahead slot that holds one.
fn take_cloned(slot: &Option<Token>) -> (r: Token)
    requires
        slot is Some,
    ensures
        r == slot->Some_0,
{
    slot.as_ref().unwrap().clone()
}

} // verus!
