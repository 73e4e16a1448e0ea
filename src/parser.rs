use vstd::prelude::*;
use crate::chunk::{
    lemma_decodes_append, lemma_decodes_more_constants, lemma_operand_instruction,
    lemma_single_instruction, names_constant, well_encoded, Chunk, MAX_CONSTANTS,
};
use crate::opcode::{byte_of, operand_count, Opcode};
use crate::precedence::{level, Precedence};
use crate::token::{InfixAction, PrefixAction, Token, TokenType, rule_of};
use crate::chunk::pool_view;
use crate::value::{Val, Value};

verus! {

/// What a compile error says.
#[derive(Clone, Debug)]
pub enum CompileMessage {
    ExpectExpression,
    ExpectRightParen,
    ExpectSemicolon,
    TooManyConstants,
    /// A diagnostic that the scanner attached to an error token.
    Scanner(String),
}

/// A compile error and the source line it was found on.
#[derive(Clone, Debug)]
pub struct Diagnostic {
    pub line: usize,
    pub message: CompileMessage,
}

/// The result of compiling: the chunk, which must not be run when any
/// diagnostic was reported.
pub struct Compilation {
    pub chunk: Chunk,
    pub diagnostics: Vec<Diagnostic>,
}

/// Some diagnostic reports a constant pool that grew too large.
pub open spec fn reports_overflow(d: Seq<Diagnostic>) -> bool {
    exists|i: int| 0 <= i < d.len() && (#[trigger] d[i]).message is TooManyConstants
}

/// `b` extends `a`.
pub open spec fn grows<T>(a: Seq<T>, b: Seq<T>) -> bool {
    a.len() <= b.len() && b.subrange(0, a.len() as int) == a
}

/// The instruction bytes emitted for a binary operator token.
pub open spec fn binary_ops(t: TokenType) -> Seq<u8> {
    match t {
        TokenType::Plus => seq![byte_of(Opcode::Add)],
        TokenType::Minus => seq![byte_of(Opcode::Subtract)],
        TokenType::Star => seq![byte_of(Opcode::Multiply)],
        TokenType::Slash => seq![byte_of(Opcode::Divide)],
        TokenType::Percent => seq![byte_of(Opcode::Mod)],
        TokenType::EqualEqual => seq![byte_of(Opcode::Equal)],
        TokenType::BangEqual => seq![byte_of(Opcode::Equal), byte_of(Opcode::Not)],
        TokenType::Greater => seq![byte_of(Opcode::Greater)],
        TokenType::GreaterEqual => seq![byte_of(Opcode::Less), byte_of(Opcode::Not)],
        TokenType::Less => seq![byte_of(Opcode::Less)],
        TokenType::LessEqual => seq![byte_of(Opcode::Greater), byte_of(Opcode::Not)],
        TokenType::Ampersand => seq![byte_of(Opcode::BitwiseAnd)],
        TokenType::Pipe => seq![byte_of(Opcode::BitwiseOr)],
        TokenType::And => seq![byte_of(Opcode::LogicalAnd)],
        TokenType::Or => seq![byte_of(Opcode::LogicalOr)],
        _ => seq![],
    }
}

/// The kinds of a sequence of tokens.
pub open spec fn token_types(s: Seq<Token>) -> Seq<TokenType> {
    s.map_values(|t: Token| t.token_type)
}

/// The kinds of a sequence of tokens kept next-last, in reading order.
pub open spec fn types_rev(p: Seq<Token>) -> Seq<TokenType> {
    Seq::new(p.len(), |i: int| p[p.len() - 1 - i].token_type)
}

/// A token that compiles to a single push of its value.
pub open spec fn is_literal(t: TokenType) -> bool {
    t is Number || t is Str || t is True || t is False || t is Nil
}

/// The code a literal token compiles to when the pool already holds `n` constants.
pub open spec fn literal_code(t: TokenType, n: nat) -> Seq<u8> {
    match t {
        TokenType::Number(_) | TokenType::Str(_) => seq![byte_of(Opcode::Constant), n as u8],
        TokenType::True => seq![byte_of(Opcode::True)],
        TokenType::False => seq![byte_of(Opcode::False)],
        TokenType::Nil => seq![byte_of(Opcode::Nil)],
        _ => seq![],
    }
}

/// The constants a literal token adds to the pool.
pub open spec fn literal_constants(t: TokenType) -> Seq<Val> {
    match t {
        TokenType::Number(b) => seq![Val::Number(b)],
        TokenType::Str(s) => seq![Val::Str(s@)],
        _ => seq![],
    }
}

/// The value a literal token stands for.
pub open spec fn literal_value(t: TokenType) -> Val {
    match t {
        TokenType::Number(b) => Val::Number(b),
        TokenType::Str(s) => Val::Str(s@),
        TokenType::True => Val::Bool(true),
        TokenType::False => Val::Bool(false),
        _ => Val::Nil,
    }
}

/// What a stretch of parsing produced: the tokens left over, the code
/// emitted and the constants added to the pool.
pub struct Parsed {
    pub rest: Seq<TokenType>,
    pub code: Seq<u8>,
    pub consts: Seq<Val>,
}

/// The tokens ahead once the first one has been read. Reading stops for good
/// at an end marker; `None` where the next token is an error token.
pub open spec fn adv(u: Seq<TokenType>) -> Option<Seq<TokenType>> {
    if u.len() >= 2 {
        if u[1] is Error {
            None
        } else if u[1] is Eof {
            Some(seq![TokenType::Eof])
        } else {
            Some(u.drop_first())
        }
    } else {
        Some(seq![TokenType::Eof])
    }
}

/// A constant of the pool at index `n`, pushed by `op`, or `None` past the limit.
pub open spec fn pooled(rest: Seq<TokenType>, op: Opcode, n: nat, v: Val) -> Option<Parsed> {
    if n < MAX_CONSTANTS {
        Some(Parsed { rest, code: seq![byte_of(op), n as u8], consts: seq![v] })
    } else {
        None
    }
}

/// The operand that the prefix token `t` starts, with `r` the tokens after `t`
/// and `n` constants already in the pool.
pub open spec fn prefix_code(t: TokenType, r: Seq<TokenType>, n: nat, fuel: nat) -> Option<Parsed>
    decreases fuel, 2nat,
{
    match t {
        TokenType::Number(b) => pooled(r, Opcode::Constant, n, Val::Number(b)),
        TokenType::Str(s) => pooled(r, Opcode::Constant, n, Val::Str(s@)),
        TokenType::Identifier(s) => pooled(r, Opcode::GetGlobal, n, Val::Str(s@)),
        TokenType::True => Some(Parsed { rest: r, code: seq![byte_of(Opcode::True)], consts: seq![] }),
        TokenType::False => Some(Parsed { rest: r, code: seq![byte_of(Opcode::False)], consts: seq![] }),
        TokenType::Nil => Some(Parsed { rest: r, code: seq![byte_of(Opcode::Nil)], consts: seq![] }),
        TokenType::LeftParen => match expr_code(r, 1, n, fuel) {
            Some(e) => if e.rest.len() > 0 && e.rest[0] is RightParen {
                match adv(e.rest) {
                    Some(r2) => Some(Parsed { rest: r2, code: e.code, consts: e.consts }),
                    None => None,
                }
            } else {
                None
            },
            None => None,
        },
        TokenType::Minus => match expr_code(r, 8, n, fuel) {
            Some(e) => Some(Parsed { rest: e.rest, code: e.code.push(byte_of(Opcode::Negate)), consts: e.consts }),
            None => None,
        },
        TokenType::Bang => match expr_code(r, 8, n, fuel) {
            Some(e) => Some(Parsed { rest: e.rest, code: e.code.push(byte_of(Opcode::Not)), consts: e.consts }),
            None => None,
        },
        _ => None,
    }
}

/// An expression at the head of `u` whose operators bind at level `min` or
/// tighter: its prefix operand, then each infix operator with its right operand
/// parsed one level tighter, followed by the operator's instructions. `None`
/// where the tokens are not such an expression (or `fuel` runs out).
pub open spec fn expr_code(u: Seq<TokenType>, min: nat, n: nat, fuel: nat) -> Option<Parsed>
    decreases fuel, 1nat,
{
    if fuel == 0 || u.len() == 0 {
        None
    } else {
        match adv(u) {
            None => None,
            Some(r) => match prefix_code(u[0], r, n, (fuel - 1) as nat) {
                Some(p) => infix_code(p, min, n, (fuel - 1) as nat),
                None => None,
            },
        }
    }
}

/// Continues the expression `p` (which started with `n` constants in the pool)
/// with the infix operators that bind at level `min` or tighter.
pub open spec fn infix_code(p: Parsed, min: nat, n: nat, fuel: nat) -> Option<Parsed>
    decreases fuel, 0nat,
{
    if p.rest.len() == 0 {
        None
    } else if level(rule_of(p.rest[0]).precedence) < min {
        Some(p)
    } else if fuel == 0 {
        None
    } else {
        let op = p.rest[0];
        match adv(p.rest) {
            None => None,
            Some(r) => match expr_code(
                r,
                level(rule_of(op).precedence) + 1,
                n + p.consts.len(),
                (fuel - 1) as nat,
            ) {
                Some(e) => infix_code(
                    Parsed { rest: e.rest, code: p.code + e.code + binary_ops(op), consts: p.consts + e.consts },
                    min,
                    n,
                    (fuel - 1) as nat,
                ),
                None => None,
            },
        }
    }
}

/// Closes a statement at a `;`, giving it `code` and `consts`.
pub open spec fn closed_by_semicolon(e: Parsed, code: Seq<u8>, consts: Seq<Val>) -> Option<Parsed> {
    if e.rest.len() > 0 && e.rest[0] is Semicolon {
        match adv(e.rest) {
            Some(r) => Some(Parsed { rest: r, code, consts }),
            None => None,
        }
    } else {
        None
    }
}

/// One statement at the head of `u`: `print e;` is `e` then `Print`;
/// `name = e;` is `e` then `DefineGlobal` naming `name`; `e;` is `e` then `Pop`.
pub open spec fn statement_code(u: Seq<TokenType>, n: nat, fuel: nat) -> Option<Parsed> {
    if u.len() == 0 {
        None
    } else if u[0] is Print {
        match adv(u) {
            None => None,
            Some(r) => match expr_code(r, 1, n, fuel) {
                Some(e) => closed_by_semicolon(e, e.code.push(byte_of(Opcode::Print)), e.consts),
                None => None,
            },
        }
    } else if u[0] is Identifier && u.len() >= 2 && u[1] is Equal {
        match adv(u.drop_first()) {
            None => None,
            Some(r) => match expr_code(r, 1, n, fuel) {
                Some(e) => {
                    let k = n + e.consts.len();
                    let name = match u[0] {
                        TokenType::Identifier(s) => s@,
                        _ => Seq::empty(),
                    };
                    if k < MAX_CONSTANTS {
                        closed_by_semicolon(
                            e,
                            e.code + seq![byte_of(Opcode::DefineGlobal), k as u8],
                            e.consts.push(Val::Str(name)),
                        )
                    } else {
                        None
                    }
                },
                None => None,
            },
        }
    } else {
        match expr_code(u, 1, n, fuel) {
            Some(e) => closed_by_semicolon(e, e.code.push(byte_of(Opcode::Pop)), e.consts),
            None => None,
        }
    }
}

/// Statements up to the end marker.
pub open spec fn program_code(u: Seq<TokenType>, n: nat, fuel: nat) -> Option<Parsed>
    decreases fuel,
{
    if u.len() == 0 {
        None
    } else if u[0] is Eof {
        Some(Parsed { rest: u, code: seq![], consts: seq![] })
    } else if fuel == 0 {
        None
    } else {
        match statement_code(u, n, (fuel - 1) as nat) {
            Some(st) => match program_code(st.rest, n + st.consts.len(), (fuel - 1) as nat) {
                Some(q) => Some(Parsed { rest: q.rest, code: st.code + q.code, consts: st.consts + q.consts }),
                None => None,
            },
            None => None,
        }
    }
}

/// The code and constants of a token sequence that forms a well-formed
/// program, `None` for any other. Depth of nesting is bounded by the length.
pub open spec fn compiled(tokens: Seq<TokenType>) -> Option<Parsed> {
    let start = if tokens.len() == 0 || tokens[0] is Eof {
        Some(seq![TokenType::Eof])
    } else if tokens[0] is Error {
        None
    } else {
        Some(tokens)
    };
    match start {
        Some(u) => program_code(u, 0, 2 * tokens.len() + 2),
        None => None,
    }
}

/// The single-pass compiler: reads tokens and emits bytecode as it goes.
pub struct Parser {
    current: Token,
    previous: Token,
    /// Tokens not yet read, the next one last.
    pending: Vec<Token>,
    chunk: Chunk,
    diagnostics: Vec<Diagnostic>,
}

impl Parser {
    /// The parser's invariant.
    pub closed spec fn wf(&self) -> bool {
        &&& self.chunk.wf()
        &&& well_encoded(self.chunk.code@, self.chunk.constants@.len())
        &&& (self.current.token_type is Eof ==> self.pending@.len() == 0)
        &&& (self.chunk.constants@.len() > MAX_CONSTANTS ==> reports_overflow(self.diagnostics@))
    }

    /// How many tokens are left, counting the current one unless it is the end.
    pub closed spec fn remaining(&self) -> nat {
        self.pending@.len() + if self.current.token_type is Eof {
            0nat
        } else {
            1nat
        }
    }

    /// The code emitted so far.
    pub closed spec fn code(&self) -> Seq<u8> {
        self.chunk.code@
    }

    /// The constant pool built so far.
    pub closed spec fn constants(&self) -> Seq<Value> {
        self.chunk.constants@
    }

    /// The token to be read next.
    pub closed spec fn current_type(&self) -> TokenType {
        self.current.token_type
    }

    /// The kinds of the current token and of those not read yet, in order.
    pub closed spec fn upcoming(&self) -> Seq<TokenType> {
        seq![self.current.token_type] + types_rev(self.pending@)
    }

    /// The token read most recently.
    pub closed spec fn previous_type(&self) -> TokenType {
        self.previous.token_type
    }

    /// The diagnostics reported so far.
    pub closed spec fn diagnostics(&self) -> Seq<Diagnostic> {
        self.diagnostics@
    }

    /// What a step of parsing keeps: the invariant holds, no token is given
    /// back, and code, constants and diagnostics only grow.
    pub open spec fn keeps(&self, after: &Parser) -> bool {
        &&& after.wf()
        &&& after.remaining() <= self.remaining()
        &&& grows(self.code(), after.code())
        &&& grows(self.constants(), after.constants())
        &&& grows(self.diagnostics(), after.diagnostics())
    }

    /// Between `self` and `after` exactly `p`'s code and constants were
    /// emitted, nothing was reported, and the tokens ahead are `p`'s rest.
    pub open spec fn emitted(&self, after: &Parser, p: Parsed) -> bool {
        &&& after.code() == self.code() + p.code
        &&& pool_view(after.constants()) == pool_view(self.constants()) + p.consts
        &&& after.diagnostics() == self.diagnostics()
        &&& after.upcoming() == p.rest
    }

    /// A parser at the start of `tokens`.
    pub fn new(tokens: Vec<Token>) -> (r: Parser)
        ensures
            r.wf(),
            r.code().len() == 0,
            r.constants().len() == 0,
            r.diagnostics().len() == 0,
            r.upcoming().len() == tokens@.len() + 1,
            r.upcoming().drop_first() == token_types(tokens@),
    {
        let ghost orig = tokens@;
        let mut input = tokens;
        let mut pending: Vec<Token> = Vec::new();
        proof {
            assert(types_rev(pending@) =~= token_types(orig).subrange(orig.len() as int, orig.len() as int));
            assert(input@ =~= orig.subrange(0, input@.len() as int));
        }
        while input.len() > 0
            invariant
                input@.len() <= orig.len(),
                input@ == orig.subrange(0, input@.len() as int),
                types_rev(pending@) == token_types(orig).subrange(input@.len() as int, orig.len() as int),
            decreases input.len(),
        {
            let ghost k = input@.len();
            match input.pop() {
                Some(t) => {
                    let ghost before = pending@;
                    pending.push(t);
                    proof {
                        assert(t == orig[k - 1]);
                        assert(types_rev(pending@) =~= seq![t.token_type] + types_rev(before));
                        assert(types_rev(pending@) =~= token_types(orig).subrange(k - 1, orig.len() as int));
                        assert(input@ =~= orig.subrange(0, input@.len() as int));
                    }
                },
                None => {},
            }
        }
        Parser {
            current: Token::new(TokenType::Error(String::new()), 0, 0, 0),
            previous: Token::new(TokenType::Error(String::new()), 0, 0, 0),
            pending,
            chunk: Chunk::new(),
            diagnostics: Vec::new(),
        }
    }

    /// Compiles the whole token sequence, then emits `Return`. A well-formed
    /// program compiles to exactly its `compiled` code and constants, with no
    /// diagnostics.
    pub fn compile(self) -> (r: Compilation)
        requires
            self.wf(),
        ensures
            r.chunk.wf(),
            well_encoded(r.chunk.code@, r.chunk.constants@.len()),
            r.chunk.code@.len() > 0,
            r.chunk.code@.last() == byte_of(Opcode::Return),
            r.chunk.constants@.len() > MAX_CONSTANTS ==> reports_overflow(r.diagnostics@),
            self.code().len() == 0 && self.constants().len() == 0 && self.diagnostics().len() == 0
                && self.upcoming().len() >= 1 ==> (compiled(self.upcoming().drop_first()) matches Some(p) ==> {
                &&& r.chunk.code@ == p.code.push(byte_of(Opcode::Return))
                &&& pool_view(r.chunk.constants@) == p.consts
                &&& r.diagnostics@.len() == 0
            }),
    {
        let ghost u = self.upcoming();
        let ghost toks = u.drop_first();
        let ghost target = compiled(toks);
        let ghost ok = self.code().len() == 0 && self.constants().len() == 0 && self.diagnostics().len() == 0
            && u.len() >= 1 && target is Some;
        let mut p = self;
        proof {
            if ok && u.len() >= 2 {
                assert(u[1] == toks[0]);
            }
        }
        p.advance();
        let ghost mut cur = Parsed { rest: p.upcoming(), code: Seq::empty(), consts: Seq::empty() };
        let ghost mut g: nat = (2 * toks.len() + 2) as nat;
        proof {
            if ok {
                assert(pool_view(p.constants()) =~= Seq::<Val>::empty());
                let q = program_code(cur.rest, 0, g)->Some_0;
                assert(cur.code + q.code =~= q.code);
                assert(cur.consts + q.consts =~= q.consts);
            }
        }
        while !matches!(p.current.token_type, TokenType::Eof)
            invariant
                p.wf(),
                ok ==> program_code(cur.rest, cur.consts.len(), g) is Some,
                ok ==> ({
                    let q = program_code(cur.rest, cur.consts.len(), g)->Some_0;
                    target == Some(Parsed { rest: q.rest, code: cur.code + q.code, consts: cur.consts + q.consts })
                }),
                ok ==> p.code() == cur.code && pool_view(p.constants()) == cur.consts && p.diagnostics().len() == 0
                    && p.upcoming() == cur.rest,
            decreases p.remaining(),
        {
            proof {
                if ok {
                    assert(cur.rest[0] == p.current.token_type);
                    assert(pool_view(p.constants()).len() == p.constants().len());
                }
            }
            let ghost before = p;
            p.declaration(Ghost((g - 1) as nat));
            proof {
                if ok {
                    let st = statement_code(cur.rest, cur.consts.len(), (g - 1) as nat)->Some_0;
                    let q = program_code(cur.rest, cur.consts.len(), g)->Some_0;
                    let q2 = program_code(st.rest, cur.consts.len() + st.consts.len(), (g - 1) as nat)->Some_0;
                    let next = Parsed { rest: st.rest, code: cur.code + st.code, consts: cur.consts + st.consts };
                    assert(next.code + q2.code =~= cur.code + q.code);
                    assert(next.consts + q2.consts =~= cur.consts + q.consts);
                    assert(p.code() =~= next.code);
                    cur = next;
                    g = (g - 1) as nat;
                }
            }
        }
        proof {
            if ok {
                assert(cur.rest[0] == p.current.token_type);
                let q = program_code(cur.rest, cur.consts.len(), g)->Some_0;
                assert(cur.code + q.code =~= cur.code);
                assert(cur.consts + q.consts =~= cur.consts);
            }
        }
        p.emit_op(Opcode::Return);
        Compilation { chunk: p.chunk, diagnostics: p.diagnostics }
    }

    /// Records a diagnostic.
    fn report(&mut self, line: usize, message: CompileMessage)
        requires
            old(self).wf(),
        ensures
            old(self).keeps(final(self)),
            final(self).remaining() == old(self).remaining(),
            final(self).current == old(self).current,
            final(self).pending@ == old(self).pending@,
            final(self).previous == old(self).previous,
            final(self).chunk == old(self).chunk,
            final(self).diagnostics@ == old(self).diagnostics@.push(Diagnostic { line, message }),
    {
        self.diagnostics.push(Diagnostic { line, message });
        proof {
            if self.chunk.constants@.len() > MAX_CONSTANTS {
                let i = choose|i: int|
                    0 <= i < old(self).diagnostics@.len()
                        && (#[trigger] old(self).diagnostics@[i]).message is TooManyConstants;
                assert(self.diagnostics@[i] == old(self).diagnostics@[i]);
            }
            assert(self.diagnostics@.subrange(0, old(self).diagnostics@.len() as int)
                =~= old(self).diagnostics@);
            assert(self.chunk.code@.subrange(0, self.chunk.code@.len() as int) =~= self.chunk.code@);
            assert(self.chunk.constants@.subrange(0, self.chunk.constants@.len() as int)
                =~= self.chunk.constants@);
        }
    }

    /// The next token from the input, or an end token when none is left.
    /// Reading an end token drops whatever follows it.
    fn fetch(&mut self) -> (r: Token)
        requires
            old(self).chunk.wf(),
        ensures
            final(self).chunk == old(self).chunk,
            final(self).diagnostics == old(self).diagnostics,
            final(self).current == old(self).current,
            final(self).previous == old(self).previous,
            old(self).pending@.len() == 0 ==> r.token_type is Eof && final(self).pending@.len() == 0,
            old(self).pending@.len() > 0 ==> final(self).pending@.len() < old(self).pending@.len(),
            r.token_type is Eof ==> final(self).pending@.len() == 0,
            old(self).pending@.len() > 0 ==> r == old(self).pending@.last(),
            old(self).pending@.len() > 0 && !(r.token_type is Eof) ==> final(self).pending@
                == old(self).pending@.drop_last(),
    {
        match self.pending.pop() {
            Some(t) => {
                if matches!(t.token_type, TokenType::Eof) {
                    self.pending.clear();
                }
                t
            },
            None => Token::new(TokenType::Eof, self.current.line, self.current.col, 0),
        }
    }

    /// Moves one token on; error tokens met on the way are reported and skipped.
    pub fn advance(&mut self)
        requires
            old(self).wf(),
        ensures
            old(self).keeps(final(self)),
            !(old(self).current_type() is Eof) ==> final(self).remaining() < old(self).remaining(),
            final(self).previous_type() == old(self).current_type(),
            final(self).code() == old(self).code(),
            final(self).constants() == old(self).constants(),
            old(self).upcoming().len() >= 2 && !(old(self).upcoming()[1] is Error) ==> {
                &&& final(self).diagnostics() == old(self).diagnostics()
                &&& !(old(self).upcoming()[1] is Eof) ==> final(self).upcoming() == old(self).upcoming().drop_first()
                &&& old(self).upcoming()[1] is Eof ==> final(self).upcoming() == seq![TokenType::Eof]
            },
            old(self).upcoming().len() == 1 ==> final(self).upcoming() == seq![TokenType::Eof]
                && final(self).diagnostics() == old(self).diagnostics(),
            adv(old(self).upcoming()) matches Some(r) ==> final(self).upcoming() == r
                && final(self).diagnostics() == old(self).diagnostics(),
    {
        self.previous = self.current.duplicate();
        proof {
            lemma_grows_refl(self.code());
            lemma_grows_refl(self.constants());
            lemma_grows_refl(self.diagnostics());
        }
        let mut next = self.fetch();
        let ghost first = next;
        let ghost p1 = self.pending@;
        while matches!(next.token_type, TokenType::Error(_))
            invariant
                !(first.token_type is Error) ==> next == first && self.pending@ == p1
                    && self.diagnostics@ == old(self).diagnostics@,
                self.wf(),
                self.previous.token_type == old(self).current.token_type,
                self.current == old(self).current,
                self.chunk == old(self).chunk,
                grows(old(self).diagnostics(), self.diagnostics()),
                next.token_type is Eof ==> self.pending@.len() == 0,
                old(self).pending@.len() == 0 ==> next.token_type is Eof,
                old(self).pending@.len() > 0 ==> self.pending@.len() < old(self).pending@.len(),
            decreases self.pending@.len() + if next.token_type is Error {
                1nat
            } else {
                0nat
            },
        {
            let line = next.line;
            let msg = match next.token_type {
                TokenType::Error(m) => m,
                _ => String::new(),
            };
            let ghost before = *self;
            self.report(line, CompileMessage::Scanner(msg));
            proof {
                lemma_grows_trans(old(self).diagnostics(), before.diagnostics(), self.diagnostics());
            }
            next = self.fetch();
        }
        self.current = next;
        proof {
            let op = old(self).pending@;
            if op.len() > 0 && !(first.token_type is Error) {
                assert(old(self).upcoming()[1] == op.last().token_type);
                if !(first.token_type is Eof) {
                    assert(self.upcoming() =~= old(self).upcoming().drop_first());
                } else {
                    assert(self.upcoming() =~= seq![TokenType::Eof]);
                }
            }
            if op.len() == 0 {
                assert(self.upcoming() =~= seq![TokenType::Eof]);
            }
        }
    }
}


proof fn lemma_grows_trans<T>(a: Seq<T>, b: Seq<T>, c: Seq<T>)
    requires
        grows(a, b),
        grows(b, c),
    ensures
        grows(a, c),
{
    assert(c.subrange(0, a.len() as int) =~= b.subrange(0, a.len() as int));
}

proof fn lemma_grows_refl<T>(a: Seq<T>)
    ensures
        grows(a, a),
{
    assert(a.subrange(0, a.len() as int) =~= a);
}

proof fn lemma_grows_push<T>(a: Seq<T>, x: T)
    ensures
        grows(a, a.push(x)),
{
    assert(a.push(x).subrange(0, a.len() as int) =~= a);
}

impl Parser {
    /// Appends an instruction without operands, tagged with the line of the
    /// previous token.
    fn emit_op(&mut self, op: Opcode)
        requires
            old(self).wf(),
            operand_count(op) == 0,
        ensures
            old(self).keeps(final(self)),
            final(self).code() == old(self).code().push(byte_of(op)),
            final(self).constants() == old(self).constants(),
            final(self).diagnostics() == old(self).diagnostics(),
            final(self).remaining() == old(self).remaining(),
            final(self).current == old(self).current,
            final(self).pending@ == old(self).pending@,
            final(self).previous == old(self).previous,
    {
        let line = self.previous.line;
        let byte = op.to_u8();
        self.chunk.write(byte, line);
        proof {
            let n = self.chunk.constants@.len();
            lemma_single_instruction(op, n);
            lemma_decodes_append(old(self).chunk.code@, seq![byte], 0, n);
            assert(old(self).chunk.code@ + seq![byte] =~= self.chunk.code@);
            lemma_grows_push(old(self).chunk.code@, byte);
            lemma_grows_refl(self.chunk.constants@);
            lemma_grows_refl(self.diagnostics@);
        }
    }

    /// Appends an instruction with a one-byte operand.
    fn emit_bytes(&mut self, op: Opcode, operand: u8)
        requires
            old(self).wf(),
            operand_count(op) == 1,
            names_constant(op) ==> (operand as int) < old(self).constants().len(),
        ensures
            old(self).keeps(final(self)),
            final(self).code() == old(self).code().push(byte_of(op)).push(operand),
            final(self).constants() == old(self).constants(),
            final(self).diagnostics() == old(self).diagnostics(),
            final(self).remaining() == old(self).remaining(),
            final(self).current == old(self).current,
            final(self).pending@ == old(self).pending@,
            final(self).previous == old(self).previous,
    {
        let line = self.previous.line;
        let byte = op.to_u8();
        self.chunk.write(byte, line);
        self.chunk.write(operand, line);
        proof {
            let n = self.chunk.constants@.len();
            let c0 = old(self).chunk.code@;
            lemma_operand_instruction(op, operand, n);
            lemma_decodes_append(c0, seq![byte, operand], 0, n);
            assert(c0 + seq![byte, operand] =~= self.chunk.code@);
            lemma_grows_push(c0, byte);
            lemma_grows_push(c0.push(byte), operand);
            lemma_grows_trans(c0, c0.push(byte), self.chunk.code@);
            lemma_grows_refl(self.chunk.constants@);
            lemma_grows_refl(self.diagnostics@);
        }
    }

    fn emit_ops(&mut self, op1: Opcode, op2: Opcode)
        requires
            old(self).wf(),
            operand_count(op1) == 0,
            operand_count(op2) == 0,
        ensures
            old(self).keeps(final(self)),
            final(self).code() == old(self).code().push(byte_of(op1)).push(byte_of(op2)),
            final(self).constants() == old(self).constants(),
            final(self).diagnostics() == old(self).diagnostics(),
            final(self).remaining() == old(self).remaining(),
            final(self).current == old(self).current,
            final(self).pending@ == old(self).pending@,
            final(self).previous == old(self).previous,
    {
        self.emit_op(op1);
        let ghost mid = *self;
        self.emit_op(op2);
        proof {
            lemma_grows_trans(old(self).code(), mid.code(), self.code());
        }
    }

    /// Adds a value to the constant pool and returns the operand that names it.
    /// Past the pool's limit the value is still added, an error is reported and
    /// the operand is 0, so that compiling can go on.
    fn make_constant(&mut self, value: Value) -> (r: u8)
        requires
            old(self).wf(),
        ensures
            old(self).keeps(final(self)),
            final(self).constants() == old(self).constants().push(value),
            final(self).code() == old(self).code(),
            final(self).remaining() == old(self).remaining(),
            final(self).current == old(self).current,
            final(self).pending@ == old(self).pending@,
            final(self).previous == old(self).previous,
            old(self).constants().len() < MAX_CONSTANTS ==> r == old(self).constants().len()
                && final(self).diagnostics() == old(self).diagnostics(),
            old(self).constants().len() >= MAX_CONSTANTS ==> r == 0
                && final(self).diagnostics() == old(self).diagnostics().push(
                Diagnostic { line: old(self).previous.line, message: CompileMessage::TooManyConstants },
            ),
            (r as int) < final(self).constants().len(),
    {
        let index = self.chunk.add_constant(value);
        proof {
            lemma_decodes_more_constants(
                self.chunk.code@,
                0,
                old(self).chunk.constants@.len(),
                self.chunk.constants@.len(),
            );
            lemma_grows_push(old(self).chunk.constants@, value);
            lemma_grows_refl(self.chunk.code@);
        }
        if index >= MAX_CONSTANTS {
            let line = self.previous.line;
            proof {
                lemma_grows_push(self.diagnostics@, Diagnostic { line, message: CompileMessage::TooManyConstants });
            }
            self.diagnostics.push(Diagnostic { line, message: CompileMessage::TooManyConstants });
            proof {
                let n = self.diagnostics@.len() - 1;
                assert(self.diagnostics@[n].message is TooManyConstants);
            }
            0
        } else {
            proof {
                lemma_grows_refl(self.diagnostics@);
            }
            index as u8
        }
    }

    /// Emits a `Constant` instruction that pushes `value`.
    fn emit_constant(&mut self, value: Value)
        requires
            old(self).wf(),
        ensures
            old(self).keeps(final(self)),
            final(self).constants() == old(self).constants().push(value),
            final(self).remaining() == old(self).remaining(),
            final(self).current == old(self).current,
            final(self).pending@ == old(self).pending@,
            final(self).previous == old(self).previous,
            old(self).constants().len() < MAX_CONSTANTS ==> final(self).diagnostics() == old(self).diagnostics(),
            old(self).constants().len() < MAX_CONSTANTS ==> final(self).code() == old(self).code().push(
                byte_of(Opcode::Constant),
            ).push(old(self).constants().len() as u8),
            old(self).constants().len() >= MAX_CONSTANTS ==> final(self).code() == old(self).code().push(
                byte_of(Opcode::Constant),
            ).push(0u8),
    {
        let index = self.make_constant(value);
        let ghost mid = *self;
        self.emit_bytes(Opcode::Constant, index);
        proof {
            lemma_grows_trans(old(self).code(), mid.code(), self.code());
            lemma_grows_trans(old(self).constants(), mid.constants(), self.constants());
            lemma_grows_trans(old(self).diagnostics(), mid.diagnostics(), self.diagnostics());
        }
    }

    /// Reports an error at the previous token.
    fn error(&mut self, message: CompileMessage)
        requires
            old(self).wf(),
        ensures
            old(self).keeps(final(self)),
            final(self).remaining() == old(self).remaining(),
            final(self).current == old(self).current,
            final(self).pending@ == old(self).pending@,
            final(self).previous == old(self).previous,
            final(self).code() == old(self).code(),
            final(self).constants() == old(self).constants(),
            final(self).diagnostics() == old(self).diagnostics().push(
                Diagnostic { line: old(self).previous.line, message },
            ),
    {
        let line = self.previous.line;
        self.report(line, message);
        proof { lemma_grows_push(old(self).diagnostics@, Diagnostic { line, message }); }
    }

    /// Reports an error at the current token.
    fn error_at_current(&mut self, message: CompileMessage)
        requires
            old(self).wf(),
        ensures
            old(self).keeps(final(self)),
            final(self).remaining() == old(self).remaining(),
            final(self).current == old(self).current,
            final(self).pending@ == old(self).pending@,
            final(self).previous == old(self).previous,
            final(self).code() == old(self).code(),
            final(self).constants() == old(self).constants(),
            final(self).diagnostics() == old(self).diagnostics().push(
                Diagnostic { line: old(self).current.line, message },
            ),
    {
        let line = self.current.line;
        self.report(line, message);
        proof { lemma_grows_push(old(self).diagnostics@, Diagnostic { line, message }); }
    }
}


impl Parser {
    /// Whether the current token has the kind with dense index `kind`.
    fn current_is(&self, kind: usize) -> (r: bool)
        ensures
            r == (crate::token::kind_index(self.current.token_type) == kind),
    {
        self.current.token_type.duplicate().to_usize() == kind
    }

    /// Moves past the current token, reporting `message` first unless it has
    /// the kind with dense index `kind`.
    fn consume(&mut self, kind: usize, message: CompileMessage)
        requires
            old(self).wf(),
        ensures
            old(self).keeps(final(self)),
            !(old(self).current_type() is Eof) ==> final(self).remaining() < old(self).remaining(),
            final(self).code() == old(self).code(),
            final(self).constants() == old(self).constants(),
            crate::token::kind_index(old(self).current_type()) == kind ==> (adv(old(self).upcoming()) matches Some(r)
                ==> final(self).upcoming() == r && final(self).diagnostics() == old(self).diagnostics()),
            crate::token::kind_index(old(self).current_type()) != kind ==> final(self).diagnostics().len()
                > old(self).diagnostics().len() && final(self).diagnostics()[old(self).diagnostics().len() as int].message
                == message,
    {
        if !self.current_is(kind) {
            self.error_at_current(message);
        } else {
            proof {
                lemma_grows_refl(self.code());
                lemma_grows_refl(self.constants());
                lemma_grows_refl(self.diagnostics());
            }
        }
        let ghost mid = *self;
        self.advance();
        proof {
            lemma_grows_trans(old(self).code(), mid.code(), self.code());
            lemma_grows_trans(old(self).constants(), mid.constants(), self.constants());
            lemma_grows_trans(old(self).diagnostics(), mid.diagnostics(), self.diagnostics());
            let k = old(self).diagnostics().len() as int;
            if mid.diagnostics().len() > k {
                assert(self.diagnostics().subrange(0, mid.diagnostics().len() as int)[k] == self.diagnostics()[k]);
            }
        }
    }

    /// Moves past the current token when it has kind index `kind`.
    fn matches(&mut self, kind: usize) -> (r: bool)
        requires
            old(self).wf(),
        ensures
            old(self).keeps(final(self)),
            r == (crate::token::kind_index(old(self).current_type()) == kind),
            !r ==> *final(self) == *old(self),
            final(self).constants() == old(self).constants(),
            r ==> final(self).previous_type() == old(self).current_type(),
            final(self).code() == old(self).code(),
            r && !(old(self).current_type() is Eof) ==> final(self).remaining() < old(self).remaining(),
            r ==> (adv(old(self).upcoming()) matches Some(u) ==> final(self).upcoming() == u
                && final(self).diagnostics() == old(self).diagnostics()),
    {
        if self.current_is(kind) {
            self.advance();
            true
        } else {
            proof {
                lemma_grows_refl(self.code());
                lemma_grows_refl(self.constants());
                lemma_grows_refl(self.diagnostics());
            }
            false
        }
    }


    /// Compiles one expression.
    fn expression(&mut self, Ghost(fuel): Ghost<nat>)
        requires
            old(self).wf(),
        ensures
            old(self).keeps(final(self)),
            !(old(self).current_type() is Eof) ==> final(self).remaining() < old(self).remaining(),
            expr_code(old(self).upcoming(), 1, old(self).constants().len(), fuel) matches Some(p)
                ==> old(self).emitted(final(self), p),
        decreases old(self).remaining(), 1nat,
    {
        self.parse_precedence(Precedence::Assignment, Ghost(fuel));
    }

    /// Compiles an expression whose operators bind at least as tightly as
    /// `precedence`, starting at the current token.
    fn parse_precedence(&mut self, precedence: Precedence, Ghost(fuel): Ghost<nat>)
        requires
            old(self).wf(),
            level(precedence) >= 1,
        ensures
            old(self).keeps(final(self)),
            !(old(self).current_type() is Eof) ==> final(self).remaining() < old(self).remaining(),
            expr_code(old(self).upcoming(), level(precedence), old(self).constants().len(), fuel) matches Some(p)
                ==> old(self).emitted(final(self), p),
            rule_of(old(self).current_type()).prefix is None ==> final(self).code() == old(self).code()
                && final(self).diagnostics().len() > 0
                && final(self).diagnostics().last().message is ExpectExpression,
            rule_of(old(self).current_type()).prefix is Some ==> level(rule_of(final(self).current_type()).precedence)
                < level(precedence),
        decreases old(self).remaining(), 0nat,
    {
        let ghost u = old(self).upcoming();
        let ghost n = old(self).constants().len();
        let ghost min_l = level(precedence);
        let ghost target = expr_code(u, min_l, n, fuel);
        let ghost ok = target is Some;
        let ghost f1: nat = (fuel - 1) as nat;
        proof {
            assert(u[0] == old(self).current.token_type);
        }
        self.advance();
        let rule = self.previous.token_type.rule();
        let action = match rule.prefix {
            Some(a) => a,
            None => {
                let ghost mid = *self;
                self.error(CompileMessage::ExpectExpression);
                proof {
                    lemma_grows_trans(old(self).code(), mid.code(), self.code());
                    lemma_grows_trans(old(self).constants(), mid.constants(), self.constants());
                    lemma_grows_trans(old(self).diagnostics(), mid.diagnostics(), self.diagnostics());
                }
                return;
            },
        };
        assert(!(old(self).current.token_type is Eof));
        let ghost mid = *self;
        let ghost pre = prefix_code(u[0], mid.upcoming(), n, f1);
        match action {
            PrefixAction::Grouping => self.grouping(Ghost(f1)),
            PrefixAction::Unary => self.unary(Ghost(f1)),
            PrefixAction::Number => self.number(),
            PrefixAction::Str => self.string(),
            PrefixAction::Literal => self.literal(),
            PrefixAction::Variable => self.variable(),
        }
        proof {
            lemma_grows_trans(old(self).code(), mid.code(), self.code());
            lemma_grows_trans(old(self).constants(), mid.constants(), self.constants());
            lemma_grows_trans(old(self).diagnostics(), mid.diagnostics(), self.diagnostics());
            if ok {
                assert(adv(u) == Some(mid.upcoming()));
                assert(pre is Some);
                assert(mid.emitted(self, pre->Some_0));
                assert(self.code() =~= old(self).code() + (pre->Some_0).code);
            }
        }
        let ghost mut cur: Parsed = if ok {
            pre->Some_0
        } else {
            Parsed { rest: Seq::empty(), code: Seq::empty(), consts: Seq::empty() }
        };
        let ghost mut g: nat = f1;
        let min = precedence.level();
        while min <= self.current.token_type.rule().precedence.level()
            invariant
                self.wf(),
                old(self).keeps(self),
                self.remaining() < old(self).remaining(),
                min >= 1,
                min as nat == min_l,
                n == old(self).constants().len(),
                ok ==> target is Some,
                ok ==> infix_code(cur, min_l, n, g) == target,
                ok ==> old(self).emitted(self, cur),
            decreases self.remaining(),
        {
            let ghost before = *self;
            proof {
                if ok {
                    assert(cur.rest[0] == self.current.token_type);
                    assert(level(rule_of(cur.rest[0]).precedence) >= min_l);
                    assert(infix_code(cur, min_l, n, g) is Some);
                    assert(g > 0);
                    assert(adv(cur.rest) is Some);
                }
            }
            let ghost op = self.current.token_type;
            self.advance();
            let infix = self.previous.token_type.rule().infix;
            let ghost mid2 = *self;
            match infix {
                Some(InfixAction::Binary) => {
                    self.binary(Ghost((g - 1) as nat));
                },
                None => {
                    proof {
                        lemma_grows_refl(self.code());
                        lemma_grows_refl(self.constants());
                        lemma_grows_refl(self.diagnostics());
                    }
                },
            }
            proof {
                lemma_grows_trans(before.code(), mid2.code(), self.code());
                lemma_grows_trans(before.constants(), mid2.constants(), self.constants());
                lemma_grows_trans(before.diagnostics(), mid2.diagnostics(), self.diagnostics());
                lemma_grows_trans(old(self).code(), before.code(), self.code());
                lemma_grows_trans(old(self).constants(), before.constants(), self.constants());
                lemma_grows_trans(old(self).diagnostics(), before.diagnostics(), self.diagnostics());
                if ok {
                    let r = adv(cur.rest)->Some_0;
                    assert(mid2.upcoming() == r);
                    assert(pool_view(before.constants()).len() == before.constants().len());
                    assert(pool_view(old(self).constants()).len() == old(self).constants().len());
                    assert(mid2.previous_type() == op);
                    assert(pool_view(before.constants()) == pool_view(old(self).constants()) + cur.consts);
                    assert(before.constants().len() == n + cur.consts.len());
                    assert(mid2.constants() == before.constants());
                    assert(mid2.constants().len() == n + cur.consts.len());
                    assert(rule_of(op).infix is Some);
                    let e = expr_code(
                        r,
                        level(rule_of(op).precedence) + 1,
                        n + cur.consts.len(),
                        (g - 1) as nat,
                    )->Some_0;
                    let next = Parsed {
                        rest: e.rest,
                        code: cur.code + e.code + binary_ops(op),
                        consts: cur.consts + e.consts,
                    };
                    assert(self.code() =~= old(self).code() + next.code);
                    assert(pool_view(self.constants()) =~= pool_view(old(self).constants()) + next.consts);
                    cur = next;
                    g = (g - 1) as nat;
                }
            }
        }
        proof {
            if ok {
                assert(cur.rest[0] == self.current.token_type);
            }
        }
    }

    /// Prefix action for `(`: the inner expression, then the closing `)`.
    /// No instruction stands for the parentheses themselves.
    pub fn grouping(&mut self, Ghost(fuel): Ghost<nat>)
        requires
            old(self).wf(),
        ensures
            old(self).keeps(final(self)),
            expr_code(old(self).upcoming(), 1, old(self).constants().len(), fuel) matches Some(e) ==> {
                &&& e.rest.len() > 0 && e.rest[0] is RightParen ==> (adv(e.rest) matches Some(r)
                    ==> old(self).emitted(final(self), Parsed { rest: r, code: e.code, consts: e.consts }))
                &&& !(e.rest.len() > 0 && e.rest[0] is RightParen) ==> final(self).diagnostics().len()
                    > old(self).diagnostics().len() && final(self).diagnostics()[old(self).diagnostics().len() as int].message
                    is ExpectRightParen
            },
        decreases old(self).remaining(), 2nat,
    {
        self.expression(Ghost(fuel));
        let ghost mid = *self;
        proof {
            assert(mid.upcoming()[0] == mid.current.token_type);
        }
        self.consume(1, CompileMessage::ExpectRightParen);
        proof {
            lemma_grows_trans(old(self).code(), mid.code(), self.code());
            lemma_grows_trans(old(self).constants(), mid.constants(), self.constants());
            lemma_grows_trans(old(self).diagnostics(), mid.diagnostics(), self.diagnostics());
        }
    }

    /// Prefix action for `-` and `!`: the operand at unary level, then
    /// `Negate` or `Not`.
    pub fn unary(&mut self, Ghost(fuel): Ghost<nat>)
        requires
            old(self).wf(),
        ensures
            old(self).keeps(final(self)),
            old(self).previous_type() is Minus ==> (expr_code(old(self).upcoming(), 8, old(self).constants().len(), fuel)
                matches Some(e) ==> old(self).emitted(
                final(self),
                Parsed { rest: e.rest, code: e.code.push(byte_of(Opcode::Negate)), consts: e.consts },
            )),
            old(self).previous_type() is Bang ==> (expr_code(old(self).upcoming(), 8, old(self).constants().len(), fuel)
                matches Some(e) ==> old(self).emitted(
                final(self),
                Parsed { rest: e.rest, code: e.code.push(byte_of(Opcode::Not)), consts: e.consts },
            )),
        decreases old(self).remaining(), 1nat,
    {
        let operator = self.previous.token_type.duplicate();
        self.parse_precedence(Precedence::Unary, Ghost(fuel));
        let ghost mid = *self;
        match operator {
            TokenType::Minus => self.emit_op(Opcode::Negate),
            TokenType::Bang => self.emit_op(Opcode::Not),
            _ => {
                proof {
                    lemma_grows_refl(self.code());
                    lemma_grows_refl(self.constants());
                    lemma_grows_refl(self.diagnostics());
                }
            },
        }
        proof {
            lemma_grows_trans(old(self).code(), mid.code(), self.code());
            lemma_grows_trans(old(self).constants(), mid.constants(), self.constants());
            lemma_grows_trans(old(self).diagnostics(), mid.diagnostics(), self.diagnostics());
            if operator is Minus || operator is Bang {
                assert(self.code() =~= mid.code().push(self.code().last()));
                assert(self.code() =~= old(self).code() + (mid.code().subrange(old(self).code().len() as int, mid.code().len() as int)).push(self.code().last()));
            }
        }
    }

    /// Infix action: the right operand at one level tighter than the
    /// operator, then the operator's instructions. Negated comparisons are
    /// the plain comparison followed by `Not`.
    pub fn binary(&mut self, Ghost(fuel): Ghost<nat>)
        requires
            old(self).wf(),
        ensures
            old(self).keeps(final(self)),
            ({
                let op = old(self).previous_type();
                expr_code(old(self).upcoming(), level(rule_of(op).precedence) + 1, old(self).constants().len(), fuel)
                    matches Some(e) ==> old(self).emitted(
                    final(self),
                    Parsed { rest: e.rest, code: e.code + binary_ops(op), consts: e.consts },
                )
            }),
        decreases old(self).remaining(), 1nat,
    {
        let operator = self.previous.token_type.duplicate();
        let rule = operator.rule();
        let next = rule.precedence.next();
        assert(level(rule_of(operator).precedence) < 9);
        self.parse_precedence(next, Ghost(fuel));
        let ghost mid = *self;
        match operator {
            TokenType::Plus => self.emit_op(Opcode::Add),
            TokenType::Minus => self.emit_op(Opcode::Subtract),
            TokenType::Star => self.emit_op(Opcode::Multiply),
            TokenType::Slash => self.emit_op(Opcode::Divide),
            TokenType::Percent => self.emit_op(Opcode::Mod),
            TokenType::BangEqual => self.emit_ops(Opcode::Equal, Opcode::Not),
            TokenType::EqualEqual => self.emit_op(Opcode::Equal),
            TokenType::Greater => self.emit_op(Opcode::Greater),
            TokenType::GreaterEqual => self.emit_ops(Opcode::Less, Opcode::Not),
            TokenType::Less => self.emit_op(Opcode::Less),
            TokenType::LessEqual => self.emit_ops(Opcode::Greater, Opcode::Not),
            TokenType::Ampersand => self.emit_op(Opcode::BitwiseAnd),
            TokenType::Pipe => self.emit_op(Opcode::BitwiseOr),
            TokenType::And => self.emit_op(Opcode::LogicalAnd),
            TokenType::Or => self.emit_op(Opcode::LogicalOr),
            _ => {
                proof {
                    lemma_grows_refl(self.code());
                    lemma_grows_refl(self.constants());
                    lemma_grows_refl(self.diagnostics());
                }
            },
        }
        proof {
            lemma_grows_trans(old(self).code(), mid.code(), self.code());
            lemma_grows_trans(old(self).constants(), mid.constants(), self.constants());
            lemma_grows_trans(old(self).diagnostics(), mid.diagnostics(), self.diagnostics());
            assert(self.code() =~= mid.code() + binary_ops(operator));
            assert(level(next) == level(rule_of(operator).precedence) + 1);
            if expr_code(old(self).upcoming(), level(rule_of(operator).precedence) + 1, old(self).constants().len(), fuel) is Some {
                let e = expr_code(old(self).upcoming(), level(rule_of(operator).precedence) + 1, old(self).constants().len(), fuel)->Some_0;
                assert(mid.code() == old(self).code() + e.code);
                assert(self.code() =~= old(self).code() + (e.code + binary_ops(operator)));
                assert(self.upcoming() == mid.upcoming());
            }
        }
    }

    /// Prefix action for a number literal: pushes it from the constant pool.
    pub fn number(&mut self)
        requires
            old(self).wf(),
        ensures
            old(self).keeps(final(self)),
            final(self).remaining() == old(self).remaining(),
            old(self).previous_type() matches TokenType::Number(b) ==> (pooled(
                old(self).upcoming(),
                Opcode::Constant,
                old(self).constants().len(),
                Val::Number(b),
            ) matches Some(p) ==> old(self).emitted(final(self), p)),
    {
        match self.previous.token_type {
            TokenType::Number(bits) => {
                self.emit_constant(Value::Number(bits));
                proof {
                    if old(self).constants().len() < MAX_CONSTANTS {
                        assert(self.code() =~= old(self).code() + seq![byte_of(Opcode::Constant), old(self).constants().len() as u8]);
                    }
                    assert(pool_view(self.constants()) =~= pool_view(old(self).constants()) + seq![Val::Number(bits)]);
                }
            },
            _ => {
                proof {
                    lemma_grows_refl(self.code());
                    lemma_grows_refl(self.constants());
                    lemma_grows_refl(self.diagnostics());
                }
            },
        }
    }

    /// Prefix action for a string literal: pushes it from the constant pool.
    pub fn string(&mut self)
        requires
            old(self).wf(),
        ensures
            old(self).keeps(final(self)),
            final(self).remaining() == old(self).remaining(),
            old(self).previous_type() matches TokenType::Str(s) ==> (pooled(
                old(self).upcoming(),
                Opcode::Constant,
                old(self).constants().len(),
                Val::Str(s@),
            ) matches Some(p) ==> old(self).emitted(final(self), p)),
    {
        let text = match &self.previous.token_type {
            TokenType::Str(s) => s.clone(),
            _ => {
                proof {
                    lemma_grows_refl(self.code());
                    lemma_grows_refl(self.constants());
                    lemma_grows_refl(self.diagnostics());
                }
                return;
            },
        };
        let ghost v = Value::Str(text);
        self.emit_constant(Value::Str(text));
        proof {
            if old(self).constants().len() < MAX_CONSTANTS {
                assert(self.code() =~= old(self).code() + seq![byte_of(Opcode::Constant), old(self).constants().len() as u8]);
            }
            assert(pool_view(self.constants()) =~= pool_view(old(self).constants()) + seq![v@]);
        }
    }

    /// Prefix action for `true`, `false` and `nil`: the matching instruction.
    pub fn literal(&mut self)
        requires
            old(self).wf(),
        ensures
            old(self).keeps(final(self)),
            final(self).remaining() == old(self).remaining(),
            old(self).previous_type() is True ==> old(self).emitted(
                final(self),
                Parsed { rest: old(self).upcoming(), code: seq![byte_of(Opcode::True)], consts: seq![] },
            ),
            old(self).previous_type() is False ==> old(self).emitted(
                final(self),
                Parsed { rest: old(self).upcoming(), code: seq![byte_of(Opcode::False)], consts: seq![] },
            ),
            old(self).previous_type() is Nil ==> old(self).emitted(
                final(self),
                Parsed { rest: old(self).upcoming(), code: seq![byte_of(Opcode::Nil)], consts: seq![] },
            ),
    {
        match self.previous.token_type {
            TokenType::False => {
                self.emit_op(Opcode::False);
                assert(self.code() =~= old(self).code() + seq![byte_of(Opcode::False)]);
            },
            TokenType::True => {
                self.emit_op(Opcode::True);
                assert(self.code() =~= old(self).code() + seq![byte_of(Opcode::True)]);
            },
            TokenType::Nil => {
                self.emit_op(Opcode::Nil);
                assert(self.code() =~= old(self).code() + seq![byte_of(Opcode::Nil)]);
            },
            _ => {
                proof {
                    lemma_grows_refl(self.code());
                    lemma_grows_refl(self.constants());
                    lemma_grows_refl(self.diagnostics());
                }
            },
        }
        proof {
            assert(pool_view(self.constants()) =~= pool_view(old(self).constants()) + Seq::<Val>::empty());
        }
    }

    /// Prefix action for an identifier: reads the global of that name.
    pub fn variable(&mut self)
        requires
            old(self).wf(),
        ensures
            old(self).keeps(final(self)),
            final(self).remaining() == old(self).remaining(),
            old(self).previous_type() matches TokenType::Identifier(s) ==> (pooled(
                old(self).upcoming(),
                Opcode::GetGlobal,
                old(self).constants().len(),
                Val::Str(s@),
            ) matches Some(p) ==> old(self).emitted(final(self), p)),
    {
        let name = match &self.previous.token_type {
            TokenType::Identifier(s) => s.clone(),
            _ => {
                proof {
                    lemma_grows_refl(self.code());
                    lemma_grows_refl(self.constants());
                    lemma_grows_refl(self.diagnostics());
                }
                return;
            },
        };
        let ghost v = Value::Str(name);
        let index = self.make_constant(Value::Str(name));
        let ghost mid = *self;
        self.emit_bytes(Opcode::GetGlobal, index);
        proof {
            lemma_grows_trans(old(self).code(), mid.code(), self.code());
            lemma_grows_trans(old(self).constants(), mid.constants(), self.constants());
            lemma_grows_trans(old(self).diagnostics(), mid.diagnostics(), self.diagnostics());
            if old(self).constants().len() < MAX_CONSTANTS {
                assert(self.code() =~= old(self).code() + seq![byte_of(Opcode::GetGlobal), old(self).constants().len() as u8]);
            }
            assert(pool_view(self.constants()) =~= pool_view(old(self).constants()) + seq![v@]);
        }
    }
}


impl Parser {
    /// Whether the token after the current one is `=`.
    fn next_is_equal(&self) -> (r: bool)
        ensures
            r == (self.upcoming().len() >= 2 && self.upcoming()[1] is Equal),
    {
        let n = self.pending.len();
        n > 0 && matches!(self.pending[n - 1].token_type, TokenType::Equal)
    }

    /// Compiles one statement and its closing `;`. A statement that starts
    /// with an identifier followed by `=` defines a global.
    fn declaration(&mut self, Ghost(fuel): Ghost<nat>)
        requires
            old(self).wf(),
        ensures
            old(self).keeps(final(self)),
            !(old(self).current_type() is Eof) ==> final(self).remaining() < old(self).remaining(),
            statement_code(old(self).upcoming(), old(self).constants().len(), fuel) matches Some(st)
                ==> old(self).emitted(final(self), st),
    {
        let ghost u = old(self).upcoming();
        let ghost n = old(self).constants().len();
        proof {
            assert(u[0] == old(self).current.token_type);
        }
        let name = match &self.current.token_type {
            TokenType::Identifier(s) => {
                if self.next_is_equal() {
                    Some(s.clone())
                } else {
                    None
                }
            },
            _ => None,
        };
        let ghost mid = *self;
        let ghost e: Parsed;
        match name {
            Some(nm) => {
                let ghost nv = nm@;
                self.advance();
                let ghost m1 = *self;
                proof {
                    assert(m1.upcoming() == u.drop_first());
                    assert(m1.upcoming()[0] == m1.current.token_type);
                }
                self.matches(13);
                let ghost m2 = *self;
                self.variable_declaration(nm, Ghost(fuel));
                proof {
                    lemma_grows_trans(m1.code(), m2.code(), self.code());
                    lemma_grows_trans(m1.constants(), m2.constants(), self.constants());
                    lemma_grows_trans(m1.diagnostics(), m2.diagnostics(), self.diagnostics());
                    lemma_grows_trans(mid.code(), m1.code(), self.code());
                    lemma_grows_trans(mid.constants(), m1.constants(), self.constants());
                    lemma_grows_trans(mid.diagnostics(), m1.diagnostics(), self.diagnostics());
                    let name_v = match u[0] {
                        TokenType::Identifier(s) => s@,
                        _ => Seq::empty(),
                    };
                    assert(nv == name_v);
                }
            },
            None => self.statement(Ghost(fuel)),
        }
        let ghost after = *self;
        proof {
            assert(after.upcoming()[0] == after.current.token_type);
        }
        self.consume(8, CompileMessage::ExpectSemicolon);
        proof {
            if statement_code(u, n, fuel) is Some {
                let st = statement_code(u, n, fuel)->Some_0;
                assert(old(self).emitted(&after, Parsed { rest: after.upcoming(), code: st.code, consts: st.consts }));
                assert(self.upcoming() == st.rest);
            }
            lemma_grows_trans(old(self).code(), after.code(), self.code());
            lemma_grows_trans(old(self).constants(), after.constants(), self.constants());
            lemma_grows_trans(old(self).diagnostics(), after.diagnostics(), self.diagnostics());
        }
    }

    /// Compiles a `print` statement or an expression statement.
    fn statement(&mut self, Ghost(fuel): Ghost<nat>)
        requires
            old(self).wf(),
        ensures
            old(self).keeps(final(self)),
            !(old(self).current_type() is Eof) ==> final(self).remaining() < old(self).remaining(),
            old(self).current_type() is Print ==> (adv(old(self).upcoming()) matches Some(r) ==> (expr_code(
                r,
                1,
                old(self).constants().len(),
                fuel,
            ) matches Some(e) ==> old(self).emitted(
                final(self),
                Parsed { rest: e.rest, code: e.code.push(byte_of(Opcode::Print)), consts: e.consts },
            ))),
            !(old(self).current_type() is Print) ==> (expr_code(old(self).upcoming(), 1, old(self).constants().len(), fuel)
                matches Some(e) ==> old(self).emitted(
                final(self),
                Parsed { rest: e.rest, code: e.code.push(byte_of(Opcode::Pop)), consts: e.consts },
            )),
    {
        if matches!(self.current.token_type, TokenType::Print) {
            self.advance();
            let ghost mid = *self;
            self.print_statement(Ghost(fuel));
            proof {
                lemma_grows_trans(old(self).code(), mid.code(), self.code());
                lemma_grows_trans(old(self).constants(), mid.constants(), self.constants());
                lemma_grows_trans(old(self).diagnostics(), mid.diagnostics(), self.diagnostics());
            }
        } else {
            self.expression_statement(Ghost(fuel));
        }
    }

    /// An expression whose value is printed.
    fn print_statement(&mut self, Ghost(fuel): Ghost<nat>)
        requires
            old(self).wf(),
        ensures
            old(self).keeps(final(self)),
            !(old(self).current_type() is Eof) ==> final(self).remaining() < old(self).remaining(),
            expr_code(old(self).upcoming(), 1, old(self).constants().len(), fuel) matches Some(e)
                ==> old(self).emitted(
                final(self),
                Parsed { rest: e.rest, code: e.code.push(byte_of(Opcode::Print)), consts: e.consts },
            ),
    {
        self.expression(Ghost(fuel));
        let ghost mid = *self;
        self.emit_op(Opcode::Print);
        proof {
            lemma_grows_trans(old(self).code(), mid.code(), self.code());
            lemma_grows_trans(old(self).constants(), mid.constants(), self.constants());
            lemma_grows_trans(old(self).diagnostics(), mid.diagnostics(), self.diagnostics());
            if expr_code(old(self).upcoming(), 1, old(self).constants().len(), fuel) is Some {
                let e = expr_code(old(self).upcoming(), 1, old(self).constants().len(), fuel)->Some_0;
                assert(self.code() =~= old(self).code() + e.code.push(byte_of(Opcode::Print)));
            }
        }
    }

    /// An expression whose value is discarded, so that no statement leaves
    /// anything on the stack.
    fn expression_statement(&mut self, Ghost(fuel): Ghost<nat>)
        requires
            old(self).wf(),
        ensures
            old(self).keeps(final(self)),
            !(old(self).current_type() is Eof) ==> final(self).remaining() < old(self).remaining(),
            expr_code(old(self).upcoming(), 1, old(self).constants().len(), fuel) matches Some(e)
                ==> old(self).emitted(
                final(self),
                Parsed { rest: e.rest, code: e.code.push(byte_of(Opcode::Pop)), consts: e.consts },
            ),
    {
        self.expression(Ghost(fuel));
        let ghost mid = *self;
        self.emit_op(Opcode::Pop);
        proof {
            lemma_grows_trans(old(self).code(), mid.code(), self.code());
            lemma_grows_trans(old(self).constants(), mid.constants(), self.constants());
            lemma_grows_trans(old(self).diagnostics(), mid.diagnostics(), self.diagnostics());
            if expr_code(old(self).upcoming(), 1, old(self).constants().len(), fuel) is Some {
                let e = expr_code(old(self).upcoming(), 1, old(self).constants().len(), fuel)->Some_0;
                assert(self.code() =~= old(self).code() + e.code.push(byte_of(Opcode::Pop)));
            }
        }
    }

    /// The initial value, then `DefineGlobal` naming `name`.
    fn variable_declaration(&mut self, name: String, Ghost(fuel): Ghost<nat>)
        requires
            old(self).wf(),
        ensures
            old(self).keeps(final(self)),
            !(old(self).current_type() is Eof) ==> final(self).remaining() < old(self).remaining(),
            expr_code(old(self).upcoming(), 1, old(self).constants().len(), fuel) matches Some(e) ==> (
            old(self).constants().len() + e.consts.len() < MAX_CONSTANTS ==> old(self).emitted(
                final(self),
                Parsed {
                    rest: e.rest,
                    code: e.code + seq![
                        byte_of(Opcode::DefineGlobal),
                        (old(self).constants().len() + e.consts.len()) as u8,
                    ],
                    consts: e.consts.push(Val::Str(name@)),
                },
            )),
    {
        let ghost nv = name@;
        self.expression(Ghost(fuel));
        let ghost m1 = *self;
        let global = self.make_constant(Value::Str(name));
        let ghost m2 = *self;
        self.define_global(global);
        proof {
            lemma_grows_trans(m1.code(), m2.code(), self.code());
            lemma_grows_trans(m1.constants(), m2.constants(), self.constants());
            lemma_grows_trans(m1.diagnostics(), m2.diagnostics(), self.diagnostics());
            lemma_grows_trans(old(self).code(), m1.code(), self.code());
            lemma_grows_trans(old(self).constants(), m1.constants(), self.constants());
            lemma_grows_trans(old(self).diagnostics(), m1.diagnostics(), self.diagnostics());
            if expr_code(old(self).upcoming(), 1, old(self).constants().len(), fuel) is Some {
                let e = expr_code(old(self).upcoming(), 1, old(self).constants().len(), fuel)->Some_0;
                assert(pool_view(m1.constants()).len() == m1.constants().len());
                assert(pool_view(old(self).constants()).len() == old(self).constants().len());
                assert(m1.constants().len() == old(self).constants().len() + e.consts.len());
                assert(pool_view(m2.constants()) =~= pool_view(m1.constants()).push(Val::Str(nv)));
                let k = (old(self).constants().len() + e.consts.len()) as u8;
                if old(self).constants().len() + e.consts.len() < MAX_CONSTANTS {
                    assert(global == k);
                    assert(self.code() =~= old(self).code() + (e.code + seq![byte_of(Opcode::DefineGlobal), k]));
                }
                assert(pool_view(self.constants()) =~= pool_view(old(self).constants()) + e.consts.push(Val::Str(nv)));
            }
        }
    }

    fn define_global(&mut self, global: u8)
        requires
            old(self).wf(),
            (global as int) < old(self).constants().len(),
        ensures
            old(self).keeps(final(self)),
            final(self).remaining() == old(self).remaining(),
            final(self).code() == old(self).code().push(byte_of(Opcode::DefineGlobal)).push(global),
            final(self).constants() == old(self).constants(),
            final(self).diagnostics() == old(self).diagnostics(),
            final(self).upcoming() == old(self).upcoming(),
    {
        self.emit_bytes(Opcode::DefineGlobal, global);
    }
}

} // verus!
