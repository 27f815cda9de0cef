//! The parser: tokens to statements.
use vstd::prelude::*;
use crate::parser_spec::{
    is_at, is_other_at, level_has, level_rank, p_args,
    p_assignment, p_block, p_block_loop, p_call, p_call_loop, p_declaration, p_declaration_body, p_expression,
    p_expression_statement, p_finish_call, p_for, p_for_clauses, p_for_init, p_function,
    p_identifier, p_if, p_level, p_level_loop, p_operand, p_paren, p_params, p_primary, p_print,
    p_program, p_return, p_semicolon, p_statement, p_synchronize, p_unary, p_var_declaration,
    p_while, spec_parse, line_at, Level, NoteV, PE, PS,
};
use crate::scanner::{tokens_view, ScannedToken, ScannedTokenV};
use crate::syntax_trees::{
    lemma_exprs_view_push, lemma_stmts_view_push, exprs_view, names_view, stmts_view,
    BinaryOperator, Expression, Function, LiteralValue, LogicalOperator, Statement, StmtV,
    UnaryOperator,
};
use crate::text::SmartString;
use crate::token::{Identifier, Token, TokenDiscriminant};

verus! {

/// Whether a function declaration is a plain function or a method.
#[derive(Clone, Copy, Debug, PartialEq, Eq, Structural)]
pub enum FunctionKind {
    Function,
    Method,
}

impl FunctionKind {
    /// The word that the kind is displayed with.
    pub fn word(&self) -> (r: &'static str)
        ensures
            r@ == (match *self {
                FunctionKind::Function => "function"@,
                FunctionKind::Method => "method"@,
            }),
    {
        match self {
            FunctionKind::Function => "function",
            FunctionKind::Method => "method",
        }
    }
}

/// What can go wrong while parsing.
#[derive(Clone, Copy, Debug, PartialEq, Eq, Structural)]
pub enum ParsingError {
    UntermParen,
    NoExpr,
    NoSemi,
    NoVarName,
    Invalid,
    NoIdentifier,
    InvalidAssignment,
    UntermBrace,
    IfParenOpen,
    IfParenClosed,
    WhileParenOpen,
    WhileParenClosed,
    ForParenOpen,
    ForParenClosed,
    ConditionNoSemi,
    FnNoCloseParen,
    TooManyArgs,
    ExpectedFn(FunctionKind),
    FnParenOpen(FunctionKind),
    FnParenClosed(FunctionKind),
    FnNoBraceOpen(FunctionKind),
    FnNoBraceClosed(FunctionKind),
}

/// The word that a kind of function is displayed with.
pub open spec fn kind_word(k: FunctionKind) -> Seq<char> {
    match k {
        FunctionKind::Function => "function"@,
        FunctionKind::Method => "method"@,
    }
}

/// The text that a parsing error is displayed with.
pub open spec fn parsing_message(e: ParsingError) -> Seq<char> {
    match e {
        ParsingError::UntermParen => "Expected ')' after expression."@,
        ParsingError::NoExpr => "Expected Expression."@,
        ParsingError::NoSemi => "Expect ';' after expression."@,
        ParsingError::NoVarName => "Expected Variable Name."@,
        ParsingError::Invalid => "Invalid."@,
        ParsingError::NoIdentifier => "Expected Identifier."@,
        ParsingError::InvalidAssignment => "Invalid Assignment Target."@,
        ParsingError::UntermBrace => "Expected '}' after Block."@,
        ParsingError::IfParenOpen => "Expected '(' after 'if'."@,
        ParsingError::IfParenClosed => "Expected ')' after if condition."@,
        ParsingError::WhileParenOpen => "Expected '(' after 'while'."@,
        ParsingError::WhileParenClosed => "Expected ')' after while condition."@,
        ParsingError::ForParenOpen => "Expected '(' after 'while'."@,
        ParsingError::ForParenClosed => "Expected ')' after while condition."@,
        ParsingError::ConditionNoSemi => "Expected ';' after loop condition."@,
        ParsingError::FnNoCloseParen => "Expected ')' after Arguments"@,
        ParsingError::TooManyArgs => "Can't have more than 255 Arguments"@,
        ParsingError::ExpectedFn(k) => "expected "@ + kind_word(k) + " name"@,
        ParsingError::FnParenOpen(k) => "Expected '(' after "@ + kind_word(k) + " name"@,
        ParsingError::FnParenClosed(k) => "Expected ')' after "@ + kind_word(k) + " arguments"@,
        ParsingError::FnNoBraceOpen(k) => "Expected '{' before "@ + kind_word(k) + " body"@,
        ParsingError::FnNoBraceClosed(k) => "Expected '}' after "@ + kind_word(k) + " body"@,
    }
}

impl ParsingError {
    /// Appends the text that the error is displayed with.
    pub fn write_message(&self, out: &mut String)
        ensures
            final(out)@ == old(out)@ + parsing_message(*self),
    {
        match self {
            ParsingError::UntermParen => out.append("Expected ')' after expression."),
            ParsingError::NoExpr => out.append("Expected Expression."),
            ParsingError::NoSemi => out.append("Expect ';' after expression."),
            ParsingError::NoVarName => out.append("Expected Variable Name."),
            ParsingError::Invalid => out.append("Invalid."),
            ParsingError::NoIdentifier => out.append("Expected Identifier."),
            ParsingError::InvalidAssignment => out.append("Invalid Assignment Target."),
            ParsingError::UntermBrace => out.append("Expected '}' after Block."),
            ParsingError::IfParenOpen => out.append("Expected '(' after 'if'."),
            ParsingError::IfParenClosed => out.append("Expected ')' after if condition."),
            ParsingError::WhileParenOpen => out.append("Expected '(' after 'while'."),
            ParsingError::WhileParenClosed => out.append("Expected ')' after while condition."),
            ParsingError::ForParenOpen => out.append("Expected '(' after 'while'."),
            ParsingError::ForParenClosed => out.append("Expected ')' after while condition."),
            ParsingError::ConditionNoSemi => out.append("Expected ';' after loop condition."),
            ParsingError::FnNoCloseParen => out.append("Expected ')' after Arguments"),
            ParsingError::TooManyArgs => out.append("Can't have more than 255 Arguments"),
            ParsingError::ExpectedFn(k) => {
                out.append("expected ");
                out.append(k.word());
                out.append(" name");
            },
            ParsingError::FnParenOpen(k) => {
                out.append("Expected '(' after ");
                out.append(k.word());
                out.append(" name");
            },
            ParsingError::FnParenClosed(k) => {
                out.append("Expected ')' after ");
                out.append(k.word());
                out.append(" arguments");
            },
            ParsingError::FnNoBraceOpen(k) => {
                out.append("Expected '{' before ");
                out.append(k.word());
                out.append(" body");
            },
            ParsingError::FnNoBraceClosed(k) => {
                out.append("Expected '}' after ");
                out.append(k.word());
                out.append(" body");
            },
        }
        proof {
            assert(final(out)@ =~= old(out)@ + parsing_message(*self));
        }
    }
}

/// What the parser notes as it goes: an error it reports, with the line of
/// the token it stands at (none at the end of the tokens); a function
/// declared with more than 255 parameters; the condition of an `if`.
#[derive(Debug)]
pub enum ParseNote {
    Error(ParsingError, Option<u32>),
    TooManyParams,
    IfCondition(Expression),
}

/// A line, if there is one, as a natural number.
pub open spec fn opt_line(l: Option<u32>) -> Option<nat> {
    match l {
        Some(x) => Some(x as nat),
        None => None,
    }
}

impl View for ParseNote {
    type V = NoteV;

    open spec fn view(&self) -> NoteV {
        match self {
            ParseNote::Error(e, l) => NoteV::Error(*e, opt_line(*l)),
            ParseNote::TooManyParams => NoteV::TooManyParams,
            ParseNote::IfCondition(c) => NoteV::IfCondition(c@),
        }
    }
}

/// What a sequence of notes is.
pub open spec fn notes_view(s: Seq<ParseNote>) -> Seq<NoteV> {
    s.map_values(|n: ParseNote| n@)
}

/// An exec expression result, at a position and with notes, as the spec
/// states results.
pub open spec fn pe_of(r: Result<Expression, ParsingError>, pos: int, n: Seq<NoteV>) -> PE {
    match r {
        Ok(e) => Ok((e@, pos, n)),
        Err(x) => Err((x, pos, n)),
    }
}

/// An exec statement result, at a position and with notes, as the spec
/// states results.
pub open spec fn ps_of(r: Result<Statement, ParsingError>, pos: int, n: Seq<NoteV>) -> PS {
    match r {
        Ok(s) => Ok((s@, pos, n)),
        Err(x) => Err((x, pos, n)),
    }
}

/// Whether a note reports too many call arguments at the end of the tokens.
spec fn unlined_args(n: ParseNote) -> bool {
    n matches ParseNote::Error(ParsingError::TooManyArgs, None)
}

/// Whether some note reports too many call arguments at the end of the
/// tokens.
fn has_unlined_args_note(notes: &Vec<ParseNote>) -> (r: bool)
    ensures
        r == notes_view(notes@).contains(NoteV::Error(ParsingError::TooManyArgs, None)),
{
    let ghost target = NoteV::Error(ParsingError::TooManyArgs, None);
    let mut i: usize = 0;
    while i < notes.len()
        invariant
            i <= notes@.len(),
            target == NoteV::Error(ParsingError::TooManyArgs, None),
            forall|k: int| 0 <= k < i ==> !unlined_args(#[trigger] notes@[k]),
        decreases notes@.len() - i,
    {
        let n = &notes[i];
        let hit = match n {
            ParseNote::Error(e, line) => {
                match e {
                    ParsingError::TooManyArgs => line.is_none(),
                    _ => false,
                }
            },
            _ => false,
        };
        assert(hit == unlined_args(notes@[i as int]));
        if hit {
            proof {
                assert(notes_view(notes@)[i as int] == notes@[i as int]@);
            }
            return true;
        }
        i = i + 1;
    }
    proof {
        assert forall|k: int| 0 <= k < notes_view(notes@).len() implies notes_view(notes@)[k] != target by {
            assert(!unlined_args(notes@[k]));
        }
    }
    false
}

/// A recursive-descent parser over a sequence of scanned tokens, with the
/// notes it has made.
pub struct Parser {
    tokens: Vec<ScannedToken>,
    pos: usize,
    notes: Vec<ParseNote>,
}

impl Parser {
    /// The tokens that the parser reads.
    pub closed spec fn tokens_v(&self) -> Seq<ScannedTokenV> {
        tokens_view(self.tokens@)
    }

    /// The position of the next token to read.
    pub closed spec fn position(&self) -> int {
        self.pos as int
    }

    /// The notes that the parser has made.
    pub closed spec fn notes_v(&self) -> Seq<NoteV> {
        notes_view(self.notes@)
    }

    spec fn ts(&self) -> Seq<ScannedTokenV> {
        tokens_view(self.tokens@)
    }

    spec fn nv(&self) -> Seq<NoteV> {
        notes_view(self.notes@)
    }

    spec fn wf(&self) -> bool {
        self.pos <= self.tokens@.len()
    }

    /// How a step of the parser may change it: the tokens stay, and the
    /// position only moves forward, and does move when a token was left.
    spec fn steps(&self, old: &Self) -> bool {
        &&& self.tokens@ == old.tokens@
        &&& old.pos <= self.pos <= self.tokens@.len()
    }

    spec fn takes(&self, old: &Self) -> bool {
        old.pos < old.tokens@.len() ==> old.pos < self.pos
    }

    /// A parser at the start of the given tokens.
    pub fn new(tokens: Vec<ScannedToken>) -> (p: Self)
        ensures
            p.tokens_v() == tokens_view(tokens@),
            p.position() == 0,
            p.notes_v() == Seq::<NoteV>::empty(),
    {
        let p = Self { tokens, pos: 0, notes: Vec::new() };
        assert(p.notes_v() =~= Seq::<NoteV>::empty());
        p
    }

    /// The notes that the parser has made.
    pub fn into_notes(self) -> (r: Vec<ParseNote>)
        ensures
            notes_view(r@) == self.notes_v(),
    {
        self.notes
    }

    /// Makes a note.
    fn note(&mut self, n: ParseNote)
        ensures
            final(self).tokens@ == old(self).tokens@,
            final(self).pos == old(self).pos,
            final(self).nv() == old(self).nv().push(n@),
    {
        let ghost before = self.notes@;
        self.notes.push(n);
        proof {
            assert(notes_view(self.notes@) =~= notes_view(before).push(n@));
        }
    }

    /// The line of the next token, if there is one.
    fn peek_line(&self) -> (r: Option<u32>)
        requires
            self.wf(),
        ensures
            opt_line(r) == line_at(self.ts(), self.pos as int),
    {
        if self.pos < self.tokens.len() {
            Some(self.tokens[self.pos].line)
        } else {
            None
        }
    }

    fn check(&self, k: TokenDiscriminant) -> (r: bool)
        requires
            self.wf(),
        ensures
            r == is_at(self.ts(), self.pos as int, k),
    {
        self.pos < self.tokens.len() && k.matches(&self.tokens[self.pos].type_)
    }

    fn check_other(&self, k: TokenDiscriminant) -> (r: bool)
        requires
            self.wf(),
        ensures
            r == is_other_at(self.ts(), self.pos as int, k),
    {
        self.pos < self.tokens.len() && !k.matches(&self.tokens[self.pos].type_)
    }

    fn advance(&mut self) -> (t: ScannedToken)
        requires
            old(self).pos < old(self).tokens@.len(),
        ensures
            final(self).tokens@ == old(self).tokens@,
            final(self).notes@ == old(self).notes@,
            final(self).pos == old(self).pos + 1,
            t@ == old(self).ts()[old(self).pos as int],
    {
        let t = self.tokens[self.pos].copy();
        let n = self.tokens.len();
        self.pos = self.pos + 1;
        t
    }

    fn skip(&mut self)
        requires
            old(self).pos < old(self).tokens@.len(),
        ensures
            final(self).tokens@ == old(self).tokens@,
            final(self).notes@ == old(self).notes@,
            final(self).pos == old(self).pos + 1,
    {
        let n = self.tokens.len();
        self.pos = self.pos + 1;
    }

    /// The next token, taken if it is of kind `k`.
    fn next_if(&mut self, k: TokenDiscriminant) -> (r: Option<ScannedToken>)
        requires
            old(self).wf(),
        ensures
            final(self).tokens@ == old(self).tokens@,
            final(self).notes@ == old(self).notes@,
            is_at(old(self).ts(), old(self).pos as int, k) ==> (r matches Some(t) && t@
                == old(self).ts()[old(self).pos as int] && final(self).pos == old(self).pos + 1),
            !is_at(old(self).ts(), old(self).pos as int, k) ==> (r is None && final(self).pos == old(self).pos),
    {
        if self.check(k) {
            Some(self.advance())
        } else {
            None
        }
    }

    /// The text of the identifier token at the position, taken, if the next
    /// token is one.
    fn next_identifier(&mut self) -> (r: Option<SmartString>)
        requires
            old(self).wf(),
        ensures
            final(self).tokens@ == old(self).tokens@,
            final(self).notes@ == old(self).notes@,
            is_at(old(self).ts(), old(self).pos as int, TokenDiscriminant::IDENTIFIER) ==> (r matches Some(
                s,
            ) && s@ == old(self).ts()[old(self).pos as int].token.text && final(self).pos == old(self).pos
                + 1),
            !is_at(old(self).ts(), old(self).pos as int, TokenDiscriminant::IDENTIFIER) ==> (
            r is None && final(self).pos == old(self).pos),
    {
        if self.pos < self.tokens.len() {
            match &self.tokens[self.pos].type_ {
                Token::IDENTIFIER(s) => {
                    let c = s.copy();
                    self.pos = self.pos + 1;
                    Some(c)
                },
                _ => None,
            }
        } else {
            None
        }
    }

    // -----------------------------------------------------------------------
    // Expressions.

    fn expression(&mut self) -> (r: Result<Expression, ParsingError>)
        requires
            old(self).wf(),
        ensures
            final(self).steps(old(self)),
            final(self).takes(old(self)),
            pe_of(r, final(self).pos as int, final(self).nv()) == p_expression(old(self).ts(), old(self).pos as int, old(self).nv()),
        decreases old(self).tokens@.len() - old(self).pos, 40int,
    {
        self.assignment()
    }

    fn assignment(&mut self) -> (r: Result<Expression, ParsingError>)
        requires
            old(self).wf(),
        ensures
            final(self).steps(old(self)),
            final(self).takes(old(self)),
            pe_of(r, final(self).pos as int, final(self).nv()) == p_assignment(old(self).ts(), old(self).pos as int, old(self).nv()),
        decreases old(self).tokens@.len() - old(self).pos, 39int,
    {
        let expression = match self.level(Level::Or) {
            Ok(e) => e,
            Err(x) => return Err(x),
        };
        if self.check(TokenDiscriminant::EQUAL) {
            let equals_line = self.tokens[self.pos].line;
            self.skip();
            let value = match self.assignment() {
                Ok(v) => v,
                Err(x) => return Err(x),
            };
            match expression {
                Expression::Variable { name, .. } => Ok(
                    Expression::Assign { name, value: Box::new(value) },
                ),
                _ => {
                    self.note(ParseNote::Error(ParsingError::InvalidAssignment, Some(equals_line)));
                    Err(ParsingError::InvalidAssignment)
                },
            }
        } else {
            Ok(expression)
        }
    }

    fn operand(&mut self, l: Level) -> (r: Result<Expression, ParsingError>)
        requires
            old(self).wf(),
        ensures
            final(self).steps(old(self)),
            final(self).takes(old(self)),
            pe_of(r, final(self).pos as int, final(self).nv()) == p_operand(old(self).ts(), l, old(self).pos as int, old(self).nv()),
        decreases old(self).tokens@.len() - old(self).pos, level_rank(l) - 2,
    {
        match l {
            Level::Factor => self.unary(),
            Level::Or => self.level(Level::And),
            Level::And => self.level(Level::Equality),
            Level::Equality => self.level(Level::Comparison),
            Level::Comparison => self.level(Level::Term),
            Level::Term => self.level(Level::Factor),
        }
    }

    /// One precedence level: an operand, then operators of the level each
    /// with its right operand.
    fn level(&mut self, l: Level) -> (r: Result<Expression, ParsingError>)
        requires
            old(self).wf(),
        ensures
            final(self).steps(old(self)),
            final(self).takes(old(self)),
            pe_of(r, final(self).pos as int, final(self).nv()) == p_level(old(self).ts(), l, old(self).pos as int, old(self).nv()),
        decreases old(self).tokens@.len() - old(self).pos, level_rank(l),
    {
        match self.operand(l) {
            Ok(e) => self.level_loop(l, e),
            Err(x) => Err(x),
        }
    }

    fn has_operator(&self, l: Level) -> (r: bool)
        requires
            self.wf(),
        ensures
            r == (0 <= self.pos < self.ts().len() && level_has(l, self.ts()[self.pos as int].token.kind)),
    {
        if self.pos >= self.tokens.len() {
            return false;
        }
        let k = self.tokens[self.pos].type_.discriminant();
        match l {
            Level::Or => k == TokenDiscriminant::AND,
            Level::And => k == TokenDiscriminant::OR,
            Level::Equality => k == TokenDiscriminant::BANGEQUAL || k == TokenDiscriminant::EQUALEQUAL,
            Level::Comparison => k == TokenDiscriminant::GREATER || k
                == TokenDiscriminant::GREATEREQUAL || k == TokenDiscriminant::LESS || k
                == TokenDiscriminant::LESSEQUAL,
            Level::Term => k == TokenDiscriminant::MINUS || k == TokenDiscriminant::PLUS,
            Level::Factor => k == TokenDiscriminant::SLASH || k == TokenDiscriminant::STAR,
        }
    }

    fn level_loop(&mut self, l: Level, left: Expression) -> (r: Result<Expression, ParsingError>)
        requires
            old(self).wf(),
        ensures
            final(self).steps(old(self)),
            pe_of(r, final(self).pos as int, final(self).nv()) == p_level_loop(
                old(self).ts(),
                l,
                left@,
                old(self).pos as int,
                old(self).nv(),
            ),
        decreases old(self).tokens@.len() - old(self).pos, level_rank(l) - 1,
    {
        if self.has_operator(l) {
            let token = self.advance();
            let right = match self.operand(l) {
                Ok(e) => e,
                Err(x) => return Err(x),
            };
            let e = match l {
                Level::Or | Level::And => match LogicalOperator::try_from(token.type_) {
                    Ok(operator) => Expression::Logical {
                        left: Box::new(left),
                        operator,
                        right: Box::new(right),
                    },
                    Err(_) => left,
                },
                _ => match BinaryOperator::from_token(token) {
                    Some(operator) => Expression::Binary {
                        left: Box::new(left),
                        operator,
                        right: Box::new(right),
                    },
                    None => left,
                },
            };
            self.level_loop(l, e)
        } else {
            Ok(left)
        }
    }

    fn unary(&mut self) -> (r: Result<Expression, ParsingError>)
        requires
            old(self).wf(),
        ensures
            final(self).steps(old(self)),
            final(self).takes(old(self)),
            pe_of(r, final(self).pos as int, final(self).nv()) == p_unary(old(self).ts(), old(self).pos as int, old(self).nv()),
        decreases old(self).tokens@.len() - old(self).pos, 12int,
    {
        if self.check(TokenDiscriminant::BANG) || self.check(TokenDiscriminant::MINUS) {
            let operator = if self.check(TokenDiscriminant::BANG) {
                UnaryOperator::BANG
            } else {
                UnaryOperator::MINUS
            };
            self.skip();
            match self.unary() {
                Ok(right) => Ok(Expression::Unary { operator, inner: Box::new(right) }),
                Err(x) => Err(x),
            }
        } else {
            self.call()
        }
    }

    fn call(&mut self) -> (r: Result<Expression, ParsingError>)
        requires
            old(self).wf(),
        ensures
            final(self).steps(old(self)),
            final(self).takes(old(self)),
            pe_of(r, final(self).pos as int, final(self).nv()) == p_call(old(self).ts(), old(self).pos as int, old(self).nv()),
        decreases old(self).tokens@.len() - old(self).pos, 11int,
    {
        let expr = self.primary();
        self.call_loop(expr)
    }

    fn call_loop(&mut self, expr: Result<Expression, ParsingError>) -> (r: Result<
        Expression,
        ParsingError,
    >)
        requires
            old(self).wf(),
        ensures
            final(self).steps(old(self)),
            pe_of(r, final(self).pos as int, final(self).nv()) == p_call_loop(
                old(self).ts(),
                pe_of(expr, old(self).pos as int, old(self).nv()),
            ),
        decreases old(self).tokens@.len() - old(self).pos, 10int,
    {
        if self.check(TokenDiscriminant::LEFTPAREN) {
            self.skip();
            match expr {
                Err(x) => Err(x),
                Ok(e) => {
                    let next = self.finish_call(e);
                    self.call_loop(next)
                },
            }
        } else {
            expr
        }
    }

    fn finish_call(&mut self, callee: Expression) -> (r: Result<Expression, ParsingError>)
        requires
            old(self).wf(),
        ensures
            final(self).steps(old(self)),
            pe_of(r, final(self).pos as int, final(self).nv()) == p_finish_call(
                old(self).ts(),
                callee@,
                old(self).pos as int,
                old(self).nv(),
            ),
        decreases old(self).tokens@.len() - old(self).pos, 44int,
    {
        let mut args: Vec<Expression> = Vec::new();
        proof {
            assert(exprs_view(args@) =~= Seq::empty());
        }
        if self.check_other(TokenDiscriminant::RIGHTPAREN) {
            args = match self.arguments(args) {
                Ok(a) => a,
                Err(x) => return Err(x),
            };
        }
        match self.next_if(TokenDiscriminant::RIGHTPAREN) {
            Some(paren) => Ok(Expression::Call { callee: Box::new(callee), paren, args }),
            None => Err(ParsingError::FnNoCloseParen),
        }
    }

    fn arguments(&mut self, acc: Vec<Expression>) -> (r: Result<Vec<Expression>, ParsingError>)
        requires
            old(self).wf(),
        ensures
            final(self).steps(old(self)),
            p_args(old(self).ts(), exprs_view(acc@), old(self).pos as int, old(self).nv()) == match r {
                Ok(a) => Ok((exprs_view(a@), final(self).pos as int, final(self).nv())),
                Err(x) => Err((x, final(self).pos as int, final(self).nv())),
            },
        decreases old(self).tokens@.len() - old(self).pos, 43int,
    {
        proof {
            crate::syntax_trees::lemma_exprs_view_len(acc@);
        }
        if acc.len() >= 255 {
            let line = self.peek_line();
            self.note(ParseNote::Error(ParsingError::TooManyArgs, line));
        }
        let a = match self.expression() {
            Ok(a) => a,
            Err(x) => return Err(x),
        };
        let mut acc = acc;
        let ghost before = acc@;
        acc.push(a);
        proof {
            lemma_exprs_view_push(before, a);
        }
        if self.check(TokenDiscriminant::COMMA) {
            self.skip();
            self.arguments(acc)
        } else {
            Ok(acc)
        }
    }

    fn primary(&mut self) -> (r: Result<Expression, ParsingError>)
        requires
            old(self).wf(),
        ensures
            final(self).steps(old(self)),
            final(self).takes(old(self)),
            pe_of(r, final(self).pos as int, final(self).nv()) == p_primary(old(self).ts(), old(self).pos as int, old(self).nv()),
        decreases old(self).tokens@.len() - old(self).pos, 9int,
    {
        if self.pos >= self.tokens.len() {
            self.note(ParseNote::Error(ParsingError::NoExpr, None));
            return Err(ParsingError::NoExpr);
        }
        let token = self.advance();
        let line = token.line;
        match token.type_ {
            Token::FALSE => Ok(Expression::Literal(LiteralValue::Bool(false))),
            Token::TRUE => Ok(Expression::Literal(LiteralValue::Bool(true))),
            Token::NIL => Ok(Expression::Literal(LiteralValue::Nil)),
            Token::NUMBER(lexeme) => Ok(Expression::Literal(LiteralValue::Float(lexeme))),
            Token::STRING(string) => Ok(Expression::Literal(LiteralValue::String(string))),
            Token::LEFTPAREN => self.handle_paren(),
            Token::IDENTIFIER(name) => Ok(Expression::Variable { name, line }),
            _ => {
                self.note(ParseNote::Error(ParsingError::NoExpr, Some(line)));
                Err(ParsingError::NoExpr)
            },
        }
    }

    fn handle_paren(&mut self) -> (r: Result<Expression, ParsingError>)
        requires
            old(self).wf(),
        ensures
            final(self).steps(old(self)),
            pe_of(r, final(self).pos as int, final(self).nv()) == p_paren(old(self).ts(), old(self).pos as int, old(self).nv()),
        decreases old(self).tokens@.len() - old(self).pos, 41int,
    {
        let expr = match self.expression() {
            Ok(e) => e,
            Err(x) => return Err(x),
        };
        if self.check(TokenDiscriminant::RIGHTPAREN) {
            self.skip();
            Ok(Expression::Grouping(Box::new(expr)))
        } else {
            let line = self.peek_line();
            self.note(ParseNote::Error(ParsingError::UntermParen, line));
            Err(ParsingError::UntermParen)
        }
    }
}


/// The block of two statements.
fn block_of_two(first: Statement, second: Statement) -> (r: Statement)
    ensures
        r@ == StmtV::Block(seq![first@, second@]),
{
    let mut v: Vec<Statement> = Vec::new();
    proof {
        assert(stmts_view(v@) =~= Seq::empty());
    }
    let ghost v0 = v@;
    v.push(first);
    proof {
        lemma_stmts_view_push(v0, first);
    }
    let ghost v1 = v@;
    v.push(second);
    proof {
        lemma_stmts_view_push(v1, second);
        assert(stmts_view(v@) =~= seq![first@, second@]);
    }
    Statement::Block(v)
}

impl Parser {
    /// Parses every declaration of the tokens: the statements, or the last
    /// error met where some declaration fails (every declaration is still
    /// parsed, a failed one skipping ahead to the next that can start). The
    /// tokens may not end right after the comma that follows a 255th call
    /// argument: there is no token to report the next one at.
    pub fn parse(&mut self) -> (r: Result<Vec<Statement>, ParsingError>)
        requires
            old(self).position() == 0,
            old(self).notes_v() == Seq::<NoteV>::empty(),
            !spec_parse(old(self).tokens_v()).1.contains(
                NoteV::Error(ParsingError::TooManyArgs, None),
            ),
        ensures
            final(self).tokens_v() == old(self).tokens_v(),
            final(self).notes_v() == spec_parse(old(self).tokens_v()).1,
            match r {
                Ok(s) => spec_parse(old(self).tokens_v()).0 == Ok::<Seq<StmtV>, ParsingError>(
                    stmts_view(s@),
                ),
                Err(e) => spec_parse(old(self).tokens_v()).0 == Err::<Seq<StmtV>, ParsingError>(e),
            },
    {
        self.parse_all()
    }

    /// Parses as `parse` does, also where the tokens end right after the
    /// comma that follows a 255th call argument (the note for the next
    /// argument then has no line).
    fn parse_all(&mut self) -> (r: Result<Vec<Statement>, ParsingError>)
        requires
            old(self).position() == 0,
            old(self).notes_v() == Seq::<NoteV>::empty(),
        ensures
            final(self).tokens_v() == old(self).tokens_v(),
            final(self).notes_v() == spec_parse(old(self).tokens_v()).1,
            match r {
                Ok(s) => spec_parse(old(self).tokens_v()).0 == Ok::<Seq<StmtV>, ParsingError>(
                    stmts_view(s@),
                ),
                Err(e) => spec_parse(old(self).tokens_v()).0 == Err::<Seq<StmtV>, ParsingError>(e),
            },
    {
        let mut statements: Vec<Statement> = Vec::new();
        let mut last_error: Option<ParsingError> = None;
        proof {
            assert(stmts_view(statements@) =~= Seq::empty());
        }
        while self.pos < self.tokens.len()
            invariant
                self.wf(),
                self.tokens@ == old(self).tokens@,
                p_program(self.ts(), stmts_view(statements@), last_error, self.pos as int, self.nv())
                    == spec_parse(old(self).tokens_v()),
            decreases self.tokens@.len() - self.pos,
        {
            match self.declaration() {
                Ok(statement) => {
                    let ghost before = statements@;
                    statements.push(statement);
                    proof {
                        lemma_stmts_view_push(before, statement);
                    }
                },
                Err(e) => {
                    last_error = Some(e);
                },
            }
        }
        match last_error {
            Some(e) => Err(e),
            None => Ok(statements),
        }
    }

    /// Whether the tokens end right after the comma that follows a 255th
    /// call argument, so that `parse` cannot report the next argument at a
    /// line: parses them to find out.
    pub fn ends_inside_arguments(tokens: Vec<ScannedToken>) -> (r: bool)
        ensures
            r == spec_parse(tokens_view(tokens@)).1.contains(
                NoteV::Error(ParsingError::TooManyArgs, None),
            ),
    {
        let mut parser = Parser::new(tokens);
        let _ = parser.parse_all();
        let notes = parser.into_notes();
        has_unlined_args_note(&notes)
    }

    fn declaration(&mut self) -> (r: Result<Statement, ParsingError>)
        requires
            old(self).wf(),
        ensures
            final(self).steps(old(self)),
            final(self).takes(old(self)),
            ps_of(r, final(self).pos as int, final(self).nv()) == p_declaration(old(self).ts(), old(self).pos as int, old(self).nv()),
        decreases old(self).tokens@.len() - old(self).pos, 60int,
    {
        let result = self.declaration_body();
        if result.is_err() {
            self.synchronize();
        }
        result
    }

    /// A declaration before recovery: `varDecl | funDecl | statement`.
    fn declaration_body(&mut self) -> (r: Result<Statement, ParsingError>)
        requires
            old(self).wf(),
        ensures
            final(self).steps(old(self)),
            final(self).takes(old(self)),
            ps_of(r, final(self).pos as int, final(self).nv()) == p_declaration_body(old(self).ts(), old(self).pos as int, old(self).nv()),
        decreases old(self).tokens@.len() - old(self).pos, 59int,
    {
        if self.check(TokenDiscriminant::VAR) {
            self.skip();
            self.var_declaration()
        } else if self.check(TokenDiscriminant::FUN) {
            self.skip();
            self.function(FunctionKind::Function)
        } else {
            self.statement()
        }
    }

    /// Skips to just past the next `;`, or to the next token that starts a
    /// declaration.
    fn synchronize(&mut self)
        requires
            old(self).wf(),
        ensures
            final(self).tokens@ == old(self).tokens@,
            final(self).notes@ == old(self).notes@,
            final(self).wf(),
            old(self).pos <= final(self).pos,
            final(self).pos as int == p_synchronize(old(self).ts(), old(self).pos as int),
    {
        while self.pos < self.tokens.len()
            invariant
                self.wf(),
                self.tokens@ == old(self).tokens@,
                self.notes@ == old(self).notes@,
                old(self).pos <= self.pos,
                p_synchronize(self.ts(), self.pos as int) == p_synchronize(
                    old(self).ts(),
                    old(self).pos as int,
                ),
            decreases self.tokens@.len() - self.pos,
        {
            let k = self.tokens[self.pos].type_.discriminant();
            if k == TokenDiscriminant::SEMICOLON {
                self.skip();
                return;
            } else if k == TokenDiscriminant::CLASS || k == TokenDiscriminant::FUN || k
                == TokenDiscriminant::VAR || k == TokenDiscriminant::FOR || k == TokenDiscriminant::IF
                || k == TokenDiscriminant::WHILE || k == TokenDiscriminant::PRINT || k
                == TokenDiscriminant::RETURN {
                return;
            }
            self.skip();
        }
    }

    fn semicolon(&mut self, s: Statement) -> (r: Result<Statement, ParsingError>)
        requires
            old(self).wf(),
        ensures
            final(self).steps(old(self)),
            ps_of(r, final(self).pos as int, final(self).nv()) == p_semicolon(
                old(self).ts(),
                s@,
                old(self).pos as int,
                old(self).nv(),
            ),
    {
        if self.check(TokenDiscriminant::SEMICOLON) {
            self.skip();
            Ok(s)
        } else {
            let line = self.peek_line();
            self.note(ParseNote::Error(ParsingError::NoSemi, line));
            Err(ParsingError::NoSemi)
        }
    }

    fn var_declaration(&mut self) -> (r: Result<Statement, ParsingError>)
        requires
            old(self).wf(),
        ensures
            final(self).steps(old(self)),
            ps_of(r, final(self).pos as int, final(self).nv()) == p_var_declaration(old(self).ts(), old(self).pos as int, old(self).nv()),
    {
        let name = match self.next_identifier() {
            Some(name) => name,
            None => {
                let line = self.peek_line();
                self.note(ParseNote::Error(ParsingError::NoIdentifier, line));
                return Err(ParsingError::NoIdentifier);
            },
        };
        let initializer = if self.check(TokenDiscriminant::EQUAL) {
            self.skip();
            match self.expression() {
                Ok(e) => Some(e),
                Err(x) => return Err(x),
            }
        } else {
            None
        };
        self.semicolon(Statement::Var { name, initializer })
    }

    fn get_identifier(&mut self) -> (r: Result<Identifier, ParsingError>)
        requires
            old(self).wf(),
        ensures
            final(self).steps(old(self)),
            final(self).takes(old(self)),
            p_identifier(old(self).ts(), old(self).pos as int, old(self).nv()) == match r {
                Ok(i) => Ok((i@, final(self).pos as int, final(self).nv())),
                Err(x) => Err((x, final(self).pos as int, final(self).nv())),
            },
    {
        if self.pos >= self.tokens.len() {
            return Err(ParsingError::NoIdentifier);
        }
        let next = self.advance();
        match Identifier::try_from(next.type_) {
            Ok(i) => Ok(i),
            Err(_) => Err(ParsingError::NoIdentifier),
        }
    }

    fn parameters(&mut self, acc: Vec<Identifier>) -> (r: Result<Vec<Identifier>, ParsingError>)
        requires
            old(self).wf(),
        ensures
            final(self).steps(old(self)),
            p_params(old(self).ts(), names_view(acc@), old(self).pos as int, old(self).nv()) == match r {
                Ok(a) => Ok((names_view(a@), final(self).pos as int, final(self).nv())),
                Err(x) => Err((x, final(self).pos as int, final(self).nv())),
            },
        decreases old(self).tokens@.len() - old(self).pos,
    {
        if acc.len() >= 255 {
            self.note(ParseNote::TooManyParams);
        }
        let name = match self.get_identifier() {
            Ok(n) => n,
            Err(x) => return Err(x),
        };
        let mut acc = acc;
        let ghost before = acc@;
        acc.push(name);
        proof {
            assert(names_view(acc@) =~= names_view(before).push(name@));
        }
        if self.check(TokenDiscriminant::COMMA) {
            self.skip();
            self.parameters(acc)
        } else {
            Ok(acc)
        }
    }

    #[verifier::rlimit(60)]
    fn function(&mut self, kind: FunctionKind) -> (r: Result<Statement, ParsingError>)
        requires
            old(self).wf(),
        ensures
            final(self).steps(old(self)),
            ps_of(r, final(self).pos as int, final(self).nv()) == p_function(old(self).ts(), old(self).pos as int, kind, old(self).nv()),
        decreases old(self).tokens@.len() - old(self).pos, 50int,
    {
        let name = match self.get_identifier() {
            Ok(n) => n,
            Err(x) => return Err(x),
        };
        if !self.check(TokenDiscriminant::LEFTPAREN) {
            return Err(ParsingError::FnParenOpen(kind));
        }
        self.skip();
        let mut params: Vec<Identifier> = Vec::new();
        proof {
            assert(names_view(params@) =~= Seq::empty());
        }
        if self.check_other(TokenDiscriminant::RIGHTPAREN) {
            params = match self.parameters(params) {
                Ok(p) => p,
                Err(x) => return Err(x),
            };
        }
        if !self.check(TokenDiscriminant::RIGHTPAREN) {
            return Err(ParsingError::FnParenClosed(kind));
        }
        self.skip();
        if !self.check(TokenDiscriminant::LEFTBRACE) {
            return Err(ParsingError::FnNoBraceOpen(kind));
        }
        self.skip();
        let body = match self.block() {
            Ok(b) => b,
            Err(x) => return Err(x),
        };
        Ok(Statement::Function(Function { name, params, body }))
    }

    fn block(&mut self) -> (r: Result<Vec<Statement>, ParsingError>)
        requires
            old(self).wf(),
        ensures
            final(self).steps(old(self)),
            p_block(old(self).ts(), old(self).pos as int, old(self).nv()) == match r {
                Ok(b) => Ok((stmts_view(b@), final(self).pos as int, final(self).nv())),
                Err(x) => Err((x, final(self).pos as int, final(self).nv())),
            },
        decreases old(self).tokens@.len() - old(self).pos, 62int,
    {
        let statements: Vec<Statement> = Vec::new();
        proof {
            assert(stmts_view(statements@) =~= Seq::empty());
        }
        self.block_loop(statements)
    }

    fn block_loop(&mut self, acc: Vec<Statement>) -> (r: Result<Vec<Statement>, ParsingError>)
        requires
            old(self).wf(),
        ensures
            final(self).steps(old(self)),
            p_block_loop(old(self).ts(), stmts_view(acc@), old(self).pos as int, old(self).nv())
                == match r {
                Ok(b) => Ok((stmts_view(b@), final(self).pos as int, final(self).nv())),
                Err(x) => Err((x, final(self).pos as int, final(self).nv())),
            },
        decreases old(self).tokens@.len() - old(self).pos, 61int,
    {
        if self.check_other(TokenDiscriminant::RIGHTBRACE) {
            let s = match self.declaration() {
                Ok(s) => s,
                Err(x) => return Err(x),
            };
            let mut acc = acc;
            let ghost before = acc@;
            acc.push(s);
            proof {
                lemma_stmts_view_push(before, s);
            }
            self.block_loop(acc)
        } else if self.check(TokenDiscriminant::RIGHTBRACE) {
            self.skip();
            Ok(acc)
        } else {
            self.note(ParseNote::Error(ParsingError::UntermBrace, None));
            Err(ParsingError::UntermBrace)
        }
    }

    fn statement(&mut self) -> (r: Result<Statement, ParsingError>)
        requires
            old(self).wf(),
        ensures
            final(self).steps(old(self)),
            final(self).takes(old(self)),
            ps_of(r, final(self).pos as int, final(self).nv()) == p_statement(old(self).ts(), old(self).pos as int, old(self).nv()),
        decreases old(self).tokens@.len() - old(self).pos, 58int,
    {
        if self.check(TokenDiscriminant::PRINT) {
            self.skip();
            self.print_statement()
        } else if self.check(TokenDiscriminant::FOR) {
            self.skip();
            self.for_statement()
        } else if self.check(TokenDiscriminant::WHILE) {
            self.skip();
            self.while_statement()
        } else if self.check(TokenDiscriminant::LEFTBRACE) {
            self.skip();
            match self.block() {
                Ok(b) => Ok(Statement::Block(b)),
                Err(x) => Err(x),
            }
        } else if self.check(TokenDiscriminant::IF) {
            self.skip();
            self.if_statement()
        } else if self.check(TokenDiscriminant::RETURN) {
            let keyword = self.advance();
            self.return_statement(keyword)
        } else {
            self.expression_statement()
        }
    }

    fn print_statement(&mut self) -> (r: Result<Statement, ParsingError>)
        requires
            old(self).wf(),
        ensures
            final(self).steps(old(self)),
            ps_of(r, final(self).pos as int, final(self).nv()) == p_print(old(self).ts(), old(self).pos as int, old(self).nv()),
    {
        match self.expression() {
            Ok(value) => self.semicolon(Statement::Print(value)),
            Err(x) => Err(x),
        }
    }

    fn expression_statement(&mut self) -> (r: Result<Statement, ParsingError>)
        requires
            old(self).wf(),
        ensures
            final(self).steps(old(self)),
            final(self).takes(old(self)),
            ps_of(r, final(self).pos as int, final(self).nv()) == p_expression_statement(
                old(self).ts(),
                old(self).pos as int,
                old(self).nv(),
            ),
    {
        match self.expression() {
            Ok(value) => self.semicolon(Statement::Expression(value)),
            Err(x) => Err(x),
        }
    }

    fn return_statement(&mut self, keyword: ScannedToken) -> (r: Result<Statement, ParsingError>)
        requires
            old(self).wf(),
        ensures
            final(self).steps(old(self)),
            ps_of(r, final(self).pos as int, final(self).nv()) == p_return(old(self).ts(), keyword@, old(self).pos as int, old(self).nv()),
    {
        if self.check(TokenDiscriminant::SEMICOLON) {
            self.skip();
            Ok(Statement::Return { token: keyword, value: None })
        } else {
            let value = match self.expression() {
                Ok(value) => value,
                Err(x) => return Err(x),
            };
            if self.check(TokenDiscriminant::SEMICOLON) {
                self.skip();
                Ok(Statement::Return { token: keyword, value: Some(value) })
            } else {
                Err(ParsingError::NoSemi)
            }
        }
    }

    fn while_statement(&mut self) -> (r: Result<Statement, ParsingError>)
        requires
            old(self).wf(),
        ensures
            final(self).steps(old(self)),
            ps_of(r, final(self).pos as int, final(self).nv()) == p_while(old(self).ts(), old(self).pos as int, old(self).nv()),
        decreases old(self).tokens@.len() - old(self).pos, 50int,
    {
        if !self.check(TokenDiscriminant::LEFTPAREN) {
            return Err(ParsingError::WhileParenOpen);
        }
        self.skip();
        let condition = match self.expression() {
            Ok(c) => c,
            Err(x) => return Err(x),
        };
        if !self.check(TokenDiscriminant::RIGHTPAREN) {
            return Err(ParsingError::WhileParenClosed);
        }
        self.skip();
        match self.statement() {
            Ok(body) => Ok(Statement::While { condition, body: Box::new(body) }),
            Err(x) => Err(x),
        }
    }

    fn if_statement(&mut self) -> (r: Result<Statement, ParsingError>)
        requires
            old(self).wf(),
        ensures
            final(self).steps(old(self)),
            ps_of(r, final(self).pos as int, final(self).nv()) == p_if(old(self).ts(), old(self).pos as int, old(self).nv()),
        decreases old(self).tokens@.len() - old(self).pos, 50int,
    {
        if !self.check(TokenDiscriminant::LEFTPAREN) {
            return Err(ParsingError::IfParenOpen);
        }
        self.skip();
        let condition = match self.expression() {
            Ok(c) => c,
            Err(x) => return Err(x),
        };
        self.note(ParseNote::IfCondition(condition.copy()));
        if !self.check(TokenDiscriminant::RIGHTPAREN) {
            return Err(ParsingError::IfParenClosed);
        }
        self.skip();
        let then = match self.statement() {
            Ok(s) => s,
            Err(x) => return Err(x),
        };
        if self.check(TokenDiscriminant::ELSE) {
            self.skip();
            match self.statement() {
                Ok(e) => Ok(
                    Statement::If {
                        condition,
                        then: Box::new(then),
                        else_case: Some(Box::new(e)),
                    },
                ),
                Err(x) => Err(x),
            }
        } else {
            Ok(Statement::If { condition, then: Box::new(then), else_case: None })
        }
    }

    fn for_initializer(&mut self) -> (r: Result<Option<Statement>, ParsingError>)
        requires
            old(self).wf(),
        ensures
            final(self).steps(old(self)),
            p_for_init(old(self).ts(), old(self).pos as int, old(self).nv()) == match r {
                Ok(Some(s)) => Ok((Some(s@), final(self).pos as int, final(self).nv())),
                Ok(None) => Ok((None, final(self).pos as int, final(self).nv())),
                Err(x) => Err((x, final(self).pos as int, final(self).nv())),
            },
    {
        if self.check(TokenDiscriminant::SEMICOLON) {
            self.skip();
            Ok(None)
        } else if self.check(TokenDiscriminant::VAR) {
            self.skip();
            match self.var_declaration() {
                Ok(s) => Ok(Some(s)),
                Err(x) => Err(x),
            }
        } else {
            match self.expression_statement() {
                Ok(s) => Ok(Some(s)),
                Err(x) => Err(x),
            }
        }
    }

    fn for_clauses(&mut self) -> (r: Result<(Option<Expression>, Option<Expression>), ParsingError>)
        requires
            old(self).wf(),
        ensures
            final(self).steps(old(self)),
            p_for_clauses(old(self).ts(), old(self).pos as int, old(self).nv()) == match r {
                Ok((c, i)) => Ok(
                    (
                        (crate::syntax_trees::opt_expr_view(c), crate::syntax_trees::opt_expr_view(i)),
                        final(self).pos as int,
                        final(self).nv(),
                    ),
                ),
                Err(x) => Err((x, final(self).pos as int, final(self).nv())),
            },
    {
        let condition = if self.check(TokenDiscriminant::SEMICOLON) {
            None
        } else {
            match self.expression() {
                Ok(c) => Some(c),
                Err(x) => return Err(x),
            }
        };
        if !self.check(TokenDiscriminant::SEMICOLON) {
            return Err(ParsingError::ConditionNoSemi);
        }
        self.skip();
        let increment = if self.check_other(TokenDiscriminant::RIGHTPAREN) {
            match self.expression() {
                Ok(i) => Some(i),
                Err(x) => return Err(x),
            }
        } else {
            None
        };
        if !self.check(TokenDiscriminant::RIGHTPAREN) {
            return Err(ParsingError::ForParenClosed);
        }
        self.skip();
        Ok((condition, increment))
    }

    #[verifier::rlimit(40)]
    fn for_statement(&mut self) -> (r: Result<Statement, ParsingError>)
        requires
            old(self).wf(),
        ensures
            final(self).steps(old(self)),
            ps_of(r, final(self).pos as int, final(self).nv()) == p_for(old(self).ts(), old(self).pos as int, old(self).nv()),
        decreases old(self).tokens@.len() - old(self).pos, 50int,
    {
        if !self.check(TokenDiscriminant::LEFTPAREN) {
            return Err(ParsingError::ForParenOpen);
        }
        self.skip();
        let initializer = match self.for_initializer() {
            Ok(i) => i,
            Err(x) => return Err(x),
        };
        let (condition, increment) = match self.for_clauses() {
            Ok(c) => c,
            Err(x) => return Err(x),
        };
        let body = match self.statement() {
            Ok(b) => b,
            Err(x) => return Err(x),
        };
        let body = match increment {
            Some(increment) => {
                block_of_two(body, Statement::Expression(increment))
            },
            None => body,
        };
        let condition = match condition {
            Some(c) => c,
            None => Expression::Literal(LiteralValue::Bool(true)),
        };
        let body = Statement::While { condition, body: Box::new(body) };
        match initializer {
            Some(initializer) => {
                Ok(block_of_two(initializer, body))
            },
            None => Ok(body),
        }
    }
}

} // verus!
