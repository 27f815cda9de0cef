//! What the parser does, stated over token views: a recursive-descent parse
//! from a position in the token sequence to a syntax tree and the position
//! after it, or to an error and the position where the parser stands then.
use vstd::prelude::*;
use crate::parser::{FunctionKind, ParsingError};
use crate::scanner::ScannedTokenV;
use crate::syntax_trees::{
    binary_of, logical_of, ExprV, FunV, LitV, StmtV,
};
use crate::token::TokenDiscriminant;

verus! {

/// What the parser notes as it goes: an error it reports, with the line of
/// the token it stands at (none at the end of the tokens); a function
/// declared with more than 255 parameters; the condition of an `if`.
pub enum NoteV {
    Error(ParsingError, Option<nat>),
    TooManyParams,
    IfCondition(ExprV),
}

/// The line of the token at position `p`, if there is one.
pub open spec fn line_at(ts: Seq<ScannedTokenV>, p: int) -> Option<nat> {
    if 0 <= p < ts.len() {
        Some(ts[p].line)
    } else {
        None
    }
}

/// The result of parsing something: it, the position after it and the notes
/// so far; or an error, the position where the parser stands then and the
/// notes so far.
pub type PR<T> = Result<(T, int, Seq<NoteV>), (ParsingError, int, Seq<NoteV>)>;

/// The result of parsing an expression.
pub type PE = PR<ExprV>;

/// The result of parsing a statement.
pub type PS = PR<StmtV>;

/// The kind of the token at position `p`, if there is one.
pub open spec fn kind_at(ts: Seq<ScannedTokenV>, p: int) -> Option<TokenDiscriminant> {
    if 0 <= p < ts.len() {
        Some(ts[p].token.kind)
    } else {
        None
    }
}

/// Whether the token at position `p` is of kind `k`.
pub open spec fn is_at(ts: Seq<ScannedTokenV>, p: int, k: TokenDiscriminant) -> bool {
    kind_at(ts, p) == Some(k)
}

/// Whether there is a token at position `p` and it is not of kind `k`.
pub open spec fn is_other_at(ts: Seq<ScannedTokenV>, p: int, k: TokenDiscriminant) -> bool {
    0 <= p < ts.len() && ts[p].token.kind != k
}

/// Whether `q` lies in `[p, n]`.
pub open spec fn fwd(p: int, q: int, n: int) -> bool {
    p <= q <= n
}

/// The position that an expression parse ends at.
pub open spec fn pe_pos(r: PE) -> int {
    match r {
        Ok((_, p, _)) => p,
        Err((_, p, _)) => p,
    }
}

/// The precedence levels of binary and logical operators, loosest first.
#[derive(Clone, Copy, Debug, PartialEq, Eq, Structural)]
pub enum Level {
    Or,
    And,
    Equality,
    Comparison,
    Term,
    Factor,
}

/// The level below a level (`Factor` has none: its operands are unary).
pub open spec fn next_level(l: Level) -> Level {
    match l {
        Level::Or => Level::And,
        Level::And => Level::Equality,
        Level::Equality => Level::Comparison,
        Level::Comparison => Level::Term,
        Level::Term => Level::Factor,
        Level::Factor => Level::Factor,
    }
}

pub open spec fn level_rank(l: Level) -> int {
    match l {
        Level::Or => 35,
        Level::And => 32,
        Level::Equality => 29,
        Level::Comparison => 26,
        Level::Term => 23,
        Level::Factor => 20,
    }
}

/// Whether a token of kind `k` is an operator of level `l`. (The level that
/// the parser calls `or` joins its operands with `and`, and the level it
/// calls `and` joins them with `or`.)
pub open spec fn level_has(l: Level, k: TokenDiscriminant) -> bool {
    match l {
        Level::Or => k == TokenDiscriminant::AND,
        Level::And => k == TokenDiscriminant::OR,
        Level::Equality => k == TokenDiscriminant::BANGEQUAL || k == TokenDiscriminant::EQUALEQUAL,
        Level::Comparison => k == TokenDiscriminant::GREATER || k == TokenDiscriminant::GREATEREQUAL
            || k == TokenDiscriminant::LESS || k == TokenDiscriminant::LESSEQUAL,
        Level::Term => k == TokenDiscriminant::MINUS || k == TokenDiscriminant::PLUS,
        Level::Factor => k == TokenDiscriminant::SLASH || k == TokenDiscriminant::STAR,
    }
}

/// The tree that joins two operands with the operator token `t` of level `l`.
pub open spec fn join(l: Level, left: ExprV, t: ScannedTokenV, right: ExprV) -> ExprV {
    match l {
        Level::Or | Level::And => match logical_of(t.token.kind) {
            Some(op) => ExprV::Logical(Box::new(left), op, Box::new(right)),
            None => left,
        },
        _ => match binary_of(t.token.kind, t.line as u32) {
            Some(op) => ExprV::Binary(Box::new(left), op, Box::new(right)),
            None => left,
        },
    }
}

/// `expression → assignment`.
pub open spec fn p_expression(ts: Seq<ScannedTokenV>, p: int, n: Seq<NoteV>) -> PE
    decreases ts.len() - p, 40int,
{
    p_assignment(ts, p, n)
}

/// `assignment → or ( "=" assignment )?`, the left side having to be a
/// variable (where it is not, the error is reported at the line of the `=`).
pub open spec fn p_assignment(ts: Seq<ScannedTokenV>, p: int, n: Seq<NoteV>) -> PE
    decreases ts.len() - p, 39int,
{
    match p_level(ts, Level::Or, p, n) {
        Err(x) => Err(x),
        Ok((e, p1, n1)) => {
            if is_at(ts, p1, TokenDiscriminant::EQUAL) && p <= p1 {
                match p_assignment(ts, p1 + 1, n1) {
                    Err(x) => Err(x),
                    Ok((v, p2, n2)) => match e {
                        ExprV::Variable(name, _) => Ok((ExprV::Assign(name, Box::new(v)), p2, n2)),
                        _ => Err(
                            (
                                ParsingError::InvalidAssignment,
                                p2,
                                n2.push(
                                    NoteV::Error(ParsingError::InvalidAssignment, Some(ts[p1].line)),
                                ),
                            ),
                        ),
                    },
                }
            } else {
                Ok((e, p1, n1))
            }
        },
    }
}

/// An operand of level `l`.
pub open spec fn p_operand(ts: Seq<ScannedTokenV>, l: Level, p: int, n: Seq<NoteV>) -> PE
    decreases ts.len() - p, level_rank(l) - 2,
{
    if l == Level::Factor {
        p_unary(ts, p, n)
    } else {
        p_level(ts, next_level(l), p, n)
    }
}

/// `level → operand ( op operand )*`, joined to the left.
pub open spec fn p_level(ts: Seq<ScannedTokenV>, l: Level, p: int, n: Seq<NoteV>) -> PE
    decreases ts.len() - p, level_rank(l),
{
    match p_operand(ts, l, p, n) {
        Err(x) => Err(x),
        Ok((e, p1, n1)) => {
            if fwd(p, p1, ts.len() as int) {
                p_level_loop(ts, l, e, p1, n1)
            } else {
                Ok((e, p1, n1))
            }
        },
    }
}

/// The `( op operand )*` part of a level, after the operand `left`.
pub open spec fn p_level_loop(
    ts: Seq<ScannedTokenV>,
    l: Level,
    left: ExprV,
    p: int,
    n: Seq<NoteV>,
) -> PE
    decreases ts.len() - p, level_rank(l) - 1,
{
    if 0 <= p < ts.len() && level_has(l, ts[p].token.kind) {
        match p_operand(ts, l, p + 1, n) {
            Err(x) => Err(x),
            Ok((right, p2, n2)) => {
                let e = join(l, left, ts[p], right);
                if fwd(p + 1, p2, ts.len() as int) {
                    p_level_loop(ts, l, e, p2, n2)
                } else {
                    Ok((e, p2, n2))
                }
            },
        }
    } else {
        Ok((left, p, n))
    }
}

/// `unary → ( "!" | "-" ) unary | call`.
pub open spec fn p_unary(ts: Seq<ScannedTokenV>, p: int, n: Seq<NoteV>) -> PE
    decreases ts.len() - p, 12int,
{
    if is_at(ts, p, TokenDiscriminant::BANG) || is_at(ts, p, TokenDiscriminant::MINUS) {
        let op = if is_at(ts, p, TokenDiscriminant::BANG) {
            crate::syntax_trees::UnaryOperator::BANG
        } else {
            crate::syntax_trees::UnaryOperator::MINUS
        };
        match p_unary(ts, p + 1, n) {
            Err(x) => Err(x),
            Ok((e, p1, n1)) => Ok((ExprV::Unary(op, Box::new(e)), p1, n1)),
        }
    } else {
        p_call(ts, p, n)
    }
}

/// `call → primary ( "(" arguments? ")" )*`.
pub open spec fn p_call(ts: Seq<ScannedTokenV>, p: int, n: Seq<NoteV>) -> PE
    decreases ts.len() - p, 11int,
{
    let r = p_primary(ts, p, n);
    if fwd(p, pe_pos(r), ts.len() as int) {
        p_call_loop(ts, r)
    } else {
        r
    }
}

/// The `( "(" arguments? ")" )*` part of a call. An opening parenthesis after
/// a failed callee is taken before the failure is returned.
pub open spec fn p_call_loop(ts: Seq<ScannedTokenV>, r: PE) -> PE
    decreases ts.len() - pe_pos(r), 10int,
{
    let q = pe_pos(r);
    if is_at(ts, q, TokenDiscriminant::LEFTPAREN) {
        match r {
            Err((x, _, n)) => Err((x, q + 1, n)),
            Ok((e, _, n)) => {
                let r2 = p_finish_call(ts, e, q + 1, n);
                if fwd(q + 1, pe_pos(r2), ts.len() as int) {
                    p_call_loop(ts, r2)
                } else {
                    r2
                }
            },
        }
    } else {
        r
    }
}

/// The arguments and closing parenthesis of a call, after its `(`.
pub open spec fn p_finish_call(ts: Seq<ScannedTokenV>, callee: ExprV, p: int, n: Seq<NoteV>) -> PE
    decreases ts.len() - p, 44int,
{
    let args = if is_other_at(ts, p, TokenDiscriminant::RIGHTPAREN) {
        p_args(ts, Seq::empty(), p, n)
    } else {
        Ok((Seq::empty(), p, n))
    };
    match args {
        Err(x) => Err(x),
        Ok((args, q, n1)) => {
            if is_at(ts, q, TokenDiscriminant::RIGHTPAREN) {
                Ok((ExprV::Call(Box::new(callee), ts[q], args), q + 1, n1))
            } else {
                Err((ParsingError::FnNoCloseParen, q, n1))
            }
        },
    }
}

/// The note made before each argument past the 255th, at the line of the
/// token that starts it.
pub open spec fn args_note(ts: Seq<ScannedTokenV>, count: nat, p: int, n: Seq<NoteV>) -> Seq<
    NoteV,
> {
    if count >= 255 {
        n.push(NoteV::Error(ParsingError::TooManyArgs, line_at(ts, p)))
    } else {
        n
    }
}

/// `arguments → expression ( "," expression )*`, after the arguments `acc`.
pub open spec fn p_args(ts: Seq<ScannedTokenV>, acc: Seq<ExprV>, p: int, n: Seq<NoteV>) -> PR<
    Seq<ExprV>,
>
    decreases ts.len() - p, 43int,
{
    match p_expression(ts, p, args_note(ts, acc.len(), p, n)) {
        Err(x) => Err(x),
        Ok((a, p1, n1)) => {
            if is_at(ts, p1, TokenDiscriminant::COMMA) && p <= p1 {
                p_args(ts, acc.push(a), p1 + 1, n1)
            } else {
                Ok((acc.push(a), p1, n1))
            }
        },
    }
}

/// `primary → "false" | "true" | "nil" | NUMBER | STRING | "(" expression ")" | IDENTIFIER`.
/// The token is taken even where it starts no expression.
pub open spec fn p_primary(ts: Seq<ScannedTokenV>, p: int, n: Seq<NoteV>) -> PE
    decreases ts.len() - p, 9int,
{
    if p < 0 || p >= ts.len() {
        Err((ParsingError::NoExpr, p, n.push(NoteV::Error(ParsingError::NoExpr, None))))
    } else {
        let t = ts[p];
        match t.token.kind {
            TokenDiscriminant::FALSE => Ok((ExprV::Literal(LitV::Bool(false)), p + 1, n)),
            TokenDiscriminant::TRUE => Ok((ExprV::Literal(LitV::Bool(true)), p + 1, n)),
            TokenDiscriminant::NIL => Ok((ExprV::Literal(LitV::Nil), p + 1, n)),
            TokenDiscriminant::NUMBER => Ok((ExprV::Literal(LitV::Float(t.token.text)), p + 1, n)),
            TokenDiscriminant::STRING => Ok((ExprV::Literal(LitV::String(t.token.text)), p + 1, n)),
            TokenDiscriminant::LEFTPAREN => p_paren(ts, p + 1, n),
            TokenDiscriminant::IDENTIFIER => Ok((ExprV::Variable(t.token.text, t.line), p + 1, n)),
            _ => Err(
                (
                    ParsingError::NoExpr,
                    p + 1,
                    n.push(NoteV::Error(ParsingError::NoExpr, Some(t.line))),
                ),
            ),
        }
    }
}

/// The inside and closing parenthesis of a grouping, after its `(`.
pub open spec fn p_paren(ts: Seq<ScannedTokenV>, p: int, n: Seq<NoteV>) -> PE
    decreases ts.len() - p, 41int,
{
    match p_expression(ts, p, n) {
        Err(x) => Err(x),
        Ok((e, p1, n1)) => {
            if is_at(ts, p1, TokenDiscriminant::RIGHTPAREN) {
                Ok((ExprV::Grouping(Box::new(e)), p1 + 1, n1))
            } else {
                Err(
                    (
                        ParsingError::UntermParen,
                        p1,
                        n1.push(NoteV::Error(ParsingError::UntermParen, line_at(ts, p1))),
                    ),
                )
            }
        },
    }
}

// ---------------------------------------------------------------------------
// Statements.

/// The kinds of token that a failed declaration skips to.
pub open spec fn is_sync_point(k: TokenDiscriminant) -> bool {
    k == TokenDiscriminant::CLASS || k == TokenDiscriminant::FUN || k == TokenDiscriminant::VAR
        || k == TokenDiscriminant::FOR || k == TokenDiscriminant::IF || k == TokenDiscriminant::WHILE
        || k == TokenDiscriminant::PRINT || k == TokenDiscriminant::RETURN
}

/// Where the parser stands after skipping, from `p`, to just past the next
/// `;` or to the next token that starts a declaration.
pub open spec fn p_synchronize(ts: Seq<ScannedTokenV>, p: int) -> int
    decreases ts.len() - p,
{
    if p < 0 || p >= ts.len() {
        p
    } else if ts[p].token.kind == TokenDiscriminant::SEMICOLON {
        p + 1
    } else if is_sync_point(ts[p].token.kind) {
        p
    } else {
        p_synchronize(ts, p + 1)
    }
}

/// A `;` that ends a statement, then the statement `s`; a missing one is
/// reported at the line of the token that stands in its place.
pub open spec fn p_semicolon(ts: Seq<ScannedTokenV>, s: StmtV, p: int, n: Seq<NoteV>) -> PS {
    if is_at(ts, p, TokenDiscriminant::SEMICOLON) {
        Ok((s, p + 1, n))
    } else {
        Err((ParsingError::NoSemi, p, n.push(NoteV::Error(ParsingError::NoSemi, line_at(ts, p)))))
    }
}

/// `varDecl → IDENTIFIER ( "=" expression )? ";"`, after `var`; a missing
/// name is reported at the line of the token in its place.
pub open spec fn p_var_declaration(ts: Seq<ScannedTokenV>, p: int, n: Seq<NoteV>) -> PS {
    if is_at(ts, p, TokenDiscriminant::IDENTIFIER) {
        let name = ts[p].token.text;
        if is_at(ts, p + 1, TokenDiscriminant::EQUAL) {
            match p_expression(ts, p + 2, n) {
                Err(x) => Err(x),
                Ok((e, p2, n2)) => p_semicolon(ts, StmtV::Var(name, Some(e)), p2, n2),
            }
        } else {
            p_semicolon(ts, StmtV::Var(name, None), p + 1, n)
        }
    } else {
        Err(
            (
                ParsingError::NoIdentifier,
                p,
                n.push(NoteV::Error(ParsingError::NoIdentifier, line_at(ts, p))),
            ),
        )
    }
}

/// An identifier, taken even where the token is another one.
pub open spec fn p_identifier(ts: Seq<ScannedTokenV>, p: int, n: Seq<NoteV>) -> PR<Seq<char>> {
    if p < 0 || p >= ts.len() {
        Err((ParsingError::NoIdentifier, p, n))
    } else if ts[p].token.kind == TokenDiscriminant::IDENTIFIER {
        Ok((ts[p].token.text, p + 1, n))
    } else {
        Err((ParsingError::NoIdentifier, p + 1, n))
    }
}

/// `parameters → IDENTIFIER ( "," IDENTIFIER )*`, after the names `acc`;
/// before each name past the 255th a note is made.
pub open spec fn p_params(ts: Seq<ScannedTokenV>, acc: Seq<Seq<char>>, p: int, n: Seq<NoteV>) -> PR<
    Seq<Seq<char>>,
>
    decreases ts.len() - p,
{
    let n0 = if acc.len() >= 255 {
        n.push(NoteV::TooManyParams)
    } else {
        n
    };
    match p_identifier(ts, p, n0) {
        Err(x) => Err(x),
        Ok((name, p1, n1)) => {
            if is_at(ts, p1, TokenDiscriminant::COMMA) && p < p1 {
                p_params(ts, acc.push(name), p1 + 1, n1)
            } else {
                Ok((acc.push(name), p1, n1))
            }
        },
    }
}

/// `printStmt → "print" expression ";"`, after `print`.
pub open spec fn p_print(ts: Seq<ScannedTokenV>, p: int, n: Seq<NoteV>) -> PS {
    match p_expression(ts, p, n) {
        Err(x) => Err(x),
        Ok((e, p1, n1)) => p_semicolon(ts, StmtV::Print(e), p1, n1),
    }
}

/// `exprStmt → expression ";"`.
pub open spec fn p_expression_statement(ts: Seq<ScannedTokenV>, p: int, n: Seq<NoteV>) -> PS {
    match p_expression(ts, p, n) {
        Err(x) => Err(x),
        Ok((e, p1, n1)) => p_semicolon(ts, StmtV::Expression(e), p1, n1),
    }
}

/// `returnStmt → "return" expression? ";"`, after the `return` token `keyword`.
pub open spec fn p_return(ts: Seq<ScannedTokenV>, keyword: ScannedTokenV, p: int, n: Seq<NoteV>) -> PS {
    if is_at(ts, p, TokenDiscriminant::SEMICOLON) {
        Ok((StmtV::Return(keyword, None), p + 1, n))
    } else {
        match p_expression(ts, p, n) {
            Err(x) => Err(x),
            Ok((e, p1, n1)) => if is_at(ts, p1, TokenDiscriminant::SEMICOLON) {
                Ok((StmtV::Return(keyword, Some(e)), p1 + 1, n1))
            } else {
                Err((ParsingError::NoSemi, p1, n1))
            },
        }
    }
}

/// `declaration → "var" varDecl | "fun" function | statement`; a failed
/// declaration skips ahead with `p_synchronize` before it returns its error.
pub open spec fn p_declaration(ts: Seq<ScannedTokenV>, p: int, n: Seq<NoteV>) -> PS
    decreases ts.len() - p, 60int,
{
    match p_declaration_body(ts, p, n) {
        Err((e, q, n1)) => Err((e, p_synchronize(ts, q), n1)),
        Ok(x) => Ok(x),
    }
}

/// A declaration before recovery: `varDecl | funDecl | statement`.
pub open spec fn p_declaration_body(ts: Seq<ScannedTokenV>, p: int, n: Seq<NoteV>) -> PS
    decreases ts.len() - p, 59int,
{
    if is_at(ts, p, TokenDiscriminant::VAR) {
        p_var_declaration(ts, p + 1, n)
    } else if is_at(ts, p, TokenDiscriminant::FUN) {
        p_function(ts, p + 1, FunctionKind::Function, n)
    } else {
        p_statement(ts, p, n)
    }
}

/// `function → IDENTIFIER "(" parameters? ")" block`, after `fun`.
pub open spec fn p_function(ts: Seq<ScannedTokenV>, p: int, kind: FunctionKind, n: Seq<NoteV>) -> PS
    decreases ts.len() - p, 50int,
{
    match p_identifier(ts, p, n) {
        Err(x) => Err(x),
        Ok((name, p1, n1)) => {
            if !is_at(ts, p1, TokenDiscriminant::LEFTPAREN) {
                Err((ParsingError::FnParenOpen(kind), p1, n1))
            } else {
                let params = if is_other_at(ts, p1 + 1, TokenDiscriminant::RIGHTPAREN) {
                    p_params(ts, Seq::empty(), p1 + 1, n1)
                } else {
                    Ok((Seq::empty(), p1 + 1, n1))
                };
                match params {
                    Err(x) => Err(x),
                    Ok((params, p3, n3)) => {
                        if !is_at(ts, p3, TokenDiscriminant::RIGHTPAREN) {
                            Err((ParsingError::FnParenClosed(kind), p3, n3))
                        } else if !is_at(ts, p3 + 1, TokenDiscriminant::LEFTBRACE) {
                            Err((ParsingError::FnNoBraceOpen(kind), p3 + 1, n3))
                        } else if fwd(p, p3, ts.len() as int) {
                            match p_block(ts, p3 + 2, n3) {
                                Err(x) => Err(x),
                                Ok((body, p4, n4)) => Ok(
                                    (StmtV::Function(FunV { name, params, body }), p4, n4),
                                ),
                            }
                        } else {
                            Err((ParsingError::Invalid, p3, n3))
                        }
                    },
                }
            }
        },
    }
}

/// `block → "{" declaration* "}"`, after its `{`.
pub open spec fn p_block(ts: Seq<ScannedTokenV>, p: int, n: Seq<NoteV>) -> PR<Seq<StmtV>>
    decreases ts.len() - p, 62int,
{
    p_block_loop(ts, Seq::empty(), p, n)
}

/// The declarations and closing brace of a block, after the declarations
/// `acc`; a block that the tokens end inside is reported with no line.
pub open spec fn p_block_loop(ts: Seq<ScannedTokenV>, acc: Seq<StmtV>, p: int, n: Seq<NoteV>) -> PR<
    Seq<StmtV>,
>
    decreases ts.len() - p, 61int,
{
    if is_other_at(ts, p, TokenDiscriminant::RIGHTBRACE) {
        match p_declaration(ts, p, n) {
            Err(x) => Err(x),
            Ok((s, p1, n1)) => {
                if p < p1 <= ts.len() {
                    p_block_loop(ts, acc.push(s), p1, n1)
                } else {
                    Ok((acc.push(s), p1, n1))
                }
            },
        }
    } else if is_at(ts, p, TokenDiscriminant::RIGHTBRACE) {
        Ok((acc, p + 1, n))
    } else {
        Err((ParsingError::UntermBrace, p, n.push(NoteV::Error(ParsingError::UntermBrace, None))))
    }
}

/// `statement → printStmt | forStmt | whileStmt | block | ifStmt | returnStmt | exprStmt`.
pub open spec fn p_statement(ts: Seq<ScannedTokenV>, p: int, n: Seq<NoteV>) -> PS
    decreases ts.len() - p, 58int,
{
    if is_at(ts, p, TokenDiscriminant::PRINT) {
        p_print(ts, p + 1, n)
    } else if is_at(ts, p, TokenDiscriminant::FOR) {
        p_for(ts, p + 1, n)
    } else if is_at(ts, p, TokenDiscriminant::WHILE) {
        p_while(ts, p + 1, n)
    } else if is_at(ts, p, TokenDiscriminant::LEFTBRACE) {
        match p_block(ts, p + 1, n) {
            Err(x) => Err(x),
            Ok((b, p1, n1)) => Ok((StmtV::Block(b), p1, n1)),
        }
    } else if is_at(ts, p, TokenDiscriminant::IF) {
        p_if(ts, p + 1, n)
    } else if is_at(ts, p, TokenDiscriminant::RETURN) {
        p_return(ts, ts[p], p + 1, n)
    } else {
        p_expression_statement(ts, p, n)
    }
}

/// `whileStmt → "while" "(" expression ")" statement`, after `while`.
pub open spec fn p_while(ts: Seq<ScannedTokenV>, p: int, n: Seq<NoteV>) -> PS
    decreases ts.len() - p, 50int,
{
    if !is_at(ts, p, TokenDiscriminant::LEFTPAREN) {
        Err((ParsingError::WhileParenOpen, p, n))
    } else {
        match p_expression(ts, p + 1, n) {
            Err(x) => Err(x),
            Ok((cond, p1, n1)) => {
                if !is_at(ts, p1, TokenDiscriminant::RIGHTPAREN) {
                    Err((ParsingError::WhileParenClosed, p1, n1))
                } else if p <= p1 {
                    match p_statement(ts, p1 + 1, n1) {
                        Err(x) => Err(x),
                        Ok((body, p2, n2)) => Ok((StmtV::While(cond, Box::new(body)), p2, n2)),
                    }
                } else {
                    Err((ParsingError::Invalid, p1, n1))
                }
            },
        }
    }
}

/// `ifStmt → "if" "(" expression ")" statement ( "else" statement )?`, after
/// `if`. The condition is noted once it is parsed.
pub open spec fn p_if(ts: Seq<ScannedTokenV>, p: int, n: Seq<NoteV>) -> PS
    decreases ts.len() - p, 50int,
{
    if !is_at(ts, p, TokenDiscriminant::LEFTPAREN) {
        Err((ParsingError::IfParenOpen, p, n))
    } else {
        match p_expression(ts, p + 1, n) {
            Err(x) => Err(x),
            Ok((cond, p1, n0)) => {
                let n1 = n0.push(NoteV::IfCondition(cond));
                if !is_at(ts, p1, TokenDiscriminant::RIGHTPAREN) {
                    Err((ParsingError::IfParenClosed, p1, n1))
                } else if p <= p1 {
                    match p_statement(ts, p1 + 1, n1) {
                        Err(x) => Err(x),
                        Ok((then, p2, n2)) => {
                            if is_at(ts, p2, TokenDiscriminant::ELSE) && p1 < p2 {
                                match p_statement(ts, p2 + 1, n2) {
                                    Err(x) => Err(x),
                                    Ok((e, p3, n3)) => Ok(
                                        (
                                            StmtV::If(cond, Box::new(then), Some(Box::new(e))),
                                            p3,
                                            n3,
                                        ),
                                    ),
                                }
                            } else {
                                Ok((StmtV::If(cond, Box::new(then), None), p2, n2))
                            }
                        },
                    }
                } else {
                    Err((ParsingError::Invalid, p1, n1))
                }
            },
        }
    }
}

/// The initializer clause of a `for`, after its `(`.
pub open spec fn p_for_init(ts: Seq<ScannedTokenV>, p: int, n: Seq<NoteV>) -> PR<Option<StmtV>> {
    if is_at(ts, p, TokenDiscriminant::SEMICOLON) {
        Ok((None, p + 1, n))
    } else if is_at(ts, p, TokenDiscriminant::VAR) {
        match p_var_declaration(ts, p + 1, n) {
            Err(x) => Err(x),
            Ok((s, p1, n1)) => Ok((Some(s), p1, n1)),
        }
    } else {
        match p_expression_statement(ts, p, n) {
            Err(x) => Err(x),
            Ok((s, p1, n1)) => Ok((Some(s), p1, n1)),
        }
    }
}

/// The condition and increment clauses of a `for` and its `)`: the
/// condition, the increment, and the position after the `)`.
pub open spec fn p_for_clauses(ts: Seq<ScannedTokenV>, p: int, n: Seq<NoteV>) -> PR<
    (Option<ExprV>, Option<ExprV>),
> {
    let cond = if is_at(ts, p, TokenDiscriminant::SEMICOLON) {
        Ok((None, p, n))
    } else {
        match p_expression(ts, p, n) {
            Err(x) => Err(x),
            Ok((c, p1, n1)) => Ok((Some(c), p1, n1)),
        }
    };
    match cond {
        Err(x) => Err(x),
        Ok((cond, p1, n1)) => {
            if !is_at(ts, p1, TokenDiscriminant::SEMICOLON) {
                Err((ParsingError::ConditionNoSemi, p1, n1))
            } else {
                let incr = if is_other_at(ts, p1 + 1, TokenDiscriminant::RIGHTPAREN) {
                    match p_expression(ts, p1 + 1, n1) {
                        Err(x) => Err(x),
                        Ok((i, p2, n2)) => Ok((Some(i), p2, n2)),
                    }
                } else {
                    Ok((None, p1 + 1, n1))
                };
                match incr {
                    Err(x) => Err(x),
                    Ok((incr, p2, n2)) => {
                        if is_at(ts, p2, TokenDiscriminant::RIGHTPAREN) {
                            Ok(((cond, incr), p2 + 1, n2))
                        } else {
                            Err((ParsingError::ForParenClosed, p2, n2))
                        }
                    },
                }
            }
        },
    }
}

/// The loop that a `for` stands for: an optional initializer, then a `while`
/// on the condition (`true` where there is none) whose body is the body
/// followed by the increment, where there is one.
pub open spec fn desugar_for(
    init: Option<StmtV>,
    cond: Option<ExprV>,
    incr: Option<ExprV>,
    body: StmtV,
) -> StmtV {
    let body = match incr {
        Some(i) => StmtV::Block(seq![body, StmtV::Expression(i)]),
        None => body,
    };
    let cond = match cond {
        Some(c) => c,
        None => ExprV::Literal(LitV::Bool(true)),
    };
    let lp = StmtV::While(cond, Box::new(body));
    match init {
        Some(s) => StmtV::Block(seq![s, lp]),
        None => lp,
    }
}

/// `forStmt → "for" "(" ( varDecl | exprStmt | ";" ) expression? ";" expression? ")" statement`,
/// after `for`.
pub open spec fn p_for(ts: Seq<ScannedTokenV>, p: int, n: Seq<NoteV>) -> PS
    decreases ts.len() - p, 50int,
{
    if !is_at(ts, p, TokenDiscriminant::LEFTPAREN) {
        Err((ParsingError::ForParenOpen, p, n))
    } else {
        match p_for_init(ts, p + 1, n) {
            Err(x) => Err(x),
            Ok((init, p1, n1)) => match p_for_clauses(ts, p1, n1) {
                Err(x) => Err(x),
                Ok(((cond, incr), p2, n2)) => {
                    if p < p2 <= ts.len() {
                        match p_statement(ts, p2, n2) {
                            Err(x) => Err(x),
                            Ok((body, p3, n3)) => Ok((desugar_for(init, cond, incr, body), p3, n3)),
                        }
                    } else {
                        Err((ParsingError::Invalid, p2, n2))
                    }
                },
            },
        }
    }
}

/// `program → declaration*`: the declarations from `p` on, after the
/// statements `acc`; every declaration is parsed, and the last error met,
/// if any, is the result. The notes made come with it.
pub open spec fn p_program(
    ts: Seq<ScannedTokenV>,
    acc: Seq<StmtV>,
    last_error: Option<ParsingError>,
    p: int,
    n: Seq<NoteV>,
) -> (Result<Seq<StmtV>, ParsingError>, Seq<NoteV>)
    decreases ts.len() - p,
{
    if 0 <= p < ts.len() {
        match p_declaration(ts, p, n) {
            Ok((s, p1, n1)) => {
                if p < p1 <= ts.len() {
                    p_program(ts, acc.push(s), last_error, p1, n1)
                } else {
                    (Err(ParsingError::Invalid), n1)
                }
            },
            Err((e, p1, n1)) => {
                if p < p1 <= ts.len() {
                    p_program(ts, acc, Some(e), p1, n1)
                } else {
                    (Err(ParsingError::Invalid), n1)
                }
            },
        }
    } else {
        (
            match last_error {
                Some(e) => Err(e),
                None => Ok(acc),
            },
            n,
        )
    }
}

/// What parsing a whole token sequence gives, and the notes made meanwhile.
pub open spec fn spec_parse(ts: Seq<ScannedTokenV>) -> (Result<Seq<StmtV>, ParsingError>, Seq<NoteV>) {
    p_program(ts, Seq::empty(), None, 0, Seq::empty())
}

} // verus!
