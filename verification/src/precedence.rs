//! How the parser groups binary operators: which operators bind tighter,
//! and that operators of one level group to the left. The statements are
//! made over five-token expressions `a op b op c` whose operands are single
//! tokens, for every choice of operands and operators.
use vstd::prelude::*;
use crate::parser_spec::{
    join, level_has, level_rank, next_level, p_assignment, p_call, p_call_loop, p_expression,
    p_level, p_level_loop, p_operand, p_primary, p_unary, Level, NoteV, PE,
};
use crate::scanner::ScannedTokenV;
use crate::syntax_trees::{binary_of, BinaryOperator, ExprV, LitV, UnaryOperator};
use crate::token::TokenDiscriminant;

verus! {

/// Whether a token is an expression by itself: a literal or a name.
pub open spec fn is_atom(k: TokenDiscriminant) -> bool {
    ||| k == TokenDiscriminant::NUMBER
    ||| k == TokenDiscriminant::STRING
    ||| k == TokenDiscriminant::IDENTIFIER
    ||| k == TokenDiscriminant::TRUE
    ||| k == TokenDiscriminant::FALSE
    ||| k == TokenDiscriminant::NIL
}

/// The expression that a token which is one by itself stands for.
pub open spec fn atom_expr(t: ScannedTokenV) -> ExprV {
    match t.token.kind {
        TokenDiscriminant::FALSE => ExprV::Literal(LitV::Bool(false)),
        TokenDiscriminant::TRUE => ExprV::Literal(LitV::Bool(true)),
        TokenDiscriminant::NIL => ExprV::Literal(LitV::Nil),
        TokenDiscriminant::NUMBER => ExprV::Literal(LitV::Float(t.token.text)),
        TokenDiscriminant::STRING => ExprV::Literal(LitV::String(t.token.text)),
        _ => ExprV::Variable(t.token.text, t.line),
    }
}

/// The binary operator that an operator token stands for, at its line.
pub open spec fn infix(t: ScannedTokenV) -> BinaryOperator {
    match binary_of(t.token.kind, t.line as u32) {
        Some(op) => op,
        None => BinaryOperator::PLUS(t.line as u32),
    }
}

/// `==` and `!=`.
pub open spec fn is_equality_op(k: TokenDiscriminant) -> bool {
    k == TokenDiscriminant::EQUALEQUAL || k == TokenDiscriminant::BANGEQUAL
}

/// `>`, `>=`, `<` and `<=`.
pub open spec fn is_comparison_op(k: TokenDiscriminant) -> bool {
    ||| k == TokenDiscriminant::GREATER
    ||| k == TokenDiscriminant::GREATEREQUAL
    ||| k == TokenDiscriminant::LESS
    ||| k == TokenDiscriminant::LESSEQUAL
}

/// `+` and `-`.
pub open spec fn is_term_op(k: TokenDiscriminant) -> bool {
    k == TokenDiscriminant::PLUS || k == TokenDiscriminant::MINUS
}

/// `*` and `/`.
pub open spec fn is_factor_op(k: TokenDiscriminant) -> bool {
    k == TokenDiscriminant::STAR || k == TokenDiscriminant::SLASH
}

/// `a op1 b op2 c`: three single-token operands and two operators.
pub open spec fn three_operands(ts: Seq<ScannedTokenV>) -> bool {
    &&& ts.len() == 5
    &&& is_atom(ts[0].token.kind)
    &&& is_atom(ts[2].token.kind)
    &&& is_atom(ts[4].token.kind)
}

/// `(a op1 b) op2 c`.
pub open spec fn grouped_left(ts: Seq<ScannedTokenV>) -> ExprV {
    ExprV::Binary(
        Box::new(
            ExprV::Binary(Box::new(atom_expr(ts[0])), infix(ts[1]), Box::new(atom_expr(ts[2]))),
        ),
        infix(ts[3]),
        Box::new(atom_expr(ts[4])),
    )
}

/// `a op1 (b op2 c)`.
pub open spec fn grouped_right(ts: Seq<ScannedTokenV>) -> ExprV {
    ExprV::Binary(
        Box::new(atom_expr(ts[0])),
        infix(ts[1]),
        Box::new(
            ExprV::Binary(Box::new(atom_expr(ts[2])), infix(ts[3]), Box::new(atom_expr(ts[4]))),
        ),
    )
}

/// Whether a token kind is an operator of level `l` or of a level below it.
spec fn at_or_below(l: Level, k: TokenDiscriminant) -> bool
    decreases level_rank(l),
{
    level_has(l, k) || (l != Level::Factor && at_or_below(next_level(l), k))
}

proof fn lemma_at_or_below(l: Level, m: Level, k: TokenDiscriminant)
    requires
        level_has(m, k),
    ensures
        at_or_below(l, k) == (level_rank(m) <= level_rank(l)),
    decreases level_rank(l),
{
    if l != Level::Factor {
        lemma_at_or_below(next_level(l), m, k);
    }
}

proof fn lemma_paren_no_operator(l: Level)
    ensures
        !at_or_below(l, TokenDiscriminant::LEFTPAREN),
        !at_or_below(l, TokenDiscriminant::EQUAL),
    decreases level_rank(l),
{
    if l != Level::Factor {
        lemma_paren_no_operator(next_level(l));
    }
}

/// What may follow a single-token operand that a level takes alone.
spec fn ends_operand(ts: Seq<ScannedTokenV>, l: Level, p: int) -> bool {
    p + 1 < ts.len() ==> !at_or_below(l, ts[p + 1].token.kind) && ts[p + 1].token.kind
        != TokenDiscriminant::LEFTPAREN
}

proof fn lemma_unary_atom(ts: Seq<ScannedTokenV>, p: int, n: Seq<crate::parser_spec::NoteV>)
    requires
        0 <= p < ts.len(),
        is_atom(ts[p].token.kind),
        p + 1 < ts.len() ==> ts[p + 1].token.kind != TokenDiscriminant::LEFTPAREN,
    ensures
        p_unary(ts, p, n) == Ok::<(ExprV, int, Seq<crate::parser_spec::NoteV>), (
            crate::parser::ParsingError,
            int,
            Seq<crate::parser_spec::NoteV>,
        )>((atom_expr(ts[p]), p + 1, n)),
{
    let r = Ok::<(ExprV, int, Seq<crate::parser_spec::NoteV>), (
        crate::parser::ParsingError,
        int,
        Seq<crate::parser_spec::NoteV>,
    )>((atom_expr(ts[p]), p + 1, n));
    assert(p_primary(ts, p, n) == r);
    assert(p_call_loop(ts, r) == r);
    assert(p_call(ts, p, n) == r);
}

proof fn lemma_operand_atom(
    ts: Seq<ScannedTokenV>,
    l: Level,
    p: int,
    n: Seq<crate::parser_spec::NoteV>,
)
    requires
        0 <= p < ts.len(),
        is_atom(ts[p].token.kind),
        p + 1 < ts.len() ==> ts[p + 1].token.kind != TokenDiscriminant::LEFTPAREN,
        l != Level::Factor ==> ends_operand(ts, next_level(l), p),
    ensures
        p_operand(ts, l, p, n) == Ok::<(ExprV, int, Seq<crate::parser_spec::NoteV>), (
            crate::parser::ParsingError,
            int,
            Seq<crate::parser_spec::NoteV>,
        )>((atom_expr(ts[p]), p + 1, n)),
    decreases level_rank(l), 0int,
{
    if l == Level::Factor {
        lemma_unary_atom(ts, p, n);
    } else {
        lemma_level_atom(ts, next_level(l), p, n);
    }
}

proof fn lemma_level_atom(ts: Seq<ScannedTokenV>, l: Level, p: int, n: Seq<crate::parser_spec::NoteV>)
    requires
        0 <= p < ts.len(),
        is_atom(ts[p].token.kind),
        ends_operand(ts, l, p),
    ensures
        p_level(ts, l, p, n) == Ok::<(ExprV, int, Seq<crate::parser_spec::NoteV>), (
            crate::parser::ParsingError,
            int,
            Seq<crate::parser_spec::NoteV>,
        )>((atom_expr(ts[p]), p + 1, n)),
    decreases level_rank(l), 1int,
{
    lemma_operand_atom(ts, l, p, n);
    assert(p_level_loop(ts, l, atom_expr(ts[p]), p + 1, n) == Ok::<
        (ExprV, int, Seq<crate::parser_spec::NoteV>),
        (crate::parser::ParsingError, int, Seq<crate::parser_spec::NoteV>),
    >((atom_expr(ts[p]), p + 1, n)));
}

/// An expression parsed, ending before position `p`, with the notes `n`.
pub open spec fn parsed_as(e: ExprV, p: int, n: Seq<NoteV>) -> PE {
    Ok((e, p, n))
}

/// Whether a level joins binary (not logical) operators.
spec fn binary_level(l: Level) -> bool {
    l == Level::Equality || l == Level::Comparison || l == Level::Term || l == Level::Factor
}

proof fn lemma_join_binary(l: Level, left: ExprV, t: ScannedTokenV, right: ExprV)
    requires
        binary_level(l),
        level_has(l, t.token.kind),
    ensures
        join(l, left, t, right) == ExprV::Binary(Box::new(left), infix(t), Box::new(right)),
{
}

/// A level whose operand spans the rest of the tokens gives that operand.
proof fn lemma_up(ts: Seq<ScannedTokenV>, upper: Level, p: int, n: Seq<NoteV>, e: ExprV)
    requires
        upper != Level::Factor,
        0 <= p <= ts.len(),
        p_level(ts, next_level(upper), p, n) == parsed_as(e, ts.len() as int, n),
    ensures
        p_level(ts, upper, p, n) == parsed_as(e, ts.len() as int, n),
{
    assert(p_operand(ts, upper, p, n) == parsed_as(e, ts.len() as int, n));
    assert(p_level_loop(ts, upper, e, ts.len() as int, n) == parsed_as(e, ts.len() as int, n));
}

/// An expression that a binary level parses from the start to the end of
/// the tokens is what the whole expression parses to.
proof fn lemma_finish(ts: Seq<ScannedTokenV>, l: Level, n: Seq<NoteV>, e: ExprV)
    requires
        binary_level(l),
        p_level(ts, l, 0, n) == parsed_as(e, ts.len() as int, n),
    ensures
        p_expression(ts, 0, n) == parsed_as(e, ts.len() as int, n),
{
    if l == Level::Factor {
        lemma_up(ts, Level::Term, 0, n, e);
    }
    if l == Level::Term || l == Level::Factor {
        lemma_up(ts, Level::Comparison, 0, n, e);
    }
    if l != Level::Equality {
        lemma_up(ts, Level::Equality, 0, n, e);
    }
    lemma_up(ts, Level::And, 0, n, e);
    lemma_up(ts, Level::Or, 0, n, e);
    assert(p_assignment(ts, 0, n) == parsed_as(e, ts.len() as int, n));
}

/// `a l b l c`, both operators of level `l`: `(a l b) l c`.
proof fn lemma_same_level(ts: Seq<ScannedTokenV>, l: Level, n: Seq<NoteV>)
    requires
        binary_level(l),
        three_operands(ts),
        level_has(l, ts[1].token.kind),
        level_has(l, ts[3].token.kind),
    ensures
        p_level(ts, l, 0, n) == parsed_as(grouped_left(ts), 5, n),
{
    let k1 = ts[1].token.kind;
    let k3 = ts[3].token.kind;
    let x = atom_expr(ts[0]);
    let y = atom_expr(ts[2]);
    let z = atom_expr(ts[4]);
    if l != Level::Factor {
        lemma_at_or_below(next_level(l), l, k1);
        lemma_at_or_below(next_level(l), l, k3);
    }
    lemma_paren_no_operator(l);
    lemma_operand_atom(ts, l, 0, n);
    lemma_operand_atom(ts, l, 2, n);
    lemma_operand_atom(ts, l, 4, n);
    let e1 = ExprV::Binary(Box::new(x), infix(ts[1]), Box::new(y));
    lemma_join_binary(l, x, ts[1], y);
    lemma_join_binary(l, e1, ts[3], z);
    assert(p_level_loop(ts, l, grouped_left(ts), 5, n) == parsed_as(grouped_left(ts), 5, n));
    assert(p_level_loop(ts, l, e1, 3, n) == parsed_as(grouped_left(ts), 5, n));
    assert(p_level_loop(ts, l, x, 1, n) == parsed_as(grouped_left(ts), 5, n));
}

/// How tightly a binary operator binds its operands: `*` and `/` the
/// tightest, then `+` and `-`, then `<`, `<=`, `>` and `>=`, then `==` and
/// `!=`; nothing for a token that is no binary operator.
pub open spec fn binding_power(k: TokenDiscriminant) -> int {
    if is_factor_op(k) {
        4
    } else if is_term_op(k) {
        3
    } else if is_comparison_op(k) {
        2
    } else if is_equality_op(k) {
        1
    } else {
        0
    }
}

/// The level of the parser that a binary operator belongs to, by how
/// tightly it binds.
spec fn op_level(k: TokenDiscriminant) -> Level {
    if is_factor_op(k) {
        Level::Factor
    } else if is_term_op(k) {
        Level::Term
    } else if is_comparison_op(k) {
        Level::Comparison
    } else {
        Level::Equality
    }
}

/// Each binary operator is joined at the level of its binding power.
proof fn lemma_op_level(k: TokenDiscriminant)
    requires
        binding_power(k) > 0,
    ensures
        level_has(op_level(k), k),
        binary_level(op_level(k)),
        level_rank(op_level(k)) == 32 - 3 * binding_power(k),
{
}

/// `a op1 b` at the start, with `op2` binding looser than level `l`: the
/// level parses `a op1 b` and stops before `op2`.
proof fn lemma_prefix(ts: Seq<ScannedTokenV>, l: Level, n: Seq<NoteV>)
    requires
        three_operands(ts),
        binary_level(l),
        binding_power(ts[1].token.kind) > 0,
        binding_power(ts[3].token.kind) > 0,
        level_rank(op_level(ts[1].token.kind)) <= level_rank(l),
        level_rank(op_level(ts[3].token.kind)) > level_rank(l),
    ensures
        p_level(ts, l, 0, n) == parsed_as(
            ExprV::Binary(Box::new(atom_expr(ts[0])), infix(ts[1]), Box::new(atom_expr(ts[2]))),
            3,
            n,
        ),
    decreases level_rank(l),
{
    let k1 = ts[1].token.kind;
    let k3 = ts[3].token.kind;
    let m1 = op_level(k1);
    let m3 = op_level(k3);
    lemma_op_level(k1);
    lemma_op_level(k3);
    let e1 = ExprV::Binary(Box::new(atom_expr(ts[0])), infix(ts[1]), Box::new(atom_expr(ts[2])));
    lemma_at_or_below(l, m3, k3);
    lemma_paren_no_operator(l);
    if l == m1 {
        if l != Level::Factor {
            lemma_at_or_below(next_level(l), m1, k1);
            lemma_at_or_below(next_level(l), m3, k3);
        }
        lemma_operand_atom(ts, l, 0, n);
        lemma_operand_atom(ts, l, 2, n);
        lemma_join_binary(l, atom_expr(ts[0]), ts[1], atom_expr(ts[2]));
        assert(p_level_loop(ts, l, e1, 3, n) == parsed_as(e1, 3, n));
        assert(p_level_loop(ts, l, atom_expr(ts[0]), 1, n) == parsed_as(e1, 3, n));
    } else {
        lemma_prefix(ts, next_level(l), n);
        assert(p_operand(ts, l, 0, n) == parsed_as(e1, 3, n));
        assert(p_level_loop(ts, l, e1, 3, n) == parsed_as(e1, 3, n));
    }
}

/// `b op2 c` from position 2 to the end, with `op2` binding at level `l`
/// or tighter: the level parses all of it.
proof fn lemma_suffix(ts: Seq<ScannedTokenV>, l: Level, n: Seq<NoteV>)
    requires
        three_operands(ts),
        binary_level(l),
        binding_power(ts[3].token.kind) > 0,
        level_rank(op_level(ts[3].token.kind)) <= level_rank(l),
    ensures
        p_level(ts, l, 2, n) == parsed_as(
            ExprV::Binary(Box::new(atom_expr(ts[2])), infix(ts[3]), Box::new(atom_expr(ts[4]))),
            5,
            n,
        ),
    decreases level_rank(l),
{
    let k3 = ts[3].token.kind;
    let m3 = op_level(k3);
    lemma_op_level(k3);
    let e2 = ExprV::Binary(Box::new(atom_expr(ts[2])), infix(ts[3]), Box::new(atom_expr(ts[4])));
    lemma_paren_no_operator(l);
    if l == m3 {
        if l != Level::Factor {
            lemma_at_or_below(next_level(l), m3, k3);
        }
        lemma_operand_atom(ts, l, 2, n);
        lemma_operand_atom(ts, l, 4, n);
        lemma_join_binary(l, atom_expr(ts[2]), ts[3], atom_expr(ts[4]));
        assert(p_level_loop(ts, l, e2, 5, n) == parsed_as(e2, 5, n));
        assert(p_level_loop(ts, l, atom_expr(ts[2]), 3, n) == parsed_as(e2, 5, n));
    } else {
        lemma_suffix(ts, next_level(l), n);
        assert(p_operand(ts, l, 2, n) == parsed_as(e2, 5, n));
        assert(p_level_loop(ts, l, e2, 5, n) == parsed_as(e2, 5, n));
    }
}

/// Binary operators group by how tightly they bind: in `a op1 b op2 c`
/// (single-token operands), the operator that binds tighter takes its
/// neighbours first, and of two that bind alike the left one does. So `*`
/// and `/` bind tighter than `+` and `-`, which bind tighter than `<`, `<=`,
/// `>` and `>=`, which bind tighter than `==` and `!=`: `1 + 2 < 4` is
/// `(1 + 2) < 4`, `1 < 2 + 4` is `1 < (2 + 4)`, and `1 - 2 - 4` is
/// `(1 - 2) - 4`.
pub proof fn law_binary_precedence(ts: Seq<ScannedTokenV>, n: Seq<NoteV>)
    requires
        three_operands(ts),
        binding_power(ts[1].token.kind) > 0,
        binding_power(ts[3].token.kind) > 0,
    ensures
        p_expression(ts, 0, n) == parsed_as(
            if binding_power(ts[1].token.kind) >= binding_power(ts[3].token.kind) {
                grouped_left(ts)
            } else {
                grouped_right(ts)
            },
            5,
            n,
        ),
{
    let k1 = ts[1].token.kind;
    let k3 = ts[3].token.kind;
    let m1 = op_level(k1);
    let m3 = op_level(k3);
    lemma_op_level(k1);
    lemma_op_level(k3);
    let x = atom_expr(ts[0]);
    let z = atom_expr(ts[4]);
    lemma_paren_no_operator(m1);
    lemma_paren_no_operator(m3);
    if binding_power(k1) >= binding_power(k3) {
        if m1 == m3 {
            lemma_same_level(ts, m3, n);
        } else {
            let e1 = ExprV::Binary(Box::new(x), infix(ts[1]), Box::new(atom_expr(ts[2])));
            lemma_prefix(ts, next_level(m3), n);
            lemma_operand_atom(ts, m3, 4, n);
            assert(p_operand(ts, m3, 0, n) == parsed_as(e1, 3, n));
            lemma_join_binary(m3, e1, ts[3], z);
            assert(p_level_loop(ts, m3, grouped_left(ts), 5, n) == parsed_as(
                grouped_left(ts),
                5,
                n,
            ));
            assert(p_level_loop(ts, m3, e1, 3, n) == parsed_as(grouped_left(ts), 5, n));
        }
        lemma_finish(ts, m3, n, grouped_left(ts));
    } else {
        let e2 = ExprV::Binary(Box::new(atom_expr(ts[2])), infix(ts[3]), Box::new(z));
        lemma_at_or_below(next_level(m1), m1, k1);
        lemma_operand_atom(ts, m1, 0, n);
        lemma_suffix(ts, next_level(m1), n);
        assert(p_operand(ts, m1, 2, n) == parsed_as(e2, 5, n));
        lemma_join_binary(m1, x, ts[1], e2);
        assert(p_level_loop(ts, m1, grouped_right(ts), 5, n) == parsed_as(
            grouped_right(ts),
            5,
            n,
        ));
        assert(p_level_loop(ts, m1, x, 1, n) == parsed_as(grouped_right(ts), 5, n));
        lemma_finish(ts, m1, n, grouped_right(ts));
    }
}

/// An operand that the unary level parses, followed by no operator of level
/// `l` or below, is what level `l` parses.
proof fn lemma_level_unit(
    ts: Seq<ScannedTokenV>,
    l: Level,
    p: int,
    q: int,
    n: Seq<NoteV>,
    e: ExprV,
)
    requires
        0 <= p <= q <= ts.len(),
        p_unary(ts, p, n) == parsed_as(e, q, n),
        q < ts.len() ==> !at_or_below(l, ts[q].token.kind),
    ensures
        p_level(ts, l, p, n) == parsed_as(e, q, n),
    decreases level_rank(l),
{
    if l != Level::Factor {
        lemma_level_unit(ts, next_level(l), p, q, n, e);
    }
    assert(p_operand(ts, l, p, n) == parsed_as(e, q, n));
    assert(p_level_loop(ts, l, e, q, n) == parsed_as(e, q, n));
}

/// The unary operator that a `!` or `-` token stands for.
pub open spec fn prefix(k: TokenDiscriminant) -> UnaryOperator {
    if k == TokenDiscriminant::BANG {
        UnaryOperator::BANG
    } else {
        UnaryOperator::MINUS
    }
}

/// A unary operator binds tighter than every binary one: `-a op b` is
/// `(-a) op b`, and `!a op b` is `(!a) op b`.
pub proof fn law_unary_binds_tightest(ts: Seq<ScannedTokenV>, n: Seq<NoteV>)
    requires
        ts.len() == 4,
        ts[0].token.kind == TokenDiscriminant::MINUS || ts[0].token.kind == TokenDiscriminant::BANG,
        is_atom(ts[1].token.kind),
        binding_power(ts[2].token.kind) > 0,
        is_atom(ts[3].token.kind),
    ensures
        p_expression(ts, 0, n) == parsed_as(
            ExprV::Binary(
                Box::new(ExprV::Unary(prefix(ts[0].token.kind), Box::new(atom_expr(ts[1])))),
                infix(ts[2]),
                Box::new(atom_expr(ts[3])),
            ),
            4,
            n,
        ),
{
    let k = ts[2].token.kind;
    let m = op_level(k);
    lemma_op_level(k);
    lemma_paren_no_operator(m);
    let u = ExprV::Unary(prefix(ts[0].token.kind), Box::new(atom_expr(ts[1])));
    let z = atom_expr(ts[3]);
    let whole = ExprV::Binary(Box::new(u), infix(ts[2]), Box::new(z));
    lemma_unary_atom(ts, 1, n);
    assert(p_unary(ts, 0, n) == parsed_as(u, 2, n));
    if m != Level::Factor {
        lemma_at_or_below(next_level(m), m, k);
        lemma_level_unit(ts, next_level(m), 0, 2, n, u);
    }
    assert(p_operand(ts, m, 0, n) == parsed_as(u, 2, n));
    lemma_operand_atom(ts, m, 3, n);
    lemma_join_binary(m, u, ts[2], z);
    assert(p_level_loop(ts, m, whole, 4, n) == parsed_as(whole, 4, n));
    assert(p_level_loop(ts, m, u, 2, n) == parsed_as(whole, 4, n));
    lemma_finish(ts, m, n, whole);
}

/// Assignment groups to the right: `a = b = c` assigns `c` to `b`, and the
/// value of that assignment to `a`.
pub proof fn law_assignment_groups_right(ts: Seq<ScannedTokenV>, n: Seq<NoteV>)
    requires
        ts.len() == 5,
        ts[0].token.kind == TokenDiscriminant::IDENTIFIER,
        ts[1].token.kind == TokenDiscriminant::EQUAL,
        ts[2].token.kind == TokenDiscriminant::IDENTIFIER,
        ts[3].token.kind == TokenDiscriminant::EQUAL,
        is_atom(ts[4].token.kind),
    ensures
        p_expression(ts, 0, n) == parsed_as(
            ExprV::Assign(
                ts[0].token.text,
                Box::new(ExprV::Assign(ts[2].token.text, Box::new(atom_expr(ts[4])))),
            ),
            5,
            n,
        ),
{
    lemma_paren_no_operator(Level::Or);
    lemma_level_atom(ts, Level::Or, 0, n);
    lemma_level_atom(ts, Level::Or, 2, n);
    lemma_level_atom(ts, Level::Or, 4, n);
    let c = atom_expr(ts[4]);
    assert(p_assignment(ts, 4, n) == parsed_as(c, 5, n));
    let inner = ExprV::Assign(ts[2].token.text, Box::new(c));
    assert(p_assignment(ts, 2, n) == parsed_as(inner, 5, n));
    assert(p_assignment(ts, 0, n) == parsed_as(ExprV::Assign(ts[0].token.text, Box::new(inner)), 5, n));
}

} // verus!
