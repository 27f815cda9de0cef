//! A printer of expressions in prefix form, each operation parenthesized with
//! its operator first: `(* (- 1) (group (+ 2 3)))`.
use vstd::prelude::*;
use crate::display::{literal_text};
use crate::number::{deterministic, num_fn, NumOp, NumOpV, NumOut, NumOutV};
use crate::syntax_trees::{
    binary_symbol, exprs_view, logical_symbol, unary_symbol, ExprV, Expression,
};

verus! {

/// The prefix form of an expression.
pub open spec fn ast_text(nf: spec_fn(NumOpV) -> NumOutV, e: ExprV) -> Seq<char>
    decreases e,
{
    match e {
        ExprV::Binary(l, op, r) => "("@ + binary_symbol(op) + " "@ + ast_text(nf, *l) + " "@
            + ast_text(nf, *r) + ")"@,
        ExprV::Logical(l, op, r) => "("@ + logical_symbol(op) + " "@ + ast_text(nf, *l) + " "@
            + ast_text(nf, *r) + ")"@,
        ExprV::Grouping(i) => "(group "@ + ast_text(nf, *i) + ")"@,
        ExprV::Literal(l) => literal_text(nf, l),
        ExprV::Call(callee, _, args) => "(call "@ + ast_text(nf, *callee) + ast_args(nf, args)
            + ")"@,
        ExprV::Unary(op, i) => "("@ + unary_symbol(op) + " "@ + ast_text(nf, *i) + ")"@,
        ExprV::Variable(name, _) => name,
        ExprV::Assign(name, v) => "(= "@ + name + " "@ + ast_text(nf, *v) + ")"@,
    }
}

/// The prefix forms of call arguments, each after a space.
pub open spec fn ast_args(nf: spec_fn(NumOpV) -> NumOutV, s: Seq<ExprV>) -> Seq<char>
    decreases s,
{
    if s.len() == 0 {
        Seq::empty()
    } else {
        ast_args(nf, s.drop_last()) + " "@ + ast_text(nf, s.last())
    }
}

/// Prints expressions in prefix form.
pub struct AstPrinter {}

impl AstPrinter {
    pub fn new() -> (r: Self) {
        AstPrinter {}
    }

    /// The prefix form of an expression.
    pub fn print<F: Fn(NumOp) -> NumOut>(&mut self, expr: Expression, num: &F) -> (r: String)
        requires
            forall|a: NumOp| call_requires(*num, (a,)),
        ensures
            deterministic(*num) ==> r@ == ast_text(num_fn(*num), expr@),
    {
        let mut r = String::new();
        write_ast(&expr, num, &mut r);
        proof {
            if deterministic(*num) {
                assert(r@ =~= ast_text(num_fn(*num), expr@));
            }
        }
        r
    }
}

/// Appends the prefix form of an expression.
pub fn write_ast<F: Fn(NumOp) -> NumOut>(e: &Expression, num: &F, out: &mut String)
    requires
        forall|a: NumOp| call_requires(*num, (a,)),
    ensures
        deterministic(*num) ==> final(out)@ == old(out)@ + ast_text(num_fn(*num), e@),
    decreases e,
{
    let ghost nf = num_fn(*num);
    let ghost start = out@;
    match e {
        Expression::Binary { left, operator, right } => {
            out.append("(");
            out.append(operator.symbol());
            out.append(" ");
            write_ast(left, num, out);
            out.append(" ");
            write_ast(right, num, out);
            out.append(")");
        },
        Expression::Logical { left, operator, right } => {
            out.append("(");
            out.append(operator.symbol());
            out.append(" ");
            write_ast(left, num, out);
            out.append(" ");
            write_ast(right, num, out);
            out.append(")");
        },
        Expression::Grouping(inner) => {
            out.append("(group ");
            write_ast(inner, num, out);
            out.append(")");
        },
        Expression::Literal(value) => value.write_text(num, out),
        Expression::Call { callee, paren: _, args } => {
            out.append("(call ");
            write_ast(callee, num, out);
            write_ast_args(args, num, out);
            out.append(")");
        },
        Expression::Unary { operator, inner } => {
            out.append("(");
            out.append(operator.symbol());
            out.append(" ");
            write_ast(inner, num, out);
            out.append(")");
        },
        Expression::Variable { name, line: _ } => out.append(name.as_str()),
        Expression::Assign { name, value } => {
            out.append("(= ");
            out.append(name.as_str());
            out.append(" ");
            write_ast(value, num, out);
            out.append(")");
        },
    }
    proof {
        if deterministic(*num) {
            assert(out@ =~= start + ast_text(nf, e@));
        }
    }
}

/// Appends the prefix forms of call arguments, each after a space.
pub fn write_ast_args<F: Fn(NumOp) -> NumOut>(args: &Vec<Expression>, num: &F, out: &mut String)
    requires
        forall|a: NumOp| call_requires(*num, (a,)),
    ensures
        deterministic(*num) ==> final(out)@ == old(out)@ + ast_args(num_fn(*num), exprs_view(args@)),
    decreases args,
{
    let ghost nf = num_fn(*num);
    let ghost start = out@;
    let mut i: usize = 0;
    while i < args.len()
        invariant
            i <= args@.len(),
            forall|a: NumOp| call_requires(*num, (a,)),
            nf == num_fn(*num),
            deterministic(*num) ==> out@ == start + ast_args(nf, exprs_view(args@.take(i as int))),
        decreases args.len() - i,
    {
        out.append(" ");
        write_ast(&args[i], num, out);
        proof {
            let t = args@.take(i as int);
            assert(args@.take(i + 1) =~= t.push(args@[i as int]));
            crate::syntax_trees::lemma_exprs_view_push(t, args@[i as int]);
            assert(exprs_view(t).push(args@[i as int]@).drop_last() =~= exprs_view(t));
            if deterministic(*num) {
                assert(out@ =~= start + ast_args(nf, exprs_view(args@.take(i + 1))));
            }
        }
        i = i + 1;
    }
    proof {
        assert(args@.take(args@.len() as int) =~= args@);
    }
}

} // verus!
