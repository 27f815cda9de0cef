//! The text that values, syntax trees and runtime errors are displayed with.
use vstd::prelude::*;
use crate::environment::{LoxObject, ValV};
use crate::number::{ask, deterministic, num_fn, NumOp, NumOpV, NumOut, NumOutV};
use crate::runtime_error::{ErrV, RuntimeError};
use crate::syntax_trees::{
    binary_symbol, logical_symbol, unary_symbol, ExprV, Expression, FunV, Function, LitV,
    LiteralValue, Statement, StmtV, exprs_view, names_view, stmts_view,
};
use crate::token::Identifier;

verus! {

// ---------------------------------------------------------------------------
// Numbers in decimal.

/// The text of a decimal digit.
pub open spec fn digit_text(d: nat) -> Seq<char> {
    if d == 0 {
        "0"@
    } else if d == 1 {
        "1"@
    } else if d == 2 {
        "2"@
    } else if d == 3 {
        "3"@
    } else if d == 4 {
        "4"@
    } else if d == 5 {
        "5"@
    } else if d == 6 {
        "6"@
    } else if d == 7 {
        "7"@
    } else if d == 8 {
        "8"@
    } else {
        "9"@
    }
}

/// A natural number in decimal, without leading zeros.
pub open spec fn decimal(n: nat) -> Seq<char>
    decreases n,
{
    if n < 10 {
        digit_text(n)
    } else {
        decimal(n / 10) + digit_text(n % 10)
    }
}

fn digit_str(d: u64) -> (r: &'static str)
    requires
        d < 10,
    ensures
        r@ == digit_text(d as nat),
{
    if d == 0 {
        "0"
    } else if d == 1 {
        "1"
    } else if d == 2 {
        "2"
    } else if d == 3 {
        "3"
    } else if d == 4 {
        "4"
    } else if d == 5 {
        "5"
    } else if d == 6 {
        "6"
    } else if d == 7 {
        "7"
    } else if d == 8 {
        "8"
    } else {
        "9"
    }
}

/// Appends a number in decimal.
pub fn write_decimal(n: u64, out: &mut String)
    ensures
        final(out)@ == old(out)@ + decimal(n as nat),
    decreases n,
{
    if n >= 10 {
        write_decimal(n / 10, out);
        out.append(digit_str(n % 10));
        proof {
            assert(final(out)@ =~= old(out)@ + decimal(n as nat));
        }
    } else {
        out.append(digit_str(n));
    }
}

// ---------------------------------------------------------------------------
// Runtime errors.

/// The text that a runtime error is displayed with.
pub open spec fn runtime_message(e: ErrV) -> Seq<char> {
    match e {
        ErrV::InvalidOperand => "Operator must be a number."@,
        ErrV::Undefined(name) => "Undefined Variable "@ + name + "."@,
        ErrV::NotCallable => "Can only call functions and classes."@,
        ErrV::Arity(expected, got) => "Expected "@ + decimal(expected as nat) + " Arguments, but got "@
            + decimal(got as nat) + "."@,
        ErrV::OutOfFuel => "Step budget exhausted."@,
    }
}

/// The line that reports a runtime error at a line of the source.
pub open spec fn error_line(e: ErrV, line: nat) -> Seq<char> {
    "Error on line "@ + decimal(line) + ": "@ + runtime_message(e)
}

impl RuntimeError {
    /// Appends the text that the error is displayed with.
    pub fn write_message(&self, out: &mut String)
        ensures
            final(out)@ == old(out)@ + runtime_message(self@),
    {
        match self {
            RuntimeError::InvalidOperand => out.append("Operator must be a number."),
            RuntimeError::Undefined(name) => {
                out.append("Undefined Variable ");
                out.append(name.as_str());
                out.append(".");
            },
            RuntimeError::NotCallable => out.append("Can only call functions and classes."),
            RuntimeError::Arity { expected, got } => {
                out.append("Expected ");
                write_decimal(*expected as u64, out);
                out.append(" Arguments, but got ");
                write_decimal(*got as u64, out);
                out.append(".");
            },
            RuntimeError::OutOfFuel => out.append("Step budget exhausted."),
        }
        proof {
            assert(final(out)@ =~= old(out)@ + runtime_message(self@));
        }
    }

    /// The text that the error is displayed with.
    pub fn message(&self) -> (r: String)
        ensures
            r@ == runtime_message(self@),
    {
        let mut r = String::new();
        self.write_message(&mut r);
        proof {
            assert(r@ =~= runtime_message(self@));
        }
        r
    }

    /// The line that reports the error at a line of the source.
    pub fn report(&self, line: u32) -> (r: String)
        ensures
            r@ == error_line(self@, line as nat),
    {
        let mut r = String::new();
        r.append("Error on line ");
        write_decimal(line as u64, &mut r);
        r.append(": ");
        self.write_message(&mut r);
        proof {
            assert(r@ =~= error_line(self@, line as nat));
        }
        r
    }
}

// ---------------------------------------------------------------------------
// Values and syntax trees.

/// The text that a number is displayed with, as the number operations give it.
pub open spec fn number_text(nf: spec_fn(NumOpV) -> NumOutV, x: u64) -> Seq<char> {
    match nf(NumOpV::Show(x)) {
        NumOutV::Text(t) => t,
        _ => Seq::empty(),
    }
}

/// The text of a boolean.
pub open spec fn bool_text(b: bool) -> Seq<char> {
    if b {
        "true"@
    } else {
        "false"@
    }
}

/// The text that a literal is displayed with: a number by the value its
/// lexeme denotes.
pub open spec fn literal_text(nf: spec_fn(NumOpV) -> NumOutV, l: LitV) -> Seq<char> {
    match l {
        LitV::Float(lexeme) => match nf(NumOpV::Parse(lexeme)) {
            NumOutV::Number(x) => number_text(nf, x),
            _ => Seq::empty(),
        },
        LitV::String(s) => s,
        LitV::Bool(b) => bool_text(b),
        LitV::Nil => "nil"@,
    }
}

/// The text that an expression is displayed with.
pub open spec fn expr_text(nf: spec_fn(NumOpV) -> NumOutV, e: ExprV) -> Seq<char>
    decreases e,
{
    match e {
        ExprV::Binary(l, op, r) => "("@ + expr_text(nf, *l) + binary_symbol(op) + expr_text(nf, *r)
            + ")"@,
        ExprV::Logical(l, op, r) => "("@ + expr_text(nf, *l) + logical_symbol(op) + expr_text(
            nf,
            *r,
        ) + ")"@,
        ExprV::Grouping(i) => "("@ + expr_text(nf, *i) + ")"@,
        ExprV::Literal(l) => literal_text(nf, l),
        ExprV::Call(callee, _, args) => expr_text(nf, *callee) + "("@ + args_text(nf, args) + ")"@,
        ExprV::Unary(op, i) => "("@ + unary_symbol(op) + expr_text(nf, *i) + ")"@,
        ExprV::Variable(name, _) => "("@ + name + ")"@,
        ExprV::Assign(name, v) => "("@ + name + " = "@ + expr_text(nf, *v) + ")"@,
    }
}

/// The text of call arguments: each expression, separated by commas.
pub open spec fn args_text(nf: spec_fn(NumOpV) -> NumOutV, s: Seq<ExprV>) -> Seq<char>
    decreases s,
{
    if s.len() == 0 {
        Seq::empty()
    } else if s.len() == 1 {
        expr_text(nf, s[0])
    } else {
        args_text(nf, s.drop_last()) + ","@ + expr_text(nf, s.last())
    }
}

/// The text of parameter names: each name, separated by `, `, then `)`.
pub open spec fn params_text(p: Seq<Seq<char>>) -> Seq<char>
    decreases p.len(),
{
    if p.len() == 0 {
        ")"@
    } else {
        names_text(p) + ")"@
    }
}

/// Names separated by `, `.
pub open spec fn names_text(p: Seq<Seq<char>>) -> Seq<char>
    decreases p.len(),
{
    if p.len() == 0 {
        Seq::empty()
    } else if p.len() == 1 {
        p[0]
    } else {
        names_text(p.drop_last()) + ", "@ + p.last()
    }
}

/// The text that a statement is displayed with.
pub open spec fn stmt_text(nf: spec_fn(NumOpV) -> NumOutV, s: StmtV) -> Seq<char>
    decreases s,
{
    match s {
        StmtV::Expression(e) => expr_text(nf, e),
        StmtV::Print(e) => "print "@ + expr_text(nf, e),
        StmtV::Var(name, init) => match init {
            Some(i) => "var "@ + name + " = "@ + expr_text(nf, i),
            None => "var "@ + name,
        },
        StmtV::While(c, b) => "while "@ + expr_text(nf, c) + " {"@ + stmt_text(nf, *b) + "}"@,
        StmtV::Function(f) => fun_text(nf, f),
        StmtV::If(c, t, e) => match e {
            Some(e) => "if "@ + expr_text(nf, c) + " {\n"@ + stmt_text(nf, *t) + "\n}else{\n"@
                + stmt_text(nf, *e) + "\n})"@,
            None => "if "@ + expr_text(nf, c) + " {\n"@ + stmt_text(nf, *t) + "\n}"@,
        },
        StmtV::Block(b) => "{"@ + lines_text(nf, b) + "}"@,
        StmtV::Return(_, v) => match v {
            Some(v) => "return "@ + expr_text(nf, v),
            None => "return"@,
        },
    }
}

/// Statements, each followed by a new line.
pub open spec fn lines_text(nf: spec_fn(NumOpV) -> NumOutV, b: Seq<StmtV>) -> Seq<char>
    decreases b,
{
    if b.len() == 0 {
        Seq::empty()
    } else {
        lines_text(nf, b.drop_last()) + stmt_text(nf, b.last()) + "\n"@
    }
}

/// The text that a function declaration is displayed with: its name, its
/// parameters, and its body.
pub open spec fn fun_text(nf: spec_fn(NumOpV) -> NumOutV, f: FunV) -> Seq<char>
    decreases f,
{
    f.name + "("@ + params_text(f.params) + "{"@ + lines_text(nf, f.body) + "}"@
}

/// The text that a value is displayed with, as `print` shows it.
pub open spec fn value_text(nf: spec_fn(NumOpV) -> NumOutV, v: ValV) -> Seq<char> {
    match v {
        ValV::Float(x) => number_text(nf, x),
        ValV::String(s) => s,
        ValV::Bool(b) => bool_text(b),
        ValV::Nil => "nil"@,
        ValV::Function(f) => fun_text(nf, f),
        ValV::Closure(f, _) => fun_text(nf, f),
    }
}

/// Appends the text of a number.
pub fn write_number<F: Fn(NumOp) -> NumOut>(x: u64, num: &F, out: &mut String)
    requires
        forall|a: NumOp| call_requires(*num, (a,)),
    ensures
        deterministic(*num) ==> final(out)@ == old(out)@ + number_text(num_fn(*num), x),
{
    match ask(num, NumOp::Show(x)) {
        NumOut::Text(t) => out.append(t.as_str()),
        _ => {},
    }
    proof {
        if deterministic(*num) {
            assert(final(out)@ =~= old(out)@ + number_text(num_fn(*num), x));
        }
    }
}

/// Appends the text of a boolean.
pub fn write_bool(b: bool, out: &mut String)
    ensures
        final(out)@ == old(out)@ + bool_text(b),
{
    if b {
        out.append("true");
    } else {
        out.append("false");
    }
}

impl LiteralValue {
    /// Appends the text that the literal is displayed with.
    pub fn write_text<F: Fn(NumOp) -> NumOut>(&self, num: &F, out: &mut String)
        requires
            forall|a: NumOp| call_requires(*num, (a,)),
        ensures
            deterministic(*num) ==> final(out)@ == old(out)@ + literal_text(num_fn(*num), self@),
    {
        match self {
            LiteralValue::Float(lexeme) => {
                match ask(num, NumOp::Parse(lexeme.copy())) {
                    NumOut::Number(x) => write_number(x, num, out),
                    _ => {},
                }
                proof {
                    if deterministic(*num) {
                        assert(final(out)@ =~= old(out)@ + literal_text(num_fn(*num), self@));
                    }
                }
            },
            LiteralValue::String(s) => out.append(s.as_str()),
            LiteralValue::Bool(b) => write_bool(*b, out),
            LiteralValue::Nil => out.append("nil"),
        }
    }
}

impl Expression {
    /// Appends the text that the expression is displayed with.
    pub fn write_text<F: Fn(NumOp) -> NumOut>(&self, num: &F, out: &mut String)
        requires
            forall|a: NumOp| call_requires(*num, (a,)),
        ensures
            deterministic(*num) ==> final(out)@ == old(out)@ + expr_text(num_fn(*num), self@),
        decreases self,
    {
        let ghost nf = num_fn(*num);
        match self {
            Expression::Binary { left, operator, right } => {
                out.append("(");
                left.write_text(num, out);
                out.append(operator.symbol());
                right.write_text(num, out);
                out.append(")");
            },
            Expression::Logical { left, operator, right } => {
                out.append("(");
                left.write_text(num, out);
                out.append(operator.symbol());
                right.write_text(num, out);
                out.append(")");
            },
            Expression::Grouping(inner) => {
                out.append("(");
                inner.write_text(num, out);
                out.append(")");
            },
            Expression::Literal(value) => value.write_text(num, out),
            Expression::Call { callee, paren: _, args } => {
                callee.write_text(num, out);
                out.append("(");
                write_args(args, num, out);
                out.append(")");
            },
            Expression::Unary { operator, inner } => {
                out.append("(");
                out.append(operator.symbol());
                inner.write_text(num, out);
                out.append(")");
            },
            Expression::Variable { name, line: _ } => {
                out.append("(");
                out.append(name.as_str());
                out.append(")");
            },
            Expression::Assign { name, value } => {
                out.append("(");
                out.append(name.as_str());
                out.append(" = ");
                value.write_text(num, out);
                out.append(")");
            },
        }
        proof {
            if deterministic(*num) {
                assert(final(out)@ =~= old(out)@ + expr_text(nf, self@));
            }
        }
    }

    /// The text that the expression is displayed with.
    pub fn text<F: Fn(NumOp) -> NumOut>(&self, num: &F) -> (r: String)
        requires
            forall|a: NumOp| call_requires(*num, (a,)),
        ensures
            deterministic(*num) ==> r@ == expr_text(num_fn(*num), self@),
    {
        let mut r = String::new();
        self.write_text(num, &mut r);
        proof {
            if deterministic(*num) {
                assert(r@ =~= expr_text(num_fn(*num), self@));
            }
        }
        r
    }
}

/// Appends the text of call arguments.
pub fn write_args<F: Fn(NumOp) -> NumOut>(args: &Vec<Expression>, num: &F, out: &mut String)
    requires
        forall|a: NumOp| call_requires(*num, (a,)),
    ensures
        deterministic(*num) ==> final(out)@ == old(out)@ + args_text(num_fn(*num), exprs_view(args@)),
    decreases args,
{
    let ghost nf = num_fn(*num);
    let ghost start = out@;
    let mut i: usize = 0;
    while i < args.len()
        invariant
            i <= args.len(),
            forall|a: NumOp| call_requires(*num, (a,)),
            nf == num_fn(*num),
            deterministic(*num) ==> out@ == start + args_text(nf, exprs_view(args@.take(i as int))),
        decreases args.len() - i,
    {
        if i > 0 {
            out.append(",");
        }
        args[i].write_text(num, out);
        proof {
            let t = args@.take(i as int);
            assert(args@.take(i + 1) =~= t.push(args@[i as int]));
            crate::syntax_trees::lemma_exprs_view_len(t);
            crate::syntax_trees::lemma_exprs_view_push(t, args@[i as int]);
            let tv = exprs_view(t).push(args@[i as int]@);
            assert(tv.drop_last() =~= exprs_view(t));
            if deterministic(*num) {
                if i == 0 {
                    assert(out@ =~= start + args_text(nf, tv));
                } else {
                    assert(out@ =~= start + args_text(nf, tv));
                }
            }
        }
        i = i + 1;
    }
    proof {
        assert(args@.take(args.len() as int) =~= args@);
    }
}


impl Statement {
    /// Appends the text that the statement is displayed with.
    pub fn write_text<F: Fn(NumOp) -> NumOut>(&self, num: &F, out: &mut String)
        requires
            forall|a: NumOp| call_requires(*num, (a,)),
        ensures
            deterministic(*num) ==> final(out)@ == old(out)@ + stmt_text(num_fn(*num), self@),
        decreases self,
    {
        let ghost nf = num_fn(*num);
        let ghost start = out@;
        match self {
            Statement::Expression(e) => e.write_text(num, out),
            Statement::Print(e) => {
                out.append("print ");
                e.write_text(num, out);
                proof {
                    if deterministic(*num) {
                        assert(out@ =~= start + stmt_text(nf, self@));
                    }
                }
            },
            Statement::Var { name, initializer } => {
                out.append("var ");
                out.append(name.as_str());
                match initializer {
                    Some(i) => {
                        out.append(" = ");
                        i.write_text(num, out);
                    },
                    None => {},
                }
                proof {
                    if deterministic(*num) {
                        assert(out@ =~= start + stmt_text(nf, self@));
                    }
                }
            },
            Statement::While { condition, body } => {
                out.append("while ");
                condition.write_text(num, out);
                out.append(" {");
                body.write_text(num, out);
                out.append("}");
                proof {
                    if deterministic(*num) {
                        assert(out@ =~= start + stmt_text(nf, self@));
                    }
                }
            },
            Statement::Function(f) => f.write_text(num, out),
            Statement::If { condition, then, else_case } => {
                out.append("if ");
                condition.write_text(num, out);
                out.append(" {\n");
                then.write_text(num, out);
                match else_case {
                    Some(e) => {
                        out.append("\n}else{\n");
                        e.write_text(num, out);
                        out.append("\n})");
                    },
                    None => out.append("\n}"),
                }
                proof {
                    if deterministic(*num) {
                        assert(out@ =~= start + stmt_text(nf, self@));
                    }
                }
            },
            Statement::Block(b) => {
                out.append("{");
                write_lines(b, num, out);
                out.append("}");
                proof {
                    if deterministic(*num) {
                        assert(out@ =~= start + stmt_text(nf, self@));
                    }
                }
            },
            Statement::Return { token: _, value } => {
                match value {
                    Some(v) => {
                        out.append("return ");
                        v.write_text(num, out);
                    },
                    None => out.append("return"),
                }
                proof {
                    if deterministic(*num) {
                        assert(out@ =~= start + stmt_text(nf, self@));
                    }
                }
            },
        }
    }

    /// The text that the statement is displayed with.
    pub fn text<F: Fn(NumOp) -> NumOut>(&self, num: &F) -> (r: String)
        requires
            forall|a: NumOp| call_requires(*num, (a,)),
        ensures
            deterministic(*num) ==> r@ == stmt_text(num_fn(*num), self@),
    {
        let mut r = String::new();
        self.write_text(num, &mut r);
        proof {
            if deterministic(*num) {
                assert(r@ =~= stmt_text(num_fn(*num), self@));
            }
        }
        r
    }
}

/// Appends statements, each followed by a new line.
pub fn write_lines<F: Fn(NumOp) -> NumOut>(b: &Vec<Statement>, num: &F, out: &mut String)
    requires
        forall|a: NumOp| call_requires(*num, (a,)),
    ensures
        deterministic(*num) ==> final(out)@ == old(out)@ + lines_text(num_fn(*num), stmts_view(b@)),
    decreases b,
{
    let ghost nf = num_fn(*num);
    let ghost start = out@;
    let mut i: usize = 0;
    while i < b.len()
        invariant
            i <= b.len(),
            forall|a: NumOp| call_requires(*num, (a,)),
            nf == num_fn(*num),
            deterministic(*num) ==> out@ == start + lines_text(nf, stmts_view(b@.take(i as int))),
        decreases b.len() - i,
    {
        b[i].write_text(num, out);
        out.append("\n");
        proof {
            let t = b@.take(i as int);
            assert(b@.take(i + 1) =~= t.push(b@[i as int]));
            crate::syntax_trees::lemma_stmts_view_push(t, b@[i as int]);
            let tv = stmts_view(t).push(b@[i as int]@);
            assert(tv.drop_last() =~= stmts_view(t));
            if deterministic(*num) {
                assert(out@ =~= start + lines_text(nf, tv));
            }
        }
        i = i + 1;
    }
    proof {
        assert(b@.take(b.len() as int) =~= b@);
    }
}

/// Appends parameter names, separated by `, `, then `)`.
pub fn write_params(p: &Vec<Identifier>, out: &mut String)
    ensures
        final(out)@ == old(out)@ + params_text(names_view(p@)),
{
    let ghost start = out@;
    let mut i: usize = 0;
    while i < p.len()
        invariant
            i <= p.len(),
            out@ == start + names_text(names_view(p@.take(i as int))),
        decreases p.len() - i,
    {
        if i > 0 {
            out.append(", ");
        }
        out.append(p[i].0.as_str());
        proof {
            let t = names_view(p@.take(i as int));
            let u = names_view(p@.take(i + 1));
            assert(u.drop_last() =~= t);
            assert(u.last() == p@[i as int]@);
            assert(out@ =~= start + names_text(u));
        }
        i = i + 1;
    }
    out.append(")");
    proof {
        assert(p@.take(p.len() as int) =~= p@);
        assert(final(out)@ =~= old(out)@ + params_text(names_view(p@)));
    }
}

impl Function {
    /// Appends the text that the declaration is displayed with.
    pub fn write_text<F: Fn(NumOp) -> NumOut>(&self, num: &F, out: &mut String)
        requires
            forall|a: NumOp| call_requires(*num, (a,)),
        ensures
            deterministic(*num) ==> final(out)@ == old(out)@ + fun_text(num_fn(*num), self@),
        decreases self,
    {
        out.append(self.name.0.as_str());
        out.append("(");
        write_params(&self.params, out);
        out.append("{");
        write_lines(&self.body, num, out);
        out.append("}");
        proof {
            if deterministic(*num) {
                assert(final(out)@ =~= old(out)@ + fun_text(num_fn(*num), self@));
            }
        }
    }
}

impl LoxObject {
    /// Appends the text that the value is displayed with.
    pub fn write_text<F: Fn(NumOp) -> NumOut>(&self, num: &F, out: &mut String)
        requires
            forall|a: NumOp| call_requires(*num, (a,)),
        ensures
            deterministic(*num) ==> final(out)@ == old(out)@ + value_text(num_fn(*num), self@),
            (self@ is String || self@ is Bool || self@ is Nil) ==> final(out)@ == old(out)@
                + value_text(num_fn(*num), self@),
    {
        match self {
            LoxObject::Float(x) => write_number(*x, num, out),
            LoxObject::String(s) => out.append(s.as_str()),
            LoxObject::Bool(b) => write_bool(*b, out),
            LoxObject::Nil => out.append("nil"),
            LoxObject::Function(f) => f.write_text(num, out),
            LoxObject::Closure { declaration, env: _ } => declaration.write_text(num, out),
        }
    }

    /// The text that the value is displayed with, as `print` shows it.
    pub fn text<F: Fn(NumOp) -> NumOut>(&self, num: &F) -> (r: String)
        requires
            forall|a: NumOp| call_requires(*num, (a,)),
        ensures
            deterministic(*num) ==> r@ == value_text(num_fn(*num), self@),
            (self@ is String || self@ is Bool || self@ is Nil) ==> r@ == value_text(
                num_fn(*num),
                self@,
            ),
    {
        let mut r = String::new();
        self.write_text(num, &mut r);
        proof {
            if deterministic(*num) || self@ is String || self@ is Bool || self@ is Nil {
                assert(r@ =~= value_text(num_fn(*num), self@));
            }
        }
        r
    }
}

} // verus!
