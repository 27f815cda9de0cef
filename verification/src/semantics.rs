//! What running a Lox program does: the meaning of expressions and
//! statements, as functions from a state (the environment and the lines
//! printed so far) to a state and an outcome.
//!
//! Each function takes `nf`, what the number operations answer, and `fuel`:
//! every loop iteration and every function call spends one unit of it, and a
//! program that has none left where it needs some ends in `OutOfFuel`.
use vstd::prelude::*;
use crate::display::{error_line, value_text};
use crate::environment::{
    env_add_scope, env_assign, env_define, env_get, env_remove_scope, truthy, EnvV, ValV,
};
use crate::number::{Cmp, NumOpV, NumOutV};
use crate::runtime_error::ErrV;
use crate::syntax_trees::{
    BinaryOperator, ExprV, FunV, LitV, LogicalOperator, StmtV, UnaryOperator,
};

verus! {

/// The state of a running program: its environment, and the lines it has
/// printed.
pub struct St {
    pub env: EnvV,
    pub out: Seq<Seq<char>>,
}

/// The state with another environment.
pub open spec fn with_env(st: St, env: EnvV) -> St {
    St { env, out: st.out }
}

/// The state once a line is printed.
pub open spec fn printed(st: St, line: Seq<char>) -> St {
    St { env: st.env, out: st.out.push(line) }
}

/// The state once a runtime error at a line of the source is reported.
pub open spec fn report(st: St, e: ErrV, line: nat) -> St {
    printed(st, error_line(e, line))
}

/// A number that the number operations answer, as a value.
pub open spec fn number_value(nf: spec_fn(NumOpV) -> NumOutV, op: NumOpV) -> Result<ValV, ErrV> {
    match nf(op) {
        NumOutV::Number(x) => Ok(ValV::Float(x)),
        _ => Err(ErrV::InvalidOperand),
    }
}

/// The value of a literal.
pub open spec fn literal_value(nf: spec_fn(NumOpV) -> NumOutV, l: LitV) -> Result<ValV, ErrV> {
    match l {
        LitV::Float(lexeme) => number_value(nf, NumOpV::Parse(lexeme)),
        LitV::String(s) => Ok(ValV::String(s)),
        LitV::Bool(b) => Ok(ValV::Bool(b)),
        LitV::Nil => Ok(ValV::Nil),
    }
}

/// How two values compare: only two numbers that are ordered do.
pub open spec fn order_of(nf: spec_fn(NumOpV) -> NumOutV, l: ValV, r: ValV) -> Option<Cmp> {
    match (l, r) {
        (ValV::Float(a), ValV::Float(b)) => match nf(NumOpV::Compare(a, b)) {
            NumOutV::Order(o) => o,
            _ => None,
        },
        _ => None,
    }
}

/// A comparison's answer, where the operands compare.
pub open spec fn compared(o: Option<Cmp>, holds: spec_fn(Cmp) -> bool) -> Result<ValV, ErrV> {
    match o {
        Some(c) => Ok(ValV::Bool(holds(c))),
        None => Err(ErrV::InvalidOperand),
    }
}

/// What a binary operator gives of two values: arithmetic on numbers, `+`
/// also on strings, and comparison (equality too) only of ordered numbers.
pub open spec fn binary_value(
    nf: spec_fn(NumOpV) -> NumOutV,
    op: BinaryOperator,
    l: ValV,
    r: ValV,
) -> Result<ValV, ErrV> {
    let o = order_of(nf, l, r);
    match op {
        BinaryOperator::PLUS(_) => match (l, r) {
            (ValV::Float(a), ValV::Float(b)) => number_value(nf, NumOpV::Add(a, b)),
            (ValV::String(a), ValV::String(b)) => Ok(ValV::String(a + b)),
            _ => Err(ErrV::InvalidOperand),
        },
        BinaryOperator::MINUS(_) => match (l, r) {
            (ValV::Float(a), ValV::Float(b)) => number_value(nf, NumOpV::Subtract(a, b)),
            _ => Err(ErrV::InvalidOperand),
        },
        BinaryOperator::STAR(_) => match (l, r) {
            (ValV::Float(a), ValV::Float(b)) => number_value(nf, NumOpV::Multiply(a, b)),
            _ => Err(ErrV::InvalidOperand),
        },
        BinaryOperator::SLASH(_) => match (l, r) {
            (ValV::Float(a), ValV::Float(b)) => number_value(nf, NumOpV::Divide(a, b)),
            _ => Err(ErrV::InvalidOperand),
        },
        BinaryOperator::GREATER(_) => compared(o, |c: Cmp| c == Cmp::Greater),
        BinaryOperator::GREATEREQUAL(_) => compared(o, |c: Cmp| c != Cmp::Less),
        BinaryOperator::LESS(_) => compared(o, |c: Cmp| c == Cmp::Less),
        BinaryOperator::LESSEQUAL(_) => compared(o, |c: Cmp| c != Cmp::Greater),
        BinaryOperator::EQUALEQUAL(_) => compared(o, |c: Cmp| c == Cmp::Equal),
        BinaryOperator::BANGEQUAL(_) => compared(o, |c: Cmp| c != Cmp::Equal),
    }
}

/// What a unary operator gives of a value: `!` negates truthiness, where a
/// value other than a boolean or `nil` counts as true; `-` negates a number.
pub open spec fn unary_value(nf: spec_fn(NumOpV) -> NumOutV, op: UnaryOperator, v: ValV) -> Result<
    ValV,
    ErrV,
> {
    match op {
        UnaryOperator::BANG => Ok(
            ValV::Bool(
                match v {
                    ValV::Bool(b) => !b,
                    ValV::Nil => true,
                    _ => false,
                },
            ),
        ),
        UnaryOperator::MINUS => match v {
            ValV::Float(x) => number_value(nf, NumOpV::Negate(x)),
            _ => Err(ErrV::InvalidOperand),
        },
    }
}

/// The environment once each parameter is defined, in order, as the
/// argument in its place.
pub open spec fn bind_params(env: EnvV, params: Seq<Seq<char>>, args: Seq<ValV>) -> EnvV
    decreases params.len(),
{
    if params.len() == 0 || args.len() == 0 {
        env
    } else {
        env_define(
            bind_params(env, params.drop_last(), args.drop_last()),
            params.last(),
            Some(args.last()),
        )
    }
}

/// What a call gives back: the value returned, `nil` where none was.
pub open spec fn returned(rv: Option<ValV>) -> ValV {
    match rv {
        Some(v) => v,
        None => ValV::Nil,
    }
}

/// Evaluating an expression.
pub open spec fn eval(nf: spec_fn(NumOpV) -> NumOutV, fuel: nat, e: ExprV, st: St) -> (St, Result<
    ValV,
    ErrV,
>)
    decreases fuel, 1nat, e,
{
    match e {
        ExprV::Binary(l, op, r) => {
            let (s1, a) = eval(nf, fuel, *l, st);
            match a {
                Err(x) => (s1, Err(x)),
                Ok(a) => {
                    let (s2, b) = eval(nf, fuel, *r, s1);
                    match b {
                        Err(x) => (s2, Err(x)),
                        Ok(b) => match binary_value(nf, op, a, b) {
                            Ok(v) => (s2, Ok(v)),
                            Err(x) => (report(s2, x, op.spec_line() as nat), Err(x)),
                        },
                    }
                },
            }
        },
        ExprV::Logical(l, op, r) => {
            let (s1, a) = eval(nf, fuel, *l, st);
            match a {
                Err(x) => (s1, Err(x)),
                Ok(a) => if (op == LogicalOperator::OR && truthy(a)) || (op == LogicalOperator::AND
                    && !truthy(a)) {
                    (s1, Ok(a))
                } else {
                    eval(nf, fuel, *r, s1)
                },
            }
        },
        ExprV::Grouping(i) => eval(nf, fuel, *i, st),
        ExprV::Literal(l) => (st, literal_value(nf, l)),
        ExprV::Call(callee, paren, args) => {
            let (s1, c) = eval(nf, fuel, *callee, st);
            match c {
                Err(x) => (s1, Err(x)),
                Ok(c) => {
                    let (s2, vs) = eval_args(nf, fuel, args, s1);
                    match vs {
                        Err(x) => (s2, Err(x)),
                        Ok(vs) => call_value(nf, fuel, c, paren.line, vs, s2),
                    }
                },
            }
        },
        ExprV::Unary(op, i) => {
            let (s1, a) = eval(nf, fuel, *i, st);
            match a {
                Err(x) => (s1, Err(x)),
                Ok(a) => (s1, unary_value(nf, op, a)),
            }
        },
        ExprV::Variable(name, line) => match env_get(st.env, name) {
            Ok(Some(v)) => (st, Ok(v)),
            Ok(None) => (st, Ok(ValV::Nil)),
            Err(x) => (report(st, x, line), Err(x)),
        },
        ExprV::Assign(name, value) => {
            let (s1, a) = eval(nf, fuel, *value, st);
            match a {
                Err(x) => (s1, Err(x)),
                Ok(v) => {
                    let (env, r) = env_assign(s1.env, name, v);
                    (
                        with_env(s1, env),
                        match r {
                            Ok(()) => Ok(v),
                            Err(x) => Err(x),
                        },
                    )
                },
            }
        },
    }
}

/// Evaluating call arguments, from the first to the last.
pub open spec fn eval_args(
    nf: spec_fn(NumOpV) -> NumOutV,
    fuel: nat,
    args: Seq<ExprV>,
    st: St,
) -> (St, Result<Seq<ValV>, ErrV>)
    decreases fuel, 1nat, args,
{
    if args.len() == 0 {
        (st, Ok(Seq::empty()))
    } else {
        let (s1, r) = eval_args(nf, fuel, args.drop_last(), st);
        match r {
            Err(x) => (s1, Err(x)),
            Ok(vs) => {
                let (s2, a) = eval(nf, fuel, args.last(), s1);
                match a {
                    Err(x) => (s2, Err(x)),
                    Ok(v) => (s2, Ok(vs.push(v))),
                }
            },
        }
    }
}

/// Calling a value with arguments, at a line of the source. A function
/// declared in the global scope runs in a new scope of the caller's
/// environment; a closure runs in a new scope of the environment it kept,
/// and the caller's environment stays as it was.
pub open spec fn call_value(
    nf: spec_fn(NumOpV) -> NumOutV,
    fuel: nat,
    callee: ValV,
    line: nat,
    args: Seq<ValV>,
    st: St,
) -> (St, Result<ValV, ErrV>)
    decreases fuel, 0nat, callee,
{
    match callee {
        ValV::Function(f) => if f.params.len() != args.len() {
            let x = ErrV::Arity(f.params.len() as usize, args.len() as usize);
            (report(st, x, line), Err(x))
        } else if fuel == 0 {
            (st, Err(ErrV::OutOfFuel))
        } else {
            let env = bind_params(env_add_scope(st.env), f.params, args);
            let (s1, r) = exec_block(nf, (fuel - 1) as nat, f.body, with_env(st, env));
            match r {
                Err(x) => (s1, Err(x)),
                Ok(rv) => (with_env(s1, env_remove_scope(s1.env)), Ok(returned(rv))),
            }
        },
        ValV::Closure(f, cenv) => if f.params.len() != args.len() {
            let x = ErrV::Arity(f.params.len() as usize, args.len() as usize);
            (report(st, x, line), Err(x))
        } else if fuel == 0 {
            (st, Err(ErrV::OutOfFuel))
        } else {
            let env = bind_params(env_add_scope(cenv), f.params, args);
            let (s1, r) = exec_block(nf, (fuel - 1) as nat, f.body, with_env(st, env));
            match r {
                Err(x) => (with_env(s1, st.env), Err(x)),
                Ok(rv) => (with_env(s1, st.env), Ok(returned(rv))),
            }
        },
        _ => (report(st, ErrV::NotCallable, line), Err(ErrV::NotCallable)),
    }
}

/// Whether evaluating an expression asks the number operations nothing: it
/// holds no number literal, no arithmetic, no comparison and no call.
pub open spec fn numberless_expr(e: ExprV) -> bool
    decreases e,
{
    match e {
        ExprV::Logical(l, _, r) => numberless_expr(*l) && numberless_expr(*r),
        ExprV::Grouping(i) => numberless_expr(*i),
        ExprV::Literal(l) => !(l is Float),
        ExprV::Unary(op, i) => op == UnaryOperator::BANG && numberless_expr(*i),
        ExprV::Variable(_, _) => true,
        ExprV::Assign(_, v) => numberless_expr(*v),
        _ => false,
    }
}

/// Whether running a statement asks the number operations nothing: it is
/// made, without `print`, of such expressions.
pub open spec fn numberless_stmt(s: StmtV) -> bool
    decreases s,
{
    match s {
        StmtV::Expression(e) => numberless_expr(e),
        StmtV::Var(_, init) => match init {
            None => true,
            Some(e) => numberless_expr(e),
        },
        StmtV::Function(_) => true,
        StmtV::If(c, t, el) => numberless_expr(c) && numberless_stmt(*t) && match el {
            None => true,
            Some(e) => numberless_stmt(*e),
        },
        StmtV::Return(_, v) => match v {
            None => true,
            Some(e) => numberless_expr(e),
        },
        StmtV::While(c, b) => numberless_expr(c) && numberless_stmt(*b),
        StmtV::Block(b) => forall|i: int| 0 <= i < b.len() ==> numberless_stmt(#[trigger] b[i]),
        StmtV::Print(_) => false,
    }
}

/// Whether running statements asks the number operations nothing.
pub open spec fn numberless_block(b: Seq<StmtV>) -> bool {
    forall|i: int| 0 <= i < b.len() ==> numberless_stmt(#[trigger] b[i])
}

/// Running a `while` loop: each iteration spends a unit of fuel.
pub open spec fn exec_while(
    nf: spec_fn(NumOpV) -> NumOutV,
    fuel: nat,
    c: ExprV,
    body: StmtV,
    st: St,
) -> (St, Result<Option<ValV>, ErrV>)
    decreases fuel, 2nat, c,
{
    let (s1, r) = eval(nf, fuel, c, st);
    match r {
        Err(x) => (s1, Err(x)),
        Ok(v) => if !truthy(v) {
            (s1, Ok(None))
        } else if fuel == 0 {
            (s1, Err(ErrV::OutOfFuel))
        } else {
            let (s2, r2) = exec_stmt(nf, (fuel - 1) as nat, body, s1);
            match r2 {
                Err(x) => (s2, Err(x)),
                Ok(Some(rv)) => (s2, Ok(Some(rv))),
                Ok(None) => exec_while(nf, (fuel - 1) as nat, c, body, s2),
            }
        },
    }
}

/// Running a statement: the outcome is the value returned, where a
/// `return` ran.
pub open spec fn exec_stmt(nf: spec_fn(NumOpV) -> NumOutV, fuel: nat, s: StmtV, st: St) -> (St, Result<
    Option<ValV>,
    ErrV,
>)
    decreases fuel, 3nat, s,
{
    match s {
        StmtV::Expression(e) => {
            let (s1, r) = eval(nf, fuel, e, st);
            match r {
                Err(x) => (s1, Err(x)),
                Ok(_) => (s1, Ok(None)),
            }
        },
        StmtV::Print(e) => {
            let (s1, r) = eval(nf, fuel, e, st);
            match r {
                Err(x) => (s1, Err(x)),
                Ok(v) => (printed(s1, value_text(nf, v)), Ok(None)),
            }
        },
        StmtV::Var(name, init) => match init {
            None => (with_env(st, env_define(st.env, name, None)), Ok(None)),
            Some(e) => {
                let (s1, r) = eval(nf, fuel, e, st);
                match r {
                    Err(x) => (s1, Err(x)),
                    Ok(v) => (with_env(s1, env_define(s1.env, name, Some(v))), Ok(None)),
                }
            },
        },
        StmtV::While(c, b) => exec_while(nf, fuel, c, *b, st),
        StmtV::Function(f) => {
            let obj = if st.env.scopes.len() == 0 {
                ValV::Function(f)
            } else {
                ValV::Closure(f, st.env)
            };
            (with_env(st, env_define(st.env, f.name, Some(obj))), Ok(None))
        },
        StmtV::If(c, t, el) => {
            let (s1, r) = eval(nf, fuel, c, st);
            match r {
                Err(x) => (s1, Err(x)),
                Ok(v) => if truthy(v) {
                    exec_stmt(nf, fuel, *t, s1)
                } else {
                    match el {
                        Some(e) => exec_stmt(nf, fuel, *e, s1),
                        None => (s1, Ok(None)),
                    }
                },
            }
        },
        StmtV::Block(b) => {
            let (s1, r) = exec_block(nf, fuel, b, with_env(st, env_add_scope(st.env)));
            match r {
                Err(x) => (s1, Err(x)),
                Ok(rv) => (with_env(s1, env_remove_scope(s1.env)), Ok(rv)),
            }
        },
        StmtV::Return(_, value) => match value {
            None => (st, Ok(Some(ValV::Nil))),
            Some(e) => {
                let (s1, r) = eval(nf, fuel, e, st);
                match r {
                    Err(x) => (s1, Err(x)),
                    Ok(v) => (s1, Ok(Some(v))),
                }
            },
        },
    }
}

/// Running statements in order, until one returns a value or fails.
pub open spec fn exec_block(
    nf: spec_fn(NumOpV) -> NumOutV,
    fuel: nat,
    b: Seq<StmtV>,
    st: St,
) -> (St, Result<Option<ValV>, ErrV>)
    decreases fuel, 3nat, b,
{
    if b.len() == 0 {
        (st, Ok(None))
    } else {
        let (s1, r) = exec_block(nf, fuel, b.drop_last(), st);
        match r {
            Err(x) => (s1, Err(x)),
            Ok(Some(v)) => (s1, Ok(Some(v))),
            Ok(None) => exec_stmt(nf, fuel, b.last(), s1),
        }
    }
}

/// Running a program: its statements in order, until one fails; a value
/// returned at the top level is dropped.
pub open spec fn run_statements(
    nf: spec_fn(NumOpV) -> NumOutV,
    fuel: nat,
    stmts: Seq<StmtV>,
    st: St,
) -> (St, Result<(), ErrV>)
    decreases stmts.len(),
{
    if stmts.len() == 0 {
        (st, Ok(()))
    } else {
        let (s1, r) = run_statements(nf, fuel, stmts.drop_last(), st);
        match r {
            Err(x) => (s1, Err(x)),
            Ok(()) => {
                let (s2, r2) = exec_stmt(nf, fuel, stmts.last(), s1);
                match r2 {
                    Err(x) => (s2, Err(x)),
                    Ok(_) => (s2, Ok(())),
                }
            },
        }
    }
}

// ---------------------------------------------------------------------------
// Laws of running programs.

/// How deep the scopes of a state are nested.
pub open spec fn depth(st: St) -> nat {
    st.env.scopes.len()
}

/// Whether `later` keeps what `earlier` printed and adds to it only at the
/// end; and, where the step completed, whether the scopes are nested as deep
/// as before.
pub open spec fn keeps(earlier: St, later: St, completed: bool) -> bool {
    &&& earlier.out.is_prefix_of(later.out)
    &&& completed ==> depth(later) == depth(earlier)
}

proof fn lemma_prefix_trans(a: Seq<Seq<char>>, b: Seq<Seq<char>>, c: Seq<Seq<char>>)
    requires
        a.is_prefix_of(b),
        b.is_prefix_of(c),
    ensures
        a.is_prefix_of(c),
{
    assert(a =~= c.subrange(0, a.len() as int));
}

proof fn lemma_prefix_push(a: Seq<Seq<char>>, x: Seq<char>)
    ensures
        a.is_prefix_of(a.push(x)),
{
    assert(a =~= a.push(x).subrange(0, a.len() as int));
}

proof fn lemma_prefix_refl(a: Seq<Seq<char>>)
    ensures
        a.is_prefix_of(a),
{
    assert(a =~= a.subrange(0, a.len() as int));
}

proof fn lemma_scopes_assign_depth(s: Seq<crate::environment::ScopeV>, k: Seq<char>, v: ValV)
    requires
        crate::environment::scopes_assign(s, k, v) is Some,
    ensures
        crate::environment::scopes_assign(s, k, v)->Some_0.len() == s.len(),
    decreases s.len(),
{
    if s.len() > 0 && !s.last().contains_key(k) {
        lemma_scopes_assign_depth(s.drop_last(), k, v);
    }
}

proof fn lemma_assign_depth(e: EnvV, k: Seq<char>, v: ValV)
    ensures
        env_assign(e, k, v).0.scopes.len() == e.scopes.len(),
{
    if e.scopes.len() > 0 {
        if crate::environment::scopes_assign(e.scopes, k, v) is Some {
            lemma_scopes_assign_depth(e.scopes, k, v);
        }
    }
}

proof fn lemma_bind_depth(env: EnvV, params: Seq<Seq<char>>, args: Seq<ValV>)
    ensures
        bind_params(env, params, args).scopes.len() == env.scopes.len(),
    decreases params.len(),
{
    if params.len() > 0 && args.len() > 0 {
        lemma_bind_depth(env, params.drop_last(), args.drop_last());
    }
}

/// Evaluating an expression keeps every line printed before, and, where it
/// completes, leaves the scopes nested as deep as it found them.
pub proof fn law_eval_keeps(nf: spec_fn(NumOpV) -> NumOutV, fuel: nat, e: ExprV, st: St)
    ensures
        keeps(st, eval(nf, fuel, e, st).0, eval(nf, fuel, e, st).1 is Ok),
    decreases fuel, 1nat, e,
{
    lemma_prefix_refl(st.out);
    match e {
        ExprV::Binary(l, op, r) => {
            law_eval_keeps(nf, fuel, *l, st);
            let (s1, a) = eval(nf, fuel, *l, st);
            if a is Ok {
                law_eval_keeps(nf, fuel, *r, s1);
                let (s2, b) = eval(nf, fuel, *r, s1);
                lemma_prefix_trans(st.out, s1.out, s2.out);
                if b is Ok {
                    let x = binary_value(nf, op, a->Ok_0, b->Ok_0);
                    if x is Err {
                        lemma_prefix_push(s2.out, error_line(x->Err_0, op.spec_line() as nat));
                        lemma_prefix_trans(
                            st.out,
                            s2.out,
                            report(s2, x->Err_0, op.spec_line() as nat).out,
                        );
                    }
                }
            }
        },
        ExprV::Logical(l, op, r) => {
            law_eval_keeps(nf, fuel, *l, st);
            let (s1, a) = eval(nf, fuel, *l, st);
            if a is Ok {
                law_eval_keeps(nf, fuel, *r, s1);
                let (s2, b) = eval(nf, fuel, *r, s1);
                lemma_prefix_trans(st.out, s1.out, s2.out);
            }
        },
        ExprV::Grouping(i) => {
            law_eval_keeps(nf, fuel, *i, st);
        },
        ExprV::Literal(_) => {},
        ExprV::Call(callee, paren, args) => {
            law_eval_keeps(nf, fuel, *callee, st);
            let (s1, c) = eval(nf, fuel, *callee, st);
            if c is Ok {
                law_args_keep(nf, fuel, args, s1);
                let (s2, vs) = eval_args(nf, fuel, args, s1);
                lemma_prefix_trans(st.out, s1.out, s2.out);
                if vs is Ok {
                    law_call_keeps(nf, fuel, c->Ok_0, paren.line, vs->Ok_0, s2);
                    lemma_prefix_trans(
                        st.out,
                        s2.out,
                        call_value(nf, fuel, c->Ok_0, paren.line, vs->Ok_0, s2).0.out,
                    );
                }
            }
        },
        ExprV::Unary(op, i) => {
            law_eval_keeps(nf, fuel, *i, st);
        },
        ExprV::Variable(name, line) => {
            if env_get(st.env, name) is Err {
                lemma_prefix_push(st.out, error_line(env_get(st.env, name)->Err_0, line));
            }
        },
        ExprV::Assign(name, value) => {
            law_eval_keeps(nf, fuel, *value, st);
            let (s1, a) = eval(nf, fuel, *value, st);
            if a is Ok {
                lemma_assign_depth(s1.env, name, a->Ok_0);
            }
        },
    }
}

/// Evaluating call arguments keeps every line printed before, and, where it
/// completes, leaves the scopes nested as deep as it found them.
pub proof fn law_args_keep(nf: spec_fn(NumOpV) -> NumOutV, fuel: nat, args: Seq<ExprV>, st: St)
    ensures
        keeps(st, eval_args(nf, fuel, args, st).0, eval_args(nf, fuel, args, st).1 is Ok),
    decreases fuel, 1nat, args,
{
    lemma_prefix_refl(st.out);
    if args.len() > 0 {
        law_args_keep(nf, fuel, args.drop_last(), st);
        let (s1, r) = eval_args(nf, fuel, args.drop_last(), st);
        if r is Ok {
            law_eval_keeps(nf, fuel, args.last(), s1);
            let (s2, a) = eval(nf, fuel, args.last(), s1);
            lemma_prefix_trans(st.out, s1.out, s2.out);
        }
    }
}

/// A call keeps every line printed before, and, where it completes, leaves
/// the scopes nested as deep as it found them.
pub proof fn law_call_keeps(
    nf: spec_fn(NumOpV) -> NumOutV,
    fuel: nat,
    callee: ValV,
    line: nat,
    args: Seq<ValV>,
    st: St,
)
    ensures
        keeps(
            st,
            call_value(nf, fuel, callee, line, args, st).0,
            call_value(nf, fuel, callee, line, args, st).1 is Ok,
        ),
    decreases fuel, 0nat, callee,
{
    lemma_prefix_refl(st.out);
    match callee {
        ValV::Function(f) => {
            if f.params.len() != args.len() {
                let x = ErrV::Arity(f.params.len() as usize, args.len() as usize);
                lemma_prefix_push(st.out, error_line(x, line));
            } else if fuel > 0 {
                let env = bind_params(env_add_scope(st.env), f.params, args);
                lemma_bind_depth(env_add_scope(st.env), f.params, args);
                law_block_keeps(nf, (fuel - 1) as nat, f.body, with_env(st, env));
            }
        },
        ValV::Closure(f, cenv) => {
            if f.params.len() != args.len() {
                let x = ErrV::Arity(f.params.len() as usize, args.len() as usize);
                lemma_prefix_push(st.out, error_line(x, line));
            } else if fuel > 0 {
                let env = bind_params(env_add_scope(cenv), f.params, args);
                law_block_keeps(nf, (fuel - 1) as nat, f.body, with_env(st, env));
            }
        },
        _ => {
            lemma_prefix_push(st.out, error_line(ErrV::NotCallable, line));
        },
    }
}

/// A `while` loop keeps every line printed before, and, where it completes,
/// leaves the scopes nested as deep as it found them.
pub proof fn law_while_keeps(
    nf: spec_fn(NumOpV) -> NumOutV,
    fuel: nat,
    c: ExprV,
    body: StmtV,
    st: St,
)
    ensures
        keeps(st, exec_while(nf, fuel, c, body, st).0, exec_while(nf, fuel, c, body, st).1 is Ok),
    decreases fuel, 2nat, c,
{
    law_eval_keeps(nf, fuel, c, st);
    let (s1, r) = eval(nf, fuel, c, st);
    if r is Ok && truthy(r->Ok_0) && fuel > 0 {
        law_stmt_keeps(nf, (fuel - 1) as nat, body, s1);
        let (s2, r2) = exec_stmt(nf, (fuel - 1) as nat, body, s1);
        lemma_prefix_trans(st.out, s1.out, s2.out);
        if r2 matches Ok(None) {
            law_while_keeps(nf, (fuel - 1) as nat, c, body, s2);
            lemma_prefix_trans(
                st.out,
                s2.out,
                exec_while(nf, (fuel - 1) as nat, c, body, s2).0.out,
            );
        }
    }
}

/// Running a statement keeps every line printed before, and, where it
/// completes, leaves the scopes nested as deep as it found them.
pub proof fn law_stmt_keeps(nf: spec_fn(NumOpV) -> NumOutV, fuel: nat, s: StmtV, st: St)
    ensures
        keeps(st, exec_stmt(nf, fuel, s, st).0, exec_stmt(nf, fuel, s, st).1 is Ok),
    decreases fuel, 3nat, s,
{
    lemma_prefix_refl(st.out);
    match s {
        StmtV::Expression(e) => {
            law_eval_keeps(nf, fuel, e, st);
        },
        StmtV::Print(e) => {
            law_eval_keeps(nf, fuel, e, st);
            let (s1, r) = eval(nf, fuel, e, st);
            if r is Ok {
                lemma_prefix_push(s1.out, value_text(nf, r->Ok_0));
                lemma_prefix_trans(st.out, s1.out, printed(s1, value_text(nf, r->Ok_0)).out);
            }
        },
        StmtV::Var(name, init) => {
            match init {
                None => {},
                Some(e) => {
                    law_eval_keeps(nf, fuel, e, st);
                },
            }
        },
        StmtV::While(c, b) => {
            law_while_keeps(nf, fuel, c, *b, st);
        },
        StmtV::Function(f) => {},
        StmtV::If(c, t, el) => {
            law_eval_keeps(nf, fuel, c, st);
            let (s1, r) = eval(nf, fuel, c, st);
            if r is Ok {
                if truthy(r->Ok_0) {
                    law_stmt_keeps(nf, fuel, *t, s1);
                    lemma_prefix_trans(st.out, s1.out, exec_stmt(nf, fuel, *t, s1).0.out);
                } else {
                    match el {
                        Some(e) => {
                            law_stmt_keeps(nf, fuel, *e, s1);
                            lemma_prefix_trans(st.out, s1.out, exec_stmt(nf, fuel, *e, s1).0.out);
                        },
                        None => {},
                    }
                }
            }
        },
        StmtV::Block(b) => {
            law_block_keeps(nf, fuel, b, with_env(st, env_add_scope(st.env)));
        },
        StmtV::Return(_, value) => {
            match value {
                None => {},
                Some(e) => {
                    law_eval_keeps(nf, fuel, e, st);
                },
            }
        },
    }
}

/// Running statements in order keeps every line printed before, and, where
/// they complete, leaves the scopes nested as deep as they found them.
pub proof fn law_block_keeps(nf: spec_fn(NumOpV) -> NumOutV, fuel: nat, b: Seq<StmtV>, st: St)
    ensures
        keeps(st, exec_block(nf, fuel, b, st).0, exec_block(nf, fuel, b, st).1 is Ok),
    decreases fuel, 3nat, b,
{
    lemma_prefix_refl(st.out);
    if b.len() > 0 {
        law_block_keeps(nf, fuel, b.drop_last(), st);
        let (s1, r) = exec_block(nf, fuel, b.drop_last(), st);
        if r matches Ok(None) {
            law_stmt_keeps(nf, fuel, b.last(), s1);
            lemma_prefix_trans(st.out, s1.out, exec_stmt(nf, fuel, b.last(), s1).0.out);
        }
    }
}

/// Calling a closure leaves the caller's environment as it was: the call
/// runs in the environment that the closure kept.
pub proof fn law_closure_keeps_caller_env(
    nf: spec_fn(NumOpV) -> NumOutV,
    fuel: nat,
    f: FunV,
    kept: EnvV,
    line: nat,
    args: Seq<ValV>,
    st: St,
)
    ensures
        call_value(nf, fuel, ValV::Closure(f, kept), line, args, st).0.env == st.env,
{
}

/// A `while` loop evaluates its condition; an error there ends it; a false
/// condition ends it with nothing returned; a true one, with fuel left, runs
/// the body once and then the loop again, unless the body returned a value
/// or failed, which ends the loop with that outcome.
pub proof fn law_while_step(nf: spec_fn(NumOpV) -> NumOutV, fuel: nat, c: ExprV, body: StmtV, st: St)
    ensures
        exec_stmt(nf, fuel, StmtV::While(c, Box::new(body)), st) == ({
            let (s1, r) = eval(nf, fuel, c, st);
            match r {
                Err(x) => (s1, Err(x)),
                Ok(v) => if !truthy(v) {
                    (s1, Ok(None))
                } else if fuel == 0 {
                    (s1, Err(ErrV::OutOfFuel))
                } else {
                    let (s2, r2) = exec_stmt(nf, (fuel - 1) as nat, body, s1);
                    match r2 {
                        Err(x) => (s2, Err(x)),
                        Ok(Some(rv)) => (s2, Ok(Some(rv))),
                        Ok(None) => exec_stmt(
                            nf,
                            (fuel - 1) as nat,
                            StmtV::While(c, Box::new(body)),
                            s2,
                        ),
                    }
                },
            }
        }),
{
    assert(exec_stmt(nf, fuel, StmtV::While(c, Box::new(body)), st) == exec_while(
        nf,
        fuel,
        c,
        body,
        st,
    ));
    let (s1, r) = eval(nf, fuel, c, st);
    if r is Ok && truthy(r->Ok_0) && fuel > 0 {
        let (s2, r2) = exec_stmt(nf, (fuel - 1) as nat, body, s1);
        assert(exec_stmt(nf, (fuel - 1) as nat, StmtV::While(c, Box::new(body)), s2) == exec_while(
            nf,
            (fuel - 1) as nat,
            c,
            body,
            s2,
        ));
    }
}

/// An `if` evaluates its condition once; an error there is the outcome and
/// neither branch runs; otherwise the `then` branch runs where it is true,
/// the `else` branch (if any) where it is false.
pub proof fn law_if_branches(
    nf: spec_fn(NumOpV) -> NumOutV,
    fuel: nat,
    c: ExprV,
    t: StmtV,
    el: Option<StmtV>,
    st: St,
)
    ensures
        exec_stmt(
            nf,
            fuel,
            StmtV::If(
                c,
                Box::new(t),
                match el {
                    Some(e) => Some(Box::new(e)),
                    None => None,
                },
            ),
            st,
        ) == ({
            let (s1, r) = eval(nf, fuel, c, st);
            match r {
                Err(x) => (s1, Err(x)),
                Ok(v) => if truthy(v) {
                    exec_stmt(nf, fuel, t, s1)
                } else {
                    match el {
                        Some(e) => exec_stmt(nf, fuel, e, s1),
                        None => (s1, Ok(None)),
                    }
                },
            }
        }),
{
}

/// `or` with a true left operand, and `and` with a false one, give the left
/// operand's value and do not evaluate the right one; otherwise the right
/// operand is evaluated after the left one and gives the value.
pub proof fn law_logical_short_circuit(
    nf: spec_fn(NumOpV) -> NumOutV,
    fuel: nat,
    l: ExprV,
    op: LogicalOperator,
    r: ExprV,
    st: St,
)
    ensures
        ({
            let (s1, a) = eval(nf, fuel, l, st);
            eval(nf, fuel, ExprV::Logical(Box::new(l), op, Box::new(r)), st) == match a {
                Err(x) => (s1, Err(x)),
                Ok(v) => if (op == LogicalOperator::OR && truthy(v)) || (op
                    == LogicalOperator::AND && !truthy(v)) {
                    (s1, Ok(v))
                } else {
                    eval(nf, fuel, r, s1)
                },
            }
        }),
{
}

/// `!` gives the negation of a value's truthiness, whatever the number
/// operations answer.
pub proof fn law_not_negates_truthiness(nf: spec_fn(NumOpV) -> NumOutV, v: ValV)
    ensures
        unary_value(nf, UnaryOperator::BANG, v) == Ok::<ValV, ErrV>(ValV::Bool(!truthy(v))),
{
}

/// Running two programs one after the other is running the first, and, where
/// it did not fail, the second from where the first left off: a statement
/// after a failed one never runs.
pub proof fn law_run_in_order(
    nf: spec_fn(NumOpV) -> NumOutV,
    fuel: nat,
    a: Seq<StmtV>,
    b: Seq<StmtV>,
    st: St,
)
    ensures
        run_statements(nf, fuel, a + b, st) == ({
            let (s1, r) = run_statements(nf, fuel, a, st);
            match r {
                Err(x) => (s1, Err(x)),
                Ok(()) => run_statements(nf, fuel, b, s1),
            }
        }),
    decreases b.len(),
{
    if b.len() == 0 {
        assert(a + b =~= a);
    } else {
        assert((a + b).drop_last() =~= a + b.drop_last());
        assert((a + b).last() == b.last());
        law_run_in_order(nf, fuel, a, b.drop_last(), st);
    }
}

/// A block that completes leaves its scope: the environment after it is
/// the one its statements left, less the scope it entered, and the scopes
/// are nested as deep as before it.
pub proof fn law_block_leaves_its_scope(
    nf: spec_fn(NumOpV) -> NumOutV,
    fuel: nat,
    b: Seq<StmtV>,
    st: St,
)
    ensures
        exec_stmt(nf, fuel, StmtV::Block(b), st).1 is Ok ==> {
            &&& exec_stmt(nf, fuel, StmtV::Block(b), st).0.env == env_remove_scope(
                exec_block(nf, fuel, b, with_env(st, env_add_scope(st.env))).0.env,
            )
            &&& depth(exec_stmt(nf, fuel, StmtV::Block(b), st).0) == depth(st)
        },
{
    law_stmt_keeps(nf, fuel, StmtV::Block(b), st);
}

// ---------------------------------------------------------------------------
// The names that scopes bind.

/// Whether `later` binds the same names as `earlier` in the global scope and
/// in every nested scope, the scopes being nested as deep.
pub open spec fn same_names(earlier: EnvV, later: EnvV) -> bool {
    &&& later.global.dom() == earlier.global.dom()
    &&& later.scopes.len() == earlier.scopes.len()
    &&& forall|i: int|
        0 <= i < earlier.scopes.len() ==> (#[trigger] later.scopes[i]).dom() == earlier.scopes[i].dom()
}

/// Whether `later` binds the same names as `earlier`, but for the innermost
/// scope, which binds at least the names it bound.
pub open spec fn names_grow_inside(earlier: EnvV, later: EnvV) -> bool {
    &&& later.global.dom() == earlier.global.dom()
    &&& later.scopes.len() == earlier.scopes.len()
    &&& forall|i: int|
        0 <= i < earlier.scopes.len() - 1 ==> (#[trigger] later.scopes[i]).dom()
            == earlier.scopes[i].dom()
    &&& earlier.scopes.len() > 0 ==> earlier.scopes.last().dom().subset_of(
        later.scopes.last().dom(),
    )
}

proof fn lemma_grow_refl(a: EnvV)
    ensures
        names_grow_inside(a, a),
{
}

proof fn lemma_grow_trans(a: EnvV, b: EnvV, c: EnvV)
    requires
        names_grow_inside(a, b),
        names_grow_inside(b, c),
    ensures
        names_grow_inside(a, c),
{
    assert forall|i: int| 0 <= i < a.scopes.len() - 1 implies (#[trigger] c.scopes[i]).dom()
        == a.scopes[i].dom() by {
        assert(c.scopes[i].dom() == b.scopes[i].dom());
        assert(b.scopes[i].dom() == a.scopes[i].dom());
    }
}

proof fn lemma_leave_inner(e: EnvV, x: EnvV)
    requires
        names_grow_inside(env_add_scope(e), x),
    ensures
        same_names(e, env_remove_scope(x)),
        names_grow_inside(e, env_remove_scope(x)),
{
    let a = env_add_scope(e);
    let r = env_remove_scope(x);
    assert forall|i: int| 0 <= i < e.scopes.len() implies (#[trigger] r.scopes[i]).dom()
        == e.scopes[i].dom() by {
        assert(r.scopes[i] == x.scopes[i]);
        assert(x.scopes[i].dom() == a.scopes[i].dom());
        assert(a.scopes[i] == e.scopes[i]);
    }
    if e.scopes.len() > 0 {
        assert(r.scopes.last() == r.scopes[e.scopes.len() - 1]);
    }
}

proof fn lemma_define_grows(e: EnvV, k: Seq<char>, v: Option<ValV>)
    requires
        e.scopes.len() > 0,
    ensures
        names_grow_inside(e, env_define(e, k, v)),
{
    let d = env_define(e, k, v);
    assert forall|i: int| 0 <= i < e.scopes.len() - 1 implies (#[trigger] d.scopes[i]).dom()
        == e.scopes[i].dom() by {
        assert(d.scopes[i] == e.scopes[i]);
    }
}

proof fn lemma_scopes_assign_names(s: Seq<crate::environment::ScopeV>, k: Seq<char>, v: ValV)
    requires
        crate::environment::scopes_assign(s, k, v) is Some,
    ensures
        crate::environment::scopes_assign(s, k, v)->Some_0.len() == s.len(),
        forall|i: int|
            0 <= i < s.len() ==> (#[trigger] crate::environment::scopes_assign(s, k, v)->Some_0[i]).dom()
                == s[i].dom(),
    decreases s.len(),
{
    let t = crate::environment::scopes_assign(s, k, v)->Some_0;
    if s.last().contains_key(k) {
        assert(s.last().insert(k, Some(v)).dom() =~= s.last().dom());
        assert forall|i: int| 0 <= i < s.len() implies (#[trigger] t[i]).dom() == s[i].dom() by {
            if i < s.len() - 1 {
                assert(t[i] == s[i]);
            }
        }
    } else {
        lemma_scopes_assign_names(s.drop_last(), k, v);
        let u = crate::environment::scopes_assign(s.drop_last(), k, v)->Some_0;
        assert forall|i: int| 0 <= i < s.len() implies (#[trigger] t[i]).dom() == s[i].dom() by {
            if i < s.len() - 1 {
                assert(t[i] == u[i]);
                assert(u[i].dom() == s.drop_last()[i].dom());
            }
        }
    }
}

proof fn lemma_assign_grows(e: EnvV, k: Seq<char>, v: ValV)
    requires
        e.scopes.len() > 0,
    ensures
        names_grow_inside(e, env_assign(e, k, v).0),
{
    if crate::environment::scopes_assign(e.scopes, k, v) is Some {
        lemma_scopes_assign_names(e.scopes, k, v);
        let a = env_assign(e, k, v).0;
        assert(a.scopes.last() == a.scopes[e.scopes.len() - 1]);
        assert(a.scopes.last().dom() == e.scopes.last().dom());
    }
}

proof fn lemma_bind_grows(env: EnvV, params: Seq<Seq<char>>, args: Seq<ValV>)
    requires
        env.scopes.len() > 0,
    ensures
        names_grow_inside(env, bind_params(env, params, args)),
    decreases params.len(),
{
    if params.len() == 0 || args.len() == 0 {
        lemma_grow_refl(env);
    } else {
        let p = bind_params(env, params.drop_last(), args.drop_last());
        lemma_bind_grows(env, params.drop_last(), args.drop_last());
        lemma_define_grows(p, params.last(), Some(args.last()));
        lemma_grow_trans(env, p, bind_params(env, params, args));
    }
}

/// Evaluating an expression where a scope is nested, where it completes,
/// leaves every scope binding the names it bound, but for the innermost,
/// which may bind more.
pub proof fn law_eval_names(nf: spec_fn(NumOpV) -> NumOutV, fuel: nat, e: ExprV, st: St)
    requires
        depth(st) > 0,
    ensures
        eval(nf, fuel, e, st).1 is Ok ==> names_grow_inside(st.env, eval(nf, fuel, e, st).0.env),
    decreases fuel, 1nat, e,
{
    lemma_grow_refl(st.env);
    match e {
        ExprV::Binary(l, op, r) => {
            law_eval_names(nf, fuel, *l, st);
            let (s1, a) = eval(nf, fuel, *l, st);
            if a is Ok {
                law_eval_names(nf, fuel, *r, s1);
                let (s2, b) = eval(nf, fuel, *r, s1);
                if b is Ok {
                    lemma_grow_trans(st.env, s1.env, s2.env);
                }
            }
        },
        ExprV::Logical(l, op, r) => {
            law_eval_names(nf, fuel, *l, st);
            let (s1, a) = eval(nf, fuel, *l, st);
            if a is Ok {
                law_eval_names(nf, fuel, *r, s1);
                let (s2, b) = eval(nf, fuel, *r, s1);
                if b is Ok {
                    lemma_grow_trans(st.env, s1.env, s2.env);
                }
            }
        },
        ExprV::Grouping(i) => {
            law_eval_names(nf, fuel, *i, st);
        },
        ExprV::Literal(_) => {},
        ExprV::Call(callee, paren, args) => {
            law_eval_names(nf, fuel, *callee, st);
            let (s1, c) = eval(nf, fuel, *callee, st);
            if c is Ok {
                law_args_names(nf, fuel, args, s1);
                let (s2, vs) = eval_args(nf, fuel, args, s1);
                if vs is Ok {
                    lemma_grow_trans(st.env, s1.env, s2.env);
                    law_call_names(nf, fuel, c->Ok_0, paren.line, vs->Ok_0, s2);
                    let s3 = call_value(nf, fuel, c->Ok_0, paren.line, vs->Ok_0, s2).0;
                    if call_value(nf, fuel, c->Ok_0, paren.line, vs->Ok_0, s2).1 is Ok {
                        lemma_grow_trans(st.env, s2.env, s3.env);
                    }
                }
            }
        },
        ExprV::Unary(op, i) => {
            law_eval_names(nf, fuel, *i, st);
        },
        ExprV::Variable(name, line) => {},
        ExprV::Assign(name, value) => {
            law_eval_names(nf, fuel, *value, st);
            let (s1, a) = eval(nf, fuel, *value, st);
            if a is Ok {
                lemma_assign_grows(s1.env, name, a->Ok_0);
                lemma_grow_trans(st.env, s1.env, env_assign(s1.env, name, a->Ok_0).0);
            }
        },
    }
}

/// Evaluating call arguments where a scope is nested: as `law_eval_names`.
pub proof fn law_args_names(nf: spec_fn(NumOpV) -> NumOutV, fuel: nat, args: Seq<ExprV>, st: St)
    requires
        depth(st) > 0,
    ensures
        eval_args(nf, fuel, args, st).1 is Ok ==> names_grow_inside(
            st.env,
            eval_args(nf, fuel, args, st).0.env,
        ),
    decreases fuel, 1nat, args,
{
    lemma_grow_refl(st.env);
    if args.len() > 0 {
        law_args_names(nf, fuel, args.drop_last(), st);
        let (s1, r) = eval_args(nf, fuel, args.drop_last(), st);
        if r is Ok {
            law_eval_names(nf, fuel, args.last(), s1);
            let (s2, a) = eval(nf, fuel, args.last(), s1);
            if a is Ok {
                lemma_grow_trans(st.env, s1.env, s2.env);
            }
        }
    }
}

/// A call where a scope is nested, where it completes, leaves every scope
/// of the caller binding the names it bound: the callee's own scope is
/// gone.
pub proof fn law_call_names(
    nf: spec_fn(NumOpV) -> NumOutV,
    fuel: nat,
    callee: ValV,
    line: nat,
    args: Seq<ValV>,
    st: St,
)
    requires
        depth(st) > 0,
    ensures
        call_value(nf, fuel, callee, line, args, st).1 is Ok ==> names_grow_inside(
            st.env,
            call_value(nf, fuel, callee, line, args, st).0.env,
        ),
    decreases fuel, 0nat, callee,
{
    lemma_grow_refl(st.env);
    match callee {
        ValV::Function(f) => {
            if f.params.len() == args.len() && fuel > 0 {
                let added = env_add_scope(st.env);
                let env = bind_params(added, f.params, args);
                lemma_bind_grows(added, f.params, args);
                law_block_names(nf, (fuel - 1) as nat, f.body, with_env(st, env));
                let (s1, r) = exec_block(nf, (fuel - 1) as nat, f.body, with_env(st, env));
                if r is Ok {
                    lemma_grow_trans(added, env, s1.env);
                    lemma_leave_inner(st.env, s1.env);
                }
            }
        },
        _ => {},
    }
}

/// A `while` loop where a scope is nested: as `law_stmt_names`.
pub proof fn law_while_names(
    nf: spec_fn(NumOpV) -> NumOutV,
    fuel: nat,
    c: ExprV,
    body: StmtV,
    st: St,
)
    requires
        depth(st) > 0,
    ensures
        exec_while(nf, fuel, c, body, st).1 is Ok ==> names_grow_inside(
            st.env,
            exec_while(nf, fuel, c, body, st).0.env,
        ),
    decreases fuel, 2nat, c,
{
    law_eval_names(nf, fuel, c, st);
    let (s1, r) = eval(nf, fuel, c, st);
    if r is Ok && truthy(r->Ok_0) && fuel > 0 {
        law_stmt_names(nf, (fuel - 1) as nat, body, s1);
        let (s2, r2) = exec_stmt(nf, (fuel - 1) as nat, body, s1);
        if r2 is Ok {
            lemma_grow_trans(st.env, s1.env, s2.env);
        }
        if r2 matches Ok(None) {
            law_while_names(nf, (fuel - 1) as nat, c, body, s2);
            let s3 = exec_while(nf, (fuel - 1) as nat, c, body, s2).0;
            if exec_while(nf, (fuel - 1) as nat, c, body, s2).1 is Ok {
                lemma_grow_trans(st.env, s2.env, s3.env);
            }
        }
    }
}

/// Running a statement where a scope is nested, where it completes, leaves
/// every scope binding the names it bound, but for the innermost, where the
/// statement's declarations go.
pub proof fn law_stmt_names(nf: spec_fn(NumOpV) -> NumOutV, fuel: nat, s: StmtV, st: St)
    requires
        depth(st) > 0,
    ensures
        exec_stmt(nf, fuel, s, st).1 is Ok ==> names_grow_inside(
            st.env,
            exec_stmt(nf, fuel, s, st).0.env,
        ),
    decreases fuel, 3nat, s,
{
    lemma_grow_refl(st.env);
    match s {
        StmtV::Expression(e) => {
            law_eval_names(nf, fuel, e, st);
        },
        StmtV::Print(e) => {
            law_eval_names(nf, fuel, e, st);
        },
        StmtV::Var(name, init) => {
            match init {
                None => {
                    lemma_define_grows(st.env, name, None);
                },
                Some(e) => {
                    law_eval_names(nf, fuel, e, st);
                    let (s1, r) = eval(nf, fuel, e, st);
                    if r is Ok {
                        lemma_define_grows(s1.env, name, Some(r->Ok_0));
                        lemma_grow_trans(
                            st.env,
                            s1.env,
                            env_define(s1.env, name, Some(r->Ok_0)),
                        );
                    }
                },
            }
        },
        StmtV::While(c, b) => {
            law_while_names(nf, fuel, c, *b, st);
        },
        StmtV::Function(f) => {
            let obj = if st.env.scopes.len() == 0 {
                ValV::Function(f)
            } else {
                ValV::Closure(f, st.env)
            };
            lemma_define_grows(st.env, f.name, Some(obj));
        },
        StmtV::If(c, t, el) => {
            law_eval_names(nf, fuel, c, st);
            let (s1, r) = eval(nf, fuel, c, st);
            if r is Ok {
                if truthy(r->Ok_0) {
                    law_stmt_names(nf, fuel, *t, s1);
                    if exec_stmt(nf, fuel, *t, s1).1 is Ok {
                        lemma_grow_trans(st.env, s1.env, exec_stmt(nf, fuel, *t, s1).0.env);
                    }
                } else {
                    match el {
                        Some(e) => {
                            law_stmt_names(nf, fuel, *e, s1);
                            if exec_stmt(nf, fuel, *e, s1).1 is Ok {
                                lemma_grow_trans(
                                    st.env,
                                    s1.env,
                                    exec_stmt(nf, fuel, *e, s1).0.env,
                                );
                            }
                        },
                        None => {},
                    }
                }
            }
        },
        StmtV::Block(b) => {
            law_block_forgets_its_names(nf, fuel, b, st);
        },
        StmtV::Return(_, value) => {
            match value {
                None => {},
                Some(e) => {
                    law_eval_names(nf, fuel, e, st);
                },
            }
        },
    }
}

/// Running statements in order where a scope is nested: as
/// `law_stmt_names`.
pub proof fn law_block_names(nf: spec_fn(NumOpV) -> NumOutV, fuel: nat, b: Seq<StmtV>, st: St)
    requires
        depth(st) > 0,
    ensures
        exec_block(nf, fuel, b, st).1 is Ok ==> names_grow_inside(
            st.env,
            exec_block(nf, fuel, b, st).0.env,
        ),
    decreases fuel, 3nat, b,
{
    lemma_grow_refl(st.env);
    if b.len() > 0 {
        law_block_names(nf, fuel, b.drop_last(), st);
        let (s1, r) = exec_block(nf, fuel, b.drop_last(), st);
        if r matches Ok(None) {
            law_stmt_names(nf, fuel, b.last(), s1);
            if exec_stmt(nf, fuel, b.last(), s1).1 is Ok {
                lemma_grow_trans(st.env, s1.env, exec_stmt(nf, fuel, b.last(), s1).0.env);
            }
        }
    }
}

/// A block that completes leaves every scope binding exactly the names it
/// bound before the block ran: what the block declared is gone with it
/// (what it assigned to outer variables stays).
pub proof fn law_block_forgets_its_names(
    nf: spec_fn(NumOpV) -> NumOutV,
    fuel: nat,
    b: Seq<StmtV>,
    st: St,
)
    ensures
        exec_stmt(nf, fuel, StmtV::Block(b), st).1 is Ok ==> same_names(
            st.env,
            exec_stmt(nf, fuel, StmtV::Block(b), st).0.env,
        ),
        exec_stmt(nf, fuel, StmtV::Block(b), st).1 is Ok ==> names_grow_inside(
            st.env,
            exec_stmt(nf, fuel, StmtV::Block(b), st).0.env,
        ),
    decreases fuel, 3nat, StmtV::Block(b), 0nat,
{
    let inner = with_env(st, env_add_scope(st.env));
    law_block_names(nf, fuel, b, inner);
    let (s1, r) = exec_block(nf, fuel, b, inner);
    if r is Ok {
        lemma_leave_inner(st.env, s1.env);
    }
}

// ---------------------------------------------------------------------------
// Programs free of numbers.

/// An expression free of numbers evaluates alike whatever the number
/// operations answer.
pub proof fn law_numberless_eval(
    nf: spec_fn(NumOpV) -> NumOutV,
    other: spec_fn(NumOpV) -> NumOutV,
    fuel: nat,
    e: ExprV,
    st: St,
)
    requires
        numberless_expr(e),
    ensures
        eval(nf, fuel, e, st) == eval(other, fuel, e, st),
    decreases e,
{
    match e {
        ExprV::Logical(l, op, r) => {
            law_numberless_eval(nf, other, fuel, *l, st);
            let (s1, a) = eval(nf, fuel, *l, st);
            law_numberless_eval(nf, other, fuel, *r, s1);
        },
        ExprV::Grouping(i) => {
            law_numberless_eval(nf, other, fuel, *i, st);
        },
        ExprV::Unary(op, i) => {
            law_numberless_eval(nf, other, fuel, *i, st);
        },
        ExprV::Assign(name, value) => {
            law_numberless_eval(nf, other, fuel, *value, st);
        },
        _ => {},
    }
}

/// A `while` loop free of numbers runs alike whatever the number operations
/// answer.
pub proof fn law_numberless_while(
    nf: spec_fn(NumOpV) -> NumOutV,
    other: spec_fn(NumOpV) -> NumOutV,
    fuel: nat,
    c: ExprV,
    body: StmtV,
    st: St,
)
    requires
        numberless_expr(c),
        numberless_stmt(body),
    ensures
        exec_while(nf, fuel, c, body, st) == exec_while(other, fuel, c, body, st),
    decreases fuel, body, 1nat,
{
    law_numberless_eval(nf, other, fuel, c, st);
    let (s1, r) = eval(nf, fuel, c, st);
    if r is Ok && truthy(r->Ok_0) && fuel > 0 {
        law_numberless_stmt(nf, other, (fuel - 1) as nat, body, s1);
        let (s2, r2) = exec_stmt(nf, (fuel - 1) as nat, body, s1);
        if r2 matches Ok(None) {
            law_numberless_while(nf, other, (fuel - 1) as nat, c, body, s2);
        }
    }
}

/// A statement free of numbers runs alike whatever the number operations
/// answer.
pub proof fn law_numberless_stmt(
    nf: spec_fn(NumOpV) -> NumOutV,
    other: spec_fn(NumOpV) -> NumOutV,
    fuel: nat,
    s: StmtV,
    st: St,
)
    requires
        numberless_stmt(s),
    ensures
        exec_stmt(nf, fuel, s, st) == exec_stmt(other, fuel, s, st),
    decreases fuel, s, 2nat,
{
    match s {
        StmtV::Expression(e) => {
            law_numberless_eval(nf, other, fuel, e, st);
        },
        StmtV::Var(name, init) => {
            match init {
                None => {},
                Some(e) => {
                    law_numberless_eval(nf, other, fuel, e, st);
                },
            }
        },
        StmtV::While(c, b) => {
            law_numberless_while(nf, other, fuel, c, *b, st);
        },
        StmtV::If(c, t, el) => {
            law_numberless_eval(nf, other, fuel, c, st);
            let (s1, r) = eval(nf, fuel, c, st);
            law_numberless_stmt(nf, other, fuel, *t, s1);
            match el {
                Some(e) => {
                    law_numberless_stmt(nf, other, fuel, *e, s1);
                },
                None => {},
            }
        },
        StmtV::Block(b) => {
            law_numberless_block(nf, other, fuel, b, with_env(st, env_add_scope(st.env)));
        },
        StmtV::Return(_, value) => {
            match value {
                None => {},
                Some(e) => {
                    law_numberless_eval(nf, other, fuel, e, st);
                },
            }
        },
        _ => {},
    }
}

/// Statements free of numbers run alike whatever the number operations
/// answer.
pub proof fn law_numberless_block(
    nf: spec_fn(NumOpV) -> NumOutV,
    other: spec_fn(NumOpV) -> NumOutV,
    fuel: nat,
    b: Seq<StmtV>,
    st: St,
)
    requires
        numberless_block(b),
    ensures
        exec_block(nf, fuel, b, st) == exec_block(other, fuel, b, st),
    decreases fuel, b, 0nat,
{
    if b.len() > 0 {
        assert(numberless_block(b.drop_last())) by {
            assert forall|i: int| 0 <= i < b.drop_last().len() implies numberless_stmt(
                #[trigger] b.drop_last()[i],
            ) by {
                assert(b.drop_last()[i] == b[i]);
            }
        }
        law_numberless_block(nf, other, fuel, b.drop_last(), st);
        let (s1, r) = exec_block(nf, fuel, b.drop_last(), st);
        assert(numberless_stmt(b[b.len() - 1]));
        law_numberless_stmt(nf, other, fuel, b.last(), s1);
    }
}

// ---------------------------------------------------------------------------
// Calls, comparisons, assignments and `return`.

proof fn lemma_bind_in_scope(env: EnvV, params: Seq<Seq<char>>, args: Seq<ValV>)
    requires
        env.scopes.len() > 0,
        params.len() == args.len(),
        forall|i: int, j: int| 0 <= i < j < params.len() ==> params[i] != params[j],
    ensures
        bind_params(env, params, args).global == env.global,
        bind_params(env, params, args).scopes.len() == env.scopes.len(),
        bind_params(env, params, args).scopes.drop_last() == env.scopes.drop_last(),
        forall|i: int|
            0 <= i < params.len() ==> {
                &&& #[trigger] bind_params(env, params, args).scopes.last().contains_key(params[i])
                &&& bind_params(env, params, args).scopes.last()[params[i]] == Some(args[i])
            },
        forall|k: Seq<char>|
            !params.contains(k) ==> {
                &&& #[trigger] bind_params(env, params, args).scopes.last().contains_key(k)
                    == env.scopes.last().contains_key(k)
                &&& env.scopes.last().contains_key(k) ==> bind_params(
                    env,
                    params,
                    args,
                ).scopes.last()[k] == env.scopes.last()[k]
            },
    decreases params.len(),
{
    if params.len() > 0 {
        let pp = params.drop_last();
        let pa = args.drop_last();
        lemma_bind_in_scope(env, pp, pa);
        let p = bind_params(env, pp, pa);
        let b = bind_params(env, params, args);
        let last = params.len() - 1;
        assert(b == env_define(p, params.last(), Some(args.last())));
        assert(b.scopes.last() == p.scopes.last().insert(params.last(), Some(args.last())));
        assert(b.scopes.drop_last() =~= p.scopes.drop_last());
        assert forall|i: int| 0 <= i < params.len() implies {
            &&& #[trigger] b.scopes.last().contains_key(params[i])
            &&& b.scopes.last()[params[i]] == Some(args[i])
        } by {
            if i < last {
                assert(pp[i] == params[i]);
                assert(pa[i] == args[i]);
                assert(params[i] != params[last]);
            }
        }
        assert forall|k: Seq<char>| !params.contains(k) implies {
            &&& #[trigger] b.scopes.last().contains_key(k) == env.scopes.last().contains_key(k)
            &&& env.scopes.last().contains_key(k) ==> b.scopes.last()[k] == env.scopes.last()[k]
        } by {
            if pp.contains(k) {
                let j = choose|j: int| 0 <= j < pp.len() && pp[j] == k;
                assert(params[j] == k);
            }
            assert(params[last] != k);
        }
    }
}

/// A call binds its parameters in a new scope, in order: the i-th parameter
/// to the i-th argument, for every i (the parameters' names being distinct).
/// The new scope binds nothing else, and the scopes around it stay as they
/// were.
pub proof fn law_params_bound_in_order(e: EnvV, params: Seq<Seq<char>>, args: Seq<ValV>)
    requires
        params.len() == args.len(),
        forall|i: int, j: int| 0 <= i < j < params.len() ==> params[i] != params[j],
    ensures
        bind_params(env_add_scope(e), params, args).global == e.global,
        bind_params(env_add_scope(e), params, args).scopes.drop_last() == e.scopes,
        bind_params(env_add_scope(e), params, args).scopes.len() == e.scopes.len() + 1,
        bind_params(env_add_scope(e), params, args).scopes.last().dom() == params.to_set(),
        forall|i: int|
            0 <= i < params.len() ==> {
                &&& #[trigger] bind_params(env_add_scope(e), params, args).scopes.last()[params[i]]
                    == Some(args[i])
                &&& env_get(bind_params(env_add_scope(e), params, args), params[i]) == Ok::<
                    Option<ValV>,
                    ErrV,
                >(Some(args[i]))
            },
{
    let a = env_add_scope(e);
    lemma_bind_in_scope(a, params, args);
    let b = bind_params(a, params, args);
    assert(a.scopes.drop_last() =~= e.scopes);
    assert(a.scopes.last() == Map::<Seq<char>, Option<ValV>>::empty());
    assert forall|k: Seq<char>| b.scopes.last().dom().contains(k) <==> params.to_set().contains(
        k,
    ) by {
        if params.contains(k) {
            let i = choose|i: int| 0 <= i < params.len() && params[i] == k;
            assert(b.scopes.last().contains_key(params[i]));
        }
    }
    assert(b.scopes.last().dom() =~= params.to_set());
    assert forall|i: int| 0 <= i < params.len() implies env_get(b, params[i]) == Ok::<
        Option<ValV>,
        ErrV,
    >(Some(args[i])) by {
        assert(b.scopes.last().contains_key(params[i]));
    }
}

/// Whether an operation's outcome is the value `true`.
pub open spec fn is_true(r: Result<ValV, ErrV>) -> bool {
    r == Ok::<ValV, ErrV>(ValV::Bool(true))
}

/// Whether an operation's outcome is a boolean.
pub open spec fn is_bool(r: Result<ValV, ErrV>) -> bool {
    r matches Ok(ValV::Bool(_))
}

/// Comparing two numbers follows the order that the number operations
/// answer: `a > b` exactly when they answer that `a` is greater, `a < b`
/// exactly when less, `a == b` exactly when equal; `a >= b` is `a > b` or
/// `a == b`, `a <= b` is `a < b` or `a == b`, `a != b` is not `a == b`; so
/// exactly one of `<`, `==` and `>` holds, and `a > b` is false of equal
/// numbers.
pub proof fn law_comparisons_follow_the_order(
    nf: spec_fn(NumOpV) -> NumOutV,
    a: u64,
    b: u64,
    c: Cmp,
    line: u32,
)
    requires
        nf(NumOpV::Compare(a, b)) == NumOutV::Order(Some(c)),
    ensures
        ({
            let (x, y) = (ValV::Float(a), ValV::Float(b));
            let gt = binary_value(nf, BinaryOperator::GREATER(line), x, y);
            let ge = binary_value(nf, BinaryOperator::GREATEREQUAL(line), x, y);
            let lt = binary_value(nf, BinaryOperator::LESS(line), x, y);
            let le = binary_value(nf, BinaryOperator::LESSEQUAL(line), x, y);
            let eq = binary_value(nf, BinaryOperator::EQUALEQUAL(line), x, y);
            let ne = binary_value(nf, BinaryOperator::BANGEQUAL(line), x, y);
            &&& is_bool(gt) && is_bool(ge) && is_bool(lt) && is_bool(le) && is_bool(eq) && is_bool(ne)
            &&& is_true(gt) == (c == Cmp::Greater)
            &&& is_true(lt) == (c == Cmp::Less)
            &&& is_true(eq) == (c == Cmp::Equal)
            &&& is_true(ge) == (is_true(gt) || is_true(eq))
            &&& is_true(le) == (is_true(lt) || is_true(eq))
            &&& is_true(ne) == !is_true(eq)
            &&& (is_true(lt) || is_true(eq) || is_true(gt))
            &&& !(is_true(lt) && is_true(eq)) && !(is_true(lt) && is_true(gt)) && !(is_true(eq)
                && is_true(gt))
        }),
{
}

/// Two values compare only where both are numbers that the number
/// operations order: otherwise every comparison fails with
/// `InvalidOperand`.
pub proof fn law_comparisons_need_an_order(
    nf: spec_fn(NumOpV) -> NumOutV,
    x: ValV,
    y: ValV,
    line: u32,
)
    requires
        !(x matches ValV::Float(a) && y matches ValV::Float(b) && nf(NumOpV::Compare(a, b)) matches NumOutV::Order(Some(_))),
    ensures
        binary_value(nf, BinaryOperator::GREATER(line), x, y) == Err::<ValV, ErrV>(
            ErrV::InvalidOperand,
        ),
        binary_value(nf, BinaryOperator::GREATEREQUAL(line), x, y) == Err::<ValV, ErrV>(
            ErrV::InvalidOperand,
        ),
        binary_value(nf, BinaryOperator::LESS(line), x, y) == Err::<ValV, ErrV>(ErrV::InvalidOperand),
        binary_value(nf, BinaryOperator::LESSEQUAL(line), x, y) == Err::<ValV, ErrV>(
            ErrV::InvalidOperand,
        ),
        binary_value(nf, BinaryOperator::EQUALEQUAL(line), x, y) == Err::<ValV, ErrV>(
            ErrV::InvalidOperand,
        ),
        binary_value(nf, BinaryOperator::BANGEQUAL(line), x, y) == Err::<ValV, ErrV>(
            ErrV::InvalidOperand,
        ),
{
}

/// An assignment `x = e` evaluates `e`; where `e` fails, so does the
/// assignment. Where the assignment succeeds, its value is the value of `e`,
/// `x` reads back as that value, and nothing more is printed; it succeeds
/// whenever `e` does and `x` is bound where assignments search.
pub proof fn law_assignment_yields_its_value(
    nf: spec_fn(NumOpV) -> NumOutV,
    fuel: nat,
    x: Seq<char>,
    e: ExprV,
    st: St,
)
    ensures
        ({
            let (s1, a) = eval(nf, fuel, e, st);
            let (s2, r) = eval(nf, fuel, ExprV::Assign(x, Box::new(e)), st);
            &&& a is Err ==> r == a
            &&& r is Ok ==> {
                &&& r == a
                &&& env_get(s2.env, x) == Ok::<Option<ValV>, ErrV>(Some(a->Ok_0))
                &&& s2.out == s1.out
            }
            &&& a is Ok && (if s1.env.scopes.len() == 0 {
                s1.env.global.contains_key(x)
            } else {
                crate::environment::scopes_lookup(s1.env.scopes, x) is Some
            }) ==> r is Ok
        }),
{
    let (s1, a) = eval(nf, fuel, e, st);
    if a is Ok {
        crate::environment::law_assign_succeeds_when_bound(s1.env, x, a->Ok_0);
        if env_assign(s1.env, x, a->Ok_0).1 is Ok {
            crate::environment::law_get_after_assign(s1.env, x, a->Ok_0);
        }
    }
}

/// `return` ends the function it is in: where it completes, its outcome is
/// a value returned (`nil` for a bare `return;`, else the value of its
/// expression), never the plain completion that lets the next statement
/// run.
pub proof fn law_return_returns(
    nf: spec_fn(NumOpV) -> NumOutV,
    fuel: nat,
    keyword: crate::scanner::ScannedTokenV,
    value: Option<ExprV>,
    st: St,
)
    ensures
        exec_stmt(nf, fuel, StmtV::Return(keyword, value), st).1 is Ok ==> exec_stmt(
            nf,
            fuel,
            StmtV::Return(keyword, value),
            st,
        ).1 matches Ok(Some(_)),
        value is None ==> exec_stmt(nf, fuel, StmtV::Return(keyword, value), st) == (
            st,
            Ok::<Option<ValV>, ErrV>(Some(ValV::Nil)),
        ),
        value matches Some(e) ==> ({
            let (s1, r) = eval(nf, fuel, e, st);
            r is Ok ==> exec_stmt(nf, fuel, StmtV::Return(keyword, value), st) == (
                s1,
                Ok::<Option<ValV>, ErrV>(Some(r->Ok_0)),
            )
        }),
{
}

/// Statements after one that returned a value (or failed) do not run: a
/// block that returns or fails within its first statements ends as those
/// statements did, whatever follows them.
pub proof fn law_block_stops_at_return(
    nf: spec_fn(NumOpV) -> NumOutV,
    fuel: nat,
    a: Seq<StmtV>,
    b: Seq<StmtV>,
    st: St,
)
    requires
        !(exec_block(nf, fuel, a, st).1 matches Ok(None)),
    ensures
        exec_block(nf, fuel, a + b, st) == exec_block(nf, fuel, a, st),
    decreases b.len(),
{
    if b.len() == 0 {
        assert(a + b =~= a);
    } else {
        assert((a + b).drop_last() =~= a + b.drop_last());
        law_block_stops_at_return(nf, fuel, a, b.drop_last(), st);
    }
}

/// Arithmetic hands the number operations its operands in order, left
/// then right, and gives what they answer (an answer that is no number
/// fails with `InvalidOperand`); `+` of two strings joins them, the left
/// one first; any other operands fail with `InvalidOperand`.
pub proof fn law_arithmetic_keeps_operand_order(
    nf: spec_fn(NumOpV) -> NumOutV,
    x: ValV,
    y: ValV,
    line: u32,
)
    ensures
        (x is Float && y is Float) ==> {
            &&& binary_value(nf, BinaryOperator::PLUS(line), x, y) == number_value(
                nf,
                NumOpV::Add(x->Float_0, y->Float_0),
            )
            &&& binary_value(nf, BinaryOperator::MINUS(line), x, y) == number_value(
                nf,
                NumOpV::Subtract(x->Float_0, y->Float_0),
            )
            &&& binary_value(nf, BinaryOperator::STAR(line), x, y) == number_value(
                nf,
                NumOpV::Multiply(x->Float_0, y->Float_0),
            )
            &&& binary_value(nf, BinaryOperator::SLASH(line), x, y) == number_value(
                nf,
                NumOpV::Divide(x->Float_0, y->Float_0),
            )
        },
        (x is String && y is String) ==> binary_value(nf, BinaryOperator::PLUS(line), x, y)
            == Ok::<ValV, ErrV>(ValV::String(x->String_0 + y->String_0)),
        !(x is Float && y is Float) ==> {
            &&& binary_value(nf, BinaryOperator::MINUS(line), x, y) == Err::<ValV, ErrV>(
                ErrV::InvalidOperand,
            )
            &&& binary_value(nf, BinaryOperator::STAR(line), x, y) == Err::<ValV, ErrV>(
                ErrV::InvalidOperand,
            )
            &&& binary_value(nf, BinaryOperator::SLASH(line), x, y) == Err::<ValV, ErrV>(
                ErrV::InvalidOperand,
            )
            &&& !(x is String && y is String) ==> binary_value(
                nf,
                BinaryOperator::PLUS(line),
                x,
                y,
            ) == Err::<ValV, ErrV>(ErrV::InvalidOperand)
        },
{
}

} // verus!
