//! The tree-walking interpreter: runs statements against an environment,
//! collecting the lines that the program prints.
use vstd::prelude::*;
use crate::display::error_line;
use crate::environment::{env_define, env_empty, truthy, EnvV, Environment, LoxObject, ValV};
use crate::number::{ask, deterministic, num_fn, Cmp, NumOp, NumOpV, NumOut, NumOutV};
use crate::runtime_error::{ErrV, RuntimeError};
use crate::semantics::{
    binary_value, bind_params, call_value, eval, eval_args, exec_block, exec_stmt, exec_while,
    literal_value, numberless_block, numberless_expr, numberless_stmt, order_of, returned, run_statements,
    unary_value, St,
};
use crate::syntax_trees::{
    ExprV, StmtV, exprs_view, names_view, stmts_view,
    BinaryOperator, Expression, Function, LiteralValue, LogicalOperator, Statement, UnaryOperator,
};
use crate::text::SmartString;
use crate::token::Identifier;

verus! {

/// What a sequence of printed lines is.
pub open spec fn out_view(o: Seq<String>) -> Seq<Seq<char>> {
    o.map_values(|s: String| s@)
}

/// The state that an environment and printed lines make.
pub open spec fn st_of(env: EnvV, out: Seq<String>) -> St {
    St { env, out: out_view(out) }
}

/// What a sequence of values is.
pub open spec fn vals_view(s: Seq<LoxObject>) -> Seq<ValV> {
    s.map_values(|o: LoxObject| o@)
}

/// What the outcome of an evaluation is.
pub open spec fn val_result(r: Result<LoxObject, RuntimeError>) -> Result<ValV, ErrV> {
    match r {
        Ok(v) => Ok(v@),
        Err(e) => Err(e@),
    }
}

/// What the outcome of running a statement is.
pub open spec fn flow_result(r: Result<Option<LoxObject>, RuntimeError>) -> Result<
    Option<ValV>,
    ErrV,
> {
    match r {
        Ok(Some(v)) => Ok(Some(v@)),
        Ok(None) => Ok(None),
        Err(e) => Err(e@),
    }
}

/// What the outcome of running a program is.
pub open spec fn unit_result(r: Result<(), RuntimeError>) -> Result<(), ErrV> {
    match r {
        Ok(()) => Ok(()),
        Err(e) => Err(e@),
    }
}

/// Whether the number operations can take every request.
pub open spec fn total<F: Fn(NumOp) -> NumOut>(num: F) -> bool {
    forall|a: NumOp| call_requires(num, (a,))
}

/// Prints the line that reports a runtime error at a line of the source.
fn report_error(e: &RuntimeError, line: u32, out: &mut Vec<String>)
    ensures
        out_view(final(out)@) == out_view(old(out)@).push(error_line(e@, line as nat)),
{
    let text = e.report(line);
    out.push(text);
    proof {
        assert(out_view(final(out)@) =~= out_view(old(out)@).push(error_line(e@, line as nat)));
    }
}

/// Checks that a call passes as many arguments as the function takes; where
/// it does not, the error is reported at the call's line.
pub fn check_arity(expected: usize, got: usize, line: u32, out: &mut Vec<String>) -> (r: Result<
    (),
    RuntimeError,
>)
    ensures
        expected == got ==> r is Ok && final(out)@ == old(out)@,
        expected != got ==> (r matches Err(x) && x@ == ErrV::Arity(expected, got)),
        expected != got ==> out_view(final(out)@) == out_view(old(out)@).push(
            error_line(ErrV::Arity(expected, got), line as nat),
        ),
{
    if expected == got {
        Ok(())
    } else {
        let x = RuntimeError::Arity { expected, got };
        report_error(&x, line, out);
        Err(x)
    }
}

impl LoxObject {
    /// Whether the value counts as true: every value but `false` and `nil`
    /// does.
    pub fn truthy(&self) -> (r: bool)
        ensures
            r == truthy(self@),
    {
        !matches!(self, LoxObject::Bool(false) | LoxObject::Nil)
    }

    /// Logical not: `true` of `false` and of `nil`, `false` of every other
    /// value.
    pub fn not(self) -> (r: Result<LoxObject, RuntimeError>)
        ensures
            r matches Ok(b) && b@ == ValV::Bool(!truthy(self@)),
    {
        Ok(
            LoxObject::Bool(
                match self {
                    LoxObject::Bool(b) => !b,
                    LoxObject::Nil => true,
                    _ => false,
                },
            ),
        )
    }
}

/// A number that the number operations answer, as a value.
fn number<F: Fn(NumOp) -> NumOut>(num: &F, op: NumOp) -> (r: Result<LoxObject, RuntimeError>)
    requires
        total(*num),
    ensures
        deterministic(*num) ==> val_result(r) == crate::semantics::number_value(num_fn(*num), op@),
{
    match ask(num, op) {
        NumOut::Number(x) => Ok(LoxObject::Float(x)),
        _ => Err(RuntimeError::InvalidOperand),
    }
}

/// The value of a literal.
pub fn literal<F: Fn(NumOp) -> NumOut>(value: &LiteralValue, num: &F) -> (r: Result<
    LoxObject,
    RuntimeError,
>)
    requires
        total(*num),
    ensures
        deterministic(*num) ==> val_result(r) == literal_value(num_fn(*num), value@),
        !(value@ is Float) ==> val_result(r) == literal_value(num_fn(*num), value@),
{
    match value {
        LiteralValue::Float(lexeme) => number(num, NumOp::Parse(lexeme.copy())),
        LiteralValue::String(s) => Ok(LoxObject::String(s.copy())),
        LiteralValue::Bool(b) => Ok(LoxObject::Bool(*b)),
        LiteralValue::Nil => Ok(LoxObject::Nil),
    }
}

/// What a unary operator gives of a value.
pub fn unary<F: Fn(NumOp) -> NumOut>(op: UnaryOperator, v: LoxObject, num: &F) -> (r: Result<
    LoxObject,
    RuntimeError,
>)
    requires
        total(*num),
    ensures
        deterministic(*num) ==> val_result(r) == unary_value(num_fn(*num), op, v@),
        op == UnaryOperator::BANG ==> val_result(r) == unary_value(num_fn(*num), op, v@),
{
    match op {
        UnaryOperator::BANG => v.not(),
        UnaryOperator::MINUS => match v {
            LoxObject::Float(x) => number(num, NumOp::Negate(x)),
            _ => Err(RuntimeError::InvalidOperand),
        },
    }
}

/// How two values compare: only two numbers that are ordered do.
fn order<F: Fn(NumOp) -> NumOut>(l: &LoxObject, r: &LoxObject, num: &F) -> (o: Option<Cmp>)
    requires
        total(*num),
    ensures
        deterministic(*num) ==> o == order_of(num_fn(*num), l@, r@),
{
    match (l, r) {
        (LoxObject::Float(a), LoxObject::Float(b)) => match ask(num, NumOp::Compare(*a, *b)) {
            NumOut::Order(o) => o,
            _ => None,
        },
        _ => None,
    }
}

/// What a binary operator gives of two values.
pub fn binary<F: Fn(NumOp) -> NumOut>(
    op: BinaryOperator,
    l: LoxObject,
    r: LoxObject,
    num: &F,
) -> (res: Result<LoxObject, RuntimeError>)
    requires
        total(*num),
    ensures
        deterministic(*num) ==> val_result(res) == binary_value(num_fn(*num), op, l@, r@),
{
    match op {
        BinaryOperator::PLUS(_) => match (l, r) {
            (LoxObject::Float(a), LoxObject::Float(b)) => number(num, NumOp::Add(a, b)),
            (LoxObject::String(a), LoxObject::String(b)) => Ok(
                LoxObject::String(SmartString::concat(&a, &b)),
            ),
            _ => Err(RuntimeError::InvalidOperand),
        },
        BinaryOperator::MINUS(_) => match (l, r) {
            (LoxObject::Float(a), LoxObject::Float(b)) => number(num, NumOp::Subtract(a, b)),
            _ => Err(RuntimeError::InvalidOperand),
        },
        BinaryOperator::STAR(_) => match (l, r) {
            (LoxObject::Float(a), LoxObject::Float(b)) => number(num, NumOp::Multiply(a, b)),
            _ => Err(RuntimeError::InvalidOperand),
        },
        BinaryOperator::SLASH(_) => match (l, r) {
            (LoxObject::Float(a), LoxObject::Float(b)) => number(num, NumOp::Divide(a, b)),
            _ => Err(RuntimeError::InvalidOperand),
        },
        _ => {
            let o = order(&l, &r, num);
            match o {
                None => Err(RuntimeError::InvalidOperand),
                Some(c) => Ok(
                    LoxObject::Bool(
                        match op {
                            BinaryOperator::GREATER(_) => c == Cmp::Greater,
                            BinaryOperator::GREATEREQUAL(_) => c != Cmp::Less,
                            BinaryOperator::LESS(_) => c == Cmp::Less,
                            BinaryOperator::LESSEQUAL(_) => c != Cmp::Greater,
                            BinaryOperator::EQUALEQUAL(_) => c == Cmp::Equal,
                            _ => c != Cmp::Equal,
                        },
                    ),
                ),
            }
        },
    }
}

/// Defines each parameter, in order, as the argument in its place.
fn bind(env: &mut Environment, params: &Vec<Identifier>, args: &Vec<LoxObject>)
    requires
        params@.len() == args@.len(),
    ensures
        final(env)@ == bind_params(old(env)@, names_view(params@), vals_view(args@)),
{
    let mut i: usize = 0;
    while i < params.len()
        invariant
            i <= params@.len(),
            params@.len() == args@.len(),
            env@ == bind_params(
                old(env)@,
                names_view(params@.take(i as int)),
                vals_view(args@.take(i as int)),
            ),
        decreases params.len() - i,
    {
        let v = args[i].copy();
        env.define(params[i].0.as_str(), Some(v));
        proof {
            let p = names_view(params@.take(i + 1));
            let a = vals_view(args@.take(i + 1));
            assert(p.drop_last() =~= names_view(params@.take(i as int)));
            assert(a.drop_last() =~= vals_view(args@.take(i as int)));
            assert(p.last() == params@[i as int]@);
            assert(a.last() == args@[i as int]@);
        }
        i = i + 1;
    }
    proof {
        assert(params@.take(params@.len() as int) =~= params@);
        assert(args@.take(args@.len() as int) =~= args@);
    }
}

/// Evaluates an expression.
pub fn evaluate<F: Fn(NumOp) -> NumOut>(
    e: &Expression,
    env: &mut Environment,
    out: &mut Vec<String>,
    fuel: u64,
    num: &F,
) -> (r: Result<LoxObject, RuntimeError>)
    requires
        total(*num),
    ensures
        (deterministic(*num) || numberless_expr(e@)) ==> (st_of(final(env)@, final(out)@), val_result(r)) == eval(
            num_fn(*num),
            fuel as nat,
            e@,
            st_of(old(env)@, old(out)@),
        ),
    decreases fuel, 1nat, e, 1nat,
{
    match e {
        Expression::Binary { .. } => handle_binary(e, env, out, fuel, num),
        Expression::Logical { .. } => evaluate_logical(e, env, out, fuel, num),
        Expression::Grouping(inner) => evaluate(inner, env, out, fuel, num),
        Expression::Literal(value) => literal(value, num),
        Expression::Call { .. } => evaluate_call(e, env, out, fuel, num),
        Expression::Unary { operator, inner } => match evaluate(inner, env, out, fuel, num) {
            Ok(v) => unary(*operator, v, num),
            Err(x) => Err(x),
        },
        Expression::Variable { name, line } => handle_variable(name, *line, env, out),
        Expression::Assign { name, value } => match evaluate(value, env, out, fuel, num) {
            Ok(v) => match env.assign(name.as_str(), v.copy()) {
                Ok(()) => Ok(v),
                Err(x) => Err(x),
            },
            Err(x) => Err(x),
        },
    }
}

/// Reads a variable: `nil` where it is bound to nothing yet; where it is
/// not bound, the error is reported at the line it is read on.
fn handle_variable(key: &SmartString, line: u32, env: &Environment, out: &mut Vec<String>) -> (r:
    Result<LoxObject, RuntimeError>)
    ensures
        (st_of(env@, final(out)@), val_result(r)) == match crate::environment::env_get(env@, key@) {
            Ok(Some(v)) => (st_of(env@, old(out)@), Ok(v)),
            Ok(None) => (st_of(env@, old(out)@), Ok(ValV::Nil)),
            Err(x) => (crate::semantics::report(st_of(env@, old(out)@), x, line as nat), Err(x)),
        },
{
    match env.get(key.as_str()) {
        Ok(Some(v)) => Ok(v),
        Ok(None) => Ok(LoxObject::Nil),
        Err(x) => {
            report_error(&x, line, out);
            Err(x)
        },
    }
}

fn handle_binary<F: Fn(NumOp) -> NumOut>(
    e: &Expression,
    env: &mut Environment,
    out: &mut Vec<String>,
    fuel: u64,
    num: &F,
) -> (r: Result<LoxObject, RuntimeError>)
    requires
        total(*num),
        e is Binary,
    ensures
        deterministic(*num) ==> (st_of(final(env)@, final(out)@), val_result(r)) == eval(
            num_fn(*num),
            fuel as nat,
            e@,
            st_of(old(env)@, old(out)@),
        ),
    decreases fuel, 1nat, e, 0nat,
{
    match e {
        Expression::Binary { left, operator, right } => {
            let a = match evaluate(left, env, out, fuel, num) {
                Ok(a) => a,
                Err(x) => return Err(x),
            };
            let b = match evaluate(right, env, out, fuel, num) {
                Ok(b) => b,
                Err(x) => return Err(x),
            };
            match binary(*operator, a, b, num) {
                Ok(v) => Ok(v),
                Err(x) => {
                    report_error(&x, operator.line(), out);
                    Err(x)
                },
            }
        },
        _ => Err(RuntimeError::InvalidOperand),
    }
}

fn evaluate_logical<F: Fn(NumOp) -> NumOut>(
    e: &Expression,
    env: &mut Environment,
    out: &mut Vec<String>,
    fuel: u64,
    num: &F,
) -> (r: Result<LoxObject, RuntimeError>)
    requires
        total(*num),
        e is Logical,
    ensures
        (deterministic(*num) || numberless_expr(e@)) ==> (st_of(final(env)@, final(out)@), val_result(r)) == eval(
            num_fn(*num),
            fuel as nat,
            e@,
            st_of(old(env)@, old(out)@),
        ),
    decreases fuel, 1nat, e, 0nat,
{
    match e {
        Expression::Logical { left, operator, right } => {
            let a = match evaluate(left, env, out, fuel, num) {
                Ok(a) => a,
                Err(x) => return Err(x),
            };
            let t = a.truthy();
            if (*operator == LogicalOperator::OR && t) || (*operator == LogicalOperator::AND && !t) {
                Ok(a)
            } else {
                evaluate(right, env, out, fuel, num)
            }
        },
        _ => Err(RuntimeError::InvalidOperand),
    }
}

fn evaluate_call<F: Fn(NumOp) -> NumOut>(
    e: &Expression,
    env: &mut Environment,
    out: &mut Vec<String>,
    fuel: u64,
    num: &F,
) -> (r: Result<LoxObject, RuntimeError>)
    requires
        total(*num),
        e is Call,
    ensures
        deterministic(*num) ==> (st_of(final(env)@, final(out)@), val_result(r)) == eval(
            num_fn(*num),
            fuel as nat,
            e@,
            st_of(old(env)@, old(out)@),
        ),
    decreases fuel, 1nat, e, 0nat,
{
    match e {
        Expression::Call { callee, paren, args } => {
            let c = match evaluate(callee, env, out, fuel, num) {
                Ok(c) => c,
                Err(x) => return Err(x),
            };
            let vs = match evaluate_args(args, env, out, fuel, num) {
                Ok(vs) => vs,
                Err(x) => return Err(x),
            };
            call(c, paren.line, vs, env, out, fuel, num)
        },
        _ => Err(RuntimeError::InvalidOperand),
    }
}

/// Evaluates call arguments, from the first to the last.
fn evaluate_args<F: Fn(NumOp) -> NumOut>(
    args: &Vec<Expression>,
    env: &mut Environment,
    out: &mut Vec<String>,
    fuel: u64,
    num: &F,
) -> (r: Result<Vec<LoxObject>, RuntimeError>)
    requires
        total(*num),
    ensures
        deterministic(*num) ==> (st_of(final(env)@, final(out)@), match r {
            Ok(vs) => Ok(vals_view(vs@)),
            Err(x) => Err(x@),
        }) == eval_args(num_fn(*num), fuel as nat, exprs_view(args@), st_of(old(env)@, old(out)@)),
    decreases fuel, 1nat, args, 0nat,
{
    let ghost nf = num_fn(*num);
    let ghost st0 = st_of(env@, out@);
    let ghost ev = exprs_view(args@);
    let mut vs: Vec<LoxObject> = Vec::new();
    let mut i: usize = 0;
    proof {
        lemma_exprs_view_index(args@);
        assert(ev.take(0) =~= Seq::<ExprV>::empty());
        assert(vals_view(vs@) =~= Seq::<ValV>::empty());
    }
    while i < args.len()
        invariant
            i <= args@.len(),
            ev == exprs_view(args@),
            st0 == st_of(old(env)@, old(out)@),
            ev.len() == args@.len(),
            forall|j: int| 0 <= j < args@.len() ==> #[trigger] ev[j] == args@[j]@,
            total(*num),
            nf == num_fn(*num),
            deterministic(*num) ==> eval_args(nf, fuel as nat, ev.take(i as int), st0) == (
                st_of(env@, out@),
                Ok::<Seq<ValV>, ErrV>(vals_view(vs@)),
            ),
        decreases args.len() - i,
    {
        proof {
            assert(ev.take(i + 1).drop_last() =~= ev.take(i as int));
            assert(ev.take(i + 1).last() == args@[i as int]@);
        }
        let v = match evaluate(&args[i], env, out, fuel, num) {
            Ok(v) => v,
            Err(x) => {
                proof {
                    if deterministic(*num) {
                        lemma_args_prefix_err(nf, fuel as nat, ev, st0, i + 1);
                    }
                }
                return Err(x);
            },
        };
        let ghost before = vs@;
        vs.push(v);
        proof {
            assert(vals_view(vs@) =~= vals_view(before).push(v@));
        }
        i = i + 1;
    }
    proof {
        assert(ev.take(ev.len() as int) =~= ev);
    }
    Ok(vs)
}

/// Calls a value with arguments, at a line of the source.
pub fn call<F: Fn(NumOp) -> NumOut>(
    callee: LoxObject,
    line: u32,
    args: Vec<LoxObject>,
    env: &mut Environment,
    out: &mut Vec<String>,
    fuel: u64,
    num: &F,
) -> (r: Result<LoxObject, RuntimeError>)
    requires
        total(*num),
    ensures
        deterministic(*num) ==> (st_of(final(env)@, final(out)@), val_result(r)) == call_value(
            num_fn(*num),
            fuel as nat,
            callee@,
            line as nat,
            vals_view(args@),
            st_of(old(env)@, old(out)@),
        ),
    decreases fuel, 0nat, callee, 0nat,
{
    match callee {
        LoxObject::Function(f) => {
            if let Err(x) = check_arity(f.params.len(), args.len(), line, out) {
                return Err(x);
            }
            if fuel == 0 {
                return Err(RuntimeError::OutOfFuel);
            }
            env.add_scope();
            bind(env, &f.params, &args);
            match execute_block(&f.body, env, out, fuel - 1, num) {
                Err(x) => Err(x),
                Ok(rv) => {
                    env.leave_scope();
                    match rv {
                        Some(v) => Ok(v),
                        None => Ok(LoxObject::Nil),
                    }
                },
            }
        },
        LoxObject::Closure { declaration, env: kept } => {
            if let Err(x) = check_arity(declaration.params.len(), args.len(), line, out) {
                return Err(x);
            }
            if fuel == 0 {
                return Err(RuntimeError::OutOfFuel);
            }
            let mut closure_env = kept;
            closure_env.add_scope();
            bind(&mut closure_env, &declaration.params, &args);
            match execute_block(&declaration.body, &mut closure_env, out, fuel - 1, num) {
                Err(x) => Err(x),
                Ok(rv) => match rv {
                    Some(v) => Ok(v),
                    None => Ok(LoxObject::Nil),
                },
            }
        },
        _ => {
            report_error(&RuntimeError::NotCallable, line, out);
            Err(RuntimeError::NotCallable)
        },
    }
}

/// Runs a statement; the outcome is the value returned, where a `return`
/// ran.
pub fn execute<F: Fn(NumOp) -> NumOut>(
    s: &Statement,
    env: &mut Environment,
    out: &mut Vec<String>,
    fuel: u64,
    num: &F,
) -> (r: Result<Option<LoxObject>, RuntimeError>)
    requires
        total(*num),
    ensures
        (deterministic(*num) || numberless_stmt(s@)) ==> (st_of(final(env)@, final(out)@), flow_result(r)) == exec_stmt(
            num_fn(*num),
            fuel as nat,
            s@,
            st_of(old(env)@, old(out)@),
        ),
    decreases fuel, 3nat, s, 1nat,
{
    match s {
        Statement::Expression(e) => match evaluate(e, env, out, fuel, num) {
            Ok(_) => Ok(None),
            Err(x) => Err(x),
        },
        Statement::Print(e) => match evaluate(e, env, out, fuel, num) {
            Ok(v) => {
                let text = v.text(num);
                let ghost before = out@;
                out.push(text);
                proof {
                    assert(out_view(out@) =~= out_view(before).push(text@));
                }
                Ok(None)
            },
            Err(x) => Err(x),
        },
        Statement::Var { name, initializer } => match initializer {
            None => {
                env.define(name.as_str(), None);
                Ok(None)
            },
            Some(i) => match evaluate(i, env, out, fuel, num) {
                Ok(v) => {
                    env.define(name.as_str(), Some(v));
                    Ok(None)
                },
                Err(x) => Err(x),
            },
        },
        Statement::While { condition, body } => execute_while(condition, body, env, out, fuel, num),
        Statement::Function(f) => {
            new_function(f, env);
            Ok(None)
        },
        Statement::If { .. } => execute_if(s, env, out, fuel, num),
        Statement::Block(b) => {
            env.add_scope();
            match execute_block(b, env, out, fuel, num) {
                Err(x) => Err(x),
                Ok(rv) => {
                    env.leave_scope();
                    Ok(rv)
                },
            }
        },
        Statement::Return { token: _, value } => match value {
            None => Ok(Some(LoxObject::Nil)),
            Some(e) => match evaluate(e, env, out, fuel, num) {
                Ok(v) => Ok(Some(v)),
                Err(x) => Err(x),
            },
        },
    }
}

/// Defines a declared function: a plain function in the global scope, a
/// closure that keeps a copy of the environment elsewhere.
fn new_function(function: &Function, env: &mut Environment)
    ensures
        final(env)@ == env_define(
            old(env)@,
            function@.name,
            Some(
                if old(env)@.scopes.len() == 0 {
                    ValV::Function(function@)
                } else {
                    ValV::Closure(function@, old(env)@)
                },
            ),
        ),
{
    let object = if env.global() {
        LoxObject::Function(function.copy())
    } else {
        LoxObject::Closure { declaration: function.copy(), env: env.as_closure() }
    };
    env.define(function.name.0.as_str(), Some(object));
}

fn execute_if<F: Fn(NumOp) -> NumOut>(
    s: &Statement,
    env: &mut Environment,
    out: &mut Vec<String>,
    fuel: u64,
    num: &F,
) -> (r: Result<Option<LoxObject>, RuntimeError>)
    requires
        total(*num),
        s is If,
    ensures
        (deterministic(*num) || numberless_stmt(s@)) ==> (st_of(final(env)@, final(out)@), flow_result(r)) == exec_stmt(
            num_fn(*num),
            fuel as nat,
            s@,
            st_of(old(env)@, old(out)@),
        ),
    decreases fuel, 3nat, s, 0nat,
{
    match s {
        Statement::If { condition, then, else_case } => {
            let v = match evaluate(condition, env, out, fuel, num) {
                Ok(v) => v,
                Err(x) => return Err(x),
            };
            if v.truthy() {
                execute(then, env, out, fuel, num)
            } else {
                match else_case {
                    Some(e) => execute(e, env, out, fuel, num),
                    None => Ok(None),
                }
            }
        },
        _ => Ok(None),
    }
}

/// Runs a `while` loop; each iteration spends a unit of fuel.
fn execute_while<F: Fn(NumOp) -> NumOut>(
    condition: &Expression,
    body: &Statement,
    env: &mut Environment,
    out: &mut Vec<String>,
    fuel: u64,
    num: &F,
) -> (r: Result<Option<LoxObject>, RuntimeError>)
    requires
        total(*num),
    ensures
        (deterministic(*num) || (numberless_expr(condition@) && numberless_stmt(body@))) ==> (
            st_of(final(env)@, final(out)@),
            flow_result(r),
        ) == exec_while(
            num_fn(*num),
            fuel as nat,
            condition@,
            body@,
            st_of(old(env)@, old(out)@),
        ),
    decreases fuel, 2nat, condition, 0nat,
{
    let ghost nf = num_fn(*num);
    let ghost g = deterministic(*num) || (numberless_expr(condition@) && numberless_stmt(body@));
    let ghost whole = exec_while(nf, fuel as nat, condition@, body@, st_of(env@, out@));
    let mut f: u64 = fuel;
    loop
        invariant
            f <= fuel,
            total(*num),
            nf == num_fn(*num),
            g == (deterministic(*num) || (numberless_expr(condition@) && numberless_stmt(body@))),
            whole == exec_while(nf, fuel as nat, condition@, body@, st_of(old(env)@, old(out)@)),
            g ==> whole == exec_while(
                nf,
                f as nat,
                condition@,
                body@,
                st_of(env@, out@),
            ),
        decreases f,
    {
        let v = match evaluate(condition, env, out, f, num) {
            Ok(v) => v,
            Err(x) => return Err(x),
        };
        if !v.truthy() {
            return Ok(None);
        }
        if f == 0 {
            return Err(RuntimeError::OutOfFuel);
        }
        match execute(body, env, out, f - 1, num) {
            Err(x) => return Err(x),
            Ok(Some(rv)) => return Ok(Some(rv)),
            Ok(None) => {},
        }
        f = f - 1;
    }
}

/// Runs statements in order, until one returns a value or fails.
pub fn execute_block<F: Fn(NumOp) -> NumOut>(
    b: &Vec<Statement>,
    env: &mut Environment,
    out: &mut Vec<String>,
    fuel: u64,
    num: &F,
) -> (r: Result<Option<LoxObject>, RuntimeError>)
    requires
        total(*num),
    ensures
        (deterministic(*num) || numberless_block(stmts_view(b@))) ==> (
            st_of(final(env)@, final(out)@),
            flow_result(r),
        ) == exec_block(
            num_fn(*num),
            fuel as nat,
            stmts_view(b@),
            st_of(old(env)@, old(out)@),
        ),
    decreases fuel, 3nat, b, 0nat,
{
    let ghost nf = num_fn(*num);
    let ghost st0 = st_of(env@, out@);
    let ghost sv = stmts_view(b@);
    let ghost g = deterministic(*num) || numberless_block(sv);
    let mut i: usize = 0;
    proof {
        lemma_stmts_view_index(b@);
        assert(sv.take(0) =~= Seq::<StmtV>::empty());
    }
    while i < b.len()
        invariant
            i <= b@.len(),
            sv == stmts_view(b@),
            st0 == st_of(old(env)@, old(out)@),
            sv.len() == b@.len(),
            forall|j: int| 0 <= j < b@.len() ==> #[trigger] sv[j] == b@[j]@,
            total(*num),
            nf == num_fn(*num),
            g == (deterministic(*num) || numberless_block(sv)),
            g ==> exec_block(nf, fuel as nat, sv.take(i as int), st0) == (
                st_of(env@, out@),
                Ok::<Option<ValV>, ErrV>(None),
            ),
        decreases b.len() - i,
    {
        proof {
            assert(sv.take(i + 1).drop_last() =~= sv.take(i as int));
            assert(sv.take(i + 1).last() == b@[i as int]@);
        }
        match execute(&b[i], env, out, fuel, num) {
            Err(x) => {
                proof {
                    if g {
                        lemma_block_prefix_stops(nf, fuel as nat, sv, st0, i + 1);
                    }
                }
                return Err(x);
            },
            Ok(Some(v)) => {
                proof {
                    if g {
                        lemma_block_prefix_stops(nf, fuel as nat, sv, st0, i + 1);
                    }
                }
                return Ok(Some(v));
            },
            Ok(None) => {},
        }
        i = i + 1;
    }
    proof {
        assert(sv.take(sv.len() as int) =~= sv);
    }
    Ok(None)
}

proof fn lemma_exprs_view_index(s: Seq<Expression>)
    ensures
        exprs_view(s).len() == s.len(),
        forall|i: int| 0 <= i < s.len() ==> #[trigger] exprs_view(s)[i] == s[i]@,
    decreases s.len(),
{
    if s.len() > 0 {
        lemma_exprs_view_index(s.drop_last());
    }
}

proof fn lemma_stmts_view_index(s: Seq<Statement>)
    ensures
        stmts_view(s).len() == s.len(),
        forall|i: int| 0 <= i < s.len() ==> #[trigger] stmts_view(s)[i] == s[i]@,
    decreases s.len(),
{
    if s.len() > 0 {
        lemma_stmts_view_index(s.drop_last());
    }
}

/// Where the arguments up to `n` fail, all of them do, at the same state.
proof fn lemma_args_prefix_err(
    nf: spec_fn(NumOpV) -> NumOutV,
    fuel: nat,
    s: Seq<ExprV>,
    st: St,
    n: int,
)
    requires
        0 <= n <= s.len(),
        eval_args(nf, fuel, s.take(n), st).1 is Err,
    ensures
        eval_args(nf, fuel, s, st) == eval_args(nf, fuel, s.take(n), st),
    decreases s.len() - n,
{
    if n < s.len() {
        assert(s.take(n + 1).drop_last() =~= s.take(n));
        lemma_args_prefix_err(nf, fuel, s, st, n + 1);
    } else {
        assert(s.take(n) =~= s);
    }
}

/// Where the statements up to `n` fail or return, all of them do, at the
/// same state.
proof fn lemma_block_prefix_stops(
    nf: spec_fn(NumOpV) -> NumOutV,
    fuel: nat,
    s: Seq<StmtV>,
    st: St,
    n: int,
)
    requires
        0 <= n <= s.len(),
        !(exec_block(nf, fuel, s.take(n), st).1 matches Ok(None)),
    ensures
        exec_block(nf, fuel, s, st) == exec_block(nf, fuel, s.take(n), st),
    decreases s.len() - n,
{
    if n < s.len() {
        assert(s.take(n + 1).drop_last() =~= s.take(n));
        lemma_block_prefix_stops(nf, fuel, s, st, n + 1);
    } else {
        assert(s.take(n) =~= s);
    }
}

/// Runs a program: its statements in order, until one fails.
pub fn interpret<F: Fn(NumOp) -> NumOut>(
    statements: &Vec<Statement>,
    env: &mut Environment,
    out: &mut Vec<String>,
    fuel: u64,
    num: &F,
) -> (r: Result<(), RuntimeError>)
    requires
        total(*num),
    ensures
        (deterministic(*num) || numberless_block(stmts_view(statements@))) ==> (
            st_of(final(env)@, final(out)@),
            unit_result(r),
        ) == run_statements(
            num_fn(*num),
            fuel as nat,
            stmts_view(statements@),
            st_of(old(env)@, old(out)@),
        ),
{
    let ghost nf = num_fn(*num);
    let ghost st0 = st_of(env@, out@);
    let ghost sv = stmts_view(statements@);
    let ghost g = deterministic(*num) || numberless_block(sv);
    let mut i: usize = 0;
    proof {
        lemma_stmts_view_index(statements@);
        assert(sv.take(0) =~= Seq::<StmtV>::empty());
    }
    while i < statements.len()
        invariant
            i <= statements@.len(),
            sv == stmts_view(statements@),
            st0 == st_of(old(env)@, old(out)@),
            sv.len() == statements@.len(),
            forall|j: int| 0 <= j < statements@.len() ==> #[trigger] sv[j] == statements@[j]@,
            total(*num),
            nf == num_fn(*num),
            g == (deterministic(*num) || numberless_block(sv)),
            g ==> run_statements(nf, fuel as nat, sv.take(i as int), st0) == (
                st_of(env@, out@),
                Ok::<(), ErrV>(()),
            ),
        decreases statements.len() - i,
    {
        proof {
            assert(sv.take(i + 1).drop_last() =~= sv.take(i as int));
            assert(sv.take(i + 1).last() == statements@[i as int]@);
        }
        match execute(&statements[i], env, out, fuel, num) {
            Err(x) => {
                proof {
                    if g {
                        lemma_program_prefix_err(nf, fuel as nat, sv, st0, i + 1);
                    }
                }
                return Err(x);
            },
            Ok(_) => {},
        }
        i = i + 1;
    }
    proof {
        assert(sv.take(sv.len() as int) =~= sv);
    }
    Ok(())
}

/// Where the statements up to `n` fail, the program does, at the same
/// state.
proof fn lemma_program_prefix_err(
    nf: spec_fn(NumOpV) -> NumOutV,
    fuel: nat,
    s: Seq<StmtV>,
    st: St,
    n: int,
)
    requires
        0 <= n <= s.len(),
        run_statements(nf, fuel, s.take(n), st).1 is Err,
    ensures
        run_statements(nf, fuel, s, st) == run_statements(nf, fuel, s.take(n), st),
    decreases s.len() - n,
{
    if n < s.len() {
        assert(s.take(n + 1).drop_last() =~= s.take(n));
        lemma_program_prefix_err(nf, fuel, s, st, n + 1);
    } else {
        assert(s.take(n) =~= s);
    }
}

/// An interpreter: the environment that its programs run in, and the lines
/// they have printed.
pub struct Interpreter {
    pub environment: Environment,
    pub output: Vec<String>,
}

impl Interpreter {
    /// An interpreter with an empty environment that has printed nothing.
    pub fn new() -> (r: Interpreter)
        ensures
            r.environment@ == env_empty(),
            r.output@.len() == 0,
    {
        Interpreter { environment: Environment::new(), output: Vec::new() }
    }

    /// Runs a program (see `interpret`).
    pub fn interpret<F: Fn(NumOp) -> NumOut>(
        &mut self,
        statements: &Vec<Statement>,
        fuel: u64,
        num: &F,
    ) -> (r: Result<(), RuntimeError>)
        requires
            total(*num),
        ensures
            (deterministic(*num) || numberless_block(stmts_view(statements@))) ==> (
                st_of(final(self).environment@, final(self).output@),
                unit_result(r),
            ) == run_statements(
                num_fn(*num),
                fuel as nat,
                stmts_view(statements@),
                st_of(old(self).environment@, old(self).output@),
            ),
    {
        interpret(statements, &mut self.environment, &mut self.output, fuel, num)
    }

    /// Evaluates an expression (see `evaluate`).
    pub fn evaluate<F: Fn(NumOp) -> NumOut>(&mut self, e: &Expression, fuel: u64, num: &F) -> (r:
        Result<LoxObject, RuntimeError>)
        requires
            total(*num),
        ensures
            (deterministic(*num) || numberless_expr(e@)) ==> (
                st_of(final(self).environment@, final(self).output@),
                val_result(r),
            ) == eval(
                num_fn(*num),
                fuel as nat,
                e@,
                st_of(old(self).environment@, old(self).output@),
            ),
    {
        evaluate(e, &mut self.environment, &mut self.output, fuel, num)
    }
}

} // verus!
