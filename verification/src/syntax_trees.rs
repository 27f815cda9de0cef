//! The syntax trees that the parser builds and the interpreter runs.
use vstd::prelude::*;
use crate::scanner::{ScannedToken, ScannedTokenV};
use crate::text::SmartString;
use crate::token::{Identifier, Token, TokenDiscriminant};

verus! {

/// The prefix operators.
#[derive(Clone, Copy, Debug, PartialEq, Eq, Structural)]
pub enum UnaryOperator {
    BANG,
    MINUS,
}

/// The infix operators on values, each with the line it stands on.
#[derive(Clone, Copy, Debug, PartialEq, Eq, Structural)]
pub enum BinaryOperator {
    EQUALEQUAL(u32),
    BANGEQUAL(u32),
    GREATER(u32),
    GREATEREQUAL(u32),
    LESS(u32),
    LESSEQUAL(u32),
    PLUS(u32),
    MINUS(u32),
    STAR(u32),
    SLASH(u32),
}

/// The infix operators that decide whether to evaluate their right operand.
#[derive(Clone, Copy, Debug, PartialEq, Eq, Structural)]
pub enum LogicalOperator {
    AND,
    OR,
}

/// The binary operator that a token of the given kind stands for, at a line.
pub open spec fn binary_of(kind: TokenDiscriminant, line: u32) -> Option<BinaryOperator> {
    match kind {
        TokenDiscriminant::EQUALEQUAL => Some(BinaryOperator::EQUALEQUAL(line)),
        TokenDiscriminant::BANGEQUAL => Some(BinaryOperator::BANGEQUAL(line)),
        TokenDiscriminant::GREATER => Some(BinaryOperator::GREATER(line)),
        TokenDiscriminant::GREATEREQUAL => Some(BinaryOperator::GREATEREQUAL(line)),
        TokenDiscriminant::LESS => Some(BinaryOperator::LESS(line)),
        TokenDiscriminant::LESSEQUAL => Some(BinaryOperator::LESSEQUAL(line)),
        TokenDiscriminant::PLUS => Some(BinaryOperator::PLUS(line)),
        TokenDiscriminant::MINUS => Some(BinaryOperator::MINUS(line)),
        TokenDiscriminant::STAR => Some(BinaryOperator::STAR(line)),
        TokenDiscriminant::SLASH => Some(BinaryOperator::SLASH(line)),
        _ => None,
    }
}

/// The logical operator that a token of the given kind stands for.
pub open spec fn logical_of(kind: TokenDiscriminant) -> Option<LogicalOperator> {
    match kind {
        TokenDiscriminant::AND => Some(LogicalOperator::AND),
        TokenDiscriminant::OR => Some(LogicalOperator::OR),
        _ => None,
    }
}

impl BinaryOperator {
    /// The operator that a scanned token stands for, carrying its line.
    pub fn from_token(token: ScannedToken) -> (r: Option<Self>)
        ensures
            r == binary_of(token@.token.kind, token.line),
    {
        let line = token.line;
        match token.type_ {
            Token::EQUALEQUAL => Some(Self::EQUALEQUAL(line)),
            Token::BANGEQUAL => Some(Self::BANGEQUAL(line)),
            Token::GREATER => Some(Self::GREATER(line)),
            Token::GREATEREQUAL => Some(Self::GREATEREQUAL(line)),
            Token::LESS => Some(Self::LESS(line)),
            Token::LESSEQUAL => Some(Self::LESSEQUAL(line)),
            Token::PLUS => Some(Self::PLUS(line)),
            Token::MINUS => Some(Self::MINUS(line)),
            Token::STAR => Some(Self::STAR(line)),
            Token::SLASH => Some(Self::SLASH(line)),
            _ => None,
        }
    }

    /// The line that the operator stands on.
    pub open spec fn spec_line(self) -> u32 {
        match self {
            BinaryOperator::EQUALEQUAL(l) => l,
            BinaryOperator::BANGEQUAL(l) => l,
            BinaryOperator::GREATER(l) => l,
            BinaryOperator::GREATEREQUAL(l) => l,
            BinaryOperator::LESS(l) => l,
            BinaryOperator::LESSEQUAL(l) => l,
            BinaryOperator::PLUS(l) => l,
            BinaryOperator::MINUS(l) => l,
            BinaryOperator::STAR(l) => l,
            BinaryOperator::SLASH(l) => l,
        }
    }

    /// The line that the operator stands on.
    pub fn line(&self) -> (r: u32)
        ensures
            r == self.spec_line(),
    {
        match self {
            BinaryOperator::EQUALEQUAL(l) => *l,
            BinaryOperator::BANGEQUAL(l) => *l,
            BinaryOperator::GREATER(l) => *l,
            BinaryOperator::GREATEREQUAL(l) => *l,
            BinaryOperator::LESS(l) => *l,
            BinaryOperator::LESSEQUAL(l) => *l,
            BinaryOperator::PLUS(l) => *l,
            BinaryOperator::MINUS(l) => *l,
            BinaryOperator::STAR(l) => *l,
            BinaryOperator::SLASH(l) => *l,
        }
    }

    /// The symbol that the operator is displayed with.
    pub fn symbol(&self) -> (r: &'static str)
        ensures
            r@ == binary_symbol(*self),
    {
        match self {
            BinaryOperator::EQUALEQUAL(_) => "==",
            BinaryOperator::BANGEQUAL(_) => "!=",
            BinaryOperator::GREATER(_) => ">",
            BinaryOperator::GREATEREQUAL(_) => ">=",
            BinaryOperator::LESS(_) => "<",
            BinaryOperator::LESSEQUAL(_) => "<=",
            BinaryOperator::PLUS(_) => "+",
            BinaryOperator::MINUS(_) => "-",
            BinaryOperator::STAR(_) => "*",
            BinaryOperator::SLASH(_) => "/",
        }
    }
}

/// The symbol that a binary operator is displayed with.
pub open spec fn binary_symbol(op: BinaryOperator) -> Seq<char> {
    match op {
        BinaryOperator::EQUALEQUAL(_) => "=="@,
        BinaryOperator::BANGEQUAL(_) => "!="@,
        BinaryOperator::GREATER(_) => ">"@,
        BinaryOperator::GREATEREQUAL(_) => ">="@,
        BinaryOperator::LESS(_) => "<"@,
        BinaryOperator::LESSEQUAL(_) => "<="@,
        BinaryOperator::PLUS(_) => "+"@,
        BinaryOperator::MINUS(_) => "-"@,
        BinaryOperator::STAR(_) => "*"@,
        BinaryOperator::SLASH(_) => "/"@,
    }
}

/// The symbol that a unary operator is displayed with.
pub open spec fn unary_symbol(op: UnaryOperator) -> Seq<char> {
    match op {
        UnaryOperator::BANG => "!"@,
        UnaryOperator::MINUS => "-"@,
    }
}

/// The word that a logical operator is displayed with.
pub open spec fn logical_symbol(op: LogicalOperator) -> Seq<char> {
    match op {
        LogicalOperator::AND => "and"@,
        LogicalOperator::OR => "or"@,
    }
}

impl UnaryOperator {
    /// The symbol that the operator is displayed with.
    pub fn symbol(&self) -> (r: &'static str)
        ensures
            r@ == unary_symbol(*self),
    {
        match self {
            UnaryOperator::BANG => "!",
            UnaryOperator::MINUS => "-",
        }
    }
}

impl LogicalOperator {
    /// The logical operator that a token stands for; `Err(())` for any other.
    pub fn try_from(token: Token) -> (r: Result<Self, ()>)
        ensures
            match logical_of(token@.kind) {
                Some(op) => r == Ok::<LogicalOperator, ()>(op),
                None => r is Err,
            },
    {
        match token {
            Token::AND => Ok(Self::AND),
            Token::OR => Ok(Self::OR),
            _ => Err(()),
        }
    }

    /// The word that the operator is displayed with.
    pub fn symbol(&self) -> (r: &'static str)
        ensures
            r@ == logical_symbol(*self),
    {
        match self {
            LogicalOperator::AND => "and",
            LogicalOperator::OR => "or",
        }
    }
}

/// A literal value as it stands in the source: a number by its lexeme, a
/// string, a boolean or `nil`.
#[derive(Debug)]
pub enum LiteralValue {
    Float(SmartString),
    String(SmartString),
    Bool(bool),
    Nil,
}

/// What a literal value is.
pub enum LitV {
    Float(Seq<char>),
    String(Seq<char>),
    Bool(bool),
    Nil,
}

impl View for LiteralValue {
    type V = LitV;

    open spec fn view(&self) -> LitV {
        match self {
            LiteralValue::Float(s) => LitV::Float(s@),
            LiteralValue::String(s) => LitV::String(s@),
            LiteralValue::Bool(b) => LitV::Bool(*b),
            LiteralValue::Nil => LitV::Nil,
        }
    }
}

impl LiteralValue {
    /// A copy of the literal.
    pub fn copy(&self) -> (r: LiteralValue)
        ensures
            r@ == self@,
    {
        match self {
            LiteralValue::Float(s) => LiteralValue::Float(s.copy()),
            LiteralValue::String(s) => LiteralValue::String(s.copy()),
            LiteralValue::Bool(b) => LiteralValue::Bool(*b),
            LiteralValue::Nil => LiteralValue::Nil,
        }
    }
}

/// An expression.
#[derive(Debug)]
pub enum Expression {
    Binary { left: Box<Expression>, operator: BinaryOperator, right: Box<Expression> },
    Logical { left: Box<Expression>, operator: LogicalOperator, right: Box<Expression> },
    Grouping(Box<Expression>),
    Literal(LiteralValue),
    Call { callee: Box<Expression>, paren: ScannedToken, args: Vec<Expression> },
    Unary { operator: UnaryOperator, inner: Box<Expression> },
    Variable { name: SmartString, line: u32 },
    Assign { name: SmartString, value: Box<Expression> },
}

/// What an expression is.
pub enum ExprV {
    Binary(Box<ExprV>, BinaryOperator, Box<ExprV>),
    Logical(Box<ExprV>, LogicalOperator, Box<ExprV>),
    Grouping(Box<ExprV>),
    Literal(LitV),
    Call(Box<ExprV>, ScannedTokenV, Seq<ExprV>),
    Unary(UnaryOperator, Box<ExprV>),
    Variable(Seq<char>, nat),
    Assign(Seq<char>, Box<ExprV>),
}

/// What an expression is.
pub open spec fn expr_view(e: Expression) -> ExprV
    decreases e,
{
    match e {
        Expression::Binary { left, operator, right } => ExprV::Binary(
            Box::new(expr_view(*left)),
            operator,
            Box::new(expr_view(*right)),
        ),
        Expression::Logical { left, operator, right } => ExprV::Logical(
            Box::new(expr_view(*left)),
            operator,
            Box::new(expr_view(*right)),
        ),
        Expression::Grouping(inner) => ExprV::Grouping(Box::new(expr_view(*inner))),
        Expression::Literal(value) => ExprV::Literal(value@),
        Expression::Call { callee, paren, args } => ExprV::Call(
            Box::new(expr_view(*callee)),
            paren@,
            exprs_view(args@),
        ),
        Expression::Unary { operator, inner } => ExprV::Unary(operator, Box::new(expr_view(*inner))),
        Expression::Variable { name, line } => ExprV::Variable(name@, line as nat),
        Expression::Assign { name, value } => ExprV::Assign(name@, Box::new(expr_view(*value))),
    }
}

/// What a sequence of expressions is.
pub open spec fn exprs_view(s: Seq<Expression>) -> Seq<ExprV>
    decreases s,
{
    if s.len() == 0 {
        Seq::empty()
    } else {
        exprs_view(s.drop_last()).push(expr_view(s.last()))
    }
}

impl View for Expression {
    type V = ExprV;

    open spec fn view(&self) -> ExprV {
        expr_view(*self)
    }
}


/// A statement.
#[derive(Debug)]
pub enum Statement {
    Expression(Expression),
    Print(Expression),
    Var { name: SmartString, initializer: Option<Expression> },
    While { condition: Expression, body: Box<Statement> },
    Function(Function),
    If { condition: Expression, then: Box<Statement>, else_case: Option<Box<Statement>> },
    Block(Vec<Statement>),
    Return { token: ScannedToken, value: Option<Expression> },
}

/// A function declaration: its name, its parameters and its body.
#[derive(Debug)]
pub struct Function {
    pub name: Identifier,
    pub params: Vec<Identifier>,
    pub body: Vec<Statement>,
}

/// What a statement is.
pub enum StmtV {
    Expression(ExprV),
    Print(ExprV),
    Var(Seq<char>, Option<ExprV>),
    While(ExprV, Box<StmtV>),
    Function(FunV),
    If(ExprV, Box<StmtV>, Option<Box<StmtV>>),
    Block(Seq<StmtV>),
    Return(ScannedTokenV, Option<ExprV>),
}

/// What a function declaration is.
pub struct FunV {
    pub name: Seq<char>,
    pub params: Seq<Seq<char>>,
    pub body: Seq<StmtV>,
}

/// What an optional expression is.
pub open spec fn opt_expr_view(e: Option<Expression>) -> Option<ExprV> {
    match e {
        Some(x) => Some(x@),
        None => None,
    }
}

/// The names of a sequence of identifiers.
pub open spec fn names_view(s: Seq<Identifier>) -> Seq<Seq<char>> {
    s.map_values(|i: Identifier| i@)
}

/// What a statement is.
pub open spec fn stmt_view(s: Statement) -> StmtV
    decreases s,
{
    match s {
        Statement::Expression(e) => StmtV::Expression(e@),
        Statement::Print(e) => StmtV::Print(e@),
        Statement::Var { name, initializer } => StmtV::Var(name@, opt_expr_view(initializer)),
        Statement::While { condition, body } => StmtV::While(
            condition@,
            Box::new(stmt_view(*body)),
        ),
        Statement::Function(f) => StmtV::Function(
            FunV { name: f.name@, params: names_view(f.params@), body: stmts_view(f.body@) },
        ),
        Statement::If { condition, then, else_case } => StmtV::If(
            condition@,
            Box::new(stmt_view(*then)),
            match else_case {
                Some(e) => Some(Box::new(stmt_view(*e))),
                None => None,
            },
        ),
        Statement::Block(b) => StmtV::Block(stmts_view(b@)),
        Statement::Return { token, value } => StmtV::Return(token@, opt_expr_view(value)),
    }
}

/// What a sequence of statements is.
pub open spec fn stmts_view(s: Seq<Statement>) -> Seq<StmtV>
    decreases s,
{
    if s.len() == 0 {
        Seq::empty()
    } else {
        stmts_view(s.drop_last()).push(stmt_view(s.last()))
    }
}

impl View for Statement {
    type V = StmtV;

    open spec fn view(&self) -> StmtV {
        stmt_view(*self)
    }
}

impl View for Function {
    type V = FunV;

    open spec fn view(&self) -> FunV {
        FunV { name: self.name@, params: names_view(self.params@), body: stmts_view(self.body@) }
    }
}

pub proof fn lemma_exprs_view_len(s: Seq<Expression>)
    ensures
        exprs_view(s).len() == s.len(),
    decreases s.len(),
{
    if s.len() > 0 {
        lemma_exprs_view_len(s.drop_last());
    }
}

pub proof fn lemma_exprs_view_push(s: Seq<Expression>, e: Expression)
    ensures
        exprs_view(s.push(e)) == exprs_view(s).push(e@),
{
    assert(s.push(e).drop_last() =~= s);
}

pub proof fn lemma_stmts_view_push(s: Seq<Statement>, e: Statement)
    ensures
        stmts_view(s.push(e)) == stmts_view(s).push(e@),
{
    assert(s.push(e).drop_last() =~= s);
}

impl Expression {
    /// The literal `nil`.
    pub fn nil() -> (r: Expression)
        ensures
            r@ == ExprV::Literal(LitV::Nil),
    {
        Expression::Literal(LiteralValue::Nil)
    }

    /// A copy of the expression.
    pub fn copy(&self) -> (r: Expression)
        ensures
            r@ == self@,
        decreases self,
    {
        match self {
            Expression::Binary { left, operator, right } => Expression::Binary {
                left: Box::new(left.copy()),
                operator: *operator,
                right: Box::new(right.copy()),
            },
            Expression::Logical { left, operator, right } => Expression::Logical {
                left: Box::new(left.copy()),
                operator: *operator,
                right: Box::new(right.copy()),
            },
            Expression::Grouping(inner) => Expression::Grouping(Box::new(inner.copy())),
            Expression::Literal(value) => Expression::Literal(value.copy()),
            Expression::Call { callee, paren, args } => Expression::Call {
                callee: Box::new(callee.copy()),
                paren: paren.copy(),
                args: copy_expressions(args),
            },
            Expression::Unary { operator, inner } => Expression::Unary {
                operator: *operator,
                inner: Box::new(inner.copy()),
            },
            Expression::Variable { name, line } => Expression::Variable {
                name: name.copy(),
                line: *line,
            },
            Expression::Assign { name, value } => Expression::Assign {
                name: name.copy(),
                value: Box::new(value.copy()),
            },
        }
    }
}

/// A copy of a sequence of expressions.
pub fn copy_expressions(v: &Vec<Expression>) -> (r: Vec<Expression>)
    ensures
        exprs_view(r@) == exprs_view(v@),
    decreases v,
{
    let mut r: Vec<Expression> = Vec::new();
    let mut i: usize = 0;
    while i < v.len()
        invariant
            i <= v.len(),
            exprs_view(r@) == exprs_view(v@.take(i as int)),
        decreases v.len() - i,
    {
        let e = v[i].copy();
        proof {
            lemma_exprs_view_push(r@, e);
            lemma_exprs_view_push(v@.take(i as int), v@[i as int]);
            assert(v@.take(i as int).push(v@[i as int]) =~= v@.take(i + 1));
        }
        r.push(e);
        i = i + 1;
    }
    assert(v@.take(v.len() as int) =~= v@);
    r
}

/// A copy of an optional expression.
pub fn copy_opt_expression(e: &Option<Expression>) -> (r: Option<Expression>)
    ensures
        opt_expr_view(r) == opt_expr_view(*e),
{
    match e {
        Some(x) => Some(x.copy()),
        None => None,
    }
}

impl Statement {
    /// A copy of the statement.
    pub fn copy(&self) -> (r: Statement)
        ensures
            r@ == self@,
        decreases self,
    {
        match self {
            Statement::Expression(e) => Statement::Expression(e.copy()),
            Statement::Print(e) => Statement::Print(e.copy()),
            Statement::Var { name, initializer } => Statement::Var {
                name: name.copy(),
                initializer: copy_opt_expression(initializer),
            },
            Statement::While { condition, body } => Statement::While {
                condition: condition.copy(),
                body: Box::new(body.copy()),
            },
            Statement::Function(f) => Statement::Function(f.copy()),
            Statement::If { condition, then, else_case } => Statement::If {
                condition: condition.copy(),
                then: Box::new(then.copy()),
                else_case: match else_case {
                    Some(e) => Some(Box::new(e.copy())),
                    None => None,
                },
            },
            Statement::Block(b) => Statement::Block(copy_statements(b)),
            Statement::Return { token, value } => Statement::Return {
                token: token.copy(),
                value: copy_opt_expression(value),
            },
        }
    }
}

/// A copy of a sequence of statements.
pub fn copy_statements(v: &Vec<Statement>) -> (r: Vec<Statement>)
    ensures
        stmts_view(r@) == stmts_view(v@),
    decreases v,
{
    let mut r: Vec<Statement> = Vec::new();
    let mut i: usize = 0;
    while i < v.len()
        invariant
            i <= v.len(),
            stmts_view(r@) == stmts_view(v@.take(i as int)),
        decreases v.len() - i,
    {
        let s = v[i].copy();
        proof {
            lemma_stmts_view_push(r@, s);
            lemma_stmts_view_push(v@.take(i as int), v@[i as int]);
            assert(v@.take(i as int).push(v@[i as int]) =~= v@.take(i + 1));
        }
        r.push(s);
        i = i + 1;
    }
    assert(v@.take(v.len() as int) =~= v@);
    r
}

/// A copy of a sequence of names.
pub fn copy_names(v: &Vec<Identifier>) -> (r: Vec<Identifier>)
    ensures
        names_view(r@) == names_view(v@),
{
    let mut r: Vec<Identifier> = Vec::new();
    let mut i: usize = 0;
    while i < v.len()
        invariant
            i <= v.len(),
            r@.len() == i,
            forall|j: int| 0 <= j < i ==> (#[trigger] r@[j])@ == v@[j]@,
        decreases v.len() - i,
    {
        r.push(v[i].copy());
        i = i + 1;
    }
    assert(names_view(r@) =~= names_view(v@));
    r
}

impl Function {
    /// A copy of the function declaration.
    pub fn copy(&self) -> (r: Function)
        ensures
            r@ == self@,
        decreases self,
    {
        Function {
            name: self.name.copy(),
            params: copy_names(&self.params),
            body: copy_statements(&self.body),
        }
    }
}

} // verus!
