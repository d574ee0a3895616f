//! The parser: recursive descent over the token sequence with one token of
//! lookahead, building the abstract syntax tree.
//!
//! The mathematical model is the family of `spec_parse_*` functions over the
//! token-model sequence.  Each executable parsing method is proved to return
//! exactly what its model says, so parsing is a pure function of the tokens.

use vstd::prelude::*;
use crate::error::{Error, ErrM};
use crate::lexer::{clone_token, Token, TokM};

verus! {

/// A complete program: the ordered statements between the begin and end
/// markers.
#[derive(Debug)]
pub struct Program {
    pub statements: Vec<Statement>,
}

/// A statement.
#[derive(Debug)]
pub enum Statement {
    /// Variable declaration: binds a name in the current scope.
    Let { name: String, value: Expression },
    /// Prints the displayed form of a value.
    Print(Expression),
    /// Defines a function in the global function table.
    FunctionDef { name: String, parameters: Vec<String>, body: Vec<Statement> },
    /// Conditional.  An `else` clause is stored as a synthetic nested `If`
    /// whose condition is the constant true; an `elseif` chain nests full
    /// `If` statements.
    If { condition: Expression, then_branch: Vec<Statement>, else_branch: Option<Box<Statement>> },
    /// Loop while the condition is truthy.
    While { condition: Expression, body: Vec<Statement> },
    /// Loop over the elements of a list, binding the loop variable in the
    /// current scope.
    For { variable: String, iterable: Expression, body: Vec<Statement> },
    /// Leaves the nearest enclosing loop.
    Break,
    /// Skips to the next iteration of the nearest enclosing loop.
    Continue,
    /// Returns a value from the enclosing function.
    Return(Expression),
    /// An expression evaluated for its side effects.
    Expression(Expression),
}

/// An expression.
#[derive(Debug)]
pub enum Expression {
    Identifier(String),
    Number(i64),
    String(String),
    Boolean(bool),
    /// A list literal.
    List(Vec<Expression>),
    BinaryOp { left: Box<Expression>, operator: BinaryOperator, right: Box<Expression> },
    UnaryOp { operator: UnaryOperator, operand: Box<Expression> },
    FunctionCall { name: String, arguments: Vec<Expression> },
    MethodCall { receiver: Box<Expression>, method: String, arguments: Vec<Expression> },
    /// Indexing into a list or a string; negative indices count from the
    /// end.
    Index { object: Box<Expression>, index: Box<Expression> },
    /// Reads one value from the external input collaborator.
    Input,
}

/// A binary operator.
#[derive(Debug, Clone, Copy, PartialEq, Eq, Structural)]
pub enum BinaryOperator {
    Add,
    Subtract,
    Multiply,
    Divide,
    /// Explicit concatenation: stringifies both operands and joins them.
    Concat,
    Equal,
    NotEqual,
    Less,
    Greater,
    LessEqual,
    GreaterEqual,
}

/// A unary operator.
#[derive(Debug, Clone, Copy, PartialEq, Eq, Structural)]
pub enum UnaryOperator {
    Negate,
    Not,
}

/// Mathematical model of an expression: names are character sequences.
pub enum ExprM {
    Ident(Seq<char>),
    Num(i64),
    Str(Seq<char>),
    Bool(bool),
    List(Seq<ExprM>),
    BinOp { left: Box<ExprM>, op: BinaryOperator, right: Box<ExprM> },
    UnOp { op: UnaryOperator, operand: Box<ExprM> },
    Call { name: Seq<char>, args: Seq<ExprM> },
    Method { recv: Box<ExprM>, name: Seq<char>, args: Seq<ExprM> },
    IndexOp { obj: Box<ExprM>, idx: Box<ExprM> },
    Input,
}

/// Mathematical model of a statement.
pub enum StmtM {
    Let { name: Seq<char>, value: ExprM },
    Print(ExprM),
    FunctionDef { name: Seq<char>, params: Seq<Seq<char>>, body: Seq<StmtM> },
    If { cond: ExprM, then_b: Seq<StmtM>, else_b: Option<Box<StmtM>> },
    While { cond: ExprM, body: Seq<StmtM> },
    For { var: Seq<char>, iter: ExprM, body: Seq<StmtM> },
    Break,
    Continue,
    Return(ExprM),
    Expr(ExprM),
}

/// The model of a sequence of expressions.
pub open spec fn view_exprs(v: Seq<Expression>) -> Seq<ExprM>
    decreases v,
{
    if v.len() == 0 {
        Seq::empty()
    } else {
        view_exprs(v.drop_last()).push(view_expr(v.last()))
    }
}

/// The model of an expression.
pub open spec fn view_expr(e: Expression) -> ExprM
    decreases e,
{
    match e {
        Expression::Identifier(s) => ExprM::Ident(s@),
        Expression::Number(n) => ExprM::Num(n),
        Expression::String(s) => ExprM::Str(s@),
        Expression::Boolean(b) => ExprM::Bool(b),
        Expression::List(v) => ExprM::List(view_exprs(v@)),
        Expression::BinaryOp { left, operator, right } => ExprM::BinOp {
            left: Box::new(view_expr(*left)),
            op: operator,
            right: Box::new(view_expr(*right)),
        },
        Expression::UnaryOp { operator, operand } => ExprM::UnOp {
            op: operator,
            operand: Box::new(view_expr(*operand)),
        },
        Expression::FunctionCall { name, arguments } => ExprM::Call {
            name: name@,
            args: view_exprs(arguments@),
        },
        Expression::MethodCall { receiver, method, arguments } => ExprM::Method {
            recv: Box::new(view_expr(*receiver)),
            name: method@,
            args: view_exprs(arguments@),
        },
        Expression::Index { object, index } => ExprM::IndexOp {
            obj: Box::new(view_expr(*object)),
            idx: Box::new(view_expr(*index)),
        },
        Expression::Input => ExprM::Input,
    }
}

/// The model of a sequence of statements.
pub open spec fn view_stmts(v: Seq<Statement>) -> Seq<StmtM>
    decreases v,
{
    if v.len() == 0 {
        Seq::empty()
    } else {
        view_stmts(v.drop_last()).push(view_stmt(v.last()))
    }
}

/// The model of a statement.
pub open spec fn view_stmt(s: Statement) -> StmtM
    decreases s,
{
    match s {
        Statement::Let { name, value } => StmtM::Let { name: name@, value: view_expr(value) },
        Statement::Print(e) => StmtM::Print(view_expr(e)),
        Statement::FunctionDef { name, parameters, body } => StmtM::FunctionDef {
            name: name@,
            params: parameters.deep_view(),
            body: view_stmts(body@),
        },
        Statement::If { condition, then_branch, else_branch } => StmtM::If {
            cond: view_expr(condition),
            then_b: view_stmts(then_branch@),
            else_b: match else_branch {
                Some(b) => Some(Box::new(view_stmt(*b))),
                None => None,
            },
        },
        Statement::While { condition, body } => StmtM::While {
            cond: view_expr(condition),
            body: view_stmts(body@),
        },
        Statement::For { variable, iterable, body } => StmtM::For {
            var: variable@,
            iter: view_expr(iterable),
            body: view_stmts(body@),
        },
        Statement::Break => StmtM::Break,
        Statement::Continue => StmtM::Continue,
        Statement::Return(e) => StmtM::Return(view_expr(e)),
        Statement::Expression(e) => StmtM::Expr(view_expr(e)),
    }
}

impl View for Expression {
    type V = ExprM;

    open spec fn view(&self) -> ExprM {
        view_expr(*self)
    }
}

impl DeepView for Expression {
    type V = ExprM;

    open spec fn deep_view(&self) -> ExprM {
        view_expr(*self)
    }
}

impl View for Statement {
    type V = StmtM;

    open spec fn view(&self) -> StmtM {
        view_stmt(*self)
    }
}

impl DeepView for Statement {
    type V = StmtM;

    open spec fn deep_view(&self) -> StmtM {
        view_stmt(*self)
    }
}

impl View for Program {
    type V = Seq<StmtM>;

    open spec fn view(&self) -> Seq<StmtM> {
        view_stmts(self.statements@)
    }
}

/// The token at position `i`, or the end-of-input token past the end.
pub open spec fn cur(ts: Seq<TokM>, i: int) -> TokM {
    if 0 <= i < ts.len() {
        ts[i]
    } else {
        TokM::Eof
    }
}

/// A short, payload-free description of a token, used in parse error
/// messages.
pub open spec fn tok_desc(t: TokM) -> Seq<char> {
    match t {
        TokM::Begin => "Begin"@,
        TokM::End => "End"@,
        TokM::Print => "Print"@,
        TokM::Let => "Let"@,
        TokM::True => "True"@,
        TokM::False => "False"@,
        TokM::Plus => "Plus"@,
        TokM::Minus => "Minus"@,
        TokM::Multiply => "Multiply"@,
        TokM::Divide => "Divide"@,
        TokM::Function => "Function"@,
        TokM::Return => "Return"@,
        TokM::Input => "Input"@,
        TokM::If => "If"@,
        TokM::Else => "Else"@,
        TokM::ElseIf => "ElseIf"@,
        TokM::While => "While"@,
        TokM::For => "For"@,
        TokM::In => "In"@,
        TokM::Break => "Break"@,
        TokM::Continue => "Continue"@,
        TokM::Equal => "Equal"@,
        TokM::NotEqual => "NotEqual"@,
        TokM::Less => "Less"@,
        TokM::Greater => "Greater"@,
        TokM::LessEqual => "LessEqual"@,
        TokM::GreaterEqual => "GreaterEqual"@,
        TokM::Not => "Not"@,
        TokM::Dot => "Dot"@,
        TokM::LeftParen => "LeftParen"@,
        TokM::RightParen => "RightParen"@,
        TokM::LeftBrace => "LeftBrace"@,
        TokM::RightBrace => "RightBrace"@,
        TokM::LeftBracket => "LeftBracket"@,
        TokM::RightBracket => "RightBracket"@,
        TokM::Comma => "Comma"@,
        TokM::Ident(_) => "Identifier"@,
        TokM::Num(_) => "Number"@,
        TokM::Str(_) => "String"@,
        TokM::Equals => "Equals"@,
        TokM::Newline => "Newline"@,
        TokM::Eof => "Eof"@,
    }
}

/// The error for a token other than the required one.
pub open spec fn perr_expect(expected: Seq<char>, found: TokM) -> ErrM {
    ErrM::Parse("Ana tsammanin '"@ + expected + "', amma an samu '"@ + tok_desc(found) + "'"@)
}

/// The error for a position where a statement is required.
pub open spec fn perr_statement() -> ErrM {
    ErrM::Parse("Ana tsammanin statement"@)
}

/// The error for a position where an expression is required.
pub open spec fn perr_expression() -> ErrM {
    ErrM::Parse("Ana tsammanin expression"@)
}

/// A never-produced error: every successful step of the parser advances the
/// position, so the progress guards below cannot fail.
pub open spec fn perr_stuck() -> ErrM {
    ErrM::Parse(Seq::empty())
}

/// A parse outcome: the parsed value with the position after it, or an
/// error.
pub enum PRes<A> {
    Parsed(A, int),
    Fail(ErrM),
}

/// The position after any run of newline tokens starting at `i`.
pub open spec fn nl_end(ts: Seq<TokM>, i: int) -> int
    decreases ts.len() - i,
{
    if 0 <= i < ts.len() && ts[i] == TokM::Newline {
        nl_end(ts, i + 1)
    } else {
        i
    }
}

/// The binary comparison operator a token denotes, if any.
pub open spec fn cmp_op(t: TokM) -> Option<BinaryOperator> {
    match t {
        TokM::Equal => Some(BinaryOperator::Equal),
        TokM::NotEqual => Some(BinaryOperator::NotEqual),
        TokM::Less => Some(BinaryOperator::Less),
        TokM::Greater => Some(BinaryOperator::Greater),
        TokM::LessEqual => Some(BinaryOperator::LessEqual),
        TokM::GreaterEqual => Some(BinaryOperator::GreaterEqual),
        _ => None,
    }
}

/// The additive operator a token denotes, if any.
pub open spec fn add_op(t: TokM) -> Option<BinaryOperator> {
    match t {
        TokM::Plus => Some(BinaryOperator::Add),
        TokM::Minus => Some(BinaryOperator::Subtract),
        _ => None,
    }
}

/// The multiplicative operator a token denotes, if any.
pub open spec fn mul_op(t: TokM) -> Option<BinaryOperator> {
    match t {
        TokM::Multiply => Some(BinaryOperator::Multiply),
        TokM::Divide => Some(BinaryOperator::Divide),
        _ => None,
    }
}

/// Whether a token can start the first argument of a call written without
/// parentheses.
pub open spec fn juxta_start(t: TokM) -> bool {
    match t {
        TokM::Num(_) => true,
        TokM::Str(_) => true,
        TokM::Ident(_) => true,
        TokM::True => true,
        TokM::False => true,
        TokM::Input => true,
        _ => false,
    }
}

/// Whether a token ends the argument run of a call written without
/// parentheses.
pub open spec fn end_of_expr(t: TokM) -> bool {
    match t {
        TokM::Newline => true,
        TokM::Eof => true,
        TokM::RightParen => true,
        TokM::RightBrace => true,
        TokM::RightBracket => true,
        TokM::End => true,
        TokM::Plus => true,
        TokM::Minus => true,
        TokM::Multiply => true,
        TokM::Divide => true,
        TokM::Dot => true,
        TokM::Equal => true,
        TokM::NotEqual => true,
        TokM::Less => true,
        TokM::Greater => true,
        TokM::LessEqual => true,
        TokM::GreaterEqual => true,
        TokM::Else => true,
        TokM::ElseIf => true,
        _ => false,
    }
}

/// A list literal, from its opening bracket.
pub open spec fn spec_parse_list(ts: Seq<TokM>, i: int) -> PRes<ExprM>
    decreases ts.len() - i, 0int,
{
    if 0 <= i < ts.len() {
        match spec_parse_list_elems(ts, i + 1) {
            PRes::Parsed(es, j) => {
                if cur(ts, j) == TokM::RightBracket {
                    PRes::Parsed(ExprM::List(es), j + 1)
                } else {
                    PRes::Fail(perr_expect("RightBracket"@, cur(ts, j)))
                }
            },
            PRes::Fail(e) => PRes::Fail(e),
        }
    } else {
        PRes::Fail(perr_stuck())
    }
}

/// A primary expression: a literal, the input expression, a list literal, a
/// parenthesized expression, or an identifier possibly continued into a
/// call.
pub open spec fn spec_parse_primary(ts: Seq<TokM>, i: int) -> PRes<ExprM>
    decreases ts.len() - i, 1int,
{
    match cur(ts, i) {
        TokM::Num(n) => PRes::Parsed(ExprM::Num(n), i + 1),
        TokM::Str(s) => PRes::Parsed(ExprM::Str(s), i + 1),
        TokM::True => PRes::Parsed(ExprM::Bool(true), i + 1),
        TokM::False => PRes::Parsed(ExprM::Bool(false), i + 1),
        TokM::Input => PRes::Parsed(ExprM::Input, i + 1),
        TokM::LeftBracket => spec_parse_list(ts, i),
        TokM::LeftParen => match spec_parse_comparison(ts, i + 1) {
            PRes::Parsed(e, j) => {
                if cur(ts, j) == TokM::RightParen {
                    PRes::Parsed(e, j + 1)
                } else {
                    PRes::Fail(perr_expect("RightParen"@, cur(ts, j)))
                }
            },
            PRes::Fail(e) => PRes::Fail(e),
        },
        TokM::Ident(name) => {
            if cur(ts, i + 1) == TokM::LeftParen {
                match spec_parse_args(ts, i + 2) {
                    PRes::Parsed(args, j) => {
                        if cur(ts, j) == TokM::RightParen {
                            PRes::Parsed(ExprM::Call { name, args }, j + 1)
                        } else {
                            PRes::Fail(perr_expect("RightParen"@, cur(ts, j)))
                        }
                    },
                    PRes::Fail(e) => PRes::Fail(e),
                }
            } else if juxta_start(cur(ts, i + 1)) {
                match spec_parse_juxta_args(ts, i + 1) {
                    PRes::Parsed(args, j) => PRes::Parsed(ExprM::Call { name, args }, j),
                    PRes::Fail(e) => PRes::Fail(e),
                }
            } else {
                PRes::Parsed(ExprM::Ident(name), i + 1)
            }
        },
        _ => PRes::Fail(perr_expression()),
    }
}

/// The comma-or-space separated arguments of a parenthesized call, up to the
/// closing parenthesis.
pub open spec fn spec_parse_args(ts: Seq<TokM>, i: int) -> PRes<Seq<ExprM>>
    decreases ts.len() - i, 8int,
{
    if cur(ts, i) == TokM::RightParen {
        PRes::Parsed(Seq::empty(), i)
    } else {
        match spec_parse_comparison(ts, i) {
            PRes::Parsed(e, j) => {
                if i < j <= ts.len() {
                    let k = if cur(ts, j) == TokM::Comma {
                        j + 1
                    } else {
                        j
                    };
                    match spec_parse_args(ts, k) {
                        PRes::Parsed(rest, m) => PRes::Parsed(seq![e] + rest, m),
                        PRes::Fail(e2) => PRes::Fail(e2),
                    }
                } else {
                    PRes::Fail(perr_stuck())
                }
            },
            PRes::Fail(e) => PRes::Fail(e),
        }
    }
}

/// The primary-expression arguments of a call written without parentheses,
/// up to a token that cannot continue the run.
pub open spec fn spec_parse_juxta_args(ts: Seq<TokM>, i: int) -> PRes<Seq<ExprM>>
    decreases ts.len() - i, 2int,
{
    if end_of_expr(cur(ts, i)) {
        PRes::Parsed(Seq::empty(), i)
    } else {
        match spec_parse_primary(ts, i) {
            PRes::Parsed(e, j) => {
                if i < j <= ts.len() {
                    let k = if cur(ts, j) == TokM::Comma {
                        j + 1
                    } else {
                        j
                    };
                    match spec_parse_juxta_args(ts, k) {
                        PRes::Parsed(rest, m) => PRes::Parsed(seq![e] + rest, m),
                        PRes::Fail(e2) => PRes::Fail(e2),
                    }
                } else {
                    PRes::Fail(perr_stuck())
                }
            },
            PRes::Fail(e) => PRes::Fail(e),
        }
    }
}

/// The comma-separated elements of a list literal, up to the closing
/// bracket.
pub open spec fn spec_parse_list_elems(ts: Seq<TokM>, i: int) -> PRes<Seq<ExprM>>
    decreases ts.len() - i, 8int,
{
    if cur(ts, i) == TokM::RightBracket || cur(ts, i) == TokM::Eof {
        PRes::Parsed(Seq::empty(), i)
    } else {
        match spec_parse_comparison(ts, i) {
            PRes::Parsed(e, j) => {
                if i < j <= ts.len() {
                    if cur(ts, j) == TokM::Comma {
                        match spec_parse_list_elems(ts, j + 1) {
                            PRes::Parsed(rest, m) => PRes::Parsed(seq![e] + rest, m),
                            PRes::Fail(e2) => PRes::Fail(e2),
                        }
                    } else if cur(ts, j) == TokM::RightBracket {
                        PRes::Parsed(seq![e], j)
                    } else {
                        PRes::Fail(perr_expect(", ou ]"@, cur(ts, j)))
                    }
                } else {
                    PRes::Fail(perr_stuck())
                }
            },
            PRes::Fail(e) => PRes::Fail(e),
        }
    }
}

/// The postfix continuations of a primary expression: indexing and method
/// calls, applied left to right.
pub open spec fn spec_parse_postfix_tail(ts: Seq<TokM>, i: int, acc: ExprM) -> PRes<ExprM>
    decreases ts.len() - i, 0int,
{
    if cur(ts, i) == TokM::LeftBracket {
        match spec_parse_comparison(ts, i + 1) {
            PRes::Parsed(ix, j) => {
                if i < j <= ts.len() {
                    if cur(ts, j) == TokM::RightBracket {
                        spec_parse_postfix_tail(
                            ts,
                            j + 1,
                            ExprM::IndexOp { obj: Box::new(acc), idx: Box::new(ix) },
                        )
                    } else {
                        PRes::Fail(perr_expect("RightBracket"@, cur(ts, j)))
                    }
                } else {
                    PRes::Fail(perr_stuck())
                }
            },
            PRes::Fail(e) => PRes::Fail(e),
        }
    } else if cur(ts, i) == TokM::Dot {
        match cur(ts, i + 1) {
            TokM::Ident(m) => {
                if cur(ts, i + 2) == TokM::LeftParen {
                    match spec_parse_args(ts, i + 3) {
                        PRes::Parsed(args, j) => {
                            if i < j <= ts.len() {
                                if cur(ts, j) == TokM::RightParen {
                                    spec_parse_postfix_tail(
                                        ts,
                                        j + 1,
                                        ExprM::Method { recv: Box::new(acc), name: m, args },
                                    )
                                } else {
                                    PRes::Fail(perr_expect("RightParen"@, cur(ts, j)))
                                }
                            } else {
                                PRes::Fail(perr_stuck())
                            }
                        },
                        PRes::Fail(e) => PRes::Fail(e),
                    }
                } else {
                    PRes::Fail(perr_expect("LeftParen"@, cur(ts, i + 2)))
                }
            },
            t => PRes::Fail(perr_expect("identifier"@, t)),
        }
    } else {
        PRes::Parsed(acc, i)
    }
}

/// A primary expression together with its postfix continuations.
pub open spec fn spec_parse_postfix(ts: Seq<TokM>, i: int) -> PRes<ExprM>
    decreases ts.len() - i, 3int,
{
    match spec_parse_primary(ts, i) {
        PRes::Parsed(e, j) => {
            if i < j <= ts.len() {
                spec_parse_postfix_tail(ts, j, e)
            } else {
                PRes::Fail(perr_stuck())
            }
        },
        PRes::Fail(e) => PRes::Fail(e),
    }
}

/// A unary expression: any run of prefix operators over a postfix
/// expression.
pub open spec fn spec_parse_unary(ts: Seq<TokM>, i: int) -> PRes<ExprM>
    decreases ts.len() - i, 4int,
{
    if cur(ts, i) == TokM::Minus {
        match spec_parse_unary(ts, i + 1) {
            PRes::Parsed(e, j) => PRes::Parsed(
                ExprM::UnOp { op: UnaryOperator::Negate, operand: Box::new(e) },
                j,
            ),
            PRes::Fail(e) => PRes::Fail(e),
        }
    } else if cur(ts, i) == TokM::Not {
        match spec_parse_unary(ts, i + 1) {
            PRes::Parsed(e, j) => PRes::Parsed(
                ExprM::UnOp { op: UnaryOperator::Not, operand: Box::new(e) },
                j,
            ),
            PRes::Fail(e) => PRes::Fail(e),
        }
    } else {
        spec_parse_postfix(ts, i)
    }
}

/// The left-associative continuation of a multiplicative expression.
pub open spec fn spec_parse_mul_tail(ts: Seq<TokM>, i: int, acc: ExprM) -> PRes<ExprM>
    decreases ts.len() - i, 0int,
{
    match mul_op(cur(ts, i)) {
        Some(op) => match spec_parse_unary(ts, i + 1) {
            PRes::Parsed(r, j) => {
                if i < j <= ts.len() {
                    spec_parse_mul_tail(
                        ts,
                        j,
                        ExprM::BinOp { left: Box::new(acc), op, right: Box::new(r) },
                    )
                } else {
                    PRes::Fail(perr_stuck())
                }
            },
            PRes::Fail(e) => PRes::Fail(e),
        },
        None => PRes::Parsed(acc, i),
    }
}

/// A multiplicative expression.
pub open spec fn spec_parse_mul(ts: Seq<TokM>, i: int) -> PRes<ExprM>
    decreases ts.len() - i, 5int,
{
    match spec_parse_unary(ts, i) {
        PRes::Parsed(e, j) => {
            if i < j <= ts.len() {
                spec_parse_mul_tail(ts, j, e)
            } else {
                PRes::Fail(perr_stuck())
            }
        },
        PRes::Fail(e) => PRes::Fail(e),
    }
}

/// The left-associative continuation of an additive expression.
pub open spec fn spec_parse_add_tail(ts: Seq<TokM>, i: int, acc: ExprM) -> PRes<ExprM>
    decreases ts.len() - i, 0int,
{
    match add_op(cur(ts, i)) {
        Some(op) => match spec_parse_mul(ts, i + 1) {
            PRes::Parsed(r, j) => {
                if i < j <= ts.len() {
                    spec_parse_add_tail(
                        ts,
                        j,
                        ExprM::BinOp { left: Box::new(acc), op, right: Box::new(r) },
                    )
                } else {
                    PRes::Fail(perr_stuck())
                }
            },
            PRes::Fail(e) => PRes::Fail(e),
        },
        None => PRes::Parsed(acc, i),
    }
}

/// An additive expression.
pub open spec fn spec_parse_add(ts: Seq<TokM>, i: int) -> PRes<ExprM>
    decreases ts.len() - i, 6int,
{
    match spec_parse_mul(ts, i) {
        PRes::Parsed(e, j) => {
            if i < j <= ts.len() {
                spec_parse_add_tail(ts, j, e)
            } else {
                PRes::Fail(perr_stuck())
            }
        },
        PRes::Fail(e) => PRes::Fail(e),
    }
}

/// The left-associative continuation of a comparison expression.
pub open spec fn spec_parse_cmp_tail(ts: Seq<TokM>, i: int, acc: ExprM) -> PRes<ExprM>
    decreases ts.len() - i, 0int,
{
    match cmp_op(cur(ts, i)) {
        Some(op) => match spec_parse_add(ts, i + 1) {
            PRes::Parsed(r, j) => {
                if i < j <= ts.len() {
                    spec_parse_cmp_tail(
                        ts,
                        j,
                        ExprM::BinOp { left: Box::new(acc), op, right: Box::new(r) },
                    )
                } else {
                    PRes::Fail(perr_stuck())
                }
            },
            PRes::Fail(e) => PRes::Fail(e),
        },
        None => PRes::Parsed(acc, i),
    }
}

/// A full expression: the comparison level, the lowest precedence.
pub open spec fn spec_parse_comparison(ts: Seq<TokM>, i: int) -> PRes<ExprM>
    decreases ts.len() - i, 7int,
{
    match spec_parse_add(ts, i) {
        PRes::Parsed(e, j) => {
            if i < j <= ts.len() {
                spec_parse_cmp_tail(ts, j, e)
            } else {
                PRes::Fail(perr_stuck())
            }
        },
        PRes::Fail(e) => PRes::Fail(e),
    }
}

/// The comma-or-space separated parameter names of a function definition,
/// up to the closing parenthesis.
pub open spec fn spec_parse_params(ts: Seq<TokM>, i: int) -> PRes<Seq<Seq<char>>>
    decreases ts.len() - i, 1int,
{
    if cur(ts, i) == TokM::RightParen {
        PRes::Parsed(Seq::empty(), i)
    } else {
        match cur(ts, i) {
            TokM::Ident(p) => {
                let k = if cur(ts, i + 1) == TokM::Comma {
                    i + 2
                } else {
                    i + 1
                };
                match spec_parse_params(ts, k) {
                    PRes::Parsed(ps, m) => PRes::Parsed(seq![p] + ps, m),
                    PRes::Fail(e) => PRes::Fail(e),
                }
            },
            t => PRes::Fail(perr_expect("parameter"@, t)),
        }
    }
}

/// A variable declaration, from its keyword.
pub open spec fn spec_parse_let(ts: Seq<TokM>, i: int) -> PRes<StmtM>
    decreases ts.len() - i, 9int,
{
    match cur(ts, i + 1) {
        TokM::Ident(name) => {
            if cur(ts, i + 2) == TokM::Equals {
                match spec_parse_comparison(ts, i + 3) {
                    PRes::Parsed(e, j) => PRes::Parsed(StmtM::Let { name, value: e }, j),
                    PRes::Fail(e) => PRes::Fail(e),
                }
            } else {
                PRes::Fail(perr_expect("Equals"@, cur(ts, i + 2)))
            }
        },
        t => PRes::Fail(perr_expect("identifier"@, t)),
    }
}

/// A print statement, from its keyword.
pub open spec fn spec_parse_print(ts: Seq<TokM>, i: int) -> PRes<StmtM>
    decreases ts.len() - i, 9int,
{
    match spec_parse_comparison(ts, i + 1) {
        PRes::Parsed(e, j) => PRes::Parsed(StmtM::Print(e), j),
        PRes::Fail(e) => PRes::Fail(e),
    }
}

/// A return statement, from its keyword.
pub open spec fn spec_parse_return(ts: Seq<TokM>, i: int) -> PRes<StmtM>
    decreases ts.len() - i, 9int,
{
    match spec_parse_comparison(ts, i + 1) {
        PRes::Parsed(e, j) => PRes::Parsed(StmtM::Return(e), j),
        PRes::Fail(e) => PRes::Fail(e),
    }
}

/// A function definition, from its keyword.
pub open spec fn spec_parse_fndef(ts: Seq<TokM>, i: int) -> PRes<StmtM>
    decreases ts.len() - i, 9int,
{
    match cur(ts, i + 1) {
        TokM::Ident(name) => {
            if cur(ts, i + 2) == TokM::LeftParen {
                match spec_parse_params(ts, i + 3) {
                    PRes::Parsed(params, m) => {
                        if i < m <= ts.len() && cur(ts, m) == TokM::RightParen {
                            if cur(ts, m + 1) == TokM::LeftBrace {
                                match spec_parse_stmts(ts, m + 2, TokM::RightBrace) {
                                    PRes::Parsed(body, k) => {
                                        if cur(ts, k) == TokM::RightBrace {
                                            PRes::Parsed(
                                                StmtM::FunctionDef { name, params, body },
                                                k + 1,
                                            )
                                        } else {
                                            PRes::Fail(perr_expect("RightBrace"@, cur(ts, k)))
                                        }
                                    },
                                    PRes::Fail(e) => PRes::Fail(e),
                                }
                            } else {
                                PRes::Fail(perr_expect("LeftBrace"@, cur(ts, m + 1)))
                            }
                        } else {
                            PRes::Fail(perr_expect("RightParen"@, cur(ts, m)))
                        }
                    },
                    PRes::Fail(e) => PRes::Fail(e),
                }
            } else {
                PRes::Fail(perr_expect("LeftParen"@, cur(ts, i + 2)))
            }
        },
        t => PRes::Fail(perr_expect("identifier"@, t)),
    }
}

/// A conditional, from its keyword.  An `else` clause becomes a synthetic
/// nested `If` with a constant-true condition; an `elseif` clause nests a
/// full conditional.
pub open spec fn spec_parse_if(ts: Seq<TokM>, i: int) -> PRes<StmtM>
    decreases ts.len() - i, 9int,
{
    match spec_parse_comparison(ts, i + 1) {
        PRes::Parsed(cond, j) => {
            if i < j <= ts.len() {
                if cur(ts, j) == TokM::LeftBrace {
                    match spec_parse_stmts(ts, j + 1, TokM::RightBrace) {
                        PRes::Parsed(thn, k) => {
                            if !(j <= k <= ts.len()) {
                                PRes::Fail(perr_stuck())
                            } else if cur(ts, k) == TokM::RightBrace {
                                if cur(ts, k + 1) == TokM::Else {
                                    if cur(ts, k + 2) == TokM::LeftBrace {
                                        match spec_parse_stmts(ts, k + 3, TokM::RightBrace) {
                                            PRes::Parsed(els, m) => {
                                                if cur(ts, m) == TokM::RightBrace {
                                                    PRes::Parsed(
                                                        StmtM::If {
                                                            cond,
                                                            then_b: thn,
                                                            else_b: Some(
                                                                Box::new(
                                                                    StmtM::If {
                                                                        cond: ExprM::Bool(true),
                                                                        then_b: els,
                                                                        else_b: None,
                                                                    },
                                                                ),
                                                            ),
                                                        },
                                                        m + 1,
                                                    )
                                                } else {
                                                    PRes::Fail(
                                                        perr_expect("RightBrace"@, cur(ts, m)),
                                                    )
                                                }
                                            },
                                            PRes::Fail(e) => PRes::Fail(e),
                                        }
                                    } else {
                                        PRes::Fail(perr_expect("LeftBrace"@, cur(ts, k + 2)))
                                    }
                                } else if cur(ts, k + 1) == TokM::ElseIf {
                                    match spec_parse_if(ts, k + 1) {
                                        PRes::Parsed(nested, m) => PRes::Parsed(
                                            StmtM::If {
                                                cond,
                                                then_b: thn,
                                                else_b: Some(Box::new(nested)),
                                            },
                                            m,
                                        ),
                                        PRes::Fail(e) => PRes::Fail(e),
                                    }
                                } else {
                                    PRes::Parsed(
                                        StmtM::If { cond, then_b: thn, else_b: None },
                                        k + 1,
                                    )
                                }
                            } else {
                                PRes::Fail(perr_expect("RightBrace"@, cur(ts, k)))
                            }
                        },
                        PRes::Fail(e) => PRes::Fail(e),
                    }
                } else {
                    PRes::Fail(perr_expect("LeftBrace"@, cur(ts, j)))
                }
            } else {
                PRes::Fail(perr_stuck())
            }
        },
        PRes::Fail(e) => PRes::Fail(e),
    }
}

/// A while loop, from its keyword.
pub open spec fn spec_parse_while(ts: Seq<TokM>, i: int) -> PRes<StmtM>
    decreases ts.len() - i, 9int,
{
    match spec_parse_comparison(ts, i + 1) {
        PRes::Parsed(cond, j) => {
            if i < j <= ts.len() {
                if cur(ts, j) == TokM::LeftBrace {
                    match spec_parse_stmts(ts, j + 1, TokM::RightBrace) {
                        PRes::Parsed(body, k) => {
                            if cur(ts, k) == TokM::RightBrace {
                                PRes::Parsed(StmtM::While { cond, body }, k + 1)
                            } else {
                                PRes::Fail(perr_expect("RightBrace"@, cur(ts, k)))
                            }
                        },
                        PRes::Fail(e) => PRes::Fail(e),
                    }
                } else {
                    PRes::Fail(perr_expect("LeftBrace"@, cur(ts, j)))
                }
            } else {
                PRes::Fail(perr_stuck())
            }
        },
        PRes::Fail(e) => PRes::Fail(e),
    }
}

/// A for loop, from its keyword.
pub open spec fn spec_parse_for(ts: Seq<TokM>, i: int) -> PRes<StmtM>
    decreases ts.len() - i, 9int,
{
    match cur(ts, i + 1) {
        TokM::Ident(var) => {
            if cur(ts, i + 2) == TokM::In {
                match spec_parse_comparison(ts, i + 3) {
                    PRes::Parsed(iter, j) => {
                        if i < j <= ts.len() {
                            if cur(ts, j) == TokM::LeftBrace {
                                match spec_parse_stmts(ts, j + 1, TokM::RightBrace) {
                                    PRes::Parsed(body, k) => {
                                        if cur(ts, k) == TokM::RightBrace {
                                            PRes::Parsed(StmtM::For { var, iter, body }, k + 1)
                                        } else {
                                            PRes::Fail(perr_expect("RightBrace"@, cur(ts, k)))
                                        }
                                    },
                                    PRes::Fail(e) => PRes::Fail(e),
                                }
                            } else {
                                PRes::Fail(perr_expect("LeftBrace"@, cur(ts, j)))
                            }
                        } else {
                            PRes::Fail(perr_stuck())
                        }
                    },
                    PRes::Fail(e) => PRes::Fail(e),
                }
            } else {
                PRes::Fail(perr_expect("In"@, cur(ts, i + 2)))
            }
        },
        t => PRes::Fail(perr_expect("identifier"@, t)),
    }
}

/// One statement, dispatched on its first token.
pub open spec fn spec_parse_statement(ts: Seq<TokM>, i: int) -> PRes<StmtM>
    decreases ts.len() - i, 10int,
{
    match cur(ts, i) {
        TokM::Let => spec_parse_let(ts, i),
        TokM::Print => spec_parse_print(ts, i),
        TokM::Function => spec_parse_fndef(ts, i),
        TokM::If => spec_parse_if(ts, i),
        TokM::Return => spec_parse_return(ts, i),
        TokM::While => spec_parse_while(ts, i),
        TokM::For => spec_parse_for(ts, i),
        TokM::Break => PRes::Parsed(StmtM::Break, i + 1),
        TokM::Continue => PRes::Parsed(StmtM::Continue, i + 1),
        TokM::Ident(_) => match spec_parse_comparison(ts, i) {
            PRes::Parsed(e, j) => PRes::Parsed(StmtM::Expr(e), j),
            PRes::Fail(e) => PRes::Fail(e),
        },
        _ => PRes::Fail(perr_statement()),
    }
}

/// A newline-separated statement run, up to the terminator token or the end
/// of input; neither is consumed.
pub open spec fn spec_parse_stmts(ts: Seq<TokM>, i: int, term: TokM) -> PRes<Seq<StmtM>>
    decreases ts.len() - i, 11int,
{
    let j = nl_end(ts, i);
    if i <= j <= ts.len() {
        if cur(ts, j) == term || cur(ts, j) == TokM::Eof {
            PRes::Parsed(Seq::empty(), j)
        } else {
            match spec_parse_statement(ts, j) {
                PRes::Parsed(s, k) => {
                    if j < k <= ts.len() {
                        match spec_parse_stmts(ts, k, term) {
                            PRes::Parsed(rest, m) => PRes::Parsed(seq![s] + rest, m),
                            PRes::Fail(e) => PRes::Fail(e),
                        }
                    } else {
                        PRes::Fail(perr_stuck())
                    }
                },
                PRes::Fail(e) => PRes::Fail(e),
            }
        }
    } else {
        PRes::Fail(perr_stuck())
    }
}

/// A whole program over a preprocessed token sequence: optional leading
/// newlines, the begin marker, the statements, the end marker.
pub open spec fn spec_parse_program(ts: Seq<TokM>) -> Result<Seq<StmtM>, ErrM> {
    let i = nl_end(ts, 0);
    if cur(ts, i) == TokM::Begin {
        match spec_parse_stmts(ts, i + 1, TokM::End) {
            PRes::Parsed(ss, k) => {
                if cur(ts, k) == TokM::End {
                    Ok(ss)
                } else {
                    Err(perr_expect("End"@, cur(ts, k)))
                }
            },
            PRes::Fail(e) => Err(e),
        }
    } else {
        Err(perr_expect("Begin"@, cur(ts, i)))
    }
}

/// The position before which every token, scanned backwards from `i`, is a
/// newline.
pub open spec fn nl_rbegin(ts: Seq<TokM>, i: int) -> int
    decreases i,
{
    if 0 < i <= ts.len() && ts[i - 1] == TokM::Newline {
        nl_rbegin(ts, i - 1)
    } else {
        i
    }
}

/// The token sequence with its leading and trailing newlines removed.
pub open spec fn trim_newlines(ts: Seq<TokM>) -> Seq<TokM> {
    let a = nl_end(ts, 0);
    let b = nl_rbegin(ts, ts.len() as int);
    if a < b {
        ts.subrange(a, b)
    } else {
        Seq::empty()
    }
}

/// The preprocessing the parser applies before parsing: leading and
/// trailing newline tokens are stripped unless the whole stream has at most
/// two tokens, and an empty stream becomes a single end-of-input token.
pub open spec fn preprocess(ts: Seq<TokM>) -> Seq<TokM> {
    let kept = if ts.len() <= 2 {
        ts
    } else {
        trim_newlines(ts)
    };
    if kept.len() == 0 {
        seq![TokM::Eof]
    } else {
        kept
    }
}

/// What parsing a token sequence yields: preprocessing, then the program
/// grammar.
pub open spec fn spec_parse(ts: Seq<TokM>) -> Result<Seq<StmtM>, ErrM> {
    spec_parse_program(preprocess(ts))
}

/// A number distinguishing the variants of the token model, ignoring
/// payloads.
pub open spec fn kind_of(t: TokM) -> int {
    match t {
        TokM::Begin => 0,
        TokM::End => 1,
        TokM::Print => 2,
        TokM::Let => 3,
        TokM::True => 4,
        TokM::False => 5,
        TokM::Plus => 6,
        TokM::Minus => 7,
        TokM::Multiply => 8,
        TokM::Divide => 9,
        TokM::Function => 10,
        TokM::Return => 11,
        TokM::Input => 12,
        TokM::If => 13,
        TokM::Else => 14,
        TokM::ElseIf => 15,
        TokM::While => 16,
        TokM::For => 17,
        TokM::In => 18,
        TokM::Break => 19,
        TokM::Continue => 20,
        TokM::Equal => 21,
        TokM::NotEqual => 22,
        TokM::Less => 23,
        TokM::Greater => 24,
        TokM::LessEqual => 25,
        TokM::GreaterEqual => 26,
        TokM::Not => 27,
        TokM::Dot => 28,
        TokM::LeftParen => 29,
        TokM::RightParen => 30,
        TokM::LeftBrace => 31,
        TokM::RightBrace => 32,
        TokM::LeftBracket => 33,
        TokM::RightBracket => 34,
        TokM::Comma => 35,
        TokM::Ident(_) => 36,
        TokM::Num(_) => 37,
        TokM::Str(_) => 38,
        TokM::Equals => 39,
        TokM::Newline => 40,
        TokM::Eof => 41,
    }
}

fn token_kind(t: &Token) -> (k: u32)
    ensures
        k as int == kind_of(t@),
{
    match t {
        Token::Begin => 0,
        Token::End => 1,
        Token::Print => 2,
        Token::Let => 3,
        Token::True => 4,
        Token::False => 5,
        Token::Plus => 6,
        Token::Minus => 7,
        Token::Multiply => 8,
        Token::Divide => 9,
        Token::Function => 10,
        Token::Return => 11,
        Token::Input => 12,
        Token::If => 13,
        Token::Else => 14,
        Token::ElseIf => 15,
        Token::While => 16,
        Token::For => 17,
        Token::In => 18,
        Token::Break => 19,
        Token::Continue => 20,
        Token::Equal => 21,
        Token::NotEqual => 22,
        Token::Less => 23,
        Token::Greater => 24,
        Token::LessEqual => 25,
        Token::GreaterEqual => 26,
        Token::Not => 27,
        Token::Dot => 28,
        Token::LeftParen => 29,
        Token::RightParen => 30,
        Token::LeftBrace => 31,
        Token::RightBrace => 32,
        Token::LeftBracket => 33,
        Token::RightBracket => 34,
        Token::Comma => 35,
        Token::Identifier(_) => 36,
        Token::Number(_) => 37,
        Token::String(_) => 38,
        Token::Equals => 39,
        Token::Newline => 40,
        Token::Eof => 41,
    }
}

fn token_desc(t: &Token) -> (r: String)
    ensures
        r@ == tok_desc(t@),
{
    match t {
        Token::Begin => String::from_str("Begin"),
        Token::End => String::from_str("End"),
        Token::Print => String::from_str("Print"),
        Token::Let => String::from_str("Let"),
        Token::True => String::from_str("True"),
        Token::False => String::from_str("False"),
        Token::Plus => String::from_str("Plus"),
        Token::Minus => String::from_str("Minus"),
        Token::Multiply => String::from_str("Multiply"),
        Token::Divide => String::from_str("Divide"),
        Token::Function => String::from_str("Function"),
        Token::Return => String::from_str("Return"),
        Token::Input => String::from_str("Input"),
        Token::If => String::from_str("If"),
        Token::Else => String::from_str("Else"),
        Token::ElseIf => String::from_str("ElseIf"),
        Token::While => String::from_str("While"),
        Token::For => String::from_str("For"),
        Token::In => String::from_str("In"),
        Token::Break => String::from_str("Break"),
        Token::Continue => String::from_str("Continue"),
        Token::Equal => String::from_str("Equal"),
        Token::NotEqual => String::from_str("NotEqual"),
        Token::Less => String::from_str("Less"),
        Token::Greater => String::from_str("Greater"),
        Token::LessEqual => String::from_str("LessEqual"),
        Token::GreaterEqual => String::from_str("GreaterEqual"),
        Token::Not => String::from_str("Not"),
        Token::Dot => String::from_str("Dot"),
        Token::LeftParen => String::from_str("LeftParen"),
        Token::RightParen => String::from_str("RightParen"),
        Token::LeftBrace => String::from_str("LeftBrace"),
        Token::RightBrace => String::from_str("RightBrace"),
        Token::LeftBracket => String::from_str("LeftBracket"),
        Token::RightBracket => String::from_str("RightBracket"),
        Token::Comma => String::from_str("Comma"),
        Token::Identifier(_) => String::from_str("Identifier"),
        Token::Number(_) => String::from_str("Number"),
        Token::String(_) => String::from_str("String"),
        Token::Equals => String::from_str("Equals"),
        Token::Newline => String::from_str("Newline"),
        Token::Eof => String::from_str("Eof"),
    }
}

/// The parser state: the preprocessed tokens and a cursor with one cached
/// token of lookahead.
pub struct Parser {
    tokens: Vec<Token>,
    position: usize,
    current_token: Token,
}

impl Parser {
    /// The model of the token sequence being parsed.
    pub closed spec fn toks(&self) -> Seq<TokM> {
        self.tokens.deep_view()
    }

    /// The current position of the cursor.
    pub closed spec fn pos(&self) -> int {
        self.position as int
    }

    /// The cursor is inside the tokens and the cached token matches it.
    pub closed spec fn wf(&self) -> bool {
        &&& self.position <= self.tokens@.len()
        &&& self.current_token@ == cur(self.toks(), self.pos())
    }

    /// A parser over the given tokens, after preprocessing them.
    pub fn new(tokens: Vec<Token>) -> (r: Result<Self, Error>)
        ensures
            r matches Ok(p) && p.wf() && p.toks() == preprocess(tokens.deep_view()) && p.pos()
                == 0,
    {
        let ghost ts0 = tokens.deep_view();
        let n = tokens.len();
        let mut kept: Vec<Token> = Vec::new();
        if n <= 2 {
            kept = tokens;
            proof {
                assert(kept.deep_view() == ts0);
            }
        } else {
            // Find the end of the leading newline run.
            let mut a: usize = 0;
            while a < n && token_kind(&tokens[a]) == 40
                invariant
                    n == tokens@.len(),
                    ts0 == tokens.deep_view(),
                    0 <= a <= n,
                    nl_end(ts0, 0) == nl_end(ts0, a as int),
                    forall|q: int| 0 <= q < a ==> ts0[q] == TokM::Newline,
                decreases n - a,
            {
                proof {
                    assert(ts0[a as int] == tokens@[a as int]@);
                }
                a = a + 1;
            }
            // Find the start of the trailing newline run.
            let mut b: usize = n;
            while b > 0 && token_kind(&tokens[b - 1]) == 40
                invariant
                    n == tokens@.len(),
                    ts0 == tokens.deep_view(),
                    0 <= b <= n,
                    nl_rbegin(ts0, n as int) == nl_rbegin(ts0, b as int),
                decreases b,
            {
                proof {
                    assert(ts0[b - 1] == tokens@[b - 1]@);
                }
                b = b - 1;
            }
            proof {
                assert(nl_end(ts0, a as int) == a as int);
                assert(nl_rbegin(ts0, b as int) == b as int);
            }
            if a < b {
                let mut i: usize = a;
                while i < b
                    invariant
                        n == tokens@.len(),
                        ts0 == tokens.deep_view(),
                        a <= i <= b <= n,
                        kept.deep_view() == ts0.subrange(a as int, i as int),
                    decreases b - i,
                {
                    let ghost prev = kept.deep_view();
                    kept.push(clone_token(&tokens[i]));
                    i = i + 1;
                    proof {
                        assert(kept.deep_view() =~= prev.push(tokens@[i - 1]@));
                        assert(kept.deep_view() =~= ts0.subrange(a as int, i as int));
                    }
                }
            }
            proof {
                if a < b {
                    assert(kept.deep_view() == trim_newlines(ts0));
                } else {
                    assert(kept.deep_view() =~= trim_newlines(ts0));
                }
            }
        }
        if kept.len() == 0 {
            kept.push(Token::Eof);
            proof {
                assert(kept.deep_view() =~= seq![TokM::Eof]);
            }
        }
        let current_token = clone_token(&kept[0]);
        proof {
            assert(kept.deep_view()[0] == kept@[0]@);
        }
        Ok(Parser { tokens: kept, position: 0, current_token })
    }

    /// Moves the cursor one token forward, stopping at the end.
    fn advance(&mut self)
        requires
            old(self).wf(),
        ensures
            final(self).wf(),
            final(self).toks() == old(self).toks(),
            final(self).pos() == (if old(self).pos() < old(self).toks().len() {
                old(self).pos() + 1
            } else {
                old(self).pos()
            }),
    {
        let n = self.tokens.len();
        if self.position < n {
            self.position = self.position + 1;
        }
        self.current_token = if self.position < n {
            let t = clone_token(&self.tokens[self.position]);
            proof {
                assert(self.tokens.deep_view()[self.position as int] == self.tokens@[self.position as int]@);
            }
            t
        } else {
            Token::Eof
        };
    }

    /// Consumes the current token when it has the kind of `expected`, and
    /// fails with an error citing both tokens otherwise.
    fn expect_token(&mut self, expected: Token) -> (r: Result<(), Error>)
        requires
            old(self).wf(),
            kind_of(expected@) != kind_of(TokM::Eof),
        ensures
            final(self).wf(),
            final(self).toks() == old(self).toks(),
            if kind_of(cur(old(self).toks(), old(self).pos())) == kind_of(expected@) {
                r matches Ok(u) && final(self).pos() == old(self).pos() + 1
            } else {
                r matches Err(e) && e@ == perr_expect(
                    tok_desc(expected@),
                    cur(old(self).toks(), old(self).pos()),
                ) && final(self).pos() == old(self).pos()
            },
    {
        if token_kind(&self.current_token) == token_kind(&expected) {
            self.advance();
            Ok(())
        } else {
            let ed = token_desc(&expected);
            let fd = token_desc(&self.current_token);
            Err(Error::unexpected_token(ed.as_str(), fd.as_str()))
        }
    }

    /// Whether the current token can start the first argument of a call
    /// written without parentheses.
    fn is_function_call_without_parens(&self) -> (r: bool)
        requires
            self.wf(),
        ensures
            r == juxta_start(cur(self.toks(), self.pos())),
    {
        matches!(
            self.current_token,
            Token::Number(_) | Token::String(_) | Token::Identifier(_) | Token::True
                | Token::False | Token::Input
        )
    }

    /// Whether the current token ends the argument run of a call written
    /// without parentheses.
    fn is_end_of_expression(&self) -> (r: bool)
        requires
            self.wf(),
        ensures
            r == end_of_expr(cur(self.toks(), self.pos())),
    {
        matches!(
            self.current_token,
            Token::Newline | Token::Eof | Token::RightParen | Token::RightBrace
                | Token::RightBracket | Token::End | Token::Plus | Token::Minus
                | Token::Multiply | Token::Divide | Token::Dot | Token::Equal
                | Token::NotEqual | Token::Less | Token::Greater | Token::LessEqual
                | Token::GreaterEqual | Token::Else | Token::ElseIf
        )
    }
}

impl Parser {
    /// Parses a full expression.
    pub(crate) fn parse_expression(&mut self) -> (r: Result<Expression, Error>)
        requires
            old(self).wf(),
        ensures
            final(self).wf(),
            final(self).toks() == old(self).toks(),
            match spec_parse_comparison(old(self).toks(), old(self).pos()) {
                PRes::Parsed(m, j) => r matches Ok(e) && view_expr(e) == m && final(self).pos()
                    == j,
                PRes::Fail(em) => r matches Err(er) && er@ == em,
            },
            r matches Ok(e2) ==> final(self).pos() > old(self).pos(),
        decreases self.toks().len() - self.pos(), 8int,
    {
        self.parse_comparison_expression()
    }

    /// Parses a comparison expression, the lowest precedence level.
    fn parse_comparison_expression(&mut self) -> (r: Result<Expression, Error>)
        requires
            old(self).wf(),
        ensures
            final(self).wf(),
            final(self).toks() == old(self).toks(),
            match spec_parse_comparison(old(self).toks(), old(self).pos()) {
                PRes::Parsed(m, j) => r matches Ok(e) && view_expr(e) == m && final(self).pos()
                    == j,
                PRes::Fail(em) => r matches Err(er) && er@ == em,
            },
            r matches Ok(e2) ==> final(self).pos() > old(self).pos(),
        decreases self.toks().len() - self.pos(), 7int,
    {
        let ghost ts = self.toks();
        let ghost p0 = self.pos();
        let mut left = self.parse_additive_expression()?;
        loop
            invariant
                self.wf(),
                ts == old(self).toks(),
                p0 == old(self).pos(),
                self.toks() == ts,
                self.pos() > p0,
                spec_parse_comparison(ts, p0) == spec_parse_cmp_tail(
                    ts,
                    self.pos(),
                    view_expr(left),
                ),
            ensures
                self.wf(),
                self.toks() == ts,
                self.pos() > p0,
                spec_parse_comparison(ts, p0) == PRes::Parsed(view_expr(left), self.pos()),
            decreases ts.len() - self.pos(), 7int,
        {
            let op = if matches!(self.current_token, Token::Equal) {
                BinaryOperator::Equal
            } else if matches!(self.current_token, Token::NotEqual) {
                BinaryOperator::NotEqual
            } else if matches!(self.current_token, Token::Less) {
                BinaryOperator::Less
            } else if matches!(self.current_token, Token::Greater) {
                BinaryOperator::Greater
            } else if matches!(self.current_token, Token::LessEqual) {
                BinaryOperator::LessEqual
            } else if matches!(self.current_token, Token::GreaterEqual) {
                BinaryOperator::GreaterEqual
            } else {
                break ;
            };
            self.advance();
            let right = self.parse_additive_expression()?;
            left = Expression::BinaryOp {
                left: Box::new(left),
                operator: op,
                right: Box::new(right),
            };
        }
        Ok(left)
    }

    /// Parses an additive expression.
    fn parse_additive_expression(&mut self) -> (r: Result<Expression, Error>)
        requires
            old(self).wf(),
        ensures
            final(self).wf(),
            final(self).toks() == old(self).toks(),
            match spec_parse_add(old(self).toks(), old(self).pos()) {
                PRes::Parsed(m, j) => r matches Ok(e) && view_expr(e) == m && final(self).pos()
                    == j,
                PRes::Fail(em) => r matches Err(er) && er@ == em,
            },
            r matches Ok(e2) ==> final(self).pos() > old(self).pos(),
        decreases self.toks().len() - self.pos(), 6int,
    {
        let ghost ts = self.toks();
        let ghost p0 = self.pos();
        let mut left = self.parse_multiplicative_expression()?;
        loop
            invariant
                self.wf(),
                ts == old(self).toks(),
                p0 == old(self).pos(),
                self.toks() == ts,
                self.pos() > p0,
                spec_parse_add(ts, p0) == spec_parse_add_tail(ts, self.pos(), view_expr(left)),
            ensures
                self.wf(),
                self.toks() == ts,
                self.pos() > p0,
                spec_parse_add(ts, p0) == PRes::Parsed(view_expr(left), self.pos()),
            decreases ts.len() - self.pos(), 6int,
        {
            let op = if matches!(self.current_token, Token::Plus) {
                BinaryOperator::Add
            } else if matches!(self.current_token, Token::Minus) {
                BinaryOperator::Subtract
            } else {
                break ;
            };
            self.advance();
            let right = self.parse_multiplicative_expression()?;
            left = Expression::BinaryOp {
                left: Box::new(left),
                operator: op,
                right: Box::new(right),
            };
        }
        Ok(left)
    }

    /// Parses a multiplicative expression.
    fn parse_multiplicative_expression(&mut self) -> (r: Result<Expression, Error>)
        requires
            old(self).wf(),
        ensures
            final(self).wf(),
            final(self).toks() == old(self).toks(),
            match spec_parse_mul(old(self).toks(), old(self).pos()) {
                PRes::Parsed(m, j) => r matches Ok(e) && view_expr(e) == m && final(self).pos()
                    == j,
                PRes::Fail(em) => r matches Err(er) && er@ == em,
            },
            r matches Ok(e2) ==> final(self).pos() > old(self).pos(),
        decreases self.toks().len() - self.pos(), 5int,
    {
        let ghost ts = self.toks();
        let ghost p0 = self.pos();
        let mut left = self.parse_unary_expression()?;
        loop
            invariant
                self.wf(),
                ts == old(self).toks(),
                p0 == old(self).pos(),
                self.toks() == ts,
                self.pos() > p0,
                spec_parse_mul(ts, p0) == spec_parse_mul_tail(ts, self.pos(), view_expr(left)),
            ensures
                self.wf(),
                self.toks() == ts,
                self.pos() > p0,
                spec_parse_mul(ts, p0) == PRes::Parsed(view_expr(left), self.pos()),
            decreases ts.len() - self.pos(), 5int,
        {
            let op = if matches!(self.current_token, Token::Multiply) {
                BinaryOperator::Multiply
            } else if matches!(self.current_token, Token::Divide) {
                BinaryOperator::Divide
            } else {
                break ;
            };
            self.advance();
            let right = self.parse_unary_expression()?;
            left = Expression::BinaryOp {
                left: Box::new(left),
                operator: op,
                right: Box::new(right),
            };
        }
        Ok(left)
    }

    /// Parses a unary expression: any run of prefix operators over a
    /// postfix expression.
    fn parse_unary_expression(&mut self) -> (r: Result<Expression, Error>)
        requires
            old(self).wf(),
        ensures
            final(self).wf(),
            final(self).toks() == old(self).toks(),
            match spec_parse_unary(old(self).toks(), old(self).pos()) {
                PRes::Parsed(m, j) => r matches Ok(e) && view_expr(e) == m && final(self).pos()
                    == j,
                PRes::Fail(em) => r matches Err(er) && er@ == em,
            },
            r matches Ok(e2) ==> final(self).pos() > old(self).pos(),
        decreases self.toks().len() - self.pos(), 4int,
    {
        if matches!(self.current_token, Token::Minus) {
            self.advance();
            let operand = self.parse_unary_expression()?;
            Ok(Expression::UnaryOp { operator: UnaryOperator::Negate, operand: Box::new(operand) })
        } else if matches!(self.current_token, Token::Not) {
            self.advance();
            let operand = self.parse_unary_expression()?;
            Ok(Expression::UnaryOp { operator: UnaryOperator::Not, operand: Box::new(operand) })
        } else {
            self.parse_postfix_expression()
        }
    }

    /// Parses a primary expression with its postfix continuations: indexing
    /// and method calls.
    #[verifier::rlimit(50)]
    fn parse_postfix_expression(&mut self) -> (r: Result<Expression, Error>)
        requires
            old(self).wf(),
        ensures
            final(self).wf(),
            final(self).toks() == old(self).toks(),
            match spec_parse_postfix(old(self).toks(), old(self).pos()) {
                PRes::Parsed(m, j) => r matches Ok(e) && view_expr(e) == m && final(self).pos()
                    == j,
                PRes::Fail(em) => r matches Err(er) && er@ == em,
            },
            r matches Ok(e2) ==> final(self).pos() > old(self).pos(),
        decreases self.toks().len() - self.pos(), 3int,
    {
        let ghost ts = self.toks();
        let ghost p0 = self.pos();
        let mut e = self.parse_primary_expression()?;
        loop
            invariant
                self.wf(),
                ts == old(self).toks(),
                p0 == old(self).pos(),
                self.toks() == ts,
                self.pos() > p0,
                spec_parse_postfix(ts, p0) == spec_parse_postfix_tail(
                    ts,
                    self.pos(),
                    view_expr(e),
                ),
            ensures
                self.wf(),
                self.toks() == ts,
                self.pos() > p0,
                spec_parse_postfix(ts, p0) == PRes::Parsed(view_expr(e), self.pos()),
            decreases ts.len() - self.pos(), 3int,
        {
            if matches!(self.current_token, Token::LeftBracket) {
                self.advance();
                let ix = self.parse_comparison_expression()?;
                self.expect_token(Token::RightBracket)?;
                e = Expression::Index { object: Box::new(e), index: Box::new(ix) };
            } else if matches!(self.current_token, Token::Dot) {
                self.advance();
                let m = match &self.current_token {
                    Token::Identifier(name) => {
                        let x = name.clone();
                        self.advance();
                        x
                    },
                    _ => {
                        let fd = token_desc(&self.current_token);
                        return Err(Error::unexpected_token("identifier", fd.as_str()));
                    },
                };
                self.expect_token(Token::LeftParen)?;
                let arguments = self.parse_call_arguments()?;
                self.expect_token(Token::RightParen)?;
                e = Expression::MethodCall {
                    receiver: Box::new(e),
                    method: m,
                    arguments,
                };
            } else {
                break ;
            }
        }
        Ok(e)
    }

    /// Parses the arguments of a parenthesized call, stopping before the
    /// closing parenthesis.
    fn parse_call_arguments(&mut self) -> (r: Result<Vec<Expression>, Error>)
        requires
            old(self).wf(),
        ensures
            final(self).wf(),
            final(self).toks() == old(self).toks(),
            match spec_parse_args(old(self).toks(), old(self).pos()) {
                PRes::Parsed(ms, j) => r matches Ok(v) && view_exprs(v@) == ms
                    && final(self).pos() == j && cur(old(self).toks(), j) == TokM::RightParen
                    && j >= old(self).pos(),
                PRes::Fail(em) => r matches Err(er) && er@ == em,
            },
        decreases self.toks().len() - self.pos(), 8int,
    {
        let ghost ts = self.toks();
        let ghost p0 = self.pos();
        let mut arguments: Vec<Expression> = Vec::new();
        loop
            invariant
                self.wf(),
                ts == old(self).toks(),
                p0 == old(self).pos(),
                self.toks() == ts,
                self.pos() >= p0,
                match spec_parse_args(ts, self.pos()) {
                    PRes::Parsed(rest, m) => spec_parse_args(ts, p0) == PRes::Parsed(
                        view_exprs(arguments@) + rest,
                        m,
                    ),
                    PRes::Fail(em) => spec_parse_args(ts, p0) == PRes::<Seq<ExprM>>::Fail(em),
                },
            ensures
                self.wf(),
                self.toks() == ts,
                self.pos() >= p0,
                spec_parse_args(ts, p0) == PRes::Parsed(view_exprs(arguments@), self.pos()),
                cur(ts, self.pos()) == TokM::RightParen,
            decreases ts.len() - self.pos(), 9int,
        {
            if matches!(self.current_token, Token::RightParen) {
                proof {
                    assert(view_exprs(arguments@) + Seq::<ExprM>::empty() =~= view_exprs(
                        arguments@,
                    ));
                }
                break ;
            }
            let arg = self.parse_comparison_expression()?;
            let ghost prev = arguments@;
            arguments.push(arg);
            proof {
                assert(arguments@.drop_last() =~= prev);
            }
            if matches!(self.current_token, Token::Comma) {
                self.advance();
            }
            proof {
                match spec_parse_args(ts, self.pos()) {
                    PRes::Parsed(rest, m) => {
                        assert((view_exprs(prev) + (seq![view_expr(arguments@.last())] + rest))
                            =~= (view_exprs(arguments@) + rest));
                    },
                    PRes::Fail(em) => {},
                }
            }
        }
        Ok(arguments)
    }

    /// Parses a list literal, from its opening bracket.
    fn parse_list_expression(&mut self) -> (r: Result<Expression, Error>)
        requires
            old(self).wf(),
            cur(old(self).toks(), old(self).pos()) == TokM::LeftBracket,
        ensures
            final(self).wf(),
            final(self).toks() == old(self).toks(),
            match spec_parse_list(old(self).toks(), old(self).pos()) {
                PRes::Parsed(m, j) => r matches Ok(e) && view_expr(e) == m && final(self).pos()
                    == j,
                PRes::Fail(em) => r matches Err(er) && er@ == em,
            },
            r matches Ok(e2) ==> final(self).pos() > old(self).pos(),
        decreases self.toks().len() - self.pos(), 0int,
    {
        let ghost ts = self.toks();
        let ghost p0 = self.pos();
        self.advance();
        let ghost ep = self.pos();
        let mut elements: Vec<Expression> = Vec::new();
        loop
            invariant
                self.wf(),
                ts == old(self).toks(),
                p0 == old(self).pos(),
                self.toks() == ts,
                self.pos() >= ep,
                ep == p0 + 1,
                match spec_parse_list_elems(ts, self.pos()) {
                    PRes::Parsed(rest, m) => spec_parse_list_elems(ts, ep) == PRes::Parsed(
                        view_exprs(elements@) + rest,
                        m,
                    ),
                    PRes::Fail(em) => spec_parse_list_elems(ts, ep) == PRes::<Seq<ExprM>>::Fail(em),
                },
            ensures
                self.wf(),
                self.toks() == ts,
                self.pos() >= ep,
                ep == p0 + 1,
                spec_parse_list_elems(ts, ep) == PRes::Parsed(
                    view_exprs(elements@),
                    self.pos(),
                ),
                cur(ts, self.pos()) == TokM::RightBracket || cur(ts, self.pos()) == TokM::Eof,
            decreases ts.len() - self.pos(), 9int,
        {
            if matches!(self.current_token, Token::RightBracket) || matches!(
                self.current_token,
                Token::Eof,
            ) {
                proof {
                    assert(view_exprs(elements@) + Seq::<ExprM>::empty() =~= view_exprs(
                        elements@,
                    ));
                }
                break ;
            }
            let element = self.parse_expression()?;
            let ghost prev = elements@;
            elements.push(element);
            proof {
                assert(elements@.drop_last() =~= prev);
            }
            if matches!(self.current_token, Token::Comma) {
                self.advance();
            } else if !matches!(self.current_token, Token::RightBracket) {
                let fd = token_desc(&self.current_token);
                return Err(Error::unexpected_token(", ou ]", fd.as_str()));
            }
            proof {
                match spec_parse_list_elems(ts, self.pos()) {
                    PRes::Parsed(rest, m) => {
                        assert((view_exprs(prev) + (seq![view_expr(elements@.last())] + rest))
                            =~= (view_exprs(elements@) + rest));
                    },
                    PRes::Fail(em) => {},
                }
                if cur(ts, self.pos()) == TokM::RightBracket {
                    assert((view_exprs(prev) + seq![view_expr(elements@.last())]) =~= view_exprs(
                        elements@,
                    ));
                }
            }
        }
        self.expect_token(Token::RightBracket)?;
        Ok(Expression::List(elements))
    }

    /// Parses a primary expression: a literal, the input expression, a list
    /// literal, a parenthesized expression, or an identifier possibly
    /// continued into a call.
    #[verifier::rlimit(50)]
    fn parse_primary_expression(&mut self) -> (r: Result<Expression, Error>)
        requires
            old(self).wf(),
        ensures
            final(self).wf(),
            final(self).toks() == old(self).toks(),
            match spec_parse_primary(old(self).toks(), old(self).pos()) {
                PRes::Parsed(m, j) => r matches Ok(e) && view_expr(e) == m && final(self).pos()
                    == j,
                PRes::Fail(em) => r matches Err(er) && er@ == em,
            },
            r matches Ok(e2) ==> final(self).pos() > old(self).pos(),
        decreases self.toks().len() - self.pos(), 1int,
    {
        let ghost ts = self.toks();
        let ghost p0 = self.pos();
        match &self.current_token {
            Token::Number(n) => {
                let value = *n;
                self.advance();
                Ok(Expression::Number(value))
            },
            Token::String(sv) => {
                let value = sv.clone();
                self.advance();
                Ok(Expression::String(value))
            },
            Token::True => {
                self.advance();
                Ok(Expression::Boolean(true))
            },
            Token::False => {
                self.advance();
                Ok(Expression::Boolean(false))
            },
            Token::Input => {
                self.advance();
                Ok(Expression::Input)
            },
            Token::LeftBracket => self.parse_list_expression(),
            Token::LeftParen => {
                self.advance();
                let e = self.parse_comparison_expression()?;
                self.expect_token(Token::RightParen)?;
                Ok(e)
            },
            Token::Identifier(name) => {
                let var_name = name.clone();
                self.advance();
                if matches!(self.current_token, Token::LeftParen) {
                    self.advance();
                    let arguments = self.parse_call_arguments()?;
                    self.expect_token(Token::RightParen)?;
                    Ok(Expression::FunctionCall { name: var_name, arguments })
                } else if self.is_function_call_without_parens() {
                    let ghost jp = self.pos();
                    let mut arguments: Vec<Expression> = Vec::new();
                    loop
                        invariant
                            self.wf(),
                            ts == old(self).toks(),
                            p0 == old(self).pos(),
                            self.toks() == ts,
                            self.pos() >= jp,
                            jp == p0 + 1,
                            cur(ts, p0) == TokM::Ident(var_name@),
                            cur(ts, jp) != TokM::LeftParen,
                            juxta_start(cur(ts, jp)),
                            match spec_parse_juxta_args(ts, self.pos()) {
                                PRes::Parsed(rest, m) => spec_parse_juxta_args(ts, jp)
                                    == PRes::Parsed(view_exprs(arguments@) + rest, m),
                                PRes::Fail(em) => spec_parse_juxta_args(ts, jp)
                                    == PRes::<Seq<ExprM>>::Fail(em),
                            },
                        ensures
                            self.wf(),
                            self.toks() == ts,
                            self.pos() >= jp,
                            jp == p0 + 1,
                            spec_parse_juxta_args(ts, jp) == PRes::Parsed(
                                view_exprs(arguments@),
                                self.pos(),
                            ),
                        decreases ts.len() - self.pos(), 2int,
                    {
                        if self.is_end_of_expression() {
                            proof {
                                assert(view_exprs(arguments@) + Seq::<ExprM>::empty()
                                    =~= view_exprs(arguments@));
                            }
                            break ;
                        }
                        let arg = self.parse_primary_expression()?;
                        let ghost prev = arguments@;
                        arguments.push(arg);
                        proof {
                            assert(arguments@.drop_last() =~= prev);
                        }
                        if matches!(self.current_token, Token::Comma) {
                            self.advance();
                        }
                        proof {
                            match spec_parse_juxta_args(ts, self.pos()) {
                                PRes::Parsed(rest, m) => {
                                    assert((view_exprs(prev) + (seq![view_expr(
                                        arguments@.last(),
                                    )] + rest)) =~= (view_exprs(arguments@) + rest));
                                },
                                PRes::Fail(em) => {},
                            }
                        }
                    }
                    Ok(Expression::FunctionCall { name: var_name, arguments })
                } else {
                    Ok(Expression::Identifier(var_name))
                }
            },
            _ => Err(Error::expected_expression()),
        }
    }
}

proof fn lemma_nl_end_bounds(ts: Seq<TokM>, i: int)
    requires
        0 <= i <= ts.len(),
    ensures
        i <= nl_end(ts, i) <= ts.len(),
    decreases ts.len() - i,
{
    if i < ts.len() && ts[i] == TokM::Newline {
        lemma_nl_end_bounds(ts, i + 1);
    }
}

impl Parser {
    /// Parses a newline-separated statement run up to `term` or the end of
    /// input, consuming neither.
    fn parse_block(&mut self, term: Token) -> (r: Result<Vec<Statement>, Error>)
        requires
            old(self).wf(),
            term@ == TokM::End || term@ == TokM::RightBrace,
        ensures
            final(self).wf(),
            final(self).toks() == old(self).toks(),
            match spec_parse_stmts(old(self).toks(), old(self).pos(), term@) {
                PRes::Parsed(ms, j) => r matches Ok(v) && view_stmts(v@) == ms
                    && final(self).pos() == j && j >= old(self).pos() && j <= old(
                    self,
                ).toks().len() && (cur(old(self).toks(), j) == term@ || cur(
                    old(self).toks(),
                    j,
                ) == TokM::Eof),
                PRes::Fail(em) => r matches Err(er) && er@ == em,
            },
        decreases self.toks().len() - self.pos(), 11int,
    {
        let ghost ts = self.toks();
        let ghost p0 = self.pos();
        let tk = token_kind(&term);
        let mut statements: Vec<Statement> = Vec::new();
        loop
            invariant
                self.wf(),
                ts == old(self).toks(),
                p0 == old(self).pos(),
                self.toks() == ts,
                self.pos() >= p0,
                term@ == TokM::End || term@ == TokM::RightBrace,
                tk as int == kind_of(term@),
                match spec_parse_stmts(ts, self.pos(), term@) {
                    PRes::Parsed(rest, m) => spec_parse_stmts(ts, p0, term@) == PRes::Parsed(
                        view_stmts(statements@) + rest,
                        m,
                    ),
                    PRes::Fail(em) => spec_parse_stmts(ts, p0, term@) == PRes::<
                        Seq<StmtM>,
                    >::Fail(em),
                },
            ensures
                self.wf(),
                self.toks() == ts,
                self.pos() >= p0,
                spec_parse_stmts(ts, p0, term@) == PRes::Parsed(
                    view_stmts(statements@),
                    self.pos(),
                ),
                cur(ts, self.pos()) == term@ || cur(ts, self.pos()) == TokM::Eof,
            decreases ts.len() - self.pos(), 11int,
        {
            if matches!(self.current_token, Token::Newline) {
                proof {
                    lemma_nl_end_bounds(ts, self.pos() + 1);
                }
                self.advance();
            } else if token_kind(&self.current_token) == tk || matches!(
                self.current_token,
                Token::Eof,
            ) {
                proof {
                    assert(view_stmts(statements@) + Seq::<StmtM>::empty() =~= view_stmts(
                        statements@,
                    ));
                }
                break ;
            } else {
                let st = self.parse_statement()?;
                let ghost prev = statements@;
                statements.push(st);
                proof {
                    assert(statements@.drop_last() =~= prev);
                }
                proof {
                    match spec_parse_stmts(ts, self.pos(), term@) {
                        PRes::Parsed(rest, m) => {
                            assert((view_stmts(prev) + (seq![view_stmt(statements@.last())]
                                + rest)) =~= (view_stmts(statements@) + rest));
                        },
                        PRes::Fail(em) => {},
                    }
                }
            }
        }
        Ok(statements)
    }

    /// Parses one statement, dispatched on the current token.
    fn parse_statement(&mut self) -> (r: Result<Statement, Error>)
        requires
            old(self).wf(),
        ensures
            final(self).wf(),
            final(self).toks() == old(self).toks(),
            match spec_parse_statement(old(self).toks(), old(self).pos()) {
                PRes::Parsed(m, j) => r matches Ok(st) && view_stmt(st) == m && final(self).pos() == j,
                PRes::Fail(em) => r matches Err(er) && er@ == em,
            },
            r matches Ok(s2) ==> final(self).pos() > old(self).pos(),
        decreases self.toks().len() - self.pos(), 10int,
    {
        match &self.current_token {
            Token::Let => self.parse_let_statement(),
            Token::Print => self.parse_print_statement(),
            Token::Function => self.parse_function_definition(),
            Token::If => self.parse_if_statement(),
            Token::Return => self.parse_return_statement(),
            Token::While => self.parse_while_statement(),
            Token::For => self.parse_for_statement(),
            Token::Break => {
                self.advance();
                Ok(Statement::Break)
            },
            Token::Continue => {
                self.advance();
                Ok(Statement::Continue)
            },
            Token::Identifier(_) => {
                let e = self.parse_expression()?;
                Ok(Statement::Expression(e))
            },
            _ => Err(Error::expected_statement()),
        }
    }

    /// Parses a variable declaration.
    fn parse_let_statement(&mut self) -> (r: Result<Statement, Error>)
        requires
            old(self).wf(),
            cur(old(self).toks(), old(self).pos()) == TokM::Let,
        ensures
            final(self).wf(),
            final(self).toks() == old(self).toks(),
            match spec_parse_let(old(self).toks(), old(self).pos()) {
                PRes::Parsed(m, j) => r matches Ok(st) && view_stmt(st) == m && final(self).pos() == j,
                PRes::Fail(em) => r matches Err(er) && er@ == em,
            },
            r matches Ok(s2) ==> final(self).pos() > old(self).pos(),
        decreases self.toks().len() - self.pos(), 9int,
    {
        self.advance();
        let name = match &self.current_token {
            Token::Identifier(n) => {
                let x = n.clone();
                self.advance();
                x
            },
            _ => {
                let fd = token_desc(&self.current_token);
                return Err(Error::unexpected_token("identifier", fd.as_str()));
            },
        };
        self.expect_token(Token::Equals)?;
        let value = self.parse_expression()?;
        Ok(Statement::Let { name, value })
    }

    /// Parses a print statement.
    fn parse_print_statement(&mut self) -> (r: Result<Statement, Error>)
        requires
            old(self).wf(),
            cur(old(self).toks(), old(self).pos()) == TokM::Print,
        ensures
            final(self).wf(),
            final(self).toks() == old(self).toks(),
            match spec_parse_print(old(self).toks(), old(self).pos()) {
                PRes::Parsed(m, j) => r matches Ok(st) && view_stmt(st) == m && final(self).pos() == j,
                PRes::Fail(em) => r matches Err(er) && er@ == em,
            },
            r matches Ok(s2) ==> final(self).pos() > old(self).pos(),
        decreases self.toks().len() - self.pos(), 9int,
    {
        self.advance();
        let e = self.parse_expression()?;
        Ok(Statement::Print(e))
    }

    /// Parses a return statement.
    fn parse_return_statement(&mut self) -> (r: Result<Statement, Error>)
        requires
            old(self).wf(),
            cur(old(self).toks(), old(self).pos()) == TokM::Return,
        ensures
            final(self).wf(),
            final(self).toks() == old(self).toks(),
            match spec_parse_return(old(self).toks(), old(self).pos()) {
                PRes::Parsed(m, j) => r matches Ok(st) && view_stmt(st) == m && final(self).pos() == j,
                PRes::Fail(em) => r matches Err(er) && er@ == em,
            },
            r matches Ok(s2) ==> final(self).pos() > old(self).pos(),
        decreases self.toks().len() - self.pos(), 9int,
    {
        self.advance();
        let e = self.parse_expression()?;
        Ok(Statement::Return(e))
    }

    /// Parses a function definition.
    #[verifier::rlimit(100)]
    fn parse_function_definition(&mut self) -> (r: Result<Statement, Error>)
        requires
            old(self).wf(),
            cur(old(self).toks(), old(self).pos()) == TokM::Function,
        ensures
            final(self).wf(),
            final(self).toks() == old(self).toks(),
            match spec_parse_fndef(old(self).toks(), old(self).pos()) {
                PRes::Parsed(m, j) => r matches Ok(st) && view_stmt(st) == m && final(self).pos() == j,
                PRes::Fail(em) => r matches Err(er) && er@ == em,
            },
            r matches Ok(s2) ==> final(self).pos() > old(self).pos(),
        decreases self.toks().len() - self.pos(), 9int,
    {
        let ghost ts = self.toks();
        let ghost p0 = self.pos();
        self.advance();
        let name = match &self.current_token {
            Token::Identifier(n) => {
                let x = n.clone();
                self.advance();
                x
            },
            _ => {
                let fd = token_desc(&self.current_token);
                return Err(Error::unexpected_token("identifier", fd.as_str()));
            },
        };
        self.expect_token(Token::LeftParen)?;
        let ghost pp = self.pos();
        let mut parameters: Vec<String> = Vec::new();
        loop
            invariant
                self.wf(),
                ts == old(self).toks(),
                p0 == old(self).pos(),
                self.toks() == ts,
                self.pos() >= pp,
                pp == p0 + 3,
                cur(ts, p0 + 1) == TokM::Ident(name@),
                cur(ts, p0 + 2) == TokM::LeftParen,
                match spec_parse_params(ts, self.pos()) {
                    PRes::Parsed(rest, m) => spec_parse_params(ts, pp) == PRes::Parsed(
                        parameters.deep_view() + rest,
                        m,
                    ),
                    PRes::Fail(em) => spec_parse_params(ts, pp) == PRes::<
                        Seq<Seq<char>>,
                    >::Fail(em),
                },
            ensures
                self.wf(),
                self.toks() == ts,
                self.pos() >= pp,
                spec_parse_params(ts, pp) == PRes::Parsed(
                    parameters.deep_view(),
                    self.pos(),
                ),
                cur(ts, self.pos()) == TokM::RightParen,
            decreases ts.len() - self.pos(), 2int,
        {
            if matches!(self.current_token, Token::RightParen) {
                proof {
                    assert(parameters.deep_view() + Seq::<Seq<char>>::empty()
                        =~= parameters.deep_view());
                }
                break ;
            }
            match &self.current_token {
                Token::Identifier(pn) => {
                    let x = pn.clone();
                    self.advance();
                    let ghost prev = parameters.deep_view();
                    parameters.push(x);
                    proof {
                        assert(parameters.deep_view() =~= prev.push(parameters@.last()@));
                    }
                    if matches!(self.current_token, Token::Comma) {
                        self.advance();
                    }
                    proof {
                        match spec_parse_params(ts, self.pos()) {
                            PRes::Parsed(rest, m) => {
                                assert((prev + (seq![parameters@.last()@] + rest))
                                    =~= (parameters.deep_view() + rest));
                            },
                            PRes::Fail(em) => {},
                        }
                    }
                },
                _ => {
                    let fd = token_desc(&self.current_token);
                    return Err(Error::unexpected_token("parameter", fd.as_str()));
                },
            }
        }
        self.expect_token(Token::RightParen)?;
        self.expect_token(Token::LeftBrace)?;
        let body = self.parse_block(Token::RightBrace)?;
        self.expect_token(Token::RightBrace)?;
        Ok(Statement::FunctionDef { name, parameters, body })
    }

    /// Parses a conditional, including its `else` or `elseif` clause.
    #[verifier::rlimit(100)]
    fn parse_if_statement(&mut self) -> (r: Result<Statement, Error>)
        requires
            old(self).wf(),
            cur(old(self).toks(), old(self).pos()) == TokM::If || cur(
                old(self).toks(),
                old(self).pos(),
            ) == TokM::ElseIf,
        ensures
            final(self).wf(),
            final(self).toks() == old(self).toks(),
            match spec_parse_if(old(self).toks(), old(self).pos()) {
                PRes::Parsed(m, j) => r matches Ok(st) && view_stmt(st) == m && final(self).pos() == j,
                PRes::Fail(em) => r matches Err(er) && er@ == em,
            },
            r matches Ok(s2) ==> final(self).pos() > old(self).pos(),
        decreases self.toks().len() - self.pos(), 9int,
    {
        let ghost ts = self.toks();
        let ghost i0 = self.pos();
        self.advance();
        let condition = self.parse_expression()?;
        let ghost cm = view_expr(condition);
        let ghost j = self.pos();
        self.expect_token(Token::LeftBrace)?;
        let then_branch = self.parse_block(Token::RightBrace)?;
        let ghost tm = view_stmts(then_branch@);
        let ghost k = self.pos();
        self.expect_token(Token::RightBrace)?;
        proof {
            assert(spec_parse_comparison(ts, i0 + 1) == PRes::Parsed(cm, j));
            assert(cur(ts, j) == TokM::LeftBrace);
            assert(spec_parse_stmts(ts, j + 1, TokM::RightBrace) == PRes::Parsed(tm, k));
            assert(cur(ts, k) == TokM::RightBrace);
            assert(i0 < j);
            assert(j <= k <= ts.len());
        }
        let ghost mut eb: Option<Box<StmtM>> = None;
        let else_branch = if matches!(self.current_token, Token::Else) {
            self.advance();
            self.expect_token(Token::LeftBrace)?;
            let els = self.parse_block(Token::RightBrace)?;
            let ghost em = view_stmts(els@);
            let ghost m = self.pos();
            self.expect_token(Token::RightBrace)?;
            let inner = Statement::If {
                condition: Expression::Boolean(true),
                then_branch: els,
                else_branch: None,
            };
            proof {
                eb = Some(
                    Box::new(StmtM::If { cond: ExprM::Bool(true), then_b: em, else_b: None }),
                );
                assert(view_stmt(inner) == StmtM::If {
                    cond: ExprM::Bool(true),
                    then_b: em,
                    else_b: None,
                });
                assert(spec_parse_if(ts, i0) == PRes::Parsed(
                    StmtM::If { cond: cm, then_b: tm, else_b: eb },
                    m + 1,
                ));
            }
            Some(Box::new(inner))
        } else if matches!(self.current_token, Token::ElseIf) {
            let nested = self.parse_if_statement()?;
            proof {
                eb = Some(Box::new(view_stmt(nested)));
                assert(spec_parse_if(ts, i0) == PRes::Parsed(
                    StmtM::If { cond: cm, then_b: tm, else_b: eb },
                    self.pos(),
                ));
            }
            Some(Box::new(nested))
        } else {
            proof {
                assert(spec_parse_if(ts, i0) == PRes::Parsed(
                    StmtM::If { cond: cm, then_b: tm, else_b: eb },
                    k + 1,
                ));
            }
            None
        };
        let ghost fin = self.pos();
        let result = Statement::If { condition, then_branch, else_branch };
        proof {
            assert(view_stmt(result) == StmtM::If { cond: cm, then_b: tm, else_b: eb });
            assert(spec_parse_if(ts, i0) == PRes::Parsed(view_stmt(result), fin));
        }
        Ok(result)
    }

    /// Parses a while loop.
    fn parse_while_statement(&mut self) -> (r: Result<Statement, Error>)
        requires
            old(self).wf(),
            cur(old(self).toks(), old(self).pos()) == TokM::While,
        ensures
            final(self).wf(),
            final(self).toks() == old(self).toks(),
            match spec_parse_while(old(self).toks(), old(self).pos()) {
                PRes::Parsed(m, j) => r matches Ok(st) && view_stmt(st) == m && final(self).pos() == j,
                PRes::Fail(em) => r matches Err(er) && er@ == em,
            },
            r matches Ok(s2) ==> final(self).pos() > old(self).pos(),
        decreases self.toks().len() - self.pos(), 9int,
    {
        self.advance();
        let condition = self.parse_expression()?;
        self.expect_token(Token::LeftBrace)?;
        let body = self.parse_block(Token::RightBrace)?;
        self.expect_token(Token::RightBrace)?;
        Ok(Statement::While { condition, body })
    }

    /// Parses a for loop.
    fn parse_for_statement(&mut self) -> (r: Result<Statement, Error>)
        requires
            old(self).wf(),
            cur(old(self).toks(), old(self).pos()) == TokM::For,
        ensures
            final(self).wf(),
            final(self).toks() == old(self).toks(),
            match spec_parse_for(old(self).toks(), old(self).pos()) {
                PRes::Parsed(m, j) => r matches Ok(st) && view_stmt(st) == m && final(self).pos() == j,
                PRes::Fail(em) => r matches Err(er) && er@ == em,
            },
            r matches Ok(s2) ==> final(self).pos() > old(self).pos(),
        decreases self.toks().len() - self.pos(), 9int,
    {
        self.advance();
        let variable = match &self.current_token {
            Token::Identifier(n) => {
                let x = n.clone();
                self.advance();
                x
            },
            _ => {
                let fd = token_desc(&self.current_token);
                return Err(Error::unexpected_token("identifier", fd.as_str()));
            },
        };
        self.expect_token(Token::In)?;
        let iterable = self.parse_expression()?;
        self.expect_token(Token::LeftBrace)?;
        let body = self.parse_block(Token::RightBrace)?;
        self.expect_token(Token::RightBrace)?;
        Ok(Statement::For { variable, iterable, body })
    }

    /// Parses a whole program: the begin marker, the statements, the end
    /// marker.
    pub fn parse_program(&mut self) -> (r: Result<Program, Error>)
        requires
            old(self).wf(),
            old(self).pos() == 0,
        ensures
            final(self).wf(),
            match spec_parse_program(old(self).toks()) {
                Ok(ss) => r matches Ok(prog) && prog@ == ss,
                Err(em) => r matches Err(er) && er@ == em,
            },
    {
        let ghost ts = self.toks();
        loop
            invariant
                self.wf(),
                ts == old(self).toks(),
                self.toks() == ts,
                self.pos() >= 0,
                nl_end(ts, 0) == nl_end(ts, self.pos()),
            ensures
                self.wf(),
                self.toks() == ts,
                self.pos() == nl_end(ts, 0),
            decreases ts.len() - self.pos(),
        {
            if matches!(self.current_token, Token::Newline) {
                self.advance();
            } else {
                break ;
            }
        }
        self.expect_token(Token::Begin)?;
        let statements = self.parse_block(Token::End)?;
        self.expect_token(Token::End)?;
        Ok(Program { statements })
    }
}

/// Parses a token sequence into a program.
pub fn parse(tokens: Vec<Token>) -> (r: Result<Program, Error>)
    ensures
        match spec_parse(tokens.deep_view()) {
            Ok(ss) => r matches Ok(p) && p@ == ss,
            Err(em) => r matches Err(er) && er@ == em,
        },
{
    let mut parser = Parser::new(tokens)?;
    parser.parse_program()
}

/// Parsing the same token sequence twice yields structurally identical
/// programs: the parser is a pure function of the tokens.
pub proof fn lemma_parse_deterministic(
    ts: Seq<TokM>,
    r1: Result<Seq<StmtM>, ErrM>,
    r2: Result<Seq<StmtM>, ErrM>,
)
    requires
        r1 == spec_parse(ts),
        r2 == spec_parse(ts),
    ensures
        r1 == r2,
{
}

} // verus!
