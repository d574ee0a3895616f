//! The evaluator: a tree-walking interpreter over the parsed program.
//!
//! The mathematical model is a big-step semantics over `StateM`, a record of
//! the scope stack, the function table, the output lines, the pending input
//! lines and a work budget.  Every executable evaluation method is proved to
//! return and to leave the interpreter exactly as the semantics says.

use vstd::prelude::*;
use crate::error::{Error, ErrM};
use crate::parser::{BinaryOperator, Expression, ExprM, Program, Statement, StmtM,
    UnaryOperator, view_expr, view_exprs, view_stmt, view_stmts};
use crate::text::{dec_str, digit, i64_str, i64_to_string, push_char, str_eq, usize_to_string};

verus! {

broadcast use vstd::std_specs::vec::group_vec_axioms;

/// A runtime value.
#[derive(Debug)]
pub enum Value {
    /// A signed 64-bit integer.
    Number(i64),
    /// A character string.
    String(String),
    /// A boolean.
    Boolean(bool),
    /// An ordered list of values; lists are value types, and mutating
    /// methods return a new list.
    List(Vec<Value>),
}

/// Mathematical model of a runtime value.
pub enum ValM {
    Num(i64),
    Str(Seq<char>),
    Bool(bool),
    List(Seq<ValM>),
}

/// The model of a sequence of values.
pub open spec fn view_vals(v: Seq<Value>) -> Seq<ValM>
    decreases v,
{
    if v.len() == 0 {
        Seq::empty()
    } else {
        view_vals(v.drop_last()).push(view_val(v.last()))
    }
}

/// The model of a value.
pub open spec fn view_val(v: Value) -> ValM
    decreases v,
{
    match v {
        Value::Number(n) => ValM::Num(n),
        Value::String(s) => ValM::Str(s@),
        Value::Boolean(b) => ValM::Bool(b),
        Value::List(es) => ValM::List(view_vals(es@)),
    }
}

impl View for Value {
    type V = ValM;

    open spec fn view(&self) -> ValM {
        view_val(*self)
    }
}

impl DeepView for Value {
    type V = ValM;

    open spec fn deep_view(&self) -> ValM {
        view_val(*self)
    }
}

/// The localized words for the two boolean values.
pub open spec fn bool_word(b: bool) -> Seq<char> {
    if b {
        "gaskiya"@
    } else {
        "karya"@
    }
}

/// The display text of the elements of a list, joined by a comma and a
/// space.
pub open spec fn join_vals(es: Seq<ValM>) -> Seq<char>
    decreases es,
{
    if es.len() == 0 {
        Seq::empty()
    } else if es.len() == 1 {
        val_str(es[0])
    } else {
        join_vals(es.drop_last()) + ", "@ + val_str(es.last())
    }
}

/// The display text of a value: numbers in decimal, booleans as their
/// localized words, strings as themselves, lists bracketed with their
/// elements joined.
pub open spec fn val_str(v: ValM) -> Seq<char>
    decreases v,
{
    match v {
        ValM::Num(n) => i64_str(n),
        ValM::Str(s) => s,
        ValM::Bool(b) => bool_word(b),
        ValM::List(es) => "["@ + join_vals(es) + "]"@,
    }
}

/// The localized name of a value's type, used in error messages.
pub open spec fn type_name_of(v: ValM) -> Seq<char> {
    match v {
        ValM::Num(_) => "lambar"@,
        ValM::Str(_) => "jimla"@,
        ValM::Bool(_) => "gaskiya ko karya"@,
        ValM::List(_) => "jerin abu"@,
    }
}

/// The truthiness rule for conditions: numbers are true when nonzero,
/// strings and lists when non-empty.
pub open spec fn truthy(v: ValM) -> bool {
    match v {
        ValM::Num(n) => n != 0,
        ValM::Str(s) => s.len() > 0,
        ValM::Bool(b) => b,
        ValM::List(es) => es.len() > 0,
    }
}

impl Value {
    /// The display text of the value.
    pub fn to_string(&self) -> (r: String)
        ensures
            r@ == val_str(self@),
        decreases self,
    {
        match self {
            Value::Number(n) => i64_to_string(*n),
            Value::String(s) => s.clone(),
            Value::Boolean(b) => {
                if *b {
                    String::from_str("gaskiya")
                } else {
                    String::from_str("karya")
                }
            },
            Value::List(elements) => {
                let mut s = String::from_str("[");
                let mut i: usize = 0;
                while i < elements.len()
                    invariant
                        *self == Value::List(*elements),
                        i <= elements@.len(),
                        s@ == "["@ + join_vals(view_vals(elements@.subrange(0, i as int))),
                    decreases elements@.len() - i,
                {
                    if i > 0 {
                        s = s.concat(", ");
                    }
                    proof {
                        assert((*self)->List_0 == *elements);
                        assert(decreases_to!(*self => (*self)->List_0));
                        assert(decreases_to!(*elements => elements@));
                        assert(decreases_to!(*self => elements@));
                        assert(decreases_to!(elements@ => elements@[i as int]));
                    }
                    let es = elements[i].to_string();
                    s = s.concat(es.as_str());
                    i = i + 1;
                    proof {
                        let pre = elements@.subrange(0, i - 1);
                        let now = elements@.subrange(0, i as int);
                        assert(now.drop_last() =~= pre);
                        assert(now.last() == elements@[i - 1]);
                        assert(view_vals(now).drop_last() =~= view_vals(pre));
                        assert(s@ =~= "["@ + join_vals(view_vals(now)));
                    }
                }
                proof {
                    assert(elements@.subrange(0, elements@.len() as int) =~= elements@);
                }
                s.concat("]")
            },
        }
    }

    /// The localized name of the value's type.
    pub fn kind_name(&self) -> (r: &'static str)
        ensures
            r@ == type_name_of(self@),
    {
        match self {
            Value::Number(_) => "lambar",
            Value::String(_) => "jimla",
            Value::Boolean(_) => "gaskiya ko karya",
            Value::List(_) => "jerin abu",
        }
    }
}

/// An exact copy of a value, including every list element.
pub fn clone_value(v: &Value) -> (r: Value)
    ensures
        r@ == v@,
    decreases v,
{
    match v {
        Value::Number(n) => Value::Number(*n),
        Value::String(s) => Value::String(s.clone()),
        Value::Boolean(b) => Value::Boolean(*b),
        Value::List(elements) => {
            let mut out: Vec<Value> = Vec::new();
            let mut i: usize = 0;
            while i < elements.len()
                invariant
                    *v == Value::List(*elements),
                    i <= elements@.len(),
                    view_vals(out@) == view_vals(elements@.subrange(0, i as int)),
                decreases elements@.len() - i,
            {
                proof {
                    assert((*v)->List_0 == *elements);
                    assert(decreases_to!(*v => (*v)->List_0));
                    assert(decreases_to!(*elements => elements@));
                    assert(decreases_to!(*v => elements@));
                    assert(decreases_to!(elements@ => elements@[i as int]));
                }
                let c = clone_value(&elements[i]);
                let ghost prev = out@;
                out.push(c);
                i = i + 1;
                proof {
                    let pre = elements@.subrange(0, i - 1);
                    let now = elements@.subrange(0, i as int);
                    assert(now.drop_last() =~= pre);
                    assert(out@.drop_last() =~= prev);
                    assert(view_vals(out@) =~= view_vals(now));
                }
            }
            proof {
                assert(elements@.subrange(0, elements@.len() as int) =~= elements@);
                assert(view_val(Value::List(out)) == view_val(*v));
            }
            Value::List(out)
        },
    }
}

/// The Hausa name of a binary operator, used in error messages.
pub open spec fn op_name(op: BinaryOperator) -> Seq<char> {
    match op {
        BinaryOperator::Add => "ƙara"@,
        BinaryOperator::Subtract => "rage"@,
        BinaryOperator::Multiply => "ninka"@,
        BinaryOperator::Divide => "raba"@,
        BinaryOperator::Concat => "+"@,
        BinaryOperator::Equal => "=="@,
        BinaryOperator::NotEqual => "!="@,
        BinaryOperator::Less => "<"@,
        BinaryOperator::Greater => ">"@,
        BinaryOperator::LessEqual => "<="@,
        BinaryOperator::GreaterEqual => ">="@,
    }
}

/// The error for an operator applied outside its dispatch table.
pub open spec fn rt_invalid_op(op: BinaryOperator, l: ValM, r: ValM) -> ErrM {
    ErrM::Runtime(
        "Ba za a iya amfani da '"@ + op_name(op) + "' tsakanin "@ + type_name_of(l) + " da "@
            + type_name_of(r),
    )
}

/// The error for a division by zero.
pub open spec fn rt_div_zero() -> ErrM {
    ErrM::Runtime("Ba za a iya raba da sifili ba (Division par zéro)"@)
}

/// What a binary operation yields: the exact dispatch table over the value
/// kinds and the operator.  Integer arithmetic wraps around on overflow.
pub open spec fn spec_binop(l: ValM, op: BinaryOperator, r: ValM) -> Result<ValM, ErrM> {
    match (l, op, r) {
        (ValM::Num(a), BinaryOperator::Add, ValM::Num(b)) => Ok(ValM::Num(a.wrapping_add(b))),
        (ValM::Num(a), BinaryOperator::Subtract, ValM::Num(b)) => Ok(
            ValM::Num(a.wrapping_sub(b)),
        ),
        (ValM::Num(a), BinaryOperator::Multiply, ValM::Num(b)) => Ok(
            ValM::Num(a.wrapping_mul(b)),
        ),
        (ValM::Num(a), BinaryOperator::Divide, ValM::Num(b)) => {
            if b == 0 {
                Err(rt_div_zero())
            } else {
                match a.checked_div(b) {
                    Some(q) => Ok(ValM::Num(q)),
                    None => Ok(ValM::Num(i64::MIN)),
                }
            }
        },
        (ValM::Str(a), BinaryOperator::Add, ValM::Str(b)) => Ok(ValM::Str(a + b)),
        (ValM::Str(a), BinaryOperator::Add, ValM::Num(b)) => Ok(ValM::Str(a + i64_str(b))),
        (ValM::Num(a), BinaryOperator::Add, ValM::Str(b)) => Ok(ValM::Str(i64_str(a) + b)),
        (ValM::Str(a), BinaryOperator::Add, ValM::Bool(b)) => Ok(ValM::Str(a + bool_word(b))),
        (ValM::Bool(a), BinaryOperator::Add, ValM::Str(b)) => Ok(ValM::Str(bool_word(a) + b)),
        (lv, BinaryOperator::Concat, rv) => Ok(ValM::Str(val_str(lv) + val_str(rv))),
        (ValM::Num(a), BinaryOperator::Equal, ValM::Num(b)) => Ok(ValM::Bool(a == b)),
        (ValM::Str(a), BinaryOperator::Equal, ValM::Str(b)) => Ok(ValM::Bool(a == b)),
        (ValM::Bool(a), BinaryOperator::Equal, ValM::Bool(b)) => Ok(ValM::Bool(a == b)),
        (ValM::Num(a), BinaryOperator::NotEqual, ValM::Num(b)) => Ok(ValM::Bool(a != b)),
        (ValM::Str(a), BinaryOperator::NotEqual, ValM::Str(b)) => Ok(ValM::Bool(a != b)),
        (ValM::Bool(a), BinaryOperator::NotEqual, ValM::Bool(b)) => Ok(ValM::Bool(a != b)),
        (ValM::Num(a), BinaryOperator::Less, ValM::Num(b)) => Ok(ValM::Bool(a < b)),
        (ValM::Num(a), BinaryOperator::Greater, ValM::Num(b)) => Ok(ValM::Bool(a > b)),
        (ValM::Num(a), BinaryOperator::LessEqual, ValM::Num(b)) => Ok(ValM::Bool(a <= b)),
        (ValM::Num(a), BinaryOperator::GreaterEqual, ValM::Num(b)) => Ok(ValM::Bool(a >= b)),
        (lv, o, rv) => Err(rt_invalid_op(o, lv, rv)),
    }
}

/// The Hausa name of a unary operator, used in error messages.
pub open spec fn un_op_name(op: UnaryOperator) -> Seq<char> {
    match op {
        UnaryOperator::Negate => "-"@,
        UnaryOperator::Not => "!"@,
    }
}

/// The error for a unary operator applied to the wrong operand type.
pub open spec fn rt_invalid_unop(op: UnaryOperator, v: ValM) -> ErrM {
    ErrM::Runtime("Ba za a iya amfani da '"@ + un_op_name(op) + "' da "@ + type_name_of(v))
}

/// What a unary operation yields: negation flips the sign of a number
/// (wrapping at the smallest value), logical not flips a boolean.
pub open spec fn spec_unop(op: UnaryOperator, v: ValM) -> Result<ValM, ErrM> {
    match (op, v) {
        (UnaryOperator::Negate, ValM::Num(n)) => {
            if n == i64::MIN {
                Ok(ValM::Num(i64::MIN))
            } else {
                Ok(ValM::Num((-n) as i64))
            }
        },
        (UnaryOperator::Not, ValM::Bool(b)) => Ok(ValM::Bool(!b)),
        (o, vv) => Err(rt_invalid_unop(o, vv)),
    }
}

/// The error for an index outside the bounds of its receiver.
pub open spec fn rt_index_bounds() -> ErrM {
    ErrM::Runtime("Lambar wuri ta wuce iyaka (index out of bounds)"@)
}

/// What indexing yields: lists and strings accept an integer index, where a
/// negative index counts from the end; anything else is an error.
pub open spec fn spec_index(recv: ValM, idx: ValM) -> Result<ValM, ErrM> {
    match (recv, idx) {
        (ValM::List(es), ValM::Num(i)) => {
            let n = if i < 0 {
                es.len() + i
            } else {
                i as int
            };
            if 0 <= n < es.len() {
                Ok(es[n])
            } else {
                Err(rt_index_bounds())
            }
        },
        (ValM::Str(s), ValM::Num(i)) => {
            let n = if i < 0 {
                s.len() + i
            } else {
                i as int
            };
            if 0 <= n < s.len() {
                Ok(ValM::Str(seq![s[n]]))
            } else {
                Err(rt_index_bounds())
            }
        },
        (rv, iv) => Err(
            ErrM::Runtime(
                "Ba za a iya amfani da '[]' tsakanin "@ + type_name_of(rv) + " da "@
                    + type_name_of(iv),
            ),
        ),
    }
}

/// An exact copy of a vector of strings.
pub fn clone_strings(v: &Vec<String>) -> (r: Vec<String>)
    ensures
        r.deep_view() == v.deep_view(),
{
    let mut out: Vec<String> = Vec::new();
    let mut i: usize = 0;
    while i < v.len()
        invariant
            i <= v@.len(),
            out.deep_view() == v.deep_view().subrange(0, i as int),
        decreases v@.len() - i,
    {
        let ghost prev = out.deep_view();
        out.push(v[i].clone());
        i = i + 1;
        proof {
            assert(out.deep_view() =~= prev.push(v@[i - 1]@));
            assert(out.deep_view() =~= v.deep_view().subrange(0, i as int));
        }
    }
    proof {
        assert(v.deep_view().subrange(0, v.deep_view().len() as int) =~= v.deep_view());
    }
    out
}

/// An exact copy of an expression tree.
pub fn clone_expr(e: &Expression) -> (r: Expression)
    ensures
        view_expr(r) == view_expr(*e),
    decreases e,
{
    match e {
        Expression::Identifier(s) => Expression::Identifier(s.clone()),
        Expression::Number(n) => Expression::Number(*n),
        Expression::String(s) => Expression::String(s.clone()),
        Expression::Boolean(b) => Expression::Boolean(*b),
        Expression::Input => Expression::Input,
        Expression::List(v) => {
            let mut out: Vec<Expression> = Vec::new();
            let mut i: usize = 0;
            while i < v.len()
                invariant
                    *e == Expression::List(*v),
                    i <= v@.len(),
                    view_exprs(out@) == view_exprs(v@.subrange(0, i as int)),
                decreases v@.len() - i,
            {
                proof {
                    assert((*e)->List_0 == *v);
                    assert(decreases_to!(*e => (*e)->List_0));
                    assert(decreases_to!(*v => v@));
                    assert(decreases_to!(*e => v@));
                    assert(decreases_to!(v@ => v@[i as int]));
                }
                let c = clone_expr(&v[i]);
                let ghost prev = out@;
                out.push(c);
                i = i + 1;
                proof {
                    assert(v@.subrange(0, i as int).drop_last() =~= v@.subrange(0, i - 1));
                    assert(out@.drop_last() =~= prev);
                    assert(view_exprs(out@) =~= view_exprs(v@.subrange(0, i as int)));
                }
            }
            proof {
                assert(v@.subrange(0, v@.len() as int) =~= v@);
            }
            Expression::List(out)
        },
        Expression::BinaryOp { left, operator, right } => {
            let op = match operator {
                BinaryOperator::Add => BinaryOperator::Add,
                BinaryOperator::Subtract => BinaryOperator::Subtract,
                BinaryOperator::Multiply => BinaryOperator::Multiply,
                BinaryOperator::Divide => BinaryOperator::Divide,
                BinaryOperator::Concat => BinaryOperator::Concat,
                BinaryOperator::Equal => BinaryOperator::Equal,
                BinaryOperator::NotEqual => BinaryOperator::NotEqual,
                BinaryOperator::Less => BinaryOperator::Less,
                BinaryOperator::Greater => BinaryOperator::Greater,
                BinaryOperator::LessEqual => BinaryOperator::LessEqual,
                BinaryOperator::GreaterEqual => BinaryOperator::GreaterEqual,
            };
            Expression::BinaryOp {
                left: Box::new(clone_expr(left)),
                operator: op,
                right: Box::new(clone_expr(right)),
            }
        },
        Expression::UnaryOp { operator, operand } => {
            let op = match operator {
                UnaryOperator::Negate => UnaryOperator::Negate,
                UnaryOperator::Not => UnaryOperator::Not,
            };
            Expression::UnaryOp { operator: op, operand: Box::new(clone_expr(operand)) }
        },
        Expression::FunctionCall { name, arguments } => {
            let mut out: Vec<Expression> = Vec::new();
            let mut i: usize = 0;
            while i < arguments.len()
                invariant
                    *e matches Expression::FunctionCall { name: n2, arguments: a2 } && a2
                        == *arguments,
                    i <= arguments@.len(),
                    view_exprs(out@) == view_exprs(arguments@.subrange(0, i as int)),
                decreases arguments@.len() - i,
            {
                proof {
                    assert((*e)->FunctionCall_arguments == *arguments);
                    assert(decreases_to!(*e => (*e)->FunctionCall_arguments));
                    assert(decreases_to!(*arguments => arguments@));
                    assert(decreases_to!(*e => arguments@));
                    assert(decreases_to!(arguments@ => arguments@[i as int]));
                }
                let c = clone_expr(&arguments[i]);
                let ghost prev = out@;
                out.push(c);
                i = i + 1;
                proof {
                    assert(arguments@.subrange(0, i as int).drop_last() =~= arguments@.subrange(
                        0,
                        i - 1,
                    ));
                    assert(out@.drop_last() =~= prev);
                    assert(view_exprs(out@) =~= view_exprs(arguments@.subrange(0, i as int)));
                }
            }
            proof {
                assert(arguments@.subrange(0, arguments@.len() as int) =~= arguments@);
            }
            Expression::FunctionCall { name: name.clone(), arguments: out }
        },
        Expression::MethodCall { receiver, method, arguments } => {
            let mut out: Vec<Expression> = Vec::new();
            let mut i: usize = 0;
            while i < arguments.len()
                invariant
                    *e matches Expression::MethodCall { receiver: r2, method: m2, arguments: a2 }
                        && a2 == *arguments,
                    i <= arguments@.len(),
                    view_exprs(out@) == view_exprs(arguments@.subrange(0, i as int)),
                decreases arguments@.len() - i,
            {
                proof {
                    assert((*e)->MethodCall_arguments == *arguments);
                    assert(decreases_to!(*e => (*e)->MethodCall_arguments));
                    assert(decreases_to!(*arguments => arguments@));
                    assert(decreases_to!(*e => arguments@));
                    assert(decreases_to!(arguments@ => arguments@[i as int]));
                }
                let c = clone_expr(&arguments[i]);
                let ghost prev = out@;
                out.push(c);
                i = i + 1;
                proof {
                    assert(arguments@.subrange(0, i as int).drop_last() =~= arguments@.subrange(
                        0,
                        i - 1,
                    ));
                    assert(out@.drop_last() =~= prev);
                    assert(view_exprs(out@) =~= view_exprs(arguments@.subrange(0, i as int)));
                }
            }
            proof {
                assert(arguments@.subrange(0, arguments@.len() as int) =~= arguments@);
            }
            Expression::MethodCall {
                receiver: Box::new(clone_expr(receiver)),
                method: method.clone(),
                arguments: out,
            }
        },
        Expression::Index { object, index } => Expression::Index {
            object: Box::new(clone_expr(object)),
            index: Box::new(clone_expr(index)),
        },
    }
}

/// An exact copy of a vector of statements.
pub fn clone_stmts(v: &Vec<Statement>) -> (r: Vec<Statement>)
    ensures
        view_stmts(r@) == view_stmts(v@),
    decreases v@,
{
    let mut out: Vec<Statement> = Vec::new();
    let mut i: usize = 0;
    while i < v.len()
        invariant
            i <= v@.len(),
            view_stmts(out@) == view_stmts(v@.subrange(0, i as int)),
        decreases v@.len() - i,
    {
        proof {
            assert(decreases_to!(v@ => v@[i as int]));
        }
        let c = clone_stmt(&v[i]);
        let ghost prev = out@;
        out.push(c);
        i = i + 1;
        proof {
            assert(v@.subrange(0, i as int).drop_last() =~= v@.subrange(0, i - 1));
            assert(out@.drop_last() =~= prev);
            assert(view_stmts(out@) =~= view_stmts(v@.subrange(0, i as int)));
        }
    }
    proof {
        assert(v@.subrange(0, v@.len() as int) =~= v@);
    }
    out
}

/// An exact copy of a statement tree.
pub fn clone_stmt(st: &Statement) -> (r: Statement)
    ensures
        view_stmt(r) == view_stmt(*st),
    decreases st,
{
    match st {
        Statement::Let { name, value } => Statement::Let {
            name: name.clone(),
            value: clone_expr(value),
        },
        Statement::Print(e) => Statement::Print(clone_expr(e)),
        Statement::FunctionDef { name, parameters, body } => {
            proof {
                assert((*st)->FunctionDef_body == *body);
                assert(decreases_to!(*st => (*st)->FunctionDef_body));
                assert(decreases_to!(*body => body@));
                assert(decreases_to!(*st => body@));
            }
            Statement::FunctionDef {
                name: name.clone(),
                parameters: clone_strings(parameters),
                body: clone_stmts(body),
            }
        },
        Statement::If { condition, then_branch, else_branch } => {
            proof {
                assert((*st)->If_then_branch == *then_branch);
                assert(decreases_to!(*st => (*st)->If_then_branch));
                assert(decreases_to!(*then_branch => then_branch@));
                assert(decreases_to!(*st => then_branch@));
            }
            let eb = match else_branch {
                Some(b) => Some(Box::new(clone_stmt(b))),
                None => None,
            };
            Statement::If {
                condition: clone_expr(condition),
                then_branch: clone_stmts(then_branch),
                else_branch: eb,
            }
        },
        Statement::While { condition, body } => {
            proof {
                assert((*st)->While_body == *body);
                assert(decreases_to!(*st => (*st)->While_body));
                assert(decreases_to!(*body => body@));
                assert(decreases_to!(*st => body@));
            }
            Statement::While { condition: clone_expr(condition), body: clone_stmts(body) }
        },
        Statement::For { variable, iterable, body } => {
            proof {
                assert((*st)->For_body == *body);
                assert(decreases_to!(*st => (*st)->For_body));
                assert(decreases_to!(*body => body@));
                assert(decreases_to!(*st => body@));
            }
            Statement::For {
                variable: variable.clone(),
                iterable: clone_expr(iterable),
                body: clone_stmts(body),
            }
        },
        Statement::Break => Statement::Break,
        Statement::Continue => Statement::Continue,
        Statement::Return(e) => Statement::Return(clone_expr(e)),
        Statement::Expression(e) => Statement::Expression(clone_expr(e)),
    }
}

/// A user-defined function: its parameter names and its body.
#[derive(Debug)]
pub struct Function {
    pub parameters: Vec<String>,
    pub body: Vec<Statement>,
}

/// Mathematical model of a function definition.
#[verifier::ext_equal]
pub struct FunM {
    pub params: Seq<Seq<char>>,
    pub body: Seq<StmtM>,
}

impl View for Function {
    type V = FunM;

    open spec fn view(&self) -> FunM {
        FunM { params: self.parameters.deep_view(), body: view_stmts(self.body@) }
    }
}

/// An exact copy of a function definition.
pub fn clone_function(f: &Function) -> (r: Function)
    ensures
        r@ == f@,
{
    Function { parameters: clone_strings(&f.parameters), body: clone_stmts(&f.body) }
}

/// The Unicode uppercase form of a character sequence, a function of the
/// characters alone.  Only what the trusted wrapper states is known of it.
pub uninterp spec fn upper_of(s: Seq<char>) -> Seq<char>;

/// The Unicode lowercase form of a character sequence, a function of the
/// characters alone.  Only what the trusted wrapper states is known of it.
pub uninterp spec fn lower_of(s: Seq<char>) -> Seq<char>;

/// Relies on str::to_uppercase: the Unicode uppercase form of the string,
/// which depends on the characters alone; an empty string stays empty.
#[verifier::external_body]
fn str_to_upper(s: &str) -> (r: String)
    ensures
        r@ == upper_of(s@),
        s@.len() == 0 ==> r@.len() == 0,
{
    s.to_uppercase()
}

/// Relies on str::to_lowercase: the Unicode lowercase form of the string,
/// which depends on the characters alone; an empty string stays empty.
#[verifier::external_body]
fn str_to_lower(s: &str) -> (r: String)
    ensures
        r@ == lower_of(s@),
        s@.len() == 0 ==> r@.len() == 0,
{
    s.to_lowercase()
}

/// Whether the separator occurs in `s` at position `k`.
pub open spec fn sub_at(s: Seq<char>, sep: Seq<char>, k: int) -> bool {
    0 <= k && k + sep.len() <= s.len() && s.subrange(k, k + sep.len()) == sep
}

/// The first position at or after `k` where the separator occurs.
pub open spec fn find_sub(s: Seq<char>, sep: Seq<char>, k: int) -> Option<int>
    decreases s.len() - k,
{
    if !(0 <= k && sep.len() > 0 && k + sep.len() <= s.len()) {
        None
    } else if sub_at(s, sep, k) {
        Some(k)
    } else {
        find_sub(s, sep, k + 1)
    }
}

/// The pieces of `s` between occurrences of the separator, as string
/// values, in order.
pub open spec fn split_vals(s: Seq<char>, sep: Seq<char>) -> Seq<ValM>
    decreases s.len(),
{
    if sep.len() == 0 {
        seq![ValM::Str(s)]
    } else {
        match find_sub(s, sep, 0) {
            Some(k) => {
                if 0 <= k && k + sep.len() <= s.len() {
                    seq![ValM::Str(s.subrange(0, k))] + split_vals(
                        s.subrange(k + sep.len(), s.len() as int),
                        sep,
                    )
                } else {
                    seq![ValM::Str(s)]
                }
            },
            None => seq![ValM::Str(s)],
        }
    }
}

/// The display texts of the values, joined by the separator.
pub open spec fn join_with(es: Seq<ValM>, sep: Seq<char>) -> Seq<char>
    decreases es,
{
    if es.len() == 0 {
        Seq::empty()
    } else if es.len() == 1 {
        val_str(es[0])
    } else {
        join_with(es.drop_last(), sep) + sep + val_str(es.last())
    }
}

/// An index clamped into the closed range from zero to `n`.
pub open spec fn clamp_idx(i: i64, n: nat) -> int {
    if i < 0 {
        0
    } else if i > n {
        n as int
    } else {
        i as int
    }
}

/// The length of a string or list as a 64-bit integer, saturating at the
/// largest value.
pub open spec fn len_i64(n: nat) -> i64 {
    if n <= i64::MAX {
        n as i64
    } else {
        i64::MAX
    }
}

/// The error for a method name or arity outside the built-in method table.
pub open spec fn rt_unknown_method(name: Seq<char>) -> ErrM {
    ErrM::Runtime("Ba a gane hanyar '"@ + name + "' ba"@)
}

/// What a method call yields: a fixed table over the receiver type, the
/// method name and the argument count.  Several methods accept a second
/// spelling.
pub open spec fn spec_method(recv: ValM, name: Seq<char>, args: Seq<ValM>) -> Result<
    ValM,
    ErrM,
> {
    match recv {
        ValM::Str(sv) => {
            if name == "tsawo"@ && args.len() == 0 {
                Ok(ValM::Num(len_i64(sv.len())))
            } else if name == "babba"@ && args.len() == 0 {
                Ok(ValM::Str(upper_of(sv)))
            } else if (name == "karami"@ || name == "ƙarami"@) && args.len() == 0 {
                Ok(ValM::Str(lower_of(sv)))
            } else if name == "yanki"@ && args.len() == 2 && args[0] is Num && args[1] is Num {
                let a = clamp_idx(args[0]->Num_0, sv.len());
                let b = clamp_idx(args[1]->Num_0, sv.len());
                if a <= b {
                    Ok(ValM::Str(sv.subrange(a, b)))
                } else {
                    Err(
                        ErrM::Runtime(
                            "yanki: farkon ya fi ƙarshen girma (start exceeds end)"@,
                        ),
                    )
                }
            } else if name == "tsaga"@ && args.len() == 1 && args[0] is Str {
                let sep = args[0]->Str_0;
                if sep.len() == 0 {
                    Err(ErrM::Runtime("tsaga: ba a yarda da mai raba mara komai ba"@))
                } else {
                    Ok(ValM::List(split_vals(sv, sep)))
                }
            } else {
                Err(rt_unknown_method(name))
            }
        },
        ValM::List(es) => {
            if name == "tsawo"@ && args.len() == 0 {
                Ok(ValM::Num(len_i64(es.len())))
            } else if (name == "saka"@ || name == "sa"@) && args.len() == 1 {
                Ok(ValM::List(es.push(args[0])))
            } else if name == "ciro"@ && args.len() == 0 {
                if es.len() == 0 {
                    Err(ErrM::Runtime("ciro: jerin ba shi da komai (empty list)"@))
                } else {
                    Ok(ValM::List(es.drop_last()))
                }
            } else if (name == "hada"@ || name == "haɗa"@) && args.len() == 1 && args[0]
                is Str {
                Ok(ValM::Str(join_with(es, args[0]->Str_0)))
            } else {
                Err(rt_unknown_method(name))
            }
        },
        _ => Err(rt_unknown_method(name)),
    }
}

/// The characters of `v` between `a` and `b`, as a new vector.
fn char_range(v: &Vec<char>, a: usize, b: usize) -> (r: Vec<char>)
    requires
        a <= b <= v@.len(),
    ensures
        r@ == v@.subrange(a as int, b as int),
{
    let mut out: Vec<char> = Vec::new();
    let mut i: usize = a;
    while i < b
        invariant
            a <= i <= b <= v@.len(),
            out@ == v@.subrange(a as int, i as int),
        decreases b - i,
    {
        out.push(v[i]);
        i = i + 1;
        proof {
            assert(out@ =~= v@.subrange(a as int, i as int));
        }
    }
    out
}

/// The first occurrence of the separator in `v` at or after `from`.
fn find_sub_exec(v: &Vec<char>, sep: &Vec<char>, from: usize) -> (r: Option<usize>)
    requires
        sep@.len() > 0,
    ensures
        match r {
            Some(k) => find_sub(v@, sep@, from as int) == Some(k as int) && k + sep@.len()
                <= v@.len(),
            None => find_sub(v@, sep@, from as int) is None,
        },
    decreases v@.len() - from,
{
    let mut k: usize = from;
    loop
        invariant
            from <= k,
            sep@.len() > 0,
            find_sub(v@, sep@, from as int) == find_sub(v@, sep@, k as int),
        ensures
            find_sub(v@, sep@, from as int) == find_sub(v@, sep@, k as int),
            k + sep@.len() > v@.len() || sub_at(v@, sep@, k as int),
            k + sep@.len() > v@.len() ==> find_sub(v@, sep@, k as int) is None,
            v@.len() <= usize::MAX,
        decreases v@.len() - k,
    {
        let n = v.len();
        if k > n || sep.len() > n - k {
            break ;
        }
        // Compare sep against v at position k.
        let mut j: usize = 0;
        let mut matched = true;
        while j < sep.len()
            invariant
                k + sep@.len() <= v@.len(),
                v@.len() <= usize::MAX,
                j <= sep@.len(),
                matched ==> forall|q: int| 0 <= q < j ==> v@[k + q] == sep@[q],
                !matched ==> v@.subrange(k as int, k + sep@.len()) != sep@,
            decreases sep@.len() - j,
        {
            if v[k + j] != sep[j] {
                proof {
                    assert(v@.subrange(k as int, k + sep@.len())[j as int] != sep@[j as int]);
                }
                matched = false;
                j = sep.len();
            } else {
                j = j + 1;
            }
        }
        if matched {
            proof {
                assert(v@.subrange(k as int, k + sep@.len()) =~= sep@);
                assert(sub_at(v@, sep@, k as int));
            }
            break ;
        }
        proof {
            assert(!sub_at(v@, sep@, k as int));
        }
        k = k + 1;
    }
    if k <= v.len() && sep.len() <= v.len() - k {
        proof {
            assert(sub_at(v@, sep@, k as int));
        }
        Some(k)
    } else {
        None
    }
}

/// Splits the characters of `v` by the separator, yielding the pieces as
/// string values.
fn split_exec(v: &Vec<char>, sep: &Vec<char>) -> (r: Vec<Value>)
    requires
        sep@.len() > 0,
    ensures
        view_vals(r@) == split_vals(v@, sep@),
    decreases v@.len(),
{
    match find_sub_exec(v, sep, 0) {
        Some(k) => {
            let piece = crate::text::chars_to_string(v, 0, k);
            let n = v.len();
            let rest = char_range(v, k + sep.len(), n);
            let mut out = split_exec(&rest, sep);
            let ghost tail_vals = view_vals(out@);
            let ghost tail_seq = out@;
            out.insert(0, Value::String(piece));
            proof {
                assert(out@.drop_first() =~= tail_seq);
                assert(view_vals(out@) =~~= seq![ValM::Str(v@.subrange(0, k as int))]
                    + tail_vals) by {
                    lemma_view_vals_cons(out@);
                }
            }
            out
        },
        None => {
            let n = v.len();
            let piece = crate::text::chars_to_string(v, 0, n);
            let ghost pv = piece@;
            proof {
                assert(v@.subrange(0, v@.len() as int) =~= v@);
                assert(pv == v@);
            }
            let mut out: Vec<Value> = Vec::new();
            out.push(Value::String(piece));
            proof {
                assert(out@.drop_last() =~= Seq::<Value>::empty());
                assert(view_vals(Seq::<Value>::empty()) =~= Seq::<ValM>::empty());
                assert(view_val(out@.last()) == ValM::Str(pv));
                assert(view_vals(out@) =~= seq![ValM::Str(v@)]);
            }
            out
        },
    }
}

/// The model of a non-empty value sequence is its first element's model
/// followed by the model of the rest.
proof fn lemma_view_vals_cons(v: Seq<Value>)
    requires
        v.len() > 0,
    ensures
        view_vals(v) == seq![view_val(v.first())] + view_vals(v.drop_first()),
    decreases v.len(),
{
    if v.len() == 1 {
        assert(v.drop_last() =~= Seq::<Value>::empty());
        assert(v.drop_first() =~= Seq::<Value>::empty());
        assert(view_vals(v) =~= seq![view_val(v.first())] + view_vals(v.drop_first()));
    } else {
        lemma_view_vals_cons(v.drop_last());
        assert(v.drop_last().first() == v.first());
        assert(v.drop_last().drop_first() =~= v.drop_first().drop_last());
        assert(v.drop_first().last() == v.last());
        assert(view_vals(v) =~= seq![view_val(v.first())] + view_vals(v.drop_first()));
    }
}

/// The whole interpreter state: the scope stack (index zero is the global
/// scope), the global function table, the emitted output, the pending input
/// lines, and the remaining work budget.
#[verifier::ext_equal]
pub struct StateM {
    pub scopes: Seq<Map<Seq<char>, ValM>>,
    pub funcs: Map<Seq<char>, FunM>,
    pub output: Seq<Seq<char>>,
    pub inputs: Seq<Seq<char>>,
    pub fuel: nat,
}

/// What a statement execution signals to its enclosing statement list.
pub enum Outcome {
    Normal,
    Ret(ValM),
    Brk,
    Cont,
}

/// The value bound to a name, searched from the innermost scope outwards.
pub open spec fn lookup(scopes: Seq<Map<Seq<char>, ValM>>, name: Seq<char>) -> Option<ValM>
    decreases scopes.len(),
{
    if scopes.len() == 0 {
        None
    } else if scopes.last().contains_key(name) {
        Some(scopes.last()[name])
    } else {
        lookup(scopes.drop_last(), name)
    }
}

/// The state with `name` bound to `v` in the innermost scope.
pub open spec fn set_top(st: StateM, name: Seq<char>, v: ValM) -> StateM {
    StateM {
        scopes: st.scopes.update(
            st.scopes.len() - 1,
            st.scopes.last().insert(name, v),
        ),
        ..st
    }
}

/// The state with one unit of work spent.
pub open spec fn tick(st: StateM) -> StateM {
    StateM { fuel: (st.fuel - 1) as nat, ..st }
}

/// The error reported when the work budget is exhausted; it stands in for
/// the host running out of stack.
pub open spec fn rt_depth() -> ErrM {
    ErrM::Runtime("An wuce iyakar aiki (work limit reached)"@)
}

/// A progress marker for the semantics: the budget strictly shrinks with
/// every step, so no run ever produces this error.
pub open spec fn rt_stuck() -> ErrM {
    ErrM::Runtime(Seq::empty())
}

/// The error for a variable that no scope defines.
pub open spec fn rt_var_not_found(name: Seq<char>) -> ErrM {
    ErrM::Runtime("Babu irin wannan mai canjin '"@ + name + "' da aka rubuta"@)
}

/// The error for a call to a function that the table does not hold.
pub open spec fn rt_fn_not_found(name: Seq<char>) -> ErrM {
    ErrM::Runtime("Fonction '"@ + name + "' ba a gani ba (fonction non trouvée)"@)
}

/// The error for a call with the wrong number of arguments, citing the
/// expected and the actual counts.
pub open spec fn rt_arity(name: Seq<char>, expected: nat, actual: nat) -> ErrM {
    ErrM::Runtime(
        "Fonction '"@ + name + "' tana bukata "@ + dec_str(expected as int)
            + " argument(s), amma "@ + dec_str(actual as int) + " an bayar (fonction '"@ + name
            + "' attend "@ + dec_str(expected as int) + " argument(s), mais "@ + dec_str(
            actual as int,
        ) + " fourni(s))"@,
    )
}

/// The error for a for loop whose iterable is not a list.
pub open spec fn rt_for_needs_list(v: ValM) -> ErrM {
    ErrM::Runtime("Ana bukatar jerin abu a madauki (for loop needs a list)"@)
}

/// The error for a failed input read.
pub open spec fn rt_input_failed() -> ErrM {
    ErrM::Runtime("Ba za a iya karba shigarwa ba (Impossible de lire l'entrée)"@)
}

/// Whitespace trimmed from both ends of an input line.
pub open spec fn in_ws(c: char) -> bool {
    c == ' ' || c == '\t' || c == '\r' || c == '\n'
}

/// The end of the leading whitespace run of an input line.
pub open spec fn ws_end(t: Seq<char>, i: int) -> int
    decreases t.len() - i,
{
    if 0 <= i < t.len() && in_ws(t[i]) {
        ws_end(t, i + 1)
    } else {
        i
    }
}

/// The start of the trailing whitespace run of an input line.
pub open spec fn ws_rbegin(t: Seq<char>, i: int) -> int
    decreases i,
{
    if 0 < i <= t.len() && in_ws(t[i - 1]) {
        ws_rbegin(t, i - 1)
    } else {
        i
    }
}

/// The input line with leading and trailing whitespace removed.
pub open spec fn trim_ws(t: Seq<char>) -> Seq<char> {
    let a = ws_end(t, 0);
    let b = ws_rbegin(t, t.len() as int);
    if a < b {
        t.subrange(a, b)
    } else {
        Seq::empty()
    }
}

/// The digit run of an integer literal, past its optional sign.
pub open spec fn int_digits(t: Seq<char>) -> Seq<char> {
    if t.len() > 0 && (t[0] == '-' || t[0] == '+') {
        t.subrange(1, t.len() as int)
    } else {
        t
    }
}

/// Whether the literal is negative.
pub open spec fn int_is_neg(t: Seq<char>) -> bool {
    t.len() > 0 && t[0] == '-'
}

/// Whether the trimmed input line is a 64-bit integer literal.
pub open spec fn is_int_lit(t: Seq<char>) -> bool {
    let ds = int_digits(t);
    &&& ds.len() > 0
    &&& forall|j: int| 0 <= j < ds.len() ==> digit(ds[j])
    &&& (if int_is_neg(t) {
        crate::text::digits_val(ds) <= -(i64::MIN as int)
    } else {
        crate::text::digits_val(ds) <= i64::MAX
    })
}

/// The value a trimmed input line denotes: its integer value when it is an
/// integer literal, and the raw text otherwise.
pub open spec fn input_val(t: Seq<char>) -> ValM {
    if is_int_lit(t) {
        if int_is_neg(t) {
            ValM::Num((-crate::text::digits_val(int_digits(t))) as i64)
        } else {
            ValM::Num(crate::text::digits_val(int_digits(t)) as i64)
        }
    } else {
        ValM::Str(t)
    }
}

/// The parameters bound positionally to the argument values, as one scope.
pub open spec fn bind_params(params: Seq<Seq<char>>, vals: Seq<ValM>) -> Map<Seq<char>, ValM>
    decreases params.len(),
{
    if params.len() == 0 || vals.len() == 0 {
        Map::empty()
    } else {
        bind_params(params.drop_last(), vals.drop_last()).insert(params.last(), vals.last())
    }
}

/// Evaluates an expression: the value it yields and the state it leaves, or
/// the error it raises and the state at that point.
pub open spec fn spec_eval(st: StateM, e: ExprM) -> Result<(StateM, ValM), (StateM, ErrM)>
    decreases st.fuel, 1int,
{
    if st.fuel == 0 {
        Err((st, rt_depth()))
    } else {
        let stt = tick(st);
        match e {
            ExprM::Num(n) => Ok((stt, ValM::Num(n))),
            ExprM::Str(sv) => Ok((stt, ValM::Str(sv))),
            ExprM::Bool(b) => Ok((stt, ValM::Bool(b))),
            ExprM::Ident(name) => match lookup(stt.scopes, name) {
                Some(v) => Ok((stt, v)),
                None => Err((stt, rt_var_not_found(name))),
            },
            ExprM::List(es) => match spec_eval_list(stt, es) {
                Ok((s1, vs)) => Ok((s1, ValM::List(vs))),
                Err(e1) => Err(e1),
            },
            ExprM::BinOp { left, op, right } => match spec_eval(stt, *left) {
                Ok((s1, lv)) => {
                    if s1.fuel < st.fuel {
                        match spec_eval(s1, *right) {
                            Ok((s2, rv)) => match spec_binop(lv, op, rv) {
                                Ok(v) => Ok((s2, v)),
                                Err(em) => Err((s2, em)),
                            },
                            Err(e1) => Err(e1),
                        }
                    } else {
                        Err((s1, rt_stuck()))
                    }
                },
                Err(e1) => Err(e1),
            },
            ExprM::UnOp { op, operand } => match spec_eval(stt, *operand) {
                Ok((s1, v)) => match spec_unop(op, v) {
                    Ok(v2) => Ok((s1, v2)),
                    Err(em) => Err((s1, em)),
                },
                Err(e1) => Err(e1),
            },
            ExprM::IndexOp { obj, idx } => match spec_eval(stt, *obj) {
                Ok((s1, ov)) => {
                    if s1.fuel < st.fuel {
                        match spec_eval(s1, *idx) {
                            Ok((s2, iv)) => match spec_index(ov, iv) {
                                Ok(v) => Ok((s2, v)),
                                Err(em) => Err((s2, em)),
                            },
                            Err(e1) => Err(e1),
                        }
                    } else {
                        Err((s1, rt_stuck()))
                    }
                },
                Err(e1) => Err(e1),
            },
            ExprM::Method { recv, name, args } => match spec_eval(stt, *recv) {
                Ok((s1, rv)) => {
                    if s1.fuel < st.fuel {
                        match spec_eval_list(s1, args) {
                            Ok((s2, avs)) => match spec_method(rv, name, avs) {
                                Ok(v) => Ok((s2, v)),
                                Err(em) => Err((s2, em)),
                            },
                            Err(e1) => Err(e1),
                        }
                    } else {
                        Err((s1, rt_stuck()))
                    }
                },
                Err(e1) => Err(e1),
            },
            ExprM::Call { name, args } => {
                if !stt.funcs.contains_key(name) {
                    Err((stt, rt_fn_not_found(name)))
                } else {
                    let f = stt.funcs[name];
                    if f.params.len() != args.len() {
                        Err((stt, rt_arity(name, f.params.len(), args.len())))
                    } else {
                        match spec_eval_list(stt, args) {
                            Ok((s1, vs)) => {
                                if s1.fuel < st.fuel {
                                    let sc = StateM {
                                        scopes: s1.scopes.push(bind_params(f.params, vs)),
                                        ..s1
                                    };
                                    match spec_exec_stmts(sc, f.body) {
                                        Ok((s2, o)) => {
                                            let rv = match o {
                                                Outcome::Ret(v) => v,
                                                _ => ValM::Num(0),
                                            };
                                            let sp = StateM {
                                                scopes: s2.scopes.drop_last(),
                                                ..s2
                                            };
                                            Ok((sp, rv))
                                        },
                                        Err(e1) => Err(e1),
                                    }
                                } else {
                                    Err((s1, rt_stuck()))
                                }
                            },
                            Err(e1) => Err(e1),
                        }
                    }
                }
            },
            ExprM::Input => {
                let sp = StateM { output: stt.output.push("Rubuta abu: "@), ..stt };
                if sp.inputs.len() == 0 {
                    Err((sp, rt_input_failed()))
                } else {
                    let line = sp.inputs[0];
                    let s2 = StateM {
                        inputs: sp.inputs.subrange(1, sp.inputs.len() as int),
                        ..sp
                    };
                    Ok((s2, input_val(trim_ws(line))))
                }
            },
        }
    }
}

/// Evaluates a sequence of expressions left to right, threading the state.
pub open spec fn spec_eval_list(st: StateM, es: Seq<ExprM>) -> Result<
    (StateM, Seq<ValM>),
    (StateM, ErrM),
>
    decreases st.fuel, 2int, es.len(),
{
    if es.len() == 0 {
        Ok((st, Seq::empty()))
    } else {
        match spec_eval(st, es[0]) {
            Ok((s1, v)) => {
                if s1.fuel < st.fuel {
                    match spec_eval_list(s1, es.subrange(1, es.len() as int)) {
                        Ok((s2, vs)) => Ok((s2, seq![v] + vs)),
                        Err(e1) => Err(e1),
                    }
                } else {
                    Err((s1, rt_stuck()))
                }
            },
            Err(e1) => Err(e1),
        }
    }
}

/// Executes one statement: the outcome it signals and the state it leaves.
pub open spec fn spec_exec_stmt(st: StateM, s: StmtM) -> Result<
    (StateM, Outcome),
    (StateM, ErrM),
>
    decreases st.fuel, 3int,
{
    if st.fuel == 0 {
        Err((st, rt_depth()))
    } else {
        let stt = tick(st);
        match s {
            StmtM::Let { name, value } => match spec_eval(stt, value) {
                Ok((s1, v)) => Ok((set_top(s1, name, v), Outcome::Normal)),
                Err(e1) => Err(e1),
            },
            StmtM::Print(e) => match spec_eval(stt, e) {
                Ok((s1, v)) => Ok(
                    (StateM { output: s1.output.push(val_str(v)), ..s1 }, Outcome::Normal),
                ),
                Err(e1) => Err(e1),
            },
            StmtM::FunctionDef { name, params, body } => Ok(
                (
                    StateM {
                        funcs: stt.funcs.insert(name, FunM { params, body }),
                        ..stt
                    },
                    Outcome::Normal,
                ),
            ),
            StmtM::If { cond, then_b, else_b } => match spec_eval(stt, cond) {
                Ok((s1, cv)) => {
                    if s1.fuel < st.fuel {
                        if truthy(cv) {
                            spec_exec_stmts(s1, then_b)
                        } else {
                            match else_b {
                                Some(b) => spec_exec_stmt(s1, *b),
                                None => Ok((s1, Outcome::Normal)),
                            }
                        }
                    } else {
                        Err((s1, rt_stuck()))
                    }
                },
                Err(e1) => Err(e1),
            },
            StmtM::While { cond, body } => match spec_eval(stt, cond) {
                Ok((s1, cv)) => {
                    if s1.fuel < st.fuel {
                        if !truthy(cv) {
                            Ok((s1, Outcome::Normal))
                        } else {
                            match spec_exec_stmts(s1, body) {
                                Ok((s2, o)) => match o {
                                    Outcome::Ret(v) => Ok((s2, Outcome::Ret(v))),
                                    Outcome::Brk => Ok((s2, Outcome::Normal)),
                                    _ => {
                                        if s2.fuel < st.fuel {
                                            spec_exec_stmt(s2, s)
                                        } else {
                                            Err((s2, rt_stuck()))
                                        }
                                    },
                                },
                                Err(e1) => Err(e1),
                            }
                        }
                    } else {
                        Err((s1, rt_stuck()))
                    }
                },
                Err(e1) => Err(e1),
            },
            StmtM::For { var, iter, body } => match spec_eval(stt, iter) {
                Ok((s1, iv)) => match iv {
                    ValM::List(items) => {
                        if s1.fuel < st.fuel {
                            spec_for_each(s1, var, items, body)
                        } else {
                            Err((s1, rt_stuck()))
                        }
                    },
                    other => Err((s1, rt_for_needs_list(other))),
                },
                Err(e1) => Err(e1),
            },
            StmtM::Break => Ok((stt, Outcome::Brk)),
            StmtM::Continue => Ok((stt, Outcome::Cont)),
            StmtM::Return(e) => match spec_eval(stt, e) {
                Ok((s1, v)) => Ok((s1, Outcome::Ret(v))),
                Err(e1) => Err(e1),
            },
            StmtM::Expr(e) => match spec_eval(stt, e) {
                Ok((s1, v)) => Ok((s1, Outcome::Normal)),
                Err(e1) => Err(e1),
            },
        }
    }
}

/// Executes a statement list in order, stopping at the first non-normal
/// outcome or error.
pub open spec fn spec_exec_stmts(st: StateM, ss: Seq<StmtM>) -> Result<
    (StateM, Outcome),
    (StateM, ErrM),
>
    decreases st.fuel, 4int, ss.len(),
{
    if ss.len() == 0 {
        Ok((st, Outcome::Normal))
    } else {
        match spec_exec_stmt(st, ss[0]) {
            Ok((s1, o)) => match o {
                Outcome::Normal => {
                    if s1.fuel < st.fuel {
                        spec_exec_stmts(s1, ss.subrange(1, ss.len() as int))
                    } else {
                        Err((s1, rt_stuck()))
                    }
                },
                other => Ok((s1, other)),
            },
            Err(e1) => Err(e1),
        }
    }
}

/// Runs a loop body once for each list element in order, binding the loop
/// variable in the current scope, and consuming one unit of work per
/// element.
pub open spec fn spec_for_each(
    st: StateM,
    var: Seq<char>,
    items: Seq<ValM>,
    body: Seq<StmtM>,
) -> Result<(StateM, Outcome), (StateM, ErrM)>
    decreases st.fuel, 5int, items.len(),
{
    if items.len() == 0 {
        Ok((st, Outcome::Normal))
    } else if st.fuel == 0 {
        Err((st, rt_depth()))
    } else {
        let sb = set_top(tick(st), var, items[0]);
        match spec_exec_stmts(sb, body) {
            Ok((s1, o)) => match o {
                Outcome::Ret(v) => Ok((s1, Outcome::Ret(v))),
                Outcome::Brk => Ok((s1, Outcome::Normal)),
                _ => {
                    if s1.fuel < st.fuel {
                        spec_for_each(s1, var, items.subrange(1, items.len() as int), body)
                    } else {
                        Err((s1, rt_stuck()))
                    }
                },
            },
            Err(e1) => Err(e1),
        }
    }
}

/// Executes a whole program: every statement in order, with every outcome
/// treated as normal at the top level.
pub open spec fn spec_exec_program(st: StateM, ss: Seq<StmtM>) -> Result<
    StateM,
    (StateM, ErrM),
>
    decreases st.fuel, 6int, ss.len(),
{
    if ss.len() == 0 {
        Ok(st)
    } else {
        match spec_exec_stmt(st, ss[0]) {
            Ok((s1, o)) => {
                if s1.fuel < st.fuel {
                    spec_exec_program(s1, ss.subrange(1, ss.len() as int))
                } else {
                    Err((s1, rt_stuck()))
                }
            },
            Err(e1) => Err(e1),
        }
    }
}

proof fn lemma_view_vals_props(v: Seq<Value>)
    ensures
        view_vals(v).len() == v.len(),
        forall|i: int| 0 <= i < v.len() ==> view_vals(v)[i] == view_val(v[i]),
    decreases v.len(),
{
    if v.len() > 0 {
        lemma_view_vals_props(v.drop_last());
        assert(forall|i: int|
            0 <= i < v.len() - 1 ==> v.drop_last()[i] == v[i] && view_vals(v)[i] == view_vals(
                v.drop_last(),
            )[i]);
    }
}

proof fn lemma_view_exprs_props(v: Seq<Expression>)
    ensures
        view_exprs(v).len() == v.len(),
        forall|i: int| 0 <= i < v.len() ==> view_exprs(v)[i] == view_expr(v[i]),
    decreases v.len(),
{
    if v.len() > 0 {
        lemma_view_exprs_props(v.drop_last());
        assert(forall|i: int|
            0 <= i < v.len() - 1 ==> v.drop_last()[i] == v[i] && view_exprs(v)[i] == view_exprs(
                v.drop_last(),
            )[i]);
    }
}

proof fn lemma_view_stmts_props(v: Seq<Statement>)
    ensures
        view_stmts(v).len() == v.len(),
        forall|i: int| 0 <= i < v.len() ==> view_stmts(v)[i] == view_stmt(v[i]),
    decreases v.len(),
{
    if v.len() > 0 {
        lemma_view_stmts_props(v.drop_last());
        assert(forall|i: int|
            0 <= i < v.len() - 1 ==> v.drop_last()[i] == v[i] && view_stmts(v)[i] == view_stmts(
                v.drop_last(),
            )[i]);
    }
}

/// The map a name-to-value association list denotes: later entries win.
pub open spec fn assoc_val_view(s: Seq<(String, Value)>) -> Map<Seq<char>, ValM>
    decreases s.len(),
{
    if s.len() == 0 {
        Map::empty()
    } else {
        assoc_val_view(s.drop_last()).insert(s.last().0@, view_val(s.last().1))
    }
}

/// The map a name-to-function association list denotes: later entries win.
pub open spec fn assoc_fun_view(s: Seq<(String, Function)>) -> Map<Seq<char>, FunM>
    decreases s.len(),
{
    if s.len() == 0 {
        Map::empty()
    } else {
        assoc_fun_view(s.drop_last()).insert(s.last().0@, s.last().1@)
    }
}

proof fn lemma_assoc_val_absent(s: Seq<(String, Value)>, k: Seq<char>)
    requires
        forall|j: int| 0 <= j < s.len() ==> s[j].0@ != k,
    ensures
        !assoc_val_view(s).contains_key(k),
    decreases s.len(),
{
    if s.len() > 0 {
        lemma_assoc_val_absent(s.drop_last(), k);
    }
}

proof fn lemma_assoc_val_found(s: Seq<(String, Value)>, k: Seq<char>, j: int)
    requires
        0 <= j < s.len(),
        s[j].0@ == k,
        forall|q: int| j < q < s.len() ==> s[q].0@ != k,
    ensures
        assoc_val_view(s).contains_key(k),
        assoc_val_view(s)[k] == view_val(s[j].1),
    decreases s.len(),
{
    if j == s.len() - 1 {
    } else {
        lemma_assoc_val_found(s.drop_last(), k, j);
    }
}

proof fn lemma_assoc_fun_absent(s: Seq<(String, Function)>, k: Seq<char>)
    requires
        forall|j: int| 0 <= j < s.len() ==> s[j].0@ != k,
    ensures
        !assoc_fun_view(s).contains_key(k),
    decreases s.len(),
{
    if s.len() > 0 {
        lemma_assoc_fun_absent(s.drop_last(), k);
    }
}

proof fn lemma_assoc_fun_found(s: Seq<(String, Function)>, k: Seq<char>, j: int)
    requires
        0 <= j < s.len(),
        s[j].0@ == k,
        forall|q: int| j < q < s.len() ==> s[q].0@ != k,
    ensures
        assoc_fun_view(s).contains_key(k),
        assoc_fun_view(s)[k] == s[j].1@,
    decreases s.len(),
{
    if j == s.len() - 1 {
    } else {
        lemma_assoc_fun_found(s.drop_last(), k, j);
    }
}

/// Applies a unary operator to a value.
fn apply_unop(op: UnaryOperator, v: Value) -> (r: Result<Value, Error>)
    ensures
        match spec_unop(op, v@) {
            Ok(m) => r matches Ok(rv) && rv@ == m,
            Err(em) => r matches Err(er) && er@ == em,
        },
{
    match (op, v) {
        (UnaryOperator::Negate, Value::Number(n)) => {
            if n == i64::MIN {
                Ok(Value::Number(i64::MIN))
            } else {
                Ok(Value::Number(-n))
            }
        },
        (UnaryOperator::Not, Value::Boolean(b)) => Ok(Value::Boolean(!b)),
        (o, vv) => {
            let ow = match o {
                UnaryOperator::Negate => "-",
                UnaryOperator::Not => "!",
            };
            let m = String::from_str("Ba za a iya amfani da '").concat(ow).concat(
                "' da ",
            );
            let m2 = m.concat(vv.kind_name());
            proof {
                assert(m2@ =~= "Ba za a iya amfani da '"@ + un_op_name(o) + "' da "@
                    + type_name_of(vv@));
            }
            Err(Error::RuntimeError(m2))
        },
    }
}

/// Applies indexing to a receiver and an index value.
fn apply_index(recv: Value, idx: Value) -> (r: Result<Value, Error>)
    ensures
        match spec_index(recv@, idx@) {
            Ok(m) => r matches Ok(rv) && rv@ == m,
            Err(em) => r matches Err(er) && er@ == em,
        },
{
    match (recv, idx) {
        (Value::List(es), Value::Number(i)) => {
            proof {
                lemma_view_vals_props(es@);
            }
            let n = es.len();
            if i >= 0 {
                if (i as u64) < (n as u64) {
                    Ok(clone_value(&es[i as usize]))
                } else {
                    Err(Error::runtime_error("Lambar wuri ta wuce iyaka (index out of bounds)"))
                }
            } else {
                let m: u64 = ((-(i + 1)) as u64) + 1;
                if m <= (n as u64) {
                    let k = n - (m as usize);
                    Ok(clone_value(&es[k]))
                } else {
                    Err(Error::runtime_error("Lambar wuri ta wuce iyaka (index out of bounds)"))
                }
            }
        },
        (Value::String(sv), Value::Number(i)) => {
            let n = sv.as_str().unicode_len();
            if i >= 0 {
                if (i as u64) < (n as u64) {
                    let c = sv.as_str().get_char(i as usize);
                    let mut out = String::new();
                    push_char(&mut out, c);
                    proof {
                        assert(out@ =~= seq![sv@[i as int]]);
                    }
                    Ok(Value::String(out))
                } else {
                    Err(Error::runtime_error("Lambar wuri ta wuce iyaka (index out of bounds)"))
                }
            } else {
                let m: u64 = ((-(i + 1)) as u64) + 1;
                if m <= (n as u64) {
                    let k = n - (m as usize);
                    let c = sv.as_str().get_char(k);
                    let mut out = String::new();
                    push_char(&mut out, c);
                    proof {
                        assert(out@ =~= seq![sv@[sv@.len() + i]]);
                    }
                    Ok(Value::String(out))
                } else {
                    Err(Error::runtime_error("Lambar wuri ta wuce iyaka (index out of bounds)"))
                }
            }
        },
        (rv, iv) => {
            let m = String::from_str("Ba za a iya amfani da '[]' tsakanin ").concat(
                rv.kind_name(),
            ).concat(" da ").concat(iv.kind_name());
            proof {
                assert(m@ =~= "Ba za a iya amfani da '[]' tsakanin "@ + type_name_of(rv@)
                    + " da "@ + type_name_of(iv@));
            }
            Err(Error::RuntimeError(m))
        },
    }
}

/// The error naming an unknown method.
fn unknown_method_error(name: &String) -> (r: Error)
    ensures
        r@ == rt_unknown_method(name@),
{
    let m = String::from_str("Ba a gane hanyar '").concat(name.as_str()).concat("' ba");
    Error::RuntimeError(m)
}

/// Applies a built-in method to a receiver and its evaluated arguments.
fn apply_method(recv: Value, name: &String, args: Vec<Value>) -> (r: Result<Value, Error>)
    ensures
        match spec_method(recv@, name@, view_vals(args@)) {
            Ok(m) => r matches Ok(rv) && rv@ == m,
            Err(em) => r matches Err(er) && er@ == em,
        },
{
    proof {
        lemma_view_vals_props(args@);
    }
    match recv {
        Value::String(sv) => {
            if str_eq(name.as_str(), "tsawo") && args.len() == 0 {
                let l = sv.as_str().unicode_len();
                if (l as u64) <= (i64::MAX as u64) {
                    Ok(Value::Number(l as i64))
                } else {
                    Ok(Value::Number(i64::MAX))
                }
            } else if str_eq(name.as_str(), "babba") && args.len() == 0 {
                Ok(Value::String(str_to_upper(sv.as_str())))
            } else if (str_eq(name.as_str(), "karami") || str_eq(name.as_str(), "ƙarami"))
                && args.len() == 0 {
                Ok(Value::String(str_to_lower(sv.as_str())))
            } else if str_eq(name.as_str(), "yanki") && args.len() == 2 && matches!(
                args[0],
                Value::Number(_),
            ) && matches!(args[1], Value::Number(_)) {
                let av = match &args[0] {
                    Value::Number(a) => *a,
                    _ => 0,
                };
                let bv = match &args[1] {
                    Value::Number(b) => *b,
                    _ => 0,
                };
                let n = sv.as_str().unicode_len();
                let a2 = clamp_exec(av, n);
                let b2 = clamp_exec(bv, n);
                if a2 <= b2 {
                    let piece = sv.as_str().substring_char(a2, b2);
                    Ok(Value::String(piece.to_owned()))
                } else {
                    Err(
                        Error::runtime_error(
                            "yanki: farkon ya fi ƙarshen girma (start exceeds end)",
                        ),
                    )
                }
            } else if str_eq(name.as_str(), "tsaga") && args.len() == 1 && matches!(
                args[0],
                Value::String(_),
            ) {
                let sep = match &args[0] {
                    Value::String(x) => x,
                    _ => &sv,
                };
                if sep.as_str().unicode_len() == 0 {
                    Err(Error::runtime_error("tsaga: ba a yarda da mai raba mara komai ba"))
                } else {
                    let vchars = crate::text::str_chars(sv.as_str());
                    let schars = crate::text::str_chars(sep.as_str());
                    Ok(Value::List(split_exec(&vchars, &schars)))
                }
            } else {
                Err(unknown_method_error(name))
            }
        },
        Value::List(es) => {
            if str_eq(name.as_str(), "tsawo") && args.len() == 0 {
                proof {
                    lemma_view_vals_props(es@);
                }
                let l = es.len();
                if (l as u64) <= (i64::MAX as u64) {
                    Ok(Value::Number(l as i64))
                } else {
                    Ok(Value::Number(i64::MAX))
                }
            } else if (str_eq(name.as_str(), "saka") || str_eq(name.as_str(), "sa"))
                && args.len() == 1 {
                let ghost a0m = view_vals(args@)[0];
                let mut args = args;
                let a0 = match args.pop() {
                    Some(x) => x,
                    None => Value::Number(0),
                };
                proof {
                    assert(view_val(a0) == a0m);
                }
                let ghost esv = view_vals(es@);
                let ghost es0 = es@;
                let mut es = es;
                es.push(a0);
                proof {
                    assert(es@.drop_last() =~= es0);
                    assert(view_vals(es@) =~= esv.push(view_val(es@.last())));
                    assert(view_val(es@.last()) == a0m);
                }
                Ok(Value::List(es))
            } else if str_eq(name.as_str(), "ciro") && args.len() == 0 {
                proof {
                    lemma_view_vals_props(es@);
                }
                if es.len() == 0 {
                    Err(Error::runtime_error("ciro: jerin ba shi da komai (empty list)"))
                } else {
                    let mut es = es;
                    let ghost before = es@;
                    let dropped = es.pop();
                    proof {
                        assert(es@ =~= before.drop_last());
                        assert(view_vals(before).drop_last() =~= view_vals(before.drop_last()));
                    }
                    Ok(Value::List(es))
                }
            } else if (str_eq(name.as_str(), "hada") || str_eq(name.as_str(), "haɗa"))
                && args.len() == 1 && matches!(args[0], Value::String(_)) {
                let sep = match &args[0] {
                    Value::String(x) => x.clone(),
                    _ => String::new(),
                };
                let mut out = String::new();
                let mut i: usize = 0;
                proof {
                    lemma_view_vals_props(es@);
                }
                while i < es.len()
                    invariant
                        i <= es@.len(),
                        out@ == join_with(view_vals(es@.subrange(0, i as int)), sep@),
                    decreases es@.len() - i,
                {
                    if i > 0 {
                        out = out.concat(sep.as_str());
                    }
                    let piece = es[i].to_string();
                    out = out.concat(piece.as_str());
                    i = i + 1;
                    proof {
                        let pre = es@.subrange(0, i - 1);
                        let now = es@.subrange(0, i as int);
                        assert(now.drop_last() =~= pre);
                        assert(now.last() == es@[i - 1]);
                        assert(view_vals(now).drop_last() =~= view_vals(pre));
                        assert(out@ =~= join_with(view_vals(now), sep@));
                    }
                }
                proof {
                    assert(es@.subrange(0, es@.len() as int) =~= es@);
                }
                Ok(Value::String(out))
            } else {
                Err(unknown_method_error(name))
            }
        },
        _ => Err(unknown_method_error(name)),
    }
}

/// An index clamped into the closed range from zero to the length.
fn clamp_exec(i: i64, n: usize) -> (r: usize)
    ensures
        r as int == clamp_idx(i, n as nat),
{
    if i < 0 {
        0
    } else if (i as u64) > (n as u64) {
        n
    } else {
        i as usize
    }
}

/// The value an input line denotes: an integer when the trimmed line is an
/// integer literal, the trimmed text otherwise.
fn parse_input_value(line: &str) -> (v: Value)
    ensures
        v@ == input_val(trim_ws(line@)),
{
    let chars = crate::text::str_chars(line);
    let n = chars.len();
    let mut a: usize = 0;
    while a < n && (chars[a] == ' ' || chars[a] == '\t' || chars[a] == '\r' || chars[a]
        == '\n')
        invariant
            n == chars@.len(),
            chars@ == line@,
            0 <= a <= n,
            ws_end(line@, 0) == ws_end(line@, a as int),
        decreases n - a,
    {
        a = a + 1;
    }
    let mut b: usize = n;
    while b > 0 && (chars[b - 1] == ' ' || chars[b - 1] == '\t' || chars[b - 1] == '\r'
        || chars[b - 1] == '\n')
        invariant
            n == chars@.len(),
            chars@ == line@,
            0 <= b <= n,
            ws_rbegin(line@, n as int) == ws_rbegin(line@, b as int),
        decreases b,
    {
        b = b - 1;
    }
    proof {
        assert(ws_end(line@, a as int) == a as int);
        assert(ws_rbegin(line@, b as int) == b as int);
    }
    if a >= b {
        proof {
            assert(trim_ws(line@) =~= Seq::<char>::empty());
            assert(int_digits(trim_ws(line@)).len() == 0);
        }
        let out = String::new();
        return Value::String(out);
    }
    let ghost t = trim_ws(line@);
    proof {
        assert(t == line@.subrange(a as int, b as int));
    }
    // Optional sign.
    let c0 = chars[a];
    let neg = c0 == '-';
    let signed_lit = c0 == '-' || c0 == '+';
    let ds = if signed_lit {
        a + 1
    } else {
        a
    };
    proof {
        assert(int_is_neg(t) == neg);
        assert(int_digits(t) =~= line@.subrange(ds as int, b as int));
    }
    // The digit run and its value, bounded by the largest magnitude.
    let limit: u64 = if neg {
        9223372036854775808
    } else {
        9223372036854775807
    };
    let mut acc: u64 = 0;
    let mut over = false;
    let mut all_digits = ds < b;
    let mut i: usize = ds;
    while i < b
        invariant
            ds <= i <= b <= n,
            n == chars@.len(),
            chars@ == line@,
            limit >= 10,
            limit as int == (if int_is_neg(trim_ws(line@)) {
                -(i64::MIN as int)
            } else {
                i64::MAX as int
            }),
            int_digits(trim_ws(line@)) == line@.subrange(ds as int, b as int),
            int_is_neg(trim_ws(line@)) == neg,
            all_digits == (ds < b && forall|j: int| ds <= j < i ==> digit(line@[j])),
            all_digits && !over ==> acc == crate::text::digits_val(
                line@.subrange(ds as int, i as int),
            ) && acc <= limit,
            all_digits && over ==> crate::text::digits_val(line@.subrange(ds as int, i as int))
                > limit,
        decreases b - i,
    {
        let c = chars[i];
        if !('0' <= c && c <= '9') {
            all_digits = false;
            i = b;
        } else {
            proof {
                let pre = line@.subrange(ds as int, i as int);
                let now = line@.subrange(ds as int, i + 1);
                assert(now.drop_last() =~= pre);
                assert(now.last() == line@[i as int]);
                if all_digits {
                    crate::text::lemma_digits_val_nonneg_pub(pre);
                }
            }
            if all_digits {
                let d: u64 = ((c as u32) - 48) as u64;
                if over {
                    proof {
                        let pre = line@.subrange(ds as int, i as int);
                        assert(crate::text::digits_val(pre) * 10 + crate::text::digit_val(
                            line@[i as int],
                        ) > limit) by (nonlinear_arith)
                            requires
                                crate::text::digits_val(pre) > limit,
                                limit >= 1,
                                crate::text::digit_val(line@[i as int]) >= 0,
                        ;
                    }
                } else if acc <= (limit - d) / 10 {
                    proof {
                        assert(acc * 10 + d <= limit) by (nonlinear_arith)
                            requires
                                0 <= acc,
                                0 <= d <= 9,
                                acc <= (limit - d) / 10,
                                d <= limit,
                        ;
                    }
                    acc = acc * 10 + d;
                } else {
                    proof {
                        assert(acc * 10 + d > limit) by (nonlinear_arith)
                            requires
                                0 <= acc,
                                0 <= d <= 9,
                                acc > (limit - d) / 10,
                        ;
                    }
                    over = true;
                }
            }
            i = i + 1;
        }
    }
    if all_digits && !over {
        proof {
            assert(line@.subrange(ds as int, b as int) == int_digits(t));
            assert(is_int_lit(t));
        }
        if neg {
            if acc == 9223372036854775808 {
                Value::Number(i64::MIN)
            } else {
                Value::Number(-(acc as i64))
            }
        } else {
            Value::Number(acc as i64)
        }
    } else {
        proof {
            let dsq = int_digits(t);
            assert(dsq == line@.subrange(ds as int, b as int));
            if all_digits {
                assert(crate::text::digits_val(dsq) > limit as int);
                assert(!is_int_lit(t));
            } else {
                if ds < b {
                    if !(forall|j: int| ds <= j < b ==> digit(line@[j])) {
                        let j = choose|j: int| ds <= j < b && !digit(line@[j]);
                        assert(!digit(dsq[j - ds]));
                    }
                }
                assert(!is_int_lit(t));
            }
        }
        let out = crate::text::chars_to_string(&chars, a, b);
        Value::String(out)
    }
}

/// The work budget a program run receives: the recursion and iteration
/// guard recommended for a tree-walking interpreter.
pub const DEFAULT_FUEL: u64 = 100000000;

/// The interpreter: the scope stack (index zero is the global scope), the
/// global function table, the output emitted so far, and the input lines
/// still pending.
pub struct Interpreter {
    scope_stack: Vec<Vec<(String, Value)>>,
    functions: Vec<(String, Function)>,
    output: Vec<String>,
    inputs: Vec<String>,
    fuel: u64,
}

impl Interpreter {
    /// The mathematical state of the interpreter.
    pub closed spec fn stm(&self) -> StateM {
        StateM {
            scopes: Seq::new(
                self.scope_stack@.len(),
                |i: int| assoc_val_view(self.scope_stack@[i]@),
            ),
            funcs: assoc_fun_view(self.functions@),
            output: self.output.deep_view(),
            inputs: self.inputs.deep_view(),
            fuel: self.fuel as nat,
        }
    }

    /// The scope stack always holds at least the global scope.
    pub closed spec fn wf(&self) -> bool {
        self.scope_stack@.len() >= 1
    }

    /// A fresh interpreter: one empty global scope, an empty function
    /// table, no output, no pending input.
    pub fn new() -> (r: Self)
        ensures
            r.wf(),
            r.stm() == (StateM {
                scopes: seq![Map::<Seq<char>, ValM>::empty()],
                funcs: Map::<Seq<char>, FunM>::empty(),
                output: Seq::<Seq<char>>::empty(),
                inputs: Seq::<Seq<char>>::empty(),
                fuel: 0nat,
            }),
    {
        let mut ss: Vec<Vec<(String, Value)>> = Vec::new();
        ss.push(Vec::new());
        let r = Interpreter {
            scope_stack: ss,
            functions: Vec::new(),
            output: Vec::new(),
            inputs: Vec::new(),
            fuel: 0,
        };
        proof {
            assert(r.stm().scopes =~~= seq![Map::<Seq<char>, ValM>::empty()]);
            assert(r.stm().funcs =~~= Map::<Seq<char>, FunM>::empty());
            assert(r.stm().output =~~= Seq::<Seq<char>>::empty());
            assert(r.stm().inputs =~~= Seq::<Seq<char>>::empty());
            assert(r.stm() =~~= (StateM {
                scopes: seq![Map::<Seq<char>, ValM>::empty()],
                funcs: Map::<Seq<char>, FunM>::empty(),
                output: Seq::<Seq<char>>::empty(),
                inputs: Seq::<Seq<char>>::empty(),
                fuel: 0nat,
            }));
        }
        r
    }

    /// Pushes a fresh local scope.
    fn push_scope(&mut self)
        requires
            old(self).wf(),
        ensures
            final(self).wf(),
            final(self).stm() == (StateM {
                scopes: old(self).stm().scopes.push(Map::<Seq<char>, ValM>::empty()),
                ..old(self).stm()
            }),
    {
        self.scope_stack.push(Vec::new());
        proof {
            assert(self.stm().scopes =~~= old(self).stm().scopes.push(
                Map::<Seq<char>, ValM>::empty(),
            ));
            assert(self.stm() =~~= (StateM {
                scopes: old(self).stm().scopes.push(Map::<Seq<char>, ValM>::empty()),
                ..old(self).stm()
            }));
        }
    }

    /// Pops the innermost scope; the global scope is never popped.
    fn pop_scope(&mut self)
        requires
            old(self).wf(),
        ensures
            final(self).wf(),
            old(self).stm().scopes.len() > 1 ==> final(self).stm() == (StateM {
                scopes: old(self).stm().scopes.drop_last(),
                ..old(self).stm()
            }),
            old(self).stm().scopes.len() <= 1 ==> *final(self) == *old(self),
    {
        if self.scope_stack.len() > 1 {
            let popped = self.scope_stack.pop();
            proof {
                assert(self.stm().scopes =~~= old(self).stm().scopes.drop_last());
                assert(self.stm() =~~= (StateM {
                    scopes: old(self).stm().scopes.drop_last(),
                    ..old(self).stm()
                }));
            }
        }
    }

    /// Binds a name in the innermost scope, shadowing any earlier binding
    /// there.
    fn set_variable_value(&mut self, name: String, value: Value)
        requires
            old(self).wf(),
        ensures
            final(self).wf(),
            final(self).stm() == set_top(old(self).stm(), name@, value@),
    {
        let ghost nm = name@;
        let ghost vm = value@;
        match self.scope_stack.pop() {
            Some(top) => {
                let ghost top0 = top@;
                let mut top = top;
                top.push((name, value));
                proof {
                    assert(top@.drop_last() =~= top0);
                }
                self.scope_stack.push(top);
                proof {
                    assert(self.stm().scopes =~~= set_top(old(self).stm(), nm, vm).scopes);
                    assert(self.stm() =~~= set_top(old(self).stm(), nm, vm));
                }
            },
            None => {
                proof {
                    assert(false);
                }
            },
        }
    }

    /// The value bound to a name, searched from the innermost scope
    /// outwards; the found value is copied.
    fn get_variable_value(&self, name: &str) -> (r: Option<Value>)
        requires
            self.wf(),
        ensures
            match lookup(self.stm().scopes, name@) {
                Some(v) => r matches Some(rv) && rv@ == v,
                None => r is None,
            },
    {
        let ghost scopes = self.stm().scopes;
        proof {
            assert(scopes.subrange(0, scopes.len() as int) =~= scopes);
        }
        let mut si: usize = self.scope_stack.len();
        loop
            invariant
                self.wf(),
                scopes == self.stm().scopes,
                0 <= si <= self.scope_stack@.len(),
                lookup(scopes, name@) == lookup(scopes.subrange(0, si as int), name@),
            ensures
                si == 0,
                lookup(scopes, name@) == lookup(scopes.subrange(0, si as int), name@),
            decreases si,
        {
            if si == 0 {
                break ;
            }
            let scope = &self.scope_stack[si - 1];
            let mut j: usize = scope.len();
            loop
                invariant
                    self.wf(),
                    scopes == self.stm().scopes,
                    1 <= si <= self.scope_stack@.len(),
                    *scope == self.scope_stack@[si - 1],
                    lookup(scopes, name@) == lookup(scopes.subrange(0, si as int), name@),
                    0 <= j <= scope@.len(),
                    forall|q: int| j <= q < scope@.len() ==> scope@[q].0@ != name@,
                ensures
                    j == 0,
                    forall|q: int| 0 <= q < scope@.len() ==> scope@[q].0@ != name@,
                decreases j,
            {
                if j == 0 {
                    break ;
                }
                if str_eq(scope[j - 1].0.as_str(), name) {
                    proof {
                        lemma_assoc_val_found(scope@, name@, j - 1);
                        assert(scopes[si - 1] == assoc_val_view(scope@));
                        assert(scopes.subrange(0, si as int).last() == scopes[si - 1]);
                    }
                    return Some(clone_value(&scope[j - 1].1));
                }
                j = j - 1;
            }
            proof {
                lemma_assoc_val_absent(scope@, name@);
                assert(scopes[si - 1] == assoc_val_view(scope@));
                assert(scopes.subrange(0, si as int).last() == scopes[si - 1]);
                assert(scopes.subrange(0, si as int).drop_last() =~= scopes.subrange(
                    0,
                    si - 1,
                ));
            }
            si = si - 1;
        }
        proof {
            assert(scopes.subrange(0, 0) =~= Seq::<Map<Seq<char>, ValM>>::empty());
        }
        None
    }

    /// The function bound to a name in the global table, copied.
    fn get_function(&self, name: &str) -> (r: Option<Function>)
        ensures
            if self.stm().funcs.contains_key(name@) {
                r matches Some(f) && f@ == self.stm().funcs[name@]
            } else {
                r is None
            },
    {
        let mut j: usize = self.functions.len();
        loop
            invariant
                0 <= j <= self.functions@.len(),
                forall|q: int| j <= q < self.functions@.len() ==> self.functions@[q].0@
                    != name@,
            ensures
                j == 0,
                forall|q: int| 0 <= q < self.functions@.len() ==> self.functions@[q].0@
                    != name@,
            decreases j,
        {
            if j == 0 {
                break ;
            }
            if str_eq(self.functions[j - 1].0.as_str(), name) {
                proof {
                    lemma_assoc_fun_found(self.functions@, name@, j - 1);
                }
                return Some(clone_function(&self.functions[j - 1].1));
            }
            j = j - 1;
        }
        proof {
            lemma_assoc_fun_absent(self.functions@, name@);
        }
        None
    }

    /// Installs a function in the global table, overwriting any earlier
    /// definition under the same name.
    pub fn define_function(&mut self, name: String, function: Function)
        requires
            old(self).wf(),
        ensures
            final(self).wf(),
            final(self).stm() == (StateM {
                funcs: old(self).stm().funcs.insert(name@, function@),
                ..old(self).stm()
            }),
    {
        let ghost nm = name@;
        let ghost fm = function@;
        self.functions.push((name, function));
        proof {
            assert(self.functions@.drop_last() =~= old(self).functions@);
            assert(self.stm().scopes =~~= old(self).stm().scopes);
            assert(self.stm() =~~= (StateM {
                funcs: old(self).stm().funcs.insert(nm, fm),
                ..old(self).stm()
            }));
        }
    }

    /// Queues one line for the input expression to read.
    pub fn push_input(&mut self, line: String)
        requires
            old(self).wf(),
        ensures
            final(self).wf(),
            final(self).stm() == (StateM {
                inputs: old(self).stm().inputs.push(line@),
                ..old(self).stm()
            }),
    {
        let ghost lm = line@;
        self.inputs.push(line);
        proof {
            assert(self.stm().inputs =~~= old(self).stm().inputs.push(lm));
            assert(self.stm().scopes =~~= old(self).stm().scopes);
            assert(self.stm() =~~= (StateM {
                inputs: old(self).stm().inputs.push(lm),
                ..old(self).stm()
            }));
        }
    }

    /// The lines printed so far, in order.
    pub fn output_lines(&self) -> (r: &Vec<String>)
        ensures
            r.deep_view() == self.stm().output,
    {
        &self.output
    }

    /// The value of a global variable, if it is defined.
    pub fn get_variable(&self, name: &str) -> (r: Option<&Value>)
        requires
            self.wf(),
        ensures
            if self.stm().scopes[0].contains_key(name@) {
                r matches Some(v) && v@ == self.stm().scopes[0][name@]
            } else {
                r is None
            },
    {
        let scope = &self.scope_stack[0];
        proof {
            assert(self.stm().scopes[0] == assoc_val_view(scope@));
        }
        let mut j: usize = scope.len();
        loop
            invariant
                self.wf(),
                *scope == self.scope_stack@[0],
                self.stm().scopes[0] == assoc_val_view(scope@),
                0 <= j <= scope@.len(),
                forall|q: int| j <= q < scope@.len() ==> scope@[q].0@ != name@,
            ensures
                j == 0,
                forall|q: int| 0 <= q < scope@.len() ==> scope@[q].0@ != name@,
            decreases j,
        {
            if j == 0 {
                break ;
            }
            if str_eq(scope[j - 1].0.as_str(), name) {
                proof {
                    lemma_assoc_val_found(scope@, name@, j - 1);
                }
                return Some(&scope[j - 1].1);
            }
            j = j - 1;
        }
        proof {
            lemma_assoc_val_absent(scope@, name@);
        }
        None
    }

    /// Binds a global variable directly, for embedding hosts.
    pub fn set_variable(&mut self, name: String, value: Value)
        requires
            old(self).wf(),
        ensures
            final(self).wf(),
            final(self).stm() == (StateM {
                scopes: old(self).stm().scopes.update(
                    0,
                    old(self).stm().scopes[0].insert(name@, value@),
                ),
                ..old(self).stm()
            }),
    {
        let ghost nm = name@;
        let ghost vm = value@;
        let mut g = self.scope_stack.remove(0);
        let ghost g0 = g@;
        g.push((name, value));
        proof {
            assert(g@.drop_last() =~= g0);
        }
        self.scope_stack.insert(0, g);
        proof {
            assert(self.stm().scopes =~~= old(self).stm().scopes.update(
                0,
                old(self).stm().scopes[0].insert(nm, vm),
            ));
            assert(self.stm() =~~= (StateM {
                scopes: old(self).stm().scopes.update(
                    0,
                    old(self).stm().scopes[0].insert(nm, vm),
                ),
                ..old(self).stm()
            }));
        }
    }

    /// Clears every variable, leaving a single empty global scope; the
    /// function table is kept, as resetting it is a separate concern.
    pub fn clear_variables(&mut self)
        requires
            old(self).wf(),
        ensures
            final(self).wf(),
            final(self).stm() == (StateM {
                scopes: seq![Map::<Seq<char>, ValM>::empty()],
                ..old(self).stm()
            }),
    {
        self.scope_stack.clear();
        self.scope_stack.push(Vec::new());
        proof {
            assert(self.stm().scopes =~~= seq![Map::<Seq<char>, ValM>::empty()]);
            assert(self.stm() =~~= (StateM {
                scopes: seq![Map::<Seq<char>, ValM>::empty()],
                ..old(self).stm()
            }));
        }
    }

    /// Reads one value from the pending input lines, after printing the
    /// fixed prompt; an exhausted queue is a read failure.
    fn get_user_input(&mut self) -> (r: Result<Value, Error>)
        requires
            old(self).wf(),
        ensures
            final(self).wf(),
            ({
                let sp = StateM {
                    output: old(self).stm().output.push("Rubuta abu: "@),
                    ..old(self).stm()
                };
                if sp.inputs.len() == 0 {
                    r matches Err(er) && er@ == rt_input_failed() && final(self).stm() == sp
                } else {
                    r matches Ok(v) && v@ == input_val(trim_ws(sp.inputs[0]))
                        && final(self).stm() == (StateM {
                        inputs: sp.inputs.subrange(1, sp.inputs.len() as int),
                        ..sp
                    })
                }
            }),
    {
        self.output.push(String::from_str("Rubuta abu: "));
        proof {
            assert(self.stm().output =~~= old(self).stm().output.push("Rubuta abu: "@));
            assert(self.stm().scopes =~~= old(self).stm().scopes);
        }
        if self.inputs.len() == 0 {
            proof {
                assert(self.stm() =~~= (StateM {
                    output: old(self).stm().output.push("Rubuta abu: "@),
                    ..old(self).stm()
                }));
            }
            Err(Error::runtime_error("Ba za a iya karba shigarwa ba (Impossible de lire l'entrée)"))
        } else {
            let ghost before = self.stm();
            let line = self.inputs.remove(0);
            let v = parse_input_value(line.as_str());
            proof {
                assert(self.stm().inputs =~~= before.inputs.subrange(
                    1,
                    before.inputs.len() as int,
                ));
                assert(self.stm().scopes =~~= before.scopes);
                assert(self.stm() =~~= (StateM {
                    inputs: before.inputs.subrange(1, before.inputs.len() as int),
                    ..before
                }));
                assert(line@ == before.inputs[0]);
            }
            Ok(v)
        }
    }

    /// Applies a binary operator to two evaluated operands, per the exact
    /// dispatch table of the semantics.
    fn evaluate_binary_operation(
        &self,
        left: Value,
        operator: BinaryOperator,
        right: Value,
    ) -> (r: Result<Value, Error>)
        ensures
            match spec_binop(left@, operator, right@) {
                Ok(m) => r matches Ok(rv) && rv@ == m,
                Err(em) => r matches Err(er) && er@ == em,
            },
    {
        match (left, operator, right) {
            (Value::Number(a), BinaryOperator::Add, Value::Number(b)) => Ok(
                Value::Number(a.wrapping_add(b)),
            ),
            (Value::Number(a), BinaryOperator::Subtract, Value::Number(b)) => Ok(
                Value::Number(a.wrapping_sub(b)),
            ),
            (Value::Number(a), BinaryOperator::Multiply, Value::Number(b)) => Ok(
                Value::Number(a.wrapping_mul(b)),
            ),
            (Value::Number(a), BinaryOperator::Divide, Value::Number(b)) => {
                if b == 0 {
                    Err(Error::runtime_error("Ba za a iya raba da sifili ba (Division par zéro)"))
                } else {
                    match a.checked_div(b) {
                        Some(q) => Ok(Value::Number(q)),
                        None => Ok(Value::Number(i64::MIN)),
                    }
                }
            },
            (Value::String(a), BinaryOperator::Add, Value::String(b)) => Ok(
                Value::String(a.concat(b.as_str())),
            ),
            (Value::String(a), BinaryOperator::Add, Value::Number(b)) => Ok(
                Value::String(a.concat(i64_to_string(b).as_str())),
            ),
            (Value::Number(a), BinaryOperator::Add, Value::String(b)) => Ok(
                Value::String(i64_to_string(a).concat(b.as_str())),
            ),
            (Value::String(a), BinaryOperator::Add, Value::Boolean(b)) => {
                let w = if b {
                    "gaskiya"
                } else {
                    "karya"
                };
                Ok(Value::String(a.concat(w)))
            },
            (Value::Boolean(a), BinaryOperator::Add, Value::String(b)) => {
                let w = if a {
                    "gaskiya"
                } else {
                    "karya"
                };
                Ok(Value::String(String::from_str(w).concat(b.as_str())))
            },
            (lv, BinaryOperator::Concat, rv) => {
                let ls = lv.to_string();
                let rs = rv.to_string();
                Ok(Value::String(ls.concat(rs.as_str())))
            },
            (Value::Number(a), BinaryOperator::Equal, Value::Number(b)) => Ok(
                Value::Boolean(a == b),
            ),
            (Value::String(a), BinaryOperator::Equal, Value::String(b)) => Ok(
                Value::Boolean(str_eq(a.as_str(), b.as_str())),
            ),
            (Value::Boolean(a), BinaryOperator::Equal, Value::Boolean(b)) => Ok(
                Value::Boolean(a == b),
            ),
            (Value::Number(a), BinaryOperator::NotEqual, Value::Number(b)) => Ok(
                Value::Boolean(a != b),
            ),
            (Value::String(a), BinaryOperator::NotEqual, Value::String(b)) => Ok(
                Value::Boolean(!str_eq(a.as_str(), b.as_str())),
            ),
            (Value::Boolean(a), BinaryOperator::NotEqual, Value::Boolean(b)) => Ok(
                Value::Boolean(a != b),
            ),
            (Value::Number(a), BinaryOperator::Less, Value::Number(b)) => Ok(
                Value::Boolean(a < b),
            ),
            (Value::Number(a), BinaryOperator::Greater, Value::Number(b)) => Ok(
                Value::Boolean(a > b),
            ),
            (Value::Number(a), BinaryOperator::LessEqual, Value::Number(b)) => Ok(
                Value::Boolean(a <= b),
            ),
            (Value::Number(a), BinaryOperator::GreaterEqual, Value::Number(b)) => Ok(
                Value::Boolean(a >= b),
            ),
            (lv, o, rv) => {
                let ow = match o {
                    BinaryOperator::Add => "ƙara",
                    BinaryOperator::Subtract => "rage",
                    BinaryOperator::Multiply => "ninka",
                    BinaryOperator::Divide => "raba",
                    BinaryOperator::Concat => "+",
                    BinaryOperator::Equal => "==",
                    BinaryOperator::NotEqual => "!=",
                    BinaryOperator::Less => "<",
                    BinaryOperator::Greater => ">",
                    BinaryOperator::LessEqual => "<=",
                    BinaryOperator::GreaterEqual => ">=",
                };
                Err(Error::invalid_operation(ow, lv.kind_name(), rv.kind_name()))
            },
        }
    }
}

/// What a statement execution signals, carried by the executable code.
#[derive(Debug)]
pub enum Flow {
    Normal,
    Ret(Value),
    Brk,
    Cont,
}

impl View for Flow {
    type V = Outcome;

    open spec fn view(&self) -> Outcome {
        match self {
            Flow::Normal => Outcome::Normal,
            Flow::Ret(v) => Outcome::Ret(view_val(*v)),
            Flow::Brk => Outcome::Brk,
            Flow::Cont => Outcome::Cont,
        }
    }
}

/// The error produced when the work budget runs out.
fn depth_error() -> (r: Error)
    ensures
        r@ == rt_depth(),
{
    Error::runtime_error("An wuce iyakar aiki (work limit reached)")
}

/// The never-produced progress error; the budget strictly shrinks with
/// every step, so the branches that return it are unreachable.
fn stuck_error() -> (r: Error)
    ensures
        r@ == rt_stuck(),
{
    proof {
        reveal_strlit("");
        assert(""@ =~= Seq::<char>::empty());
    }
    Error::runtime_error("")
}

/// The truthiness of a value.
fn truthy_exec(v: &Value) -> (r: bool)
    ensures
        r == truthy(v@),
{
    match v {
        Value::Number(n) => *n != 0,
        Value::String(s) => s.as_str().unicode_len() > 0,
        Value::Boolean(b) => *b,
        Value::List(es) => {
            proof {
                lemma_view_vals_props(es@);
            }
            es.len() > 0
        },
    }
}

impl Interpreter {
    /// Evaluates an expression, exactly as the semantics says.
    fn evaluate_expression(&mut self, expression: &Expression) -> (r: Result<Value, Error>)
        requires
            old(self).wf(),
        ensures
            final(self).wf(),
            match spec_eval(old(self).stm(), view_expr(*expression)) {
                Ok((s1, v)) => r matches Ok(rv) && rv@ == v && final(self).stm() == s1,
                Err((s1, em)) => r matches Err(er) && er@ == em && final(self).stm() == s1,
            },
        decreases self.fuel, 1int,
    {
        let ghost st0 = self.stm();
        let f0 = self.fuel;
        if self.fuel == 0 {
            return Err(depth_error());
        }
        self.fuel = self.fuel - 1;
        proof {
            assert(self.stm() =~~= tick(st0));
        }
        match expression {
            Expression::Number(n) => Ok(Value::Number(*n)),
            Expression::String(sv) => Ok(Value::String(sv.clone())),
            Expression::Boolean(b) => Ok(Value::Boolean(*b)),
            Expression::Identifier(name) => match self.get_variable_value(name.as_str()) {
                Some(v) => Ok(v),
                None => Err(Error::variable_not_found(name.as_str())),
            },
            Expression::List(elements) => {
                let vs = self.evaluate_expressions(elements)?;
                Ok(Value::List(vs))
            },
            Expression::BinaryOp { left, operator, right } => {
                let lv = self.evaluate_expression(left)?;
                if self.fuel < f0 {
                    let rv = self.evaluate_expression(right)?;
                    self.evaluate_binary_operation(lv, *operator, rv)
                } else {
                    Err(stuck_error())
                }
            },
            Expression::UnaryOp { operator, operand } => {
                let v = self.evaluate_expression(operand)?;
                apply_unop(*operator, v)
            },
            Expression::Index { object, index } => {
                let ov = self.evaluate_expression(object)?;
                if self.fuel < f0 {
                    let iv = self.evaluate_expression(index)?;
                    apply_index(ov, iv)
                } else {
                    Err(stuck_error())
                }
            },
            Expression::MethodCall { receiver, method, arguments } => {
                let rv = self.evaluate_expression(receiver)?;
                if self.fuel < f0 {
                    let avs = self.evaluate_expressions(arguments)?;
                    apply_method(rv, method, avs)
                } else {
                    Err(stuck_error())
                }
            },
            Expression::FunctionCall { name, arguments } => {
                proof {
                    assert((StateM { fuel: (self.stm().fuel + 1) as nat, ..self.stm() })
                        =~~= st0);
                }
                self.call_function(name, arguments)
            },
            Expression::Input => self.get_user_input(),
        }
    }

    /// Evaluates a sequence of expressions left to right.
    fn evaluate_expressions(&mut self, expressions: &Vec<Expression>) -> (r: Result<
        Vec<Value>,
        Error,
    >)
        requires
            old(self).wf(),
        ensures
            final(self).wf(),
            match spec_eval_list(old(self).stm(), view_exprs(expressions@)) {
                Ok((s1, vs)) => r matches Ok(v) && view_vals(v@) == vs && v@.len()
                    == expressions@.len() && final(self).stm() == s1,
                Err((s1, em)) => r matches Err(er) && er@ == em && final(self).stm() == s1,
            },
        decreases self.fuel, 2int,
    {
        let ghost es = view_exprs(expressions@);
        let ghost st0 = self.stm();
        proof {
            lemma_view_exprs_props(expressions@);
        }
        let mut values: Vec<Value> = Vec::new();
        let mut i: usize = 0;
        proof {
            assert(es.subrange(0, es.len() as int) =~= es);
            assert(view_vals(values@) =~= Seq::<ValM>::empty());
            match spec_eval_list(st0, es) {
                Ok((s1v, vs)) => {
                    assert(view_vals(values@) + vs =~= vs);
                },
                Err(e1) => {},
            }
        }
        loop
            invariant
                self.wf(),
                self.fuel <= old(self).fuel,
                st0 == old(self).stm(),
                values@.len() == i,
                es == view_exprs(expressions@),
                es.len() == expressions@.len(),
                forall|q: int| 0 <= q < expressions@.len() ==> es[q] == view_expr(
                    expressions@[q],
                ),
                0 <= i <= expressions@.len(),
                match spec_eval_list(self.stm(), es.subrange(i as int, es.len() as int)) {
                    Ok((s1, vs)) => spec_eval_list(st0, es) == Ok::<
                        (StateM, Seq<ValM>),
                        (StateM, ErrM),
                    >((s1, view_vals(values@) + vs)),
                    Err(e1) => spec_eval_list(st0, es) == Err::<
                        (StateM, Seq<ValM>),
                        (StateM, ErrM),
                    >(e1),
                },
            ensures
                self.wf(),
                i == expressions@.len(),
                spec_eval_list(st0, es) == Ok::<(StateM, Seq<ValM>), (StateM, ErrM)>(
                    (self.stm(), view_vals(values@)),
                ),
            decreases self.fuel, 6int,
        {
            if i == expressions.len() {
                proof {
                    assert(es.subrange(i as int, es.len() as int) =~= Seq::<ExprM>::empty());
                    assert(view_vals(values@) + Seq::<ValM>::empty() =~= view_vals(values@));
                }
                break ;
            }
            let prev_fuel = self.fuel;
            let v = self.evaluate_expression(&expressions[i])?;
            let ghost vm = v@;
            let ghost prevv = values@;
            values.push(v);
            if !(self.fuel < prev_fuel) {
                return Err(stuck_error());
            }
            proof {
                assert(values@.drop_last() =~= prevv);
                assert(view_vals(values@) =~= view_vals(prevv).push(vm));
                assert(es.subrange(i as int, es.len() as int).subrange(
                    1,
                    es.len() - i,
                ) =~= es.subrange(i + 1, es.len() as int));
                assert(es.subrange(i as int, es.len() as int)[0] == es[i as int]);
                match spec_eval_list(self.stm(), es.subrange(i + 1, es.len() as int)) {
                    Ok((s1, vs)) => {
                        assert((view_vals(prevv) + (seq![vm] + vs)) =~= (view_vals(values@)
                            + vs));
                    },
                    Err(e1) => {},
                }
            }
            i = i + 1;
        }
        Ok(values)
    }

    /// Executes a statement list in order, stopping at the first non-normal
    /// outcome.
    fn execute_statements(&mut self, statements: &Vec<Statement>) -> (r: Result<Flow, Error>)
        requires
            old(self).wf(),
        ensures
            final(self).wf(),
            match spec_exec_stmts(old(self).stm(), view_stmts(statements@)) {
                Ok((s1, o)) => r matches Ok(fl) && fl@ == o && final(self).stm() == s1,
                Err((s1, em)) => r matches Err(er) && er@ == em && final(self).stm() == s1,
            },
        decreases self.fuel, 4int,
    {
        let ghost ss = view_stmts(statements@);
        let ghost st0 = self.stm();
        proof {
            lemma_view_stmts_props(statements@);
        }
        let mut i: usize = 0;
        proof {
            assert(ss.subrange(0, ss.len() as int) =~= ss);
        }
        loop
            invariant
                self.wf(),
                self.fuel <= old(self).fuel,
                st0 == old(self).stm(),
                ss == view_stmts(statements@),
                ss.len() == statements@.len(),
                forall|q: int| 0 <= q < statements@.len() ==> ss[q] == view_stmt(
                    statements@[q],
                ),
                0 <= i <= statements@.len(),
                match spec_exec_stmts(self.stm(), ss.subrange(i as int, ss.len() as int)) {
                    Ok((s1, o)) => spec_exec_stmts(st0, ss) == Ok::<
                        (StateM, Outcome),
                        (StateM, ErrM),
                    >((s1, o)),
                    Err(e1) => spec_exec_stmts(st0, ss) == Err::<
                        (StateM, Outcome),
                        (StateM, ErrM),
                    >(e1),
                },
            ensures
                self.wf(),
                i == statements@.len(),
                spec_exec_stmts(st0, ss) == Ok::<(StateM, Outcome), (StateM, ErrM)>(
                    (self.stm(), Outcome::Normal),
                ),
            decreases self.fuel, 6int,
        {
            if i == statements.len() {
                proof {
                    assert(ss.subrange(i as int, ss.len() as int) =~= Seq::<StmtM>::empty());
                }
                break ;
            }
            let prev_fuel = self.fuel;
            proof {
                assert(ss.subrange(i as int, ss.len() as int)[0] == ss[i as int]);
            }
            let flow = self.execute_statement(&statements[i])?;
            match flow {
                Flow::Normal => {},
                other => {
                    return Ok(other);
                },
            }
            if !(self.fuel < prev_fuel) {
                return Err(stuck_error());
            }
            proof {
                assert(ss.subrange(i as int, ss.len() as int).subrange(
                    1,
                    ss.len() - i,
                ) =~= ss.subrange(i + 1, ss.len() as int));
            }
            i = i + 1;
        }
        Ok(Flow::Normal)
    }

    /// Executes one statement, exactly as the semantics says.
    #[verifier::rlimit(100)]
    fn execute_statement(&mut self, statement: &Statement) -> (r: Result<Flow, Error>)
        requires
            old(self).wf(),
        ensures
            final(self).wf(),
            match spec_exec_stmt(old(self).stm(), view_stmt(*statement)) {
                Ok((s1, o)) => r matches Ok(fl) && fl@ == o && final(self).stm() == s1,
                Err((s1, em)) => r matches Err(er) && er@ == em && final(self).stm() == s1,
            },
        decreases self.fuel, 3int,
    {
        let ghost st0 = self.stm();
        let ghost w = view_stmt(*statement);
        let f0 = self.fuel;
        if self.fuel == 0 {
            return Err(depth_error());
        }
        self.fuel = self.fuel - 1;
        proof {
            assert(self.stm() =~~= tick(st0));
        }
        match statement {
            Statement::Let { name, value } => {
                let v = self.evaluate_expression(value)?;
                self.set_variable_value(name.clone(), v);
                Ok(Flow::Normal)
            },
            Statement::Print(e) => {
                let v = self.evaluate_expression(e)?;
                let ghost before = self.stm();
                let text = v.to_string();
                self.output.push(text);
                proof {
                    assert(self.stm().output =~~= before.output.push(val_str(v@)));
                    assert(self.stm().scopes =~~= before.scopes);
                    assert(self.stm() =~~= (StateM {
                        output: before.output.push(val_str(v@)),
                        ..before
                    }));
                }
                Ok(Flow::Normal)
            },
            Statement::FunctionDef { name, parameters, body } => {
                let f = Function {
                    parameters: clone_strings(parameters),
                    body: clone_stmts(body),
                };
                self.define_function(name.clone(), f);
                Ok(Flow::Normal)
            },
            Statement::If { condition, then_branch, else_branch } => {
                let cv = self.evaluate_expression(condition)?;
                if !(self.fuel < f0) {
                    return Err(stuck_error());
                }
                if truthy_exec(&cv) {
                    self.execute_statements(then_branch)
                } else {
                    match else_branch {
                        Some(b) => self.execute_statement(b),
                        None => Ok(Flow::Normal),
                    }
                }
            },
            Statement::While { condition, body } => {
                loop
                    invariant
                        self.wf(),
                        self.fuel < old(self).fuel,
                        st0 == old(self).stm(),
                        w == view_stmt(*statement),
                        statement matches Statement::While { condition: c2, body: b2 } && c2
                            == *condition && b2 == *body,
                        spec_exec_stmt(st0, w) == spec_exec_stmt(
                            StateM { fuel: (self.stm().fuel + 1) as nat, ..self.stm() },
                            w,
                        ),
                    decreases self.fuel, 6int,
                {
                    let prev_fuel = self.fuel;
                    let ghost pre = StateM {
                        fuel: (self.stm().fuel + 1) as nat,
                        ..self.stm()
                    };
                    proof {
                        assert(tick(pre) =~~= self.stm());
                    }
                    let cv = self.evaluate_expression(condition)?;
                    if !(self.fuel <= prev_fuel) {
                        return Err(stuck_error());
                    }
                    if !truthy_exec(&cv) {
                        return Ok(Flow::Normal);
                    }
                    let flow = self.execute_statements(body)?;
                    match flow {
                        Flow::Ret(v) => {
                            return Ok(Flow::Ret(v));
                        },
                        Flow::Brk => {
                            return Ok(Flow::Normal);
                        },
                        _ => {},
                    }
                    if !(self.fuel <= prev_fuel) {
                        return Err(stuck_error());
                    }
                    if self.fuel == 0 {
                        proof {
                            assert(pre.fuel != 0);
                            assert(w == StmtM::While {
                                cond: view_expr(*condition),
                                body: view_stmts(body@),
                            });
                            assert(spec_eval(tick(pre), view_expr(*condition)) matches Ok(p1));
                            let (s1x, cvx) = spec_eval(
                                tick(pre),
                                view_expr(*condition),
                            )->Ok_0;
                            assert(s1x.fuel < pre.fuel);
                            assert(truthy(cvx));
                            assert(spec_exec_stmts(s1x, view_stmts(body@)) matches Ok(p2));
                            let (s2x, ox) = spec_exec_stmts(s1x, view_stmts(body@))->Ok_0;
                            assert(!(ox is Ret) && !(ox is Brk));
                            assert(s2x.fuel < pre.fuel);
                            assert(s2x == self.stm());
                            assert(spec_exec_stmt(s2x, w) == Err::<
                                (StateM, Outcome),
                                (StateM, ErrM),
                            >((s2x, rt_depth())));
                            assert(spec_exec_stmt(pre, w) == Err::<
                                (StateM, Outcome),
                                (StateM, ErrM),
                            >((self.stm(), rt_depth())));
                        }
                        return Err(depth_error());
                    }
                    self.fuel = self.fuel - 1;
                    proof {
                        assert((StateM { fuel: (self.stm().fuel + 1) as nat, ..self.stm() })
                            =~~= (StateM { fuel: self.stm().fuel + 1, ..self.stm() }));
                    }
                }
            },
            Statement::For { variable, iterable, body } => {
                let iv = self.evaluate_expression(iterable)?;
                let ghost ivm = iv@;
                let items = match iv {
                    Value::List(es) => es,
                    other => {
                        return Err(
                            Error::runtime_error(
                                "Ana bukatar jerin abu a madauki (for loop needs a list)",
                            ),
                        );
                    },
                };
                if !(self.fuel < f0) {
                    return Err(stuck_error());
                }
                proof {
                    lemma_view_vals_props(items@);
                }
                let ghost items_m = view_vals(items@);
                let ghost body_m = view_stmts(body@);
                let ghost vm = variable@;
                proof {
                    assert(ivm == ValM::List(items_m));
                    assert(items_m.subrange(0, items_m.len() as int) =~= items_m);
                }
                let mut i: usize = 0;
                loop
                    invariant
                        self.wf(),
                        self.fuel < old(self).fuel,
                        st0 == old(self).stm(),
                        w == view_stmt(*statement),
                        statement matches Statement::For { variable: v2, iterable: e2, body: b2 }
                            && v2 == *variable && b2 == *body,
                        items_m == view_vals(items@),
                        items_m.len() == items@.len(),
                        forall|q: int| 0 <= q < items@.len() ==> items_m[q] == view_val(
                            items@[q],
                        ),
                        body_m == view_stmts(body@),
                        vm == variable@,
                        0 <= i <= items@.len(),
                        match spec_for_each(
                            self.stm(),
                            vm,
                            items_m.subrange(i as int, items_m.len() as int),
                            body_m,
                        ) {
                            Ok((s1, o)) => spec_exec_stmt(st0, w) == Ok::<
                                (StateM, Outcome),
                                (StateM, ErrM),
                            >((s1, o)),
                            Err(e1) => spec_exec_stmt(st0, w) == Err::<
                                (StateM, Outcome),
                                (StateM, ErrM),
                            >(e1),
                        },
                    decreases self.fuel, 6int,
                {
                    if i == items.len() {
                        proof {
                            assert(items_m.subrange(i as int, items_m.len() as int)
                                =~= Seq::<ValM>::empty());
                        }
                        return Ok(Flow::Normal);
                    }
                    let prev_fuel = self.fuel;
                    if self.fuel == 0 {
                        return Err(depth_error());
                    }
                    self.fuel = self.fuel - 1;
                    let ghost pre_iter = self.stm();
                    proof {
                        assert(items_m.subrange(i as int, items_m.len() as int)[0]
                            == items_m[i as int]);
                    }
                    self.set_variable_value(variable.clone(), clone_value(&items[i]));
                    let flow = self.execute_statements(body)?;
                    match flow {
                        Flow::Ret(v) => {
                            return Ok(Flow::Ret(v));
                        },
                        Flow::Brk => {
                            return Ok(Flow::Normal);
                        },
                        _ => {},
                    }
                    if !(self.fuel < prev_fuel) {
                        return Err(stuck_error());
                    }
                    proof {
                        assert(items_m.subrange(i as int, items_m.len() as int).subrange(
                            1,
                            items_m.len() - i,
                        ) =~= items_m.subrange(i + 1, items_m.len() as int));
                    }
                    i = i + 1;
                }
            },
            Statement::Break => Ok(Flow::Brk),
            Statement::Continue => Ok(Flow::Cont),
            Statement::Return(e) => {
                let v = self.evaluate_expression(e)?;
                Ok(Flow::Ret(v))
            },
            Statement::Expression(e) => {
                let v = self.evaluate_expression(e)?;
                Ok(Flow::Normal)
            },
        }
    }

    /// Calls a user-defined function: the arity is checked before any
    /// argument is evaluated, the arguments are bound positionally in a
    /// fresh scope, and the body runs until its first return.
    fn call_function(&mut self, name: &String, arguments: &Vec<Expression>) -> (r: Result<
        Value,
        Error,
    >)
        requires
            old(self).wf(),
            old(self).stm().fuel < u64::MAX,
        ensures
            final(self).wf(),
            ({
                let pre = StateM { fuel: (old(self).stm().fuel + 1) as nat, ..old(self).stm() };
                match spec_eval(
                    pre,
                    ExprM::Call { name: name@, args: view_exprs(arguments@) },
                ) {
                    Ok((s1, v)) => r matches Ok(rv) && rv@ == v && final(self).stm() == s1,
                    Err((s1, em)) => r matches Err(er) && er@ == em && final(self).stm()
                        == s1,
                }
            }),
        decreases self.fuel, 5int,
    {
        let ghost st0 = self.stm();
        let ghost pre = StateM { fuel: (st0.fuel + 1) as nat, ..st0 };
        proof {
            assert(tick(pre) =~~= st0);
        }
        let x0 = self.fuel;
        let function = match self.get_function(name.as_str()) {
            Some(f) => f,
            None => {
                let m = String::from_str("Fonction '").concat(name.as_str()).concat(
                    "' ba a gani ba (fonction non trouvée)",
                );
                proof {
                    assert(m@ =~= rt_fn_not_found(name@)->Runtime_0);
                }
                return Err(Error::RuntimeError(m));
            },
        };
        proof {
            lemma_view_exprs_props(arguments@);
        }
        if function.parameters.len() != arguments.len() {
            let en = usize_to_string(function.parameters.len());
            let an = usize_to_string(arguments.len());
            let m = String::from_str("Fonction '").concat(name.as_str()).concat(
                "' tana bukata ",
            ).concat(en.as_str()).concat(" argument(s), amma ").concat(an.as_str()).concat(
                " an bayar (fonction '",
            ).concat(name.as_str()).concat("' attend ").concat(en.as_str()).concat(
                " argument(s), mais ",
            ).concat(an.as_str()).concat(" fourni(s))");
            proof {
                assert(function@.params.len() == function.parameters@.len());
                assert(m@ =~= rt_arity(
                    name@,
                    function@.params.len(),
                    view_exprs(arguments@).len(),
                )->Runtime_0);
            }
            return Err(Error::RuntimeError(m));
        }
        let arg_values = self.evaluate_expressions(arguments)?;
        if !(self.fuel <= x0) {
            return Err(stuck_error());
        }
        let ghost s1 = self.stm();
        self.push_scope();
        let ghost params_m = function@.params;
        let ghost vals_m = view_vals(arg_values@);
        proof {
            lemma_view_vals_props(arg_values@);
            assert(params_m.len() == function.parameters@.len());
            assert(vals_m.len() == arg_values@.len());
            assert(bind_params(
                params_m.subrange(0, 0),
                vals_m.subrange(0, 0),
            ) =~~= Map::<Seq<char>, ValM>::empty());
            assert(self.stm() =~~= (StateM {
                scopes: s1.scopes.push(
                    bind_params(params_m.subrange(0, 0), vals_m.subrange(0, 0)),
                ),
                ..s1
            }));
        }
        let mut i: usize = 0;
        while i < function.parameters.len()
            invariant
                self.wf(),
                s1.scopes.len() >= 1,
                params_m == function@.params,
                params_m.len() == function.parameters@.len(),
                vals_m == view_vals(arg_values@),
                vals_m.len() == arg_values@.len(),
                forall|q: int| 0 <= q < arg_values@.len() ==> vals_m[q] == view_val(
                    arg_values@[q],
                ),
                params_m.len() == vals_m.len(),
                0 <= i <= params_m.len(),
                self.stm() == (StateM {
                    scopes: s1.scopes.push(
                        bind_params(
                            params_m.subrange(0, i as int),
                            vals_m.subrange(0, i as int),
                        ),
                    ),
                    ..s1
                }),
            decreases params_m.len() - i,
        {
            let pname = function.parameters[i].clone();
            let aval = clone_value(&arg_values[i]);
            proof {
                assert(function.parameters@[i as int]@ == params_m[i as int]);
            }
            self.set_variable_value(pname, aval);
            i = i + 1;
            proof {
                let pp = params_m.subrange(0, i as int);
                let vv = vals_m.subrange(0, i as int);
                assert(pp.drop_last() =~= params_m.subrange(0, i - 1));
                assert(vv.drop_last() =~= vals_m.subrange(0, i - 1));
                assert(pp.last() == params_m[i - 1]);
                assert(vv.last() == vals_m[i - 1]);
                assert(self.stm() =~~= (StateM {
                    scopes: s1.scopes.push(bind_params(pp, vv)),
                    ..s1
                }));
            }
        }
        proof {
            assert(params_m.subrange(0, params_m.len() as int) =~= params_m);
            assert(vals_m.subrange(0, vals_m.len() as int) =~= vals_m);
        }
        let flow = match self.execute_statements(&function.body) {
            Ok(f) => f,
            Err(e) => {
                return Err(e);
            },
        };
        let result = match flow {
            Flow::Ret(v) => v,
            _ => Value::Number(0),
        };
        let ghost s2 = self.stm();
        proof {
            lemma_stmts_preserve_scopes(
                StateM { scopes: s1.scopes.push(bind_params(params_m, vals_m)), ..s1 },
                function@.body,
            );
            assert(s2.scopes.len() >= 2);
        }
        self.pop_scope();
        proof {
            assert(self.stm() =~~= (StateM { scopes: s2.scopes.drop_last(), ..s2 }));
        }
        Ok(result)
    }

    /// Executes a whole program with a fresh work budget; a return outside
    /// any function is a no-op, and side effects before an error remain.
    pub fn execute(&mut self, program: Program) -> (r: Result<(), Error>)
        requires
            old(self).wf(),
        ensures
            final(self).wf(),
            match spec_exec_program(
                StateM { fuel: DEFAULT_FUEL as nat, ..old(self).stm() },
                program@,
            ) {
                Ok(st) => r matches Ok(u) && final(self).stm() == st,
                Err((st, em)) => r matches Err(er) && er@ == em && final(self).stm() == st,
            },
    {
        self.fuel = DEFAULT_FUEL;
        let ghost st0 = self.stm();
        proof {
            assert(st0 =~~= (StateM { fuel: DEFAULT_FUEL as nat, ..old(self).stm() }));
        }
        let ghost ss = view_stmts(program.statements@);
        proof {
            lemma_view_stmts_props(program.statements@);
        }
        let mut i: usize = 0;
        proof {
            assert(ss.subrange(0, ss.len() as int) =~= ss);
        }
        loop
            invariant
                self.wf(),
                st0 == (StateM { fuel: DEFAULT_FUEL as nat, ..old(self).stm() }),
                ss == view_stmts(program.statements@),
                ss.len() == program.statements@.len(),
                forall|q: int| 0 <= q < program.statements@.len() ==> ss[q] == view_stmt(
                    program.statements@[q],
                ),
                0 <= i <= program.statements@.len(),
                match spec_exec_program(self.stm(), ss.subrange(i as int, ss.len() as int)) {
                    Ok(st) => spec_exec_program(st0, ss) == Ok::<StateM, (StateM, ErrM)>(st),
                    Err(e1) => spec_exec_program(st0, ss) == Err::<StateM, (StateM, ErrM)>(
                        e1,
                    ),
                },
            ensures
                self.wf(),
                spec_exec_program(st0, ss) == Ok::<StateM, (StateM, ErrM)>(self.stm()),
            decreases self.fuel, 6int,
        {
            if i == program.statements.len() {
                proof {
                    assert(ss.subrange(i as int, ss.len() as int) =~= Seq::<StmtM>::empty());
                }
                break ;
            }
            let prev_fuel = self.fuel;
            proof {
                assert(ss.subrange(i as int, ss.len() as int)[0] == ss[i as int]);
            }
            let flow = self.execute_statement(&program.statements[i])?;
            if !(self.fuel < prev_fuel) {
                return Err(stuck_error());
            }
            proof {
                assert(ss.subrange(i as int, ss.len() as int).subrange(
                    1,
                    ss.len() - i,
                ) =~= ss.subrange(i + 1, ss.len() as int));
            }
            i = i + 1;
        }
        Ok(())
    }
}

/// Evaluating any expression leaves the scope stack exactly as it was:
/// argument evaluation and function calls cannot disturb any binding of the
/// caller, so a global variable shadowed inside a function keeps its value.
pub proof fn lemma_eval_preserves_scopes(st: StateM, e: ExprM)
    ensures
        match spec_eval(st, e) {
            Ok((s1, v)) => s1.scopes == st.scopes,
            Err(e1) => true,
        },
    decreases st.fuel, 1int,
{
    if st.fuel == 0 {
    } else {
        let stt = tick(st);
        match e {
            ExprM::List(es) => {
                lemma_eval_list_preserves_scopes(stt, es);
            },
            ExprM::BinOp { left, op, right } => {
                lemma_eval_preserves_scopes(stt, *left);
                if let Ok((s1, lv)) = spec_eval(stt, *left) {
                    if s1.fuel < st.fuel {
                        lemma_eval_preserves_scopes(s1, *right);
                    }
                }
            },
            ExprM::UnOp { op, operand } => {
                lemma_eval_preserves_scopes(stt, *operand);
            },
            ExprM::IndexOp { obj, idx } => {
                lemma_eval_preserves_scopes(stt, *obj);
                if let Ok((s1, ov)) = spec_eval(stt, *obj) {
                    if s1.fuel < st.fuel {
                        lemma_eval_preserves_scopes(s1, *idx);
                    }
                }
            },
            ExprM::Method { recv, name, args } => {
                lemma_eval_preserves_scopes(stt, *recv);
                if let Ok((s1, rv)) = spec_eval(stt, *recv) {
                    if s1.fuel < st.fuel {
                        lemma_eval_list_preserves_scopes(s1, args);
                    }
                }
            },
            ExprM::Call { name, args } => {
                if stt.funcs.contains_key(name) {
                    let f = stt.funcs[name];
                    if f.params.len() == args.len() {
                        lemma_eval_list_preserves_scopes(stt, args);
                        if let Ok((s1, vs)) = spec_eval_list(stt, args) {
                            if s1.fuel < st.fuel {
                                let sc = StateM {
                                    scopes: s1.scopes.push(bind_params(f.params, vs)),
                                    ..s1
                                };
                                lemma_stmts_preserve_scopes(sc, f.body);
                                if let Ok((s2, o)) = spec_exec_stmts(sc, f.body) {
                                    assert(s2.scopes.len() == s1.scopes.len() + 1);
                                    assert(forall|i: int|
                                        0 <= i < s1.scopes.len() ==> s2.scopes[i]
                                            == sc.scopes[i]);
                                    assert(forall|i: int|
                                        0 <= i < s1.scopes.len() ==> sc.scopes[i]
                                            == s1.scopes[i]);
                                    assert(s2.scopes.drop_last() =~= s1.scopes);
                                }
                            }
                        }
                    }
                }
            },
            _ => {},
        }
    }
}

/// Evaluating a sequence of expressions leaves the scope stack unchanged.
pub proof fn lemma_eval_list_preserves_scopes(st: StateM, es: Seq<ExprM>)
    ensures
        match spec_eval_list(st, es) {
            Ok((s1, vs)) => s1.scopes == st.scopes,
            Err(e1) => true,
        },
    decreases st.fuel, 2int, es.len(),
{
    if es.len() == 0 {
    } else {
        lemma_eval_preserves_scopes(st, es[0]);
        if let Ok((s1, v)) = spec_eval(st, es[0]) {
            if s1.fuel < st.fuel {
                lemma_eval_list_preserves_scopes(s1, es.subrange(1, es.len() as int));
            }
        }
    }
}

/// Executing one statement can change only the innermost scope: the count
/// of scopes and every scope below the top are untouched.
pub proof fn lemma_stmt_preserves_scopes(st: StateM, s: StmtM)
    requires
        st.scopes.len() >= 1,
    ensures
        match spec_exec_stmt(st, s) {
            Ok((s1, o)) => s1.scopes.len() == st.scopes.len() && forall|i: int|
                0 <= i < st.scopes.len() - 1 ==> s1.scopes[i] == st.scopes[i],
            Err(e1) => true,
        },
    decreases st.fuel, 3int,
{
    if st.fuel == 0 {
    } else {
        let stt = tick(st);
        match s {
            StmtM::Let { name, value } => {
                lemma_eval_preserves_scopes(stt, value);
            },
            StmtM::Print(e) => {
                lemma_eval_preserves_scopes(stt, e);
            },
            StmtM::If { cond, then_b, else_b } => {
                lemma_eval_preserves_scopes(stt, cond);
                if let Ok((s1, cv)) = spec_eval(stt, cond) {
                    if s1.fuel < st.fuel {
                        if truthy(cv) {
                            lemma_stmts_preserve_scopes(s1, then_b);
                        } else {
                            match else_b {
                                Some(b) => {
                                    lemma_stmt_preserves_scopes(s1, *b);
                                },
                                None => {},
                            }
                        }
                    }
                }
            },
            StmtM::While { cond, body } => {
                lemma_eval_preserves_scopes(stt, cond);
                if let Ok((s1, cv)) = spec_eval(stt, cond) {
                    if s1.fuel < st.fuel && truthy(cv) {
                        lemma_stmts_preserve_scopes(s1, body);
                        if let Ok((s2, o)) = spec_exec_stmts(s1, body) {
                            if !(o is Ret) && !(o is Brk) && s2.fuel < st.fuel {
                                lemma_stmt_preserves_scopes(s2, s);
                            }
                        }
                    }
                }
            },
            StmtM::For { var, iter, body } => {
                lemma_eval_preserves_scopes(stt, iter);
                if let Ok((s1, iv)) = spec_eval(stt, iter) {
                    if iv is List && s1.fuel < st.fuel {
                        lemma_for_each_preserves_scopes(s1, var, iv->List_0, body);
                    }
                }
            },
            StmtM::Return(e) => {
                lemma_eval_preserves_scopes(stt, e);
            },
            StmtM::Expr(e) => {
                lemma_eval_preserves_scopes(stt, e);
            },
            _ => {},
        }
    }
}

/// Executing a statement list can change only the innermost scope.
pub proof fn lemma_stmts_preserve_scopes(st: StateM, ss: Seq<StmtM>)
    requires
        st.scopes.len() >= 1,
    ensures
        match spec_exec_stmts(st, ss) {
            Ok((s1, o)) => s1.scopes.len() == st.scopes.len() && forall|i: int|
                0 <= i < st.scopes.len() - 1 ==> s1.scopes[i] == st.scopes[i],
            Err(e1) => true,
        },
    decreases st.fuel, 4int, ss.len(),
{
    if ss.len() == 0 {
    } else {
        lemma_stmt_preserves_scopes(st, ss[0]);
        if let Ok((s1, o)) = spec_exec_stmt(st, ss[0]) {
            if o is Normal && s1.fuel < st.fuel {
                lemma_stmts_preserve_scopes(s1, ss.subrange(1, ss.len() as int));
            }
        }
    }
}

/// Running a loop body over list elements can change only the innermost
/// scope.
pub proof fn lemma_for_each_preserves_scopes(
    st: StateM,
    var: Seq<char>,
    items: Seq<ValM>,
    body: Seq<StmtM>,
)
    requires
        st.scopes.len() >= 1,
    ensures
        match spec_for_each(st, var, items, body) {
            Ok((s1, o)) => s1.scopes.len() == st.scopes.len() && forall|i: int|
                0 <= i < st.scopes.len() - 1 ==> s1.scopes[i] == st.scopes[i],
            Err(e1) => true,
        },
    decreases st.fuel, 5int, items.len(),
{
    if items.len() == 0 || st.fuel == 0 {
    } else {
        let sb = set_top(tick(st), var, items[0]);
        assert(sb.scopes.len() == st.scopes.len());
        assert(forall|i: int| 0 <= i < st.scopes.len() - 1 ==> sb.scopes[i] == st.scopes[i]);
        lemma_stmts_preserve_scopes(sb, body);
        if let Ok((s1, o)) = spec_exec_stmts(sb, body) {
            assert(s1.scopes.len() == st.scopes.len());
            assert(forall|i: int| 0 <= i < st.scopes.len() - 1 ==> s1.scopes[i]
                == st.scopes[i]);
            if !(o is Ret) && !(o is Brk) && s1.fuel < st.fuel {
                lemma_for_each_preserves_scopes(
                    s1,
                    var,
                    items.subrange(1, items.len() as int),
                    body,
                );
            }
        }
    }
}

/// The mathematically truncated integer quotient: division rounds toward
/// zero.
pub open spec fn trunc_div(a: int, b: int) -> int {
    if a == 0 {
        0
    } else if a > 0 && b > 0 {
        a / b
    } else if a < 0 && b < 0 {
        (a * -1) / (b * -1)
    } else if a < 0 {
        ((a * -1) / b) * -1
    } else {
        (a / (b * -1)) * -1
    }
}

/// Dividing two integers yields the mathematically truncated quotient, and
/// dividing by zero is the division-by-zero error, never anything else.
/// The one pair excluded below wraps to the smallest integer instead, as
/// its true quotient is not representable.
pub proof fn lemma_integer_division(a: i64, b: i64)
    requires
        !(a == i64::MIN && b == -1),
    ensures
        b == 0 ==> spec_binop(ValM::Num(a), BinaryOperator::Divide, ValM::Num(b)) == Err::<
            ValM,
            ErrM,
        >(rt_div_zero()),
        b != 0 ==> spec_binop(ValM::Num(a), BinaryOperator::Divide, ValM::Num(b)) == Ok::<
            ValM,
            ErrM,
        >(ValM::Num((trunc_div(a as int, b as int)) as i64)),
{
    if b != 0 {
        assert(i64::MIN <= trunc_div(a as int, b as int) <= i64::MAX) by (nonlinear_arith)
            requires
                b != 0,
                !(a == i64::MIN && b == -1),
                i64::MIN <= a <= i64::MAX,
                i64::MIN <= b <= i64::MAX,
        ;
    }
}

/// A string joined to a boolean with the additive operator renders the
/// boolean as its localized word, on either side.
pub proof fn lemma_string_bool_concat(s: Seq<char>, b: bool)
    ensures
        spec_binop(ValM::Str(s), BinaryOperator::Add, ValM::Bool(b)) == Ok::<ValM, ErrM>(
            ValM::Str(s + bool_word(b)),
        ),
        spec_binop(ValM::Bool(b), BinaryOperator::Add, ValM::Str(s)) == Ok::<ValM, ErrM>(
            ValM::Str(bool_word(b) + s),
        ),
{
}

/// Joining two strings with the additive operator concatenates them.
pub proof fn lemma_string_concat(a: Seq<char>, b: Seq<char>)
    ensures
        spec_binop(ValM::Str(a), BinaryOperator::Add, ValM::Str(b)) == Ok::<ValM, ErrM>(
            ValM::Str(a + b),
        ),
{
}

/// For any three-element list, index minus one retrieves the last element
/// and index minus four is an out-of-bounds error.
pub proof fn lemma_negative_indexing(items: Seq<ValM>)
    requires
        items.len() == 3,
    ensures
        spec_index(ValM::List(items), ValM::Num((-1) as i64)) == Ok::<ValM, ErrM>(items[2]),
        spec_index(ValM::List(items), ValM::Num((-4) as i64)) == Err::<ValM, ErrM>(rt_index_bounds()),
{
}

/// A negative index counts from the end of the list, and any index that
/// normalizes outside the list is an out-of-bounds error — for every list.
pub proof fn lemma_index_rule(items: Seq<ValM>, i: i64)
    ensures
        -(items.len() as int) <= i < items.len() ==> spec_index(
            ValM::List(items),
            ValM::Num(i),
        ) == Ok::<ValM, ErrM>(items[if i < 0 {
            items.len() + i
        } else {
            i as int
        }]),
        !(-(items.len() as int) <= i < items.len()) ==> spec_index(
            ValM::List(items),
            ValM::Num(i),
        ) == Err::<ValM, ErrM>(rt_index_bounds()),
{
}

/// Reading a variable that no scope defines raises the runtime error
/// naming it, in every state with work left; it is never a default value.
pub proof fn lemma_undefined_variable(st: StateM, name: Seq<char>)
    requires
        st.fuel > 0,
        lookup(st.scopes, name) is None,
    ensures
        spec_eval(st, ExprM::Ident(name)) == Err::<(StateM, ValM), (StateM, ErrM)>(
            (tick(st), rt_var_not_found(name)),
        ),
{
}

/// Calling a function with the wrong number of arguments fails with the
/// error citing both counts, before any argument is evaluated: the scopes,
/// the output and the inputs are exactly as before the call.
pub proof fn lemma_arity_mismatch(st: StateM, name: Seq<char>, args: Seq<ExprM>)
    requires
        st.fuel > 0,
        st.funcs.contains_key(name),
        st.funcs[name].params.len() != args.len(),
    ensures
        spec_eval(st, ExprM::Call { name, args }) == Err::<(StateM, ValM), (StateM, ErrM)>(
            (tick(st), rt_arity(name, st.funcs[name].params.len(), args.len())),
        ),
        tick(st).scopes == st.scopes,
        tick(st).output == st.output,
        tick(st).inputs == st.inputs,
{
}

} // verus!


