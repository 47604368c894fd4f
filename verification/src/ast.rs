//! The syntax tree that the parser builds and the compiler walks.

use vstd::prelude::*;

verus! {

/// A range of the source text, in characters from its start.
#[derive(Debug, Clone, Copy, PartialEq, Eq, Structural)]
pub struct Span {
    pub start: usize,
    pub end: usize,
}

/// An expression.
#[derive(Debug)]
pub enum Expression {
    Int(Integer),
    String(String),
    GetVar(GetVar),
    SetVar(Box<SetVar>),
    Infix(Box<Infix>),
    Prefix(Box<Prefix>),
    Call(Box<Call>),
    GetInstance(Box<GetInstance>),
    Index(Box<Index>),
    Vec_(Box<VectorDec>),
    If(Box<If>),
    While(Box<While>),
}

/// A conditional: `other` is empty where there is no `else`.
#[derive(Debug)]
pub struct If {
    pub cond: Expression,
    pub body: Program,
    pub other: Program,
    pub pos: Span,
}

/// A loop.
#[derive(Debug)]
pub struct While {
    pub cond: Expression,
    pub body: Program,
    pub pos: Span,
}

/// A binary operator with its operands. `pos` is the span of the operator.
#[derive(Debug)]
pub struct Infix {
    pub left: Expression,
    pub operator: std::string::String,
    pub right: Expression,
    pub pos: Span,
}

/// A prefix operator with its operand.
#[derive(Debug)]
pub struct Prefix {
    pub operator: std::string::String,
    pub right: Expression,
    pub pos: Span,
}

/// An integer literal.
#[derive(Debug)]
pub struct Integer {
    pub value: u64,
    pub pos: Span,
}

/// A string literal, with its escapes decoded.
#[derive(Debug)]
pub struct String {
    pub value: std::string::String,
    pub pos: Span,
}

/// A variable that is read.
#[derive(Debug)]
pub struct GetVar {
    pub name: std::string::String,
    pub pos: Span,
}

/// An assignment.
#[derive(Debug)]
pub struct SetVar {
    pub name: std::string::String,
    pub value: Expression,
    pub pos: Span,
}

/// A call.
#[derive(Debug)]
pub struct Call {
    pub callee: Expression,
    pub arguments: Vec<Expression>,
    pub pos: Span,
}

/// An index expression.
#[derive(Debug)]
pub struct Index {
    pub callee: Expression,
    pub index: Expression,
    pub pos: Span,
}

/// A vector literal.
#[derive(Debug)]
pub struct VectorDec {
    pub values: Vec<Expression>,
    pub pos: Span,
}

/// A member access.
#[derive(Debug)]
pub struct GetInstance {
    pub parent: Expression,
    pub name: std::string::String,
    pub pos: Span,
}

/// A statement.
#[derive(Debug)]
pub enum Statement {
    ExprStmt(ExprStmt),
    FunctionDeclare(FunctionDeclare),
}

/// An expression as a statement.
#[derive(Debug)]
pub struct ExprStmt {
    pub expr: Expression,
    pub pos: Span,
}

/// A function declaration.
#[derive(Debug)]
pub struct FunctionDeclare {
    pub name: std::string::String,
    pub args: Vec<std::string::String>,
    pub body: Program,
    pub pos: Span,
}

/// A program: statements in order.
pub type Program = Vec<Statement>;

/// An expression as a mathematical value: the model of `Expression`.
#[allow(inconsistent_fields)]
pub enum Expr {
    Int { value: u64, pos: Span },
    Str { value: Seq<char>, pos: Span },
    GetVar { name: Seq<char>, pos: Span },
    SetVar { name: Seq<char>, value: Box<Expr>, pos: Span },
    Infix { left: Box<Expr>, operator: Seq<char>, right: Box<Expr>, pos: Span },
    Prefix { operator: Seq<char>, right: Box<Expr>, pos: Span },
    Call { callee: Box<Expr>, arguments: Seq<Expr>, pos: Span },
    GetInstance { parent: Box<Expr>, name: Seq<char>, pos: Span },
    Index { callee: Box<Expr>, index: Box<Expr>, pos: Span },
    Vector { values: Seq<Expr>, pos: Span },
    If { cond: Box<Expr>, body: Seq<Stmt>, other: Seq<Stmt>, pos: Span },
    While { cond: Box<Expr>, body: Seq<Stmt>, pos: Span },
}

/// A statement as a mathematical value: the model of `Statement`.
pub enum Stmt {
    Expr { expr: Expr, pos: Span },
    Function { name: Seq<char>, args: Seq<Seq<char>>, body: Seq<Stmt>, pos: Span },
}

impl Expression {
    /// The model of this expression.
    pub open spec fn model(&self) -> Expr
        decreases self,
    {
        match self {
            Expression::Int(x) => Expr::Int { value: x.value, pos: x.pos },
            Expression::String(x) => Expr::Str { value: x.value@, pos: x.pos },
            Expression::GetVar(x) => Expr::GetVar { name: x.name@, pos: x.pos },
            Expression::SetVar(x) => Expr::SetVar {
                name: x.name@,
                value: Box::new(x.value.model()),
                pos: x.pos,
            },
            Expression::Infix(x) => Expr::Infix {
                left: Box::new(x.left.model()),
                operator: x.operator@,
                right: Box::new(x.right.model()),
                pos: x.pos,
            },
            Expression::Prefix(x) => Expr::Prefix {
                operator: x.operator@,
                right: Box::new(x.right.model()),
                pos: x.pos,
            },
            Expression::Call(x) => Expr::Call {
                callee: Box::new(x.callee.model()),
                arguments: Seq::new(
                    x.arguments.len() as nat,
                    |i: int|
                        if 0 <= i < x.arguments.len() {
                            x.arguments[i].model()
                        } else {
                            arbitrary()
                        },
                ),
                pos: x.pos,
            },
            Expression::GetInstance(x) => Expr::GetInstance {
                parent: Box::new(x.parent.model()),
                name: x.name@,
                pos: x.pos,
            },
            Expression::Index(x) => Expr::Index {
                callee: Box::new(x.callee.model()),
                index: Box::new(x.index.model()),
                pos: x.pos,
            },
            Expression::Vec_(x) => Expr::Vector {
                values: Seq::new(
                    x.values.len() as nat,
                    |i: int|
                        if 0 <= i < x.values.len() {
                            x.values[i].model()
                        } else {
                            arbitrary()
                        },
                ),
                pos: x.pos,
            },
            Expression::If(x) => Expr::If {
                cond: Box::new(x.cond.model()),
                body: Seq::new(
                    x.body.len() as nat,
                    |i: int|
                        if 0 <= i < x.body.len() {
                            x.body[i].model()
                        } else {
                            arbitrary()
                        },
                ),
                other: Seq::new(
                    x.other.len() as nat,
                    |i: int|
                        if 0 <= i < x.other.len() {
                            x.other[i].model()
                        } else {
                            arbitrary()
                        },
                ),
                pos: x.pos,
            },
            Expression::While(x) => Expr::While {
                cond: Box::new(x.cond.model()),
                body: Seq::new(
                    x.body.len() as nat,
                    |i: int|
                        if 0 <= i < x.body.len() {
                            x.body[i].model()
                        } else {
                            arbitrary()
                        },
                ),
                pos: x.pos,
            },
        }
    }
}

impl Statement {
    /// The model of this statement.
    pub open spec fn model(&self) -> Stmt
        decreases self,
    {
        match self {
            Statement::ExprStmt(x) => Stmt::Expr { expr: x.expr.model(), pos: x.pos },
            Statement::FunctionDeclare(x) => Stmt::Function {
                name: x.name@,
                args: Seq::new(x.args.len() as nat, |i: int| x.args[i]@),
                body: Seq::new(
                    x.body.len() as nat,
                    |i: int|
                        if 0 <= i < x.body.len() {
                            x.body[i].model()
                        } else {
                            arbitrary()
                        },
                ),
                pos: x.pos,
            },
        }
    }
}

impl View for Expression {
    type V = Expr;

    open spec fn view(&self) -> Expr {
        self.model()
    }
}

impl View for Statement {
    type V = Stmt;

    open spec fn view(&self) -> Stmt {
        self.model()
    }
}

/// The models of a sequence of expressions, in order.
pub open spec fn exprs_model(v: Seq<Expression>) -> Seq<Expr> {
    Seq::new(v.len(), |i: int| v[i].model())
}

/// The model of a program: the models of its statements, in order.
pub open spec fn program_model(v: Seq<Statement>) -> Seq<Stmt> {
    Seq::new(v.len(), |i: int| v[i].model())
}

/// The views of a sequence of strings, in order.
pub open spec fn names_model(v: Seq<std::string::String>) -> Seq<Seq<char>> {
    Seq::new(v.len(), |i: int| v[i]@)
}


/// The model of a conditional holds the models of its parts.
pub proof fn lemma_if_model(e: Expression)
    requires
        e is If,
    ensures
        e.model() is If,
        *e.model()->If_cond == e->If_0.cond.model(),
        e.model()->If_body == program_model(e->If_0.body@),
        e.model()->If_other == program_model(e->If_0.other@),
        e.model()->If_pos == e->If_0.pos,
{
    assert(e.model()->If_body =~= program_model(e->If_0.body@));
    assert(e.model()->If_other =~= program_model(e->If_0.other@));
}

/// The model of a loop holds the models of its parts.
pub proof fn lemma_while_model(e: Expression)
    requires
        e is While,
    ensures
        e.model() is While,
        *e.model()->While_cond == e->While_0.cond.model(),
        e.model()->While_body == program_model(e->While_0.body@),
        e.model()->While_pos == e->While_0.pos,
{
    assert(e.model()->While_body =~= program_model(e->While_0.body@));
}

/// The model of a call holds the models of its parts.
pub proof fn lemma_call_model(e: Expression)
    requires
        e is Call,
    ensures
        e.model() is Call,
        *e.model()->Call_callee == e->Call_0.callee.model(),
        e.model()->Call_arguments == exprs_model(e->Call_0.arguments@),
        e.model()->Call_pos == e->Call_0.pos,
{
    assert(e.model()->Call_arguments =~= exprs_model(e->Call_0.arguments@));
}

/// The model of a vector literal holds the models of its items.
pub proof fn lemma_vector_model(e: Expression)
    requires
        e is Vec_,
    ensures
        e.model() is Vector,
        e.model()->Vector_values == exprs_model(e->Vec__0.values@),
        e.model()->Vector_pos == e->Vec__0.pos,
{
    assert(e.model()->Vector_values =~= exprs_model(e->Vec__0.values@));
}

/// The model of a function declaration holds the models of its parts.
pub proof fn lemma_function_model(s: Statement)
    requires
        s is FunctionDeclare,
    ensures
        s.model() is Function,
        s.model()->Function_name == s->FunctionDeclare_0.name@,
        s.model()->Function_args == names_model(s->FunctionDeclare_0.args@),
        s.model()->Function_body == program_model(s->FunctionDeclare_0.body@),
        s.model()->Function_pos == s->FunctionDeclare_0.pos,
{
    assert(s.model()->Function_args =~= names_model(s->FunctionDeclare_0.args@));
    assert(s.model()->Function_body =~= program_model(s->FunctionDeclare_0.body@));
}


/// A copy of a sequence of expressions.
pub fn copy_expressions(v: &Vec<Expression>) -> (r: Vec<Expression>)
    ensures
        exprs_model(r@) == exprs_model(v@),
    decreases v,
{
    let mut out: Vec<Expression> = Vec::new();
    let mut i: usize = 0;
    while i < v.len()
        invariant
            i <= v.len(),
            out@.len() == i,
            forall|k: int| 0 <= k < i ==> out@[k].model() == v@[k].model(),
        decreases v.len() - i,
    {
        proof {
            assert(decreases_to!(v => v[i as int]));
        }
        out.push(v[i].copy());
        i += 1;
    }
    proof {
        assert(exprs_model(out@) =~= exprs_model(v@));
    }
    out
}

/// A copy of a program.
pub fn copy_program(v: &Vec<Statement>) -> (r: Vec<Statement>)
    ensures
        program_model(r@) == program_model(v@),
    decreases v,
{
    let mut out: Vec<Statement> = Vec::new();
    let mut i: usize = 0;
    while i < v.len()
        invariant
            i <= v.len(),
            out@.len() == i,
            forall|k: int| 0 <= k < i ==> out@[k].model() == v@[k].model(),
        decreases v.len() - i,
    {
        proof {
            assert(decreases_to!(v => v[i as int]));
        }
        out.push(v[i].copy());
        i += 1;
    }
    proof {
        assert(program_model(out@) =~= program_model(v@));
    }
    out
}

/// A copy of a sequence of names.
pub fn copy_names(v: &Vec<std::string::String>) -> (r: Vec<std::string::String>)
    ensures
        names_model(r@) == names_model(v@),
{
    let mut out: Vec<std::string::String> = Vec::new();
    let mut i: usize = 0;
    while i < v.len()
        invariant
            i <= v.len(),
            out@.len() == i,
            forall|k: int| 0 <= k < i ==> out@[k]@ == v@[k]@,
        decreases v.len() - i,
    {
        out.push(v[i].clone());
        i += 1;
    }
    proof {
        assert(names_model(out@) =~= names_model(v@));
    }
    out
}

impl Expression {
    /// A copy of this expression.
    #[verifier::rlimit(30)]
    #[verifier::spinoff_prover]
    pub fn copy(&self) -> (r: Self)
        ensures
            r.model() == self.model(),
        decreases self,
    {
        match self {
            Expression::Int(x) => Expression::Int(Integer { value: x.value, pos: x.pos }),
            Expression::String(x) => Expression::String(
                String { value: x.value.clone(), pos: x.pos },
            ),
            Expression::GetVar(x) => Expression::GetVar(
                GetVar { name: x.name.clone(), pos: x.pos },
            ),
            Expression::SetVar(x) => Expression::SetVar(
                Box::new(SetVar { name: x.name.clone(), value: x.value.copy(), pos: x.pos }),
            ),
            Expression::Infix(x) => Expression::Infix(
                Box::new(
                    Infix {
                        left: x.left.copy(),
                        operator: x.operator.clone(),
                        right: x.right.copy(),
                        pos: x.pos,
                    },
                ),
            ),
            Expression::Prefix(x) => Expression::Prefix(
                Box::new(
                    Prefix { operator: x.operator.clone(), right: x.right.copy(), pos: x.pos },
                ),
            ),
            Expression::Call(x) => {
                let r = Expression::Call(
                    Box::new(
                        Call {
                            callee: x.callee.copy(),
                            arguments: copy_expressions(&x.arguments),
                            pos: x.pos,
                        },
                    ),
                );
                proof {
                    lemma_call_model(r);
                    lemma_call_model(*self);
                }
                r
            },
            Expression::GetInstance(x) => Expression::GetInstance(
                Box::new(
                    GetInstance { parent: x.parent.copy(), name: x.name.clone(), pos: x.pos },
                ),
            ),
            Expression::Index(x) => Expression::Index(
                Box::new(Index { callee: x.callee.copy(), index: x.index.copy(), pos: x.pos }),
            ),
            Expression::Vec_(x) => {
                let r = Expression::Vec_(
                    Box::new(VectorDec { values: copy_expressions(&x.values), pos: x.pos }),
                );
                proof {
                    lemma_vector_model(r);
                    lemma_vector_model(*self);
                }
                r
            },
            Expression::If(x) => {
                let r = Expression::If(
                    Box::new(
                        If {
                            cond: x.cond.copy(),
                            body: copy_program(&x.body),
                            other: copy_program(&x.other),
                            pos: x.pos,
                        },
                    ),
                );
                proof {
                    lemma_if_model(r);
                    lemma_if_model(*self);
                }
                r
            },
            Expression::While(x) => {
                let r = Expression::While(
                    Box::new(
                        While { cond: x.cond.copy(), body: copy_program(&x.body), pos: x.pos },
                    ),
                );
                proof {
                    lemma_while_model(r);
                    lemma_while_model(*self);
                }
                r
            },
        }
    }
}

impl Statement {
    /// A copy of this statement.
    pub fn copy(&self) -> (r: Self)
        ensures
            r.model() == self.model(),
        decreases self,
    {
        match self {
            Statement::ExprStmt(x) => Statement::ExprStmt(
                ExprStmt { expr: x.expr.copy(), pos: x.pos },
            ),
            Statement::FunctionDeclare(x) => {
                let r = Statement::FunctionDeclare(
                    FunctionDeclare {
                        name: x.name.clone(),
                        args: copy_names(&x.args),
                        body: copy_program(&x.body),
                        pos: x.pos,
                    },
                );
                proof {
                    lemma_function_model(r);
                    lemma_function_model(*self);
                }
                r
            },
        }
    }
}

impl Clone for Expression {
    fn clone(&self) -> (r: Self)
        ensures
            r@ == self@,
    {
        self.copy()
    }
}

impl Clone for Statement {
    fn clone(&self) -> (r: Self)
        ensures
            r@ == self@,
    {
        self.copy()
    }
}

} // verus!
