//! The syntax tree that the script compiler reads.
use vstd::prelude::*;

verus! {

/// A statement.
#[derive(Debug, PartialEq)]
pub enum Statement {
    ClassDecl { name: String, members: Vec<ClassMember> },
    Expression(Expression),
    Return(Option<Expression>),
    Throw(Option<Expression>),
    TryCatch { try_branch: Vec<Statement>, catches: Vec<CatchClause>, finally_branch: Option<Vec<Statement>> },
    VariableDecl { name: String, value: Expression },
    If { condition: Expression, then_branch: Vec<Statement>, else_branch: Option<Vec<Statement>> },
    ForClassic {
        init: Option<Box<Statement>>,
        condition: Option<Expression>,
        update: Option<Expression>,
        body: Vec<Statement>,
    },
    FunctionDecl { name: String, params: Vec<String>, body: FunctionBody },
    ForLoop { item: String, index: Option<String>, collection: Expression, body: Vec<Statement> },
}

/// A `catch` clause: the variable bound to the exception, and the body.
#[derive(Debug, PartialEq)]
pub struct CatchClause {
    pub exception_var: String,
    pub body: Vec<Statement>,
}

/// A member of a class body.
#[derive(Debug, PartialEq)]
pub enum ClassMember {
    Property(String),
    Statement(Statement),
}

/// The body of a function: statements, or a single expression (an arrow
/// function).
#[derive(Debug, PartialEq)]
pub enum FunctionBody {
    Block(Vec<Statement>),
    Expression(Box<Expression>),
}

/// A piece of a string literal: text, or an interpolated expression.
#[derive(Debug, PartialEq)]
pub enum StringPart {
    Text(String),
    Expression(Expression),
}

/// A literal. A number is held as the bit pattern of its double.
#[derive(Debug, PartialEq)]
pub enum Literal {
    Number(u64),
    String(Vec<StringPart>),
    Boolean(bool),
    Null,
    Array(Vec<Expression>),
    Struct(Vec<(Expression, Expression)>),
    Function { params: Vec<String>, body: FunctionBody },
}

/// What an assignment or an increment writes to.
#[derive(Debug, PartialEq)]
pub enum AssignmentTarget {
    Identifier(String),
    Member { base: Box<Expression>, member: String },
    Index { base: Box<Expression>, index: Box<Expression> },
}

/// An expression.
#[derive(Debug, PartialEq)]
pub enum Expression {
    New { class_name: String, args: Vec<Expression> },
    Literal(Literal),
    Binary { left: Box<Expression>, operator: String, right: Box<Expression> },
    Identifier(String),
    Assignment { target: AssignmentTarget, value: Box<Expression> },
    FunctionCall { base: Box<Expression>, args: Vec<Expression> },
    ArrayAccess { base: Box<Expression>, index: Box<Expression> },
    MemberAccess { base: Box<Expression>, member: String },
    Prefix { operator: String, target: AssignmentTarget },
    Postfix { base: Box<Expression>, operator: String },
}

} // verus!
