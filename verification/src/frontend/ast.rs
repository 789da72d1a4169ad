use vstd::prelude::*;

use super::token::Ident;

verus! {

/// Binary operators.
#[derive(Clone, Copy, Debug, PartialEq, Eq, Structural)]
pub enum BinOp {
    Times,
    Divide,
    Plus,
    Minus,
    Equals,
    Less,
    Leq,
    Greater,
    Geq,
    Neq,
    And,
    Or,
}

/// Unary operators.
#[derive(Clone, Copy, Debug, PartialEq, Eq, Structural)]
pub enum UnaryOp {
    Minus,
    Not,
}

/// The interner of the program's texts, as the `lasso` crate has it.
#[verifier::external_type_specification]
#[verifier::external_body]
#[verifier::reject_recursive_types(K)]
#[verifier::reject_recursive_types(S)]
pub struct ExRodeo<K, S>(lasso::Rodeo<K, S>);

/// A parsed program and the interner of its texts.
pub struct Ast {
    pub lexeme_arena: lasso::Rodeo,
    pub root: Program,
}

/// `lhs op rhs`.
#[derive(Debug)]
pub struct Binary {
    pub lhs: Box<Expression>,
    pub op: BinOp,
    pub rhs: Box<Expression>,
}

impl Binary {
    pub fn new(lhs: Expression, op: BinOp, rhs: Expression) -> (r: Self)
        ensures
            *r.lhs == lhs,
            r.op == op,
            *r.rhs == rhs,
    {
        Self { lhs: Box::new(lhs), op, rhs: Box::new(rhs) }
    }
}

/// `op operand`.
#[derive(Debug)]
pub struct Unary {
    pub operand: Box<Expression>,
    pub op: UnaryOp,
}

impl Unary {
    pub fn new(op: UnaryOp, operand: Expression) -> (r: Self)
        ensures
            r.op == op,
            *r.operand == operand,
    {
        Unary { op, operand: Box::new(operand) }
    }
}

/// A literal: a number or a string (by their texts), a boolean, or a
/// variable.
#[derive(Debug)]
pub enum Literal {
    Num(Ident),
    String(Ident),
    Bool(bool),
    Var(Ident),
}

/// `callee(args)`.
#[derive(Debug)]
pub struct Call {
    pub callee: Box<Expression>,
    pub args: Vec<Expression>,
}

/// `accessee.property`.
#[derive(Debug)]
pub struct Member {
    pub accessee: Box<Expression>,
    pub property: Ident,
}

#[derive(Debug)]
pub enum Expression {
    Bin(Binary),
    Unary(Unary),
    Lit(Literal),
    Assign(Assign),
    Call(Call),
    SuperMember(Ident),
    Member(Member),
    Nil,
}

#[derive(Debug)]
pub struct ExprStatement {
    pub expr: Expression,
}

#[derive(Debug)]
pub struct WhileStatement {
    pub cond: Expression,
    pub body: Box<Block>,
}

#[derive(Debug)]
pub struct ForLoop {
    pub init: Box<VarDeclaration>,
    pub condition: Expression,
    pub increment: Expression,
    pub body: Box<Block>,
}

#[derive(Debug)]
pub enum IfStatement {
    Trivial { cond: Expression, body: Box<Block> },
    Fork { cond: Expression, true_case: Box<Block>, false_case: ElseTail },
}

#[derive(Debug)]
pub enum ElseTail {
    Trivial(Box<Block>),
    If(Box<IfStatement>),
}

#[derive(Debug)]
pub struct Block {
    pub declarations: Vec<Declaration>,
}

#[derive(Debug)]
pub struct Return {
    pub expr: Expression,
}

#[derive(Debug)]
pub enum Statement {
    Expr(ExprStatement),
    Block(Block),
    If(IfStatement),
    While(WhileStatement),
    For(ForLoop),
    Return(Return),
    Break,
}

#[derive(Debug)]
pub struct FuncDecl {
    pub name: Ident,
    pub body: Block,
    pub args: Vec<Ident>,
}

#[derive(Debug)]
pub struct VarDeclaration {
    pub ident: Ident,
    pub assign: Expression,
}

#[derive(Debug)]
pub struct ClassDeclaration {
    pub ident: Ident,
    pub methods: Vec<FuncDecl>,
    pub inherits: Option<Ident>,
}

#[derive(Debug)]
pub enum Declaration {
    Statement(Statement),
    Var(VarDeclaration),
    Fun(FuncDecl),
    Class(ClassDeclaration),
}

#[derive(Debug)]
pub enum LValue {
    Var(lasso::Spur),
    Member(Member),
}

/// `assignee = assign`.
#[derive(Debug)]
pub struct Assign {
    pub assignee: LValue,
    pub assign: Box<Expression>,
}

#[derive(Debug)]
pub struct Program {
    pub declarations: Vec<Declaration>,
}

} // verus!
