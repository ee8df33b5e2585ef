//! The expression and statement tree shared by the compiler passes.

use vstd::prelude::*;

verus! {

/// Binary operators.
#[derive(Clone, Copy, Debug, PartialEq, Eq, Structural)]
pub enum BinaryOperation {
    Add,
    AddWrapped,
    And,
    BitwiseAnd,
    Div,
    DivWrapped,
    Eq,
    Gte,
    Gt,
    Lte,
    Lt,
    Mod,
    Mul,
    MulWrapped,
    Nand,
    Neq,
    Nor,
    Or,
    BitwiseOr,
    Pow,
    PowWrapped,
    Rem,
    RemWrapped,
    Shl,
    ShlWrapped,
    Shr,
    ShrWrapped,
    Sub,
    SubWrapped,
    Xor,
}

/// Unary operators.
#[derive(Clone, Copy, Debug, PartialEq, Eq, Structural)]
pub enum UnaryOperation {
    Abs,
    AbsWrapped,
    Double,
    Inverse,
    Not,
    Negate,
    Square,
    SquareRoot,
}

/// The hash and commitment primitives that carry associated functions.
#[derive(Clone, Copy, Debug, PartialEq, Eq, Structural)]
pub enum CoreType {
    BHP256,
    BHP512,
    BHP768,
    BHP1024,
    Pedersen64,
    Pedersen128,
    Poseidon2,
    Poseidon4,
    Poseidon8,
}

/// Types, as far as the passes here read them.
#[derive(Debug, PartialEq, Eq)]
pub enum Type {
    /// The unit type `()`.
    Unit,
    /// A tuple of the given element types.
    Tuple(Vec<Type>),
    /// One of the core primitive types.
    Core(CoreType),
    /// Any other type, by name (a primitive, a struct or a record).
    Identifier(String),
}

/// A member of a struct or record construction: `name: expression`, or the
/// shorthand `name` when `expression` is absent.
#[derive(Debug, PartialEq, Eq)]
pub struct StructVariableInitializer {
    pub identifier: String,
    pub expression: Option<Expression>,
}

/// Construction of a struct or record value.
#[derive(Debug, PartialEq, Eq)]
pub struct StructExpression {
    pub name: String,
    pub members: Vec<StructVariableInitializer>,
}

/// A call of a user function, possibly one of another program.
#[derive(Debug, PartialEq, Eq)]
pub struct CallExpression {
    pub function: String,
    pub arguments: Vec<Expression>,
    pub external: Option<String>,
}

/// Access expressions.
#[derive(Debug, PartialEq, Eq)]
pub enum AccessExpression {
    /// `inner.name`.
    Member { inner: Box<Expression>, name: String },
    /// `ty::name`, a constant of a type.
    AssociatedConstant { ty: Type, name: String },
    /// `ty::name(args)`, a function of a core type.
    AssociatedFunction { ty: Type, name: String, args: Vec<Expression> },
    /// `tuple.index`.
    Tuple { tuple: Box<Expression>, index: usize },
}

/// Expressions.
#[derive(Debug, PartialEq, Eq)]
pub enum Expression {
    Access(AccessExpression),
    Binary { left: Box<Expression>, op: BinaryOperation, right: Box<Expression> },
    Call(CallExpression),
    Struct(StructExpression),
    /// A placeholder left by a failed parse.
    Error,
    Identifier(String),
    /// A literal, in its textual form.
    Literal(String),
    Ternary { condition: Box<Expression>, if_true: Box<Expression>, if_false: Box<Expression> },
    Tuple(Vec<Expression>),
    Unary { op: UnaryOperation, receiver: Box<Expression> },
    /// The unit value `()`.
    Unit,
}

/// The forms of an assertion.
#[derive(Debug, PartialEq, Eq)]
pub enum AssertVariant {
    Assert(Expression),
    AssertEq(Expression, Expression),
    AssertNeq(Expression, Expression),
}

/// A sequence of statements.
#[derive(Debug, PartialEq, Eq)]
pub struct Block {
    pub statements: Vec<Statement>,
}

/// Statements.
#[derive(Debug, PartialEq, Eq)]
pub enum Statement {
    Assert(AssertVariant),
    /// `place = value;`, where `place` is an identifier or a tuple of them.
    Assign { place: Expression, value: Expression },
    Block(Block),
    /// `if condition { consequent } else { alternative }`.
    Conditional { condition: Expression, consequent: Block, alternative: Option<Box<Statement>> },
    /// A console (debug) statement.
    Console(Expression),
    /// `let place = value;`.
    Definition { place: Expression, value: Expression },
    /// `decrement(mapping, index, amount);`.
    Decrement { mapping: String, index: Expression, amount: Expression },
    /// An expression evaluated for its effect.
    Expression(Expression),
    /// `increment(mapping, index, amount);`.
    Increment { mapping: String, index: Expression, amount: Expression },
    /// A `for` loop.
    Iteration { variable: String, start: Expression, stop: Expression, block: Block },
    /// `return expression;`, with the arguments of the finalize block if any.
    Return { expression: Expression, finalize_arguments: Option<Vec<Expression>> },
}

impl Statement {
    /// Whether this is the no-op statement, an empty block.
    pub open spec fn is_dummy(&self) -> bool {
        self matches Statement::Block(b) && b.statements@.len() == 0
    }

    /// The no-op statement, which stands where a statement was removed.
    pub fn dummy() -> (r: Statement)
        ensures
            r.is_dummy(),
    {
        Statement::Block(Block { statements: Vec::new() })
    }
}

} // verus!
