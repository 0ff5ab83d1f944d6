//! The syntax tree of an Amber source file, as the parser builds it and
//! the analysis and the formatter read it.

use vstd::prelude::*;

use crate::types::DataType;

verus! {

/// A range of byte offsets into a source file: `start` up to `end`.
#[derive(Clone, Copy, Debug, PartialEq, Eq, Hash)]
pub struct Span {
    pub start: usize,
    pub end: usize,
}

/// A syntax element with the span of source text that it was parsed from.
pub type Spanned<T> = (T, Span);

/// A modifier written before a command or a block.
#[derive(Clone, Copy, Debug, PartialEq, Eq)]
pub enum CommandModifier {
    Unsafe,
    Silent,
    Trust,
}

/// A compiler flag written as `#[...]` before a function.
#[derive(Clone, Copy, Debug, PartialEq, Eq)]
pub enum CompilerFlag {
    AllowNestedIfElse,
    AllowGenericReturn,
    AllowAbsurdCast,
}

impl CompilerFlag {
    /// The flag as it is written between `#[` and `]`.
    pub fn name(&self) -> (r: &'static str)
        ensures
            r@ == compiler_flag_name(*self),
    {
        match self {
            CompilerFlag::AllowNestedIfElse => "allow_nested_if_else",
            CompilerFlag::AllowGenericReturn => "allow_generic_return",
            CompilerFlag::AllowAbsurdCast => "allow_absurd_cast",
        }
    }
}

/// How a compiler flag is written between `#[` and `]`.
pub open spec fn compiler_flag_name(flag: CompilerFlag) -> Seq<char> {
    match flag {
        CompilerFlag::AllowNestedIfElse => "allow_nested_if_else"@,
        CompilerFlag::AllowGenericReturn => "allow_generic_return"@,
        CompilerFlag::AllowAbsurdCast => "allow_absurd_cast"@,
    }
}

#[derive(Debug, PartialEq)]
pub enum InterpolatedText {
    Escape(Spanned<String>),
    Expression(Box<Spanned<Expression>>),
    Text(Spanned<String>),
}

#[derive(Debug, PartialEq)]
pub enum Block {
    Block(Vec<Spanned<CommandModifier>>, Vec<Spanned<Statement>>),
    Error,
}

#[derive(Debug, PartialEq)]
pub enum FailureHandler {
    Propagate,
    Handle(Spanned<String>, Vec<Spanned<Statement>>),
}

#[derive(Debug, PartialEq)]
pub enum InterpolatedCommand {
    Escape(String),
    CommandOption(String),
    Expression(Box<Spanned<Expression>>),
    Text(String),
}

/// An expression. A number literal is held as the text that the parser
/// read it from.
#[derive(Debug, PartialEq)]
pub enum Expression {
    Number(Spanned<String>),
    Boolean(Spanned<bool>),
    Text(Vec<Spanned<InterpolatedText>>),
    Parentheses(Box<Spanned<Expression>>),
    Var(Spanned<String>),
    Add(Box<Spanned<Expression>>, Box<Spanned<Expression>>),
    Subtract(Box<Spanned<Expression>>, Box<Spanned<Expression>>),
    Multiply(Box<Spanned<Expression>>, Box<Spanned<Expression>>),
    Divide(Box<Spanned<Expression>>, Box<Spanned<Expression>>),
    Modulo(Box<Spanned<Expression>>, Box<Spanned<Expression>>),
    Neg(Spanned<String>, Box<Spanned<Expression>>),
    And(Box<Spanned<Expression>>, Spanned<String>, Box<Spanned<Expression>>),
    Or(Box<Spanned<Expression>>, Spanned<String>, Box<Spanned<Expression>>),
    Gt(Box<Spanned<Expression>>, Box<Spanned<Expression>>),
    Ge(Box<Spanned<Expression>>, Box<Spanned<Expression>>),
    Lt(Box<Spanned<Expression>>, Box<Spanned<Expression>>),
    Le(Box<Spanned<Expression>>, Box<Spanned<Expression>>),
    Eq(Box<Spanned<Expression>>, Box<Spanned<Expression>>),
    Neq(Box<Spanned<Expression>>, Box<Spanned<Expression>>),
    Not(Spanned<String>, Box<Spanned<Expression>>),
    Ternary(
        Box<Spanned<Expression>>,
        Spanned<String>,
        Box<Spanned<Expression>>,
        Spanned<String>,
        Box<Spanned<Expression>>,
    ),
    FunctionInvocation(
        Vec<Spanned<CommandModifier>>,
        Spanned<String>,
        Vec<Spanned<Expression>>,
        Option<Spanned<FailureHandler>>,
    ),
    Command(
        Vec<Spanned<CommandModifier>>,
        Vec<Spanned<InterpolatedCommand>>,
        Option<Spanned<FailureHandler>>,
    ),
    Array(Vec<Spanned<Expression>>),
    Range(Box<Spanned<Expression>>, Box<Spanned<Expression>>),
    Null,
    Cast(Box<Spanned<Expression>>, Spanned<String>, Spanned<DataType>),
    Status,
    Nameof(Spanned<String>, Box<Spanned<Expression>>),
    Is(Box<Spanned<Expression>>, Spanned<String>, Spanned<DataType>),
    Error,
}

#[derive(Debug, PartialEq)]
pub enum ImportContent {
    ImportAll,
    ImportSpecific(Vec<Spanned<String>>),
}

/// An argument of a function definition: whether it is passed by
/// reference, its name, and its type where one is written.
#[derive(Debug, PartialEq)]
pub enum FunctionArgument {
    Generic(Spanned<bool>, Spanned<String>),
    Typed(Spanned<bool>, Spanned<String>, Spanned<DataType>),
    Error,
}

#[derive(Debug, PartialEq)]
pub enum IfCondition {
    IfCondition(Box<Spanned<Expression>>, Spanned<Block>),
    InlineIfCondition(Box<Spanned<Expression>>, Box<Spanned<Statement>>),
    Comment(Spanned<Comment>),
    Error,
}

#[derive(Debug, PartialEq)]
pub enum ElseCondition {
    Else(Spanned<String>, Spanned<Block>),
    InlineElse(Spanned<String>, Box<Spanned<Statement>>),
}

#[derive(Debug, PartialEq)]
pub enum IfChainContent {
    IfCondition(Spanned<IfCondition>),
    Else(Spanned<ElseCondition>),
    Comment(Spanned<Comment>),
}

#[derive(Debug, PartialEq)]
pub enum IterLoopVars {
    Single(Spanned<String>),
    WithIndex(Spanned<String>, Spanned<String>),
    Error,
}

#[derive(Debug, PartialEq)]
pub enum VariableInitType {
    Expression(Spanned<Expression>),
    DataType(Spanned<DataType>),
    Error,
}

#[derive(Debug, PartialEq)]
pub enum Statement {
    Expression(Box<Spanned<Expression>>),
    VariableInit(Spanned<String>, Spanned<String>, Spanned<VariableInitType>),
    ConstInit(Spanned<String>, Spanned<String>, Box<Spanned<Expression>>),
    VariableSet(Spanned<String>, Box<Spanned<Expression>>),
    IfCondition(
        Spanned<String>,
        Spanned<IfCondition>,
        Vec<Spanned<Comment>>,
        Option<Spanned<ElseCondition>>,
    ),
    IfChain(Spanned<String>, Vec<Spanned<IfChainContent>>),
    ShorthandAdd(Spanned<String>, Box<Spanned<Expression>>),
    ShorthandSub(Spanned<String>, Box<Spanned<Expression>>),
    ShorthandMul(Spanned<String>, Box<Spanned<Expression>>),
    ShorthandDiv(Spanned<String>, Box<Spanned<Expression>>),
    ShorthandModulo(Spanned<String>, Box<Spanned<Expression>>),
    InfiniteLoop(Spanned<String>, Spanned<Block>),
    IterLoop(
        Spanned<String>,
        Spanned<IterLoopVars>,
        Spanned<String>,
        Box<Spanned<Expression>>,
        Spanned<Block>,
    ),
    Break,
    Continue,
    Return(Spanned<String>, Option<Box<Spanned<Expression>>>),
    Fail(Spanned<String>, Option<Box<Spanned<Expression>>>),
    Echo(Spanned<String>, Box<Spanned<Expression>>),
    Block(Spanned<Block>),
    Comment(Spanned<Comment>),
    Shebang(String),
    Error,
}

/// A comment: a line comment or a documentation comment, with its text.
#[derive(Debug, PartialEq)]
pub enum Comment {
    Comment(String),
    DocString(String),
}

#[derive(Debug, PartialEq)]
pub enum GlobalStatement {
    /// Import statement
    ///
    /// is_public, "import", import_content, "from", path
    Import(
        Spanned<bool>,
        Spanned<String>,
        Spanned<ImportContent>,
        Spanned<String>,
        Spanned<String>,
    ),
    /// Function definition
    ///
    /// compiler flags, is_public, "fun", name, args, return_type, body
    FunctionDefinition(
        Vec<Spanned<CompilerFlag>>,
        Spanned<bool>,
        Spanned<String>,
        Spanned<String>,
        Vec<Spanned<FunctionArgument>>,
        Option<Spanned<DataType>>,
        Vec<Spanned<Statement>>,
    ),
    Main(Spanned<String>, Option<Spanned<String>>, Vec<Spanned<Statement>>),
    Statement(Spanned<Statement>),
}

} // verus!
