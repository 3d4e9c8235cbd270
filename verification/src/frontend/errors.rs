use vstd::prelude::*;

use crate::frontend::ast::Expr;
use crate::frontend::lexer::{Operator, TokenType};
use crate::frontend::typeast::TypeDef;

verus! {

/// Errors of the lexer.
#[derive(Debug, PartialEq, Eq, Clone, Copy, Structural)]
pub enum LexerError {
    UnexpectedCharacter(char),
    UnexpectedEof,
    CharNotClosed,
}

/// Errors of the parser.
#[derive(Debug, PartialEq, Eq)]
pub enum ParserError {
    Undefiened,
    UnexpectedToken(TokenType),
    InvalidType(TokenType),
    VarDeclInvalidName,
    FieldCannotHaveInit,
    NonNumberAsSize,
    NegativeArraySize,
}

/// Errors of the type checker.
#[derive(Debug, PartialEq, Eq)]
pub enum TypeError {
    VariableTypeError(String, TypeDef, TypeDef),
    ExpectingRet,
    UnexpectedRet,
    ReturnTypeError(TypeDef, TypeDef),
    IdentDoesNotExist(String),
    IdentAlreadyExists(String),
    NonFunctionCall,
    WrongNumberOfParametes(usize, usize),
    WrongParamType(TypeDef, TypeDef),
    NonPointerDeref,
    IndexMustBeInteger,
    ConditionMustBeInt,
    InvalidOperation(Operator),
    BinaryTypeMissmatch(Operator, TypeDef, TypeDef),
    BinaryOperatorError,
    CannotAssignInto(Expr),
    TypeParametrMissmatch,
    TypeIsNotSized,
    MissingField(String),
    NonStructType,
}

/// Errors of the front end.
#[derive(Debug, PartialEq, Eq)]
pub enum FrontendError {
    Lexer(LexerError),
    Parser(ParserError),
    Type(Vec<TypeError>),
}

/// The type error of a front-end error that holds exactly one.
pub open spec fn only_type_error(e: FrontendError) -> Option<TypeError> {
    match e {
        FrontendError::Type(v) => if v@.len() == 1 {
            Some(v@[0])
        } else {
            None
        },
        _ => None,
    }
}

impl FrontendError {
    /// The front-end error holding one type error.
    pub fn from_type_error(e: TypeError) -> (r: FrontendError)
        ensures
            r matches FrontendError::Type(v) && v@ == seq![e],
    {
        let mut v: Vec<TypeError> = Vec::new();
        v.push(e);
        FrontendError::Type(v)
    }
}

} // verus!
