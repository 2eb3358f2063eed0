use vstd::prelude::*;

verus! {

/// An arithmetic or assignment operator.
#[derive(Clone, Copy, Debug, PartialEq, Eq, Structural)]
pub enum Op {
    Add,
    Sub,
    Mul,
    Div,
    Assign,
}

/// A keyword-like word: `let`, or the name of a variable.
#[derive(Debug)]
pub enum Keyword {
    Let,
    VarName(String),
}

/// One lexical unit of a line.
#[derive(Debug)]
pub enum Token {
    Int(i32),
    Keyword(Keyword),
    Op(Op),
}

/// The mathematical value of a token.
pub ghost enum Lexeme {
    Int(i32),
    Let,
    Name(Seq<char>),
    Op(Op),
}

impl View for Token {
    type V = Lexeme;

    open spec fn view(&self) -> Lexeme {
        match self {
            Token::Int(v) => Lexeme::Int(*v),
            Token::Keyword(Keyword::Let) => Lexeme::Let,
            Token::Keyword(Keyword::VarName(n)) => Lexeme::Name(n@),
            Token::Op(op) => Lexeme::Op(*op),
        }
    }
}

impl Token {
    /// A copy of this token.
    pub fn duplicate(&self) -> (r: Token)
        ensures
            r@ == self@,
    {
        match self {
            Token::Int(v) => Token::Int(*v),
            Token::Keyword(Keyword::Let) => Token::Keyword(Keyword::Let),
            Token::Keyword(Keyword::VarName(n)) => Token::Keyword(Keyword::VarName(n.clone())),
            Token::Op(op) => Token::Op(*op),
        }
    }
}

} // verus!
