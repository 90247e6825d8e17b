//! Lexical tokens of the language's earlier combinator front end. The live
//! pipeline works on syntax nodes instead; these types remain part of the
//! public surface, with the token's display text as a verified method.

use vstd::prelude::*;

verus! {

/// One lexical token.
#[derive(Clone, Debug, PartialEq, Eq, Hash)]
pub enum Token {
    Null,
    Bool(bool),
    Num(String),
    Str(String),
    Op(String),
    Ctrl(char),
    Ident(String),
    Fn,
    Let,
    Print,
    If,
    Else,
}

/// A binary operator of the language.
#[derive(Clone, Debug)]
pub enum BinaryOp {
    Add,
    Sub,
    Mul,
    Div,
    Eq,
    NotEq,
}

/// The display text of a token: keywords and operators as written,
/// literals and identifiers as their own text.
pub open spec fn token_text(t: Token) -> Seq<char> {
    match t {
        Token::Null => "null"@,
        Token::Bool(x) => if x {
            "true"@
        } else {
            "false"@
        },
        Token::Num(n) => n@,
        Token::Str(s) => s@,
        Token::Op(s) => s@,
        Token::Ctrl(c) => Seq::empty().push(c),
        Token::Ident(s) => s@,
        Token::Fn => "fn"@,
        Token::Let => "let"@,
        Token::Print => "print"@,
        Token::If => "if"@,
        Token::Else => "else"@,
    }
}

/// Relies on `String::push`: appends the one character to the end of the
/// string.
#[verifier::external_body]
fn push_char(s: &mut String, c: char)
    ensures
        final(s)@ == old(s)@.push(c),
{
    s.push(c);
}

impl Token {
    /// The token's display text.
    pub fn text(&self) -> (r: String)
        ensures
            r@ == token_text(*self),
    {
        match self {
            Token::Null => "null".to_owned(),
            Token::Bool(x) => if *x {
                "true".to_owned()
            } else {
                "false".to_owned()
            },
            Token::Num(n) => n.clone(),
            Token::Str(s) => s.clone(),
            Token::Op(s) => s.clone(),
            Token::Ctrl(c) => {
                let mut out = String::new();
                push_char(&mut out, *c);
                assert(out@ =~= Seq::empty().push(*c));
                out
            },
            Token::Ident(s) => s.clone(),
            Token::Fn => "fn".to_owned(),
            Token::Let => "let".to_owned(),
            Token::Print => "print".to_owned(),
            Token::If => "if".to_owned(),
            Token::Else => "else".to_owned(),
        }
    }
}

} // verus!
