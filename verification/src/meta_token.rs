//! Tokens of the host-language-like meta grammar that the scanner and the
//! module linker lex.

use vstd::prelude::*;
use crate::strutil::str_eq;

verus! {

/// One meta-grammar token.
#[derive(Debug, PartialEq, Clone)]
pub enum Token {
    Ident(String),
    Literal(Literal),
    Lifetime(String),
    Dot,
    Comma,
    Hash,
    Semicolon,
    Colon,
    DColon,
    QMark,
    LParen,
    RParen,
    LBrace,
    RBrace,
    LBracket,
    RBracket,
    /// `=`
    Assign,
    /// `->`
    Arrow,
    Dollar,
    Operator(Operator),
    /// An operator fused with `=` into a compound assignment.
    OperatorAssign(Operator),
    Keyword(Keyword),
    EOF,
}

#[derive(Debug, Clone, Copy, PartialEq, Eq, PartialOrd, Structural)]
pub enum Operator {
    Plus,
    Minus,
    Divide,
    Multiply,
    Modulo,
    /// `<<`
    Lsh,
    /// `>>`
    Rsh,
    /// `>>>`
    ARsh,
    /// `&`
    BAnd,
    /// `|`
    BOr,
    /// `^`
    BXor,
    /// `||`
    LOr,
    /// `&&`
    LAnd,
    Not,
    Eq,
    Less,
    Greater,
    LessEq,
    GreaterEq,
    NotEq,
}

/// The keywords the meta grammar recognizes.  `Ext` is the foreign-interface
/// keyword of the host language, whose own spelling cannot appear here.
#[derive(Debug, Clone, Copy, PartialEq, Eq, PartialOrd, Structural)]
pub enum Keyword {
    I8,
    I16,
    I32,
    I64,
    I128,
    ISize,
    U8,
    U16,
    U32,
    U64,
    U128,
    USize,
    F32,
    F64,
    Char,
    Bool,
    Let,
    If,
    Else,
    While,
    For,
    Break,
    Continue,
    Loop,
    True,
    False,
    In,
    Return,
    Struct,
    Trait,
    Enum,
    Fn,
    Type,
    Impl,
    Crate,
    Pub,
    Ext,
    Mod,
}

/// A literal of the meta grammar.
#[derive(Debug, PartialEq, Clone)]
pub enum Literal {
    Int(i64),
    /// A floating-point literal, kept as its source text.
    Float(String),
    String(String),
    Char(char),
    Bool(bool),
}

/// The mathematical image of a meta [`Literal`].
pub ghost enum MLitV {
    Int(i64),
    Float(Seq<char>),
    Str(Seq<char>),
    Char(char),
    Bool(bool),
}

impl View for Literal {
    type V = MLitV;

    open spec fn view(&self) -> MLitV {
        match self {
            Literal::Int(i) => MLitV::Int(*i),
            Literal::Float(t) => MLitV::Float(t@),
            Literal::String(s) => MLitV::Str(s@),
            Literal::Char(c) => MLitV::Char(*c),
            Literal::Bool(b) => MLitV::Bool(*b),
        }
    }
}

/// The mathematical image of a meta [`Token`].
pub ghost enum MTokV {
    Ident(Seq<char>),
    Literal(MLitV),
    Lifetime(Seq<char>),
    Dot,
    Comma,
    Hash,
    Semicolon,
    Colon,
    DColon,
    QMark,
    LParen,
    RParen,
    LBrace,
    RBrace,
    LBracket,
    RBracket,
    Assign,
    Arrow,
    Dollar,
    Operator(Operator),
    OperatorAssign(Operator),
    Keyword(Keyword),
    EOF,
}

impl View for Token {
    type V = MTokV;

    open spec fn view(&self) -> MTokV {
        match self {
            Token::Ident(s) => MTokV::Ident(s@),
            Token::Literal(l) => MTokV::Literal(l@),
            Token::Lifetime(s) => MTokV::Lifetime(s@),
            Token::Dot => MTokV::Dot,
            Token::Comma => MTokV::Comma,
            Token::Hash => MTokV::Hash,
            Token::Semicolon => MTokV::Semicolon,
            Token::Colon => MTokV::Colon,
            Token::DColon => MTokV::DColon,
            Token::QMark => MTokV::QMark,
            Token::LParen => MTokV::LParen,
            Token::RParen => MTokV::RParen,
            Token::LBrace => MTokV::LBrace,
            Token::RBrace => MTokV::RBrace,
            Token::LBracket => MTokV::LBracket,
            Token::RBracket => MTokV::RBracket,
            Token::Assign => MTokV::Assign,
            Token::Arrow => MTokV::Arrow,
            Token::Dollar => MTokV::Dollar,
            Token::Operator(o) => MTokV::Operator(*o),
            Token::OperatorAssign(o) => MTokV::OperatorAssign(*o),
            Token::Keyword(k) => MTokV::Keyword(*k),
            Token::EOF => MTokV::EOF,
        }
    }
}

/// The spelling of the foreign-interface keyword.
pub open spec fn ext_kw() -> Seq<char> {
    seq!['e', 'x', 't', 'e', 'r', 'n']
}

/// The keyword a word denotes, if any: the fixed set is matched
/// case-sensitively, so only the lowercase spellings count.
pub open spec fn keyword_of(s: Seq<char>) -> Option<Keyword> {
    if s == "i8"@ { Some(Keyword::I8) }
    else if s == "i16"@ { Some(Keyword::I16) }
    else if s == "i32"@ { Some(Keyword::I32) }
    else if s == "i64"@ { Some(Keyword::I64) }
    else if s == "i128"@ { Some(Keyword::I128) }
    else if s == "isize"@ { Some(Keyword::ISize) }
    else if s == "u8"@ { Some(Keyword::U8) }
    else if s == "u16"@ { Some(Keyword::U16) }
    else if s == "u32"@ { Some(Keyword::U32) }
    else if s == "u64"@ { Some(Keyword::U64) }
    else if s == "u128"@ { Some(Keyword::U128) }
    else if s == "usize"@ { Some(Keyword::USize) }
    else if s == "f32"@ { Some(Keyword::F32) }
    else if s == "f64"@ { Some(Keyword::F64) }
    else if s == "char"@ { Some(Keyword::Char) }
    else if s == "bool"@ { Some(Keyword::Bool) }
    else if s == "let"@ { Some(Keyword::Let) }
    else if s == "if"@ { Some(Keyword::If) }
    else if s == "else"@ { Some(Keyword::Else) }
    else if s == "while"@ { Some(Keyword::While) }
    else if s == "for"@ { Some(Keyword::For) }
    else if s == "break"@ { Some(Keyword::Break) }
    else if s == "continue"@ { Some(Keyword::Continue) }
    else if s == "loop"@ { Some(Keyword::Loop) }
    else if s == "true"@ { Some(Keyword::True) }
    else if s == "false"@ { Some(Keyword::False) }
    else if s == "in"@ { Some(Keyword::In) }
    else if s == "return"@ { Some(Keyword::Return) }
    else if s == "struct"@ { Some(Keyword::Struct) }
    else if s == "trait"@ { Some(Keyword::Trait) }
    else if s == "enum"@ { Some(Keyword::Enum) }
    else if s == "fn"@ { Some(Keyword::Fn) }
    else if s == "type"@ { Some(Keyword::Type) }
    else if s == "impl"@ { Some(Keyword::Impl) }
    else if s == "crate"@ { Some(Keyword::Crate) }
    else if s == "pub"@ { Some(Keyword::Pub) }
    else if s == ext_kw() { Some(Keyword::Ext) }
    else if s == "mod"@ { Some(Keyword::Mod) }
    else { None }
}

/// Builds the foreign-interface keyword's spelling at run time.
fn ext_kw_text() -> (r: String)
    ensures
        r@ == ext_kw(),
{
    let mut r = String::new();
    crate::chars::push_char(&mut r, 'e');
    crate::chars::push_char(&mut r, 'x');
    crate::chars::push_char(&mut r, 't');
    crate::chars::push_char(&mut r, 'e');
    crate::chars::push_char(&mut r, 'r');
    crate::chars::push_char(&mut r, 'n');
    proof {
        assert(r@ =~= ext_kw());
    }
    r
}

/// Recognizes a keyword, mirroring [`keyword_of`].
pub fn lookup_keyword(s: &str) -> (r: Option<Keyword>)
    ensures
        r == keyword_of(s@),
{
    if str_eq(s, "i8") { Some(Keyword::I8) }
    else if str_eq(s, "i16") { Some(Keyword::I16) }
    else if str_eq(s, "i32") { Some(Keyword::I32) }
    else if str_eq(s, "i64") { Some(Keyword::I64) }
    else if str_eq(s, "i128") { Some(Keyword::I128) }
    else if str_eq(s, "isize") { Some(Keyword::ISize) }
    else if str_eq(s, "u8") { Some(Keyword::U8) }
    else if str_eq(s, "u16") { Some(Keyword::U16) }
    else if str_eq(s, "u32") { Some(Keyword::U32) }
    else if str_eq(s, "u64") { Some(Keyword::U64) }
    else if str_eq(s, "u128") { Some(Keyword::U128) }
    else if str_eq(s, "usize") { Some(Keyword::USize) }
    else if str_eq(s, "f32") { Some(Keyword::F32) }
    else if str_eq(s, "f64") { Some(Keyword::F64) }
    else if str_eq(s, "char") { Some(Keyword::Char) }
    else if str_eq(s, "bool") { Some(Keyword::Bool) }
    else if str_eq(s, "let") { Some(Keyword::Let) }
    else if str_eq(s, "if") { Some(Keyword::If) }
    else if str_eq(s, "else") { Some(Keyword::Else) }
    else if str_eq(s, "while") { Some(Keyword::While) }
    else if str_eq(s, "for") { Some(Keyword::For) }
    else if str_eq(s, "break") { Some(Keyword::Break) }
    else if str_eq(s, "continue") { Some(Keyword::Continue) }
    else if str_eq(s, "loop") { Some(Keyword::Loop) }
    else if str_eq(s, "true") { Some(Keyword::True) }
    else if str_eq(s, "false") { Some(Keyword::False) }
    else if str_eq(s, "in") { Some(Keyword::In) }
    else if str_eq(s, "return") { Some(Keyword::Return) }
    else if str_eq(s, "struct") { Some(Keyword::Struct) }
    else if str_eq(s, "trait") { Some(Keyword::Trait) }
    else if str_eq(s, "enum") { Some(Keyword::Enum) }
    else if str_eq(s, "fn") { Some(Keyword::Fn) }
    else if str_eq(s, "type") { Some(Keyword::Type) }
    else if str_eq(s, "impl") { Some(Keyword::Impl) }
    else if str_eq(s, "crate") { Some(Keyword::Crate) }
    else if str_eq(s, "pub") { Some(Keyword::Pub) }
    else {
        let lo = ext_kw_text();
        if str_eq(s, lo.as_str()) { Some(Keyword::Ext) }
        else if str_eq(s, "mod") { Some(Keyword::Mod) }
        else { None }
    }
}

} // verus!
