use vstd::prelude::*;

use crate::text::chars_of;

verus! {

/// The closed set of token kinds.
#[derive(Clone, Copy, Debug, PartialEq, Eq, Structural)]
pub enum TokenType {
    // single-character punctuation
    LParan,
    RParan,
    LBrace,
    RBrace,
    Comma,
    Dot,
    Minus,
    Plus,
    SemiColon,
    Slash,
    Star,
    // one- or two-character operators
    Bang,
    BangEqual,
    Equal,
    EqualEqual,
    Greater,
    GreaterEqual,
    Less,
    LessEqual,
    // literals
    Identifier,
    String,
    Number,
    // keywords
    And,
    Or,
    If,
    Else,
    True,
    False,
    For,
    While,
    Nil,
    Fun,
    Return,
    Class,
    Super,
    This,
    Var,
    Print,
    // end of input
    Eof,
}

impl TokenType {
    /// The source text of this kind: the symbol of a punctuation or operator
    /// kind, the word of a keyword, and a descriptive name for the others.
    pub open spec fn symbol_spec(self) -> Seq<char> {
        match self {
            TokenType::LParan => "("@,
            TokenType::RParan => ")"@,
            TokenType::LBrace => "{"@,
            TokenType::RBrace => "}"@,
            TokenType::Comma => ","@,
            TokenType::Dot => "."@,
            TokenType::Minus => "-"@,
            TokenType::Plus => "+"@,
            TokenType::SemiColon => ";"@,
            TokenType::Slash => "/"@,
            TokenType::Star => "*"@,
            TokenType::Bang => "!"@,
            TokenType::BangEqual => "!="@,
            TokenType::Equal => "="@,
            TokenType::EqualEqual => "=="@,
            TokenType::Greater => ">"@,
            TokenType::GreaterEqual => ">="@,
            TokenType::Less => "<"@,
            TokenType::LessEqual => "<="@,
            TokenType::Identifier => "Identifier"@,
            TokenType::String => "String"@,
            TokenType::Number => "Number"@,
            TokenType::And => "and"@,
            TokenType::Class => "class"@,
            TokenType::Else => "else"@,
            TokenType::False => "false"@,
            TokenType::For => "for"@,
            TokenType::Fun => "fun"@,
            TokenType::If => "if"@,
            TokenType::Nil => "nil"@,
            TokenType::Or => "or"@,
            TokenType::Print => "print"@,
            TokenType::Return => "return"@,
            TokenType::Super => "super"@,
            TokenType::This => "this"@,
            TokenType::True => "true"@,
            TokenType::Var => "var"@,
            TokenType::While => "while"@,
            TokenType::Eof => "eof"@,
        }
    }

    /// The source text of this kind (see `symbol_spec`).
    pub fn symbol(&self) -> (r: &'static str)
        ensures
            r@ == self.symbol_spec(),
    {
        match self {
            TokenType::LParan => "(",
            TokenType::RParan => ")",
            TokenType::LBrace => "{",
            TokenType::RBrace => "}",
            TokenType::Comma => ",",
            TokenType::Dot => ".",
            TokenType::Minus => "-",
            TokenType::Plus => "+",
            TokenType::SemiColon => ";",
            TokenType::Slash => "/",
            TokenType::Star => "*",
            TokenType::Bang => "!",
            TokenType::BangEqual => "!=",
            TokenType::Equal => "=",
            TokenType::EqualEqual => "==",
            TokenType::Greater => ">",
            TokenType::GreaterEqual => ">=",
            TokenType::Less => "<",
            TokenType::LessEqual => "<=",
            TokenType::Identifier => "Identifier",
            TokenType::String => "String",
            TokenType::Number => "Number",
            TokenType::And => "and",
            TokenType::Class => "class",
            TokenType::Else => "else",
            TokenType::False => "false",
            TokenType::For => "for",
            TokenType::Fun => "fun",
            TokenType::If => "if",
            TokenType::Nil => "nil",
            TokenType::Or => "or",
            TokenType::Print => "print",
            TokenType::Return => "return",
            TokenType::Super => "super",
            TokenType::This => "this",
            TokenType::True => "true",
            TokenType::Var => "var",
            TokenType::While => "while",
            TokenType::Eof => "eof",
        }
    }
}

/// The keyword that the word `w` spells, if any.
pub open spec fn keyword_kind(w: Seq<char>) -> Option<TokenType> {
    if w == seq!['a', 'n', 'd'] {
        Some(TokenType::And)
    } else if w == seq!['c', 'l', 'a', 's', 's'] {
        Some(TokenType::Class)
    } else if w == seq!['e', 'l', 's', 'e'] {
        Some(TokenType::Else)
    } else if w == seq!['f', 'a', 'l', 's', 'e'] {
        Some(TokenType::False)
    } else if w == seq!['f', 'o', 'r'] {
        Some(TokenType::For)
    } else if w == seq!['f', 'u', 'n'] {
        Some(TokenType::Fun)
    } else if w == seq!['i', 'f'] {
        Some(TokenType::If)
    } else if w == seq!['n', 'i', 'l'] {
        Some(TokenType::Nil)
    } else if w == seq!['o', 'r'] {
        Some(TokenType::Or)
    } else if w == seq!['p', 'r', 'i', 'n', 't'] {
        Some(TokenType::Print)
    } else if w == seq!['r', 'e', 't', 'u', 'r', 'n'] {
        Some(TokenType::Return)
    } else if w == seq!['s', 'u', 'p', 'e', 'r'] {
        Some(TokenType::Super)
    } else if w == seq!['t', 'h', 'i', 's'] {
        Some(TokenType::This)
    } else if w == seq!['t', 'r', 'u', 'e'] {
        Some(TokenType::True)
    } else if w == seq!['v', 'a', 'r'] {
        Some(TokenType::Var)
    } else if w == seq!['w', 'h', 'i', 'l', 'e'] {
        Some(TokenType::While)
    } else {
        None
    }
}

/// Whether the two character sequences are equal.
fn spells(w: &[char], k: &[char]) -> (r: bool)
    ensures
        r == (w@ == k@),
{
    if w.len() != k.len() {
        return false;
    }
    let mut i: usize = 0;
    while i < w.len()
        invariant
            w@.len() == k@.len(),
            i <= w@.len(),
            forall|j: int| 0 <= j < i ==> w@[j] == k@[j],
        decreases w@.len() - i,
    {
        if w[i] != k[i] {
            return false;
        }
        i = i + 1;
    }
    assert(w@ =~= k@);
    true
}

/// The keyword kind that the characters `w` spell, or `None` for any other word.
pub fn keyword_of(w: &[char]) -> (r: Option<TokenType>)
    ensures
        r == keyword_kind(w@),
{
    if spells(w, &['a', 'n', 'd']) {
        Some(TokenType::And)
    } else if spells(w, &['c', 'l', 'a', 's', 's']) {
        Some(TokenType::Class)
    } else if spells(w, &['e', 'l', 's', 'e']) {
        Some(TokenType::Else)
    } else if spells(w, &['f', 'a', 'l', 's', 'e']) {
        Some(TokenType::False)
    } else if spells(w, &['f', 'o', 'r']) {
        Some(TokenType::For)
    } else if spells(w, &['f', 'u', 'n']) {
        Some(TokenType::Fun)
    } else if spells(w, &['i', 'f']) {
        Some(TokenType::If)
    } else if spells(w, &['n', 'i', 'l']) {
        Some(TokenType::Nil)
    } else if spells(w, &['o', 'r']) {
        Some(TokenType::Or)
    } else if spells(w, &['p', 'r', 'i', 'n', 't']) {
        Some(TokenType::Print)
    } else if spells(w, &['r', 'e', 't', 'u', 'r', 'n']) {
        Some(TokenType::Return)
    } else if spells(w, &['s', 'u', 'p', 'e', 'r']) {
        Some(TokenType::Super)
    } else if spells(w, &['t', 'h', 'i', 's']) {
        Some(TokenType::This)
    } else if spells(w, &['t', 'r', 'u', 'e']) {
        Some(TokenType::True)
    } else if spells(w, &['v', 'a', 'r']) {
        Some(TokenType::Var)
    } else if spells(w, &['w', 'h', 'i', 'l', 'e']) {
        Some(TokenType::While)
    } else {
        None
    }
}

/// The keyword kind that `literal` spells, or `None` where it is no keyword
/// (an identifier).
pub fn match_keywords(literal: &str) -> (r: Option<TokenType>)
    ensures
        r == keyword_kind(literal@),
{
    let w = chars_of(literal);
    keyword_of(w.as_slice())
}

/// A literal payload as a mathematical value.
pub enum LiteralModel {
    Identifier(Seq<char>),
    Str(Seq<char>),
    /// The digits before the decimal point and those after it.
    Number(Seq<char>, Seq<char>),
}

/// A token as a mathematical value.
pub struct TokenModel {
    pub ty: TokenType,
    pub lexeme: Seq<char>,
    pub literal: Option<LiteralModel>,
    pub line: nat,
}

/// A number literal, held exactly as its decimal digits: its value is
/// `integer.fraction` in base ten, and `fraction` is empty where the source
/// had no decimal point.
#[derive(Debug, PartialEq)]
pub struct Number {
    pub integer: String,
    pub fraction: String,
}

/// The decoded value carried by identifier, string and number tokens.
#[derive(Debug, PartialEq)]
pub enum Literal {
    /// An identifier's name.
    Identifier(String),
    /// A string literal's content, without its quotes.
    Str(String),
    /// A number literal's value.
    Number(Number),
}

impl View for Literal {
    type V = LiteralModel;

    open spec fn view(&self) -> LiteralModel {
        match self {
            Literal::Identifier(s) => LiteralModel::Identifier(s@),
            Literal::Str(s) => LiteralModel::Str(s@),
            Literal::Number(n) => LiteralModel::Number(n.integer@, n.fraction@),
        }
    }
}

/// One token: its kind, the exact source text it was read from, its decoded
/// literal where it has one, and the 1-based line it stands on.
#[derive(Debug, PartialEq)]
pub struct Token {
    pub ty: TokenType,
    pub lexeme: Vec<char>,
    pub literal: Option<Literal>,
    pub line: usize,
}

impl View for Token {
    type V = TokenModel;

    open spec fn view(&self) -> TokenModel {
        TokenModel {
            ty: self.ty,
            lexeme: self.lexeme@,
            literal: match self.literal {
                Some(l) => Some(l@),
                None => None,
            },
            line: self.line as nat,
        }
    }
}

} // verus!
