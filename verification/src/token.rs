//! The token vocabulary: punctuation, one- and two-character operators,
//! literals, reserved keywords and the end-of-input sentinel, together with
//! the mathematical model each token is specified against.

use vstd::prelude::*;
use vstd::string::*;

verus! {

/// Mathematical model of a token kind: literal payloads are character
/// sequences (a number literal carries its exact source digits; its
/// floating-point reading is left to unverified callers).
pub enum KindModel {
    LParen,
    RParen,
    LBrace,
    RBrace,
    Comma,
    Period,
    Minus,
    Plus,
    Semicolon,
    Slash,
    Star,
    Bang,
    BangEq,
    Eq,
    EqEq,
    Gt,
    GtEq,
    Lt,
    LtEq,
    Ident,
    Str(Seq<char>),
    Number(Seq<char>),
    And,
    Class,
    Else,
    False,
    Funct,
    For,
    If,
    Nil,
    Or,
    Print,
    Return,
    Super,
    This,
    True,
    Var,
    While,
    Eof,
}

/// Mathematical model of a token: kind, exact consumed lexeme, line number.
pub struct TokenModel {
    pub kind: KindModel,
    pub lexeme: Seq<char>,
    pub line: nat,
}

/// A classified token kind. `Str` carries the text between the quotes
/// (escape sequences are not interpreted); `Number` carries the exact
/// numeric text consumed, to be read as a 64-bit float by the caller.
#[derive(Clone, Debug)]
pub enum TokenKind {
    LParen,
    RParen,
    LBrace,
    RBrace,
    Comma,
    Period,
    Minus,
    Plus,
    Semicolon,
    Slash,
    Star,
    Bang,
    BangEq,
    Eq,
    EqEq,
    Gt,
    GtEq,
    Lt,
    LtEq,
    Ident,
    Str(String),
    Number(String),
    And,
    Class,
    Else,
    False,
    Funct,
    For,
    If,
    Nil,
    Or,
    Print,
    Return,
    Super,
    This,
    True,
    Var,
    While,
    Eof,
}

impl View for TokenKind {
    type V = KindModel;

    open spec fn view(&self) -> KindModel {
        match self {
            TokenKind::LParen => KindModel::LParen,
            TokenKind::RParen => KindModel::RParen,
            TokenKind::LBrace => KindModel::LBrace,
            TokenKind::RBrace => KindModel::RBrace,
            TokenKind::Comma => KindModel::Comma,
            TokenKind::Period => KindModel::Period,
            TokenKind::Minus => KindModel::Minus,
            TokenKind::Plus => KindModel::Plus,
            TokenKind::Semicolon => KindModel::Semicolon,
            TokenKind::Slash => KindModel::Slash,
            TokenKind::Star => KindModel::Star,
            TokenKind::Bang => KindModel::Bang,
            TokenKind::BangEq => KindModel::BangEq,
            TokenKind::Eq => KindModel::Eq,
            TokenKind::EqEq => KindModel::EqEq,
            TokenKind::Gt => KindModel::Gt,
            TokenKind::GtEq => KindModel::GtEq,
            TokenKind::Lt => KindModel::Lt,
            TokenKind::LtEq => KindModel::LtEq,
            TokenKind::Ident => KindModel::Ident,
            TokenKind::Str(s) => KindModel::Str(s@),
            TokenKind::Number(s) => KindModel::Number(s@),
            TokenKind::And => KindModel::And,
            TokenKind::Class => KindModel::Class,
            TokenKind::Else => KindModel::Else,
            TokenKind::False => KindModel::False,
            TokenKind::Funct => KindModel::Funct,
            TokenKind::For => KindModel::For,
            TokenKind::If => KindModel::If,
            TokenKind::Nil => KindModel::Nil,
            TokenKind::Or => KindModel::Or,
            TokenKind::Print => KindModel::Print,
            TokenKind::Return => KindModel::Return,
            TokenKind::Super => KindModel::Super,
            TokenKind::This => KindModel::This,
            TokenKind::True => KindModel::True,
            TokenKind::Var => KindModel::Var,
            TokenKind::While => KindModel::While,
            TokenKind::Eof => KindModel::Eof,
        }
    }
}

/// A classified, line-tagged unit of lexical output. `lexeme` is the exact
/// source substring consumed, except for the end-of-input token whose
/// lexeme is empty.
#[derive(Clone, Debug)]
pub struct Token {
    pub kind: TokenKind,
    pub lexeme: String,
    pub line: usize,
}

impl View for Token {
    type V = TokenModel;

    open spec fn view(&self) -> TokenModel {
        TokenModel { kind: self.kind@, lexeme: self.lexeme@, line: self.line as nat }
    }
}

impl Token {
    pub fn new(kind: TokenKind, lexeme: String, line: usize) -> (t: Self)
        ensures
            t@ == (TokenModel { kind: kind@, lexeme: lexeme@, line: line as nat }),
    {
        Self { kind, lexeme, line }
    }
}

/// The stable textual tag of a token kind, used in the token report.
pub open spec fn kind_tag(k: KindModel) -> Seq<char> {
    match k {
        KindModel::LParen => "LParen"@,
        KindModel::RParen => "RParen"@,
        KindModel::LBrace => "LBrace"@,
        KindModel::RBrace => "RBrace"@,
        KindModel::Comma => "Comma"@,
        KindModel::Period => "Period"@,
        KindModel::Minus => "Minus"@,
        KindModel::Plus => "Plus"@,
        KindModel::Semicolon => "Semicolon"@,
        KindModel::Slash => "Slash"@,
        KindModel::Star => "Star"@,
        KindModel::Bang => "Bang"@,
        KindModel::BangEq => "BangEq"@,
        KindModel::Eq => "Eq"@,
        KindModel::EqEq => "EqEq"@,
        KindModel::Gt => "Gt"@,
        KindModel::GtEq => "GtEq"@,
        KindModel::Lt => "Lt"@,
        KindModel::LtEq => "LtEq"@,
        KindModel::Ident => "Ident"@,
        KindModel::Str(_) => "Str"@,
        KindModel::Number(_) => "Number"@,
        KindModel::And => "And"@,
        KindModel::Class => "Class"@,
        KindModel::Else => "Else"@,
        KindModel::False => "False"@,
        KindModel::Funct => "Funct"@,
        KindModel::For => "For"@,
        KindModel::If => "If"@,
        KindModel::Nil => "Nil"@,
        KindModel::Or => "Or"@,
        KindModel::Print => "Print"@,
        KindModel::Return => "Return"@,
        KindModel::Super => "Super"@,
        KindModel::This => "This"@,
        KindModel::True => "True"@,
        KindModel::Var => "Var"@,
        KindModel::While => "While"@,
        KindModel::Eof => "Eof"@,
    }
}

/// The textual tag of `k`.
fn tag_of(k: &TokenKind) -> (r: &'static str)
    ensures
        r@ == kind_tag(k@),
{
    match k {
        TokenKind::LParen => "LParen",
        TokenKind::RParen => "RParen",
        TokenKind::LBrace => "LBrace",
        TokenKind::RBrace => "RBrace",
        TokenKind::Comma => "Comma",
        TokenKind::Period => "Period",
        TokenKind::Minus => "Minus",
        TokenKind::Plus => "Plus",
        TokenKind::Semicolon => "Semicolon",
        TokenKind::Slash => "Slash",
        TokenKind::Star => "Star",
        TokenKind::Bang => "Bang",
        TokenKind::BangEq => "BangEq",
        TokenKind::Eq => "Eq",
        TokenKind::EqEq => "EqEq",
        TokenKind::Gt => "Gt",
        TokenKind::GtEq => "GtEq",
        TokenKind::Lt => "Lt",
        TokenKind::LtEq => "LtEq",
        TokenKind::Ident => "Ident",
        TokenKind::Str(_) => "Str",
        TokenKind::Number(_) => "Number",
        TokenKind::And => "And",
        TokenKind::Class => "Class",
        TokenKind::Else => "Else",
        TokenKind::False => "False",
        TokenKind::Funct => "Funct",
        TokenKind::For => "For",
        TokenKind::If => "If",
        TokenKind::Nil => "Nil",
        TokenKind::Or => "Or",
        TokenKind::Print => "Print",
        TokenKind::Return => "Return",
        TokenKind::Super => "Super",
        TokenKind::This => "This",
        TokenKind::True => "True",
        TokenKind::Var => "Var",
        TokenKind::While => "While",
        TokenKind::Eof => "Eof",
    }
}

impl Token {
    /// One line of the token report: `<KindDescriptor> <lexeme>` (the
    /// lexeme is empty for the end-of-input token).
    pub fn describe(&self) -> (r: String)
        ensures
            r@ == kind_tag(self.kind@) + " "@ + self.lexeme@,
    {
        let mut s: String = tag_of(&self.kind).to_owned();
        s.append(" ");
        s.append(self.lexeme.as_str());
        s
    }
}

/// Keyword lexemes are reserved: an identifier-shaped lexeme that matches a
/// keyword spelling classifies as that keyword, never as an identifier.
pub open spec fn keyword_kind(lex: Seq<char>) -> KindModel {
    if lex == "and"@ {
        KindModel::And
    } else if lex == "class"@ {
        KindModel::Class
    } else if lex == "else"@ {
        KindModel::Else
    } else if lex == "false"@ {
        KindModel::False
    } else if lex == "fun"@ {
        KindModel::Funct
    } else if lex == "for"@ {
        KindModel::For
    } else if lex == "if"@ {
        KindModel::If
    } else if lex == "nil"@ {
        KindModel::Nil
    } else if lex == "or"@ {
        KindModel::Or
    } else if lex == "print"@ {
        KindModel::Print
    } else if lex == "return"@ {
        KindModel::Return
    } else if lex == "super"@ {
        KindModel::Super
    } else if lex == "this"@ {
        KindModel::This
    } else if lex == "true"@ {
        KindModel::True
    } else if lex == "var"@ {
        KindModel::Var
    } else if lex == "while"@ {
        KindModel::While
    } else {
        KindModel::Ident
    }
}

/// Whether the characters of `s` between `from` and `to` spell exactly `kw`.
fn range_eq(s: &str, from: usize, to: usize, kw: &str) -> (r: bool)
    requires
        from <= to <= s@.len(),
    ensures
        r == (s@.subrange(from as int, to as int) == kw@),
{
    let klen = kw.unicode_len();
    if to - from != klen {
        proof {
            assert(s@.subrange(from as int, to as int).len() != kw@.len());
        }
        return false;
    }
    let mut i: usize = 0;
    while i < klen
        invariant
            from <= to <= s@.len(),
            to - from == klen,
            klen == kw@.len(),
            i <= klen,
            forall|j: int| 0 <= j < i ==> s@[from + j] == kw@[j],
        decreases klen - i,
    {
        if s.get_char(from + i) != kw.get_char(i) {
            proof {
                assert(s@.subrange(from as int, to as int)[i as int] == s@[from + i]);
            }
            return false;
        }
        i = i + 1;
    }
    proof {
        assert(s@.subrange(from as int, to as int) =~= kw@);
    }
    true
}

/// Looks the lexeme at `s[from..to]` up in the fixed keyword table:
/// the keyword kind on a hit, `Ident` otherwise.
pub fn keyword_or_ident(s: &str, from: usize, to: usize) -> (k: TokenKind)
    requires
        from <= to <= s@.len(),
    ensures
        k@ == keyword_kind(s@.subrange(from as int, to as int)),
{
    if range_eq(s, from, to, "and") {
        TokenKind::And
    } else if range_eq(s, from, to, "class") {
        TokenKind::Class
    } else if range_eq(s, from, to, "else") {
        TokenKind::Else
    } else if range_eq(s, from, to, "false") {
        TokenKind::False
    } else if range_eq(s, from, to, "fun") {
        TokenKind::Funct
    } else if range_eq(s, from, to, "for") {
        TokenKind::For
    } else if range_eq(s, from, to, "if") {
        TokenKind::If
    } else if range_eq(s, from, to, "nil") {
        TokenKind::Nil
    } else if range_eq(s, from, to, "or") {
        TokenKind::Or
    } else if range_eq(s, from, to, "print") {
        TokenKind::Print
    } else if range_eq(s, from, to, "return") {
        TokenKind::Return
    } else if range_eq(s, from, to, "super") {
        TokenKind::Super
    } else if range_eq(s, from, to, "this") {
        TokenKind::This
    } else if range_eq(s, from, to, "true") {
        TokenKind::True
    } else if range_eq(s, from, to, "var") {
        TokenKind::Var
    } else if range_eq(s, from, to, "while") {
        TokenKind::While
    } else {
        TokenKind::Ident
    }
}

} // verus!
