//! Tokens of the Lox language.
use vstd::prelude::*;
use crate::text::SmartString;
use crate::text::str_eq;

verus! {

/// Every possible kind of token, without the text that some of them carry.
#[allow(non_camel_case_types)]
#[derive(Clone, Copy, Debug, PartialEq, Eq, Structural)]
pub enum TokenDiscriminant {
    LEFTPAREN,
    RIGHTPAREN,
    LEFTBRACE,
    RIGHTBRACE,
    COMMA,
    DOT,
    MINUS,
    PLUS,
    SEMICOLON,
    SLASH,
    STAR,
    BANG,
    BANGEQUAL,
    EQUAL,
    EQUALEQUAL,
    GREATER,
    GREATEREQUAL,
    LESS,
    LESSEQUAL,
    IDENTIFIER,
    STRING,
    NUMBER,
    AND,
    CLASS,
    ELSE,
    FALSE,
    FUN,
    FOR,
    IF,
    NIL,
    OR,
    PRINT,
    RETURN,
    SUPER,
    THIS,
    TRUE,
    VAR,
    WHILE,
    EOF,
}

/// Every possible type of token. Identifiers and string literals carry their
/// text, and a number carries its lexeme as written in the source.
#[allow(non_camel_case_types)]
#[derive(Debug, PartialEq)]
pub enum Token {
    LEFTPAREN,
    RIGHTPAREN,
    LEFTBRACE,
    RIGHTBRACE,
    COMMA,
    DOT,
    MINUS,
    PLUS,
    SEMICOLON,
    SLASH,
    STAR,
    BANG,
    BANGEQUAL,
    EQUAL,
    EQUALEQUAL,
    GREATER,
    GREATEREQUAL,
    LESS,
    LESSEQUAL,
    IDENTIFIER(SmartString),
    STRING(SmartString),
    NUMBER(SmartString),
    AND,
    CLASS,
    ELSE,
    FALSE,
    FUN,
    FOR,
    IF,
    NIL,
    OR,
    PRINT,
    RETURN,
    SUPER,
    THIS,
    TRUE,
    VAR,
    WHILE,
    EOF,
}

impl Token {
    /// The kind of this token.
    pub open spec fn spec_kind(&self) -> TokenDiscriminant {
        match self {
            Token::LEFTPAREN => TokenDiscriminant::LEFTPAREN,
            Token::RIGHTPAREN => TokenDiscriminant::RIGHTPAREN,
            Token::LEFTBRACE => TokenDiscriminant::LEFTBRACE,
            Token::RIGHTBRACE => TokenDiscriminant::RIGHTBRACE,
            Token::COMMA => TokenDiscriminant::COMMA,
            Token::DOT => TokenDiscriminant::DOT,
            Token::MINUS => TokenDiscriminant::MINUS,
            Token::PLUS => TokenDiscriminant::PLUS,
            Token::SEMICOLON => TokenDiscriminant::SEMICOLON,
            Token::SLASH => TokenDiscriminant::SLASH,
            Token::STAR => TokenDiscriminant::STAR,
            Token::BANG => TokenDiscriminant::BANG,
            Token::BANGEQUAL => TokenDiscriminant::BANGEQUAL,
            Token::EQUAL => TokenDiscriminant::EQUAL,
            Token::EQUALEQUAL => TokenDiscriminant::EQUALEQUAL,
            Token::GREATER => TokenDiscriminant::GREATER,
            Token::GREATEREQUAL => TokenDiscriminant::GREATEREQUAL,
            Token::LESS => TokenDiscriminant::LESS,
            Token::LESSEQUAL => TokenDiscriminant::LESSEQUAL,
            Token::IDENTIFIER(_) => TokenDiscriminant::IDENTIFIER,
            Token::STRING(_) => TokenDiscriminant::STRING,
            Token::NUMBER(_) => TokenDiscriminant::NUMBER,
            Token::AND => TokenDiscriminant::AND,
            Token::CLASS => TokenDiscriminant::CLASS,
            Token::ELSE => TokenDiscriminant::ELSE,
            Token::FALSE => TokenDiscriminant::FALSE,
            Token::FUN => TokenDiscriminant::FUN,
            Token::FOR => TokenDiscriminant::FOR,
            Token::IF => TokenDiscriminant::IF,
            Token::NIL => TokenDiscriminant::NIL,
            Token::OR => TokenDiscriminant::OR,
            Token::PRINT => TokenDiscriminant::PRINT,
            Token::RETURN => TokenDiscriminant::RETURN,
            Token::SUPER => TokenDiscriminant::SUPER,
            Token::THIS => TokenDiscriminant::THIS,
            Token::TRUE => TokenDiscriminant::TRUE,
            Token::VAR => TokenDiscriminant::VAR,
            Token::WHILE => TokenDiscriminant::WHILE,
            Token::EOF => TokenDiscriminant::EOF,
        }
    }

    /// The kind of this token (what the discriminant derive gave).
    pub fn discriminant(&self) -> (d: TokenDiscriminant)
        ensures
            d == self.spec_kind(),
    {
        match self {
            Token::LEFTPAREN => TokenDiscriminant::LEFTPAREN,
            Token::RIGHTPAREN => TokenDiscriminant::RIGHTPAREN,
            Token::LEFTBRACE => TokenDiscriminant::LEFTBRACE,
            Token::RIGHTBRACE => TokenDiscriminant::RIGHTBRACE,
            Token::COMMA => TokenDiscriminant::COMMA,
            Token::DOT => TokenDiscriminant::DOT,
            Token::MINUS => TokenDiscriminant::MINUS,
            Token::PLUS => TokenDiscriminant::PLUS,
            Token::SEMICOLON => TokenDiscriminant::SEMICOLON,
            Token::SLASH => TokenDiscriminant::SLASH,
            Token::STAR => TokenDiscriminant::STAR,
            Token::BANG => TokenDiscriminant::BANG,
            Token::BANGEQUAL => TokenDiscriminant::BANGEQUAL,
            Token::EQUAL => TokenDiscriminant::EQUAL,
            Token::EQUALEQUAL => TokenDiscriminant::EQUALEQUAL,
            Token::GREATER => TokenDiscriminant::GREATER,
            Token::GREATEREQUAL => TokenDiscriminant::GREATEREQUAL,
            Token::LESS => TokenDiscriminant::LESS,
            Token::LESSEQUAL => TokenDiscriminant::LESSEQUAL,
            Token::IDENTIFIER(_) => TokenDiscriminant::IDENTIFIER,
            Token::STRING(_) => TokenDiscriminant::STRING,
            Token::NUMBER(_) => TokenDiscriminant::NUMBER,
            Token::AND => TokenDiscriminant::AND,
            Token::CLASS => TokenDiscriminant::CLASS,
            Token::ELSE => TokenDiscriminant::ELSE,
            Token::FALSE => TokenDiscriminant::FALSE,
            Token::FUN => TokenDiscriminant::FUN,
            Token::FOR => TokenDiscriminant::FOR,
            Token::IF => TokenDiscriminant::IF,
            Token::NIL => TokenDiscriminant::NIL,
            Token::OR => TokenDiscriminant::OR,
            Token::PRINT => TokenDiscriminant::PRINT,
            Token::RETURN => TokenDiscriminant::RETURN,
            Token::SUPER => TokenDiscriminant::SUPER,
            Token::THIS => TokenDiscriminant::THIS,
            Token::TRUE => TokenDiscriminant::TRUE,
            Token::VAR => TokenDiscriminant::VAR,
            Token::WHILE => TokenDiscriminant::WHILE,
            Token::EOF => TokenDiscriminant::EOF,
        }
    }

    /// A token of a kind that carries no text.
    pub open spec fn spec_simple(kind: TokenDiscriminant) -> Token {
        match kind {
            TokenDiscriminant::LEFTPAREN => Token::LEFTPAREN,
            TokenDiscriminant::RIGHTPAREN => Token::RIGHTPAREN,
            TokenDiscriminant::LEFTBRACE => Token::LEFTBRACE,
            TokenDiscriminant::RIGHTBRACE => Token::RIGHTBRACE,
            TokenDiscriminant::COMMA => Token::COMMA,
            TokenDiscriminant::DOT => Token::DOT,
            TokenDiscriminant::MINUS => Token::MINUS,
            TokenDiscriminant::PLUS => Token::PLUS,
            TokenDiscriminant::SEMICOLON => Token::SEMICOLON,
            TokenDiscriminant::SLASH => Token::SLASH,
            TokenDiscriminant::STAR => Token::STAR,
            TokenDiscriminant::BANG => Token::BANG,
            TokenDiscriminant::BANGEQUAL => Token::BANGEQUAL,
            TokenDiscriminant::EQUAL => Token::EQUAL,
            TokenDiscriminant::EQUALEQUAL => Token::EQUALEQUAL,
            TokenDiscriminant::GREATER => Token::GREATER,
            TokenDiscriminant::GREATEREQUAL => Token::GREATEREQUAL,
            TokenDiscriminant::LESS => Token::LESS,
            TokenDiscriminant::LESSEQUAL => Token::LESSEQUAL,
            TokenDiscriminant::IDENTIFIER => Token::EOF,
            TokenDiscriminant::STRING => Token::EOF,
            TokenDiscriminant::NUMBER => Token::EOF,
            TokenDiscriminant::AND => Token::AND,
            TokenDiscriminant::CLASS => Token::CLASS,
            TokenDiscriminant::ELSE => Token::ELSE,
            TokenDiscriminant::FALSE => Token::FALSE,
            TokenDiscriminant::FUN => Token::FUN,
            TokenDiscriminant::FOR => Token::FOR,
            TokenDiscriminant::IF => Token::IF,
            TokenDiscriminant::NIL => Token::NIL,
            TokenDiscriminant::OR => Token::OR,
            TokenDiscriminant::PRINT => Token::PRINT,
            TokenDiscriminant::RETURN => Token::RETURN,
            TokenDiscriminant::SUPER => Token::SUPER,
            TokenDiscriminant::THIS => Token::THIS,
            TokenDiscriminant::TRUE => Token::TRUE,
            TokenDiscriminant::VAR => Token::VAR,
            TokenDiscriminant::WHILE => Token::WHILE,
            TokenDiscriminant::EOF => Token::EOF,
        }
    }

    /// A copy of this token.
    pub fn copy(&self) -> (t: Token)
        ensures
            t@ == self@,
    {
        match self {
            Token::LEFTPAREN => Token::LEFTPAREN,
            Token::RIGHTPAREN => Token::RIGHTPAREN,
            Token::LEFTBRACE => Token::LEFTBRACE,
            Token::RIGHTBRACE => Token::RIGHTBRACE,
            Token::COMMA => Token::COMMA,
            Token::DOT => Token::DOT,
            Token::MINUS => Token::MINUS,
            Token::PLUS => Token::PLUS,
            Token::SEMICOLON => Token::SEMICOLON,
            Token::SLASH => Token::SLASH,
            Token::STAR => Token::STAR,
            Token::BANG => Token::BANG,
            Token::BANGEQUAL => Token::BANGEQUAL,
            Token::EQUAL => Token::EQUAL,
            Token::EQUALEQUAL => Token::EQUALEQUAL,
            Token::GREATER => Token::GREATER,
            Token::GREATEREQUAL => Token::GREATEREQUAL,
            Token::LESS => Token::LESS,
            Token::LESSEQUAL => Token::LESSEQUAL,
            Token::IDENTIFIER(s) => Token::IDENTIFIER(s.copy()),
            Token::STRING(s) => Token::STRING(s.copy()),
            Token::NUMBER(s) => Token::NUMBER(s.copy()),
            Token::AND => Token::AND,
            Token::CLASS => Token::CLASS,
            Token::ELSE => Token::ELSE,
            Token::FALSE => Token::FALSE,
            Token::FUN => Token::FUN,
            Token::FOR => Token::FOR,
            Token::IF => Token::IF,
            Token::NIL => Token::NIL,
            Token::OR => Token::OR,
            Token::PRINT => Token::PRINT,
            Token::RETURN => Token::RETURN,
            Token::SUPER => Token::SUPER,
            Token::THIS => Token::THIS,
            Token::TRUE => Token::TRUE,
            Token::VAR => Token::VAR,
            Token::WHILE => Token::WHILE,
            Token::EOF => Token::EOF,
        }
    }
}

/// What a token is: its kind and the text it carries (empty for the kinds
/// that carry none).
pub struct TokenV {
    pub kind: TokenDiscriminant,
    pub text: Seq<char>,
}

impl View for Token {
    type V = TokenV;

    open spec fn view(&self) -> TokenV {
        match self {
            Token::IDENTIFIER(s) => TokenV { kind: TokenDiscriminant::IDENTIFIER, text: s@ },
            Token::STRING(s) => TokenV { kind: TokenDiscriminant::STRING, text: s@ },
            Token::NUMBER(s) => TokenV { kind: TokenDiscriminant::NUMBER, text: s@ },
            _ => TokenV { kind: self.spec_kind(), text: Seq::empty() },
        }
    }
}

impl TokenDiscriminant {
    /// Whether `token` is of this kind (the comparison of a discriminant with
    /// a token).
    pub fn matches(&self, token: &Token) -> (r: bool)
        ensures
            r == (*self == token@.kind),
    {
        *self == token.discriminant()
    }
}

/// The keyword that a word spells, if any.
pub open spec fn keyword_kind(word: Seq<char>) -> Option<TokenDiscriminant> {
    if word == "and"@ {
        Some(TokenDiscriminant::AND)
    } else if word == "class"@ {
        Some(TokenDiscriminant::CLASS)
    } else if word == "else"@ {
        Some(TokenDiscriminant::ELSE)
    } else if word == "false"@ {
        Some(TokenDiscriminant::FALSE)
    } else if word == "for"@ {
        Some(TokenDiscriminant::FOR)
    } else if word == "fun"@ {
        Some(TokenDiscriminant::FUN)
    } else if word == "if"@ {
        Some(TokenDiscriminant::IF)
    } else if word == "nil"@ {
        Some(TokenDiscriminant::NIL)
    } else if word == "or"@ {
        Some(TokenDiscriminant::OR)
    } else if word == "print"@ {
        Some(TokenDiscriminant::PRINT)
    } else if word == "return"@ {
        Some(TokenDiscriminant::RETURN)
    } else if word == "super"@ {
        Some(TokenDiscriminant::SUPER)
    } else if word == "this"@ {
        Some(TokenDiscriminant::THIS)
    } else if word == "true"@ {
        Some(TokenDiscriminant::TRUE)
    } else if word == "var"@ {
        Some(TokenDiscriminant::VAR)
    } else if word == "while"@ {
        Some(TokenDiscriminant::WHILE)
    } else {
        None
    }
}

impl Token {
    /// The keyword token that `keyword` spells, or `None` where it spells none.
    pub fn from_keyword(keyword: &str) -> (r: Option<Token>)
        ensures
            match keyword_kind(keyword@) {
                Some(kind) => r matches Some(t) && t@ == (TokenV { kind, text: Seq::empty() }),
                None => r is None,
            },
    {
        if str_eq(keyword, "and") {
            Some(Token::AND)
        } else if str_eq(keyword, "class") {
            Some(Token::CLASS)
        } else if str_eq(keyword, "else") {
            Some(Token::ELSE)
        } else if str_eq(keyword, "false") {
            Some(Token::FALSE)
        } else if str_eq(keyword, "for") {
            Some(Token::FOR)
        } else if str_eq(keyword, "fun") {
            Some(Token::FUN)
        } else if str_eq(keyword, "if") {
            Some(Token::IF)
        } else if str_eq(keyword, "nil") {
            Some(Token::NIL)
        } else if str_eq(keyword, "or") {
            Some(Token::OR)
        } else if str_eq(keyword, "print") {
            Some(Token::PRINT)
        } else if str_eq(keyword, "return") {
            Some(Token::RETURN)
        } else if str_eq(keyword, "super") {
            Some(Token::SUPER)
        } else if str_eq(keyword, "this") {
            Some(Token::THIS)
        } else if str_eq(keyword, "true") {
            Some(Token::TRUE)
        } else if str_eq(keyword, "var") {
            Some(Token::VAR)
        } else if str_eq(keyword, "while") {
            Some(Token::WHILE)
        } else {
            None
        }
    }
}

/// The one-character tokens, by their character.
pub open spec fn single_char_kind(c: char) -> Option<TokenDiscriminant> {
    if c == '(' {
        Some(TokenDiscriminant::LEFTPAREN)
    } else if c == ')' {
        Some(TokenDiscriminant::RIGHTPAREN)
    } else if c == '{' {
        Some(TokenDiscriminant::LEFTBRACE)
    } else if c == '}' {
        Some(TokenDiscriminant::RIGHTBRACE)
    } else if c == ',' {
        Some(TokenDiscriminant::COMMA)
    } else if c == '.' {
        Some(TokenDiscriminant::DOT)
    } else if c == '-' {
        Some(TokenDiscriminant::MINUS)
    } else if c == '+' {
        Some(TokenDiscriminant::PLUS)
    } else if c == ';' {
        Some(TokenDiscriminant::SEMICOLON)
    } else if c == '*' {
        Some(TokenDiscriminant::STAR)
    } else {
        None
    }
}

impl Token {
    /// The token that a single character stands for, for the characters that
    /// make a token alone; `Err(())` for every other character.
    pub fn try_from_char(character: char) -> (r: Result<Token, ()>)
        ensures
            match single_char_kind(character) {
                Some(kind) => r matches Ok(t) && t@ == (TokenV { kind, text: Seq::empty() }),
                None => r is Err,
            },
    {
        match character {
            '(' => Ok(Token::LEFTPAREN),
            ')' => Ok(Token::RIGHTPAREN),
            '{' => Ok(Token::LEFTBRACE),
            '}' => Ok(Token::RIGHTBRACE),
            ',' => Ok(Token::COMMA),
            '.' => Ok(Token::DOT),
            '-' => Ok(Token::MINUS),
            '+' => Ok(Token::PLUS),
            ';' => Ok(Token::SEMICOLON),
            '*' => Ok(Token::STAR),
            _ => Err(()),
        }
    }
}

/// The operators that can have an equals sign after them.
#[derive(Clone, Copy, Debug, PartialEq, Eq, Structural)]
pub enum Operator {
    BANG,
    EQUAL,
    LESS,
    GREATER,
}

impl Operator {
    /// The token of the operator alone.
    pub open spec fn spec_alone(self) -> TokenDiscriminant {
        match self {
            Operator::BANG => TokenDiscriminant::BANG,
            Operator::EQUAL => TokenDiscriminant::EQUAL,
            Operator::LESS => TokenDiscriminant::LESS,
            Operator::GREATER => TokenDiscriminant::GREATER,
        }
    }

    /// The token of the operator followed by an equals sign.
    pub open spec fn spec_with_equal(self) -> TokenDiscriminant {
        match self {
            Operator::BANG => TokenDiscriminant::BANGEQUAL,
            Operator::EQUAL => TokenDiscriminant::EQUALEQUAL,
            Operator::LESS => TokenDiscriminant::LESSEQUAL,
            Operator::GREATER => TokenDiscriminant::GREATEREQUAL,
        }
    }

    /// The token of the operator alone (`From<Operator> for Token`).
    pub fn into_token(self) -> (t: Token)
        ensures
            t@ == (TokenV { kind: self.spec_alone(), text: Seq::empty() }),
    {
        match self {
            Operator::BANG => Token::BANG,
            Operator::EQUAL => Token::EQUAL,
            Operator::LESS => Token::LESS,
            Operator::GREATER => Token::GREATER,
        }
    }

    /// The token of the operator followed by an equals sign.
    pub fn into_equal(self) -> (t: Token)
        ensures
            t@ == (TokenV { kind: self.spec_with_equal(), text: Seq::empty() }),
    {
        match self {
            Operator::BANG => Token::BANGEQUAL,
            Operator::EQUAL => Token::EQUALEQUAL,
            Operator::LESS => Token::LESSEQUAL,
            Operator::GREATER => Token::GREATEREQUAL,
        }
    }
}

/// The name of a variable, function or parameter.
#[derive(Debug)]
pub struct Identifier(pub SmartString);

impl View for Identifier {
    type V = Seq<char>;

    open spec fn view(&self) -> Seq<char> {
        self.0@
    }
}

impl Identifier {
    /// The name that an identifier token carries; `Err(())` for any other token.
    pub fn try_from(token: Token) -> (r: Result<Identifier, ()>)
        ensures
            token@.kind == TokenDiscriminant::IDENTIFIER ==> (r matches Ok(i) && i@ == token@.text),
            token@.kind != TokenDiscriminant::IDENTIFIER ==> r is Err,
    {
        if let Token::IDENTIFIER(i) = token {
            Ok(Identifier(i))
        } else {
            Err(())
        }
    }

    /// The identifier token that carries this name.
    pub fn into_token(self) -> (t: Token)
        ensures
            t@ == (TokenV { kind: TokenDiscriminant::IDENTIFIER, text: self@ }),
    {
        Token::IDENTIFIER(self.0)
    }

    /// The name as an identifier.
    pub fn from(string: SmartString) -> (r: Identifier)
        ensures
            r@ == string@,
    {
        Identifier(string)
    }

    /// The name as a string.
    pub fn into_string(self) -> (r: SmartString)
        ensures
            r@ == self@,
    {
        self.0
    }

    /// A copy of the name.
    pub fn copy(&self) -> (r: Identifier)
        ensures
            r@ == self@,
    {
        Identifier(self.0.copy())
    }
}

} // verus!
