use vstd::prelude::*;
use crate::decimal::{nat_text, usize_text};
use crate::text::concat_str;

verus! {

/// Every kind of token that the lexer produces.
#[derive(Clone, Copy, Debug, PartialEq, Eq, Structural)]
pub enum tokenTypeEnum {
    PLUS,
    MINUS,
    LESS,
    GREATER,
    LESS_EQUALS,
    GREATER_EQUALS,
    SET_EQUALS,
    CHECK_EQUALS,
    NOT_EQUALS,
    MULTIPLY,
    DIVIDE,
    AND,
    OR,
    NOT,
    INT,
    FLOAT,
    STRING,
    IDENTIFIER,
    IF,
    ELSE,
    GLOBAL,
    VARIABLE,
    THEN,
    END,
    IF_RW,
    LOOP_RW,
    END_RW,
    L_PAREN,
    R_PAREN,
    L_BRACKET,
    R_BRACKET,
    EOF,
    LETTER,
    UNACCOUNTED,
    WORD,
    RETURN,
    ERROR,
    PROGRAM,
    IS,
    BEGIN,
    PROCEDURE,
    SEMICOLON,
    COLON,
    PERIOD,
    END_PROGRAM,
    END_PROCEDURE,
    END_IF,
    END_FOR,
    COMMA,
    FOR,
    PROCEDURE_CALL,
}

/// The printed name of a token kind.
pub open spec fn token_type_name(t: tokenTypeEnum) -> Seq<char> {
    match t {
        tokenTypeEnum::PLUS => "PLUS"@,
        tokenTypeEnum::MINUS => "MINUS"@,
        tokenTypeEnum::LESS => "LESS"@,
        tokenTypeEnum::GREATER => "GREATER"@,
        tokenTypeEnum::LESS_EQUALS => "LESS_EQUALS"@,
        tokenTypeEnum::GREATER_EQUALS => "GREATER_EQUALS"@,
        tokenTypeEnum::SET_EQUALS => "SET_EQUALS"@,
        tokenTypeEnum::CHECK_EQUALS => "CHECK_EQUALS"@,
        tokenTypeEnum::NOT_EQUALS => "NOT_EQUALS"@,
        tokenTypeEnum::MULTIPLY => "MULTIPLY"@,
        tokenTypeEnum::DIVIDE => "DIVIDE"@,
        tokenTypeEnum::AND => "AND"@,
        tokenTypeEnum::OR => "OR"@,
        tokenTypeEnum::NOT => "NOT"@,
        tokenTypeEnum::INT => "INT"@,
        tokenTypeEnum::FLOAT => "FLOAT"@,
        tokenTypeEnum::STRING => "STRING"@,
        tokenTypeEnum::IDENTIFIER => "IDENTIFIER"@,
        tokenTypeEnum::IF => "IF"@,
        tokenTypeEnum::ELSE => "ELSE"@,
        tokenTypeEnum::GLOBAL => "GLOBAL"@,
        tokenTypeEnum::VARIABLE => "VARIABLE"@,
        tokenTypeEnum::THEN => "THEN"@,
        tokenTypeEnum::END => "END"@,
        tokenTypeEnum::IF_RW => "IF_RW"@,
        tokenTypeEnum::LOOP_RW => "LOOP_RW"@,
        tokenTypeEnum::END_RW => "END_RW"@,
        tokenTypeEnum::L_PAREN => "L_PAREN"@,
        tokenTypeEnum::R_PAREN => "R_PAREN"@,
        tokenTypeEnum::L_BRACKET => "L_BRACKET"@,
        tokenTypeEnum::R_BRACKET => "R_BRACKET"@,
        tokenTypeEnum::EOF => "EOF"@,
        tokenTypeEnum::LETTER => "LETTER"@,
        tokenTypeEnum::UNACCOUNTED => "UNACCOUNTED"@,
        tokenTypeEnum::WORD => "WORD"@,
        tokenTypeEnum::RETURN => "RETURN"@,
        tokenTypeEnum::ERROR => "ERROR"@,
        tokenTypeEnum::PROGRAM => "PROGRAM"@,
        tokenTypeEnum::IS => "IS"@,
        tokenTypeEnum::BEGIN => "BEGIN"@,
        tokenTypeEnum::PROCEDURE => "PROCEDURE"@,
        tokenTypeEnum::SEMICOLON => "SEMICOLON"@,
        tokenTypeEnum::COLON => "COLON"@,
        tokenTypeEnum::PERIOD => "PERIOD"@,
        tokenTypeEnum::END_PROGRAM => "END_PROGRAM"@,
        tokenTypeEnum::END_PROCEDURE => "END_PROCEDURE"@,
        tokenTypeEnum::END_IF => "END_IF"@,
        tokenTypeEnum::END_FOR => "END_FOR"@,
        tokenTypeEnum::COMMA => "COMMA"@,
        tokenTypeEnum::FOR => "FOR"@,
        tokenTypeEnum::PROCEDURE_CALL => "PROCEDURE_CALL"@,
    }
}

impl tokenTypeEnum {
    /// The name of this token kind, as the lexer prints it.
    pub fn name(&self) -> (r: String)
        ensures
            r@ == token_type_name(*self),
    {
        match self {
            tokenTypeEnum::PLUS => String::from_str("PLUS"),
            tokenTypeEnum::MINUS => String::from_str("MINUS"),
            tokenTypeEnum::LESS => String::from_str("LESS"),
            tokenTypeEnum::GREATER => String::from_str("GREATER"),
            tokenTypeEnum::LESS_EQUALS => String::from_str("LESS_EQUALS"),
            tokenTypeEnum::GREATER_EQUALS => String::from_str("GREATER_EQUALS"),
            tokenTypeEnum::SET_EQUALS => String::from_str("SET_EQUALS"),
            tokenTypeEnum::CHECK_EQUALS => String::from_str("CHECK_EQUALS"),
            tokenTypeEnum::NOT_EQUALS => String::from_str("NOT_EQUALS"),
            tokenTypeEnum::MULTIPLY => String::from_str("MULTIPLY"),
            tokenTypeEnum::DIVIDE => String::from_str("DIVIDE"),
            tokenTypeEnum::AND => String::from_str("AND"),
            tokenTypeEnum::OR => String::from_str("OR"),
            tokenTypeEnum::NOT => String::from_str("NOT"),
            tokenTypeEnum::INT => String::from_str("INT"),
            tokenTypeEnum::FLOAT => String::from_str("FLOAT"),
            tokenTypeEnum::STRING => String::from_str("STRING"),
            tokenTypeEnum::IDENTIFIER => String::from_str("IDENTIFIER"),
            tokenTypeEnum::IF => String::from_str("IF"),
            tokenTypeEnum::ELSE => String::from_str("ELSE"),
            tokenTypeEnum::GLOBAL => String::from_str("GLOBAL"),
            tokenTypeEnum::VARIABLE => String::from_str("VARIABLE"),
            tokenTypeEnum::THEN => String::from_str("THEN"),
            tokenTypeEnum::END => String::from_str("END"),
            tokenTypeEnum::IF_RW => String::from_str("IF_RW"),
            tokenTypeEnum::LOOP_RW => String::from_str("LOOP_RW"),
            tokenTypeEnum::END_RW => String::from_str("END_RW"),
            tokenTypeEnum::L_PAREN => String::from_str("L_PAREN"),
            tokenTypeEnum::R_PAREN => String::from_str("R_PAREN"),
            tokenTypeEnum::L_BRACKET => String::from_str("L_BRACKET"),
            tokenTypeEnum::R_BRACKET => String::from_str("R_BRACKET"),
            tokenTypeEnum::EOF => String::from_str("EOF"),
            tokenTypeEnum::LETTER => String::from_str("LETTER"),
            tokenTypeEnum::UNACCOUNTED => String::from_str("UNACCOUNTED"),
            tokenTypeEnum::WORD => String::from_str("WORD"),
            tokenTypeEnum::RETURN => String::from_str("RETURN"),
            tokenTypeEnum::ERROR => String::from_str("ERROR"),
            tokenTypeEnum::PROGRAM => String::from_str("PROGRAM"),
            tokenTypeEnum::IS => String::from_str("IS"),
            tokenTypeEnum::BEGIN => String::from_str("BEGIN"),
            tokenTypeEnum::PROCEDURE => String::from_str("PROCEDURE"),
            tokenTypeEnum::SEMICOLON => String::from_str("SEMICOLON"),
            tokenTypeEnum::COLON => String::from_str("COLON"),
            tokenTypeEnum::PERIOD => String::from_str("PERIOD"),
            tokenTypeEnum::END_PROGRAM => String::from_str("END_PROGRAM"),
            tokenTypeEnum::END_PROCEDURE => String::from_str("END_PROCEDURE"),
            tokenTypeEnum::END_IF => String::from_str("END_IF"),
            tokenTypeEnum::END_FOR => String::from_str("END_FOR"),
            tokenTypeEnum::COMMA => String::from_str("COMMA"),
            tokenTypeEnum::FOR => String::from_str("FOR"),
            tokenTypeEnum::PROCEDURE_CALL => String::from_str("PROCEDURE_CALL"),
        }
    }
}

/// A coarse classification of tokens, used when combining tokens.
#[derive(Clone, Copy, Debug, PartialEq, Eq, Structural)]
pub enum tokenGroup {
    OPERATOR,
    KEYWORD,
    VARIABLE,
    OTHER,
    SYMBOL,
    NUMBER,
}

/// The printed name of a token group.
pub open spec fn token_group_name(g: tokenGroup) -> Seq<char> {
    match g {
        tokenGroup::OPERATOR => "OPERATOR"@,
        tokenGroup::KEYWORD => "KEYWORD"@,
        tokenGroup::VARIABLE => "VARIABLE"@,
        tokenGroup::OTHER => "OTHER"@,
        tokenGroup::SYMBOL => "SYMBOL"@,
        tokenGroup::NUMBER => "NUMBER"@,
    }
}

impl tokenGroup {
    /// The name of this group, as the lexer prints it.
    pub fn name(&self) -> (r: String)
        ensures
            r@ == token_group_name(*self),
    {
        match self {
            tokenGroup::OPERATOR => String::from_str("OPERATOR"),
            tokenGroup::KEYWORD => String::from_str("KEYWORD"),
            tokenGroup::VARIABLE => String::from_str("VARIABLE"),
            tokenGroup::OTHER => String::from_str("OTHER"),
            tokenGroup::SYMBOL => String::from_str("SYMBOL"),
            tokenGroup::NUMBER => String::from_str("NUMBER"),
        }
    }
}

/// The abstract content of a token.
pub struct TokenView {
    pub tt: tokenTypeEnum,
    pub text: Seq<char>,
    pub tg: tokenGroup,
    pub line: nat,
}

/// A token: its kind, its text, its group and the line it was found on.
#[derive(Debug)]
pub struct Token {
    pub tt: tokenTypeEnum,
    pub tokenString: String,
    pub tg: tokenGroup,
    pub lineNum: usize,
}

impl View for Token {
    type V = TokenView;

    open spec fn view(&self) -> TokenView {
        TokenView { tt: self.tt, text: self.tokenString@, tg: self.tg, line: self.lineNum as nat }
    }
}

impl Clone for Token {
    fn clone(&self) -> (r: Token)
        ensures
            r@ == self@,
    {
        Token { tt: self.tt, tokenString: self.tokenString.clone(), tg: self.tg, lineNum: self.lineNum }
    }
}

impl Token {
    /// Builds a token from its parts.
    pub fn new(iden: tokenTypeEnum, tokenString: String, line: usize, group: tokenGroup) -> (r: Token)
        ensures
            r@ == (TokenView { tt: iden, text: tokenString@, tg: group, line: line as nat }),
    {
        Token { tt: iden, tokenString, lineNum: line, tg: group }
    }

    /// Changes the kind of this token.
    pub fn setTokenType(&mut self, newType: tokenTypeEnum)
        ensures
            final(self)@ == (TokenView { tt: newType, ..old(self)@ }),
    {
        self.tt = newType;
    }
}

/// How a token is shown: its text in quotes and its kind.
pub open spec fn token_shown(t: TokenView) -> Seq<char> {
    "< \""@ + t.text + "\" , "@ + token_type_name(t.tt) + " >"@
}

/// How a token is listed: its text in quotes, its kind and its line.
pub open spec fn token_listed(t: TokenView) -> Seq<char> {
    "< \""@ + t.text + "\" , "@ + token_type_name(t.tt) + ", "@ + nat_text(t.line) + " >"@
}

impl Token {
    /// This token shown with its text in quotes and its kind.
    pub fn shown(&self) -> (r: String)
        ensures
            r@ == token_shown(self@),
    {
        let a = concat_str("< \"", self.tokenString.as_str());
        let b = concat_str(a.as_str(), "\" , ");
        let c = concat_str(b.as_str(), self.tt.name().as_str());
        let r = concat_str(c.as_str(), " >");
        assert(r@ =~= token_shown(self@));
        r
    }

    /// This token listed with its text in quotes, its kind and its line.
    pub fn listed(&self) -> (r: String)
        ensures
            r@ == token_listed(self@),
    {
        let a = concat_str("< \"", self.tokenString.as_str());
        let b = concat_str(a.as_str(), "\" , ");
        let c = concat_str(b.as_str(), self.tt.name().as_str());
        let d = concat_str(c.as_str(), ", ");
        let e = concat_str(d.as_str(), usize_text(self.lineNum).as_str());
        let r = concat_str(e.as_str(), " >");
        assert(r@ =~= token_listed(self@));
        r
    }
}

/// The lines that list the tokens of `tokList`, one per token, in order.
pub fn printTokList(tokList: &Vec<Token>) -> (r: Vec<String>)
    ensures
        r@.len() == tokList@.len(),
        forall|j: int| 0 <= j < tokList@.len() ==> #[trigger] r@[j]@ == token_listed(tokList@[j]@),
{
    let mut r: Vec<String> = Vec::new();
    let mut i: usize = 0;
    while i < tokList.len()
        invariant
            i <= tokList@.len(),
            r@.len() == i,
            forall|j: int| 0 <= j < i ==> #[trigger] r@[j]@ == token_listed(tokList@[j]@),
        decreases tokList@.len() - i,
    {
        r.push(tokList[i].listed());
        i = i + 1;
    }
    r
}

} // verus!
