use crate::error::{LexError, LexErrorKind, LexErrorView, LocationView};
use vstd::prelude::*;
use vstd::string::StringExecFns;

verus! {

/// The kinds of token.
#[allow(non_camel_case_types)]
#[derive(Debug, PartialEq, Eq, Clone, Copy, Structural)]
pub enum TokenType {
    /// Start of the text.
    SOF,
    /// End of the text.
    EOF,
    /// A line break.
    EOL,
    /// Any single character that is nothing else.
    SYMBOL,
    /// The word `exit`.
    EXIT,
    /// The word `yield`.
    YIELD,
    /// A numeric literal.
    LIT_NUM,
    /// A string literal.
    LIT_STR,
    /// A comment.
    COMMENT,
    /// A shell script.
    SCR_SH,
    /// A python script.
    SCR_PY,
    /// `{`
    TGT_BEG,
    /// `}`
    TGT_END,
    /// `:`, which opens a target of one line.
    TGT_SLE,
    /// An identifier.
    NOMEN,
    /// `=`
    ASSIGN,
    /// A help block.
    HELP,
    /// A required argument.
    ARG_REQ,
    /// An optional argument.
    ARG_OPT,
}

/// A token: its kind and, for some kinds, its text.
#[derive(Debug, PartialEq, Eq)]
pub struct Token {
    pub ttype: TokenType,
    pub value: Option<String>,
}

/// A `Token` as a mathematical value.
pub struct TokenView {
    pub ttype: TokenType,
    pub value: Option<Seq<char>>,
}

impl View for Token {
    type V = TokenView;

    open spec fn view(&self) -> TokenView {
        TokenView {
            ttype: self.ttype,
            value: match self.value {
                Some(text) => Some(text@),
                None => None,
            },
        }
    }
}

impl Token {
    /// A token without text.
    pub fn sym(ttype: TokenType) -> (r: Token)
        ensures
            r@ == (TokenView { ttype, value: None }),
    {
        Token { ttype, value: None }
    }

    /// A token with the given text, if any.
    pub fn val(ttype: TokenType, value: Option<String>) -> (r: Token)
        ensures
            r.ttype == ttype,
            r.value == value,
    {
        Token { ttype, value }
    }
}

/// The name of a kind of token.
pub open spec fn token_type_name(ttype: TokenType) -> Seq<char> {
    match ttype {
        TokenType::SOF => "SOF"@,
        TokenType::EOF => "EOF"@,
        TokenType::EOL => "EOL"@,
        TokenType::SYMBOL => "SYMBOL"@,
        TokenType::EXIT => "EXIT"@,
        TokenType::YIELD => "YIELD"@,
        TokenType::LIT_NUM => "LIT_NUM"@,
        TokenType::LIT_STR => "LIT_STR"@,
        TokenType::COMMENT => "COMMENT"@,
        TokenType::SCR_SH => "SCR_SH"@,
        TokenType::SCR_PY => "SCR_PY"@,
        TokenType::TGT_BEG => "TGT_BEG"@,
        TokenType::TGT_END => "TGT_END"@,
        TokenType::TGT_SLE => "TGT_SLE"@,
        TokenType::NOMEN => "NOMEN"@,
        TokenType::ASSIGN => "ASSIGN"@,
        TokenType::HELP => "HELP"@,
        TokenType::ARG_REQ => "ARG_REQ"@,
        TokenType::ARG_OPT => "ARG_OPT"@,
    }
}

impl TokenType {
    /// The name of the kind.
    pub fn name(&self) -> (r: &'static str)
        ensures
            r@ == token_type_name(*self),
    {
        match self {
            TokenType::SOF => "SOF",
            TokenType::EOF => "EOF",
            TokenType::EOL => "EOL",
            TokenType::SYMBOL => "SYMBOL",
            TokenType::EXIT => "EXIT",
            TokenType::YIELD => "YIELD",
            TokenType::LIT_NUM => "LIT_NUM",
            TokenType::LIT_STR => "LIT_STR",
            TokenType::COMMENT => "COMMENT",
            TokenType::SCR_SH => "SCR_SH",
            TokenType::SCR_PY => "SCR_PY",
            TokenType::TGT_BEG => "TGT_BEG",
            TokenType::TGT_END => "TGT_END",
            TokenType::TGT_SLE => "TGT_SLE",
            TokenType::NOMEN => "NOMEN",
            TokenType::ASSIGN => "ASSIGN",
            TokenType::HELP => "HELP",
            TokenType::ARG_REQ => "ARG_REQ",
            TokenType::ARG_OPT => "ARG_OPT",
        }
    }
}

/// A token as a line of a listing: the name of its kind and, where it has
/// text, the text in brackets behind it.
pub open spec fn token_text(token: TokenView) -> Seq<char> {
    match token.value {
        Some(text) => token_type_name(token.ttype) + "("@ + text + ")"@,
        None => token_type_name(token.ttype),
    }
}

impl Token {
    /// The token as a line of a listing.
    pub fn to_string(&self) -> (r: String)
        ensures
            r@ == token_text(self@),
    {
        let mut out = self.ttype.name().to_owned();
        match &self.value {
            Some(text) => {
                out.append("(");
                out.append(text.as_str());
                out.append(")");
            },
            None => {},
        }
        out
    }
}

/// One answer of a tokenizer: the token or the kind of failure, and the line
/// and column that the tokenizer stands on once it has given the answer.
pub struct Lexeme {
    pub result: Result<TokenView, LexErrorKind>,
    pub line: nat,
    pub column: nat,
}

impl Lexeme {
    /// Whether no answer follows this one: it is a failure or the end of the text.
    pub open spec fn is_last(self) -> bool {
        match self.result {
            Ok(token) => token.ttype == TokenType::EOF,
            Err(_) => true,
        }
    }
}

/// A source of tokens with one token of lookahead.
pub trait Tokenizer: Sized {
    /// The tokenizer's own invariant.
    spec fn wf(&self) -> bool;

    /// The answers that the coming calls of `next_token` give, up to the first
    /// failure or the end of the text.
    spec fn upcoming(&self) -> Seq<Lexeme>;

    /// The name of the source text.
    spec fn filename(&self) -> Seq<char>;

    /// The line that the tokenizer stands on.
    spec fn lineno(&self) -> nat;

    /// The column that the tokenizer stands on.
    spec fn charno(&self) -> nat;

    /// There is always a coming answer, and the last one is a failure or the end of the text.
    proof fn upcoming_ends(&self)
        requires
            self.wf(),
        ensures
            self.upcoming().len() >= 1,
            self.upcoming().last().is_last(),
    ;

    /// The next token, left in place.
    fn peek_token(&mut self) -> (r: Result<&Token, LexError>)
        requires
            old(self).wf(),
        ensures
            final(self).wf(),
            final(self).filename() == old(self).filename(),
            final(self).lineno() == old(self).upcoming()[0].line,
            final(self).charno() == old(self).upcoming()[0].column,
            match old(self).upcoming()[0].result {
                Ok(token) => r is Ok && r->Ok_0@ == token && final(self).upcoming() == old(self).upcoming(),
                Err(kind) => r is Err && r->Err_0@ == (LexErrorView {
                    kind,
                    location: LocationView {
                        filename: old(self).filename(),
                        line: old(self).upcoming()[0].line,
                        column: old(self).upcoming()[0].column,
                    },
                }),
            },
    ;

    /// The next token, taken out.
    fn next_token(&mut self) -> (r: Result<Token, LexError>)
        requires
            old(self).wf(),
        ensures
            final(self).wf(),
            final(self).filename() == old(self).filename(),
            final(self).lineno() == old(self).upcoming()[0].line,
            final(self).charno() == old(self).upcoming()[0].column,
            match old(self).upcoming()[0].result {
                Ok(token) => r is Ok && r->Ok_0@ == token,
                Err(kind) => r is Err && r->Err_0@ == (LexErrorView {
                    kind,
                    location: LocationView {
                        filename: old(self).filename(),
                        line: old(self).upcoming()[0].line,
                        column: old(self).upcoming()[0].column,
                    },
                }),
            },
            old(self).upcoming().len() > 1 ==> final(self).upcoming() == old(self).upcoming().skip(1),
            old(self).upcoming().len() == 1 && r is Ok ==> final(self).upcoming() == old(self).upcoming(),
    ;

    fn get_filename(&self) -> (r: &str)
        requires
            self.wf(),
        ensures
            r@ == self.filename(),
    ;

    fn get_lineno(&self) -> (r: usize)
        requires
            self.wf(),
        ensures
            r == self.lineno(),
    ;

    fn get_charno(&self) -> (r: usize)
        requires
            self.wf(),
        ensures
            r == self.charno(),
    ;
}

} // verus!
