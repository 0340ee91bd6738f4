use crate::digits::{decimal, push_decimal};
use crate::text::{chars_of, string_of};
use vstd::prelude::*;
use vstd::string::StringExecFns;

verus! {

/// What went wrong while reading characters.
#[derive(Clone, Copy, Debug, PartialEq, Eq, Structural)]
pub enum LexErrorKind {
    /// A backslash in a string literal is followed by something other than `\` or `"`.
    MalformedEscape,
    /// The input ended inside a string literal or inside a delimited block.
    Unterminated,
    /// The input ended where a token still needed characters.
    UnexpectedEof,
    /// The opening delimiter of a block is followed by something other than
    /// blank space and a line break.
    MissingNewline,
}

/// A place in a named source text.
#[derive(Debug, PartialEq, Eq)]
pub struct Location {
    pub filename: String,
    pub line: usize,
    pub column: usize,
}

/// A `Location` as a mathematical value.
pub struct LocationView {
    pub filename: Seq<char>,
    pub line: nat,
    pub column: nat,
}

impl View for Location {
    type V = LocationView;

    open spec fn view(&self) -> LocationView {
        LocationView { filename: self.filename@, line: self.line as nat, column: self.column as nat }
    }
}

/// A failure to read a token, with the place the reader had reached.
#[derive(Debug, PartialEq, Eq)]
pub struct LexError {
    pub kind: LexErrorKind,
    pub location: Location,
}

/// A `LexError` as a mathematical value.
pub struct LexErrorView {
    pub kind: LexErrorKind,
    pub location: LocationView,
}

impl View for LexError {
    type V = LexErrorView;

    open spec fn view(&self) -> LexErrorView {
        LexErrorView { kind: self.kind, location: self.location@ }
    }
}

/// What went wrong while building the syntax tree.
#[derive(Clone, Copy, Debug, PartialEq, Eq, Structural)]
pub enum ParseErrorKind {
    /// The first token is not the start marker.
    MissingStartOfFile,
    /// A token stands where the grammar has no use for it.
    UnexpectedToken,
    /// A scope holds a second help block.
    DuplicateHelp,
    /// The tokens end behind an identifier.
    UnexpectedEof,
}

/// A failure to build the syntax tree.
#[derive(Debug, PartialEq, Eq)]
pub enum ParseError {
    /// The tokenizer failed.
    Lex(LexError),
    /// The tokens do not follow the grammar; the place is the one the
    /// tokenizer had reached.
    Syntax(ParseErrorKind, Location),
}

/// A `ParseError` as a mathematical value.
pub enum ParseErrorView {
    Lex(LexErrorView),
    Syntax(ParseErrorKind, LocationView),
}

impl View for ParseError {
    type V = ParseErrorView;

    open spec fn view(&self) -> ParseErrorView {
        match self {
            ParseError::Lex(e) => ParseErrorView::Lex(e@),
            ParseError::Syntax(kind, location) => ParseErrorView::Syntax(*kind, location@),
        }
    }
}

/// What is wrong with a syntax tree that no text can be generated for.
#[derive(Clone, Copy, Debug, PartialEq, Eq, Structural)]
pub enum GenerateErrorKind {
    /// An assignment without the name of its variable.
    MissingName,
    /// A node of a kind that cannot stand where it stands.
    UnexpectedNode,
    /// An assignment without an expression.
    EmptyAssignment,
    /// An argument without a name.
    MissingArgumentName,
}

/// A failure to generate the output text.
#[derive(Debug, PartialEq, Eq)]
pub enum GenerateError {
    /// The syntax tree could not be built.
    Parse(ParseError),
    /// The syntax tree breaks a rule that the parser keeps.
    Tree(GenerateErrorKind),
}

/// A `GenerateError` as a mathematical value.
pub enum GenerateErrorView {
    Parse(ParseErrorView),
    Tree(GenerateErrorKind),
}

impl View for GenerateError {
    type V = GenerateErrorView;

    open spec fn view(&self) -> GenerateErrorView {
        match self {
            GenerateError::Parse(e) => GenerateErrorView::Parse(e@),
            GenerateError::Tree(kind) => GenerateErrorView::Tree(*kind),
        }
    }
}

/// What a kind of lexical failure is called in a message.
pub open spec fn lex_kind_text(kind: LexErrorKind) -> Seq<char> {
    match kind {
        LexErrorKind::MalformedEscape => "Unexpected escape character"@,
        LexErrorKind::Unterminated => "End of file inside a string or a block"@,
        LexErrorKind::UnexpectedEof => "End of file"@,
        LexErrorKind::MissingNewline => "Did not find EOL. Nothing may follow block symbols"@,
    }
}

/// What a kind of failure of the grammar is called in a message.
pub open spec fn parse_kind_text(kind: ParseErrorKind) -> Seq<char> {
    match kind {
        ParseErrorKind::MissingStartOfFile => "Missing Start of File token"@,
        ParseErrorKind::UnexpectedToken => "Encountered unexpected Token"@,
        ParseErrorKind::DuplicateHelp => "Help block has already been defined for the current scope."@,
        ParseErrorKind::UnexpectedEof => "Unexpected end of file"@,
    }
}

/// What a kind of failure of the tree is called in a message.
pub open spec fn generate_kind_text(kind: GenerateErrorKind) -> Seq<char> {
    match kind {
        GenerateErrorKind::MissingName => "Assignment without a variable name"@,
        GenerateErrorKind::UnexpectedNode => "Unexpected node type"@,
        GenerateErrorKind::EmptyAssignment => "Assignment without an expression"@,
        GenerateErrorKind::MissingArgumentName => "Argument missing name"@,
    }
}

/// A message with its place in front: name, line and column with colons
/// between them, then ` > ` and the message.
pub open spec fn placed_text(location: LocationView, message: Seq<char>) -> Seq<char> {
    location.filename + ":"@ + decimal(location.line) + ":"@ + decimal(location.column) + " > "@
        + message
}

impl LexErrorKind {
    /// What the kind is called in a message.
    pub fn text(&self) -> (r: &'static str)
        ensures
            r@ == lex_kind_text(*self),
    {
        match self {
            LexErrorKind::MalformedEscape => "Unexpected escape character",
            LexErrorKind::Unterminated => "End of file inside a string or a block",
            LexErrorKind::UnexpectedEof => "End of file",
            LexErrorKind::MissingNewline => "Did not find EOL. Nothing may follow block symbols",
        }
    }
}

impl ParseErrorKind {
    /// What the kind is called in a message.
    pub fn text(&self) -> (r: &'static str)
        ensures
            r@ == parse_kind_text(*self),
    {
        match self {
            ParseErrorKind::MissingStartOfFile => "Missing Start of File token",
            ParseErrorKind::UnexpectedToken => "Encountered unexpected Token",
            ParseErrorKind::DuplicateHelp => "Help block has already been defined for the current scope.",
            ParseErrorKind::UnexpectedEof => "Unexpected end of file",
        }
    }
}

impl GenerateErrorKind {
    /// What the kind is called in a message.
    pub fn text(&self) -> (r: &'static str)
        ensures
            r@ == generate_kind_text(*self),
    {
        match self {
            GenerateErrorKind::MissingName => "Assignment without a variable name",
            GenerateErrorKind::UnexpectedNode => "Unexpected node type",
            GenerateErrorKind::EmptyAssignment => "Assignment without an expression",
            GenerateErrorKind::MissingArgumentName => "Argument missing name",
        }
    }
}

impl Location {
    /// The message with this place in front.
    pub fn place(&self, message: &str) -> (r: String)
        ensures
            r@ == placed_text(self@, message@),
    {
        let mut out = chars_of(self.filename.as_str());
        out.push(':');
        push_decimal(&mut out, self.line);
        out.push(':');
        push_decimal(&mut out, self.column);
        let mut text = string_of(&out);
        text.append(" > ");
        text.append(message);
        proof {
            reveal_strlit(":");
            assert(out@ =~= self.filename@ + ":"@ + decimal(self.line as nat) + ":"@ + decimal(
                self.column as nat,
            ));
        }
        text
    }
}

/// The message of a lexical failure.
pub open spec fn lex_message(e: LexErrorView) -> Seq<char> {
    placed_text(e.location, lex_kind_text(e.kind))
}

/// The message of a failure to build the tree.
pub open spec fn parse_message(e: ParseErrorView) -> Seq<char> {
    match e {
        ParseErrorView::Lex(inner) => lex_message(inner),
        ParseErrorView::Syntax(kind, location) => placed_text(location, parse_kind_text(kind)),
    }
}

/// The message of a failure to generate the output.
pub open spec fn generate_message(e: GenerateErrorView) -> Seq<char> {
    match e {
        GenerateErrorView::Parse(inner) => parse_message(inner),
        GenerateErrorView::Tree(kind) => generate_kind_text(kind),
    }
}

impl LexError {
    /// The message of the failure, with its place in front.
    pub fn to_string(&self) -> (r: String)
        ensures
            r@ == lex_message(self@),
    {
        self.location.place(self.kind.text())
    }
}

impl ParseError {
    /// The message of the failure, with its place in front.
    pub fn to_string(&self) -> (r: String)
        ensures
            r@ == parse_message(self@),
    {
        match self {
            ParseError::Lex(e) => e.to_string(),
            ParseError::Syntax(kind, location) => location.place(kind.text()),
        }
    }
}

impl GenerateError {
    /// The message of the failure; that of the parser has its place in front.
    pub fn to_string(&self) -> (r: String)
        ensures
            r@ == generate_message(self@),
    {
        match self {
            GenerateError::Parse(e) => e.to_string(),
            GenerateError::Tree(kind) => kind.text().to_owned(),
        }
    }
}

} // verus!
