pub mod laws;
pub mod lexers;
pub mod progress;
pub mod source;
pub mod token;
pub mod validation;
pub mod vec_tokenizer;

use crate::error::{LexError, LexErrorKind, LexErrorView, Location, LocationView};
use crate::lexer::lexers::{
    comment_scan, consume_char, consume_len, help_scan, lemma_consume_front, nomenclature_scan,
    number_scan, read_comment, read_help_block, read_nomenclature, read_number, read_script,
    read_string, scan_whitespace, script_scan, string_scan, whitespace_scan, Consumer, Scan,
};
use crate::lexer::progress::{
    lemma_comment_bound, lemma_read_while_bound, lemma_script_bound, lemma_string_bound,
    lemma_whitespace_scan_bound,
};
use crate::lexer::source::{column_after, line_after, SourceConsumer};
use crate::lexer::token::{Lexeme, Token, TokenType, TokenView, Tokenizer};
use crate::lexer::validation::{is_nomenclature, is_nomenclature_spec, is_number, is_number_spec};
use crate::text::{chars_of, spells, string_of, trim, trim_chars};
use vstd::prelude::*;

verus! {

/// One step of the lexer: the token or the kind of failure, how many
/// characters were passed over, and whether the character then in front is
/// rewritten to `$`.
pub struct Step {
    pub result: Result<TokenView, LexErrorKind>,
    pub used: nat,
    pub rewrite: bool,
}

/// The step that gives a token of the kind `ttype` with the text that `scan` found.
pub open spec fn token_of(ttype: TokenType, scan: Scan<Seq<char>>) -> Step {
    Step {
        result: match scan.value {
            Ok(text) => Ok(TokenView { ttype, value: Some(text) }),
            Err(kind) => Err(kind),
        },
        used: scan.used,
        rewrite: false,
    }
}

/// The step that gives a token of the kind `ttype` without text, over `used` characters.
pub open spec fn mark(ttype: TokenType, used: nat) -> Step {
    Step { result: Ok(TokenView { ttype, value: None }), used, rewrite: false }
}

/// The step that gives the word that `scan` found: a keyword or an identifier.
pub open spec fn word_of(scan: Scan<Seq<char>>) -> Step {
    match scan.value {
        Ok(text) => if text == "exit"@ {
            mark(TokenType::EXIT, scan.used)
        } else if text == "yield"@ {
            mark(TokenType::YIELD, scan.used)
        } else {
            token_of(TokenType::NOMEN, scan)
        },
        Err(kind) => token_of(TokenType::NOMEN, scan),
    }
}

/// `scan` with the blank ends of the text it found taken off.
pub open spec fn trimmed(scan: Scan<Seq<char>>) -> Scan<Seq<char>> {
    Scan {
        used: scan.used,
        value: match scan.value {
            Ok(text) => Ok(trim(text)),
            Err(kind) => Err(kind),
        },
    }
}

/// The step that `t` gives, which starts with the first character of a token.
pub open spec fn token_at(t: Seq<char>) -> Step
    recommends
        t.len() > 0,
{
    let next = t[0];
    if is_number_spec(next) {
        token_of(TokenType::LIT_NUM, number_scan(t, true))
    } else if is_nomenclature_spec(next, true) {
        word_of(nomenclature_scan(t, true))
    } else if next == '"' {
        token_of(TokenType::LIT_STR, string_scan(t, true))
    } else if next == '#' {
        token_of(TokenType::COMMENT, comment_scan(t, true))
    } else if next == '$' {
        token_of(TokenType::SCR_SH, trimmed(script_scan(t, true, '$')))
    } else if next == '{' {
        mark(TokenType::TGT_BEG, 1)
    } else if next == '}' {
        mark(TokenType::TGT_END, 1)
    } else if next == ':' {
        Step { result: Ok(TokenView { ttype: TokenType::TGT_SLE, value: None }), used: 0, rewrite: true }
    } else if next == '=' {
        mark(TokenType::ASSIGN, 1)
    } else if next == '\n' {
        mark(TokenType::EOL, 1)
    } else if next == '@' {
        token_of(TokenType::HELP, help_scan(t, true))
    } else {
        match consume_char(t, true) {
            Some(c) => Step {
                result: Ok(TokenView { ttype: TokenType::SYMBOL, value: Some(seq![c]) }),
                used: consume_len(t, true),
                rewrite: false,
            },
            None => Step { result: Err(LexErrorKind::UnexpectedEof), used: t.len(), rewrite: false },
        }
    }
}

/// The step that the text `s` gives: blank space is passed over, then a
/// token is read, or the end of the text is found.
pub open spec fn lex_step(s: Seq<char>) -> Step {
    let blank = whitespace_scan(s, true);
    let t = s.skip(blank.used as int);
    match blank.value {
        Err(kind) => Step { result: Err(kind), used: blank.used, rewrite: false },
        Ok(_) => if t.len() == 0 {
            mark(TokenType::EOF, blank.used)
        } else {
            let step = token_at(t);
            Step { result: step.result, used: blank.used + step.used, rewrite: step.rewrite }
        },
    }
}

/// What is still to come after `step` was made on the text `s`.
pub open spec fn pending_after(s: Seq<char>, step: Step) -> Seq<char> {
    if step.rewrite {
        s.skip(step.used as int).update(0, '$')
    } else {
        s.skip(step.used as int)
    }
}

/// Whether `step` is the last one: a failure or the end of the text.
pub open spec fn is_last_step(step: Step) -> bool {
    match step.result {
        Ok(token) => token.ttype == TokenType::EOF,
        Err(_) => true,
    }
}

/// A step stays inside the text, rewrites only a colon, and unless it is the
/// last one it passes over a character or rewrites one.
pub proof fn lemma_lex_step_progress(s: Seq<char>)
    ensures
        lex_step(s).used <= s.len(),
        lex_step(s).rewrite ==> lex_step(s).used < s.len() && s[lex_step(s).used as int] == ':',
        !is_last_step(lex_step(s)) ==> lex_step(s).used >= 1 || lex_step(s).rewrite,
{
    lemma_whitespace_scan_bound(s, true);
    let blank = whitespace_scan(s, true);
    let t = s.skip(blank.used as int);
    if blank.value is Ok && t.len() > 0 {
        lemma_read_while_bound(t, true, |c: char| is_number_spec(c));
        lemma_read_while_bound(t, true, |c: char| is_nomenclature_spec(c, false));
        lemma_string_bound(t, true);
        lemma_comment_bound(t, true);
        lemma_script_bound(t, true, '$');
        lemma_script_bound(t, true, '@');
    }
}

/// What decreases from one step of the lexer to the next.
pub open spec fn stream_measure(s: Seq<char>, first: bool) -> nat {
    2 * s.len() + if s.len() > 0 && s[0] == ':' {
        1nat
    } else {
        0nat
    } + if first {
        2nat
    } else {
        0nat
    }
}

/// The answers that a lexer gives which has passed over `consumed` and has
/// `pending` before it: the start marker if it is at its `first` call, then
/// one token for each step, up to the first failure or the end of the text.
pub open spec fn token_stream(consumed: Seq<char>, pending: Seq<char>, first: bool) -> Seq<Lexeme>
    decreases stream_measure(pending, first),
{
    if first {
        seq![
            Lexeme {
                result: Ok(TokenView { ttype: TokenType::SOF, value: None }),
                line: line_after(consumed),
                column: column_after(consumed),
            },
        ] + token_stream(consumed, pending, false)
    } else {
        let step = lex_step(pending);
        let passed = consumed + pending.take(step.used as int);
        let lexeme = Lexeme {
            result: step.result,
            line: line_after(passed),
            column: column_after(passed),
        };
        if is_last_step(step) {
            seq![lexeme]
        } else {
            proof {
                lemma_lex_step_progress(pending);
            }
            seq![lexeme] + token_stream(passed, pending_after(pending, step), false)
        }
    }
}

/// A lexer over a source text.
pub struct Lexer {
    filename: String,
    reader: SourceConsumer,
    peeked_token: Option<Token>,
    first: bool,
}

impl Lexer {
    /// The characters passed over so far.
    pub closed spec fn consumed(&self) -> Seq<char> {
        self.reader.consumed()
    }

    /// The characters still to come.
    pub closed spec fn pending(&self) -> Seq<char> {
        self.reader.pending()
    }

    /// Whether no token was asked for yet.
    pub closed spec fn at_start(&self) -> bool {
        self.first
    }

    /// The token that was looked at and not taken yet.
    pub closed spec fn peeked(&self) -> Option<TokenView> {
        match self.peeked_token {
            Some(token) => Some(token@),
            None => None,
        }
    }

    /// The place that the lexer stands on.
    pub open spec fn location(&self) -> LocationView {
        LocationView { filename: self.filename(), line: self.lineno(), column: self.charno() }
    }

    /// A lexer in front of the source text; `filename` names the text in messages.
    pub fn new(filename: &str, source: &str) -> (r: Lexer)
        requires
            source@.len() < usize::MAX,
        ensures
            r.wf(),
            r.filename() == filename@,
            r.consumed() == Seq::<char>::empty(),
            r.pending() == source@,
            r.at_start(),
            r.peeked() is None,
    {
        Lexer {
            filename: filename.to_owned(),
            reader: SourceConsumer::new(chars_of(source)),
            peeked_token: None,
            first: true,
        }
    }

    /// The failure of the given kind at the place that the lexer stands on.
    fn generate_error<T>(&self, kind: LexErrorKind) -> (r: Result<T, LexError>)
        requires
            self.wf(),
        ensures
            r is Err,
            r->Err_0@ == (LexErrorView { kind, location: self.location() }),
    {
        Err(
            LexError {
                kind,
                location: Location {
                    filename: self.filename.clone(),
                    line: self.reader.line(),
                    column: self.reader.column(),
                },
            },
        )
    }

    /// The text that was read as a string, or the failure to read it at the
    /// place that the lexer stands on.
    fn handle_error(&self, read: Result<Vec<char>, LexErrorKind>) -> (r: Result<String, LexError>)
        requires
            self.wf(),
        ensures
            match read {
                Ok(text) => r is Ok && r->Ok_0@ == text@,
                Err(kind) => r is Err && r->Err_0@ == (LexErrorView {
                    kind,
                    location: self.location(),
                }),
            },
    {
        match read {
            Ok(text) => Ok(string_of(&text)),
            Err(kind) => self.generate_error(kind),
        }
    }

    /// The lexer stands where `before` stood, and `r` is the start marker.
    pub open spec fn started(&self, before: &Lexer, r: Result<Token, LexError>) -> bool {
        &&& self.consumed() == before.consumed()
        &&& self.pending() == before.pending()
        &&& r is Ok
        &&& r->Ok_0@ == (TokenView { ttype: TokenType::SOF, value: None })
    }

    /// The lexer went from `before` to `self` by `step`, and `r` is what the step gave.
    pub open spec fn stepped(&self, before: &Lexer, step: Step, r: Result<Token, LexError>) -> bool {
        &&& self.consumed() == before.consumed() + before.pending().take(step.used as int)
        &&& self.pending() == pending_after(before.pending(), step)
        &&& match step.result {
            Ok(token) => r is Ok && r->Ok_0@ == token,
            Err(kind) => r is Err && r->Err_0@ == (LexErrorView { kind, location: self.location() }),
        }
    }

    /// Only the reader of `self` differs from that of `before`.
    pub closed spec fn same_frame(&self, before: &Lexer) -> bool {
        &&& self.filename == before.filename
        &&& self.peeked_token == before.peeked_token
        &&& self.first == before.first
    }

    /// The token of the kind `ttype` with the text that was read, or the failure to read it.
    fn finish(&self, ttype: TokenType, read: Result<Vec<char>, LexErrorKind>) -> (r: Result<
        Token,
        LexError,
    >)
        requires
            self.wf(),
        ensures
            match read {
                Ok(text) => r is Ok && r->Ok_0@ == (TokenView { ttype, value: Some(text@) }),
                Err(kind) => r is Err && r->Err_0@ == (LexErrorView {
                    kind,
                    location: self.location(),
                }),
            },
    {
        match self.handle_error(read) {
            Ok(text) => Ok(Token::val(ttype, Some(text))),
            Err(e) => Err(e),
        }
    }

    /// Passes over one character that is not a carriage return and gives the
    /// token of the kind `ttype` for it.
    fn take_mark(&mut self, ttype: TokenType) -> (r: Result<Token, LexError>)
        requires
            old(self).wf(),
            old(self).pending().len() > 0,
            old(self).pending()[0] != '\r',
        ensures
            final(self).wf(),
            final(self).same_frame(old(self)),
            final(self).stepped(old(self), mark(ttype, 1), r),
    {
        proof {
            lemma_consume_front(self.reader.pending(), true);
        }
        let _ = self.reader.consume_and_ignore();
        Ok(Token::sym(ttype))
    }

    /// Reads a number or a word, the first character of which is in front.
    fn read_plain(&mut self, next: char) -> (r: Option<Result<Token, LexError>>)
        requires
            old(self).wf(),
            old(self).pending().len() > 0,
            old(self).pending()[0] == next,
        ensures
            final(self).wf(),
            final(self).same_frame(old(self)),
            r is None <==> !is_number_spec(next) && !is_nomenclature_spec(next, true),
            r is None ==> final(self).reader == old(self).reader,
            r is Some ==> final(self).stepped(old(self), token_at(old(self).pending()), r->Some_0),
    {
        if is_number(&next) {
            let read = read_number(&mut self.reader);
            Some(self.finish(TokenType::LIT_NUM, read))
        } else if is_nomenclature(&next, true) {
            let read = read_nomenclature(&mut self.reader);
            match read {
                Ok(word) => {
                    if spells(&word, "exit") {
                        Some(Ok(Token::sym(TokenType::EXIT)))
                    } else if spells(&word, "yield") {
                        Some(Ok(Token::sym(TokenType::YIELD)))
                    } else {
                        Some(self.finish(TokenType::NOMEN, Ok(word)))
                    }
                },
                Err(kind) => Some(self.generate_error(kind)),
            }
        } else {
            None
        }
    }

    /// Reads a literal, comment, script or help block, the first character of
    /// which is in front.
    fn read_quoted(&mut self, next: char) -> (r: Option<Result<Token, LexError>>)
        requires
            old(self).wf(),
            old(self).pending().len() > 0,
            old(self).pending()[0] == next,
            !is_number_spec(next),
            !is_nomenclature_spec(next, true),
        ensures
            final(self).wf(),
            final(self).same_frame(old(self)),
            r is None <==> next != '"' && next != '#' && next != '$' && next != '@',
            r is None ==> final(self).reader == old(self).reader,
            r is Some ==> final(self).stepped(old(self), token_at(old(self).pending()), r->Some_0),
    {
        if next == '"' {
            let read = read_string(&mut self.reader);
            Some(self.finish(TokenType::LIT_STR, read))
        } else if next == '#' {
            let read = read_comment(&mut self.reader);
            Some(self.finish(TokenType::COMMENT, read))
        } else if next == '$' {
            let read = match read_script(&mut self.reader, '$') {
                Ok(text) => Ok(trim_chars(&text)),
                Err(kind) => Err(kind),
            };
            Some(self.finish(TokenType::SCR_SH, read))
        } else if next == '@' {
            let read = read_help_block(&mut self.reader);
            Some(self.finish(TokenType::HELP, read))
        } else {
            None
        }
    }

    /// Reads the token whose first character is in front.
    fn read_token(&mut self, next: char) -> (r: Result<Token, LexError>)
        requires
            old(self).wf(),
            old(self).pending().len() > 0,
            old(self).pending()[0] == next,
        ensures
            final(self).wf(),
            final(self).same_frame(old(self)),
            final(self).stepped(old(self), token_at(old(self).pending()), r),
    {
        if let Some(r) = self.read_plain(next) {
            return r;
        }
        if let Some(r) = self.read_quoted(next) {
            return r;
        }
        if next == '{' {
            self.take_mark(TokenType::TGT_BEG)
        } else if next == '}' {
            self.take_mark(TokenType::TGT_END)
        } else if next == ':' {
            self.reader.replace_next('$');
            proof {
                assert(old(self).pending().take(0) =~= Seq::<char>::empty());
                assert(old(self).consumed() + Seq::<char>::empty() =~= old(self).consumed());
                assert(old(self).pending().skip(0) =~= old(self).pending());
            }
            Ok(Token::sym(TokenType::TGT_SLE))
        } else if next == '=' {
            self.take_mark(TokenType::ASSIGN)
        } else if next == '\n' {
            self.take_mark(TokenType::EOL)
        } else {
            match self.reader.consume() {
                Ok(c) => {
                    let mut text = String::new();
                    text.push(c);
                    proof {
                        assert(text@ =~= seq![c]);
                    }
                    Ok(Token::val(TokenType::SYMBOL, Some(text)))
                },
                Err(kind) => self.generate_error(kind),
            }
        }
    }

    /// Makes one step: the start marker at the first call, afterwards the next token.
    fn consume_token(&mut self) -> (r: Result<Token, LexError>)
        requires
            old(self).wf(),
        ensures
            final(self).wf(),
            final(self).filename() == old(self).filename(),
            final(self).peeked() == old(self).peeked(),
            !final(self).at_start(),
            old(self).at_start() ==> final(self).started(old(self), r),
            !old(self).at_start() ==> final(self).stepped(
                old(self),
                lex_step(old(self).pending()),
                r,
            ),
    {
        if self.first {
            self.first = false;
            return Ok(Token::sym(TokenType::SOF));
        }
        let ghost used = whitespace_scan(self.reader.pending(), true).used;
        let blank = scan_whitespace(&mut self.reader);
        if let Err(kind) = blank {
            return self.generate_error(kind);
        }
        let next = match self.reader.peek() {
            Some(c) => c,
            None => {
                return Ok(Token::sym(TokenType::EOF));
            },
        };
        let ghost middle = *self;
        let r = self.read_token(next);
        proof {
            let s = old(self).pending();
            let step = token_at(middle.pending());
            lemma_lex_step_progress(s);
            assert(s.take(used as int) + s.skip(used as int).take(step.used as int) =~= s.take(
                (used + step.used) as int,
            ));
            assert(old(self).consumed() + s.take(used as int) + s.skip(used as int).take(
                step.used as int,
            ) =~= old(self).consumed() + s.take((used + step.used) as int));
            assert(s.skip(used as int).skip(step.used as int) =~= s.skip((used + step.used) as int));
        }
        r
    }
}

impl Tokenizer for Lexer {
    closed spec fn wf(&self) -> bool {
        &&& self.reader.wf()
        &&& self.reader.skips_cr()
        &&& self.peeked_token is Some ==> !self.first
        &&& self.peeked_token is Some && self.peeked_token->Some_0.ttype == TokenType::EOF
            ==> self.reader.pending().len() == 0 && self.peeked_token->Some_0.value is None
    }

    open spec fn upcoming(&self) -> Seq<Lexeme> {
        let coming = token_stream(self.consumed(), self.pending(), self.at_start());
        match self.peeked() {
            Some(token) => {
                let lexeme = Lexeme { result: Ok(token), line: self.lineno(), column: self.charno() };
                if token.ttype == TokenType::EOF {
                    seq![lexeme]
                } else {
                    seq![lexeme] + coming
                }
            },
            None => coming,
        }
    }

    closed spec fn filename(&self) -> Seq<char> {
        self.filename@
    }

    open spec fn lineno(&self) -> nat {
        line_after(self.consumed())
    }

    open spec fn charno(&self) -> nat {
        column_after(self.consumed())
    }

    proof fn upcoming_ends(&self) {
        lemma_token_stream_ends(self.consumed(), self.pending(), self.at_start());
    }

    fn peek_token(&mut self) -> (r: Result<&Token, LexError>) {
        if self.peeked_token.is_none() {
            let token = match self.consume_token() {
                Ok(token) => token,
                Err(e) => {
                    return Err(e);
                },
            };
            proof {
                lemma_after_step(old(self).consumed(), old(self).pending(), old(self).at_start());
            }
            self.peeked_token = Some(token);
        }
        Ok(self.peeked_token.as_ref().unwrap())
    }

    fn next_token(&mut self) -> (r: Result<Token, LexError>) {
        let token = self.peeked_token.take();
        match token {
            Some(t) => {
                proof {
                    let coming = token_stream(self.consumed(), self.pending(), false);
                    let lexeme = Lexeme {
                        result: Ok(t@),
                        line: self.lineno(),
                        column: self.charno(),
                    };
                    assert((seq![lexeme] + coming).skip(1) =~= coming);
                    lemma_token_stream_ends(self.consumed(), self.pending(), false);
                    if t.ttype == TokenType::EOF {
                        lemma_stream_at_end(self.consumed(), self.pending());
                    }
                }
                Ok(t)
            },
            None => {
                let r = self.consume_token();
                proof {
                    lemma_after_step(old(self).consumed(), old(self).pending(), old(self).at_start());
                    lemma_token_stream_ends(self.consumed(), self.pending(), false);
                    let coming = token_stream(self.consumed(), self.pending(), false);
                    let whole = old(self).upcoming();
                    if whole.len() > 1 {
                        assert((seq![whole[0]] + coming).skip(1) =~= coming);
                    }
                }
                r
            },
        }
    }

    fn get_filename(&self) -> (r: &str) {
        self.filename.as_str()
    }

    fn get_lineno(&self) -> (r: usize) {
        self.reader.line()
    }

    fn get_charno(&self) -> (r: usize) {
        self.reader.column()
    }
}

/// At the end of the text the one answer still to come is the end of the text.
pub proof fn lemma_stream_at_end(consumed: Seq<char>, pending: Seq<char>)
    requires
        pending.len() == 0,
    ensures
        token_stream(consumed, pending, false) == seq![
            Lexeme {
                result: Ok(TokenView { ttype: TokenType::EOF, value: None }),
                line: line_after(consumed),
                column: column_after(consumed),
            },
        ],
{
    assert(pending.take(0) =~= Seq::<char>::empty());
    assert(consumed + Seq::<char>::empty() =~= consumed);
}

/// The answers of a lexer are the one of its next step and, unless that is
/// the last one, those of the lexer after the step; after the last step, if
/// it found the end of the text, the same answer comes again.
pub proof fn lemma_after_step(consumed: Seq<char>, pending: Seq<char>, first: bool)
    ensures
        first ==> token_stream(consumed, pending, first) == seq![
            Lexeme {
                result: Ok(TokenView { ttype: TokenType::SOF, value: None }),
                line: line_after(consumed),
                column: column_after(consumed),
            },
        ] + token_stream(consumed, pending, false),
        !first ==> ({
            let step = lex_step(pending);
            let passed = consumed + pending.take(step.used as int);
            let lexeme = Lexeme {
                result: step.result,
                line: line_after(passed),
                column: column_after(passed),
            };
            &&& !is_last_step(step) ==> token_stream(consumed, pending, first) == seq![lexeme]
                + token_stream(passed, pending_after(pending, step), false)
            &&& is_last_step(step) ==> token_stream(consumed, pending, first) == seq![lexeme]
            &&& step.result is Ok && is_last_step(step) ==> pending_after(pending, step).len() == 0
                && token_stream(passed, pending_after(pending, step), false) == seq![lexeme]
        }),
{
    if !first {
        let step = lex_step(pending);
        let passed = consumed + pending.take(step.used as int);
        lemma_lex_step_progress(pending);
        if step.result is Ok && is_last_step(step) {
            lemma_last_step_at_end(pending);
            lemma_stream_at_end(passed, pending_after(pending, step));
        }
    }
}

/// A step that finds the end of the text has passed over all of it.
pub proof fn lemma_last_step_at_end(s: Seq<char>)
    ensures
        lex_step(s).result is Ok && is_last_step(lex_step(s)) ==> lex_step(s).used == s.len()
            && !lex_step(s).rewrite && lex_step(s).result == Ok::<TokenView, LexErrorKind>(
            TokenView { ttype: TokenType::EOF, value: None },
        ),
{
    lemma_whitespace_scan_bound(s, true);
}

/// The answers of a lexer are never none, and end with a failure or with the end of the text.
pub proof fn lemma_token_stream_ends(consumed: Seq<char>, pending: Seq<char>, first: bool)
    ensures
        token_stream(consumed, pending, first).len() >= 1,
        token_stream(consumed, pending, first).last().is_last(),
    decreases stream_measure(pending, first),
{
    if first {
        lemma_token_stream_ends(consumed, pending, false);
    } else {
        let step = lex_step(pending);
        if !is_last_step(step) {
            lemma_lex_step_progress(pending);
            lemma_token_stream_ends(
                consumed + pending.take(step.used as int),
                pending_after(pending, step),
                false,
            );
        }
    }
}

} // verus!
