use crate::lexer::lexers::{
    block_body_scan, block_open_scan, block_scan, consume_char, consume_len, string_body_scan,
    string_scan, whitespace_scan,
};
use crate::lexer::lexers::{opens_block, triple_at, unclosed, unquoted};
use crate::lexer::progress::lemma_whitespace_scan_bound;
use crate::lexer::source::{column_after, line_after};
use crate::lexer::token::Lexeme;
use crate::lexer::validation::{is_nomenclature_spec, is_number_spec};
use crate::lexer::{lex_step, token_at, token_stream};
use vstd::prelude::*;

verus! {

/// The body of a string literal that holds no quote fails: the text ends in it.
pub proof fn lemma_string_body_unclosed(s: Seq<char>, cr: bool)
    requires
        forall|i: int| 0 <= i < s.len() ==> s[i] != '"',
    ensures
        string_body_scan(s, cr).value is Err,
    decreases s.len(),
{
    if consume_char(s, cr) is Some {
        let n = consume_len(s, cr) as int;
        let t = s.skip(n);
        assert(s[n - 1] != '"');
        assert forall|i: int| 0 <= i < t.len() implies t[i] != '"' by {
            assert(t[i] == s[i + n]);
        }
        lemma_string_body_unclosed(t, cr);
        if t.len() > 0 {
            assert forall|i: int| 0 <= i < t.skip(1).len() implies t.skip(1)[i] != '"' by {
                assert(t.skip(1)[i] == s[i + n + 1]);
            }
            lemma_string_body_unclosed(t.skip(1), cr);
        }
    }
}

/// A string literal that is not closed fails: where no quote follows the
/// first character, reading the literal gives an error and no text.
pub proof fn lemma_unterminated_string_fails(s: Seq<char>, cr: bool)
    requires
        unquoted(s),
    ensures
        string_scan(s, cr).value is Err,
{
    if consume_char(s, cr) is Some {
        let n = consume_len(s, cr) as int;
        let t = s.skip(n);
        assert forall|i: int| 0 <= i < t.len() implies t[i] != '"' by {
            assert(t[i] == s[i + n]);
        }
        lemma_string_body_unclosed(t, cr);
    }
}

/// The text of a block in which the delimiter nowhere stands three times in
/// a row fails: the text ends in it.
pub proof fn lemma_block_body_unclosed(s: Seq<char>, cr: bool, delimiter: char)
    requires
        forall|i: int| !triple_at(s, delimiter, i),
    ensures
        block_body_scan(s, cr, delimiter).value is Err,
    decreases s.len(),
{
    if consume_char(s, cr) is Some {
        let n = consume_len(s, cr) as int;
        let t = s.skip(n);
        assert(!triple_at(s, delimiter, n - 1));
        if t.len() >= 2 {
            assert(t[0] == s[n] && t[1] == s[n + 1]);
        }
        assert forall|i: int| !triple_at(t, delimiter, i) by {
            if triple_at(t, delimiter, i) {
                assert(t[i] == s[i + n] && t[i + 1] == s[i + n + 1] && t[i + 2] == s[i + n + 2]);
                assert(triple_at(s, delimiter, i + n));
            }
        }
        lemma_block_body_unclosed(t, cr, delimiter);
    }
}

/// A block whose text is not closed fails from wherever in its opening it is read.
pub proof fn lemma_block_open_unclosed(s: Seq<char>, cr: bool, delimiter: char, left: nat)
    requires
        forall|i: int| !triple_at(s, delimiter, i),
    ensures
        block_open_scan(s, cr, delimiter, left).value is Err,
    decreases left,
{
    if left == 0 {
        lemma_whitespace_scan_bound(s, cr);
        let blank = whitespace_scan(s, cr);
        let t = s.skip(blank.used as int);
        if blank.value is Ok && t.len() > 0 && t[0] == '\n' {
            let body = t.skip(1);
            assert forall|i: int| !triple_at(body, delimiter, i) by {
                if triple_at(body, delimiter, i) {
                    let m = blank.used as int + 1;
                    assert(body[i] == s[i + m] && body[i + 1] == s[i + m + 1] && body[i + 2] == s[i
                        + m + 2]);
                    assert(triple_at(s, delimiter, i + m));
                }
            }
            lemma_block_body_unclosed(body, cr, delimiter);
        }
    } else if consume_char(s, cr) is Some {
        let n = consume_len(s, cr) as int;
        let t = s.skip(n);
        assert forall|i: int| !triple_at(t, delimiter, i) by {
            if triple_at(t, delimiter, i) {
                assert(t[i] == s[i + n] && t[i + 1] == s[i + n + 1] && t[i + 2] == s[i + n + 2]);
                assert(triple_at(s, delimiter, i + n));
            }
        }
        lemma_block_open_unclosed(t, cr, delimiter, (left - 1) as nat);
    }
}

/// A delimited block that is not closed fails: where the delimiter nowhere
/// stands three times in a row behind the first character, reading the
/// block gives an error and no text.
pub proof fn lemma_unterminated_block_fails(s: Seq<char>, cr: bool, delimiter: char)
    requires
        unclosed(s, delimiter),
    ensures
        block_scan(s, cr, delimiter).value is Err,
{
    if consume_char(s, cr) is Some {
        let n = consume_len(s, cr) as int;
        let t = s.skip(n);
        assert forall|i: int| !triple_at(t, delimiter, i) by {
            if triple_at(t, delimiter, i) {
                assert(t[i] == s[i + n] && t[i + 1] == s[i + n + 1] && t[i + 2] == s[i + n + 2]);
                assert(triple_at(s, delimiter, i + n));
            }
        }
        lemma_block_open_unclosed(t, cr, delimiter, 2);
    }
}

/// Whether a token that begins with `c` is read by the rule for `c` itself:
/// `c` begins neither a number nor an identifier.
pub open spec fn is_mark(c: char) -> bool {
    !is_number_spec(c) && !is_nomenclature_spec(c, true)
}

/// A token that opens a string literal which is not closed is a failure.
pub proof fn lemma_open_string_is_no_token(t: Seq<char>)
    requires
        t.len() > 0,
        t[0] == '"',
        is_mark('"'),
        unquoted(t),
    ensures
        token_at(t).result is Err,
{
    lemma_unterminated_string_fails(t, true);
}

/// A token that opens a delimited block of comment, script or help which is
/// not closed is a failure.
pub proof fn lemma_open_block_is_no_token(t: Seq<char>, delimiter: char)
    requires
        delimiter == '#' || delimiter == '$' || delimiter == '@',
        t.len() > 0,
        t[0] == delimiter,
        opens_block(t, delimiter),
        is_mark(delimiter),
        unclosed(t, delimiter),
    ensures
        token_at(t).result is Err,
{
    lemma_unterminated_block_fails(t, true, delimiter);
}

/// A step that fails ends the answers of the lexer with that failure, and
/// the failure has its place: the line and column behind what the step
/// passed over.
pub proof fn lemma_failure_has_its_place(consumed: Seq<char>, pending: Seq<char>)
    requires
        lex_step(pending).result is Err,
    ensures
        token_stream(consumed, pending, false) == seq![
            Lexeme {
                result: lex_step(pending).result,
                line: line_after(consumed + pending.take(lex_step(pending).used as int)),
                column: column_after(consumed + pending.take(lex_step(pending).used as int)),
            },
        ],
{
}

} // verus!
