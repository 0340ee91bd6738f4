use crate::lexer::lexers::{
    block_body_scan, block_line_scan, block_open_scan, comment_scan, consume_char, consume_len,
    discard_len, opens_block, read_while, script_scan, string_body_scan, string_scan,
    whitespace_scan,
};
use vstd::prelude::*;

verus! {

/// Passing over blank space never goes beyond the text.
pub proof fn lemma_whitespace_scan_bound(s: Seq<char>, cr: bool)
    ensures
        whitespace_scan(s, cr).used <= s.len(),
    decreases s.len(),
{
    if s.len() > 0 && consume_char(s, cr) is Some {
        lemma_whitespace_scan_bound(s.skip(consume_len(s, cr) as int), cr);
    }
}

/// Reading while a predicate holds never goes beyond the text, and passes
/// over a first character of which the predicate holds.
pub proof fn lemma_read_while_bound(s: Seq<char>, cr: bool, p: spec_fn(char) -> bool)
    ensures
        read_while(s, cr, p).used <= s.len(),
        s.len() > 0 && p(s[0]) ==> read_while(s, cr, p).used >= 1,
    decreases s.len(),
{
    if s.len() > 0 && consume_char(s, cr) is Some {
        lemma_read_while_bound(s.skip(consume_len(s, cr) as int), cr, p);
    }
}

/// Reading the body of a string literal never goes beyond the text.
pub proof fn lemma_string_body_bound(s: Seq<char>, cr: bool)
    ensures
        string_body_scan(s, cr).used <= s.len(),
    decreases s.len(),
{
    if consume_char(s, cr) is Some {
        let n = consume_len(s, cr);
        let t = s.skip(n as int);
        lemma_string_body_bound(t, cr);
        if t.len() > 0 {
            lemma_string_body_bound(t.skip(1), cr);
        }
    }
}

/// Reading a string literal passes over at least one character of a text
/// that has one, and never goes beyond the text.
pub proof fn lemma_string_bound(s: Seq<char>, cr: bool)
    ensures
        string_scan(s, cr).used <= s.len(),
        s.len() > 0 ==> string_scan(s, cr).used >= 1,
{
    if consume_char(s, cr) is Some {
        lemma_string_body_bound(s.skip(consume_len(s, cr) as int), cr);
    }
}

/// Leaving the rest of a line behind never goes beyond the text.
pub proof fn lemma_discard_bound(s: Seq<char>, cr: bool)
    ensures
        discard_len(s, cr) <= s.len(),
    decreases s.len(),
{
    if s.len() > 0 && consume_char(s, cr) is Some {
        lemma_discard_bound(s.skip(consume_len(s, cr) as int), cr);
    }
}

/// Reading the text of a delimited block never goes beyond the text.
pub proof fn lemma_block_body_bound(s: Seq<char>, cr: bool, delimiter: char)
    ensures
        block_body_scan(s, cr, delimiter).used <= s.len(),
    decreases s.len(),
{
    if consume_char(s, cr) is Some {
        let n = consume_len(s, cr);
        let t = s.skip(n as int);
        lemma_block_body_bound(t, cr, delimiter);
        if t.len() >= 2 {
            lemma_discard_bound(t.skip(2), cr);
        }
    }
}

/// Reading the opening line and the text of a delimited block never goes beyond the text.
pub proof fn lemma_block_line_bound(s: Seq<char>, cr: bool, delimiter: char)
    ensures
        block_line_scan(s, cr, delimiter).used <= s.len(),
{
    lemma_whitespace_scan_bound(s, cr);
    let blank = whitespace_scan(s, cr);
    let t = s.skip(blank.used as int);
    if t.len() > 0 {
        lemma_block_body_bound(t.skip(1), cr, delimiter);
    }
}

/// Reading a delimited block never goes beyond the text; with part of the
/// opening delimiter still to pass over, it passes over a character of a
/// text that has one.
pub proof fn lemma_block_open_bound(s: Seq<char>, cr: bool, delimiter: char, left: nat)
    ensures
        block_open_scan(s, cr, delimiter, left).used <= s.len(),
        left > 0 && s.len() > 0 ==> block_open_scan(s, cr, delimiter, left).used >= 1,
    decreases left,
{
    if left == 0 {
        lemma_block_line_bound(s, cr, delimiter);
    } else if consume_char(s, cr) is Some {
        lemma_block_open_bound(s.skip(consume_len(s, cr) as int), cr, delimiter, (left - 1) as nat);
    }
}

/// Reading a comment passes over at least one character of a text that has
/// one, and never goes beyond the text.
pub proof fn lemma_comment_bound(s: Seq<char>, cr: bool)
    ensures
        comment_scan(s, cr).used <= s.len(),
        s.len() > 0 ==> comment_scan(s, cr).used >= 1,
{
    if opens_block(s, '#') {
        lemma_block_open_bound(s, cr, '#', 3);
    } else if consume_char(s, cr) is Some {
        lemma_read_while_bound(s.skip(consume_len(s, cr) as int), cr, |c: char| c != '\n');
    }
}

/// Reading a script passes over at least one character of a text that has
/// one, and never goes beyond the text.
pub proof fn lemma_script_bound(s: Seq<char>, cr: bool, delimiter: char)
    ensures
        script_scan(s, cr, delimiter).used <= s.len(),
        s.len() > 0 ==> script_scan(s, cr, delimiter).used >= 1,
{
    if opens_block(s, delimiter) {
        lemma_block_open_bound(s, cr, delimiter, 3);
    } else if consume_char(s, cr) is Some {
        let t = s.skip(consume_len(s, cr) as int);
        lemma_whitespace_scan_bound(t, cr);
        lemma_read_while_bound(t.skip(whitespace_scan(t, cr).used as int), cr, |c: char| c != '\n');
    }
}

} // verus!
