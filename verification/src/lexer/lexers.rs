use crate::error::LexErrorKind;
use crate::lexer::validation::{
    is_nomenclature, is_nomenclature_spec, is_number, is_number_spec, is_whitespace,
    is_whitespace_spec,
};
use crate::lexer::laws::{lemma_unterminated_block_fails, lemma_unterminated_string_fails};
use vstd::prelude::*;

verus! {

/// How many carriage returns at the front of `s` a consumer passes over
/// before it reaches a character to hand out.
pub open spec fn cr_run(s: Seq<char>, cr: bool) -> nat
    decreases s.len(),
{
    if cr && s.len() > 0 && s[0] == '\r' {
        1 + cr_run(s.skip(1), cr)
    } else {
        0
    }
}

/// The character that consuming from `s` hands out, if any is left.
pub open spec fn consume_char(s: Seq<char>, cr: bool) -> Option<char> {
    let k = cr_run(s, cr);
    if k < s.len() {
        Some(s[k as int])
    } else {
        None
    }
}

/// How many characters of `s` consuming once passes over.
pub open spec fn consume_len(s: Seq<char>, cr: bool) -> nat {
    let k = cr_run(s, cr);
    if k < s.len() {
        k + 1
    } else {
        s.len()
    }
}

/// The split of a text into what was passed over and what is still to come,
/// before and after moving forward over `n` characters.
pub open spec fn moved(
    consumed: Seq<char>,
    pending: Seq<char>,
    consumed_after: Seq<char>,
    pending_after: Seq<char>,
    n: nat,
) -> bool {
    &&& n <= pending.len()
    &&& pending_after == pending.skip(n as int)
    &&& consumed_after == consumed + pending.take(n as int)
}

/// `after` is `before` moved forward over `n` characters.
pub open spec fn advanced<C: Consumer>(before: &C, after: &C, n: nat) -> bool {
    &&& after.skips_cr() == before.skips_cr()
    &&& moved(before.consumed(), before.pending(), after.consumed(), after.pending(), n)
}

/// A source of characters with one character of lookahead.
pub trait Consumer: Sized {
    /// The characters passed over so far.
    spec fn consumed(&self) -> Seq<char>;

    /// The characters still to come.
    spec fn pending(&self) -> Seq<char>;

    /// Whether `consume` passes over carriage returns without handing them out.
    spec fn skips_cr(&self) -> bool;

    /// The consumer's own invariant.
    spec fn wf(&self) -> bool;

    /// Hands out the next character and moves past it.
    fn consume(&mut self) -> (r: Result<char, LexErrorKind>)
        requires
            old(self).wf(),
        ensures
            final(self).wf(),
            final(self).skips_cr() == old(self).skips_cr(),
            moved(
                old(self).consumed(),
                old(self).pending(),
                final(self).consumed(),
                final(self).pending(),
                consume_len(old(self).pending(), old(self).skips_cr()),
            ),
            r == match consume_char(old(self).pending(), old(self).skips_cr()) {
                Some(c) => Ok::<char, LexErrorKind>(c),
                None => Err(LexErrorKind::UnexpectedEof),
            },
    ;

    /// Moves past the next character.
    fn consume_and_ignore(&mut self) -> (r: Result<(), LexErrorKind>)
        requires
            old(self).wf(),
        ensures
            final(self).wf(),
            final(self).skips_cr() == old(self).skips_cr(),
            moved(
                old(self).consumed(),
                old(self).pending(),
                final(self).consumed(),
                final(self).pending(),
                consume_len(old(self).pending(), old(self).skips_cr()),
            ),
            r == match consume_char(old(self).pending(), old(self).skips_cr()) {
                Some(c) => Ok::<(), LexErrorKind>(()),
                None => Err(LexErrorKind::UnexpectedEof),
            },
    ;

    /// The next character, left in place.
    fn peek(&self) -> (r: Option<char>)
        requires
            self.wf(),
        ensures
            r == if self.pending().len() > 0 {
                Some(self.pending()[0])
            } else {
                None
            },
    ;

    /// The character `ahead` places on, counted from one, left in place.
    fn look_ahead(&self, ahead: usize) -> (r: Option<char>)
        requires
            self.wf(),
            ahead >= 1,
        ensures
            r == if ahead - 1 < self.pending().len() {
                Some(self.pending()[ahead - 1])
            } else {
                None
            },
    ;
}

/// What reading from a text gives: how many characters were passed over, and
/// what was found.
pub struct Scan<T> {
    pub used: nat,
    pub value: Result<T, LexErrorKind>,
}

/// `scan`, made after `n` characters had been passed over already.
pub open spec fn shift<T>(n: nat, scan: Scan<T>) -> Scan<T> {
    Scan { used: n + scan.used, value: scan.value }
}

/// `scan`, made after `n` characters had been passed over that gave the character `c`.
pub open spec fn prepend(c: char, n: nat, scan: Scan<Seq<char>>) -> Scan<Seq<char>> {
    Scan {
        used: n + scan.used,
        value: match scan.value {
            Ok(text) => Ok(seq![c] + text),
            Err(kind) => Err(kind),
        },
    }
}

/// The consumer went from `before` to `after` as `scan` says, and `r` is what `scan` found.
pub open spec fn reads<C: Consumer>(
    before: &C,
    after: &C,
    scan: Scan<Seq<char>>,
    r: Result<Vec<char>, LexErrorKind>,
) -> bool {
    &&& advanced(before, after, scan.used)
    &&& match scan.value {
        Ok(text) => r is Ok && r->Ok_0@ == text,
        Err(kind) => r == Err::<Vec<char>, LexErrorKind>(kind),
    }
}

/// Moving forward twice is moving forward once over the sum.
pub proof fn lemma_advanced_twice<C: Consumer>(a: &C, b: &C, c: &C, n: nat, m: nat)
    requires
        advanced(a, b, n),
        advanced(b, c, m),
    ensures
        advanced(a, c, n + m),
{
    let s = a.pending();
    assert(s.skip(n as int).skip(m as int) =~= s.skip((n + m) as int));
    assert(s.take(n as int) + s.skip(n as int).take(m as int) =~= s.take((n + m) as int));
    assert(a.consumed() + s.take(n as int) + s.skip(n as int).take(m as int) =~= a.consumed() + (
    s.take(n as int) + s.skip(n as int).take(m as int)));
}

/// Standing still is moving forward over nothing.
pub proof fn lemma_advanced_zero<C: Consumer>(a: &C)
    ensures
        advanced(a, a, 0),
{
    assert(a.pending().skip(0) =~= a.pending());
    assert(a.consumed() + a.pending().take(0) =~= a.consumed());
}

/// Passing over blank space on one line: everything up to the first character
/// that is a line break or is not blank.
pub open spec fn whitespace_scan(s: Seq<char>, cr: bool) -> Scan<()>
    decreases s.len(),
{
    if s.len() == 0 || s[0] == '\n' || !is_whitespace_spec(s[0]) {
        Scan { used: 0, value: Ok(()) }
    } else {
        match consume_char(s, cr) {
            None => Scan { used: s.len(), value: Err(LexErrorKind::UnexpectedEof) },
            Some(_) => shift(
                consume_len(s, cr),
                whitespace_scan(s.skip(consume_len(s, cr) as int), cr),
            ),
        }
    }
}

/// Passes over the blank space in front of the consumer, up to a line break
/// or to a character that is not blank.
pub fn scan_whitespace<C: Consumer>(consumer: &mut C) -> (r: Result<(), LexErrorKind>)
    requires
        old(consumer).wf(),
    ensures
        final(consumer).wf(),
        advanced(
            old(consumer),
            final(consumer),
            whitespace_scan(old(consumer).pending(), old(consumer).skips_cr()).used,
        ),
        r == whitespace_scan(old(consumer).pending(), old(consumer).skips_cr()).value,
{
    let ghost cr = consumer.skips_cr();
    let ghost start = consumer.pending();
    let ghost k: nat = 0;
    proof {
        lemma_advanced_zero(old(consumer));
    }
    loop
        invariant
            consumer.wf(),
            cr == old(consumer).skips_cr(),
            start == old(consumer).pending(),
            advanced(old(consumer), consumer, k),
            whitespace_scan(start, cr) == shift(k, whitespace_scan(consumer.pending(), cr)),
        decreases consumer.pending().len(),
    {
        match consumer.peek() {
            None => {
                return Ok(());
            },
            Some(next) => {
                if next == '\n' || !is_whitespace(&next) {
                    return Ok(());
                }
            },
        }
        let ghost before = *consumer;
        let step = consumer.consume_and_ignore();
        proof {
            lemma_advanced_twice(old(consumer), &before, consumer, k, consume_len(before.pending(), cr));
            k = k + consume_len(before.pending(), cr);
        }
        if let Err(kind) = step {
            return Err(kind);
        }
    }
}

/// Reading while a predicate holds of the next character; at the end of the
/// text the predicate is asked about the NUL character.
pub open spec fn read_while(s: Seq<char>, cr: bool, p: spec_fn(char) -> bool) -> Scan<Seq<char>>
    decreases s.len(),
{
    if s.len() == 0 {
        if p('\0') {
            Scan { used: 0, value: Err(LexErrorKind::UnexpectedEof) }
        } else {
            Scan { used: 0, value: Ok(Seq::empty()) }
        }
    } else if !p(s[0]) {
        Scan { used: 0, value: Ok(Seq::empty()) }
    } else {
        match consume_char(s, cr) {
            None => Scan { used: s.len(), value: Err(LexErrorKind::UnexpectedEof) },
            Some(c) => prepend(
                c,
                consume_len(s, cr),
                read_while(s.skip(consume_len(s, cr) as int), cr, p),
            ),
        }
    }
}

/// `p` says what `predicate` answers.
pub open spec fn decides<F: Fn(&char) -> bool>(predicate: F, p: spec_fn(char) -> bool) -> bool {
    forall|c: char, b: bool| #[trigger] predicate.ensures((&c,), b) ==> b == p(c)
}

/// Reads characters while `predicate` holds of the next one. At the end of
/// the text the predicate is asked about the NUL character; where it holds
/// of that, the reading fails.
pub fn conditional_reader<C: Consumer, F: Fn(&char) -> bool>(consumer: &mut C, predicate: F) -> (r:
    Result<Vec<char>, LexErrorKind>)
    requires
        old(consumer).wf(),
        forall|c: char| #[trigger] predicate.requires((&c,)),
    ensures
        final(consumer).wf(),
        forall|p: spec_fn(char) -> bool|
            decides(predicate, p) ==> reads(
                old(consumer),
                final(consumer),
                #[trigger] read_while(old(consumer).pending(), old(consumer).skips_cr(), p),
                r,
            ),
{
    let mut chars: Vec<char> = Vec::new();
    let ghost cr = consumer.skips_cr();
    let ghost start = consumer.pending();
    let ghost k: nat = 0;
    proof {
        lemma_advanced_zero(old(consumer));
    }
    loop
        invariant
            consumer.wf(),
            cr == old(consumer).skips_cr(),
            start == old(consumer).pending(),
            advanced(old(consumer), consumer, k),
            forall|c: char| #[trigger] predicate.requires((&c,)),
            forall|p: spec_fn(char) -> bool|
                decides(predicate, p) ==> #[trigger] read_while(start, cr, p) == (Scan {
                    used: k + read_while(consumer.pending(), cr, p).used,
                    value: match read_while(consumer.pending(), cr, p).value {
                        Ok(text) => Ok(chars@ + text),
                        Err(kind) => Err(kind),
                    },
                }),
        decreases consumer.pending().len(),
    {
        let next = match consumer.peek() {
            Some(c) => c,
            None => '\0',
        };
        if !predicate(&next) {
            proof {
                assert forall|p: spec_fn(char) -> bool| decides(predicate, p) implies reads(
                    old(consumer),
                    consumer,
                    #[trigger] read_while(start, cr, p),
                    Ok(chars),
                ) by {
                    assert(!p(next));
                    assert(chars@ + Seq::<char>::empty() =~= chars@);
                }
            }
            return Ok(chars);
        }
        let ghost before = *consumer;
        let ghost sofar = chars@;
        let step = consumer.consume();
        proof {
            lemma_advanced_twice(old(consumer), &before, consumer, k, consume_len(before.pending(), cr));
        }
        match step {
            Ok(c) => {
                chars.push(c);
                proof {
                    assert forall|p: spec_fn(char) -> bool| decides(predicate, p) implies #[trigger] read_while(
                        start,
                        cr,
                        p,
                    ) == (Scan {
                        used: k + consume_len(before.pending(), cr) + read_while(
                            consumer.pending(),
                            cr,
                            p,
                        ).used,
                        value: match read_while(consumer.pending(), cr, p).value {
                            Ok(text) => Ok(chars@ + text),
                            Err(kind) => Err(kind),
                        },
                    }) by {
                        assert(p(next));
                        let rest = read_while(consumer.pending(), cr, p);
                        if rest.value is Ok {
                            assert(sofar + (seq![c] + rest.value->Ok_0) =~= chars@ + rest.value->Ok_0);
                        }
                    }
                    k = k + consume_len(before.pending(), cr);
                }
            },
            Err(kind) => {
                proof {
                    assert forall|p: spec_fn(char) -> bool| decides(predicate, p) implies reads(
                        old(consumer),
                        consumer,
                        #[trigger] read_while(start, cr, p),
                        Err(kind),
                    ) by {
                        assert(p(next));
                    }
                }
                return Err(kind);
            },
        }
    }
}

/// The characters of a numeric literal at the front of `s`.
pub open spec fn number_scan(s: Seq<char>, cr: bool) -> Scan<Seq<char>> {
    read_while(s, cr, |c: char| is_number_spec(c))
}

/// Reads the characters of a numeric literal.
pub fn read_number<C: Consumer>(consumer: &mut C) -> (r: Result<Vec<char>, LexErrorKind>)
    requires
        old(consumer).wf(),
    ensures
        final(consumer).wf(),
        reads(
            old(consumer),
            final(consumer),
            number_scan(old(consumer).pending(), old(consumer).skips_cr()),
            r,
        ),
{
    let r = conditional_reader(consumer, is_number);
    proof {
        assert(decides(is_number, |c: char| is_number_spec(c)));
    }
    r
}

/// The characters of an identifier at the front of `s`, its first character
/// having been looked at already.
pub open spec fn nomenclature_scan(s: Seq<char>, cr: bool) -> Scan<Seq<char>> {
    read_while(s, cr, |c: char| is_nomenclature_spec(c, false))
}

/// Reads the characters of an identifier.
pub fn read_nomenclature<C: Consumer>(consumer: &mut C) -> (r: Result<Vec<char>, LexErrorKind>)
    requires
        old(consumer).wf(),
    ensures
        final(consumer).wf(),
        reads(
            old(consumer),
            final(consumer),
            nomenclature_scan(old(consumer).pending(), old(consumer).skips_cr()),
            r,
        ),
{
    let inner = |c: &char| -> (b: bool)
        ensures
            b == is_nomenclature_spec(*c, false),
        { is_nomenclature(c, false) };
    let r = conditional_reader(consumer, inner);
    proof {
        assert(decides(inner, |c: char| is_nomenclature_spec(c, false)));
    }
    r
}

/// What was read so far, `acc` over `k` characters, followed by what `rest` says of the remainder.
pub open spec fn resume(acc: Seq<char>, k: nat, rest: Scan<Seq<char>>) -> Scan<Seq<char>> {
    Scan {
        used: k + rest.used,
        value: match rest.value {
            Ok(text) => Ok(acc + text),
            Err(kind) => Err(kind),
        },
    }
}

/// Resuming before a character was read is resuming after it.
pub proof fn lemma_resume_prepend(acc: Seq<char>, k: nat, c: char, n: nat, rest: Scan<Seq<char>>)
    ensures
        resume(acc, k, prepend(c, n, rest)) == resume(acc.push(c), k + n, rest),
{
    if rest.value is Ok {
        assert(acc + (seq![c] + rest.value->Ok_0) =~= acc.push(c) + rest.value->Ok_0);
    }
}

/// A consumer that passes over carriage returns never hands one out.
pub proof fn lemma_consume_char_not_cr(s: Seq<char>)
    ensures
        consume_char(s, true) != Some('\r'),
    decreases s.len(),
{
    if s.len() > 0 && s[0] == '\r' {
        lemma_consume_char_not_cr(s.skip(1));
        let k = cr_run(s.skip(1), true);
        if k < s.skip(1).len() {
            assert(s.skip(1)[k as int] == s[k as int + 1]);
        }
    }
}

/// A character other than a carriage return at the front is the one consumed.
pub proof fn lemma_consume_front(s: Seq<char>, cr: bool)
    requires
        s.len() > 0,
        !cr || s[0] != '\r',
    ensures
        consume_char(s, cr) == Some(s[0]),
        consume_len(s, cr) == 1,
{
}

/// Whether no quote stands behind the first character of `s`: a string
/// literal that opens at the front of `s` is not closed.
pub open spec fn unquoted(s: Seq<char>) -> bool {
    forall|i: int| 1 <= i < s.len() ==> s[i] != '"'
}

/// Whether the delimiter stands three times in a row at `i`.
pub open spec fn triple_at(s: Seq<char>, delimiter: char, i: int) -> bool {
    0 <= i && i + 2 < s.len() && s[i] == delimiter && s[i + 1] == delimiter && s[i + 2]
        == delimiter
}

/// Whether the delimiter nowhere stands three times in a row behind the
/// first character of `s`: a block that opens at the front of `s` is not closed.
pub open spec fn unclosed(s: Seq<char>, delimiter: char) -> bool {
    forall|i: int| 1 <= i ==> !triple_at(s, delimiter, i)
}

/// The body of a string literal, from behind the opening quote up to the
/// closing one. A backslash must be followed by a backslash or a quote, which
/// it stands for.
pub open spec fn string_body_scan(s: Seq<char>, cr: bool) -> Scan<Seq<char>>
    decreases s.len(),
{
    match consume_char(s, cr) {
        None => Scan { used: s.len(), value: Err(LexErrorKind::Unterminated) },
        Some(c) => {
            let n = consume_len(s, cr);
            let t = s.skip(n as int);
            if c == '"' {
                Scan { used: n, value: Ok(Seq::empty()) }
            } else if c == '\\' {
                if t.len() > 0 && (t[0] == '\\' || t[0] == '"') {
                    prepend(t[0], n + 1, string_body_scan(t.skip(1), cr))
                } else {
                    Scan { used: n, value: Err(LexErrorKind::MalformedEscape) }
                }
            } else {
                prepend(c, n, string_body_scan(t, cr))
            }
        },
    }
}

/// A string literal: one character, taken to be the opening quote, and the body.
pub open spec fn string_scan(s: Seq<char>, cr: bool) -> Scan<Seq<char>> {
    match consume_char(s, cr) {
        None => Scan { used: s.len(), value: Err(LexErrorKind::UnexpectedEof) },
        Some(_) => shift(consume_len(s, cr), string_body_scan(s.skip(consume_len(s, cr) as int), cr)),
    }
}

/// Reads a string literal and hands out what stands between its quotes,
/// escapes resolved. A literal that is not closed fails.
pub fn read_string<C: Consumer>(consumer: &mut C) -> (r: Result<Vec<char>, LexErrorKind>)
    requires
        old(consumer).wf(),
    ensures
        final(consumer).wf(),
        reads(
            old(consumer),
            final(consumer),
            string_scan(old(consumer).pending(), old(consumer).skips_cr()),
            r,
        ),
        unquoted(old(consumer).pending()) ==> r is Err,
{
    proof {
        if unquoted(consumer.pending()) {
            lemma_unterminated_string_fails(consumer.pending(), consumer.skips_cr());
        }
    }
    let mut chars: Vec<char> = Vec::new();
    let ghost cr = consumer.skips_cr();
    let ghost start = consumer.pending();
    let ghost k: nat = consume_len(start, cr);
    if let Err(kind) = consumer.consume_and_ignore() {
        return Err(kind);
    }
    let ghost body = consumer.pending();
    proof {
        assert(resume(chars@, 0, string_body_scan(body, cr)) == string_body_scan(body, cr)) by {
            if string_body_scan(body, cr).value is Ok {
                assert(chars@ + string_body_scan(body, cr).value->Ok_0 =~= string_body_scan(
                    body,
                    cr,
                ).value->Ok_0);
            }
        }
    }
    let ghost j: nat = 0;
    let ghost opened = *consumer;
    proof {
        lemma_advanced_zero(&opened);
    }
    loop
        invariant
            consumer.wf(),
            cr == old(consumer).skips_cr(),
            opened.skips_cr() == cr,
            start == old(consumer).pending(),
            body == opened.pending(),
            k == consume_len(start, cr),
            consume_char(start, cr) is Some,
            advanced(old(consumer), &opened, k),
            advanced(&opened, consumer, j),
            string_body_scan(body, cr) == resume(chars@, j, string_body_scan(consumer.pending(), cr)),
        decreases consumer.pending().len(),
    {
        let ghost before = *consumer;
        let step = consumer.consume();
        proof {
            lemma_advanced_twice(&opened, &before, consumer, j, consume_len(before.pending(), cr));
        }
        let next = match step {
            Ok(c) => c,
            Err(_) => {
                proof {
                    lemma_advanced_twice(
                        old(consumer),
                        &opened,
                        consumer,
                        k,
                        j + consume_len(before.pending(), cr),
                    );
                }
                return Err(LexErrorKind::Unterminated);
            },
        };
        if next == '"' {
            proof {
                lemma_advanced_twice(
                    old(consumer),
                    &opened,
                    consumer,
                    k,
                    j + consume_len(before.pending(), cr),
                );
                assert(chars@ + Seq::<char>::empty() =~= chars@);
            }
            return Ok(chars);
        } else if next == '\\' {
            let escaped = match consumer.peek() {
                Some(c) => c,
                None => '\0',
            };
            if consumer.peek().is_some() && (escaped == '\\' || escaped == '"') {
                let ghost middle = *consumer;
                proof {
                    lemma_consume_front(middle.pending(), cr);
                }
                let taken = consumer.consume();
                proof {
                    lemma_advanced_twice(
                        &opened,
                        &middle,
                        consumer,
                        j + consume_len(before.pending(), cr),
                        1,
                    );
                    lemma_resume_prepend(
                        chars@,
                        j,
                        escaped,
                        consume_len(before.pending(), cr) + 1,
                        string_body_scan(consumer.pending(), cr),
                    );
                    j = j + consume_len(before.pending(), cr) + 1;
                }
                chars.push(escaped);
            } else {
                proof {
                    lemma_advanced_twice(
                        old(consumer),
                        &opened,
                        consumer,
                        k,
                        j + consume_len(before.pending(), cr),
                    );
                }
                return Err(LexErrorKind::MalformedEscape);
            }
        } else {
            proof {
                lemma_resume_prepend(
                    chars@,
                    j,
                    next,
                    consume_len(before.pending(), cr),
                    string_body_scan(consumer.pending(), cr),
                );
                j = j + consume_len(before.pending(), cr);
            }
            chars.push(next);
        }
    }
}

/// Whether `c` indents a line: a blank or a tab.
pub open spec fn is_indent(c: char) -> bool {
    c == ' ' || c == '\t'
}

/// `text` without the line break that ends it. Blanks and tabs may stand
/// behind that line break, as the indentation of the closing delimiter does;
/// they stay. Where anything else follows the last line break, or where
/// there is none, the text stays as it is.
pub open spec fn trim_final_newline(text: Seq<char>) -> Seq<char>
    decreases text.len(),
{
    if text.len() == 0 {
        text
    } else if text.last() == '\n' {
        text.drop_last()
    } else if is_indent(text.last()) {
        trim_final_newline(text.drop_last()).push(text.last())
    } else {
        text
    }
}

/// Where indentation alone follows the line break at `i`, it is the one taken out.
pub proof fn lemma_trim_final_newline_at(text: Seq<char>, i: int)
    requires
        0 <= i < text.len(),
        text[i] == '\n',
        forall|j: int| i < j < text.len() ==> is_indent(text[j]),
    ensures
        trim_final_newline(text) == text.remove(i),
    decreases text.len(),
{
    if i == text.len() - 1 {
        assert(text.remove(i) =~= text.drop_last());
    } else {
        lemma_trim_final_newline_at(text.drop_last(), i);
        assert(text.drop_last().remove(i).push(text.last()) =~= text.remove(i));
    }
}

/// Where indentation alone stands from `i` on, and what stands in front of
/// `i` is neither a line break nor indentation, the text stays.
pub proof fn lemma_trim_final_newline_none(text: Seq<char>, i: int)
    requires
        0 <= i <= text.len(),
        forall|j: int| i <= j < text.len() ==> is_indent(text[j]),
        i > 0 ==> text[i - 1] != '\n' && !is_indent(text[i - 1]),
    ensures
        trim_final_newline(text) == text,
    decreases text.len(),
{
    if i < text.len() {
        lemma_trim_final_newline_none(text.drop_last(), i);
        assert(text.drop_last().push(text.last()) =~= text);
    }
}

/// How much is passed over to leave the rest of a line behind: everything up
/// to its line break, or past it where a carriage return hides it.
pub open spec fn discard_len(s: Seq<char>, cr: bool) -> nat
    decreases s.len(),
{
    if s.len() == 0 || s[0] == '\n' {
        0
    } else {
        match consume_char(s, cr) {
            None => s.len(),
            Some(c) => if c == '\n' {
                consume_len(s, cr)
            } else {
                consume_len(s, cr) + discard_len(s.skip(consume_len(s, cr) as int), cr)
            },
        }
    }
}

/// The text of a delimited block from its first line on, up to three
/// delimiters in a row; what follows them on their line is passed over.
pub open spec fn block_body_scan(s: Seq<char>, cr: bool, delimiter: char) -> Scan<Seq<char>>
    decreases s.len(),
{
    match consume_char(s, cr) {
        None => Scan { used: s.len(), value: Err(LexErrorKind::Unterminated) },
        Some(c) => {
            let n = consume_len(s, cr);
            let t = s.skip(n as int);
            if c == delimiter && t.len() >= 2 && t[0] == delimiter && t[1] == delimiter {
                Scan { used: n + 2 + discard_len(t.skip(2), cr), value: Ok(Seq::empty()) }
            } else {
                prepend(c, n, block_body_scan(t, cr, delimiter))
            }
        },
    }
}

/// `scan` with the line break that ends the text it found taken out.
pub open spec fn without_final_newline(scan: Scan<Seq<char>>) -> Scan<Seq<char>> {
    Scan {
        used: scan.used,
        value: match scan.value {
            Ok(text) => Ok(trim_final_newline(text)),
            Err(kind) => Err(kind),
        },
    }
}

/// The rest of the line that opens a delimited block, which must be blank,
/// and then the block's text.
pub open spec fn block_line_scan(s: Seq<char>, cr: bool, delimiter: char) -> Scan<Seq<char>> {
    let blank = whitespace_scan(s, cr);
    let t = s.skip(blank.used as int);
    match blank.value {
        Err(kind) => Scan { used: blank.used, value: Err(kind) },
        Ok(_) => if t.len() == 0 {
            Scan { used: blank.used, value: Err(LexErrorKind::UnexpectedEof) }
        } else if t[0] != '\n' {
            Scan { used: blank.used, value: Err(LexErrorKind::MissingNewline) }
        } else {
            shift(blank.used + 1, without_final_newline(block_body_scan(t.skip(1), cr, delimiter)))
        },
    }
}

/// A delimited block, `left` characters of its opening delimiter still to be passed over.
pub open spec fn block_open_scan(s: Seq<char>, cr: bool, delimiter: char, left: nat) -> Scan<
    Seq<char>,
>
    decreases left,
{
    if left == 0 {
        block_line_scan(s, cr, delimiter)
    } else {
        match consume_char(s, cr) {
            None => Scan { used: s.len(), value: Err(LexErrorKind::UnexpectedEof) },
            Some(_) => shift(
                consume_len(s, cr),
                block_open_scan(s.skip(consume_len(s, cr) as int), cr, delimiter, (left - 1) as nat),
            ),
        }
    }
}

/// A delimited block: three characters, taken to be the opening delimiter, a
/// blank rest of the line, and the text up to the closing delimiter.
pub open spec fn block_scan(s: Seq<char>, cr: bool, delimiter: char) -> Scan<Seq<char>> {
    block_open_scan(s, cr, delimiter, 3)
}

/// Passes over the rest of the line.
fn discard_line<C: Consumer>(consumer: &mut C)
    requires
        old(consumer).wf(),
    ensures
        final(consumer).wf(),
        advanced(
            old(consumer),
            final(consumer),
            discard_len(old(consumer).pending(), old(consumer).skips_cr()),
        ),
{
    let ghost cr = consumer.skips_cr();
    let ghost start = consumer.pending();
    let ghost k: nat = 0;
    proof {
        lemma_advanced_zero(old(consumer));
    }
    loop
        invariant
            consumer.wf(),
            cr == old(consumer).skips_cr(),
            start == old(consumer).pending(),
            advanced(old(consumer), consumer, k),
            discard_len(start, cr) == k + discard_len(consumer.pending(), cr),
        decreases consumer.pending().len(),
    {
        match consumer.peek() {
            None => {
                return ;
            },
            Some(next) => {
                if next == '\n' {
                    return ;
                }
            },
        }
        let ghost before = *consumer;
        let step = consumer.consume();
        proof {
            lemma_advanced_twice(old(consumer), &before, consumer, k, consume_len(before.pending(), cr));
            k = k + consume_len(before.pending(), cr);
        }
        match step {
            Ok(c) => {
                if c == '\n' {
                    return ;
                }
            },
            Err(_) => {
                return ;
            },
        }
    }
}

/// Takes the line break that ends `text` out of it; blanks and tabs behind
/// that line break stay.
fn remove_final_newline(text: &mut Vec<char>)
    ensures
        final(text)@ == trim_final_newline(old(text)@),
{
    let mut i: usize = text.len();
    while i > 0
        invariant
            i <= text.len(),
            *text == *old(text),
            forall|j: int| i <= j < text.len() ==> is_indent(text@[j]),
        decreases i,
    {
        let c = text[i - 1];
        if c == '\n' {
            proof {
                lemma_trim_final_newline_at(text@, i - 1);
            }
            text.remove(i - 1);
            return ;
        }
        if c != ' ' && c != '\t' {
            proof {
                lemma_trim_final_newline_none(text@, i as int);
            }
            return ;
        }
        i -= 1;
    }
    proof {
        lemma_trim_final_newline_none(text@, 0);
    }
}

/// Reads the text of a delimited block up to its closing delimiter, and
/// passes over the rest of the closing line.
fn read_block_body<C: Consumer>(consumer: &mut C, delimiter: char) -> (r: Result<
    Vec<char>,
    LexErrorKind,
>)
    requires
        old(consumer).wf(),
    ensures
        final(consumer).wf(),
        reads(
            old(consumer),
            final(consumer),
            block_body_scan(old(consumer).pending(), old(consumer).skips_cr(), delimiter),
            r,
        ),
{
    let mut chars: Vec<char> = Vec::new();
    let ghost cr = consumer.skips_cr();
    let ghost start = consumer.pending();
    let ghost k: nat = 0;
    proof {
        lemma_advanced_zero(old(consumer));
        let whole = block_body_scan(start, cr, delimiter);
        if whole.value is Ok {
            assert(chars@ + whole.value->Ok_0 =~= whole.value->Ok_0);
        }
    }
    loop
        invariant
            consumer.wf(),
            cr == old(consumer).skips_cr(),
            start == old(consumer).pending(),
            advanced(old(consumer), consumer, k),
            block_body_scan(start, cr, delimiter) == resume(
                chars@,
                k,
                block_body_scan(consumer.pending(), cr, delimiter),
            ),
        decreases consumer.pending().len(),
    {
        let ghost before = *consumer;
        let step = consumer.consume();
        let ghost n = consume_len(before.pending(), cr);
        proof {
            lemma_advanced_twice(old(consumer), &before, consumer, k, n);
        }
        let current = match step {
            Ok(c) => c,
            Err(_) => {
                return Err(LexErrorKind::Unterminated);
            },
        };
        if current == delimiter {
            let second = consumer.look_ahead(1);
            let third = consumer.look_ahead(2);
            if second == Some(delimiter) && third == Some(delimiter) {
                let ghost closing = *consumer;
                proof {
                    if cr {
                        lemma_consume_char_not_cr(before.pending());
                    }
                    lemma_consume_front(closing.pending(), cr);
                    lemma_consume_front(closing.pending().skip(1), cr);
                }
                let _ = consumer.consume_and_ignore();
                let ghost half = *consumer;
                let _ = consumer.consume_and_ignore();
                let ghost closed = *consumer;
                proof {
                    lemma_advanced_twice(&closing, &half, &closed, 1, 1);
                    lemma_advanced_twice(old(consumer), &closing, &closed, k + n, 2);
                }
                discard_line(consumer);
                proof {
                    lemma_advanced_twice(
                        old(consumer),
                        &closed,
                        consumer,
                        k + n + 2,
                        discard_len(closed.pending(), cr),
                    );
                    assert(chars@ + Seq::<char>::empty() =~= chars@);
                }
                return Ok(chars);
            }
        }
        proof {
            lemma_resume_prepend(
                chars@,
                k,
                current,
                n,
                block_body_scan(consumer.pending(), cr, delimiter),
            );
            k = k + n;
        }
        chars.push(current);
    }
}

/// Reads the rest of the line that opens a delimited block, and the block behind it.
fn read_block_line<C: Consumer>(consumer: &mut C, delimiter: char) -> (r: Result<
    Vec<char>,
    LexErrorKind,
>)
    requires
        old(consumer).wf(),
    ensures
        final(consumer).wf(),
        reads(
            old(consumer),
            final(consumer),
            block_line_scan(old(consumer).pending(), old(consumer).skips_cr(), delimiter),
            r,
        ),
{
    let ghost cr = consumer.skips_cr();
    let ghost used = whitespace_scan(consumer.pending(), cr).used;
    let blank = scan_whitespace(consumer);
    if let Err(kind) = blank {
        return Err(kind);
    }
    let ghost blanked = *consumer;
    match consumer.peek() {
        Some(next) => {
            if next != '\n' {
                return Err(LexErrorKind::MissingNewline);
            }
            proof {
                lemma_consume_front(blanked.pending(), cr);
            }
            let _ = consumer.consume_and_ignore();
        },
        None => {
            return Err(LexErrorKind::UnexpectedEof);
        },
    }
    let ghost inside = *consumer;
    proof {
        lemma_advanced_twice(old(consumer), &blanked, &inside, used, 1);
    }
    let body = read_block_body(consumer, delimiter);
    proof {
        lemma_advanced_twice(
            old(consumer),
            &inside,
            consumer,
            used + 1,
            block_body_scan(inside.pending(), cr, delimiter).used,
        );
    }
    match body {
        Ok(text) => {
            let mut text = text;
            remove_final_newline(&mut text);
            Ok(text)
        },
        Err(kind) => Err(kind),
    }
}

/// Passes over `left` characters of an opening delimiter and reads the block behind it.
fn read_block_open<C: Consumer>(consumer: &mut C, delimiter: char, left: u8) -> (r: Result<
    Vec<char>,
    LexErrorKind,
>)
    requires
        old(consumer).wf(),
    ensures
        final(consumer).wf(),
        reads(
            old(consumer),
            final(consumer),
            block_open_scan(old(consumer).pending(), old(consumer).skips_cr(), delimiter, left as nat),
            r,
        ),
    decreases left,
{
    if left == 0 {
        return read_block_line(consumer, delimiter);
    }
    let ghost cr = consumer.skips_cr();
    let ghost n = consume_len(consumer.pending(), cr);
    if let Err(kind) = consumer.consume_and_ignore() {
        return Err(kind);
    }
    let ghost passed = *consumer;
    let r = read_block_open(consumer, delimiter, left - 1);
    proof {
        lemma_advanced_twice(
            old(consumer),
            &passed,
            consumer,
            n,
            block_open_scan(passed.pending(), cr, delimiter, (left - 1) as nat).used,
        );
    }
    r
}

/// Reads a delimited block, the opening delimiter of which is in front. A
/// block that is not closed fails.
pub fn read_delimited_block<C: Consumer>(consumer: &mut C, delimiter: char) -> (r: Result<
    Vec<char>,
    LexErrorKind,
>)
    requires
        old(consumer).wf(),
    ensures
        final(consumer).wf(),
        reads(
            old(consumer),
            final(consumer),
            block_scan(old(consumer).pending(), old(consumer).skips_cr(), delimiter),
            r,
        ),
        unclosed(old(consumer).pending(), delimiter) ==> r is Err,
{
    proof {
        if unclosed(consumer.pending(), delimiter) {
            lemma_unterminated_block_fails(consumer.pending(), consumer.skips_cr(), delimiter);
        }
    }
    read_block_open(consumer, delimiter, 3)
}

/// The characters up to the next line break, which must come before the text ends.
pub open spec fn line_scan(s: Seq<char>, cr: bool) -> Scan<Seq<char>> {
    read_while(s, cr, |c: char| c != '\n')
}

/// Reads the characters up to the next line break.
fn read_line<C: Consumer>(consumer: &mut C) -> (r: Result<Vec<char>, LexErrorKind>)
    requires
        old(consumer).wf(),
    ensures
        final(consumer).wf(),
        reads(
            old(consumer),
            final(consumer),
            line_scan(old(consumer).pending(), old(consumer).skips_cr()),
            r,
        ),
{
    let inner = |c: &char| -> (b: bool)
        ensures
            b == (*c != '\n'),
        { *c != '\n' };
    let r = conditional_reader(consumer, inner);
    proof {
        assert(decides(inner, |c: char| c != '\n'));
    }
    r
}

/// Whether a delimited block opens at the front of `s`: the first character
/// is followed by the delimiter twice.
pub open spec fn opens_block(s: Seq<char>, delimiter: char) -> bool {
    s.len() >= 3 && s[1] == delimiter && s[2] == delimiter
}

/// Whether a delimited block opens in front of the consumer.
fn at_block<C: Consumer>(consumer: &C, delimiter: char) -> (r: bool)
    requires
        consumer.wf(),
    ensures
        r == opens_block(consumer.pending(), delimiter),
{
    consumer.look_ahead(2) == Some(delimiter) && consumer.look_ahead(3) == Some(delimiter)
}

/// A comment: a delimited block of `#`, or one character, taken to be the
/// `#`, and the rest of the line.
pub open spec fn comment_scan(s: Seq<char>, cr: bool) -> Scan<Seq<char>> {
    if opens_block(s, '#') {
        block_scan(s, cr, '#')
    } else {
        match consume_char(s, cr) {
            None => Scan { used: s.len(), value: Err(LexErrorKind::UnexpectedEof) },
            Some(_) => shift(consume_len(s, cr), line_scan(s.skip(consume_len(s, cr) as int), cr)),
        }
    }
}

/// Reads a comment: a delimited block, or the rest of the line. A block that
/// is not closed fails.
pub fn read_comment<C: Consumer>(consumer: &mut C) -> (r: Result<Vec<char>, LexErrorKind>)
    requires
        old(consumer).wf(),
    ensures
        final(consumer).wf(),
        reads(
            old(consumer),
            final(consumer),
            comment_scan(old(consumer).pending(), old(consumer).skips_cr()),
            r,
        ),
        opens_block(old(consumer).pending(), '#') && unclosed(old(consumer).pending(), '#')
            ==> r is Err,
{
    if at_block(consumer, '#') {
        return read_delimited_block(consumer, '#');
    }
    let ghost cr = consumer.skips_cr();
    let ghost n = consume_len(consumer.pending(), cr);
    if let Err(kind) = consumer.consume_and_ignore() {
        return Err(kind);
    }
    let ghost passed = *consumer;
    let r = read_line(consumer);
    proof {
        lemma_advanced_twice(old(consumer), &passed, consumer, n, line_scan(passed.pending(), cr).used);
    }
    r
}

/// What follows the blank space at the front of `s`, up to the next line break.
pub open spec fn blank_line_scan(s: Seq<char>, cr: bool) -> Scan<Seq<char>> {
    let blank = whitespace_scan(s, cr);
    match blank.value {
        Err(kind) => Scan { used: blank.used, value: Err(kind) },
        Ok(_) => shift(blank.used, line_scan(s.skip(blank.used as int), cr)),
    }
}

/// A script: a delimited block, or one character, taken to be the delimiter,
/// blank space, and the rest of the line.
pub open spec fn script_scan(s: Seq<char>, cr: bool, delimiter: char) -> Scan<Seq<char>> {
    if opens_block(s, delimiter) {
        block_scan(s, cr, delimiter)
    } else {
        match consume_char(s, cr) {
            None => Scan { used: s.len(), value: Err(LexErrorKind::UnexpectedEof) },
            Some(_) => shift(
                consume_len(s, cr),
                blank_line_scan(s.skip(consume_len(s, cr) as int), cr),
            ),
        }
    }
}

/// Reads a script: a delimited block, or the rest of the line without the
/// blank space in front of it. A block that is not closed fails.
pub fn read_script<C: Consumer>(consumer: &mut C, delimiter: char) -> (r: Result<
    Vec<char>,
    LexErrorKind,
>)
    requires
        old(consumer).wf(),
    ensures
        final(consumer).wf(),
        reads(
            old(consumer),
            final(consumer),
            script_scan(old(consumer).pending(), old(consumer).skips_cr(), delimiter),
            r,
        ),
        opens_block(old(consumer).pending(), delimiter) && unclosed(
            old(consumer).pending(),
            delimiter,
        ) ==> r is Err,
{
    if at_block(consumer, delimiter) {
        return read_delimited_block(consumer, delimiter);
    }
    let ghost cr = consumer.skips_cr();
    let ghost n = consume_len(consumer.pending(), cr);
    if let Err(kind) = consumer.consume_and_ignore() {
        return Err(kind);
    }
    let ghost passed = *consumer;
    let ghost m = whitespace_scan(passed.pending(), cr).used;
    let blank = scan_whitespace(consumer);
    let ghost blanked = *consumer;
    proof {
        lemma_advanced_twice(old(consumer), &passed, &blanked, n, m);
    }
    if let Err(kind) = blank {
        return Err(kind);
    }
    let r = read_line(consumer);
    proof {
        lemma_advanced_twice(
            old(consumer),
            &blanked,
            consumer,
            n + m,
            line_scan(blanked.pending(), cr).used,
        );
    }
    r
}

/// Help text with its escapes expanded: `\n`, `\r` and `\e` stand for a line
/// feed, a carriage return and the escape character; any other character
/// behind a backslash stays as written, backslash included. A backslash at
/// the very end is an error.
pub open spec fn expand_escapes(text: Seq<char>) -> Result<Seq<char>, LexErrorKind>
    decreases text.len(),
{
    if text.len() == 0 {
        Ok(Seq::empty())
    } else if text[0] != '\\' {
        match expand_escapes(text.skip(1)) {
            Ok(rest) => Ok(seq![text[0]] + rest),
            Err(kind) => Err(kind),
        }
    } else if text.len() == 1 {
        Err(LexErrorKind::UnexpectedEof)
    } else {
        match expand_escapes(text.skip(2)) {
            Ok(rest) => Ok(escape(text[1]) + rest),
            Err(kind) => Err(kind),
        }
    }
}

/// What a backslash and the character `c` behind it stand for in help text.
pub open spec fn escape(c: char) -> Seq<char> {
    if c == 'n' {
        seq!['\n']
    } else if c == 'r' {
        seq!['\r']
    } else if c == 'e' {
        seq!['\x1b']
    } else {
        seq!['\\', c]
    }
}

/// What converting the escapes of a reading gives: an error stays, a text is expanded.
pub open spec fn convert_spec(parsed: Result<Seq<char>, LexErrorKind>) -> Result<
    Seq<char>,
    LexErrorKind,
> {
    match parsed {
        Ok(text) => expand_escapes(text),
        Err(kind) => Err(kind),
    }
}

/// Expands the escapes of help text that was read; a failure to read stays as it is.
pub fn convert_help_block_escapes(parsed: Result<Vec<char>, LexErrorKind>) -> (r: Result<
    Vec<char>,
    LexErrorKind,
>)
    ensures
        match convert_spec(
            match parsed {
                Ok(text) => Ok(text@),
                Err(kind) => Err(kind),
            },
        ) {
            Ok(text) => r is Ok && r->Ok_0@ == text,
            Err(kind) => r == Err::<Vec<char>, LexErrorKind>(kind),
        },
{
    let text = match parsed {
        Ok(text) => text,
        Err(kind) => {
            return Err(kind);
        },
    };
    let mut cons = VecCharConsumer::new(&text);
    let mut result: Vec<char> = Vec::new();
    proof {
        let whole = expand_escapes(text@);
        if whole is Ok {
            assert(result@ + whole->Ok_0 =~= whole->Ok_0);
        }
    }
    loop
        invariant
            cons.wf(),
            parsed == Ok::<Vec<char>, LexErrorKind>(text),
            expand_escapes(text@) == match expand_escapes(cons.pending()) {
                Ok(rest) => Ok::<Seq<char>, LexErrorKind>(result@ + rest),
                Err(kind) => Err(kind),
            },
        decreases cons.pending().len(),
    {
        let ghost before = cons.pending();
        let ghost sofar = result@;
        let mut next = match cons.consume() {
            Ok(c) => c,
            Err(_) => {
                proof {
                    assert(result@ + Seq::<char>::empty() =~= result@);
                }
                return Ok(result);
            },
        };
        proof {
            lemma_consume_front(before, false);
        }
        if next != '\\' {
            result.push(next);
            proof {
                let rest = expand_escapes(cons.pending());
                if rest is Ok {
                    assert(sofar + (seq![next] + rest->Ok_0) =~= result@ + rest->Ok_0);
                }
            }
            continue ;
        }
        let ghost middle = cons.pending();
        next = match cons.consume() {
            Ok(c) => c,
            Err(kind) => {
                return Err(kind);
            },
        };
        proof {
            lemma_consume_front(middle, false);
            assert(before.skip(1).skip(1) =~= before.skip(2));
            assert(before[1] == middle[0]);
        }
        if next == 'n' {
            result.push('\x0a');
        } else if next == 'r' {
            result.push('\x0d');
        } else if next == 'e' {
            result.push('\x1B');
        } else {
            result.push('\\');
            result.push(next);
        }
        proof {
            let rest = expand_escapes(cons.pending());
            assert(result@ =~= sofar + escape(next));
            if rest is Ok {
                assert(sofar + (escape(next) + rest->Ok_0) =~= result@ + rest->Ok_0);
            }
        }
    }
}

/// `scan` with the escapes of the text it found expanded.
pub open spec fn with_escapes(scan: Scan<Seq<char>>) -> Scan<Seq<char>> {
    Scan { used: scan.used, value: convert_spec(scan.value) }
}

/// A help block: a script of `@` with its escapes expanded.
pub open spec fn help_scan(s: Seq<char>, cr: bool) -> Scan<Seq<char>> {
    with_escapes(script_scan(s, cr, '@'))
}

/// Reads a help block: a script of `@`, its escapes expanded. A block that is
/// not closed fails.
pub fn read_help_block<C: Consumer>(consumer: &mut C) -> (r: Result<Vec<char>, LexErrorKind>)
    requires
        old(consumer).wf(),
    ensures
        final(consumer).wf(),
        reads(
            old(consumer),
            final(consumer),
            help_scan(old(consumer).pending(), old(consumer).skips_cr()),
            r,
        ),
        opens_block(old(consumer).pending(), '@') && unclosed(old(consumer).pending(), '@')
            ==> r is Err,
{
    convert_help_block_escapes(read_script(consumer, '@'))
}

/// A consumer over borrowed characters that hands out every one of them.
pub struct VecCharConsumer<'a> {
    data: &'a Vec<char>,
    position: usize,
}

impl<'a> VecCharConsumer<'a> {
    /// A consumer in front of the first of the characters.
    pub fn new(data: &'a Vec<char>) -> (r: VecCharConsumer<'a>)
        ensures
            r.wf(),
            r.consumed() == Seq::<char>::empty(),
            r.pending() == data@,
    {
        VecCharConsumer { data, position: 0 }
    }
}

impl<'a> Consumer for VecCharConsumer<'a> {
    closed spec fn consumed(&self) -> Seq<char> {
        self.data@.take(self.position as int)
    }

    closed spec fn pending(&self) -> Seq<char> {
        self.data@.skip(self.position as int)
    }

    open spec fn skips_cr(&self) -> bool {
        false
    }

    closed spec fn wf(&self) -> bool {
        self.position <= self.data@.len()
    }

    fn consume(&mut self) -> (r: Result<char, LexErrorKind>) {
        if self.position < self.data.len() {
            let c = self.data[self.position];
            proof {
                assert(cr_run(old(self).pending(), false) == 0);
                assert(self.data@.skip(self.position as int + 1) =~= self.data@.skip(
                    self.position as int,
                ).skip(1));
                assert(self.data@.take(self.position as int + 1) =~= self.data@.take(
                    self.position as int,
                ) + self.data@.skip(self.position as int).take(1));
            }
            self.position += 1;
            Ok(c)
        } else {
            proof {
                assert(self.pending().len() == 0);
                assert(cr_run(self.pending(), false) == 0);
                assert(self.pending() =~= self.pending().skip(0));
                assert(self.consumed() =~= self.consumed() + self.pending().take(0));
            }
            Err(LexErrorKind::UnexpectedEof)
        }
    }

    fn consume_and_ignore(&mut self) -> (r: Result<(), LexErrorKind>) {
        match self.consume() {
            Ok(_) => Ok(()),
            Err(e) => Err(e),
        }
    }

    fn peek(&self) -> (r: Option<char>) {
        self.look_ahead(1)
    }

    fn look_ahead(&self, ahead: usize) -> (r: Option<char>) {
        if ahead - 1 < self.data.len() - self.position {
            Some(self.data[self.position + (ahead - 1)])
        } else {
            None
        }
    }
}

} // verus!
