use crate::error::LexErrorKind;
use crate::lexer::lexers::{cr_run, Consumer};
use vstd::prelude::*;

verus! {

/// How many line breaks `s` holds.
pub open spec fn newline_count(s: Seq<char>) -> nat
    decreases s.len(),
{
    if s.len() == 0 {
        0
    } else {
        newline_count(s.drop_last()) + if s.last() == '\n' {
            1nat
        } else {
            0nat
        }
    }
}

/// The line that a reader stands on after passing over `s`, counted from one.
pub open spec fn line_after(s: Seq<char>) -> nat {
    1 + newline_count(s)
}

/// How many characters of `s` stand behind its last line break.
pub open spec fn column_after(s: Seq<char>) -> nat
    decreases s.len(),
{
    if s.len() == 0 || s.last() == '\n' {
        0
    } else {
        column_after(s.drop_last()) + 1
    }
}

/// Neither count exceeds the length of the text.
pub proof fn lemma_position_bounds(s: Seq<char>)
    ensures
        newline_count(s) <= s.len(),
        column_after(s) <= s.len(),
    decreases s.len(),
{
    if s.len() > 0 {
        lemma_position_bounds(s.drop_last());
    }
}

/// A consumer that owns its text, passes over carriage returns, and keeps
/// count of the line and column it stands on.
pub struct SourceConsumer {
    source: Vec<char>,
    index: usize,
    row: usize,
    col: usize,
}

impl SourceConsumer {
    /// The whole text, passed over or not.
    pub closed spec fn text(&self) -> Seq<char> {
        self.source@
    }

    /// A consumer in front of the first character of the text, on line one.
    pub fn new(source: Vec<char>) -> (r: SourceConsumer)
        requires
            source@.len() < usize::MAX,
        ensures
            r.wf(),
            r.skips_cr(),
            r.consumed() == Seq::<char>::empty(),
            r.pending() == source@,
    {
        let r = SourceConsumer { source, index: 0, row: 1, col: 0 };
        proof {
            assert(r.source@.take(0) =~= Seq::<char>::empty());
            assert(r.source@.skip(0) =~= r.source@);
        }
        r
    }

    /// How many characters were passed over.
    pub fn position(&self) -> (r: usize)
        requires
            self.wf(),
        ensures
            r == self.consumed().len(),
    {
        self.index
    }

    /// The line the consumer stands on, counted from one.
    pub fn line(&self) -> (r: usize)
        requires
            self.wf(),
        ensures
            r == line_after(self.consumed()),
    {
        self.row
    }

    /// How many characters of the current line were passed over.
    pub fn column(&self) -> (r: usize)
        requires
            self.wf(),
        ensures
            r == column_after(self.consumed()),
    {
        self.col
    }

    /// Puts `c` in the place of the next character.
    pub fn replace_next(&mut self, c: char)
        requires
            old(self).wf(),
            old(self).pending().len() > 0,
        ensures
            final(self).wf(),
            final(self).consumed() == old(self).consumed(),
            final(self).pending() == old(self).pending().update(0, c),
    {
        self.source.set(self.index, c);
        proof {
            assert(self.source@.take(self.index as int) =~= old(self).source@.take(self.index as int));
            assert(self.source@.skip(self.index as int) =~= old(self).source@.skip(
                self.index as int,
            ).update(0, c));
        }
    }
}

impl Consumer for SourceConsumer {
    closed spec fn consumed(&self) -> Seq<char> {
        self.source@.take(self.index as int)
    }

    closed spec fn pending(&self) -> Seq<char> {
        self.source@.skip(self.index as int)
    }

    open spec fn skips_cr(&self) -> bool {
        true
    }

    closed spec fn wf(&self) -> bool {
        &&& self.index <= self.source@.len()
        &&& self.source@.len() < usize::MAX
        &&& self.row == line_after(self.source@.take(self.index as int))
        &&& self.col == column_after(self.source@.take(self.index as int))
    }

    fn consume(&mut self) -> (r: Result<char, LexErrorKind>) {
        let ghost start = self.index;
        proof {
            assert(old(self).pending().skip(0) =~= old(self).pending());
        }
        loop
            invariant
                self.wf(),
                self.source == old(self).source,
                start == old(self).index,
                start <= self.index <= self.source@.len(),
                cr_run(old(self).pending(), true) == (self.index - start) + cr_run(
                    self.pending(),
                    true,
                ),
            decreases self.source@.len() - self.index,
        {
            if self.index >= self.source.len() {
                proof {
                    assert(cr_run(self.pending(), true) == 0);
                    assert(old(self).pending().skip(old(self).pending().len() as int)
                        =~= self.pending());
                    assert(old(self).consumed() + old(self).pending().take(
                        old(self).pending().len() as int,
                    ) =~= self.consumed());
                }
                return Err(LexErrorKind::UnexpectedEof);
            }
            let value = self.source[self.index];
            proof {
                let before = self.source@.take(self.index as int);
                let after = self.source@.take(self.index + 1);
                assert(after.drop_last() =~= before);
                assert(after.last() == value);
                lemma_position_bounds(before);
                assert(self.pending()[0] == value);
                assert(self.pending().skip(1) =~= self.source@.skip(self.index + 1));
            }
            self.index += 1;
            self.col += 1;
            if value == '\r' {
                continue ;
            }
            if value == '\n' {
                self.col = 0;
                self.row += 1;
            }
            proof {
                let n = (self.index - start) as int;
                assert(old(self).pending()[n - 1] == value);
                assert(old(self).pending().skip(n) =~= self.pending());
                assert(old(self).consumed() + old(self).pending().take(n) =~= self.consumed());
            }
            return Ok(value);
        }
    }

    fn consume_and_ignore(&mut self) -> (r: Result<(), LexErrorKind>) {
        match self.consume() {
            Ok(_) => Ok(()),
            Err(kind) => Err(kind),
        }
    }

    fn peek(&self) -> (r: Option<char>) {
        if self.index < self.source.len() {
            Some(self.source[self.index])
        } else {
            None
        }
    }

    fn look_ahead(&self, ahead: usize) -> (r: Option<char>) {
        if ahead - 1 < self.source.len() - self.index {
            Some(self.source[self.index + (ahead - 1)])
        } else {
            None
        }
    }
}

} // verus!
