use crate::error::LexError;
use crate::lexer::token::{Lexeme, Token, TokenType, TokenView, Tokenizer};
use vstd::prelude::*;

verus! {

/// The answer that hands out `token` at the start of the text.
pub open spec fn given(token: TokenView) -> Lexeme {
    Lexeme { result: Ok(token), line: 0, column: 0 }
}

/// The answers that hand out `tokens` in order, and the end of the text after them.
pub open spec fn replay(tokens: Seq<TokenView>) -> Seq<Lexeme> {
    Seq::new(tokens.len(), |i: int| given(tokens[i])).push(
        given(TokenView { ttype: TokenType::EOF, value: None }),
    )
}

/// A tokenizer that hands out the tokens of a list, and the end of the text
/// after them. It stands at line and column zero throughout.
pub struct VecTokenizer {
    filename: String,
    /// The tokens still to come, the next one last.
    stack: Vec<Token>,
    end: Token,
}

impl VecTokenizer {
    /// The tokens still to come, the next one first.
    pub closed spec fn remaining(&self) -> Seq<TokenView> {
        Seq::new(self.stack@.len(), |i: int| self.stack@[self.stack@.len() - 1 - i]@)
    }

    /// A tokenizer in front of the first of the tokens; `filename` names
    /// their source in messages.
    pub fn new(filename: &str, tokens: Vec<Token>) -> (r: VecTokenizer)
        ensures
            r.wf(),
            r.filename() == filename@,
            r.remaining() == Seq::new(tokens@.len(), |i: int| tokens@[i]@),
            r.upcoming() == replay(Seq::new(tokens@.len(), |i: int| tokens@[i]@)),
    {
        let mut tokens = tokens;
        let mut stack: Vec<Token> = Vec::new();
        let ghost all = tokens@;
        while tokens.len() > 0
            invariant
                tokens@.len() + stack@.len() == all.len(),
                tokens@ == all.take(tokens@.len() as int),
                forall|i: int|
                    0 <= i < stack@.len() ==> #[trigger] stack@[i] == all[all.len() - 1 - i],
            decreases tokens.len(),
        {
            let token = tokens.pop().unwrap();
            stack.push(token);
            proof {
                assert(tokens@ =~= all.take(tokens@.len() as int));
            }
        }
        let r = VecTokenizer {
            filename: filename.to_owned(),
            stack,
            end: Token::sym(TokenType::EOF),
        };
        proof {
            assert(r.remaining() =~= Seq::new(all.len(), |i: int| all[i]@));
        }
        r
    }
}

impl Tokenizer for VecTokenizer {
    closed spec fn wf(&self) -> bool {
        self.end@ == (TokenView { ttype: TokenType::EOF, value: None })
    }

    open spec fn upcoming(&self) -> Seq<Lexeme> {
        replay(self.remaining())
    }

    closed spec fn filename(&self) -> Seq<char> {
        self.filename@
    }

    open spec fn lineno(&self) -> nat {
        0
    }

    open spec fn charno(&self) -> nat {
        0
    }

    proof fn upcoming_ends(&self) {
    }

    fn peek_token(&mut self) -> (r: Result<&Token, LexError>) {
        let n = self.stack.len();
        if n > 0 {
            Ok(&self.stack[n - 1])
        } else {
            Ok(&self.end)
        }
    }

    fn next_token(&mut self) -> (r: Result<Token, LexError>) {
        let ghost before = self.remaining();
        match self.stack.pop() {
            Some(token) => {
                proof {
                    assert(self.remaining() =~= before.skip(1));
                    assert(replay(before).skip(1) =~= replay(before.skip(1)));
                }
                Ok(token)
            },
            None => Ok(Token::sym(TokenType::EOF)),
        }
    }

    fn get_filename(&self) -> (r: &str) {
        self.filename.as_str()
    }

    fn get_lineno(&self) -> (r: usize) {
        0
    }

    fn get_charno(&self) -> (r: usize) {
        0
    }
}

} // verus!
