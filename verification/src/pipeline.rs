//! The whole way from source text to a finished run.

use crate::runtime::{run, ExecError, ExecErrorView, Executor, ExecutorView};
use crate::scanner::{split_words, Scanner};
use crate::text::texts;
use crate::tokenize::{
    feed_all, token_views, Token, TokenView, TokenizeError, TokenizeErrorView, Tokenizer,
};
use crate::tokenize_laws::lemma_feed_all_joined;
use vstd::prelude::*;

verus! {

/// Why a text could not be run to its end.
#[derive(Debug)]
pub enum InterpretError {
    /// A word was refused.
    Tokenize(TokenizeError),
    /// A statement failed.
    Execute(ExecError),
}

pub enum InterpretErrorView {
    Tokenize(TokenizeErrorView),
    Execute(ExecErrorView),
}

impl InterpretErrorView {
    /// The text that describes the error.
    pub open spec fn message(self) -> Seq<char> {
        match self {
            InterpretErrorView::Tokenize(e) => e.message(),
            InterpretErrorView::Execute(e) => e.message(),
        }
    }
}

impl View for InterpretError {
    type V = InterpretErrorView;

    open spec fn view(&self) -> InterpretErrorView {
        match self {
            InterpretError::Tokenize(e) => InterpretErrorView::Tokenize(e@),
            InterpretError::Execute(e) => InterpretErrorView::Execute(e@),
        }
    }
}

impl InterpretError {
    /// The text that describes the error.
    pub fn message(&self) -> (r: String)
        ensures
            r@ == self@.message(),
    {
        match self {
            InterpretError::Tokenize(e) => e.message(),
            InterpretError::Execute(e) => e.message(),
        }
    }
}

/// The tokens that the words of `text` give, fed in order to a new tokenizer,
/// or the error of the first word that is refused.
pub open spec fn tokens_of(text: Seq<char>) -> Result<Seq<TokenView>, TokenizeErrorView> {
    match feed_all(Tokenizer::initial(), split_words(text)) {
        Ok(end) => Ok(end.tokens),
        Err(e) => Err(e),
    }
}

/// The executor's state after the run of the tokens of `text` from an empty
/// environment, or the error that stopped the tokenizer or the run.
pub open spec fn interpreted(text: Seq<char>) -> Result<ExecutorView, InterpretErrorView> {
    match tokens_of(text) {
        Err(e) => Err(InterpretErrorView::Tokenize(e)),
        Ok(tokens) => {
            let end = run(tokens, Map::empty());
            match end.status {
                Ok(_) => Ok(ExecutorView { tokens: end.tokens, variables: end.variables }),
                Err(e) => Err(InterpretErrorView::Execute(e)),
            }
        },
    }
}

/// Splits `text` into words and tokenizes them.
pub fn tokenize(text: String) -> (r: Result<Vec<Token>, TokenizeError>)
    ensures
        match r {
            Ok(tokens) => tokens_of(text@) == Ok::<_, TokenizeErrorView>(token_views(tokens@)),
            Err(e) => tokens_of(text@) == Err::<Seq<TokenView>, _>(e@),
        },
{
    let scanner = Scanner::new(text);
    let mut tokenizer = Tokenizer::new();
    let ghost words = texts(scanner.text@);
    for word in it: scanner.text
        invariant
            texts(it.seq()) == words,
            words == split_words(text@),
            feed_all(Tokenizer::initial(), words.take(it.index())) == Ok::<_, TokenizeErrorView>(
                tokenizer@,
            ),
    {
        let ghost fed = words.take(it.index() + 1);
        assert(fed.drop_last() == words.take(it.index()));
        match tokenizer.add_token(word) {
            Ok(_) => {},
            Err(e) => {
                proof {
                    assert(fed + words.skip(it.index() + 1) == words);
                    lemma_feed_all_joined(Tokenizer::initial(), fed, words.skip(it.index() + 1));
                }
                return Err(e);
            },
        }
    }
    assert(words.take(words.len() as int) == words);
    Ok(tokenizer.into_tokens())
}

/// Tokenizes `text` and runs it from an empty environment. The executor that
/// comes back holds the bindings of the finished run.
pub fn interpret(text: String) -> (r: Result<Executor, InterpretError>)
    ensures
        match r {
            Ok(e) => interpreted(text@) == Ok::<_, InterpretErrorView>(e@),
            Err(e) => interpreted(text@) == Err::<ExecutorView, _>(e@),
        },
{
    let tokens = match tokenize(text) {
        Ok(tokens) => tokens,
        Err(e) => {
            return Err(InterpretError::Tokenize(e));
        },
    };
    let mut executor = Executor::new(tokens);
    match executor.execute() {
        Ok(_) => Ok(executor),
        Err(e) => Err(InterpretError::Execute(e)),
    }
}

} // verus!
