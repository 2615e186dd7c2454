//! Splits source text into words.

use crate::text::texts;
use vstd::prelude::*;

verus! {

/// The characters that separate one word from the next.
pub open spec fn is_delimiter(c: char) -> bool {
    c == ' ' || c == '\n' || c == ';' || c == ','
}

/// What a left-to-right pass over some text has found: the words that a
/// delimiter has closed, and the characters of the word still open.
pub struct Scan {
    pub done: Seq<Seq<char>>,
    pub current: Seq<char>,
}

impl Scan {
    /// Closes the open word, if there is one.
    pub open spec fn close(self) -> Scan {
        if self.current.len() > 0 {
            Scan { done: self.done.push(self.current), current: Seq::empty() }
        } else {
            self
        }
    }

    /// Reads one more character.
    pub open spec fn step(self, c: char) -> Scan {
        if is_delimiter(c) {
            self.close()
        } else {
            Scan { done: self.done, current: self.current.push(c) }
        }
    }
}

/// The pass over all of `s`.
pub open spec fn scan(s: Seq<char>) -> Scan
    decreases s.len(),
{
    if s.len() == 0 {
        Scan { done: Seq::empty(), current: Seq::empty() }
    } else {
        scan(s.drop_last()).step(s.last())
    }
}

/// The words of `s`: its maximal runs of characters that are not delimiters.
pub open spec fn split_words(s: Seq<char>) -> Seq<Seq<char>> {
    scan(s).close().done
}

/// Whether `c` separates words.
fn is_delimiter_char(c: char) -> (r: bool)
    ensures
        r == is_delimiter(c),
{
    c == ' ' || c == '\n' || c == ';' || c == ','
}

/// The words of a source text, in order.
#[derive(Debug)]
pub struct Scanner {
    pub text: Vec<String>,
}

impl View for Scanner {
    type V = Seq<Seq<char>>;

    open spec fn view(&self) -> Seq<Seq<char>> {
        texts(self.text@)
    }
}

impl Scanner {
    /// Splits `text` on spaces, newlines, semicolons and commas. Runs of
    /// delimiters collapse: no word is empty.
    pub fn new(text: String) -> (s: Scanner)
        ensures
            s@ == split_words(text@),
    {
        let mut words: Vec<String> = Vec::new();
        let mut word = String::new();
        for c in it: text.as_str().chars()
            invariant
                it.seq() == text@,
                texts(words@) == scan(text@.take(it.index())).done,
                word@ == scan(text@.take(it.index())).current,
        {
            let ghost before = scan(text@.take(it.index()));
            proof {
                let upto = text@.take(it.index() + 1);
                assert(upto.drop_last() == text@.take(it.index()));
                assert(upto.last() == c);
            }
            if is_delimiter_char(c) {
                if !word.as_str().is_empty() {
                    words.push(word);
                    word = String::new();
                    assert(texts(words@) == before.done.push(before.current));
                }
            } else {
                word.push(c);
            }
        }
        assert(text@.take(text@.len() as int) == text@);
        if !word.as_str().is_empty() {
            let ghost found = scan(text@);
            words.push(word);
            assert(texts(words@) == found.done.push(found.current));
        }
        Scanner { text: words }
    }
}

} // verus!
