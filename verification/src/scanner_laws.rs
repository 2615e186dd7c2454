//! What holds of the words of every text.

use crate::scanner::{is_delimiter, scan, split_words, Scan};
use vstd::prelude::*;
use vstd::seq_lib::lemma_flatten_concat;

verus! {

/// A word: it has a character, and none of its characters is a delimiter.
pub open spec fn is_word(w: Seq<char>) -> bool {
    w.len() > 0 && forall|j: int| 0 <= j < w.len() ==> !is_delimiter(#[trigger] w[j])
}

proof fn lemma_scan_words(s: Seq<char>)
    ensures
        forall|i: int| 0 <= i < scan(s).done.len() ==> is_word(#[trigger] scan(s).done[i]),
        forall|j: int| 0 <= j < scan(s).current.len() ==> !is_delimiter(#[trigger] scan(s).current[j]),
    decreases s.len(),
{
    if s.len() > 0 {
        lemma_scan_words(s.drop_last());
        let before = scan(s.drop_last());
        let after = scan(s);
        assert(after == before.step(s.last()));
        assert forall|i: int| 0 <= i < after.done.len() implies is_word(
            #[trigger] after.done[i],
        ) by {
            if i < before.done.len() {
                assert(after.done[i] == before.done[i]);
            } else {
                assert(after.done[i] == before.current);
            }
        }
        assert forall|j: int| 0 <= j < after.current.len() implies !is_delimiter(
            #[trigger] after.current[j],
        ) by {
            if j < before.current.len() {
                assert(after.current[j] == before.current[j]);
            }
        }
    }
}

/// Every word that the splitter gives has a character and holds no delimiter:
/// runs of delimiters give no empty word.
pub proof fn law_words_are_words(s: Seq<char>)
    ensures
        forall|i: int| 0 <= i < split_words(s).len() ==> is_word(#[trigger] split_words(s)[i]),
{
    lemma_scan_words(s);
}

/// The test for a character that belongs to a word.
pub open spec fn in_word() -> spec_fn(char) -> bool {
    |c: char| !is_delimiter(c)
}

proof fn lemma_scan_keeps_characters(s: Seq<char>)
    ensures
        scan(s).done.flatten() + scan(s).current == s.filter(in_word()),
    decreases s.len(),
{
    reveal(Seq::filter);
    if s.len() > 0 {
        lemma_scan_keeps_characters(s.drop_last());
        let before = scan(s.drop_last());
        if is_delimiter(s.last()) {
            lemma_close_keeps_characters(before);
        } else {
            assert(before.done.flatten() + before.current.push(s.last()) == (before.done.flatten()
                + before.current).push(s.last()));
        }
    }
}

proof fn lemma_close_keeps_characters(found: Scan)
    ensures
        found.close().done.flatten() == found.done.flatten() + found.current,
        found.close().current.len() == 0,
{
    if found.current.len() > 0 {
        let last = seq![found.current];
        assert(found.done.push(found.current) == found.done + last);
        lemma_flatten_concat(found.done, last);
        last.lemma_flatten_one_element();
    } else {
        assert(found.done.flatten() + found.current == found.done.flatten());
    }
}

/// The words hold the characters of the text that are no delimiters, all of
/// them and in order.
pub proof fn law_words_keep_characters(s: Seq<char>)
    ensures
        split_words(s).flatten() == s.filter(in_word()),
{
    lemma_scan_keeps_characters(s);
    lemma_close_keeps_characters(scan(s));
}

proof fn lemma_scan_of_word(w: Seq<char>)
    requires
        forall|j: int| 0 <= j < w.len() ==> !is_delimiter(#[trigger] w[j]),
    ensures
        scan(w) == (Scan { done: Seq::empty(), current: w }),
    decreases w.len(),
{
    if w.len() == 0 {
        assert(w == Seq::<char>::empty());
    } else {
        lemma_scan_of_word(w.drop_last());
        assert(!is_delimiter(w[w.len() - 1]));
        assert(w.drop_last().push(w.last()) == w);
    }
}

/// A word by itself is the one word of its text.
pub proof fn law_word_is_one_word(w: Seq<char>)
    requires
        is_word(w),
    ensures
        split_words(w) == seq![w],
{
    lemma_scan_of_word(w);
}

proof fn lemma_scan_behind_delimiter(a: Seq<char>, d: char, b: Seq<char>)
    requires
        is_delimiter(d),
    ensures
        scan(a.push(d) + b).done == split_words(a) + scan(b).done,
        scan(a.push(d) + b).current == scan(b).current,
    decreases b.len(),
{
    let text = a.push(d) + b;
    if b.len() == 0 {
        assert(text == a.push(d));
        assert(text.drop_last() == a);
        assert(split_words(a) + scan(b).done == split_words(a));
    } else {
        assert(text.drop_last() == a.push(d) + b.drop_last());
        lemma_scan_behind_delimiter(a, d, b.drop_last());
        let before = scan(b.drop_last());
        if is_delimiter(b.last()) && before.current.len() > 0 {
            assert((split_words(a) + before.done).push(before.current) == split_words(a)
                + before.done.push(before.current));
        }
    }
}

/// A delimiter parts the text: the words of the whole are the words before
/// the delimiter, and then the words behind it.
pub proof fn law_delimiter_parts_text(a: Seq<char>, d: char, b: Seq<char>)
    requires
        is_delimiter(d),
    ensures
        split_words(a.push(d) + b) == split_words(a) + split_words(b),
{
    lemma_scan_behind_delimiter(a, d, b);
    let found = scan(b);
    if found.current.len() > 0 {
        assert((split_words(a) + found.done).push(found.current) == split_words(a)
            + found.done.push(found.current));
    }
}

/// Text without characters has no words.
pub proof fn law_empty_text_has_no_words()
    ensures
        split_words(Seq::<char>::empty()) == Seq::<Seq<char>>::empty(),
{
}

} // verus!
