//! What holds of the tokenizer in every state and for every word.

use crate::tokenize::{
    classify, ends_with, feed, feed_all, is_bracketed, starts_with, trim_end, trim_start,
    word_token, TokenView, TokenizeErrorView, Tokenizer, TokenizerView,
};
use vstd::prelude::*;

verus! {

/// Classifying a word leaves the completed tokens as they are.
pub proof fn lemma_classify_keeps_tokens(st: TokenizerView, w: Seq<char>)
    ensures
        classify(st, w) matches Ok(c) ==> c.state.tokens == st.tokens,
    decreases w.len(),
{
    if starts_with(w, '[') && ends_with(w, ']') {
        lemma_classify_keeps_tokens(st, w.subrange(1, w.len() - 1));
    } else if starts_with(w, '[') {
        lemma_classify_keeps_tokens(st, w.skip(1));
    } else if ends_with(w, ']') {
        lemma_classify_keeps_tokens(st, w.drop_last());
    }
}

/// One word appends no token to the output, or exactly one.
pub proof fn law_feed_appends_at_most_one(st: TokenizerView, w: Seq<char>)
    ensures
        feed(st, w) matches Ok(after) ==> after.tokens == st.tokens || exists|t: TokenView|
            after.tokens == st.tokens.push(t),
{
    lemma_classify_keeps_tokens(st, w);
    if let Ok(c) = classify(st, w) {
        if c.token is Some && !(st.in_array && !is_bracketed(w)) {
            assert(feed(st, w)->Ok_0.tokens == st.tokens.push(c.token->0));
        }
    }
}

/// What holds of a tokenizer between words: outside a string no fragment is
/// kept, and outside an array nothing is pending.
pub open spec fn is_settled(st: TokenizerView) -> bool {
    &&& !st.in_string ==> st.fragment.len() == 0
    &&& !st.in_array ==> st.pending.len() == 0
}

proof fn lemma_classify_keeps_settled(st: TokenizerView, w: Seq<char>)
    requires
        is_settled(st),
    ensures
        classify(st, w) matches Ok(c) ==> is_settled(c.state) && (!is_bracketed(w)
            ==> c.state.in_array == st.in_array),
    decreases w.len(),
{
    if starts_with(w, '[') && ends_with(w, ']') {
        lemma_classify_keeps_settled(st, w.subrange(1, w.len() - 1));
    } else if starts_with(w, '[') {
        lemma_classify_keeps_settled(st, w.skip(1));
    } else if ends_with(w, ']') {
        lemma_classify_keeps_settled(st, w.drop_last());
    }
}

/// A new tokenizer is settled.
pub proof fn law_new_tokenizer_is_settled()
    ensures
        is_settled(Tokenizer::initial()),
{
}

/// A word leaves a settled tokenizer settled.
pub proof fn law_feed_keeps_settled(st: TokenizerView, w: Seq<char>)
    requires
        is_settled(st),
    ensures
        feed(st, w) matches Ok(after) ==> is_settled(after),
{
    lemma_classify_keeps_settled(st, w);
}

/// Whether `w` holds a quote.
pub open spec fn has_quote(w: Seq<char>) -> bool {
    exists|i: int| 0 <= i < w.len() && w[i] == '"'
}

/// Whether `w`, fed in state `st`, would put a bracket inside a string that is
/// being gathered, or a quote inside an array or a bracketed word.
pub open spec fn mixes_modes(st: TokenizerView, w: Seq<char>) -> bool {
    if st.in_string {
        is_bracketed(w)
    } else {
        has_quote(w) && (st.in_array || is_bracketed(w))
    }
}

proof fn lemma_no_quote_no_string(st: TokenizerView, w: Seq<char>)
    requires
        !st.in_string,
        !has_quote(w),
    ensures
        classify(st, w) matches Ok(c) ==> !c.state.in_string,
    decreases w.len(),
{
    if starts_with(w, '[') && ends_with(w, ']') {
        let inner = w.subrange(1, w.len() - 1);
        assert forall|i: int| 0 <= i < inner.len() implies inner[i] != '"' by {
            assert(inner[i] == w[i + 1]);
        }
        lemma_no_quote_no_string(st, inner);
    } else if starts_with(w, '[') {
        let inner = w.skip(1);
        assert forall|i: int| 0 <= i < inner.len() implies inner[i] != '"' by {
            assert(inner[i] == w[i + 1]);
        }
        lemma_no_quote_no_string(st, inner);
    } else if ends_with(w, ']') {
        let inner = w.drop_last();
        assert forall|i: int| 0 <= i < inner.len() implies inner[i] != '"' by {
            assert(inner[i] == w[i]);
        }
        lemma_no_quote_no_string(st, inner);
    } else {
        if word_token(w) == Ok::<Option<TokenView>, TokenizeErrorView>(None) {
            assert(w[0] == '"');
        }
    }
}

/// A string and an array are never gathered at once, as long as no bracketed
/// word arrives inside a string, and no word with a quote inside an array or
/// between brackets.
pub proof fn law_modes_stay_apart(st: TokenizerView, w: Seq<char>)
    requires
        !(st.in_string && st.in_array),
        !mixes_modes(st, w),
    ensures
        feed(st, w) matches Ok(after) ==> !(after.in_string && after.in_array),
{
    if !st.in_string && !has_quote(w) {
        lemma_no_quote_no_string(st, w);
    }
}

/// Feeding two runs of words one after the other is feeding them joined, and
/// an error in the first run is the error of the whole.
pub proof fn lemma_feed_all_joined(st: TokenizerView, a: Seq<Seq<char>>, b: Seq<Seq<char>>)
    ensures
        feed_all(st, a + b) == match feed_all(st, a) {
            Ok(middle) => feed_all(middle, b),
            Err(e) => Err(e),
        },
    decreases b.len(),
{
    if b.len() == 0 {
        assert(a + b == a);
    } else {
        assert((a + b).drop_last() == a + b.drop_last());
        lemma_feed_all_joined(st, a, b.drop_last());
    }
}

/// Feeding one word by itself.
pub proof fn lemma_feed_all_one(st: TokenizerView, w: Seq<char>)
    ensures
        feed_all(st, seq![w]) == feed(st, w),
{
    assert(seq![w].drop_last() == Seq::<Seq<char>>::empty());
    assert(feed_all(st, seq![w].drop_last()) == Ok::<_, TokenizeErrorView>(st));
}

/// A word that is a token by itself: it has no bracket at either end, and is
/// a keyword, an operator, a number in range, a string in one word, or a
/// variable.
pub open spec fn is_plain(w: Seq<char>) -> bool {
    !is_bracketed(w) && word_token(w) matches Ok(Some(_))
}

/// The token of a plain word.
pub open spec fn plain_token(w: Seq<char>) -> TokenView {
    match word_token(w) {
        Ok(Some(t)) => t,
        _ => TokenView::Nothing,
    }
}

/// The tokens of a run of plain words.
pub open spec fn plain_tokens(ws: Seq<Seq<char>>) -> Seq<TokenView> {
    Seq::new(ws.len(), |i: int| plain_token(ws[i]))
}

proof fn lemma_plain_words_in_array(st: TokenizerView, ws: Seq<Seq<char>>)
    requires
        st.in_array,
        !st.in_string,
        forall|i: int| 0 <= i < ws.len() ==> is_plain(#[trigger] ws[i]),
    ensures
        feed_all(st, ws) == Ok::<_, TokenizeErrorView>(
            TokenizerView { pending: st.pending + plain_tokens(ws), ..st },
        ),
    decreases ws.len(),
{
    if ws.len() == 0 {
        assert(st.pending + plain_tokens(ws) == st.pending);
    } else {
        lemma_plain_words_in_array(st, ws.drop_last());
        assert(is_plain(ws.last()));
        assert((st.pending + plain_tokens(ws.drop_last())).push(plain_token(ws.last()))
            == st.pending + plain_tokens(ws));
    }
}

/// The words of a bracketed span: `head` behind an opening bracket, the words
/// of `middle`, and `tail` before a closing bracket.
pub open spec fn bracketed_span(head: Seq<char>, middle: Seq<Seq<char>>, tail: Seq<char>) -> Seq<
    Seq<char>,
> {
    seq![seq!['['] + head] + middle + seq![tail.push(']')]
}

/// A bracketed span of plain words, fed outside any string, appends exactly
/// one array to the output. The array holds what was pending and then the
/// tokens of the words, in the order in which they came.
pub proof fn law_bracketed_span_is_one_array(
    st: TokenizerView,
    head: Seq<char>,
    middle: Seq<Seq<char>>,
    tail: Seq<char>,
)
    requires
        !st.in_string,
        is_plain(head),
        forall|i: int| 0 <= i < middle.len() ==> is_plain(#[trigger] middle[i]),
        is_plain(tail),
    ensures
        feed_all(st, bracketed_span(head, middle, tail)) == Ok::<_, TokenizeErrorView>(
            TokenizerView {
                tokens: st.tokens.push(
                    TokenView::Array(
                        st.pending + seq![plain_token(head)] + plain_tokens(middle) + seq![
                            plain_token(tail),
                        ],
                    ),
                ),
                in_array: false,
                pending: Seq::empty(),
                ..st
            },
        ),
{
    reveal_with_fuel(classify, 2);
    let open = seq!['['] + head;
    let close = tail.push(']');
    let first = seq![open];
    let last = seq![close];

    assert(open.skip(1) == head);
    assert(!ends_with(open, ']')) by {
        if head.len() > 0 {
            assert(open.last() == head.last());
        }
    }
    let opened = TokenizerView {
        in_array: true,
        pending: st.pending.push(plain_token(head)),
        ..st
    };
    assert(feed(st, open) == Ok::<_, TokenizeErrorView>(opened));
    lemma_feed_all_one(st, open);

    lemma_plain_words_in_array(opened, middle);
    let gathered = TokenizerView { pending: opened.pending + plain_tokens(middle), ..opened };
    lemma_feed_all_joined(st, first, middle);

    assert(close.drop_last() == tail);
    assert(!starts_with(close, '[')) by {
        if tail.len() > 0 {
            assert(close[0] == tail[0]);
        }
    }
    lemma_feed_all_joined(st, first + middle, last);
    lemma_feed_all_one(gathered, close);
    assert(st.pending.push(plain_token(head)) + plain_tokens(middle) == st.pending + seq![
        plain_token(head),
    ] + plain_tokens(middle));
    assert((st.pending + seq![plain_token(head)] + plain_tokens(middle)).push(plain_token(tail))
        == st.pending + seq![plain_token(head)] + plain_tokens(middle) + seq![
        plain_token(tail),
    ]);
}

/// A word that opens a string and does not close it.
pub open spec fn opens_string(w: Seq<char>) -> bool {
    !is_bracketed(w) && word_token(w) == Ok::<Option<TokenView>, TokenizeErrorView>(None)
}

/// `fragment` with each word of `ws` joined to it by a space.
pub open spec fn joined(fragment: Seq<char>, ws: Seq<Seq<char>>) -> Seq<char>
    decreases ws.len(),
{
    if ws.len() == 0 {
        fragment
    } else {
        joined(fragment, ws.drop_last()).push(' ') + ws.last()
    }
}

proof fn lemma_words_in_string(st: TokenizerView, ws: Seq<Seq<char>>)
    requires
        st.in_string,
        forall|i: int|
            0 <= i < ws.len() ==> !is_bracketed(#[trigger] ws[i]) && !ends_with(ws[i], '"'),
    ensures
        feed_all(st, ws) == Ok::<_, TokenizeErrorView>(
            TokenizerView { fragment: joined(st.fragment, ws), ..st },
        ),
    decreases ws.len(),
{
    if ws.len() > 0 {
        lemma_words_in_string(st, ws.drop_last());
        assert(!is_bracketed(ws.last()) && !ends_with(ws.last(), '"'));
    }
}

/// A string that spans several words is one token: a word that opens it,
/// words without a quote at their end, and a word that ends with a quote give
/// the string of all of them, joined by spaces and without the outer quotes.
/// The token joins the output, or the array that is being gathered. Inside
/// the string no word is refused, whatever it spells.
pub proof fn law_quoted_span_is_one_string(
    st: TokenizerView,
    first: Seq<char>,
    middle: Seq<Seq<char>>,
    last: Seq<char>,
)
    requires
        !st.in_string,
        opens_string(first),
        forall|i: int|
            0 <= i < middle.len() ==> !is_bracketed(#[trigger] middle[i]) && !ends_with(
                middle[i],
                '"',
            ),
        !is_bracketed(last),
        ends_with(last, '"'),
    ensures
        ({
            let text = joined(st.fragment + trim_start(first, '"'), middle).push(' ') + trim_end(
                last,
                '"',
            );
            let token = TokenView::String(text);
            feed_all(st, seq![first] + middle + seq![last]) == Ok::<_, TokenizeErrorView>(
                if st.in_array {
                    TokenizerView { pending: st.pending.push(token), fragment: Seq::empty(), ..st }
                } else {
                    TokenizerView { tokens: st.tokens.push(token), fragment: Seq::empty(), ..st }
                },
            )
        }),
{
    let head = seq![first];
    let tail = seq![last];
    let opened = TokenizerView {
        in_string: true,
        fragment: st.fragment + trim_start(first, '"'),
        ..st
    };
    assert(feed(st, first) == Ok::<_, TokenizeErrorView>(opened));
    lemma_feed_all_one(st, first);
    lemma_words_in_string(opened, middle);
    let gathered = TokenizerView { fragment: joined(opened.fragment, middle), ..opened };
    lemma_feed_all_joined(st, head, middle);
    lemma_feed_all_joined(st, head + middle, tail);
    lemma_feed_all_one(gathered, last);
}

} // verus!
