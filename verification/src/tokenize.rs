//! Tokens, and the tokenizer that assembles them from words.

use crate::number::{literal_of, parse_number, Literal};
use crate::text::{chars_of, same_text, text_of};
use vstd::prelude::*;
use vstd::slice::slice_subrange;

verus! {

/// The keywords of the language: `let`, or none.
#[derive(Clone, Copy, Debug, PartialEq, Eq, Structural)]
pub enum Keyword {
    Let,
    Nothing,
}

/// The operators of the language, or none.
#[derive(Clone, Copy, Debug, PartialEq, Eq, Structural)]
pub enum Operator {
    Equals,
    Plus,
    Subtract,
    Multiply,
    Divide,
    OpenSquareBrace,
    CloseSquareBrace,
    Nothing,
}

impl Operator {
    /// Whether the operator combines two values.
    pub open spec fn is_arithmetic(self) -> bool {
        self == Operator::Plus || self == Operator::Subtract || self == Operator::Multiply || self
            == Operator::Divide
    }
}

/// One classified unit of source text. `Nothing` stands where a token is
/// looked for and none is there.
#[derive(Debug)]
#[allow(inconsistent_fields)]
pub enum Token {
    Boolean { value: bool },
    String { value: String },
    Variable { identifier: String },
    Number { value: i64 },
    Keyword { kw: Keyword },
    Operator { op: Operator },
    Array { value: Vec<Token> },
    Nothing,
}

/// What a token is, with its text as a sequence of characters.
pub enum TokenView {
    Boolean(bool),
    String(Seq<char>),
    Variable(Seq<char>),
    Number(i64),
    Keyword(Keyword),
    Operator(Operator),
    Array(Seq<TokenView>),
    Nothing,
}

impl View for Token {
    type V = TokenView;

    open spec fn view(&self) -> TokenView
        decreases self,
    {
        match self {
            Token::Boolean { value } => TokenView::Boolean(*value),
            Token::String { value } => TokenView::String(value@),
            Token::Variable { identifier } => TokenView::Variable(identifier@),
            Token::Number { value } => TokenView::Number(*value),
            Token::Keyword { kw } => TokenView::Keyword(*kw),
            Token::Operator { op } => TokenView::Operator(*op),
            Token::Array { value } => TokenView::Array(
                Seq::new(
                    value@.len(),
                    |i: int|
                        if 0 <= i < value@.len() {
                            value@[i].view()
                        } else {
                            TokenView::Nothing
                        },
                ),
            ),
            Token::Nothing => TokenView::Nothing,
        }
    }
}

/// The views of a run of tokens, in order.
pub open spec fn token_views(s: Seq<Token>) -> Seq<TokenView> {
    Seq::new(s.len(), |i: int| s[i]@)
}

/// The view of a token that may be missing.
pub open spec fn token_view_of(t: Option<Token>) -> Option<TokenView> {
    match t {
        Some(tok) => Some(tok@),
        None => None,
    }
}

/// An array token's view holds the views of its elements.
pub proof fn lemma_array_view(value: Vec<Token>)
    ensures
        (Token::Array { value })@ == TokenView::Array(token_views(value@)),
{
    reveal_with_fuel(<Token as View>::view, 2);
    assert((Token::Array { value })@->Array_0 =~= token_views(value@));
}

impl Clone for Token {
    fn clone(&self) -> (r: Token)
        ensures
            r@ == self@,
        decreases self,
    {
        match self {
            Token::Boolean { value } => Token::Boolean { value: *value },
            Token::String { value } => Token::String { value: value.clone() },
            Token::Variable { identifier } => Token::Variable { identifier: identifier.clone() },
            Token::Number { value } => Token::Number { value: *value },
            Token::Keyword { kw } => Token::Keyword { kw: *kw },
            Token::Operator { op } => Token::Operator { op: *op },
            Token::Array { value } => {
                let mut items: Vec<Token> = Vec::new();
                let mut i: usize = 0;
                while i < value.len()
                    invariant
                        i <= value.len(),
                        self is Array,
                        self->Array_value == *value,
                        token_views(items@) == token_views(value@).take(i as int),
                    decreases value.len() - i,
                {
                    proof {
                        vstd::std_specs::vec::axiom_vec_index_decreases(*value, i as int);
                        assert(decreases_to!(*self => self->Array_value));
                    }
                    let ghost before = items@;
                    let item = value[i].clone();
                    items.push(item);
                    assert(token_views(items@) == token_views(before).push(item@));
                    assert(token_views(value@).take(i + 1) == token_views(value@).take(
                        i as int,
                    ).push(value@[i as int]@));
                    i += 1;
                }
                proof {
                    assert(token_views(value@).take(i as int) == token_views(value@));
                    lemma_array_view(items);
                    lemma_array_view(*value);
                }
                Token::Array { value: items }
            },
            Token::Nothing => Token::Nothing,
        }
    }
}

/// Whether `c` is the first character of `w`.
pub open spec fn starts_with(w: Seq<char>, c: char) -> bool {
    w.len() > 0 && w[0] == c
}

/// Whether `c` is the last character of `w`.
pub open spec fn ends_with(w: Seq<char>, c: char) -> bool {
    w.len() > 0 && w.last() == c
}

/// `w` without the run of `c` at its start.
pub open spec fn trim_start(w: Seq<char>, c: char) -> Seq<char>
    decreases w.len(),
{
    if starts_with(w, c) {
        trim_start(w.skip(1), c)
    } else {
        w
    }
}

/// `w` without the run of `c` at its end.
pub open spec fn trim_end(w: Seq<char>, c: char) -> Seq<char>
    decreases w.len(),
{
    if ends_with(w, c) {
        trim_end(w.drop_last(), c)
    } else {
        w
    }
}

/// Whether `w` is on the keyword list.
pub open spec fn is_keyword(w: Seq<char>) -> bool {
    w == "let"@ || w == "true"@ || w == "false"@
}

/// The token for a word of the keyword list: `true` and `false` are boolean
/// literals, `let` is the one keyword. Any other word gives the empty keyword.
pub open spec fn keyword_token(w: Seq<char>) -> TokenView {
    if w == "let"@ {
        TokenView::Keyword(Keyword::Let)
    } else if w == "true"@ {
        TokenView::Boolean(true)
    } else if w == "false"@ {
        TokenView::Boolean(false)
    } else {
        TokenView::Keyword(Keyword::Nothing)
    }
}

/// The operator that a word spells, or the empty operator.
pub open spec fn operator_of(w: Seq<char>) -> Operator {
    if w == "="@ {
        Operator::Equals
    } else if w == "+"@ {
        Operator::Plus
    } else if w == "-"@ {
        Operator::Subtract
    } else if w == "*"@ {
        Operator::Multiply
    } else if w == "/"@ {
        Operator::Divide
    } else if w == "["@ {
        Operator::OpenSquareBrace
    } else if w == "]"@ {
        Operator::CloseSquareBrace
    } else {
        Operator::Nothing
    }
}

/// Whether `w` is on the operator list.
pub open spec fn is_operator(w: Seq<char>) -> bool {
    operator_of(w) != Operator::Nothing
}

/// Why a word was refused.
#[derive(Debug)]
pub enum TokenizeError {
    /// A number word denotes a value that does not fit in 64 signed bits.
    NumberOutOfRange { word: String },
}

/// An error, with the word it holds as a sequence of characters.
pub enum TokenizeErrorView {
    NumberOutOfRange(Seq<char>),
}

impl TokenizeErrorView {
    /// The text that describes the error.
    pub open spec fn message(self) -> Seq<char> {
        match self {
            TokenizeErrorView::NumberOutOfRange(word) => "Number out of range "@ + word,
        }
    }
}

impl View for TokenizeError {
    type V = TokenizeErrorView;

    open spec fn view(&self) -> TokenizeErrorView {
        match self {
            TokenizeError::NumberOutOfRange { word } => TokenizeErrorView::NumberOutOfRange(word@),
        }
    }
}

impl TokenizeError {
    /// The text that describes the error.
    pub fn message(&self) -> (r: String)
        ensures
            r@ == self@.message(),
    {
        match self {
            TokenizeError::NumberOutOfRange { word } => {
                let mut r = String::from_str("Number out of range ");
                r.append(word.as_str());
                r
            },
        }
    }
}

/// The token that a word outside any string gives by itself: a keyword, an
/// operator, a number, a string in one word, or else a variable. `Ok(None)`
/// for a word that opens a string and does not close it. A number word whose
/// value does not fit in 64 signed bits is an error.
pub open spec fn word_token(w: Seq<char>) -> Result<Option<TokenView>, TokenizeErrorView> {
    if is_keyword(w) {
        Ok(Some(keyword_token(w)))
    } else if is_operator(w) {
        Ok(Some(TokenView::Operator(operator_of(w))))
    } else {
        match literal_of(w) {
            Literal::Number(n) => Ok(Some(TokenView::Number(n))),
            Literal::OutOfRange => Err(TokenizeErrorView::NumberOutOfRange(w)),
            Literal::Other => if !starts_with(w, '"') {
                Ok(Some(TokenView::Variable(w)))
            } else if ends_with(w, '"') {
                Ok(Some(TokenView::String(trim_end(trim_start(w, '"'), '"'))))
            } else {
                Ok(None)
            },
        }
    }
}

/// A tokenizer's state: the tokens completed so far, and what it has gathered
/// of a string or an array that spans several words.
pub struct TokenizerView {
    pub tokens: Seq<TokenView>,
    pub in_string: bool,
    pub fragment: Seq<char>,
    pub in_array: bool,
    pub pending: Seq<TokenView>,
}

/// What one word comes to: the state after it, and the token it completes.
pub struct Classified {
    pub state: TokenizerView,
    pub token: Option<TokenView>,
}

impl Classified {
    /// The completed token, or the empty token where there is none.
    pub open spec fn element(self) -> TokenView {
        match self.token {
            Some(t) => t,
            None => TokenView::Nothing,
        }
    }
}

/// Whether `w` opens or closes a bracket.
pub open spec fn is_bracketed(w: Seq<char>) -> bool {
    starts_with(w, '[') || ends_with(w, ']')
}

/// Classifies one word. The completed tokens of `st` are left as they are:
/// where the token goes is for `feed` to say.
///
/// A word in brackets is an array of the one token that its inside gives. A
/// word that only opens a bracket begins an array with the token of its
/// remainder; a word that only closes one adds the token of its remainder and
/// completes the array. Inside a string, a word is joined to the fragment by a
/// space, and completes the string if it ends with a quote. Any other word is
/// classified by `word_token`, whose error is the error of the whole word.
pub open spec fn classify(st: TokenizerView, w: Seq<char>) -> Result<
    Classified,
    TokenizeErrorView,
>
    decreases w.len(),
{
    if starts_with(w, '[') && ends_with(w, ']') {
        match classify(st, w.subrange(1, w.len() - 1)) {
            Err(e) => Err(e),
            Ok(inner) => Ok(
                Classified {
                    state: inner.state,
                    token: Some(TokenView::Array(seq![inner.element()])),
                },
            ),
        }
    } else if starts_with(w, '[') {
        match classify(st, w.skip(1)) {
            Err(e) => Err(e),
            Ok(inner) => Ok(
                Classified {
                    state: TokenizerView {
                        in_array: true,
                        pending: inner.state.pending.push(inner.element()),
                        ..inner.state
                    },
                    token: None,
                },
            ),
        }
    } else if ends_with(w, ']') {
        match classify(st, w.drop_last()) {
            Err(e) => Err(e),
            Ok(inner) => Ok(
                Classified {
                    state: TokenizerView { in_array: false, pending: Seq::empty(), ..inner.state },
                    token: Some(TokenView::Array(inner.state.pending.push(inner.element()))),
                },
            ),
        }
    } else if st.in_string {
        let joined = st.fragment.push(' ');
        if ends_with(w, '"') {
            Ok(
                Classified {
                    state: TokenizerView { in_string: false, fragment: Seq::empty(), ..st },
                    token: Some(TokenView::String(joined + trim_end(w, '"'))),
                },
            )
        } else {
            Ok(Classified { state: TokenizerView { fragment: joined + w, ..st }, token: None })
        }
    } else {
        match word_token(w) {
            Err(e) => Err(e),
            Ok(Some(t)) => Ok(Classified { state: st, token: Some(t) }),
            Ok(None) => Ok(
                Classified {
                    state: TokenizerView {
                        in_string: true,
                        fragment: st.fragment + trim_start(w, '"'),
                        ..st
                    },
                    token: None,
                },
            ),
        }
    }
}

/// The state after one more word, or the error that refuses the word. A
/// token that a word without brackets completes while an array is being
/// gathered joins that array; any other completed token is appended to the
/// output.
pub open spec fn feed(st: TokenizerView, w: Seq<char>) -> Result<TokenizerView, TokenizeErrorView> {
    match classify(st, w) {
        Err(e) => Err(e),
        Ok(c) => match c.token {
            None => Ok(c.state),
            Some(t) => if st.in_array && !is_bracketed(w) {
                Ok(TokenizerView { pending: c.state.pending.push(t), ..c.state })
            } else {
                Ok(TokenizerView { tokens: c.state.tokens.push(t), ..c.state })
            },
        },
    }
}

/// The state after a run of words, fed in order, or the error of the first
/// word that is refused.
pub open spec fn feed_all(st: TokenizerView, words: Seq<Seq<char>>) -> Result<
    TokenizerView,
    TokenizeErrorView,
>
    decreases words.len(),
{
    if words.len() == 0 {
        Ok(st)
    } else {
        match feed_all(st, words.drop_last()) {
            Err(e) => Err(e),
            Ok(before) => feed(before, words.last()),
        }
    }
}

/// What is left of `w` when the brackets at its ends are taken off.
pub open spec fn inside(w: Seq<char>) -> Seq<char>
    decreases w.len(),
{
    if starts_with(w, '[') && ends_with(w, ']') {
        inside(w.subrange(1, w.len() - 1))
    } else if starts_with(w, '[') {
        inside(w.skip(1))
    } else if ends_with(w, ']') {
        inside(w.drop_last())
    } else {
        w
    }
}

/// Whether `w` is refused in state `st`: outside a string, what is inside its
/// brackets is a number word whose value does not fit in 64 signed bits.
pub open spec fn is_refused(st: TokenizerView, w: Seq<char>) -> bool {
    !st.in_string && literal_of(inside(w)) == Literal::OutOfRange
}

/// A word is refused exactly when, outside a string, what is inside its
/// brackets is a number word out of range, and the error then names that
/// number word.
pub proof fn lemma_refused(st: TokenizerView, w: Seq<char>)
    ensures
        classify(st, w) is Err <==> is_refused(st, w),
        feed(st, w) is Err <==> is_refused(st, w),
        is_refused(st, w) ==> feed(st, w) == Err::<TokenizerView, _>(
            TokenizeErrorView::NumberOutOfRange(inside(w)),
        ),
    decreases w.len(),
{
    if starts_with(w, '[') && ends_with(w, ']') {
        lemma_refused(st, w.subrange(1, w.len() - 1));
    } else if starts_with(w, '[') {
        lemma_refused(st, w.skip(1));
    } else if ends_with(w, ']') {
        lemma_refused(st, w.drop_last());
    } else if !st.in_string {
        assert(literal_of(w) == Literal::OutOfRange ==> !is_keyword(w) && !is_operator(w)) by {
            reveal_strlit("let");
            reveal_strlit("true");
            reveal_strlit("false");
            reveal_strlit("=");
            reveal_strlit("+");
            reveal_strlit("-");
            reveal_strlit("*");
            reveal_strlit("/");
            reveal_strlit("[");
            reveal_strlit("]");
        }
    }
}

/// The number of `c` at the start of `w`.
fn leading_run(w: &[char], c: char) -> (j: usize)
    ensures
        j <= w.len(),
        trim_start(w@, c) == w@.skip(j as int),
{
    let mut j: usize = 0;
    assert(w@.skip(0) == w@);
    while j < w.len() && w[j] == c
        invariant
            j <= w.len(),
            trim_start(w@, c) == trim_start(w@.skip(j as int), c),
        decreases w.len() - j,
    {
        assert(w@.skip(j as int).skip(1) == w@.skip(j + 1));
        j += 1;
    }
    j
}

/// The length of `w` without the run of `c` at its end.
fn trimmed_len(w: &[char], c: char) -> (k: usize)
    ensures
        k <= w.len(),
        trim_end(w@, c) == w@.take(k as int),
{
    let mut k: usize = w.len();
    assert(w@.take(k as int) == w@);
    while k > 0 && w[k - 1] == c
        invariant
            k <= w.len(),
            trim_end(w@, c) == trim_end(w@.take(k as int), c),
        decreases k,
    {
        assert(w@.take(k as int).drop_last() == w@.take(k - 1));
        k -= 1;
    }
    k
}

/// Appends the characters of `w` to `s`.
fn append_chars(s: &mut String, w: &[char])
    ensures
        final(s)@ == old(s)@ + w@,
{
    let mut i: usize = 0;
    assert(w@.take(0) == Seq::<char>::empty());
    while i < w.len()
        invariant
            i <= w.len(),
            s@ == old(s)@ + w@.take(i as int),
        decreases w.len() - i,
    {
        s.push(w[i]);
        assert(w@.take(i + 1) == w@.take(i as int).push(w@[i as int]));
        i += 1;
    }
    assert(w@.take(i as int) == w@);
}

/// The token for a word of the keyword list, by `keyword_token`.
fn keyword_token_of(w: &[char]) -> (t: Token)
    ensures
        t@ == keyword_token(w@),
{
    if same_text(w, "let") {
        Token::Keyword { kw: Keyword::Let }
    } else if same_text(w, "true") {
        Token::Boolean { value: true }
    } else if same_text(w, "false") {
        Token::Boolean { value: false }
    } else {
        Token::Keyword { kw: Keyword::Nothing }
    }
}

/// The operator that a word spells, by `operator_of`.
fn operator_of_chars(w: &[char]) -> (op: Operator)
    ensures
        op == operator_of(w@),
{
    if same_text(w, "=") {
        Operator::Equals
    } else if same_text(w, "+") {
        Operator::Plus
    } else if same_text(w, "-") {
        Operator::Subtract
    } else if same_text(w, "*") {
        Operator::Multiply
    } else if same_text(w, "/") {
        Operator::Divide
    } else if same_text(w, "[") {
        Operator::OpenSquareBrace
    } else if same_text(w, "]") {
        Operator::CloseSquareBrace
    } else {
        Operator::Nothing
    }
}

/// The view of what a word comes to.
pub open spec fn word_view_of(r: Result<Option<Token>, TokenizeError>) -> Result<
    Option<TokenView>,
    TokenizeErrorView,
> {
    match r {
        Ok(t) => Ok(token_view_of(t)),
        Err(e) => Err(e@),
    }
}

/// The view of the result of taking in a word.
pub open spec fn fed_view_of(r: Result<(), TokenizeError>) -> Result<(), TokenizeErrorView> {
    match r {
        Ok(_) => Ok(()),
        Err(e) => Err(e@),
    }
}

/// The token of a word outside any string, by `word_token`.
fn word_token_of(w: &[char]) -> (r: Result<Option<Token>, TokenizeError>)
    ensures
        word_view_of(r) == word_token(w@),
{
    let keyword = keyword_token_of(w);
    if !matches!(keyword, Token::Keyword { kw: Keyword::Nothing }) {
        return Ok(Some(keyword));
    }
    let op = operator_of_chars(w);
    if !matches!(op, Operator::Nothing) {
        return Ok(Some(Token::Operator { op }));
    }
    match parse_number(w) {
        Literal::Number(value) => {
            return Ok(Some(Token::Number { value }));
        },
        Literal::OutOfRange => {
            return Err(TokenizeError::NumberOutOfRange { word: text_of(w) });
        },
        Literal::Other => {},
    }
    let n = w.len();
    if n > 0 && w[0] == '"' {
        if w[n - 1] == '"' {
            let j = leading_run(w, '"');
            let rest = slice_subrange(w, j, n);
            let k = trimmed_len(rest, '"');
            let value = text_of(slice_subrange(rest, 0, k));
            Ok(Some(Token::String { value }))
        } else {
            Ok(None)
        }
    } else {
        Ok(Some(Token::Variable { identifier: text_of(w) }))
    }
}

/// Assembles tokens from words, one word at a time. A string or an array may
/// span several words: what has come of it is kept until the word that
/// completes it.
#[derive(Debug)]
pub struct Tokenizer {
    pub tokens: Vec<Token>,
    is_parsing_string: bool,
    temp_string: String,
    is_parsing_array: bool,
    temp_array: Vec<Token>,
}

impl View for Tokenizer {
    type V = TokenizerView;

    closed spec fn view(&self) -> TokenizerView {
        TokenizerView {
            tokens: token_views(self.tokens@),
            in_string: self.is_parsing_string,
            fragment: self.temp_string@,
            in_array: self.is_parsing_array,
            pending: token_views(self.temp_array@),
        }
    }
}

impl Tokenizer {
    /// A tokenizer that has seen no word.
    pub open spec fn initial() -> TokenizerView {
        TokenizerView {
            tokens: Seq::empty(),
            in_string: false,
            fragment: Seq::empty(),
            in_array: false,
            pending: Seq::empty(),
        }
    }

    /// A tokenizer with no tokens, outside any string or array.
    pub fn new() -> (t: Tokenizer)
        ensures
            t@ == Self::initial(),
    {
        let t = Tokenizer {
            tokens: Vec::new(),
            is_parsing_string: false,
            temp_string: String::new(),
            is_parsing_array: false,
            temp_array: Vec::new(),
        };
        assert(t@.tokens == Seq::<TokenView>::empty());
        assert(t@.pending == Seq::<TokenView>::empty());
        t
    }

    /// The tokens completed so far, in order.
    pub fn tokens(&self) -> (r: &Vec<Token>)
        ensures
            token_views(r@) == self@.tokens,
    {
        &self.tokens
    }

    /// Gives up the tokenizer for the tokens that it has completed.
    pub fn into_tokens(self) -> (r: Vec<Token>)
        ensures
            token_views(r@) == self@.tokens,
    {
        self.tokens
    }

    /// Classifies one word, by `classify`. A word that is refused leaves the
    /// tokenizer as it was.
    fn classify_word(&mut self, w: &[char]) -> (r: Result<Option<Token>, TokenizeError>)
        ensures
            match r {
                Ok(t) => classify(old(self)@, w@) == Ok::<_, TokenizeErrorView>(
                    Classified { state: final(self)@, token: token_view_of(t) },
                ),
                Err(e) => classify(old(self)@, w@) == Err::<Classified, _>(e@) && final(self)@
                    == old(self)@,
            },
            final(self).tokens == old(self).tokens,
        decreases w.len(),
    {
        let n = w.len();
        let opens = n > 0 && w[0] == '[';
        let closes = n > 0 && w[n - 1] == ']';
        if opens || closes {
            let from: usize = if opens { 1 } else { 0 };
            let to: usize = if closes { n - 1 } else { n };
            proof {
                assert(w@.skip(1) == w@.subrange(1, n as int));
                assert(w@.drop_last() == w@.subrange(0, n - 1));
            }
            let element = match self.classify_word(slice_subrange(w, from, to)) {
                Ok(Some(t)) => t,
                Ok(None) => Token::Nothing,
                Err(e) => {
                    return Err(e);
                },
            };
            if opens && closes {
                let mut value: Vec<Token> = Vec::new();
                value.push(element);
                proof {
                    lemma_array_view(value);
                    assert(token_views(value@) == seq![element@]);
                }
                Ok(Some(Token::Array { value }))
            } else if opens {
                let ghost before = self.temp_array@;
                self.temp_array.push(element);
                self.is_parsing_array = true;
                assert(token_views(self.temp_array@) == token_views(before).push(element@));
                Ok(None)
            } else {
                let ghost before = self.temp_array@;
                self.temp_array.push(element);
                let mut value: Vec<Token> = Vec::new();
                std::mem::swap(&mut value, &mut self.temp_array);
                self.is_parsing_array = false;
                proof {
                    lemma_array_view(value);
                    assert(token_views(value@) == token_views(before).push(element@));
                    assert(token_views(self.temp_array@) == Seq::<TokenView>::empty());
                }
                Ok(Some(Token::Array { value }))
            }
        } else if self.is_parsing_string {
            self.temp_string.push(' ');
            if n > 0 && w[n - 1] == '"' {
                let k = trimmed_len(w, '"');
                append_chars(&mut self.temp_string, slice_subrange(w, 0, k));
                let mut value = String::new();
                std::mem::swap(&mut value, &mut self.temp_string);
                self.is_parsing_string = false;
                Ok(Some(Token::String { value }))
            } else {
                append_chars(&mut self.temp_string, w);
                Ok(None)
            }
        } else {
            let t = match word_token_of(w) {
                Ok(t) => t,
                Err(e) => {
                    return Err(e);
                },
            };
            if t.is_none() {
                let j = leading_run(w, '"');
                append_chars(&mut self.temp_string, slice_subrange(w, j, n));
                self.is_parsing_string = true;
            }
            Ok(t)
        }
    }

    /// Takes in one word. It completes at most one token, which is appended to
    /// `tokens`, or to the array being gathered. A number word whose value does
    /// not fit in 64 signed bits is refused, and leaves the tokenizer as it was.
    pub fn add_token(&mut self, token: String) -> (r: Result<(), TokenizeError>)
        ensures
            match r {
                Ok(_) => feed(old(self)@, token@) == Ok::<_, TokenizeErrorView>(final(self)@),
                Err(e) => feed(old(self)@, token@) == Err::<TokenizerView, _>(e@) && final(self)@
                    == old(self)@,
            },
            r is Err <==> is_refused(old(self)@, token@),
            r matches Err(e) ==> e@ == TokenizeErrorView::NumberOutOfRange(inside(token@)),
            final(self)@.tokens == old(self)@.tokens || exists|t: TokenView|
                final(self)@.tokens == old(self)@.tokens.push(t),
    {
        proof {
            lemma_refused(self@, token@);
        }
        let chars = chars_of(token.as_str());
        let w = chars.as_slice();
        let n = w.len();
        let bracketed = n > 0 && (w[0] == '[' || w[n - 1] == ']');
        let gathering = self.is_parsing_array;
        match self.classify_word(w) {
            Err(e) => Err(e),
            Ok(None) => Ok(()),
            Ok(Some(t)) => {
                if gathering && !bracketed {
                    let ghost pending = self.temp_array@;
                    self.temp_array.push(t);
                    assert(token_views(self.temp_array@) == token_views(pending).push(t@));
                } else {
                    let ghost tokens = self.tokens@;
                    self.tokens.push(t);
                    assert(token_views(self.tokens@) == token_views(tokens).push(t@));
                }
                Ok(())
            },
        }
    }

    /// The token for a word of the keyword list.
    pub fn match_keyword(token: String) -> (t: Token)
        ensures
            t@ == keyword_token(token@),
    {
        let chars = chars_of(token.as_str());
        keyword_token_of(chars.as_slice())
    }

    /// The operator token that a word spells.
    pub fn match_operator(token: String) -> (t: Token)
        ensures
            t@ == TokenView::Operator(operator_of(token@)),
    {
        let chars = chars_of(token.as_str());
        Token::Operator { op: operator_of_chars(chars.as_slice()) }
    }
}

} // verus!
