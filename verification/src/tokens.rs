//! Splitting a stream of characters into tokens.
use vstd::prelude::*;

use crate::lexicon::{
    lookup, make_map, Lexicon, SpecEntry, SpecFeaturedWord, WordTable,
};
use crate::text::{
    ascii_letter, char_is_whitespace, char_string, is_ascii_letter, is_white_space, owned,
};
use crate::Natural;

verus! {

/// A token as characters.
pub enum SpecToken {
    Plain(Seq<char>),
    Punctuation(Seq<char>),
    Comment(Seq<char>),
}

impl SpecToken {
    /// The characters of the token, whatever its kind.
    pub open spec fn content(self) -> Seq<char> {
        match self {
            SpecToken::Plain(s) => s,
            SpecToken::Punctuation(s) => s,
            SpecToken::Comment(s) => s,
        }
    }
}

/// A piece of text: a word, a punctuation mark, or a comment mark.
#[derive(Debug)]
pub enum Token {
    Plain(String),
    Punctuation(String),
    Comment(String),
}

impl View for Token {
    type V = SpecToken;

    open spec fn view(&self) -> SpecToken {
        match self {
            Token::Plain(s) => SpecToken::Plain(s@),
            Token::Punctuation(s) => SpecToken::Punctuation(s@),
            Token::Comment(s) => SpecToken::Comment(s@),
        }
    }
}

impl Clone for Token {
    fn clone(&self) -> (r: Self)
        ensures
            r@ == self@,
    {
        match self {
            Token::Plain(s) => Token::Plain(s.clone()),
            Token::Punctuation(s) => Token::Punctuation(s.clone()),
            Token::Comment(s) => Token::Comment(s.clone()),
        }
    }
}

impl Natural for Token {
    open spec fn natural(&self) -> Seq<char> {
        self@.content()
    }

    fn as_natural(&self) -> (r: String) {
        match self {
            Token::Plain(s) => s.clone(),
            Token::Punctuation(s) => s.clone(),
            Token::Comment(s) => s.clone(),
        }
    }
}

impl Token {
    /// The characters of the token, whatever its kind.
    pub fn content(&self) -> (r: &str)
        ensures
            r@ == self@.content(),
    {
        match self {
            Token::Plain(s) => s.as_str(),
            Token::Punctuation(s) => s.as_str(),
            Token::Comment(s) => s.as_str(),
        }
    }
}

/// A token and the place in the text where it was read.
pub struct SpecTokenWithLocation {
    pub token: SpecToken,
    pub line: usize,
    pub column: usize,
}

/// A token and the place in the text where it was read.
#[derive(Debug)]
pub struct TokenWithLocation {
    token: Token,
    line: usize,
    column: usize,
}

impl View for TokenWithLocation {
    type V = SpecTokenWithLocation;

    closed spec fn view(&self) -> SpecTokenWithLocation {
        SpecTokenWithLocation { token: self.token@, line: self.line, column: self.column }
    }
}

impl Clone for TokenWithLocation {
    fn clone(&self) -> (r: Self)
        ensures
            r@ == self@,
    {
        TokenWithLocation { token: self.token.clone(), line: self.line, column: self.column }
    }
}

impl TokenWithLocation {
    /// The token, without its place.
    pub fn peek_inner(&self) -> (r: &Token)
        ensures
            r@ == self@.token,
    {
        &self.token
    }

    /// The line the token was read on, counting from 1.
    pub fn line(&self) -> (r: usize)
        ensures
            r == self@.line,
    {
        self.line
    }

    /// The column the token was read at, counting from 1.
    pub fn column(&self) -> (r: usize)
        ensures
            r == self@.column,
    {
        self.column
    }
}

impl From<TokenWithLocation> for Token {
    fn from(value: TokenWithLocation) -> (r: Self)
        ensures
            r@ == value@.token,
    {
        value.token
    }
}

impl vstd::std_specs::convert::FromSpecImpl<TokenWithLocation> for Token {
    open spec fn obeys_from_spec() -> bool {
        true
    }

    closed spec fn from_spec(v: TokenWithLocation) -> Token {
        v.token
    }
}

/// The tokens of a vector, as values.
pub open spec fn located_view(v: Seq<TokenWithLocation>) -> Seq<SpecTokenWithLocation> {
    v.map_values(|t: TokenWithLocation| t@)
}

/// A token read at the given place.
pub open spec fn located(t: SpecToken, line: usize, column: usize) -> SpecTokenWithLocation {
    SpecTokenWithLocation { token: t, line, column }
}

/// The word token for an optional part, or none.
pub open spec fn part_tokens(o: Option<Seq<char>>, line: usize, column: usize) -> Seq<
    SpecTokenWithLocation,
> {
    match o {
        Some(x) => seq![located(SpecToken::Plain(x), line, column)],
        None => seq![],
    }
}

/// The tokens that a split word gives: prefix, root, suffix and second suffix, each
/// where present, all at the same place.
pub open spec fn word_tokens(w: SpecFeaturedWord, line: usize, column: usize) -> Seq<
    SpecTokenWithLocation,
> {
    part_tokens(w.prefix, line, column) + seq![located(SpecToken::Plain(w.root), line, column)]
        + part_tokens(w.suffix, line, column) + part_tokens(w.sufsuffix, line, column)
}

/// Why reading characters failed.
pub enum SpecTokenizationError {
    UnexpectedEndOfInput,
    InvalidCharacter { character: char, line: usize, column: usize },
    UnknownWord { word: Seq<char>, line: usize, column: usize },
    ErrorInString { remainder: Seq<char>, inner: Box<SpecTokenizationError> },
    NotEmptyBuffer(Seq<char>),
}

/// Why reading characters failed.
#[derive(Debug)]
pub enum TokenizationError {
    UnexpectedEndOfInput,
    InvalidCharacter { character: char, line: usize, column: usize },
    UnknownWord { word: String, line: usize, column: usize },
    ErrorInString { remainder: String, inner: Box<TokenizationError> },
    NotEmptyBuffer(String),
}

/// The value of a tokenization error.
pub open spec fn tokenization_error_view(e: &TokenizationError) -> SpecTokenizationError
    decreases e,
{
    match e {
        TokenizationError::UnexpectedEndOfInput => SpecTokenizationError::UnexpectedEndOfInput,
        TokenizationError::InvalidCharacter { character, line, column } => {
            SpecTokenizationError::InvalidCharacter {
                character: *character,
                line: *line,
                column: *column,
            }
        },
        TokenizationError::UnknownWord { word, line, column } => {
            SpecTokenizationError::UnknownWord { word: word@, line: *line, column: *column }
        },
        TokenizationError::ErrorInString { remainder, inner } => {
            SpecTokenizationError::ErrorInString {
                remainder: remainder@,
                inner: Box::new(tokenization_error_view(inner)),
            }
        },
        TokenizationError::NotEmptyBuffer(s) => SpecTokenizationError::NotEmptyBuffer(s@),
    }
}

impl View for TokenizationError {
    type V = SpecTokenizationError;

    open spec fn view(&self) -> SpecTokenizationError {
        tokenization_error_view(self)
    }
}

/// The state of the tokenizer: the letters of the word being read, the place of the
/// next character, and the word table.
pub struct SpecTokenizer {
    pub buffer: Seq<char>,
    pub line: usize,
    pub column: usize,
    pub words: Seq<SpecEntry>,
}

/// Reads text one character at a time and gives back tokens.
pub struct TokenizationState {
    buffer: String,
    line: usize,
    column: usize,
    words: WordTable,
}

impl View for TokenizationState {
    type V = SpecTokenizer;

    closed spec fn view(&self) -> SpecTokenizer {
        SpecTokenizer {
            buffer: self.buffer@,
            line: self.line,
            column: self.column,
            words: self.words@,
        }
    }
}

/// Ends the word being read: nothing where no letter is waiting; otherwise the tokens of
/// the word, at the current place, and an empty buffer; an error where the table does not
/// know the word.
pub open spec fn commit_word(st: SpecTokenizer) -> Result<
    (SpecTokenizer, Seq<SpecTokenWithLocation>),
    SpecTokenizationError,
> {
    if st.buffer.len() == 0 {
        Ok((st, seq![]))
    } else {
        match lookup(st.words, st.buffer) {
            Some(w) => Ok(
                (
                    SpecTokenizer {
                        buffer: seq![],
                        line: st.line,
                        column: st.column,
                        words: st.words,
                    },
                    word_tokens(w, st.line, st.column),
                ),
            ),
            None => Err(
                SpecTokenizationError::UnknownWord {
                    word: st.buffer,
                    line: st.line,
                    column: st.column,
                },
            ),
        }
    }
}

/// Whether `c` is one of the marks that end a word and stand as a token of their own.
pub open spec fn is_mark(c: char) -> bool {
    c == '.' || c == ':' || c == ','
}

/// One step of the tokenizer. White space ends the word and moves one column on; a line
/// feed also gives a line-feed token and starts the next line. A full stop or a colon
/// ends the word and gives a punctuation token, a comma a comment token. A letter is kept
/// for the word being read. Any other character is refused.
pub open spec fn tokenize_char(st: SpecTokenizer, c: char) -> Result<
    (SpecTokenizer, Seq<SpecTokenWithLocation>),
    SpecTokenizationError,
> {
    if is_white_space(c) {
        match commit_word(st) {
            Err(e) => Err(e),
            Ok((s, ts)) => {
                let col = (s.column + 1) as usize;
                if c == '\n' {
                    Ok(
                        (
                            SpecTokenizer {
                                buffer: s.buffer,
                                line: (s.line + 1) as usize,
                                column: 1,
                                words: s.words,
                            },
                            ts.push(located(SpecToken::Punctuation(seq!['\n']), s.line, col)),
                        ),
                    )
                } else {
                    Ok(
                        (
                            SpecTokenizer {
                                buffer: s.buffer,
                                line: s.line,
                                column: col,
                                words: s.words,
                            },
                            ts,
                        ),
                    )
                }
            },
        }
    } else if is_mark(c) {
        match commit_word(st) {
            Err(e) => Err(e),
            Ok((s, ts)) => {
                let t = if c != ',' {
                    SpecToken::Punctuation(seq![c])
                } else {
                    SpecToken::Comment(seq![c])
                };
                Ok(
                    (
                        SpecTokenizer {
                            buffer: s.buffer,
                            line: s.line,
                            column: (s.column + 1) as usize,
                            words: s.words,
                        },
                        ts.push(located(t, s.line, s.column)),
                    ),
                )
            },
        }
    } else if is_ascii_letter(c) {
        Ok(
            (
                SpecTokenizer {
                    buffer: st.buffer.push(c),
                    line: st.line,
                    column: (st.column + 1) as usize,
                    words: st.words,
                },
                seq![],
            ),
        )
    } else {
        Err(
            SpecTokenizationError::InvalidCharacter {
                character: c,
                line: st.line,
                column: st.column,
            },
        )
    }
}

/// The step for `c` moves the line and column counters only within `usize`.
pub open spec fn increments_fit(st: SpecTokenizer, c: char) -> bool {
    if is_white_space(c) {
        commit_word(st) is Ok ==> st.column < usize::MAX && (c == '\n' ==> st.line
            < usize::MAX)
    } else if is_mark(c) {
        commit_word(st) is Ok ==> st.column < usize::MAX
    } else if is_ascii_letter(c) {
        st.column < usize::MAX
    } else {
        true
    }
}

/// The tokenizer after the first `n` characters of `cs`, with the tokens given so far; or
/// the index of the character that was refused, the state before it, and the error.
pub open spec fn tokenize_prefix(st: SpecTokenizer, cs: Seq<char>, n: nat) -> Result<
    (SpecTokenizer, Seq<SpecTokenWithLocation>),
    (int, SpecTokenizer, SpecTokenizationError),
>
    decreases n,
{
    if n == 0 {
        Ok((st, seq![]))
    } else {
        match tokenize_prefix(st, cs, (n - 1) as nat) {
            Ok((s, ts)) => match tokenize_char(s, cs[n - 1]) {
                Ok((s2, ts2)) => Ok((s2, ts + ts2)),
                Err(e) => Err((n - 1, s, e)),
            },
            Err(x) => Err(x),
        }
    }
}

/// No step on the first `n` characters of `cs` overflows a counter.
pub open spec fn prefix_fits(st: SpecTokenizer, cs: Seq<char>, n: nat) -> bool
    decreases n,
{
    if n == 0 {
        true
    } else {
        prefix_fits(st, cs, (n - 1) as nat) && match tokenize_prefix(st, cs, (n - 1) as nat) {
            Ok((s, _)) => increments_fit(s, cs[n - 1]),
            Err(_) => true,
        }
    }
}

impl TokenizationState {
    /// A tokenizer at line 1, column 1, with nothing read, over the language's vocabulary.
    pub fn new() -> (r: Self)
        ensures
            r@.buffer.len() == 0,
            r@.line == 1,
            r@.column == 1,
            r@.words == crate::lexicon::word_entries(crate::lexicon::standard_lexicon()),
    {
        let lexicon = Lexicon::standard();
        TokenizationState { buffer: String::new(), line: 1, column: 1, words: make_map(&lexicon) }
    }

    /// A tokenizer at line 1, column 1, with nothing read, over the given vocabulary.
    pub fn with_lexicon(lexicon: &Lexicon) -> (r: Self)
        ensures
            r@.buffer.len() == 0,
            r@.line == 1,
            r@.column == 1,
            r@.words == crate::lexicon::word_entries(lexicon@),
    {
        TokenizationState { buffer: String::new(), line: 1, column: 1, words: make_map(lexicon) }
    }

    /// The line of the next character.
    pub fn line(&self) -> (r: usize)
        ensures
            r == self@.line,
    {
        self.line
    }

    /// The column of the next character.
    pub fn column(&self) -> (r: usize)
        ensures
            r == self@.column,
    {
        self.column
    }

    /// Succeeds where no letter waits to be read as a word; otherwise gives back those
    /// letters.
    pub fn is_empty(&self) -> (r: Result<(), TokenizationError>)
        ensures
            self@.buffer.len() == 0 ==> r is Ok,
            self@.buffer.len() != 0 ==> (r matches Err(e) && e@
                == SpecTokenizationError::NotEmptyBuffer(self@.buffer)),
    {
        if self.buffer.as_str().is_empty() {
            Ok(())
        } else {
            Err(TokenizationError::NotEmptyBuffer(self.buffer.clone()))
        }
    }

    fn commit_buffer(&mut self) -> (r: Result<Vec<TokenWithLocation>, TokenizationError>)
        ensures
            commit_word(old(self)@) matches Ok((s, ts)) ==> (r matches Ok(v) && located_view(v@)
                == ts && final(self)@ == s),
            commit_word(old(self)@) matches Err(e) ==> (r matches Err(x) && x@ == e && final(self)@
                == old(self)@),
    {
        if self.buffer.as_str().is_empty() {
            let v: Vec<TokenWithLocation> = Vec::new();
            assert(located_view(v@) =~= seq![]);
            return Ok(v);
        }
        match self.words.get(&self.buffer) {
            Some(featured) => {
                let ghost w = featured@;
                let mut tokens: Vec<TokenWithLocation> = Vec::new();
                if let Some(prefix) = featured.prefix {
                    tokens.push(
                        TokenWithLocation {
                            token: Token::Plain(owned(prefix)),
                            line: self.line,
                            column: self.column,
                        },
                    );
                }
                assert(located_view(tokens@) =~= part_tokens(w.prefix, self.line, self.column));
                tokens.push(
                    TokenWithLocation {
                        token: Token::Plain(owned(featured.root)),
                        line: self.line,
                        column: self.column,
                    },
                );
                assert(located_view(tokens@) =~= part_tokens(w.prefix, self.line, self.column)
                    + seq![located(SpecToken::Plain(w.root), self.line, self.column)]);
                if let Some(suffix) = featured.suffix {
                    tokens.push(
                        TokenWithLocation {
                            token: Token::Plain(owned(suffix)),
                            line: self.line,
                            column: self.column,
                        },
                    );
                }
                assert(located_view(tokens@) =~= part_tokens(w.prefix, self.line, self.column)
                    + seq![located(SpecToken::Plain(w.root), self.line, self.column)]
                    + part_tokens(w.suffix, self.line, self.column));
                if let Some(sufsuffix) = featured.sufsuffix {
                    tokens.push(
                        TokenWithLocation {
                            token: Token::Plain(owned(sufsuffix)),
                            line: self.line,
                            column: self.column,
                        },
                    );
                }
                assert(located_view(tokens@) =~= word_tokens(w, self.line, self.column));
                self.buffer = String::new();
                assert(self@.buffer =~= seq![]);
                Ok(tokens)
            },
            None => Err(
                TokenizationError::UnknownWord {
                    word: self.buffer.clone(),
                    line: self.line,
                    column: self.column,
                },
            ),
        }
    }

    /// Reads one character: see `tokenize_char`. On an error nothing changes.
    pub fn feed_one(&mut self, c: char) -> (r: Result<Vec<TokenWithLocation>, TokenizationError>)
        requires
            increments_fit(old(self)@, c),
        ensures
            tokenize_char(old(self)@, c) matches Ok((s, ts)) ==> (r matches Ok(v) && located_view(
                v@,
            ) == ts && final(self)@ == s),
            tokenize_char(old(self)@, c) matches Err(e) ==> (r matches Err(x) && x@ == e && final(
                self)@ == old(self)@),
    {
        if char_is_whitespace(c) {
            let mut tokens = self.commit_buffer()?;
            self.column = self.column + 1;
            if c == '\n' {
                let ghost before = located_view(tokens@);
                tokens.push(
                    TokenWithLocation {
                        token: Token::Punctuation(char_string('\n')),
                        line: self.line,
                        column: self.column,
                    },
                );
                assert(located_view(tokens@) =~= before.push(
                    located(SpecToken::Punctuation(seq!['\n']), self.line, self.column),
                ));
                self.line = self.line + 1;
                self.column = 1;
            }
            Ok(tokens)
        } else if c == '.' || c == ':' || c == ',' {
            let mut tokens = self.commit_buffer()?;
            let ghost before = located_view(tokens@);
            if c != ',' {
                tokens.push(
                    TokenWithLocation {
                        token: Token::Punctuation(char_string(c)),
                        line: self.line,
                        column: self.column,
                    },
                );
            } else {
                tokens.push(
                    TokenWithLocation {
                        token: Token::Comment(char_string(c)),
                        line: self.line,
                        column: self.column,
                    },
                );
            }
            assert(located_view(tokens@) =~= before.push(located_view(tokens@).last()));
            self.column = self.column + 1;
            Ok(tokens)
        } else if ascii_letter(c) {
            crate::text::push_char(&mut self.buffer, c);
            self.column = self.column + 1;
            let v: Vec<TokenWithLocation> = Vec::new();
            assert(located_view(v@) =~= seq![]);
            Ok(v)
        } else {
            Err(
                TokenizationError::InvalidCharacter {
                    character: c,
                    line: self.line,
                    column: self.column,
                },
            )
        }
    }

    /// Reads every character of `input` as `feed` does, where the line and the column
    /// leave room for the whole text; otherwise reads nothing and gives back `None`.
    pub fn try_feed(&mut self, input: &str) -> (r: Option<
        Result<Vec<TokenWithLocation>, TokenizationError>,
    >)
        ensures
            r is None <==> !(old(self)@.line + input@.len() < usize::MAX && old(self)@.column
                + input@.len() < usize::MAX),
            r is None ==> final(self)@ == old(self)@,
            r matches Some(x) ==> (tokenize_prefix(old(self)@, input@, input@.len()) matches Ok(
                (s, ts),
            ) ==> (x matches Ok(v) && located_view(v@) == ts && final(self)@ == s)),
            r matches Some(x) ==> (tokenize_prefix(old(self)@, input@, input@.len()) matches Err(
                (i, s, e),
            ) ==> (x matches Err(y) && y@ == (SpecTokenizationError::ErrorInString {
                remainder: input@.skip(i),
                inner: Box::new(e),
            }) && final(self)@ == s)),
    {
        let n = input.unicode_len();
        if self.line < usize::MAX - n && self.column < usize::MAX - n {
            proof {
                lemma_room_fits(self@, input@, input@.len());
            }
            Some(self.feed(input))
        } else {
            None
        }
    }

    /// Reads every character of `input` in turn: see `tokenize_prefix`. On an error the
    /// characters from the refused one on are given back with it, and the tokenizer stays
    /// as it was before that character.
    pub fn feed(&mut self, input: &str) -> (r: Result<Vec<TokenWithLocation>, TokenizationError>)
        requires
            prefix_fits(old(self)@, input@, input@.len()),
        ensures
            tokenize_prefix(old(self)@, input@, input@.len()) matches Ok((s, ts)) ==> (r matches Ok(
                v,
            ) && located_view(v@) == ts && final(self)@ == s),
            tokenize_prefix(old(self)@, input@, input@.len()) matches Err((i, s, e)) ==> (r matches Err(
                x,
            ) && x@ == (SpecTokenizationError::ErrorInString {
                remainder: input@.skip(i),
                inner: Box::new(e),
            }) && final(self)@ == s),
    {
        let n = input.unicode_len();
        let ghost st0 = self@;
        let mut tokens: Vec<TokenWithLocation> = Vec::new();
        let mut i: usize = 0;
        assert(located_view(tokens@) =~= seq![]);
        while i < n
            invariant
                n == input@.len(),
                i <= n,
                st0 == old(self)@,
                prefix_fits(st0, input@, n as nat),
                tokenize_prefix(st0, input@, i as nat) == Ok::<
                    (SpecTokenizer, Seq<SpecTokenWithLocation>),
                    (int, SpecTokenizer, SpecTokenizationError),
                >((self@, located_view(tokens@))),
            decreases n - i,
        {
            let c = input.get_char(i);
            proof {
                lemma_prefix_fits_smaller(st0, input@, n as nat, (i + 1) as nat);
            }
            match self.feed_one(c) {
                Ok(ts) => {
                    let ghost before = located_view(tokens@);
                    let ghost added = located_view(ts@);
                    let mut ts = ts;
                    tokens.append(&mut ts);
                    assert(located_view(tokens@) =~= before + added);
                    i = i + 1;
                },
                Err(e) => {
                    proof {
                        lemma_prefix_error_stays(st0, input@, (i + 1) as nat, n as nat);
                    }
                    let remainder = owned(input.substring_char(i, n));
                    return Err(TokenizationError::ErrorInString { remainder, inner: Box::new(e) });
                },
            }
        }
        Ok(tokens)
    }
}

/// Reading `n` characters moves the line and the column on by at most `n` each, so
/// counters that leave room for the whole text never overflow.
pub proof fn lemma_room_fits(st: SpecTokenizer, cs: Seq<char>, n: nat)
    requires
        n <= cs.len(),
        st.line + cs.len() < usize::MAX,
        st.column + cs.len() < usize::MAX,
    ensures
        prefix_fits(st, cs, n),
        tokenize_prefix(st, cs, n) matches Ok((s, _)) ==> s.line <= st.line + n && s.column
            <= st.column + n,
    decreases n,
{
    if n > 0 {
        lemma_room_fits(st, cs, (n - 1) as nat);
    }
}

proof fn lemma_prefix_error_stays(st: SpecTokenizer, cs: Seq<char>, k: nat, m: nat)
    requires
        k <= m,
        tokenize_prefix(st, cs, k) is Err,
    ensures
        tokenize_prefix(st, cs, m) == tokenize_prefix(st, cs, k),
    decreases m,
{
    if k < m {
        lemma_prefix_error_stays(st, cs, k, (m - 1) as nat);
    }
}

proof fn lemma_prefix_fits_smaller(st: SpecTokenizer, cs: Seq<char>, n: nat, m: nat)
    requires
        m <= n,
        prefix_fits(st, cs, n),
    ensures
        prefix_fits(st, cs, m),
    decreases n,
{
    if m < n {
        lemma_prefix_fits_smaller(st, cs, (n - 1) as nat, m);
    }
}


proof fn lemma_prefix_of_concat(st: SpecTokenizer, a: Seq<char>, b: Seq<char>, n: nat)
    requires
        n <= a.len(),
    ensures
        tokenize_prefix(st, a + b, n) == tokenize_prefix(st, a, n),
    decreases n,
{
    if n > 0 {
        lemma_prefix_of_concat(st, a, b, (n - 1) as nat);
        assert((a + b)[n - 1] == a[n - 1]);
    }
}

proof fn lemma_suffix_of_concat(
    st: SpecTokenizer,
    a: Seq<char>,
    b: Seq<char>,
    s1: SpecTokenizer,
    t1: Seq<SpecTokenWithLocation>,
    m: nat,
)
    requires
        m <= b.len(),
        tokenize_prefix(st, a, a.len()) == Ok::<
            (SpecTokenizer, Seq<SpecTokenWithLocation>),
            (int, SpecTokenizer, SpecTokenizationError),
        >((s1, t1)),
    ensures
        tokenize_prefix(st, a + b, a.len() + m) == match tokenize_prefix(s1, b, m) {
            Ok((s2, t2)) => Ok((s2, t1 + t2)),
            Err((i, s, e)) => Err((a.len() + i, s, e)),
        },
    decreases m,
{
    if m == 0 {
        lemma_prefix_of_concat(st, a, b, a.len());
        assert(t1 + seq![] =~= t1);
    } else {
        lemma_suffix_of_concat(st, a, b, s1, t1, (m - 1) as nat);
        assert((a + b)[a.len() + m - 1] == b[m - 1]);
        if let Ok((s2, t2)) = tokenize_prefix(s1, b, (m - 1) as nat) {
            if let Ok((s3, t3)) = tokenize_char(s2, b[m - 1]) {
                assert(t1 + t2 + t3 =~= t1 + (t2 + t3));
            }
        }
    }
}

/// Law: reading a text in two pieces gives what reading it whole gives: the tokens of the
/// first piece, then those of the second read from where the first left the tokenizer;
/// an error in either piece is the error of the whole, at its place in the whole.
pub proof fn lemma_feed_in_pieces(st: SpecTokenizer, a: Seq<char>, b: Seq<char>)
    ensures
        tokenize_prefix(st, a + b, (a + b).len()) == match tokenize_prefix(st, a, a.len()) {
            Ok((s1, t1)) => match tokenize_prefix(s1, b, b.len()) {
                Ok((s2, t2)) => Ok((s2, t1 + t2)),
                Err((i, s, e)) => Err((a.len() + i, s, e)),
            },
            Err(x) => Err(x),
        },
{
    match tokenize_prefix(st, a, a.len()) {
        Ok((s1, t1)) => {
            lemma_suffix_of_concat(st, a, b, s1, t1, b.len());
        },
        Err(x) => {
            lemma_prefix_of_concat(st, a, b, a.len());
            lemma_prefix_error_stays(st, a + b, a.len(), (a + b).len());
        },
    }
}

/// Law: the plain tokens that a word gives spell the word, and come from the vocabulary
/// as a word may be built.
pub proof fn lemma_committed_word_spells(st: SpecTokenizer, lex: crate::lexicon::SpecLexicon)
    requires
        st.words == crate::lexicon::word_entries(lex),
        st.buffer.len() != 0,
        commit_word(st) is Ok,
    ensures
        ({
            let ts = commit_word(st)->Ok_0.1;
            &&& forall|i: int| 0 <= i < ts.len() ==> (#[trigger] ts[i]).token is Plain
            &&& tokens_spelling(ts, ts.len()) == st.buffer
        }),
{
    crate::lexicon::lemma_lookup_spells(lex, st.buffer);
    let w = lookup(st.words, st.buffer)->Some_0;
    let ts = word_tokens(w, st.line, st.column);
    reveal_with_fuel(tokens_spelling, 5);
    let p = part_tokens(w.prefix, st.line, st.column);
    let r = seq![located(SpecToken::Plain(w.root), st.line, st.column)];
    let sfx = part_tokens(w.suffix, st.line, st.column);
    let t = part_tokens(w.sufsuffix, st.line, st.column);
    lemma_spelling_concat(p + r + sfx, t);
    lemma_spelling_concat(p + r, sfx);
    lemma_spelling_concat(p, r);
    assert(tokens_spelling(p, p.len()) == crate::lexicon::opt_chars(w.prefix));
    assert(tokens_spelling(sfx, sfx.len()) == crate::lexicon::opt_chars(w.suffix));
    assert(tokens_spelling(t, t.len()) == crate::lexicon::opt_chars(w.sufsuffix));
    assert(tokens_spelling(r, r.len()) =~= seq![] + w.root);
}

/// Law: one character of the tokenizer, case by case. A letter is kept for the word and
/// moves one column on, giving nothing. White space or a mark where the waiting word is
/// known (or none waits) gives the word's tokens and then: for a full stop or a colon a
/// punctuation token, for a comma a comment token, each at the old place; for a line feed
/// a line-feed token one column on, after which the next line starts at column 1; for
/// other white space nothing, one column on. The step fails exactly on a character that is
/// none of these, with `InvalidCharacter` at the old place, and on white space or a mark
/// after an unknown word, with `UnknownWord` at the old place.
pub proof fn lemma_tokenize_char_cases(st: SpecTokenizer, c: char)
    ensures
        is_ascii_letter(c) ==> tokenize_char(st, c) == Ok::<
            (SpecTokenizer, Seq<SpecTokenWithLocation>),
            SpecTokenizationError,
        >(
            (
                SpecTokenizer {
                    buffer: st.buffer.push(c),
                    column: (st.column + 1) as usize,
                    ..st
                },
                seq![],
            ),
        ),
        (is_white_space(c) || is_mark(c)) && commit_word(st) is Ok ==> ({
            let (s, ws) = commit_word(st)->Ok_0;
            let d = if c == '\n' {
                seq![located(SpecToken::Punctuation(seq!['\n']), st.line, (st.column + 1) as usize)]
            } else if is_white_space(c) {
                seq![]
            } else if c == ',' {
                seq![located(SpecToken::Comment(seq![c]), st.line, st.column)]
            } else {
                seq![located(SpecToken::Punctuation(seq![c]), st.line, st.column)]
            };
            &&& s.buffer.len() == 0
            &&& tokenize_char(st, c) is Ok
            &&& tokenize_char(st, c)->Ok_0.1 == ws + d
            &&& tokenize_char(st, c)->Ok_0.0.buffer.len() == 0
            &&& tokenize_char(st, c)->Ok_0.0.line == (if c == '\n' {
                (st.line + 1) as usize
            } else {
                st.line
            })
            &&& tokenize_char(st, c)->Ok_0.0.column == (if c == '\n' {
                1usize
            } else {
                (st.column + 1) as usize
            })
        }),
        tokenize_char(st, c) is Err <==> (!is_white_space(c) && !is_mark(c) && !is_ascii_letter(
            c,
        )) || ((is_white_space(c) || is_mark(c)) && commit_word(st) is Err),
        !is_white_space(c) && !is_mark(c) && !is_ascii_letter(c) ==> tokenize_char(st, c)
            == Err::<(SpecTokenizer, Seq<SpecTokenWithLocation>), SpecTokenizationError>(
            SpecTokenizationError::InvalidCharacter { character: c, line: st.line, column: st.column },
        ),
        (is_white_space(c) || is_mark(c)) && st.buffer.len() != 0 && lookup(st.words, st.buffer)
            is None ==> tokenize_char(st, c) == Err::<
            (SpecTokenizer, Seq<SpecTokenWithLocation>),
            SpecTokenizationError,
        >(
            SpecTokenizationError::UnknownWord {
                word: st.buffer,
                line: st.line,
                column: st.column,
            },
        ),
{
    if is_ascii_letter(c) {
        assert(!is_white_space(c));
        assert(!is_mark(c));
    }
    if (is_white_space(c) || is_mark(c)) && commit_word(st) is Ok {
        let (s, ws) = commit_word(st)->Ok_0;
        if is_white_space(c) {
            if c != '\n' {
                assert(ws + seq![] =~= ws);
            } else {
                assert(ws.push(located(SpecToken::Punctuation(seq!['\n']), st.line, (st.column + 1) as usize))
                    =~= ws + seq![located(SpecToken::Punctuation(seq!['\n']), st.line, (st.column + 1) as usize)]);
            }
        } else {
            let t = if c != ',' {
                SpecToken::Punctuation(seq![c])
            } else {
                SpecToken::Comment(seq![c])
            };
            assert(ws.push(located(t, st.line, st.column)) =~= ws + seq![
                located(t, st.line, st.column),
            ]);
        }
    }
}

/// Law: ending a word with a table made from a vocabulary. With no letter waiting it gives
/// nothing and changes nothing; a word the table does not know is refused with
/// `UnknownWord` at the current place; a known word gives its prefix, root, suffix and
/// second suffix, each present part as a plain token at the current place, whose
/// characters spell the word, and leaves nothing waiting, at the same place.
pub proof fn lemma_commit_word_cases(st: SpecTokenizer, lex: crate::lexicon::SpecLexicon)
    requires
        st.words == crate::lexicon::word_entries(lex),
    ensures
        st.buffer.len() == 0 ==> commit_word(st) == Ok::<
            (SpecTokenizer, Seq<SpecTokenWithLocation>),
            SpecTokenizationError,
        >((st, seq![])),
        st.buffer.len() != 0 && lookup(st.words, st.buffer) is None ==> commit_word(st) == Err::<
            (SpecTokenizer, Seq<SpecTokenWithLocation>),
            SpecTokenizationError,
        >(
            SpecTokenizationError::UnknownWord {
                word: st.buffer,
                line: st.line,
                column: st.column,
            },
        ),
        st.buffer.len() != 0 && lookup(st.words, st.buffer) is Some ==> ({
            let w = lookup(st.words, st.buffer)->Some_0;
            let (s, ts) = commit_word(st)->Ok_0;
            &&& commit_word(st) is Ok
            &&& ts == word_tokens(w, st.line, st.column)
            &&& forall|i: int| 0 <= i < ts.len() ==> (#[trigger] ts[i]).token is Plain
            &&& tokens_spelling(ts, ts.len()) == st.buffer
            &&& s == SpecTokenizer { buffer: seq![], ..st }
        }),
{
    if st.buffer.len() != 0 && lookup(st.words, st.buffer) is Some {
        lemma_committed_word_spells(st, lex);
    }
}

/// Law: feeding a text and then a second text gives the tokens of the whole text fed at
/// once, and leaves the tokenizer where feeding the whole leaves it.
pub proof fn lemma_feed_concatenation(st: SpecTokenizer, a: Seq<char>, b: Seq<char>)
    requires
        tokenize_prefix(st, a, a.len()) is Ok,
        tokenize_prefix(tokenize_prefix(st, a, a.len())->Ok_0.0, b, b.len()) is Ok,
    ensures
        tokenize_prefix(st, a + b, (a + b).len()) == Ok::<
            (SpecTokenizer, Seq<SpecTokenWithLocation>),
            (int, SpecTokenizer, SpecTokenizationError),
        >(
            (
                tokenize_prefix(tokenize_prefix(st, a, a.len())->Ok_0.0, b, b.len())->Ok_0.0,
                tokenize_prefix(st, a, a.len())->Ok_0.1 + tokenize_prefix(
                    tokenize_prefix(st, a, a.len())->Ok_0.0,
                    b,
                    b.len(),
                )->Ok_0.1,
            ),
        ),
{
    lemma_feed_in_pieces(st, a, b);
}

/// The characters of a text without its white space, line feeds kept.
pub open spec fn without_spaces(cs: Seq<char>) -> Seq<char>
    decreases cs.len(),
{
    if cs.len() == 0 {
        seq![]
    } else if is_white_space(cs.last()) && cs.last() != '\n' {
        without_spaces(cs.drop_last())
    } else {
        without_spaces(cs.drop_last()).push(cs.last())
    }
}

proof fn lemma_word_spelling(st: SpecTokenizer, lex: crate::lexicon::SpecLexicon)
    requires
        st.words == crate::lexicon::word_entries(lex),
        commit_word(st) is Ok,
    ensures
        tokens_spelling(commit_word(st)->Ok_0.1, commit_word(st)->Ok_0.1.len()) == st.buffer,
        commit_word(st)->Ok_0.0.buffer.len() == 0,
        commit_word(st)->Ok_0.0.words == st.words,
{
    if st.buffer.len() != 0 {
        lemma_committed_word_spells(st, lex);
    } else {
        assert(st.buffer =~= seq![]);
    }
}

proof fn lemma_spelling_push(ts: Seq<SpecTokenWithLocation>, t: SpecTokenWithLocation)
    ensures
        tokens_spelling(ts.push(t), ts.len() + 1) == tokens_spelling(ts, ts.len())
            + t.token.content(),
{
    lemma_spelling_concat(ts, seq![t]);
    assert(ts + seq![t] =~= ts.push(t));
    reveal_with_fuel(tokens_spelling, 2);
    assert(tokens_spelling(seq![t], 1) =~= seq![] + t.token.content());
}

proof fn lemma_prefix_spells(
    st: SpecTokenizer,
    lex: crate::lexicon::SpecLexicon,
    cs: Seq<char>,
    n: nat,
)
    requires
        n <= cs.len(),
        st.words == crate::lexicon::word_entries(lex),
        st.buffer.len() == 0,
        tokenize_prefix(st, cs, n) is Ok,
    ensures
        ({
            let (s, ts) = tokenize_prefix(st, cs, n)->Ok_0;
            &&& s.words == st.words
            &&& tokens_spelling(ts, ts.len()) + s.buffer == without_spaces(cs.take(n as int))
        }),
    decreases n,
{
    if n == 0 {
        assert(cs.take(0) =~= seq![]);
        assert(st.buffer =~= seq![]);
    } else {
        let m = (n - 1) as nat;
        assert(tokenize_prefix(st, cs, m) is Ok);
        lemma_prefix_spells(st, lex, cs, m);
        let (s, ts) = tokenize_prefix(st, cs, m)->Ok_0;
        let c = cs[m as int];
        let (s2, ts2) = tokenize_char(s, c)->Ok_0;
        assert(cs.take(n as int).drop_last() =~= cs.take(m as int));
        assert(cs.take(n as int).last() == c);
        let prev = without_spaces(cs.take(m as int));
        lemma_spelling_concat(ts, ts2);
        if is_white_space(c) || is_mark(c) {
            let (sc, tc) = commit_word(s)->Ok_0;
            lemma_word_spelling(s, lex);
            if is_white_space(c) {
                if c == '\n' {
                    lemma_spelling_push(tc, ts2.last());
                    assert(ts2 == tc.push(ts2.last()));
                    assert(ts2.last().token.content() =~= seq!['\n']);
                    assert(tokens_spelling(ts, ts.len()) + tokens_spelling(ts2, ts2.len())
                        + s2.buffer =~= prev.push(c));
                } else {
                    assert(s2.buffer =~= seq![]);
                    assert(tokens_spelling(ts, ts.len()) + tokens_spelling(ts2, ts2.len())
                        + s2.buffer =~= prev);
                }
            } else {
                lemma_spelling_push(tc, ts2.last());
                assert(ts2 == tc.push(ts2.last()));
                assert(ts2.last().token.content() =~= seq![c]);
                assert(tokens_spelling(ts, ts.len()) + tokens_spelling(ts2, ts2.len())
                    + s2.buffer =~= prev.push(c));
            }
        } else {
            assert(ts2 =~= seq![]);
            assert(tokens_spelling(ts2, 0) =~= seq![]);
            assert(tokens_spelling(ts, ts.len()) + tokens_spelling(ts2, ts2.len()) + s2.buffer
                =~= prev.push(c));
        }
    }
}

/// Law: reading a text from a tokenizer with no letter waiting gives tokens whose
/// characters, followed by the letters still waiting, are the text without its white
/// space (line feeds kept); so where no letter is left waiting, the tokens spell the
/// text without its white space.
pub proof fn lemma_tokens_spell_input(
    st: SpecTokenizer,
    lex: crate::lexicon::SpecLexicon,
    cs: Seq<char>,
)
    requires
        st.words == crate::lexicon::word_entries(lex),
        st.buffer.len() == 0,
        tokenize_prefix(st, cs, cs.len()) is Ok,
    ensures
        ({
            let (s, ts) = tokenize_prefix(st, cs, cs.len())->Ok_0;
            &&& tokens_spelling(ts, ts.len()) + s.buffer == without_spaces(cs)
            &&& s.buffer.len() == 0 ==> tokens_spelling(ts, ts.len()) == without_spaces(cs)
        }),
{
    lemma_prefix_spells(st, lex, cs, cs.len());
    assert(cs.take(cs.len() as int) =~= cs);
    let (s, ts) = tokenize_prefix(st, cs, cs.len())->Ok_0;
    if s.buffer.len() == 0 {
        assert(tokens_spelling(ts, ts.len()) + s.buffer =~= tokens_spelling(ts, ts.len()));
    }
}

/// The characters of the first `n` tokens, written together.
pub open spec fn tokens_spelling(ts: Seq<SpecTokenWithLocation>, n: nat) -> Seq<char>
    decreases n,
{
    if n == 0 || n > ts.len() {
        seq![]
    } else {
        tokens_spelling(ts, (n - 1) as nat) + ts[n - 1].token.content()
    }
}

proof fn lemma_spelling_concat(a: Seq<SpecTokenWithLocation>, b: Seq<SpecTokenWithLocation>)
    ensures
        tokens_spelling(a + b, (a + b).len()) == tokens_spelling(a, a.len()) + tokens_spelling(
            b,
            b.len(),
        ),
    decreases b.len(),
{
    if b.len() == 0 {
        assert(a + b =~= a);
        assert(tokens_spelling(a, a.len()) + seq![] =~= tokens_spelling(a, a.len()));
    } else {
        let b1 = b.drop_last();
        lemma_spelling_concat(a, b1);
        assert((a + b).drop_last() =~= a + b1);
        lemma_spelling_prefix(a + b, ((a + b).len() - 1) as nat);
        lemma_spelling_prefix(b, (b.len() - 1) as nat);
        assert(tokens_spelling(a, a.len()) + tokens_spelling(b1, b1.len()) + b.last().token.content()
            =~= tokens_spelling(a, a.len()) + (tokens_spelling(b1, b1.len())
            + b.last().token.content()));
    }
}

proof fn lemma_spelling_prefix(ts: Seq<SpecTokenWithLocation>, n: nat)
    requires
        n <= ts.len(),
    ensures
        tokens_spelling(ts, n) == tokens_spelling(ts.take(n as int), n),
    decreases n,
{
    if n > 0 {
        lemma_spelling_prefix(ts, (n - 1) as nat);
        lemma_spelling_prefix(ts.take(n as int), (n - 1) as nat);
        assert(ts.take(n as int).take(n - 1) =~= ts.take(n - 1));
    }
}

} // verus!
