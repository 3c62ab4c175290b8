//! Turning a text with embedded markup into HTML, one byte at a time.
//!
//! Text inside markup tags is copied as it is. Text outside them is read as sentences,
//! each written as a `sentence` element; a single line break between sentences becomes a
//! `<br/>`, a blank line ends the paragraph.
use vstd::prelude::*;

use crate::html::{sentence_html, AsHtml};
use crate::sentence::{
    empty_sentence_parser, parser_wf, sentence_is_empty, sentence_step, SentenceParseError,
    SentenceParser, SentenceParsingOutput, SpecSentenceError, SpecSentenceOutput,
    SpecSentenceParser,
};
use crate::text::owned;
use crate::tokens::{
    located_view, tokenize_char, SpecTokenWithLocation, SpecTokenizationError, SpecTokenizer,
    TokenWithLocation, TokenizationError, TokenizationState,
};

verus! {

#[verifier::external_type_specification]
#[verifier::external_body]
pub struct ExIoError(std::io::Error);

/// Where a transpilation failed: line and column in the input.
pub type Position = (usize, usize);

/// Why a transpilation failed.
#[derive(Debug)]
pub enum TranspileError {
    ReadError(std::io::Error, Position),
    UnmatchedHtmlTags(Position),
    WriteError(std::io::Error, Position),
    TokenizationError(TokenizationError, Position),
    ParsingError(SentenceParseError, Position),
}

/// Why a transpilation failed, as values.
pub enum SpecTranspileError {
    ReadError(Position),
    UnmatchedHtmlTags(Position),
    WriteError(Position),
    TokenizationError(SpecTokenizationError, Position),
    ParsingError(SpecSentenceError, Position),
}

impl View for TranspileError {
    type V = SpecTranspileError;

    open spec fn view(&self) -> SpecTranspileError {
        match self {
            TranspileError::ReadError(_, p) => SpecTranspileError::ReadError(*p),
            TranspileError::UnmatchedHtmlTags(p) => SpecTranspileError::UnmatchedHtmlTags(*p),
            TranspileError::WriteError(_, p) => SpecTranspileError::WriteError(*p),
            TranspileError::TokenizationError(e, p) => SpecTranspileError::TokenizationError(
                e@,
                *p,
            ),
            TranspileError::ParsingError(e, p) => SpecTranspileError::ParsingError(e@, *p),
        }
    }
}

/// What the last line breaks outside markup were.
#[derive(Clone, Copy, PartialEq, Eq, Structural)]
pub enum NewlineState {
    /// A sentence was written since the last line break.
    NoBreak,
    /// One line break followed the last sentence.
    BrokeLine,
    /// A paragraph has ended, or none has started.
    NewParagraph,
}

/// A piece of output: one byte copied from the input, or text written as UTF-8.
pub enum Emit {
    Byte(u8),
    Text(String),
}

/// A piece of output, as values.
pub enum SpecEmit {
    Byte(u8),
    Text(Seq<char>),
}

impl View for Emit {
    type V = SpecEmit;

    open spec fn view(&self) -> SpecEmit {
        match self {
            Emit::Byte(b) => SpecEmit::Byte(*b),
            Emit::Text(s) => SpecEmit::Text(s@),
        }
    }
}

/// The pieces of output of a vector, as values.
pub open spec fn emits_view(v: Seq<Emit>) -> Seq<SpecEmit> {
    v.map_values(|e: Emit| e@)
}

/// The state of a transpilation, as values.
pub struct SpecTranspile {
    pub parser: SpecSentenceParser,
    pub tokenizer: SpecTokenizer,
    pub html_depth: i32,
    pub line: usize,
    pub column: usize,
    pub wrote_something: bool,
    pub newline_state: NewlineState,
}

/// The state of a transpilation: the sentence being read, the tokenizer, how deep inside
/// markup the input is, the place in the input, whether a sentence was written since the
/// last tag ended, and the line breaks since the last sentence.
pub struct TranspileState {
    sentence_parser: SentenceParser,
    tokenizer: TokenizationState,
    html_depth: i32,
    line: usize,
    column: usize,
    wrote_something: bool,
    newline_state: NewlineState,
}

impl View for TranspileState {
    type V = SpecTranspile;

    closed spec fn view(&self) -> SpecTranspile {
        SpecTranspile {
            parser: self.sentence_parser@,
            tokenizer: self.tokenizer@,
            html_depth: self.html_depth,
            line: self.line,
            column: self.column,
            wrote_something: self.wrote_something,
            newline_state: self.newline_state,
        }
    }
}

/// A state that the transpiler can go on from: the sentence parser keeps only finished
/// phrases, and the markup depth is not negative.
pub open spec fn transpile_wf(st: SpecTranspile) -> bool {
    parser_wf(st.parser) && st.html_depth >= 0
}

/// No counter of the state is at its limit.
pub open spec fn counters_fit(st: SpecTranspile) -> bool {
    &&& st.line < usize::MAX
    &&& st.column < usize::MAX
    &&& st.html_depth < i32::MAX
    &&& st.tokenizer.line < usize::MAX
    &&& st.tokenizer.column < usize::MAX
}

/// The state with the sentence parser replaced.
pub open spec fn with_parser(st: SpecTranspile, p: SpecSentenceParser) -> SpecTranspile {
    SpecTranspile { parser: p, ..st }
}

/// One token read outside markup: it marks that something was written, and goes to the
/// sentence parser. A finished sentence is written, after a line break where one line
/// break came before it, or after a paragraph start where a paragraph had ended; then a
/// new sentence starts.
pub open spec fn token_step(st: SpecTranspile, t: SpecTokenWithLocation) -> Result<
    (SpecTranspile, Seq<SpecEmit>),
    SpecTranspileError,
> {
    let st1 = SpecTranspile { wrote_something: true, ..st };
    match sentence_step(st.parser, t) {
        Err(e) => Err(SpecTranspileError::ParsingError(e, (st.line, st.column))),
        Ok(SpecSentenceOutput::Continues(p)) => Ok((with_parser(st1, p), seq![])),
        Ok(SpecSentenceOutput::Finished(s)) => {
            let (ns, lead) = match st.newline_state {
                NewlineState::NoBreak => (NewlineState::NoBreak, seq![]),
                NewlineState::BrokeLine => (NewlineState::NoBreak, seq![SpecEmit::Text("<br/>"@)]),
                NewlineState::NewParagraph => (NewlineState::NoBreak, seq![SpecEmit::Text("<p>"@)]),
            };
            Ok(
                (
                    SpecTranspile {
                        parser: empty_sentence_parser(),
                        newline_state: ns,
                        ..st1
                    },
                    lead.push(SpecEmit::Text(sentence_html(s, None))),
                ),
            )
        },
    }
}

/// The state after the first `n` tokens, with what they wrote; and the error of the
/// token that failed, if one did (the tokens after it are not read).
pub open spec fn tokens_step(st: SpecTranspile, ts: Seq<SpecTokenWithLocation>, n: nat) -> (
    SpecTranspile,
    Seq<SpecEmit>,
    Option<SpecTranspileError>,
)
    decreases n,
{
    if n == 0 {
        (st, seq![], None)
    } else {
        let (s, out, err) = tokens_step(st, ts, (n - 1) as nat);
        if err is Some {
            (s, out, err)
        } else {
            match token_step(s, ts[n - 1]) {
                Ok((s2, out2)) => (s2, out + out2, None),
                Err(e) => (s, out, Some(e)),
            }
        }
    }
}

/// One byte of input, read as the character of that code point.
///
/// The column moves on, and a line feed starts the next line. `<` opens a tag: it is
/// refused where a word or sentence is unfinished; where it opens the outermost tag
/// after a sentence was written, the paragraph is closed first. `>` closes a tag, and
/// is refused where no tag is open. Inside tags, and for `<` and `>` themselves, the
/// byte is copied. Outside tags, a line feed is refused inside a sentence; otherwise two
/// line feeds after a sentence close the paragraph. Any other character goes to the
/// tokenizer, and its tokens to `tokens_step`.
pub open spec fn byte_step(st: SpecTranspile, byte: u8) -> (
    SpecTranspile,
    Seq<SpecEmit>,
    Option<SpecTranspileError>,
) {
    let c = byte as char;
    let line = if c == '\n' {
        (st.line + 1) as usize
    } else {
        st.line
    };
    let column = if c == '\n' {
        1usize
    } else {
        (st.column + 1) as usize
    };
    let pos = (line, column);
    let st0 = SpecTranspile { line, column, ..st };
    if c == '<' {
        if st.tokenizer.buffer.len() != 0 {
            (
                st0,
                seq![],
                Some(
                    SpecTranspileError::TokenizationError(
                        SpecTokenizationError::NotEmptyBuffer(st.tokenizer.buffer),
                        pos,
                    ),
                ),
            )
        } else if let Err(e) = sentence_is_empty(st.parser) {
            (st0, seq![], Some(SpecTranspileError::ParsingError(e, pos)))
        } else {
            let depth = (st.html_depth + 1) as i32;
            let lead = if depth == 1 && st.wrote_something {
                seq![SpecEmit::Text("</p>"@)]
            } else {
                seq![]
            };
            (SpecTranspile { html_depth: depth, ..st0 }, lead.push(SpecEmit::Byte(byte)), None)
        }
    } else if c == '>' {
        let depth = (st.html_depth - 1) as i32;
        if depth < 0 {
            (st0, seq![], Some(SpecTranspileError::UnmatchedHtmlTags(pos)))
        } else {
            (
                SpecTranspile { html_depth: depth, wrote_something: false, ..st0 },
                seq![SpecEmit::Byte(byte)],
                None,
            )
        }
    } else if st.html_depth > 0 {
        (st0, seq![SpecEmit::Byte(byte)], None)
    } else if c == '\n' {
        if let Err(e) = sentence_is_empty(st.parser) {
            (st0, seq![], Some(SpecTranspileError::ParsingError(e, pos)))
        } else {
            match st.newline_state {
                NewlineState::NoBreak => (
                    SpecTranspile { newline_state: NewlineState::BrokeLine, ..st0 },
                    seq![],
                    None,
                ),
                NewlineState::BrokeLine => (
                    SpecTranspile { newline_state: NewlineState::NewParagraph, ..st0 },
                    seq![SpecEmit::Text("</p>"@)],
                    None,
                ),
                NewlineState::NewParagraph => (st0, seq![], None),
            }
        }
    } else {
        match tokenize_char(st.tokenizer, c) {
            Err(e) => (st0, seq![], Some(SpecTranspileError::TokenizationError(e, pos))),
            Ok((tk, ts)) => tokens_step(SpecTranspile { tokenizer: tk, ..st0 }, ts, ts.len()),
        }
    }
}

/// Whether the input may end here: no word and no sentence is left unfinished.
pub open spec fn finish_result(st: SpecTranspile) -> Result<(), SpecTranspileError> {
    if st.tokenizer.buffer.len() != 0 {
        Err(
            SpecTranspileError::TokenizationError(
                SpecTokenizationError::NotEmptyBuffer(st.tokenizer.buffer),
                (st.line, st.column),
            ),
        )
    } else if let Err(e) = sentence_is_empty(st.parser) {
        Err(SpecTranspileError::ParsingError(e, (st.line, st.column)))
    } else {
        Ok(())
    }
}


/// The state, the output and the error after reading `input` byte by byte from `st`; the
/// bytes after a refused one are not read.
pub open spec fn bytes_run(st: SpecTranspile, input: Seq<u8>) -> (
    SpecTranspile,
    Seq<SpecEmit>,
    Option<SpecTranspileError>,
)
    decreases input.len(),
{
    if input.len() == 0 {
        (st, seq![], None)
    } else {
        let (s1, out1, err1) = byte_step(st, input[0]);
        if err1 is Some {
            (s1, out1, err1)
        } else {
            let (s2, out2, err2) = bytes_run(s1, input.drop_first());
            (s2, out1 + out2, err2)
        }
    }
}

/// The input is a run of whole tags, `<`, then bytes other than `<` and `>`, then `>`;
/// `inside` says that the first tag is already open.
pub open spec fn tags_only(input: Seq<u8>, inside: bool) -> bool
    decreases input.len(),
{
    if input.len() == 0 {
        !inside
    } else {
        let c = input[0] as char;
        if inside {
            if c == '>' {
                tags_only(input.drop_first(), false)
            } else {
                c != '<' && tags_only(input.drop_first(), true)
            }
        } else {
            c == '<' && tags_only(input.drop_first(), true)
        }
    }
}

/// Between sentences and outside markup, with nothing written since the last tag and
/// nothing left unfinished.
pub open spec fn at_rest(st: SpecTranspile) -> bool {
    &&& st.html_depth == 0
    &&& !st.wrote_something
    &&& st.tokenizer.buffer.len() == 0
    &&& sentence_is_empty(st.parser) is Ok
}

/// Each byte as a copied byte of output.
pub open spec fn copied(input: Seq<u8>) -> Seq<SpecEmit> {
    input.map_values(|b: u8| SpecEmit::Byte(b))
}

proof fn lemma_tags_copied(st: SpecTranspile, input: Seq<u8>, inside: bool)
    requires
        tags_only(input, inside),
        st.html_depth == (if inside { 1i32 } else { 0i32 }),
        !st.wrote_something,
        st.tokenizer.buffer.len() == 0,
        sentence_is_empty(st.parser) is Ok,
    ensures
        bytes_run(st, input).2 is None,
        bytes_run(st, input).1 == copied(input),
        at_rest(bytes_run(st, input).0),
    decreases input.len(),
{
    if input.len() > 0 {
        let b = input[0];
        let (s1, out1, err1) = byte_step(st, b);
        lemma_tags_copied(s1, input.drop_first(), !inside || (b as char) != '>');
        assert(copied(input) =~= seq![SpecEmit::Byte(b)] + copied(input.drop_first()));
    } else {
        assert(copied(input) =~= seq![]);
    }
}

/// Law: an input made only of whole tags, read from a state at rest, is copied to the
/// output byte for byte, with no paragraph or line-break markup added; no error comes,
/// and the input may end there.
pub proof fn lemma_tags_are_copied(st: SpecTranspile, input: Seq<u8>)
    requires
        at_rest(st),
        tags_only(input, false),
    ensures
        bytes_run(st, input).2 is None,
        bytes_run(st, input).1 == copied(input),
        finish_result(bytes_run(st, input).0) is Ok,
{
    lemma_tags_copied(st, input, false);
}

/// Law: a `<` that opens the outermost tag, where no word or sentence is left
/// unfinished, writes `</p>` and then itself when a sentence token was read since the
/// last tag closed (or since the start), whatever line breaks came in between, and only
/// itself otherwise; it is not refused, and the markup is then one level deep.
pub proof fn lemma_tag_closes_paragraph(st: SpecTranspile, b: u8)
    requires
        b as char == '<',
        st.html_depth == 0,
        st.tokenizer.buffer.len() == 0,
        sentence_is_empty(st.parser) is Ok,
    ensures
        byte_step(st, b).2 is None,
        byte_step(st, b).0.html_depth == 1,
        st.wrote_something ==> byte_step(st, b).1 == seq![
            SpecEmit::Text("</p>"@),
            SpecEmit::Byte(b),
        ],
        !st.wrote_something ==> byte_step(st, b).1 == seq![SpecEmit::Byte(b)],
{
}

/// Law: reading a sentence token marks that something was written, and closing a tag
/// clears the mark, so the next outermost tag closes a paragraph exactly when a sentence
/// token came since the last tag.
pub proof fn lemma_written_mark(st: SpecTranspile, t: SpecTokenWithLocation, b: u8)
    ensures
        token_step(st, t) matches Ok((s, _)) ==> s.wrote_something,
        b as char == '>' && st.html_depth > 0 ==> !byte_step(st, b).0.wrote_something
            && byte_step(st, b).2 is None,
{
}

proof fn lemma_tokens_step_error_stays(
    st: SpecTranspile,
    ts: Seq<SpecTokenWithLocation>,
    k: nat,
    m: nat,
)
    requires
        k <= m,
        tokens_step(st, ts, k).2 is Some,
    ensures
        tokens_step(st, ts, m) == tokens_step(st, ts, k),
    decreases m,
{
    if k < m {
        lemma_tokens_step_error_stays(st, ts, k, (m - 1) as nat);
    }
}

impl TranspileState {
    /// A transpilation at the start of the input: line 1, column 1, outside markup, at the
    /// start of a paragraph, with nothing read.
    pub fn new() -> (r: Self)
        ensures
            r@.parser == empty_sentence_parser(),
            r@.tokenizer.buffer.len() == 0,
            r@.tokenizer.line == 1,
            r@.tokenizer.column == 1,
            r@.tokenizer.words == crate::lexicon::word_entries(crate::lexicon::standard_lexicon()),
            r@.html_depth == 0,
            r@.line == 1,
            r@.column == 1,
            !r@.wrote_something,
            r@.newline_state == NewlineState::NewParagraph,
            transpile_wf(r@),
            at_rest(r@),
    {
        proof {
            crate::sentence::lemma_empty_parser_wf();
        }
        TranspileState {
            sentence_parser: SentenceParser::new(),
            tokenizer: TokenizationState::new(),
            html_depth: 0,
            line: 1,
            column: 1,
            wrote_something: false,
            newline_state: NewlineState::NewParagraph,
        }
    }

    /// The line of the last byte read.
    pub fn line(&self) -> (r: usize)
        ensures
            r == self@.line,
    {
        self.line
    }

    /// The column of the last byte read.
    pub fn column(&self) -> (r: usize)
        ensures
            r == self@.column,
    {
        self.column
    }

    /// Where a failure to read the next byte is reported: the column has moved on.
    pub fn read_error_position(&self) -> (r: Position)
        requires
            self@.column < usize::MAX,
        ensures
            r == (self@.line, (self@.column + 1) as usize),
    {
        (self.line, self.column + 1)
    }

    /// Whether no counter is at its limit, so that `step` may be called.
    pub fn counters_fit(&self) -> (r: bool)
        ensures
            r == counters_fit(self@),
    {
        self.line < usize::MAX && self.column < usize::MAX && self.html_depth < i32::MAX
            && self.tokenizer.line() < usize::MAX && self.tokenizer.column() < usize::MAX
    }

    fn feed_tokens(&mut self, tokens: Vec<TokenWithLocation>, emitted: Vec<Emit>) -> (r: Result<
        Vec<Emit>,
        (Vec<Emit>, TranspileError),
    >)
        requires
            transpile_wf(old(self)@),
        ensures
            tokens_step(old(self)@, located_view(tokens@), tokens@.len()).2 is None ==> (r matches Ok(
                v,
            ) && emits_view(v@) == emits_view(emitted@) + tokens_step(
                old(self)@,
                located_view(tokens@),
                tokens@.len(),
            ).1 && final(self)@ == tokens_step(old(self)@, located_view(tokens@), tokens@.len()).0
                && transpile_wf(final(self)@)),
            tokens_step(old(self)@, located_view(tokens@), tokens@.len()).2 matches Some(e) ==> (
            r matches Err((v, x)) && emits_view(v@) == emits_view(emitted@) + tokens_step(
                old(self)@,
                located_view(tokens@),
                tokens@.len(),
            ).1 && x@ == e),
    {
        let ghost all = located_view(tokens@);
        let ghost st0 = self@;
        let ghost out0 = emits_view(emitted@);
        let n = tokens.len();
        let mut rest = tokens;
        let mut out = emitted;
        let mut i: usize = 0;
        assert(all.skip(0) =~= all);
        assert(emits_view(out@) =~= out0 + seq![]);
        while i < n
            invariant
                st0 == old(self)@,
                out0 == emits_view(emitted@),
                all == located_view(tokens@),
                all.len() == n,
                i <= n,
                located_view(rest@) == all.skip(i as int),
                tokens_step(st0, all, i as nat) == (self@, emits_view(out@).skip(out0.len() as int), None::<SpecTranspileError>),
                emits_view(out@).take(out0.len() as int) == out0,
                out0.len() <= emits_view(out@).len(),
                transpile_wf(self@),
            decreases n - i,
        {
            let ghost before_rest = rest@;
            assert(located_view(before_rest).len() == before_rest.len());
            let token = rest.remove(0);
            assert(located_view(before_rest)[0] == token@);
            assert(all.skip(i as int)[0] == all[i as int]);
            assert(located_view(rest@) =~= located_view(before_rest).skip(1));
            assert(all.skip(i as int).skip(1) =~= all.skip(i + 1));
            let ghost s_before = self@;
            let ghost out_before = emits_view(out@);
            proof {
                crate::sentence::lemma_sentence_step_wf(s_before.parser, token@);
            }
            self.wrote_something = true;
            let mut parser = SentenceParser::new();
            std::mem::swap(&mut parser, &mut self.sentence_parser);
            match parser.feed_one(token) {
                Err(e) => {
                    let pos = (self.line, self.column);
                    proof {
                        lemma_tokens_step_error_stays(st0, all, (i + 1) as nat, n as nat);
                    }
                    assert(emits_view(out@) =~= out0 + emits_view(out@).skip(out0.len() as int));
                    return Err((out, TranspileError::ParsingError(e, pos)));
                },
                Ok(SentenceParsingOutput::Continues(p)) => {
                    self.sentence_parser = p;
                },
                Ok(SentenceParsingOutput::Finished(s)) => {
                    match self.newline_state {
                        NewlineState::NoBreak => {},
                        NewlineState::BrokeLine => {
                            out.push(Emit::Text(owned("<br/>")));
                            self.newline_state = NewlineState::NoBreak;
                        },
                        NewlineState::NewParagraph => {
                            out.push(Emit::Text(owned("<p>")));
                            self.newline_state = NewlineState::NoBreak;
                        },
                    }
                    let mut text = String::new();
                    s.write_html(&mut text, None);
                    out.push(Emit::Text(text));
                    self.sentence_parser = SentenceParser::new();
                },
            }
            proof {
                crate::sentence::lemma_empty_parser_wf();
            }
            assert(emits_view(out@) =~= out_before + emits_view(out@).skip(out_before.len() as int));
            assert(emits_view(out@).take(out0.len() as int) =~= out0);
            assert(emits_view(out@).skip(out0.len() as int) =~= emits_view(out@).take(
                out_before.len() as int,
            ).skip(out0.len() as int) + emits_view(out@).skip(out_before.len() as int));
            i = i + 1;
        }
        assert(emits_view(out@) =~= out0 + emits_view(out@).skip(out0.len() as int));
        Ok(out)
    }

    /// Reads one byte: see `byte_step`. Gives back what to write; on an error, what to
    /// write before reporting it.
    pub fn step(&mut self, byte: u8) -> (r: Result<Vec<Emit>, (Vec<Emit>, TranspileError)>)
        requires
            transpile_wf(old(self)@),
            counters_fit(old(self)@),
        ensures
            byte_step(old(self)@, byte).2 is None ==> (r matches Ok(v) && emits_view(v@)
                == byte_step(old(self)@, byte).1 && final(self)@ == byte_step(old(self)@, byte).0
                && transpile_wf(final(self)@)),
            byte_step(old(self)@, byte).2 matches Some(e) ==> (r matches Err((v, x)) && emits_view(
                v@,
            ) == byte_step(old(self)@, byte).1 && x@ == e),
    {
        let c = byte as char;
        if c == '\n' {
            self.line = self.line + 1;
            self.column = 1;
        } else {
            self.column = self.column + 1;
        }
        let pos = (self.line, self.column);
        let mut out: Vec<Emit> = Vec::new();
        assert(emits_view(out@) =~= seq![]);
        if c == '<' {
            if let Err(e) = self.tokenizer.is_empty() {
                return Err((out, TranspileError::TokenizationError(e, pos)));
            }
            if let Err(e) = self.sentence_parser.is_empty() {
                return Err((out, TranspileError::ParsingError(e, pos)));
            }
            self.html_depth = self.html_depth + 1;
            if self.html_depth == 1 && self.wrote_something {
                out.push(Emit::Text(owned("</p>")));
            }
            out.push(Emit::Byte(byte));
            assert(emits_view(out@) =~= byte_step(old(self)@, byte).1);
            return Ok(out);
        }
        if c == '>' {
            if self.html_depth == 0 {
                return Err((out, TranspileError::UnmatchedHtmlTags(pos)));
            }
            self.html_depth = self.html_depth - 1;
            self.wrote_something = false;
            out.push(Emit::Byte(byte));
            assert(emits_view(out@) =~= seq![SpecEmit::Byte(byte)]);
            return Ok(out);
        }
        if self.html_depth > 0 {
            out.push(Emit::Byte(byte));
            assert(emits_view(out@) =~= seq![SpecEmit::Byte(byte)]);
            return Ok(out);
        }
        if c == '\n' {
            if let Err(e) = self.sentence_parser.is_empty() {
                return Err((out, TranspileError::ParsingError(e, pos)));
            }
            match self.newline_state {
                NewlineState::NoBreak => {
                    self.newline_state = NewlineState::BrokeLine;
                },
                NewlineState::BrokeLine => {
                    self.newline_state = NewlineState::NewParagraph;
                    out.push(Emit::Text(owned("</p>")));
                    assert(emits_view(out@) =~= seq![SpecEmit::Text("</p>"@)]);
                },
                NewlineState::NewParagraph => {},
            }
            return Ok(out);
        }
        let tokens = match self.tokenizer.feed_one(c) {
            Ok(tokens) => tokens,
            Err(e) => {
                return Err((out, TranspileError::TokenizationError(e, pos)));
            },
        };
        let r = self.feed_tokens(tokens, out);
        r
    }

    /// Ends the input: see `finish_result`.
    pub fn finish(&mut self) -> (r: Result<(), TranspileError>)
        ensures
            final(self)@ == old(self)@,
            finish_result(old(self)@) is Ok ==> r is Ok,
            finish_result(old(self)@) matches Err(e) ==> (r matches Err(x) && x@ == e),
    {
        let pos = (self.line, self.column);
        if let Err(e) = self.tokenizer.is_empty() {
            return Err(TranspileError::TokenizationError(e, pos));
        }
        if let Err(e) = self.sentence_parser.is_empty() {
            return Err(TranspileError::ParsingError(e, pos));
        }
        Ok(())
    }
}

} // verus!
