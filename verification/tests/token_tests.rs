use suli_pona_toki::tokens::{Token, TokenizationError, TokenizationState};
use suli_pona_toki::Natural;

fn describe(input: &str) -> Vec<(String, String, usize, usize)> {
    let mut tokenizer = TokenizationState::new();
    tokenizer
        .feed(input)
        .unwrap()
        .iter()
        .map(|t| {
            let kind = match t.peek_inner() {
                Token::Plain(_) => "plain",
                Token::Punctuation(_) => "punctuation",
                Token::Comment(_) => "comment",
            };
            (
                kind.to_string(),
                t.peek_inner().content().to_string(),
                t.line(),
                t.column(),
            )
        })
        .collect()
}

fn entry(kind: &str, content: &str, line: usize, column: usize) -> (String, String, usize, usize) {
    (kind.to_string(), content.to_string(), line, column)
}

#[test]
fn test_short() {
    let tokens = describe("sama ijosu mita lonpala, semesu pali lonpa.");
    assert_eq!(
        tokens,
        vec![
            entry("plain", "sama", 1, 5),
            entry("plain", "ijo", 1, 11),
            entry("plain", "su", 1, 11),
            entry("plain", "mi", 1, 16),
            entry("plain", "ta", 1, 16),
            entry("plain", "lon", 1, 24),
            entry("plain", "pa", 1, 24),
            entry("plain", "la", 1, 24),
            entry("comment", ",", 1, 24),
            entry("plain", "seme", 1, 32),
            entry("plain", "su", 1, 32),
            entry("plain", "pali", 1, 37),
            entry("plain", "lon", 1, 43),
            entry("plain", "pa", 1, 43),
            entry("punctuation", ".", 1, 43),
        ]
    );
}

#[test]
fn prefix_and_second_suffix_are_split_off() {
    let tokens = describe("anponasula ");
    let words: Vec<String> = tokens.iter().map(|t| t.1.clone()).collect();
    assert_eq!(words, vec!["an", "pona", "su", "la"]);
    assert_eq!(words.concat(), "anponasula");
}

#[test]
fn later_splitting_wins() {
    // `supa` is also particle `su` followed by particle `pa`; the particles come later
    // in the table than the content words
    let words: Vec<String> = describe("supa ").iter().map(|t| t.1.clone()).collect();
    assert_eq!(words, vec!["su", "pa"]);
    let words: Vec<String> = describe("nasa ").iter().map(|t| t.1.clone()).collect();
    assert_eq!(words, vec!["nasa"]);
}

#[test]
fn newline_gives_a_token_and_a_new_line() {
    let tokens = describe("jan\npona ");
    assert_eq!(
        tokens,
        vec![
            entry("plain", "jan", 1, 4),
            entry("punctuation", "\n", 1, 5),
            entry("plain", "pona", 2, 5),
        ]
    );
}

#[test]
fn unknown_word_is_refused_with_its_place() {
    let mut tokenizer = TokenizationState::new();
    let result = tokenizer.feed("jan xyz ");
    match result {
        Err(TokenizationError::ErrorInString { remainder, inner }) => {
            assert_eq!(remainder, " ");
            match *inner {
                TokenizationError::UnknownWord { word, line, column } => {
                    assert_eq!(word, "xyz");
                    assert_eq!(line, 1);
                    assert_eq!(column, 8);
                }
                _ => panic!("expected an unknown word"),
            }
        }
        _ => panic!("expected an error"),
    }
    // the tokenizer stays as it was before the refused character
    assert!(matches!(
        tokenizer.is_empty(),
        Err(TokenizationError::NotEmptyBuffer(ref b)) if b == "xyz"
    ));
}

#[test]
fn invalid_character_is_refused() {
    let mut tokenizer = TokenizationState::new();
    match tokenizer.feed("jan 5") {
        Err(TokenizationError::ErrorInString { remainder, inner }) => {
            assert_eq!(remainder, "5");
            assert!(matches!(
                *inner,
                TokenizationError::InvalidCharacter { character: '5', line: 1, column: 5 }
            ));
        }
        _ => panic!("expected an error"),
    }
    assert!(tokenizer.is_empty().is_ok());
}

#[test]
fn colon_is_punctuation() {
    let tokens = describe("pona:");
    assert_eq!(tokens[1], entry("punctuation", ":", 1, 5));
}

#[test]
fn token_feeding_in_pieces() {
    let mut whole = TokenizationState::new();
    let all = whole.feed("jan pona li lon.").unwrap();
    let mut pieces = TokenizationState::new();
    let mut parts = pieces.feed("jan po").unwrap();
    parts.extend(pieces.feed("na li lon.").unwrap());
    let a: Vec<(String, usize, usize)> = all
        .iter()
        .map(|t| (t.peek_inner().as_natural(), t.line(), t.column()))
        .collect();
    let b: Vec<(String, usize, usize)> = parts
        .iter()
        .map(|t| (t.peek_inner().as_natural(), t.line(), t.column()))
        .collect();
    assert_eq!(a, b);
}

#[test]
fn token_clone_and_from() {
    let mut tokenizer = TokenizationState::new();
    let tokens = tokenizer.feed("jan ").unwrap();
    let copy = tokens[0].clone();
    assert_eq!(copy.line(), 1);
    assert_eq!(Token::from(copy).content(), "jan");
}

#[test]
fn tokens_spell_the_text_without_spaces() {
    let input = "jansu  lapepa.\n anponasula, mi ";
    let mut tokenizer = TokenizationState::new();
    let tokens = tokenizer.feed(input).unwrap();
    assert!(tokenizer.is_empty().is_ok());
    let spelled: String = tokens.iter().map(|t| t.peek_inner().content()).collect();
    assert_eq!(spelled, "jansulapepa.\nanponasula,mi");
}

#[test]
fn unprefixed_reading_wins() {
    // `anpa` is a content word, and also the prefix `an` before the particle `pa`
    let words: Vec<String> = describe("anpa ").iter().map(|t| t.1.clone()).collect();
    assert_eq!(words, vec!["anpa"]);
    let words: Vec<String> = describe("anpona ").iter().map(|t| t.1.clone()).collect();
    assert_eq!(words, vec!["an", "pona"]);
}

#[test]
fn try_feed_reads_where_the_counters_leave_room() {
    let mut tokenizer = TokenizationState::new();
    match tokenizer.try_feed("jan ") {
        Some(Ok(tokens)) => assert_eq!(tokens.len(), 1),
        _ => panic!("expected the text to be read"),
    }
    assert_eq!(tokenizer.column(), 5);
}

#[test]
fn tabs_and_returns_end_words() {
    let words: Vec<String> = describe("jan\tpona\rmoku ").iter().map(|t| t.1.clone()).collect();
    assert_eq!(words, vec!["jan", "pona", "moku"]);
}
