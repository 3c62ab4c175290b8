use suli_pona_toki::content::{ContentTree, ContentTreeParser, LeafType};
use suli_pona_toki::html::{AsHtml, LeafState};
use suli_pona_toki::preposition::PrepositionParser;
use suli_pona_toki::tokens::{Token, TokenizationState};

fn tree(input: &str) -> ContentTree {
    let mut tokenizer = TokenizationState::new();
    let tokens = tokenizer.feed(input).unwrap();
    let mut parser = ContentTreeParser::new();
    parser.feed(tokens).unwrap();
    parser.close().unwrap()
}

fn html<T: AsHtml>(value: &T, context: Option<T::Context>) -> String {
    let mut out = String::new();
    value.write_html(&mut out, context);
    out
}

#[test]
fn branch_markup() {
    assert_eq!(
        html(&tree("jan pi pona "), None),
        "<property><contentleaf>jan</contentleaf></property><contentleaf>pona</contentleaf>"
    );
    assert_eq!(
        html(&tree("jan un meli "), None),
        "<union><contentleaf>jan</contentleaf></union><contentleaf>meli</contentleaf>"
    );
    assert_eq!(
        html(&tree("jan nu meli "), None),
        "<alternative><contentleaf>jan</contentleaf></alternative><contentleaf>meli</contentleaf>"
    );
    assert_eq!(
        html(&tree("a pi jan no pona "), None),
        "<property><contentleaf>a</contentleaf></property><glue><gluetail><contentleaf>jan</contentleaf></gluetail><gluehead><contentleaf>pona</contentleaf></gluehead></glue>"
    );
}

#[test]
fn literal_leaf_words_are_written_together() {
    assert_eq!(
        html(&tree("PA PU "), None),
        "<contentleaf>PAPU</contentleaf>"
    );
}

#[test]
fn negated_leaf() {
    let leaf = LeafType::Core(Token::Plain("pona".to_string()));
    assert_eq!(
        html(&leaf, Some(LeafState { negated: true })),
        "<contentleaf type=\"negated\">pona</contentleaf>"
    );
}

#[test]
fn preposition_markup() {
    let mut tokenizer = TokenizationState::new();
    let tokens = tokenizer.feed("tomo lo ").unwrap();
    let mut parser = PrepositionParser::new();
    let mut found = Vec::new();
    for token in tokens {
        if let Some(p) = parser.feed_one(token).unwrap() {
            found.push(p);
        }
    }
    assert_eq!(
        html(&found[0], None),
        "<preposition type=\"location\"><contentleaf>tomo</contentleaf></preposition>"
    );
}
