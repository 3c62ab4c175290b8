use suli_pona_toki::content::{
    classify, BranchType, ContentParseError, ContentTree, ContentTreeParser, WordKind,
};
use suli_pona_toki::tokens::TokenizationState;
use suli_pona_toki::Natural;

fn parse(input: &str) -> Result<ContentTree, ContentParseError> {
    let mut tokenizer = TokenizationState::new();
    let tokens = tokenizer.feed(input).unwrap();
    let mut parser = ContentTreeParser::new();
    parser.feed(tokens)?;
    parser.close()
}

#[test]
fn test_easy() {
    let tree = parse("sina suli mun luka linja ").unwrap();
    assert_eq!(tree.as_natural(), "(sina (suli (mun (luka linja))))");
}

#[test]
fn test_medium() {
    let tree = parse("sina pona jan pi sitelen ilo ").unwrap();
    assert_eq!(tree.as_natural(), "((sina (pona jan)) (sitelen ilo))");
}

#[test]
fn test_hard() {
    let tree = parse("nasa telo pi ike jan no suli tomo ").unwrap();
    assert_eq!(tree.as_natural(), "((nasa telo) ((ike jan) (suli tomo)))");
}

#[test]
fn test_hardest() {
    let tree =
        parse("nasa telo nu loje telo pi PA PU TO JAN no ike jan no suli tomo un tawa tomo ")
            .unwrap();
    assert_eq!(
        tree.as_natural(),
        "((((nasa telo) (loje telo)) (([PA PU TO JAN] (ike jan)) (suli tomo))) (tawa tomo))"
    );
}

#[test]
fn test_invalid_tree() {
    let mut tokenizer = TokenizationState::new();
    let tokens = tokenizer.feed("sina pi ").unwrap();
    let mut parser = ContentTreeParser::new();
    parser.feed(tokens).unwrap();

    // This should fail validation because pi creates a branch with Terminal head
    assert!(matches!(
        parser.close(),
        Err(ContentParseError::InvalidTreeStructure(_))
    ));
}

#[test]
fn test_problematic() {
    let tree = parse("nasa telo").unwrap();
    assert_eq!(tree.as_natural(), "nasa");
}

#[test]
fn union_of_nothing_is_refused() {
    let result = parse("un jan ");
    match result {
        Err(ContentParseError::ErrorInString { remainder, inner, state }) => {
            assert!(matches!(*inner, ContentParseError::UnionOfNothing(_)));
            assert_eq!(remainder.len(), 1);
            assert!(matches!(state, ContentTree::Terminal));
        }
        _ => panic!("expected an error"),
    }
}

#[test]
fn alternative_and_property_of_nothing_are_refused() {
    assert!(matches!(
        parse("nu jan "),
        Err(ContentParseError::ErrorInString { .. })
    ));
    let mut tokenizer = TokenizationState::new();
    let tokens = tokenizer.feed("pi ").unwrap();
    let mut parser = ContentTreeParser::new();
    for token in tokens {
        assert!(matches!(
            parser.feed_one(token),
            Err(ContentParseError::PropertyOfNothing(_))
        ));
    }
    assert!(parser.is_empty().is_ok());
}

#[test]
fn glue_needs_a_branch() {
    let mut tokenizer = TokenizationState::new();
    let tokens = tokenizer.feed("jan no ").unwrap();
    let mut parser = ContentTreeParser::new();
    let mut results = Vec::new();
    for token in tokens {
        results.push(parser.feed_one(token));
    }
    assert!(results[0].is_ok());
    assert!(matches!(results[1], Err(ContentParseError::GlueWithoutBranch(_))));
    // the refused word left the phrase as it was
    assert_eq!(parser.close().unwrap().as_natural(), "jan");
}

#[test]
fn punctuation_is_not_content_and_comments_are_ignored() {
    let mut tokenizer = TokenizationState::new();
    let tokens = tokenizer.feed("jan, pona.").unwrap();
    let mut parser = ContentTreeParser::new();
    let mut errors = 0;
    for token in tokens {
        if let Err(e) = parser.feed_one(token) {
            assert!(matches!(e, ContentParseError::NotPlainToken(_)));
            errors += 1;
        }
    }
    assert_eq!(errors, 1);
    assert_eq!(parser.close().unwrap().as_natural(), "(jan pona)");
}

#[test]
fn take_resets_and_is_empty_reports() {
    let mut tokenizer = TokenizationState::new();
    let tokens = tokenizer.feed("jan pona ").unwrap();
    let mut parser = ContentTreeParser::new();
    parser.feed(tokens).unwrap();
    assert!(matches!(parser.is_empty(), Err(ContentParseError::NotEmpty(_))));
    let tree = parser.take().unwrap();
    assert_eq!(tree.as_natural(), "(jan pona)");
    assert!(parser.is_empty().is_ok());
    assert!(matches!(
        parser.take(),
        Err(ContentParseError::InvalidTreeStructure(ContentTree::Terminal))
    ));
}

#[test]
fn literal_words_form_runs() {
    let tree = parse("jan JAN PI ").unwrap();
    assert_eq!(tree.as_natural(), "(jan [JAN PI])");
    let tree = parse("JAN PI jan ").unwrap();
    assert_eq!(tree.as_natural(), "([JAN PI] jan)");
}

#[test]
fn branch_types_follow_particles() {
    let tree = parse("jan un meli ").unwrap();
    match tree {
        ContentTree::Branch { branch_type, .. } => assert_eq!(branch_type, BranchType::Union),
        _ => panic!("expected a branch"),
    }
    let tree = parse("jan nu meli ").unwrap();
    match tree {
        ContentTree::Branch { branch_type, .. } => {
            assert_eq!(branch_type, BranchType::Alternative)
        }
        _ => panic!("expected a branch"),
    }
}

#[test]
fn content_feeding_in_pieces() {
    let mut tokenizer = TokenizationState::new();
    let first = tokenizer.feed("nasa telo pi ").unwrap();
    let second = tokenizer.feed("ike jan no suli tomo ").unwrap();
    let mut parser = ContentTreeParser::new();
    parser.feed(first).unwrap();
    parser.feed(second).unwrap();
    assert_eq!(
        parser.close().unwrap().as_natural(),
        parse("nasa telo pi ike jan no suli tomo ").unwrap().as_natural()
    );
}

#[test]
fn unfinished_glue_reads_empty_place() {
    let mut tokenizer = TokenizationState::new();
    let tokens = tokenizer.feed("jan pi no ").unwrap();
    let mut parser = ContentTreeParser::new();
    parser.feed(tokens).unwrap();
    match parser.close() {
        Err(ContentParseError::InvalidTreeStructure(tree)) => {
            assert_eq!(tree.as_natural(), "(jan (∅ ∅))")
        }
        _ => panic!("expected an unfinished tree"),
    }
}

#[test]
fn documented_modifier_examples() {
    assert_eq!(
        parse("nasa telo tawa tomo ").unwrap().as_natural(),
        "(nasa (telo (tawa tomo)))"
    );
    assert_eq!(
        parse("nasa telo pi tawa tomo ").unwrap().as_natural(),
        "((nasa telo) (tawa tomo))"
    );
    assert_eq!(
        parse("nasa telo tawa pi tomo ").unwrap().as_natural(),
        "((nasa (telo tawa)) tomo)"
    );
    assert_eq!(
        parse("nasa telo pi ike jan pi suli tomo ").unwrap().as_natural(),
        "(((nasa telo) (ike jan)) (suli tomo))"
    );
}

#[test]
fn alternative_of_nothing_is_refused() {
    match parse("nu jan ") {
        Err(ContentParseError::ErrorInString { inner, .. }) => {
            assert!(matches!(*inner, ContentParseError::AlternativeOfNothing(_)))
        }
        _ => panic!("expected an error"),
    }
}

#[test]
fn glue_right_after_pi_never_finishes() {
    assert!(matches!(
        parse("jan pi no suli tomo pi ike "),
        Err(ContentParseError::InvalidTreeStructure(_))
    ));
}

#[test]
fn classify_upper_cases_to_find_literals() {
    assert!(matches!(classify("jan"), WordKind::Word(false)));
    assert!(matches!(classify("JAN"), WordKind::Word(true)));
    assert!(matches!(classify("Jan"), WordKind::Word(false)));
    assert!(matches!(classify("un"), WordKind::Union));
    assert!(matches!(classify("no"), WordKind::Glue));
}
