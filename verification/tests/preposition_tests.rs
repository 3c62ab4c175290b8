use suli_pona_toki::content::ContentParseError;
use suli_pona_toki::preposition::{PrepositionParser, PrepositionType};
use suli_pona_toki::tokens::TokenizationState;
use suli_pona_toki::Natural;

fn parse_prepositions(input: &str) -> Result<Vec<PrepositionType>, ContentParseError> {
    let mut tokenizer = TokenizationState::new();
    let tokens = tokenizer.feed(input).unwrap();
    let mut parser = PrepositionParser::new();

    let mut prepositions = Vec::new();
    for token in tokens {
        if let Some(prep) = parser.feed_one(token)? {
            prepositions.push(prep.preposition_type);
        }
    }

    parser.close()?;
    Ok(prepositions)
}

#[test]
fn test_no_prepositions() {
    let result = parse_prepositions("sina pona jan suli ");
    assert!(result.is_ok());
    assert_eq!(result.unwrap().len(), 0);
}

#[test]
fn test_single_preposition() {
    let result = parse_prepositions("sina suli ta tomo ");
    assert!(result.is_ok());
    let prepositions = result.unwrap();
    assert_eq!(prepositions.len(), 1);
    assert!(matches!(prepositions[0], PrepositionType::Direction));
}

#[test]
fn test_multiple_prepositions() {
    let result = parse_prepositions("sina pona ta tomo na jan ki ilo ");
    assert!(result.is_ok());
    let prepositions = result.unwrap();
    assert_eq!(prepositions.len(), 3);
    assert!(matches!(prepositions[0], PrepositionType::Direction));
    assert!(matches!(prepositions[1], PrepositionType::Origin));
    assert!(matches!(prepositions[2], PrepositionType::Using));
}

#[test]
fn test_all_preposition_types() {
    let result = parse_prepositions("jan ta tomo na ilo ki moku lo supa lu nasa ");
    assert!(result.is_ok());
    let prepositions = result.unwrap();
    assert_eq!(prepositions.len(), 5);
    assert!(matches!(prepositions[0], PrepositionType::Direction));
    assert!(matches!(prepositions[1], PrepositionType::Origin));
    assert!(matches!(prepositions[2], PrepositionType::Using));
    assert!(matches!(prepositions[3], PrepositionType::Location));
    assert!(matches!(prepositions[4], PrepositionType::Metacommentary));
}

#[test]
fn test_consecutive_prepositions() {
    let result = parse_prepositions("jan ta ma na ilo ki tomo ");
    assert!(result.is_ok());
    let prepositions = result.unwrap();
    assert_eq!(prepositions.len(), 3);
    assert!(matches!(prepositions[0], PrepositionType::Direction));
    assert!(matches!(prepositions[1], PrepositionType::Origin));
    assert!(matches!(prepositions[2], PrepositionType::Using));
}

#[test]
fn test_invalid_content_structure() {
    let result = parse_prepositions("jan pi ta tomo ");
    assert!(result.is_err());
    assert!(matches!(
        result.unwrap_err(),
        ContentParseError::InvalidTreeStructure(_)
    ));
}

#[test]
fn test_incomplete_structure() {
    let result = parse_prepositions("jan suli pi ");
    assert!(result.is_err());
    assert!(matches!(
        result.unwrap_err(),
        ContentParseError::InvalidTreeStructure(_)
    ));
}

#[test]
fn manner_and_reading_of_a_preposition() {
    let mut tokenizer = TokenizationState::new();
    let tokens = tokenizer.feed("pona sa jan ").unwrap();
    let mut parser = PrepositionParser::new();
    let mut found = Vec::new();
    for token in tokens {
        if let Some(p) = parser.feed_one(token).unwrap() {
            found.push(p);
        }
    }
    assert_eq!(found.len(), 1);
    assert_eq!(found[0].preposition_type, PrepositionType::Manner);
    assert_eq!(found[0].as_natural(), "pona-sa");
    assert_eq!(parser.take().unwrap().as_natural(), "jan");
    assert!(parser.is_empty().is_ok());
}
