use suli_pona_toki::content::ContentParseError;
use suli_pona_toki::sentence::{
    ObjectParseError, PredicateType, Sentence, SentenceParseError, SentenceParser,
    SentenceParsingOutput, SubjectParser, SubjectParsingError,
};
use suli_pona_toki::tokens::TokenizationState;
use suli_pona_toki::Natural;

fn parse_sentence(input: &str) -> Result<Option<Sentence>, SentenceParseError> {
    let mut tokenizer = TokenizationState::new();
    let tokens = tokenizer.feed(input).unwrap();
    let mut parser = SentenceParser::new();
    let mut sentence = None;
    for token in tokens {
        let parsing_output = parser.feed_one(token)?;
        match parsing_output {
            SentenceParsingOutput::Continues(p) => parser = p,
            SentenceParsingOutput::Finished(s) => {
                sentence = Some(s);
                break;
            }
        }
    }
    Ok(sentence)
}

#[test]
fn test_sentence() {
    let sentence = parse_sentence("utata misu okona mokumo ponalu lukinpa.").unwrap();
    assert!(sentence.is_some());
    assert_eq!(
        sentence.unwrap().as_natural(),
        " uta-ta mi⚬ oko-na moku◯  pona-lu lukin⚡^+§"
    );
}

#[test]
fn test_sentence_with_context() {
    let sentence = parse_sentence("utata misula tokisu okona mokumo ponalu lukinpa.").unwrap();
    assert!(sentence.is_some());
    assert_eq!(
        sentence.unwrap().as_natural(),
        " uta-ta mi⚬ ^+§ |   toki⚬ oko-na moku◯  pona-lu lukin⚡^+§"
    );
}

#[test]
fn test_subjectless_sentence() {
    let sentence = parse_sentence("okomola tawapa.").unwrap();
    assert!(sentence.is_some());
    assert_eq!(sentence.unwrap().as_natural(), "   oko◯ *-§ |     tawa⚡^-§");
}

#[test]
fn test_apposition() {
    let sentence = parse_sentence("nisu ponapa: ijomo mokupa.").unwrap();
    assert!(sentence.is_some());
    assert_eq!(
        sentence.unwrap().as_natural(),
        "  ni⚬   pona⚡^ :    ijo◯   moku⚡^-§+§"
    );
}

#[test]
fn sentence_structure() {
    let sentence = parse_sentence("nisu ponapa: ijomo mokupa.").unwrap().unwrap();
    assert!(sentence.context.is_none());
    assert!(sentence.subject.is_some());
    match &sentence.predicate {
        PredicateType::Verbed(verbs) => assert_eq!(verbs.len(), 1),
        _ => panic!("expected verbs"),
    }
    let apposition = sentence.apposition.unwrap();
    assert!(apposition.subject.is_none());
    match &apposition.predicate {
        PredicateType::Verbed(verbs) => assert_eq!(verbs[0].objects.len(), 1),
        _ => panic!("expected verbs"),
    }
}

#[test]
fn lone_object_is_a_predicate() {
    let mut tokenizer = TokenizationState::new();
    let tokens = tokenizer.feed("janmo.").unwrap();
    let mut parser = SentenceParser::new();
    let mut last = None;
    for token in tokens {
        match parser.feed_one(token) {
            Ok(SentenceParsingOutput::Continues(p)) => parser = p,
            Ok(SentenceParsingOutput::Finished(s)) => {
                last = Some(Ok(s));
                break;
            }
            Err(e) => {
                last = Some(Err(e));
                break;
            }
        }
    }
    // a lone object is a predicate of its own
    match last {
        Some(Ok(s)) => assert_eq!(s.as_natural(), "   jan◯ *-§"),
        _ => panic!("expected a sentence"),
    }
    // an apposition needs a finished subject before its full stop too
    assert!(matches!(
        parse_sentence("jansu ponapa: ."),
        Err(SentenceParseError::UnfinishedSubject(_, _))
    ));
}

#[test]
fn orphaned_objects_with_verbs_are_refused() {
    assert!(matches!(
        parse_sentence("jansu ponapa tomomo."),
        Err(SentenceParseError::OrphanedObjectsWithVerbs(_, _))
    ));
}

#[test]
fn apposition_in_subject_is_refused() {
    assert!(matches!(
        parse_sentence("jan: ponapa."),
        Err(SentenceParseError::AppositionInSubject(_))
    ));
}

#[test]
fn unfinished_subject_is_refused() {
    assert!(matches!(
        parse_sentence("jan pona."),
        Err(SentenceParseError::UnfinishedSubject(_, _))
    ));
    assert!(matches!(
        parse_sentence("jan la "),
        Err(SentenceParseError::UnfinishedSubject(_, _))
    ));
}

#[test]
fn unfinished_object_is_refused_at_the_end() {
    assert!(matches!(
        parse_sentence("jansu tomo lo."),
        Err(SentenceParseError::Object(_))
    ));
}

#[test]
fn is_empty_reports_what_is_open() {
    let mut parser = SentenceParser::new();
    assert!(parser.is_empty().is_ok());
    let mut tokenizer = TokenizationState::new();
    let tokens = tokenizer.feed("jan ").unwrap();
    for token in tokens {
        match parser.feed_one(token).unwrap() {
            SentenceParsingOutput::Continues(p) => parser = p,
            SentenceParsingOutput::Finished(_) => panic!("not finished yet"),
        }
    }
    assert!(matches!(
        parser.is_empty(),
        Err(SentenceParseError::SubjectNotEmpty(_))
    ));
    let tokens = tokenizer.feed("su ").unwrap();
    for token in tokens {
        match parser.feed_one(token).unwrap() {
            SentenceParsingOutput::Continues(p) => parser = p,
            SentenceParsingOutput::Finished(_) => panic!("not finished yet"),
        }
    }
    assert!(matches!(
        parser.is_empty(),
        Err(SentenceParseError::PredicateNotEmpty)
    ));
}

#[test]
fn context_keeps_parser_open() {
    let mut parser = SentenceParser::new();
    let mut tokenizer = TokenizationState::new();
    let tokens = tokenizer.feed("jansu ponapa la ").unwrap();
    for token in tokens {
        match parser.feed_one(token).unwrap() {
            SentenceParsingOutput::Continues(p) => parser = p,
            SentenceParsingOutput::Finished(_) => panic!("not finished yet"),
        }
    }
    assert!(matches!(
        parser.is_empty(),
        Err(SentenceParseError::ContextNotEmpty)
    ));
}

#[test]
fn content_errors_inside_a_sentence() {
    assert!(matches!(
        parse_sentence("pi jansu ponapa."),
        Err(SentenceParseError::Content(ContentParseError::PropertyOfNothing(_)))
    ));
}

#[test]
fn what_an_unfinished_predicate_leaves_open() {
    assert!(matches!(
        parse_sentence("jansu tomo."),
        Err(SentenceParseError::Object(ObjectParseError::UnfinishedContent(
            ContentParseError::NotEmpty(_)
        )))
    ));
    match parse_sentence("jansu tomolo.") {
        Err(SentenceParseError::Object(ObjectParseError::OrphanPrepositions(ps))) => {
            assert_eq!(ps.len(), 1);
            assert_eq!(ps[0].content.as_natural(), "tomo");
        }
        _ => panic!("expected orphan prepositions"),
    }
}

#[test]
fn what_an_unfinished_subject_leaves_open() {
    let mut tokenizer = TokenizationState::new();
    let mut parser = SubjectParser::new();
    assert!(parser.is_empty().is_ok());
    for token in tokenizer.feed("tomolo ").unwrap() {
        match parser.feed_one(token).unwrap() {
            suli_pona_toki::sentence::SubjectParsingOutput::Continues(p) => parser = p,
            _ => panic!("not finished yet"),
        }
    }
    match parser.is_empty() {
        Err(SubjectParsingError::PrepositionsNotEmpty(ps)) => assert_eq!(ps.len(), 1),
        _ => panic!("expected the preposition to be reported"),
    }
    for token in tokenizer.feed("jan ").unwrap() {
        match parser.feed_one(token).unwrap() {
            suli_pona_toki::sentence::SubjectParsingOutput::Continues(p) => parser = p,
            _ => panic!("not finished yet"),
        }
    }
    assert!(matches!(
        parser.is_empty(),
        Err(SubjectParsingError::HasContent(ContentParseError::NotEmpty(_)))
    ));
}
