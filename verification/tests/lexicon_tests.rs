use suli_pona_toki::lexicon::{make_map, Lexicon, ROOT_WORDS};
use suli_pona_toki::tokens::{TokenizationError, TokenizationState};

#[test]
fn standard_table_splits_words() {
    let table = make_map(&Lexicon::standard());
    let w = table.get(&"anponasula".to_string()).unwrap();
    assert_eq!(w.prefix, Some("an"));
    assert_eq!(w.root, "pona");
    assert_eq!(w.suffix, Some("su"));
    assert_eq!(w.sufsuffix, Some("la"));
    let w = table.get(&"pona".to_string()).unwrap();
    assert_eq!((w.prefix, w.root, w.suffix, w.sufsuffix), (None, "pona", None, None));
    assert!(table.get(&"ponaponapona".to_string()).is_none());
    assert!(table.get(&"".to_string()).is_none());
}

#[test]
fn every_root_is_known() {
    let table = make_map(&Lexicon::standard());
    for root in ROOT_WORDS.iter() {
        let w = table.get(&root.to_string()).unwrap();
        let spelled = format!(
            "{}{}{}{}",
            w.prefix.unwrap_or(""),
            w.root,
            w.suffix.unwrap_or(""),
            w.sufsuffix.unwrap_or("")
        );
        assert_eq!(&spelled, root);
    }
}

#[test]
fn suffix_equal_to_root_is_not_a_word() {
    let lexicon = Lexicon {
        prefixes: vec![],
        roots: vec!["ab"],
        suffixes: vec!["ab", "cd"],
        literals: vec![],
        sufsuffixes: vec!["ef"],
    };
    let table = make_map(&lexicon);
    assert!(table.get(&"abab".to_string()).is_none());
    assert!(table.get(&"abcdef".to_string()).is_some());
    assert!(table.get(&"abef".to_string()).is_none());
    let w = table.get(&"cdab".to_string()).unwrap();
    assert_eq!((w.root, w.suffix), ("cd", Some("ab")));

    let mut tokenizer = TokenizationState::with_lexicon(&lexicon);
    assert!(matches!(
        tokenizer.feed("abab "),
        Err(TokenizationError::ErrorInString { .. })
    ));
}
