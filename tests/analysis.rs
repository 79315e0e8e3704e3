use tavsa::etymology::get_word_etymology;
use tavsa::validate::validate;
use tavsa::word::{LexiconError, WordType};

#[test]
fn decompose_katrna() {
    let e = get_word_etymology("katrna", WordType::Verb).unwrap().unwrap();
    assert_eq!(e.lexeme, "kat");
    assert_eq!(e.subject, Some("tr".to_string()));
    assert_eq!(e.ci, Some("ka".to_string()));
    assert!(e.modifiers.is_empty());
}

#[test]
fn decompose_without_marker_is_absent() {
    let r = get_word_etymology("amuini-like-word-without-marker", WordType::Verb);
    assert_eq!(r, Ok(None));
}

#[test]
fn decompose_non_verbs_not_implemented() {
    for w in ["katrna", "", "zint", "amirna"] {
        assert_eq!(get_word_etymology(w, WordType::Noun), Err(LexiconError::NotImplemented));
        assert_eq!(get_word_etymology(w, WordType::Amuini), Err(LexiconError::NotImplemented));
    }
}

#[test]
fn lexeme_is_prefix_before_first_marker() {
    for (w, lexeme) in [("katrna", "kat"), ("rnka", ""), ("abrnrn", "ab"), ("tokurna", "toku")] {
        let e = get_word_etymology(w, WordType::Verb).unwrap().unwrap();
        assert_eq!(e.lexeme, lexeme);
    }
}

#[test]
fn decompose_falls_back_to_second_marker() {
    let e = get_word_etymology("dogarn", WordType::Verb).unwrap().unwrap();
    assert_eq!(e.lexeme, "doga");
    assert_eq!(e.subject, Some("do".to_string()));
    assert_eq!(e.ci, Some("ga".to_string()));
}

#[test]
fn decompose_prefers_first_marker_over_position() {
    // a `d` before the `t` does not win: the `t` is looked for first
    let e = get_word_etymology("dakatirn", WordType::Verb).unwrap().unwrap();
    assert_eq!(e.subject, Some("ti".to_string()));
    assert_eq!(e.ci, Some("ka".to_string()));
}

#[test]
fn decompose_without_morphemes() {
    let e = get_word_etymology("amirna", WordType::Verb).unwrap().unwrap();
    assert_eq!(e.lexeme, "ami");
    assert_eq!(e.subject, None);
    assert_eq!(e.ci, None);
}

#[test]
fn decompose_token_past_end_is_out_of_bounds() {
    assert_eq!(get_word_etymology("rnat", WordType::Verb), Err(LexiconError::OutOfBounds));
    assert_eq!(get_word_etymology("rnag", WordType::Verb), Err(LexiconError::OutOfBounds));
}

#[test]
fn validate_missing_fields() {
    assert_eq!(validate("", "x", "y"), Err(LexiconError::MissingField));
    assert_eq!(validate("noun", "", "y"), Err(LexiconError::MissingField));
    assert_eq!(validate("noun", "x", ""), Err(LexiconError::MissingField));
}

#[test]
fn validate_auto() {
    assert_eq!(validate("auto", "zint", "def"), Err(LexiconError::InvalidType));
    assert_eq!(validate("auto", "katrna", "def"), Ok(WordType::Verb));
}

#[test]
fn validate_closed_set() {
    assert_eq!(validate("noun", "x", "y"), Ok(WordType::Noun));
    assert_eq!(validate("verb", "x", "y"), Ok(WordType::Verb));
    assert_eq!(validate("amuini", "x", "y"), Ok(WordType::Amuini));
    assert_eq!(validate("adjective", "x", "y"), Err(LexiconError::InvalidType));
    assert_eq!(validate("Noun", "x", "y"), Err(LexiconError::InvalidType));
}

#[test]
fn word_type_names_round_trip() {
    for t in [WordType::Noun, WordType::Verb, WordType::Amuini] {
        assert_eq!(WordType::parse(t.name()), Some(t));
    }
    assert_eq!(WordType::parse("auto"), None);
}
