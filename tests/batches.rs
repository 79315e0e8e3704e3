use tavsa::import::{import_batch, parse_entry, split_tokens};
use tavsa::store::{add_entry, delete_entry, import_into, WordStore};
use tavsa::word::{LexiconError, WordType};

fn store_with_five() -> WordStore {
    let mut s = WordStore::new();
    for w in ["a", "b", "c", "d", "e"] {
        add_entry(&mut s, "noun", w, "x").unwrap();
    }
    s
}

#[test]
fn import_assigns_ids_after_max() {
    let v = import_batch("house=tokurna bird=amirna", WordType::Verb, Some(5)).unwrap();
    assert_eq!(v.len(), 2);
    assert_eq!(v[0].id, 6);
    assert_eq!(v[1].id, 7);
    assert_eq!(v[0].word, "tokurna");
    assert_eq!(v[1].word, "amirna");
    assert_eq!(v[0].definition, "house");
    assert_eq!(v[1].definition, "bird");
    assert_eq!(v[0].word_type, WordType::Verb);
    let e = v[0].etymology.clone().unwrap();
    assert_eq!(e.lexeme, "toku");
    assert_eq!(e.subject, Some("to".to_string()));
    assert_eq!(e.ci, Some("ku".to_string()));
}

#[test]
fn import_into_empty_store_starts_at_one() {
    let v = import_batch("house=tokurna", WordType::Noun, None).unwrap();
    assert_eq!(v[0].id, 1);
    assert_eq!(v[0].etymology, None);
}

#[test]
fn import_lower_cases_both_parts() {
    let v = import_batch("House=TokuRNA", WordType::Verb, None).unwrap();
    assert_eq!(v[0].word, "tokurna");
    assert_eq!(v[0].definition, "house");
}

#[test]
fn import_splits_on_any_white_space() {
    let v = import_batch("  a=b\tc=d\n\ne=f  ", WordType::Noun, Some(1)).unwrap();
    let ids: Vec<i64> = v.iter().map(|w| w.id).collect();
    assert_eq!(ids, vec![2, 3, 4]);
    assert_eq!(v[2].word, "f");
    assert_eq!(split_tokens(" x  y\tz "), vec!["x".to_string(), "y".to_string(), "z".to_string()]);
}

#[test]
fn import_empty_body() {
    assert_eq!(import_batch("   ", WordType::Verb, Some(5)), Ok(vec![]));
}

#[test]
fn import_malformed_token_aborts() {
    assert_eq!(
        import_batch("house=tokurna birdamirna", WordType::Verb, Some(5)),
        Err(LexiconError::MalformedToken)
    );
    let mut s = store_with_five();
    assert_eq!(
        import_into(&mut s, "house=tokurna birdamirna", WordType::Verb),
        Err(LexiconError::MalformedToken)
    );
    assert_eq!(s.list_all().len(), 5);
}

#[test]
fn parse_entry_forms() {
    assert_eq!(parse_entry("house=tokurna"), Ok(("house".to_string(), "tokurna".to_string())));
    assert_eq!(parse_entry("birdamirna"), Err(LexiconError::MalformedToken));
    assert_eq!(parse_entry("a=b=c"), Err(LexiconError::MalformedToken));
    assert_eq!(parse_entry("=b"), Err(LexiconError::MalformedToken));
    assert_eq!(parse_entry("a="), Err(LexiconError::MalformedToken));
}

#[test]
fn import_ids_exhausted() {
    assert_eq!(
        import_batch("a=b", WordType::Noun, Some(i64::MAX)),
        Err(LexiconError::IdsExhausted)
    );
    assert_eq!(import_batch("", WordType::Noun, Some(i64::MAX)), Ok(vec![]));
    let v = import_batch("a=b", WordType::Noun, Some(i64::MAX - 1)).unwrap();
    assert_eq!(v[0].id, i64::MAX);
}

#[test]
fn import_into_store() {
    let mut s = store_with_five();
    assert_eq!(s.max_id(), Some(5));
    assert_eq!(import_into(&mut s, "house=tokurna bird=amirna", WordType::Verb), Ok(2));
    let ids: Vec<i64> = s.list_all().iter().map(|w| w.id).collect();
    assert_eq!(ids, vec![1, 2, 3, 4, 5, 6, 7]);
    assert_eq!(s.max_id(), Some(7));
}

#[test]
fn add_entry_validates_and_stores() {
    let mut s = WordStore::new();
    assert_eq!(s.max_id(), None);
    assert_eq!(add_entry(&mut s, "auto", "katrna", "cat"), Ok(1));
    assert_eq!(add_entry(&mut s, "auto", "zint", "def"), Err(LexiconError::InvalidType));
    assert_eq!(add_entry(&mut s, "noun", "", "def"), Err(LexiconError::MissingField));
    let all = s.list_all();
    assert_eq!(all.len(), 1);
    assert_eq!(all[0].word_type, WordType::Verb);
    assert_eq!(all[0].word, "katrna");
    assert_eq!(all[0].etymology.clone().unwrap().lexeme, "kat");
}

#[test]
fn delete_missing_id_is_a_no_op() {
    let mut s = store_with_five();
    assert!(!s.delete(42));
    assert_eq!(s.list_all().len(), 5);
    assert!(!delete_entry(&mut s, "not-a-number"));
    assert_eq!(s.list_all().len(), 5);
}

#[test]
fn delete_existing_id_removes_one_row() {
    let mut s = store_with_five();
    assert!(delete_entry(&mut s, "3"));
    let ids: Vec<i64> = s.list_all().iter().map(|w| w.id).collect();
    assert_eq!(ids, vec![1, 2, 4, 5]);
    assert!(!s.delete(3));
    assert!(s.delete(5));
    assert_eq!(s.max_id(), Some(4));
    assert_eq!(add_entry(&mut s, "noun", "f", "x"), Ok(5));
}

#[test]
fn concurrent_imports_can_collide() {
    let mut s = store_with_five();
    let seen_a = s.max_id();
    let seen_b = s.max_id();
    let a = import_batch("house=tokurna", WordType::Verb, seen_a).unwrap();
    let b = import_batch("bird=amirna", WordType::Verb, seen_b).unwrap();
    assert_eq!(a[0].id, 6);
    assert_eq!(b[0].id, 6);
    assert_eq!(s.insert_batch(a), Ok(1));
    assert!(matches!(s.insert_batch(b), Err(LexiconError::Persistence(_))));
    assert_eq!(s.list_all().len(), 6);
}
