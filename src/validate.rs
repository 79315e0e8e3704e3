//! The checks that a new entry passes before it is stored.
use vstd::prelude::*;
use crate::etymology::verb_marker;
use crate::text::{find, first_index, same_text};
use crate::word::{LexiconError, WordType, auto_directive, type_named};

verus! {

/// The outcome of validating an entry with class tag `t`, spelling `w` and
/// definition `d`: the class it is stored with, or why it is refused.
pub open spec fn validation(t: Seq<char>, w: Seq<char>, d: Seq<char>) -> Result<
    WordType,
    LexiconError,
> {
    if t.len() == 0 || w.len() == 0 || d.len() == 0 {
        Err(LexiconError::MissingField)
    } else if t == auto_directive() {
        if first_index(w, verb_marker()) is Some {
            Ok(WordType::Verb)
        } else {
            Err(LexiconError::InvalidType)
        }
    } else {
        match type_named(t) {
            Some(c) => Ok(c),
            None => Err(LexiconError::InvalidType),
        }
    }
}

impl WordType {
    /// The word class spelled `s`; `None` for any other text, `auto` included.
    pub fn parse(s: &str) -> (r: Option<WordType>)
        ensures
            r == type_named(s@),
    {
        let noun = WordType::Noun.name();
        let verb = WordType::Verb.name();
        let amuini = WordType::Amuini.name();
        if same_text(s, noun) {
            Some(WordType::Noun)
        } else if same_text(s, verb) {
            Some(WordType::Verb)
        } else if same_text(s, amuini) {
            Some(WordType::Amuini)
        } else {
            None
        }
    }
}

/// Checks a new entry and resolves its class tag to the class it is stored
/// with. The tag `auto` resolves to a verb when the word holds the marker `rn`
/// and is refused otherwise.
pub fn validate(word_type: &str, word: &str, definition: &str) -> (r: Result<
    WordType,
    LexiconError,
>)
    ensures
        r == validation(word_type@, word@, definition@),
{
    if word_type.is_empty() || word.is_empty() || definition.is_empty() {
        return Err(LexiconError::MissingField);
    }
    proof {
        reveal_strlit("auto");
        reveal_strlit("rn");
        assert("auto"@ =~= auto_directive());
        assert("rn"@ =~= verb_marker());
    }
    if same_text(word_type, "auto") {
        if find(word, "rn").is_some() {
            Ok(WordType::Verb)
        } else {
            Err(LexiconError::InvalidType)
        }
    } else {
        match WordType::parse(word_type) {
            Some(c) => Ok(c),
            None => Err(LexiconError::InvalidType),
        }
    }
}

} // verus!
