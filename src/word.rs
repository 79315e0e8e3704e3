//! The lexicon's data: word classes, entries and the errors of its operations.
use vstd::prelude::*;

verus! {

/// The closed set of lexical classes that a stored word can have.
#[derive(Clone, Copy, Debug, PartialEq, Eq, Structural)]
pub enum WordType {
    Noun,
    Verb,
    Amuini,
}

/// The spelling of each word class on the wire.
pub open spec fn class_spelling(t: WordType) -> Seq<char> {
    match t {
        WordType::Noun => seq!['n', 'o', 'u', 'n'],
        WordType::Verb => seq!['v', 'e', 'r', 'b'],
        WordType::Amuini => seq!['a', 'm', 'u', 'i', 'n', 'i'],
    }
}

/// The word class spelled `s`, if any.
pub open spec fn type_named(s: Seq<char>) -> Option<WordType> {
    if s == class_spelling(WordType::Noun) {
        Some(WordType::Noun)
    } else if s == class_spelling(WordType::Verb) {
        Some(WordType::Verb)
    } else if s == class_spelling(WordType::Amuini) {
        Some(WordType::Amuini)
    } else {
        None
    }
}

/// The creation-time directive that asks for the class to be inferred.
pub open spec fn auto_directive() -> Seq<char> {
    seq!['a', 'u', 't', 'o']
}

impl WordType {
    /// The class's spelling on the wire.
    pub fn name(&self) -> (r: &'static str)
        ensures
            r@ == class_spelling(*self),
    {
        match self {
            WordType::Noun => {
                proof {
                    reveal_strlit("noun");
                }
                "noun"
            },
            WordType::Verb => {
                proof {
                    reveal_strlit("verb");
                }
                "verb"
            },
            WordType::Amuini => {
                proof {
                    reveal_strlit("amuini");
                }
                "amuini"
            },
        }
    }
}

/// The kinds of failure of the lexicon's operations.
#[derive(Clone, Debug, PartialEq, Eq)]
pub enum LexiconError {
    /// A required input is empty.
    MissingField,
    /// The word class is not one of the closed set, or could not be inferred.
    InvalidType,
    /// Analysis was asked for a word class that has none.
    NotImplemented,
    /// A bulk-import token is not of the form `definition=word`.
    MalformedToken,
    /// A morpheme token would run past the end of the word.
    OutOfBounds,
    /// The identifiers of a batch would not fit in 64 bits.
    IdsExhausted,
    /// The storage backend failed, with its message.
    Persistence(String),
}

/// The decomposition of a verb into its morphemes.
#[derive(Clone, Debug, PartialEq, Eq)]
pub struct Etymology {
    pub lexeme: String,
    pub subject: Option<String>,
    pub ci: Option<String>,
    pub modifiers: Vec<String>,
}

/// What an [`Etymology`] holds, as character sequences.
pub struct EtymologyView {
    pub lexeme: Seq<char>,
    pub subject: Option<Seq<char>>,
    pub ci: Option<Seq<char>>,
    pub modifiers: Seq<Seq<char>>,
}

pub open spec fn opt_string_view(o: Option<String>) -> Option<Seq<char>> {
    match o {
        Some(s) => Some(s@),
        None => None,
    }
}

impl View for Etymology {
    type V = EtymologyView;

    open spec fn view(&self) -> EtymologyView {
        EtymologyView {
            lexeme: self.lexeme@,
            subject: opt_string_view(self.subject),
            ci: opt_string_view(self.ci),
            modifiers: self.modifiers@.map_values(|m: String| m@),
        }
    }
}

pub open spec fn opt_etymology_view(o: Option<Etymology>) -> Option<EtymologyView> {
    match o {
        Some(e) => Some(e@),
        None => None,
    }
}

/// A lexical entry.
#[derive(Clone, Debug, PartialEq, Eq)]
pub struct Word {
    pub id: i64,
    pub word: String,
    pub definition: String,
    pub word_type: WordType,
    pub etymology: Option<Etymology>,
}

/// What a [`Word`] holds, as plain values and character sequences.
pub struct WordView {
    pub id: i64,
    pub word: Seq<char>,
    pub definition: Seq<char>,
    pub word_type: WordType,
    pub etymology: Option<EtymologyView>,
}

impl View for Word {
    type V = WordView;

    open spec fn view(&self) -> WordView {
        WordView {
            id: self.id,
            word: self.word@,
            definition: self.definition@,
            word_type: self.word_type,
            etymology: opt_etymology_view(self.etymology),
        }
    }
}

} // verus!
