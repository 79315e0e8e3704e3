//! Decomposition of a verb's surface form into its morphemes.
use vstd::prelude::*;
use crate::text::{find, first_index, occurs_at, lemma_find_from};
use crate::word::{Etymology, EtymologyView, LexiconError, WordType, opt_etymology_view};

verus! {

/// The two characters that end a verb's root.
pub open spec fn verb_marker() -> Seq<char> {
    seq!['r', 'n']
}

/// Where the morpheme located by `first`, or failing that by `second`, starts.
pub open spec fn morpheme_start(w: Seq<char>, first: char, second: char) -> Option<int> {
    match first_index(w, seq![first]) {
        Some(i) => Some(i),
        None => first_index(w, seq![second]),
    }
}

/// The two-character morpheme token located by `first`, or failing that by
/// `second`; an error where the token would run past the end of the word.
pub open spec fn morpheme_token(w: Seq<char>, first: char, second: char) -> Result<
    Option<Seq<char>>,
    LexiconError,
> {
    match morpheme_start(w, first, second) {
        None => Ok(None),
        Some(i) => if i + 2 <= w.len() {
            Ok(Some(w.subrange(i, i + 2)))
        } else {
            Err(LexiconError::OutOfBounds)
        },
    }
}

/// The decomposition of `w` read as a word of class `t`.
pub open spec fn decomposition(w: Seq<char>, t: WordType) -> Result<
    Option<EtymologyView>,
    LexiconError,
> {
    if t != WordType::Verb {
        Err(LexiconError::NotImplemented)
    } else {
        match first_index(w, verb_marker()) {
            None => Ok(None),
            Some(i) => match (morpheme_token(w, 't', 'd'), morpheme_token(w, 'k', 'g')) {
                (Ok(subject), Ok(ci)) => Ok(
                    Some(
                        EtymologyView {
                            lexeme: w.take(i),
                            subject,
                            ci,
                            modifiers: Seq::empty(),
                        },
                    ),
                ),
                _ => Err(LexiconError::OutOfBounds),
            },
        }
    }
}

pub open spec fn token_result_view(r: Result<Option<String>, LexiconError>) -> Result<
    Option<Seq<char>>,
    LexiconError,
> {
    match r {
        Ok(Some(s)) => Ok(Some(s@)),
        Ok(None) => Ok(None),
        Err(e) => Err(e),
    }
}

pub open spec fn etymology_result_view(r: Result<Option<Etymology>, LexiconError>) -> Result<
    Option<EtymologyView>,
    LexiconError,
> {
    match r {
        Ok(o) => Ok(opt_etymology_view(o)),
        Err(e) => Err(e),
    }
}

/// The first index of the one-character string `c`, read as that character.
fn find_char(w: &str, c: &str, Ghost(ch): Ghost<char>) -> (r: Option<usize>)
    requires
        c@ == seq![ch],
    ensures
        match r {
            Some(i) => first_index(w@, seq![ch]) == Some(i as int),
            None => first_index(w@, seq![ch]) is None,
        },
{
    find(w, c)
}

/// Extracts the morpheme token located by `first`, or failing that by `second`.
fn extract_morpheme(
    w: &str,
    first: &str,
    second: &str,
    Ghost(a): Ghost<char>,
    Ghost(b): Ghost<char>,
) -> (r: Result<Option<String>, LexiconError>)
    requires
        first@ == seq![a],
        second@ == seq![b],
    ensures
        token_result_view(r) == morpheme_token(w@, a, b),
{
    let start = match find_char(w, first, Ghost(a)) {
        Some(i) => Some(i),
        None => find_char(w, second, Ghost(b)),
    };
    match start {
        None => Ok(None),
        Some(i) => {
            let n = w.unicode_len();
            if i < n && n - i >= 2 {
                Ok(Some(w.substring_char(i, i + 2).to_owned()))
            } else {
                Err(LexiconError::OutOfBounds)
            }
        },
    }
}

/// Decomposes `word`, read as a word of class `word_type`, into its lexeme and
/// its subject and ci morpheme tokens.
///
/// Only verbs can be analysed; a verb without the marker `rn` has no
/// decomposition, which is not an error.
pub fn get_word_etymology(word: &str, word_type: WordType) -> (r: Result<
    Option<Etymology>,
    LexiconError,
>)
    ensures
        etymology_result_view(r) == decomposition(word@, word_type),
{
    match word_type {
        WordType::Verb => {
            proof {
                reveal_strlit("rn");
                reveal_strlit("t");
                reveal_strlit("d");
                reveal_strlit("k");
                reveal_strlit("g");
                assert("rn"@ =~= verb_marker());
                assert("t"@ =~= seq!['t']);
                assert("d"@ =~= seq!['d']);
                assert("k"@ =~= seq!['k']);
                assert("g"@ =~= seq!['g']);
            }
            match find(word, "rn") {
                None => Ok(None),
                Some(i) => {
                    proof {
                        lemma_find_from(word@, verb_marker(), 0);
                    }
                    let subject = extract_morpheme(word, "t", "d", Ghost('t'), Ghost('d'));
                    let ci = extract_morpheme(word, "k", "g", Ghost('k'), Ghost('g'));
                    match (subject, ci) {
                        (Ok(subject), Ok(ci)) => {
                            let lexeme = word.substring_char(0, i).to_owned();
                            let modifiers: Vec<String> = Vec::new();
                            let e = Etymology { lexeme, subject, ci, modifiers };
                            proof {
                                assert(e@.modifiers =~= Seq::<Seq<char>>::empty());
                                assert(word@.subrange(0, i as int) =~= word@.take(i as int));
                            }
                            Ok(Some(e))
                        },
                        _ => Err(LexiconError::OutOfBounds),
                    }
                },
            }
        },
        _ => Err(LexiconError::NotImplemented),
    }
}

/// For a verb that holds the marker `rn`, whenever its morpheme tokens can be
/// extracted, the lexeme is exactly the part of the word before the first `rn`.
pub proof fn lemma_lexeme_is_prefix(w: Seq<char>)
    requires
        first_index(w, verb_marker()) is Some,
        morpheme_token(w, 't', 'd') is Ok,
        morpheme_token(w, 'k', 'g') is Ok,
    ensures
        ({
            let i = first_index(w, verb_marker())->Some_0;
            &&& decomposition(w, WordType::Verb) matches Ok(Some(e))
            &&& e.lexeme == w.subrange(0, i)
            &&& occurs_at(w, verb_marker(), i)
            &&& forall|j: int| 0 <= j < i ==> !occurs_at(w, verb_marker(), j)
        }),
{
    lemma_find_from(w, verb_marker(), 0);
}

/// Words of the classes without an analysis always give `NotImplemented`.
pub proof fn lemma_non_verbs_not_implemented(w: Seq<char>, t: WordType)
    requires
        t == WordType::Noun || t == WordType::Amuini,
    ensures
        decomposition(w, t) == Err::<Option<EtymologyView>, LexiconError>(
            LexiconError::NotImplemented,
        ),
{
}

} // verus!
