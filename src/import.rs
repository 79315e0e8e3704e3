//! Bulk import: a batch of whitespace-separated `definition=word` tokens
//! becomes a sequence of words with consecutive identifiers.
use vstd::prelude::*;
use crate::etymology::{decomposition, get_word_etymology};
use crate::text::{find, first_index, lemma_find_from};
use crate::word::{EtymologyView, LexiconError, Word, WordType, WordView};

verus! {

/// Whether `c` is white space, as `char::is_whitespace` decides it.
pub uninterp spec fn is_space(c: char) -> bool;

/// The lower-case form of `s`, as `str::to_lowercase` computes it.
pub uninterp spec fn lower_of(s: Seq<char>) -> Seq<char>;

/// The identifier written in `s`, as `str::parse::<i64>` reads it.
pub uninterp spec fn parsed_id(s: Seq<char>) -> Option<i64>;

/// Relies on `str::parse::<i64>`: the result depends on the characters alone.
#[verifier::external_body]
pub(crate) fn parse_id(s: &str) -> (r: Option<i64>)
    ensures
        r == parsed_id(s@),
{
    s.parse::<i64>().ok()
}

/// Relies on `char::is_whitespace`: a property of the character alone.
#[verifier::external_body]
fn char_is_space(c: char) -> (r: bool)
    ensures
        r == is_space(c),
{
    c.is_whitespace()
}

/// Relies on `str::to_lowercase`: the result depends on the characters alone.
#[verifier::external_body]
fn lowercase(s: &str) -> (r: String)
    ensures
        r@ == lower_of(s@),
{
    s.to_lowercase()
}

/// The maximal runs of non-space characters of `s`, in order.
pub open spec fn tokens(s: Seq<char>) -> Seq<Seq<char>>
    decreases s.len(),
{
    if s.len() == 0 {
        Seq::empty()
    } else {
        let prev = tokens(s.drop_last());
        let c = s.last();
        if is_space(c) {
            prev
        } else if s.len() >= 2 && !is_space(s[s.len() - 2]) {
            prev.drop_last().push(prev.last().push(c))
        } else {
            prev.push(seq![c])
        }
    }
}

pub open spec fn string_views(v: Seq<String>) -> Seq<Seq<char>> {
    v.map_values(|t: String| t@)
}

/// Splits `s` into its maximal runs of non-space characters.
pub fn split_tokens(s: &str) -> (r: Vec<String>)
    ensures
        string_views(r@) == tokens(s@),
{
    let n = s.unicode_len();
    let mut out: Vec<String> = Vec::new();
    let mut open = false;
    let mut start: usize = 0;
    let mut i: usize = 0;
    while i < n
        invariant
            n == s@.len(),
            i <= n,
            open ==> !is_space(s@[i - 1]),
            !open && i > 0 ==> is_space(s@[i - 1]),
            open ==> start < i && tokens(s@.take(i as int)).len() > 0
                && tokens(s@.take(i as int)).last() == s@.subrange(start as int, i as int)
                && string_views(out@) == tokens(s@.take(i as int)).drop_last(),
            !open ==> string_views(out@) == tokens(s@.take(i as int)),
        decreases n - i,
    {
        let c = s.get_char(i);
        let space = char_is_space(c);
        let ghost prev = tokens(s@.take(i as int));
        proof {
            assert(s@.take(i + 1).drop_last() =~= s@.take(i as int));
            assert(s@.take(i + 1).last() == c);
            if i > 0 {
                assert(s@.take(i + 1)[i - 1] == s@[i - 1]);
            }
        }
        if space {
            if open {
                let t = s.substring_char(start, i).to_owned();
                out.push(t);
                proof {
                    assert(string_views(out@) =~= prev.drop_last().push(prev.last()));
                    assert(prev.drop_last().push(prev.last()) =~= prev);
                }
                open = false;
            }
        } else {
            if open {
                proof {
                    let next = tokens(s@.take(i + 1));
                    assert(next == prev.drop_last().push(prev.last().push(c)));
                    assert(s@.subrange(start as int, i as int).push(c) =~= s@.subrange(
                        start as int,
                        i + 1,
                    ));
                    assert(next.drop_last() =~= prev.drop_last());
                }
            } else {
                start = i;
                assert(s@.subrange(i as int, i + 1) =~= seq![c]);
                open = true;
            }
        }
        i = i + 1;
    }
    proof {
        assert(s@.take(n as int) =~= s@);
    }
    if open {
        let ghost prev = tokens(s@);
        let t = s.substring_char(start, n).to_owned();
        out.push(t);
        proof {
            assert(string_views(out@) =~= prev.drop_last().push(prev.last()));
            assert(prev.drop_last().push(prev.last()) =~= prev);
        }
    }
    out
}

/// The character that separates a definition from its word in a token.
pub open spec fn separator() -> Seq<char> {
    seq!['=']
}

/// The definition and the word of a token `definition=word`: both parts
/// non-empty, and exactly one separator in the token.
pub open spec fn entry_parts(t: Seq<char>) -> Option<(Seq<char>, Seq<char>)> {
    match first_index(t, separator()) {
        None => None,
        Some(i) => if 0 < i && i + 1 < t.len() && first_index(t.skip(i + 1), separator()) is None {
            Some((t.take(i), t.skip(i + 1)))
        } else {
            None
        },
    }
}

/// Splits one token `definition=word` into its definition and its word.
pub fn parse_entry(token: &str) -> (r: Result<(String, String), LexiconError>)
    ensures
        match entry_parts(token@) {
            Some(p) => r matches Ok(q) && q.0@ == p.0 && q.1@ == p.1,
            None => r == Err::<(String, String), LexiconError>(LexiconError::MalformedToken),
        },
{
    proof {
        reveal_strlit("=");
        assert("="@ =~= separator());
    }
    match find(token, "=") {
        None => Err(LexiconError::MalformedToken),
        Some(i) => {
            proof {
                lemma_find_from(token@, separator(), 0);
            }
            let n = token.unicode_len();
            if 0 < i && i + 1 < n {
                let rest = token.substring_char(i + 1, n);
                proof {
                    assert(token@.subrange(i + 1, n as int) =~= token@.skip(i + 1));
                    assert(token@.subrange(0, i as int) =~= token@.take(i as int));
                }
                if find(rest, "=").is_none() {
                    let definition = token.substring_char(0, i).to_owned();
                    Ok((definition, rest.to_owned()))
                } else {
                    Err(LexiconError::MalformedToken)
                }
            } else {
                Err(LexiconError::MalformedToken)
            }
        },
    }
}

/// The identifier given to the first word of a batch, after the store's
/// largest identifier `max`.
pub open spec fn first_id(max: Option<i64>) -> int {
    match max {
        Some(m) => m + 1,
        None => 1,
    }
}

/// Whether `count` consecutive identifiers from `first_id(max)` fit in 64 bits.
pub open spec fn ids_fit(max: Option<i64>, count: int) -> bool {
    count == 0 || first_id(max) + count - 1 <= i64::MAX
}

/// Whether every token of a batch is of the form `definition=word`.
pub open spec fn all_well_formed(toks: Seq<Seq<char>>) -> bool {
    forall|k: int| 0 <= k < toks.len() ==> (#[trigger] entry_parts(toks[k])) is Some
}

/// The analysis kept with a word: its decomposition where it has one.
pub open spec fn analysis_of(w: Seq<char>, t: WordType) -> Option<EtymologyView> {
    match decomposition(w, t) {
        Ok(o) => o,
        Err(_) => None,
    }
}

/// The word that a well-formed token of a batch of class `t` becomes, with
/// identifier `id`.
pub open spec fn imported_word(tok: Seq<char>, t: WordType, id: int) -> WordView {
    let p = entry_parts(tok)->Some_0;
    WordView {
        id: id as i64,
        word: lower_of(p.1),
        definition: lower_of(p.0),
        word_type: t,
        etymology: analysis_of(lower_of(p.1), t),
    }
}

/// Turns a batch of whitespace-separated `definition=word` tokens, all of
/// class `word_type`, into words with consecutive identifiers after
/// `current_max_id` (from 1 for an empty store), in the order of the tokens.
/// Both parts are lower-cased. One malformed token refuses the whole batch.
pub fn import_batch(raw_text: &str, word_type: WordType, current_max_id: Option<i64>) -> (r:
    Result<Vec<Word>, LexiconError>)
    ensures
        ({
            let toks = tokens(raw_text@);
            &&& (r is Ok <==> all_well_formed(toks) && ids_fit(current_max_id, toks.len() as int))
            &&& (r == Err::<Vec<Word>, LexiconError>(LexiconError::MalformedToken)
                <==> !all_well_formed(toks))
            &&& (r == Err::<Vec<Word>, LexiconError>(LexiconError::IdsExhausted)
                <==> all_well_formed(toks) && !ids_fit(current_max_id, toks.len() as int))
            &&& (r matches Ok(v) ==> v@.len() == toks.len() && forall|k: int|
                0 <= k < v@.len() ==> (#[trigger] v@[k])@ == imported_word(
                    toks[k],
                    word_type,
                    first_id(current_max_id) + k,
                ))
        }),
{
    let toks = split_tokens(raw_text);
    let ghost tv = tokens(raw_text@);
    let mut entries: Vec<(String, String)> = Vec::new();
    let mut k: usize = 0;
    while k < toks.len()
        invariant
            tv == tokens(raw_text@),
            string_views(toks@) == tv,
            k <= toks@.len(),
            entries@.len() == k,
            forall|j: int|
                0 <= j < k ==> entry_parts(#[trigger] tv[j]) == Some(
                    (entries@[j].0@, entries@[j].1@),
                ),
        decreases toks@.len() - k,
    {
        assert(tv[k as int] == toks@[k as int]@);
        match parse_entry(toks[k].as_str()) {
            Ok(p) => {
                entries.push(p);
            },
            Err(e) => {
                assert(entry_parts(tv[k as int]) is None);
                assert(e == LexiconError::MalformedToken);
                assert(!all_well_formed(tv));
                return Err(e);
            },
        }
        k = k + 1;
    }
    assert(all_well_formed(tv));
    let n = entries.len();
    let first: i128 = match current_max_id {
        Some(m) => m as i128 + 1,
        None => 1,
    };
    if n > 0 && first + (n as i128) - 1 > i64::MAX as i128 {
        return Err(LexiconError::IdsExhausted);
    }
    let mut words: Vec<Word> = Vec::new();
    let mut k: usize = 0;
    while k < n
        invariant
            n == entries@.len(),
            tv == tokens(raw_text@),
            n == tv.len(),
            first == first_id(current_max_id),
            n == 0 || first + n - 1 <= i64::MAX,
            first >= i64::MIN + 1,
            k <= n,
            words@.len() == k,
            forall|j: int|
                0 <= j < n ==> entry_parts(#[trigger] tv[j]) == Some(
                    (entries@[j].0@, entries@[j].1@),
                ),
            forall|j: int|
                0 <= j < k ==> (#[trigger] words@[j])@ == imported_word(
                    tv[j],
                    word_type,
                    first + j,
                ),
        decreases n - k,
    {
        let word = lowercase(entries[k].1.as_str());
        let definition = lowercase(entries[k].0.as_str());
        let etymology = match get_word_etymology(word.as_str(), word_type) {
            Ok(o) => o,
            Err(_) => None,
        };
        let id = (first + k as i128) as i64;
        let w = Word { id, word, definition, word_type, etymology };
        proof {
            assert(entry_parts(tv[k as int]) == Some((entries@[k as int].0@, entries@[k as int].1@)));
        }
        words.push(w);
        k = k + 1;
    }
    Ok(words)
}

} // verus!
