//! An in-memory word store: the operations that the lexicon needs from its
//! persistence, with identifiers kept unique.
use vstd::prelude::*;
use crate::etymology::get_word_etymology;
use crate::import::{analysis_of, import_batch, imported_word, tokens, all_well_formed, ids_fit, first_id, parsed_id, parse_id};
use crate::validate::{validate, validation};
use crate::word::{LexiconError, Word, WordType, WordView};

verus! {

/// The identifier that the store gives the next word stored alone: one more
/// than the largest, or 1 where there is none.
pub open spec fn next_id(s: Seq<WordView>) -> int {
    match choose|m: Option<i64>| is_max_id(s, m) {
        Some(x) => x + 1,
        None => 1,
    }
}

/// Whether some entry of `s` has identifier `id`.
pub open spec fn has_id(s: Seq<WordView>, id: i64) -> bool {
    exists|k: int| 0 <= k < s.len() && (#[trigger] s[k]).id == id
}

/// Whether no two entries of `s` share an identifier.
pub open spec fn ids_unique(s: Seq<WordView>) -> bool {
    forall|i: int, j: int| 0 <= i < j < s.len() ==> (#[trigger] s[i]).id != (#[trigger] s[j]).id
}

/// The largest identifier in `s`, if `s` holds any entry.
pub open spec fn is_max_id(s: Seq<WordView>, m: Option<i64>) -> bool {
    match m {
        None => s.len() == 0,
        Some(m) => has_id(s, m) && forall|k: int| 0 <= k < s.len() ==> (#[trigger] s[k]).id <= m,
    }
}

pub open spec fn word_views(v: Seq<Word>) -> Seq<WordView> {
    v.map_values(|w: Word| w@)
}

/// The stored words, in the order in which they were stored.
pub struct WordStore {
    words: Vec<Word>,
}

impl View for WordStore {
    type V = Seq<WordView>;

    closed spec fn view(&self) -> Seq<WordView> {
        word_views(self.words@)
    }
}

/// Whether the identifiers of `v` are pairwise distinct.
fn unique_ids(v: &Vec<Word>) -> (r: bool)
    ensures
        r == ids_unique(word_views(v@)),
{
    let ghost s = word_views(v@);
    let n = v.len();
    let mut i: usize = 0;
    while i < n
        invariant
            n == v@.len(),
            s == word_views(v@),
            i <= n,
            forall|a: int, b: int| 0 <= a < i && a < b < n ==> (#[trigger] s[a]).id != (#[trigger] s[b]).id,
        decreases n - i,
    {
        let mut j: usize = i + 1;
        while j < n
            invariant
                n == v@.len(),
                s == word_views(v@),
                i < n,
                i + 1 <= j <= n,
                forall|b: int| i < b < j ==> s[i as int].id != (#[trigger] s[b]).id,
            decreases n - j,
        {
            if v[i].id == v[j].id {
                assert(s[i as int].id == s[j as int].id);
                return false;
            }
            j = j + 1;
        }
        i = i + 1;
    }
    true
}

impl WordStore {
    /// The store's invariant: identifiers are unique.
    pub open spec fn wf(&self) -> bool {
        ids_unique(self@)
    }

    /// An empty store.
    pub fn new() -> (r: WordStore)
        ensures
            r.wf(),
            r@ == Seq::<WordView>::empty(),
    {
        let r = WordStore { words: Vec::new() };
        assert(r@ =~= Seq::<WordView>::empty());
        r
    }

    /// Every stored word, in the order in which they were stored.
    pub fn list_all(&self) -> (r: &Vec<Word>)
        ensures
            word_views(r@) == self@,
    {
        &self.words
    }

    /// The largest stored identifier; `None` for an empty store.
    pub fn max_id(&self) -> (r: Option<i64>)
        ensures
            is_max_id(self@, r),
    {
        let n = self.words.len();
        if n == 0 {
            return None;
        }
        let mut best: i64 = self.words[0].id;
        assert(self@[0].id == best);
        let mut i: usize = 1;
        while i < n
            invariant
                n == self.words@.len(),
                1 <= i <= n,
                has_id(self@, best),
                forall|k: int| 0 <= k < i ==> (#[trigger] self@[k]).id <= best,
            decreases n - i,
        {
            if self.words[i].id > best {
                best = self.words[i].id;
                assert(self@[i as int].id == best);
            }
            i = i + 1;
        }
        Some(best)
    }

    /// Stores a new word under the next identifier after the largest one (1
    /// in an empty store), with its analysis where it has one, and returns
    /// that identifier.
    pub fn insert(&mut self, word_type: WordType, word: &str, definition: &str) -> (r: Result<
        i64,
        LexiconError,
    >)
        requires
            old(self).wf(),
        ensures
            final(self).wf(),
            ({
                let next = next_id(old(self)@);
                &&& (r is Err <==> next > i64::MAX)
                &&& (r matches Err(e) ==> e == LexiconError::IdsExhausted && final(self)@ == old(self)@)
                &&& (r matches Ok(id) ==> id == next && final(self)@ == old(self)@.push(
                    WordView {
                        id,
                        word: word@,
                        definition: definition@,
                        word_type,
                        etymology: analysis_of(word@, word_type),
                    },
                ))
            }),
    {
        let m = self.max_id();
        proof {
            lemma_max_id_unique(old(self)@, m);
        }
        let id: i64 = match m {
            Some(x) => {
                if x == i64::MAX {
                    return Err(LexiconError::IdsExhausted);
                }
                x + 1
            },
            None => 1,
        };
        let etymology = match get_word_etymology(word, word_type) {
            Ok(o) => o,
            Err(_) => None,
        };
        let w = Word {
            id,
            word: word.to_owned(),
            definition: definition.to_owned(),
            word_type,
            etymology,
        };
        self.words.push(w);
        proof {
            assert(self@ =~= old(self)@.push(w@));
            assert forall|i: int, j: int| 0 <= i < j < self@.len() implies (#[trigger] self@[i]).id
                != (#[trigger] self@[j]).id by {
                if j == self@.len() - 1 {
                    assert(old(self)@[i].id <= m->Some_0);
                }
            }
        }
        Ok(id)
    }

    /// Stores a whole batch after the stored words, or none of it where an
    /// identifier would be stored twice.
    pub fn insert_batch(&mut self, batch: Vec<Word>) -> (r: Result<usize, LexiconError>)
        requires
            old(self).wf(),
        ensures
            final(self).wf(),
            ids_unique(old(self)@ + word_views(batch@)) ==> r == Ok::<usize, LexiconError>(
                batch.len(),
            ) && final(self)@ == old(self)@ + word_views(batch@),
            !ids_unique(old(self)@ + word_views(batch@)) ==> (r matches Err(
                LexiconError::Persistence(_),
            )) && final(self)@ == old(self)@,
    {
        let n = self.words.len();
        let count = batch.len();
        let ghost added = batch@;
        let mut batch = batch;
        self.words.append(&mut batch);
        proof {
            assert(self.words@ == old(self).words@ + added);
            assert(word_views(old(self).words@ + added) =~= old(self)@ + word_views(added));
        }
        if unique_ids(&self.words) {
            Ok(count)
        } else {
            self.words.truncate(n);
            proof {
                assert(self.words@ =~= old(self).words@);
            }
            Err(LexiconError::Persistence("UNIQUE constraint failed: tavsa.id".to_owned()))
        }
    }

    /// Removes the word with identifier `id`, if there is one, and says
    /// whether there was. Removing an absent identifier changes nothing.
    pub fn delete(&mut self, id: i64) -> (r: bool)
        requires
            old(self).wf(),
        ensures
            final(self).wf(),
            r == has_id(old(self)@, id),
            !has_id(final(self)@, id),
            !r ==> final(self)@ == old(self)@,
            r ==> exists|k: int|
                #![auto]
                0 <= k < old(self)@.len() && old(self)@[k].id == id
                    && final(self)@ == old(self)@.remove(k),
    {
        let n = self.words.len();
        let mut i: usize = 0;
        while i < n
            invariant
                n == self.words@.len(),
                self == old(self),
                old(self).wf(),
                i <= n,
                forall|k: int| 0 <= k < i ==> (#[trigger] self@[k]).id != id,
            decreases n - i,
        {
            if self.words[i].id == id {
                assert(self@[i as int].id == id);
                self.words.remove(i);
                proof {
                    let o = old(self)@;
                    assert(o[i as int].id == id);
                    assert(self@ =~= o.remove(i as int));
                    assert forall|k: int| 0 <= k < self@.len() implies (#[trigger] self@[k]).id
                        != id by {
                        if k >= i {
                            assert(o[k + 1].id != o[i as int].id);
                        }
                    }
                    assert forall|a: int, b: int| 0 <= a < b < self@.len() implies (#[trigger] self@[a]).id
                        != (#[trigger] self@[b]).id by {
                        let a2 = if a < i { a } else { a + 1 };
                        let b2 = if b < i { b } else { b + 1 };
                        assert(o[a2].id != o[b2].id);
                    }
                }
                return true;
            }
            i = i + 1;
        }
        false
    }
}

/// An entry for which the maximum is stated is the only maximum.
proof fn lemma_max_id_unique(s: Seq<WordView>, m: Option<i64>)
    requires
        is_max_id(s, m),
    ensures
        (choose|x: Option<i64>| is_max_id(s, x)) == m,
{
    let c = choose|x: Option<i64>| is_max_id(s, x);
    assert(is_max_id(s, c));
    match (c, m) {
        (Some(a), Some(b)) => {
            let ka = choose|k: int| 0 <= k < s.len() && (#[trigger] s[k]).id == a;
            let kb = choose|k: int| 0 <= k < s.len() && (#[trigger] s[k]).id == b;
            assert(s[ka].id <= b);
            assert(s[kb].id <= a);
        },
        (Some(a), None) => {
            let ka = choose|k: int| 0 <= k < s.len() && (#[trigger] s[k]).id == a;
        },
        (None, Some(b)) => {
            let kb = choose|k: int| 0 <= k < s.len() && (#[trigger] s[k]).id == b;
        },
        _ => {},
    }
}

/// Validates a new entry and stores it, under the class it resolves to;
/// returns its identifier. A refused entry leaves the store as it was.
pub fn add_entry(store: &mut WordStore, word_type: &str, word: &str, definition: &str) -> (r: Result<
    i64,
    LexiconError,
>)
    requires
        old(store).wf(),
    ensures
        final(store).wf(),
        match validation(word_type@, word@, definition@) {
            Err(e) => r == Err::<i64, LexiconError>(e) && final(store)@ == old(store)@,
            Ok(t) => {
                let next = next_id(old(store)@);
                &&& (r is Err <==> next > i64::MAX)
                &&& (r matches Err(e) ==> e == LexiconError::IdsExhausted
                    && final(store)@ == old(store)@)
                &&& (r matches Ok(id) ==> id == next && final(store)@ == old(store)@.push(
                    WordView {
                        id,
                        word: word@,
                        definition: definition@,
                        word_type: t,
                        etymology: analysis_of(word@, t),
                    },
                ))
            },
        },
{
    match validate(word_type, word, definition) {
        Err(e) => Err(e),
        Ok(t) => store.insert(t, word, definition),
    }
}

/// Imports a batch of `definition=word` tokens of class `word_type` into the
/// store, after its largest identifier, and returns how many words were
/// stored. A refused batch leaves the store as it was.
pub fn import_into(store: &mut WordStore, raw_text: &str, word_type: WordType) -> (r: Result<
    usize,
    LexiconError,
>)
    requires
        old(store).wf(),
    ensures
        final(store).wf(),
        ({
            let toks = tokens(raw_text@);
            let m = choose|m: Option<i64>| is_max_id(old(store)@, m);
            let batch = Seq::new(
                toks.len(),
                |k: int| imported_word(toks[k], word_type, first_id(m) + k),
            );
            &&& (!all_well_formed(toks) ==> r == Err::<usize, LexiconError>(
                LexiconError::MalformedToken,
            ))
            &&& (all_well_formed(toks) && !ids_fit(m, toks.len() as int) ==> r == Err::<
                usize,
                LexiconError,
            >(LexiconError::IdsExhausted))
            &&& (r is Err ==> final(store)@ == old(store)@)
            &&& (r is Ok ==> r == Ok::<usize, LexiconError>(toks.len() as usize)
                && final(store)@ == old(store)@ + batch)
            &&& (all_well_formed(toks) && ids_fit(m, toks.len() as int) ==> r is Ok)
        }),
{
    let m = store.max_id();
    proof {
        lemma_max_id_unique(old(store)@, m);
    }
    match import_batch(raw_text, word_type, m) {
        Err(e) => Err(e),
        Ok(batch) => {
            let ghost toks = tokens(raw_text@);
            proof {
                assert(word_views(batch@) =~= Seq::new(
                    toks.len(),
                    |k: int| imported_word(toks[k], word_type, first_id(m) + k),
                ));
                lemma_batch_after_max_is_unique(old(store)@, m, word_views(batch@));
            }
            store.insert_batch(batch)
        },
    }
}

/// Removes the word whose identifier is written in `id_text`, and says whether
/// there was one. Text that is not an identifier names no word.
pub fn delete_entry(store: &mut WordStore, id_text: &str) -> (r: bool)
    requires
        old(store).wf(),
    ensures
        final(store).wf(),
        match parsed_id(id_text@) {
            None => !r && final(store)@ == old(store)@,
            Some(id) => {
                &&& r == has_id(old(store)@, id)
                &&& !has_id(final(store)@, id)
                &&& (!r ==> final(store)@ == old(store)@)
                &&& (r ==> exists|k: int|
                    #![auto]
                    0 <= k < old(store)@.len() && old(store)@[k].id == id
                        && final(store)@ == old(store)@.remove(k))
            },
        },
{
    match parse_id(id_text) {
        None => false,
        Some(id) => store.delete(id),
    }
}

/// A batch whose identifiers are consecutive after the largest stored one
/// cannot collide with the stored words.
proof fn lemma_batch_after_max_is_unique(s: Seq<WordView>, m: Option<i64>, b: Seq<WordView>)
    requires
        ids_unique(s),
        is_max_id(s, m),
        forall|k: int| 0 <= k < b.len() ==> (#[trigger] b[k]).id == first_id(m) + k,
    ensures
        ids_unique(s + b),
{
    let t = s + b;
    assert forall|i: int, j: int| 0 <= i < j < t.len() implies (#[trigger] t[i]).id
        != (#[trigger] t[j]).id by {
        if j >= s.len() {
            assert(t[j] == b[j - s.len()]);
            if i < s.len() {
                assert(s[i].id <= m->Some_0);
            } else {
                assert(t[i] == b[i - s.len()]);
            }
        }
    }
}

/// Two imports that read the same largest identifier before either stores
/// its batch give their first words the same identifier: the read and the
/// store are not isolated, so such batches collide.
pub proof fn lemma_concurrent_imports_collide(
    raw_a: Seq<char>,
    raw_b: Seq<char>,
    t: WordType,
    m: Option<i64>,
)
    requires
        tokens(raw_a).len() > 0,
        tokens(raw_b).len() > 0,
    ensures
        imported_word(tokens(raw_a)[0], t, first_id(m)).id == imported_word(
            tokens(raw_b)[0],
            t,
            first_id(m),
        ).id,
{
}

} // verus!
