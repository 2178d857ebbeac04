//! An owned, growable word list that can be queried.

use vstd::prelude::*;
use crate::filter::{answer_text, filter_string, matched_word};
use crate::text::{lowercase_of, texts, AsText};

verus! {

/// A filter that owns its words and lets them be added and removed.
///
/// The words are kept in the order in which they were added; a word may be
/// held more than once. As with any word list, they must be in lowercase.
pub struct OwnedFilter(Vec<String>);

impl View for OwnedFilter {
    type V = Seq<Seq<char>>;

    /// The words held, in order, each as its characters.
    closed spec fn view(&self) -> Seq<Seq<char>> {
        texts(self.0@)
    }
}

/// The test that a word is `word`.
pub open spec fn is_word(word: Seq<char>) -> spec_fn(Seq<char>) -> bool {
    |w: Seq<char>| w == word
}

/// The test that a word is another word than `word`.
pub open spec fn is_other_than(word: Seq<char>) -> spec_fn(Seq<char>) -> bool {
    |w: Seq<char>| w != word
}

/// The words of `words` other than `word`, in their order.
pub open spec fn without(words: Seq<Seq<char>>, word: Seq<char>) -> Seq<Seq<char>> {
    words.filter(is_other_than(word))
}

/// How many times `word` is held in `words`.
pub open spec fn times_held(words: Seq<Seq<char>>, word: Seq<char>) -> nat {
    words.filter(is_word(word)).len()
}

/// Adding a word at the end adds one to its count and leaves the other
/// counts as they were.
proof fn lemma_times_held_push(words: Seq<Seq<char>>, last: Seq<char>, word: Seq<char>)
    ensures
        times_held(words.push(last), word) == times_held(words, word) + if last == word {
            1nat
        } else {
            0nat
        },
{
    words.lemma_filter_push(last, is_word(word));
}

/// Removing a word commutes with adding one at the end.
proof fn lemma_without_push(words: Seq<Seq<char>>, last: Seq<char>, word: Seq<char>)
    ensures
        without(words.push(last), word) == if last == word {
            without(words, word)
        } else {
            without(words, word).push(last)
        },
{
    words.lemma_filter_push(last, is_other_than(word));
}

/// Removal drops every occurrence of the word and nothing else: the word is
/// no longer among the words, each other word is held as often as before,
/// and a word that was not held leaves the list as it was.
pub proof fn lemma_without_drops_all_and_only(words: Seq<Seq<char>>, word: Seq<char>)
    ensures
        !without(words, word).contains(word),
        times_held(without(words, word), word) == 0,
        forall|w: Seq<char>|
            w != word ==> #[trigger] times_held(without(words, word), w) == times_held(words, w),
        !words.contains(word) ==> without(words, word) == words,
    decreases words.len(),
{
    if words.len() == 0 {
        assert(without(words, word) =~= words);
        assert(words.filter(is_word(word)) =~= words);
    } else {
        let front = words.drop_last();
        let last = words.last();
        lemma_without_drops_all_and_only(front, word);
        assert(words =~= front.push(last));
        lemma_without_push(front, last, word);
        lemma_times_held_push(without(front, word), last, word);
        assert forall|w: Seq<char>| w != word implies #[trigger] times_held(
            without(words, word),
            w,
        ) == times_held(words, w) by {
            assert(times_held(without(front, word), w) == times_held(front, w));
            lemma_times_held_push(front, last, w);
            lemma_times_held_push(without(front, word), last, w);
        }
        if !words.contains(word) {
            assert(last == words[words.len() - 1]);
            assert forall|i: int| 0 <= i < front.len() implies front[i] != word by {
                assert(front[i] == words[i]);
            }
        }
    }
}

impl OwnedFilter {
    /// Creates a filter that holds the given words.
    pub fn new(list: Vec<String>) -> (filter: Self)
        ensures
            filter@ == texts(list@),
    {
        Self(list)
    }

    /// Creates a filter that holds no word.
    pub fn empty() -> (filter: Self)
        ensures
            filter@ == Seq::<Seq<char>>::empty(),
    {
        Self(Vec::new())
    }

    /// Adds a word at the end.
    pub fn add_word(&mut self, word: String)
        ensures
            final(self)@ == old(self)@.push(word@),
    {
        self.0.push(word);
    }

    /// Adds the given words at the end, in their order.
    pub fn add_vec(&mut self, vec: Vec<String>)
        ensures
            final(self)@ == old(self)@ + texts(vec@),
    {
        let mut vec = vec;
        self.0.append(&mut vec);
    }

    /// Adds an owned copy of each of the given words at the end, in their
    /// order.
    pub fn add_slice<T: AsText>(&mut self, slice: &[T])
        ensures
            final(self)@ == old(self)@ + texts(slice@),
    {
        let mut i: usize = 0;
        while i < slice.len()
            invariant
                i <= slice@.len(),
                self@ == old(self)@ + texts(slice@.take(i as int)),
            decreases slice@.len() - i,
        {
            let word = slice[i].as_text().to_owned();
            let ghost before = self@;
            let ghost added = word@;
            self.0.push(word);
            proof {
                let done = slice@.take(i as int);
                assert(self@ =~= before.push(added));
                assert(slice@.take(i + 1) =~= done.push(slice@[i as int]));
                assert(texts(done.push(slice@[i as int])) =~= texts(done).push(added));
                assert(self@ =~= old(self)@ + texts(slice@.take(i + 1)));
            }
            i += 1;
        }
        assert(slice@.take(i as int) == slice@);
    }

    /// Removes every occurrence of `word`; the other words keep their
    /// order. A word that is not held leaves the filter as it is.
    ///
    /// This walks the whole list: where words are dropped often, leave them
    /// out before the filter is built.
    pub fn remove_word(&mut self, word: &str)
        ensures
            final(self)@ == without(old(self)@, word@),
    {
        let target = word.to_owned();
        let mut rest: Vec<String> = Vec::new();
        core::mem::swap(&mut self.0, &mut rest);
        let ghost all = texts(rest@);
        for w in it: rest
            invariant
                all == texts(it.seq()),
                self@ == without(all.take(it.index() as int), word@),
                target@ == word@,
        {
            proof {
                let done = all.take(it.index() as int);
                assert(all.take(it.index() + 1) =~= done.push(w@));
                done.lemma_filter_push(w@, is_other_than(word@));
            }
            if w != target {
                self.0.push(w);
            }
        }
        assert(all.take(all.len() as int) == all);
    }

    /// Returns the words held, in order.
    pub fn word_list(&self) -> (list: &[String])
        ensures
            texts(list@) == self@,
    {
        self.0.as_slice()
    }

    /// Looks in `s` for the first word of the filter that stands in it on
    /// its own, and hands back that word as the filter holds it.
    pub fn filter_string(&self, s: &str) -> (answer: Option<&str>)
        ensures
            answer_text(answer) == matched_word(lowercase_of(s@), self@),
    {
        filter_string(s, self.0.as_slice())
    }
}

impl Default for OwnedFilter {
    /// Creates a filter that holds no word.
    fn default() -> (filter: Self)
        ensures
            filter@ == Seq::<Seq<char>>::empty(),
    {
        Self::empty()
    }
}

impl AsRef<[String]> for OwnedFilter {
    fn as_ref(&self) -> (list: &[String])
        ensures
            texts(list@) == self@,
    {
        self.word_list()
    }
}

} // verus!
