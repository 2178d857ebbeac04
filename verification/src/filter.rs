//! Matching a phrase against a list of words.
//!
//! A word counts only where it stands on its own in the phrase: the
//! characters next to it, if any, must not be alphabetic. That keeps a word
//! from being reported when it is merely part of a longer, harmless one.
//!
//! Known limitation: for each word only its first occurrence in the phrase
//! is looked at. A word whose first occurrence is embedded in a longer word
//! is passed over even if it stands alone further on.

use vstd::prelude::*;
use crate::text::{
    alphabetic, chars_of, is_alphabetic, lowercase_of, texts, to_lowercase, AsText,
};

verus! {

/// `word` stands in `phrase` starting at position `at`.
pub open spec fn occurs_at(phrase: Seq<char>, word: Seq<char>, at: int) -> bool {
    &&& 0 <= at
    &&& at + word.len() <= phrase.len()
    &&& phrase.subrange(at, at + word.len()) == word
}

/// `at` is the leftmost position at which `word` stands in `phrase`.
pub open spec fn is_first_occurrence(phrase: Seq<char>, word: Seq<char>, at: int) -> bool {
    &&& occurs_at(phrase, word, at)
    &&& forall|j: int| 0 <= j < at ==> !occurs_at(phrase, word, j)
}

/// There is a character at position `i` of `phrase`, and it is alphabetic.
pub open spec fn letter_at(phrase: Seq<char>, i: int) -> bool {
    0 <= i < phrase.len() && alphabetic(phrase[i])
}

/// The stretch of `len` characters starting at `at` is not continued by a
/// letter on either side: each neighbour is missing or not alphabetic.
pub open spec fn on_word_boundary(phrase: Seq<char>, at: int, len: int) -> bool {
    !letter_at(phrase, at - 1) && !letter_at(phrase, at + len)
}

/// `word` counts as found in `phrase`: its first occurrence stands on its own.
pub open spec fn word_matches(phrase: Seq<char>, word: Seq<char>) -> bool {
    exists|at: int|
        is_first_occurrence(phrase, word, at) && on_word_boundary(phrase, at, word.len() as int)
}

/// `word` stands on its own somewhere in `phrase`, at its first occurrence
/// or at a later one.
pub open spec fn stands_alone_somewhere(phrase: Seq<char>, word: Seq<char>) -> bool {
    exists|at: int| occurs_at(phrase, word, at) && on_word_boundary(phrase, at, word.len() as int)
}

/// `k` is the position of the first word in `words` that matches `phrase`.
pub open spec fn is_first_match(phrase: Seq<char>, words: Seq<Seq<char>>, k: int) -> bool {
    &&& 0 <= k < words.len()
    &&& word_matches(phrase, words[k])
    &&& forall|j: int| 0 <= j < k ==> !word_matches(phrase, #[trigger] words[j])
}

/// The position in `words` of the first word that matches `phrase`, if any
/// word does.
pub open spec fn first_match(phrase: Seq<char>, words: Seq<Seq<char>>) -> Option<int> {
    if exists|k: int| is_first_match(phrase, words, k) {
        Some(choose|k: int| is_first_match(phrase, words, k))
    } else {
        None
    }
}

/// The word that a query for `phrase`, already in lowercase, reports.
pub open spec fn matched_word(phrase: Seq<char>, words: Seq<Seq<char>>) -> Option<Seq<char>> {
    match first_match(phrase, words) {
        Some(k) => Some(words[k]),
        None => None,
    }
}

/// The text behind the answer to a query.
pub open spec fn answer_text(answer: Option<&str>) -> Option<Seq<char>> {
    match answer {
        Some(w) => Some(w@),
        None => None,
    }
}

/// Whether `phrase[at..]` starts with `word`.
fn starts_at(phrase: &[char], word: &[char], at: usize) -> (b: bool)
    requires
        at + word@.len() <= phrase@.len(),
    ensures
        b == occurs_at(phrase@, word@, at as int),
{
    let len: usize = word.len();
    let end: usize = phrase.len();
    let mut i: usize = 0;
    while i < len
        invariant
            i <= len == word@.len(),
            at + len <= end == phrase@.len(),
            forall|j: int| 0 <= j < i ==> phrase@[at + j] == word@[j],
        decreases len - i,
    {
        if phrase[at + i] != word[i] {
            assert(phrase@.subrange(at as int, at + word@.len())[i as int] == phrase@[at + i]);
            return false;
        }
        i += 1;
    }
    assert(phrase@.subrange(at as int, at + word@.len()) =~= word@);
    true
}

/// Finds the leftmost position at which `word` stands in `phrase`.
pub fn find_first(phrase: &[char], word: &[char]) -> (found: Option<usize>)
    ensures
        match found {
            Some(at) => is_first_occurrence(phrase@, word@, at as int),
            None => forall|j: int| !occurs_at(phrase@, word@, j),
        },
{
    if word.len() > phrase.len() {
        return None;
    }
    let last: usize = phrase.len() - word.len();
    let mut at: usize = 0;
    loop
        invariant
            last == phrase@.len() - word@.len(),
            at <= last,
            forall|j: int| 0 <= j < at ==> !occurs_at(phrase@, word@, j),
        decreases last - at,
    {
        if starts_at(phrase, word, at) {
            return Some(at);
        }
        if at == last {
            return None;
        }
        at += 1;
    }
}

/// Whether there is a character at position `i` of `phrase` that is
/// alphabetic.
fn is_letter_at(phrase: &[char], i: usize) -> (b: bool)
    ensures
        b == letter_at(phrase@, i as int),
{
    i < phrase.len() && is_alphabetic(phrase[i])
}

/// Whether the `len` characters of `phrase` from `at` on stand on their own.
pub fn is_on_word_boundary(phrase: &[char], at: usize, len: usize) -> (b: bool)
    ensures
        b == on_word_boundary(phrase@, at as int, len as int),
{
    let start = match at.checked_sub(1) {
        Some(before) => !is_letter_at(phrase, before),
        None => true,
    };
    let end = match at.checked_add(len) {
        Some(after) => !is_letter_at(phrase, after),
        None => {
            assert(phrase@.len() == phrase.len() <= usize::MAX);
            true
        },
    };
    start && end
}

/// Decides whether `word` counts as found in `phrase`.
pub fn matches_word(phrase: &[char], word: &[char]) -> (b: bool)
    ensures
        b == word_matches(phrase@, word@),
{
    match find_first(phrase, word) {
        Some(at) => {
            let b = is_on_word_boundary(phrase, at, word.len());
            proof {
                if word_matches(phrase@, word@) {
                    let other = choose|other: int|
                        is_first_occurrence(phrase@, word@, other) && on_word_boundary(
                            phrase@,
                            other,
                            word@.len() as int,
                        );
                    assert(other == at);
                }
            }
            b
        },
        None => false,
    }
}

/// Finds the first word of `list` that matches `phrase`, which must already
/// be in lowercase, and gives its position in the list.
pub fn first_match_in<T: AsText>(phrase: &[char], list: &[T]) -> (found: Option<usize>)
    ensures
        match found {
            Some(k) => first_match(phrase@, texts(list@)) == Some(k as int),
            None => first_match(phrase@, texts(list@)) is None,
        },
{
    let ghost words = texts(list@);
    let mut k: usize = 0;
    while k < list.len()
        invariant
            k <= list@.len(),
            words == texts(list@),
            forall|j: int| 0 <= j < k ==> !word_matches(phrase@, #[trigger] words[j]),
        decreases list@.len() - k,
    {
        let word = chars_of(list[k].as_text());
        if matches_word(phrase, word.as_slice()) {
            proof {
                lemma_first_match_unique(phrase@, words, k as int);
            }
            return Some(k);
        }
        k += 1;
    }
    None
}

/// Looks in `phrase`, which must already be in lowercase, for the first word
/// of `list` that stands in it on its own, and hands back that list entry.
///
/// The words are tried in list order and the first one that matches wins,
/// wherever in the phrase it stands.
pub fn filter_folded<'a, 'b, T: AsText>(phrase: &'a str, list: &'b [T]) -> (answer: Option<
    &'b str,
>)
    ensures
        answer_text(answer) == matched_word(phrase@, texts(list@)),
{
    let folded = chars_of(phrase);
    match first_match_in(folded.as_slice(), list) {
        Some(k) => Some(list[k].as_text()),
        None => None,
    }
}

/// Looks in `s` for the first word of `list` that stands in it on its own,
/// and hands back that list entry.
///
/// The phrase is put into lowercase before it is searched; the words are
/// taken as they are, so they must be in lowercase already. This is not
/// checked: a word with an uppercase letter in it is no error, it just
/// cannot be found, since the phrase it is looked for in has none.
pub fn filter_string<'a, 'b, T: AsText>(s: &'a str, list: &'b [T]) -> (answer: Option<&'b str>)
    ensures
        answer_text(answer) == matched_word(lowercase_of(s@), texts(list@)),
{
    let lower = to_lowercase(s);
    filter_folded(lower.as_str(), list)
}

/// The first match is the only position that qualifies as one.
pub proof fn lemma_first_match_unique(phrase: Seq<char>, words: Seq<Seq<char>>, k: int)
    requires
        is_first_match(phrase, words, k),
    ensures
        first_match(phrase, words) == Some(k),
{
    let c = choose|c: int| is_first_match(phrase, words, c);
    assert(c == k);
}

/// Where some word up to position `k` matches, one of them is the first to
/// do so.
proof fn lemma_some_match_is_first(phrase: Seq<char>, words: Seq<Seq<char>>, k: int)
    requires
        0 <= k < words.len(),
        word_matches(phrase, words[k]),
    ensures
        exists|j: int| 0 <= j <= k && is_first_match(phrase, words, j),
    decreases k,
{
    if exists|i: int| 0 <= i < k && word_matches(phrase, #[trigger] words[i]) {
        let i = choose|i: int| 0 <= i < k && word_matches(phrase, #[trigger] words[i]);
        lemma_some_match_is_first(phrase, words, i);
    } else {
        assert(is_first_match(phrase, words, k));
    }
}

/// A query reports no word exactly when no word of the list matches, and it
/// reports position `k` exactly when `k` is the first position whose word
/// matches.
pub proof fn lemma_first_match_decides(phrase: Seq<char>, words: Seq<Seq<char>>)
    ensures
        first_match(phrase, words) is None <==> forall|k: int|
            0 <= k < words.len() ==> !word_matches(phrase, #[trigger] words[k]),
        forall|k: int|
            first_match(phrase, words) == Some(k) <==> #[trigger] is_first_match(phrase, words, k),
{
    if exists|k: int| 0 <= k < words.len() && word_matches(phrase, #[trigger] words[k]) {
        let k = choose|k: int| 0 <= k < words.len() && word_matches(phrase, #[trigger] words[k]);
        lemma_some_match_is_first(phrase, words, k);
    }
    assert forall|k: int| #[trigger]
        is_first_match(phrase, words, k) implies first_match(phrase, words) == Some(k) by {
        lemma_first_match_unique(phrase, words, k);
    }
}

/// A word that matches stands on its own in the phrase, namely where it
/// first occurs.
pub proof fn lemma_match_stands_alone(phrase: Seq<char>, word: Seq<char>)
    requires
        word_matches(phrase, word),
    ensures
        stands_alone_somewhere(phrase, word),
{
    let at = choose|at: int|
        is_first_occurrence(phrase, word, at) && on_word_boundary(phrase, at, word.len() as int);
    assert(occurs_at(phrase, word, at) && on_word_boundary(phrase, at, word.len() as int));
}

/// A query reports no word exactly when no word of the list stands on its
/// own anywhere in the phrase.
///
/// Only the first occurrence of each word is looked at, so this leaves out
/// the phrases in which some word stands on its own, but none does so where
/// it first occurs: there nothing is reported although a word stands alone.
pub proof fn lemma_none_iff_nothing_stands_alone(phrase: Seq<char>, words: Seq<Seq<char>>)
    requires
        (exists|k: int| 0 <= k < words.len() && stands_alone_somewhere(phrase, #[trigger] words[k]))
            ==> (exists|k: int| 0 <= k < words.len() && word_matches(phrase, #[trigger] words[k])),
    ensures
        first_match(phrase, words) is None <==> forall|k: int|
            0 <= k < words.len() ==> !stands_alone_somewhere(phrase, #[trigger] words[k]),
{
    lemma_first_match_decides(phrase, words);
    assert forall|k: int| 0 <= k < words.len() && word_matches(
        phrase,
        #[trigger] words[k],
    ) implies stands_alone_somewhere(phrase, words[k]) by {
        lemma_match_stands_alone(phrase, words[k]);
    }
}

/// Where nothing in the list stands on its own anywhere in the phrase, no
/// word is reported, and whatever is reported does stand on its own.
pub proof fn lemma_reported_word_stands_alone(phrase: Seq<char>, words: Seq<Seq<char>>)
    ensures
        (forall|k: int|
            0 <= k < words.len() ==> !stands_alone_somewhere(phrase, #[trigger] words[k]))
            ==> matched_word(phrase, words) is None,
        match matched_word(phrase, words) {
            Some(w) => words.contains(w) && stands_alone_somewhere(phrase, w),
            None => true,
        },
{
    lemma_first_match_decides(phrase, words);
    match first_match(phrase, words) {
        Some(k) => {
            assert(is_first_match(phrase, words, k));
            lemma_match_stands_alone(phrase, words[k]);
        },
        None => {},
    }
}

/// The order of the list decides between two words that both stand on
/// their own in the phrase: the one listed first is reported.
///
/// Only the first occurrence of each word is looked at, so this is stated
/// of words that stand on their own where they first occur, which is what
/// `word_matches` says.
pub proof fn lemma_list_order_decides(phrase: Seq<char>, w1: Seq<char>, w2: Seq<char>)
    requires
        word_matches(phrase, w1),
        word_matches(phrase, w2),
    ensures
        matched_word(phrase, seq![w1, w2]) == Some(w1),
        matched_word(phrase, seq![w2, w1]) == Some(w2),
{
    assert(is_first_match(phrase, seq![w1, w2], 0));
    lemma_first_match_unique(phrase, seq![w1, w2], 0);
    assert(is_first_match(phrase, seq![w2, w1], 0));
    lemma_first_match_unique(phrase, seq![w2, w1], 0);
}

/// Two answers to the same query agree: what is reported depends on the
/// phrase and the words alone.
pub proof fn lemma_same_query_same_answer(
    s: Seq<char>,
    words: Seq<Seq<char>>,
    first: Option<&str>,
    second: Option<&str>,
)
    requires
        answer_text(first) == matched_word(lowercase_of(s), words),
        answer_text(second) == matched_word(lowercase_of(s), words),
    ensures
        answer_text(first) == answer_text(second),
        first is None <==> second is None,
{
}

} // verus!
