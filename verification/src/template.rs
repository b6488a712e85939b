//! The feature templates, as mathematics over sequences of characters.
//!
//! A sentence is a sequence of words and a word a non-empty sequence of
//! characters. Every key is one marker character followed by its payload.

use crate::text::decimal;
use vstd::prelude::*;

verus! {

/// A key: the marker, then the payload.
pub open spec fn key(marker: char, payload: Seq<char>) -> Seq<char> {
    seq![marker] + payload
}

/// A sentence in which every word has at least one character.
pub open spec fn words_nonempty(words: Seq<Seq<char>>) -> bool {
    forall|i: int| 0 <= i < words.len() ==> (#[trigger] words[i]).len() > 0
}

/// How many characters of a word the prefix run and the suffix run each cover.
pub open spec fn run_len(w: Seq<char>) -> int {
    if w.len() < 3 {
        w.len() as int
    } else {
        3
    }
}

/// Marker of the `k`-th prefix key.
pub open spec fn prefix_marker(k: int) -> char {
    if k == 0 {
        'c'
    } else if k == 1 {
        'd'
    } else {
        'e'
    }
}

/// Marker of the `k`-th suffix key.
pub open spec fn suffix_marker(k: int) -> char {
    if k == 0 {
        'f'
    } else if k == 1 {
        'g'
    } else {
        'h'
    }
}

/// One key for each of the first three characters of the word, front to back.
pub open spec fn prefix_keys(w: Seq<char>) -> Seq<Seq<char>> {
    Seq::new(run_len(w) as nat, |k: int| key(prefix_marker(k), seq![w[k]]))
}

/// One key for each of the last three characters of the word, back to front.
pub open spec fn suffix_keys(w: Seq<char>) -> Seq<Seq<char>> {
    Seq::new(run_len(w) as nat, |k: int| key(suffix_marker(k), seq![w[w.len() - 1 - k]]))
}

/// The three keys that every word gets: the word, its first and last
/// character, and its length in characters.
pub open spec fn head_keys(w: Seq<char>) -> Seq<Seq<char>> {
    seq![key('2', w), key('c', seq![w.first(), w.last()]), key('f', decimal(w.len()))]
}

/// The keys that depend on the word alone.
pub open spec fn word_keys(w: Seq<char>) -> Seq<Seq<char>> {
    head_keys(w) + prefix_keys(w) + suffix_keys(w)
}

/// The keys over the one or two words before position `i`.
pub open spec fn left_keys(words: Seq<Seq<char>>, i: int) -> Seq<Seq<char>> {
    if i > 1 {
        seq![
            key('1', words[i - 1]),
            key('6', words[i - 1] + words[i]),
            key('d', seq![words[i - 1].last(), words[i].first()]),
            key('0', words[i - 2]),
            key('5', words[i - 2] + words[i - 1]),
            key('9', words[i - 2] + words[i]),
        ]
    } else if i > 0 {
        seq![
            key('1', words[i - 1]),
            key('6', words[i - 1] + words[i]),
            key('d', seq![words[i - 1].last(), words[i].first()]),
        ]
    } else {
        seq![]
    }
}

/// The keys over the one or two words after position `i`.
pub open spec fn right_keys(words: Seq<Seq<char>>, i: int) -> Seq<Seq<char>> {
    if i + 2 < words.len() {
        seq![
            key('3', words[i + 1]),
            key('7', words[i] + words[i + 1]),
            key('e', seq![words[i].last(), words[i + 1].first()]),
            key('4', words[i + 2]),
            key('8', words[i + 1] + words[i + 2]),
            key('a', words[i] + words[i + 2]),
        ]
    } else if i + 1 < words.len() {
        seq![
            key('3', words[i + 1]),
            key('7', words[i] + words[i + 1]),
            key('e', seq![words[i].last(), words[i + 1].first()]),
        ]
    } else {
        seq![]
    }
}

/// The key over the word and both its neighbours, where it has both.
pub open spec fn trigram_keys(words: Seq<Seq<char>>, i: int) -> Seq<Seq<char>> {
    if i > 0 && i + 1 < words.len() {
        seq![key('b', words[i - 1] + words[i] + words[i + 1])]
    } else {
        seq![]
    }
}

/// All keys of the word at position `i`, in the order in which they are emitted.
pub open spec fn token_keys(words: Seq<Seq<char>>, i: int) -> Seq<Seq<char>> {
    word_keys(words[i]) + left_keys(words, i) + right_keys(words, i) + trigram_keys(words, i)
}

/// The keys of a whole sentence: one sequence of keys for each position.
pub open spec fn sentence_keys(words: Seq<Seq<char>>) -> Seq<Seq<Seq<char>>> {
    Seq::new(words.len(), |i: int| token_keys(words, i))
}

/// The number of keys at position `i`.
pub open spec fn key_count(words: Seq<Seq<char>>, i: int) -> int {
    3 + 2 * run_len(words[i]) + (if i > 0 {
        3int
    } else {
        0
    }) + (if i > 1 {
        3int
    } else {
        0
    }) + (if i + 1 < words.len() {
        3int
    } else {
        0
    }) + (if i + 2 < words.len() {
        3int
    } else {
        0
    }) + (if i > 0 && i + 1 < words.len() {
        1int
    } else {
        0
    })
}

/// A position has as many keys as `key_count` says: never more than 22, and
/// at least 9 once the word has three characters.
pub proof fn lemma_key_count(words: Seq<Seq<char>>, i: int)
    requires
        0 <= i < words.len(),
    ensures
        token_keys(words, i).len() == key_count(words, i),
        key_count(words, i) <= 22,
        words[i].len() >= 3 ==> key_count(words, i) >= 9,
        words[i].len() >= 3 && words.len() == 1 ==> key_count(words, i) == 9,
        words[i].len() >= 3 && words.len() == 2 ==> key_count(words, i) == 12,
        words[i].len() >= 3 && 2 <= i && i + 2 < words.len() ==> key_count(words, i) == 22,
{
}

} // verus!
