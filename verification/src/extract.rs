//! Feature extraction into owned strings.

use crate::definition::POSDefinition;
use crate::template::{
    head_keys, key, left_keys, prefix_keys, prefix_marker, right_keys, run_len, sentence_keys,
    suffix_keys, suffix_marker, token_keys, trigram_keys, word_keys, words_nonempty,
};
use crate::text::{char_list_view, decimal, push_char, push_decimal, CharList};
use vstd::prelude::*;
use vstd::string::*;
use vstd::utf8::encode_utf8;

verus! {

/// `chars` holds, position by position, the characters of `words`.
pub open spec fn chars_of_words(chars: Seq<CharList>, words: Seq<&str>) -> bool {
    &&& chars.len() == words.len()
    &&& forall|i: int| 0 <= i < words.len() ==> char_list_view(#[trigger] chars[i]) == words[i]@
}

/// Splits every word into its characters, once for the whole sentence.
pub(crate) fn sentence_chars(words: &[&str]) -> (chars: Vec<CharList>)
    ensures
        chars_of_words(chars@, words@),
{
    let mut chars: Vec<CharList> = Vec::with_capacity(words.len());
    let mut i: usize = 0;
    while i < words.len()
        invariant
            i <= words@.len(),
            chars@.len() == i,
            forall|j: int| 0 <= j < i ==> char_list_view(#[trigger] chars@[j]) == words@[j]@,
        decreases words@.len() - i,
    {
        chars.push(CharList::of(words[i]));
        i += 1;
    }
    chars
}

/// The marker of the `k`-th key of the prefix run.
pub(crate) fn nth_prefix_marker(k: usize) -> (m: char)
    requires
        k < 3,
    ensures
        m == prefix_marker(k as int),
{
    if k == 0 {
        'c'
    } else if k == 1 {
        'd'
    } else {
        'e'
    }
}

/// The marker of the `k`-th key of the suffix run.
pub(crate) fn nth_suffix_marker(k: usize) -> (m: char)
    requires
        k < 3,
    ensures
        m == suffix_marker(k as int),
{
    if k == 0 {
        'f'
    } else if k == 1 {
        'g'
    } else {
        'h'
    }
}

/// The key of one word.
fn word_key(marker: char, a: &str) -> (k: String)
    ensures
        k@ == key(marker, a@),
{
    let mut k = String::new();
    push_char(&mut k, marker);
    k.append(a);
    k
}

/// The key of two words.
fn word_pair_key(marker: char, a: &str, b: &str) -> (k: String)
    ensures
        k@ == key(marker, a@ + b@),
{
    let mut k = String::new();
    push_char(&mut k, marker);
    k.append(a);
    k.append(b);
    k
}

/// The key of three words.
fn word_triple_key(marker: char, a: &str, b: &str, c: &str) -> (k: String)
    ensures
        k@ == key(marker, a@ + b@ + c@),
{
    let mut k = String::new();
    push_char(&mut k, marker);
    k.append(a);
    k.append(b);
    k.append(c);
    k
}

/// The key of one character.
fn char_key(marker: char, c: char) -> (k: String)
    ensures
        k@ == key(marker, seq![c]),
{
    let mut k = String::new();
    push_char(&mut k, marker);
    push_char(&mut k, c);
    k
}

/// The key of two characters.
fn char_pair_key(marker: char, c: char, d: char) -> (k: String)
    ensures
        k@ == key(marker, seq![c, d]),
{
    let mut k = String::new();
    push_char(&mut k, marker);
    push_char(&mut k, c);
    push_char(&mut k, d);
    k
}

/// The key of a length.
fn length_key(marker: char, n: usize) -> (k: String)
    ensures
        k@ == key(marker, decimal(n as nat)),
{
    let mut k = String::new();
    push_char(&mut k, marker);
    push_decimal(&mut k, n);
    k
}

/// Adds one key to the keys of a word.
fn push_key(keys: &mut Vec<String>, k: String)
    ensures
        final(keys).deep_view() == old(keys).deep_view().push(k@),
{
    keys.push(k);
}

/// The keys of the word itself: the head keys, then the prefix run, then the
/// suffix run.
fn push_word_keys(keys: &mut Vec<String>, word: &str, cs: &CharList)
    requires
        char_list_view(*cs) == word@,
        word@.len() > 0,
    ensures
        final(keys).deep_view() == old(keys).deep_view() + word_keys(word@),
{
    let ghost w = word@;
    let ghost before = keys.deep_view();
    let n = cs.len();
    push_key(keys, word_key('2', word));
    push_key(keys, char_pair_key('c', cs.get(0), cs.get(n - 1)));
    push_key(keys, length_key('f', n));
    let run: usize = if n < 3 {
        n
    } else {
        3
    };
    let mut k: usize = 0;
    while k < run
        invariant
            k <= run,
            run == run_len(w),
            n == w.len(),
            char_list_view(*cs) == w,
            keys.deep_view() == before + head_keys(w) + prefix_keys(w).take(k as int),
        decreases run - k,
    {
        push_key(keys, char_key(nth_prefix_marker(k), cs.get(k)));
        k += 1;
    }
    let mut k: usize = 0;
    while k < run
        invariant
            k <= run,
            run == run_len(w),
            n == w.len(),
            char_list_view(*cs) == w,
            keys.deep_view() == before + head_keys(w) + prefix_keys(w) + suffix_keys(w).take(
                k as int,
            ),
        decreases run - k,
    {
        push_key(keys, char_key(nth_suffix_marker(k), cs.get(n - 1 - k)));
        k += 1;
    }
}

/// The keys over the words before position `idx`.
fn push_left_keys(keys: &mut Vec<String>, words: &[&str], chars: &Vec<CharList>, idx: usize)
    requires
        idx < words@.len(),
        chars_of_words(chars@, words@),
        words_nonempty(words.deep_view()),
    ensures
        final(keys).deep_view() == old(keys).deep_view() + left_keys(
            words.deep_view(),
            idx as int,
        ),
{
    let ghost ws = words.deep_view();
    let ghost i = idx as int;
    if idx > 0 {
        let cur_word = words[idx];
        let pre_word = words[idx - 1];
        let pre = &chars[idx - 1];
        assert(ws[i] == cur_word@ && ws[i].len() > 0);
        assert(ws[i - 1] == pre_word@ && ws[i - 1].len() > 0);
        push_key(keys, word_key('1', pre_word));
        push_key(keys, word_pair_key('6', pre_word, cur_word));
        push_key(keys, char_pair_key('d', pre.get(pre.len() - 1), chars[idx].get(0)));
        if idx > 1 {
            let pre2_word = words[idx - 2];
            push_key(keys, word_key('0', pre2_word));
            push_key(keys, word_pair_key('5', pre2_word, pre_word));
            push_key(keys, word_pair_key('9', pre2_word, cur_word));
        }
    }
}

/// The keys over the words after position `idx`.
fn push_right_keys(keys: &mut Vec<String>, words: &[&str], chars: &Vec<CharList>, idx: usize)
    requires
        idx < words@.len(),
        chars_of_words(chars@, words@),
        words_nonempty(words.deep_view()),
    ensures
        final(keys).deep_view() == old(keys).deep_view() + right_keys(
            words.deep_view(),
            idx as int,
        ),
{
    let ghost ws = words.deep_view();
    let ghost i = idx as int;
    let last = words.len() - idx - 1;
    if last > 0 {
        let cur_word = words[idx];
        let cur = &chars[idx];
        let next_word = words[idx + 1];
        assert(ws[i] == cur_word@ && ws[i].len() > 0);
        assert(ws[i + 1] == next_word@ && ws[i + 1].len() > 0);
        push_key(keys, word_key('3', next_word));
        push_key(keys, word_pair_key('7', cur_word, next_word));
        push_key(keys, char_pair_key('e', cur.get(cur.len() - 1), chars[idx + 1].get(0)));
        if last > 1 {
            let next2_word = words[idx + 2];
            push_key(keys, word_key('4', next2_word));
            push_key(keys, word_pair_key('8', next_word, next2_word));
            push_key(keys, word_pair_key('a', cur_word, next2_word));
        }
    }
}

/// The key over the word at `idx` and both its neighbours.
fn push_trigram_keys(keys: &mut Vec<String>, words: &[&str], idx: usize)
    requires
        idx < words@.len(),
    ensures
        final(keys).deep_view() == old(keys).deep_view() + trigram_keys(
            words.deep_view(),
            idx as int,
        ),
{
    let last = words.len() - idx - 1;
    if idx > 0 && last > 0 {
        push_key(keys, word_triple_key('b', words[idx - 1], words[idx], words[idx + 1]));
    }
}

/// All keys of the word at `idx`.
fn token_features(words: &[&str], chars: &Vec<CharList>, idx: usize) -> (keys: Vec<String>)
    requires
        idx < words@.len(),
        chars_of_words(chars@, words@),
        words_nonempty(words.deep_view()),
    ensures
        keys.deep_view() == token_keys(words.deep_view(), idx as int),
{
    let ghost ws = words.deep_view();
    let ghost i = idx as int;
    assert(ws[i] == words@[i]@ && ws[i].len() > 0);
    let mut keys: Vec<String> = Vec::with_capacity(22);
    push_word_keys(&mut keys, words[idx], &chars[idx]);
    push_left_keys(&mut keys, words, chars, idx);
    push_right_keys(&mut keys, words, chars, idx);
    push_trigram_keys(&mut keys, words, idx);
    keys
}

impl POSDefinition {
    /// Extracts, for every word of the sentence, its keys as owned strings.
    pub fn parse_words_features(&self, words: &[&str]) -> (features: Vec<Vec<String>>)
        requires
            words_nonempty(words.deep_view()),
        ensures
            features.deep_view() == sentence_keys(words.deep_view()),
    {
        let chars = sentence_chars(words);
        let mut features: Vec<Vec<String>> = Vec::with_capacity(words.len());
        let mut idx: usize = 0;
        while idx < words.len()
            invariant
                idx <= words@.len(),
                chars_of_words(chars@, words@),
                words_nonempty(words.deep_view()),
                features@.len() == idx,
                forall|j: int|
                    0 <= j < idx ==> (#[trigger] features@[j]).deep_view() == token_keys(
                        words.deep_view(),
                        j,
                    ),
            decreases words@.len() - idx,
        {
            features.push(token_features(words, &chars, idx));
            idx += 1;
        }
        features
    }

    /// The keys of the sentence as owned strings, beside the part that a
    /// definition may add of its own: this one adds nothing.
    pub fn parse_features(&self, words: &[&str]) -> (r: ((), Vec<Vec<String>>))
        requires
            words_nonempty(words.deep_view()),
        ensures
            r.1.deep_view() == sentence_keys(words.deep_view()),
    {
        let features = self.parse_words_features(words);
        ((), features)
    }
}

/// Nested vectors with one deep view have one shape, and at every place
/// elements with one view.
pub(crate) proof fn lemma_same_places<S: DeepView, T: DeepView<V = S::V>>(
    a: Vec<Vec<S>>,
    b: Vec<Vec<T>>,
)
    requires
        a.deep_view() == b.deep_view(),
    ensures
        a@.len() == b@.len(),
        forall|i: int| 0 <= i < a@.len() ==> (#[trigger] a@[i])@.len() == b@[i]@.len(),
        forall|i: int, j: int|
            0 <= i < a@.len() && 0 <= j < a@[i]@.len() ==> (#[trigger] a@[i]@[j]).deep_view()
                == b@[i]@[j].deep_view(),
{
    assert(a@.len() == a.deep_view().len());
    assert(b@.len() == b.deep_view().len());
    assert forall|i: int| 0 <= i < a@.len() implies (#[trigger] a@[i])@.len() == b@[i]@.len()
        && forall|j: int|
        0 <= j < a@[i]@.len() ==> (#[trigger] a@[i]@[j]).deep_view() == b@[i]@[j].deep_view() by {
        assert(a.deep_view()[i] == a@[i].deep_view());
        assert(b.deep_view()[i] == b@[i].deep_view());
        assert(a@[i]@.len() == a@[i].deep_view().len());
        assert(b@[i]@.len() == b@[i].deep_view().len());
        assert forall|j: int| 0 <= j < a@[i]@.len() implies (#[trigger] a@[i]@[j]).deep_view()
            == b@[i]@[j].deep_view() by {
            assert(a@[i].deep_view()[j] == a@[i]@[j].deep_view());
            assert(b@[i].deep_view()[j] == b@[i]@[j].deep_view());
        }
    }
}

/// Extraction is a function of the sentence alone: two runs over the same
/// words give the same keys at every place, and so the same bytes.
pub proof fn lemma_extraction_deterministic(
    words: Seq<Seq<char>>,
    first: Vec<Vec<String>>,
    second: Vec<Vec<String>>,
)
    requires
        first.deep_view() == sentence_keys(words),
        second.deep_view() == sentence_keys(words),
    ensures
        first@.len() == second@.len(),
        forall|i: int| 0 <= i < first@.len() ==> (#[trigger] first@[i])@.len() == second@[i]@.len(),
        forall|i: int, j: int|
            0 <= i < first@.len() && 0 <= j < first@[i]@.len() ==> {
                &&& (#[trigger] first@[i]@[j])@ == second@[i]@[j]@
                &&& encode_utf8(first@[i]@[j]@) == encode_utf8(second@[i]@[j]@)
            },
{
    lemma_same_places(first, second);
}

} // verus!
