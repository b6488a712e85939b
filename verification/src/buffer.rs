//! Feature extraction into a shared byte buffer.
//!
//! Every key is appended to the buffer as UTF-8 and remembered by the offset
//! at which it ends; the keys are handed out as string slices of the buffer.

use crate::definition::POSDefinition;
use crate::extract::{
    chars_of_words, lemma_same_places, nth_prefix_marker, nth_suffix_marker, sentence_chars,
};
use crate::template::{
    head_keys, key, left_keys, prefix_keys, right_keys, run_len, sentence_keys, suffix_keys,
    token_keys, trigram_keys, word_keys, words_nonempty,
};
use crate::text::{
    char_list_view, decimal, lemma_encode_concat, lemma_encode_injective, put_char, put_decimal,
    put_str, utf8_str, CharList,
};
use vstd::pervasive::unreached;
use vstd::prelude::*;
use vstd::slice::*;
use vstd::string::*;
use vstd::utf8::*;

verus! {

/// Where the `j`-th span begins: at `start`, or where the span before it ends.
pub open spec fn span_start(start: int, ends: Seq<usize>, j: int) -> int {
    if j == 0 {
        start
    } else {
        ends[j - 1] as int
    }
}

/// Where the last span ends.
pub open spec fn spans_end(start: int, ends: Seq<usize>) -> int {
    if ends.len() == 0 {
        start
    } else {
        ends.last() as int
    }
}

/// From `start` on, the end offsets `ends` cut `buf` into consecutive spans,
/// and the `j`-th span is the encoding of the `j`-th key.
#[verifier::opaque]
pub open spec fn spans_hold(buf: Seq<u8>, start: int, ends: Seq<usize>, keys: Seq<Seq<char>>) -> bool {
    &&& ends.len() == keys.len()
    &&& 0 <= start <= buf.len()
    &&& forall|j: int|
        0 <= j < ends.len() ==> {
            &&& span_start(start, ends, j) <= #[trigger] ends[j] <= buf.len()
            &&& buf.subrange(span_start(start, ends, j), ends[j] as int) == encode_utf8(keys[j])
        }
}

/// The spans hold and reach to the end of the buffer, so that from `start`
/// on the buffer is the encoding of all keys, one after the other.
pub open spec fn spans_cover(buf: Seq<u8>, start: int, ends: Seq<usize>, keys: Seq<Seq<char>>) -> bool {
    &&& spans_hold(buf, start, ends, keys)
    &&& 0 <= start <= buf.len()
    &&& spans_end(start, ends) == buf.len()
    &&& buf.subrange(start, buf.len() as int) == encode_utf8(keys.flatten())
}

/// Before any key is written the buffer is covered from its end on.
proof fn lemma_spans_none(buf: Seq<u8>)
    ensures
        spans_cover(buf, buf.len() as int, Seq::<usize>::empty(), Seq::<Seq<char>>::empty()),
{
    reveal(spans_hold);
    assert(buf.subrange(buf.len() as int, buf.len() as int) =~= encode_utf8(
        Seq::<Seq<char>>::empty().flatten(),
    ));
}

/// The encoding of all keys after one more key was added.
proof fn lemma_encode_flatten_push(keys: Seq<Seq<char>>, k: Seq<char>)
    ensures
        encode_utf8(keys.push(k).flatten()) == encode_utf8(keys.flatten()) + encode_utf8(k),
{
    keys.lemma_flatten_push(k);
    lemma_encode_concat(keys.flatten(), k);
}

/// Spans stay what they are when the buffer grows.
proof fn lemma_spans_grow(
    buf: Seq<u8>,
    more: Seq<u8>,
    start: int,
    ends: Seq<usize>,
    keys: Seq<Seq<char>>,
)
    requires
        spans_hold(buf, start, ends, keys),
    ensures
        spans_hold(buf + more, start, ends, keys),
{
    reveal(spans_hold);
    assert forall|j: int| 0 <= j < ends.len() implies (buf + more).subrange(
        span_start(start, ends, j),
        #[trigger] ends[j] as int,
    ) == buf.subrange(span_start(start, ends, j), ends[j] as int) by {}
}

/// The keys written for one word so far: where each of them ends in the
/// buffer, and, for the proof, where the first began and what they are.
pub(crate) struct KeySpans {
    pub ends: Vec<usize>,
    pub start: Ghost<int>,
    pub keys: Ghost<Seq<Seq<char>>>,
}

impl KeySpans {
    /// The spans are those of the keys, in `buf`, and reach to its end.
    pub(crate) open spec fn covers(&self, buf: Seq<u8>) -> bool {
        spans_cover(buf, self.start@, self.ends@, self.keys@)
    }

    /// `self` continues `before` by the keys `more`, and `buf` keeps what
    /// `old_buf` held in front of the first span.
    pub(crate) open spec fn continues(
        &self,
        before: &KeySpans,
        more: Seq<Seq<char>>,
        buf: Seq<u8>,
        old_buf: Seq<u8>,
    ) -> bool {
        &&& self.covers(buf)
        &&& self.start@ == before.start@
        &&& self.keys@ == before.keys@ + more
        &&& buf.take(self.start@) == old_buf.take(self.start@)
    }

    /// No key yet: the first will begin at the end of `buffer`.
    fn new(buffer: &Vec<u8>) -> (spans: KeySpans)
        ensures
            spans.covers(buffer@),
            spans.start@ == buffer@.len(),
            spans.keys@ == Seq::<Seq<char>>::empty(),
    {
        proof {
            lemma_spans_none(buffer@);
        }
        KeySpans {
            ends: Vec::with_capacity(22),
            start: Ghost(buffer@.len() as int),
            keys: Ghost(Seq::empty()),
        }
    }

    /// Closes the key `k` whose bytes were just appended: it ends where the
    /// buffer ends.
    fn close(&mut self, buffer: &Vec<u8>, Ghost(before): Ghost<Seq<u8>>, Ghost(k): Ghost<Seq<char>>)
        requires
            old(self).covers(before),
            buffer@ == before + encode_utf8(k),
        ensures
            final(self).continues(old(self), seq![k], buffer@, before),
    {
        let ghost start = self.start@;
        let ghost keys = self.keys@;
        proof {
            reveal(spans_hold);
            lemma_spans_grow(before, encode_utf8(k), start, self.ends@, keys);
            lemma_encode_flatten_push(keys, k);
            assert(buffer@.subrange(start, buffer@.len() as int) =~= before.subrange(
                start,
                before.len() as int,
            ) + encode_utf8(k));
        }
        self.ends.push(buffer.len());
        proof {
            self.keys = Ghost(keys.push(k));
            let es = self.ends@;
            assert forall|j: int| 0 <= j < es.len() implies {
                &&& span_start(start, es, j) <= #[trigger] es[j] <= buffer@.len()
                &&& buffer@.subrange(span_start(start, es, j), es[j] as int) == encode_utf8(
                    keys.push(k)[j],
                )
            } by {}
            assert(keys.push(k) =~= keys + seq![k]);
            assert(buffer@.take(start) =~= before.take(start));
        }
    }

    /// Writes the key of one word.
    fn word_key(&mut self, buffer: &mut Vec<u8>, marker: char, a: &str)
        requires
            old(self).covers(old(buffer)@),
        ensures
            final(self).continues(
                old(self),
                seq![key(marker, a@)],
                final(buffer)@,
                old(buffer)@,
            ),
    {
        put_char(buffer, marker);
        put_str(buffer, a);
        proof {
            lemma_encode_concat(seq![marker], a@);
            assert(buffer@ =~= old(buffer)@ + encode_utf8(key(marker, a@)));
        }
        self.close(buffer, Ghost(old(buffer)@), Ghost(key(marker, a@)));
    }

    /// Writes the key of two words.
    fn word_pair_key(&mut self, buffer: &mut Vec<u8>, marker: char, a: &str, b: &str)
        requires
            old(self).covers(old(buffer)@),
        ensures
            final(self).continues(
                old(self),
                seq![key(marker, a@ + b@)],
                final(buffer)@,
                old(buffer)@,
            ),
    {
        put_char(buffer, marker);
        put_str(buffer, a);
        put_str(buffer, b);
        proof {
            lemma_encode_concat(seq![marker], a@);
            lemma_encode_concat(seq![marker] + a@, b@);
            assert(seq![marker] + a@ + b@ =~= key(marker, a@ + b@));
            assert(buffer@ =~= old(buffer)@ + encode_utf8(key(marker, a@ + b@)));
        }
        self.close(buffer, Ghost(old(buffer)@), Ghost(key(marker, a@ + b@)));
    }

    /// Writes the key of three words.
    fn word_triple_key(&mut self, buffer: &mut Vec<u8>, marker: char, a: &str, b: &str, c: &str)
        requires
            old(self).covers(old(buffer)@),
        ensures
            final(self).continues(
                old(self),
                seq![key(marker, a@ + b@ + c@)],
                final(buffer)@,
                old(buffer)@,
            ),
    {
        put_char(buffer, marker);
        put_str(buffer, a);
        put_str(buffer, b);
        put_str(buffer, c);
        proof {
            lemma_encode_concat(seq![marker], a@);
            lemma_encode_concat(seq![marker] + a@, b@);
            lemma_encode_concat(seq![marker] + a@ + b@, c@);
            assert(seq![marker] + a@ + b@ + c@ =~= key(marker, a@ + b@ + c@));
            assert(buffer@ =~= old(buffer)@ + encode_utf8(key(marker, a@ + b@ + c@)));
        }
        self.close(buffer, Ghost(old(buffer)@), Ghost(key(marker, a@ + b@ + c@)));
    }

    /// Writes the key of one character.
    fn char_key(&mut self, buffer: &mut Vec<u8>, marker: char, c: char)
        requires
            old(self).covers(old(buffer)@),
        ensures
            final(self).continues(
                old(self),
                seq![key(marker, seq![c])],
                final(buffer)@,
                old(buffer)@,
            ),
    {
        put_char(buffer, marker);
        put_char(buffer, c);
        proof {
            lemma_encode_concat(seq![marker], seq![c]);
            assert(buffer@ =~= old(buffer)@ + encode_utf8(key(marker, seq![c])));
        }
        self.close(buffer, Ghost(old(buffer)@), Ghost(key(marker, seq![c])));
    }

    /// Writes the key of two characters.
    fn char_pair_key(&mut self, buffer: &mut Vec<u8>, marker: char, c: char, d: char)
        requires
            old(self).covers(old(buffer)@),
        ensures
            final(self).continues(
                old(self),
                seq![key(marker, seq![c, d])],
                final(buffer)@,
                old(buffer)@,
            ),
    {
        put_char(buffer, marker);
        put_char(buffer, c);
        put_char(buffer, d);
        proof {
            lemma_encode_concat(seq![marker], seq![c]);
            lemma_encode_concat(seq![marker] + seq![c], seq![d]);
            assert(seq![marker] + seq![c] + seq![d] =~= key(marker, seq![c, d]));
            assert(buffer@ =~= old(buffer)@ + encode_utf8(key(marker, seq![c, d])));
        }
        self.close(buffer, Ghost(old(buffer)@), Ghost(key(marker, seq![c, d])));
    }

    /// Writes the key of a length.
    fn length_key(&mut self, buffer: &mut Vec<u8>, marker: char, n: usize)
        requires
            old(self).covers(old(buffer)@),
        ensures
            final(self).continues(
                old(self),
                seq![key(marker, decimal(n as nat))],
                final(buffer)@,
                old(buffer)@,
            ),
    {
        put_char(buffer, marker);
        put_decimal(buffer, n);
        proof {
            lemma_encode_concat(seq![marker], decimal(n as nat));
            assert(buffer@ =~= old(buffer)@ + encode_utf8(key(marker, decimal(n as nat))));
        }
        self.close(buffer, Ghost(old(buffer)@), Ghost(key(marker, decimal(n as nat))));
    }
}

/// Writes the keys of the word itself: the head keys, then the prefix run,
/// then the suffix run.
fn write_word_keys(buffer: &mut Vec<u8>, spans: &mut KeySpans, word: &str, cs: &CharList)
    requires
        old(spans).covers(old(buffer)@),
        char_list_view(*cs) == word@,
        word@.len() > 0,
    ensures
        final(spans).continues(old(spans), word_keys(word@), final(buffer)@, old(buffer)@),
{
    let ghost w = word@;
    let ghost keys = spans.keys@;
    let ghost start = spans.start@;
    let ghost top = buffer@.take(start);
    let n = cs.len();
    spans.word_key(buffer, '2', word);
    spans.char_pair_key(buffer, 'c', cs.get(0), cs.get(n - 1));
    spans.length_key(buffer, 'f', n);
    assert(spans.keys@ =~= keys + head_keys(w) + prefix_keys(w).take(0));
    let run: usize = if n < 3 {
        n
    } else {
        3
    };
    let mut k: usize = 0;
    while k < run
        invariant
            k <= run,
            run == run_len(w),
            n == w.len(),
            char_list_view(*cs) == w,
            spans.covers(buffer@),
            spans.start@ == start,
            buffer@.take(start) == top,
            spans.keys@ == keys + head_keys(w) + prefix_keys(w).take(k as int),
        decreases run - k,
    {
        spans.char_key(buffer, nth_prefix_marker(k), cs.get(k));
        assert(spans.keys@ =~= keys + head_keys(w) + prefix_keys(w).take(k + 1));
        k += 1;
    }
    assert(prefix_keys(w).take(run as int) =~= prefix_keys(w));
    let mut k: usize = 0;
    while k < run
        invariant
            k <= run,
            run == run_len(w),
            n == w.len(),
            char_list_view(*cs) == w,
            spans.covers(buffer@),
            spans.start@ == start,
            buffer@.take(start) == top,
            spans.keys@ == keys + head_keys(w) + prefix_keys(w) + suffix_keys(w).take(k as int),
        decreases run - k,
    {
        spans.char_key(buffer, nth_suffix_marker(k), cs.get(n - 1 - k));
        assert(spans.keys@ =~= keys + head_keys(w) + prefix_keys(w) + suffix_keys(w).take(k + 1));
        k += 1;
    }
    assert(spans.keys@ =~= keys + word_keys(w));
}

/// Writes the keys over the words before position `idx`.
fn write_left_keys(
    buffer: &mut Vec<u8>,
    spans: &mut KeySpans,
    words: &[&str],
    chars: &Vec<CharList>,
    idx: usize,
)
    requires
        old(spans).covers(old(buffer)@),
        idx < words@.len(),
        chars_of_words(chars@, words@),
        words_nonempty(words.deep_view()),
    ensures
        final(spans).continues(
            old(spans),
            left_keys(words.deep_view(), idx as int),
            final(buffer)@,
            old(buffer)@,
        ),
{
    let ghost ws = words.deep_view();
    let ghost i = idx as int;
    let ghost keys = spans.keys@;
    if idx > 0 {
        let cur_word = words[idx];
        let pre_word = words[idx - 1];
        let pre = &chars[idx - 1];
        assert(ws[i] == cur_word@ && ws[i].len() > 0);
        assert(ws[i - 1] == pre_word@ && ws[i - 1].len() > 0);
        spans.word_key(buffer, '1', pre_word);
        spans.word_pair_key(buffer, '6', pre_word, cur_word);
        spans.char_pair_key(buffer, 'd', pre.get(pre.len() - 1), chars[idx].get(0));
        if idx > 1 {
            let pre2_word = words[idx - 2];
            spans.word_key(buffer, '0', pre2_word);
            spans.word_pair_key(buffer, '5', pre2_word, pre_word);
            spans.word_pair_key(buffer, '9', pre2_word, cur_word);
        }
    }
    assert(spans.keys@ =~= keys + left_keys(ws, i));
}

/// Writes the keys over the words after position `idx`.
fn write_right_keys(
    buffer: &mut Vec<u8>,
    spans: &mut KeySpans,
    words: &[&str],
    chars: &Vec<CharList>,
    idx: usize,
)
    requires
        old(spans).covers(old(buffer)@),
        idx < words@.len(),
        chars_of_words(chars@, words@),
        words_nonempty(words.deep_view()),
    ensures
        final(spans).continues(
            old(spans),
            right_keys(words.deep_view(), idx as int),
            final(buffer)@,
            old(buffer)@,
        ),
{
    let ghost ws = words.deep_view();
    let ghost i = idx as int;
    let ghost keys = spans.keys@;
    let last = words.len() - idx - 1;
    if last > 0 {
        let cur_word = words[idx];
        let cur = &chars[idx];
        let next_word = words[idx + 1];
        assert(ws[i] == cur_word@ && ws[i].len() > 0);
        assert(ws[i + 1] == next_word@ && ws[i + 1].len() > 0);
        spans.word_key(buffer, '3', next_word);
        spans.word_pair_key(buffer, '7', cur_word, next_word);
        spans.char_pair_key(buffer, 'e', cur.get(cur.len() - 1), chars[idx + 1].get(0));
        if last > 1 {
            let next2_word = words[idx + 2];
            spans.word_key(buffer, '4', next2_word);
            spans.word_pair_key(buffer, '8', next_word, next2_word);
            spans.word_pair_key(buffer, 'a', cur_word, next2_word);
        }
    }
    assert(spans.keys@ =~= keys + right_keys(ws, i));
}

/// Writes the key over the word at `idx` and both its neighbours.
fn write_trigram_keys(buffer: &mut Vec<u8>, spans: &mut KeySpans, words: &[&str], idx: usize)
    requires
        old(spans).covers(old(buffer)@),
        idx < words@.len(),
    ensures
        final(spans).continues(
            old(spans),
            trigram_keys(words.deep_view(), idx as int),
            final(buffer)@,
            old(buffer)@,
        ),
{
    let last = words.len() - idx - 1;
    if idx > 0 && last > 0 {
        spans.word_triple_key(buffer, 'b', words[idx - 1], words[idx], words[idx + 1]);
    }
}

/// Writes all keys of the word at `idx` and returns where each of them ends.
fn token_features_into(
    words: &[&str],
    chars: &Vec<CharList>,
    idx: usize,
    buffer: &mut Vec<u8>,
) -> (ends: Vec<usize>)
    requires
        idx < words@.len(),
        chars_of_words(chars@, words@),
        words_nonempty(words.deep_view()),
    ensures
        spans_cover(
            final(buffer)@,
            old(buffer)@.len() as int,
            ends@,
            token_keys(words.deep_view(), idx as int),
        ),
        final(buffer)@.take(old(buffer)@.len() as int) == old(buffer)@,
{
    let ghost ws = words.deep_view();
    let ghost i = idx as int;
    assert(ws[i] == words@[i]@ && ws[i].len() > 0);
    let mut spans = KeySpans::new(buffer);
    write_word_keys(buffer, &mut spans, words[idx], &chars[idx]);
    write_left_keys(buffer, &mut spans, words, chars, idx);
    write_right_keys(buffer, &mut spans, words, chars, idx);
    write_trigram_keys(buffer, &mut spans, words, idx);
    spans.ends
}

/// Hands out the spans of one word as string slices of the buffer, and says
/// where the last of them ends.
fn token_slices<'a>(
    all: &'a [u8],
    token_ends: &Vec<usize>,
    start: usize,
    Ghost(keys): Ghost<Seq<Seq<char>>>,
) -> (r: (Vec<&'a str>, usize))
    requires
        spans_hold(all@, start as int, token_ends@, keys),
    ensures
        r.0.deep_view() == keys,
        r.1 == spans_end(start as int, token_ends@),
{
    let mut slices: Vec<&'a str> = Vec::with_capacity(token_ends.len());
    let mut from: usize = start;
    let mut j: usize = 0;
    while j < token_ends.len()
        invariant
            j <= token_ends@.len(),
            spans_hold(all@, start as int, token_ends@, keys),
            from == span_start(start as int, token_ends@, j as int),
            slices@.len() == j,
            forall|m: int| 0 <= m < j ==> (#[trigger] slices@[m])@ == keys[m],
        decreases token_ends@.len() - j,
    {
        let end = token_ends[j];
        proof {
            reveal(spans_hold);
            encode_utf8_valid_utf8(keys[j as int]);
        }
        let part = slice_subrange(all, from, end);
        match utf8_str(part) {
            Some(s) => {
                proof {
                    lemma_encode_injective(s@, keys[j as int]);
                }
                slices.push(s);
            },
            None => {
                unreached::<()>();
            },
        }
        from = end;
        j += 1;
    }
    proof {
        reveal(spans_hold);
    }
    (slices, from)
}

/// The encoding of the keys of the first `n + 1` words is that of the first
/// `n` words followed by that of the word at `n`.
proof fn lemma_encode_sentence_step(all: Seq<Seq<Seq<char>>>, n: int)
    requires
        0 <= n < all.len(),
    ensures
        encode_utf8(all.take(n + 1).flatten().flatten()) == encode_utf8(
            all.take(n).flatten().flatten(),
        ) + encode_utf8(all[n].flatten()),
{
    assert(all.take(n + 1) =~= all.take(n).push(all[n]));
    all.take(n).lemma_flatten_push(all[n]);
    vstd::seq_lib::lemma_flatten_concat(all.take(n).flatten(), all[n]);
    lemma_encode_concat(all.take(n).flatten().flatten(), all[n].flatten());
}

impl POSDefinition {
    /// Extracts, for every word of the sentence, its keys as string slices
    /// of `buffer`, to which the keys are appended one after the other.
    pub fn parse_words_features_with_buffer<'a>(
        &self,
        words: &[&str],
        buffer: &'a mut Vec<u8>,
    ) -> (features: Vec<Vec<&'a str>>)
        requires
            words_nonempty(words.deep_view()),
        ensures
            features.deep_view() == sentence_keys(words.deep_view()),
            final(buffer)@ == old(buffer)@ + encode_utf8(
                sentence_keys(words.deep_view()).flatten().flatten(),
            ),
    {
        let ghost ws = words.deep_view();
        let ghost all_keys = sentence_keys(ws);
        let base: usize = buffer.len();
        let chars = sentence_chars(words);
        let mut all_ends: Vec<Vec<usize>> = Vec::with_capacity(words.len());
        let ghost mut starts: Seq<int> = seq![base as int];
        let mut idx: usize = 0;
        while idx < words.len()
            invariant
                idx <= words@.len(),
                chars_of_words(chars@, words@),
                words_nonempty(words.deep_view()),
                ws == words.deep_view(),
                all_keys == sentence_keys(ws),
                all_ends@.len() == idx,
                starts.len() == idx + 1,
                starts[0] == base,
                starts[idx as int] == buffer@.len(),
                buffer@ == old(buffer)@ + encode_utf8(
                    all_keys.take(idx as int).flatten().flatten(),
                ),
                forall|t: int|
                    0 <= t < idx ==> {
                        &&& spans_hold(
                            buffer@,
                            starts[t],
                            (#[trigger] all_ends@[t])@,
                            token_keys(ws, t),
                        )
                        &&& spans_end(starts[t], all_ends@[t]@) == starts[t + 1]
                        &&& 0 <= starts[t] <= usize::MAX
                    },
            decreases words@.len() - idx,
        {
            let ghost pre = buffer@;
            let ghost pre_ends = all_ends@;
            let ends = token_features_into(words, &chars, idx, buffer);
            proof {
                let more = buffer@.subrange(pre.len() as int, buffer@.len() as int);
                assert(buffer@ =~= pre + more);
                assert forall|t: int| 0 <= t < idx implies spans_hold(
                    buffer@,
                    starts[t],
                    (#[trigger] pre_ends[t])@,
                    token_keys(ws, t),
                ) by {
                    lemma_spans_grow(pre, more, starts[t], pre_ends[t]@, token_keys(ws, t));
                }
                lemma_encode_sentence_step(all_keys, idx as int);
                starts = starts.push(buffer@.len() as int);
            }
            all_ends.push(ends);
            idx += 1;
        }
        let all: &'a [u8] = buffer.as_slice();
        let mut features: Vec<Vec<&'a str>> = Vec::with_capacity(all_ends.len());
        let mut start: usize = base;
        let mut t: usize = 0;
        assert(all_keys.take(words@.len() as int) =~= all_keys);
        while t < all_ends.len()
            invariant
                t <= all_ends@.len(),
                all_ends@.len() == words@.len(),
                starts.len() == all_ends@.len() + 1,
                start == starts[t as int],
                features@.len() == t,
                forall|u: int|
                    0 <= u < t ==> (#[trigger] features@[u]).deep_view() == token_keys(ws, u),
                forall|u: int|
                    0 <= u < all_ends@.len() ==> {
                        &&& spans_hold(
                            all@,
                            starts[u],
                            (#[trigger] all_ends@[u])@,
                            token_keys(ws, u),
                        )
                        &&& spans_end(starts[u], all_ends@[u]@) == starts[u + 1]
                    },
            decreases all_ends@.len() - t,
        {
            let (slices, end) = token_slices(all, &all_ends[t], start, Ghost(token_keys(ws, t as int)));
            features.push(slices);
            start = end;
            t += 1;
        }
        features
    }

    /// The keys of the sentence as string slices of `buffer`, beside the part
    /// that a definition may add of its own: this one adds nothing.
    pub fn parse_features_with_buffer<'a>(&self, words: &[&str], buffer: &'a mut Vec<u8>) -> (r: (
        (),
        Vec<Vec<&'a str>>,
    ))
        requires
            words_nonempty(words.deep_view()),
        ensures
            r.1.deep_view() == sentence_keys(words.deep_view()),
            final(buffer)@ == old(buffer)@ + encode_utf8(
                sentence_keys(words.deep_view()).flatten().flatten(),
            ),
    {
        let features = self.parse_words_features_with_buffer(words, buffer);
        ((), features)
    }
}

/// A sequence of sequences, flattened, is what stands before one of them,
/// then that one, then what stands after it.
proof fn lemma_flatten_split<T>(x: Seq<Seq<T>>, i: int)
    requires
        0 <= i < x.len(),
    ensures
        x.flatten() == x.take(i).flatten() + x[i] + x.skip(i + 1).flatten(),
{
    assert(x =~= x.take(i) + seq![x[i]] + x.skip(i + 1));
    vstd::seq_lib::lemma_flatten_concat(x.take(i) + seq![x[i]], x.skip(i + 1));
    vstd::seq_lib::lemma_flatten_concat(x.take(i), seq![x[i]]);
    seq![x[i]].lemma_flatten_singleton();
}

/// Where the key at place `j` of position `i` begins, in bytes from where
/// the first key of the sentence begins.
pub open spec fn key_offset(all: Seq<Seq<Seq<char>>>, i: int, j: int) -> int {
    (encode_utf8(all.take(i).flatten().flatten()).len() + encode_utf8(
        all[i].take(j).flatten(),
    ).len()) as int
}

/// Every key stands in the buffer where the keys before it end: a buffer
/// that has grown by the encoding of all keys of a sentence holds, from the
/// offset of a key on, the encoding of that key.
pub proof fn lemma_key_in_buffer(
    all: Seq<Seq<Seq<char>>>,
    before: Seq<u8>,
    after: Seq<u8>,
    i: int,
    j: int,
)
    requires
        after == before + encode_utf8(all.flatten().flatten()),
        0 <= i < all.len(),
        0 <= j < all[i].len(),
    ensures
        before.len() + key_offset(all, i, j) + encode_utf8(all[i][j]).len() <= after.len(),
        after.subrange(
            before.len() + key_offset(all, i, j),
            before.len() + key_offset(all, i, j) + encode_utf8(all[i][j]).len(),
        ) == encode_utf8(all[i][j]),
{
    let a = all.take(i).flatten().flatten();
    let b = all[i].take(j).flatten();
    let k = all[i][j];
    let c = all[i].skip(j + 1).flatten();
    let d = all.skip(i + 1).flatten().flatten();
    lemma_flatten_split(all, i);
    lemma_flatten_split(all[i], j);
    vstd::seq_lib::lemma_flatten_concat(all.take(i).flatten() + all[i], all.skip(i + 1).flatten());
    vstd::seq_lib::lemma_flatten_concat(all.take(i).flatten(), all[i]);
    assert(all.flatten().flatten() == a + (b + k + c) + d);
    lemma_encode_concat(a + (b + k + c), d);
    lemma_encode_concat(a, b + k + c);
    lemma_encode_concat(b + k, c);
    lemma_encode_concat(b, k);
    let ea = encode_utf8(a);
    let eb = encode_utf8(b);
    let ek = encode_utf8(k);
    let ec = encode_utf8(c);
    let ed = encode_utf8(d);
    assert(after == before + (ea + (eb + ek + ec) + ed));
    let from = (before.len() + ea.len() + eb.len()) as int;
    assert(after.subrange(from, from + ek.len()) =~= ek);
}

/// Both ways of extraction give the same keys: what the extraction into
/// owned strings returns for a sentence and what the extraction into a
/// buffer returns for it have as many positions, as many keys at every
/// position and the same key at every place; and what the buffer has grown
/// by is the encoding of the owned keys, one after the other.
pub proof fn lemma_modes_agree(
    words: Seq<Seq<char>>,
    owned: Vec<Vec<String>>,
    borrowed: Vec<Vec<&str>>,
    before: Seq<u8>,
    after: Seq<u8>,
)
    requires
        owned.deep_view() == sentence_keys(words),
        borrowed.deep_view() == sentence_keys(words),
        after == before + encode_utf8(sentence_keys(words).flatten().flatten()),
    ensures
        owned@.len() == borrowed@.len(),
        forall|i: int|
            0 <= i < owned@.len() ==> (#[trigger] owned@[i])@.len() == borrowed@[i]@.len(),
        forall|i: int, j: int|
            0 <= i < owned@.len() && 0 <= j < owned@[i]@.len() ==> (#[trigger] owned@[i]@[j])@
                == borrowed@[i]@[j]@,
        after == before + encode_utf8(owned.deep_view().flatten().flatten()),
{
    lemma_same_places(owned, borrowed);
}

} // verus!
