//! Annotated text: one sentence to a line, its tokens separated by white
//! space, each token a word and a tag joined by the last `/` in it.

use crate::definition::POSDefinition;
use crate::template::sentence_keys;
use crate::text::{char_list_view, CharList};
use vstd::prelude::*;
use vstd::string::*;

verus! {

/// What can be wrong with one token of a line.
#[derive(Debug, Clone, Copy, PartialEq, Eq, Structural)]
pub enum TokenFault {
    /// The token holds no `/`.
    MissingTag,
    /// The tag is not a label of the vocabulary.
    UnknownLabel,
    /// Nothing stands before the tag.
    EmptyWord,
}

/// The first faulty token of a line.
#[derive(Debug, Clone, Copy, PartialEq, Eq, Structural)]
pub struct LineError {
    /// Position of the token among the tokens of the line.
    pub token: usize,
    pub fault: TokenFault,
}

/// The first faulty token of a corpus.
#[derive(Debug, Clone, Copy, PartialEq, Eq, Structural)]
pub struct CorpusError {
    /// Position of the line among the lines given.
    pub line: usize,
    /// Position of the token among the tokens of that line.
    pub token: usize,
    pub fault: TokenFault,
}

/// One training sample: the keys of every word, and the label of every word.
pub type Sample = (Vec<Vec<String>>, Vec<usize>);

/// The characters with the Unicode property `White_Space`.
pub open spec fn is_space(c: char) -> bool {
    let v = c as u32;
    ||| 0x09 <= v <= 0x0D
    ||| v == 0x20
    ||| v == 0x85
    ||| v == 0xA0
    ||| v == 0x1680
    ||| 0x2000 <= v <= 0x200A
    ||| v == 0x2028
    ||| v == 0x2029
    ||| v == 0x202F
    ||| v == 0x205F
    ||| v == 0x3000
}

/// The number of characters before the first white space of `s`.
pub open spec fn token_len(s: Seq<char>) -> int
    decreases s.len(),
{
    if s.len() == 0 || is_space(s[0]) {
        0
    } else {
        1 + token_len(s.drop_first())
    }
}

/// The tokens of a line: its maximal runs of characters that are not white
/// space, from left to right.
pub open spec fn line_tokens(s: Seq<char>) -> Seq<Seq<char>>
    decreases s.len(),
    via line_tokens_terminates
{
    if s.len() == 0 {
        seq![]
    } else if is_space(s[0]) {
        line_tokens(s.drop_first())
    } else {
        seq![s.take(token_len(s))] + line_tokens(s.skip(token_len(s)))
    }
}

#[via_fn]
proof fn line_tokens_terminates(s: Seq<char>) {
    lemma_token_len_bounds(s);
}

proof fn lemma_token_len_bounds(s: Seq<char>)
    ensures
        0 <= token_len(s) <= s.len(),
        s.len() > 0 && !is_space(s[0]) ==> token_len(s) >= 1,
    decreases s.len(),
{
    if s.len() > 0 && !is_space(s[0]) {
        lemma_token_len_bounds(s.drop_first());
    }
}

/// The position of the last `/` of a token, or -1 where it holds none.
pub open spec fn last_slash(tok: Seq<char>) -> int
    decreases tok.len(),
{
    if tok.len() == 0 {
        -1
    } else if tok.last() == '/' {
        tok.len() - 1
    } else {
        last_slash(tok.drop_last())
    }
}

/// What stands before the last `/` of a token.
pub open spec fn token_word(tok: Seq<char>) -> Seq<char> {
    tok.take(last_slash(tok))
}

/// What stands after the last `/` of a token.
pub open spec fn token_tag(tok: Seq<char>) -> Seq<char> {
    tok.skip(last_slash(tok) + 1)
}

/// What is wrong with a token, if anything, under the vocabulary `labels`.
pub open spec fn token_fault(labels: Seq<Seq<char>>, tok: Seq<char>) -> Option<TokenFault> {
    if last_slash(tok) < 0 {
        Some(TokenFault::MissingTag)
    } else if !labels.contains(token_tag(tok)) {
        Some(TokenFault::UnknownLabel)
    } else if token_word(tok).len() == 0 {
        Some(TokenFault::EmptyWord)
    } else {
        None
    }
}

/// The token at `at` has the fault `fault`, and no token before it has any.
pub open spec fn first_fault(
    labels: Seq<Seq<char>>,
    tokens: Seq<Seq<char>>,
    at: int,
    fault: TokenFault,
) -> bool {
    &&& 0 <= at < tokens.len()
    &&& token_fault(labels, tokens[at]) == Some(fault)
    &&& forall|t: int| 0 <= t < at ==> token_fault(labels, #[trigger] tokens[t]) is None
}

/// No token of the line has a fault.
pub open spec fn line_clean(labels: Seq<Seq<char>>, line: Seq<char>) -> bool {
    forall|t: int|
        0 <= t < line_tokens(line).len() ==> token_fault(
            labels,
            #[trigger] line_tokens(line)[t],
        ) is None
}

/// The words of a line, in order.
pub open spec fn line_words(line: Seq<char>) -> Seq<Seq<char>> {
    Seq::new(line_tokens(line).len(), |t: int| token_word(line_tokens(line)[t]))
}

/// The label indices of a line, in order.
pub open spec fn line_labels(labels: Seq<Seq<char>>, line: Seq<char>) -> Seq<usize> {
    Seq::new(
        line_tokens(line).len(),
        |t: int| labels.index_of(token_tag(line_tokens(line)[t])) as usize,
    )
}

/// The sample that a clean line stands for: the keys of its words, and the
/// indices of its tags.
pub open spec fn line_sample(labels: Seq<Seq<char>>, line: Seq<char>) -> (
    Seq<Seq<Seq<char>>>,
    Seq<usize>,
) {
    (sentence_keys(line_words(line)), line_labels(labels, line))
}

/// A blank line: one that holds no token, be it empty or all white space.
pub open spec fn blank(line: Seq<char>) -> bool {
    line_tokens(line).len() == 0
}

/// The lines of a corpus that hold a token, in their order.
pub open spec fn token_lines(lines: Seq<Seq<char>>) -> Seq<Seq<char>> {
    lines.filter(|line: Seq<char>| !blank(line))
}

/// The samples of a corpus: one for each line that is not blank, in the
/// order of the lines.
pub open spec fn corpus_samples(labels: Seq<Seq<char>>, lines: Seq<Seq<char>>) -> Seq<
    (Seq<Seq<Seq<char>>>, Seq<usize>),
>
    decreases lines.len(),
{
    if lines.len() == 0 {
        seq![]
    } else if blank(lines.last()) {
        corpus_samples(labels, lines.drop_last())
    } else {
        corpus_samples(labels, lines.drop_last()).push(line_sample(labels, lines.last()))
    }
}

/// Tells whether `c` is white space.
pub fn is_space_char(c: char) -> (b: bool)
    ensures
        b == is_space(c),
{
    let v: u32 = c as u32;
    (0x09 <= v && v <= 0x0D) || v == 0x20 || v == 0x85 || v == 0xA0 || v == 0x1680 || (0x2000 <= v
        && v <= 0x200A) || v == 0x2028 || v == 0x2029 || v == 0x202F || v == 0x205F || v == 0x3000
}

/// A white space at the front of a line is no part of any token.
proof fn lemma_tokens_skip_space(s: Seq<char>, i: int)
    requires
        0 <= i < s.len(),
        is_space(s[i]),
    ensures
        line_tokens(s.skip(i)) == line_tokens(s.skip(i + 1)),
{
    assert(s.skip(i).drop_first() =~= s.skip(i + 1));
}

/// A run of characters that are not white space, ended by white space or by
/// the end of the line, has the length of the token that starts there.
proof fn lemma_token_len_run(s: Seq<char>, start: int, end: int)
    requires
        0 <= start <= end <= s.len(),
        forall|k: int| start <= k < end ==> !is_space(#[trigger] s[k]),
        end == s.len() || is_space(s[end]),
    ensures
        token_len(s.skip(start)) == end - start,
    decreases end - start,
{
    if start < end {
        assert(s.skip(start).drop_first() =~= s.skip(start + 1));
        lemma_token_len_run(s, start + 1, end);
    }
}

/// Such a run is the first token of what is left of the line.
proof fn lemma_tokens_take_run(s: Seq<char>, start: int, end: int)
    requires
        0 <= start < end <= s.len(),
        forall|k: int| start <= k < end ==> !is_space(#[trigger] s[k]),
        end == s.len() || is_space(s[end]),
    ensures
        line_tokens(s.skip(start)) == seq![s.subrange(start, end)] + line_tokens(s.skip(end)),
{
    lemma_token_len_run(s, start, end);
    let rest = s.skip(start);
    assert(rest.take(end - start) =~= s.subrange(start, end));
    assert(rest.skip(end - start) =~= s.skip(end));
}

/// The last `/` of a token is where a `/` stands with none after it.
proof fn lemma_last_slash(tok: Seq<char>, k: int)
    requires
        -1 <= k < tok.len(),
        k >= 0 ==> tok[k] == '/',
        forall|m: int| k < m < tok.len() ==> #[trigger] tok[m] != '/',
    ensures
        last_slash(tok) == k,
    decreases tok.len(),
{
    if tok.len() > 0 && tok.last() != '/' {
        lemma_last_slash(tok.drop_last(), k);
    }
}

/// Where a token lies in its line, and where its last `/` is.
pub(crate) struct TokenSpan {
    pub start: usize,
    pub end: usize,
    pub slash: Option<usize>,
}

impl TokenSpan {
    /// The span lies in `s` and knows the last `/` of its token.
    pub(crate) open spec fn fits(&self, s: Seq<char>) -> bool {
        &&& self.start < self.end <= s.len()
        &&& match self.slash {
            Some(k) => self.start <= k < self.end && last_slash(
                s.subrange(self.start as int, self.end as int),
            ) == k - self.start,
            None => last_slash(s.subrange(self.start as int, self.end as int)) == -1,
        }
    }

    /// The span is the first token of `s` from `from` on.
    pub(crate) open spec fn is_next(&self, s: Seq<char>, from: int) -> bool {
        &&& self.fits(s)
        &&& from <= self.start
        &&& line_tokens(s.skip(from)) == seq![s.subrange(self.start as int, self.end as int)]
            + line_tokens(s.skip(self.end as int))
    }
}

/// Finds the first token at or after `from`.
pub(crate) fn next_token(cs: &CharList, from: usize) -> (r: Option<TokenSpan>)
    requires
        from <= char_list_view(*cs).len(),
    ensures
        match r {
            Some(span) => span.is_next(char_list_view(*cs), from as int),
            None => line_tokens(char_list_view(*cs).skip(from as int)).len() == 0,
        },
{
    let ghost s = char_list_view(*cs);
    let n = cs.len();
    let mut start: usize = from;
    while start < n && is_space_char(cs.get(start))
        invariant
            from <= start <= n,
            n == s.len(),
            s == char_list_view(*cs),
            line_tokens(s.skip(from as int)) == line_tokens(s.skip(start as int)),
        decreases n - start,
    {
        proof {
            lemma_tokens_skip_space(s, start as int);
        }
        start += 1;
    }
    if start == n {
        return None;
    }
    let mut slash: Option<usize> = None;
    let mut end: usize = start;
    while end < n && !is_space_char(cs.get(end))
        invariant
            start <= end <= n,
            n == s.len(),
            s == char_list_view(*cs),
            forall|k: int| start <= k < end ==> !is_space(#[trigger] s[k]),
            match slash {
                Some(k) => start <= k < end && s[k as int] == '/' && forall|m: int|
                    k < m < end ==> #[trigger] s[m] != '/',
                None => forall|m: int| start <= m < end ==> #[trigger] s[m] != '/',
            },
        decreases n - end,
    {
        if cs.get(end) == '/' {
            slash = Some(end);
        }
        end += 1;
    }
    proof {
        lemma_tokens_take_run(s, start as int, end as int);
        let tok = s.subrange(start as int, end as int);
        match slash {
            Some(k) => lemma_last_slash(tok, k - start),
            None => lemma_last_slash(tok, -1),
        }
    }
    Some(TokenSpan { start, end, slash })
}

/// Tells whether a line is blank.
pub fn is_blank(line: &str) -> (b: bool)
    ensures
        b == blank(line@),
{
    let cs = CharList::of(line);
    assert(line@.skip(0) =~= line@);
    next_token(&cs, 0).is_none()
}

impl POSDefinition {
    /// Splits one token into its word and the index of its tag.
    fn read_token<'a>(&self, line: &'a str, span: &TokenSpan) -> (r: Result<
        (&'a str, usize),
        TokenFault,
    >)
        requires
            self.wf(),
            span.fits(line@),
        ensures
            ({
                let tok = line@.subrange(span.start as int, span.end as int);
                match r {
                    Ok((word, label)) => {
                        &&& token_fault(self@, tok) is None
                        &&& word@ == token_word(tok)
                        &&& label == self@.index_of(token_tag(tok))
                    },
                    Err(fault) => token_fault(self@, tok) == Some(fault),
                }
            }),
    {
        let ghost tok = line@.subrange(span.start as int, span.end as int);
        match span.slash {
            None => Err(TokenFault::MissingTag),
            Some(k) => {
                let tag = line.substring_char(k + 1, span.end);
                assert(tag@ =~= token_tag(tok));
                match self.label_to(tag) {
                    Err(_) => Err(TokenFault::UnknownLabel),
                    Ok(label) => {
                        if k == span.start {
                            Err(TokenFault::EmptyWord)
                        } else {
                            let word = line.substring_char(span.start, k);
                            Ok((word, label))
                        }
                    },
                }
            },
        }
    }

    /// Reads one line of annotated text into a sample, or names its first
    /// faulty token.
    pub fn parse_gold_line(&self, line: &str) -> (r: Result<Sample, LineError>)
        requires
            self.wf(),
        ensures
            match r {
                Ok(sample) => line_clean(self@, line@) && sample.deep_view() == line_sample(
                    self@,
                    line@,
                ),
                Err(e) => first_fault(self@, line_tokens(line@), e.token as int, e.fault),
            },
    {
        let ghost s = line@;
        let ghost all = line_tokens(s);
        let cs = CharList::of(line);
        let mut words: Vec<&str> = Vec::new();
        let mut labels: Vec<usize> = Vec::new();
        let ghost mut done: Seq<Seq<char>> = Seq::empty();
        assert(s.skip(0) =~= s);
        let mut next = next_token(&cs, 0);
        let ghost mut at: int = 0;
        while next.is_some()
            invariant
                self.wf(),
                s == line@,
                s == char_list_view(cs),
                all == line_tokens(s),
                0 <= at <= s.len(),
                all == done + line_tokens(s.skip(at)),
                match next {
                    Some(span) => span.is_next(s, at),
                    None => line_tokens(s.skip(at)).len() == 0,
                },
                words@.len() == done.len(),
                labels@.len() == done.len(),
                forall|t: int|
                    0 <= t < done.len() ==> {
                        &&& token_fault(self@, #[trigger] done[t]) is None
                        &&& words@[t]@ == token_word(done[t])
                        &&& labels@[t] == self@.index_of(token_tag(done[t]))
                    },
            decreases s.len() - at,
        {
            let span = next.unwrap();
            let ghost tok = s.subrange(span.start as int, span.end as int);
            match self.read_token(line, &span) {
                Err(fault) => {
                    return Err(LineError { token: words.len(), fault });
                },
                Ok((word, label)) => {
                    words.push(word);
                    labels.push(label);
                },
            }
            proof {
                done = done.push(tok);
                at = span.end as int;
            }
            next = next_token(&cs, span.end);
        }
        assert(words.deep_view() =~= line_words(s));
        let features = self.parse_words_features(words.as_slice());
        Ok((features, labels))
    }

    /// Reads a corpus, one sentence to a line, into one sample for each line
    /// that is not blank; stops at the first faulty token.
    pub fn parse_gold_features(&self, lines: &[String]) -> (r: Result<Vec<Sample>, CorpusError>)
        requires
            self.wf(),
        ensures
            match r {
                Ok(samples) => {
                    &&& forall|i: int|
                        0 <= i < lines@.len() ==> line_clean(self@, #[trigger] lines@[i]@)
                    &&& samples.deep_view() == corpus_samples(self@, lines.deep_view())
                },
                Err(e) => {
                    &&& e.line < lines@.len()
                    &&& forall|i: int| 0 <= i < e.line ==> line_clean(self@, #[trigger] lines@[i]@)
                    &&& first_fault(
                        self@,
                        line_tokens(lines@[e.line as int]@),
                        e.token as int,
                        e.fault,
                    )
                },
            },
    {
        let ghost ls = lines.deep_view();
        let mut samples: Vec<Sample> = Vec::new();
        let mut i: usize = 0;
        while i < lines.len()
            invariant
                self.wf(),
                ls == lines.deep_view(),
                i <= lines@.len(),
                forall|j: int| 0 <= j < i ==> line_clean(self@, #[trigger] lines@[j]@),
                samples.deep_view() == corpus_samples(self@, ls.take(i as int)),
            decreases lines@.len() - i,
        {
            let line = lines[i].as_str();
            assert(ls.take(i + 1).drop_last() =~= ls.take(i as int));
            if !is_blank(line) {
                match self.parse_gold_line(line) {
                    Err(e) => {
                        return Err(CorpusError { line: i, token: e.token, fault: e.fault });
                    },
                    Ok(sample) => {
                        samples.push(sample);
                    },
                }
            }
            i += 1;
        }
        assert(ls.take(lines@.len() as int) =~= ls);
        Ok(samples)
    }
}

/// Reading a corpus in two parts and joining the samples gives what reading
/// it in one piece gives: however the lines are shared out, the samples put
/// together in the order of the lines are the same.
pub proof fn lemma_corpus_concat(
    labels: Seq<Seq<char>>,
    first: Seq<Seq<char>>,
    second: Seq<Seq<char>>,
)
    ensures
        corpus_samples(labels, first + second) == corpus_samples(labels, first) + corpus_samples(
            labels,
            second,
        ),
    decreases second.len(),
{
    if second.len() > 0 {
        assert((first + second).drop_last() =~= first + second.drop_last());
        lemma_corpus_concat(labels, first, second.drop_last());
    }
}

/// There is one sample for each line that holds a token, and the sample at
/// a position is that of the line at the same position among those lines:
/// blank lines, wherever they stand, give nothing and move nothing.
pub proof fn lemma_corpus_in_order(labels: Seq<Seq<char>>, lines: Seq<Seq<char>>)
    ensures
        corpus_samples(labels, lines).len() == token_lines(lines).len(),
        forall|i: int|
            0 <= i < token_lines(lines).len() ==> {
                &&& !blank(#[trigger] token_lines(lines)[i])
                &&& corpus_samples(labels, lines)[i] == line_sample(labels, token_lines(lines)[i])
            },
    decreases lines.len(),
{
    reveal(Seq::filter);
    if lines.len() > 0 {
        lemma_corpus_in_order(labels, lines.drop_last());
    }
}

/// Every sample holds at least one word, and as many labels as words.
pub proof fn lemma_samples_hold_tokens(labels: Seq<Seq<char>>, lines: Seq<Seq<char>>, k: int)
    requires
        0 <= k < corpus_samples(labels, lines).len(),
    ensures
        corpus_samples(labels, lines)[k].0.len() >= 1,
        corpus_samples(labels, lines)[k].0.len() == corpus_samples(labels, lines)[k].1.len(),
{
    lemma_corpus_in_order(labels, lines);
    let line = token_lines(lines)[k];
    assert(!blank(line));
    assert(corpus_samples(labels, lines)[k] == line_sample(labels, line));
}

} // verus!
