use crate::text::{checked_count_words, count_words, lemma_word_count_bounds, trimmed, word_count};
use vstd::prelude::*;

verus! {

/// What one attempt to read a line gave, as characters: `Ok` with the text
/// that was read, which is empty at the end of the stream, or `Err` with the
/// description of the failure.
pub type ReadView = Result<Seq<char>, Seq<char>>;

/// What counting gave, as mathematical values: the lines and the words, or
/// the description of the failed read.
pub type OutcomeView = Result<(int, int), Seq<char>>;

/// One read, as characters.
pub open spec fn read_view(read: Result<String, String>) -> ReadView {
    match read {
        Ok(text) => Ok(text@),
        Err(why) => Err(why@),
    }
}

/// The reads of a stream, each as characters.
pub open spec fn reads_view(reads: Seq<Result<String, String>>) -> Seq<ReadView> {
    reads.map_values(|read: Result<String, String>| read_view(read))
}

/// An outcome of counting, as mathematical values.
pub open spec fn outcome_view(outcome: Result<(i32, i32), String>) -> OutcomeView {
    match outcome {
        Ok(counts) => Ok((counts.0 as int, counts.1 as int)),
        Err(why) => Err(why@),
    }
}

/// A read that is counted as a line: it gave text, and the text is not empty.
pub open spec fn is_line(read: ReadView) -> bool {
    read matches Ok(text) && text.len() > 0
}

/// The words that a read adds to the count: those of its text without the
/// white space at either end.
pub open spec fn words_of(read: ReadView) -> nat {
    match read {
        Ok(text) => word_count(trimmed(text)),
        Err(_) => 0,
    }
}

/// The number of lines that are counted: the reads that come before the
/// first one that is no line.
pub open spec fn counted(reads: Seq<ReadView>) -> nat
    decreases reads.len(),
{
    if reads.len() > 0 && is_line(reads.first()) {
        1 + counted(reads.drop_first())
    } else {
        0
    }
}

/// The words of all of `reads` together.
pub open spec fn words_in(reads: Seq<ReadView>) -> nat
    decreases reads.len(),
{
    if reads.len() == 0 {
        0
    } else {
        words_in(reads.drop_last()) + words_of(reads.last())
    }
}

/// The outcome of counting a stream that answers the successive attempts to
/// read a line with `reads`. The lines before the first read that is no line
/// are counted. If that read failed, its description is the outcome, and the
/// counts are dropped; if it was empty, or the reads ran out, the counts are.
pub open spec fn count_reads(reads: Seq<ReadView>) -> OutcomeView {
    let n = counted(reads) as int;
    if n < reads.len() && reads[n] is Err {
        Err(reads[n]->Err_0)
    } else {
        Ok((n, words_in(reads.take(n)) as int))
    }
}

/// Whether the counts of `reads` can be held in `i32`.
pub open spec fn counts_fit(reads: Seq<ReadView>) -> bool {
    let n = counted(reads) as int;
    n <= i32::MAX && words_in(reads.take(n)) <= i32::MAX
}

/// What follows one read, as mathematical values.
pub enum StepView {
    /// The read was a line: these are the counts with it, and another read is due.
    More((int, int)),
    /// The stream is at its end or has failed: this is the outcome.
    Done(OutcomeView),
}

/// The counts `tally` with one more line of text `text`.
pub open spec fn with_line(tally: (int, int), text: Seq<char>) -> (int, int) {
    (tally.0 + 1, tally.1 + word_count(trimmed(text)))
}

/// What follows when the counts stand at `tally` and the next attempt to
/// read a line gives `read`.
pub open spec fn next_step(tally: (int, int), read: ReadView) -> StepView {
    match read {
        Err(why) => StepView::Done(Err(why)),
        Ok(text) => if text.len() == 0 {
            StepView::Done(Ok(tally))
        } else {
            StepView::More(with_line(tally, text))
        },
    }
}

/// Whether the counts after `read` can still be held in `i32`.
pub open spec fn step_fits(tally: (int, int), read: ReadView) -> bool {
    is_line(read) ==> tally.0 + 1 <= i32::MAX && tally.1 + words_of(read) <= i32::MAX
}

/// The outcome of taking the steps for `reads` one after another, from the
/// counts `tally` on, until a step is done or the reads run out.
pub open spec fn run(tally: (int, int), reads: Seq<ReadView>) -> OutcomeView
    decreases reads.len(),
{
    if reads.len() == 0 {
        Ok(tally)
    } else {
        match next_step(tally, reads.first()) {
            StepView::More(next) => run(next, reads.drop_first()),
            StepView::Done(outcome) => outcome,
        }
    }
}

/// The running counts of a stream: the lines read so far, and their words.
#[derive(Clone, Copy, Debug)]
pub struct Tally {
    lines: i32,
    words: i32,
}

/// What the reader of a stream does after one attempt to read a line.
#[derive(Debug)]
pub enum Step {
    /// Go on with these counts: read the next line.
    More(Tally),
    /// Stop: this is the outcome for the whole stream.
    Done(Result<(i32, i32), String>),
}

impl View for Tally {
    type V = (int, int);

    closed spec fn view(&self) -> (int, int) {
        (self.lines as int, self.words as int)
    }
}

impl View for Step {
    type V = StepView;

    open spec fn view(&self) -> StepView {
        match *self {
            Step::More(tally) => StepView::More(tally@),
            Step::Done(outcome) => StepView::Done(outcome_view(outcome)),
        }
    }
}

impl Tally {
    #[verifier::type_invariant]
    spec fn nonnegative(self) -> bool {
        0 <= self.lines && 0 <= self.words
    }

    /// The counts before anything is read.
    pub fn new() -> (tally: Tally)
        ensures
            tally@ == (0int, 0int),
    {
        Tally { lines: 0, words: 0 }
    }

    /// The lines and the words counted so far; neither is negative.
    pub fn counts(&self) -> (counts: (i32, i32))
        ensures
            (counts.0 as int, counts.1 as int) == self@,
            counts.0 >= 0,
            counts.1 >= 0,
    {
        proof {
            use_type_invariant(self);
        }
        (self.lines, self.words)
    }

    /// Takes one step: given what the attempt to read the next line gave,
    /// says whether to go on, and with which counts, or to stop, and with
    /// which outcome. A line adds one line and the words of its text without
    /// the white space at either end; an empty read ends the stream with the
    /// counts; a failed read ends it with the failure alone.
    pub fn step(self, read: &Result<String, String>) -> (next: Step)
        requires
            step_fits(self@, read_view(*read)),
        ensures
            next@ == next_step(self@, read_view(*read)),
    {
        proof {
            use_type_invariant(&self);
        }
        match read {
            Err(why) => Step::Done(Err(why.clone())),
            Ok(text) => {
                if text.as_str().is_empty() {
                    Step::Done(Ok((self.lines, self.words)))
                } else {
                    let line = text.as_str().trim().to_owned();
                    proof {
                        lemma_word_count_bounds(line@);
                    }
                    let words: i32 = count_words(&line);
                    Step::More(Tally { lines: self.lines + 1, words: self.words + words })
                }
            },
        }
    }

    /// Takes one step as `step` does, for any read: `None` stands for counts
    /// that an `i32` cannot hold.
    pub fn try_step(self, read: &Result<String, String>) -> (next: Option<Step>)
        ensures
            step_fits(self@, read_view(*read)) <==> next is Some,
            next matches Some(taken) ==> taken@ == next_step(self@, read_view(*read)),
    {
        proof {
            use_type_invariant(&self);
        }
        match read {
            Err(why) => Some(Step::Done(Err(why.clone()))),
            Ok(text) => {
                if text.as_str().is_empty() {
                    Some(Step::Done(Ok((self.lines, self.words))))
                } else {
                    let line = text.as_str().trim().to_owned();
                    proof {
                        lemma_word_count_bounds(line@);
                    }
                    let lines = self.lines.checked_add(1);
                    let words = match checked_count_words(&line) {
                        Some(words) => self.words.checked_add(words),
                        None => None,
                    };
                    match (lines, words) {
                        (Some(lines), Some(words)) => Some(Step::More(Tally { lines, words })),
                        _ => None,
                    }
                }
            },
        }
    }
}

/// The reads before the first that is no line are the counted ones: when the
/// first `k` reads are lines, at least `k` are counted, and exactly `k` when
/// the reads end there or the next one is no line.
pub proof fn lemma_counted(reads: Seq<ReadView>, k: int)
    requires
        0 <= k <= reads.len(),
        forall|j: int| 0 <= j < k ==> is_line(#[trigger] reads[j]),
    ensures
        counted(reads) >= k,
        k == reads.len() || !is_line(reads[k]) ==> counted(reads) == k,
    decreases k,
{
    if k > 0 {
        let rest = reads.drop_first();
        assert(is_line(reads[0]));
        assert forall|j: int| 0 <= j < k - 1 implies is_line(#[trigger] rest[j]) by {
            assert(rest[j] == reads[j + 1]);
        }
        lemma_counted(rest, k - 1);
        if k < reads.len() {
            assert(rest[k - 1] == reads[k]);
        }
    }
}

/// One more read adds its words.
pub proof fn lemma_words_in_next(reads: Seq<ReadView>, k: int)
    requires
        0 <= k < reads.len(),
    ensures
        words_in(reads.take(k + 1)) == words_in(reads.take(k)) + words_of(reads[k]),
{
    assert(reads.take(k + 1).drop_last() =~= reads.take(k));
}

/// The words of a longer prefix are no fewer.
pub proof fn lemma_words_in_prefix(reads: Seq<ReadView>, a: int, b: int)
    requires
        0 <= a <= b <= reads.len(),
    ensures
        words_in(reads.take(a)) <= words_in(reads.take(b)),
    decreases b - a,
{
    if a < b {
        lemma_words_in_prefix(reads, a, b - 1);
        lemma_words_in_next(reads, b - 1);
    }
}

/// The words of some reads are those of the first and those of the rest.
pub proof fn lemma_words_in_first(reads: Seq<ReadView>)
    requires
        reads.len() > 0,
    ensures
        words_in(reads) == words_of(reads.first()) + words_in(reads.drop_first()),
    decreases reads.len(),
{
    if reads.len() > 1 {
        lemma_words_in_first(reads.drop_last());
        assert(reads.drop_last().drop_first() =~= reads.drop_first().drop_last());
    } else {
        assert(reads.drop_first() =~= reads.drop_last());
    }
}

/// Counts the lines and the words of a stream, given what the successive
/// attempts to read a line from it gave: for each, `Ok` with the text read,
/// empty at the end of the stream, or `Err` with the failure. Every read
/// before the first empty or failed one is a line; it adds one line and the
/// words of its text without the white space at either end. A failed read
/// makes the outcome that failure, without the counts so far. Nothing after
/// the first empty or failed read is looked at.
pub fn counter(reads: &Vec<Result<String, String>>) -> (outcome: Result<(i32, i32), String>)
    requires
        counts_fit(reads_view(reads@)),
    ensures
        outcome_view(outcome) == count_reads(reads_view(reads@)),
{
    let ghost model = reads_view(reads@);
    let mut tally = Tally::new();
    let mut i: usize = 0;
    while i < reads.len()
        invariant
            i <= reads.len(),
            model == reads_view(reads@),
            counts_fit(model),
            forall|j: int| 0 <= j < i ==> is_line(#[trigger] model[j]),
            tally@ == (i as int, words_in(model.take(i as int)) as int),
        decreases reads.len() - i,
    {
        proof {
            assert(model[i as int] == read_view(reads@[i as int]));
            if is_line(model[i as int]) {
                lemma_counted(model, i + 1);
                lemma_counted_bound(model);
                lemma_words_in_next(model, i as int);
                lemma_words_in_prefix(model, i + 1, counted(model) as int);
            } else {
                lemma_counted(model, i as int);
            }
        }
        match tally.step(&reads[i]) {
            Step::More(next) => {
                tally = next;
            },
            Step::Done(outcome) => {
                return outcome;
            },
        }
        i += 1;
    }
    proof {
        lemma_counted(model, i as int);
    }
    Ok(tally.counts())
}

/// Law: counting a stream read by read gives what `counter` gives for the
/// reads together. From counts that already stand, the steps add to them.
pub proof fn lemma_run_is_count_reads(tally: (int, int), reads: Seq<ReadView>)
    ensures
        run(tally, reads) == match count_reads(reads) {
            Ok(counts) => Ok::<(int, int), Seq<char>>((tally.0 + counts.0, tally.1 + counts.1)),
            Err(why) => Err(why),
        },
    decreases reads.len(),
{
    if reads.len() == 0 {
        assert(reads.take(0) =~= reads);
    } else if is_line(reads.first()) {
        let rest = reads.drop_first();
        let n = counted(reads) as int;
        lemma_run_is_count_reads(with_line(tally, reads.first()->Ok_0), rest);
        lemma_counted(rest, 0);
        assert(n == 1 + counted(rest));
        assert(n <= reads.len()) by {
            lemma_counted_bound(reads);
        }
        assert(reads.take(n).drop_first() =~= rest.take(n - 1));
        lemma_words_in_first(reads.take(n));
        if n < reads.len() {
            assert(reads[n] == rest[n - 1]);
        }
    } else {
        assert(reads.take(0).len() == 0);
    }
}

/// No more reads are counted than there are.
pub proof fn lemma_counted_bound(reads: Seq<ReadView>)
    ensures
        counted(reads) <= reads.len(),
    decreases reads.len(),
{
    if reads.len() > 0 && is_line(reads.first()) {
        lemma_counted_bound(reads.drop_first());
    }
}

/// Law: a failed read is the outcome, whatever was counted before it. The
/// outcome is a failure exactly when a read failed with nothing but lines
/// before it, and it is then that read's description.
pub proof fn lemma_failure_drops_counts(reads: Seq<ReadView>)
    ensures
        count_reads(reads) is Err <==> exists|k: int|
            0 <= k < reads.len() && #[trigger] reads[k] is Err && forall|j: int|
                0 <= j < k ==> is_line(#[trigger] reads[j]),
        forall|k: int|
            0 <= k < reads.len() && #[trigger] reads[k] is Err && (forall|j: int|
                0 <= j < k ==> is_line(#[trigger] reads[j])) ==> count_reads(reads) == Err::<
                (int, int),
                Seq<char>,
            >(reads[k]->Err_0),
{
    let n = counted(reads) as int;
    lemma_counted_bound(reads);
    lemma_counted_lines(reads, n);
    assert forall|k: int|
        0 <= k < reads.len() && #[trigger] reads[k] is Err && (forall|j: int|
            0 <= j < k ==> is_line(#[trigger] reads[j])) implies n == k by {
        lemma_counted(reads, k);
    }
    if count_reads(reads) is Err {
        assert(reads[n] is Err);
    }
}

/// Every counted read is a line.
pub proof fn lemma_counted_lines(reads: Seq<ReadView>, k: int)
    requires
        0 <= k <= counted(reads),
    ensures
        k <= reads.len(),
        forall|j: int| 0 <= j < k ==> is_line(#[trigger] reads[j]),
    decreases k,
{
    if k > 0 {
        let rest = reads.drop_first();
        lemma_counted_lines(rest, k - 1);
        assert forall|j: int| 0 <= j < k implies is_line(#[trigger] reads[j]) by {
            if j > 0 {
                assert(reads[j] == rest[j - 1]);
            }
        }
    }
}

/// Law: counting the same stream twice gives the same outcome. Two results of
/// `counter` for the same reads agree, in their counts or in the failure.
pub proof fn lemma_counter_repeats(
    reads: Seq<Result<String, String>>,
    first: Result<(i32, i32), String>,
    second: Result<(i32, i32), String>,
)
    requires
        outcome_view(first) == count_reads(reads_view(reads)),
        outcome_view(second) == count_reads(reads_view(reads)),
    ensures
        outcome_view(first) == outcome_view(second),
        first is Ok ==> first == second,
{
}

} // verus!
