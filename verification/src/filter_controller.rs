//! The four stages of a run and the engine that every stage drives.
//!
//! The engine works on one list at a time: it asks the list's reader for a
//! chunk, hands the chunk to the stage's transform and passes on to the
//! writer what the transform returns, until the reader is exhausted, the
//! reader or the writer fails, the transform fails on more than the
//! encoding of a chunk, or the run is cancelled.

use vstd::prelude::*;
use crate::filter_list::FilterList;
use crate::input::Read;
use crate::text::{append_bytes, copy_bytes, lines_view};

verus! {

/// First stage: the lists are fetched from their sources.
pub struct StageDownload;

/// Second stage: the tokens are extracted from the fetched lists.
pub struct StageExtract;

/// Third stage: the tokens are merged into one list per tag.
pub struct StageCategorize;

/// Fourth stage: the category lists are written in the output format.
pub struct StageOutput;

/// Why a transform gave up on a chunk.
#[derive(Debug)]
pub enum TransformError {
    /// The chunk is not UTF-8.
    InvalidUtf8,
    /// The list's regular expression was refused. The string is the
    /// diagnostic, which names the list.
    Regex(String),
}

/// A transform's failure, with its diagnostic as characters.
pub enum TransformErrorView {
    InvalidUtf8,
    Regex(Seq<char>),
}

impl View for TransformError {
    type V = TransformErrorView;

    open spec fn view(&self) -> TransformErrorView {
        match self {
            TransformError::InvalidUtf8 => TransformErrorView::InvalidUtf8,
            TransformError::Regex(message) => TransformErrorView::Regex(message@),
        }
    }
}

/// What a transform makes of a chunk.
pub enum Transformed {
    /// These bytes are written.
    Emit(Seq<u8>),
    /// Nothing is written.
    Skip,
    /// The transform fails with this error, and the task ends.
    Fail(TransformErrorView),
}

/// What a stage does to each chunk of a list before it is written.
pub trait Transform {
    /// What the transform makes of a chunk of the list.
    spec fn transformed(&self, list: &FilterList, chunk: Seq<u8>) -> Transformed;

    /// Applies the transform. Where there is no chunk, there is nothing to
    /// write.
    fn apply(&self, list: &FilterList, chunk: Option<Vec<u8>>) -> (r: Result<
        Option<Vec<u8>>,
        TransformError,
    >)
        ensures
            match chunk {
                None => r matches Ok(None),
                Some(c) => match self.transformed(list, c@) {
                    Transformed::Emit(bytes) => r matches Ok(Some(out)) && out@ == bytes,
                    Transformed::Skip => r matches Ok(None),
                    Transformed::Fail(error) => r matches Err(e) && e@ == error,
                },
            },
    ;
}

/// The transform of the download stage: every chunk is written as it came.
#[derive(Debug, Clone, Copy)]
pub struct PassThrough;

impl Transform for PassThrough {
    open spec fn transformed(&self, list: &FilterList, chunk: Seq<u8>) -> Transformed {
        Transformed::Emit(chunk)
    }

    fn apply(&self, list: &FilterList, chunk: Option<Vec<u8>>) -> (r: Result<
        Option<Vec<u8>>,
        TransformError,
    >) {
        Ok(chunk)
    }
}

/// Whether a failure of the transform ends the task. A chunk that is not
/// UTF-8 is left out, and the task goes on; every other failure ends the
/// task.
pub open spec fn is_fatal(error: TransformErrorView) -> bool {
    !(error is InvalidUtf8)
}

/// Whether the transform fails on the chunk in a way that ends the task.
pub open spec fn stops<T: Transform>(transform: &T, list: &FilterList, chunk: Seq<u8>) -> bool {
    transform.transformed(list, chunk) matches Transformed::Fail(error) && is_fatal(error)
}

/// Whether one of the chunks ends the task.
pub open spec fn fails_among<T: Transform>(
    transform: &T,
    list: &FilterList,
    chunks: Seq<Seq<u8>>,
) -> bool {
    exists|i: int| 0 <= i < chunks.len() && stops(transform, list, #[trigger] chunks[i])
}

/// The error of the first chunk that ends the task, if one does.
pub open spec fn first_failure<T: Transform>(
    transform: &T,
    list: &FilterList,
    chunks: Seq<Seq<u8>>,
) -> Option<TransformErrorView>
    decreases chunks.len(),
{
    if chunks.len() == 0 {
        None
    } else {
        match first_failure(transform, list, chunks.drop_last()) {
            Some(error) => Some(error),
            None => match transform.transformed(list, chunks.last()) {
                Transformed::Fail(error) => if is_fatal(error) {
                    Some(error)
                } else {
                    None
                },
                _ => None,
            },
        }
    }
}

/// There is a first failure exactly when one of the chunks ends the task.
pub proof fn lemma_first_failure<T: Transform>(
    transform: &T,
    list: &FilterList,
    chunks: Seq<Seq<u8>>,
)
    ensures
        first_failure(transform, list, chunks) is Some <==> fails_among(transform, list, chunks),
    decreases chunks.len(),
{
    if chunks.len() > 0 {
        let init = chunks.drop_last();
        lemma_first_failure(transform, list, init);
        if fails_among(transform, list, init) {
            let k = choose|k: int| 0 <= k < init.len() && stops(transform, list, #[trigger] init[k]);
            assert(chunks[k] == init[k]);
        }
        if stops(transform, list, chunks.last()) {
            assert(chunks[chunks.len() - 1] == chunks.last());
        }
        if fails_among(transform, list, chunks) {
            let k = choose|k: int|
                0 <= k < chunks.len() && stops(transform, list, #[trigger] chunks[k]);
            if k < init.len() {
                assert(init[k] == chunks[k]);
            }
        }
    }
}

/// The bytes that a chunk adds to the output.
pub open spec fn emitted<T: Transform>(transform: &T, list: &FilterList, chunk: Seq<u8>) -> Seq<
    u8,
> {
    match transform.transformed(list, chunk) {
        Transformed::Emit(bytes) => bytes,
        _ => Seq::empty(),
    }
}

/// What a task writes when its reader yields these chunks: what the
/// transform makes of each chunk, in the order of the chunks, up to the first
/// chunk that ends the task.
pub open spec fn written<T: Transform>(transform: &T, list: &FilterList, chunks: Seq<Seq<u8>>) -> Seq<
    u8,
>
    decreases chunks.len(),
{
    if chunks.len() == 0 {
        Seq::empty()
    } else if fails_among(transform, list, chunks.drop_last()) {
        written(transform, list, chunks.drop_last())
    } else {
        written(transform, list, chunks.drop_last()) + emitted(transform, list, chunks.last())
    }
}

/// The number of chunks, up to the first that ends the task, of which the
/// transform makes something to write (`matched`) or nothing (`!matched`).
/// A chunk that is left out because it is not UTF-8 counts as one of which
/// nothing is made.
pub open spec fn counted<T: Transform>(
    transform: &T,
    list: &FilterList,
    chunks: Seq<Seq<u8>>,
    matched: bool,
) -> nat
    decreases chunks.len(),
{
    if chunks.len() == 0 {
        0
    } else if fails_among(transform, list, chunks.drop_last()) {
        counted(transform, list, chunks.drop_last(), matched)
    } else {
        let hit: nat = match transform.transformed(list, chunks.last()) {
            Transformed::Emit(_) => if matched { 1 } else { 0 },
            Transformed::Skip => if matched { 0 } else { 1 },
            Transformed::Fail(error) => if matched || is_fatal(error) { 0 } else { 1 },
        };
        counted(transform, list, chunks.drop_last(), matched) + hit
    }
}

/// Why a task ended before its reader was exhausted.
#[derive(Debug)]
pub enum Failure {
    /// The reader failed.
    Read,
    /// The transform failed on more than the encoding of a chunk.
    Transform(TransformError),
}

/// What a task does with what its reader handed over.
#[derive(Debug)]
pub enum Outcome {
    /// The transform made these bytes of the chunk; they go to the writer.
    /// The task goes on.
    Write(Vec<u8>),
    /// The transform made nothing of the chunk. The task goes on.
    Skip,
    /// The chunk is not UTF-8 and is left out, which the caller may want to
    /// warn of. The task goes on.
    Undecodable,
    /// The reader is exhausted. The task is done.
    Finish,
    /// The task ends on a failure, which the caller may want to log.
    Abort(Failure),
}

/// The work on one list in one stage.
///
/// A round starts with `begin`, which says whether the reader is asked at
/// all; `take` then gets what the reader handed over, and `wrote` is told
/// how the writing went.
#[derive(Debug)]
pub struct Task {
    chunks_matched: u64,
    chunks_skipped: u64,
    done: bool,
}

impl Task {
    /// The number of chunks of which the transform made something to write,
    /// counted up to `u64::MAX`.
    pub closed spec fn matched(&self) -> nat {
        self.chunks_matched as nat
    }

    /// The number of chunks of which the transform made nothing, counted up
    /// to `u64::MAX`.
    pub closed spec fn skipped(&self) -> nat {
        self.chunks_skipped as nat
    }

    /// Whether the task has ended: its reader is exhausted, or its reader,
    /// its writer or its transform has failed.
    pub closed spec fn done(&self) -> bool {
        self.done
    }

    /// `n + 1`, as far as a counter can hold it.
    pub open spec fn counted_up(n: nat) -> nat {
        if n < u64::MAX {
            n + 1
        } else {
            n
        }
    }

    /// A task that has read nothing yet.
    pub fn new() -> (task: Self)
        ensures
            task.matched() == 0,
            task.skipped() == 0,
            !task.done(),
    {
        Task { chunks_matched: 0, chunks_skipped: 0, done: false }
    }

    /// The number of chunks that were written so far.
    pub fn chunks_matched(&self) -> (n: u64)
        ensures
            n == self.matched(),
    {
        self.chunks_matched
    }

    /// The number of chunks that were read and left out so far.
    pub fn chunks_skipped(&self) -> (n: u64)
        ensures
            n == self.skipped(),
    {
        self.chunks_skipped
    }

    /// Starts a round: whether the reader is asked for a chunk. `processing`
    /// is the flag that a cancellation clears. A task that was cancelled, or
    /// that has ended, reads and writes nothing more.
    pub fn begin(&self, processing: bool) -> (go_on: bool)
        ensures
            go_on == (processing && !self.done()),
    {
        processing && !self.done
    }

    /// Takes what the reader handed over in this round.
    pub fn take<T: Transform>(&mut self, list: &FilterList, transform: &T, read: Read) -> (outcome:
        Outcome)
        ensures
            match read {
                Read::Chunk(chunk) => match transform.transformed(list, chunk@) {
                    Transformed::Emit(bytes) => {
                        &&& outcome matches Outcome::Write(out)
                        &&& out@ == bytes
                        &&& final(self).matched() == Self::counted_up(old(self).matched())
                        &&& final(self).skipped() == old(self).skipped()
                        &&& final(self).done() == old(self).done()
                    },
                    Transformed::Skip => {
                        &&& outcome is Skip
                        &&& final(self).matched() == old(self).matched()
                        &&& final(self).skipped() == Self::counted_up(old(self).skipped())
                        &&& final(self).done() == old(self).done()
                    },
                    Transformed::Fail(error) => if is_fatal(error) {
                        &&& outcome matches Outcome::Abort(Failure::Transform(e))
                        &&& e@ == error
                        &&& final(self).matched() == old(self).matched()
                        &&& final(self).skipped() == old(self).skipped()
                        &&& final(self).done()
                    } else {
                        &&& outcome is Undecodable
                        &&& final(self).matched() == old(self).matched()
                        &&& final(self).skipped() == Self::counted_up(old(self).skipped())
                        &&& final(self).done() == old(self).done()
                    },
                },
                Read::End => {
                    &&& outcome is Finish
                    &&& final(self).matched() == old(self).matched()
                    &&& final(self).skipped() == old(self).skipped()
                    &&& final(self).done()
                },
                Read::Failed => {
                    &&& outcome matches Outcome::Abort(Failure::Read)
                    &&& final(self).matched() == old(self).matched()
                    &&& final(self).skipped() == old(self).skipped()
                    &&& final(self).done()
                },
            },
    {
        match read {
            Read::Chunk(chunk) => match transform.apply(list, Some(chunk)) {
                Ok(Some(out)) => {
                    if self.chunks_matched < u64::MAX {
                        self.chunks_matched = self.chunks_matched + 1;
                    }
                    Outcome::Write(out)
                },
                Ok(None) => {
                    if self.chunks_skipped < u64::MAX {
                        self.chunks_skipped = self.chunks_skipped + 1;
                    }
                    Outcome::Skip
                },
                Err(TransformError::InvalidUtf8) => {
                    if self.chunks_skipped < u64::MAX {
                        self.chunks_skipped = self.chunks_skipped + 1;
                    }
                    Outcome::Undecodable
                },
                Err(e) => {
                    self.done = true;
                    Outcome::Abort(Failure::Transform(e))
                },
            },
            Read::End => {
                self.done = true;
                Outcome::Finish
            },
            Read::Failed => {
                self.done = true;
                Outcome::Abort(Failure::Read)
            },
        }
    }

    /// Tells the task how the writing of what `take` returned went. A failed
    /// write ends the task, so that nothing is written behind a gap.
    pub fn wrote(&mut self, succeeded: bool)
        ensures
            final(self).matched() == old(self).matched(),
            final(self).skipped() == old(self).skipped(),
            final(self).done() == (old(self).done() || !succeeded),
    {
        if !succeeded {
            self.done = true;
        }
    }
}

/// What became of a list whose chunks were all at hand.
#[derive(Debug)]
pub struct TaskReport {
    /// What was written.
    pub output: Vec<u8>,
    /// The number of chunks that were written.
    pub chunks_matched: u64,
    /// The number of chunks that were read and left out.
    pub chunks_skipped: u64,
    /// The failure of the transform that ended the task, if one did.
    pub failure: Option<TransformError>,
}

/// Runs the engine on a list whose reader yields these chunks and then ends,
/// with no cancellation and a writer that does not fail. Every chunk goes
/// through the transform, and what the transform returns is written, in the
/// order of the chunks. A chunk that is not UTF-8 is left out; the first
/// chunk on which the transform fails otherwise ends the task.
pub fn process<T: Transform>(list: &FilterList, transform: &T, chunks: &Vec<Vec<u8>>) -> (report:
    TaskReport)
    ensures
        report.output@ == written(transform, list, lines_view(chunks@)),
        report.chunks_matched == counted(transform, list, lines_view(chunks@), true),
        report.chunks_skipped == counted(transform, list, lines_view(chunks@), false),
        report.failure is Some <==> fails_among(transform, list, lines_view(chunks@)),
        match report.failure {
            Some(e) => first_failure(transform, list, lines_view(chunks@)) == Some(e@),
            None => first_failure(transform, list, lines_view(chunks@)) is None,
        },
{
    let ghost all = lines_view(chunks@);
    let mut task = Task::new();
    let mut output: Vec<u8> = Vec::new();
    let mut i: usize = 0;
    assert(all.take(0) =~= Seq::empty());
    while i < chunks.len() && task.begin(true)
        invariant
            i <= chunks.len(),
            all == lines_view(chunks@),
            !task.done(),
            !fails_among(transform, list, all.take(i as int)),
            output@ == written(transform, list, all.take(i as int)),
            task.matched() == counted(transform, list, all.take(i as int), true),
            task.skipped() == counted(transform, list, all.take(i as int), false),
            task.matched() + task.skipped() <= i,
        decreases chunks.len() - i,
    {
        let ghost seen = all.take(i as int);
        let ghost next = all.take(i + 1);
        proof {
            assert(next.drop_last() =~= seen);
            assert(next.last() == chunks@[i as int]@);
            assert(next[i as int] == chunks@[i as int]@);
            if fails_among(transform, list, next) {
                let k = choose|k: int|
                    0 <= k < next.len() && stops(transform, list, #[trigger] next[k]);
                if k < i {
                    assert(seen[k] == next[k]);
                }
            }
        }
        match task.take(list, transform, Read::Chunk(copy_bytes(&chunks[i]))) {
            Outcome::Write(bytes) => {
                append_bytes(&mut output, &bytes);
                task.wrote(true);
            },
            Outcome::Skip => {},
            Outcome::Undecodable => {},
            Outcome::Finish => {},
            Outcome::Abort(Failure::Transform(e)) => {
                proof {
                    lemma_failed_stays(transform, list, all, i + 1);
                }
                return TaskReport {
                    output,
                    chunks_matched: task.chunks_matched(),
                    chunks_skipped: task.chunks_skipped(),
                    failure: Some(e),
                };
            },
            Outcome::Abort(Failure::Read) => {},
        }
        proof {
            assert(!fails_among(transform, list, next));
        }
        i += 1;
    }
    assert(all.take(chunks.len() as int) =~= all);
    proof {
        lemma_first_failure(transform, list, all);
    }
    TaskReport {
        output,
        chunks_matched: task.chunks_matched(),
        chunks_skipped: task.chunks_skipped(),
        failure: None,
    }
}

/// Once a chunk has ended the task, nothing more is written or counted: the
/// task stands where it stood before the `n`th chunk, which is the one that
/// ended it.
pub proof fn lemma_failed_stays<T: Transform>(
    transform: &T,
    list: &FilterList,
    chunks: Seq<Seq<u8>>,
    n: int,
)
    requires
        0 < n <= chunks.len(),
        stops(transform, list, chunks[n - 1]),
        !fails_among(transform, list, chunks.take(n - 1)),
    ensures
        fails_among(transform, list, chunks),
        first_failure(transform, list, chunks) == Some(
            transform.transformed(list, chunks[n - 1])->Fail_0,
        ),
        written(transform, list, chunks) == written(transform, list, chunks.take(n - 1)),
        forall|matched: bool|
            counted(transform, list, chunks, matched) == counted(
                transform,
                list,
                chunks.take(n - 1),
                matched,
            ),
    decreases chunks.len() - n,
{
    let init = chunks.drop_last();
    if n == chunks.len() {
        assert(chunks.take(n) =~= chunks);
        assert(init =~= chunks.take(n - 1));
        assert(chunks.last() == chunks[n - 1]);
        lemma_first_failure(transform, list, init);
    } else {
        assert(init.take(n - 1) =~= chunks.take(n - 1));
        assert(init[n - 1] == chunks[n - 1]);
        lemma_failed_stays(transform, list, init, n);
        assert(fails_among(transform, list, init));
        let k = choose|k: int| 0 <= k < init.len() && stops(transform, list, #[trigger] init[k]);
        assert(chunks[k] == init[k]);
    }
    assert forall|matched: bool|
        counted(transform, list, chunks, matched) == counted(
            transform,
            list,
            chunks.take(n - 1),
            matched,
        ) by {
        if n == chunks.len() {
            assert(counted(transform, list, chunks, matched) == counted(
                transform,
                list,
                init,
                matched,
            ) + 0);
        } else {
            assert(counted(transform, list, chunks, matched) == counted(
                transform,
                list,
                init,
                matched,
            ));
        }
    }
}

} // verus!
