//! The formats in which a category list is handed to its consumer.

use vstd::prelude::*;
use vstd::utf8::*;
use crate::input::file::joined;
use crate::input::Read;
use crate::text::{
    append_bytes, copy_bytes, is_white_space, lemma_trim_spec, lines_view, trim_spec, LF,
};

pub mod hostsfile;
pub mod lua;

verus! {

/// A result format for the block lists.
#[derive(Debug, Clone, Copy, PartialEq, Eq, Structural)]
pub enum OutputType {
    /// A Lua module that returns a table of the domains.
    Lua,
    /// The format of `/etc/hosts`.
    Hostsfile,
}

/// What an output file starts with.
pub open spec fn header(format: OutputType) -> Seq<u8> {
    match format {
        OutputType::Lua => lua::header_spec(),
        OutputType::Hostsfile => Seq::empty(),
    }
}

/// What an output file ends with.
pub open spec fn footer(format: OutputType) -> Seq<u8> {
    match format {
        OutputType::Lua => lua::footer_spec(),
        OutputType::Hostsfile => Seq::empty(),
    }
}

/// What one chunk of a category file becomes in the output file.
pub open spec fn entry(format: OutputType, chunk: Seq<u8>) -> Seq<u8> {
    match format {
        OutputType::Lua => lua::entry_spec(chunk),
        OutputType::Hostsfile => hostsfile::entry_spec(chunk),
    }
}

/// What the chunks of a category file become, one after the other.
pub open spec fn body(format: OutputType, chunks: Seq<Seq<u8>>) -> Seq<u8>
    decreases chunks.len(),
{
    if chunks.len() == 0 {
        Seq::empty()
    } else {
        body(format, chunks.drop_last()) + entry(format, chunks.last())
    }
}

/// The output file of a category whose file holds these chunks.
pub open spec fn document(format: OutputType, chunks: Seq<Seq<u8>>) -> Seq<u8> {
    header(format) + body(format, chunks) + footer(format)
}

/// The body of an output file is a row of records, and each of them is what
/// one of the chunks of the category file became.
pub proof fn lemma_body_records(format: OutputType, chunks: Seq<Seq<u8>>) -> (records: Seq<
    Seq<u8>,
>)
    ensures
        joined(records) == body(format, chunks),
        forall|k: int|
            #![trigger records[k]]
            0 <= k < records.len() ==> records[k].len() > 0 && exists|j: int|
                0 <= j < chunks.len() && entry(format, #[trigger] chunks[j]) == records[k],
    decreases chunks.len(),
{
    if chunks.len() == 0 {
        Seq::empty()
    } else {
        let init = chunks.drop_last();
        let before = lemma_body_records(format, init);
        assert forall|k: int| #![trigger before[k]] 0 <= k < before.len() implies exists|j: int|
            0 <= j < chunks.len() && entry(format, #[trigger] chunks[j]) == before[k] by {
            let j = choose|j: int|
                0 <= j < init.len() && entry(format, #[trigger] init[j]) == before[k];
            assert(chunks[j] == init[j]);
        }
        let last = entry(format, chunks.last());
        if last.len() == 0 {
            assert(body(format, chunks) =~= body(format, init));
            before
        } else {
            let records = before.push(last);
            assert(records.drop_last() =~= before);
            assert(chunks[chunks.len() - 1] == chunks.last());
            assert forall|k: int|
                #![trigger records[k]]
                0 <= k < records.len() implies records[k].len() > 0 && exists|j: int|
                0 <= j < chunks.len() && entry(format, #[trigger] chunks[j]) == records[k] by {
                if k < before.len() {
                    assert(records[k] == before[k]);
                } else {
                    assert(entry(format, chunks[chunks.len() - 1]) == records[k]);
                }
            }
            records
        }
    }
}

/// A line of a hosts file has the shape `0.0.0.0 X` with a line feed, where
/// `X` is the trimmed text of a chunk of the category file: it is not empty
/// and neither starts nor ends with white space.
pub proof fn lemma_hosts_line_shape(chunk: Seq<u8>)
    ensures
        hostsfile::entry_spec(chunk).len() > 0 ==> {
            let domain = trim_spec(decode_utf8(chunk));
            &&& valid_utf8(chunk)
            &&& domain.len() > 0
            &&& !is_white_space(domain[0])
            &&& !is_white_space(domain.last())
            &&& hostsfile::entry_spec(chunk) == hostsfile::prefix_spec() + encode_utf8(domain)
                + seq![LF]
        },
{
    lemma_trim_spec(decode_utf8(chunk));
}

/// A Lua module is the line `return {`, then for each chunk of the category
/// file that is UTF-8 the line `  "X",`, where `X` is the chunk's trimmed
/// text, and at last `}`: the table is opened once and closed once.
pub proof fn lemma_lua_module_shape(chunks: Seq<Seq<u8>>) -> (records: Seq<Seq<u8>>)
    ensures
        document(OutputType::Lua, chunks) == lua::header_spec() + joined(records)
            + lua::footer_spec(),
        forall|k: int|
            #![trigger records[k]]
            0 <= k < records.len() ==> exists|j: int|
                0 <= j < chunks.len() && valid_utf8(#[trigger] chunks[j]) && records[k]
                    == lua::open_spec() + encode_utf8(trim_spec(decode_utf8(chunks[j])))
                    + lua::close_spec(),
{
    let records = lemma_body_records(OutputType::Lua, chunks);
    assert forall|k: int| #![trigger records[k]] 0 <= k < records.len() implies exists|j: int|
        0 <= j < chunks.len() && valid_utf8(#[trigger] chunks[j]) && records[k]
            == lua::open_spec() + encode_utf8(trim_spec(decode_utf8(chunks[j])))
            + lua::close_spec() by {
        let j = choose|j: int|
            0 <= j < chunks.len() && entry(OutputType::Lua, #[trigger] chunks[j]) == records[k];
        assert(valid_utf8(chunks[j]));
    }
    records
}

/// Why a chunk left no trace in the output.
#[derive(Debug, Clone, Copy, PartialEq, Eq, Structural)]
pub enum Skipped {
    /// It is not UTF-8; the caller may want to warn.
    Undecodable,
    /// It holds nothing but white space.
    Blank,
}

/// What an adapter made of what the reader handed over.
#[derive(Debug)]
pub enum Step {
    /// Bytes for the writer. The adapter goes on.
    Write(Vec<u8>),
    /// Nothing to write. The adapter goes on.
    Skip(Skipped),
    /// The stream is at its end: the last bytes for the writer, if any. The
    /// adapter is done.
    Finish(Vec<u8>),
    /// The reader failed. The adapter is done and writes nothing more.
    Abort,
}

/// Turns the chunks of a category file into an output file, chunk by chunk.
///
/// A round starts with `begin`, which says whether to go on and what to
/// write before the reader is asked; `take` then gets what the reader handed
/// over, and `wrote` is told how the writing went.
#[derive(Debug)]
pub struct Adapter {
    format: OutputType,
    started: bool,
    done: bool,
}

impl Adapter {
    /// The format that is written.
    pub closed spec fn format(&self) -> OutputType {
        self.format
    }

    /// Whether a round has begun, so that the header is written.
    pub closed spec fn started(&self) -> bool {
        self.started
    }

    /// Whether the adapter has ended: it has seen the end of its input, or
    /// its reader or its writer has failed.
    pub closed spec fn done(&self) -> bool {
        self.done
    }

    /// An adapter that has written nothing yet.
    pub fn new(format: OutputType) -> (adapter: Self)
        ensures
            adapter.format() == format,
            !adapter.started(),
            !adapter.done(),
    {
        Adapter { format, started: false, done: false }
    }

    /// Starts a round. `processing` is the flag that a cancellation clears.
    /// `None` ends the run: the run was cancelled, or the adapter is done.
    /// Otherwise the bytes are written before the reader is asked: the header
    /// in the first round, nothing later.
    pub fn begin(&mut self, processing: bool) -> (preface: Option<Vec<u8>>)
        ensures
            final(self).format() == old(self).format(),
            final(self).done() == old(self).done(),
            preface is Some <==> processing && !old(self).done(),
            preface is None ==> final(self).started() == old(self).started(),
            preface matches Some(bytes) ==> final(self).started() && bytes@ == if old(
                self,
            ).started() {
                Seq::<u8>::empty()
            } else {
                header(old(self).format())
            },
    {
        if !processing || self.done {
            return None;
        }
        let bytes = if self.started {
            Vec::new()
        } else {
            match self.format {
                OutputType::Lua => lua::header(),
                OutputType::Hostsfile => Vec::new(),
            }
        };
        self.started = true;
        Some(bytes)
    }

    /// Takes what the reader handed over in this round.
    pub fn take(&mut self, read: Read) -> (step: Step)
        ensures
            final(self).format() == old(self).format(),
            final(self).started() == old(self).started(),
            final(self).done() == (old(self).done() || read is End || read is Failed),
            match read {
                Read::Chunk(chunk) => match step {
                    Step::Write(bytes) => bytes@ == entry(old(self).format(), chunk@) && bytes@.len()
                        > 0,
                    Step::Skip(Skipped::Undecodable) => !valid_utf8(chunk@) && entry(
                        old(self).format(),
                        chunk@,
                    ) == Seq::<u8>::empty(),
                    Step::Skip(Skipped::Blank) => valid_utf8(chunk@) && entry(
                        old(self).format(),
                        chunk@,
                    ) == Seq::<u8>::empty(),
                    _ => false,
                },
                Read::End => step matches Step::Finish(bytes) && bytes@ == footer(
                    old(self).format(),
                ),
                Read::Failed => step is Abort,
            },
    {
        match read {
            Read::Chunk(chunk) => match self.format {
                OutputType::Lua => lua::entry(&chunk),
                OutputType::Hostsfile => hostsfile::entry(&chunk),
            },
            Read::End => {
                self.done = true;
                match self.format {
                    OutputType::Lua => Step::Finish(lua::footer()),
                    OutputType::Hostsfile => Step::Finish(Vec::new()),
                }
            },
            Read::Failed => {
                self.done = true;
                Step::Abort
            },
        }
    }

    /// Tells the adapter how the writing of what `begin` or `take` returned
    /// went. A failed write ends the adapter, so that nothing is written
    /// behind a gap.
    pub fn wrote(&mut self, succeeded: bool)
        ensures
            final(self).format() == old(self).format(),
            final(self).started() == old(self).started(),
            final(self).done() == (old(self).done() || !succeeded),
    {
        if !succeeded {
            self.done = true;
        }
    }
}

impl OutputType {
    /// The adapter that writes this format.
    pub fn get_adapter(&self) -> (adapter: Adapter)
        ensures
            adapter.format() == *self,
            !adapter.started(),
            !adapter.done(),
    {
        Adapter::new(*self)
    }

    /// The whole output file of a category whose file holds these chunks,
    /// read to their end without a cancellation.
    pub fn render(&self, chunks: &Vec<Vec<u8>>) -> (out: Vec<u8>)
        ensures
            out@ == document(*self, lines_view(chunks@)),
    {
        let ghost all = lines_view(chunks@);
        let mut adapter = self.get_adapter();
        let mut out: Vec<u8> = Vec::new();
        let mut i: usize = 0;
        assert(all.take(0) =~= Seq::empty());
        while i < chunks.len()
            invariant
                i <= chunks.len(),
                all == lines_view(chunks@),
                adapter.format() == *self,
                !adapter.done(),
                adapter.started() == (i > 0),
                out@ == if i == 0 {
                    Seq::<u8>::empty()
                } else {
                    header(*self) + body(*self, all.take(i as int))
                },
            decreases chunks.len() - i,
        {
            assert(all.take(i + 1).drop_last() =~= all.take(i as int));
            assert(all.take(i + 1).last() == chunks@[i as int]@);
            match adapter.begin(true) {
                Some(preface) => {
                    append_bytes(&mut out, &preface);
                },
                None => {},
            }
            let ghost begun = out@;
            assert(begun =~= header(*self) + body(*self, all.take(i as int)));
            match adapter.take(Read::Chunk(copy_bytes(&chunks[i]))) {
                Step::Write(bytes) => {
                    append_bytes(&mut out, &bytes);
                },
                _ => {},
            }
            assert(out@ == begun + entry(*self, chunks@[i as int]@));
            assert(body(*self, all.take(i + 1)) == body(*self, all.take(i as int)) + entry(
                *self,
                chunks@[i as int]@,
            ));
            assert(out@ =~= header(*self) + body(*self, all.take(i + 1)));
            i += 1;
        }
        assert(all.take(chunks.len() as int) =~= all);
        match adapter.begin(true) {
            Some(preface) => {
                append_bytes(&mut out, &preface);
            },
            None => {},
        }
        match adapter.take(Read::End) {
            Step::Finish(bytes) => {
                append_bytes(&mut out, &bytes);
            },
            _ => {},
        }
        assert(out@ =~= document(*self, all));
        out
    }
}

} // verus!
