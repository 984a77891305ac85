//! Files as input: how they are packed and how their bytes fall into lines.

use std::path::Path;
use vstd::prelude::*;
use crate::text::{lines_view, LF};

verus! {

/// How a downloaded file is packed.
#[derive(Debug, Clone)]
pub enum Compression {
    /// A gzip stream of the list itself.
    Gz,
    /// A gzipped tar archive; the string is the path of the list within it.
    TarGz(String),
}

/// What `==` on `Path` returns: whether two strings name the same path,
/// which is whether they are made of the same components, as paths are
/// written on the platform that the library is built for.
pub uninterp spec fn same_path(a: Seq<char>, b: Seq<char>) -> bool;

/// `==` on `Path`: whether the two paths have the same components.
#[verifier::external_body]
fn path_eq(a: &str, b: &str) -> (same: bool)
    ensures
        same == same_path(a@, b@),
{
    Path::new(a) == Path::new(b)
}

/// Whether an entry of an archive is the list that is looked for.
pub fn is_wanted_entry(entry_path: &str, wanted: &str) -> (wanted_entry: bool)
    ensures
        wanted_entry == same_path(entry_path@, wanted@),
{
    path_eq(entry_path, wanted)
}

/// The entry of an archive that holds the list: the first whose path is the
/// wanted one. `None` says that the archive does not hold the list, which
/// is a failure.
pub fn select_entry(entry_paths: &Vec<String>, wanted: &str) -> (found: Option<usize>)
    ensures
        match found {
            Some(n) => n < entry_paths@.len() && same_path(entry_paths@[n as int]@, wanted@)
                && forall|i: int| 0 <= i < n ==> !same_path(#[trigger] entry_paths@[i]@, wanted@),
            None => forall|i: int|
                0 <= i < entry_paths@.len() ==> !same_path(#[trigger] entry_paths@[i]@, wanted@),
        },
{
    let mut i: usize = 0;
    while i < entry_paths.len()
        invariant
            i <= entry_paths.len(),
            forall|j: int| 0 <= j < i ==> !same_path(#[trigger] entry_paths@[j]@, wanted@),
        decreases entry_paths.len() - i,
    {
        if is_wanted_entry(entry_paths[i].as_str(), wanted) {
            return Some(i);
        }
        i += 1;
    }
    None
}

/// The longest line, its line feed included, that is read from a packed file.
pub const LINE_CAPACITY: usize = 1024;

/// The lines of a byte stream. A byte continues the last line unless a line
/// feed has closed that line, so every line but the last ends in a line feed,
/// and what follows the last line feed is a line too.
pub open spec fn lines_of(data: Seq<u8>) -> Seq<Seq<u8>>
    decreases data.len(),
{
    if data.len() == 0 {
        Seq::empty()
    } else {
        let before = lines_of(data.drop_last());
        if before.len() > 0 && before.last().last() != LF {
            before.update(before.len() - 1, before.last().push(data.last()))
        } else {
            before.push(seq![data.last()])
        }
    }
}

/// The longest line that is read from a file: `LINE_CAPACITY` where the file
/// is packed, no limit where it is plain.
pub open spec fn line_limit(compression: Option<Compression>) -> Option<usize> {
    match compression {
        Some(_) => Some(LINE_CAPACITY),
        None => None,
    }
}

/// Whether a line is closed by a line feed.
pub open spec fn closed(line: Seq<u8>) -> bool {
    line.len() > 0 && line.last() == LF
}

/// Whether a line is within the limit, if there is one.
pub open spec fn within(line: Seq<u8>, limit: Option<usize>) -> bool {
    limit matches Some(l) ==> line.len() <= l
}

/// The lines one after the other.
pub open spec fn joined(lines: Seq<Seq<u8>>) -> Seq<u8>
    decreases lines.len(),
{
    if lines.len() == 0 {
        Seq::empty()
    } else {
        joined(lines.drop_last()) + lines.last()
    }
}

/// The lines of a stream are its bytes, cut after each line feed: together
/// they are the stream, none is empty, a line feed stands only at the end of
/// a line, and every line but the last has one.
pub proof fn lemma_lines_of(data: Seq<u8>)
    ensures
        joined(lines_of(data)) == data,
        forall|k: int| 0 <= k < lines_of(data).len() ==> (#[trigger] lines_of(data)[k]).len() > 0,
        forall|k: int, i: int|
            0 <= k < lines_of(data).len() && 0 <= i < lines_of(data)[k].len() - 1
                ==> #[trigger] lines_of(data)[k][i] != LF,
        forall|k: int| 0 <= k < lines_of(data).len() - 1 ==> closed(#[trigger] lines_of(data)[k]),
    decreases data.len(),
{
    if data.len() > 0 {
        let init = data.drop_last();
        let before = lines_of(init);
        let all = lines_of(data);
        lemma_lines_of(init);
        if before.len() > 0 && before.last().last() != LF {
            let n = before.len() - 1;
            assert(all.drop_last() =~= before.drop_last());
            assert(all.last() == before.last().push(data.last()));
            assert(joined(all) =~= joined(before.drop_last()) + before.last() + seq![data.last()]);
            assert(joined(before) == joined(before.drop_last()) + before.last());
            assert(data =~= init + seq![data.last()]);
            assert forall|k: int, i: int|
                0 <= k < all.len() && 0 <= i < all[k].len() - 1 implies #[trigger] all[k][i]
                != LF by {
                if k < n {
                    assert(all[k] == before[k]);
                } else if i < before[n].len() - 1 {
                    assert(all[k][i] == before[n][i]);
                }
            }
            assert forall|k: int| 0 <= k < all.len() - 1 implies closed(#[trigger] all[k]) by {
                assert(all[k] == before[k]);
            }
        } else {
            assert(all.drop_last() =~= before);
            assert(data =~= init + seq![data.last()]);
            assert forall|k: int, i: int|
                0 <= k < all.len() && 0 <= i < all[k].len() - 1 implies #[trigger] all[k][i]
                != LF by {
                if k < before.len() {
                    assert(all[k] == before[k]);
                }
            }
            assert forall|k: int| 0 <= k < all.len() - 1 implies closed(#[trigger] all[k]) by {
                assert(all[k] == before[k]);
                if k == before.len() - 1 {
                    assert(before[k] == before.last());
                }
            }
        }
    }
}

/// Reading on never changes a line that is complete: the lines of the first
/// `n` bytes, but for the last of them, are lines of the whole stream, and
/// that last one is the start of a line of the whole stream.
pub proof fn lemma_lines_of_prefix(data: Seq<u8>, n: int)
    requires
        0 <= n <= data.len(),
    ensures
        lines_of(data.take(n)).len() <= lines_of(data).len(),
        forall|k: int|
            0 <= k < lines_of(data.take(n)).len() - 1 ==> #[trigger] lines_of(data.take(n))[k]
                == lines_of(data)[k],
        lines_of(data.take(n)).len() > 0 ==> lines_of(data.take(n)).last().len() <= lines_of(
            data,
        )[lines_of(data.take(n)).len() - 1].len(),
        lines_of(data.take(n)).len() > 0 && closed(lines_of(data.take(n)).last()) ==> lines_of(
            data.take(n),
        ).last() == lines_of(data)[lines_of(data.take(n)).len() - 1],
    decreases data.len() - n,
{
    if n == data.len() {
        assert(data.take(n) =~= data);
    } else {
        let part = lines_of(data.take(n));
        let next = lines_of(data.take(n + 1));
        assert(data.take(n + 1).drop_last() =~= data.take(n));
        lemma_lines_of_prefix(data, n + 1);
        lemma_lines_of(data.take(n));
        if part.len() > 0 && part.last().last() != LF {
            assert forall|k: int| 0 <= k < part.len() - 1 implies #[trigger] part[k] == lines_of(
                data,
            )[k] by {
                assert(next[k] == part[k]);
            }
        } else {
            assert forall|k: int| 0 <= k < part.len() - 1 implies #[trigger] part[k] == lines_of(
                data,
            )[k] by {
                assert(next[k] == part[k]);
            }
            if part.len() > 0 {
                assert(next[part.len() - 1] == part.last());
            }
        }
    }
}

/// Bytes without a line feed, read after a closed line, are one open line.
pub proof fn lemma_lines_of_open_line(data: Seq<u8>, word: Seq<u8>)
    requires
        lines_of(data).len() > 0 ==> closed(lines_of(data).last()),
        !word.contains(LF),
    ensures
        lines_of(data + word) == if word.len() == 0 {
            lines_of(data)
        } else {
            lines_of(data).push(word)
        },
    decreases word.len(),
{
    if word.len() == 0 {
        assert(data + word =~= data);
    } else {
        let init = word.drop_last();
        let whole = data + word;
        assert(!init.contains(LF)) by {
            if init.contains(LF) {
                let i = choose|i: int| 0 <= i < init.len() && init[i] == LF;
                assert(word[i] == LF);
            }
        }
        lemma_lines_of_open_line(data, init);
        assert(whole.drop_last() =~= data + init);
        assert(whole.last() == word.last());
        if init.len() == 0 {
            assert(word =~= seq![word.last()]);
        } else {
            assert(init.last() != LF) by {
                assert(word[init.len() - 1] == init.last());
            }
            assert(init.push(word.last()) =~= word);
            assert(lines_of(data).push(init).update(lines_of(data).len() as int, word)
                =~= lines_of(data).push(word));
        }
    }
}

/// A line without a line feed in it, written with a line feed behind it
/// after a closed line, is read back as one more line.
pub proof fn lemma_lines_of_closed_line(data: Seq<u8>, word: Seq<u8>)
    requires
        lines_of(data).len() > 0 ==> closed(lines_of(data).last()),
        !word.contains(LF),
    ensures
        lines_of(data + word + seq![LF]) == lines_of(data).push(word.push(LF)),
{
    lemma_lines_of_open_line(data, word);
    let whole = data + word + seq![LF];
    assert(whole.drop_last() =~= data + word);
    assert(whole.last() == LF);
    if word.len() == 0 {
        assert(word.push(LF) =~= seq![LF]);
    } else {
        assert(word.last() != LF) by {
            assert(word[word.len() - 1] == word.last());
        }
        assert(lines_of(data).push(word).update(lines_of(data).len() as int, word.push(LF))
            =~= lines_of(data).push(word.push(LF)));
    }
}

/// What a byte did to the line that is being assembled.
#[derive(Debug)]
pub enum Fed {
    /// The byte was taken; the line goes on.
    Pending,
    /// The byte was a line feed: here is the line, the line feed included.
    Line(Vec<u8>),
    /// With this byte the line is longer than the limit. What had been
    /// gathered of it is dropped.
    TooLong,
}

/// Gathers the bytes of a stream into lines, one byte at a time.
pub struct LineAssembler {
    pending: Vec<u8>,
    limit: Option<usize>,
}

impl LineAssembler {
    /// The bytes of the line that is not complete yet.
    pub closed spec fn pending(&self) -> Seq<u8> {
        self.pending@
    }

    /// The longest line that is accepted, if lines are limited in length.
    pub closed spec fn limit(&self) -> Option<usize> {
        self.limit
    }

    /// What every assembler keeps: the pending bytes hold no line feed and
    /// are within the limit.
    pub open spec fn wf(&self) -> bool {
        &&& !self.pending().contains(LF)
        &&& within(self.pending(), self.limit())
    }

    /// Whether one more byte is within the limit.
    pub open spec fn has_room(&self) -> bool {
        self.limit() matches Some(l) ==> self.pending().len() < l
    }

    /// An assembler at the start of a stream.
    pub fn new(limit: Option<usize>) -> (assembler: Self)
        ensures
            assembler.pending() == Seq::<u8>::empty(),
            assembler.limit() == limit,
            assembler.wf(),
    {
        LineAssembler { pending: Vec::new(), limit }
    }

    /// An assembler for a file that is packed as `compression` says. The
    /// lines of a packed file are limited to `LINE_CAPACITY` bytes, those of
    /// a plain file are not limited.
    pub fn for_input(compression: &Option<Compression>) -> (assembler: Self)
        ensures
            assembler.pending() == Seq::<u8>::empty(),
            assembler.limit() == line_limit(*compression),
            assembler.wf(),
    {
        match compression {
            Some(_) => LineAssembler::new(Some(LINE_CAPACITY)),
            None => LineAssembler::new(None),
        }
    }

    /// Takes the next byte of the stream.
    pub fn push(&mut self, byte: u8) -> (fed: Fed)
        requires
            old(self).wf(),
        ensures
            final(self).wf(),
            final(self).limit() == old(self).limit(),
            match fed {
                Fed::TooLong => !old(self).has_room() && final(self).pending() == Seq::<u8>::empty(),
                Fed::Line(line) => old(self).has_room() && byte == LF && line@ == old(
                    self,
                ).pending().push(LF) && final(self).pending() == Seq::<u8>::empty(),
                Fed::Pending => old(self).has_room() && byte != LF && final(self).pending() == old(
                    self,
                ).pending().push(byte),
            },
    {
        let full = match self.limit {
            Some(l) => self.pending.len() >= l,
            None => false,
        };
        if full {
            self.pending = Vec::new();
            return Fed::TooLong;
        }
        self.pending.push(byte);
        if byte == LF {
            let mut line: Vec<u8> = Vec::new();
            std::mem::swap(&mut line, &mut self.pending);
            Fed::Line(line)
        } else {
            assert forall|i: int| 0 <= i < self.pending@.len() implies self.pending@[i] != LF by {
                if i < old(self).pending@.len() {
                    assert(old(self).pending@[i] != LF);
                }
            }
            Fed::Pending
        }
    }

    /// Ends the stream: what follows the last line feed is a line too.
    pub fn finish(&mut self) -> (rest: Option<Vec<u8>>)
        requires
            old(self).wf(),
        ensures
            final(self).wf(),
            final(self).limit() == old(self).limit(),
            final(self).pending() == Seq::<u8>::empty(),
            rest is Some <==> old(self).pending().len() > 0,
            rest matches Some(line) ==> line@ == old(self).pending(),
    {
        if self.pending.len() == 0 {
            None
        } else {
            let mut line: Vec<u8> = Vec::new();
            std::mem::swap(&mut line, &mut self.pending);
            Some(line)
        }
    }
}

/// The lines that were read from a stream.
#[derive(Debug)]
pub struct LinesRead {
    /// The lines, in the order of the stream.
    pub lines: Vec<Vec<u8>>,
    /// Whether the stream was read to its end. Where it was not, the line
    /// that follows `lines` is longer than the limit.
    pub complete: bool,
}

/// Reads the lines of a stream that lies in memory, up to its end or to the
/// first line that is longer than the limit.
pub fn read_lines(data: &Vec<u8>, limit: Option<usize>) -> (read: LinesRead)
    ensures
        read.lines@.len() <= lines_of(data@).len(),
        lines_view(read.lines@) == lines_of(data@).take(read.lines@.len() as int),
        forall|k: int| 0 <= k < read.lines@.len() ==> within(#[trigger] lines_of(data@)[k], limit),
        read.complete <==> read.lines@.len() == lines_of(data@).len(),
        !read.complete ==> !within(lines_of(data@)[read.lines@.len() as int], limit),
{
    let mut assembler = LineAssembler::new(limit);
    let mut lines: Vec<Vec<u8>> = Vec::new();
    let mut i: usize = 0;
    assert(data@.take(0) =~= Seq::empty());
    assert(lines_view(lines@) =~= Seq::empty());
    while i < data.len()
        invariant
            i <= data.len(),
            assembler.wf(),
            assembler.limit() == limit,
            forall|k: int| 0 <= k < lines@.len() ==> within(#[trigger] lines_view(lines@)[k], limit),
            lines_of(data@.take(i as int)) == if assembler.pending().len() == 0 {
                lines_view(lines@)
            } else {
                lines_view(lines@).push(assembler.pending())
            },
            lines@.len() > 0 ==> closed(lines_view(lines@).last()),
        decreases data.len() - i,
    {
        let ghost part = lines_of(data@.take(i as int));
        let ghost next = lines_of(data@.take(i + 1));
        let ghost pending = assembler.pending();
        let ghost done = lines_view(lines@);
        proof {
            assert(data@.take(i + 1).drop_last() =~= data@.take(i as int));
            assert(data@.take(i + 1).last() == data@[i as int]);
            if pending.len() > 0 {
                assert(part.last() == pending);
                assert(pending.last() != LF) by {
                    assert(pending[pending.len() - 1] == pending.last());
                }
                assert(next == part.update(part.len() - 1, pending.push(data@[i as int])));
            } else {
                assert(next == part.push(seq![data@[i as int]]));
            }
        }
        match assembler.push(data[i]) {
            Fed::TooLong => {
                proof {
                    lemma_lines_of_prefix(data@, i + 1);
                    assert(next.len() == done.len() + 1);
                    assert(next.last().len() == pending.len() + 1);
                    assert forall|k: int| 0 <= k < done.len() implies done[k] == lines_of(
                        data@,
                    )[k] by {
                        assert(next[k] == done[k]);
                    }
                    assert(done =~= lines_of(data@).take(done.len() as int));
                }
                return LinesRead { lines, complete: false };
            },
            Fed::Line(line) => {
                lines.push(line);
                proof {
                    let now = lines_view(lines@);
                    assert(now =~= done.push(pending.push(LF)));
                    if pending.len() > 0 {
                        assert(part =~= done.push(pending));
                        assert(next =~= now);
                    } else {
                        assert(pending =~= Seq::<u8>::empty());
                        assert(part == done);
                        assert(seq![LF] =~= pending.push(LF));
                        assert(next =~= now);
                    }
                    assert forall|k: int| 0 <= k < now.len() implies within(
                        #[trigger] now[k],
                        limit,
                    ) by {
                        if k < done.len() {
                            assert(now[k] == done[k]);
                        }
                    }
                }
            },
            Fed::Pending => {
                proof {
                    if pending.len() > 0 {
                        assert(part =~= done.push(pending));
                        assert(next =~= done.push(assembler.pending()));
                    } else {
                        assert(pending =~= Seq::<u8>::empty());
                        assert(part == done);
                        assert(seq![data@[i as int]] =~= pending.push(data@[i as int]));
                        assert(next =~= done.push(assembler.pending()));
                    }
                }
            },
        }
        i += 1;
    }
    assert(data@.take(data.len() as int) =~= data@);
    match assembler.finish() {
        Some(line) => {
            let ghost done = lines_view(lines@);
            lines.push(line);
            proof {
                let now = lines_view(lines@);
                assert(now =~= lines_of(data@));
                assert(now.take(now.len() as int) =~= now);
            }
        },
        None => {
            assert(lines_view(lines@).take(lines@.len() as int) =~= lines_view(lines@));
        },
    }
    LinesRead { lines, complete: true }
}

} // verus!
