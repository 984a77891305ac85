//! A filter list together with its reader and its writer.

use vstd::prelude::*;
use crate::filter_list::FilterList;

verus! {

/// A filter list with the reader its data comes from and the writer its
/// results go to, as far as they are attached. The list itself stays free of
/// handles, so that it can be written to a file.
#[derive(Debug)]
pub struct FilterListIO<R, W> {
    pub filter_list: FilterList,
    pub reader: Option<R>,
    pub writer: Option<W>,
}

/// What is found where an input file is looked for.
#[derive(Debug, Clone, Copy, PartialEq, Eq, Structural)]
pub enum InputFile {
    /// There is no such file.
    Missing,
    /// The file is there, but it is empty or its length cannot be had: no
    /// reader is attached, and this is no error.
    Empty,
    /// The file is there and holds data: a reader is attached.
    Ready,
}

/// What is found of an input file: `entry` is `None` where the directory
/// holds no file of the wanted name, and otherwise the length of the file,
/// where its metadata can be had.
pub fn classify_input(entry: Option<Option<u64>>) -> (found: InputFile)
    ensures
        found == match entry {
            None => InputFile::Missing,
            Some(None) => InputFile::Empty,
            Some(Some(len)) => if len == 0 {
                InputFile::Empty
            } else {
                InputFile::Ready
            },
        },
{
    match entry {
        None => InputFile::Missing,
        Some(None) => InputFile::Empty,
        Some(Some(len)) => if len == 0 {
            InputFile::Empty
        } else {
            InputFile::Ready
        },
    }
}

/// Whether two lengths are known and equal.
pub open spec fn lengths_match(reader_len: Option<u64>, writer_len: Option<u64>) -> bool {
    reader_len is Some && reader_len == writer_len
}

/// Whether what the writer holds is taken to be what the reader would
/// deliver: both lengths can be had and they are equal. A length that cannot
/// be had means that nothing is cached.
pub fn is_cached(reader_len: Option<u64>, writer_len: Option<u64>) -> (cached: bool)
    ensures
        cached == lengths_match(reader_len, writer_len),
{
    match (reader_len, writer_len) {
        (Some(r), Some(w)) => r == w,
        _ => false,
    }
}

impl<R, W> FilterListIO<R, W> {
    /// The list without reader and writer.
    pub fn new(filter_list: FilterList) -> (io: Self)
        ensures
            io.filter_list == filter_list,
            io.reader is None,
            io.writer is None,
    {
        FilterListIO { filter_list, reader: None, writer: None }
    }

    /// Takes reader and writer out of the list, for the task that works on
    /// it. A list without a reader is left as it is and is not worked on. A
    /// list with a reader and without a writer loses its reader and is not
    /// worked on either.
    pub fn detach(&mut self) -> (io: Option<(R, W)>)
        ensures
            final(self).filter_list == old(self).filter_list,
            final(self).reader is None,
            final(self).writer == if old(self).reader is Some {
                None::<W>
            } else {
                old(self).writer
            },
            io == match (old(self).reader, old(self).writer) {
                (Some(r), Some(w)) => Some((r, w)),
                _ => None::<(R, W)>,
            },
    {
        match self.reader.take() {
            None => None,
            Some(reader) => match self.writer.take() {
                None => None,
                Some(writer) => Some((reader, writer)),
            },
        }
    }
}

} // verus!
