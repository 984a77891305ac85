//! A category together with its reader, its writer and the lists that
//! contribute to it.

use vstd::prelude::*;
use crate::io::filter_list_io::FilterListIO;

verus! {

/// The list of one tag with the reader and the writer of its file, as far as
/// they are attached, and the filter lists whose tokens it gathers.
#[derive(Debug)]
pub struct CategoryListIO<R, W> {
    pub name: String,
    pub included_filter_lists: Vec<FilterListIO<R, W>>,
    pub reader: Option<R>,
    pub writer: Option<W>,
}

impl<R, W> CategoryListIO<R, W> {
    /// The category of the given name, without reader, writer and lists.
    pub fn new(name: &str) -> (io: Self)
        ensures
            io.name@ == name@,
            io.included_filter_lists@.len() == 0,
            io.reader is None,
            io.writer is None,
    {
        CategoryListIO {
            name: name.to_owned(),
            included_filter_lists: Vec::new(),
            reader: None,
            writer: None,
        }
    }
}

} // verus!
