//! The description of one filter list.

use vstd::prelude::*;
use crate::input::file::Compression;

verus! {

/// What is needed to process a single filter list.
#[derive(Debug, Clone)]
pub struct FilterList {
    /// Any string that no other list of the configuration has; it names the
    /// list's files in every stage.
    pub id: String,
    /// Free text for whoever maintains the configuration.
    pub comment: Option<String>,
    /// How the downloaded file is packed, if it is.
    pub compression: Option<Compression>,
    /// Where the list is fetched from.
    pub source: String,
    /// The categories that the list's tokens end up in.
    pub tags: Vec<String>,
    /// The expression whose first capture group is the token of a line.
    pub regex: String,
}

/// The strings of a vector, each as its characters.
pub open spec fn strings_view(v: Seq<String>) -> Seq<Seq<char>> {
    Seq::new(v.len(), |i: int| v[i]@)
}

/// Whether `needle` is one of the strings of `haystack`.
pub fn contains_string(haystack: &Vec<String>, needle: &String) -> (found: bool)
    ensures
        found == strings_view(haystack@).contains(needle@),
{
    let mut i: usize = 0;
    while i < haystack.len()
        invariant
            i <= haystack.len(),
            forall|j: int| 0 <= j < i ==> strings_view(haystack@)[j] != needle@,
        decreases haystack.len() - i,
    {
        if haystack[i] == *needle {
            assert(strings_view(haystack@)[i as int] == needle@);
            return true;
        }
        i += 1;
    }
    false
}

impl FilterList {
    /// The list's tags, in the order in which they are configured.
    pub open spec fn tags_view(&self) -> Seq<Seq<char>> {
        strings_view(self.tags@)
    }

    /// Whether the list carries the tag.
    pub open spec fn tagged(&self, tag: Seq<char>) -> bool {
        self.tags_view().contains(tag)
    }

    /// Whether the list carries the tag.
    pub fn has_tag(&self, tag: &String) -> (b: bool)
        ensures
            b == self.tagged(tag@),
    {
        contains_string(&self.tags, tag)
    }
}

} // verus!
