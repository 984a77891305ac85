//! The configuration of a run: sources, destinations and output format.

use std::path::Path;
use vstd::prelude::*;
use vstd::string::StringExecFns;
use crate::filter_list::{contains_string, strings_view, FilterList};
use crate::output::OutputType;

verus! {

/// The name of the file, in the cache directory, that keeps the
/// configuration of a run for the next one.
pub const CACHED_CONF_FILE_NAME: &'static str = "last_conf.json";

/// The directory, below the cache directory, of the lists as they were
/// fetched.
pub const DOWNLOAD_PATH: &'static str = "download";

/// The directory, below the cache directory, of the extracted tokens.
pub const EXTRACT_PATH: &'static str = "extract";

/// The directory, below the cache directory, of the category lists.
pub const CATEGORIZE_PATH: &'static str = "categorize";

/// What `Path::ends_with` returns: whether the last components of the path
/// `path` are the components of `child`, as paths are written on the
/// platform that the library is built for.
pub uninterp spec fn path_ends_with(path: Seq<char>, child: Seq<char>) -> bool;

/// `Path::ends_with`: whether `child` is a suffix of `path`, whole
/// components compared.
#[verifier::external_body]
fn ends_with_path(path: &str, child: &str) -> (ends: bool)
    ensures
        ends == path_ends_with(path@, child@),
{
    Path::new(path).ends_with(child)
}

/// Everything a run needs to know: the lists, where intermediate and final
/// files go, and the format of the latter.
#[derive(Debug)]
pub struct Config {
    pub lists: Vec<FilterList>,
    pub cache_dir: String,
    pub output_dir: String,
    pub output_format: OutputType,
    /// The configuration of the previous run, where one was found.
    pub cached_config: Option<Box<Config>>,
}

/// `acc`, followed by those of `items` that neither `acc` nor an earlier item
/// holds already.
pub open spec fn with_new(acc: Seq<Seq<char>>, items: Seq<Seq<char>>) -> Seq<Seq<char>>
    decreases items.len(),
{
    if items.len() == 0 {
        acc
    } else {
        let before = with_new(acc, items.drop_last());
        if before.contains(items.last()) {
            before
        } else {
            before.push(items.last())
        }
    }
}

/// The tags of the lists, each once, in the order of their first occurrence.
pub open spec fn tags_of(lists: Seq<FilterList>) -> Seq<Seq<char>>
    decreases lists.len(),
{
    if lists.len() == 0 {
        Seq::empty()
    } else {
        with_new(tags_of(lists.drop_last()), lists.last().tags_view())
    }
}

/// `with_new` adds what is missing and nothing else, and repeats nothing.
pub proof fn lemma_with_new(acc: Seq<Seq<char>>, items: Seq<Seq<char>>)
    requires
        acc.no_duplicates(),
    ensures
        with_new(acc, items).no_duplicates(),
        forall|t: Seq<char>|
            with_new(acc, items).contains(t) <==> acc.contains(t) || items.contains(t),
    decreases items.len(),
{
    if items.len() > 0 {
        let init = items.drop_last();
        let before = with_new(acc, init);
        lemma_with_new(acc, init);
        let out = with_new(acc, items);
        assert forall|t: Seq<char>| out.contains(t) <==> acc.contains(t) || items.contains(t) by {
            if items.contains(t) {
                let i = choose|i: int| 0 <= i < items.len() && items[i] == t;
                if i < init.len() {
                    assert(init[i] == t);
                    assert(init.contains(t));
                }
            }
            if init.contains(t) {
                let i = choose|i: int| 0 <= i < init.len() && init[i] == t;
                assert(items[i] == t);
            }
            if !before.contains(items.last()) {
                assert(out == before.push(items.last()));
                if before.contains(t) {
                    let i = choose|i: int| 0 <= i < before.len() && before[i] == t;
                    assert(out[i] == t);
                }
                assert(out[before.len() as int] == items.last());
                if out.contains(t) {
                    let i = choose|i: int| 0 <= i < out.len() && out[i] == t;
                    if i < before.len() {
                        assert(before[i] == t);
                    }
                }
            }
            assert(items[items.len() - 1] == items.last());
        }
    }
}

/// The tags of a configuration hold each tag of each list, once.
pub proof fn lemma_tags_of(lists: Seq<FilterList>)
    ensures
        tags_of(lists).no_duplicates(),
        forall|t: Seq<char>|
            tags_of(lists).contains(t) <==> exists|i: int|
                0 <= i < lists.len() && #[trigger] lists[i].tagged(t),
    decreases lists.len(),
{
    if lists.len() > 0 {
        let init = lists.drop_last();
        lemma_tags_of(init);
        lemma_with_new(tags_of(init), lists.last().tags_view());
        assert forall|t: Seq<char>|
            tags_of(lists).contains(t) <==> exists|i: int|
                0 <= i < lists.len() && #[trigger] lists[i].tagged(t) by {
            if tags_of(init).contains(t) {
                let i = choose|i: int| 0 <= i < init.len() && #[trigger] init[i].tagged(t);
                assert(lists[i].tagged(t));
            }
            if lists.last().tagged(t) {
                assert(lists[lists.len() - 1].tagged(t));
            }
            if exists|i: int| 0 <= i < lists.len() && #[trigger] lists[i].tagged(t) {
                let i = choose|i: int| 0 <= i < lists.len() && #[trigger] lists[i].tagged(t);
                if i < init.len() {
                    assert(init[i].tagged(t));
                }
            }
        }
    }
}

/// Whether a path names the file that keeps the configuration of the last
/// run. Such a file is loaded as it is: no configuration of a run before it
/// is looked for.
pub fn is_cache_file(path: &str) -> (cached: bool)
    ensures
        cached == path_ends_with(path@, CACHED_CONF_FILE_NAME@),
{
    ends_with_path(path, CACHED_CONF_FILE_NAME)
}

impl Config {
    /// The path of the file that keeps this configuration for the next run:
    /// the cache directory, a slash and the file's name.
    pub fn cache_file(&self) -> (path: String)
        ensures
            path@ == self.cache_dir@ + "/"@ + CACHED_CONF_FILE_NAME@,
    {
        let mut path = self.cache_dir.clone();
        path.append("/");
        path.append(CACHED_CONF_FILE_NAME);
        path
    }

    /// Joins the configuration of the last run to this one, where one was
    /// found.
    pub fn attach_cached(&mut self, previous: Option<Config>)
        ensures
            final(self).lists == old(self).lists,
            final(self).cache_dir == old(self).cache_dir,
            final(self).output_dir == old(self).output_dir,
            final(self).output_format == old(self).output_format,
            final(self).cached_config == match previous {
                Some(c) => Some(Box::new(c)),
                None => None::<Box<Config>>,
            },
    {
        self.cached_config = match previous {
            Some(c) => Some(Box::new(c)),
            None => None,
        };
    }

    /// Drops the configuration of the last run, as is done before this one is
    /// kept for the next run: what is kept holds one configuration, not a
    /// chain of them.
    pub fn forget_cached(&mut self)
        ensures
            final(self).lists == old(self).lists,
            final(self).cache_dir == old(self).cache_dir,
            final(self).output_dir == old(self).output_dir,
            final(self).output_format == old(self).output_format,
            final(self).cached_config is None,
    {
        self.cached_config = None;
    }

    /// No two lists have the same id, as their files are named by it.
    pub open spec fn ids_unique(&self) -> bool {
        forall|i: int, j: int|
            0 <= i < j < self.lists@.len() ==> self.lists@[i].id@ != self.lists@[j].id@
    }

    /// Whether no two lists of the configuration have the same id.
    pub fn has_unique_ids(&self) -> (unique: bool)
        ensures
            unique == self.ids_unique(),
    {
        let mut j: usize = 0;
        while j < self.lists.len()
            invariant
                j <= self.lists.len(),
                forall|a: int, b: int|
                    0 <= a < b < j ==> self.lists@[a].id@ != self.lists@[b].id@,
            decreases self.lists.len() - j,
        {
            let mut i: usize = 0;
            while i < j
                invariant
                    i <= j < self.lists.len(),
                    forall|a: int| 0 <= a < i ==> self.lists@[a].id@ != self.lists@[j as int].id@,
                decreases j - i,
            {
                if self.lists[i].id == self.lists[j].id {
                    return false;
                }
                i += 1;
            }
            j += 1;
        }
        true
    }

    /// The tags of the configuration, each once, in the order of their first
    /// occurrence.
    pub open spec fn tags(&self) -> Seq<Seq<char>> {
        tags_of(self.lists@)
    }

    /// The lists that carry the tag, in the order of the configuration.
    pub open spec fn tagged_lists(&self, tag: Seq<char>) -> Seq<FilterList> {
        self.lists@.filter(|l: FilterList| l.tagged(tag))
    }

    /// All tags that occur in the configured lists. Each tag comes once, in
    /// the order in which the lists first name it.
    pub fn get_tags(&self) -> (tags: Vec<String>)
        ensures
            strings_view(tags@) == self.tags(),
            strings_view(tags@).no_duplicates(),
            forall|t: Seq<char>|
                strings_view(tags@).contains(t) <==> exists|i: int|
                    0 <= i < self.lists.len() && #[trigger] self.lists[i].tagged(t),
    {
        let mut tags: Vec<String> = Vec::new();
        let mut i: usize = 0;
        assert(strings_view(tags@) =~= tags_of(self.lists@.take(0)));
        while i < self.lists.len()
            invariant
                i <= self.lists.len(),
                strings_view(tags@) == tags_of(self.lists@.take(i as int)),
            decreases self.lists.len() - i,
        {
            let list = &self.lists[i];
            let ghost before = strings_view(tags@);
            let mut j: usize = 0;
            assert(list.tags_view().take(0) =~= Seq::empty());
            while j < list.tags.len()
                invariant
                    j <= list.tags.len(),
                    strings_view(tags@) == with_new(before, list.tags_view().take(j as int)),
                decreases list.tags.len() - j,
            {
                let ghost seen = strings_view(tags@);
                assert(list.tags_view().take(j + 1).drop_last() =~= list.tags_view().take(
                    j as int,
                ));
                assert(list.tags_view().take(j + 1).last() == list.tags@[j as int]@);
                if !contains_string(&tags, &list.tags[j]) {
                    tags.push(list.tags[j].clone());
                    assert(strings_view(tags@) =~= seen.push(list.tags@[j as int]@));
                }
                j += 1;
            }
            assert(list.tags_view().take(list.tags.len() as int) =~= list.tags_view());
            assert(self.lists@.take(i + 1).drop_last() =~= self.lists@.take(i as int));
            assert(self.lists@.take(i + 1).last() == self.lists@[i as int]);
            i += 1;
        }
        assert(self.lists@.take(self.lists.len() as int) =~= self.lists@);
        proof {
            lemma_tags_of(self.lists@);
        }
        tags
    }

    /// The lists that carry the tag, in the order of the configuration.
    pub fn lists_with_tag(&self, tag: &String) -> (lists: Vec<&FilterList>)
        ensures
            lists@.map_values(|l: &FilterList| *l) == self.tagged_lists(tag@),
    {
        let mut lists: Vec<&FilterList> = Vec::new();
        let ghost pred = |l: FilterList| l.tagged(tag@);
        let mut i: usize = 0;
        proof {
            reveal(Seq::filter);
            assert(self.lists@.take(0).filter(pred) =~= Seq::empty());
            assert(lists@.map_values(|l: &FilterList| *l) =~= Seq::empty());
        }
        while i < self.lists.len()
            invariant
                i <= self.lists.len(),
                pred == |l: FilterList| l.tagged(tag@),
                lists@.map_values(|l: &FilterList| *l) == self.lists@.take(i as int).filter(pred),
            decreases self.lists.len() - i,
        {
            let ghost before = lists@.map_values(|l: &FilterList| *l);
            proof {
                reveal(Seq::filter);
                assert(self.lists@.take(i + 1).drop_last() =~= self.lists@.take(i as int));
                assert(self.lists@.take(i + 1).last() == self.lists@[i as int]);
            }
            if self.lists[i].has_tag(tag) {
                lists.push(&self.lists[i]);
                assert(lists@.map_values(|l: &FilterList| *l) =~= before.push(self.lists@[i as int]));
            }
            i += 1;
        }
        assert(self.lists@.take(self.lists.len() as int) =~= self.lists@);
        lists
    }
}

} // verus!
