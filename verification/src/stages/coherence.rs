//! Cache coherence: what the four stages decide when they are taken
//! together. An artifact counts as valid only while everything that it was
//! made from is there and, where that can be measured, unchanged.

use vstd::prelude::*;
use crate::config::{lemma_tags_of, Config};
use crate::input::url::url_parses;
use crate::io::filter_list_io::{lengths_match, InputFile};
use crate::stages::categorize::{categorize_cached, category_unchanged, flag_at, membership_kept};
use crate::stages::download::{
    download_cached, download_probe_at, download_verdict_at, DownloadProbe,
};
use crate::stages::extract::{
    extract_cached, extract_probe_at, extract_verdict, extract_verdict_at, ExtractProbe,
};
use crate::stages::output::{output_probe_at, output_verdict_at, OutputProbe};

verus! {

/// What a run finds on disk and at the sources before each of its stages.
pub struct Snapshot {
    /// For each list, what is known before it is fetched.
    pub download: Seq<DownloadProbe>,
    /// For each list, what is known before its tokens are extracted.
    pub extract: Seq<ExtractProbe>,
    /// For each tag, whether its category file is there.
    pub categorize: Seq<bool>,
    /// For each tag, what is known before its output is written.
    pub output: Seq<OutputProbe>,
}

/// The ids that are cached when the extract stage is done.
pub open spec fn cached_lists_of(config: &Config, seen: Snapshot) -> Set<Seq<char>> {
    extract_cached(
        config,
        seen.extract,
        download_cached(config, seen.download),
        config.lists@.len() as int,
    )
}

/// The tags that are cached when the categorize stage is done.
pub open spec fn cached_tags_of(config: &Config, seen: Snapshot) -> Set<Seq<char>> {
    categorize_cached(config, cached_lists_of(config, seen), seen.categorize)
}

/// The cache is intact: every source is a URL and states the length that the
/// downloaded file has, every file of every stage is there, and the last
/// run had the same lists under each tag.
pub open spec fn intact(config: &Config, seen: Snapshot) -> bool {
    &&& forall|i: int|
        0 <= i < config.lists@.len() ==> {
            &&& url_parses((#[trigger] config.lists@[i]).source@)
            &&& lengths_match(
                download_probe_at(seen.download, i).remote_len,
                download_probe_at(seen.download, i).local_len,
            )
            &&& extract_probe_at(seen.extract, i).download != InputFile::Missing
            &&& extract_probe_at(seen.extract, i).extract_exists
        }
    &&& forall|k: int|
        0 <= k < config.tags().len() ==> {
            &&& membership_kept(config, #[trigger] config.tags()[k])
            &&& flag_at(seen.categorize, k)
            &&& output_probe_at(seen.output, k).category_exists
            &&& output_probe_at(seen.output, k).output_exists
        }
}

/// While the cache is intact, the extract stage takes nothing out of what
/// the download stage noted.
proof fn lemma_intact_extract(config: &Config, seen: Snapshot, n: int)
    requires
        intact(config, seen),
        0 <= n <= config.lists@.len(),
    ensures
        extract_cached(config, seen.extract, download_cached(config, seen.download), n)
            == download_cached(config, seen.download),
        forall|i: int|
            0 <= i < config.lists@.len() ==> download_cached(config, seen.download).contains(
                (#[trigger] config.lists@[i]).id@,
            ),
    decreases n,
{
    let noted = download_cached(config, seen.download);
    assert forall|i: int| 0 <= i < config.lists@.len() implies noted.contains(
        (#[trigger] config.lists@[i]).id@,
    ) by {
        assert(download_verdict_at(config, seen.download, i) is Unchanged);
    }
    if n > 0 {
        lemma_intact_extract(config, seen, n - 1);
        assert(noted.contains(config.lists@[n - 1].id@));
    }
}

/// A second run on the same input and an intact cache does no work: every
/// stage leaves every list and every tag unchanged, so nothing is written.
pub proof fn lemma_intact_cache_is_left_alone(config: &Config, seen: Snapshot)
    requires
        intact(config, seen),
    ensures
        forall|i: int|
            0 <= i < config.lists@.len() ==> #[trigger] download_verdict_at(
                config,
                seen.download,
                i,
            ) is Unchanged,
        forall|i: int|
            0 <= i < config.lists@.len() ==> #[trigger] extract_verdict_at(
                config,
                seen.extract,
                download_cached(config, seen.download),
                i,
            ) is Unchanged,
        forall|k: int|
            0 <= k < config.tags().len() ==> category_unchanged(
                config,
                #[trigger] config.tags()[k],
                cached_lists_of(config, seen),
                flag_at(seen.categorize, k),
            ),
        forall|k: int|
            0 <= k < config.tags().len() ==> #[trigger] output_verdict_at(
                config,
                cached_tags_of(config, seen),
                seen.output,
                k,
            ) is Unchanged,
{
    let noted = download_cached(config, seen.download);
    lemma_intact_extract(config, seen, config.lists@.len() as int);
    assert forall|i: int| 0 <= i < config.lists@.len() implies #[trigger] extract_verdict_at(
        config,
        seen.extract,
        noted,
        i,
    ) is Unchanged by {
        lemma_intact_extract(config, seen, i);
        assert(noted.contains(config.lists@[i].id@));
    }
    assert(cached_lists_of(config, seen) == noted);
    assert forall|k: int| 0 <= k < config.tags().len() implies category_unchanged(
        config,
        #[trigger] config.tags()[k],
        cached_lists_of(config, seen),
        flag_at(seen.categorize, k),
    ) by {
        let tag = config.tags()[k];
        assert forall|i: int|
            0 <= i < config.lists@.len() && (#[trigger] config.lists@[i]).tagged(
                tag,
            ) implies noted.contains(config.lists@[i].id@) by {}
    }
    assert forall|k: int| 0 <= k < config.tags().len() implies #[trigger] output_verdict_at(
        config,
        cached_tags_of(config, seen),
        seen.output,
        k,
    ) is Unchanged by {
        assert(category_unchanged(
            config,
            config.tags()[k],
            cached_lists_of(config, seen),
            flag_at(seen.categorize, k),
        ));
        assert(cached_tags_of(config, seen).contains(config.tags()[k]));
    }
}

/// The extract stage leaves an id alone as long as it has not come to a
/// list of that id.
proof fn lemma_untouched_id(
    config: &Config,
    probes: Seq<ExtractProbe>,
    cached: Set<Seq<char>>,
    n: int,
    id: Seq<char>,
)
    requires
        0 <= n <= config.lists@.len(),
        forall|j: int| 0 <= j < n ==> (#[trigger] config.lists@[j]).id@ != id,
    ensures
        extract_cached(config, probes, cached, n).contains(id) == cached.contains(id),
    decreases n,
{
    if n > 0 {
        lemma_untouched_id(config, probes, cached, n - 1, id);
        assert(config.lists@[n - 1].id@ != id);
    }
}

/// Each list is judged alone: where no two lists have the same id, what the
/// extract stage does with a list depends on that list's own files and on
/// whether the download stage left it unchanged, not on the lists before it.
pub proof fn lemma_lists_are_judged_alone(
    config: &Config,
    probes: Seq<ExtractProbe>,
    cached: Set<Seq<char>>,
    i: int,
)
    requires
        config.ids_unique(),
        0 <= i < config.lists@.len(),
    ensures
        extract_verdict_at(config, probes, cached, i) == extract_verdict(
            cached.contains(config.lists@[i].id@),
            extract_probe_at(probes, i),
        ),
{
    lemma_untouched_id(config, probes, cached, i, config.lists@[i].id@);
}

/// Once the extract stage has taken an id out of the cached set, the id
/// stays out.
proof fn lemma_removed_stays_out(
    config: &Config,
    probes: Seq<ExtractProbe>,
    cached: Set<Seq<char>>,
    i: int,
    n: int,
)
    requires
        0 <= i < n,
        !extract_cached(config, probes, cached, i + 1).contains(config.lists@[i].id@),
    ensures
        !extract_cached(config, probes, cached, n).contains(config.lists@[i].id@),
    decreases n,
{
    if n > i + 1 {
        lemma_removed_stays_out(config, probes, cached, i, n - 1);
    }
}

/// A list whose extracted file is gone is not left as it is, whatever was
/// cached: the stage extracts it again from what was downloaded, and its id
/// is not handed on as cached, so that no category with one of its tags is
/// left unchanged either.
pub proof fn lemma_missing_extract_is_redone(
    config: &Config,
    probes: Seq<ExtractProbe>,
    cached: Set<Seq<char>>,
    i: int,
)
    requires
        0 <= i < config.lists@.len(),
        !extract_probe_at(probes, i).extract_exists,
    ensures
        !(extract_verdict_at(config, probes, cached, i) is Unchanged),
        extract_probe_at(probes, i).download is Ready ==> extract_verdict_at(
            config,
            probes,
            cached,
            i,
        ) is Update,
        !extract_cached(config, probes, cached, config.lists@.len() as int).contains(
            config.lists@[i].id@,
        ),
        forall|tag: Seq<char>, file_exists: bool|
            config.lists@[i].tagged(tag) ==> !#[trigger] category_unchanged(
                config,
                tag,
                extract_cached(config, probes, cached, config.lists@.len() as int),
                file_exists,
            ),
{
    assert(!extract_cached(config, probes, cached, i + 1).contains(config.lists@[i].id@));
    lemma_removed_stays_out(config, probes, cached, i, config.lists@.len() as int);
}

/// A tag whose category file is gone is categorized again, whatever was
/// cached: the stage does not leave it unchanged and does not hand it on as
/// cached, so that the output stage does not leave it unchanged either but
/// writes it again once its category file is there.
pub proof fn lemma_missing_category_is_redone(
    config: &Config,
    cached: Set<Seq<char>>,
    files: Seq<bool>,
    probes: Seq<OutputProbe>,
    k: int,
)
    requires
        0 <= k < config.tags().len(),
        !flag_at(files, k),
    ensures
        !category_unchanged(config, config.tags()[k], cached, flag_at(files, k)),
        !categorize_cached(config, cached, files).contains(config.tags()[k]),
        !(output_verdict_at(config, categorize_cached(config, cached, files), probes, k)
            is Unchanged),
        output_probe_at(probes, k).category_exists ==> output_verdict_at(
            config,
            categorize_cached(config, cached, files),
            probes,
            k,
        ) is Emit,
{
    lemma_tags_of(config.lists@);
    let tag = config.tags()[k];
    if categorize_cached(config, cached, files).contains(tag) {
        let j = choose|j: int|
            0 <= j < config.tags().len() && #[trigger] config.tags()[j] == tag
                && category_unchanged(config, tag, cached, flag_at(files, j));
        assert(j == k);
    }
}

} // verus!
