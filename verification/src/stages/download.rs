//! First stage: the lists are fetched, unless what was fetched in an earlier
//! run is still as long as the source says it is.

use vstd::prelude::*;
use crate::cache::CachedSet;
use crate::config::Config;
use crate::input::url::{source_is_url, url_parses};
use crate::io::filter_list_io::{is_cached, lengths_match};

verus! {

/// What is known of a list before it is fetched.
#[derive(Debug, Clone, Copy)]
pub struct DownloadProbe {
    /// The size of the file that an earlier run fetched, where there is one
    /// that can be opened.
    pub local_len: Option<u64>,
    /// The length that the source states for the list, where it states one.
    /// It is needed only where `local_len` is known.
    pub remote_len: Option<u64>,
}

/// What the download stage does with a list.
#[derive(Debug, Clone, Copy, PartialEq, Eq, Structural)]
pub enum DownloadVerdict {
    /// The source is no URL. The list is left out of this stage; the other
    /// lists go on.
    Rejected,
    /// The file of the earlier run is as long as the source: nothing is
    /// fetched, and the list is noted as cached.
    Unchanged,
    /// The list is fetched into a new file.
    Update,
}

/// What the download stage does with a list whose source is or is not a
/// URL, given what is known of it.
pub open spec fn download_verdict(is_url: bool, probe: DownloadProbe) -> DownloadVerdict {
    if !is_url {
        DownloadVerdict::Rejected
    } else if lengths_match(probe.remote_len, probe.local_len) {
        DownloadVerdict::Unchanged
    } else {
        DownloadVerdict::Update
    }
}

/// Decides what the download stage does with a list.
pub fn decide_download(is_url: bool, probe: &DownloadProbe) -> (verdict: DownloadVerdict)
    ensures
        verdict == download_verdict(is_url, *probe),
{
    if !is_url {
        DownloadVerdict::Rejected
    } else if is_cached(probe.remote_len, probe.local_len) {
        DownloadVerdict::Unchanged
    } else {
        DownloadVerdict::Update
    }
}

/// The probe of the list at position `i`. Of a list without a probe nothing
/// is known.
pub open spec fn download_probe_at(probes: Seq<DownloadProbe>, i: int) -> DownloadProbe {
    if 0 <= i < probes.len() {
        probes[i]
    } else {
        DownloadProbe { local_len: None, remote_len: None }
    }
}

/// What the download stage does with the list at position `i`.
pub open spec fn download_verdict_at(config: &Config, probes: Seq<DownloadProbe>, i: int) -> DownloadVerdict {
    download_verdict(url_parses(config.lists@[i].source@), download_probe_at(probes, i))
}

/// The ids that the download stage notes as cached: those of the lists that
/// it leaves unchanged.
pub open spec fn download_cached(config: &Config, probes: Seq<DownloadProbe>) -> Set<Seq<char>> {
    Set::new(
        |id: Seq<char>|
            exists|i: int|
                0 <= i < config.lists@.len() && (#[trigger] config.lists@[i]).id@ == id
                    && download_verdict_at(config, probes, i) is Unchanged,
    )
}

/// What the download stage does with each list, and what it hands on.
pub struct DownloadPlan {
    /// The verdict on each list, in the order of the configuration.
    pub verdicts: Vec<DownloadVerdict>,
    /// The ids of the lists that are left unchanged.
    pub cached_lists: CachedSet,
}

/// Plans the download stage: `probes` holds what is known of each list, in
/// the order of the configuration.
pub fn plan_download(config: &Config, probes: &Vec<DownloadProbe>) -> (plan: DownloadPlan)
    ensures
        plan.verdicts@.len() == config.lists@.len(),
        forall|i: int|
            0 <= i < config.lists@.len() ==> #[trigger] plan.verdicts@[i] == download_verdict_at(
                config,
                probes@,
                i,
            ),
        plan.cached_lists@ == download_cached(config, probes@),
{
    let mut verdicts: Vec<DownloadVerdict> = Vec::new();
    let mut cached_lists = CachedSet::new();
    let mut i: usize = 0;
    while i < config.lists.len()
        invariant
            i <= config.lists.len(),
            verdicts@.len() == i,
            forall|j: int|
                0 <= j < i ==> #[trigger] verdicts@[j] == download_verdict_at(config, probes@, j),
            forall|id: Seq<char>|
                cached_lists@.contains(id) <==> exists|j: int|
                    0 <= j < i && (#[trigger] config.lists@[j]).id@ == id && download_verdict_at(
                        config,
                        probes@,
                        j,
                    ) is Unchanged,
        decreases config.lists.len() - i,
    {
        let list = &config.lists[i];
        let probe = if i < probes.len() {
            probes[i]
        } else {
            DownloadProbe { local_len: None, remote_len: None }
        };
        let verdict = decide_download(source_is_url(list), &probe);
        let ghost before = cached_lists@;
        match verdict {
            DownloadVerdict::Unchanged => {
                cached_lists.insert(list.id.clone());
            },
            _ => {},
        }
        verdicts.push(verdict);
        proof {
            assert forall|id: Seq<char>|
                cached_lists@.contains(id) <==> exists|j: int|
                    0 <= j < i + 1 && (#[trigger] config.lists@[j]).id@ == id
                        && download_verdict_at(config, probes@, j) is Unchanged by {
                if before.contains(id) {
                    let j = choose|j: int|
                        0 <= j < i && (#[trigger] config.lists@[j]).id@ == id
                            && download_verdict_at(config, probes@, j) is Unchanged;
                    assert(0 <= j < i + 1);
                }
                if verdict is Unchanged && id == list.id@ {
                    assert(config.lists@[i as int].id@ == id);
                }
            }
        }
        i += 1;
    }
    assert(cached_lists@ =~= download_cached(config, probes@));
    DownloadPlan { verdicts, cached_lists }
}

} // verus!
