//! Fourth stage: each category list is written in the output format, unless
//! the category was left unchanged and its output file is still there.

use vstd::prelude::*;
use crate::cache::CachedSet;
use crate::config::Config;
use crate::filter_list::strings_view;

verus! {

/// What is known of a tag before its output is written.
#[derive(Debug, Clone, Copy)]
pub struct OutputProbe {
    /// Whether the category's file is there.
    pub category_exists: bool,
    /// Whether the output file of an earlier run is there and can be opened.
    pub output_exists: bool,
}

/// What the output stage does with a tag.
#[derive(Debug, Clone, Copy, PartialEq, Eq, Structural)]
pub enum OutputVerdict {
    /// There is no category file to read. The tag is left out, which the
    /// caller may want to log; the other tags go on.
    Missing,
    /// The category is cached and its output file is there: nothing is done.
    Unchanged,
    /// The category file is written anew in the output format.
    Emit,
}

/// What the output stage does with a tag that is or is not noted as cached,
/// given what is known of its files.
pub open spec fn output_verdict(cached: bool, probe: OutputProbe) -> OutputVerdict {
    if !probe.category_exists {
        OutputVerdict::Missing
    } else if cached && probe.output_exists {
        OutputVerdict::Unchanged
    } else {
        OutputVerdict::Emit
    }
}

/// Decides what the output stage does with a tag.
pub fn decide_output(cached: bool, probe: &OutputProbe) -> (verdict: OutputVerdict)
    ensures
        verdict == output_verdict(cached, *probe),
{
    if !probe.category_exists {
        OutputVerdict::Missing
    } else if cached && probe.output_exists {
        OutputVerdict::Unchanged
    } else {
        OutputVerdict::Emit
    }
}

/// The probe of the tag at position `k`. A tag without a probe is taken to
/// have no files.
pub open spec fn output_probe_at(probes: Seq<OutputProbe>, k: int) -> OutputProbe {
    if 0 <= k < probes.len() {
        probes[k]
    } else {
        OutputProbe { category_exists: false, output_exists: false }
    }
}

/// What the output stage does with the tag at position `k`.
pub open spec fn output_verdict_at(
    config: &Config,
    cached_tags: Set<Seq<char>>,
    probes: Seq<OutputProbe>,
    k: int,
) -> OutputVerdict {
    output_verdict(cached_tags.contains(config.tags()[k]), output_probe_at(probes, k))
}

/// What the output stage does with each tag.
pub struct OutputPlan {
    /// The tags of the configuration, each once, in the order of their first
    /// occurrence.
    pub tags: Vec<String>,
    /// The verdict on each tag, in the order of `tags`.
    pub verdicts: Vec<OutputVerdict>,
}

/// Plans the output stage: `cached_tags` is what the categorize stage handed
/// on, and `probes` holds what is known of each tag's files, in the order of
/// `Config::get_tags`.
pub fn plan_output(config: &Config, cached_tags: &CachedSet, probes: &Vec<OutputProbe>) -> (plan:
    OutputPlan)
    ensures
        strings_view(plan.tags@) == config.tags(),
        plan.verdicts@.len() == config.tags().len(),
        forall|k: int|
            0 <= k < config.tags().len() ==> #[trigger] plan.verdicts@[k] == output_verdict_at(
                config,
                cached_tags@,
                probes@,
                k,
            ),
{
    let tags = config.get_tags();
    let mut verdicts: Vec<OutputVerdict> = Vec::new();
    let mut k: usize = 0;
    while k < tags.len()
        invariant
            k <= tags.len(),
            strings_view(tags@) == config.tags(),
            verdicts@.len() == k,
            forall|j: int|
                0 <= j < k ==> #[trigger] verdicts@[j] == output_verdict_at(
                    config,
                    cached_tags@,
                    probes@,
                    j,
                ),
        decreases tags.len() - k,
    {
        assert(tags@[k as int]@ == config.tags()[k as int]) by {
            assert(strings_view(tags@)[k as int] == tags@[k as int]@);
        }
        let probe = if k < probes.len() {
            probes[k]
        } else {
            OutputProbe { category_exists: false, output_exists: false }
        };
        verdicts.push(decide_output(cached_tags.contains(tags[k].as_str()), &probe));
        k += 1;
    }
    OutputPlan { tags, verdicts }
}

} // verus!
