//! Second stage: each line of a fetched list is reduced to the token that
//! the list's regular expression captures.

use regex::Regex;
use vstd::prelude::*;
use vstd::slice::slice_subrange;
use vstd::string::StringExecFns;
use vstd::utf8::*;
use crate::cache::CachedSet;
use crate::config::Config;
use crate::filter_controller::{
    fails_among, written, Transform, TransformError, TransformErrorView, Transformed,
};
use crate::filter_list::FilterList;
use crate::input::file::joined;
use crate::io::filter_list_io::InputFile;
use crate::text::{str_bytes, str_from_utf8, LF};

verus! {

/// What the regular expression `pattern` captures in `line`: what
/// `Regex::new` makes of the pattern and what `Regex::captures` then finds
/// in the line.
///
/// `Err` holds the reason for which the pattern is refused. `Ok(None)` says
/// that the expression does not match the line, or matches it without its
/// first group taking part. `Ok(Some(text))` holds what the first group
/// captured in the leftmost match.
pub uninterp spec fn regex_capture(pattern: Seq<char>, line: Seq<char>) -> Result<
    Option<Seq<char>>,
    Seq<char>,
>;

/// The characters of what a search returned.
pub open spec fn capture_view(found: Result<Option<String>, String>) -> Result<
    Option<Seq<char>>,
    Seq<char>,
> {
    match found {
        Ok(Some(text)) => Ok(Some(text@)),
        Ok(None) => Ok(None),
        Err(reason) => Err(reason@),
    }
}

/// `Regex::new`, then `Regex::captures` and `Captures::get` for group 1 on
/// the expression it returns. The result is taken to depend on the pattern
/// and the line alone. An error of `Regex::new` comes back as the text that
/// its `Display` writes.
#[verifier::external_body]
fn capture_first_group(pattern: &str, line: &str) -> (found: Result<Option<String>, String>)
    ensures
        capture_view(found) == regex_capture(pattern@, line@),
{
    match Regex::new(pattern) {
        Ok(re) => Ok(re.captures(line).and_then(|caps| caps.get(1)).map(|m| m.as_str().to_owned())),
        Err(e) => Err(e.to_string()),
    }
}

/// The diagnostic for a list whose regular expression is refused:
/// `List <id> - <reason>`.
pub open spec fn diagnostic(id: Seq<char>, reason: Seq<char>) -> Seq<char> {
    "List "@ + id + " - "@ + reason
}

/// What is written for a line in which a search found `found`: the captured
/// text and a line feed, nothing where nothing was captured, and the failure
/// of the task where the expression was refused.
pub open spec fn token_line_spec(id: Seq<char>, found: Result<Option<Seq<char>>, Seq<char>>) -> Result<
    Option<Seq<u8>>,
    TransformErrorView,
> {
    match found {
        Ok(Some(text)) => Ok(Some(encode_utf8(text) + seq![LF])),
        Ok(None) => Ok(None),
        Err(reason) => Err(TransformErrorView::Regex(diagnostic(id, reason))),
    }
}

/// The line that a chunk holds: the chunk without the line feed that ends it,
/// if one does.
pub open spec fn unterminated(chunk: Seq<u8>) -> Seq<u8> {
    if chunk.len() > 0 && chunk.last() == LF {
        chunk.drop_last()
    } else {
        chunk
    }
}

/// What the extract stage makes of a chunk of a list.
pub open spec fn regex_match_spec(list: &FilterList, chunk: Seq<u8>) -> Result<
    Option<Seq<u8>>,
    TransformErrorView,
> {
    if !valid_utf8(unterminated(chunk)) {
        Err(TransformErrorView::InvalidUtf8)
    } else {
        token_line_spec(list.id@, regex_capture(list.regex@, decode_utf8(unterminated(chunk))))
    }
}

/// The line that a chunk holds.
pub fn line_of(chunk: &Vec<u8>) -> (line: &[u8])
    ensures
        line@ == unterminated(chunk@),
{
    let n = chunk.len();
    if n > 0 && chunk[n - 1] == LF {
        let line = slice_subrange(chunk.as_slice(), 0, n - 1);
        assert(line@ =~= chunk@.drop_last());
        line
    } else {
        chunk.as_slice()
    }
}

/// A transform's result as contracts speak of it: its bytes as a sequence,
/// its failure with the diagnostic as characters.
pub open spec fn result_view(r: Result<Option<Vec<u8>>, TransformError>) -> Result<
    Option<Seq<u8>>,
    TransformErrorView,
> {
    match r {
        Ok(Some(bytes)) => Ok(Some(bytes@)),
        Ok(None) => Ok(None),
        Err(e) => Err(e@),
    }
}

/// Turns what a search found in a line of the list `list` into what is
/// written for that line.
pub fn token_line(list: &FilterList, found: Result<Option<String>, String>) -> (r: Result<
    Option<Vec<u8>>,
    TransformError,
>)
    ensures
        result_view(r) == token_line_spec(list.id@, capture_view(found)),
{
    match found {
        Ok(Some(text)) => {
            let mut bytes = str_bytes(text.as_str());
            bytes.push(LF);
            assert(bytes@ =~= encode_utf8(text@) + seq![LF]);
            Ok(Some(bytes))
        },
        Ok(None) => Ok(None),
        Err(reason) => {
            let mut message = String::from_str("List ");
            message.append(list.id.as_str());
            message.append(" - ");
            message.append(reason.as_str());
            Err(TransformError::Regex(message))
        },
    }
}

/// The transform of the extract stage. The line that the chunk holds is
/// decoded as UTF-8 and searched with the list's regular expression; what the
/// first group captures is written, followed by a line feed. A line that the
/// expression does not match yields nothing. A line that is not UTF-8, or an
/// expression that is refused, is a failure.
///
/// The line feed that ends the chunk is no part of the line, so that `$`
/// matches at the end of the line's text.
pub fn regex_match(list: &FilterList, chunk: Option<Vec<u8>>) -> (r: Result<
    Option<Vec<u8>>,
    TransformError,
>)
    ensures
        match chunk {
            None => r matches Ok(None),
            Some(c) => result_view(r) == regex_match_spec(list, c@),
        },
{
    broadcast use encode_utf8_decode_utf8;

    match chunk {
        None => Ok(None),
        Some(bytes) => match str_from_utf8(line_of(&bytes)) {
            Err(_) => Err(TransformError::InvalidUtf8),
            Ok(line) => token_line(list, capture_first_group(list.regex.as_str(), line)),
        },
    }
}

/// The transform of the extract stage, for the engine.
#[derive(Debug, Clone, Copy)]
pub struct RegexMatch;

impl Transform for RegexMatch {
    open spec fn transformed(&self, list: &FilterList, chunk: Seq<u8>) -> Transformed {
        match regex_match_spec(list, chunk) {
            Ok(Some(bytes)) => Transformed::Emit(bytes),
            Ok(None) => Transformed::Skip,
            Err(error) => Transformed::Fail(error),
        }
    }

    fn apply(&self, list: &FilterList, chunk: Option<Vec<u8>>) -> (r: Result<
        Option<Vec<u8>>,
        TransformError,
    >) {
        regex_match(list, chunk)
    }
}

/// What is known of a list before its tokens are extracted.
#[derive(Debug, Clone, Copy)]
pub struct ExtractProbe {
    /// What is found of the file that the download stage wrote.
    pub download: InputFile,
    /// Whether the file that an earlier run extracted is there and can be
    /// opened.
    pub extract_exists: bool,
}

/// What the extract stage does with a list.
#[derive(Debug, Clone, Copy, PartialEq, Eq, Structural)]
pub enum ExtractVerdict {
    /// The list is cached and both of its files are there: nothing is done.
    Unchanged,
    /// The tokens are extracted from the downloaded file into a new file.
    Update,
    /// The downloaded file holds nothing to read: the new file stays empty.
    Truncate,
    /// There is no downloaded file. The list is left out, which the caller
    /// may want to log; the other lists go on.
    Missing,
}

/// What the extract stage does with a list that is or is not noted as
/// cached, given what is known of its files.
pub open spec fn extract_verdict(cached: bool, probe: ExtractProbe) -> ExtractVerdict {
    if cached && probe.download != InputFile::Missing && probe.extract_exists {
        ExtractVerdict::Unchanged
    } else {
        match probe.download {
            InputFile::Missing => ExtractVerdict::Missing,
            InputFile::Empty => ExtractVerdict::Truncate,
            InputFile::Ready => ExtractVerdict::Update,
        }
    }
}

/// Decides what the extract stage does with a list.
pub fn decide_extract(cached: bool, probe: &ExtractProbe) -> (verdict: ExtractVerdict)
    ensures
        verdict == extract_verdict(cached, *probe),
{
    let present = match probe.download {
        InputFile::Missing => false,
        _ => true,
    };
    if cached && present && probe.extract_exists {
        ExtractVerdict::Unchanged
    } else {
        match probe.download {
            InputFile::Missing => ExtractVerdict::Missing,
            InputFile::Empty => ExtractVerdict::Truncate,
            InputFile::Ready => ExtractVerdict::Update,
        }
    }
}

/// The probe of the list at position `i`. A list without a probe is taken to
/// have no files.
pub open spec fn extract_probe_at(probes: Seq<ExtractProbe>, i: int) -> ExtractProbe {
    if 0 <= i < probes.len() {
        probes[i]
    } else {
        ExtractProbe { download: InputFile::Missing, extract_exists: false }
    }
}

/// The cached ids once the first `n` lists are judged, one after the other:
/// the id of every list that is not left unchanged is taken out.
pub open spec fn extract_cached(
    config: &Config,
    probes: Seq<ExtractProbe>,
    cached: Set<Seq<char>>,
    n: int,
) -> Set<Seq<char>>
    decreases n,
{
    if n <= 0 {
        cached
    } else {
        let before = extract_cached(config, probes, cached, n - 1);
        let id = config.lists@[n - 1].id@;
        if extract_verdict(before.contains(id), extract_probe_at(probes, n - 1)) is Unchanged {
            before
        } else {
            before.remove(id)
        }
    }
}

/// What the extract stage does with the list at position `i`.
pub open spec fn extract_verdict_at(
    config: &Config,
    probes: Seq<ExtractProbe>,
    cached: Set<Seq<char>>,
    i: int,
) -> ExtractVerdict {
    extract_verdict(
        extract_cached(config, probes, cached, i).contains(config.lists@[i].id@),
        extract_probe_at(probes, i),
    )
}

/// What the extract stage does with each list, and what it hands on.
pub struct ExtractPlan {
    /// The verdict on each list, in the order of the configuration.
    pub verdicts: Vec<ExtractVerdict>,
    /// The ids of the lists that are left unchanged.
    pub cached_lists: CachedSet,
}

/// Plans the extract stage: `cached_lists` is what the download stage handed
/// on, and `probes` holds what is known of each list's files, in the order of
/// the configuration.
pub fn plan_extract(config: &Config, cached_lists: CachedSet, probes: &Vec<ExtractProbe>) -> (plan:
    ExtractPlan)
    ensures
        plan.verdicts@.len() == config.lists@.len(),
        forall|i: int|
            0 <= i < config.lists@.len() ==> #[trigger] plan.verdicts@[i] == extract_verdict_at(
                config,
                probes@,
                cached_lists@,
                i,
            ),
        plan.cached_lists@ == extract_cached(
            config,
            probes@,
            cached_lists@,
            config.lists@.len() as int,
        ),
{
    let ghost start = cached_lists@;
    let mut cached = cached_lists;
    let mut verdicts: Vec<ExtractVerdict> = Vec::new();
    let mut i: usize = 0;
    while i < config.lists.len()
        invariant
            i <= config.lists.len(),
            verdicts@.len() == i,
            forall|j: int|
                0 <= j < i ==> #[trigger] verdicts@[j] == extract_verdict_at(
                    config,
                    probes@,
                    start,
                    j,
                ),
            cached@ == extract_cached(config, probes@, start, i as int),
        decreases config.lists.len() - i,
    {
        let list = &config.lists[i];
        let probe = if i < probes.len() {
            probes[i]
        } else {
            ExtractProbe { download: InputFile::Missing, extract_exists: false }
        };
        let verdict = decide_extract(cached.contains(list.id.as_str()), &probe);
        match verdict {
            ExtractVerdict::Unchanged => {},
            _ => {
                cached.remove(list.id.as_str());
            },
        }
        verdicts.push(verdict);
        i += 1;
    }
    ExtractPlan { verdicts, cached_lists: cached }
}

/// The extract stage never adds to what is cached.
pub proof fn lemma_extract_cached_shrinks(
    config: &Config,
    probes: Seq<ExtractProbe>,
    cached: Set<Seq<char>>,
    n: int,
)
    ensures
        extract_cached(config, probes, cached, n).subset_of(cached),
    decreases n,
{
    if n > 0 {
        lemma_extract_cached_shrinks(config, probes, cached, n - 1);
    }
}

/// The record that a chunk leaves in the extracted file: what the first group
/// of the list's expression captures in the chunk's line, followed by one
/// line feed. A chunk in which nothing is captured leaves no record.
pub open spec fn record_of(list: &FilterList, chunk: Seq<u8>) -> Option<Seq<u8>> {
    if valid_utf8(unterminated(chunk)) {
        match regex_capture(list.regex@, decode_utf8(unterminated(chunk))) {
            Ok(Some(text)) => Some(encode_utf8(text) + seq![LF]),
            _ => None,
        }
    } else {
        None
    }
}

/// What the extract stage wrote is made of captures: it is a row of records,
/// and each of them is the record of one of the chunks that were read.
pub proof fn lemma_extracted_records(list: &FilterList, chunks: Seq<Seq<u8>>) -> (records: Seq<
    Seq<u8>,
>)
    ensures
        joined(records) == written(&RegexMatch, list, chunks),
        forall|k: int|
            #![trigger records[k]]
            0 <= k < records.len() ==> exists|j: int|
                0 <= j < chunks.len() && record_of(list, #[trigger] chunks[j]) == Some(records[k]),
    decreases chunks.len(),
{
    if chunks.len() == 0 {
        Seq::empty()
    } else {
        let init = chunks.drop_last();
        let before = lemma_extracted_records(list, init);
        assert forall|k: int| #![trigger before[k]] 0 <= k < before.len() implies exists|j: int|
            0 <= j < chunks.len() && record_of(list, #[trigger] chunks[j]) == Some(before[k]) by {
            let j = choose|j: int|
                0 <= j < init.len() && record_of(list, #[trigger] init[j]) == Some(before[k]);
            assert(chunks[j] == init[j]);
        }
        if fails_among(&RegexMatch, list, init) {
            before
        } else {
            match regex_match_spec(list, chunks.last()) {
                Ok(Some(bytes)) => {
                    let records = before.push(bytes);
                    assert(records.drop_last() =~= before);
                    assert(chunks[chunks.len() - 1] == chunks.last());
                    assert forall|k: int|
                        #![trigger records[k]]
                        0 <= k < records.len() implies exists|j: int|
                        0 <= j < chunks.len() && record_of(list, #[trigger] chunks[j]) == Some(
                            records[k],
                        ) by {
                        if k < before.len() {
                            assert(records[k] == before[k]);
                        } else {
                            assert(record_of(list, chunks[chunks.len() - 1]) == Some(records[k]));
                        }
                    }
                    records
                },
                _ => {
                    assert(written(&RegexMatch, list, chunks) =~= written(
                        &RegexMatch,
                        list,
                        init,
                    ));
                    before
                },
            }
        }
    }
}

} // verus!
