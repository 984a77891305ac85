//! Sources that are fetched over HTTP.

use reqwest::Url;
use vstd::prelude::*;
use crate::filter_list::FilterList;

verus! {

/// What `Url::parse` accepts: whether a string can be read as an absolute
/// URL.
pub uninterp spec fn url_parses(source: Seq<char>) -> bool;

/// `Url::parse`: whether it accepts the string. This is taken to depend on
/// the string alone.
#[verifier::external_body]
fn url_parse_accepts(source: &str) -> (accepted: bool)
    ensures
        accepted == url_parses(source@),
{
    Url::parse(source).is_ok()
}

/// Whether the list's source can be fetched: whether it is an absolute URL.
pub fn source_is_url(list: &FilterList) -> (ok: bool)
    ensures
        ok == url_parses(list.source@),
{
    url_parse_accepts(list.source.as_str())
}

/// Whether a response with this status code carries the list: codes from 200
/// to 299 do, every other code is a failure.
pub fn status_is_success(status: u16) -> (ok: bool)
    ensures
        ok == (200 <= status < 300),
{
    200 <= status && status < 300
}

/// The length of a source as a response to a `HEAD` request states it: known
/// only where the status is a success and the response gives a content
/// length.
pub fn remote_length(status: u16, content_length: Option<u64>) -> (len: Option<u64>)
    ensures
        len == if 200 <= status < 300 {
            content_length
        } else {
            None::<u64>
        },
{
    if status_is_success(status) {
        content_length
    } else {
        None
    }
}

} // verus!
