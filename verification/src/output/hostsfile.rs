//! The hosts file format: one line `0.0.0.0 <domain>` for each domain.

use vstd::prelude::*;
use vstd::utf8::*;
use crate::output::{document, OutputType, Skipped, Step};
use crate::stages::categorize::{normalize_line, normalized, Line};
use crate::text::{append_bytes, lines_view, LF};

verus! {

/// The bytes of `0.0.0.0 `, the address that every domain is sent to and the
/// space behind it.
pub open spec fn prefix_spec() -> Seq<u8> {
    seq![0x30u8, 0x2e, 0x30, 0x2e, 0x30, 0x2e, 0x30, 0x20]
}

/// What a chunk becomes in a hosts file: where its trimmed text `X` is not
/// empty, the line `0.0.0.0 X` with its line feed; otherwise nothing.
pub open spec fn entry_spec(chunk: Seq<u8>) -> Seq<u8> {
    match normalized(chunk) {
        Some(domain) => prefix_spec() + domain + seq![LF],
        None => Seq::empty(),
    }
}

/// The bytes of `0.0.0.0 `.
pub fn prefix() -> (bytes: Vec<u8>)
    ensures
        bytes@ == prefix_spec(),
{
    let bytes: Vec<u8> = vec![0x30u8, 0x2e, 0x30, 0x2e, 0x30, 0x2e, 0x30, 0x20];
    assert(bytes@ =~= prefix_spec());
    bytes
}

/// Formats one chunk of a category file.
pub fn entry(chunk: &Vec<u8>) -> (step: Step)
    ensures
        match step {
            Step::Write(bytes) => bytes@ == entry_spec(chunk@) && bytes@.len() > 0,
            Step::Skip(Skipped::Undecodable) => !valid_utf8(chunk@) && entry_spec(chunk@)
                == Seq::<u8>::empty(),
            Step::Skip(Skipped::Blank) => valid_utf8(chunk@) && entry_spec(chunk@) == Seq::<
                u8,
            >::empty(),
            _ => false,
        },
{
    match normalize_line(chunk) {
        Line::Undecodable => Step::Skip(Skipped::Undecodable),
        Line::Blank => Step::Skip(Skipped::Blank),
        Line::Text(domain) => {
            let mut bytes = prefix();
            append_bytes(&mut bytes, &domain);
            bytes.push(LF);
            Step::Write(bytes)
        },
    }
}

/// The hosts file of a category whose file holds these chunks: for each
/// chunk whose trimmed text `X` is not empty the line `0.0.0.0 X`, in the
/// order of the chunks, and nothing else.
pub fn hostsfile_adapter(chunks: &Vec<Vec<u8>>) -> (out: Vec<u8>)
    ensures
        out@ == document(OutputType::Hostsfile, lines_view(chunks@)),
{
    OutputType::Hostsfile.render(chunks)
}

} // verus!
