//! The Lua module format: a table of the domains, returned by the module.

use vstd::prelude::*;
use vstd::utf8::*;
use crate::output::{document, OutputType, Skipped, Step};
use crate::text::{append_bytes, lines_view, str_bytes, str_from_utf8, str_trim, trim_spec};

verus! {

/// The bytes of `return {` and a line feed, which open the table.
pub open spec fn header_spec() -> Seq<u8> {
    seq![0x72u8, 0x65, 0x74, 0x75, 0x72, 0x6e, 0x20, 0x7b, 0x0a]
}

/// The byte of `}`, which closes the table.
pub open spec fn footer_spec() -> Seq<u8> {
    seq![0x7du8]
}

/// The bytes of two spaces and a quotation mark, which stand before a domain.
pub open spec fn open_spec() -> Seq<u8> {
    seq![0x20u8, 0x20, 0x22]
}

/// The bytes of a quotation mark, a comma and a line feed, which stand behind
/// a domain.
pub open spec fn close_spec() -> Seq<u8> {
    seq![0x22u8, 0x2c, 0x0a]
}

/// What a chunk becomes in a Lua module: its trimmed text `X` as the line
/// `  "X",` with its line feed. A chunk that is not UTF-8 becomes nothing.
pub open spec fn entry_spec(chunk: Seq<u8>) -> Seq<u8> {
    if valid_utf8(chunk) {
        open_spec() + encode_utf8(trim_spec(decode_utf8(chunk))) + close_spec()
    } else {
        Seq::empty()
    }
}

/// The bytes that open the table.
pub fn header() -> (bytes: Vec<u8>)
    ensures
        bytes@ == header_spec(),
{
    let bytes: Vec<u8> = vec![0x72u8, 0x65, 0x74, 0x75, 0x72, 0x6e, 0x20, 0x7b, 0x0a];
    assert(bytes@ =~= header_spec());
    bytes
}

/// The byte that closes the table.
pub fn footer() -> (bytes: Vec<u8>)
    ensures
        bytes@ == footer_spec(),
{
    let bytes: Vec<u8> = vec![0x7du8];
    assert(bytes@ =~= footer_spec());
    bytes
}

/// Formats one chunk of a category file.
pub fn entry(chunk: &Vec<u8>) -> (step: Step)
    ensures
        match step {
            Step::Write(bytes) => valid_utf8(chunk@) && bytes@ == entry_spec(chunk@) && bytes@.len()
                > 0,
            Step::Skip(Skipped::Undecodable) => !valid_utf8(chunk@) && entry_spec(chunk@)
                == Seq::<u8>::empty(),
            _ => false,
        },
{
    broadcast use encode_utf8_decode_utf8;

    match str_from_utf8(chunk.as_slice()) {
        Err(_) => Step::Skip(Skipped::Undecodable),
        Ok(text) => {
            let domain = str_bytes(str_trim(text));
            let mut bytes: Vec<u8> = vec![0x20u8, 0x20, 0x22];
            assert(bytes@ =~= open_spec());
            append_bytes(&mut bytes, &domain);
            let tail: Vec<u8> = vec![0x22u8, 0x2c, 0x0a];
            assert(tail@ =~= close_spec());
            append_bytes(&mut bytes, &tail);
            Step::Write(bytes)
        },
    }
}

/// The Lua module of a category whose file holds these chunks: `return {`,
/// then for each chunk that is UTF-8 its trimmed text `X` as the line
/// `  "X",`, in the order of the chunks, then `}`.
pub fn lua_adapter(chunks: &Vec<Vec<u8>>) -> (out: Vec<u8>)
    ensures
        out@ == document(OutputType::Lua, lines_view(chunks@)),
{
    OutputType::Lua.render(chunks)
}

} // verus!
