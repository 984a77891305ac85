//! Byte strings and text: the order in which lines are sorted, UTF-8
//! decoding and the trimming of white space.

use vstd::prelude::*;
use vstd::slice::slice_to_vec;
use vstd::string::StringSliceAdditionalSpecFns;
use vstd::utf8::*;

verus! {

/// The line feed that ends every line.
pub const LF: u8 = 10;

/// The byte strings of a vector.
pub open spec fn lines_view(v: Seq<Vec<u8>>) -> Seq<Seq<u8>> {
    Seq::new(v.len(), |i: int| v[i]@)
}

/// Strict lexicographic order on byte strings: the order of the first byte in
/// which the two differ, a proper prefix coming before what it is a prefix of.
pub open spec fn lex_lt(a: Seq<u8>, b: Seq<u8>) -> bool
    decreases a.len(),
{
    if b.len() == 0 {
        false
    } else if a.len() == 0 {
        true
    } else if a[0] != b[0] {
        a[0] < b[0]
    } else {
        lex_lt(a.drop_first(), b.drop_first())
    }
}

/// No byte string comes before itself.
pub proof fn lemma_lex_lt_irreflexive(a: Seq<u8>)
    ensures
        !lex_lt(a, a),
    decreases a.len(),
{
    if a.len() > 0 {
        lemma_lex_lt_irreflexive(a.drop_first());
    }
}

/// Of two different byte strings exactly one comes before the other.
pub proof fn lemma_lex_lt_total(a: Seq<u8>, b: Seq<u8>)
    ensures
        a != b ==> (lex_lt(a, b) <==> !lex_lt(b, a)),
        a == b ==> !lex_lt(a, b) && !lex_lt(b, a),
    decreases a.len(),
{
    if a == b {
        lemma_lex_lt_irreflexive(a);
    } else if a.len() > 0 && b.len() > 0 && a[0] == b[0] {
        assert(a.drop_first() != b.drop_first()) by {
            if a.drop_first() == b.drop_first() {
                assert(a =~= seq![a[0]] + a.drop_first());
                assert(b =~= seq![b[0]] + b.drop_first());
            }
        }
        lemma_lex_lt_total(a.drop_first(), b.drop_first());
    } else if a.len() == 0 {
        assert(b.len() > 0) by {
            if b.len() == 0 {
                assert(a =~= b);
            }
        }
    }
}

/// The order is transitive.
pub proof fn lemma_lex_lt_transitive(a: Seq<u8>, b: Seq<u8>, c: Seq<u8>)
    requires
        lex_lt(a, b),
        lex_lt(b, c),
    ensures
        lex_lt(a, c),
    decreases a.len(),
{
    if a.len() > 0 && a[0] == b[0] && b[0] == c[0] {
        lemma_lex_lt_transitive(a.drop_first(), b.drop_first(), c.drop_first());
    }
}

/// Two byte strings that agree on their first `n` bytes compare as what
/// follows those bytes does.
pub proof fn lemma_lex_lt_common_prefix(a: Seq<u8>, b: Seq<u8>, n: int)
    requires
        0 <= n <= a.len(),
        n <= b.len(),
        forall|j: int| 0 <= j < n ==> a[j] == b[j],
    ensures
        lex_lt(a, b) == lex_lt(a.skip(n), b.skip(n)),
    decreases n,
{
    if n == 0 {
        assert(a.skip(0) =~= a);
        assert(b.skip(0) =~= b);
    } else {
        let a1 = a.drop_first();
        let b1 = b.drop_first();
        assert forall|j: int| 0 <= j < n - 1 implies a1[j] == b1[j] by {
            assert(a1[j] == a[j + 1]);
            assert(b1[j] == b[j + 1]);
        }
        lemma_lex_lt_common_prefix(a1, b1, n - 1);
        assert(a1.skip(n - 1) =~= a.skip(n));
        assert(b1.skip(n - 1) =~= b.skip(n));
    }
}

/// How one byte string stands to another in the lexicographic order.
#[derive(Debug, Clone, Copy, PartialEq, Eq, Structural)]
pub enum ByteOrder {
    /// The first comes before the second.
    Before,
    /// The two are the same bytes.
    Same,
    /// The first comes after the second.
    After,
}

/// Compares two byte strings lexicographically.
pub fn compare_bytes(a: &Vec<u8>, b: &Vec<u8>) -> (order: ByteOrder)
    ensures
        order == ByteOrder::Before <==> lex_lt(a@, b@),
        order == ByteOrder::Same <==> a@ == b@,
        order == ByteOrder::After <==> lex_lt(b@, a@),
{
    let mut i: usize = 0;
    while i < a.len() && i < b.len()
        invariant
            i <= a.len(),
            i <= b.len(),
            forall|j: int| 0 <= j < i ==> a@[j] == b@[j],
        decreases a.len() - i,
    {
        if a[i] != b[i] {
            proof {
                lemma_lex_lt_common_prefix(a@, b@, i as int);
                lemma_lex_lt_common_prefix(b@, a@, i as int);
                lemma_lex_lt_total(a@, b@);
            }
            if a[i] < b[i] {
                return ByteOrder::Before;
            } else {
                return ByteOrder::After;
            }
        }
        i += 1;
    }
    proof {
        lemma_lex_lt_common_prefix(a@, b@, i as int);
        lemma_lex_lt_common_prefix(b@, a@, i as int);
        lemma_lex_lt_total(a@, b@);
        if a.len() == b.len() {
            assert(a@ =~= b@);
        }
    }
    if a.len() < b.len() {
        ByteOrder::Before
    } else if a.len() == b.len() {
        ByteOrder::Same
    } else {
        ByteOrder::After
    }
}

/// What `char::is_whitespace` returns: whether a character has the Unicode
/// property `White_Space`. This is the white space that `str::trim` removes.
pub uninterp spec fn is_white_space(c: char) -> bool;

/// `s` without the white space at its start.
pub open spec fn trim_start_spec(s: Seq<char>) -> Seq<char>
    decreases s.len(),
{
    if s.len() > 0 && is_white_space(s[0]) {
        trim_start_spec(s.drop_first())
    } else {
        s
    }
}

/// `s` without the white space at its end.
pub open spec fn trim_end_spec(s: Seq<char>) -> Seq<char>
    decreases s.len(),
{
    if s.len() > 0 && is_white_space(s.last()) {
        trim_end_spec(s.drop_last())
    } else {
        s
    }
}

/// `s` without the white space at its start and at its end.
pub open spec fn trim_spec(s: Seq<char>) -> Seq<char> {
    trim_end_spec(trim_start_spec(s))
}

/// `std::str::Utf8Error`, the error of `std::str::from_utf8`. Nothing is
/// said of what it holds.
#[verifier::external_type_specification]
#[verifier::external_body]
pub struct ExUtf8Error(std::str::Utf8Error);

/// `std::str::from_utf8`: the bytes are taken as a string slice exactly when
/// they are well-formed UTF-8, and the slice is then made of these very bytes.
#[verifier::external_body]
pub(crate) fn str_from_utf8(bytes: &[u8]) -> (r: Result<&str, std::str::Utf8Error>)
    ensures
        r is Ok <==> valid_utf8(bytes@),
        r matches Ok(s) ==> encode_utf8(s@) == bytes@,
{
    std::str::from_utf8(bytes)
}

/// What is left when white space is trimmed off the end is the start of the
/// string, and does not end in white space.
pub proof fn lemma_trim_end_spec(s: Seq<char>)
    ensures
        trim_end_spec(s).len() <= s.len(),
        trim_end_spec(s) == s.take(trim_end_spec(s).len() as int),
        trim_end_spec(s).len() > 0 ==> !is_white_space(trim_end_spec(s).last()),
    decreases s.len(),
{
    if s.len() > 0 && is_white_space(s.last()) {
        lemma_trim_end_spec(s.drop_last());
        let n = trim_end_spec(s).len() as int;
        assert(s.drop_last().take(n) =~= s.take(n));
    } else {
        assert(s.take(s.len() as int) =~= s);
    }
}

/// What is left when white space is trimmed off the start does not start
/// with white space.
pub proof fn lemma_trim_start_spec(s: Seq<char>)
    ensures
        trim_start_spec(s).len() > 0 ==> !is_white_space(trim_start_spec(s)[0]),
    decreases s.len(),
{
    if s.len() > 0 && is_white_space(s[0]) {
        lemma_trim_start_spec(s.drop_first());
    }
}

/// A trimmed string neither starts nor ends with white space.
pub proof fn lemma_trim_spec(s: Seq<char>)
    ensures
        trim_spec(s).len() > 0 ==> !is_white_space(trim_spec(s)[0]) && !is_white_space(
            trim_spec(s).last(),
        ),
{
    lemma_trim_start_spec(s);
    lemma_trim_end_spec(trim_start_spec(s));
}

/// `str::trim`: the slice without its leading and trailing white space, where
/// white space is what `char::is_whitespace` accepts. What is left neither
/// starts nor ends with white space.
#[verifier::external_body]
pub(crate) fn str_trim(s: &str) -> (r: &str)
    ensures
        r@ == trim_spec(s@),
        r@.len() > 0 ==> !is_white_space(r@[0]) && !is_white_space(r@.last()),
{
    s.trim()
}

/// A string of at least one character is encoded by at least one byte.
pub proof fn lemma_encode_utf8_nonempty(chars: Seq<char>)
    ensures
        encode_utf8(chars).len() == 0 <==> chars.len() == 0,
{
    if chars.len() > 0 {
        assert(encode_scalar(chars[0] as u32).len() > 0);
    }
}

/// The bytes of a string slice, copied.
pub(crate) fn str_bytes(s: &str) -> (bytes: Vec<u8>)
    ensures
        bytes@ == encode_utf8(s@),
{
    slice_to_vec(s.as_bytes())
}

/// A copy of the bytes.
pub fn copy_bytes(bytes: &Vec<u8>) -> (copy: Vec<u8>)
    ensures
        copy@ == bytes@,
{
    slice_to_vec(bytes.as_slice())
}

/// Appends the bytes of `tail` to `out`.
pub fn append_bytes(out: &mut Vec<u8>, tail: &Vec<u8>)
    ensures
        final(out)@ == old(out)@ + tail@,
{
    let mut i: usize = 0;
    while i < tail.len()
        invariant
            i <= tail.len(),
            out@ == old(out)@ + tail@.subrange(0, i as int),
        decreases tail.len() - i,
    {
        out.push(tail[i]);
        i += 1;
        assert(out@ =~= old(out)@ + tail@.subrange(0, i as int));
    }
    assert(tail@.subrange(0, tail.len() as int) =~= tail@);
}

} // verus!
