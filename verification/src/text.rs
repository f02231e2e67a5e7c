//! Text as it appears on the wire: UTF-8 bytes.
use vstd::prelude::*;
use vstd::slice::slice_subrange;
use vstd::slice::slice_to_vec;
use vstd::utf8::decode_utf8;
use vstd::utf8::encode_utf8;
use vstd::utf8::encode_utf8_decode_utf8;
use vstd::utf8::encode_utf8_valid_utf8;
use vstd::utf8::is_ascii_chars;
use vstd::utf8::is_ascii_chars_encode_utf8;
use vstd::utf8::valid_utf8;

verus! {

/// `String::from_utf8` of the standard library: the bytes become a string
/// exactly when they are valid UTF-8, and the string then encodes to the
/// same bytes.
#[verifier::external_body]
pub(crate) fn string_from_utf8(bytes: Vec<u8>) -> (r: Option<String>)
    ensures
        r is Some <==> valid_utf8(bytes@),
        r matches Some(s) ==> encode_utf8(s@) == bytes@,
{
    match String::from_utf8(bytes) {
        Ok(s) => Some(s),
        Err(_) => None,
    }
}

/// The text of an optional string.
pub open spec fn text_of(s: Option<String>) -> Option<Seq<char>> {
    match s {
        Some(t) => Some(t@),
        None => None,
    }
}

/// Two texts with the same UTF-8 bytes are the same text.
pub proof fn lemma_encode_injective(a: Seq<char>, b: Seq<char>)
    requires
        encode_utf8(a) == encode_utf8(b),
    ensures
        a == b,
{
    encode_utf8_decode_utf8(a);
    encode_utf8_decode_utf8(b);
}

/// The number of bytes that the UTF-8 encoding of `s` takes.
pub fn byte_len(s: &str) -> (n: usize)
    ensures
        n == encode_utf8(s@).len(),
{
    s.as_bytes().len()
}

/// Whether two strings hold the same text.
pub fn text_eq(a: &str, b: &str) -> (r: bool)
    ensures
        r == (a@ == b@),
{
    let x = a.as_bytes();
    let y = b.as_bytes();
    if x.len() != y.len() {
        return false;
    }
    let mut i: usize = 0;
    while i < x.len()
        invariant
            i <= x.len(),
            x.len() == y.len(),
            x@ == encode_utf8(a@),
            y@ == encode_utf8(b@),
            forall|j: int| 0 <= j < i ==> x@[j] == y@[j],
        decreases x.len() - i,
    {
        if x[i] != y[i] {
            return false;
        }
        i = i + 1;
    }
    proof {
        assert(x@ =~= y@);
        lemma_encode_injective(a@, b@);
    }
    true
}

/// The text held by the bytes of `input` from `start` to `end`, if they are
/// valid UTF-8.
pub fn text_from_range(input: &Vec<u8>, start: usize, end: usize) -> (r: Option<String>)
    requires
        start <= end <= input.len(),
    ensures
        r is Some <==> valid_utf8(input@.subrange(start as int, end as int)),
        r matches Some(s) ==> s@ == decode_utf8(input@.subrange(start as int, end as int)),
{
    let bytes = slice_to_vec(slice_subrange(input.as_slice(), start, end));
    let r = string_from_utf8(bytes);
    proof {
        if r is Some {
            encode_utf8_decode_utf8(r->Some_0@);
        }
    }
    r
}

/// The string whose UTF-8 bytes are the ASCII bytes `bytes`.
pub fn ascii_string(bytes: Vec<u8>) -> (r: String)
    requires
        forall|i: int| 0 <= i < bytes@.len() ==> (#[trigger] bytes@[i]) < 128,
    ensures
        encode_utf8(r@) == bytes@,
{
    proof {
        let chars = Seq::new(bytes@.len(), |i: int| bytes@[i] as char);
        assert(is_ascii_chars(chars));
        is_ascii_chars_encode_utf8(chars);
        assert(encode_utf8(chars) =~= bytes@);
        encode_utf8_valid_utf8(chars);
    }
    match string_from_utf8(bytes) {
        Some(s) => s,
        None => String::new(),
    }
}

} // verus!
