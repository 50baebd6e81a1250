//! Reading a source map that a program carries inside it, as a comment whose
//! payload is the map in base64.

use vstd::prelude::*;
use vstd::slice::slice_subrange;
use vstd::string::StringSliceAdditionalSpecFns;

verus! {

/// Whether `needle` stands in `hay` at position `i`.
pub open spec fn occurs_at(hay: Seq<u8>, needle: Seq<u8>, i: int) -> bool {
    0 <= i && i + needle.len() <= hay.len() && hay.subrange(i, i + needle.len()) == needle
}

/// The last position below `n` at which `needle` stands in `hay`.
pub open spec fn last_occurrence_below(hay: Seq<u8>, needle: Seq<u8>, n: int) -> Option<int>
    decreases n,
{
    if n <= 0 {
        None
    } else if occurs_at(hay, needle, n - 1) {
        Some(n - 1)
    } else {
        last_occurrence_below(hay, needle, n - 1)
    }
}

/// The last position at which `needle` stands in `hay`.
pub open spec fn last_occurrence(hay: Seq<u8>, needle: Seq<u8>) -> Option<int> {
    last_occurrence_below(hay, needle, hay.len() as int + 1)
}

/// No occurrence begins where too little of `hay` is left for `needle`.
proof fn lemma_none_beyond(hay: Seq<u8>, needle: Seq<u8>, from: int, n: int)
    requires
        from + needle.len() > hay.len(),
        from <= n,
    ensures
        last_occurrence_below(hay, needle, n) == last_occurrence_below(hay, needle, from),
    decreases n - from,
{
    if n > from {
        lemma_none_beyond(hay, needle, from, n - 1);
    }
}

fn stands_at(hay: &[u8], needle: &[u8], i: usize) -> (r: bool)
    ensures
        r == occurs_at(hay@, needle@, i as int),
{
    if needle.len() > hay.len() || i > hay.len() - needle.len() {
        return false;
    }
    let mut k: usize = 0;
    while k < needle.len()
        invariant
            k <= needle.len(),
            i + needle.len() <= hay.len(),
            forall|m: int| 0 <= m < k ==> hay@[i + m] == needle@[m],
        decreases needle.len() - k,
    {
        if hay[i + k] != needle[k] {
            return false;
        }
        k = k + 1;
    }
    assert(hay@.subrange(i as int, i + needle.len()) =~= needle@);
    true
}

/// Finds the last position at which `needle` stands in `hay`.
pub fn rfind(hay: &[u8], needle: &[u8]) -> (r: Option<usize>)
    ensures
        match r {
            Some(i) => last_occurrence(hay@, needle@) == Some(i as int),
            None => last_occurrence(hay@, needle@) is None,
        },
{
    if needle.len() > hay.len() {
        proof {
            lemma_none_beyond(hay@, needle@, 0, hay@.len() as int + 1);
        }
        return None;
    }
    let mut i: usize = hay.len() - needle.len();
    proof {
        lemma_none_beyond(hay@, needle@, i + 1, hay@.len() as int + 1);
    }
    loop
        invariant
            i + needle.len() <= hay.len(),
            last_occurrence(hay@, needle@) == last_occurrence_below(hay@, needle@, i + 1),
        decreases i,
    {
        if stands_at(hay, needle, i) {
            return Some(i);
        }
        if i == 0 {
            assert(last_occurrence_below(hay@, needle@, 0) is None);
            return None;
        }
        i = i - 1;
    }
}

/// What comes before the payload of a source map comment.
pub open spec fn inline_map_marker() -> Seq<u8> {
    "sourceMappingURL=data:application/json;base64,".spec_bytes()
}

/// The payload of the last source map comment in `src`: everything after
/// the last marker.
pub open spec fn inline_map_payload(src: Seq<u8>) -> Option<Seq<u8>> {
    match last_occurrence(src, inline_map_marker()) {
        Some(i) => Some(src.subrange(i + inline_map_marker().len(), src.len() as int)),
        None => None,
    }
}

/// Finds the payload of the last source map comment in `src`. The payload
/// is shorter than `src` by the marker at least, which is what the decoder
/// needs to know of its length.
pub fn find_inline_map(src: &[u8]) -> (r: Option<&[u8]>)
    ensures
        match r {
            Some(p) => inline_map_payload(src@) == Some(p@) && p@.len() + 7 <= usize::MAX,
            None => inline_map_payload(src@) is None,
        },
{
    let text = "sourceMappingURL=data:application/json;base64,";
    let marker = text.as_bytes();
    proof {
        reveal_strlit("sourceMappingURL=data:application/json;base64,");
        vstd::string::is_ascii_spec_bytes(text);
    }
    match rfind(src, marker) {
        Some(i) => {
            proof {
                lemma_found(src@, marker@, src@.len() as int + 1);
            }
            let end = src.len();
            Some(slice_subrange(src, i + marker.len(), end))
        },
        None => None,
    }
}

/// Where an occurrence is found, it is one.
proof fn lemma_found(hay: Seq<u8>, needle: Seq<u8>, n: int)
    ensures
        match last_occurrence_below(hay, needle, n) {
            Some(i) => occurs_at(hay, needle, i),
            None => true,
        },
    decreases n,
{
    if n > 0 && !occurs_at(hay, needle, n - 1) {
        lemma_found(hay, needle, n - 1);
    }
}

/// What `base64::decode` makes of `text`: the bytes that it stands for, or
/// nothing where it is no base64.
pub uninterp spec fn base64_decoded(text: Seq<u8>) -> Option<Seq<u8>>;

/// `base64::DecodeError`: why a decoding failed. The library hands it on
/// and looks into it only through [`decode_error`].
#[verifier::external_type_specification]
#[verifier::external_body]
pub struct ExDecodeError(base64::DecodeError);

/// `base64::decode`: the standard alphabet, with padding. It succeeds or
/// fails by the text alone, and the bytes that it returns are a function of
/// the text. A text so long that its length plus seven overflows is left
/// out: the count of its chunks of eight, and before that the estimate of
/// the decoded length, would panic.
#[verifier::external_body]
fn decode_base64(text: &[u8]) -> (r: Result<Vec<u8>, base64::DecodeError>)
    requires
        text@.len() + 7 <= usize::MAX,
    ensures
        match r {
            Ok(bytes) => base64_decoded(text@) == Some(bytes@),
            Err(_) => base64_decoded(text@) is None,
        },
{
    base64::decode(text)
}

/// Why a text is no base64.
#[derive(Clone, Copy, Debug, PartialEq, Eq)]
pub enum Base64Error {
    /// A byte that the alphabet does not have.
    InvalidByte { offset: usize, byte: u8 },
    /// The text has a length that no encoding has.
    InvalidLength,
    /// The last symbol holds bits that no encoding sets.
    InvalidLastSymbol { offset: usize, byte: u8 },
}

/// Tells the variants of `base64::DecodeError` apart. Nothing is claimed of
/// which one comes.
#[verifier::external_body]
fn decode_error(e: base64::DecodeError) -> Base64Error {
    match e {
        base64::DecodeError::InvalidByte(offset, byte) => Base64Error::InvalidByte { offset, byte },
        base64::DecodeError::InvalidLength => Base64Error::InvalidLength,
        base64::DecodeError::InvalidLastSymbol(offset, byte) => Base64Error::InvalidLastSymbol {
            offset,
            byte,
        },
    }
}

/// The outcome of a decoding in the library's own terms: the bytes as they
/// came, or the library's name for the failure.
pub fn decoded(result: Result<Vec<u8>, base64::DecodeError>) -> (r: Result<Vec<u8>, Base64Error>)
    ensures
        match result {
            Ok(bytes) => r == Ok::<Vec<u8>, Base64Error>(bytes),
            Err(_) => r is Err,
        },
{
    match result {
        Ok(bytes) => Ok(bytes),
        Err(e) => Err(decode_error(e)),
    }
}

/// Reads the source map that `src` carries inside it.
///
/// Without a source map comment there is nothing to read. With one, the
/// payload of the last is decoded: the bytes of the map come back where the
/// payload is base64, an error where it is not.
pub fn inline_source_map(src: &[u8]) -> (r: Option<Result<Vec<u8>, Base64Error>>)
    ensures
        match inline_map_payload(src@) {
            None => r is None,
            Some(payload) => match r {
                Some(Ok(bytes)) => base64_decoded(payload) == Some(bytes@),
                Some(Err(_)) => base64_decoded(payload) is None,
                None => false,
            },
        },
{
    match find_inline_map(src) {
        Some(payload) => Some(decoded(decode_base64(payload))),
        None => None,
    }
}

} // verus!
