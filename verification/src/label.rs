use vstd::prelude::*;

verus! {

/// The text that lossy UTF-8 decoding gives for `bytes`: the name of what
/// `String::from_utf8_lossy` returns. The result depends on the bytes alone.
pub uninterp spec fn lossy_of(bytes: Seq<u8>) -> Seq<char>;

/// Each byte of an ASCII sequence read as the character with the same code.
pub open spec fn ascii_chars(bytes: Seq<u8>) -> Seq<char> {
    Seq::new(bytes.len(), |i: int| bytes[i] as char)
}

/// Whether every byte of `bytes` is ASCII.
pub open spec fn all_ascii(bytes: Seq<u8>) -> bool {
    forall|i: int| 0 <= i < bytes.len() ==> bytes[i] < 128
}

/// Relies on `String::from_utf8_lossy`: the result is a function of the
/// bytes alone, valid UTF-8 passes through unchanged, and invalid sequences
/// become replacement characters. ASCII bytes are valid UTF-8 and decode to
/// the characters with the same codes.
#[verifier::external_body]
pub(crate) fn bytes_to_label(bytes: &[u8]) -> (r: String)
    ensures
        r@ == lossy_of(bytes@),
        all_ascii(bytes@) ==> r@ == ascii_chars(bytes@),
{
    String::from_utf8_lossy(bytes).into_owned()
}

} // verus!
