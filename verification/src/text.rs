//! Bringing raw read bytes and query text to the one canonical form in which
//! they are compared: decoded as UTF-8 and in upper case.

use vstd::prelude::*;

verus! {

/// The text that lossy UTF-8 decoding makes of `bytes`: the decoded
/// characters, with U+FFFD standing for every ill-formed stretch.
pub uninterp spec fn lossy_text(bytes: Seq<u8>) -> Seq<char>;

/// The upper-case form of `text` under the Unicode case mappings.
pub uninterp spec fn uppercased(text: Seq<char>) -> Seq<char>;

/// The canonical form of a read given as raw bytes.
pub open spec fn normalized_read(bytes: Seq<u8>) -> Seq<char> {
    uppercased(lossy_text(bytes))
}

/// Raw reads as plain values.
pub open spec fn raw_view(reads: Seq<Vec<u8>>) -> Seq<Seq<u8>> {
    Seq::new(reads.len(), |i: int| reads[i]@)
}

/// Every raw read brought to canonical form.
pub open spec fn normalized_all(raw: Seq<Seq<u8>>) -> Seq<Seq<char>> {
    Seq::new(raw.len(), |i: int| normalized_read(raw[i]))
}

/// Calls `String::from_utf8_lossy`. Trusted: the text returned is a function
/// of the bytes alone, named [`lossy_text`].
#[verifier::external_body]
pub(crate) fn decode_lossy(bytes: &[u8]) -> (text: String)
    ensures
        text@ == lossy_text(bytes@),
{
    String::from_utf8_lossy(bytes).into_owned()
}

/// Calls `str::to_uppercase`. Trusted: the text returned is a function of
/// the input text alone, named [`uppercased`].
#[verifier::external_body]
pub(crate) fn to_upper(text: &str) -> (upper: String)
    ensures
        upper@ == uppercased(text@),
{
    text.to_uppercase()
}

/// The characters of `text`, one vector element each.
pub fn chars_of(text: &str) -> (chars: Vec<char>)
    ensures
        chars@ == text@,
{
    let mut chars: Vec<char> = Vec::new();
    let source = text.chars();
    for c in it: source
        invariant
            it.seq() == text@,
            chars@ == it.history(),
    {
        chars.push(c);
    }
    assert(chars@ =~= text@);
    chars
}

/// The canonical form of a read: its bytes decoded leniently as UTF-8, then
/// brought to upper case, as a vector of characters.
pub fn normalize_read(bytes: &[u8]) -> (chars: Vec<char>)
    ensures
        chars@ == normalized_read(bytes@),
{
    let decoded = decode_lossy(bytes);
    let upper = to_upper(decoded.as_str());
    chars_of(upper.as_str())
}

} // verus!
