//! Decoding a tracker page's body by its definition's declared `encoding`.
//!
//! Labels are matched, and bytes decoded, by `encoding_rs` (WHATWG label
//! matching and decoders); what it answers is named by the spec functions
//! below.
use vstd::prelude::*;

verus! {

/// Whether `encoding_rs::Encoding::for_label` knows a label.
pub uninterp spec fn label_known(label: Seq<char>) -> bool;

/// The text `Encoding::decode` gives for `bytes` with the encoding a known
/// label names (a byte-order mark in `bytes` overriding it; malformed
/// sequences replaced).
pub uninterp spec fn decoded_as(label: Seq<char>, bytes: Seq<u8>) -> Seq<char>;

/// The text `encoding_rs::UTF_8.decode` gives for `bytes` (a byte-order
/// mark overriding UTF-8; malformed sequences replaced).
pub uninterp spec fn utf8_decoded(bytes: Seq<u8>) -> Seq<char>;

/// `Encoding::for_label(label).is_some()`. Its result is named
/// [`label_known`].
#[verifier::external_body]
fn is_known_label(label: &str) -> (r: bool)
    ensures
        r == label_known(label@),
{
    encoding_rs::Encoding::for_label(label.as_bytes()).is_some()
}

/// `Encoding::decode` with the encoding `label` names. Its result is named
/// [`decoded_as`].
#[verifier::external_body]
fn decode_with_label(label: &str, bytes: &[u8]) -> (r: String)
    requires
        label_known(label@),
    ensures
        r@ == decoded_as(label@, bytes@),
{
    match encoding_rs::Encoding::for_label(label.as_bytes()) {
        Some(encoding) => encoding.decode(bytes).0.into_owned(),
        None => String::new(),
    }
}

/// `encoding_rs::UTF_8.decode`. Its result is named [`utf8_decoded`].
#[verifier::external_body]
fn decode_utf8(bytes: &[u8]) -> (r: String)
    ensures
        r@ == utf8_decoded(bytes@),
{
    encoding_rs::UTF_8.decode(bytes).0.into_owned()
}

/// The body as text: decoded by the encoding `encoding_label` names when
/// the label is known, else as UTF-8 (an unknown or empty label is no
/// error). A byte-order mark in the body overrides the label either way.
pub fn decode_body(bytes: &[u8], encoding_label: &str) -> (r: String)
    ensures
        r@ == if label_known(encoding_label@) {
            decoded_as(encoding_label@, bytes@)
        } else {
            utf8_decoded(bytes@)
        },
{
    if is_known_label(encoding_label) {
        decode_with_label(encoding_label, bytes)
    } else {
        decode_utf8(bytes)
    }
}

} // verus!
