//! Decoding of raw entry-name bytes.
//!
//! ZIP's historical name field gives no reliable signal for its encoding.
//! A name is therefore decoded by validity: strict UTF-8 first, and only
//! when that fails the configured fallback encoding, resolved once from a
//! label such as "shift-jis".  The fallback decode is lossy and total, so
//! every entry yields a displayable, matchable string.

use vstd::prelude::*;

use crate::errors::ZipedError;

verus! {

#[verifier::external_type_specification]
#[verifier::external_body]
pub struct ExEncoding(encoding_rs::Encoding);

/// Whether `label` names a known text encoding: what
/// `encoding_rs::Encoding::for_label` accepts.
pub uninterp spec fn encoding_known(label: Seq<char>) -> bool;

/// The characters that the encoding named `label` decodes `bytes` to,
/// lossily: what `encoding_rs::Encoding::decode` returns.  It is a
/// function of the label and the bytes alone.
pub uninterp spec fn fallback_decode_of(label: Seq<char>, bytes: Seq<u8>) -> Seq<char>;

/// The decoded form of the raw name `raw` under the fallback encoding
/// named `label`: the UTF-8 reading whenever `raw` is valid UTF-8, and the
/// lossy fallback decoding otherwise.
pub open spec fn decoded_name(raw: Seq<u8>, label: Seq<char>) -> Seq<char> {
    if vstd::utf8::valid_utf8(raw) {
        vstd::utf8::decode_utf8(raw)
    } else {
        fallback_decode_of(label, raw)
    }
}

/// A raw name that is valid UTF-8 decodes to its UTF-8 reading, whatever
/// fallback encoding is configured.
pub proof fn lemma_valid_utf8_name_wins(raw: Seq<u8>, label: Seq<char>)
    requires
        vstd::utf8::valid_utf8(raw),
    ensures
        decoded_name(raw, label) == vstd::utf8::decode_utf8(raw),
{
}

/// A raw name that is not valid UTF-8 decodes to the configured fallback
/// decoding.
pub proof fn lemma_invalid_utf8_name_falls_back(raw: Seq<u8>, label: Seq<char>)
    requires
        !vstd::utf8::valid_utf8(raw),
    ensures
        decoded_name(raw, label) == fallback_decode_of(label, raw),
{
}

/// Relies on `encoding_rs::Encoding::for_label`: it returns `Some` exactly
/// for the labels of the encodings it knows, and which encoding a label
/// resolves to depends on the label alone.
#[verifier::external_body]
fn lookup_encoding(label: &str) -> (r: Option<&'static encoding_rs::Encoding>)
    ensures
        r is Some <==> encoding_known(label@),
{
    encoding_rs::Encoding::for_label(label.as_bytes())
}

/// The strict UTF-8 reading of `raw`, if `raw` is valid UTF-8.
///
/// Relies on `core::str::from_utf8`: it succeeds exactly on valid UTF-8
/// and returns the string made of the decoded scalar values.
#[verifier::external_body]
pub(crate) fn utf8_name(raw: &[u8]) -> (r: Option<String>)
    ensures
        r is Some <==> vstd::utf8::valid_utf8(raw@),
        r matches Some(t) ==> t@ == vstd::utf8::decode_utf8(raw@),
{
    match core::str::from_utf8(raw) {
        Ok(t) => Some(t.to_owned()),
        Err(_) => None,
    }
}

/// A fallback decoder, resolved once from its label.
pub struct Codec {
    encoding: &'static encoding_rs::Encoding,
    label: String,
}

impl View for Codec {
    type V = Seq<char>;

    closed spec fn view(&self) -> Seq<char> {
        self.label@
    }
}

impl Codec {
    /// Resolves `label` into a decoder.  An unknown label is a
    /// configuration error, reported before any entry is touched.
    pub fn new(label: &str) -> (r: Result<Codec, ZipedError>)
        ensures
            r is Ok <==> encoding_known(label@),
            r matches Ok(c) ==> c@ == label@,
            r matches Err(e) ==> e matches ZipedError::UnknownEncoding(l) && l@ == label@,
    {
        match lookup_encoding(label) {
            Some(encoding) => Ok(Codec { encoding, label: label.to_owned() }),
            None => Err(ZipedError::UnknownEncoding(label.to_owned())),
        }
    }

    /// The label this decoder was resolved from.
    pub fn label(&self) -> (r: &str)
        ensures
            r@ == self@,
    {
        self.label.as_str()
    }

    /// Relies on `encoding_rs::Encoding::decode`: the lossy decode is
    /// total and depends only on the encoding and the bytes.  Speaking of
    /// the label is sound because the fields are private and the one
    /// constructor stores the encoding the label resolved to.
    #[verifier::external_body]
    fn decode_fallback(&self, raw: &[u8]) -> (r: String)
        ensures
            r@ == fallback_decode_of(self.label@, raw@),
    {
        let (text, _, _) = self.encoding.decode(raw);
        text.into_owned()
    }

    /// Decodes the raw entry name `raw`: strict UTF-8 if `raw` is valid
    /// UTF-8, this codec's lossy fallback decoding otherwise.
    pub fn decode_name(&self, raw: &[u8]) -> (r: String)
        ensures
            r@ == decoded_name(raw@, self@),
    {
        match utf8_name(raw) {
            Some(text) => text,
            None => self.decode_fallback(raw),
        }
    }
}

} // verus!
