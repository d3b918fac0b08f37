//! The error taxonomy of the engine.

use vstd::prelude::*;

verus! {

/// Everything that can go wrong while listing or rewriting one archive.
///
/// Configuration errors (`OutputNotSpecified`, `OutputExists`,
/// `NotADirectory`, `UnknownEncoding`) are detected before any entry is
/// read.  `Archive` carries the text of a failure reported by the
/// underlying ZIP codec, either while opening the source or while
/// transplanting an entry.  `MalformedOutput` reports a finalized output
/// whose layout did not match its own directory, so the raw-name patch
/// step refused to touch it.
#[derive(Debug)]
pub enum ZipedError {
    /// An in-place or directory output was required but no output option was given.
    OutputNotSpecified,
    /// The path given for a brand-new output file already exists.
    OutputExists(String),
    /// The path given as the output directory exists and is not a directory.
    NotADirectory(String),
    /// The configured fallback encoding label is not a known encoding.
    UnknownEncoding(String),
    /// The ZIP codec rejected the source archive or one of its entries.
    Archive(String),
    /// No stand-in name of the needed length was free for an entry whose
    /// raw name is not valid UTF-8.
    StandInExhausted,
    /// The rewritten archive's recorded offsets point outside its bytes.
    MalformedOutput,
}

impl ZipedError {
    /// The human-readable message for this error, phrased as the
    /// command-line tool reports it.
    pub fn message(&self) -> (r: String)
        ensures
            self is OutputNotSpecified ==> r@ == "Output is not specified"@,
            self matches ZipedError::OutputExists(p) ==> r@ == "'"@ + p@ + "' already exists"@,
            self matches ZipedError::NotADirectory(p) ==> r@ == "'"@ + p@ + "' is not a directory"@,
            self matches ZipedError::UnknownEncoding(l) ==> r@ == "Invalid path encoding '"@ + l@
                + "'"@,
            self matches ZipedError::Archive(t) ==> r@ == t@,
            self is StandInExhausted ==> r@ == "No stand-in name is free for an entry"@,
            self is MalformedOutput ==> r@ == "Output archive is malformed"@,
    {
        match self {
            ZipedError::OutputNotSpecified => "Output is not specified".to_owned(),
            ZipedError::OutputExists(path) => {
                let mut m = String::from_str("'");
                m.append(path.as_str());
                m.append("' already exists");
                m
            },
            ZipedError::NotADirectory(path) => {
                let mut m = String::from_str("'");
                m.append(path.as_str());
                m.append("' is not a directory");
                m
            },
            ZipedError::UnknownEncoding(label) => {
                let mut m = String::from_str("Invalid path encoding '");
                m.append(label.as_str());
                m.append("'");
                m
            },
            ZipedError::Archive(text) => text.clone(),
            ZipedError::StandInExhausted => "No stand-in name is free for an entry".to_owned(),
            ZipedError::MalformedOutput => "Output archive is malformed".to_owned(),
        }
    }
}

} // verus!
