//! The error taxonomy of the model holder.

use vstd::prelude::*;

verus! {

/// Every way an operation of the model holder can fail.
#[derive(Debug, PartialEq, Eq)]
pub enum Error {
    /// Decompression, the archive layer, base64 or the tensor header failed.
    PackageCorrupt,
    /// A required entry, named here, was absent from a package.
    MissingEntry(String),
    /// The style tensor was not two-dimensional, or its rows disagree with
    /// the declared shape.
    ShapeMismatch,
    /// The inference runtime rejected the synthesizer bytes.
    ModelLoadFailed,
    /// No voice is loaded under the identity named here.
    UnknownIdentity(String),
    /// The style id does not index a row of the style table.
    StyleOutOfRange,
    /// The text pipeline could not tokenize the input.
    TokenizeFailed,
    /// The inference runtime failed during synthesis.
    InferenceFailed,
}

impl Error {
    /// The error is `MissingEntry` and names `entry`.
    pub open spec fn is_missing(self, entry: Seq<char>) -> bool {
        self matches Error::MissingEntry(n) && n@ == entry
    }

    /// The error is `UnknownIdentity` and names `ident`.
    pub open spec fn is_unknown(self, ident: Seq<char>) -> bool {
        self matches Error::UnknownIdentity(n) && n@ == ident
    }

    /// The description of the error: what failed, and the entry or identity
    /// that the error names.
    pub open spec fn description(self) -> Seq<char> {
        match self {
            Error::PackageCorrupt => "package corrupt"@,
            Error::MissingEntry(n) => "missing entry: "@ + n@,
            Error::ShapeMismatch => "shape mismatch"@,
            Error::ModelLoadFailed => "model load failed"@,
            Error::UnknownIdentity(n) => "unknown identity: "@ + n@,
            Error::StyleOutOfRange => "style out of range"@,
            Error::TokenizeFailed => "tokenize failed"@,
            Error::InferenceFailed => "inference failed"@,
        }
    }

    /// The description of the error as a string.
    pub fn message(&self) -> (r: String)
        ensures
            r@ == self.description(),
    {
        match self {
            Error::PackageCorrupt => "package corrupt".to_owned(),
            Error::MissingEntry(n) => "missing entry: ".to_owned().concat(n.as_str()),
            Error::ShapeMismatch => "shape mismatch".to_owned(),
            Error::ModelLoadFailed => "model load failed".to_owned(),
            Error::UnknownIdentity(n) => "unknown identity: ".to_owned().concat(n.as_str()),
            Error::StyleOutOfRange => "style out of range".to_owned(),
            Error::TokenizeFailed => "tokenize failed".to_owned(),
            Error::InferenceFailed => "inference failed".to_owned(),
        }
    }
}

} // verus!
