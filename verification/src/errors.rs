//! Fatal build errors. The pipeline has no recoverable error path: any of
//! these aborts the build before an artifact is written.

use vstd::prelude::*;

verus! {

/// Why a build failed.
#[derive(Debug)]
pub enum BuildError {
    /// Two assets resolved to the same identifier, even after the fallback
    /// renamings were exhausted; the payload is the contested identifier.
    DuplicateIdentifier(String),
    /// A requested shipped icon was found in no pack directory; the payload
    /// is the requested identifier.
    MissingShippedIcon(String),
    /// A scanned file does not follow the naming convention the caller
    /// promised; the payload is the offending file name.
    UnexpectedFile(String),
    /// The container serializer rejected the entries; the payload is its
    /// diagnostic text.
    BundleFailed(String),
}

/// The mathematical model of a [`BuildError`].
pub enum ErrorModel {
    DuplicateIdentifier(Seq<char>),
    MissingShippedIcon(Seq<char>),
    UnexpectedFile(Seq<char>),
    BundleFailed(Seq<char>),
}

impl View for BuildError {
    type V = ErrorModel;

    open spec fn view(&self) -> ErrorModel {
        match self {
            BuildError::DuplicateIdentifier(s) => ErrorModel::DuplicateIdentifier(s@),
            BuildError::MissingShippedIcon(s) => ErrorModel::MissingShippedIcon(s@),
            BuildError::UnexpectedFile(s) => ErrorModel::UnexpectedFile(s@),
            BuildError::BundleFailed(s) => ErrorModel::BundleFailed(s@),
        }
    }
}

impl BuildError {
    /// A human-readable description of the failure.
    pub fn message(&self) -> (m: String)
        ensures
            match self@ {
                ErrorModel::DuplicateIdentifier(id) => m@ == "icon identifier exists twice: "@
                    + id,
                ErrorModel::MissingShippedIcon(id) => m@ == "no shipped icon has this name: "@
                    + id,
                ErrorModel::UnexpectedFile(f) => m@ == "not a symbolic icon file: "@ + f,
                ErrorModel::BundleFailed(d) => m@ == "could not build the resource bundle: "@ + d,
            },
    {
        match self {
            BuildError::DuplicateIdentifier(id) => {
                let mut m = String::from_str("icon identifier exists twice: ");
                m.append(id.as_str());
                m
            },
            BuildError::MissingShippedIcon(id) => {
                let mut m = String::from_str("no shipped icon has this name: ");
                m.append(id.as_str());
                m
            },
            BuildError::UnexpectedFile(f) => {
                let mut m = String::from_str("not a symbolic icon file: ");
                m.append(f.as_str());
                m
            },
            BuildError::BundleFailed(d) => {
                let mut m = String::from_str("could not build the resource bundle: ");
                m.append(d.as_str());
                m
            },
        }
    }
}

} // verus!
