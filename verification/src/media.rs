//! What a viewer needs to fetch one diff file.

use vstd::prelude::*;

verus! {

/// The path of a diff file, and the signature over that path which
/// permits reading it.
#[derive(Clone, Debug)]
pub struct SignedMedia {
    path: String,
    signature: String,
}

impl SignedMedia {
    /// Pairs a path with its signature.
    pub fn new(path: String, signature: String) -> (media: Self)
        ensures
            media.path_chars() == path@,
            media.signature_chars() == signature@,
    {
        SignedMedia { path, signature }
    }

    /// The characters of the path.
    pub closed spec fn path_chars(&self) -> Seq<char> {
        self.path@
    }

    /// The characters of the signature.
    pub closed spec fn signature_chars(&self) -> Seq<char> {
        self.signature@
    }

    /// The path of the diff file.
    pub fn path(&self) -> (path: &str)
        ensures
            path@ == self.path_chars(),
    {
        self.path.as_str()
    }

    /// The signature over the path.
    pub fn signature(&self) -> (signature: &str)
        ensures
            signature@ == self.signature_chars(),
    {
        self.signature.as_str()
    }
}

} // verus!
