use vstd::prelude::*;

verus! {

/// The failure taxonomy of the pull pipeline.  Every fallible function of
/// this crate reports one of these values; none of them panics.
#[derive(Debug, Clone, PartialEq, Eq)]
pub enum FetchError {
    /// The token request failed or its body could not be decoded.
    AuthError,
    /// The manifest endpoint answered 404: the image or tag does not exist.
    NotFoundError,
    /// The manifest endpoint answered another non-success status, or its body
    /// could not be decoded as a manifest.
    ManifestError,
    /// A blob request answered a non-success status; the digest names the
    /// layer for diagnosis.
    BlobFetchError { digest: String, status: u16 },
    /// A layer's byte stream was not valid gzip data.
    DecodeError,
    /// A decompressed layer was not a well-formed archive.
    ArchiveError,
    /// A filesystem write failed while a layer was being unpacked.
    IoError,
}

impl FetchError {
    /// A short description, for the surrounding binary to print.
    pub fn describe(&self) -> (r: String)
        ensures
            r@.len() > 0,
    {
        match self {
            FetchError::AuthError => { let s: String = "token request failed".to_owned(); proof { reveal_strlit("token request failed"); } s },
            FetchError::NotFoundError => { let s: String = "image or tag does not exist".to_owned(); proof { reveal_strlit("image or tag does not exist"); } s },
            FetchError::ManifestError => { let s: String = "manifest fetch or decode failed".to_owned(); proof { reveal_strlit("manifest fetch or decode failed"); } s },
            FetchError::BlobFetchError { digest, status: _ } => {
                let s: String = "blob fetch failed for ".to_owned();
                proof { reveal_strlit("blob fetch failed for "); }
                s.concat(digest.as_str())
            },
            FetchError::DecodeError => { let s: String = "gzip stream corrupt".to_owned(); proof { reveal_strlit("gzip stream corrupt"); } s },
            FetchError::ArchiveError => { let s: String = "malformed archive".to_owned(); proof { reveal_strlit("malformed archive"); } s },
            FetchError::IoError => { let s: String = "filesystem write failed".to_owned(); proof { reveal_strlit("filesystem write failed"); } s },
        }
    }
}

} // verus!
