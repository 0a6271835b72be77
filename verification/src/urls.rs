use vstd::prelude::*;
use vstd::string::*;

verus! {

/// The token-service URL for pull scope on `library/<repository>`.
pub open spec fn auth_url_spec(repository: Seq<char>) -> Seq<char> {
    "https://auth.docker.io/token?service=registry.docker.io&scope=repository:library/"@
        + repository + ":pull"@
}

/// The manifest endpoint for `repository:tag`.
pub open spec fn manifest_url_spec(repository: Seq<char>, tag: Seq<char>) -> Seq<char> {
    "https://registry.hub.docker.com/v2/library/"@ + repository + "/manifests/"@ + tag
}

/// The base of the blob endpoint for `repository`; a digest appended to it
/// names one blob.
pub open spec fn blob_base_url_spec(repository: Seq<char>) -> Seq<char> {
    "https://registry.hub.docker.com/v2/library/"@ + repository + "/blobs/"@
}

/// Builds the token-service URL requesting pull scope for the repository.
pub fn auth_url(repository: &str) -> (r: String)
    ensures
        r@ == auth_url_spec(repository@),
{
    let s: String =
        "https://auth.docker.io/token?service=registry.docker.io&scope=repository:library/".to_owned();
    let s = s.concat(repository);
    let s = s.concat(":pull");
    proof {
        assert(s@ =~= auth_url_spec(repository@));
    }
    s
}

/// Builds the manifest endpoint URL for `repository:tag`.
pub fn manifest_url(repository: &str, tag: &str) -> (r: String)
    ensures
        r@ == manifest_url_spec(repository@, tag@),
{
    let s: String = "https://registry.hub.docker.com/v2/library/".to_owned();
    let s = s.concat(repository);
    let s = s.concat("/manifests/");
    let s = s.concat(tag);
    proof {
        assert(s@ =~= manifest_url_spec(repository@, tag@));
    }
    s
}

/// Builds the base blob URL for `repository`.
pub fn blob_base_url(repository: &str) -> (r: String)
    ensures
        r@ == blob_base_url_spec(repository@),
{
    let s: String = "https://registry.hub.docker.com/v2/library/".to_owned();
    let s = s.concat(repository);
    let s = s.concat("/blobs/");
    proof {
        assert(s@ =~= blob_base_url_spec(repository@));
    }
    s
}

/// Appends a digest to a base blob URL, naming one blob.
pub fn blob_url(base: &str, digest: &str) -> (r: String)
    ensures
        r@ == base@ + digest@,
{
    let s = base.to_owned();
    let s = s.concat(digest);
    s
}

} // verus!
