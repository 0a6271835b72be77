use vstd::prelude::*;
use vstd::string::*;
use crate::archive::{ArchiveEntry, models, parse_archive, tar_entries};
use crate::errors::FetchError;
use crate::image_ref::{ImageReference, parse_image_reference, parses_to};
use crate::manifest::{LayerDescriptor, is_success_status};
use crate::urls::{auth_url, auth_url_spec, blob_base_url, blob_base_url_spec, manifest_url,
    manifest_url_spec};

verus! {

/// What every concurrent layer task shares, read-only: the base blob URL,
/// the destination directory, and the bearer token.  Built once per pull
/// operation and never changed.
pub struct FetchContext {
    pub base_url: String,
    pub target_dir: String,
    pub token: String,
}

/// Builds the shared per-operation context.
pub fn make_context(base_url: String, target_dir: String, token: String) -> (r: FetchContext)
    ensures
        r.base_url == base_url,
        r.target_dir == target_dir,
        r.token == token,
{
    FetchContext { base_url, target_dir, token }
}

/// Everything the pull pipeline derives from the image reference alone:
/// the parsed repository and tag, and the three endpoint URLs.
pub struct FetchPlan {
    pub reference: ImageReference,
    pub auth_url: String,
    pub manifest_url: String,
    pub blob_base_url: String,
}

/// Parses the image reference and lays out the endpoints the pull will
/// talk to: the token service, the manifest endpoint for the parsed
/// repository and tag, and the blob base URL a digest is appended to.
pub fn fetch_plan(image_ref: &str) -> (r: FetchPlan)
    ensures
        parses_to(image_ref@, r.reference),
        r.auth_url@ == auth_url_spec(r.reference.repository@),
        r.manifest_url@ == manifest_url_spec(r.reference.repository@, r.reference.tag@),
        r.blob_base_url@ == blob_base_url_spec(r.reference.repository@),
{
    let reference = parse_image_reference(image_ref);
    let auth_url = auth_url(reference.repository.as_str());
    let manifest_url = manifest_url(reference.repository.as_str(), reference.tag.as_str());
    let blob_base_url = blob_base_url(reference.repository.as_str());
    FetchPlan { reference, auth_url, manifest_url, blob_base_url }
}

/// One blob URL per layer, in manifest order: the base URL with the
/// layer's digest appended.
pub fn layer_blob_urls(base: &str, layers: &Vec<LayerDescriptor>) -> (r: Vec<String>)
    ensures
        r@.len() == layers@.len(),
        forall|i: int| 0 <= i < r@.len() ==> r@[i]@ == base@ + layers@[i].digest@,
{
    let mut r: Vec<String> = Vec::new();
    let n = layers.len();
    let mut i: usize = 0;
    while i < n
        invariant
            n == layers@.len(),
            0 <= i <= n,
            r@.len() == i,
            forall|j: int| 0 <= j < i ==> r@[j]@ == base@ + layers@[j].digest@,
        decreases n - i,
    {
        let u = crate::urls::blob_url(base, layers[i].digest.as_str());
        r.push(u);
        i += 1;
    }
    r
}

/// What a blob response's status means: success lets the body stream, and
/// any other status fails the layer with its digest and the status.
pub fn check_blob_status(digest: &str, status: u16) -> (r: Result<(), FetchError>)
    ensures
        r is Ok <==> is_success_status(status),
        !is_success_status(status) ==> (r matches Err(e) && e matches
            FetchError::BlobFetchError { digest: d, status: st } && d@ == digest@ && st == status),
{
    if 200 <= status && status < 300 {
        Ok(())
    } else {
        Err(FetchError::BlobFetchError { digest: digest.to_owned(), status })
    }
}

/// What one layer task produced, given what came back from the blob
/// endpoint: a non-success status is a blob failure naming the digest; a
/// body whose gzip stream failed is a decode failure; a decompressed body
/// is decoded as an archive.  A failed layer yields no entries at all.
pub fn layer_outcome(digest: &str, status: u16, decompressed: Option<Vec<u8>>) -> (r: Result<
    Vec<ArchiveEntry>,
    FetchError,
>)
    ensures
        !is_success_status(status) ==> (r matches Err(e) && e matches
            FetchError::BlobFetchError { digest: d, status: st } && d@ == digest@ && st == status),
        is_success_status(status) && decompressed is None ==> r == Err::<
            Vec<ArchiveEntry>,
            FetchError,
        >(FetchError::DecodeError),
        is_success_status(status) && decompressed is Some ==> match tar_entries(
            decompressed.unwrap()@,
        ) {
            Some(es) => r matches Ok(v) && models(v@) == es,
            None => r == Err::<Vec<ArchiveEntry>, FetchError>(FetchError::ArchiveError),
        },
{
    match check_blob_status(digest, status) {
        Ok(()) => (),
        Err(e) => { return Err(e); },
    }
    match decompressed {
        None => Err(FetchError::DecodeError),
        Some(bytes) => parse_archive(bytes.as_slice()),
    }
}

/// Joins the per-layer results: success when every task succeeded, else
/// the first failure in completion order, as the tasks' results were
/// collected.
pub fn first_error(results: Vec<Result<(), FetchError>>) -> (r: Result<(), FetchError>)
    ensures
        r is Ok <==> (forall|i: int| 0 <= i < results@.len() ==> results@[i] is Ok),
        r is Err ==> exists|i: int|
            0 <= i < results@.len() && r == #[trigger] results@[i] && results@[i] is Err && (
            forall|j: int| 0 <= j < i ==> results@[j] is Ok),
{
    let mut rest = results;
    let n = rest.len();
    let mut i: usize = 0;
    while i < n
        invariant
            n == rest@.len(),
            rest@ == results@,
            0 <= i <= n,
            forall|j: int| 0 <= j < i ==> results@[j] is Ok,
        decreases n - i,
    {
        let is_err = match &rest[i] {
            Ok(_) => false,
            Err(_) => true,
        };
        if is_err {
            let e = rest.remove(i);
            return e;
        }
        i += 1;
    }
    Ok(())
}

} // verus!
