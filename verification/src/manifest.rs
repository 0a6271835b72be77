use vstd::prelude::*;
use crate::errors::FetchError;

verus! {

/// A bearer token for one pull operation, valid only for that operation.
#[derive(Debug, Clone)]
pub struct AuthToken {
    pub token: String,
    /// Seconds of validity, when the token service reported one.
    pub expires_in: Option<u64>,
}

/// One blob of the image: its media type, its content-address digest, and
/// its size in bytes.
#[derive(Debug, Clone)]
pub struct LayerDescriptor {
    pub media_type: String,
    pub digest: String,
    pub size: u64,
    /// Alternate source URLs, when the registry lists any.
    pub urls: Option<Vec<String>>,
}

/// The decoded image manifest: a config blob and the ordered layer blobs.
#[derive(Debug, Clone)]
pub struct Manifest {
    pub schema_version: u8,
    pub media_type: String,
    pub config: LayerDescriptor,
    pub layers: Vec<LayerDescriptor>,
}

/// The HTTP statuses that count as success.
pub open spec fn is_success_status(status: u16) -> bool {
    200 <= status < 300
}

/// What the token response means: a decoded body is the credential, a failed
/// request or an undecodable body is `AuthError`.
pub fn auth_outcome(decoded: Option<AuthToken>) -> (r: Result<AuthToken, FetchError>)
    ensures
        match decoded {
            Some(t) => r == Ok::<AuthToken, FetchError>(t),
            None => r == Err::<AuthToken, FetchError>(FetchError::AuthError),
        },
{
    match decoded {
        Some(t) => Ok(t),
        None => Err(FetchError::AuthError),
    }
}

/// What the manifest endpoint's status means: 404 is the distinguished
/// not-found outcome (the body is never decoded), any other non-success
/// status is a manifest failure, and a success status lets decoding proceed.
pub fn check_manifest_status(status: u16) -> (r: Result<(), FetchError>)
    ensures
        r is Ok <==> is_success_status(status),
        r == Err::<(), FetchError>(FetchError::NotFoundError) <==> status == 404,
        !is_success_status(status) && status != 404 ==> r == Err::<(), FetchError>(
            FetchError::ManifestError,
        ),
{
    if status == 404 {
        Err(FetchError::NotFoundError)
    } else if 200 <= status && status < 300 {
        Ok(())
    } else {
        Err(FetchError::ManifestError)
    }
}

/// What the manifest body means once the status was a success: a body that
/// decodes as a manifest is the result, anything else is a manifest failure.
pub fn manifest_from_decoded(decoded: Option<Manifest>) -> (r: Result<Manifest, FetchError>)
    ensures
        match decoded {
            Some(m) => r == Ok::<Manifest, FetchError>(m),
            None => r == Err::<Manifest, FetchError>(FetchError::ManifestError),
        },
{
    match decoded {
        Some(m) => Ok(m),
        None => Err(FetchError::ManifestError),
    }
}

/// The whole manifest-resolution decision, over what came back from the two
/// endpoints: `token` is the decoded token body (absent when the token
/// request failed), `status` the manifest endpoint's status, and `decoded`
/// the manifest body's decoding (absent when it failed, or was never read).
pub open spec fn resolve_manifest_spec(
    token: Option<AuthToken>,
    status: u16,
    decoded: Option<Manifest>,
) -> Result<(AuthToken, Manifest), FetchError> {
    match token {
        None => Err(FetchError::AuthError),
        Some(t) => if status == 404 {
            Err(FetchError::NotFoundError)
        } else if !is_success_status(status) {
            Err(FetchError::ManifestError)
        } else {
            match decoded {
                Some(m) => Ok((t, m)),
                None => Err(FetchError::ManifestError),
            }
        },
    }
}

/// Combines the auth and manifest outcomes exactly as `resolve_manifest_spec`
/// states them.
pub fn resolve_manifest_outcome(
    token: Option<AuthToken>,
    status: u16,
    decoded: Option<Manifest>,
) -> (r: Result<(AuthToken, Manifest), FetchError>)
    ensures
        r == resolve_manifest_spec(token, status, decoded),
{
    let t = match auth_outcome(token) {
        Ok(t) => t,
        Err(e) => { return Err(e); },
    };
    match check_manifest_status(status) {
        Ok(()) => (),
        Err(e) => { return Err(e); },
    }
    match manifest_from_decoded(decoded) {
        Ok(m) => Ok((t, m)),
        Err(e) => Err(e),
    }
}

/// Resolution reports the image as missing exactly when the manifest
/// endpoint answered 404, and a success status whose body decodes as a
/// manifest always succeeds.
pub proof fn lemma_not_found_iff_404(token: Option<AuthToken>, status: u16, decoded: Option<Manifest>)
    requires
        token is Some,
    ensures
        resolve_manifest_spec(token, status, decoded) == Err::<(AuthToken, Manifest), FetchError>(
            FetchError::NotFoundError,
        ) <==> status == 404,
        is_success_status(status) && decoded is Some ==> resolve_manifest_spec(
            token,
            status,
            decoded,
        ) is Ok,
{
}

} // verus!
