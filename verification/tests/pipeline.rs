use layerfetch::errors::FetchError;
use layerfetch::manifest::{
    auth_outcome, check_manifest_status, manifest_from_decoded, resolve_manifest_outcome,
    AuthToken, LayerDescriptor, Manifest,
};
use layerfetch::image_ref::parse_image_reference;
use layerfetch::orchestrate::{check_blob_status, fetch_plan, first_error, layer_outcome, layer_blob_urls, make_context};
use layerfetch::urls::{auth_url, blob_base_url, blob_url, manifest_url};

fn layer(digest: &str) -> LayerDescriptor {
    LayerDescriptor {
        media_type: "application/vnd.docker.image.rootfs.diff.tar.gzip".to_string(),
        digest: digest.to_string(),
        size: 10,
        urls: None,
    }
}

fn manifest_one_layer(digest: &str) -> Manifest {
    Manifest {
        schema_version: 2,
        media_type: "application/vnd.docker.distribution.manifest.v2+json".to_string(),
        config: layer("sha256:cfg"),
        layers: vec![layer(digest)],
    }
}

#[test]
fn parse_without_colon_defaults_to_latest() {
    let r = parse_image_reference("alpine");
    assert_eq!(r.repository, "alpine");
    assert_eq!(r.tag, "latest");
}

#[test]
fn parse_with_colon_takes_tag() {
    let r = parse_image_reference("alpine:3.18");
    assert_eq!(r.repository, "alpine");
    assert_eq!(r.tag, "3.18");
}

#[test]
fn parse_splits_at_first_colon() {
    let r = parse_image_reference("a:b:c");
    assert_eq!(r.repository, "a");
    assert_eq!(r.tag, "b:c");
}

#[test]
fn parse_empty_tag_after_colon() {
    let r = parse_image_reference("busybox:");
    assert_eq!(r.repository, "busybox");
    assert_eq!(r.tag, "");
}

#[test]
fn manifest_endpoint_for_latest() {
    let u = manifest_url("alpine", "latest");
    assert_eq!(
        u,
        "https://registry.hub.docker.com/v2/library/alpine/manifests/latest"
    );
}

#[test]
fn auth_endpoint_shape() {
    let u = auth_url("alpine");
    assert_eq!(
        u,
        "https://auth.docker.io/token?service=registry.docker.io&scope=repository:library/alpine:pull"
    );
}

#[test]
fn blob_base_and_blob_url() {
    let b = blob_base_url("alpine");
    assert_eq!(b, "https://registry.hub.docker.com/v2/library/alpine/blobs/");
    let u = blob_url(&b, "sha256:aaa");
    assert_eq!(
        u,
        "https://registry.hub.docker.com/v2/library/alpine/blobs/sha256:aaa"
    );
}

#[test]
fn plan_from_reference() {
    let p = fetch_plan("alpine");
    assert_eq!(p.reference.repository, "alpine");
    assert_eq!(p.reference.tag, "latest");
    assert_eq!(
        p.manifest_url,
        "https://registry.hub.docker.com/v2/library/alpine/manifests/latest"
    );
    assert_eq!(
        p.blob_base_url,
        "https://registry.hub.docker.com/v2/library/alpine/blobs/"
    );
}

#[test]
fn one_blob_url_per_layer() {
    let m = manifest_one_layer("sha256:aaa");
    let urls = layer_blob_urls("https://registry.hub.docker.com/v2/library/alpine/blobs/", &m.layers);
    assert_eq!(urls.len(), 1);
    assert_eq!(
        urls[0],
        "https://registry.hub.docker.com/v2/library/alpine/blobs/sha256:aaa"
    );
}

#[test]
fn status_404_is_not_found() {
    assert!(matches!(
        check_manifest_status(404),
        Err(FetchError::NotFoundError)
    ));
}

#[test]
fn status_500_is_manifest_error() {
    assert!(matches!(
        check_manifest_status(500),
        Err(FetchError::ManifestError)
    ));
}

#[test]
fn status_2xx_is_success() {
    assert!(check_manifest_status(200).is_ok());
    assert!(check_manifest_status(299).is_ok());
    assert!(matches!(
        check_manifest_status(300),
        Err(FetchError::ManifestError)
    ));
}

#[test]
fn auth_outcome_keeps_token() {
    let t = AuthToken {
        token: "abc".to_string(),
        expires_in: None,
    };
    let r = auth_outcome(Some(t)).unwrap();
    assert_eq!(r.token, "abc");
    assert!(matches!(auth_outcome(None), Err(FetchError::AuthError)));
}

#[test]
fn manifest_decoding_failure_is_manifest_error() {
    assert!(matches!(
        manifest_from_decoded(None),
        Err(FetchError::ManifestError)
    ));
    let m = manifest_one_layer("sha256:aaa");
    let r = manifest_from_decoded(Some(m)).unwrap();
    assert_eq!(r.layers.len(), 1);
}

#[test]
fn resolve_not_found_only_on_404() {
    let t = AuthToken {
        token: "abc".to_string(),
        expires_in: Some(300),
    };
    let m = manifest_one_layer("sha256:aaa");
    assert!(matches!(
        resolve_manifest_outcome(Some(t.clone()), 404, None),
        Err(FetchError::NotFoundError)
    ));
    assert!(matches!(
        resolve_manifest_outcome(None, 404, None),
        Err(FetchError::AuthError)
    ));
    assert!(matches!(
        resolve_manifest_outcome(Some(t.clone()), 503, None),
        Err(FetchError::ManifestError)
    ));
    let (tok, man) = resolve_manifest_outcome(Some(t), 200, Some(m)).unwrap();
    assert_eq!(tok.token, "abc");
    assert_eq!(man.schema_version, 2);
}

#[test]
fn context_keeps_its_fields() {
    let c = make_context(
        "https://registry.hub.docker.com/v2/library/alpine/blobs/".to_string(),
        "/tmp/root".to_string(),
        "abc".to_string(),
    );
    assert_eq!(c.token, "abc");
    assert_eq!(c.target_dir, "/tmp/root");
}

#[test]
fn first_error_of_all_ok_is_ok() {
    let r = first_error(vec![Ok(()), Ok(()), Ok(())]);
    assert!(r.is_ok());
}

#[test]
fn first_error_surfaces_first_failure() {
    let r = first_error(vec![
        Ok(()),
        Err(FetchError::DecodeError),
        Err(FetchError::IoError),
    ]);
    assert!(matches!(r, Err(FetchError::DecodeError)));
}

#[test]
fn blob_status_check_carries_digest_and_status() {
    assert!(check_blob_status("sha256:aaa", 200).is_ok());
    match check_blob_status("sha256:aaa", 503) {
        Err(FetchError::BlobFetchError { digest, status }) => {
            assert_eq!(digest, "sha256:aaa");
            assert_eq!(status, 503);
        }
        _ => panic!("expected a blob fetch failure"),
    }
}

#[test]
fn blob_500_fails_with_digest() {
    let r = layer_outcome("sha256:aaa", 500, None);
    match r {
        Err(FetchError::BlobFetchError { digest, status }) => {
            assert_eq!(digest, "sha256:aaa");
            assert_eq!(status, 500);
        }
        _ => panic!("expected a blob fetch failure"),
    }
}

#[test]
fn gzip_failure_is_decode_error() {
    let r = layer_outcome("sha256:aaa", 200, None);
    assert!(matches!(r, Err(FetchError::DecodeError)));
}

#[test]
fn failed_layer_yields_no_entries() {
    let r = layer_outcome("sha256:aaa", 503, Some(vec![0u8; 1024]));
    assert!(r.is_err());
}

#[test]
fn error_descriptions_name_the_failure() {
    let e = FetchError::BlobFetchError {
        digest: "sha256:aaa".to_string(),
        status: 500,
    };
    assert!(e.describe().contains("sha256:aaa"));
    assert!(!FetchError::DecodeError.describe().is_empty());
}
