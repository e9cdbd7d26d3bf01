use see::fetch::{
    archive_url, classify_response, decimal, progress_for, FetchError, Progress, Termination,
};
use see::resolver::{resolve, RepositoryRef, TransportMode};

fn reference(site: &str, name: &str, reference: &str) -> RepositoryRef {
    RepositoryRef {
        site: site.to_string(),
        user: "grp".to_string(),
        name: name.to_string(),
        reference: reference.to_string(),
        subdirectory: None,
        canonical_url: format!("https://{}.com/grp/{}", site, name),
        transport_mode: TransportMode::Tar,
    }
}

#[test]
fn github_archive_address() {
    let r = resolve("user/name").unwrap();
    assert_eq!(
        archive_url(&r, &None),
        Ok("https://github.com/user/name/archive/HEAD.tar.gz".to_string())
    );
    // the token is of no use to GitHub
    assert_eq!(
        archive_url(&r, &Some("secret".to_string())),
        Ok("https://github.com/user/name/archive/HEAD.tar.gz".to_string())
    );
}

#[test]
fn gitlab_archive_address() {
    let r = resolve("gitlab:grp/proj").unwrap();
    assert_eq!(
        archive_url(&r, &Some("tok".to_string())),
        Ok("https://gitlab.com/grp/proj/-/archive/HEAD/proj.tar.gz?private_token=tok".to_string())
    );
    assert_eq!(
        archive_url(&r, &None),
        Ok("https://gitlab.com/grp/proj/-/archive/HEAD/proj.tar.gz?private_token=".to_string())
    );
}

#[test]
fn reference_is_passed_through() {
    assert_eq!(
        archive_url(&reference("github", "proj", "v1.0"), &None),
        Ok("https://github.com/grp/proj/archive/v1.0.tar.gz".to_string())
    );
    assert_eq!(
        archive_url(&reference("gitlab", "proj", "dev"), &None),
        Ok("https://gitlab.com/grp/proj/-/archive/dev/proj.tar.gz?private_token=".to_string())
    );
}

#[test]
fn unset_reference_is_head() {
    assert_eq!(
        archive_url(&reference("github", "proj", ""), &None),
        Ok("https://github.com/grp/proj/archive/HEAD.tar.gz".to_string())
    );
}

#[test]
fn github_is_looked_for_before_gitlab() {
    assert_eq!(
        archive_url(&reference("gitlab-github", "p", "HEAD"), &None),
        Ok("https://gitlab-github.com/grp/p/archive/HEAD.tar.gz".to_string())
    );
}

#[test]
fn other_sites_have_no_archive_address() {
    assert_eq!(
        archive_url(&reference("bitbucket", "proj", "HEAD"), &None),
        Err(FetchError::UnsupportedProvider)
    );
}

#[test]
fn success_is_status_200_without_the_marker() {
    assert_eq!(classify_response(200, "https://github.com/u/n/archive/HEAD.tar.gz"), Ok(()));
}

#[test]
fn sign_in_page_is_unauthorized() {
    assert_eq!(
        classify_response(200, "https://gitlab.com/users/sign_in"),
        Err(FetchError::Unauthorized)
    );
    assert_eq!(classify_response(200, "sign_in"), Err(FetchError::Unauthorized));
    // the marker counts only with status 200
    assert_eq!(
        classify_response(404, "https://gitlab.com/users/sign_in"),
        Err(FetchError::UnexpectedStatus(404))
    );
    assert_eq!(classify_response(200, "https://gitlab.com/users/sign-in"), Ok(()));
}

#[test]
fn status_401_is_not_found() {
    assert_eq!(classify_response(401, "https://github.com/u/n"), Err(FetchError::NotFound));
}

#[test]
fn other_statuses_are_unexpected() {
    for status in [0u16, 100, 201, 204, 301, 400, 403, 404, 500, 65535] {
        assert_eq!(
            classify_response(status, "https://github.com/u/n"),
            Err(FetchError::UnexpectedStatus(status))
        );
    }
}

#[test]
fn decimal_digits() {
    assert_eq!(decimal(0), "0");
    assert_eq!(decimal(7), "7");
    assert_eq!(decimal(10), "10");
    assert_eq!(decimal(404), "404");
    assert_eq!(decimal(65535), "65535");
    for n in [1u16, 9, 99, 100, 1234, 50000] {
        assert_eq!(decimal(n), n.to_string());
    }
}

#[test]
fn fetch_error_messages() {
    assert_eq!(
        FetchError::Unauthorized.message(),
        "UNAUTHORIZED: Please set private_token, can use see set-token <your access-token>"
    );
    assert_eq!(FetchError::NotFound.message(), "Could not find repository.");
    assert_eq!(FetchError::UnexpectedStatus(503).message(), "Received response status: 503");
    assert_eq!(FetchError::Network.message(), "The connection failed.");
    assert_eq!(FetchError::UnsupportedProvider.message(), "Site provider not supported.");
}

#[test]
fn how_failures_end_the_run() {
    assert_eq!(FetchError::Unauthorized.termination(), Termination::Exit(1));
    assert_eq!(FetchError::NotFound.termination(), Termination::Exit(1));
    assert_eq!(FetchError::UnexpectedStatus(500).termination(), Termination::Abort);
    assert_eq!(FetchError::Network.termination(), Termination::Abort);
    assert_eq!(FetchError::UnsupportedProvider.termination(), Termination::Abort);
}

#[test]
fn progress_by_content_length() {
    assert_eq!(progress_for(Some(1024)), Progress::Bar(1024));
    assert_eq!(progress_for(Some(0)), Progress::Bar(0));
    assert_eq!(progress_for(None), Progress::Spinner);
}

#[test]
fn gitlab_archive_address_of_a_nested_name() {
    let r = resolve("gitlab:grp/sub/proj").unwrap();
    assert_eq!(
        archive_url(&r, &None),
        Ok("https://gitlab.com/grp/sub/proj/-/archive/HEAD/sub/proj.tar.gz?private_token="
            .to_string())
    );
}
