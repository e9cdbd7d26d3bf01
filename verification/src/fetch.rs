//! What the fetch of an archive decides: where the archive of a repository
//! lies, what a response means, how a failure ends the run, and how progress
//! is shown. The request itself is made by the caller.

use crate::resolver::{supported, RepositoryRef, RepositoryRefView};
use crate::text::{contains_text, text_contains, text_of, to_chars};
use vstd::prelude::*;
use vstd::string::*;

verus! {

/// Why a fetch failed.
#[derive(Debug, Clone, Copy, PartialEq, Eq)]
pub enum FetchError {
    /// The provider answered with its sign-in page: a token is needed.
    Unauthorized,
    /// The provider does not show the repository.
    NotFound,
    /// Any other status than success.
    UnexpectedStatus(u16),
    /// The transport failed, during the request or while the archive was read.
    Network,
    /// No archive address is known for the site.
    UnsupportedProvider,
}

/// How a run ends after a failure.
#[derive(Debug, Clone, Copy, PartialEq, Eq)]
pub enum Termination {
    /// The process exits with this code.
    Exit(i32),
    /// The process ends abnormally.
    Abort,
}

/// How progress is shown while the archive is read.
#[derive(Debug, Clone, Copy, PartialEq, Eq)]
pub enum Progress {
    /// A bar against the announced length of the body.
    Bar(u64),
    /// A spinner, where no length was announced.
    Spinner,
}

/// The reference that stands in an address: `HEAD` where none is set.
pub open spec fn reference_or_head(reference: Seq<char>) -> Seq<char> {
    if reference.len() == 0 {
        "HEAD"@
    } else {
        reference
    }
}

/// The token that stands in an address: the empty text where none is set.
pub open spec fn token_or_empty(token: Option<Seq<char>>) -> Seq<char> {
    match token {
        Some(t) => t,
        None => Seq::empty(),
    }
}

/// The address of the archive: GitHub's form where the site names GitHub,
/// GitLab's where it names GitLab, and none for any other site.
pub open spec fn archive_url_spec(r: RepositoryRefView, token: Option<Seq<char>>) -> Result<
    Seq<char>,
    FetchError,
> {
    if contains_text(r.site, "github"@) {
        Ok(r.canonical_url + "/archive/"@ + reference_or_head(r.reference) + ".tar.gz"@)
    } else if contains_text(r.site, "gitlab"@) {
        Ok(
            r.canonical_url + "/-/archive/"@ + reference_or_head(r.reference) + "/"@ + r.name
                + ".tar.gz?private_token="@ + token_or_empty(token),
        )
    } else {
        Err(FetchError::UnsupportedProvider)
    }
}

/// What a response means: success is status 200 from an address without the
/// sign-in marker.
pub open spec fn classify_spec(status: u16, final_url: Seq<char>) -> Result<(), FetchError> {
    if status == 200 {
        if contains_text(final_url, "sign_in"@) {
            Err(FetchError::Unauthorized)
        } else {
            Ok(())
        }
    } else if status == 401 {
        Err(FetchError::NotFound)
    } else {
        Err(FetchError::UnexpectedStatus(status))
    }
}

/// The digit `d` as a text.
pub open spec fn digit_text(d: int) -> Seq<char> {
    if d == 0 {
        "0"@
    } else if d == 1 {
        "1"@
    } else if d == 2 {
        "2"@
    } else if d == 3 {
        "3"@
    } else if d == 4 {
        "4"@
    } else if d == 5 {
        "5"@
    } else if d == 6 {
        "6"@
    } else if d == 7 {
        "7"@
    } else if d == 8 {
        "8"@
    } else {
        "9"@
    }
}

/// The decimal digits of `n`.
pub open spec fn decimal_text(n: nat) -> Seq<char>
    decreases n,
{
    if n < 10 {
        digit_text(n as int)
    } else {
        decimal_text(n / 10) + digit_text((n % 10) as int)
    }
}

/// The one-line diagnostic of a failure.
pub open spec fn message_spec(e: FetchError) -> Seq<char> {
    match e {
        FetchError::Unauthorized => "UNAUTHORIZED: Please set private_token, can use see set-token <your access-token>"@,
        FetchError::NotFound => "Could not find repository."@,
        FetchError::UnexpectedStatus(code) => "Received response status: "@ + decimal_text(
            code as nat,
        ),
        FetchError::Network => "The connection failed."@,
        FetchError::UnsupportedProvider => "Site provider not supported."@,
    }
}

fn digit_str(d: u16) -> (s: &'static str)
    requires
        d < 10,
    ensures
        s@ == digit_text(d as int),
{
    if d == 0 {
        "0"
    } else if d == 1 {
        "1"
    } else if d == 2 {
        "2"
    } else if d == 3 {
        "3"
    } else if d == 4 {
        "4"
    } else if d == 5 {
        "5"
    } else if d == 6 {
        "6"
    } else if d == 7 {
        "7"
    } else if d == 8 {
        "8"
    } else {
        "9"
    }
}

/// `n` written in decimal digits.
pub fn decimal(n: u16) -> (s: String)
    ensures
        s@ == decimal_text(n as nat),
    decreases n,
{
    if n < 10 {
        String::from_str(digit_str(n))
    } else {
        let mut s = decimal(n / 10);
        s.append(digit_str(n % 10));
        s
    }
}

impl FetchError {
    /// The one-line diagnostic of this failure.
    pub fn message(&self) -> (s: String)
        ensures
            s@ == message_spec(*self),
    {
        match self {
            FetchError::Unauthorized => String::from_str(
                "UNAUTHORIZED: Please set private_token, can use see set-token <your access-token>",
            ),
            FetchError::NotFound => String::from_str("Could not find repository."),
            FetchError::UnexpectedStatus(code) => {
                let mut s = String::from_str("Received response status: ");
                let digits = decimal(*code);
                s.append(digits.as_str());
                s
            },
            FetchError::Network => String::from_str("The connection failed."),
            FetchError::UnsupportedProvider => String::from_str("Site provider not supported."),
        }
    }

    /// How the run ends: with exit code 1 where a token or another repository
    /// would help, abnormally otherwise.
    pub fn termination(&self) -> (t: Termination)
        ensures
            t == match *self {
                FetchError::Unauthorized | FetchError::NotFound => Termination::Exit(1),
                _ => Termination::Abort,
            },
    {
        match self {
            FetchError::Unauthorized => Termination::Exit(1),
            FetchError::NotFound => Termination::Exit(1),
            _ => Termination::Abort,
        }
    }
}

/// The address from which the archive of `r` is fetched.
pub fn archive_url(r: &RepositoryRef, token: &Option<String>) -> (res: Result<String, FetchError>)
    ensures
        match res {
            Ok(url) => archive_url_spec(r@, text_of(*token)) == Ok::<Seq<char>, FetchError>(url@),
            Err(e) => archive_url_spec(r@, text_of(*token)) == Err::<Seq<char>, FetchError>(e),
        },
        supported(r@.site) ==> res is Ok,
{
    let site = to_chars(r.site.as_str());
    let github = to_chars("github");
    let gitlab = to_chars("gitlab");
    let is_github = text_contains(site.as_slice(), github.as_slice());
    let is_gitlab = text_contains(site.as_slice(), gitlab.as_slice());
    if !is_github && !is_gitlab {
        return Err(FetchError::UnsupportedProvider);
    }
    let mut url = r.canonical_url.clone();
    if is_github {
        url.append("/archive/");
    } else {
        url.append("/-/archive/");
    }
    if r.reference.as_str().is_empty() {
        url.append("HEAD");
    } else {
        url.append(r.reference.as_str());
    }
    if is_github {
        url.append(".tar.gz");
    } else {
        url.append("/");
        url.append(r.name.as_str());
        url.append(".tar.gz?private_token=");
        match token {
            Some(t) => {
                url.append(t.as_str());
            },
            None => {
                assert(url@ + Seq::<char>::empty() =~= url@);
            },
        }
    }
    Ok(url)
}

/// Classifies the response to the request for the archive, by its status and
/// by the address that the request ended at.
pub fn classify_response(status: u16, final_url: &str) -> (r: Result<(), FetchError>)
    ensures
        r == classify_spec(status, final_url@),
        r is Ok <==> status == 200 && !contains_text(final_url@, "sign_in"@),
{
    if status == 200 {
        let url = to_chars(final_url);
        let marker = to_chars("sign_in");
        if text_contains(url.as_slice(), marker.as_slice()) {
            Err(FetchError::Unauthorized)
        } else {
            Ok(())
        }
    } else if status == 401 {
        Err(FetchError::NotFound)
    } else {
        Err(FetchError::UnexpectedStatus(status))
    }
}

/// A bar where the length of the body is announced, a spinner where it is not.
pub fn progress_for(content_length: Option<u64>) -> (p: Progress)
    ensures
        p == match content_length {
            Some(total) => Progress::Bar(total),
            None => Progress::Spinner,
        },
{
    match content_length {
        Some(total) => Progress::Bar(total),
        None => Progress::Spinner,
    }
}

/// A response with status 200 from an address that holds the sign-in marker
/// is no success: it is classified as unauthorized.
pub proof fn law_sign_in_is_unauthorized(final_url: Seq<char>)
    requires
        contains_text(final_url, "sign_in"@),
    ensures
        classify_spec(200, final_url) == Err::<(), FetchError>(FetchError::Unauthorized),
{
}

} // verus!
