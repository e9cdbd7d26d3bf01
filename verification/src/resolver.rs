//! Resolution of a repository reference (`user/name`, `gitlab:user/name`,
//! `git@host:user/name`, `https://host/user/name`) into a [`RepositoryRef`].
//!
//! The grammar is matched from left to right by three matchers: the site
//! prefix, the mandatory `user/name` pair, and the optional `:/path` suffix.
//! A prefix is taken only if the pair after it matches; the prefixes are tried
//! in the order address, `git@` form, alias, and then none at all. The user
//! is one segment; the name runs up to the first `:` or `#` and may hold `/`.

use crate::text::{
    begins_with, contains_text, ends_with, is_space, char_is_space, part, slice_string,
    text_begins_with, text_contains, text_ends_with, to_chars, without_suffix, without_trailing,
};
use vstd::prelude::*;
use vstd::string::*;

verus! {

/// How the archive of a repository is retrieved.
#[derive(Debug, Clone, Copy, PartialEq, Eq)]
pub enum TransportMode {
    /// A gzip-compressed tar archive, served by the known providers.
    Tar,
    /// No retrieval is known for the site.
    Unsupported,
}

/// Why a reference did not resolve.
#[derive(Debug, Clone, Copy, PartialEq, Eq)]
pub enum ResolveError {
    /// The text has no `user/name` pair.
    NotEnoughArguments,
    /// The site is neither GitHub nor GitLab.
    UnsupportedProvider,
    /// Nothing is left of the name once a trailing `/` and `.git` are removed.
    MissingSegment,
}

/// The one-line diagnostic of a failed resolution.
pub open spec fn message_spec(e: ResolveError) -> Seq<char> {
    match e {
        ResolveError::NotEnoughArguments => "Not enough arguments."@,
        ResolveError::UnsupportedProvider => "cli supports GitHub, GitLab"@,
        ResolveError::MissingSegment => "The repository has no name."@,
    }
}

impl ResolveError {
    /// The one-line diagnostic of this failure.
    pub fn message(&self) -> (s: String)
        ensures
            s@ == message_spec(*self),
    {
        match self {
            ResolveError::NotEnoughArguments => String::from_str("Not enough arguments."),
            ResolveError::UnsupportedProvider => String::from_str("cli supports GitHub, GitLab"),
            ResolveError::MissingSegment => String::from_str("The repository has no name."),
        }
    }
}

/// A resolved reference.
#[derive(Debug, Clone, PartialEq, Eq)]
pub struct RepositoryRef {
    pub site: String,
    pub user: String,
    pub name: String,
    pub reference: String,
    pub subdirectory: Option<String>,
    pub canonical_url: String,
    pub transport_mode: TransportMode,
}

/// What a [`RepositoryRef`] holds, as sequences of characters.
pub struct RepositoryRefView {
    pub site: Seq<char>,
    pub user: Seq<char>,
    pub name: Seq<char>,
    pub reference: Seq<char>,
    pub subdirectory: Option<Seq<char>>,
    pub canonical_url: Seq<char>,
    pub transport_mode: TransportMode,
}

impl View for RepositoryRef {
    type V = RepositoryRefView;

    open spec fn view(&self) -> RepositoryRefView {
        RepositoryRefView {
            site: self.site@,
            user: self.user@,
            name: self.name@,
            reference: self.reference@,
            subdirectory: match self.subdirectory {
                Some(p) => Some(p@),
                None => None,
            },
            canonical_url: self.canonical_url@,
            transport_mode: self.transport_mode,
        }
    }
}

impl RepositoryRefView {
    /// What holds of every resolved reference.
    pub open spec fn well_formed(self) -> bool {
        &&& self.user.len() > 0
        &&& self.name.len() > 0
        &&& self.reference.len() > 0
        &&& supported(self.site)
        &&& self.transport_mode == TransportMode::Tar
        &&& self.transport_mode == mode_of(self.site)
        &&& self.canonical_url == canonical_url(self.site, self.user, self.name)
    }
}

/// The classes of characters at which a part of a reference ends.
#[derive(Clone, Copy)]
pub enum Delim {
    /// `/`
    Slash,
    /// `/` or `:`, after a host
    HostEnd,
    /// `/` or white space, after a user
    UserEnd,
    /// `:` or `#`, after a name
    NameEnd,
    /// `/`, `#` or white space, after a segment of a path
    SegmentEnd,
}

/// Whether `c` is in the class `d`.
pub open spec fn stops(d: Delim, c: char) -> bool {
    match d {
        Delim::Slash => c == '/',
        Delim::HostEnd => c == '/' || c == ':',
        Delim::UserEnd => c == '/' || is_space(c),
        Delim::NameEnd => c == ':' || c == '#',
        Delim::SegmentEnd => c == '/' || c == '#' || is_space(c),
    }
}

/// The first index at or after `from` whose character is in `d`; the length of
/// `s` if there is none.
pub open spec fn scan(s: Seq<char>, from: int, d: Delim) -> int
    decreases s.len() - from,
{
    if from < 0 || from >= s.len() {
        s.len() as int
    } else if stops(d, s[from]) {
        from
    } else {
        scan(s, from + 1, d)
    }
}

/// The end of the longest run of `/segment` groups that starts at `i`; `i`
/// itself if none starts there. A segment is not empty.
pub open spec fn path_end(s: Seq<char>, i: int) -> int
    decreases s.len() - i,
{
    let e = scan(s, i + 1, Delim::SegmentEnd);
    if 0 <= i < s.len() && s[i] == '/' && i + 1 < e <= s.len() {
        path_end(s, e)
    } else {
        i
    }
}

/// The greatest index in `1..below` that holds a `:`; 0 if there is none.
pub open spec fn last_colon(s: Seq<char>, below: int) -> int
    decreases below,
{
    if below <= 1 {
        0
    } else if s[below - 1] == ':' {
        below - 1
    } else {
        last_colon(s, below - 1)
    }
}

/// Where the parts of a reference lie in its text.
pub struct Shape {
    /// The site token, if a prefix gave one.
    pub site: Option<(int, int)>,
    pub user_start: int,
    /// The `/` after the user; the name starts behind it.
    pub user_end: int,
    pub name_end: int,
    /// The end of the path behind the `:` at `name_end`, if it is beyond
    /// `name_end + 1`; else no path is given.
    pub path_end: int,
}

/// The pair `user/name` at `start`, with the path suffix if one follows:
/// the user is not empty and holds neither `/` nor white space, the name is
/// not empty and runs up to the first `:` or `#`, or to the end.
pub open spec fn tail_at(s: Seq<char>, site: Option<(int, int)>, start: int) -> Option<Shape> {
    let q = scan(s, start, Delim::UserEnd);
    let n = scan(s, q + 1, Delim::NameEnd);
    if 0 <= start < q && q < s.len() && s[q] == '/' && q + 1 < n {
        Some(
            Shape {
                site,
                user_start: start,
                user_end: q,
                name_end: n,
                path_end: if n < s.len() && s[n] == ':' {
                    path_end(s, n + 1)
                } else {
                    n
                },
            },
        )
    } else {
        None
    }
}

/// `https://host/` and the pair behind it; the host is not empty and holds no `:`.
pub open spec fn url_shape(s: Seq<char>) -> Option<Shape> {
    let k = "https://"@.len() as int;
    let h = scan(s, k, Delim::HostEnd);
    if begins_with(s, "https://"@) && k < h < s.len() && s[h] == '/' {
        tail_at(s, Some((k, h)), h + 1)
    } else {
        None
    }
}

/// `git@host:` or `git@host/` and the pair behind it; the host is not empty.
pub open spec fn ssh_shape(s: Seq<char>) -> Option<Shape> {
    let k = "git@"@.len() as int;
    let h = scan(s, k, Delim::HostEnd);
    if begins_with(s, "git@"@) && k < h < s.len() {
        tail_at(s, Some((k, h)), h + 1)
    } else {
        None
    }
}

/// `alias:` and the pair behind it. The alias is not empty, holds no `/`, and
/// ends at the last `:` that leaves a user before the first `/`.
pub open spec fn alias_shape(s: Seq<char>) -> Option<Shape> {
    let q = scan(s, 0, Delim::Slash);
    let p = last_colon(s, q - 1);
    if q < s.len() && p > 0 {
        tail_at(s, Some((0, p)), p + 1)
    } else {
        None
    }
}

/// The first of four shapes that is there.
pub open spec fn first_of(
    a: Option<Shape>,
    b: Option<Shape>,
    c: Option<Shape>,
    d: Option<Shape>,
) -> Option<Shape> {
    if a is Some {
        a
    } else if b is Some {
        b
    } else if c is Some {
        c
    } else {
        d
    }
}

/// The shape of a reference: that of the first form that matches, in the order
/// address, `git@` form, alias, bare pair.
pub open spec fn shape_of(s: Seq<char>) -> Option<Shape> {
    first_of(url_shape(s), ssh_shape(s), alias_shape(s), tail_at(s, None, 0))
}

/// A site token without one trailing `.com` or `.org`.
pub open spec fn strip_tld(token: Seq<char>) -> Seq<char> {
    if ends_with(token, ".com"@) {
        without_suffix(token, ".com"@)
    } else {
        without_suffix(token, ".org"@)
    }
}

/// Whether the site names a known provider.
pub open spec fn supported(site: Seq<char>) -> bool {
    contains_text(site, "github"@) || contains_text(site, "gitlab"@)
}

/// How a site is retrieved: as a tar archive where it names a known provider.
pub open spec fn mode_of(site: Seq<char>) -> TransportMode {
    if supported(site) {
        TransportMode::Tar
    } else {
        TransportMode::Unsupported
    }
}

/// The address of a repository's page: `https://{site}.com/{user}/{name}`.
pub open spec fn canonical_url(site: Seq<char>, user: Seq<char>, name: Seq<char>) -> Seq<char> {
    "https://"@ + site + ".com/"@ + user + "/"@ + name
}

/// The site token that a shape gives, if a prefix gave one.
pub open spec fn token_of(s: Seq<char>, shape: Shape) -> Option<Seq<char>> {
    match shape.site {
        Some((a, b)) => Some(s.subrange(a, b)),
        None => None,
    }
}

/// The user that a shape gives.
pub open spec fn user_of(s: Seq<char>, shape: Shape) -> Seq<char> {
    s.subrange(shape.user_start, shape.user_end)
}

/// The name as it is written.
pub open spec fn name_of(s: Seq<char>, shape: Shape) -> Seq<char> {
    s.subrange(shape.user_end + 1, shape.name_end)
}

/// The path behind `:`, if one is given.
pub open spec fn subdirectory_of(s: Seq<char>, shape: Shape) -> Option<Seq<char>> {
    if shape.path_end > shape.name_end + 1 {
        Some(s.subrange(shape.name_end + 1, shape.path_end))
    } else {
        None
    }
}

/// The site that a token stands for: the token without its suffix, and
/// `github` where there is no token.
pub open spec fn site_of(token: Option<Seq<char>>) -> Seq<char> {
    match token {
        Some(t) => strip_tld(t),
        None => "github"@,
    }
}

/// The name that a written name stands for: without one trailing `/`, and
/// then without any trailing `.git`.
pub open spec fn name_text(written: Seq<char>) -> Seq<char> {
    without_trailing(without_suffix(written, "/"@), ".git"@)
}

/// What the parts of a reference give: the site must be a known provider, and
/// the name more than `/` and `.git`; the reference is `HEAD`.
pub open spec fn outcome(
    token: Option<Seq<char>>,
    user: Seq<char>,
    name: Seq<char>,
    subdirectory: Option<Seq<char>>,
) -> Result<RepositoryRefView, ResolveError> {
    let site = site_of(token);
    let name = name_text(name);
    if !supported(site) {
        Err(ResolveError::UnsupportedProvider)
    } else if name.len() == 0 {
        Err(ResolveError::MissingSegment)
    } else {
        Ok(
            RepositoryRefView {
                site,
                user,
                name,
                reference: "HEAD"@,
                subdirectory,
                canonical_url: canonical_url(site, user, name),
                transport_mode: TransportMode::Tar,
            },
        )
    }
}

/// What a reference resolves to.
pub open spec fn resolve_spec(s: Seq<char>) -> Result<RepositoryRefView, ResolveError> {
    match shape_of(s) {
        None => Err(ResolveError::NotEnoughArguments),
        Some(shape) => outcome(
            token_of(s, shape),
            user_of(s, shape),
            name_of(s, shape),
            subdirectory_of(s, shape),
        ),
    }
}

struct Marks {
    site: Option<(usize, usize)>,
    user_start: usize,
    user_end: usize,
    name_end: usize,
    path_end: usize,
}

impl View for Marks {
    type V = Shape;

    closed spec fn view(&self) -> Shape {
        Shape {
            site: span_view(self.site),
            user_start: self.user_start as int,
            user_end: self.user_end as int,
            name_end: self.name_end as int,
            path_end: self.path_end as int,
        }
    }
}

spec fn span_view(span: Option<(usize, usize)>) -> Option<(int, int)> {
    match span {
        Some((a, b)) => Some((a as int, b as int)),
        None => None,
    }
}

spec fn marks_view(m: Option<Marks>) -> Option<Shape> {
    match m {
        Some(m) => Some(m@),
        None => None,
    }
}

/// Whether the marks lie in a text of length `len` in their order.
spec fn in_order(shape: Shape, len: int) -> bool {
    &&& 0 <= shape.user_start < shape.user_end
    &&& shape.user_end + 1 < shape.name_end <= len
    &&& shape.name_end <= shape.path_end <= len
    &&& shape.site matches Some((a, b)) ==> 0 <= a < b < shape.user_start
}

/// A scan ends within the text, at a character of the class if it ends
/// before the end, and passes over none of the class.
pub proof fn lemma_scan(s: Seq<char>, from: int, d: Delim)
    requires
        0 <= from <= s.len(),
    ensures
        from <= scan(s, from, d) <= s.len(),
        scan(s, from, d) < s.len() ==> stops(d, s[scan(s, from, d)]),
        forall|i: int| from <= i < scan(s, from, d) ==> !stops(d, #[trigger] s[i]),
    decreases s.len() - from,
{
    if from < s.len() && !stops(d, s[from]) {
        lemma_scan(s, from + 1, d);
    }
}

/// The last colon is a colon, and none follows it below `below`.
pub proof fn lemma_last_colon(s: Seq<char>, below: int)
    ensures
        last_colon(s, below) == 0 || (1 <= last_colon(s, below) < below && s[last_colon(
            s,
            below,
        )] == ':'),
        forall|i: int| last_colon(s, below) < i < below && 1 <= i ==> #[trigger] s[i] != ':',
    decreases below,
{
    if below > 1 && s[below - 1] != ':' {
        lemma_last_colon(s, below - 1);
    }
}

fn char_stops(d: Delim, c: char) -> (b: bool)
    ensures
        b == stops(d, c),
{
    match d {
        Delim::Slash => c == '/',
        Delim::HostEnd => c == '/' || c == ':',
        Delim::UserEnd => c == '/' || char_is_space(c),
        Delim::NameEnd => c == ':' || c == '#',
        Delim::SegmentEnd => c == '/' || c == '#' || char_is_space(c),
    }
}

fn scan_to(v: &Vec<char>, from: usize, d: Delim) -> (r: usize)
    requires
        from <= v.len(),
    ensures
        r == scan(v@, from as int, d),
        from <= r <= v.len(),
{
    let mut i = from;
    while i < v.len() && !char_stops(d, v[i])
        invariant
            from <= i <= v.len(),
            scan(v@, i as int, d) == scan(v@, from as int, d),
        decreases v.len() - i,
    {
        i += 1;
    }
    i
}

fn path_end_of(v: &Vec<char>, start: usize) -> (r: usize)
    requires
        start <= v.len(),
    ensures
        r == path_end(v@, start as int),
        start <= r <= v.len(),
{
    let mut at = start;
    loop
        invariant
            start <= at <= v.len(),
            path_end(v@, at as int) == path_end(v@, start as int),
        decreases v.len() - at,
    {
        if at >= v.len() || v[at] != '/' {
            return at;
        }
        let e = scan_to(v, at + 1, Delim::SegmentEnd);
        if e <= at + 1 {
            return at;
        }
        at = e;
    }
}

fn last_colon_of(v: &Vec<char>, below: usize) -> (r: usize)
    requires
        below <= v.len(),
    ensures
        r == last_colon(v@, below as int),
        r == 0 || r < below,
{
    let mut i = below;
    while i > 1 && v[i - 1] != ':'
        invariant
            i <= below <= v.len(),
            last_colon(v@, i as int) == last_colon(v@, below as int),
        decreases i,
    {
        i -= 1;
    }
    if i <= 1 {
        0
    } else {
        i - 1
    }
}

fn tail_marks(v: &Vec<char>, site: Option<(usize, usize)>, start: usize) -> (r: Option<Marks>)
    requires
        start <= v.len(),
        site matches Some((a, b)) ==> a < b < start,
    ensures
        marks_view(r) == tail_at(v@, span_view(site), start as int),
        r matches Some(m) ==> in_order(m@, v@.len() as int),
{
    let q = scan_to(v, start, Delim::UserEnd);
    if q <= start || q >= v.len() || v[q] != '/' {
        return None;
    }
    let n = scan_to(v, q + 1, Delim::NameEnd);
    if n <= q + 1 {
        return None;
    }
    let path_end = if n < v.len() && v[n] == ':' {
        path_end_of(v, n + 1)
    } else {
        n
    };
    Some(Marks { site, user_start: start, user_end: q, name_end: n, path_end })
}

fn url_marks(v: &Vec<char>) -> (r: Option<Marks>)
    ensures
        marks_view(r) == url_shape(v@),
        r matches Some(m) ==> in_order(m@, v@.len() as int),
{
    let scheme = to_chars("https://");
    if !text_begins_with(v.as_slice(), scheme.as_slice()) {
        return None;
    }
    let k = scheme.len();
    let h = scan_to(v, k, Delim::HostEnd);
    if h <= k || h >= v.len() || v[h] != '/' {
        return None;
    }
    tail_marks(v, Some((k, h)), h + 1)
}

fn ssh_marks(v: &Vec<char>) -> (r: Option<Marks>)
    ensures
        marks_view(r) == ssh_shape(v@),
        r matches Some(m) ==> in_order(m@, v@.len() as int),
{
    let lead = to_chars("git@");
    if !text_begins_with(v.as_slice(), lead.as_slice()) {
        return None;
    }
    let k = lead.len();
    let h = scan_to(v, k, Delim::HostEnd);
    if h <= k || h >= v.len() {
        return None;
    }
    tail_marks(v, Some((k, h)), h + 1)
}

fn alias_marks(v: &Vec<char>) -> (r: Option<Marks>)
    ensures
        marks_view(r) == alias_shape(v@),
        r matches Some(m) ==> in_order(m@, v@.len() as int),
{
    let q = scan_to(v, 0, Delim::Slash);
    if q >= v.len() || q == 0 {
        proof {
            if q == 0 {
                assert(last_colon(v@, q - 1) == 0);
            }
        }
        return None;
    }
    let p = last_colon_of(v, q - 1);
    if p == 0 {
        return None;
    }
    tail_marks(v, Some((0, p)), p + 1)
}

fn marks_of(v: &Vec<char>) -> (r: Option<Marks>)
    ensures
        marks_view(r) == shape_of(v@),
        r matches Some(m) ==> in_order(m@, v@.len() as int),
{
    let url = url_marks(v);
    if url.is_some() {
        return url;
    }
    let ssh = ssh_marks(v);
    if ssh.is_some() {
        return ssh;
    }
    let alias = alias_marks(v);
    if alias.is_some() {
        return alias;
    }
    tail_marks(v, None, 0)
}

/// How many characters of `token` are left without one trailing `.com` or `.org`.
fn tld_keep(token: &[char]) -> (keep: usize)
    ensures
        keep <= token@.len(),
        token@.take(keep as int) == strip_tld(token@),
{
    let com = to_chars(".com");
    let org = to_chars(".org");
    if text_ends_with(token, com.as_slice()) {
        token.len() - com.len()
    } else if text_ends_with(token, org.as_slice()) {
        token.len() - org.len()
    } else {
        assert(token@.take(token@.len() as int) =~= token@);
        token.len()
    }
}

/// How many characters of `text` are left without any trailing `.git`.
fn git_keep(text: &[char]) -> (keep: usize)
    ensures
        keep <= text@.len(),
        text@.take(keep as int) == without_trailing(text@, ".git"@),
{
    let suffix = to_chars(".git");
    let mut keep = text.len();
    assert(text@.take(keep as int) =~= text@);
    if suffix.len() == 0 {
        return keep;
    }
    while text_ends_with(vstd::slice::slice_subrange(text, 0, keep), suffix.as_slice())
        invariant
            keep <= text@.len(),
            suffix@ == ".git"@,
            suffix@.len() > 0,
            without_trailing(text@.take(keep as int), suffix@) == without_trailing(
                text@,
                suffix@,
            ),
        decreases keep,
    {
        assert(text@.take(keep as int).take(keep - suffix@.len()) =~= text@.take(
            keep - suffix@.len(),
        ));
        keep -= suffix.len();
    }
    keep
}

/// How many characters of a written name make the name.
fn name_keep(written: &[char]) -> (keep: usize)
    ensures
        keep <= written@.len(),
        written@.take(keep as int) == name_text(written@),
{
    let slash = to_chars("/");
    let cut = if text_ends_with(written, slash.as_slice()) {
        written.len() - slash.len()
    } else {
        assert(written@.take(written@.len() as int) =~= written@);
        written.len()
    };
    let keep = git_keep(vstd::slice::slice_subrange(written, 0, cut));
    assert(written@.subrange(0, cut as int).take(keep as int) =~= written@.take(keep as int));
    assert(written@.subrange(0, cut as int) =~= written@.take(cut as int));
    keep
}

/// Whether `site` names a known provider.
pub fn site_supported(site: &str) -> (b: bool)
    ensures
        b == supported(site@),
{
    let chars = to_chars(site);
    let github = to_chars("github");
    let gitlab = to_chars("gitlab");
    text_contains(chars.as_slice(), github.as_slice()) || text_contains(
        chars.as_slice(),
        gitlab.as_slice(),
    )
}

/// How `site` is retrieved.
pub fn transport_mode_of(site: &str) -> (m: TransportMode)
    ensures
        m == mode_of(site@),
{
    if site_supported(site) {
        TransportMode::Tar
    } else {
        TransportMode::Unsupported
    }
}

/// The address of a repository's page: `https://{site}.com/{user}/{name}`.
pub fn make_canonical_url(site: &str, user: &str, name: &str) -> (url: String)
    ensures
        url@ == canonical_url(site@, user@, name@),
{
    let mut url = String::from_str("https://");
    url.append(site);
    url.append(".com/");
    url.append(user);
    url.append("/");
    url.append(name);
    url
}

/// Resolves a reference. It succeeds exactly where the text has one of the
/// four forms, its site is a known provider and its name is more than `.git`.
pub fn resolve(input: &str) -> (r: Result<RepositoryRef, ResolveError>)
    ensures
        match r {
            Ok(found) => resolve_spec(input@) == Ok::<RepositoryRefView, ResolveError>(found@),
            Err(e) => resolve_spec(input@) == Err::<RepositoryRefView, ResolveError>(e),
        },
        r matches Ok(found) ==> found@.well_formed(),
{
    proof {
        lemma_resolved_is_well_formed(input@);
    }
    let v = to_chars(input);
    let m = match marks_of(&v) {
        None => {
            return Err(ResolveError::NotEnoughArguments);
        },
        Some(m) => m,
    };
    let site = match m.site {
        Some((a, b)) => {
            let keep = tld_keep(part(&v, a, b));
            assert(v@.subrange(a as int, b as int).take(keep as int) =~= v@.subrange(
                a as int,
                a + keep,
            ));
            slice_string(input, a, a + keep)
        },
        None => String::from_str("github"),
    };
    if !site_supported(site.as_str()) {
        return Err(ResolveError::UnsupportedProvider);
    }
    let name_start = m.user_end + 1;
    let keep = name_keep(part(&v, name_start, m.name_end));
    assert(v@.subrange(name_start as int, m.name_end as int).take(keep as int) =~= v@.subrange(
        name_start as int,
        name_start + keep,
    ));
    if keep == 0 {
        return Err(ResolveError::MissingSegment);
    }
    let user = slice_string(input, m.user_start, m.user_end);
    let name = slice_string(input, name_start, name_start + keep);
    let subdirectory = if m.path_end - m.name_end > 1 {
        Some(slice_string(input, m.name_end + 1, m.path_end))
    } else {
        None
    };
    let canonical_url = make_canonical_url(site.as_str(), user.as_str(), name.as_str());
    Ok(
        RepositoryRef {
            site,
            user,
            name,
            reference: String::from_str("HEAD"),
            subdirectory,
            canonical_url,
            transport_mode: TransportMode::Tar,
        },
    )
}

/// Where the characters from `from` up to `r` are outside `d` and the one at
/// `r`, if there is one, is in it, the scan from `from` ends at `r`.
pub proof fn lemma_scan_ends_at(s: Seq<char>, from: int, d: Delim, r: int)
    requires
        0 <= from <= r <= s.len(),
        forall|i: int| from <= i < r ==> !stops(d, #[trigger] s[i]),
        r < s.len() ==> stops(d, s[r]),
    ensures
        scan(s, from, d) == r,
    decreases r - from,
{
    if from < r {
        lemma_scan_ends_at(s, from + 1, d, r);
    }
}

/// Where `r` holds a `:` and no index between `r` and `below` does, the last
/// colon below `below` is at `r`.
pub proof fn lemma_last_colon_at(s: Seq<char>, below: int, r: int)
    requires
        1 <= r < below,
        s[r] == ':',
        forall|i: int| r < i < below ==> #[trigger] s[i] != ':',
    ensures
        last_colon(s, below) == r,
    decreases below,
{
    if below - 1 > r {
        lemma_last_colon_at(s, below - 1, r);
    }
}

/// A text without `/` has no pair at any place.
proof fn lemma_no_slash_no_tail(s: Seq<char>, site: Option<(int, int)>, start: int)
    requires
        forall|i: int| 0 <= i < s.len() ==> #[trigger] s[i] != '/',
    ensures
        tail_at(s, site, start) is None,
{
}

/// A reference without any `/` does not resolve: it has not enough arguments.
pub proof fn law_no_separator_is_rejected(s: Seq<char>)
    requires
        forall|i: int| 0 <= i < s.len() ==> #[trigger] s[i] != '/',
    ensures
        resolve_spec(s) == Err::<RepositoryRefView, ResolveError>(
            ResolveError::NotEnoughArguments,
        ),
{
    let k = "https://"@.len() as int;
    lemma_no_slash_no_tail(s, Some((k, scan(s, k, Delim::HostEnd))), scan(s, k, Delim::HostEnd) + 1);
    let g = "git@"@.len() as int;
    lemma_no_slash_no_tail(s, Some((g, scan(s, g, Delim::HostEnd))), scan(s, g, Delim::HostEnd) + 1);
    let p = last_colon(s, scan(s, 0, Delim::Slash) - 1);
    lemma_no_slash_no_tail(s, Some((0, p)), p + 1);
    lemma_no_slash_no_tail(s, None, 0);
}

/// Every reference that resolves has a user, a name and a reference that are
/// not empty, a site of a known provider, and the address made of them.
pub proof fn lemma_resolved_is_well_formed(s: Seq<char>)
    ensures
        resolve_spec(s) matches Ok(found) ==> found.well_formed(),
{
    reveal_strlit("HEAD");
    if let Some(shape) = shape_of(s) {
        assert(0 <= shape.user_start < shape.user_end < s.len());
    }
}

/// A user as it is written in every form: not empty, without `/` and white
/// space.
pub open spec fn plain_user(user: Seq<char>) -> bool {
    &&& user.len() > 0
    &&& forall|i: int|
        0 <= i < user.len() ==> {
            let c = #[trigger] user[i];
            c != '/' && !is_space(c)
        }
}

/// A name as it is written: not empty, without `:` and `#`. It may hold `/`.
pub open spec fn plain_name(name: Seq<char>) -> bool {
    &&& name.len() > 0
    &&& forall|i: int|
        0 <= i < name.len() ==> {
            let c = #[trigger] name[i];
            c != ':' && c != '#'
        }
}

/// A written name that stands for itself: it ends neither in `/` nor in
/// `.git`.
pub open spec fn whole_name(name: Seq<char>) -> bool {
    plain_name(name) && !ends_with(name, "/"@) && !ends_with(name, ".git"@)
}

/// One segment of a name: not empty, without `/`, `:` and `#`.
pub open spec fn plain_segment(segment: Seq<char>) -> bool {
    &&& segment.len() > 0
    &&& forall|i: int|
        0 <= i < segment.len() ==> {
            let c = #[trigger] segment[i];
            c != '/' && c != ':' && c != '#'
        }
}

/// Whether the text holds no `:`.
pub open spec fn no_colon(text: Seq<char>) -> bool {
    forall|i: int| 0 <= i < text.len() ==> #[trigger] text[i] != ':'
}

/// A site token as it is written behind `https://` and `git@`: not empty,
/// without `/` and `:`.
pub open spec fn plain_host(host: Seq<char>) -> bool {
    &&& host.len() > 0
    &&& forall|i: int|
        0 <= i < host.len() ==> {
            let c = #[trigger] host[i];
            c != '/' && c != ':'
        }
}

/// An alias as it is written: not empty, without `/`.
pub open spec fn plain_alias(alias: Seq<char>) -> bool {
    &&& alias.len() > 0
    &&& forall|i: int| 0 <= i < alias.len() ==> #[trigger] alias[i] != '/'
}

/// A user and a name that a bare pair can be written with: the user holds no
/// `:` either, which would make an alias of what stands before it.
pub open spec fn plain_pair(user: Seq<char>, name: Seq<char>) -> bool {
    plain_user(user) && no_colon(user) && plain_name(name)
}

/// The text `user/name`.
pub open spec fn pair_text(user: Seq<char>, name: Seq<char>) -> Seq<char> {
    user + seq!['/'] + name
}

/// The text `https://host/user/name`.
pub open spec fn address_text(host: Seq<char>, user: Seq<char>, name: Seq<char>) -> Seq<char> {
    "https://"@ + host + seq!['/'] + pair_text(user, name)
}

/// The text `git@host:user/name`, or with `/` behind the host.
pub open spec fn ssh_text(host: Seq<char>, sep: char, user: Seq<char>, name: Seq<char>) -> Seq<
    char,
> {
    "git@"@ + host + seq![sep] + pair_text(user, name)
}

/// The text `alias:user/name`.
pub open spec fn alias_text(alias: Seq<char>, user: Seq<char>, name: Seq<char>) -> Seq<char> {
    alias + seq![':'] + pair_text(user, name)
}

/// The reference that a site token, a user and a name give where nothing is
/// taken off the name.
pub open spec fn resolved_as(token: Option<Seq<char>>, user: Seq<char>, name: Seq<char>) -> RepositoryRefView {
    RepositoryRefView {
        site: site_of(token),
        user,
        name,
        reference: "HEAD"@,
        subdirectory: None,
        canonical_url: canonical_url(site_of(token), user, name),
        transport_mode: TransportMode::Tar,
    }
}

/// A written name with `.git` behind it stands for the same name, unless it
/// ends in `/`; and a name that ends in neither stands for itself.
pub proof fn lemma_name_text(name: Seq<char>)
    ensures
        !ends_with(name, "/"@) ==> name_text(name + ".git"@) == name_text(name),
        !ends_with(name, "/"@) && !ends_with(name, ".git"@) ==> name_text(name) == name,
        plain_name(name) ==> plain_name(name + ".git"@),
{
    reveal_strlit(".git");
    reveal_strlit("/");
    let longer = name + ".git"@;
    if ends_with(longer, "/"@) {
        assert(longer.subrange(longer.len() - 1, longer.len() as int)[0] == longer[longer.len() - 1]);
        assert(longer[longer.len() - 1] == ".git"@[3]);
    }
    crate::text::lemma_without_trailing_appended(name, ".git"@);
    if plain_name(name) {
        assert forall|i: int| 0 <= i < longer.len() implies {
            let c = #[trigger] longer[i];
            c != ':' && c != '#'
        } by {
            if i < name.len() {
                assert(longer[i] == name[i]);
            } else {
                assert(longer[i] == ".git"@[i - name.len()]);
            }
        }
    }
}

/// The site `github` is a known provider.
proof fn lemma_github_is_supported()
    ensures
        supported("github"@),
{
    assert("github"@.subrange(0, "github"@.len() as int) =~= "github"@);
    assert(crate::text::occurs_at("github"@, "github"@, 0));
}

/// Behind any text `lead`, a pair `user/name` that ends the reference is
/// matched as that user and that name, without a subdirectory.
proof fn lemma_tail_of_pair(
    lead: Seq<char>,
    user: Seq<char>,
    name: Seq<char>,
    site: Option<(int, int)>,
)
    requires
        plain_user(user),
        plain_name(name),
    ensures
        ({
            let s = lead + pair_text(user, name);
            let shape = Shape {
                site,
                user_start: lead.len() as int,
                user_end: (lead.len() + user.len()) as int,
                name_end: s.len() as int,
                path_end: s.len() as int,
            };
            &&& tail_at(s, site, lead.len() as int) == Some(shape)
            &&& user_of(s, shape) == user
            &&& name_of(s, shape) == name
            &&& subdirectory_of(s, shape) is None
        }),
{
    let s = lead + pair_text(user, name);
    let a = lead.len() as int;
    let u = user.len() as int;
    assert(s.len() == a + u + 1 + name.len());
    assert(s[a + u] == '/');
    assert forall|i: int| a <= i < a + u implies !stops(Delim::UserEnd, #[trigger] s[i]) by {
        assert(s[i] == user[i - a]);
    }
    lemma_scan_ends_at(s, a, Delim::UserEnd, a + u);
    assert forall|i: int| a + u + 1 <= i < s.len() implies !stops(Delim::NameEnd, #[trigger] s[i]) by {
        assert(s[i] == name[i - a - u - 1]);
    }
    lemma_scan_ends_at(s, a + u + 1, Delim::NameEnd, s.len() as int);
    assert(s.subrange(a, a + u) =~= user);
    assert(s.subrange(a + u + 1, s.len() as int) =~= name);
}

proof fn lemma_bare_pair(user: Seq<char>, name: Seq<char>)
    requires
        plain_pair(user, name),
        !begins_with(pair_text(user, name), "git@"@),
    ensures
        resolve_spec(pair_text(user, name)) == outcome(None, user, name, None),
{
    let s = pair_text(user, name);
    let u = user.len() as int;
    assert(s.len() == u + 1 + name.len());
    assert(s[u] == '/');
    assert forall|i: int| 0 <= i < s.len() implies #[trigger] s[i] != ':' by {
        if i < u {
            assert(s[i] == user[i]);
        } else if i > u {
            assert(s[i] == name[i - u - 1]);
        }
    }
    assert(url_shape(s) is None) by {
        reveal_strlit("https://");
        if begins_with(s, "https://"@) {
            assert(s.subrange(0, 8)[5] == s[5]);
        }
    }
    assert forall|i: int| 0 <= i < u implies !stops(Delim::Slash, #[trigger] s[i]) by {
        assert(s[i] == user[i]);
    }
    lemma_scan_ends_at(s, 0, Delim::Slash, u);
    lemma_last_colon(s, u - 1);
    assert(alias_shape(s) is None);
    lemma_tail_of_pair(Seq::empty(), user, name, None);
    assert(Seq::<char>::empty() + s =~= s);
}

proof fn lemma_address_form(host: Seq<char>, user: Seq<char>, name: Seq<char>)
    requires
        plain_host(host),
        plain_user(user),
        plain_name(name),
    ensures
        resolve_spec(address_text(host, user, name)) == outcome(Some(host), user, name, None),
{
    let lead = "https://"@ + host + seq!['/'];
    let s = lead + pair_text(user, name);
    let k = "https://"@.len() as int;
    let h = k + host.len();
    assert(s.subrange(0, k) =~= "https://"@);
    assert(s[h] == '/');
    assert forall|i: int| k <= i < h implies !stops(Delim::HostEnd, #[trigger] s[i]) by {
        assert(s[i] == host[i - k]);
    }
    lemma_scan_ends_at(s, k, Delim::HostEnd, h);
    lemma_tail_of_pair(lead, user, name, Some((k, h)));
    assert(s.subrange(k, h) =~= host);
}

proof fn lemma_ssh_form(host: Seq<char>, sep: char, user: Seq<char>, name: Seq<char>)
    requires
        plain_host(host),
        sep == ':' || sep == '/',
        plain_user(user),
        plain_name(name),
    ensures
        resolve_spec(ssh_text(host, sep, user, name)) == outcome(Some(host), user, name, None),
{
    let lead = "git@"@ + host + seq![sep];
    let s = lead + pair_text(user, name);
    let k = "git@"@.len() as int;
    let h = k + host.len();
    assert(s.subrange(0, k) =~= "git@"@);
    assert(url_shape(s) is None) by {
        reveal_strlit("https://");
        reveal_strlit("git@");
        if begins_with(s, "https://"@) {
            assert(s.subrange(0, 8)[0] == s[0]);
            assert(s[0] == "git@"@[0]);
        }
    }
    assert(s[h] == sep);
    assert forall|i: int| k <= i < h implies !stops(Delim::HostEnd, #[trigger] s[i]) by {
        assert(s[i] == host[i - k]);
    }
    lemma_scan_ends_at(s, k, Delim::HostEnd, h);
    lemma_tail_of_pair(lead, user, name, Some((k, h)));
    assert(s.subrange(k, h) =~= host);
}

proof fn lemma_alias_form(alias: Seq<char>, user: Seq<char>, name: Seq<char>)
    requires
        plain_alias(alias),
        plain_pair(user, name),
        !begins_with(alias_text(alias, user, name), "git@"@),
    ensures
        resolve_spec(alias_text(alias, user, name)) == outcome(Some(alias), user, name, None),
{
    let lead = alias + seq![':'];
    let s = lead + pair_text(user, name);
    let a = alias.len() as int;
    let u = user.len() as int;
    let q = a + 1 + u;
    assert(s.len() == q + 1 + name.len());
    assert(s[a] == ':');
    assert(s[q] == '/');
    assert forall|i: int| 0 <= i < q implies #[trigger] s[i] != '/' by {
        if i < a {
            assert(s[i] == alias[i]);
        } else if a < i {
            assert(s[i] == user[i - a - 1]);
        }
    }
    assert forall|i: int| a < i < s.len() implies #[trigger] s[i] != ':' by {
        if i < q {
            assert(s[i] == user[i - a - 1]);
        } else if i > q {
            assert(s[i] == name[i - q - 1]);
        }
    }
    assert(url_shape(s) is None) by {
        reveal_strlit("https://");
        if begins_with(s, "https://"@) {
            assert(s.subrange(0, 8)[5] == s[5]);
            assert(s.subrange(0, 8)[6] == s[6]);
            // the colon at 5 lies in the alias or ends it, so no `/` is at 6
            assert(a >= 5);
            assert(6 < q);
        }
    }
    assert(ssh_shape(s) is None);
    assert forall|i: int| 0 <= i < q implies !stops(Delim::Slash, #[trigger] s[i]) by {}
    lemma_scan_ends_at(s, 0, Delim::Slash, q);
    lemma_last_colon_at(s, q - 1, a);
    lemma_tail_of_pair(lead, user, name, Some((0, a)));
    assert(s.subrange(0, a) =~= alias);
}

/// A bare pair `user/name` that does not begin with `git@` resolves as that
/// user and that name at the site `github`. The name may hold `/`, and is
/// kept whole. With `.git` behind the name the pair resolves alike.
pub proof fn law_bare_pair(user: Seq<char>, name: Seq<char>)
    requires
        plain_pair(user, name),
        !begins_with(pair_text(user, name), "git@"@),
    ensures
        resolve_spec(pair_text(user, name)) == outcome(None, user, name, None),
        !ends_with(name, "/"@) ==> resolve_spec(pair_text(user, name + ".git"@)) == resolve_spec(
            pair_text(user, name),
        ),
        whole_name(name) ==> resolve_spec(pair_text(user, name)) == Ok::<
            RepositoryRefView,
            ResolveError,
        >(resolved_as(None, user, name)),
{
    lemma_name_text(name);
    lemma_github_is_supported();
    lemma_bare_pair(user, name);
    let longer = pair_text(user, name + ".git"@);
    assert(longer =~= pair_text(user, name) + ".git"@);
    assert(!begins_with(longer, "git@"@)) by {
        if begins_with(longer, "git@"@) {
            reveal_strlit("git@");
            let s = pair_text(user, name);
            // the first `/` of the pair lies within the first four characters
            assert(longer.subrange(0, 4)[0] == longer[0]);
            assert(longer.subrange(0, 4)[1] == longer[1]);
            assert(longer.subrange(0, 4)[2] == longer[2]);
            assert(longer.subrange(0, 4)[3] == longer[3]);
            assert(longer[user.len() as int] == '/');
            assert(s.len() >= 4);
            assert(s.subrange(0, 4) =~= longer.subrange(0, 4));
        }
    }
    lemma_bare_pair(user, name + ".git"@);
}

/// A bare pair `user/name` of a name that is more than `/` and `.git`
/// resolves to the site `github`, the reference `HEAD` and no subdirectory.
pub proof fn law_bare_pair_defaults(user: Seq<char>, name: Seq<char>)
    requires
        plain_pair(user, name),
        !begins_with(pair_text(user, name), "git@"@),
        name_text(name).len() > 0,
    ensures
        resolve_spec(pair_text(user, name)) matches Ok(found) && found.site == "github"@
            && found.reference == "HEAD"@ && found.subdirectory is None && found.user == user
            && found.name == name_text(name),
{
    lemma_bare_pair(user, name);
    lemma_github_is_supported();
}

/// An address `https://host/user/name` resolves as that user and that name at
/// the site of the host: the host loses its suffix before the provider is
/// looked for, and the address is tried before every other form. The name may
/// hold `/`, and is kept whole. With `.git` behind the name the address
/// resolves alike.
pub proof fn law_address_form(host: Seq<char>, user: Seq<char>, name: Seq<char>)
    requires
        plain_host(host),
        plain_user(user),
        plain_name(name),
    ensures
        resolve_spec(address_text(host, user, name)) == outcome(Some(host), user, name, None),
        !ends_with(name, "/"@) ==> resolve_spec(address_text(host, user, name + ".git"@))
            == resolve_spec(address_text(host, user, name)),
        whole_name(name) && supported(strip_tld(host)) ==> resolve_spec(
            address_text(host, user, name),
        ) == Ok::<RepositoryRefView, ResolveError>(resolved_as(Some(host), user, name)),
{
    lemma_name_text(name);
    lemma_address_form(host, user, name);
    lemma_address_form(host, user, name + ".git"@);
}

/// A reference `git@host:user/name` or `git@host/user/name` resolves as that
/// user and that name at the site of the host. The name may hold `/`, and is
/// kept whole. With `.git` behind the name the reference resolves alike.
pub proof fn law_ssh_form(host: Seq<char>, sep: char, user: Seq<char>, name: Seq<char>)
    requires
        plain_host(host),
        sep == ':' || sep == '/',
        plain_user(user),
        plain_name(name),
    ensures
        resolve_spec(ssh_text(host, sep, user, name)) == outcome(Some(host), user, name, None),
        !ends_with(name, "/"@) ==> resolve_spec(ssh_text(host, sep, user, name + ".git"@))
            == resolve_spec(ssh_text(host, sep, user, name)),
        whole_name(name) && supported(strip_tld(host)) ==> resolve_spec(
            ssh_text(host, sep, user, name),
        ) == Ok::<RepositoryRefView, ResolveError>(resolved_as(Some(host), user, name)),
{
    lemma_name_text(name);
    lemma_ssh_form(host, sep, user, name);
    lemma_ssh_form(host, sep, user, name + ".git"@);
}

/// A reference `alias:user/name` that does not begin with `git@` resolves as
/// that user and that name at the site of the alias. The name may hold `/`,
/// and is kept whole. With `.git` behind the name the reference resolves
/// alike.
pub proof fn law_alias_form(alias: Seq<char>, user: Seq<char>, name: Seq<char>)
    requires
        plain_alias(alias),
        plain_pair(user, name),
        !begins_with(alias_text(alias, user, name), "git@"@),
    ensures
        resolve_spec(alias_text(alias, user, name)) == outcome(Some(alias), user, name, None),
        !ends_with(name, "/"@) ==> resolve_spec(alias_text(alias, user, name + ".git"@))
            == resolve_spec(alias_text(alias, user, name)),
        whole_name(name) && supported(strip_tld(alias)) ==> resolve_spec(
            alias_text(alias, user, name),
        ) == Ok::<RepositoryRefView, ResolveError>(resolved_as(Some(alias), user, name)),
{
    lemma_name_text(name);
    lemma_alias_form(alias, user, name);
    let s = alias_text(alias, user, name);
    let longer = alias_text(alias, user, name + ".git"@);
    assert(longer =~= s + ".git"@);
    assert(!begins_with(longer, "git@"@)) by {
        if begins_with(longer, "git@"@) {
            reveal_strlit("git@");
            // `alias:u/` is at least four characters long
            assert(s.len() >= 4);
            assert(s.subrange(0, 4) =~= longer.subrange(0, 4));
        }
    }
    lemma_alias_form(alias, user, name + ".git"@);
}

/// A name of two segments, `group/project`, ends neither in `/` nor, unless
/// the project does, in `.git`.
pub proof fn lemma_nested_name_is_whole(group: Seq<char>, project: Seq<char>)
    requires
        plain_segment(group),
        plain_segment(project),
        !ends_with(project, ".git"@),
    ensures
        whole_name(group + seq!['/'] + project),
{
    reveal_strlit(".git");
    reveal_strlit("/");
    let name = group + seq!['/'] + project;
    let n = name.len() as int;
    let g = group.len() as int;
    assert forall|i: int| 0 <= i < n implies {
        let c = #[trigger] name[i];
        c != ':' && c != '#'
    } by {
        if i < g {
            assert(name[i] == group[i]);
        } else if i > g {
            assert(name[i] == project[i - g - 1]);
        }
    }
    assert(name[n - 1] == project[project.len() - 1]);
    if ends_with(name, "/"@) {
        assert(name.subrange(n - 1, n)[0] == name[n - 1]);
    }
    if ends_with(name, ".git"@) {
        let tail = name.subrange(n - 4, n);
        if project.len() >= 4 {
            assert(project.subrange(project.len() - 4, project.len() as int) =~= tail);
        } else {
            assert(tail[g - (n - 4)] == name[g]);
            assert(name[g] == '/');
        }
    }
}

/// A name of two segments, `group/project`, is kept whole in each of the four
/// forms: the user is the segment before the first `/`, and all behind it is
/// the name.
pub proof fn law_nested_name_is_kept(
    host: Seq<char>,
    sep: char,
    alias: Seq<char>,
    user: Seq<char>,
    group: Seq<char>,
    project: Seq<char>,
)
    requires
        plain_host(host),
        sep == ':' || sep == '/',
        plain_alias(alias),
        plain_user(user),
        no_colon(user),
        plain_segment(group),
        plain_segment(project),
        !ends_with(project, ".git"@),
        supported(strip_tld(host)),
        supported(strip_tld(alias)),
        !begins_with(pair_text(user, group + seq!['/'] + project), "git@"@),
        !begins_with(alias_text(alias, user, group + seq!['/'] + project), "git@"@),
    ensures
        ({
            let name = group + seq!['/'] + project;
            &&& resolve_spec(pair_text(user, name)) == Ok::<RepositoryRefView, ResolveError>(
                resolved_as(None, user, name),
            )
            &&& resolve_spec(address_text(host, user, name)) == Ok::<
                RepositoryRefView,
                ResolveError,
            >(resolved_as(Some(host), user, name))
            &&& resolve_spec(ssh_text(host, sep, user, name)) == Ok::<
                RepositoryRefView,
                ResolveError,
            >(resolved_as(Some(host), user, name))
            &&& resolve_spec(alias_text(alias, user, name)) == Ok::<
                RepositoryRefView,
                ResolveError,
            >(resolved_as(Some(alias), user, name))
        }),
{
    let name = group + seq!['/'] + project;
    lemma_nested_name_is_whole(group, project);
    law_bare_pair(user, name);
    law_address_form(host, user, name);
    law_ssh_form(host, sep, user, name);
    law_alias_form(alias, user, name);
}

/// A scan in a text with more text behind it ends where it ended before, if
/// it ended before the end; and at the new end, if it ran to the end and the
/// text behind holds none of the class.
proof fn lemma_scan_appended(s: Seq<char>, t: Seq<char>, from: int, d: Delim)
    requires
        0 <= from <= s.len(),
    ensures
        scan(s, from, d) < s.len() ==> scan(s + t, from, d) == scan(s, from, d),
        scan(s, from, d) == s.len() && (forall|i: int| 0 <= i < t.len() ==> !stops(d, #[trigger] t[i]))
            ==> scan(s + t, from, d) == (s + t).len(),
{
    lemma_scan(s, from, d);
    let r = scan(s, from, d);
    let longer = s + t;
    assert forall|i: int| from <= i < r implies !stops(d, #[trigger] longer[i]) by {
        assert(longer[i] == s[i]);
    }
    if r < s.len() {
        assert(longer[r] == s[r]);
        lemma_scan_ends_at(longer, from, d, r);
    } else if forall|i: int| 0 <= i < t.len() ==> !stops(d, #[trigger] t[i]) {
        assert forall|i: int| from <= i < longer.len() implies !stops(d, #[trigger] longer[i]) by {
            if i >= s.len() {
                assert(longer[i] == t[i - s.len()]);
            } else {
                assert(longer[i] == s[i]);
            }
        }
        lemma_scan_ends_at(longer, from, d, longer.len() as int);
    }
}

/// The last colon below `below` is the same in two texts that agree below it.
proof fn lemma_last_colon_agrees(s: Seq<char>, longer: Seq<char>, below: int)
    requires
        below <= s.len() <= longer.len(),
        forall|i: int| 0 <= i < s.len() ==> #[trigger] longer[i] == s[i],
    ensures
        last_colon(longer, below) == last_colon(s, below),
    decreases below,
{
    if below > 1 {
        assert(longer[below - 1] == s[below - 1]);
        if s[below - 1] != ':' {
            lemma_last_colon_agrees(s, longer, below - 1);
        }
    }
}

/// The shape with its name drawn out to `end`.
spec fn drawn_out(shape: Shape, end: int) -> Shape {
    Shape { name_end: end, path_end: end, ..shape }
}

/// With `.git` behind a text that does not end in `/`, no pair is matched
/// where none was, and a name that ran to the end runs to the new end.
proof fn lemma_tail_appended(s: Seq<char>, site: Option<(int, int)>, start: int)
    requires
        0 <= start <= s.len(),
        s.len() > 0,
        s.last() != '/',
    ensures
        tail_at(s, site, start) is None ==> tail_at(s + ".git"@, site, start) is None,
        tail_at(s, site, start) matches Some(shape) ==> (shape.name_end == s.len() ==> tail_at(
            s + ".git"@,
            site,
            start,
        ) == Some(drawn_out(shape, (s + ".git"@).len() as int))),
{
    reveal_strlit(".git");
    let t = ".git"@;
    let longer = s + t;
    assert forall|i: int| 0 <= i < t.len() implies !stops(Delim::UserEnd, #[trigger] t[i])
        && !stops(Delim::NameEnd, t[i]) by {}
    lemma_scan(s, start, Delim::UserEnd);
    lemma_scan_appended(s, t, start, Delim::UserEnd);
    let q = scan(s, start, Delim::UserEnd);
    if q < s.len() {
        assert(longer[q] == s[q]);
        lemma_scan(s, q + 1, Delim::NameEnd);
        lemma_scan_appended(s, t, q + 1, Delim::NameEnd);
        let n = scan(s, q + 1, Delim::NameEnd);
        if n < s.len() {
            assert(longer[n] == s[n]);
        } else if q + 1 == s.len() {
            assert(s[q] == s.last());
        }
    }
}

/// With `.git` behind a text that does not end in `/`, the address is matched
/// as before, but for a name that ran to the end.
proof fn lemma_url_appended(s: Seq<char>)
    requires
        s.len() > 0,
        s.last() != '/',
    ensures
        url_shape(s) is None ==> url_shape(s + ".git"@) is None,
        url_shape(s) matches Some(sh) ==> (sh.name_end == s.len() ==> url_shape(s + ".git"@)
            == Some(drawn_out(sh, (s + ".git"@).len() as int))),
{
    reveal_strlit(".git");
    reveal_strlit("https://");
    let t = ".git"@;
    let longer = s + t;
    assert forall|i: int| 0 <= i < t.len() implies !stops(Delim::HostEnd, #[trigger] t[i]) by {}
    if begins_with(longer, "https://"@) {
        if s.len() < 8 {
            assert(longer.subrange(0, 8)[s.len() as int] == longer[s.len() as int]);
            assert(longer[s.len() as int] == t[0]);
        }
        assert(s.subrange(0, 8) =~= longer.subrange(0, 8));
        lemma_scan(s, 8, Delim::HostEnd);
        lemma_scan_appended(s, t, 8, Delim::HostEnd);
        let h = scan(s, 8, Delim::HostEnd);
        if h < s.len() {
            assert(longer[h] == s[h]);
            lemma_tail_appended(s, Some((8int, h)), h + 1);
        }
    } else if begins_with(s, "https://"@) {
        assert(s.subrange(0, 8) =~= longer.subrange(0, 8));
    }
}

/// With `.git` behind a text that does not end in `/`, the `git@` form is
/// matched as before, but for a name that ran to the end.
proof fn lemma_ssh_appended(s: Seq<char>)
    requires
        s.len() > 0,
        s.last() != '/',
    ensures
        ssh_shape(s) is None ==> ssh_shape(s + ".git"@) is None,
        ssh_shape(s) matches Some(sh) ==> (sh.name_end == s.len() ==> ssh_shape(s + ".git"@)
            == Some(drawn_out(sh, (s + ".git"@).len() as int))),
{
    reveal_strlit(".git");
    reveal_strlit("git@");
    let t = ".git"@;
    let longer = s + t;
    assert forall|i: int| 0 <= i < t.len() implies !stops(Delim::HostEnd, #[trigger] t[i]) by {}
    if begins_with(longer, "git@"@) {
        if s.len() < 4 {
            assert(longer.subrange(0, 4)[s.len() as int] == longer[s.len() as int]);
            assert(longer[s.len() as int] == t[0]);
        }
        assert(s.subrange(0, 4) =~= longer.subrange(0, 4));
        lemma_scan(s, 4, Delim::HostEnd);
        lemma_scan_appended(s, t, 4, Delim::HostEnd);
        let h = scan(s, 4, Delim::HostEnd);
        if h < s.len() {
            lemma_tail_appended(s, Some((4int, h)), h + 1);
        }
    } else if begins_with(s, "git@"@) {
        assert(s.subrange(0, 4) =~= longer.subrange(0, 4));
    }
}

/// With `.git` behind a text that does not end in `/`, the alias is matched
/// as before, but for a name that ran to the end.
proof fn lemma_alias_appended(s: Seq<char>)
    requires
        s.len() > 0,
        s.last() != '/',
    ensures
        alias_shape(s) is None ==> alias_shape(s + ".git"@) is None,
        alias_shape(s) matches Some(sh) ==> (sh.name_end == s.len() ==> alias_shape(s + ".git"@)
            == Some(drawn_out(sh, (s + ".git"@).len() as int))),
{
    reveal_strlit(".git");
    let t = ".git"@;
    let longer = s + t;
    assert forall|i: int| 0 <= i < t.len() implies !stops(Delim::Slash, #[trigger] t[i]) by {}
    lemma_scan(s, 0, Delim::Slash);
    lemma_scan_appended(s, t, 0, Delim::Slash);
    let q = scan(s, 0, Delim::Slash);
    if q < s.len() {
        assert forall|i: int| 0 <= i < s.len() implies #[trigger] longer[i] == s[i] by {}
        lemma_last_colon_agrees(s, longer, q - 1);
        lemma_last_colon(s, q - 1);
        let p = last_colon(s, q - 1);
        if p > 0 {
            lemma_tail_appended(s, Some((0int, p)), p + 1);
        }
    }
}

/// With `.git` behind a text, the parts of a shape whose name ran to the end
/// are those of before, and the name has `.git` behind it.
proof fn lemma_parts_appended(s: Seq<char>, shape: Shape)
    requires
        in_order(shape, s.len() as int),
        shape.name_end == s.len(),
        shape.path_end == s.len(),
    ensures
        ({
            let longer = s + ".git"@;
            let drawn = drawn_out(shape, longer.len() as int);
            &&& token_of(longer, drawn) == token_of(s, shape)
            &&& user_of(longer, drawn) == user_of(s, shape)
            &&& name_of(longer, drawn) == name_of(s, shape) + ".git"@
            &&& subdirectory_of(longer, drawn) == subdirectory_of(s, shape)
        }),
{
    let longer = s + ".git"@;
    let drawn = drawn_out(shape, longer.len() as int);
    assert(name_of(longer, drawn) =~= name_of(s, shape) + ".git"@);
    assert(user_of(longer, drawn) =~= user_of(s, shape));
    if let Some((a, b)) = shape.site {
        assert(longer.subrange(a, b) =~= s.subrange(a, b));
    }
}

/// Whether a shape is matched with `.git` behind the text as it was before:
/// not where it was not, and with its name drawn out to `end` where the name
/// ran to the end `len`.
spec fn follows(before: Option<Shape>, after: Option<Shape>, len: int, end: int) -> bool {
    match before {
        None => after is None,
        Some(shape) => shape.name_end == len ==> after == Some(drawn_out(shape, end)),
    }
}

/// Where each of four shapes follows its shape of before, the first of them
/// follows the first of before.
proof fn lemma_first_follows(
    a: Option<Shape>,
    b: Option<Shape>,
    c: Option<Shape>,
    d: Option<Shape>,
    a2: Option<Shape>,
    b2: Option<Shape>,
    c2: Option<Shape>,
    d2: Option<Shape>,
    len: int,
    end: int,
)
    requires
        follows(a, a2, len, end),
        follows(b, b2, len, end),
        follows(c, c2, len, end),
        follows(d, d2, len, end),
        first_of(a, b, c, d) matches Some(shape) && shape.name_end == len,
    ensures
        first_of(a2, b2, c2, d2) == Some(drawn_out(first_of(a, b, c, d)->0, end)),
{
}

/// With `.git` behind a reference whose name ran to the end, and which does
/// not end in `/`, the shape is that of before with the name drawn out.
proof fn lemma_shape_appended(s: Seq<char>)
    requires
        shape_of(s) matches Some(shape) && shape.name_end == s.len(),
        s.len() > 0,
        s.last() != '/',
    ensures
        shape_of(s + ".git"@) == Some(drawn_out(shape_of(s)->0, (s + ".git"@).len() as int)),
{
    let longer = s + ".git"@;
    let len = s.len() as int;
    let end = longer.len() as int;
    lemma_url_appended(s);
    lemma_ssh_appended(s);
    lemma_alias_appended(s);
    lemma_tail_appended(s, None, 0);
    assert(follows(url_shape(s), url_shape(longer), len, end));
    assert(follows(ssh_shape(s), ssh_shape(longer), len, end));
    assert(follows(alias_shape(s), alias_shape(longer), len, end));
    assert(follows(tail_at(s, None, 0), tail_at(longer, None, 0), len, end));
    lemma_first_follows(
        url_shape(s),
        ssh_shape(s),
        alias_shape(s),
        tail_at(s, None, 0),
        url_shape(longer),
        ssh_shape(longer),
        alias_shape(longer),
        tail_at(longer, None, 0),
        len,
        end,
    );
}

/// With `.git` behind a text that does not end in `/`, a shape whose name ran
/// to the end gives what it gave before.
proof fn lemma_outcome_appended(s: Seq<char>, shape: Shape)
    requires
        in_order(shape, s.len() as int),
        shape.name_end == s.len(),
        shape.path_end == s.len(),
        s.last() != '/',
    ensures
        ({
            let longer = s + ".git"@;
            let drawn = drawn_out(shape, longer.len() as int);
            outcome(
                token_of(longer, drawn),
                user_of(longer, drawn),
                name_of(longer, drawn),
                subdirectory_of(longer, drawn),
            ) == outcome(
                token_of(s, shape),
                user_of(s, shape),
                name_of(s, shape),
                subdirectory_of(s, shape),
            )
        }),
{
    lemma_parts_appended(s, shape);
    let written = name_of(s, shape);
    assert(!ends_with(written, "/"@)) by {
        reveal_strlit("/");
        if ends_with(written, "/"@) {
            let last = written.len() - 1;
            assert(written.subrange(last, written.len() as int)[0] == written[last]);
            assert(written[last] == s.last());
        }
    }
    lemma_name_text(written);
}

/// A text that does not end with `/` does not have `/` as its last character.
proof fn lemma_last_is_no_slash(s: Seq<char>)
    requires
        s.len() > 0,
        !ends_with(s, "/"@),
    ensures
        s.last() != '/',
{
    reveal_strlit("/");
    if s.last() == '/' {
        assert(s.subrange(s.len() - 1, s.len() as int) =~= "/"@);
    }
}

/// A reference whose name runs to its end, and does not end in `/`, resolves
/// alike with `.git` behind it, in whatever form it is written: to the same
/// site, user and name, or to the same failure.
pub proof fn law_git_suffix_is_dropped(s: Seq<char>)
    requires
        shape_of(s) matches Some(shape) && shape.name_end == s.len(),
        !ends_with(s, "/"@),
    ensures
        resolve_spec(s + ".git"@) == resolve_spec(s),
{
    let shape = shape_of(s)->0;
    lemma_shape_in_order(s);
    lemma_last_is_no_slash(s);
    lemma_shape_appended(s);
    lemma_outcome_appended(s, shape);
}

/// A written name that runs to the end of its reference, and ends neither in
/// `/` nor in `.git`, is the name that the reference resolves to, in whatever
/// form it is written, and with `.git` behind it the reference resolves to
/// the same.
pub proof fn law_name_is_kept_whole(s: Seq<char>)
    requires
        shape_of(s) matches Some(shape) && shape.name_end == s.len() && !ends_with(
            name_of(s, shape),
            "/"@,
        ) && !ends_with(name_of(s, shape), ".git"@),
    ensures
        resolve_spec(s) matches Ok(found) ==> {
            &&& found.name == name_of(s, shape_of(s)->0)
            &&& found.user == user_of(s, shape_of(s)->0)
            &&& found.site == site_of(token_of(s, shape_of(s)->0))
            &&& resolve_spec(s + ".git"@) == Ok::<RepositoryRefView, ResolveError>(found)
        },
{
    let shape = shape_of(s)->0;
    let written = name_of(s, shape);
    lemma_shape_in_order(s);
    lemma_name_text(written);
    assert(!ends_with(s, "/"@)) by {
        reveal_strlit("/");
        if ends_with(s, "/"@) {
            assert(s.subrange(s.len() - 1, s.len() as int)[0] == s.last());
            assert(written.last() == s.last());
            assert(written.subrange(written.len() - 1, written.len() as int) =~= "/"@);
        }
    }
    law_git_suffix_is_dropped(s);
}

/// The marks of a shape lie in the text in their order.
proof fn lemma_shape_in_order(s: Seq<char>)
    ensures
        shape_of(s) matches Some(shape) ==> in_order(shape, s.len() as int),
{
    if shape_of(s) is Some {
        let k = "https://"@.len() as int;
        let g = "git@"@.len() as int;
        let q = scan(s, 0, Delim::Slash);
        if url_shape(s) is Some {
            lemma_tail_in_order(s, Some((k, scan(s, k, Delim::HostEnd))), scan(s, k, Delim::HostEnd) + 1);
        } else if ssh_shape(s) is Some {
            lemma_tail_in_order(s, Some((g, scan(s, g, Delim::HostEnd))), scan(s, g, Delim::HostEnd) + 1);
        } else if alias_shape(s) is Some {
            lemma_last_colon(s, q - 1);
            lemma_tail_in_order(s, Some((0int, last_colon(s, q - 1))), last_colon(s, q - 1) + 1);
        } else {
            lemma_tail_in_order(s, None, 0);
        }
    }
}

/// The marks of a pair lie in the text, behind where the pair starts.
proof fn lemma_tail_in_order(s: Seq<char>, site: Option<(int, int)>, start: int)
    requires
        0 <= start <= s.len(),
    ensures
        tail_at(s, site, start) matches Some(shape) ==> {
            &&& shape.site == site
            &&& start == shape.user_start < shape.user_end
            &&& shape.user_end + 1 < shape.name_end <= s.len()
            &&& shape.name_end <= shape.path_end <= s.len()
        },
{
    if tail_at(s, site, start) is Some {
        let q = scan(s, start, Delim::UserEnd);
        lemma_scan(s, q + 1, Delim::NameEnd);
        let n = scan(s, q + 1, Delim::NameEnd);
        if n < s.len() {
            lemma_path_end(s, n + 1);
        }
    }
}

/// The end of a path lies in the text, at or behind its start.
proof fn lemma_path_end(s: Seq<char>, i: int)
    requires
        0 <= i <= s.len(),
    ensures
        i <= path_end(s, i) <= s.len(),
    decreases s.len() - i,
{
    let e = scan(s, i + 1, Delim::SegmentEnd);
    if i < s.len() && s[i] == '/' && i + 1 < e <= s.len() {
        lemma_path_end(s, e);
    }
}

/// Taking `/` and `.git` off a name that lost them changes nothing more of
/// `.git`.
pub proof fn law_name_stripping_is_idempotent(name: Seq<char>)
    ensures
        without_trailing(name_text(name), ".git"@) == name_text(name),
{
    crate::text::lemma_without_trailing_settles(without_suffix(name, "/"@), ".git"@);
}

} // verus!
