//! Source repositories that a document links to.
//!
//! The links of a document are filtered to those that point to a repository on
//! a known host and stand before the references, reduced to one per repository,
//! and ranked by where they stand.

use vstd::prelude::*;

use crate::links::{past_boundary, LinkExtraction, PdfLinkAnnotation, ReferenceBoundary};
use crate::order::{in_order, stable_order};
use crate::text::{
    ascii_digit, ascii_letter, chars_of, ends_with, ends_with_of, has_at, index_of,
    is_ascii_letter, is_digit, is_one_of, lemma_index_of_is, lemma_run_is, lowered, lowered_of,
    names, parts, parts_of, put_str, range_of, run, same_str, stands_at, string_of, texts,
    Separator,
};

verus! {

broadcast use vstd::string::group_string_axioms;

/// The hosts that are known.
#[derive(Clone, Copy, Debug, PartialEq, Eq, Hash, Structural)]
pub enum RepoHost {
    GitHub,
    GitLab,
    Bitbucket,
}

impl RepoHost {
    pub open spec fn name(self) -> Seq<char> {
        match self {
            RepoHost::GitHub => "github.com"@,
            RepoHost::GitLab => "gitlab.com"@,
            RepoHost::Bitbucket => "bitbucket.org"@,
        }
    }

    pub fn as_str(self) -> (r: &'static str)
        ensures
            r@ == self.name(),
    {
        match self {
            RepoHost::GitHub => "github.com",
            RepoHost::GitLab => "gitlab.com",
            RepoHost::Bitbucket => "bitbucket.org",
        }
    }
}

// ---------------------------------------------------------------------------
// Addresses
// ---------------------------------------------------------------------------

pub open spec fn is_authority_char() -> spec_fn(char) -> bool {
    |c: char| c != '/' && c != '?' && c != '#'
}

/// Where the authority of an address starts: behind the scheme and `://`, behind
/// a leading `//`, or at the start.
pub open spec fn authority_start(url: Seq<char>) -> int {
    let k = run(url, 0, is_authority_char());
    if k > 0 && stands_at(url, k - 1, seq![':', '/', '/']) {
        k + 2
    } else if stands_at(url, 0, seq!['/', '/']) {
        2
    } else {
        0
    }
}

/// Where the authority of an address ends.
pub open spec fn authority_end(url: Seq<char>) -> int {
    run(url, authority_start(url), is_authority_char())
}

/// What follows `host` and `path` in an address, if the authority is the host,
/// a host below it, or either behind a user's name, and `path` follows.
pub open spec fn after_host(url: Seq<char>, host: Seq<char>, path: Seq<char>) -> Option<
    Seq<char>,
> {
    let from = authority_start(url);
    let to = authority_end(url);
    let i = to - host.len();
    if from <= i && stands_at(url, i, host) && stands_at(url, to, path) && (i == from || url[i - 1]
        == '.' || url[i - 1] == '@') {
        Some(url.skip(to + path.len()))
    } else {
        None
    }
}

/// The host and the path of an address in lower case. Notebook and raw-file
/// addresses count as the repository they show.
pub open spec fn classified(address: Seq<char>) -> Option<(RepoHost, Seq<char>)> {
    let url = lowered(address);
    match after_host(url, RepoHost::GitHub.name(), "/"@) {
        Some(p) => Some((RepoHost::GitHub, p)),
        None => match after_host(url, RepoHost::GitLab.name(), "/"@) {
            Some(p) => Some((RepoHost::GitLab, p)),
            None => match after_host(url, RepoHost::Bitbucket.name(), "/"@) {
                Some(p) => Some((RepoHost::Bitbucket, p)),
                None => match after_host(url, "colab.research.google.com"@, "/github/"@) {
                    Some(p) => Some((RepoHost::GitHub, p)),
                    None => match after_host(url, "raw.githubusercontent.com"@, "/"@) {
                        Some(p) => Some((RepoHost::GitHub, p)),
                        None => None,
                    },
                },
            },
        },
    }
}

fn authority_end_of(url: &Vec<char>, from: usize) -> (r: usize)
    requires
        from <= url@.len(),
    ensures
        r == run(url@, from as int, is_authority_char()),
        from <= r <= url@.len(),
{
    let mut to: usize = from;
    while to < url.len() && url[to] != '/' && url[to] != '?' && url[to] != '#'
        invariant
            from <= to <= url@.len(),
            forall|j: int| from <= j < to ==> is_authority_char()(#[trigger] url@[j]),
        decreases url.len() - to,
    {
        to = to + 1;
    }
    proof {
        lemma_run_is(url@, from as int, to as int, is_authority_char());
    }
    to
}

fn authority_start_of(url: &Vec<char>) -> (r: usize)
    ensures
        r == authority_start(url@),
        r <= url@.len(),
{
    let len = url.len();
    let k = authority_end_of(url, 0);
    let colon = vec![':', '/', '/'];
    let slashes = vec!['/', '/'];
    assert(colon@ =~= seq![':', '/', '/']);
    assert(slashes@ =~= seq!['/', '/']);
    if k > 0 && has_at(url, k - 1, &colon) {
        assert(k + 2 <= len);
        k + 2
    } else if has_at(url, 0, &slashes) {
        2
    } else {
        0
    }
}

fn find_after(url: &Vec<char>, host: &str, path: &str) -> (r: Option<Vec<char>>)
    ensures
        match r {
            Some(p) => after_host(url@, host@, path@) == Some(p@),
            None => after_host(url@, host@, path@) is None,
        },
{
    let from = authority_start_of(url);
    let to = authority_end_of(url, from);
    let h = chars_of(host);
    let p = chars_of(path);
    if to - from < h.len() {
        return None;
    }
    let i = to - h.len();
    if !has_at(url, i, &h) || !has_at(url, to, &p) {
        return None;
    }
    if i > from && url[i - 1] != '.' && url[i - 1] != '@' {
        return None;
    }
    let len = url.len();
    let rest = range_of(url, to + p.len(), len);
    assert(rest@ =~= url@.skip(to + p@.len()));
    Some(rest)
}

/// The host and the lower-case path of an address.
pub fn classify_url(url: &str) -> (r: Option<(RepoHost, String)>)
    ensures
        match r {
            Some((host, path)) => classified(url@) == Some((host, path@)),
            None => classified(url@) is None,
        },
{
    let lower = lowered_of(&chars_of(url));
    if let Some(p) = find_after(&lower, "github.com", "/") {
        return Some((RepoHost::GitHub, string_of(&p)));
    }
    if let Some(p) = find_after(&lower, "gitlab.com", "/") {
        return Some((RepoHost::GitLab, string_of(&p)));
    }
    if let Some(p) = find_after(&lower, "bitbucket.org", "/") {
        return Some((RepoHost::Bitbucket, string_of(&p)));
    }
    if let Some(p) = find_after(&lower, "colab.research.google.com", "/github/") {
        return Some((RepoHost::GitHub, string_of(&p)));
    }
    if let Some(p) = find_after(&lower, "raw.githubusercontent.com", "/") {
        return Some((RepoHost::GitHub, string_of(&p)));
    }
    None
}

/// `t` up to the first `c`.
pub open spec fn before_char(t: Seq<char>, c: char) -> Seq<char> {
    match index_of(t, c) {
        Some(k) => t.take(k),
        None => t,
    }
}

fn before_char_of(t: &Vec<char>, c: char) -> (r: Vec<char>)
    ensures
        r@ == before_char(t@, c),
{
    let mut k: usize = 0;
    while k < t.len() && t[k] != c
        invariant
            k <= t@.len(),
            forall|j: int| 0 <= j < k ==> t@[j] != c,
        decreases t.len() - k,
    {
        k = k + 1;
    }
    proof {
        lemma_index_of_is(t@, c, k as int);
        assert(t@.subrange(0, k as int) =~= t@.take(k as int));
        assert(t@.take(t@.len() as int) =~= t@);
    }
    range_of(t, 0, k)
}

/// `t` without any `.git` at its end.
pub open spec fn without_git(t: Seq<char>) -> Seq<char>
    decreases t.len(),
{
    if ends_with(t, ".git"@) && ".git"@.len() > 0 {
        without_git(t.take(t.len() - ".git"@.len()))
    } else {
        t
    }
}

fn without_git_of(t: &Vec<char>) -> (r: Vec<char>)
    ensures
        r@ == without_git(t@),
{
    let git = chars_of(".git");
    let mut v = range_of(t, 0, t.len());
    assert(v@ =~= t@);
    proof {
        reveal_strlit(".git");
    }
    while ends_with_of(&v, &git)
        invariant
            git@ == ".git"@,
            git@.len() == 4,
            without_git(t@) == without_git(v@),
        decreases v@.len(),
    {
        let n = v.len() - git.len();
        assert(v@.subrange(0, n as int) =~= v@.take(n as int));
        v = range_of(&v, 0, n);
    }
    v
}

pub open spec fn slug_char(c: char) -> bool {
    ascii_letter(c) || ascii_digit(c) || c == '-' || c == '_' || c == '.'
}

/// The name of an owner or a repository.
pub open spec fn valid_slug(s: Seq<char>) -> bool {
    0 < s.len() <= 100 && forall|i: int| 0 <= i < s.len() ==> slug_char(#[trigger] s[i])
}

/// Whether a text can be the name of an owner or a repository.
pub fn is_valid_slug(s: &Vec<char>) -> (r: bool)
    ensures
        r == valid_slug(s@),
{
    if s.len() == 0 || s.len() > 100 {
        return false;
    }
    let mut i: usize = 0;
    while i < s.len()
        invariant
            i <= s@.len(),
            forall|j: int| 0 <= j < i ==> slug_char(#[trigger] s@[j]),
        decreases s.len() - i,
    {
        let c = s[i];
        if !(is_ascii_letter(c) || is_digit(c) || c == '-' || c == '_' || c == '.') {
            assert(!slug_char(s@[i as int]));
            return false;
        }
        i = i + 1;
    }
    true
}

/// The first parts of a host's paths that are no owners.
pub open spec fn reserved_names(host: RepoHost) -> Seq<Seq<char>> {
    match host {
        RepoHost::GitHub => seq![
            "search"@,
            "about"@,
            "pricing"@,
            "features"@,
            "enterprise"@,
            "marketplace"@,
            "topics"@,
            "collections"@,
            "trending"@,
            "login"@,
            "join"@,
            "settings"@,
            "notifications"@,
            "issues"@,
            "pulls"@,
            "explore"@,
            "sponsors"@,
            "orgs"@,
            "apps"@,
            "contact"@,
            "site"@,
            "security"@,
            "readme"@,
        ],
        RepoHost::GitLab => seq![
            "help"@,
            "explore"@,
            "users"@,
            "groups"@,
            "-"@,
            "admin"@,
            "dashboard"@,
            "profile"@,
            "search"@,
        ],
        RepoHost::Bitbucket => seq![
            "product"@,
            "pricing"@,
            "features"@,
            "support"@,
            "blog"@,
            "account"@,
            "repo"@,
        ],
    }
}

/// Whether the first part of a path is a page of the host and no owner.
pub fn is_reserved_owner_path(host: RepoHost, owner: &Vec<char>) -> (r: bool)
    ensures
        r == reserved_names(host).contains(lowered(owner@)),
{
    let list = match host {
        RepoHost::GitHub => vec![
            "search",
            "about",
            "pricing",
            "features",
            "enterprise",
            "marketplace",
            "topics",
            "collections",
            "trending",
            "login",
            "join",
            "settings",
            "notifications",
            "issues",
            "pulls",
            "explore",
            "sponsors",
            "orgs",
            "apps",
            "contact",
            "site",
            "security",
            "readme",
        ],
        RepoHost::GitLab => vec![
            "help",
            "explore",
            "users",
            "groups",
            "-",
            "admin",
            "dashboard",
            "profile",
            "search",
        ],
        RepoHost::Bitbucket => vec![
            "product",
            "pricing",
            "features",
            "support",
            "blog",
            "account",
            "repo",
        ],
    };
    assert(names(list@) =~= reserved_names(host));
    is_one_of(&lowered_of(owner), &list)
}

/// The owner and the repository of a path: its first two parts, without
/// fragment, query and `.git`, if they are valid names and the first is not
/// reserved.
pub open spec fn owner_and_repo(path: Seq<char>, host: RepoHost) -> Option<(Seq<char>, Seq<char>)> {
    let ps = parts(Separator::Slash, before_char(before_char(path, '#'), '?'), 0);
    if ps.len() >= 2 && valid_slug(ps[0]) && valid_slug(without_git(ps[1])) && !reserved_names(
        host,
    ).contains(lowered(ps[0])) {
        Some((ps[0], without_git(ps[1])))
    } else {
        None
    }
}

/// The owner and the repository of a path.
pub fn parse_owner_repo(path: &str, host: RepoHost) -> (r: Option<(String, String)>)
    ensures
        match r {
            Some((owner, repo)) => owner_and_repo(path@, host) == Some((owner@, repo@)),
            None => owner_and_repo(path@, host) is None,
        },
{
    let p = before_char_of(&before_char_of(&chars_of(path), '#'), '?');
    let ps = parts_of(Separator::Slash, &p);
    assert(texts(ps@).len() == ps@.len());
    if ps.len() < 2 {
        return None;
    }
    assert(texts(ps@)[0] == ps@[0]@ && texts(ps@)[1] == ps@[1]@);
    let repo = without_git_of(&ps[1]);
    if !is_valid_slug(&ps[0]) || !is_valid_slug(&repo) {
        return None;
    }
    if is_reserved_owner_path(host, &ps[0]) {
        return None;
    }
    Some((string_of(&ps[0]), string_of(&repo)))
}

// ---------------------------------------------------------------------------
// Detection
// ---------------------------------------------------------------------------

/// A repository that a document links to.
#[derive(Clone, Debug)]
pub struct DetectedRepo {
    pub host: RepoHost,
    pub owner: String,
    pub repo: String,
    /// `https://{host}/{owner}/{repo}`.
    pub url: String,
    /// The page of the link, counted from zero.
    pub page_index: usize,
    /// The height of the link on that page.
    pub y_top: i64,
}

/// What a detected repository is, as a mathematical value.
#[verifier::ext_equal]
pub struct RepoModel {
    pub host: RepoHost,
    pub owner: Seq<char>,
    pub repo: Seq<char>,
    pub url: Seq<char>,
    pub page_index: usize,
    pub y_top: i64,
}

impl View for DetectedRepo {
    type V = RepoModel;

    open spec fn view(&self) -> RepoModel {
        RepoModel {
            host: self.host,
            owner: self.owner@,
            repo: self.repo@,
            url: self.url@,
            page_index: self.page_index,
            y_top: self.y_top,
        }
    }
}

/// The views of a list of repositories.
pub open spec fn repo_views(rs: Seq<DetectedRepo>) -> Seq<RepoModel> {
    rs.map_values(|r: DetectedRepo| r@)
}

pub open spec fn canonical_url(host: RepoHost, owner: Seq<char>, repo: Seq<char>) -> Seq<char> {
    "https://"@ + host.name() + "/"@ + owner + "/"@ + repo
}

/// The repository that a link points to, if it points to one.
pub open spec fn repo_of_link(url: Seq<char>, page: usize, y: i64) -> Option<RepoModel> {
    match classified(url) {
        Some((host, path)) => match owner_and_repo(path, host) {
            Some((owner, repo)) => Some(
                RepoModel {
                    host,
                    owner,
                    repo,
                    url: canonical_url(host, owner, repo),
                    page_index: page,
                    y_top: y,
                },
            ),
            None => None,
        },
        None => None,
    }
}

/// Both are links to the same repository.
pub open spec fn same_repo(a: RepoModel, b: RepoModel) -> bool {
    a.host == b.host && a.owner == b.owner && a.repo == b.repo
}

/// `a` stands before `b` in the document.
pub open spec fn earlier(a: RepoModel, b: RepoModel) -> bool {
    a.page_index < b.page_index || (a.page_index == b.page_index && a.y_top > b.y_top)
}

/// The list with one more repository: a repository that is in it already keeps
/// its place, with the earlier of the two links.
pub open spec fn with_repo(list: Seq<RepoModel>, c: RepoModel, i: int) -> Seq<RepoModel>
    decreases list.len() - i,
{
    if i < 0 || i >= list.len() {
        list.push(c)
    } else if same_repo(list[i], c) {
        if earlier(c, list[i]) {
            list.update(i, c)
        } else {
            list
        }
    } else {
        with_repo(list, c, i + 1)
    }
}

/// The repositories of the links, each once. Links past the boundary are left
/// out.
pub open spec fn repos_kept(
    links: Seq<PdfLinkAnnotation>,
    boundary: Option<ReferenceBoundary>,
) -> Seq<RepoModel>
    decreases links.len(),
{
    if links.len() == 0 {
        Seq::empty()
    } else {
        let before = repos_kept(links.drop_last(), boundary);
        let l = links.last();
        if past_boundary(boundary, l.page_index as int, l.y_top as int) {
            before
        } else {
            match repo_of_link(l.url@, l.page_index, l.y_top) {
                Some(c) => with_repo(before, c, 0),
                None => before,
            }
        }
    }
}

/// No repository is in the list twice.
pub open spec fn distinct_repos(list: Seq<RepoModel>) -> bool {
    forall|i: int, j: int|
        0 <= i < j < list.len() ==> !same_repo(#[trigger] list[i], #[trigger] list[j])
}

/// The ordering keys: earlier pages first, and on a page higher links first.
pub open spec fn rank_keys(list: Seq<RepoModel>) -> Seq<(u64, i64)> {
    list.map_values(|m: RepoModel| (m.page_index as u64, (-1 - m.y_top) as i64))
}

proof fn lemma_with_repo_distinct(list: Seq<RepoModel>, c: RepoModel, i: int)
    requires
        0 <= i <= list.len(),
        distinct_repos(list),
        forall|k: int| 0 <= k < i ==> !same_repo(#[trigger] list[k], c),
    ensures
        distinct_repos(with_repo(list, c, i)),
    decreases list.len() - i,
{
    if i >= list.len() {
    } else if same_repo(list[i], c) {
        if earlier(c, list[i]) {
            let u = list.update(i, c);
            assert forall|a: int, b: int| 0 <= a < b < u.len() implies !same_repo(
                #[trigger] u[a],
                #[trigger] u[b],
            ) by {
                assert(!same_repo(list[a], list[b]));
            }
        }
    } else {
        lemma_with_repo_distinct(list, c, i + 1);
    }
}

/// Each repository is kept once.
pub proof fn law_repos_distinct(
    links: Seq<PdfLinkAnnotation>,
    boundary: Option<ReferenceBoundary>,
)
    ensures
        distinct_repos(repos_kept(links, boundary)),
    decreases links.len(),
{
    if links.len() > 0 {
        law_repos_distinct(links.drop_last(), boundary);
        let l = links.last();
        if let Some(c) = repo_of_link(l.url@, l.page_index, l.y_top) {
            lemma_with_repo_distinct(repos_kept(links.drop_last(), boundary), c, 0);
        }
    }
}

/// The list is `a repository that is in it` or the new one, at every place.
proof fn lemma_with_repo_from(list: Seq<RepoModel>, c: RepoModel, i: int, k: int)
    requires
        0 <= i <= list.len(),
        0 <= k < with_repo(list, c, i).len(),
    ensures
        with_repo(list, c, i)[k] == c || (k < list.len() && with_repo(list, c, i)[k] == list[k]),
    decreases list.len() - i,
{
    if i < list.len() && !same_repo(list[i], c) {
        lemma_with_repo_from(list, c, i + 1, k);
    }
}

/// Every repository that is kept comes from a link before the boundary.
pub proof fn law_repos_from_links(
    links: Seq<PdfLinkAnnotation>,
    boundary: Option<ReferenceBoundary>,
    k: int,
)
    requires
        0 <= k < repos_kept(links, boundary).len(),
    ensures
        exists|j: int|
            0 <= j < links.len() && !past_boundary(
                boundary,
                (#[trigger] links[j]).page_index as int,
                links[j].y_top as int,
            ) && repo_of_link(links[j].url@, links[j].page_index, links[j].y_top) == Some(
                repos_kept(links, boundary)[k],
            ),
    decreases links.len(),
{
    let before = repos_kept(links.drop_last(), boundary);
    let l = links.last();
    let n = links.len() - 1;
    assert(links[n] == l);
    let kept = repos_kept(links, boundary);
    let m = kept[k];
    let c = repo_of_link(l.url@, l.page_index, l.y_top);
    if !past_boundary(boundary, l.page_index as int, l.y_top as int) && c is Some {
        lemma_with_repo_from(before, c->0, 0, k);
        if m == c->0 {
            assert(repo_of_link(links[n].url@, links[n].page_index, links[n].y_top) == Some(m));
        } else {
            law_repos_from_links(links.drop_last(), boundary, k);
            let j = choose|j: int|
                0 <= j < links.drop_last().len() && !past_boundary(
                    boundary,
                    (#[trigger] links.drop_last()[j]).page_index as int,
                    links.drop_last()[j].y_top as int,
                ) && repo_of_link(
                    links.drop_last()[j].url@,
                    links.drop_last()[j].page_index,
                    links.drop_last()[j].y_top,
                ) == Some(before[k]);
            assert(links[j] == links.drop_last()[j]);
        }
    } else {
        law_repos_from_links(links.drop_last(), boundary, k);
        let j = choose|j: int|
            0 <= j < links.drop_last().len() && !past_boundary(
                boundary,
                (#[trigger] links.drop_last()[j]).page_index as int,
                links.drop_last()[j].y_top as int,
            ) && repo_of_link(
                links.drop_last()[j].url@,
                links.drop_last()[j].page_index,
                links.drop_last()[j].y_top,
            ) == Some(before[k]);
        assert(links[j] == links.drop_last()[j]);
    }
}

/// The repository of a link that counts: one before the boundary.
pub open spec fn repo_counted(
    link: PdfLinkAnnotation,
    boundary: Option<ReferenceBoundary>,
) -> Option<RepoModel> {
    if past_boundary(boundary, link.page_index as int, link.y_top as int) {
        None
    } else {
        repo_of_link(link.url@, link.page_index, link.y_top)
    }
}

/// `m` stands for the repository `c`, and not with a later link.
pub open spec fn stands_for(m: RepoModel, c: RepoModel) -> bool {
    same_repo(m, c) && !earlier(c, m)
}

/// With one more repository each stands for what stood at its place, and one
/// for the new one.
proof fn lemma_with_repo_stands(list: Seq<RepoModel>, c: RepoModel, i: int)
    requires
        0 <= i <= list.len(),
    ensures
        with_repo(list, c, i).len() >= list.len(),
        forall|k: int|
            0 <= k < list.len() ==> stands_for(#[trigger] with_repo(list, c, i)[k], list[k]),
        exists|k: int|
            0 <= k < with_repo(list, c, i).len() && stands_for(
                #[trigger] with_repo(list, c, i)[k],
                c,
            ),
    decreases list.len() - i,
{
    let r = with_repo(list, c, i);
    if i >= list.len() {
        assert(stands_for(r[list.len() as int], c));
    } else if same_repo(list[i], c) {
        assert(stands_for(r[i], c));
    } else {
        lemma_with_repo_stands(list, c, i + 1);
    }
}

/// A repository that is kept stands for the one of the `j`-th link.
proof fn lemma_link_kept(
    links: Seq<PdfLinkAnnotation>,
    boundary: Option<ReferenceBoundary>,
    j: int,
)
    requires
        0 <= j < links.len(),
        repo_counted(links[j], boundary) is Some,
    ensures
        exists|k: int|
            0 <= k < repos_kept(links, boundary).len() && stands_for(
                #[trigger] repos_kept(links, boundary)[k],
                repo_counted(links[j], boundary)->0,
            ),
    decreases links.len(),
{
    let front = links.drop_last();
    let before = repos_kept(front, boundary);
    let kept = repos_kept(links, boundary);
    let last = repo_counted(links.last(), boundary);
    assert(links.last() == links[links.len() - 1]);
    if last is Some {
        lemma_with_repo_stands(before, last->0, 0);
    }
    if j < front.len() {
        assert(front[j] == links[j]);
        lemma_link_kept(front, boundary, j);
        let c = repo_counted(links[j], boundary)->0;
        let k = choose|k: int| 0 <= k < before.len() && stands_for(#[trigger] before[k], c);
        if last is Some {
            assert(stands_for(kept[k], before[k]));
        }
        assert(stands_for(kept[k], c));
    }
}

/// The repository of every link that counts is kept, with the earliest of the
/// links that count and point to it.
pub proof fn law_repos_all_kept(
    links: Seq<PdfLinkAnnotation>,
    boundary: Option<ReferenceBoundary>,
    j: int,
)
    requires
        0 <= j < links.len(),
        repo_counted(links[j], boundary) is Some,
    ensures
        exists|k: int|
            0 <= k < repos_kept(links, boundary).len() && same_repo(
                #[trigger] repos_kept(links, boundary)[k],
                repo_counted(links[j], boundary)->0,
            ) && kept_earliest(links, boundary, repos_kept(links, boundary)[k]),
{
    let kept = repos_kept(links, boundary);
    let c = repo_counted(links[j], boundary)->0;
    lemma_link_kept(links, boundary, j);
    law_repos_distinct(links, boundary);
    let k = choose|k: int| 0 <= k < kept.len() && stands_for(#[trigger] kept[k], c);
    let m = kept[k];
    assert forall|i: int|
        0 <= i < links.len() && (#[trigger] repo_counted(links[i], boundary) matches Some(x)
            && same_repo(x, m)) implies !earlier(repo_counted(links[i], boundary)->0, m) by {
        lemma_link_kept(links, boundary, i);
        let x = repo_counted(links[i], boundary)->0;
        let n = choose|n: int| 0 <= n < kept.len() && stands_for(#[trigger] kept[n], x);
        if n < k {
            assert(!same_repo(kept[n], kept[k]));
        } else if k < n {
            assert(!same_repo(kept[k], kept[n]));
        }
    }
    law_repos_from_links(links, boundary, k);
    let f = choose|f: int|
        0 <= f < links.len() && !past_boundary(
            boundary,
            (#[trigger] links[f]).page_index as int,
            links[f].y_top as int,
        ) && repo_of_link(links[f].url@, links[f].page_index, links[f].y_top) == Some(m);
    assert(repo_counted(links[f], boundary) == Some(m));
}

/// `m` comes from a link that counts, and no link that counts and points to its
/// repository is earlier.
pub open spec fn kept_earliest(
    links: Seq<PdfLinkAnnotation>,
    boundary: Option<ReferenceBoundary>,
    m: RepoModel,
) -> bool {
    &&& exists|i: int|
        0 <= i < links.len() && #[trigger] repo_counted(links[i], boundary) == Some(m)
    &&& forall|i: int|
        0 <= i < links.len() && (#[trigger] repo_counted(links[i], boundary) matches Some(x)
            && same_repo(x, m)) ==> !earlier(repo_counted(links[i], boundary)->0, m)
}

fn copy_repo(r: &DetectedRepo) -> (c: DetectedRepo)
    ensures
        c@ == r@,
{
    DetectedRepo {
        host: r.host,
        owner: r.owner.clone(),
        repo: r.repo.clone(),
        url: r.url.clone(),
        page_index: r.page_index,
        y_top: r.y_top,
    }
}

fn repo_from_link(link: &PdfLinkAnnotation) -> (r: Option<DetectedRepo>)
    ensures
        match r {
            Some(c) => repo_of_link(link.url@, link.page_index, link.y_top) == Some(c@),
            None => repo_of_link(link.url@, link.page_index, link.y_top) is None,
        },
{
    match classify_url(link.url.as_str()) {
        None => None,
        Some((host, path)) => match parse_owner_repo(path.as_str(), host) {
            None => None,
            Some((owner, repo)) => {
                let mut url: Vec<char> = Vec::new();
                put_str("https://", &mut url);
                put_str(host.as_str(), &mut url);
                put_str("/", &mut url);
                put_str(owner.as_str(), &mut url);
                put_str("/", &mut url);
                put_str(repo.as_str(), &mut url);
                assert(url@ =~= canonical_url(host, owner@, repo@));
                Some(
                    DetectedRepo {
                        host,
                        owner,
                        repo,
                        url: string_of(&url),
                        page_index: link.page_index,
                        y_top: link.y_top,
                    },
                )
            },
        },
    }
}

/// Puts one more repository into the list.
fn keep_repo(list: &mut Vec<DetectedRepo>, c: DetectedRepo)
    ensures
        repo_views(final(list)@) == with_repo(repo_views(old(list)@), c@, 0),
{
    let ghost before = repo_views(list@);
    let ghost m = c@;
    let mut i: usize = 0;
    while i < list.len()
        invariant
            i <= list@.len(),
            before == repo_views(old(list)@),
            repo_views(list@) == before,
            m == c@,
            with_repo(before, m, 0) == with_repo(before, m, i as int),
        decreases list.len() - i,
    {
        assert(before[i as int] == list@[i as int]@);
        if list[i].host == c.host && same_str(list[i].owner.as_str(), c.owner.as_str())
            && same_str(list[i].repo.as_str(), c.repo.as_str()) {
            if c.page_index < list[i].page_index || (c.page_index == list[i].page_index && c.y_top
                > list[i].y_top) {
                list.set(i, c);
                assert(repo_views(list@) =~= before.update(i as int, m));
            }
            return ;
        }
        i = i + 1;
    }
    list.push(c);
    assert(repo_views(list@) =~= before.push(m));
}

/// The repositories that a document links to before its references, one entry
/// each, the earliest in the document first.
pub fn detect_repos(extraction: &LinkExtraction) -> (r: Vec<DetectedRepo>)
    ensures
        r@.len() == repos_kept(extraction.links@, extraction.refs_boundary).len(),
        exists|order: Seq<usize>|
            #[trigger] in_order(
                rank_keys(repos_kept(extraction.links@, extraction.refs_boundary)),
                order,
            ) && forall|k: int|
                0 <= k < r@.len() ==> (#[trigger] r@[k])@ == repos_kept(
                    extraction.links@,
                    extraction.refs_boundary,
                )[order[k] as int],
{
    let mut list: Vec<DetectedRepo> = Vec::new();
    let ghost links = extraction.links@;
    let ghost boundary = extraction.refs_boundary;
    let mut i: usize = 0;
    assert(links.take(0) =~= Seq::<PdfLinkAnnotation>::empty());
    assert(repo_views(list@) =~= Seq::<RepoModel>::empty());
    while i < extraction.links.len()
        invariant
            i <= extraction.links@.len(),
            links == extraction.links@,
            boundary == extraction.refs_boundary,
            repo_views(list@) == repos_kept(links.take(i as int), boundary),
        decreases extraction.links.len() - i,
    {
        proof {
            let t = links.take(i + 1);
            assert(t.drop_last() =~= links.take(i as int));
            assert(t.last() == links[i as int]);
        }
        let link = &extraction.links[i];
        if !extraction.is_past_refs(link) {
            if let Some(c) = repo_from_link(link) {
                keep_repo(&mut list, c);
            }
        }
        i = i + 1;
    }
    assert(links.take(i as int) =~= links);
    let ghost kept = repos_kept(links, boundary);
    assert(kept.len() == list@.len());
    let mut keys: Vec<(u64, i64)> = Vec::new();
    let mut k: usize = 0;
    while k < list.len()
        invariant
            k <= list@.len(),
            kept == repo_views(list@),
            keys@ == rank_keys(kept).take(k as int),
        decreases list.len() - k,
    {
        assert(kept[k as int] == list@[k as int]@);
        keys.push((list[k].page_index as u64, -1 - list[k].y_top));
        assert(rank_keys(kept).take(k + 1) =~= rank_keys(kept).take(k as int).push(
            rank_keys(kept)[k as int],
        ));
        k = k + 1;
    }
    assert(rank_keys(kept).take(k as int) =~= rank_keys(kept));
    let order = stable_order(&keys);
    let mut out: Vec<DetectedRepo> = Vec::new();
    let mut n: usize = 0;
    while n < order.len()
        invariant
            n <= order@.len(),
            kept == repo_views(list@),
            kept.len() == list@.len(),
            order@.len() == list@.len(),
            out@.len() == n,
            forall|a: int| 0 <= a < order@.len() ==> #[trigger] order@[a] < list@.len(),
            forall|j: int| 0 <= j < n ==> (#[trigger] out@[j])@ == kept[order@[j] as int],
        decreases order.len() - n,
    {
        let c = copy_repo(&list[order[n]]);
        assert(kept[order@[n as int] as int] == list@[order@[n as int] as int]@);
        out.push(c);
        n = n + 1;
    }
    assert(in_order(rank_keys(kept), order@));
    out
}

} // verus!
