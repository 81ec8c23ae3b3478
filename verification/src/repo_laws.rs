//! Laws of the addresses of repositories.

use vstd::prelude::*;

use crate::links::{past_boundary, ReferenceBoundary};
use crate::order::key_less;
use crate::repos::{
    after_host, authority_end, authority_start, before_char, classified, earlier, is_authority_char,
    owner_and_repo, rank_keys, repo_of_link, reserved_names, same_repo, slug_char, valid_slug,
    without_git, RepoHost, RepoModel,
};
use crate::text::{
    ascii_digit, ascii_letter, ends_with, index_of, lemma_index_of, lemma_index_of_is,
    lemma_run_bounds, lemma_run_is, lower, lowered, parts, run, stands_at, Separator,
};

verus! {

broadcast use vstd::string::group_string_axioms;

/// How an address may begin.
pub open spec fn scheme(s: Seq<char>) -> bool {
    s == "https://"@ || s == "http://"@ || s == "//"@ || s.len() == 0
}

/// What may follow a repository in an address.
pub open spec fn address_tail(t: Seq<char>) -> bool {
    t.len() == 0 || t[0] == '/' || t[0] == '#' || t[0] == '?'
}

/// The name of an owner or repository in lower case.
pub open spec fn low_slug(s: Seq<char>) -> bool {
    &&& 0 < s.len() <= 100
    &&& forall|i: int|
        0 <= i < s.len() ==> ('a' <= #[trigger] s[i] <= 'z' || '0' <= s[i] <= '9' || s[i] == '-'
            || s[i] == '_' || s[i] == '.')
}

proof fn lemma_lowered_sum(a: Seq<char>, b: Seq<char>)
    ensures
        lowered(a + b) == lowered(a) + lowered(b),
{
    assert(lowered(a + b) =~= lowered(a) + lowered(b));
}

proof fn lemma_low_slug(s: Seq<char>)
    requires
        low_slug(s),
    ensures
        lowered(s) == s,
        valid_slug(s),
        !s.contains('/'),
        !s.contains('#'),
        !s.contains('?'),
{
    assert(lowered(s) =~= s);
    assert forall|i: int| 0 <= i < s.len() implies slug_char(#[trigger] s[i]) by {}
}

/// The authority of an address with a known beginning is what stands up to the
/// next slash.
proof fn lemma_authority(s: Seq<char>, host: Seq<char>, rest: Seq<char>)
    requires
        scheme(s),
        host.len() > 0,
        forall|i: int|
            0 <= i < host.len() ==> #[trigger] host[i] != '/' && host[i] != '?' && host[i] != '#'
                && host[i] != ':',
        rest.len() > 0,
        rest[0] == '/',
        !(rest.len() > 1 && rest[1] == '/'),
    ensures
        authority_start(s + host + rest) == s.len(),
        authority_end(s + host + rest) == s.len() + host.len(),
{
    reveal_strlit("https://");
    reveal_strlit("http://");
    reveal_strlit("//");
    let url = s + host + rest;
    let p = is_authority_char();
    let n = s.len() as int;
    let e = n + host.len();
    assert forall|i: int| 0 <= i < n implies url[i] == s[i] by {}
    assert forall|i: int| n <= i < e implies p(#[trigger] url[i]) && url[i] != ':' by {
        assert(url[i] == host[i - n]);
    }
    assert(url[e] == '/');
    lemma_run_is(url, n, e, p);
    if s == "https://"@ {
        assert forall|i: int| 0 <= i < 6 implies p(#[trigger] url[i]) by {
            assert(url[i] == s[i]);
        }
        assert(url[6] == '/');
        lemma_run_is(url, 0, 6, p);
        assert(url.subrange(5, 8) =~= seq![':', '/', '/']);
    } else if s == "http://"@ {
        assert forall|i: int| 0 <= i < 5 implies p(#[trigger] url[i]) by {
            assert(url[i] == s[i]);
        }
        assert(url[5] == '/');
        lemma_run_is(url, 0, 5, p);
        assert(url.subrange(4, 7) =~= seq![':', '/', '/']);
    } else if s == "//"@ {
        assert(url[0] == '/');
        lemma_run_is(url, 0, 0, p);
        assert(url.subrange(0, 2) =~= seq!['/', '/']);
    } else {
        assert(n == 0);
        lemma_run_is(url, 0, e, p);
        if stands_at(url, e - 1, seq![':', '/', '/']) {
            assert(url.subrange(e - 1, e + 2)[0] == url[e - 1]);
            assert(seq![':', '/', '/'][0] == ':');
        }
        if stands_at(url, 0, seq!['/', '/']) {
            assert(url.subrange(0, 2)[0] == url[0]);
            assert(seq!['/', '/'][0] == '/');
            assert(p(url[0]));
        }
    }
}

/// The names of the hosts, character by character.
proof fn lemma_hosts(host: RepoHost)
    ensures
        host.name().len() > 0,
        lowered(host.name()) == host.name(),
        forall|i: int|
            0 <= i < host.name().len() ==> #[trigger] host.name()[i] != '/' && host.name()[i] != '?'
                && host.name()[i] != '#' && host.name()[i] != ':',
        host == RepoHost::GitHub ==> host.name() == "github.com"@,
        host == RepoHost::GitLab ==> host.name() == "gitlab.com"@,
        host == RepoHost::Bitbucket ==> host.name() == "bitbucket.org"@,
{
    reveal_strlit("github.com");
    reveal_strlit("gitlab.com");
    reveal_strlit("bitbucket.org");
    assert(lowered(host.name()) =~= host.name());
}

/// An address at one of the hosts is recognised as such.
proof fn lemma_classified(s: Seq<char>, host: RepoHost, path: Seq<char>)
    requires
        scheme(s),
        lowered(path) == path,
        path.len() > 0,
        path[0] != '/',
    ensures
        classified(s + host.name() + "/"@ + path) == Some((host, path)),
{
    reveal_strlit("/");
    reveal_strlit("https://");
    reveal_strlit("http://");
    reveal_strlit("//");
    lemma_hosts(host);
    let h = host.name();
    let rest = "/"@ + path;
    let url = s + h + rest;
    assert(s + h + "/"@ + path =~= url);
    assert(lowered(s) =~= s);
    assert(lowered("/"@) =~= "/"@);
    lemma_lowered_sum(s + h, rest);
    lemma_lowered_sum(s, h);
    lemma_lowered_sum("/"@, path);
    assert(lowered(url) =~= url);
    lemma_authority(s, h, rest);
    let from = s.len() as int;
    let to = from + h.len();
    assert(url.subrange(from, to) =~= h);
    assert(url.subrange(to, to + 1) =~= "/"@);
    assert(url.skip(to + 1) =~= path);
    assert(after_host(url, h, "/"@) == Some(path));
    reveal_strlit("github.com");
    reveal_strlit("gitlab.com");
    reveal_strlit("bitbucket.org");
    if host == RepoHost::GitLab {
        assert(after_host(url, "github.com"@, "/"@) is None) by {
            assert(url.subrange(to - 10, to)[3] == h[3]);
            assert("github.com"@[3] == 'h' && h[3] == 'l');
        }
    } else if host == RepoHost::Bitbucket {
        assert(after_host(url, "github.com"@, "/"@) is None) by {
            assert(url.subrange(to - 10, to)[9] == h[12]);
            assert("github.com"@[9] == 'm' && h[12] == 'g');
        }
        assert(after_host(url, "gitlab.com"@, "/"@) is None) by {
            assert(url.subrange(to - 10, to)[9] == h[12]);
            assert("gitlab.com"@[9] == 'm' && h[12] == 'g');
        }
    }
}

/// The first character of the first kind ends a text that is cut there.
proof fn lemma_cut(a: Seq<char>, b: Seq<char>, c: char)
    requires
        !a.contains(c),
    ensures
        b.len() == 0 || b[0] == c ==> before_char(a + b, c) == a,
{
    let t = a + b;
    if b.len() == 0 {
        assert(t =~= a);
        lemma_index_of(a, c);
        if let Some(k) = index_of(a, c) {
            assert(a.contains(a[k]));
        }
    } else if b[0] == c {
        assert forall|j: int| 0 <= j < a.len() implies t[j] != c by {
            assert(a.contains(a[j]));
        }
        assert(t[a.len() as int] == c);
        lemma_index_of_is(t, c, a.len() as int);
        assert(t.take(a.len() as int) =~= a);
    }
}

/// The first two parts of a path, whatever follows a slash.
proof fn lemma_two_parts(owner: Seq<char>, repo: Seq<char>, rest: Seq<char>)
    requires
        owner.len() > 0,
        repo.len() > 0,
        !owner.contains('/'),
        !repo.contains('/'),
        rest.len() == 0 || rest[0] == '/',
    ensures
        ({
            let ps = parts(Separator::Slash, owner + "/"@ + repo + rest, 0);
            ps.len() >= 2 && ps[0] == owner && ps[1] == repo
        }),
{
    reveal_strlit("/");
    let sep = Separator::Slash;
    let t = owner + "/"@ + repo + rest;
    let n = owner.len() as int;
    let e = n + 1 + repo.len();
    assert forall|k: int| 0 <= k < n implies sep.no()(#[trigger] t[k]) by {
        assert(t[k] == owner[k] && owner.contains(owner[k]));
    }
    assert(sep.no()(t[0]));
    lemma_run_is(t, 0, 0, sep.yes());
    assert(t[n] == '/');
    lemma_run_is(t, 0, n, sep.no());
    assert forall|k: int| n + 1 <= k < e implies sep.no()(#[trigger] t[k]) by {
        assert(t[k] == repo[k - n - 1] && repo.contains(repo[k - n - 1]));
    }
    assert forall|k: int| n <= k < n + 1 implies sep.yes()(#[trigger] t[k]) by {}
    assert(sep.no()(t[n + 1]));
    lemma_run_is(t, n, n + 1, sep.yes());
    assert(e < t.len() ==> t[e] == rest[0]);
    lemma_run_is(t, n + 1, e, sep.no());
    assert(t.subrange(0, n) =~= owner);
    assert(t.subrange(n + 1, e) =~= repo);
    let more = parts(sep, t, e);
    assert(parts(sep, t, n) =~= seq![repo] + more);
    assert(parts(sep, t, 0) =~= seq![owner] + (seq![repo] + more));
}

/// The owner and repository of a path are its first two parts, whatever follows.
proof fn lemma_owner_and_repo(
    host: RepoHost,
    owner: Seq<char>,
    repo: Seq<char>,
    tail: Seq<char>,
)
    requires
        low_slug(owner),
        low_slug(without_git(repo)),
        repo.len() > 0,
        !repo.contains('/'),
        !repo.contains('#'),
        !repo.contains('?'),
        !reserved_names(host).contains(owner),
        address_tail(tail),
    ensures
        owner_and_repo(owner + "/"@ + repo + tail, host) == Some((owner, without_git(repo))),
{
    reveal_strlit("/");
    lemma_low_slug(owner);
    lemma_low_slug(without_git(repo));
    let head = owner + "/"@ + repo;
    assert forall|i: int| 0 <= i < head.len() implies head[i] != '#' && head[i] != '?' by {
        let n = owner.len() as int;
        if i < n {
            assert(head[i] == owner[i] && owner.contains(owner[i]));
        } else if i > n {
            assert(head[i] == repo[i - n - 1] && repo.contains(repo[i - n - 1]));
        }
    }
    let path = head + tail;
    let a = before_char(path, '#');
    // The path without its fragment begins with the two names.
    lemma_index_of(path, '#');
    let x = match index_of(path, '#') {
        Some(k) => k - head.len(),
        None => tail.len() as int,
    };
    if let Some(k) = index_of(path, '#') {
        assert(path[k] == '#');
        if k < head.len() {
            assert(path[k] == head[k]);
        }
    }
    let rest = tail.take(x);
    assert(a =~= head + rest);
    assert(rest.len() > 0 ==> rest[0] == tail[0]);
    assert(!(rest.len() > 0 && rest[0] == '#')) by {
        if rest.len() > 0 && rest[0] == '#' {
            assert(path[head.len() as int] == '#');
            if let Some(k) = index_of(path, '#') {
                assert(k > head.len());
            }
        }
    }
    let b = before_char(a, '?');
    lemma_index_of(a, '?');
    let y = match index_of(a, '?') {
        Some(k) => k - head.len(),
        None => rest.len() as int,
    };
    if let Some(k) = index_of(a, '?') {
        assert(a[k] == '?');
        if k < head.len() {
            assert(a[k] == head[k]);
        }
    }
    let last = rest.take(y);
    assert(b =~= head + last);
    assert(last.len() > 0 ==> last[0] == rest[0]);
    assert(!(last.len() > 0 && last[0] == '?')) by {
        if last.len() > 0 && last[0] == '?' {
            assert(a[head.len() as int] == '?');
            if let Some(k) = index_of(a, '?') {
                assert(k > head.len());
            }
        }
    }
    lemma_two_parts(owner, repo, last);
}

/// The address of a repository at one of the hosts is recognised with or without
/// a scheme and whatever page of the repository it leads to: the result names the
/// host, the owner and the repository, and its own address is the plain one.
pub proof fn law_repository_recognised(
    s: Seq<char>,
    host: RepoHost,
    owner: Seq<char>,
    repo: Seq<char>,
    tail: Seq<char>,
    page: usize,
    y: i64,
)
    requires
        scheme(s),
        low_slug(owner),
        low_slug(repo),
        without_git(repo) == repo,
        !reserved_names(host).contains(owner),
        address_tail(tail),
        lowered(tail) == tail,
    ensures
        repo_of_link(s + host.name() + "/"@ + owner + "/"@ + repo + tail, page, y) == Some(
            (RepoModel {
                host,
                owner,
                repo,
                url: "https://"@ + host.name() + "/"@ + owner + "/"@ + repo,
                page_index: page,
                y_top: y,
            }),
        ),
{
    reveal_strlit("/");
    lemma_low_slug(owner);
    lemma_low_slug(repo);
    let path = owner + "/"@ + repo + tail;
    lemma_lowered_sum(owner + "/"@ + repo, tail);
    lemma_lowered_sum(owner + "/"@, repo);
    lemma_lowered_sum(owner, "/"@);
    assert(lowered("/"@) =~= "/"@);
    assert(path[0] == owner[0] && owner.contains(owner[0]));
    lemma_classified(s, host, path);
    assert(s + host.name() + "/"@ + path =~= s + host.name() + "/"@ + owner + "/"@ + repo + tail);
    lemma_owner_and_repo(host, owner, repo, tail);
}

/// A trailing `.git` does not belong to the name of a repository.
pub proof fn law_git_suffix_goes(repo: Seq<char>)
    requires
        !ends_with(repo, ".git"@),
    ensures
        without_git(repo) == repo,
        without_git(repo + ".git"@) == repo,
{
    reveal_strlit(".git");
    let t = repo + ".git"@;
    assert(t.subrange(t.len() - 4, t.len() as int) =~= ".git"@);
    assert(t.take(t.len() - 4) =~= repo);
}

proof fn lemma_without_git(t: Seq<char>)
    ensures
        without_git(t).len() <= t.len(),
        without_git(t) == t.take(without_git(t).len() as int),
        without_git(without_git(t)) == without_git(t),
    decreases t.len(),
{
    reveal_strlit(".git");
    if ends_with(t, ".git"@) {
        let u = t.take(t.len() - 4);
        lemma_without_git(u);
        let n = without_git(t).len() as int;
        assert(u.take(n) =~= t.take(n));
    } else {
        assert(t.take(t.len() as int) =~= t);
    }
}

/// Lower-casing twice changes nothing more.
proof fn lemma_lowered_twice(t: Seq<char>)
    ensures
        lowered(lowered(t)) == lowered(t),
{
    assert forall|i: int| 0 <= i < t.len() implies lower(#[trigger] lowered(t)[i])
        == lowered(t)[i] by {
        let c = t[i];
        if 'A' <= c <= 'Z' {
            assert(lower(c) as u32 == c as u32 + 32);
        }
    }
    assert(lowered(lowered(t)) =~= lowered(t));
}

/// What is cut out of a text in lower case is in lower case.
proof fn lemma_low_part(t: Seq<char>, a: int, b: int)
    requires
        lowered(t) == t,
        0 <= a <= b <= t.len(),
    ensures
        lowered(t.subrange(a, b)) == t.subrange(a, b),
{
    assert forall|i: int| 0 <= i < b - a implies lower(#[trigger] t.subrange(a, b)[i])
        == t.subrange(a, b)[i] by {
        assert(lowered(t)[a + i] == t[a + i]);
    }
    assert(lowered(t.subrange(a, b)) =~= t.subrange(a, b));
}

/// The first two parts of a path are stretches of it.
proof fn lemma_parts_within(t: Seq<char>)
    requires
        parts(Separator::Slash, t, 0).len() >= 2,
    ensures
        exists|a: int, b: int|
            0 <= a < b <= t.len() && parts(Separator::Slash, t, 0)[0] == #[trigger] t.subrange(
                a,
                b,
            ),
        exists|a: int, b: int|
            0 <= a < b <= t.len() && parts(Separator::Slash, t, 0)[1] == #[trigger] t.subrange(
                a,
                b,
            ),
{
    let sep = Separator::Slash;
    let a = run(t, 0, sep.yes());
    lemma_run_bounds(t, 0, sep.yes());
    let b = run(t, a, sep.no());
    lemma_run_bounds(t, a, sep.no());
    let rest = parts(sep, t, b);
    assert(parts(sep, t, 0) =~= seq![t.subrange(a, b)] + rest);
    let c = run(t, b, sep.yes());
    lemma_run_bounds(t, b, sep.yes());
    let d = run(t, c, sep.no());
    lemma_run_bounds(t, c, sep.no());
    assert(rest =~= seq![t.subrange(c, d)] + parts(sep, t, d));
    assert(parts(sep, t, 0)[0] == t.subrange(a, b));
    assert(parts(sep, t, 0)[1] == t.subrange(c, d));
}

/// A valid name in lower case.
proof fn lemma_low_valid(s: Seq<char>)
    requires
        valid_slug(s),
        lowered(s) == s,
    ensures
        low_slug(s),
{
    assert forall|i: int| 0 <= i < s.len() implies ('a' <= #[trigger] s[i] <= 'z' || '0' <= s[i]
        <= '9' || s[i] == '-' || s[i] == '_' || s[i] == '.') by {
        assert(slug_char(s[i]));
        assert(lowered(s)[i] == lower(s[i]));
        if 'A' <= s[i] <= 'Z' {
            assert(lower(s[i]) as u32 == s[i] as u32 + 32);
        }
    }
}

proof fn lemma_path_low(address: Seq<char>)
    requires
        classified(address) is Some,
    ensures
        lowered((classified(address)->0).1) == (classified(address)->0).1,
{
    let url = lowered(address);
    lemma_lowered_twice(address);
    let to = authority_end(url);
    lemma_run_bounds(url, 0, is_authority_char());
    lemma_run_bounds(url, authority_start(url), is_authority_char());
    reveal_strlit("/");
    reveal_strlit("/github/");
    let path = (classified(address)->0).1;
    let n = url.len() as int;
    assert(path == url.skip(to + 1) || path == url.skip(to + 8));
    let k = n - path.len();
    assert(path =~= url.subrange(k, n));
    lemma_low_part(url, k, n);
}

/// The plain address of a repository that was recognised leads to the same
/// repository.
pub proof fn law_plain_address_leads_back(address: Seq<char>, page: usize, y: i64)
    requires
        repo_of_link(address, page, y) is Some,
    ensures
        repo_of_link((repo_of_link(address, page, y)->0).url, page, y) == repo_of_link(
            address,
            page,
            y,
        ),
{
    let m = repo_of_link(address, page, y)->0;
    let path = (classified(address)->0).1;
    lemma_path_low(address);
    lemma_index_of(path, '#');
    let a = before_char(path, '#');
    assert(path.take(path.len() as int) =~= path);
    assert(a =~= path.subrange(0, a.len() as int));
    lemma_low_part(path, 0, a.len() as int);
    lemma_index_of(a, '?');
    let b = before_char(a, '?');
    assert(a.take(a.len() as int) =~= a);
    assert(b =~= a.subrange(0, b.len() as int));
    lemma_low_part(a, 0, b.len() as int);
    lemma_parts_within(b);
    let ps = parts(Separator::Slash, b, 0);
    let (p, q) = choose|p: int, q: int|
        0 <= p < q <= b.len() && ps[0] == #[trigger] b.subrange(p, q);
    lemma_low_part(b, p, q);
    let (r, s) = choose|r: int, s: int|
        0 <= r < s <= b.len() && ps[1] == #[trigger] b.subrange(r, s);
    lemma_low_part(b, r, s);
    lemma_without_git(ps[1]);
    let n = m.repo.len() as int;
    assert(m.repo =~= ps[1].subrange(0, n));
    lemma_low_part(ps[1], 0, n);
    lemma_low_valid(m.owner);
    lemma_low_valid(m.repo);
    assert(lowered(ps[0]) == m.owner);
    reveal_strlit("https://");
    let none = Seq::<char>::empty();
    assert(lowered(none) =~= none);
    law_repository_recognised("https://"@, m.host, m.owner, m.repo, none, page, y);
    assert("https://"@ + m.host.name() + "/"@ + m.owner + "/"@ + m.repo + none =~= m.url);
}

/// The name of an owner or a repository has one to a hundred characters: letters,
/// digits, hyphens, underscores and points.
pub proof fn law_names_of_repositories(s: Seq<char>)
    ensures
        valid_slug(s) <==> 1 <= s.len() <= 100 && forall|i: int|
            0 <= i < s.len() ==> (ascii_letter(#[trigger] s[i]) || ascii_digit(s[i]) || s[i] == '-'
                || s[i] == '_' || s[i] == '.'),
{
    if valid_slug(s) {
        assert forall|i: int| 0 <= i < s.len() implies (ascii_letter(#[trigger] s[i])
            || ascii_digit(s[i]) || s[i] == '-' || s[i] == '_' || s[i] == '.') by {
            assert(slug_char(s[i]));
        }
    } else if 1 <= s.len() <= 100 && forall|i: int|
        0 <= i < s.len() ==> (ascii_letter(#[trigger] s[i]) || ascii_digit(s[i]) || s[i] == '-'
            || s[i] == '_' || s[i] == '.') {
        assert forall|i: int| 0 <= i < s.len() implies slug_char(#[trigger] s[i]) by {}
    }
}

/// Pages of the hosts themselves are no owners, whatever the case of the letters.
pub proof fn law_reserved_pages(host: RepoHost, owner: Seq<char>, rest: Seq<char>)
    requires
        (host == RepoHost::GitHub && seq![
            "search"@, "about"@, "pricing"@, "features"@, "enterprise"@, "marketplace"@, "topics"@,
            "collections"@, "trending"@, "login"@, "join"@, "settings"@, "notifications"@,
            "issues"@, "pulls"@, "explore"@, "sponsors"@, "orgs"@, "apps"@, "contact"@, "site"@,
            "security"@, "readme"@,
        ].contains(lowered(owner))) || (host == RepoHost::GitLab && seq![
            "help"@, "explore"@, "users"@, "groups"@, "-"@, "admin"@, "dashboard"@, "profile"@, "search"@,
        ].contains(lowered(owner))) || (host == RepoHost::Bitbucket && seq![
            "product"@, "pricing"@, "features"@, "support"@, "blog"@, "account"@, "repo"@,
        ].contains(lowered(owner))),
        owner.len() > 0,
        !owner.contains('/'),
        !owner.contains('#'),
        !owner.contains('?'),
    ensures
        owner_and_repo(owner + "/"@ + rest, host) is None,
{
    reveal_strlit("/");
    let t = before_char(before_char(owner + "/"@ + rest, '#'), '?');
    let ps = parts(Separator::Slash, t, 0);
    if ps.len() >= 2 {
        lemma_first_part(owner, rest);
        let l = lowered(owner);
        assert(reserved_names(host).contains(l)) by {
            let all = reserved_names(host);
            if host == RepoHost::GitHub {
                let list = seq![
                    "search"@, "about"@, "pricing"@, "features"@, "enterprise"@, "marketplace"@,
                    "topics"@, "collections"@, "trending"@, "login"@, "join"@, "settings"@,
                    "notifications"@, "issues"@, "pulls"@, "explore"@, "sponsors"@, "orgs"@,
                    "apps"@, "contact"@, "site"@, "security"@, "readme"@,
                ];
                let i = choose|i: int| 0 <= i < list.len() && list[i] == l;
                assert(all[i] == l);
            }
            if host == RepoHost::GitLab {
                let list = seq![
                    "help"@, "explore"@, "users"@, "groups"@, "-"@, "admin"@, "dashboard"@,
                    "profile"@, "search"@,
                ];
                let i = choose|i: int| 0 <= i < list.len() && list[i] == l;
                assert(all[i] == l);
            }
            if host == RepoHost::Bitbucket {
                let list = seq![
                    "product"@, "pricing"@, "features"@, "support"@, "blog"@, "account"@, "repo"@,
                ];
                let i = choose|i: int| 0 <= i < list.len() && list[i] == l;
                assert(all[i] == l);
            }
        }
    }
}

/// The first part of a path is what stands before its first slash.
proof fn lemma_first_part(owner: Seq<char>, rest: Seq<char>)
    requires
        owner.len() > 0,
        !owner.contains('/'),
        !owner.contains('#'),
        !owner.contains('?'),
    ensures
        ({
            let t = before_char(before_char(owner + "/"@ + rest, '#'), '?');
            parts(Separator::Slash, t, 0).len() > 0 && parts(Separator::Slash, t, 0)[0] == owner
        }),
{
    reveal_strlit("/");
    let sep = Separator::Slash;
    let path = owner + "/"@ + rest;
    let n = owner.len() as int;
    assert forall|i: int| 0 <= i <= n implies #[trigger] path[i] != '#' && path[i] != '?' by {
        if i < n {
            assert(path[i] == owner[i] && owner.contains(owner[i]));
        }
    }
    lemma_index_of(path, '#');
    let a = before_char(path, '#');
    if let Some(k) = index_of(path, '#') {
        assert(path[k] == '#');
        assert(k > n);
    }
    assert(a.len() > n && a =~= path.take(a.len() as int));
    lemma_index_of(a, '?');
    let t = before_char(a, '?');
    if let Some(k) = index_of(a, '?') {
        assert(a[k] == '?' && a[k] == path[k]);
        assert(k > n);
    }
    assert(t.len() > n && t =~= path.take(t.len() as int));
    assert forall|k: int| 0 <= k < n implies sep.no()(#[trigger] t[k]) by {
        assert(t[k] == owner[k] && owner.contains(owner[k]));
    }
    assert(sep.no()(t[0]));
    lemma_run_is(t, 0, 0, sep.yes());
    assert(t[n] == '/');
    lemma_run_is(t, 0, n, sep.no());
    assert(t.subrange(0, n) =~= owner);
    assert(parts(sep, t, 0)[0] == owner);
}

/// A notebook or a raw file counts as the repository that it shows.
pub proof fn law_shown_repositories(path: Seq<char>)
    requires
        lowered(path) == path,
        path.len() > 0,
        path[0] != '/',
    ensures
        classified("https://colab.research.google.com/github/"@ + path) == Some(
            (RepoHost::GitHub, path),
        ),
        classified("https://raw.githubusercontent.com/"@ + path) == Some((RepoHost::GitHub, path)),
{
    reveal_strlit("https://");
    reveal_strlit("/");
    reveal_strlit("/github/");
    reveal_strlit("github.com");
    reveal_strlit("gitlab.com");
    reveal_strlit("bitbucket.org");
    reveal_strlit("colab.research.google.com");
    reveal_strlit("raw.githubusercontent.com");
    reveal_strlit("https://colab.research.google.com/github/");
    reveal_strlit("https://raw.githubusercontent.com/");
    let c = "colab.research.google.com"@;
    let r = "raw.githubusercontent.com"@;
    let s = "https://"@;
    // The notebook.
    let u = s + c + ("/github/"@ + path);
    let a = "https://colab.research.google.com/github/"@;
    assert(a =~= s + c + "/github/"@);
    assert(a + path =~= u);
    assert(lowered(a) =~= a);
    lemma_lowered_sum(a, path);
    lemma_authority(s, c, "/github/"@ + path);
    assert(u.subrange(8, 33) =~= c);
    lemma_other_host(u, 33, c);
    assert(u.subrange(33, 41) =~= "/github/"@);
    assert(u.skip(41) =~= path);
    // The raw file.
    let v = s + r + ("/"@ + path);
    let b = "https://raw.githubusercontent.com/"@;
    assert(b =~= s + r + "/"@);
    assert(b + path =~= v);
    assert(lowered(b) =~= b);
    lemma_lowered_sum(b, path);
    lemma_authority(s, r, "/"@ + path);
    assert(v.subrange(8, 33) =~= r);
    lemma_other_host(v, 33, r);
    assert(v.subrange(33, 34) =~= "/"@);
    assert(v.skip(34) =~= path);
    if stands_at(v, 8, c) {
        assert(v.subrange(8, 33)[0] == r[0]);
        assert(c[0] == 'c' && r[0] == 'r');
    }
}

/// The authority of a notebook or raw file is none of the three hosts.
proof fn lemma_other_host(url: Seq<char>, to: int, host: Seq<char>)
    requires
        authority_end(url) == to,
        to == 33,
        authority_start(url) == 8,
        host == "colab.research.google.com"@ || host == "raw.githubusercontent.com"@,
        url.len() > 33,
        url.subrange(8, 33) == host,
    ensures
        after_host(url, "github.com"@, "/"@) is None,
        after_host(url, "gitlab.com"@, "/"@) is None,
        after_host(url, "bitbucket.org"@, "/"@) is None,
{
    reveal_strlit("github.com");
    reveal_strlit("gitlab.com");
    reveal_strlit("bitbucket.org");
    reveal_strlit("colab.research.google.com");
    reveal_strlit("raw.githubusercontent.com");
    assert(host[16] == url[24] && host[24] == url[32]) by {
        assert(url.subrange(8, 33)[16] == url[24]);
        assert(url.subrange(8, 33)[24] == url[32]);
    }
    assert(url.subrange(23, 33)[1] == url[24]);
    assert("github.com"@[1] == 'i' && "gitlab.com"@[1] == 'i');
    assert(url.subrange(20, 33)[12] == url[32]);
    assert("bitbucket.org"@[12] == 'g');
    assert(host[24] == 'm');
    assert(host[16] != 'i');
}

/// A host counts with the hosts below it and behind a user's name, but not one
/// whose name only ends like it.
pub proof fn law_hosts_below(host: RepoHost, x: Seq<char>, path: Seq<char>)
    requires
        x.len() > 0,
        forall|i: int|
            0 <= i < x.len() ==> ('a' <= #[trigger] x[i] <= 'z' || '0' <= x[i] <= '9' || x[i]
                == '.' || x[i] == '@' || x[i] == '-'),
        path.len() > 0,
        path[0] != '/',
    ensures
        x.last() == '.' || x.last() == '@' ==> after_host(
            "https://"@ + x + host.name() + "/"@ + path,
            host.name(),
            "/"@,
        ) == Some(path),
        x.last() != '.' && x.last() != '@' ==> after_host(
            "https://"@ + x + host.name() + "/"@ + path,
            host.name(),
            "/"@,
        ) is None,
{
    reveal_strlit("https://");
    reveal_strlit("/");
    lemma_hosts(host);
    let h = host.name();
    let a = x + h;
    let rest = "/"@ + path;
    let url = "https://"@ + a + rest;
    assert(url =~= "https://"@ + x + h + "/"@ + path);
    assert forall|i: int| 0 <= i < a.len() implies #[trigger] a[i] != '/' && a[i] != '?' && a[i]
        != '#' && a[i] != ':' by {
        if i < x.len() {
            assert(a[i] == x[i]);
        } else {
            assert(a[i] == h[i - x.len()]);
        }
    }
    lemma_authority("https://"@, a, rest);
    let to = 8 + a.len() as int;
    let i = to - h.len();
    assert(url.subrange(i, to) =~= h);
    assert(url[i - 1] == x.last());
    assert(url.subrange(to, to + 1) =~= "/"@);
    assert(url.skip(to + 1) =~= path);
}

/// Repositories are ranked in reading order: by page, and on a page from the top
/// down.
pub proof fn law_reading_order(list: Seq<RepoModel>, i: int, j: int)
    requires
        0 <= i < list.len(),
        0 <= j < list.len(),
    ensures
        key_less(rank_keys(list)[i], rank_keys(list)[j]) <==> list[i].page_index
            < list[j].page_index || (list[i].page_index == list[j].page_index && list[i].y_top
            > list[j].y_top),
        earlier(list[i], list[j]) <==> list[i].page_index < list[j].page_index || (
        list[i].page_index == list[j].page_index && list[i].y_top > list[j].y_top),
        same_repo(list[i], list[j]) <==> list[i].host == list[j].host && list[i].owner
            == list[j].owner && list[i].repo == list[j].repo,
{
}

/// What stands past the heading of the references: everything on later pages, and
/// on its page what stands below it. Without a heading nothing does.
pub proof fn law_past_the_references(b: ReferenceBoundary, page: int, y: int)
    ensures
        page > b.page_index ==> past_boundary(Some(b), page, y),
        page < b.page_index ==> !past_boundary(Some(b), page, y),
        page == b.page_index ==> (past_boundary(Some(b), page, y) <==> y < b.y_top),
        !past_boundary(None, page, y),
{
}

} // verus!
