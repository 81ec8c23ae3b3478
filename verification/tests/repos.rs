use edgequake::links::{LinkExtraction, PdfLinkAnnotation, ReferenceBoundary};
use edgequake::repos::{
    classify_url, detect_repos, is_reserved_owner_path, is_valid_slug, parse_owner_repo, RepoHost,
};

/// A height on a page: larger is higher.
fn height(y: f32) -> i64 {
    (y as f64 * 65536.0) as i64
}

fn link(url: &str, page: usize, y: f32) -> PdfLinkAnnotation {
    PdfLinkAnnotation {
        url: url.to_string(),
        page_index: page,
        y_top: height(y),
    }
}

fn classify_and_parse(url: &str) -> Option<(RepoHost, String, String)> {
    let (host, rest) = classify_url(url)?;
    let (owner, repo) = parse_owner_repo(&rest, host)?;
    Some((host, owner, repo))
}

#[test]
fn parses_github_plain() {
    assert_eq!(
        classify_and_parse("https://github.com/foo/bar"),
        Some((RepoHost::GitHub, "foo".to_string(), "bar".to_string()))
    );
}

#[test]
fn parses_github_with_deep_path() {
    assert_eq!(
        classify_and_parse("https://github.com/foo/bar/tree/main/src"),
        Some((RepoHost::GitHub, "foo".to_string(), "bar".to_string()))
    );
}

#[test]
fn strips_git_suffix_and_query() {
    assert_eq!(
        classify_and_parse("https://github.com/foo/bar.git?ref=v1"),
        Some((RepoHost::GitHub, "foo".to_string(), "bar".to_string()))
    );
}

#[test]
fn rejects_reserved_paths() {
    assert_eq!(classify_and_parse("https://github.com/search?q=rag"), None);
    assert_eq!(classify_and_parse("https://github.com/about"), None);
}

#[test]
fn rejects_root() {
    assert_eq!(classify_and_parse("https://github.com/"), None);
    assert_eq!(classify_and_parse("https://github.com/foo"), None);
}

#[test]
fn parses_colab_github_wrapper() {
    assert_eq!(
        classify_and_parse(
            "https://colab.research.google.com/github/google-deepmind/alphaevolve_results/blob/master/mathematical_results.ipynb"
        ),
        Some((
            RepoHost::GitHub,
            "google-deepmind".to_string(),
            "alphaevolve_results".to_string()
        ))
    );
}

#[test]
fn parses_raw_githubusercontent() {
    assert_eq!(
        classify_and_parse("https://raw.githubusercontent.com/foo/bar/main/README.md"),
        Some((RepoHost::GitHub, "foo".to_string(), "bar".to_string()))
    );
}

#[test]
fn rejects_lookalike_host() {
    assert_eq!(classify_and_parse("https://mygithub.com/foo/bar"), None);
    assert_eq!(classify_and_parse("https://notgithub.com/foo/bar"), None);
}

#[test]
fn detects_and_ranks_by_page() {
    let ext = LinkExtraction {
        links: vec![
            link("https://github.com/late/one", 8, 500.0),
            link("https://github.com/early/first", 0, 700.0),
            link("https://example.com/not/a/repo", 0, 600.0),
        ],
        refs_boundary: None,
        page_count: 10,
    };
    let got = detect_repos(&ext);
    assert_eq!(got.len(), 2);
    assert_eq!(got[0].owner, "early");
    assert_eq!(got[1].owner, "late");
}

#[test]
fn filters_out_links_past_references() {
    let ext = LinkExtraction {
        links: vec![
            link("https://github.com/author/paper", 1, 600.0),
            link("https://github.com/cited/work", 9, 500.0),
        ],
        refs_boundary: Some(ReferenceBoundary {
            page_index: 8,
            y_top: height(700.0),
        }),
        page_count: 10,
    };
    let got = detect_repos(&ext);
    assert_eq!(got.len(), 1);
    assert_eq!(got[0].owner, "author");
}

#[test]
fn dedups_same_repo_across_pages_keeping_earliest() {
    let ext = LinkExtraction {
        links: vec![
            link("https://github.com/author/paper", 3, 200.0),
            link("https://github.com/author/paper/tree/main", 0, 600.0),
        ],
        refs_boundary: None,
        page_count: 5,
    };
    let got = detect_repos(&ext);
    assert_eq!(got.len(), 1);
    assert_eq!(got[0].page_index, 0);
}

#[test]
fn detects_gitlab_and_bitbucket() {
    let ext = LinkExtraction {
        links: vec![
            link("https://gitlab.com/group/subgroup-project", 0, 400.0),
            link("https://bitbucket.org/team/repo", 1, 400.0),
        ],
        refs_boundary: None,
        page_count: 3,
    };
    let got = detect_repos(&ext);
    assert_eq!(got.len(), 2);
    assert_eq!(got[0].host, RepoHost::GitLab);
    assert_eq!(got[1].host, RepoHost::Bitbucket);
}

#[test]
fn detected_repositories_differ() {
    let ext = LinkExtraction {
        links: vec![
            link("https://github.com/A/b", 2, 10.0),
            link("https://github.com/a/B.git", 1, 20.0),
            link("https://www.github.com/c/d", 1, 90.0),
            link("ftp://github.com/x/y", 0, 1.0),
            link("https://github.com/-/y", 0, 1.0),
        ],
        refs_boundary: None,
        page_count: 3,
    };
    let got = detect_repos(&ext);
    let mut seen: Vec<(String, String)> =
        got.iter().map(|r| (r.owner.to_lowercase(), r.repo.to_lowercase())).collect();
    assert_eq!(seen.iter().filter(|p| p.0 == "a").count(), 1);
    seen.dedup();
    assert_eq!(seen.len(), got.len());
    assert!(got.windows(2).all(|w| {
        w[0].page_index < w[1].page_index
            || (w[0].page_index == w[1].page_index && w[0].y_top >= w[1].y_top)
    }));
}

#[test]
fn every_repository_is_kept_with_its_earliest_link() {
    let out = detect_repos(&LinkExtraction {
        links: vec![
            link("https://github.com/a/b", 4, 100.0),
            link("https://gitlab.com/c/d", 3, 50.0),
            link("https://github.com/a/b", 2, 10.0),
            link("https://github.com/a/b", 2, 700.0),
            link("https://github.com/e/f", 9, 10.0),
        ],
        refs_boundary: Some(ReferenceBoundary { page_index: 8, y_top: height(800.0) }),
        page_count: 10,
    });
    let found: Vec<(&str, usize, i64)> =
        out.iter().map(|r| (r.url.as_str(), r.page_index, r.y_top)).collect();
    assert_eq!(
        found,
        [
            ("https://github.com/a/b", 2, height(700.0)),
            ("https://gitlab.com/c/d", 3, height(50.0)),
        ]
    );
}

#[test]
fn slugs_and_owners_are_checked() {
    let chars = |t: &str| t.chars().collect::<Vec<char>>();
    assert!(is_valid_slug(&chars("a-b_c.d9")));
    assert!(!is_valid_slug(&chars("")));
    assert!(!is_valid_slug(&chars("a b")));
    assert!(is_reserved_owner_path(RepoHost::GitHub, &chars("Search")));
    assert!(!is_reserved_owner_path(RepoHost::GitHub, &chars("rust-lang")));
    assert_eq!(RepoHost::GitHub.as_str(), "github.com");
    assert_eq!(RepoHost::GitLab.as_str(), "gitlab.com");
    assert_eq!(RepoHost::Bitbucket.as_str(), "bitbucket.org");
}

#[test]
fn the_host_is_looked_for_in_the_authority_only() {
    for url in [
        "https://example.com/github.com/foo/bar",
        "example.com/github.com/foo/bar",
        "https://example.com/?u=https://github.com/foo/bar",
        "https://example.com?x.github.com/foo/bar",
        "https://github.com@example.com/foo/bar",
        "https://example.com/raw.githubusercontent.com/foo/bar",
        "https://example.com/colab.research.google.com/github/foo/bar",
        "https://mygithub.com/foo/bar",
    ] {
        assert_eq!(classify_url(url), None, "{url}");
    }
    for url in [
        "github.com/foo/bar",
        "www.github.com/foo/bar",
        "//github.com/foo/bar",
        "https://www.GitHub.com/foo/bar",
        "git+https://user@github.com/foo/bar",
        "https://raw.githubusercontent.com/foo/bar",
        "https://colab.research.google.com/github/foo/bar",
    ] {
        assert_eq!(
            classify_url(url),
            Some((RepoHost::GitHub, "foo/bar".to_string())),
            "{url}"
        );
    }
}
