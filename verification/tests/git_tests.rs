use medusa_supervisor::errors::CampaignError;
use medusa_supervisor::git::{
    GitRepo, extract_branch_from_url, extract_dir_from_url, extract_url_without_branch,
};

#[test]
fn test_extract_dir_from_url() {
    let url = "https://github.com/abc/def-ghi5.git";
    let dir = extract_dir_from_url(url).unwrap();
    assert_eq!(dir, "def-ghi5");
}

#[test]
fn test_extract_branch_from_url() {
    let url = "https://github.com/abc/def-ghi5.git:abcdef";
    let branch = extract_branch_from_url(url).unwrap();
    assert_eq!(branch, Some("abcdef".to_string()));
}

#[test]
fn test_extract_url_without_branch() {
    let url = "https://github.com/abc/def-ghi5.git";
    let url_without_branch = extract_url_without_branch(url).unwrap();
    assert_eq!(url_without_branch, "https://github.com/abc/def-ghi5.git");

    let url = "https://github.com/abc/def-ghi5.git:abcdef";
    let url_without_branch = extract_url_without_branch(url).unwrap();
    assert_eq!(url_without_branch, "https://github.com/abc/def-ghi5.git");
}

#[test]
fn parse_splits_url_branch_and_name() {
    let repo = GitRepo::parse("https://host/org/proj.git:feature-x").unwrap();
    assert_eq!(repo.url(), "https://host/org/proj.git");
    assert_eq!(repo.branch(), Some("feature-x".to_string()));
    assert_eq!(repo.name(), "proj");
}

#[test]
fn parse_without_branch() {
    let repo = GitRepo::parse("https://host/org/proj.git").unwrap();
    assert_eq!(repo.url(), "https://host/org/proj.git");
    assert_eq!(repo.branch(), None);
    assert_eq!(repo.name(), "proj");
}

#[test]
fn parse_rejects_malformed() {
    let err = GitRepo::parse("no-scheme-no-branch").unwrap_err();
    assert!(matches!(err, CampaignError::MalformedUrl));

    let err = GitRepo::parse("https://host/a:b:c").unwrap_err();
    assert!(matches!(err, CampaignError::MalformedUrl));
}

#[test]
fn name_without_git_suffix() {
    let repo = GitRepo::parse("https://host/org/plain").unwrap();
    assert_eq!(repo.name(), "plain");
}

#[test]
fn name_strips_only_the_trailing_git_suffix() {
    let dir = extract_dir_from_url("https://host/a.gitb.git").unwrap();
    assert_eq!(dir, "a.gitb");

    let repo = GitRepo::parse("https://host/org/foo.github.io").unwrap();
    assert_eq!(repo.name(), "foo.github.io");
}

#[test]
fn new_builds_same_identity_as_parse() {
    let repo = GitRepo::new("https://host/org/proj.git:dev".to_string());
    assert_eq!(repo.url(), "https://host/org/proj.git");
    assert_eq!(repo.branch(), Some("dev".to_string()));
}

#[test]
fn repo_line_round_trips() {
    let raw = "https://host/org/proj.git:feature-x";
    let repo = GitRepo::parse(raw).unwrap();
    assert_eq!(repo.repo_line(), raw);
    let again = GitRepo::parse(&repo.repo_line()).unwrap();
    assert_eq!(again.url(), repo.url());
    assert_eq!(again.branch(), repo.branch());

    let raw = "https://host/org/proj.git";
    let repo = GitRepo::parse(raw).unwrap();
    assert_eq!(repo.repo_line(), raw);
}

#[test]
fn parse_with_empty_branch() {
    let repo = GitRepo::parse("https://host/org/proj.git:").unwrap();
    assert_eq!(repo.url(), "https://host/org/proj.git");
    assert_eq!(repo.branch(), Some("".to_string()));
}

#[test]
fn same_identity_compares_url_and_branch() {
    let a = GitRepo::parse("https://host/org/proj.git:dev").unwrap();
    let b = GitRepo::parse("https://host/org/proj.git:dev").unwrap();
    let c = GitRepo::parse("https://host/org/proj.git").unwrap();
    assert!(a.same_identity(&b));
    assert!(!a.same_identity(&c));
}
