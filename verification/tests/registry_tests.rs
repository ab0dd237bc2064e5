use medusa_supervisor::errors::CampaignError;
use medusa_supervisor::git::GitRepo;
use medusa_supervisor::registry::RepoRegistry;

fn repo(raw: &str) -> GitRepo {
    GitRepo::parse(raw).unwrap()
}

#[test]
fn add_is_idempotent() {
    let mut reg = RepoRegistry::new();
    let first = reg.add(repo("https://host/org/proj.git:dev"));
    let second = reg.add(repo("https://host/org/proj.git:dev"));
    assert!(first);
    assert!(!second);
    assert_eq!(reg.list().len(), 1);
    assert_eq!(reg.persist_lines(), vec!["https://host/org/proj.git:dev".to_string()]);
}

#[test]
fn add_distinguishes_branches() {
    let mut reg = RepoRegistry::new();
    assert!(reg.add(repo("https://host/org/proj.git")));
    assert!(reg.add(repo("https://host/org/proj.git:dev")));
    assert_eq!(reg.list().len(), 2);
}

#[test]
fn persisted_list_reloads_to_same_identities() {
    let mut reg = RepoRegistry::new();
    reg.add(repo("https://host/org/alpha.git"));
    reg.add(repo("https://host/org/beta.git:dev"));
    reg.add(repo("https://host/other/gamma"));

    let lines = reg.persist_lines();
    let reloaded = RepoRegistry::load(&lines).unwrap();

    let before = reg.list();
    let after = reloaded.list();
    assert_eq!(before.len(), after.len());
    for (a, b) in before.iter().zip(after.iter()) {
        assert_eq!(a.url(), b.url());
        assert_eq!(a.branch(), b.branch());
    }
}

#[test]
fn load_deduplicates_and_keeps_order() {
    let lines = vec![
        "https://host/org/alpha.git".to_string(),
        "https://host/org/beta.git:dev".to_string(),
        "https://host/org/alpha.git".to_string(),
    ];
    let reg = RepoRegistry::load(&lines).unwrap();
    let repos = reg.list();
    assert_eq!(repos.len(), 2);
    assert_eq!(repos[0].name(), "alpha");
    assert_eq!(repos[1].name(), "beta");
}

#[test]
fn load_rejects_malformed_line() {
    let lines = vec![
        "https://host/org/alpha.git".to_string(),
        "not-a-url".to_string(),
    ];
    let err = RepoRegistry::load(&lines).unwrap_err();
    assert!(matches!(err, CampaignError::MalformedUrl));
}

#[test]
fn remove_delists_one_identity() {
    let mut reg = RepoRegistry::new();
    reg.add(repo("https://host/org/alpha.git"));
    reg.add(repo("https://host/org/beta.git"));

    assert!(reg.remove(&repo("https://host/org/alpha.git")));
    assert!(!reg.remove(&repo("https://host/org/alpha.git")));
    assert_eq!(reg.persist_lines(), vec!["https://host/org/beta.git".to_string()]);
}

#[test]
fn contains_identity_matches_url_and_branch() {
    let mut reg = RepoRegistry::new();
    reg.add(repo("https://host/org/alpha.git:dev"));
    assert!(reg.contains_identity(&repo("https://host/org/alpha.git:dev")));
    assert!(!reg.contains_identity(&repo("https://host/org/alpha.git")));
}

#[test]
fn find_by_name_returns_first_match() {
    let mut reg = RepoRegistry::new();
    reg.add(repo("https://host/org/alpha.git"));
    reg.add(repo("https://host/org/beta.git:dev"));

    let found = reg.find_by_name(&"beta".to_string()).unwrap();
    assert_eq!(found.url(), "https://host/org/beta.git");
    assert!(reg.find_by_name(&"gamma".to_string()).is_none());
}

#[test]
fn find_by_name_prefers_first_listed() {
    let mut reg = RepoRegistry::new();
    reg.add(repo("https://host/a/proj.git"));
    reg.add(repo("https://host/b/proj.git"));

    let found = reg.find_by_name(&"proj".to_string()).unwrap();
    assert_eq!(found.url(), "https://host/a/proj.git");
}
