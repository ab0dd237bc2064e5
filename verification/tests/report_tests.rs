use medusa_supervisor::errors::CampaignError;
use medusa_supervisor::git::GitRepo;
use medusa_supervisor::medusa::{
    ExitStatus, MedusaHandler, MedusaState, SpawnOutcome, exit_status_from_code,
};
use medusa_supervisor::registry::RepoRegistry;
use medusa_supervisor::report::{campaign_count_line, status_line, status_report, u64_to_string};

#[test]
fn decimal_rendering() {
    assert_eq!(u64_to_string(0), "0");
    assert_eq!(u64_to_string(7), "7");
    assert_eq!(u64_to_string(10), "10");
    assert_eq!(u64_to_string(1234567890), "1234567890");
    assert_eq!(u64_to_string(u64::MAX), "18446744073709551615");
}

#[test]
fn running_state_text() {
    let state = MedusaState::Running { pid: 4242 };
    assert_eq!(state.describe(), "Running (PID: 4242)");
}

#[test]
fn stopped_state_text_with_code() {
    let state = MedusaState::Stopped { status: exit_status_from_code(0) };
    assert_eq!(state.describe(), "Stopped (Status: exit code: 0)");

    let state = MedusaState::Stopped { status: exit_status_from_code(-5) };
    assert_eq!(state.describe(), "Stopped (Status: exit code: -5)");
}

#[test]
fn stopped_state_text_after_signal() {
    let state = MedusaState::Stopped { status: ExitStatus { success: false, code: None } };
    assert_eq!(state.describe(), "Stopped (Status: terminated by signal)");
}

#[test]
fn error_state_text() {
    let state = MedusaState::Error { message: "handle invalid".to_string() };
    assert_eq!(state.describe(), "Error (Message: handle invalid)");
}

#[test]
fn status_line_joins_name_and_state() {
    let line = status_line(&"proj".to_string(), &MedusaState::Running { pid: 8 });
    assert_eq!(line, "proj: Running (PID: 8)");
}

#[test]
fn campaign_count_header() {
    assert_eq!(campaign_count_line(0), "Currently 0 campaigns");
    assert_eq!(campaign_count_line(12), "Currently 12 campaigns");
}

#[test]
fn status_report_lists_each_tracked_repo() {
    let mut reg = RepoRegistry::new();
    let repo = GitRepo::parse("https://host/org/proj.git").unwrap();
    reg.add(repo.clone());

    let mut handler = MedusaHandler::new();
    handler
        .run_medusa(&repo, SpawnOutcome::Spawned { pid: 9 })
        .unwrap();

    let lines = status_report(&reg, &handler).unwrap();
    assert_eq!(lines, vec!["proj: Running (PID: 9)".to_string()]);
}

#[test]
fn status_report_fails_for_untracked_process() {
    let mut reg = RepoRegistry::new();
    reg.add(GitRepo::parse("https://host/org/proj.git").unwrap());

    let handler = MedusaHandler::new();
    let err = status_report(&reg, &handler).unwrap_err();
    assert!(matches!(err, CampaignError::NotFound));
}
