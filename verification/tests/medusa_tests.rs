use medusa_supervisor::errors::CampaignError;
use medusa_supervisor::git::GitRepo;
use medusa_supervisor::medusa::{
    ExitStatus, MedusaHandler, MedusaState, SpawnOutcome, WaitOutcome, exit_status_from_code,
};

fn repo_a() -> GitRepo {
    GitRepo::parse("https://host/org/repoA.git").unwrap()
}

#[test]
fn start_on_clean_supervisor_records_running() {
    let mut handler = MedusaHandler::new();
    let repo = repo_a();

    assert!(handler.start_decision(&repo.name()).is_ok());
    let pid = handler
        .run_medusa(&repo, SpawnOutcome::Spawned { pid: 4242 })
        .unwrap();
    assert!(pid > 0);
    assert_eq!(pid, 4242);

    let state = handler.get_process_state("repoA".to_string()).unwrap();
    assert!(matches!(state, MedusaState::Running { pid: 4242 }));
}

#[test]
fn second_start_is_refused_while_running() {
    let mut handler = MedusaHandler::new();
    let repo = repo_a();

    assert!(handler.start_decision(&repo.name()).is_ok());
    handler
        .run_medusa(&repo, SpawnOutcome::Spawned { pid: 7 })
        .unwrap();

    let err = handler.start_decision(&repo.name()).unwrap_err();
    assert!(matches!(err, CampaignError::AlreadyRunning));
}

#[test]
fn stop_running_returns_pid_and_removes_entry() {
    let mut handler = MedusaHandler::new();
    let repo = repo_a();
    handler
        .run_medusa(&repo, SpawnOutcome::Spawned { pid: 99 })
        .unwrap();

    let pid = handler.stop_process("repoA".to_string()).unwrap();
    assert_eq!(pid, 99);

    let err = handler.get_process_state("repoA".to_string()).unwrap_err();
    assert!(matches!(err, CampaignError::NotFound));
}

#[test]
fn stop_unknown_name_is_not_found() {
    let mut handler = MedusaHandler::new();
    let err = handler.stop_process("repoB".to_string()).unwrap_err();
    assert!(matches!(err, CampaignError::NotFound));
}

#[test]
fn stop_terminal_entry_is_not_running() {
    let mut handler = MedusaHandler::new();
    let repo = repo_a();
    handler
        .run_medusa(&repo, SpawnOutcome::Spawned { pid: 31 })
        .unwrap();
    handler.record_exit(
        "repoA".to_string(),
        WaitOutcome::Exited { status: exit_status_from_code(0) },
    );

    let err = handler.stop_process("repoA".to_string()).unwrap_err();
    assert!(matches!(err, CampaignError::NotRunning));
}

#[test]
fn spawn_failure_leaves_no_entry() {
    let mut handler = MedusaHandler::new();
    let repo = repo_a();

    let err = handler
        .run_medusa(
            &repo,
            SpawnOutcome::SpawnError { message: "binary missing".to_string() },
        )
        .unwrap_err();
    assert!(matches!(err, CampaignError::SpawnFailure { .. }));

    let err = handler.get_process_state("repoA".to_string()).unwrap_err();
    assert!(matches!(err, CampaignError::NotFound));
}

#[test]
fn clean_exit_is_recorded_as_success() {
    let mut handler = MedusaHandler::new();
    let repo = repo_a();
    handler
        .run_medusa(&repo, SpawnOutcome::Spawned { pid: 11 })
        .unwrap();

    handler.record_exit(
        "repoA".to_string(),
        WaitOutcome::Exited { status: exit_status_from_code(0) },
    );

    let state = handler.get_process_state("repoA".to_string()).unwrap();
    match state {
        MedusaState::Stopped { status } => {
            assert!(status.success);
            assert_eq!(status.code, Some(0));
        }
        other => panic!("expected a stopped state, got {:?}", state_kind(&other)),
    }
}

#[test]
fn nonzero_exit_keeps_the_code() {
    let mut handler = MedusaHandler::new();
    let repo = repo_a();
    handler
        .run_medusa(&repo, SpawnOutcome::Spawned { pid: 12 })
        .unwrap();

    handler.record_exit(
        "repoA".to_string(),
        WaitOutcome::Exited { status: exit_status_from_code(3) },
    );

    let state = handler.get_process_state("repoA".to_string()).unwrap();
    match state {
        MedusaState::Stopped { status } => {
            assert!(!status.success);
            assert_eq!(status.code, Some(3));
        }
        other => panic!("expected a stopped state, got {:?}", state_kind(&other)),
    }
}

#[test]
fn failed_wait_is_recorded_as_error() {
    let mut handler = MedusaHandler::new();
    let repo = repo_a();
    handler
        .run_medusa(&repo, SpawnOutcome::Spawned { pid: 13 })
        .unwrap();

    handler.record_exit(
        "repoA".to_string(),
        WaitOutcome::WaitError { message: "handle invalid".to_string() },
    );

    let state = handler.get_process_state("repoA".to_string()).unwrap();
    assert!(matches!(state, MedusaState::Error { .. }));
}

#[test]
fn fresh_start_overwrites_terminal_entry() {
    let mut handler = MedusaHandler::new();
    let repo = repo_a();
    handler
        .run_medusa(&repo, SpawnOutcome::Spawned { pid: 21 })
        .unwrap();
    handler.record_exit(
        "repoA".to_string(),
        WaitOutcome::Exited { status: exit_status_from_code(1) },
    );

    assert!(handler.start_decision(&repo.name()).is_ok());
    handler
        .run_medusa(&repo, SpawnOutcome::Spawned { pid: 22 })
        .unwrap();

    let state = handler.get_process_state("repoA".to_string()).unwrap();
    assert!(matches!(state, MedusaState::Running { pid: 22 }));
}

#[test]
fn exit_status_from_code_marks_only_zero_as_success() {
    let ok = exit_status_from_code(0);
    assert!(ok.success);
    assert_eq!(ok.code, Some(0));

    let bad = exit_status_from_code(77);
    assert!(!bad.success);
    assert_eq!(bad.code, Some(77));
}

#[test]
fn io_layer_error_kinds_are_distinct() {
    let signal = CampaignError::SignalFailure { message: "delivery failed".to_string() };
    let persist = CampaignError::PersistenceFailure { message: "disk full".to_string() };
    assert!(matches!(signal, CampaignError::SignalFailure { .. }));
    assert!(matches!(persist, CampaignError::PersistenceFailure { .. }));
}

fn state_kind(state: &MedusaState) -> &'static str {
    match state {
        MedusaState::Running { .. } => "running",
        MedusaState::Stopped { .. } => "stopped",
        MedusaState::Error { .. } => "error",
    }
}

#[test]
fn signal_status_has_no_code() {
    let status = ExitStatus { success: false, code: None };
    assert!(!status.success);
    assert_eq!(status.code, None);
}
