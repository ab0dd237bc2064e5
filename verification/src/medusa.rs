//! The campaign supervisor: a registry from repository name to the
//! lifecycle state of its external fuzzing process.
//!
//! The supervisor owns only plain data — the name of each campaign and a
//! snapshot of its state (`Running` with the pid recorded at spawn time,
//! `Stopped` with the exit status, or `Error` when the wait machinery
//! itself failed).  The unverified layer around the crate performs the
//! actual spawn, signal and wait, and reports each outcome here as a plain
//! value; every function of this module is verified for every outcome.
//!
//! The start protocol is two-phase so that no spawn can happen for a name
//! that is already `Running`: callers first ask [`MedusaHandler::start_decision`],
//! then spawn, then record the result with [`MedusaHandler::run_medusa`] —
//! all under the same exclusive guard of the handler, which is why
//! `run_medusa` may require that the name is not `Running`.

use vstd::prelude::*;

use crate::errors::CampaignError;
use crate::git::GitRepo;
use crate::git::dir_of;

verus! {

/// The termination status of a finished process: a success flag and the
/// raw exit code (`None` when the process was ended by a signal).
#[derive(Clone, Copy, Debug)]
pub struct ExitStatus {
    pub success: bool,
    pub code: Option<i32>,
}

/// The exit status of a process that returned the plain exit code `code`:
/// a success exactly when the code is zero.
pub open spec fn exit_status_of_code(code: i32) -> ExitStatus {
    ExitStatus { success: code == 0, code: Some(code) }
}

/// Builds the exit status recorded for a process that exited with `code`.
pub fn exit_status_from_code(code: i32) -> (r: ExitStatus)
    ensures
        r == exit_status_of_code(code),
{
    ExitStatus { success: code == 0, code: Some(code) }
}

/// The lifecycle state of one campaign.
#[derive(Debug)]
pub enum MedusaState {
    /// The process is believed alive; `pid` is its id at spawn time.
    Running { pid: u32 },
    /// The process exited; its termination status is preserved.
    Stopped { status: ExitStatus },
    /// Waiting for the process failed — not the fuzzer's own exit.
    Error { message: String },
}

/// The mathematical value of a [`MedusaState`].
#[verifier::ext_equal]
pub enum MedusaStateView {
    Running { pid: u32 },
    Stopped { status: ExitStatus },
    Error { message: Seq<char> },
}

impl View for MedusaState {
    type V = MedusaStateView;

    open spec fn view(&self) -> MedusaStateView {
        match self {
            MedusaState::Running { pid } => MedusaStateView::Running { pid: *pid },
            MedusaState::Stopped { status } => MedusaStateView::Stopped { status: *status },
            MedusaState::Error { message } => MedusaStateView::Error { message: message@ },
        }
    }
}

impl Clone for MedusaState {
    /// A clone reports the same state.
    fn clone(&self) -> (r: Self)
        ensures
            r@ == self@,
    {
        match self {
            MedusaState::Running { pid } => MedusaState::Running { pid: *pid },
            MedusaState::Stopped { status } => MedusaState::Stopped { status: *status },
            MedusaState::Error { message } => MedusaState::Error { message: message.clone() },
        }
    }
}

/// What the operating system answered to a spawn request.
pub enum SpawnOutcome {
    /// The process was created with this id.
    Spawned { pid: u32 },
    /// No process was created.
    SpawnError { message: String },
}

/// What one blocking wait for process termination observed.
pub enum WaitOutcome {
    /// The process terminated with this status.
    Exited { status: ExitStatus },
    /// The wait itself failed.
    WaitError { message: String },
}

/// The map `m` holds a `Running` entry under `name`.
pub open spec fn is_running(m: Map<Seq<char>, MedusaStateView>, name: Seq<char>) -> bool {
    m.contains_key(name) && m[name] is Running
}

struct ProcessEntry {
    name: String,
    state: MedusaState,
}

/// The supervisor: one entry per campaign name, at most one entry per
/// name at any instant.  Viewed as a map from name to state.
pub struct MedusaHandler {
    process: Vec<ProcessEntry>,
}

spec fn entries_map(s: Seq<ProcessEntry>) -> Map<Seq<char>, MedusaStateView>
    decreases s.len(),
{
    if s.len() == 0 {
        Map::empty()
    } else {
        entries_map(s.drop_last()).insert(s.last().name@, s.last().state@)
    }
}

spec fn unique_names(s: Seq<ProcessEntry>) -> bool {
    forall|i: int, j: int| 0 <= i < j < s.len() ==> s[i].name@ != s[j].name@
}

proof fn lemma_entries_map_domain(s: Seq<ProcessEntry>, k: Seq<char>)
    ensures
        entries_map(s).contains_key(k) <==> exists|i: int| 0 <= i < s.len() && s[i].name@ == k,
    decreases s.len(),
{
    if s.len() > 0 {
        lemma_entries_map_domain(s.drop_last(), k);
        if entries_map(s).contains_key(k) {
            if s.last().name@ == k {
                assert(s[s.len() - 1].name@ == k);
            } else {
                let i = choose|i: int| 0 <= i < s.len() - 1 && s.drop_last()[i].name@ == k;
                assert(s[i].name@ == k);
            }
        }
        if exists|i: int| 0 <= i < s.len() && s[i].name@ == k {
            let i = choose|i: int| 0 <= i < s.len() && s[i].name@ == k;
            if i < s.len() - 1 {
                assert(s.drop_last()[i].name@ == k);
            }
        }
    }
}

proof fn lemma_entries_map_value(s: Seq<ProcessEntry>, i: int)
    requires
        unique_names(s),
        0 <= i < s.len(),
    ensures
        entries_map(s).contains_key(s[i].name@),
        entries_map(s)[s[i].name@] == s[i].state@,
    decreases s.len(),
{
    lemma_entries_map_domain(s, s[i].name@);
    if i < s.len() - 1 {
        assert(s[i].name@ != s.last().name@);
        assert(s.drop_last()[i] == s[i]);
        lemma_entries_map_value(s.drop_last(), i);
    }
}

proof fn lemma_entries_map_update(s: Seq<ProcessEntry>, i: int, e: ProcessEntry)
    requires
        unique_names(s),
        0 <= i < s.len(),
        e.name@ == s[i].name@,
    ensures
        unique_names(s.update(i, e)),
        entries_map(s.update(i, e)) =~= entries_map(s).insert(e.name@, e.state@),
    decreases s.len(),
{
    let t = s.update(i, e);
    assert forall|a: int, b: int| 0 <= a < b < t.len() implies t[a].name@ != t[b].name@ by {
        assert(s[a].name@ != s[b].name@);
    }
    if i == s.len() - 1 {
        assert(t.drop_last() =~= s.drop_last());
        assert(t.last() == e);
    } else {
        lemma_entries_map_update(s.drop_last(), i, e);
        assert(t.drop_last() =~= s.drop_last().update(i, e));
        assert(t.last() == s.last());
        assert(e.name@ != s.last().name@);
    }
}

proof fn lemma_entries_map_remove(s: Seq<ProcessEntry>, i: int)
    requires
        unique_names(s),
        0 <= i < s.len(),
    ensures
        unique_names(s.remove(i)),
        entries_map(s.remove(i)) =~= entries_map(s).remove(s[i].name@),
    decreases s.len(),
{
    let t = s.remove(i);
    assert forall|a: int, b: int| 0 <= a < b < t.len() implies t[a].name@ != t[b].name@ by {
        let a0 = if a < i {
            a
        } else {
            a + 1
        };
        let b0 = if b < i {
            b
        } else {
            b + 1
        };
        assert(t[a] == s[a0] && t[b] == s[b0]);
        assert(s[a0].name@ != s[b0].name@);
    }
    if i == s.len() - 1 {
        assert(t =~= s.drop_last());
        lemma_entries_map_domain(s.drop_last(), s[i].name@);
        assert(!entries_map(s.drop_last()).contains_key(s[i].name@));
    } else {
        lemma_entries_map_remove(s.drop_last(), i);
        assert(t.drop_last() =~= s.drop_last().remove(i));
        assert(t.last() == s.last());
        assert(s[i].name@ != s.last().name@);
    }
}

impl View for MedusaHandler {
    type V = Map<Seq<char>, MedusaStateView>;

    closed spec fn view(&self) -> Map<Seq<char>, MedusaStateView> {
        entries_map(self.process@)
    }
}

impl MedusaHandler {
    /// At most one entry per name.
    pub closed spec fn inv(&self) -> bool {
        unique_names(self.process@)
    }

    /// A fresh supervisor tracks nothing.
    pub fn new() -> (r: Self)
        ensures
            r.inv(),
            r@ == Map::<Seq<char>, MedusaStateView>::empty(),
    {
        let r = MedusaHandler { process: Vec::new() };
        proof {
            assert(r@ =~= Map::<Seq<char>, MedusaStateView>::empty());
        }
        r
    }

    /// Index of the entry named `name`, if one exists.
    fn find_index(&self, name: &String) -> (r: Option<usize>)
        requires
            self.inv(),
        ensures
            match r {
                Some(i) => i < self.process@.len() && self.process@[i as int].name@ == name@
                    && self@.contains_key(name@) && self@[name@] == self.process@[i as int].state@,
                None => !self@.contains_key(name@),
            },
    {
        let n = self.process.len();
        let mut i: usize = 0;
        while i < n
            invariant
                0 <= i <= n,
                n == self.process@.len(),
                self.inv(),
                forall|j: int| 0 <= j < i ==> self.process@[j].name@ != name@,
            decreases n - i,
        {
            if self.process[i].name == *name {
                proof {
                    lemma_entries_map_value(self.process@, i as int);
                }
                return Some(i);
            }
            i = i + 1;
        }
        proof {
            lemma_entries_map_domain(self.process@, name@);
        }
        None
    }

    /// The first phase of the start protocol, taken under the same guard
    /// as the spawn that may follow: `Ok` exactly when no `Running` entry
    /// holds the name, `AlreadyRunning` otherwise — in which case the
    /// caller must not spawn.
    pub fn start_decision(&self, name: &String) -> (r: Result<(), CampaignError>)
        requires
            self.inv(),
        ensures
            r is Ok <==> !is_running(self@, name@),
            r matches Err(e) ==> e is AlreadyRunning,
    {
        match self.find_index(name) {
            Some(i) => match self.process[i].state {
                MedusaState::Running { .. } => Err(CampaignError::AlreadyRunning),
                _ => Ok(()),
            },
            None => Ok(()),
        }
    }

    /// Stores `st` under `name`, replacing any previous entry.
    fn insert_state(&mut self, name: String, st: MedusaState)
        requires
            old(self).inv(),
        ensures
            final(self).inv(),
            final(self)@ == old(self)@.insert(name@, st@),
    {
        let ghost s0 = self.process@;
        match self.find_index(&name) {
            Some(i) => {
                let e = ProcessEntry { name, state: st };
                proof {
                    lemma_entries_map_update(s0, i as int, e);
                }
                self.process[i] = e;
            },
            None => {
                self.process.push(ProcessEntry { name, state: st });
                proof {
                    let s1 = self.process@;
                    assert(s1.drop_last() =~= s0);
                    assert forall|a: int, b: int| 0 <= a < b < s1.len() implies s1[a].name@
                        != s1[b].name@ by {
                        if b < s1.len() - 1 {
                            assert(s0[a].name@ != s0[b].name@);
                        } else {
                            lemma_entries_map_domain(s0, s1[b].name@);
                        }
                    }
                }
            },
        }
    }

    /// Records the result of the spawn that the start protocol allowed:
    /// on `Spawned`, inserts `Running { pid }` for the repository's name
    /// and returns the pid; on `SpawnError`, leaves the map untouched and
    /// returns `SpawnFailure`.  Callers hold the handler's guard from the
    /// [`MedusaHandler::start_decision`] through this call, which is what
    /// the precondition states.
    pub fn run_medusa(&mut self, repo: &GitRepo, outcome: SpawnOutcome) -> (r: Result<
        u32,
        CampaignError,
    >)
        requires
            old(self).inv(),
            !is_running(old(self)@, dir_of(repo@.url)),
        ensures
            final(self).inv(),
            outcome matches SpawnOutcome::Spawned { pid } ==> r == Ok::<u32, CampaignError>(pid)
                && final(self)@ == old(self)@.insert(
                dir_of(repo@.url),
                MedusaStateView::Running { pid },
            ),
            outcome matches SpawnOutcome::SpawnError { message } ==> r == Err::<
                u32,
                CampaignError,
            >(CampaignError::SpawnFailure { message }) && final(self)@ == old(self)@,
    {
        match outcome {
            SpawnOutcome::Spawned { pid } => {
                let name = repo.name();
                self.insert_state(name, MedusaState::Running { pid });
                Ok(pid)
            },
            SpawnOutcome::SpawnError { message } => Err(
                CampaignError::SpawnFailure { message },
            ),
        }
    }

    /// The monitor's single write: unconditionally records the terminal
    /// state observed for `name` — `Stopped` with the real exit status,
    /// or `Error` when the wait itself failed.  The write does not check
    /// whether an entry still exists or still belongs to the awaited
    /// process; a stale monitor can therefore overwrite the entry of a
    /// reused name, a documented gap of the design.
    pub fn record_exit(&mut self, name: String, outcome: WaitOutcome)
        requires
            old(self).inv(),
        ensures
            final(self).inv(),
            outcome matches WaitOutcome::Exited { status } ==> final(self)@ == old(self)@.insert(
                name@,
                MedusaStateView::Stopped { status },
            ),
            outcome matches WaitOutcome::WaitError { message } ==> final(self)@
                == old(self)@.insert(name@, MedusaStateView::Error { message: message@ }),
    {
        match outcome {
            WaitOutcome::Exited { status } => self.insert_state(
                name,
                MedusaState::Stopped { status },
            ),
            WaitOutcome::WaitError { message } => self.insert_state(
                name,
                MedusaState::Error { message },
            ),
        }
    }

    /// Requests a stop: for a `Running` entry, removes it and returns the
    /// recorded pid for the caller to signal — a stop is requested, not
    /// confirmed, so the removal does not wait for the process to die.
    /// Fails with `NotFound` for an unknown name and `NotRunning` for an
    /// entry already terminal, touching nothing in either case.
    pub fn stop_process(&mut self, repo: String) -> (r: Result<u32, CampaignError>)
        requires
            old(self).inv(),
        ensures
            final(self).inv(),
            !old(self)@.contains_key(repo@) ==> r == Err::<u32, CampaignError>(
                CampaignError::NotFound,
            ) && final(self)@ == old(self)@,
            old(self)@.contains_key(repo@) && !(old(self)@[repo@] is Running) ==> r == Err::<
                u32,
                CampaignError,
            >(CampaignError::NotRunning) && final(self)@ == old(self)@,
            (old(self)@.contains_key(repo@) && old(self)@[repo@] is Running) ==> r == Ok::<
                u32,
                CampaignError,
            >(old(self)@[repo@]->Running_pid) && final(self)@ == old(self)@.remove(repo@),
    {
        match self.find_index(&repo) {
            None => Err(CampaignError::NotFound),
            Some(i) => match self.process[i].state {
                MedusaState::Running { pid } => {
                    proof {
                        lemma_entries_map_remove(self.process@, i as int);
                    }
                    self.process.remove(i);
                    Ok(pid)
                },
                _ => Err(CampaignError::NotRunning),
            },
        }
    }

    /// A read-only snapshot of the state recorded under `repo`, or
    /// `NotFound` when no entry holds that name.
    pub fn get_process_state(&self, repo: String) -> (r: Result<MedusaState, CampaignError>)
        requires
            self.inv(),
        ensures
            self@.contains_key(repo@) ==> (r matches Ok(st) && st@ == self@[repo@]),
            !self@.contains_key(repo@) ==> r == Err::<MedusaState, CampaignError>(
                CampaignError::NotFound,
            ),
    {
        match self.find_index(&repo) {
            Some(i) => Ok(self.process[i].state.clone()),
            None => Err(CampaignError::NotFound),
        }
    }
}

/// Starting a campaign makes its name `Running` with exactly the spawned
/// pid: after the insert that a successful start performs, a query finds
/// `Running { pid }`, and the start decision refuses the same name, so a
/// second rapid start spawns nothing.
pub proof fn lemma_start_makes_running(
    m: Map<Seq<char>, MedusaStateView>,
    name: Seq<char>,
    pid: u32,
)
    ensures
        is_running(m.insert(name, MedusaStateView::Running { pid }), name),
        m.insert(name, MedusaStateView::Running { pid })[name] == (MedusaStateView::Running {
            pid,
        }),
{
}

/// A stop removes the entry: after the removal that a stop of a `Running`
/// name performs, a query of the same name finds nothing.
pub proof fn lemma_stop_leaves_no_entry(m: Map<Seq<char>, MedusaStateView>, name: Seq<char>)
    ensures
        !m.remove(name).contains_key(name),
{
}

/// What the monitor records for a process that exited with a plain code:
/// a `Stopped` entry whose status is a success exactly for code zero and
/// preserves the raw code.
pub proof fn lemma_monitor_records_exit(
    m: Map<Seq<char>, MedusaStateView>,
    name: Seq<char>,
    code: i32,
)
    ensures
        ({
            let m2 = m.insert(name, MedusaStateView::Stopped { status: exit_status_of_code(code) });
            &&& m2.contains_key(name)
            &&& m2[name] matches MedusaStateView::Stopped { status } && status.success == (code
                == 0) && status.code == Some(code)
        }),
{
}

} // verus!
