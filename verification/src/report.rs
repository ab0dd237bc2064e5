//! Human-readable status reports: the one exhaustive rendering of a
//! campaign state, so that a new state cannot be added without updating
//! it, plus the header line of a status listing.

use vstd::prelude::*;

use crate::errors::CampaignError;
use crate::git::dir_of;
use crate::medusa::{ExitStatus, MedusaHandler, MedusaState, MedusaStateView};
use crate::registry::RepoRegistry;

verus! {

/// The decimal digit `d` as a character.
pub open spec fn digit_char(d: int) -> char {
    if d == 0 {
        '0'
    } else if d == 1 {
        '1'
    } else if d == 2 {
        '2'
    } else if d == 3 {
        '3'
    } else if d == 4 {
        '4'
    } else if d == 5 {
        '5'
    } else if d == 6 {
        '6'
    } else if d == 7 {
        '7'
    } else if d == 8 {
        '8'
    } else {
        '9'
    }
}

/// The decimal digits of `n`, most significant first.
pub open spec fn dec_digits(n: nat) -> Seq<char>
    decreases n,
    via dec_digits_decreases
{
    if n < 10 {
        seq![digit_char(n as int)]
    } else {
        dec_digits(n / 10).push(digit_char((n % 10) as int))
    }
}

#[via_fn]
proof fn dec_digits_decreases(n: nat) {
    if n >= 10 {
        assert(n / 10 < n) by (nonlinear_arith)
            requires
                n >= 10,
        ;
    }
}

/// A one-character string holding the digit `d`.
fn digit_str(d: u64) -> (r: String)
    requires
        d < 10,
    ensures
        r@ =~= seq![digit_char(d as int)],
{
    proof {
        reveal_strlit("0");
        reveal_strlit("1");
        reveal_strlit("2");
        reveal_strlit("3");
        reveal_strlit("4");
        reveal_strlit("5");
        reveal_strlit("6");
        reveal_strlit("7");
        reveal_strlit("8");
        reveal_strlit("9");
    }
    match d {
        0 => String::from_str("0"),
        1 => String::from_str("1"),
        2 => String::from_str("2"),
        3 => String::from_str("3"),
        4 => String::from_str("4"),
        5 => String::from_str("5"),
        6 => String::from_str("6"),
        7 => String::from_str("7"),
        8 => String::from_str("8"),
        _ => String::from_str("9"),
    }
}

/// Renders `n` in decimal.
pub fn u64_to_string(n: u64) -> (r: String)
    ensures
        r@ == dec_digits(n as nat),
    decreases n,
{
    if n < 10 {
        digit_str(n)
    } else {
        proof {
            assert(n / 10 < n) by (nonlinear_arith)
                requires
                    n >= 10,
            ;
        }
        let mut s = u64_to_string(n / 10);
        let d = digit_str(n % 10);
        s.append(d.as_str());
        proof {
            assert(s@ =~= dec_digits((n / 10) as nat).push(digit_char((n % 10) as int)));
        }
        s
    }
}

/// The text of an exit status: the decimal exit code, or a note that a
/// signal ended the process.
pub open spec fn exit_text(st: ExitStatus) -> Seq<char> {
    match st.code {
        Some(c) => if c >= 0 {
            "exit code: "@ + dec_digits(c as nat)
        } else {
            "exit code: -"@ + dec_digits((-(c as int)) as nat)
        },
        None => "terminated by signal"@,
    }
}

/// Renders an exit status.
pub fn exit_status_text(st: &ExitStatus) -> (r: String)
    ensures
        r@ == exit_text(*st),
{
    match st.code {
        Some(c) => {
            if c >= 0 {
                let mut s = String::from_str("exit code: ");
                let d = u64_to_string(c as u64);
                s.append(d.as_str());
                s
            } else {
                let mut s = String::from_str("exit code: -");
                let mag: u64 = (-(c as i64)) as u64;
                let d = u64_to_string(mag);
                s.append(d.as_str());
                s
            }
        },
        None => String::from_str("terminated by signal"),
    }
}

/// The report of one campaign state, in the fixed form
/// `Running (PID: <pid>)` / `Stopped (Status: <status>)` /
/// `Error (Message: <text>)`.
pub open spec fn state_text(v: MedusaStateView) -> Seq<char> {
    match v {
        MedusaStateView::Running { pid } => "Running (PID: "@ + dec_digits(pid as nat) + ")"@,
        MedusaStateView::Stopped { status } => "Stopped (Status: "@ + exit_text(status) + ")"@,
        MedusaStateView::Error { message } => "Error (Message: "@ + message + ")"@,
    }
}

impl MedusaState {
    /// Renders the state for the operator-facing status report.
    pub fn describe(&self) -> (r: String)
        ensures
            r@ == state_text(self@),
    {
        match self {
            MedusaState::Running { pid } => {
                let mut s = String::from_str("Running (PID: ");
                let d = u64_to_string(*pid as u64);
                s.append(d.as_str());
                s.append(")");
                proof {
                    assert(s@ =~= state_text(self@));
                }
                s
            },
            MedusaState::Stopped { status } => {
                let mut s = String::from_str("Stopped (Status: ");
                let t = exit_status_text(status);
                s.append(t.as_str());
                s.append(")");
                proof {
                    assert(s@ =~= state_text(self@));
                }
                s
            },
            MedusaState::Error { message } => {
                let mut s = String::from_str("Error (Message: ");
                s.append(message.as_str());
                s.append(")");
                proof {
                    assert(s@ =~= state_text(self@));
                }
                s
            },
        }
    }
}

/// One line of the status listing: `<name>: <state>`.
pub fn status_line(name: &String, state: &MedusaState) -> (r: String)
    ensures
        r@ == name@ + ": "@ + state_text(state@),
{
    let mut s = name.clone();
    s.append(": ");
    let t = state.describe();
    s.append(t.as_str());
    proof {
        assert(s@ =~= name@ + ": "@ + state_text(state@));
    }
    s
}

/// One status line per tracked repository, in registry order: the
/// repository's short name and the state the supervisor records for it.
/// Fails with `NotFound` exactly when some tracked repository has no
/// entry in the supervisor's map.
pub fn status_report(reg: &RepoRegistry, handler: &MedusaHandler) -> (r: Result<
    Vec<String>,
    CampaignError,
>)
    requires
        handler.inv(),
    ensures
        r is Ok <==> (forall|j: int|
            0 <= j < reg@.len() ==> handler@.contains_key(dir_of(#[trigger] reg@[j].url))),
        r matches Ok(lines) ==> lines@.len() == reg@.len() && (forall|j: int|
            0 <= j < reg@.len() ==> lines@[j]@ == dir_of(#[trigger] reg@[j].url) + ": "@
                + state_text(handler@[dir_of(reg@[j].url)])),
        r matches Err(e) ==> e is NotFound,
{
    let repos = reg.list();
    let n = repos.len();
    let mut out: Vec<String> = Vec::new();
    let mut i: usize = 0;
    while i < n
        invariant
            0 <= i <= n,
            handler.inv(),
            n == repos@.len(),
            reg@.len() == n,
            forall|j: int| 0 <= j < n ==> (#[trigger] repos@[j])@ == reg@[j],
            out@.len() == i,
            forall|j: int| 0 <= j < i ==> handler@.contains_key(dir_of(#[trigger] reg@[j].url)),
            forall|j: int|
                0 <= j < i ==> (#[trigger] out@[j])@ == dir_of(reg@[j].url) + ": "@ + state_text(
                    handler@[dir_of(reg@[j].url)],
                ),
        decreases n - i,
    {
        let name = repos[i].name();
        match handler.get_process_state(name.clone()) {
            Ok(st) => {
                let line = status_line(&name, &st);
                out.push(line);
            },
            Err(_) => {
                return Err(CampaignError::NotFound);
            },
        }
        i = i + 1;
    }
    Ok(out)
}

/// The header of the status listing: `Currently <n> campaigns`.
pub fn campaign_count_line(n: usize) -> (r: String)
    ensures
        r@ == "Currently "@ + dec_digits(n as nat) + " campaigns"@,
{
    let mut s = String::from_str("Currently ");
    let d = u64_to_string(n as u64);
    s.append(d.as_str());
    s.append(" campaigns");
    proof {
        assert(s@ =~= "Currently "@ + dec_digits(n as nat) + " campaigns"@);
    }
    s
}

} // verus!
