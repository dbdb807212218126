//! The end of a command: the message to the agent after a check, the finish
//! statistics, the command errors, and which note command a word names.

use vstd::prelude::*;
use crate::answer::{clone_opt_string, CheckRecord, CheckResult, SelectedExpectation};
use crate::output::{count_kind, lemma_count_kind_bounded, record_kind, record_requires_human_review};
use crate::run::{CheckRunReport, NarrowingStats};
use crate::text::{decimal, push_decimal, str_eq};

verus! {

pub const ALL_CHECKS_PASSED_MESSAGE: &'static str = "\u{2713} All checks passed. Commit is allowed.";

pub const FIX_ISSUES_MESSAGE: &'static str = "\u{25b7} Fix the issues and run `canon check` again!";

/// The notice for passes gained over HEAD: none for zero, else the count with the
/// right plural.
pub open spec fn improvement_notice_spec(count: nat) -> Option<Seq<char>> {
    if count == 0 {
        None
    } else if count == 1 {
        Some("\u{25b7} +1 pass compared to HEAD. Commit the staged changes!"@)
    } else {
        Some("\u{25b7} +"@ + decimal(count) + " passes compared to HEAD. Commit the staged changes!"@)
    }
}

pub open spec fn opt_view(o: Option<String>) -> Option<Seq<char>> {
    match o {
        Some(s) => Some(s@),
        None => None,
    }
}

pub fn pass_improvement_notice(count: usize) -> (r: Option<String>)
    ensures
        opt_view(r) == improvement_notice_spec(count as nat),
{
    if count == 0 {
        None
    } else if count == 1 {
        Some(String::from_str("\u{25b7} +1 pass compared to HEAD. Commit the staged changes!"))
    } else {
        let mut s = String::from_str("\u{25b7} +");
        push_decimal(&mut s, count as u64);
        s.append(" passes compared to HEAD. Commit the staged changes!");
        Some(s)
    }
}

/// How many new passes the notice names: the staged passes that HEAD lacks, or none
/// when `canon gate` would not pass.
pub fn staged_pass_notice_count_if_gate_passes(gate_passes: bool, staged_passes_not_pass_at_head: usize) -> (r: usize)
    ensures
        r == if gate_passes {
            staged_passes_not_pass_at_head
        } else {
            0
        },
{
    if !gate_passes {
        return 0;
    }
    staged_passes_not_pass_at_head
}

pub fn pass_improvement_notice_if_gate_passes(gate_passes: bool, staged_passes_not_pass_at_head: usize) -> (r: Option<String>)
    ensures
        opt_view(r) == improvement_notice_spec(
            if gate_passes {
                staged_passes_not_pass_at_head as nat
            } else {
                0
            },
        ),
{
    pass_improvement_notice(staged_pass_notice_count_if_gate_passes(gate_passes, staged_passes_not_pass_at_head))
}

/// Every record of the report passed.
pub open spec fn all_passed(records: Seq<CheckRecord>) -> bool {
    forall|i: int| 0 <= i < records.len() ==> #[trigger] records[i].result == CheckResult::Pass
}

/// The message after a check: the improvement notice when there is one, else that
/// all checks passed, else to fix the issues.
pub fn check_agent_message(notice: Option<String>, report: &CheckRunReport) -> (r: String)
    ensures
        r@ == match notice {
            Some(n) => n@,
            None => if all_passed(report.records@) {
                ALL_CHECKS_PASSED_MESSAGE@
            } else {
                FIX_ISSUES_MESSAGE@
            },
        },
{
    if let Some(n) = notice {
        return n;
    }
    let mut i: usize = 0;
    while i < report.records.len()
        invariant
            i <= report.records.len(),
            notice is None,
            forall|j: int| 0 <= j < i ==> #[trigger] report.records@[j].result == CheckResult::Pass,
        decreases report.records.len() - i,
    {
        if !report.records[i].passed() {
            assert(report.records@[i as int].result != CheckResult::Pass);
            return String::from_str(FIX_ISSUES_MESSAGE);
        }
        i += 1;
    }
    String::from_str(ALL_CHECKS_PASSED_MESSAGE)
}

/// The expectation a record was made for, when it holds its question and answer.
pub fn selected_expectation_from_record(record: &CheckRecord) -> (r: Option<SelectedExpectation>)
    ensures
        match (record.prompt, record.expected) {
            (Some(q), Some(a)) => r == Some(
                SelectedExpectation {
                    number: record.number,
                    id: record.id,
                    display_id: record.display_id,
                    q,
                    a,
                    cooldown: None,
                    thinking: None,
                },
            ),
            _ => r is None,
        },
{
    let q = match &record.prompt {
        Some(q) => q.clone(),
        None => {
            return None;
        },
    };
    let a = match &record.expected {
        Some(a) => a.clone(),
        None => {
            return None;
        },
    };
    Some(SelectedExpectation {
        number: record.number,
        id: record.id.clone(),
        display_id: record.display_id.clone(),
        q,
        a,
        cooldown: None,
        thinking: None,
    })
}

/// The passing records of `records[..k]` that hold their question and answer and
/// whose HEAD result (`head_passes`, read for exactly those) is not a pass.
pub open spec fn gained_passes(records: Seq<CheckRecord>, head_passes: Seq<Option<bool>>, k: int) -> nat
    decreases k,
{
    if k <= 0 || k > records.len() || k > head_passes.len() {
        0
    } else {
        let r = records[k - 1];
        gained_passes(records, head_passes, k - 1) + if r.result == CheckResult::Pass && r.prompt is Some
            && r.expected is Some && head_passes[k - 1] == Some(false) {
            1nat
        } else {
            0nat
        }
    }
}

/// How many staged passes are not passes at HEAD. `head_passes[k]` tells, for each
/// passing record with its question and answer, whether the HEAD tree's exact cache
/// holds a pass for it.
pub fn staged_passes_not_pass_at_head_count(report: &CheckRunReport, head_passes: &Vec<Option<bool>>) -> (r: usize)
    requires
        head_passes@.len() == report.records@.len(),
    ensures
        r == gained_passes(report.records@, head_passes@, report.records@.len() as int),
{
    let mut count: usize = 0;
    let mut k: usize = 0;
    while k < report.records.len()
        invariant
            k <= report.records.len() == head_passes@.len(),
            count == gained_passes(report.records@, head_passes@, k as int),
            count <= k,
        decreases report.records.len() - k,
    {
        let record = &report.records[k];
        if record.passed() && record.prompt.is_some() && record.expected.is_some() {
            match head_passes[k] {
                Some(false) => {
                    count += 1;
                },
                _ => {},
            }
        }
        k += 1;
    }
    count
}

/// The counts written when a check finishes.
#[derive(Clone, Copy, Debug, PartialEq, Eq, Structural)]
pub struct CheckFinishStats {
    pub passed: usize,
    pub failed: usize,
    pub errors: usize,
    pub skipped: usize,
    pub narrowing: NarrowingStats,
}

/// The finish counts of a command that failed before any record: only errors.
pub fn check_finish_error_stats(errors: usize) -> (r: CheckFinishStats)
    ensures
        r == (CheckFinishStats {
            passed: 0,
            failed: 0,
            errors,
            skipped: 0,
            narrowing: NarrowingStats { attempted: 0, accepted: 0, rejected: 0 },
        }),
{
    CheckFinishStats { passed: 0, failed: 0, errors, skipped: 0, narrowing: NarrowingStats::new() }
}

fn count_records_of_kind(records: &Vec<CheckRecord>, kind: u8) -> (r: usize)
    requires
        kind <= 2,
    ensures
        r == count_kind(records@, kind as int),
{
    let mut n: usize = 0;
    let mut i: usize = 0;
    while i < records.len()
        invariant
            i <= records.len(),
            kind <= 2,
            n == count_kind(records@.take(i as int), kind as int),
            n <= i,
        decreases records.len() - i,
    {
        let record = &records[i];
        assert(records@.take(i + 1).drop_last() =~= records@.take(i as int));
        let k: u8 = if record.passed() {
            0
        } else if record_requires_human_review(record) {
            1
        } else {
            2
        };
        assert(k as int == record_kind(records@[i as int]));
        if k == kind {
            n += 1;
        }
        i += 1;
    }
    assert(records@.take(records.len() as int) =~= records@);
    n
}

pub fn report_passed_count(report: &CheckRunReport) -> (r: usize)
    ensures
        r == count_kind(report.records@, 0),
{
    count_records_of_kind(&report.records, 0)
}

pub fn report_error_count(report: &CheckRunReport) -> (r: usize)
    ensures
        r == count_kind(report.records@, 1),
{
    count_records_of_kind(&report.records, 1)
}

pub fn report_failed_count(report: &CheckRunReport) -> (r: usize)
    ensures
        r == count_kind(report.records@, 2),
{
    count_records_of_kind(&report.records, 2)
}

/// The finish counts of a report.
pub fn check_finish_report_stats(report: &CheckRunReport) -> (r: CheckFinishStats)
    ensures
        r.passed == count_kind(report.records@, 0),
        r.errors == count_kind(report.records@, 1),
        r.failed == count_kind(report.records@, 2),
        r.skipped == report.skipped,
        r.narrowing == report.narrowing,
{
    CheckFinishStats {
        passed: report_passed_count(report),
        failed: report_failed_count(report),
        errors: report_error_count(report),
        skipped: crate::output::report_output_skipped_count(report),
        narrowing: report.narrowing,
    }
}

/// Why a command failed.
pub enum CommandError {
    Message(String),
    InitDoesNotAcceptArguments,
    PwdDoesNotAcceptArguments,
    UnknownOption(String),
    UnknownCommand(String),
    CheckFailed,
    GateFailed,
}

/// The text of a command error.
pub open spec fn command_error_text(e: CommandError) -> Seq<char> {
    match e {
        CommandError::Message(m) => m@,
        CommandError::InitDoesNotAcceptArguments => "init does not accept arguments"@,
        CommandError::PwdDoesNotAcceptArguments => "pwd does not accept arguments"@,
        CommandError::UnknownOption(o) => "unknown option: "@ + o@,
        CommandError::UnknownCommand(c) => "unknown command: "@ + c@,
        CommandError::CheckFailed => "canon check failed"@,
        CommandError::GateFailed => "canon gate failed"@,
    }
}

impl CommandError {
    pub fn message(&self) -> (r: String)
        ensures
            r@ == command_error_text(*self),
    {
        match self {
            CommandError::Message(m) => m.clone(),
            CommandError::InitDoesNotAcceptArguments => String::from_str("init does not accept arguments"),
            CommandError::PwdDoesNotAcceptArguments => String::from_str("pwd does not accept arguments"),
            CommandError::UnknownOption(o) => crate::validation::concat2("unknown option: ", o.as_str()),
            CommandError::UnknownCommand(c) => crate::validation::concat2("unknown command: ", c.as_str()),
            CommandError::CheckFailed => String::from_str("canon check failed"),
            CommandError::GateFailed => String::from_str("canon gate failed"),
        }
    }
}

/// A failed check or gate has already written its diagnostics; every other error
/// still has to be reported.
pub fn command_error_has_public_diagnostic(err: &CommandError) -> (r: bool)
    ensures
        r == !(err is CheckFailed || err is GateFailed),
{
    match err {
        CommandError::CheckFailed => false,
        CommandError::GateFailed => false,
        _ => true,
    }
}

/// The line written to standard error for a command error that has no diagnostic
/// yet, if any.
pub fn command_error_report_line(err: &CommandError) -> (r: Option<String>)
    ensures
        match r {
            Some(l) => !(err is CheckFailed || err is GateFailed) && l@ == "Error: "@ + command_error_text(*err),
            None => err is CheckFailed || err is GateFailed,
        },
{
    if command_error_has_public_diagnostic(err) {
        let m = err.message();
        Some(crate::validation::concat2("Error: ", m.as_str()))
    } else {
        None
    }
}

/// The note commands.
#[derive(Clone, Copy, Debug, PartialEq, Eq, Structural)]
pub enum NoteCommand {
    Pwd,
    Path,
    Read,
    Write,
    Append,
    Delete,
    Search,
}

/// The note command a word names, with its short forms.
pub open spec fn note_command_spec(v: Seq<char>) -> Option<NoteCommand> {
    if v == "pwd"@ {
        Some(NoteCommand::Pwd)
    } else if v == "p"@ || v == "path"@ {
        Some(NoteCommand::Path)
    } else if v == "r"@ || v == "read"@ {
        Some(NoteCommand::Read)
    } else if v == "w"@ || v == "write"@ {
        Some(NoteCommand::Write)
    } else if v == "a"@ || v == "append"@ {
        Some(NoteCommand::Append)
    } else if v == "d"@ || v == "del"@ || v == "delete"@ || v == "rm"@ {
        Some(NoteCommand::Delete)
    } else if v == "rg"@ || v == "g"@ {
        Some(NoteCommand::Search)
    } else {
        None
    }
}

impl NoteCommand {
    pub fn parse(value: &str) -> (r: Option<NoteCommand>)
        ensures
            r == note_command_spec(value@),
    {
        if str_eq(value, "pwd") {
            Some(NoteCommand::Pwd)
        } else if str_eq(value, "p") || str_eq(value, "path") {
            Some(NoteCommand::Path)
        } else if str_eq(value, "r") || str_eq(value, "read") {
            Some(NoteCommand::Read)
        } else if str_eq(value, "w") || str_eq(value, "write") {
            Some(NoteCommand::Write)
        } else if str_eq(value, "a") || str_eq(value, "append") {
            Some(NoteCommand::Append)
        } else if str_eq(value, "d") || str_eq(value, "del") || str_eq(value, "delete") || str_eq(value, "rm") {
            Some(NoteCommand::Delete)
        } else if str_eq(value, "rg") || str_eq(value, "g") {
            Some(NoteCommand::Search)
        } else {
            None
        }
    }
}

/// `canon check` succeeds when the run ended without an error and every record
/// passed.
pub fn check_command_passed(report: &CheckRunReport, failed_with_error: bool) -> (r: bool)
    ensures
        r == (!failed_with_error && forall|k: int|
            0 <= k < report.records@.len() ==> (#[trigger] report.records@[k]).result
                == CheckResult::Pass),
{
    if failed_with_error {
        return false;
    }
    let mut i: usize = 0;
    while i < report.records.len()
        invariant
            i <= report.records@.len(),
            forall|k: int| 0 <= k < i ==> (#[trigger] report.records@[k]).result == CheckResult::Pass,
        decreases report.records.len() - i,
    {
        if !report.records[i].passed() {
            return false;
        }
        i += 1;
    }
    true
}

} // verus!
