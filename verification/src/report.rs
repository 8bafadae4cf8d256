//! What the program prints, and the codes it exits with.

use crate::audit::{hash_text, text_hash};
use crate::cli::{
    gate_command_of, gate_question, gate_settings, parse_gate_command, setting, settings_from,
    GateCommand, GateCommandView, SettingView, GATE_USAGE,
};
use crate::eval::{
    report_succeeded, report_text, suite_report, suites_account_for_every_case, EvalReport,
    EvalReportView,
};
use crate::exec::{execution_error_text, ExecutionError, ExecutionErrorView};
use crate::gate::{
    all_passed, evaluate_all, gate_text, GateQuestionView, GateResult, GateResultView,
};
use crate::number::{decimal, decimal_text};
use crate::run::status_name;
use crate::store::{EventRecord, EventView, StoredRun, StoredRunView};
use crate::text::{joined, res_view, unit_view, views};
use vstd::prelude::*;
use vstd::string::StringExecFns;

verus! {

/// The code of success.
pub const EXIT_SUCCESS: u8 = 0;

/// The code of a command that failed.
pub const EXIT_FAILURE: u8 = 1;

/// The code of a command that was not understood.
pub const EXIT_USAGE: u8 = 2;

/// The code of a simulated crash.
pub const EXIT_CRASH: u8 = 75;

/// What a command prints, the error it reports, and the code it exits with.
#[derive(Debug)]
pub struct Report {
    pub output: String,
    pub error: Option<String>,
    pub code: u8,
}

/// The mathematical form of what a command prints.
pub struct ReportView {
    pub output: Seq<char>,
    pub error: Option<Seq<char>>,
    pub code: u8,
}

impl View for Report {
    type V = ReportView;

    open spec fn view(&self) -> ReportView {
        ReportView {
            output: self.output@,
            error: crate::text::opt_view(self.error),
            code: self.code,
        }
    }
}

/// The lines that name a run and its state.
pub open spec fn run_lines(run_id: Seq<char>, status: Seq<char>) -> Seq<char> {
    "run_id="@ + run_id + "\nstatus="@ + status + "\n"@
}

/// What is printed of a run that was executed. A simulated crash leaves it
/// running and has a code of its own.
pub open spec fn execution_report(
    run_id: Seq<char>,
    result: Result<(), ExecutionErrorView>,
) -> ReportView {
    match result {
        Ok(()) => ReportView {
            output: run_lines(run_id, "succeeded"@),
            error: None,
            code: EXIT_SUCCESS,
        },
        Err(ExecutionErrorView::SimulatedCrash { .. }) => ReportView {
            output: run_lines(run_id, "running"@),
            error: None,
            code: EXIT_CRASH,
        },
        Err(error) => ReportView {
            output: Seq::empty(),
            error: Some(execution_error_text(error)),
            code: EXIT_FAILURE,
        },
    }
}

/// What is printed of a command that was not understood.
pub open spec fn misuse_report(message: Seq<char>) -> ReportView {
    ReportView { output: Seq::empty(), error: Some(message), code: EXIT_USAGE }
}

/// What is printed of a command that failed.
pub open spec fn failure_report(message: Seq<char>) -> ReportView {
    ReportView { output: Seq::empty(), error: Some(message), code: EXIT_FAILURE }
}

/// What is printed of a command that gave a text.
pub open spec fn success_report(text: Seq<char>) -> ReportView {
    ReportView { output: text, error: None, code: EXIT_SUCCESS }
}

/// What is printed of gates, one line for each.
pub open spec fn gates_text(results: Seq<GateResultView>) -> Seq<char>
    decreases results.len(),
{
    if results.len() == 0 {
        Seq::empty()
    } else {
        gates_text(results.drop_last()) + gate_text(results.last()) + "\n"@
    }
}

/// What is printed of gates that were checked. They succeed if all of them
/// passed.
pub open spec fn gates_report(results: Seq<GateResultView>) -> ReportView {
    ReportView {
        output: gates_text(results),
        error: None,
        code: if all_passed(results) {
            EXIT_SUCCESS
        } else {
            EXIT_FAILURE
        },
    }
}

/// What is printed of an evaluation. It succeeds if every case passed.
pub open spec fn evaluation_report(report: EvalReportView) -> ReportView {
    ReportView {
        output: report_text(report),
        error: None,
        code: if report_succeeded(report) {
            EXIT_SUCCESS
        } else {
            EXIT_FAILURE
        },
    }
}

/// Which gate arguments ask for, or what is printed where they are not
/// understood.
pub open spec fn gate_begun(arguments: Seq<Seq<char>>) -> Result<GateCommandView, ReportView> {
    match gate_command_of(arguments) {
        Ok(command) => Ok(command),
        Err(message) => Err(misuse_report(message)),
    }
}

/// What is printed of a run that succeeded, with one more line if there is
/// something to tell.
pub open spec fn success_text(run_id: Seq<char>, told: Option<(Seq<char>, Seq<char>)>) -> Seq<
    char,
> {
    match told {
        Some((name, value)) => run_lines(run_id, "succeeded"@) + name + "="@ + value + "\n"@,
        None => run_lines(run_id, "succeeded"@),
    }
}

/// What is printed of the state of a run.
pub open spec fn status_text(run: StoredRunView) -> Seq<char> {
    run_lines(run.run_id, status_name(run.status)) + "progress="@ + decimal(run.current_step)
        + "/"@ + decimal(run.total_steps) + "\n"@
}

/// What is printed of one event.
pub open spec fn event_text(event: EventView) -> Seq<char> {
    decimal(event.sequence) + " "@ + event.event_type + match event.step_index {
        Some(index) => " step="@ + decimal(index),
        None => Seq::empty(),
    } + if event.payload.len() == 0 {
        Seq::empty()
    } else {
        " payload="@ + event.payload
    } + "\n"@
}

/// What is printed of the events of a run, one line for each.
pub open spec fn trail_text(events: Seq<EventView>) -> Seq<char>
    decreases events.len(),
{
    if events.len() == 0 {
        Seq::empty()
    } else {
        trail_text(events.drop_last()) + event_text(events.last())
    }
}

fn write_run_lines(run_id: &str, status: &str) -> (text: String)
    ensures
        text@ == run_lines(run_id@, status@),
{
    let mut text = "run_id=".to_owned();
    text.append(run_id);
    text.append("\nstatus=");
    text.append(status);
    text.append("\n");
    text
}

/// Reports on a run that was executed.
pub fn report_execution(run_id: &str, result: &Result<(), ExecutionError>) -> (report: Report)
    ensures
        report@ == execution_report(run_id@, unit_view(*result)),
{
    match result {
        Ok(()) => Report {
            output: write_run_lines(run_id, "succeeded"),
            error: None,
            code: EXIT_SUCCESS,
        },
        Err(ExecutionError::SimulatedCrash { .. }) => Report {
            output: write_run_lines(run_id, "running"),
            error: None,
            code: EXIT_CRASH,
        },
        Err(error) => {
            let output = String::new();
            proof {
                assert(output@ =~= Seq::<char>::empty());
            }
            Report { output, error: Some(error.message()), code: EXIT_FAILURE }
        },
    }
}

fn report_error(error: &str, code: u8) -> (report: Report)
    ensures
        report@ == (ReportView { output: Seq::empty(), error: Some(error@), code }),
{
    let output = String::new();
    proof {
        assert(output@ =~= Seq::<char>::empty());
    }
    Report { output, error: Some(error.to_owned()), code }
}

/// Reports on a command that was not understood.
pub fn report_misuse(message: &str) -> (report: Report)
    ensures
        report@ == misuse_report(message@),
{
    report_error(message, EXIT_USAGE)
}

/// Reports on a command that failed.
pub fn report_failure(message: &str) -> (report: Report)
    ensures
        report@ == failure_report(message@),
{
    report_error(message, EXIT_FAILURE)
}

/// Reports on a command that gave a text.
pub fn report_success(text: String) -> (report: Report)
    ensures
        report@ == success_report(text@),
{
    Report { output: text, error: None, code: EXIT_SUCCESS }
}

/// Reports on gates that were checked.
pub fn report_gates(results: &Vec<GateResult>) -> (report: Report)
    ensures
        report@ == gates_report(views(results@)),
        report.code == EXIT_SUCCESS <==> all_passed(views(results@)),
        report.code == EXIT_FAILURE <==> !all_passed(views(results@)),
{
    let ghost all = views(results@);
    let mut output = String::new();
    let mut i: usize = 0;
    proof {
        assert(all.take(0) =~= Seq::<GateResultView>::empty());
        assert(output@ =~= Seq::<char>::empty());
    }
    while i < results.len()
        invariant
            all == views(results@),
            i <= results@.len(),
            output@ == gates_text(all.take(i as int)),
        decreases results@.len() - i,
    {
        proof {
            assert(all.take(i + 1).drop_last() =~= all.take(i as int));
            assert(all.take(i + 1).last() == results@[i as int]@);
        }
        output.append(results[i].message().as_str());
        output.append("\n");
        i = i + 1;
    }
    proof {
        assert(all.take(all.len() as int) =~= all);
    }
    let code = if evaluate_all(results) {
        EXIT_SUCCESS
    } else {
        EXIT_FAILURE
    };
    Report { output, error: None, code }
}

/// Reports on an evaluation.
pub fn report_evaluation(evaluation: &EvalReport) -> (report: Report)
    ensures
        report@ == evaluation_report(evaluation@),
        report.code == EXIT_SUCCESS <==> report_succeeded(evaluation@),
        report.code == EXIT_FAILURE <==> !report_succeeded(evaluation@),
{
    let code = if evaluation.succeeded() {
        EXIT_SUCCESS
    } else {
        EXIT_FAILURE
    };
    Report { output: evaluation.message(), error: None, code }
}

/// Reads which gate arguments ask for, and reports where they are not
/// understood.
pub fn begin_gate(arguments: &Vec<String>) -> (result: Result<GateCommand, Report>)
    ensures
        res_view(result) == gate_begun(views(arguments@)),
{
    match parse_gate_command(arguments) {
        Ok(command) => Ok(command),
        Err(message) => Err(report_misuse(message.as_str())),
    }
}

fn write_success(run_id: &str, name: &str, value: &str) -> (text: String)
    ensures
        text@ == success_text(run_id@, Some((name@, value@))),
{
    let mut text = write_run_lines(run_id, "succeeded");
    text.append(name);
    text.append("=");
    text.append(value);
    text.append("\n");
    text
}

/// Reports on a step that succeeded, with its output if that is shown.
pub fn report_output(run_id: &str, output: Option<&str>) -> (text: String)
    ensures
        text@ == success_text(
            run_id@,
            match output {
                Some(output) => Some(("output"@, output@)),
                None => None,
            },
        ),
{
    match output {
        Some(output) => write_success(run_id, "output", output),
        None => write_run_lines(run_id, "succeeded"),
    }
}

/// Reports on a repair that succeeded, with the digest of the new text.
pub fn report_repair(run_id: &str, replacement: &str) -> (text: String)
    ensures
        text@ == success_text(run_id@, Some(("replacement_sha256"@, text_hash(replacement@)))),
{
    write_success(run_id, "replacement_sha256", hash_text(replacement).as_str())
}

/// Reports on a planned repair that succeeded, with the summary of its plan.
pub fn report_planned_repair(run_id: &str, summary: &str) -> (text: String)
    ensures
        text@ == success_text(run_id@, Some(("summary"@, summary@))),
{
    write_success(run_id, "summary", summary)
}

/// Reports on the state of a run.
pub fn report_status(run: &StoredRun) -> (text: String)
    ensures
        text@ == status_text(run@),
{
    let mut text = write_run_lines(run.run_id.as_str(), run.status.as_str());
    text.append("progress=");
    text.append(decimal_text(run.current_step as u64).as_str());
    text.append("/");
    text.append(decimal_text(run.total_steps as u64).as_str());
    text.append("\n");
    text
}

fn write_event(event: &EventRecord) -> (text: String)
    ensures
        text@ == event_text(event@),
{
    let mut text = decimal_text(event.sequence as u64);
    text.append(" ");
    text.append(event.event_type.as_str());
    let ghost named = text@;
    match event.step_index {
        Some(index) => {
            text.append(" step=");
            text.append(decimal_text(index as u64).as_str());
            proof {
                assert(text@ =~= named + (" step="@ + decimal(index as nat)));
            }
        },
        None => {
            proof {
                assert(text@ =~= named + Seq::<char>::empty());
            }
        },
    }
    let ghost placed = text@;
    if !event.payload.as_str().is_empty() {
        text.append(" payload=");
        text.append(event.payload.as_str());
        proof {
            assert(text@ =~= placed + (" payload="@ + event.payload@));
        }
    } else {
        proof {
            assert(text@ =~= placed + Seq::<char>::empty());
        }
    }
    text.append("\n");
    text
}

/// Reports on the events of a run.
pub fn report_trail(events: &Vec<EventRecord>) -> (text: String)
    ensures
        text@ == trail_text(views(events@)),
{
    let ghost all = views(events@);
    let mut text = String::new();
    let mut i: usize = 0;
    proof {
        assert(all.take(0) =~= Seq::<EventView>::empty());
        assert(text@ =~= Seq::<char>::empty());
    }
    while i < events.len()
        invariant
            all == views(events@),
            i <= events@.len(),
            text@ == trail_text(all.take(i as int)),
        decreases events@.len() - i,
    {
        proof {
            assert(all.take(i + 1).drop_last() =~= all.take(i as int));
            assert(all.take(i + 1).last() == events@[i as int]@);
        }
        text.append(write_event(&events[i]).as_str());
        i = i + 1;
    }
    proof {
        assert(all.take(all.len() as int) =~= all);
    }
    text
}

// Laws

proof fn lemma_gate_words()
    ensures
        "contains"@ != "exists"@,
        "--workspace"@ != "--path"@,
        "--workspace"@ != "--text"@,
        "--path"@ != "--text"@,
{
    reveal_strlit("contains");
    reveal_strlit("exists");
    reveal_strlit("--workspace");
    reveal_strlit("--path");
    reveal_strlit("--text");
    assert("contains"@.len() != "exists"@.len());
    assert("--workspace"@.len() == 11);
    assert("--path"@[2] != "--text"@[2]);
}

/// A gate on a text, given a workspace, a path and a text, whatever they are,
/// asks for that text in that path. Its code is the one of success if it
/// passed and the one of failure if not, never that of a command that was not
/// understood.
pub proof fn text_gates_exit_by_their_result(
    workspace: Seq<char>,
    path: Seq<char>,
    text: Seq<char>,
    result: GateResultView,
)
    ensures
        ({
            let command = GateCommandView { workspace, path, text: Some(text) };
            &&& gate_begun(
                seq!["contains"@, "--workspace"@, workspace, "--path"@, path, "--text"@, text],
            ) == Ok::<GateCommandView, ReportView>(command)
            &&& gate_question(command) == (GateQuestionView::Contains { path, expected: text })
        }),
        gates_report(seq![result]).output == gate_text(result) + "\n"@,
        gates_report(seq![result]).code == EXIT_SUCCESS <==> result.passed,
        gates_report(seq![result]).code == EXIT_FAILURE <==> !result.passed,
        gates_report(seq![result]).code != EXIT_USAGE,
{
    let arguments = seq![
        "contains"@,
        "--workspace"@,
        workspace,
        "--path"@,
        path,
        "--text"@,
        text,
    ];
    lemma_gate_words();
    lemma_known_settings();
    reveal_with_fuel(settings_from, 4);
    let first = SettingView { name: "--workspace"@, value: workspace };
    let second = SettingView { name: "--path"@, value: path };
    let third = SettingView { name: "--text"@, value: text };
    let settings = Seq::empty().push(first).push(second).push(third);
    assert(settings_from(arguments, 1, gate_settings(), GATE_USAGE@, Seq::empty()) == Ok::<
        Seq<SettingView>,
        Seq<char>,
    >(settings));
    reveal_with_fuel(setting, 4);
    assert(settings.drop_last() =~= Seq::empty().push(first).push(second));
    assert(settings.drop_last().drop_last() =~= Seq::empty().push(first));
    let results = seq![result];
    assert(results.drop_last() =~= Seq::<GateResultView>::empty());
    reveal_with_fuel(gates_text, 2);
    assert(gates_text(results) =~= gate_text(result) + "\n"@);
    assert(results[0] == result);
}

proof fn lemma_known_settings()
    ensures
        gate_settings().contains("--workspace"@),
        gate_settings().contains("--path"@),
        gate_settings().contains("--text"@),
{
    assert(gate_settings()[0] == "--workspace"@);
    assert(gate_settings()[1] == "--path"@);
    assert(gate_settings()[2] == "--text"@);
}

proof fn lemma_two_settings(
    first: Seq<char>,
    first_value: Seq<char>,
    second: Seq<char>,
    second_value: Seq<char>,
    missing: Seq<char>,
)
    requires
        gate_settings().contains(first),
        gate_settings().contains(second),
        missing != first,
        missing != second,
    ensures
        ({
            let arguments = seq!["contains"@, first, first_value, second, second_value];
            let read = settings_from(arguments, 1, gate_settings(), GATE_USAGE@, Seq::empty());
            read is Ok && setting(read->Ok_0, missing) is None
        }),
{
    let arguments = seq!["contains"@, first, first_value, second, second_value];
    let one = SettingView { name: first, value: first_value };
    let two = SettingView { name: second, value: second_value };
    let settings = Seq::empty().push(one).push(two);
    reveal_with_fuel(settings_from, 3);
    assert(settings_from(arguments, 1, gate_settings(), GATE_USAGE@, Seq::empty()) == Ok::<
        Seq<SettingView>,
        Seq<char>,
    >(settings));
    reveal_with_fuel(setting, 3);
    assert(settings.drop_last() =~= Seq::empty().push(one));
}

/// A gate on a text that is not told its workspace, its path or its text is not
/// understood.
pub proof fn text_gates_need_all_settings(
    workspace: Seq<char>,
    path: Seq<char>,
    text: Seq<char>,
)
    ensures
        gate_begun(seq!["contains"@, "--path"@, path, "--text"@, text]) matches Err(report)
            && report.code == EXIT_USAGE,
        gate_begun(seq!["contains"@, "--workspace"@, workspace, "--text"@, text]) matches Err(
            report,
        ) && report.code == EXIT_USAGE,
        gate_begun(seq!["contains"@, "--workspace"@, workspace, "--path"@, path]) matches Err(
            report,
        ) && report.code == EXIT_USAGE,
{
    lemma_gate_words();
    lemma_known_settings();
    lemma_two_settings("--path"@, path, "--text"@, text, "--workspace"@);
    lemma_two_settings("--workspace"@, workspace, "--text"@, text, "--path"@);
    lemma_two_settings("--workspace"@, workspace, "--path"@, path, "--text"@);
}

/// An evaluation exits with the code of success exactly when each of its cases
/// passed, and with the one of failure otherwise.
pub proof fn evaluations_exit_by_their_verdicts(verdicts: Seq<Result<(), Seq<char>>>)
    requires
        verdicts.len() == 6,
    ensures
        evaluation_report(suite_report(verdicts, 6)).code == EXIT_SUCCESS <==> forall|i: int|
            0 <= i < 6 ==> #[trigger] verdicts[i] is Ok,
        evaluation_report(suite_report(verdicts, 6)).code == EXIT_FAILURE <==> exists|i: int|
            0 <= i < 6 && #[trigger] verdicts[i] is Err,
{
    suites_account_for_every_case(verdicts);
}

/// The codes that the program exits with.
pub proof fn codes_are_fixed()
    ensures
        EXIT_SUCCESS == 0,
        EXIT_FAILURE == 1,
        EXIT_USAGE == 2,
        EXIT_CRASH == 75,
{
}

/// What is told of an execution: its code is the one of success exactly if it
/// succeeded, and the one of a crash exactly if it crashed on demand. Both name
/// the run and its state; any other error is told.
pub proof fn executions_exit_by_their_end(
    run_id: Seq<char>,
    result: Result<(), ExecutionErrorView>,
)
    ensures
        ({
            let report = execution_report(run_id, result);
            let crashed = result matches Err(ExecutionErrorView::SimulatedCrash { .. });
            &&& report.code == EXIT_SUCCESS <==> result is Ok
            &&& report.code == EXIT_CRASH <==> crashed
            &&& report.code == EXIT_FAILURE <==> result is Err && !crashed
            &&& result is Ok ==> report.output == "run_id="@ + run_id + "\n"@
                + "status=succeeded\n"@ && report.error is None
            &&& crashed ==> report.output == "run_id="@ + run_id + "\n"@ + "status=running\n"@
                && report.error is None
            &&& result is Err && !crashed ==> report.output.len() == 0 && report.error == Some(
                execution_error_text(result->Err_0),
            )
        }),
{
    lemma_run_lines(run_id);
}

proof fn lemma_run_lines(run_id: Seq<char>)
    ensures
        run_lines(run_id, "succeeded"@) == "run_id="@ + run_id + "\n"@ + "status=succeeded\n"@,
        run_lines(run_id, "running"@) == "run_id="@ + run_id + "\n"@ + "status=running\n"@,
{
    reveal_strlit("\nstatus=");
    reveal_strlit("\n");
    reveal_strlit("succeeded");
    reveal_strlit("running");
    reveal_strlit("status=succeeded\n");
    reveal_strlit("status=running\n");
    assert("\nstatus="@ + "succeeded"@ + "\n"@ =~= "\n"@ + "status=succeeded\n"@);
    assert("\nstatus="@ + "running"@ + "\n"@ =~= "\n"@ + "status=running\n"@);
    assert(run_lines(run_id, "succeeded"@) =~= "run_id="@ + run_id + ("\nstatus="@ + "succeeded"@
        + "\n"@));
    assert(run_lines(run_id, "running"@) =~= "run_id="@ + run_id + ("\nstatus="@ + "running"@
        + "\n"@));
    assert("run_id="@ + run_id + ("\n"@ + "status=succeeded\n"@) =~= "run_id="@ + run_id + "\n"@
        + "status=succeeded\n"@);
    assert("run_id="@ + run_id + ("\n"@ + "status=running\n"@) =~= "run_id="@ + run_id + "\n"@
        + "status=running\n"@);
}

/// What is told of a success: the run, its state, and, if there is something to
/// tell, that on a line of its own.
pub proof fn successes_name_their_run(run_id: Seq<char>, name: Seq<char>, value: Seq<char>)
    ensures
        success_text(run_id, None) == "run_id="@ + run_id + "\n"@ + "status=succeeded\n"@,
        success_text(run_id, Some((name, value))) == success_text(run_id, None) + name + "="@
            + value + "\n"@,
        misuse_report(value) == (ReportView {
            output: Seq::empty(),
            error: Some(value),
            code: EXIT_USAGE,
        }),
        failure_report(value) == (ReportView {
            output: Seq::empty(),
            error: Some(value),
            code: EXIT_FAILURE,
        }),
        success_report(value) == (ReportView { output: value, error: None, code: EXIT_SUCCESS }),
{
    lemma_run_lines(run_id);
}

/// What is told of the state of a run: a line each for its identifier, its state
/// and how many of its steps it has come past.
pub proof fn states_are_told_in_lines(run: StoredRunView)
    ensures
        status_text(run) == joined(
            seq![
                "run_id="@ + run.run_id,
                "status="@ + status_name(run.status),
                "progress="@ + decimal(run.current_step) + "/"@ + decimal(run.total_steps),
                Seq::empty(),
            ],
            "\n"@,
        ),
{
    let id = "run_id="@ + run.run_id;
    let status = "status="@ + status_name(run.status);
    let progress = "progress="@ + decimal(run.current_step) + "/"@ + decimal(run.total_steps);
    let none = Seq::<char>::empty();
    let parts = seq![id, status, progress, none];
    assert(parts.drop_last() =~= seq![id, status, progress]);
    assert(parts.drop_last().drop_last() =~= seq![id, status]);
    assert(parts.drop_last().drop_last().drop_last() =~= seq![id]);
    reveal_with_fuel(joined, 4);
    assert(joined(parts, "\n"@) == id + "\n"@ + status + "\n"@ + progress + "\n"@ + none);
    reveal_strlit("\nstatus=");
    reveal_strlit("\n");
    reveal_strlit("status=");
    assert("\nstatus="@ =~= "\n"@ + "status="@);
    assert(status_text(run) =~= id + "\n"@ + status + "\n"@ + progress + "\n"@ + none);
}

/// What is told of the events of a run: each on a line of its own, in their
/// order, with its number, its kind, the index of its step if it has one, and its
/// payload if that is not empty.
pub proof fn trails_tell_every_event(
    front: Seq<EventView>,
    back: Seq<EventView>,
    event: EventView,
)
    ensures
        trail_text(front + back) == trail_text(front) + trail_text(back),
        trail_text(seq![event]) == event_text(event),
        event_text(event) == decimal(event.sequence) + " "@ + event.event_type + (
        if event.step_index is Some {
            " step="@ + decimal(event.step_index->0)
        } else {
            Seq::empty()
        }) + (if event.payload.len() > 0 {
            " payload="@ + event.payload
        } else {
            Seq::empty()
        }) + "\n"@,
    decreases back.len(),
{
    let one = seq![event];
    assert(one.drop_last() =~= Seq::<EventView>::empty());
    assert(trail_text(one.drop_last()) =~= Seq::<char>::empty());
    assert(Seq::<char>::empty() + event_text(event) =~= event_text(event));
    if back.len() == 0 {
        assert(front + back =~= front);
        assert(trail_text(front) + trail_text(back) =~= trail_text(front));
    } else {
        trails_tell_every_event(front, back.drop_last(), event);
        assert((front + back).drop_last() =~= front + back.drop_last());
        assert((front + back).last() == back.last());
        assert(trail_text(front + back) =~= trail_text(front) + trail_text(back));
    }
}

/// What is told of gates: each of them on a line of its own, in their order.
pub proof fn gates_are_told_in_their_order(
    front: Seq<GateResultView>,
    back: Seq<GateResultView>,
    result: GateResultView,
)
    ensures
        gates_text(front + back) == gates_text(front) + gates_text(back),
        gates_text(seq![result]) == gate_text(result) + "\n"@,
        gates_report(front).output == gates_text(front),
        gates_report(front).error is None,
    decreases back.len(),
{
    let one = seq![result];
    assert(one.drop_last() =~= Seq::<GateResultView>::empty());
    assert(gates_text(one.drop_last()) =~= Seq::<char>::empty());
    assert(Seq::<char>::empty() + gate_text(result) + "\n"@ =~= gate_text(result) + "\n"@);
    if back.len() == 0 {
        assert(front + back =~= front);
        assert(gates_text(front) + gates_text(back) =~= gates_text(front));
    } else {
        gates_are_told_in_their_order(front, back.drop_last(), result);
        assert((front + back).drop_last() =~= front + back.drop_last());
        assert((front + back).last() == back.last());
        assert(gates_text(front + back) =~= gates_text(front) + gates_text(back));
    }
}

} // verus!
