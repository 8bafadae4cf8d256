//! The built-in evaluations: what each case tries, how what came of it is
//! judged, and the report.

use crate::agent::{
    fix_fits, fix_started, repo_fix, FixOrderView, FixStep, RepoFix, RepoFixResult,
    RepoFixResultView,
};
use crate::exec::{ExecutionError, ExecutionErrorView};
use crate::gate::{
    file_contains, gate_started, GateQuestionView, GateResult, GateResultView, GateStep,
};
use crate::model::{Message, MessageView, ModelRequest, ModelRequestView};
use crate::number::{decimal, decimal_text};
use crate::path::PathStyle;
use crate::planner::{
    planner_fits, planner_started, repo_fix_from_model, PlanOrder, PlanOrderView, Planner,
    PlannerStep,
};
use crate::sandbox::{
    call_started, Policy, SandboxError, SandboxErrorView, ToolActionView, ToolCall, ToolOutput,
    ToolOutputView, ToolProgress, ToolRouter,
};
use crate::text::{contains_text, has_text, res_view, same_text, unit_view, views};
use vstd::prelude::*;
use vstd::string::StringExecFns;

verus! {

// Cases

/// A case of the suite.
#[derive(Clone, Copy, Debug, PartialEq, Eq, Structural)]
pub enum EvalCase {
    RepoFix,
    MalformedPlan,
    Traversal,
    ReadOnly,
    Regression,
    ModelPlan,
}

/// The name of a case.
pub open spec fn case_name(case: EvalCase) -> Seq<char> {
    match case {
        EvalCase::RepoFix => "repo-fix applies one replacement"@,
        EvalCase::MalformedPlan => "malformed model plan is rejected"@,
        EvalCase::Traversal => "sandbox rejects traversal"@,
        EvalCase::ReadOnly => "read-only policy denies writes"@,
        EvalCase::Regression => "gate detects the intentional regression"@,
        EvalCase::ModelPlan => "model plan is executed through gates"@,
    }
}

/// What stands in the file `input.txt` of the workspace of a case.
pub open spec fn case_fixture(case: EvalCase) -> Seq<char> {
    match case {
        EvalCase::RepoFix => "status=broken\n"@,
        EvalCase::MalformedPlan => "status=broken\n"@,
        EvalCase::Traversal => "status=broken\n"@,
        EvalCase::ReadOnly => "status=broken\n"@,
        EvalCase::Regression => "status=fixed\n"@,
        EvalCase::ModelPlan => "status=broken\n"@,
    }
}

impl EvalCase {
    /// The name of the case.
    pub fn name(self) -> (name: &'static str)
        ensures
            name@ == case_name(self),
    {
        match self {
            EvalCase::RepoFix => "repo-fix applies one replacement",
            EvalCase::MalformedPlan => "malformed model plan is rejected",
            EvalCase::Traversal => "sandbox rejects traversal",
            EvalCase::ReadOnly => "read-only policy denies writes",
            EvalCase::Regression => "gate detects the intentional regression",
            EvalCase::ModelPlan => "model plan is executed through gates",
        }
    }

    /// What stands in the file `input.txt` of the workspace of the case.
    pub fn fixture(self) -> (text: &'static str)
        ensures
            text@ == case_fixture(self),
    {
        match self {
            EvalCase::RepoFix => "status=broken\n",
            EvalCase::MalformedPlan => "status=broken\n",
            EvalCase::Traversal => "status=broken\n",
            EvalCase::ReadOnly => "status=broken\n",
            EvalCase::Regression => "status=fixed\n",
            EvalCase::ModelPlan => "status=broken\n",
        }
    }
}

/// What stands in the file `input.txt` of the second workspace of the case that
/// repairs one place: the text stands at two places.
pub const AMBIGUOUS_FIXTURE: &'static str = "status=broken\nstatus=broken\n";

/// The text that a gate looks for in the regression case. A broken suite
/// looks for the one that is not there.
pub fn regression_expectation(break_regression: bool) -> (text: &'static str)
    ensures
        text@ == if break_regression {
            "status=broken"@
        } else {
            "status=fixed"@
        },
{
    if break_regression {
        "status=broken"
    } else {
        "status=fixed"
    }
}

/// The repair that the cases of one place try.
pub open spec fn case_order(
    run_id: Seq<char>,
    workspace: Seq<char>,
    style: PathStyle,
) -> FixOrderView {
    FixOrderView {
        run_id,
        workspace,
        path: "input.txt"@,
        find: "status=broken"@,
        replace: "status=fixed"@,
        pause_ms: 0,
        style,
    }
}

/// Begins the repair that the cases of one place try.
pub fn start_repair_case(run_id: &str, workspace: &str, style: PathStyle) -> (next: (
    RepoFix,
    FixStep,
))
    ensures
        (next.0@, next.1@) == fix_started(case_order(run_id@, workspace@, style)),
        fix_fits(next.0@),
{
    repo_fix(run_id, workspace, "input.txt", "status=broken", "status=fixed", style)
}

/// Begins the attempt to read outside the workspace.
pub fn start_traversal_case(router: &ToolRouter) -> (next: (ToolCall, ToolProgress))
    ensures
        (next.0@, next.1@) == call_started(
            router@,
            ToolActionView::ReadFile("../outside.txt"@),
            false,
        ),
{
    router.read_file("../outside.txt")
}

/// Begins the attempt to write where only reading is allowed.
pub fn start_read_only_case(router: &ToolRouter) -> (next: (ToolCall, ToolProgress))
    ensures
        (next.0@, next.1@) == call_started(
            router@,
            ToolActionView::WriteFile { path: "input.txt"@, contents: "tampered"@ },
            false,
        ),
{
    router.write_file("input.txt", "tampered")
}

/// Begins the regression case, which is a gate.
pub fn start_regression_case(policy: Result<Policy, SandboxError>, break_regression: bool) -> (step:
    GateStep)
    ensures
        step@ == gate_started(
            res_view(policy),
            GateQuestionView::Contains {
                path: "input.txt"@,
                expected: if break_regression {
                    "status=broken"@
                } else {
                    "status=fixed"@
                },
            },
        ),
{
    file_contains(policy, "input.txt", regression_expectation(break_regression))
}

/// The request of the cases with a model.
pub open spec fn case_request() -> ModelRequestView {
    ModelRequestView {
        model: "fake-agent-planner"@,
        messages: seq![MessageView { role: "user"@, content: "repair fixture"@ }],
        temperature: "0.0"@,
    }
}

/// Begins the repair by the plan of a model.
pub fn start_model_case(run_id: &str, workspace: &str, style: PathStyle) -> (next: (
    Planner,
    PlannerStep,
))
    ensures
        (next.0@, next.1@) == planner_started(
            PlanOrderView {
                run_id: run_id@,
                workspace: workspace@,
                request: case_request(),
                pause_ms: 0,
                style,
            },
        ),
        planner_fits(next.0@),
{
    let request = ModelRequest {
        model: "fake-agent-planner".to_owned(),
        messages: vec![Message::user("repair fixture")],
        temperature: "0.0".to_owned(),
    };
    proof {
        assert(request@.messages =~= case_request().messages);
    }
    repo_fix_from_model(
        PlanOrder {
            run_id: run_id.to_owned(),
            workspace: workspace.to_owned(),
            request,
            pause_ms: 0,
            style,
        },
    )
}

/// What the model answers with in the case of a malformed plan.
pub const MALFORMED_CASE_RESPONSE: &'static str = "not-json";

/// The plan that the model answers with in the case that carries one out.
pub const MODEL_CASE_RESPONSE: &'static str = "{\n  \"version\": 1,\n  \"summary\": \"model repaired fixture\",\n  \"actions\": [\n    {\"kind\": \"read\", \"path\": \"input.txt\"},\n    {\"kind\": \"write\", \"path\": \"input.txt\", \"contents\": \"status=fixed\\n\"},\n    {\"kind\": \"read\", \"path\": \"input.txt\"},\n    {\"kind\": \"gate_contains\", \"path\": \"input.txt\", \"expected\": \"status=fixed\"}\n  ]\n}";

// Judgements

/// A repair that was carried out, and the file it left.
#[derive(Debug)]
pub struct RepairObservation {
    pub result: RepoFixResult,
    pub file: String,
}

/// The mathematical form of a repair that was carried out.
pub struct RepairObservationView {
    pub result: RepoFixResultView,
    pub file: Seq<char>,
}

impl View for RepairObservation {
    type V = RepairObservationView;

    open spec fn view(&self) -> RepairObservationView {
        RepairObservationView { result: self.result@, file: self.file@ }
    }
}

/// How the repair of one place is judged.
pub open spec fn repair_verdict(observed: Result<RepairObservationView, Seq<char>>) -> Result<
    (),
    Seq<char>,
> {
    match observed {
        Err(message) => Err(message),
        Ok(repair) => if repair.file != "status=fixed\n"@ || !has_text(
            repair.result.output,
            "status=fixed"@,
        ) {
            Err("repo-fix did not produce the expected file"@)
        } else {
            Ok(())
        },
    }
}

/// How the repair of an ambiguous place is judged.
pub open spec fn ambiguous_verdict(
    observed: Result<Result<RepoFixResultView, ExecutionErrorView>, Seq<char>>,
) -> Result<(), Seq<char>> {
    match observed {
        Err(message) => Err(message),
        Ok(Err(ExecutionErrorView::GateFailed(_))) => Ok(()),
        Ok(_) => Err("ambiguous edit was accepted"@),
    }
}

/// How the case that repairs one place is judged: the repair of one place
/// first, then that of an ambiguous one.
pub open spec fn fix_verdict(
    repair: Result<RepairObservationView, Seq<char>>,
    ambiguous: Result<Result<RepoFixResultView, ExecutionErrorView>, Seq<char>>,
) -> Result<(), Seq<char>> {
    match repair_verdict(repair) {
        Err(message) => Err(message),
        Ok(()) => ambiguous_verdict(ambiguous),
    }
}

/// A repair that must be refused, and the file it left.
#[derive(Debug)]
pub struct RefusalObservation {
    pub outcome: Result<RepoFixResult, ExecutionError>,
    pub file: String,
}

/// The mathematical form of a repair that must be refused.
pub struct RefusalObservationView {
    pub outcome: Result<RepoFixResultView, ExecutionErrorView>,
    pub file: Seq<char>,
}

impl View for RefusalObservation {
    type V = RefusalObservationView;

    open spec fn view(&self) -> RefusalObservationView {
        RefusalObservationView { outcome: res_view(self.outcome), file: self.file@ }
    }
}

/// How the repair by a malformed plan is judged: the plan is refused, and the
/// file is as it was.
pub open spec fn malformed_verdict(observed: Result<RefusalObservationView, Seq<char>>) -> Result<
    (),
    Seq<char>,
> {
    match observed {
        Err(message) => Err(message),
        Ok(refusal) => match refusal.outcome {
            Err(ExecutionErrorView::Plan(_)) => if refusal.file == "status=broken\n"@ {
                Ok(())
            } else {
                Err("malformed plan changed the workspace"@)
            },
            _ => Err("malformed plan was accepted"@),
        },
    }
}

/// How a use of a tool that must be rejected is judged.
pub open spec fn rejection_verdict(
    observed: Result<Result<ToolOutputView, SandboxErrorView>, Seq<char>>,
    complaint: Seq<char>,
) -> Result<(), Seq<char>> {
    match observed {
        Err(message) => Err(message),
        Ok(Err(_)) => Ok(()),
        Ok(Ok(_)) => Err(complaint),
    }
}

/// How the regression case is judged.
pub open spec fn regression_verdict(observed: Result<GateResultView, Seq<char>>) -> Result<
    (),
    Seq<char>,
> {
    match observed {
        Err(message) => Err(message),
        Ok(result) => if result.passed {
            Ok(())
        } else {
            Err(result.evidence)
        },
    }
}

/// How the repair by the plan of a model is judged.
pub open spec fn model_verdict(observed: Result<RepairObservationView, Seq<char>>) -> Result<
    (),
    Seq<char>,
> {
    match observed {
        Err(message) => Err(message),
        Ok(repair) => if repair.file == "status=fixed\n"@ && repair.result.output
            == "model repaired fixture"@ {
            Ok(())
        } else {
            Err("model plan did not produce the expected repair"@)
        },
    }
}

/// Judges the repair of one place.
pub fn judge_repair(observed: Result<RepairObservation, String>) -> (verdict: Result<(), String>)
    ensures
        unit_view(verdict) == repair_verdict(res_view(observed)),
{
    match observed {
        Err(message) => Err(message),
        Ok(repair) => {
            if !same_text(repair.file.as_str(), "status=fixed\n") || !contains_text(
                repair.result.output.as_str(),
                "status=fixed",
            ) {
                Err("repo-fix did not produce the expected file".to_owned())
            } else {
                Ok(())
            }
        },
    }
}

/// Judges the repair of an ambiguous place.
pub fn judge_ambiguous(observed: Result<Result<RepoFixResult, ExecutionError>, String>) -> (verdict:
    Result<(), String>)
    ensures
        unit_view(verdict) == ambiguous_verdict(
            match observed {
                Err(message) => Err(message@),
                Ok(outcome) => Ok(res_view(outcome)),
            },
        ),
{
    match observed {
        Err(message) => Err(message),
        Ok(Err(ExecutionError::GateFailed(_))) => Ok(()),
        Ok(_) => Err("ambiguous edit was accepted".to_owned()),
    }
}

/// Judges the case that repairs one place.
pub fn judge_fix(
    repair: Result<RepairObservation, String>,
    ambiguous: Result<Result<RepoFixResult, ExecutionError>, String>,
) -> (verdict: Result<(), String>)
    ensures
        unit_view(verdict) == fix_verdict(
            res_view(repair),
            match ambiguous {
                Err(message) => Err(message@),
                Ok(outcome) => Ok(res_view(outcome)),
            },
        ),
{
    match judge_repair(repair) {
        Err(message) => Err(message),
        Ok(()) => judge_ambiguous(ambiguous),
    }
}

/// Judges the repair by a malformed plan.
pub fn judge_malformed_plan(observed: Result<RefusalObservation, String>) -> (verdict: Result<
    (),
    String,
>)
    ensures
        unit_view(verdict) == malformed_verdict(res_view(observed)),
{
    match observed {
        Err(message) => Err(message),
        Ok(refusal) => match refusal.outcome {
            Err(ExecutionError::Plan(_)) => if same_text(
                refusal.file.as_str(),
                "status=broken\n",
            ) {
                Ok(())
            } else {
                Err("malformed plan changed the workspace".to_owned())
            },
            _ => Err("malformed plan was accepted".to_owned()),
        },
    }
}

fn judge_rejection(observed: Result<Result<ToolOutput, SandboxError>, String>, complaint: &str) -> (verdict:
    Result<(), String>)
    ensures
        unit_view(verdict) == rejection_verdict(
            match observed {
                Err(message) => Err(message@),
                Ok(outcome) => Ok(res_view(outcome)),
            },
            complaint@,
        ),
{
    match observed {
        Err(message) => Err(message),
        Ok(Err(_)) => Ok(()),
        Ok(Ok(_)) => Err(complaint.to_owned()),
    }
}

/// Judges an attempt to read outside the workspace.
pub fn judge_traversal(observed: Result<Result<ToolOutput, SandboxError>, String>) -> (verdict: Result<
    (),
    String,
>)
    ensures
        unit_view(verdict) == rejection_verdict(
            match observed {
                Err(message) => Err(message@),
                Ok(outcome) => Ok(res_view(outcome)),
            },
            "traversal escaped the workspace policy"@,
        ),
{
    judge_rejection(observed, "traversal escaped the workspace policy")
}

/// Judges an attempt to write where only reading is allowed.
pub fn judge_read_only(observed: Result<Result<ToolOutput, SandboxError>, String>) -> (verdict: Result<
    (),
    String,
>)
    ensures
        unit_view(verdict) == rejection_verdict(
            match observed {
                Err(message) => Err(message@),
                Ok(outcome) => Ok(res_view(outcome)),
            },
            "read-only policy allowed a write"@,
        ),
{
    judge_rejection(observed, "read-only policy allowed a write")
}

/// Judges the regression case.
pub fn judge_regression(observed: Result<GateResult, String>) -> (verdict: Result<(), String>)
    ensures
        unit_view(verdict) == regression_verdict(res_view(observed)),
{
    match observed {
        Err(message) => Err(message),
        Ok(result) => if result.passed {
            Ok(())
        } else {
            Err(result.evidence)
        },
    }
}

/// Judges the repair by the plan of a model.
pub fn judge_model_plan(observed: Result<RepairObservation, String>) -> (verdict: Result<
    (),
    String,
>)
    ensures
        unit_view(verdict) == model_verdict(res_view(observed)),
{
    match observed {
        Err(message) => Err(message),
        Ok(repair) => {
            if same_text(repair.file.as_str(), "status=fixed\n") && same_text(
                repair.result.output.as_str(),
                "model repaired fixture",
            ) {
                Ok(())
            } else {
                Err("model plan did not produce the expected repair".to_owned())
            }
        },
    }
}

// Reports

/// What came of a suite.
#[derive(Debug)]
pub struct EvalReport {
    pub total: usize,
    pub passed: usize,
    pub failures: Vec<String>,
}

/// The mathematical form of a report.
pub struct EvalReportView {
    pub total: nat,
    pub passed: nat,
    pub failures: Seq<Seq<char>>,
}

impl View for EvalReport {
    type V = EvalReportView;

    open spec fn view(&self) -> EvalReportView {
        EvalReportView {
            total: self.total as nat,
            passed: self.passed as nat,
            failures: views(self.failures@),
        }
    }
}

/// Whether a suite succeeded.
pub open spec fn report_succeeded(report: EvalReportView) -> bool {
    report.failures.len() == 0 && report.passed == report.total
}

/// The lines that tell the failures.
pub open spec fn failure_lines(failures: Seq<Seq<char>>) -> Seq<char>
    decreases failures.len(),
{
    if failures.len() == 0 {
        Seq::empty()
    } else {
        failure_lines(failures.drop_last()) + "FAIL "@ + failures.last() + "\n"@
    }
}

/// The text of a report.
pub open spec fn report_text(report: EvalReportView) -> Seq<char> {
    "evals="@ + decimal(report.passed) + "/"@ + decimal(report.total) + " passed\n"@
        + failure_lines(report.failures)
}

/// A report with one more case.
pub open spec fn with_case(
    report: EvalReportView,
    name: Seq<char>,
    verdict: Result<(), Seq<char>>,
) -> EvalReportView {
    match verdict {
        Ok(()) => EvalReportView { passed: report.passed + 1, ..report },
        Err(error) => EvalReportView {
            failures: report.failures.push(name + ": "@ + error),
            ..report
        },
    }
}

impl EvalReport {
    /// Whether the suite succeeded.
    pub fn succeeded(&self) -> (res: bool)
        ensures
            res == report_succeeded(self@),
    {
        self.failures.len() == 0 && self.passed == self.total
    }

    /// The text of the report.
    pub fn message(&self) -> (text: String)
        ensures
            text@ == report_text(self@),
    {
        let mut text = "evals=".to_owned();
        text.append(decimal_text(self.passed as u64).as_str());
        text.append("/");
        text.append(decimal_text(self.total as u64).as_str());
        text.append(" passed\n");
        let ghost head = text@;
        let ghost all = views(self.failures@);
        let mut i: usize = 0;
        proof {
            assert(all.take(0) =~= Seq::<Seq<char>>::empty());
            assert(head + failure_lines(all.take(0)) =~= head);
        }
        while i < self.failures.len()
            invariant
                all == views(self.failures@),
                i <= self.failures@.len(),
                text@ == head + failure_lines(all.take(i as int)),
            decreases self.failures@.len() - i,
        {
            let ghost before = text@;
            text.append("FAIL ");
            text.append(self.failures[i].as_str());
            text.append("\n");
            proof {
                assert(all.take(i + 1).drop_last() =~= all.take(i as int));
                assert(all.take(i + 1).last() == self.failures@[i as int]@);
                assert(text@ =~= head + failure_lines(all.take(i + 1)));
            }
            i = i + 1;
        }
        proof {
            assert(all.take(all.len() as int) =~= all);
        }
        text
    }
}

/// Adds one case to a report.
pub fn run_case(report: &mut EvalReport, name: &str, verdict: Result<(), String>)
    requires
        old(report).passed < usize::MAX,
    ensures
        final(report)@ == with_case(old(report)@, name@, unit_view(verdict)),
{
    match verdict {
        Ok(()) => {
            report.passed = report.passed + 1;
        },
        Err(error) => {
            let mut failure = name.to_owned();
            failure.append(": ");
            failure.append(error.as_str());
            let ghost before = views(report.failures@);
            report.failures.push(failure);
            proof {
                assert(views(report.failures@) =~= before.push(failure@));
            }
        },
    }
}

/// What was observed in each case of the suite.
#[derive(Debug)]
pub struct SuiteObservations {
    pub repo_fix: Result<RepairObservation, String>,
    pub ambiguous: Result<Result<RepoFixResult, ExecutionError>, String>,
    pub malformed_plan: Result<RefusalObservation, String>,
    pub traversal: Result<Result<ToolOutput, SandboxError>, String>,
    pub read_only: Result<Result<ToolOutput, SandboxError>, String>,
    pub regression: Result<GateResult, String>,
    pub model_plan: Result<RepairObservation, String>,
}

/// How every case of a suite is judged, in order.
pub open spec fn suite_verdicts(observed: SuiteObservations) -> Seq<Result<(), Seq<char>>> {
    seq![
        fix_verdict(
            res_view(observed.repo_fix),
            match observed.ambiguous {
                Err(message) => Err(message@),
                Ok(outcome) => Ok(res_view(outcome)),
            },
        ),
        malformed_verdict(res_view(observed.malformed_plan)),
        rejection_verdict(
            match observed.traversal {
                Err(message) => Err(message@),
                Ok(outcome) => Ok(res_view(outcome)),
            },
            "traversal escaped the workspace policy"@,
        ),
        rejection_verdict(
            match observed.read_only {
                Err(message) => Err(message@),
                Ok(outcome) => Ok(res_view(outcome)),
            },
            "read-only policy allowed a write"@,
        ),
        regression_verdict(res_view(observed.regression)),
        model_verdict(res_view(observed.model_plan)),
    ]
}

/// The cases of the suite, in order.
pub open spec fn suite_cases() -> Seq<EvalCase> {
    seq![
        EvalCase::RepoFix,
        EvalCase::MalformedPlan,
        EvalCase::Traversal,
        EvalCase::ReadOnly,
        EvalCase::Regression,
        EvalCase::ModelPlan,
    ]
}

/// The report on the first cases of a suite.
pub open spec fn suite_report(verdicts: Seq<Result<(), Seq<char>>>, count: nat) -> EvalReportView
    decreases count,
{
    if count == 0 {
        EvalReportView { total: 6, passed: 0, failures: Seq::empty() }
    } else {
        with_case(
            suite_report(verdicts, (count - 1) as nat),
            case_name(suite_cases()[count - 1]),
            verdicts[count - 1],
        )
    }
}

/// Judges what was observed in every case and reports on it.
pub fn run_suite(observed: SuiteObservations) -> (report: EvalReport)
    ensures
        report@ == suite_report(suite_verdicts(observed), 6),
{
    let ghost verdicts = suite_verdicts(observed);
    proof {
        reveal_with_fuel(suite_report, 7);
    }
    let mut report = EvalReport { total: 6, passed: 0, failures: Vec::new() };
    proof {
        assert(report@.failures =~= Seq::<Seq<char>>::empty());
    }
    run_case(
        &mut report,
        EvalCase::RepoFix.name(),
        judge_fix(observed.repo_fix, observed.ambiguous),
    );
    run_case(
        &mut report,
        EvalCase::MalformedPlan.name(),
        judge_malformed_plan(observed.malformed_plan),
    );
    run_case(&mut report, EvalCase::Traversal.name(), judge_traversal(observed.traversal));
    run_case(&mut report, EvalCase::ReadOnly.name(), judge_read_only(observed.read_only));
    run_case(&mut report, EvalCase::Regression.name(), judge_regression(observed.regression));
    run_case(&mut report, EvalCase::ModelPlan.name(), judge_model_plan(observed.model_plan));
    report
}

// Laws

proof fn lemma_suite_counts(verdicts: Seq<Result<(), Seq<char>>>, count: nat)
    ensures
        suite_report(verdicts, count).total == 6,
        suite_report(verdicts, count).passed + suite_report(verdicts, count).failures.len()
            == count,
        suite_report(verdicts, count).failures.len() == 0 <==> forall|i: int|
            0 <= i < count ==> #[trigger] verdicts[i] is Ok,
    decreases count,
{
    if count > 0 {
        let smaller = (count - 1) as nat;
        lemma_suite_counts(verdicts, smaller);
        if suite_report(verdicts, count).failures.len() == 0 {
            assert forall|i: int| 0 <= i < count implies #[trigger] verdicts[i] is Ok by {
                if i == count - 1 {
                }
            }
        } else if forall|i: int| 0 <= i < count ==> #[trigger] verdicts[i] is Ok {
            assert(verdicts[count - 1] is Ok);
        }
    }
}

/// Every case of a suite is either passed or reported as a failure, and the
/// suite succeeds exactly when every case passes: one failure fails it.
pub proof fn suites_account_for_every_case(verdicts: Seq<Result<(), Seq<char>>>)
    requires
        verdicts.len() == 6,
    ensures
        suite_report(verdicts, 6).total == 6,
        suite_report(verdicts, 6).passed + suite_report(verdicts, 6).failures.len() == 6,
        report_succeeded(suite_report(verdicts, 6)) <==> forall|i: int|
            0 <= i < 6 ==> #[trigger] verdicts[i] is Ok,
{
    lemma_suite_counts(verdicts, 6);
}

/// When a case passes: only if it could be observed, and it shows what the case
/// is about. A repair has to leave the repaired file and an ambiguous one has to
/// be refused; a plan that is none has to be refused and leave the file; what the
/// policy forbids has to be refused; a gate has to pass; and a plan has to leave
/// the repaired file and tell its summary.
pub proof fn cases_pass_on_what_they_are_about(
    repair: Result<RepairObservationView, Seq<char>>,
    ambiguous: Result<Result<RepoFixResultView, ExecutionErrorView>, Seq<char>>,
    refusal: Result<RefusalObservationView, Seq<char>>,
    rejection: Result<Result<ToolOutputView, SandboxErrorView>, Seq<char>>,
    gate: Result<GateResultView, Seq<char>>,
    complaint: Seq<char>,
)
    ensures
        fix_verdict(repair, ambiguous) is Ok <==> {
            &&& repair matches Ok(seen) && seen.file == "status=fixed\n"@ && has_text(
                seen.result.output,
                "status=fixed"@,
            )
            &&& ambiguous matches Ok(Err(ExecutionErrorView::GateFailed(_)))
        },
        malformed_verdict(refusal) is Ok <==> (refusal matches Ok(seen) && (seen.outcome matches
            Err(ExecutionErrorView::Plan(_))) && seen.file == "status=broken\n"@),
        rejection_verdict(rejection, complaint) is Ok <==> rejection matches Ok(Err(_)),
        regression_verdict(gate) is Ok <==> (gate matches Ok(result) && result.passed),
        model_verdict(repair) is Ok <==> (repair matches Ok(seen) && seen.file
            == "status=fixed\n"@ && seen.result.output == "model repaired fixture"@),
        repair_verdict(repair) is Ok <==> (repair matches Ok(seen) && seen.file
            == "status=fixed\n"@ && has_text(seen.result.output, "status=fixed"@)),
        ambiguous_verdict(ambiguous) is Ok <==> ambiguous matches Ok(
            Err(ExecutionErrorView::GateFailed(_)),
        ),
{
}

/// A case that passes is counted, and one that fails is told with its name and
/// its fault behind the failures before it.
pub proof fn cases_are_counted_or_told(
    report: EvalReportView,
    name: Seq<char>,
    fault: Seq<char>,
)
    ensures
        ({
            let passed = with_case(report, name, Ok(()));
            &&& passed.passed == report.passed + 1
            &&& passed.total == report.total
            &&& passed.failures == report.failures
        }),
        ({
            let failed = with_case(report, name, Err(fault));
            &&& failed.passed == report.passed
            &&& failed.total == report.total
            &&& failed.failures.len() == report.failures.len() + 1
            &&& failed.failures.last() == name + ": "@ + fault
            &&& forall|i: int|
                0 <= i < report.failures.len() ==> #[trigger] failed.failures[i]
                    == report.failures[i]
        }),
        report_succeeded(report) <==> report.failures.len() == 0 && report.passed == report.total,
{
}

/// What is told of an evaluation: how many cases passed of how many, and then a
/// line for each failure, in their order.
pub proof fn failures_are_told_in_their_order(
    report: EvalReportView,
    front: Seq<Seq<char>>,
    back: Seq<Seq<char>>,
)
    ensures
        report_text(report) == "evals="@ + decimal(report.passed) + "/"@ + decimal(report.total)
            + " passed\n"@ + failure_lines(report.failures),
        failure_lines(front + back) == failure_lines(front) + failure_lines(back),
        front.len() == 1 ==> failure_lines(front) == "FAIL "@ + front[0] + "\n"@,
    decreases back.len(),
{
    if front.len() == 1 {
        assert(front.drop_last() =~= Seq::<Seq<char>>::empty());
        assert(failure_lines(front.drop_last()) =~= Seq::<char>::empty());
        assert(Seq::<char>::empty() + "FAIL "@ + front[0] + "\n"@ =~= "FAIL "@ + front[0] + "\n"@);
    }
    if back.len() == 0 {
        assert(front + back =~= front);
        assert(failure_lines(front) + failure_lines(back) =~= failure_lines(front));
    } else {
        failures_are_told_in_their_order(report, front, back.drop_last());
        assert((front + back).drop_last() =~= front + back.drop_last());
        assert((front + back).last() == back.last());
        assert(failure_lines(front + back) =~= failure_lines(front) + failure_lines(back));
    }
}

/// A suite succeeds exactly if every case could be observed and showed what it is
/// about.
pub proof fn suites_succeed_on_what_was_seen(observed: SuiteObservations)
    ensures
        report_succeeded(suite_report(suite_verdicts(observed), 6)) <==> {
            &&& observed.repo_fix matches Ok(seen) && seen.file@ == "status=fixed\n"@ && has_text(
                seen.result.output@,
                "status=fixed"@,
            )
            &&& observed.ambiguous matches Ok(Err(ExecutionError::GateFailed(_)))
            &&& observed.malformed_plan matches Ok(seen) && (seen.outcome matches Err(
                ExecutionError::Plan(_),
            )) && seen.file@ == "status=broken\n"@
            &&& observed.traversal matches Ok(Err(_))
            &&& observed.read_only matches Ok(Err(_))
            &&& observed.regression matches Ok(gate) && gate.passed
            &&& observed.model_plan matches Ok(seen) && seen.file@ == "status=fixed\n"@
                && seen.result.output@ == "model repaired fixture"@
        },
{
    let verdicts = suite_verdicts(observed);
    suites_account_for_every_case(verdicts);
    if report_succeeded(suite_report(verdicts, 6)) {
        assert(verdicts[0] is Ok && verdicts[1] is Ok && verdicts[2] is Ok);
        assert(verdicts[3] is Ok && verdicts[4] is Ok && verdicts[5] is Ok);
    }
}

proof fn lemma_fault_is_told(verdicts: Seq<Result<(), Seq<char>>>, count: nat, i: int)
    requires
        0 <= i < count,
        verdicts[i] is Err,
    ensures
        suite_report(verdicts, count).failures.contains(
            case_name(suite_cases()[i]) + ": "@ + verdicts[i]->Err_0,
        ),
    decreases count,
{
    let told = case_name(suite_cases()[i]) + ": "@ + verdicts[i]->Err_0;
    let before = suite_report(verdicts, (count - 1) as nat).failures;
    let after = suite_report(verdicts, count).failures;
    if i == count - 1 {
        assert(after.last() == told);
        assert(after[after.len() - 1] == told);
    } else {
        lemma_fault_is_told(verdicts, (count - 1) as nat, i);
        let at = choose|at: int| 0 <= at < before.len() && before[at] == told;
        assert(after[at] == told);
    }
}

/// Every case that fails is told with its own name and its fault. A case that
/// could not be observed fails with the reason for that.
pub proof fn failing_cases_tell_their_fault(
    verdicts: Seq<Result<(), Seq<char>>>,
    fault: Seq<char>,
    message: Seq<char>,
    complaint: Seq<char>,
    ambiguous: Result<Result<RepoFixResultView, ExecutionErrorView>, Seq<char>>,
    gate: GateResultView,
)
    requires
        verdicts.len() == 6,
    ensures
        ({
            let failures = suite_report(verdicts, 6).failures;
            let failed = Err::<(), Seq<char>>(fault);
            &&& verdicts[0] == failed ==> failures.contains(
                "repo-fix applies one replacement"@ + ": "@ + fault,
            )
            &&& verdicts[1] == failed ==> failures.contains(
                "malformed model plan is rejected"@ + ": "@ + fault,
            )
            &&& verdicts[2] == failed ==> failures.contains(
                "sandbox rejects traversal"@ + ": "@ + fault,
            )
            &&& verdicts[3] == failed ==> failures.contains(
                "read-only policy denies writes"@ + ": "@ + fault,
            )
            &&& verdicts[4] == failed ==> failures.contains(
                "gate detects the intentional regression"@ + ": "@ + fault,
            )
            &&& verdicts[5] == failed ==> failures.contains(
                "model plan is executed through gates"@ + ": "@ + fault,
            )
        }),
        ({
            let unseen = Err::<(), Seq<char>>(message);
            &&& fix_verdict(Err(message), ambiguous) == unseen
            &&& ambiguous_verdict(Err(message)) == unseen
            &&& malformed_verdict(Err(message)) == unseen
            &&& rejection_verdict(Err(message), complaint) == unseen
            &&& regression_verdict(Err(message)) == unseen
            &&& model_verdict(Err(message)) == unseen
        }),
        forall|output: ToolOutputView|
            #[trigger] rejection_verdict(Ok(Ok(output)), complaint) == Err::<(), Seq<char>>(
                complaint,
            ),
        !gate.passed ==> regression_verdict(Ok(gate)) == Err::<(), Seq<char>>(gate.evidence),
{
    if verdicts[0] is Err {
        lemma_fault_is_told(verdicts, 6, 0);
    }
    if verdicts[1] is Err {
        lemma_fault_is_told(verdicts, 6, 1);
    }
    if verdicts[2] is Err {
        lemma_fault_is_told(verdicts, 6, 2);
    }
    if verdicts[3] is Err {
        lemma_fault_is_told(verdicts, 6, 3);
    }
    if verdicts[4] is Err {
        lemma_fault_is_told(verdicts, 6, 4);
    }
    if verdicts[5] is Err {
        lemma_fault_is_told(verdicts, 6, 5);
    }
    assert(suite_cases()[0] is RepoFix && suite_cases()[1] is MalformedPlan);
    assert(suite_cases()[2] is Traversal && suite_cases()[3] is ReadOnly);
    assert(suite_cases()[4] is Regression && suite_cases()[5] is ModelPlan);
}

/// What is said of a case that was observed and did not show what it is about.
pub proof fn failing_cases_tell_what_went_wrong(
    repair: RepairObservationView,
    outcome: Result<RepoFixResultView, ExecutionErrorView>,
    refusal: RefusalObservationView,
)
    ensures
        repair_verdict(Ok(repair)) matches Err(fault) ==> fault
            == "repo-fix did not produce the expected file"@,
        ambiguous_verdict(Ok(outcome)) matches Err(fault) ==> fault
            == "ambiguous edit was accepted"@,
        malformed_verdict(Ok(refusal)) matches Err(fault) ==> fault == if refusal.outcome matches
            Err(ExecutionErrorView::Plan(_)) {
            "malformed plan changed the workspace"@
        } else {
            "malformed plan was accepted"@
        },
        model_verdict(Ok(repair)) matches Err(fault) ==> fault
            == "model plan did not produce the expected repair"@,
{
}

} // verus!
