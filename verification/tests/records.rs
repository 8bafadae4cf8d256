//! Records, texts, numbers, paths and evidence.

use agentrt::audit::{
    json_string, prepare_destination, sha256_hex, AuditError, Destination, Preparation,
};
use agentrt::eval::{
    judge_ambiguous, judge_fix, judge_malformed_plan, judge_model_plan, judge_read_only,
    judge_regression, judge_repair, judge_traversal, run_case, EvalReport, RefusalObservation,
    RepairObservation,
};
use agentrt::agent::{edit, RepoFixPlan, RepoFixResult};
use agentrt::exec::ExecutionError;
use agentrt::gate::GateResult;
use agentrt::number::{decimal_text, hex_text, parse_bounded, zero_padded_text};
use agentrt::path::{join_path, path_goes_up, path_is_inside, path_is_plain_relative, path_segments, PathStyle};
use agentrt::plan::{AgentPlan, PlanAction};
use agentrt::run::{idempotency_key, new_run_id, RunStatus, StepDefinition};
use agentrt::sandbox::{validate_relative, SandboxError, Tool, ToolOutput};
use agentrt::store::{load_status, timestamp, RunRecord, Store, StoreError, ToolStepSpec};
use agentrt::text::{
    blank, contains_text, count_text, lower_text, replace_once, replace_text, sort_text,
};

const UNIX: PathStyle = PathStyle::Unix;
const WINDOWS: PathStyle = PathStyle::Windows;

// Texts and numbers

#[test]
fn texts_are_searched_and_replaced() {
    assert!(contains_text("abcabc", "cab"));
    assert!(!contains_text("abc", "abd"));
    assert!(contains_text("abc", ""));
    assert_eq!(count_text("aaaa", "aa"), 2);
    assert_eq!(count_text("abc", "x"), 0);
    assert_eq!(replace_text("aaaaa", "aa", "b"), "bba");
    assert_eq!(replace_once("x-x", "x", "yy"), "yy-x");
    assert_eq!(replace_once("abc", "x", "y"), "abc");
    assert_eq!(lower_text("AbCÄ"), "abcÄ");
    assert!(blank(" \t\n\u{3000}"));
    assert!(!blank(" a "));
    assert!(blank(""));
    let names = vec!["b".to_owned(), "aa".to_owned(), "a".to_owned(), "B".to_owned()];
    assert_eq!(sort_text(&names), vec!["B", "a", "aa", "b"]);
}

#[test]
fn numbers_are_written_and_read() {
    assert_eq!(decimal_text(0), "0");
    assert_eq!(decimal_text(u64::MAX), "18446744073709551615");
    assert_eq!(zero_padded_text(7, 3), "007");
    assert_eq!(zero_padded_text(1234, 3), "1234");
    assert_eq!(parse_bounded("0042", 100), Some(42));
    assert_eq!(parse_bounded("+7", 7), Some(7));
    assert_eq!(parse_bounded("8", 7), None);
    assert_eq!(parse_bounded("", 7), None);
    assert_eq!(parse_bounded("+", 7), None);
    assert_eq!(parse_bounded("-1", 7), None);
    assert_eq!(parse_bounded("18446744073709551615", u64::MAX), Some(u64::MAX));
    assert_eq!(parse_bounded("18446744073709551616", u64::MAX), None);
    assert_eq!(hex_text(&vec![0, 15, 16, 255]), "000f10ff");
}

// Paths

#[test]
fn paths_are_taken_apart() {
    assert_eq!(path_segments(UNIX, "/a//b/./c/"), vec!["a", "b", "c"]);
    assert_eq!(path_segments(WINDOWS, "a\\b/c"), vec!["a", "b", "c"]);
    assert_eq!(path_segments(UNIX, "a\\b"), vec!["a\\b"]);
    assert!(path_goes_up(UNIX, "a/.."));
    assert!(!path_goes_up(UNIX, "a/..b"));
    assert!(path_is_plain_relative(UNIX, "a/b"));
    assert!(!path_is_plain_relative(UNIX, ""));
    assert!(!path_is_plain_relative(UNIX, "/a"));
    assert!(!path_is_plain_relative(WINDOWS, "c:a"));
    assert!(path_is_plain_relative(UNIX, "c:a"));
    assert!(path_is_inside(UNIX, "/work/a", "/work"));
    assert!(path_is_inside(UNIX, "/work", "/work/"));
    assert!(!path_is_inside(UNIX, "/workshop", "/work"));
    assert!(!path_is_inside(UNIX, "work/a", "/work"));
    assert_eq!(join_path(UNIX, "/work", "a"), "/work/a");
    assert_eq!(join_path(UNIX, "/", "a"), "/a");
    assert_eq!(join_path(UNIX, "", "a"), "a");
    assert_eq!(join_path(WINDOWS, "c:\\work", "a"), "c:\\work\\a");
    assert_eq!(
        validate_relative(UNIX, "../x").expect_err("goes up").message(),
        "sandbox denied `../x`: only relative paths without `..` are allowed"
    );
    assert!(validate_relative(UNIX, "x/y").is_ok());
}

// Runs

#[test]
fn names_of_runs_and_steps() {
    assert_eq!(new_run_id(12, 34, 56), "run-12-34-56");
    assert_eq!(idempotency_key("r", 3), "r:3");
    let steps = StepDefinition::sequence(1001);
    assert_eq!(steps[0].id, "step-001");
    assert_eq!(steps[99].id, "step-100");
    assert_eq!(steps[1000].id, "step-1001");
    assert_eq!(steps[1000].index, 1000);
    for status in [RunStatus::Created, RunStatus::Running, RunStatus::Succeeded] {
        assert_eq!(load_status(status.as_str()).expect("status reads"), status);
    }
    assert_eq!(
        load_status("gone").expect_err("unknown").message(),
        "unknown run status `gone`"
    );
    for tool in [Tool::ReadFile, Tool::WriteFile, Tool::ListDir, Tool::RunTests] {
        assert_eq!(Tool::parse(tool.name()), Some(tool));
    }
    assert_eq!(Tool::parse("shell"), None);
    assert_eq!(timestamp(1_700_000_000), 1_700_000_000);
}

#[test]
fn stores_refuse_what_is_wrong() {
    let steps = StepDefinition::sequence(2);
    let mut store = Store::new();
    store.create_run("r", &steps).expect("run creates");
    assert_eq!(
        store.create_run("r", &steps).expect_err("twice").message(),
        "database error: UNIQUE constraint failed: runs.run_id"
    );
    assert!(matches!(store.mark_running("q"), Err(StoreError::RunNotFound(_))));
    assert!(matches!(store.finish_run("q"), Err(StoreError::RunNotFound(_))));
    assert!(matches!(store.load_run("q"), Err(StoreError::RunNotFound(_))));
    assert!(store.load_steps("q").is_empty());
    assert!(store.load_events("q").is_empty());
    assert_eq!(
        store.complete_step("r", 2, "x").expect_err("no such step").message(),
        "run `step 2 in run `r`` was not found"
    );
    assert_eq!(
        store.complete_step("q", 0, "x").expect_err("no such run").message(),
        "run `step 0 in run `q`` was not found"
    );
    assert_eq!(
        store.append_steps("r", &steps).expect_err("same steps").message(),
        "database error: UNIQUE constraint failed: steps.run_id, steps.step_id"
    );
    let renamed = vec![StepDefinition { index: 1, id: "other".to_owned() }];
    assert_eq!(
        store.append_steps("r", &renamed).expect_err("same index").message(),
        "database error: UNIQUE constraint failed: steps.run_id, steps.step_index"
    );
    let twice = vec![
        StepDefinition { index: 0, id: "same".to_owned() },
        StepDefinition { index: 1, id: "same".to_owned() },
    ];
    assert_eq!(
        store.create_run("s", &twice).expect_err("same id").message(),
        "database error: UNIQUE constraint failed: steps.run_id, steps.step_id"
    );
    assert!(store.load_run("s").is_err());
    assert_eq!(StoreError::Io("x".to_owned()).message(), "I/O error: x");
}

#[test]
fn completing_twice_keeps_the_first_output() {
    let mut record = RunRecord::create("r", &StepDefinition::sequence(3)).expect("run creates");
    record.complete_step(1, "first").expect("completes");
    let events = record.events.len();
    record.complete_step(1, "second").expect("completes again");
    assert_eq!(record.events.len(), events);
    assert_eq!(record.step_output(1).as_deref(), Some("first"));
    assert_eq!(record.current_step, 2);
    record.complete_step(0, "late").expect("completes");
    assert_eq!(record.current_step, 2);
    for (position, event) in record.events.iter().enumerate() {
        assert_eq!(event.sequence, position);
    }
}

#[test]
fn results_are_recorded_once() {
    let mut record = RunRecord::create("r", &StepDefinition::sequence(1)).expect("run creates");
    assert_eq!(record.recorded_result("r:0"), None);
    record.record_result("r:0", "first");
    record.record_result("r:0", "second");
    assert_eq!(record.recorded_result("r:0").as_deref(), Some("first"));
    let spec = ToolStepSpec {
        idempotency_key: "r:0".to_owned(),
        workspace_root: "/w".to_owned(),
        tool_name: "read_file".to_owned(),
        path: "a".to_owned(),
        contents: None,
        read_only: true,
        denied_tool: None,
        max_write_bytes: None,
    };
    record.configure_tool_step(0, &spec).expect("step is there");
    assert_eq!(
        record.steps[0].spec.as_ref().map(|spec| spec.path.as_str()),
        Some("a")
    );
    assert!(record.configure_tool_step(5, &spec).is_err());
    record
        .append_steps(&vec![StepDefinition { index: 1, id: "more".to_owned() }])
        .expect("steps are added");
    assert_eq!(record.steps.len(), 2);
    assert_eq!(record.events.last().expect("event").event_type, "run.plan_expanded");
}

// Evidence

#[test]
fn digests_and_strings_are_exact() {
    assert_eq!(
        sha256_hex(b""),
        "e3b0c44298fc1c149afbf4c8996fb92427ae41e4649b934ca495991b7852b855"
    );
    assert_eq!(
        sha256_hex(b"abc"),
        "ba7816bf8f01cfea414140de5dae2223b00361a396177a9cb410ff61f20015ad"
    );
    assert_eq!(
        json_string("a\"b\\c\nd\re\tf\u{1}g\u{7f}h\u{9f}é"),
        "\"a\\\"b\\\\c\\nd\\re\\tf\\u0001g\\u007fh\\u009fé\""
    );
}

#[test]
fn bundles_go_only_to_empty_places() {
    assert_eq!(
        prepare_destination("out", Destination::Absent).expect("absent"),
        Preparation::CreateDirectory
    );
    assert_eq!(
        prepare_destination("out", Destination::Directory(Ok(false))).expect("empty"),
        Preparation::Ready
    );
    assert_eq!(
        prepare_destination("out", Destination::Directory(Ok(true)))
            .expect_err("occupied")
            .message(),
        "audit destination is not empty: out"
    );
    assert!(matches!(
        prepare_destination("out", Destination::Other),
        Err(AuditError::DestinationNotEmpty(_))
    ));
    assert_eq!(
        prepare_destination("out", Destination::Directory(Err("no".to_owned())))
            .expect_err("unreadable")
            .message(),
        "I/O error: no"
    );
}

// Repairs and evaluations

#[test]
fn edits_replace_one_place() {
    assert_eq!(edit("a-b-c", "p", "-b", "+").expect("one place"), "a+-c");
    assert!(edit("aXbX", "p", "X", "Y").is_err());
    assert!(edit("ab", "p", "X", "Y").is_err());
}

fn read(path: &str) -> PlanAction {
    PlanAction::Read { path: path.to_owned() }
}

fn write(path: &str) -> PlanAction {
    PlanAction::Write { path: path.to_owned(), contents: "c".to_owned() }
}

fn check(path: &str) -> PlanAction {
    PlanAction::GateContains { path: path.to_owned(), expected: "e".to_owned() }
}

fn plan(actions: Vec<PlanAction>) -> AgentPlan {
    AgentPlan { version: 1, summary: "s".to_owned(), actions }
}

#[test]
fn repair_plans_have_one_shape() {
    let fix = RepoFixPlan::from_agent_plan(plan(vec![read("a"), write("a"), read("a"), check("a")]))
        .expect("repair");
    assert_eq!(fix.path, "a");
    assert_eq!(fix.contents, "c");
    assert_eq!(fix.expected, "e");
    assert_eq!(fix.summary, "s");
    let refused = |actions| {
        RepoFixPlan::from_agent_plan(plan(actions))
            .expect_err("refused")
            .message()
    };
    assert_eq!(
        refused(vec![read("a")]),
        "repo-fix model plan must contain read, write, read, and gate actions"
    );
    assert_eq!(
        refused(vec![write("a"), write("a"), read("a"), check("a")]),
        "repo-fix model plan has an unsafe or incomplete action sequence"
    );
    assert_eq!(
        refused(vec![read("a"), write("a"), read("b"), check("a")]),
        "repo-fix actions must target one file"
    );
}

fn observed(file: &str, output: &str) -> Result<RepairObservation, String> {
    Ok(RepairObservation {
        result: RepoFixResult { run_id: "r".to_owned(), output: output.to_owned() },
        file: file.to_owned(),
    })
}

#[test]
fn evaluations_are_judged() {
    assert!(judge_repair(observed("status=fixed\n", "status=fixed\n")).is_ok());
    assert!(judge_repair(observed("status=fixed", "status=fixed\n")).is_err());
    assert!(judge_repair(observed("status=fixed\n", "other")).is_err());
    assert_eq!(judge_repair(Err("setup".to_owned())), Err("setup".to_owned()));
    assert!(judge_ambiguous(Ok(Err(ExecutionError::GateFailed("x".to_owned())))).is_ok());
    assert_eq!(
        judge_ambiguous(Ok(Err(ExecutionError::Plan("x".to_owned())))),
        Err("ambiguous edit was accepted".to_owned())
    );
    let ambiguous = || Ok(Err(ExecutionError::GateFailed("x".to_owned())));
    assert!(judge_fix(observed("status=fixed\n", "status=fixed\n"), ambiguous()).is_ok());
    assert!(judge_fix(observed("status=broken\n", "status=fixed\n"), ambiguous()).is_err());
    assert_eq!(
        judge_fix(
            observed("status=fixed\n", "status=fixed\n"),
            Ok(Ok(RepoFixResult { run_id: "r".to_owned(), output: "x".to_owned() }))
        ),
        Err("ambiguous edit was accepted".to_owned())
    );
    let refusal = |outcome: Result<RepoFixResult, ExecutionError>, file: &str| {
        judge_malformed_plan(Ok(RefusalObservation { outcome, file: file.to_owned() }))
    };
    let plan_error = || Err(ExecutionError::Plan("x".to_owned()));
    assert!(refusal(plan_error(), "status=broken\n").is_ok());
    assert_eq!(
        refusal(plan_error(), "status=fixed\n"),
        Err("malformed plan changed the workspace".to_owned())
    );
    assert_eq!(
        refusal(Err(ExecutionError::GateFailed("x".to_owned())), "status=broken\n"),
        Err("malformed plan was accepted".to_owned())
    );
    assert!(judge_traversal(Ok(Err(SandboxError::Io("x".to_owned())))).is_ok());
    assert_eq!(
        judge_traversal(Ok(Ok(ToolOutput::Checked))),
        Err("traversal escaped the workspace policy".to_owned())
    );
    assert_eq!(
        judge_read_only(Ok(Ok(ToolOutput::Wrote(8)))),
        Err("read-only policy allowed a write".to_owned())
    );
    assert!(judge_regression(Ok(GateResult::pass("n", "e"))).is_ok());
    assert_eq!(judge_regression(Ok(GateResult::fail("n", "e"))), Err("e".to_owned()));
    assert!(judge_model_plan(observed("status=fixed\n", "model repaired fixture")).is_ok());
    assert!(judge_model_plan(observed("status=fixed\n", "something else")).is_err());
    let mut report = EvalReport { total: 2, passed: 0, failures: Vec::new() };
    run_case(&mut report, "one", Ok(()));
    run_case(&mut report, "two", Err("why".to_owned()));
    assert_eq!(report.passed, 1);
    assert_eq!(report.failures, vec!["two: why"]);
    assert!(!report.succeeded());
}
