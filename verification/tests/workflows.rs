//! Whole workflows, driven against a workspace that is held in memory.

use agentrt::agent::{repo_fix, repo_fix_with_options, FixOrder, FixStep, RepoFix, RepoFixResult};
use agentrt::audit::export;
use agentrt::eval::{
    run_suite, start_model_case, start_read_only_case, start_regression_case, start_repair_case,
    start_traversal_case, EvalCase, EvalReport, RefusalObservation, RepairObservation,
    SuiteObservations, AMBIGUOUS_FIXTURE, MALFORMED_CASE_RESPONSE, MODEL_CASE_RESPONSE,
};
use agentrt::exec::{execute, execute_llm_step, execute_llm_step_in_run, ExecutionError};
use agentrt::gate::{
    evaluate_all, file_contains, file_exists, resume_gate, GateResult, GateStep,
};
use agentrt::model::{
    complete_with_audit, FakeProvider, Message, ModelError, ModelProvider, ModelRequest,
};
use agentrt::path::PathStyle;
use agentrt::planner::{
    repo_fix_from_model, PlanOrder, Planner, PlannerReply, PlannerStep,
};
use agentrt::run::StepDefinition;
use agentrt::sandbox::{
    FileReply, FileRequest, Policy, SandboxError, Tool, ToolAction, ToolCall, ToolOutput,
    ToolProgress, ToolRouter,
};
use agentrt::session::{
    execute_tool_step_with_pause, resume_run, resume_run_with_pause, Session, SessionReply,
    SessionRequest,
};
use agentrt::store::{EventRecord, RunRecord, Store, ToolStepSpec};
use std::collections::{BTreeMap, BTreeSet};

const STYLE: PathStyle = PathStyle::Unix;

/// A workspace in memory.
struct Host {
    files: BTreeMap<String, String>,
    directories: BTreeSet<String>,
    links: BTreeSet<String>,
    tests_pass: bool,
    log: Vec<String>,
}

impl Host {
    fn new() -> Host {
        let mut directories = BTreeSet::new();
        directories.insert("/".to_owned());
        directories.insert("/work".to_owned());
        Host {
            files: BTreeMap::new(),
            directories,
            links: BTreeSet::new(),
            tests_pass: true,
            log: Vec::new(),
        }
    }

    fn with_file(path: &str, contents: &str) -> Host {
        let mut host = Host::new();
        host.files.insert(path.to_owned(), contents.to_owned());
        host
    }

    fn canonical(&self, path: &str) -> Result<String, String> {
        let mut parts: Vec<&str> = Vec::new();
        for part in path.split('/') {
            match part {
                "" | "." => {}
                ".." => {
                    parts.pop();
                }
                name => parts.push(name),
            }
        }
        let resolved = format!("/{}", parts.join("/"));
        if self.files.contains_key(&resolved) || self.directories.contains(&resolved) {
            Ok(resolved)
        } else {
            Err(format!("no such path: {resolved}"))
        }
    }

    fn serve(&mut self, request: FileRequest) -> FileReply {
        match request {
            FileRequest::Canonicalize(path) => FileReply::Path(self.canonical(&path)),
            FileRequest::CheckLink(path) => FileReply::Link(self.links.contains(&path)),
            FileRequest::ReadText(path) => {
                self.log.push(format!("read {path}"));
                FileReply::Text(
                    self.files
                        .get(&path)
                        .cloned()
                        .ok_or_else(|| format!("cannot read {path}")),
                )
            }
            FileRequest::WriteText { path, contents } => {
                self.log.push(format!("write {path}"));
                self.files.insert(path, contents);
                FileReply::Written(Ok(()))
            }
            FileRequest::ReadDir(path) => {
                self.log.push(format!("list {path}"));
                if !self.directories.contains(&path) {
                    return FileReply::Entries(Err(format!("not a directory: {path}")));
                }
                let prefix = if path == "/" {
                    "/".to_owned()
                } else {
                    format!("{path}/")
                };
                let mut names: Vec<String> = self
                    .files
                    .keys()
                    .chain(self.directories.iter())
                    .filter_map(|entry| entry.strip_prefix(&prefix))
                    .filter(|rest| !rest.is_empty() && !rest.contains('/'))
                    .map(|rest| rest.to_owned())
                    .collect();
                names.reverse();
                FileReply::Entries(Ok(names))
            }
            FileRequest::RunTests(command) => {
                assert_eq!(command.program, "cargo");
                assert_eq!(command.arguments, vec!["test", "--offline"]);
                assert_eq!(command.directory, "/work");
                assert_eq!(command.target_directory, "/work/.agentrt-target");
                assert_eq!(
                    command.removed_variables,
                    vec!["GEMINI_API_KEY", "OPENAI_API_KEY"]
                );
                assert_eq!(command.timeout_ms, 120_000);
                self.log.push("tests".to_owned());
                FileReply::Tests(Ok(self.tests_pass))
            }
        }
    }

    fn open(&self, root: &str) -> SessionReply {
        let canonical = self.canonical(root);
        let is_directory = matches!(&canonical, Ok(path) if self.directories.contains(path));
        SessionReply::Opened {
            canonical,
            is_directory,
        }
    }

    fn answer(&mut self, request: SessionRequest) -> SessionReply {
        match request {
            SessionRequest::Proceed | SessionRequest::Pause(_) => SessionReply::Proceed,
            SessionRequest::Open(root) => self.open(&root),
            SessionRequest::File(request) => SessionReply::File(self.serve(request)),
            SessionRequest::Done(_) => unreachable!(),
        }
    }

    fn file(&self, path: &str) -> &str {
        self.files.get(path).expect("file is there")
    }
}

fn workspace(host: &Host) -> Policy {
    match host.open("/work") {
        SessionReply::Opened {
            canonical,
            is_directory,
        } => Policy::workspace(canonical, is_directory, STYLE).expect("policy creates"),
        _ => unreachable!(),
    }
}

fn read_only(host: &Host) -> Policy {
    match host.open("/work") {
        SessionReply::Opened {
            canonical,
            is_directory,
        } => Policy::read_only(canonical, is_directory, STYLE).expect("policy creates"),
        _ => unreachable!(),
    }
}

fn run_tool(
    host: &mut Host,
    router: &ToolRouter,
    begun: (ToolCall, ToolProgress),
) -> Result<ToolOutput, SandboxError> {
    let (mut call, mut progress) = begun;
    loop {
        match progress {
            ToolProgress::Done(outcome) => return outcome,
            ToolProgress::Ask(request) => {
                let reply = host.serve(request);
                let next = router.resume(call, reply);
                call = next.0;
                progress = next.1;
            }
        }
    }
}

fn run_gate(host: &mut Host, begun: GateStep) -> GateResult {
    let mut step = begun;
    loop {
        match step {
            GateStep::Done(result) => return result,
            GateStep::Ask(check, request) => {
                let reply = host.serve(request);
                step = resume_gate(check, reply);
            }
        }
    }
}

/// Runs a session to its end, or until the pause of a step is asked for.
fn run_session(
    host: &mut Host,
    begun: (Session, SessionRequest),
    stop_at: Option<usize>,
) -> (RunRecord, Option<Result<(), ExecutionError>>) {
    let (mut session, mut request) = begun;
    loop {
        if let SessionRequest::Done(result) = request {
            return (session.record, Some(result));
        }
        if let (SessionRequest::Pause(_), Some(index)) = (&request, stop_at) {
            let recorded = session
                .record
                .events
                .iter()
                .any(|event| event.event_type == "tool.result" && event.step_index == Some(index));
            if recorded {
                return (session.record, None);
            }
        }
        let reply = host.answer(request);
        let next = session.advance(reply);
        session = next.0;
        request = next.1;
    }
}

fn run_fix(host: &mut Host, begun: (RepoFix, FixStep)) -> (RepoFix, Result<RepoFixResult, ExecutionError>) {
    let (mut fix, mut step) = begun;
    loop {
        match step {
            FixStep::Done(result) => return (fix, result),
            FixStep::Ask(request) => {
                let reply = host.answer(request);
                let next = fix.advance(reply);
                fix = next.0;
                step = next.1;
            }
        }
    }
}

fn run_planner<P: ModelProvider>(
    host: &mut Host,
    provider: &P,
    begun: (Planner, PlannerStep),
) -> (Planner, Result<RepoFixResult, ExecutionError>) {
    let (mut planner, mut step) = begun;
    loop {
        match step {
            PlannerStep::Done(result) => return (planner, result),
            PlannerStep::Ask(request) => {
                let reply = host.answer(request);
                let next = planner.advance(PlannerReply::Host(reply));
                planner = next.0;
                step = next.1;
            }
            PlannerStep::Complete => {
                let outcome = provider.complete(&planner.order.request);
                let next = planner.advance(PlannerReply::Completed(outcome));
                planner = next.0;
                step = next.1;
            }
        }
    }
}

fn count(events: &[EventRecord], event_type: &str) -> usize {
    events
        .iter()
        .filter(|event| event.event_type == event_type)
        .count()
}

fn count_at(events: &[EventRecord], event_type: &str, index: usize) -> usize {
    events
        .iter()
        .filter(|event| event.event_type == event_type && event.step_index == Some(index))
        .count()
}

fn has_event(events: &[EventRecord], event_type: &str) -> bool {
    count(events, event_type) > 0
}

fn plan_request(prompt: &str) -> ModelRequest {
    ModelRequest {
        model: "fake-agent-planner".to_owned(),
        messages: vec![Message::user(prompt)],
        temperature: "0.0".to_owned(),
    }
}

fn plan_order(run_id: &str, prompt: &str) -> PlanOrder {
    PlanOrder {
        run_id: run_id.to_owned(),
        workspace: "/work".to_owned(),
        request: plan_request(prompt),
        pause_ms: 0,
        style: STYLE,
    }
}

fn order(run_id: &str, pause_ms: u64) -> FixOrder {
    FixOrder {
        run_id: run_id.to_owned(),
        workspace: "/work".to_owned(),
        path: "fixture.txt".to_owned(),
        find: "status=broken".to_owned(),
        replace: "status=fixed".to_owned(),
        pause_ms,
        style: STYLE,
    }
}

fn spec(run_id: &str, index: usize, tool: &str, path: &str, contents: Option<&str>) -> ToolStepSpec {
    ToolStepSpec {
        idempotency_key: format!("{run_id}:{index}"),
        workspace_root: "/work".to_owned(),
        tool_name: tool.to_owned(),
        path: path.to_owned(),
        contents: contents.map(|text| text.to_owned()),
        read_only: false,
        denied_tool: None,
        max_write_bytes: None,
    }
}

const MODEL_PLAN: &str = r#"{
    "version": 1,
    "summary": "repair fixture from model plan",
    "actions": [
        {"kind": "read", "path": "fixture.txt"},
        {"kind": "write", "path": "fixture.txt", "contents": "status=fixed\n"},
        {"kind": "read", "path": "fixture.txt"},
        {"kind": "gate_contains", "path": "fixture.txt", "expected": "status=fixed"}
    ]
}"#;

// Tools

#[test]
fn legal_filesystem_tools_work_inside_workspace() {
    let mut host = Host::with_file("/work/input.txt", "hello");
    let router = ToolRouter::new(workspace(&host));
    let begun = router.read_file("input.txt");
    match run_tool(&mut host, &router, begun).expect("file reads") {
        ToolOutput::Contents(text) => assert_eq!(text, "hello"),
        other => panic!("unexpected output {other:?}"),
    }
    let begun = router.write_file("output.txt", "safe");
    match run_tool(&mut host, &router, begun).expect("file writes") {
        ToolOutput::Wrote(size) => assert_eq!(size, 4),
        other => panic!("unexpected output {other:?}"),
    }
    let begun = router.list_dir(".");
    match run_tool(&mut host, &router, begun).expect("directory lists") {
        ToolOutput::Entries(names) => assert_eq!(names, vec!["input.txt", "output.txt"]),
        other => panic!("unexpected output {other:?}"),
    }
    assert_eq!(host.file("/work/output.txt"), "safe");
}

#[test]
fn traversal_and_denied_writes_are_blocked() {
    let mut host = Host::with_file("/outside.txt", "must remain");
    let router = ToolRouter::new(read_only(&host));
    let begun = router.read_file("../outside.txt");
    assert!(matches!(
        run_tool(&mut host, &router, begun),
        Err(SandboxError::Denied { .. })
    ));
    let begun = router.write_file("blocked.txt", "nope");
    assert!(matches!(
        run_tool(&mut host, &router, begun),
        Err(SandboxError::Denied { .. })
    ));
    assert_eq!(host.file("/outside.txt"), "must remain");

    let denied_router = ToolRouter::new(workspace(&host).deny_tool(Tool::ReadFile));
    let begun = denied_router.read_file("../outside.txt");
    assert!(matches!(
        run_tool(&mut host, &denied_router, begun),
        Err(SandboxError::Denied { .. })
    ));
    assert!(host.log.is_empty());
}

#[test]
fn links_and_oversized_writes_are_denied() {
    let mut host = Host::new();
    host.links.insert("/work/link.txt".to_owned());
    let router = ToolRouter::new(workspace(&host).with_max_write_bytes(4));
    let begun = router.write_file("link.txt", "x");
    let error = run_tool(&mut host, &router, begun).expect_err("link is denied");
    assert_eq!(
        error.message(),
        "sandbox denied `link.txt`: write target is a symbolic link"
    );
    let begun = router.write_file("big.txt", "12345");
    let error = run_tool(&mut host, &router, begun).expect_err("size is denied");
    assert_eq!(
        error.message(),
        "sandbox denied `big.txt`: write of 5 bytes exceeds the limit of 4 bytes"
    );
    let begun = router.write_file("fits.txt", "1234");
    assert!(run_tool(&mut host, &router, begun).is_ok());
    assert_eq!(host.log, vec!["write /work/fits.txt"]);
}

#[test]
fn resolved_paths_must_stay_inside() {
    let host = Host::new();
    let router = ToolRouter::new(workspace(&host));
    let (call, progress) = router.read_file("inside.txt");
    assert!(matches!(progress, ToolProgress::Ask(FileRequest::Canonicalize(path)) if path == "/work/inside.txt"));
    let (_, progress) = router.resume(call, FileReply::Path(Ok("/elsewhere/inside.txt".to_owned())));
    match progress {
        ToolProgress::Done(Err(error)) => assert_eq!(
            error.message(),
            "sandbox denied `inside.txt`: path escapes workspace root"
        ),
        other => panic!("unexpected progress {other:?}"),
    }
    let (call, _) = router.read_file("inside.txt");
    let (_, progress) = router.resume(call, FileReply::Path(Ok("/workshop/inside.txt".to_owned())));
    assert!(matches!(progress, ToolProgress::Done(Err(SandboxError::Denied { .. }))));
    let (call, _) = router.read_file("inside.txt");
    let (_, progress) = router.resume(call, FileReply::Link(true));
    match progress {
        ToolProgress::Done(Err(error)) => assert_eq!(
            error.message(),
            "sandbox I/O error: the host gave an answer of another kind"
        ),
        other => panic!("unexpected progress {other:?}"),
    }
}

#[test]
fn trials_touch_nothing() {
    let mut host = Host::with_file("/work/a.txt", "text");
    let router = ToolRouter::new(workspace(&host));
    let begun = router.validate_read("a.txt");
    assert!(matches!(run_tool(&mut host, &router, begun), Ok(ToolOutput::Checked)));
    let begun = router.validate_write("b.txt", "new");
    assert!(matches!(run_tool(&mut host, &router, begun), Ok(ToolOutput::Checked)));
    let begun = router.validate_read("missing.txt");
    assert!(matches!(run_tool(&mut host, &router, begun), Err(SandboxError::Io(_))));
    assert!(host.log.is_empty());
}

#[test]
fn writes_need_a_name_and_a_directory() {
    let mut host = Host::new();
    host.directories.insert("/work/sub".to_owned());
    let router = ToolRouter::new(workspace(&host));
    let begun = router.write_file(".", "x");
    let error = run_tool(&mut host, &router, begun).expect_err("no name");
    assert_eq!(
        error.message(),
        "sandbox denied `.`: path escapes workspace root"
    );
    let begun = router.write_file("missing/file.txt", "x");
    assert!(matches!(run_tool(&mut host, &router, begun), Err(SandboxError::Io(_))));
    let begun = router.write_file("sub//./file.txt", "x");
    assert!(run_tool(&mut host, &router, begun).is_ok());
    assert_eq!(host.file("/work/sub/file.txt"), "x");
    let root = ToolRouter::new(Policy::workspace(Ok("/".to_owned()), true, STYLE).expect("root"));
    let begun = root.write_file(".", "x");
    let error = run_tool(&mut host, &root, begun).expect_err("no name at the root");
    assert_eq!(
        error.message(),
        "sandbox denied `/.`: write target must name a file"
    );
}

#[test]
fn tests_of_a_workspace_run_under_bounds() {
    let mut host = Host::new();
    let router = ToolRouter::new(workspace(&host));
    let begun = router.start(ToolAction::RunTests, false);
    assert!(matches!(run_tool(&mut host, &router, begun), Ok(ToolOutput::Tests(true))));
    host.tests_pass = false;
    let begun = router.start(ToolAction::RunTests, false);
    let output = run_tool(&mut host, &router, begun).expect("tests run");
    assert_eq!(output.text(), "tests failed");
    let denied = ToolRouter::new(workspace(&host).deny_tool(Tool::RunTests));
    let begun = denied.start(ToolAction::RunTests, false);
    let error = run_tool(&mut host, &denied, begun).expect_err("tests are denied");
    assert_eq!(
        error.message(),
        "sandbox denied `.`: tool `run_tests` is not allowed"
    );
}

// Gates

#[test]
fn gates_are_deterministic_and_fail_closed() {
    let mut host = Host::with_file("/work/result.txt", "fixed=true\n");
    let begun = file_exists(Ok(read_only(&host)), "result.txt");
    let exists = run_gate(&mut host, begun);
    let begun = file_contains(Ok(read_only(&host)), "result.txt", "fixed=true");
    let contains = run_gate(&mut host, begun);
    let begun = file_contains(Ok(read_only(&host)), "result.txt", "fixed=false");
    let broken = run_gate(&mut host, begun);
    assert!(exists.passed);
    assert!(contains.passed);
    assert!(!broken.passed);
    assert_eq!(
        exists.message(),
        "PASS file_exists:result.txt: path exists and is a file"
    );
    assert_eq!(
        contains.message(),
        "PASS file_contains:result.txt: found expected text `fixed=true`"
    );
    assert_eq!(
        broken.message(),
        "FAIL file_contains:result.txt: expected text `fixed=false` was absent"
    );
    assert!(evaluate_all(&vec![exists, contains]));
    assert!(!evaluate_all(&vec![broken]));
}

#[test]
fn gates_fail_on_errors() {
    let mut host = Host::new();
    let begun = file_exists(Ok(read_only(&host)), ".");
    let directory = run_gate(&mut host, begun);
    assert_eq!(
        directory.message(),
        "PASS file_exists:.: path exists and is a directory"
    );
    let begun = file_exists(Ok(read_only(&host)), "missing.txt");
    let missing = run_gate(&mut host, begun);
    assert!(!missing.passed);
    assert_eq!(
        missing.evidence,
        "sandbox I/O error: no such path: /work/missing.txt"
    );
    let begun = file_contains(
        Err(SandboxError::InvalidRoot("/nowhere".to_owned())),
        "a.txt",
        "x",
    );
    let closed = run_gate(&mut host, begun);
    assert_eq!(
        closed.message(),
        "FAIL file_contains:a.txt: workspace root is invalid: /nowhere"
    );
    assert!(evaluate_all(&Vec::new()));
}

// Deterministic steps

#[test]
fn crash_resume_skips_completed_steps() {
    let definitions = StepDefinition::sequence(4);
    let mut store = Store::new();
    store
        .create_run("run-1", &definitions)
        .expect("run creates");
    let result = execute(&mut store, "run-1", &definitions, Some(2));
    assert!(matches!(
        result,
        Err(ExecutionError::SimulatedCrash { completed: 2, .. })
    ));
    let run = store.load_run("run-1").expect("run loads");
    assert_eq!(run.current_step, 2);
    assert_eq!(run.status.as_str(), "running");

    execute(&mut store, "run-1", &definitions, None).expect("run resumes");
    let run = store.load_run("run-1").expect("run loads after resume");
    assert_eq!(run.current_step, 4);
    assert_eq!(run.status.as_str(), "succeeded");
    let steps = store.load_steps("run-1");
    assert!(steps.iter().all(|step| step.completed));
    assert!(steps.iter().all(|step| step.output.is_some()));
    assert_eq!(steps[3].output.as_deref(), Some("completed step-004"));
    let events = store.load_events("run-1");
    assert_eq!(count(&events, "step.completed"), 4);
    assert_eq!(count(&events, "checkpoint.saved"), 4);
}

#[test]
fn many_crashes_come_to_the_same_as_none() {
    let definitions = StepDefinition::sequence(5);
    let mut straight = Store::new();
    straight.create_run("run-m", &definitions).expect("run creates");
    execute(&mut straight, "run-m", &definitions, None).expect("run succeeds");
    let mut store = Store::new();
    store.create_run("run-m", &definitions).expect("run creates");
    for crash_after in [Some(1), Some(2), Some(1), Some(9), Some(0)] {
        let _ = execute(&mut store, "run-m", &definitions, crash_after);
    }
    execute(&mut store, "run-m", &definitions, None).expect("run succeeds");
    let run = store.load_run("run-m").expect("run loads");
    assert_eq!(run.status.as_str(), "succeeded");
    assert_eq!(run.current_step, 5);
    let outputs = |store: &Store| {
        store
            .load_steps("run-m")
            .into_iter()
            .map(|step| (step.id, step.completed, step.output))
            .collect::<Vec<_>>()
    };
    assert_eq!(outputs(&store), outputs(&straight));
    assert_eq!(count(&store.load_events("run-m"), "step.completed"), 5);
}

#[test]
fn runs_end_as_far_as_they_have_steps() {
    let definitions = |indices: [usize; 4]| {
        indices
            .into_iter()
            .map(|index| StepDefinition { index, id: format!("part-{index}") })
            .collect::<Vec<_>>()
    };
    let ends_at = |definitions: &Vec<StepDefinition>| {
        let mut store = Store::new();
        store.create_run("run-o", definitions).expect("run creates");
        for crash_after in [Some(2), Some(1)] {
            execute(&mut store, "run-o", definitions, crash_after).expect_err("crash");
        }
        execute(&mut store, "run-o", definitions, None).expect("run succeeds");
        store.load_run("run-o").expect("run loads").current_step
    };
    assert_eq!(ends_at(&definitions([2, 0, 3, 1])), 4);
    assert_eq!(ends_at(&definitions([2, 0, 9, 1])), 10);
}

#[test]
fn executions_need_only_the_steps_they_come_to() {
    let mut definitions = StepDefinition::sequence(2);
    let mut store = Store::new();
    store.create_run("run-c", &definitions).expect("run creates");
    definitions.push(StepDefinition { index: 7, id: "nowhere".to_owned() });
    let error = execute(&mut store, "run-c", &definitions, Some(2)).expect_err("crash");
    assert!(matches!(error, ExecutionError::SimulatedCrash { completed: 2, .. }));
    assert_eq!(store.load_run("run-c").expect("run loads").current_step, 2);
}

#[test]
fn writes_are_read_back() {
    let mut host = Host::with_file("/work/note.txt", "a much longer text that was there before");
    host.files.insert("/work/other.txt".to_owned(), "other".to_owned());
    let router = ToolRouter::new(workspace(&host));
    let begun = router.write_file("note.txt", "short");
    assert!(matches!(run_tool(&mut host, &router, begun), Ok(ToolOutput::Wrote(5))));
    let begun = router.read_file("note.txt");
    match run_tool(&mut host, &router, begun) {
        Ok(ToolOutput::Contents(text)) => assert_eq!(text, "short"),
        other => panic!("{other:?}"),
    }
    assert_eq!(host.file("/work/note.txt"), "short");
    assert_eq!(host.file("/work/other.txt"), "other");
}

#[test]
fn plain_steps_are_taken_up_anywhere() {
    let definitions = StepDefinition::sequence(3);
    let mut record = RunRecord::create("run-p", &definitions).expect("run creates");
    record.complete_step(1, "before").expect("step completes");
    let session = resume_run(record, STYLE);
    let (record, end) = run_session(&mut Host::new(), (session, SessionRequest::Proceed), None);
    assert!(matches!(end, Some(Ok(()))));
    assert_eq!(record.status.as_str(), "succeeded");
    assert_eq!(record.step_output(0).as_deref(), Some("completed step-001"));
    assert_eq!(record.step_output(1).as_deref(), Some("before"));
    assert_eq!(record.step_output(2).as_deref(), Some("completed step-003"));
}

#[test]
fn executions_name_their_errors() {
    let definitions = StepDefinition::sequence(2);
    let mut store = Store::new();
    let error = execute(&mut store, "nobody", &definitions, None).expect_err("run is missing");
    assert_eq!(error.message(), "run `nobody` was not found");
    store.create_run("run-2", &definitions).expect("run creates");
    let error = execute(&mut store, "run-2", &definitions, Some(1)).expect_err("crash");
    assert_eq!(
        error.message(),
        "simulated process crash after 1 completed step(s) in run `run-2`"
    );
    execute(&mut store, "run-2", &definitions, Some(5)).expect("too few steps to crash");
}

#[test]
fn export_contains_reconstructable_files_and_hashes() {
    let definitions = StepDefinition::sequence(2);
    let mut store = Store::new();
    store
        .create_run("run-77", &definitions)
        .expect("run creates");
    execute(&mut store, "run-77", &definitions, None).expect("run succeeds");
    let files = export(&store, "run-77").expect("bundle exports");
    assert_eq!(files.len(), 3);
    assert_eq!(files[0].name, "run.json");
    assert_eq!(files[1].name, "events.jsonl");
    assert_eq!(files[2].name, "MANIFEST");
    assert!(files[0].contents.contains("run-77"));
    assert_eq!(files[1].contents.lines().count(), 7);
    assert!(files[2].contents.contains("  run.json\n"));
    assert!(files[2].contents.contains("  events.jsonl\n"));
    assert_eq!(
        files[0].contents,
        "{\n  \"run_id\": \"run-77\",\n  \"status\": \"succeeded\",\n  \"current_step\": 2,\n  \"total_steps\": 2\n}\n"
    );
    assert_eq!(
        files[1].contents.lines().nth(3),
        Some("{\"sequence\":3,\"type\":\"checkpoint.saved\",\"step_index\":0,\"payload\":\"idempotency_key=run-77:0\"}")
    );
    assert!(export(&store, "run-78").is_err());
}

// Model steps

#[test]
fn fake_provider_is_deterministic_and_audited() {
    let definitions = StepDefinition::sequence(1);
    let mut store = Store::new();
    store.create_run("run-3", &definitions).expect("run creates");
    store.mark_running("run-3").expect("run starts");
    let request = ModelRequest {
        model: "fake-model".to_owned(),
        messages: vec![Message::user("hello")],
        temperature: "0.0".to_owned(),
    };
    let provider = FakeProvider::new("stable response");
    let first = complete_with_audit(&mut store, "run-3", 0, &provider, &request)
        .expect("first completion");
    let second = complete_with_audit(&mut store, "run-3", 0, &provider, &request)
        .expect("second completion");
    assert_eq!(first.text, "stable response");
    assert_eq!(first.text, second.text);
    let events = store.load_events("run-3");
    assert_eq!(count(&events, "llm.request"), 2);
    assert_eq!(count(&events, "llm.response"), 2);
    let asked = events
        .iter()
        .find(|event| event.event_type == "llm.request")
        .expect("request is recorded");
    assert_eq!(
        asked.payload,
        "request={\"messages\":[{\"content\":\"hello\",\"role\":\"user\"}],\"model\":\"fake-model\",\"temperature\":0.0}"
    );
    let answered = events
        .iter()
        .find(|event| event.event_type == "llm.response")
        .expect("response is recorded");
    assert_eq!(
        answered.payload,
        format!(
            "request_id=fake-provider text_sha256={}",
            agentrt::audit::sha256_hex(b"stable response")
        )
    );
    assert!(matches!(
        complete_with_audit(&mut store, "run-4", 0, &provider, &request),
        Err(ModelError::Audit(_))
    ));
}

struct FailingProvider;

impl ModelProvider for FailingProvider {
    fn complete(
        &self,
        _request: &ModelRequest,
    ) -> Result<agentrt::model::ModelResponse, ModelError> {
        Err(ModelError::Http("token=abc went away".to_owned()))
    }
}

#[test]
fn model_steps_complete_or_record_their_error() {
    let definitions = StepDefinition::sequence(1);
    let mut record = RunRecord::create("run-5", &definitions).expect("run creates");
    let request = plan_request("say something");
    let output = execute_llm_step(
        &mut record,
        &definitions[0],
        &FakeProvider::new("an answer"),
        &request,
    )
    .expect("model answers");
    assert_eq!(output, "an answer");
    assert_eq!(record.status.as_str(), "succeeded");
    assert_eq!(record.step_output(0).as_deref(), Some("an answer"));
    let again = execute_llm_step(&mut record, &definitions[0], &FailingProvider, &request)
        .expect("a step that is done is not asked again");
    assert_eq!(again, "an answer");

    let mut record = RunRecord::create("run-5b", &definitions).expect("run creates");
    let output = execute_llm_step_in_run(
        &mut record,
        &definitions[0],
        &FakeProvider::new("an answer"),
        &request,
    )
    .expect("model answers");
    assert_eq!(output, "an answer");
    assert_eq!(record.status.as_str(), "running");

    let mut record = RunRecord::create("run-6", &definitions).expect("run creates");
    let error = execute_llm_step(&mut record, &definitions[0], &FailingProvider, &request)
        .expect_err("provider fails");
    assert_eq!(error.message(), "model HTTP error: token=abc went away");
    let last = record.events.last().expect("error is recorded");
    assert_eq!(last.event_type, "llm.error");
    assert_eq!(
        last.payload,
        "model HTTP error: token=[REDACTED]abc went away"
    );
    assert_eq!(record.step_output(0), None);
}

// Repairs

#[test]
fn repo_fix_persists_read_write_verify_and_gate_steps() {
    let mut host = Host::with_file("/work/fixture.txt", "status=broken\n");
    let begun = repo_fix(
        "run-fix",
        "/work",
        "fixture.txt",
        "status=broken",
        "status=fixed",
        STYLE,
    );
    let (fix, result) = run_fix(&mut host, begun);
    let result = result.expect("repo fix succeeds");
    assert_eq!(result.run_id, "run-fix");
    assert_eq!(result.output, "status=fixed\n");
    assert_eq!(host.file("/work/fixture.txt"), "status=fixed\n");
    let record = fix.record().expect("run is there");
    assert_eq!(record.status.as_str(), "succeeded");
    assert_eq!(record.current_step, 4);
    assert!(record.steps.iter().all(|step| step.completed));
    assert!(has_event(&record.events, "agent.created"));
    assert_eq!(count(&record.events, "tool.invoked"), 3);
    assert!(has_event(&record.events, "gate.evaluated"));
    assert!(has_event(&record.events, "run.finished"));
    assert_eq!(
        host.log,
        vec![
            "read /work/fixture.txt",
            "read /work/fixture.txt",
            "write /work/fixture.txt",
            "read /work/fixture.txt",
            "read /work/fixture.txt"
        ]
    );
}

#[test]
fn repairs_refuse_what_is_unclear() {
    let mut host = Host::with_file("/work/fixture.txt", "a a");
    let begun = repo_fix("r", "/work", "fixture.txt", "", "b", STYLE);
    let (_, result) = run_fix(&mut host, begun);
    assert_eq!(
        result.expect_err("empty search").message(),
        "repo-fix requires non-empty search text"
    );
    let begun = repo_fix("r", "/work", "fixture.txt", "a", "b", STYLE);
    let (fix, result) = run_fix(&mut host, begun);
    assert_eq!(
        result.expect_err("two places").message(),
        "repo-fix expected exactly one match in `fixture.txt`"
    );
    assert!(fix.record().is_none());
    let begun = repo_fix("r", "/work", "fixture.txt", "z", "b", STYLE);
    let (_, result) = run_fix(&mut host, begun);
    assert!(matches!(result, Err(ExecutionError::GateFailed(_))));
    let begun = repo_fix("r", "/nowhere", "fixture.txt", "a", "b", STYLE);
    let (_, result) = run_fix(&mut host, begun);
    assert!(matches!(
        result,
        Err(ExecutionError::Sandbox(SandboxError::Io(_)))
    ));
    let begun = repo_fix("r", "/work/fixture.txt", "fixture.txt", "a", "b", STYLE);
    let (_, result) = run_fix(&mut host, begun);
    assert!(matches!(
        result,
        Err(ExecutionError::Sandbox(SandboxError::InvalidRoot(_)))
    ));
    assert_eq!(host.file("/work/fixture.txt"), "a a");
}

#[test]
fn model_plan_drives_audited_durable_workflow() {
    let mut host = Host::with_file("/work/fixture.txt", "status=broken\n");
    let provider = FakeProvider::new(MODEL_PLAN);
    let begun = repo_fix_from_model(plan_order("run-plan", "repair the fixture"));
    let (planner, result) = run_planner(&mut host, &provider, begun);
    let result = result.expect("model workflow succeeds");
    assert_eq!(result.output, "repair fixture from model plan");
    assert_eq!(host.file("/work/fixture.txt"), "status=fixed\n");
    let record = planner.record().expect("run is there");
    assert_eq!(record.status.as_str(), "succeeded");
    assert_eq!(record.current_step, 5);
    let events = &record.events;
    assert!(has_event(events, "llm.request"));
    assert!(has_event(events, "llm.response"));
    assert!(has_event(events, "agent.plan"));
    assert!(has_event(events, "agent.plan_validated"));
    assert!(has_event(events, "run.plan_expanded"));
    assert!(has_event(events, "gate.evaluated"));
    let validated = events
        .iter()
        .find(|event| event.event_type == "agent.plan_validated")
        .expect("plan is validated");
    assert_eq!(
        validated.payload,
        "tools=read_file,write_file,read_file,gate_contains path=fixture.txt"
    );
}

#[test]
fn malformed_model_plan_is_rejected_and_audited() {
    let mut host = Host::with_file("/work/fixture.txt", "status=broken\n");
    let provider = FakeProvider::new("not-json");
    let begun = repo_fix_from_model(plan_order("model-reject-1", "repair the fixture"));
    let (planner, result) = run_planner(&mut host, &provider, begun);
    assert!(matches!(result, Err(ExecutionError::Plan(_))));
    assert_eq!(host.file("/work/fixture.txt"), "status=broken\n");
    let record = planner.record().expect("run is there");
    assert!(has_event(&record.events, "agent.plan_rejected"));
    assert!(host.log.is_empty());
}

#[test]
fn plans_outside_the_policy_are_rejected() {
    let mut host = Host::with_file("/work/fixture.txt", "status=broken\n");
    host.links.insert("/work/fixture.txt".to_owned());
    let provider = FakeProvider::new(MODEL_PLAN);
    let begun = repo_fix_from_model(plan_order("model-reject-2", "repair"));
    let (planner, result) = run_planner(&mut host, &provider, begun);
    assert!(matches!(
        result,
        Err(ExecutionError::Sandbox(SandboxError::Denied { .. }))
    ));
    let record = planner.record().expect("run is there");
    let last = record.events.last().expect("an event");
    assert_eq!(last.event_type, "agent.plan_rejected");
    assert_eq!(
        last.payload,
        "sandbox denied `fixture.txt`: write target is a symbolic link"
    );
    assert!(host.log.is_empty());

    let begun = repo_fix_from_model(plan_order("model-fail", "repair"));
    let (planner, result) = run_planner(&mut host, &FailingProvider, begun);
    assert!(matches!(result, Err(ExecutionError::Model(_))));
    assert!(has_event(
        &planner.record().expect("run is there").events,
        "llm.error"
    ));

    let short = r#"{"version": 1, "summary": "s", "actions": [{"kind": "read", "path": "a"}]}"#;
    let begun = repo_fix_from_model(plan_order("model-short", "repair"));
    let (_, result) = run_planner(&mut host, &FakeProvider::new(short), begun);
    assert_eq!(
        result.expect_err("one action is not enough").message(),
        "repo-fix model plan must contain read, write, read, and gate actions"
    );
}

// Recovery

#[test]
fn killed_tool_process_resumes_from_persisted_spec() {
    let mut host = Host::new();
    let mut record =
        RunRecord::create("run-kill", &StepDefinition::sequence(1)).expect("run creates");
    record
        .configure_tool_step(0, &spec("run-kill", 0, "write_file", "output.txt", Some("durable")))
        .expect("step is configured");
    let router = ToolRouter::new(workspace(&host));
    let begun = execute_tool_step_with_pause(
        record,
        0,
        router,
        ToolAction::WriteFile {
            path: "output.txt".to_owned(),
            contents: "durable".to_owned(),
        },
        3000,
    );
    let (kept, end) = run_session(&mut host, begun, Some(0));
    assert!(end.is_none(), "the process is killed in the pause");

    let session = resume_run(kept, STYLE);
    let (record, end) = run_session(&mut host, (session, SessionRequest::Proceed), None);
    assert!(matches!(end, Some(Ok(()))));
    assert_eq!(record.status.as_str(), "succeeded");
    assert_eq!(count(&record.events, "tool.invoked"), 1);
    assert_eq!(count(&record.events, "tool.deduplicated"), 1);
    assert_eq!(count(&record.events, "checkpoint.saved"), 1);
    assert_eq!(host.file("/work/output.txt"), "durable");
    assert_eq!(host.log, vec!["write /work/output.txt"]);
    assert_eq!(record.step_output(0).as_deref(), Some("wrote 7 bytes"));
}

#[test]
fn killed_reference_agent_resumes_at_each_tool_checkpoint() {
    for checkpoint in 0..3 {
        let mut host = Host::with_file("/work/fixture.txt", "status=broken\n");
        let run_id = format!("agent-recovery-{checkpoint}");
        let (mut fix, mut step) = repo_fix_with_options(order(&run_id, 3000));
        let kept = loop {
            let request = match step {
                FixStep::Ask(request) => request,
                FixStep::Done(result) => panic!("ended before the kill: {result:?}"),
            };
            if let (SessionRequest::Pause(time), Some(record)) = (&request, fix.record()) {
                assert_eq!(*time, 3000);
                if count_at(&record.events, "tool.result", checkpoint) > 0 {
                    break record.clone();
                }
            }
            let reply = host.answer(request);
            let next = fix.advance(reply);
            fix = next.0;
            step = next.1;
        };

        let session = resume_run(kept, STYLE);
        let (record, end) = run_session(&mut host, (session, SessionRequest::Proceed), None);
        assert!(matches!(end, Some(Ok(()))));
        assert_eq!(record.status.as_str(), "succeeded");
        assert_eq!(count(&record.events, "tool.invoked"), 3, "checkpoint={checkpoint}");
        assert_eq!(
            count_at(&record.events, "tool.deduplicated", checkpoint),
            1,
            "checkpoint={checkpoint}"
        );
        assert_eq!(
            count(&record.events, "checkpoint.saved"),
            4,
            "checkpoint={checkpoint}"
        );
        assert_eq!(
            host.file("/work/fixture.txt"),
            "status=fixed\n",
            "checkpoint={checkpoint}"
        );
        assert!(has_event(&record.events, "gate.evaluated"));
        assert_eq!(
            host.log.iter().filter(|line| line.starts_with("write")).count(),
            1
        );
    }
}

#[test]
fn repairs_killed_at_every_turn_succeed() {
    for turns in 0..21 {
        for told in [true, false] {
            let mut host = Host::with_file("/work/fixture.txt", "status=broken\n");
            let (mut fix, mut step) = repo_fix_with_options(order("killed", 0));
            let mut left: usize = turns;
            let kept = loop {
                let request = match step {
                    FixStep::Ask(request) => request,
                    FixStep::Done(result) => panic!("ended before the kill: {result:?}"),
                };
                if let Some(record) = fix.record() {
                    if left == 0 {
                        let record = record.clone();
                        if !told {
                            let _ = host.answer(request);
                        }
                        break record;
                    }
                    left -= 1;
                }
                let reply = host.answer(request);
                let next = fix.advance(reply);
                fix = next.0;
                step = next.1;
            };
            let session = resume_run(kept, STYLE);
            let (record, end) = run_session(&mut host, (session, SessionRequest::Proceed), None);
            assert!(matches!(end, Some(Ok(()))), "turns={turns}");
            assert_eq!(record.status.as_str(), "succeeded");
            assert!(record.steps.iter().all(|step| step.completed));
            assert_eq!(host.file("/work/fixture.txt"), "status=fixed\n");
        }
    }
}

#[test]
fn failing_steps_are_recorded_and_stop_the_run() {
    let definitions = StepDefinition::sequence(1);
    let mut denied = spec("run-stop", 0, "write_file", "a.txt", Some("x"));
    denied.read_only = true;
    let mut host = Host::with_file("/work/a.txt", "old");
    let mut record = RunRecord::create("run-stop", &definitions).expect("run creates");
    record.configure_tool_step(0, &denied).expect("configured");
    let session = resume_run_with_pause(record, 0, STYLE);
    let (record, end) = run_session(&mut host, (session, SessionRequest::Proceed), None);
    assert!(matches!(
        end,
        Some(Err(ExecutionError::Sandbox(SandboxError::Denied { .. })))
    ));
    assert_eq!(record.events.last().expect("an event").event_type, "sandbox.denied");
    assert_eq!(record.status.as_str(), "running");

    let mut record = RunRecord::create("run-io", &definitions).expect("run creates");
    record
        .configure_tool_step(0, &spec("run-io", 0, "read_file", "missing.txt", None))
        .expect("configured");
    let session = resume_run(record, STYLE);
    let (record, end) = run_session(&mut host, (session, SessionRequest::Proceed), None);
    assert!(matches!(end, Some(Err(ExecutionError::Sandbox(SandboxError::Io(_))))));
    assert_eq!(record.events.last().expect("an event").event_type, "tool.error");

    let mut record = RunRecord::create("run-gate", &definitions).expect("run creates");
    record
        .configure_tool_step(0, &spec("run-gate", 0, "gate_contains", "a.txt", Some("new")))
        .expect("configured");
    let session = resume_run(record, STYLE);
    let (record, end) = run_session(&mut host, (session, SessionRequest::Proceed), None);
    assert!(matches!(end, Some(Err(ExecutionError::GateFailed(_)))));
    assert_eq!(record.events.last().expect("an event").event_type, "gate.evaluated");

    let mut record = RunRecord::create("run-odd", &definitions).expect("run creates");
    record
        .configure_tool_step(0, &spec("run-odd", 0, "shell", "a.txt", None))
        .expect("configured");
    let session = resume_run(record, STYLE);
    let (_, end) = run_session(&mut host, (session, SessionRequest::Proceed), None);
    match end {
        Some(Err(error)) => assert_eq!(error.message(), "unknown tool `shell`"),
        other => panic!("unexpected end {other:?}"),
    }
}

#[test]
fn denied_tools_are_denied_again_after_a_crash() {
    let mut denied = spec("run-deny", 0, "list_dir", ".", None);
    denied.denied_tool = Some("list_dir".to_owned());
    let mut host = Host::new();
    let mut record =
        RunRecord::create("run-deny", &StepDefinition::sequence(1)).expect("run creates");
    record.configure_tool_step(0, &denied).expect("configured");
    for _ in 0..2 {
        let session = resume_run(record, STYLE);
        let (kept, end) = run_session(&mut host, (session, SessionRequest::Proceed), None);
        match end {
            Some(Err(error)) => assert_eq!(
                error.message(),
                "sandbox denied `.`: tool `list_dir` is not allowed"
            ),
            other => panic!("unexpected end {other:?}"),
        }
        record = kept;
    }
    assert_eq!(count(&record.events, "sandbox.denied"), 2);
    assert!(host.log.is_empty());
}

#[test]
fn write_limits_hold_after_a_crash() {
    let mut limited = spec("run-limit", 0, "write_file", "big.txt", Some("12345"));
    limited.max_write_bytes = Some(4);
    let mut host = Host::new();
    let mut record =
        RunRecord::create("run-limit", &StepDefinition::sequence(1)).expect("run creates");
    record.configure_tool_step(0, &limited).expect("configured");
    for _ in 0..2 {
        let session = resume_run(record, STYLE);
        let (kept, end) = run_session(&mut host, (session, SessionRequest::Proceed), None);
        match end {
            Some(Err(error)) => assert_eq!(
                error.message(),
                "sandbox denied `big.txt`: write of 5 bytes exceeds the limit of 4 bytes"
            ),
            other => panic!("unexpected end {other:?}"),
        }
        record = kept;
    }
    assert!(host.log.is_empty());
}

#[test]
fn listing_steps_keep_sorted_names() {
    let mut host = Host::with_file("/work/b.txt", "2");
    host.files.insert("/work/a.txt".to_owned(), "1".to_owned());
    let mut record =
        RunRecord::create("run-list", &StepDefinition::sequence(2)).expect("run creates");
    record
        .configure_tool_step(0, &spec("run-list", 0, "list_dir", ".", None))
        .expect("configured");
    let session = resume_run(record, STYLE);
    let (record, end) = run_session(&mut host, (session, SessionRequest::Proceed), None);
    assert!(matches!(end, Some(Ok(()))));
    assert_eq!(record.step_output(0).as_deref(), Some("a.txt\nb.txt"));
    assert_eq!(record.step_output(1).as_deref(), Some("completed step-002"));
}

// Evaluations

fn observe(break_regression: bool) -> EvalReport {
    let mut host = Host::with_file("/work/input.txt", EvalCase::RepoFix.fixture());
    let begun = start_repair_case("eval-1", "/work", STYLE);
    let (_, result) = run_fix(&mut host, begun);
    let repo_fix = match result {
        Ok(result) => Ok(RepairObservation {
            result,
            file: host.file("/work/input.txt").to_owned(),
        }),
        Err(error) => Err(error.message()),
    };

    let mut host = Host::with_file("/work/input.txt", AMBIGUOUS_FIXTURE);
    let begun = start_repair_case("eval-2", "/work", STYLE);
    let ambiguous = Ok(run_fix(&mut host, begun).1);

    let mut host = Host::with_file("/work/input.txt", EvalCase::MalformedPlan.fixture());
    let begun = start_model_case("eval-5", "/work", STYLE);
    let provider = FakeProvider::new(MALFORMED_CASE_RESPONSE);
    let outcome = run_planner(&mut host, &provider, begun).1;
    let malformed_plan = Ok(RefusalObservation {
        outcome,
        file: host.file("/work/input.txt").to_owned(),
    });

    let mut host = Host::with_file("/work/input.txt", EvalCase::Traversal.fixture());
    let router = ToolRouter::new(workspace(&host));
    let begun = start_traversal_case(&router);
    let traversal = Ok(run_tool(&mut host, &router, begun));

    let mut host = Host::with_file("/work/input.txt", EvalCase::ReadOnly.fixture());
    let router = ToolRouter::new(read_only(&host));
    let begun = start_read_only_case(&router);
    let read_only_outcome = Ok(run_tool(&mut host, &router, begun));

    let mut host = Host::with_file("/work/input.txt", EvalCase::Regression.fixture());
    let begun = start_regression_case(Ok(read_only(&host)), break_regression);
    let regression = Ok(run_gate(&mut host, begun));

    let mut host = Host::with_file("/work/input.txt", EvalCase::ModelPlan.fixture());
    let begun = start_model_case("eval-6", "/work", STYLE);
    let provider = FakeProvider::new(MODEL_CASE_RESPONSE);
    let (_, result) = run_planner(&mut host, &provider, begun);
    let model_plan = match result {
        Ok(result) => Ok(RepairObservation {
            result,
            file: host.file("/work/input.txt").to_owned(),
        }),
        Err(error) => Err(error.message()),
    };

    run_suite(SuiteObservations {
        repo_fix,
        ambiguous,
        malformed_plan,
        traversal,
        read_only: read_only_outcome,
        regression,
        model_plan,
    })
}

#[test]
fn default_eval_suite_passes() {
    let report = observe(false);
    assert!(report.succeeded(), "{}", report.message());
    assert_eq!(report.total, 6);
    assert_eq!(report.message(), "evals=6/6 passed\n");
}

#[test]
fn intentional_regression_fails_the_suite() {
    let report = observe(true);
    assert!(!report.succeeded());
    assert_eq!(report.passed, 5);
    assert_eq!(
        report.message(),
        "evals=5/6 passed\nFAIL gate detects the intentional regression: expected text `status=broken` was absent\n"
    );
}
