//! The command line and what the program prints.

use agentrt::cli::{
    parse_agent_command, parse_command, parse_eval_command, parse_gate_command,
    parse_model_command, parse_options, parse_positive, required_run_id, required_value,
    AgentCommand, Command, AGENT_USAGE, DEFAULT_PLANNER, EVAL_USAGE, GATE_USAGE, MODEL_USAGE,
    RUN_USAGE, TOOL_USAGE, VERSION,
};
use agentrt::eval::EvalReport;
use agentrt::exec::ExecutionError;
use agentrt::gate::{GateResult, GateStep};
use agentrt::path::PathStyle;
use agentrt::report::{
    begin_gate, report_evaluation, report_execution, report_failure, report_gates, report_misuse,
    report_output, report_planned_repair, report_repair, report_status, report_success,
    report_trail, EXIT_CRASH, EXIT_FAILURE, EXIT_SUCCESS, EXIT_USAGE,
};
use agentrt::run::StepDefinition;
use agentrt::sandbox::{SandboxError, Tool, ToolAction, ToolProgress, ToolRouter};
use agentrt::settings::find_setting;
use agentrt::store::{RunRecord, StoreError};
use agentrt::tool_command::{parse_tool_command, ToolCommand};

fn words(line: &str) -> Vec<String> {
    line.split_whitespace().map(|word| word.to_owned()).collect()
}

#[test]
fn package_version_is_available_at_compile_time() {
    assert!(!VERSION.is_empty());
}

#[test]
fn commands_are_told_apart() {
    assert!(matches!(parse_command(&words("")), Command::Help));
    for line in ["help", "--help", "-h", "help me"] {
        assert!(matches!(parse_command(&words(line)), Command::Help), "{line}");
    }
    for line in ["version", "--version", "-V"] {
        assert!(matches!(parse_command(&words(line)), Command::Version), "{line}");
    }
    assert!(matches!(parse_command(&words("version now")), Command::VersionArguments));
    assert!(matches!(parse_command(&words("run --steps 3")), Command::Run));
    assert!(matches!(parse_command(&words("resume")), Command::Resume));
    assert!(matches!(parse_command(&words("status")), Command::Status));
    assert!(matches!(parse_command(&words("audit")), Command::Audit));
    assert!(matches!(parse_command(&words("tool")), Command::Tool));
    assert!(matches!(parse_command(&words("model")), Command::Model));
    assert!(matches!(parse_command(&words("gate")), Command::Gate));
    assert!(matches!(parse_command(&words("agent")), Command::Agent));
    assert!(matches!(parse_command(&words("eval")), Command::Eval));
    assert!(matches!(parse_command(&words("fly")), Command::Unknown(word) if word == "fly"));
}

#[test]
fn options_of_runs_are_read() {
    let options = parse_options(&words(""), true, false).expect("defaults");
    assert_eq!(options.store, ".agentrt/state.db");
    assert_eq!(options.run_id, None);
    assert_eq!(options.steps, 4);
    assert_eq!(options.crash_after, None);
    assert_eq!(options.export, None);
    let options = parse_options(
        &words("--steps 7 --store a.db --crash-after +2 --run-id r --store b.db"),
        true,
        false,
    )
    .expect("settings");
    assert_eq!(options.store, "b.db");
    assert_eq!(options.run_id.as_deref(), Some("r"));
    assert_eq!(options.steps, 7);
    assert_eq!(options.crash_after, Some(2));
    let options = parse_options(&words("--export out"), false, true).expect("settings");
    assert_eq!(options.export.as_deref(), Some("out"));
}

#[test]
fn options_of_runs_are_refused() {
    let refused = |line: &str| parse_options(&words(line), true, false).expect_err("refused");
    assert_eq!(refused("--store"), "--store requires a value");
    assert_eq!(refused("--store --run-id"), "--store requires a value");
    assert_eq!(refused("--steps 0"), "--steps expects a positive integer");
    assert_eq!(refused("--steps x"), "--steps expects a positive integer");
    assert_eq!(
        refused("--crash-after 99999999999999999999999"),
        "--crash-after expects a positive integer"
    );
    assert_eq!(refused("-h"), RUN_USAGE);
    assert_eq!(
        refused("--export out"),
        format!("unknown option `--export`\n\n{RUN_USAGE}")
    );
    assert_eq!(
        parse_options(&words("--steps 3"), false, false).expect_err("refused"),
        format!("unknown option `--steps`\n\n{RUN_USAGE}")
    );
    assert_eq!(required_value(&words("a -b"), 0, "--x"), Ok("a"));
    assert_eq!(
        required_value(&words("a -b"), 1, "--x"),
        Err("--x requires a value".to_owned())
    );
    assert_eq!(parse_positive("12", "--x"), Ok(12));
    let options = parse_options(&words(""), false, false).expect("defaults");
    assert_eq!(
        required_run_id(&options, "resume"),
        Err("--run-id is required for resume".to_owned())
    );
    let options = parse_options(&words("--run-id r"), false, false).expect("settings");
    assert_eq!(required_run_id(&options, "resume"), Ok("r".to_owned()));
}

#[test]
fn model_commands_are_read() {
    let command = parse_model_command(&words("fake --prompt hi")).expect("command");
    assert_eq!(command.store, ".agentrt/state.db");
    assert_eq!(command.model, "fake-model");
    assert_eq!(command.prompt, "hi");
    assert_eq!(command.response, "deterministic fake response");
    let command = parse_model_command(&words(
        "fake --prompt one --prompt --two --model m --store s --response r",
    ))
    .expect("command");
    assert_eq!(command.prompt, "--two");
    assert_eq!(command.model, "m");
    assert_eq!(parse_model_command(&words("")).expect_err("refused"), MODEL_USAGE);
    assert_eq!(parse_model_command(&words("real")).expect_err("refused"), MODEL_USAGE);
    assert_eq!(
        parse_model_command(&words("fake --model m")).expect_err("refused"),
        format!("--prompt is required\n\n{MODEL_USAGE}")
    );
    assert_eq!(
        parse_model_command(&words("fake --prompt")).expect_err("refused"),
        format!("--prompt requires a value\n\n{MODEL_USAGE}")
    );
}

#[test]
fn gate_commands_are_read() {
    let command = parse_gate_command(&words("exists --workspace w --path p")).expect("command");
    assert_eq!(command.workspace, "w");
    assert_eq!(command.path, "p");
    assert_eq!(command.text, None);
    let command =
        parse_gate_command(&words("contains --workspace w --path p --text t")).expect("command");
    assert_eq!(command.text.as_deref(), Some("t"));
    let refused = |line: &str| parse_gate_command(&words(line)).expect_err("refused");
    assert_eq!(refused(""), GATE_USAGE);
    assert_eq!(refused("lives"), format!("unknown gate `lives`\n\n{GATE_USAGE}"));
    assert_eq!(refused("exists --path p"), format!("--workspace is required\n\n{GATE_USAGE}"));
    assert_eq!(refused("exists --workspace w"), format!("--path is required\n\n{GATE_USAGE}"));
    assert_eq!(
        refused("contains --workspace w --path p"),
        format!("--text is required\n\n{GATE_USAGE}")
    );
    assert_eq!(refused("exists --help"), GATE_USAGE);
    assert_eq!(refused("exists --deep"), format!("unknown option `--deep`\n\n{GATE_USAGE}"));
}

#[test]
fn agent_commands_are_read() {
    let line = "repo-fix --workspace w --path p --find f --replace r --run-id id --pause-ms 3000";
    match parse_agent_command(&words(line)).expect("command") {
        AgentCommand::Fix(command) => {
            assert_eq!(command.workspace, "w");
            assert_eq!(command.path, "p");
            assert_eq!(command.find, "f");
            assert_eq!(command.replace, "r");
            assert_eq!(command.store, ".agentrt/state.db");
            assert_eq!(command.run_id.as_deref(), Some("id"));
            assert_eq!(command.pause_ms, 3000);
        }
        other => panic!("unexpected command {other:?}"),
    }
    let line = "repo-fix-model --workspace w --prompt p --response-file plan.json --store s";
    match parse_agent_command(&words(line)).expect("command") {
        AgentCommand::Plan(command) => {
            assert!(!command.gemini);
            assert_eq!(command.prompt, "p");
            assert_eq!(command.response_file.as_deref(), Some("plan.json"));
            assert_eq!(command.store, "s");
            assert_eq!(command.model, None);
        }
        other => panic!("unexpected command {other:?}"),
    }
    let line = "repo-fix-model --provider gemini --model g --workspace w --prompt p";
    assert!(matches!(
        parse_agent_command(&words(line)),
        Ok(AgentCommand::Plan(command)) if command.gemini && command.model.as_deref() == Some("g")
    ));
    let refused = |line: &str| parse_agent_command(&words(line)).expect_err("refused");
    assert_eq!(refused(""), AGENT_USAGE);
    assert_eq!(refused("repo-break"), AGENT_USAGE);
    assert_eq!(
        refused("repo-fix --workspace w --path p --find f"),
        format!("--replace is required\n\n{AGENT_USAGE}")
    );
    assert_eq!(
        refused("repo-fix --workspace w --path p --find f --replace r --pause-ms soon"),
        "--pause-ms expects an integer"
    );
    assert_eq!(
        refused("repo-fix-model --workspace w --prompt p"),
        format!("--response-file is required\n\n{AGENT_USAGE}")
    );
    assert_eq!(
        refused("repo-fix-model --workspace w --prompt p --provider other"),
        format!("unknown provider `other`\n\n{AGENT_USAGE}")
    );
}

#[test]
fn eval_commands_are_read() {
    assert_eq!(parse_eval_command(&words("")), Ok(false));
    assert_eq!(parse_eval_command(&words("--break")), Ok(true));
    assert_eq!(parse_eval_command(&words("--break -h x")), Err(EVAL_USAGE.to_owned()));
    assert_eq!(
        parse_eval_command(&words("x -h")),
        Err(format!("unknown option `x`\n\n{EVAL_USAGE}"))
    );
}

// Tools

fn tool(line: &str) -> ToolCommand {
    parse_tool_command(&words(line)).expect("command")
}

#[test]
fn tool_commands_are_read() {
    let command = tool(
        "write --workspace w --path p --contents text --read-only --deny-tool list_dir --store s \
         --pause-ms 9 --max-write-bytes 64",
    );
    assert_eq!(command.tool, Tool::WriteFile);
    assert_eq!(command.workspace, "w");
    assert!(command.settings.read_only);
    assert_eq!(command.settings.denied, Some(Tool::ListDir));
    assert_eq!(command.settings.store, "s");
    assert_eq!(command.settings.pause_ms, 9);
    assert_eq!(command.settings.max_write_bytes, Some(64));
    assert!(matches!(
        command.action(),
        Ok(ToolAction::WriteFile { path, contents }) if path == "p" && contents == "text"
    ));
    let spec = command.spec("run-1", "/root");
    assert_eq!(spec.idempotency_key, "run-1:0");
    assert_eq!(spec.workspace_root, "/root");
    assert_eq!(spec.tool_name, "write_file");
    assert_eq!(spec.contents.as_deref(), Some("text"));
    assert_eq!(spec.denied_tool.as_deref(), Some("list_dir"));
    assert!(!command.shows_output("wrote 4 bytes"));
    let command = tool("list --workspace w");
    assert!(matches!(command.action(), Ok(ToolAction::ListDir(path)) if path == "."));
    assert!(command.shows_output("a"));
    assert!(!command.shows_output(""));
    assert!(matches!(tool("run-tests --workspace w").action(), Ok(ToolAction::RunTests)));
    assert!(matches!(tool("read --workspace w --path a").action(), Ok(ToolAction::ReadFile(path)) if path == "a"));
    assert_eq!(
        tool("write --workspace w").action().expect_err("no contents"),
        "--contents is required for write"
    );
}

#[test]
fn tool_commands_are_refused() {
    let refused = |line: &str| parse_tool_command(&words(line)).expect_err("refused");
    assert_eq!(refused(""), TOOL_USAGE);
    assert_eq!(refused("shell"), format!("unknown tool command `shell`\n\n{TOOL_USAGE}"));
    assert_eq!(refused("read"), format!("--workspace is required\n\n{TOOL_USAGE}"));
    assert_eq!(refused("read --workspace"), "--workspace requires a value");
    assert_eq!(refused("read --pause-ms 1.5"), "--pause-ms expects an integer");
    assert_eq!(
        refused("read --max-write-bytes 0"),
        "--max-write-bytes expects a positive integer"
    );
    assert_eq!(
        refused("read --deny-tool shell"),
        format!("unknown tool `shell`\n\n{TOOL_USAGE}")
    );
    assert_eq!(refused("read --help"), TOOL_USAGE);
    assert_eq!(refused("read --bogus"), format!("unknown option `--bogus`\n\n{TOOL_USAGE}"));
}

#[test]
fn policies_of_tool_commands_bind() {
    let command = tool("write --workspace w --contents text --max-write-bytes 3");
    let policy = command
        .policy(Ok("/w".to_owned()), true, PathStyle::Unix)
        .expect("policy");
    let router = ToolRouter::new(policy);
    let (_, progress) = router.write_file("a", "text");
    assert!(matches!(progress, ToolProgress::Done(Err(SandboxError::Denied { .. }))));
    let command = tool("write --workspace w --read-only");
    let policy = command
        .policy(Ok("/w".to_owned()), true, PathStyle::Unix)
        .expect("policy");
    let router = ToolRouter::new(policy);
    let (_, progress) = router.write_file("a", "t");
    assert!(matches!(progress, ToolProgress::Done(Err(SandboxError::Denied { .. }))));
    assert!(matches!(
        command.policy(Ok("/w".to_owned()), false, PathStyle::Unix),
        Err(SandboxError::InvalidRoot(_))
    ));
    assert!(matches!(
        command.policy(Err("gone".to_owned()), true, PathStyle::Unix),
        Err(SandboxError::Io(_))
    ));
}

#[test]
fn policy_files_add_to_the_settings() {
    let settings = tool("read --workspace w")
        .settings
        .apply_policy_text(r#"{"read_only": true, "denied_tool": "list_dir", "max_write_bytes": 10}"#)
        .expect("policy");
    assert!(settings.read_only);
    assert_eq!(settings.denied, Some(Tool::ListDir));
    assert_eq!(settings.max_write_bytes, Some(10));
    let settings = tool("read --workspace w --deny-tool list_dir --max-write-bytes 5")
        .settings
        .apply_policy_text(r#"{"denied_tool": "list_dir", "max_write_bytes": 10}"#)
        .expect("policy");
    assert_eq!(settings.denied, Some(Tool::ListDir));
    assert_eq!(settings.max_write_bytes, Some(5));
    let settings = tool("read --workspace w --read-only --max-write-bytes 50")
        .settings
        .apply_policy_text(r#"{"read_only": false, "max_write_bytes": 10}"#)
        .expect("policy");
    assert!(settings.read_only);
    assert_eq!(settings.denied, None);
    assert_eq!(settings.max_write_bytes, Some(10));
    let error = tool("read --workspace w --deny-tool read_file")
        .settings
        .apply_policy_text(r#"{"denied_tool": "list_dir"}"#)
        .expect_err("different denials");
    assert_eq!(error, "policy file and command line deny different tools");
    let refused = |text: &str| {
        tool("read --workspace w")
            .settings
            .apply_policy_text(text)
            .expect_err("refused")
    };
    assert_eq!(refused("[]"), "policy file must hold an object");
    assert_eq!(
        refused(r#"{"read_only": 1}"#),
        "policy member `read_only` must be true or false"
    );
    assert_eq!(
        refused(r#"{"denied_tool": "shell"}"#),
        "policy member `denied_tool` names no tool"
    );
    assert_eq!(
        refused(r#"{"max_write_bytes": 0}"#),
        "policy member `max_write_bytes` must be a positive integer"
    );
    assert!(refused("{").starts_with("policy file is not JSON: "));
}

// Reports

#[test]
fn executions_are_reported() {
    let report = report_execution("r", &Ok(()));
    assert_eq!(report.output, "run_id=r\nstatus=succeeded\n");
    assert_eq!(report.error, None);
    assert_eq!(report.code, EXIT_SUCCESS);
    let crash = Err(ExecutionError::SimulatedCrash {
        run_id: "r".to_owned(),
        completed: 1,
    });
    let report = report_execution("r", &crash);
    assert_eq!(report.output, "run_id=r\nstatus=running\n");
    assert_eq!(report.code, EXIT_CRASH);
    let failure = Err(ExecutionError::Store(StoreError::RunNotFound("r".to_owned())));
    let report = report_execution("r", &failure);
    assert_eq!(report.output, "");
    assert_eq!(report.error.as_deref(), Some("run `r` was not found"));
    assert_eq!(report.code, EXIT_FAILURE);
}

#[test]
fn errors_and_texts_are_reported() {
    let report = report_misuse("no");
    assert_eq!((report.output.as_str(), report.error.as_deref()), ("", Some("no")));
    assert_eq!(report.code, EXIT_USAGE);
    let report = report_failure("broken");
    assert_eq!((report.output.as_str(), report.error.as_deref()), ("", Some("broken")));
    assert_eq!(report.code, EXIT_FAILURE);
    let report = report_success("fine\n".to_owned());
    assert_eq!((report.output.as_str(), report.error), ("fine\n", None));
    assert_eq!(report.code, EXIT_SUCCESS);
}

#[test]
fn gates_are_reported() {
    let passed = GateResult::pass("one", "good");
    let report = report_gates(&vec![passed]);
    assert_eq!(report.output, "PASS one: good\n");
    assert_eq!(report.error, None);
    assert_eq!(report.code, EXIT_SUCCESS);
    let results = vec![GateResult::pass("one", "good"), GateResult::fail("two", "bad")];
    let report = report_gates(&results);
    assert_eq!(report.output, "PASS one: good\nFAIL two: bad\n");
    assert_eq!(report.code, EXIT_FAILURE);
    assert_eq!(report_gates(&Vec::new()).code, EXIT_SUCCESS);
}

#[test]
fn gates_are_begun_or_refused() {
    let command = begin_gate(&words("contains --workspace w --path --text --text t"))
        .expect("gate is understood");
    assert_eq!(command.workspace, "w");
    assert_eq!(command.path, "--text");
    assert_eq!(command.text.as_deref(), Some("t"));
    match command.check(Err(SandboxError::InvalidRoot("w".to_owned()))) {
        GateStep::Done(result) => {
            assert_eq!(result.name, "file_contains:--text");
            assert_eq!(report_gates(&vec![result]).code, EXIT_FAILURE);
        }
        GateStep::Ask(..) => panic!("the workspace is invalid"),
    }
    let command = begin_gate(&words("exists --workspace w --path p")).expect("gate is understood");
    match command.check(Err(SandboxError::InvalidRoot("w".to_owned()))) {
        GateStep::Done(result) => assert_eq!(result.name, "file_exists:p"),
        GateStep::Ask(..) => panic!("the workspace is invalid"),
    }
    for line in [
        "contains --path p --text t",
        "contains --workspace w --text t",
        "contains --workspace w --path p",
        "exists --workspace w",
        "neither",
        "",
    ] {
        let report = begin_gate(&words(line)).expect_err("gate is refused");
        assert_eq!(report.code, EXIT_USAGE, "{line}");
        assert_eq!(report.output, "", "{line}");
    }
}

#[test]
fn evaluations_are_reported() {
    let report = report_evaluation(&EvalReport { total: 2, passed: 2, failures: Vec::new() });
    assert_eq!(report.output, "evals=2/2 passed\n");
    assert_eq!(report.code, EXIT_SUCCESS);
    let report = report_evaluation(&EvalReport {
        total: 2,
        passed: 1,
        failures: vec!["case: why".to_owned()],
    });
    assert_eq!(report.output, "evals=1/2 passed\nFAIL case: why\n");
    assert_eq!(report.error, None);
    assert_eq!(report.code, EXIT_FAILURE);
}

#[test]
fn runs_and_trails_are_reported() {
    let mut record = RunRecord::create("r", &StepDefinition::sequence(2)).expect("run creates");
    record.mark_running();
    record.complete_step(0, "done").expect("step completes");
    assert_eq!(
        report_status(&record.summary()),
        "run_id=r\nstatus=running\nprogress=1/2\n"
    );
    assert_eq!(
        report_trail(&record.events),
        "0 run.created payload=steps=2\n1 run.started\n2 step.completed step=0\n3 checkpoint.saved step=0 payload=idempotency_key=r:0\n"
    );
}

#[test]
fn successes_are_reported() {
    assert_eq!(report_output("r", None), "run_id=r\nstatus=succeeded\n");
    assert_eq!(report_output("r", Some("hello")), "run_id=r\nstatus=succeeded\noutput=hello\n");
    assert_eq!(
        report_repair("r", "abc"),
        "run_id=r\nstatus=succeeded\nreplacement_sha256=ba7816bf8f01cfea414140de5dae2223b00361a396177a9cb410ff61f20015ad\n"
    );
    assert_eq!(
        report_planned_repair("r", "repaired"),
        "run_id=r\nstatus=succeeded\nsummary=repaired\n"
    );
}

// Settings

#[test]
fn settings_are_found_in_files() {
    let text = "# keys\nGEMINI_API_KEY = first=1 \r\nGEMINI_MODEL=flash\nGEMINI_API_KEY=second";
    assert_eq!(find_setting(text, "GEMINI_API_KEY").as_deref(), Some("first=1"));
    assert_eq!(find_setting(text, "GEMINI_MODEL").as_deref(), Some("flash"));
    assert_eq!(find_setting(text, "GEMINI"), None);
    assert_eq!(find_setting("", "GEMINI"), None);
    assert_eq!(find_setting("A=", "A").as_deref(), Some(""));
}

#[test]
fn models_of_plans_are_chosen() {
    let model = |line: &str, configured: Option<&str>| match parse_agent_command(&words(line)) {
        Ok(AgentCommand::Plan(command)) => command.model_name(configured.map(str::to_owned)),
        other => panic!("unexpected command {other:?}"),
    };
    let gemini = "repo-fix-model --provider gemini --workspace w --prompt p";
    let named = "repo-fix-model --provider gemini --workspace w --prompt p --model g";
    let recorded = "repo-fix-model --workspace w --prompt p --response-file f";
    assert_eq!(model(named, Some("flash")), "g");
    assert_eq!(model(gemini, Some("flash")), "flash");
    assert_eq!(model(gemini, None), "");
    assert_eq!(model(recorded, Some("flash")), DEFAULT_PLANNER);
}
