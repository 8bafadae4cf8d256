//! The tools that a run may use, and the policy that bounds them.

use crate::number::{decimal, decimal_text};
use crate::path::{
    is_inside, is_plain_relative, join_path, joined_path, path_is_inside, path_is_plain_relative,
    path_of, path_segments, path_text, segments, PathStyle,
};
use crate::text::{
    byte_size, join_text, joined, res_view, same_text, sort_text, sorted_texts, text_size, unit_view,
    views,
};
use vstd::prelude::*;
use vstd::string::StringExecFns;

verus! {

// Tools

/// A tool that a run may use.
#[derive(Clone, Copy, Debug, PartialEq, Eq, Structural)]
pub enum Tool {
    ReadFile,
    WriteFile,
    ListDir,
    RunTests,
}

/// The name of a tool.
pub open spec fn tool_name(tool: Tool) -> Seq<char> {
    match tool {
        Tool::ReadFile => "read_file"@,
        Tool::WriteFile => "write_file"@,
        Tool::ListDir => "list_dir"@,
        Tool::RunTests => "run_tests"@,
    }
}

/// The tool that a name stands for.
pub open spec fn tool_of(name: Seq<char>) -> Option<Tool> {
    if name == "read_file"@ {
        Some(Tool::ReadFile)
    } else if name == "write_file"@ {
        Some(Tool::WriteFile)
    } else if name == "list_dir"@ {
        Some(Tool::ListDir)
    } else if name == "run_tests"@ {
        Some(Tool::RunTests)
    } else {
        None
    }
}

impl Tool {
    /// The name of the tool.
    pub fn name(self) -> (name: &'static str)
        ensures
            name@ == tool_name(self),
    {
        match self {
            Tool::ReadFile => "read_file",
            Tool::WriteFile => "write_file",
            Tool::ListDir => "list_dir",
            Tool::RunTests => "run_tests",
        }
    }

    /// The tool that a name stands for.
    pub fn parse(value: &str) -> (tool: Option<Tool>)
        ensures
            tool == tool_of(value@),
    {
        if same_text(value, "read_file") {
            Some(Tool::ReadFile)
        } else if same_text(value, "write_file") {
            Some(Tool::WriteFile)
        } else if same_text(value, "list_dir") {
            Some(Tool::ListDir)
        } else if same_text(value, "run_tests") {
            Some(Tool::RunTests)
        } else {
            None
        }
    }
}

/// Reading the name of a tool gives the tool back.
pub proof fn tool_name_reads_back(tool: Tool)
    ensures
        tool_of(tool_name(tool)) == Some(tool),
{
    reveal_strlit("read_file");
    reveal_strlit("write_file");
    reveal_strlit("list_dir");
    reveal_strlit("run_tests");
    assert("read_file"@[1] == 'e');
    assert("write_file"@[0] == 'w');
    assert("list_dir"@[0] == 'l');
    assert("run_tests"@[1] == 'u');
    assert("read_file"@[0] == 'r');
    assert("run_tests"@[0] == 'r');
}

// Errors

/// Why a tool was not used.
#[derive(Debug)]
pub enum SandboxError {
    InvalidRoot(String),
    Denied { rule: String, attempted: String },
    Io(String),
}

/// The mathematical form of a sandbox error.
pub enum SandboxErrorView {
    InvalidRoot(Seq<char>),
    Denied { rule: Seq<char>, attempted: Seq<char> },
    Io(Seq<char>),
}

impl View for SandboxError {
    type V = SandboxErrorView;

    open spec fn view(&self) -> SandboxErrorView {
        match self {
            SandboxError::InvalidRoot(root) => SandboxErrorView::InvalidRoot(root@),
            SandboxError::Denied { rule, attempted } => SandboxErrorView::Denied {
                rule: rule@,
                attempted: attempted@,
            },
            SandboxError::Io(message) => SandboxErrorView::Io(message@),
        }
    }
}

/// The text of a sandbox error.
pub open spec fn sandbox_error_text(error: SandboxErrorView) -> Seq<char> {
    match error {
        SandboxErrorView::InvalidRoot(root) => "workspace root is invalid: "@ + root,
        SandboxErrorView::Denied { rule, attempted } => "sandbox denied `"@ + attempted + "`: "@
            + rule,
        SandboxErrorView::Io(message) => "sandbox I/O error: "@ + message,
    }
}

impl SandboxError {
    /// The text of the error.
    pub fn message(&self) -> (text: String)
        ensures
            text@ == sandbox_error_text(self@),
    {
        match self {
            SandboxError::InvalidRoot(root) => {
                let mut text = "workspace root is invalid: ".to_owned();
                text.append(root.as_str());
                text
            },
            SandboxError::Denied { rule, attempted } => {
                let mut text = "sandbox denied `".to_owned();
                text.append(attempted.as_str());
                text.append("`: ");
                text.append(rule.as_str());
                text
            },
            SandboxError::Io(message) => {
                let mut text = "sandbox I/O error: ".to_owned();
                text.append(message.as_str());
                text
            },
        }
    }

    /// Whether the policy denied the use.
    pub fn is_denied(&self) -> (res: bool)
        ensures
            res == (self@ is Denied),
    {
        matches!(self, SandboxError::Denied { .. })
    }
}

/// A denial by a rule.
pub open spec fn denied(rule: Seq<char>, attempted: Seq<char>) -> SandboxErrorView {
    SandboxErrorView::Denied { rule, attempted }
}

fn deny(rule: &str, attempted: &str) -> (error: SandboxError)
    ensures
        error@ == denied(rule@, attempted@),
{
    SandboxError::Denied { rule: rule.to_owned(), attempted: attempted.to_owned() }
}

// Policies

/// What a run may do in a workspace.
#[derive(Debug)]
pub struct Policy {
    root: String,
    style: PathStyle,
    read_file: bool,
    write_file: bool,
    list_dir: bool,
    run_tests: bool,
    allow_write: bool,
    max_write_bytes: Option<usize>,
}

/// The mathematical form of a policy.
pub struct PolicyView {
    pub root: Seq<char>,
    pub style: PathStyle,
    pub tools: Set<Tool>,
    pub allow_write: bool,
    pub max_write_bytes: Option<nat>,
}

impl View for Policy {
    type V = PolicyView;

    closed spec fn view(&self) -> PolicyView {
        PolicyView {
            root: self.root@,
            style: self.style,
            tools: Set::new(
                |tool: Tool|
                    match tool {
                        Tool::ReadFile => self.read_file,
                        Tool::WriteFile => self.write_file,
                        Tool::ListDir => self.list_dir,
                        Tool::RunTests => self.run_tests,
                    },
            ),
            allow_write: self.allow_write,
            max_write_bytes: match self.max_write_bytes {
                Some(limit) => Some(limit as nat),
                None => None,
            },
        }
    }
}

/// All tools.
pub open spec fn all_tools() -> Set<Tool> {
    Set::new(|tool: Tool| true)
}

/// The policy of a workspace that may be read and written.
pub open spec fn workspace_policy(root: Seq<char>, style: PathStyle) -> PolicyView {
    PolicyView { root, style, tools: all_tools(), allow_write: true, max_write_bytes: None }
}

/// The policy of a workspace that may only be read.
pub open spec fn read_only_policy(root: Seq<char>, style: PathStyle) -> PolicyView {
    PolicyView {
        root,
        style,
        tools: all_tools().remove(Tool::WriteFile),
        allow_write: false,
        max_write_bytes: None,
    }
}

/// The root of a workspace, from what the host found at its path.
pub open spec fn workspace_root(
    canonical: Result<Seq<char>, Seq<char>>,
    is_directory: bool,
) -> Result<Seq<char>, SandboxErrorView> {
    match canonical {
        Err(message) => Err(SandboxErrorView::Io(message)),
        Ok(root) => if is_directory {
            Ok(root)
        } else {
            Err(SandboxErrorView::InvalidRoot(root))
        },
    }
}

impl Policy {
    /// The policy of a workspace that may be read and written. `canonical` is
    /// what the host resolved the workspace's path to, and `is_directory`
    /// whether it found a directory there.
    pub fn workspace(
        canonical: Result<String, String>,
        is_directory: bool,
        style: PathStyle,
    ) -> (result: Result<Policy, SandboxError>)
        ensures
            res_view(result) == match workspace_root(res_view(canonical), is_directory) {
                Ok(root) => Ok::<PolicyView, SandboxErrorView>(workspace_policy(root, style)),
                Err(error) => Err::<PolicyView, SandboxErrorView>(error),
            },
    {
        match canonical {
            Err(message) => Err(SandboxError::Io(message)),
            Ok(root) => {
                if !is_directory {
                    return Err(SandboxError::InvalidRoot(root));
                }
                let policy = Policy {
                    root,
                    style,
                    read_file: true,
                    write_file: true,
                    list_dir: true,
                    run_tests: true,
                    allow_write: true,
                    max_write_bytes: None,
                };
                proof {
                    assert(policy@.tools =~= all_tools());
                }
                Ok(policy)
            },
        }
    }

    /// The policy of a workspace that may only be read.
    pub fn read_only(
        canonical: Result<String, String>,
        is_directory: bool,
        style: PathStyle,
    ) -> (result: Result<Policy, SandboxError>)
        ensures
            res_view(result) == match workspace_root(res_view(canonical), is_directory) {
                Ok(root) => Ok::<PolicyView, SandboxErrorView>(read_only_policy(root, style)),
                Err(error) => Err::<PolicyView, SandboxErrorView>(error),
            },
    {
        match Policy::workspace(canonical, is_directory, style) {
            Err(error) => Err(error),
            Ok(policy) => {
                let mut policy = policy;
                policy.allow_write = false;
                Ok(policy.deny_tool(Tool::WriteFile))
            },
        }
    }

    /// The policy without a tool.
    pub fn deny_tool(self, tool: Tool) -> (policy: Policy)
        ensures
            policy@ == (PolicyView { tools: self@.tools.remove(tool), ..self@ }),
    {
        let mut policy = self;
        match tool {
            Tool::ReadFile => policy.read_file = false,
            Tool::WriteFile => policy.write_file = false,
            Tool::ListDir => policy.list_dir = false,
            Tool::RunTests => policy.run_tests = false,
        }
        proof {
            assert(policy@.tools =~= self@.tools.remove(tool));
        }
        policy
    }

    /// The policy with a limit on the size of a write.
    pub fn with_max_write_bytes(self, limit: usize) -> (policy: Policy)
        ensures
            policy@ == (PolicyView { max_write_bytes: Some(limit as nat), ..self@ }),
    {
        let mut policy = self;
        policy.max_write_bytes = Some(limit);
        proof {
            assert(policy@.tools =~= self@.tools);
        }
        policy
    }

    /// The root of the workspace.
    pub fn root(&self) -> (root: &str)
        ensures
            root@ == self@.root,
    {
        self.root.as_str()
    }

    fn allows(&self, tool: Tool) -> (allowed: bool)
        ensures
            allowed == self@.tools.contains(tool),
    {
        match tool {
            Tool::ReadFile => self.read_file,
            Tool::WriteFile => self.write_file,
            Tool::ListDir => self.list_dir,
            Tool::RunTests => self.run_tests,
        }
    }
}

/// What is said of a path that is not relative or goes up.
pub open spec fn path_denied(path: Seq<char>) -> SandboxErrorView {
    denied("only relative paths without `..` are allowed"@, path)
}

/// Whether a path may be used in a workspace at all.
pub fn validate_relative(style: PathStyle, relative_path: &str) -> (result: Result<(), SandboxError>)
    ensures
        unit_view(result) == if is_plain_relative(style, relative_path@) {
            Ok::<(), SandboxErrorView>(())
        } else {
            Err::<(), SandboxErrorView>(path_denied(relative_path@))
        },
{
    if path_is_plain_relative(style, relative_path) {
        Ok(())
    } else {
        Err(deny("only relative paths without `..` are allowed", relative_path))
    }
}

// What is asked of the host

/// How the tests of a workspace are run: offline, for a bounded time, into a
/// target directory of their own and without credentials in the environment.
#[derive(Debug)]
pub struct TestCommand {
    pub program: String,
    pub arguments: Vec<String>,
    pub directory: String,
    pub target_directory: String,
    pub removed_variables: Vec<String>,
    pub timeout_ms: u64,
}

/// The mathematical form of a test command.
pub struct TestCommandView {
    pub program: Seq<char>,
    pub arguments: Seq<Seq<char>>,
    pub directory: Seq<char>,
    pub target_directory: Seq<char>,
    pub removed_variables: Seq<Seq<char>>,
    pub timeout_ms: nat,
}

impl View for TestCommand {
    type V = TestCommandView;

    open spec fn view(&self) -> TestCommandView {
        TestCommandView {
            program: self.program@,
            arguments: views(self.arguments@),
            directory: self.directory@,
            target_directory: self.target_directory@,
            removed_variables: views(self.removed_variables@),
            timeout_ms: self.timeout_ms as nat,
        }
    }
}

/// The time that the tests of a workspace may take.
pub const TEST_TIMEOUT_MS: u64 = 120000;

/// The command that runs the tests of a workspace.
pub open spec fn test_command(policy: PolicyView) -> TestCommandView {
    TestCommandView {
        program: "cargo"@,
        arguments: seq!["test"@, "--offline"@],
        directory: policy.root,
        target_directory: joined_path(policy.style, policy.root, ".agentrt-target"@),
        removed_variables: seq!["GEMINI_API_KEY"@, "OPENAI_API_KEY"@],
        timeout_ms: TEST_TIMEOUT_MS as nat,
    }
}

/// What a tool asks the host to do.
#[derive(Debug)]
pub enum FileRequest {
    Canonicalize(String),
    CheckLink(String),
    ReadText(String),
    WriteText { path: String, contents: String },
    ReadDir(String),
    RunTests(TestCommand),
}

/// The mathematical form of a request.
pub enum FileRequestView {
    Canonicalize(Seq<char>),
    CheckLink(Seq<char>),
    ReadText(Seq<char>),
    WriteText { path: Seq<char>, contents: Seq<char> },
    ReadDir(Seq<char>),
    RunTests(TestCommandView),
}

impl View for FileRequest {
    type V = FileRequestView;

    open spec fn view(&self) -> FileRequestView {
        match self {
            FileRequest::Canonicalize(path) => FileRequestView::Canonicalize(path@),
            FileRequest::CheckLink(path) => FileRequestView::CheckLink(path@),
            FileRequest::ReadText(path) => FileRequestView::ReadText(path@),
            FileRequest::WriteText { path, contents } => FileRequestView::WriteText {
                path: path@,
                contents: contents@,
            },
            FileRequest::ReadDir(path) => FileRequestView::ReadDir(path@),
            FileRequest::RunTests(command) => FileRequestView::RunTests(command@),
        }
    }
}

/// What the host answers. A failure carries the host's message.
#[derive(Debug)]
pub enum FileReply {
    Path(Result<String, String>),
    Link(bool),
    Text(Result<String, String>),
    Written(Result<(), String>),
    Entries(Result<Vec<String>, String>),
    Tests(Result<bool, String>),
}

/// The mathematical form of an answer.
pub enum FileReplyView {
    Path(Result<Seq<char>, Seq<char>>),
    Link(bool),
    Text(Result<Seq<char>, Seq<char>>),
    Written(Result<(), Seq<char>>),
    Entries(Result<Seq<Seq<char>>, Seq<char>>),
    Tests(Result<bool, Seq<char>>),
}

impl View for FileReply {
    type V = FileReplyView;

    open spec fn view(&self) -> FileReplyView {
        match self {
            FileReply::Path(path) => FileReplyView::Path(res_view(*path)),
            FileReply::Link(link) => FileReplyView::Link(*link),
            FileReply::Text(text) => FileReplyView::Text(res_view(*text)),
            FileReply::Written(done) => FileReplyView::Written(unit_view(*done)),
            FileReply::Entries(entries) => FileReplyView::Entries(
                match entries {
                    Ok(names) => Ok(views(names@)),
                    Err(message) => Err(message@),
                },
            ),
            FileReply::Tests(outcome) => FileReplyView::Tests(
                match outcome {
                    Ok(passed) => Ok(*passed),
                    Err(message) => Err(message@),
                },
            ),
        }
    }
}

// The use of a tool

/// What a step wants a tool to do.
#[derive(Debug)]
pub enum ToolAction {
    ReadFile(String),
    WriteFile { path: String, contents: String },
    ListDir(String),
    RunTests,
}

/// The mathematical form of a tool action.
pub enum ToolActionView {
    ReadFile(Seq<char>),
    WriteFile { path: Seq<char>, contents: Seq<char> },
    ListDir(Seq<char>),
    RunTests,
}

impl View for ToolAction {
    type V = ToolActionView;

    open spec fn view(&self) -> ToolActionView {
        match self {
            ToolAction::ReadFile(path) => ToolActionView::ReadFile(path@),
            ToolAction::WriteFile { path, contents } => ToolActionView::WriteFile {
                path: path@,
                contents: contents@,
            },
            ToolAction::ListDir(path) => ToolActionView::ListDir(path@),
            ToolAction::RunTests => ToolActionView::RunTests,
        }
    }
}

/// The tool that an action uses.
pub open spec fn action_tool(action: ToolActionView) -> Tool {
    match action {
        ToolActionView::ReadFile(_) => Tool::ReadFile,
        ToolActionView::WriteFile { .. } => Tool::WriteFile,
        ToolActionView::ListDir(_) => Tool::ListDir,
        ToolActionView::RunTests => Tool::RunTests,
    }
}

/// The path that an action names.
pub open spec fn action_path(action: ToolActionView) -> Seq<char> {
    match action {
        ToolActionView::ReadFile(path) => path,
        ToolActionView::WriteFile { path, .. } => path,
        ToolActionView::ListDir(path) => path,
        ToolActionView::RunTests => "."@,
    }
}

/// How far the use of a tool has come.
#[derive(Debug)]
pub enum CallPhase {
    Resolving,
    ResolvingParent(String),
    CheckingTarget(String),
    Reading,
    Listing,
    Writing,
    Testing,
    Closed,
}

/// The mathematical form of a phase.
pub enum CallPhaseView {
    Resolving,
    ResolvingParent(Seq<char>),
    CheckingTarget(Seq<char>),
    Reading,
    Listing,
    Writing,
    Testing,
    Closed,
}

impl View for CallPhase {
    type V = CallPhaseView;

    open spec fn view(&self) -> CallPhaseView {
        match self {
            CallPhase::Resolving => CallPhaseView::Resolving,
            CallPhase::ResolvingParent(name) => CallPhaseView::ResolvingParent(name@),
            CallPhase::CheckingTarget(target) => CallPhaseView::CheckingTarget(target@),
            CallPhase::Reading => CallPhaseView::Reading,
            CallPhase::Listing => CallPhaseView::Listing,
            CallPhase::Writing => CallPhaseView::Writing,
            CallPhase::Testing => CallPhaseView::Testing,
            CallPhase::Closed => CallPhaseView::Closed,
        }
    }
}

/// What the use of a tool gave.
#[derive(Debug)]
pub enum ToolOutput {
    Contents(String),
    Wrote(usize),
    Entries(Vec<String>),
    Tests(bool),
    Checked,
}

/// The mathematical form of what the use of a tool gave.
pub enum ToolOutputView {
    Contents(Seq<char>),
    Wrote(nat),
    Entries(Seq<Seq<char>>),
    Tests(bool),
    Checked,
}

impl View for ToolOutput {
    type V = ToolOutputView;

    open spec fn view(&self) -> ToolOutputView {
        match self {
            ToolOutput::Contents(text) => ToolOutputView::Contents(text@),
            ToolOutput::Wrote(size) => ToolOutputView::Wrote(*size as nat),
            ToolOutput::Entries(names) => ToolOutputView::Entries(views(names@)),
            ToolOutput::Tests(passed) => ToolOutputView::Tests(*passed),
            ToolOutput::Checked => ToolOutputView::Checked,
        }
    }
}

/// The text that is kept of what a tool gave.
pub open spec fn output_text(output: ToolOutputView) -> Seq<char> {
    match output {
        ToolOutputView::Contents(text) => text,
        ToolOutputView::Wrote(size) => "wrote "@ + decimal(size) + " bytes"@,
        ToolOutputView::Entries(names) => joined(names, "\n"@),
        ToolOutputView::Tests(passed) => if passed {
            "tests passed"@
        } else {
            "tests failed"@
        },
        ToolOutputView::Checked => "checked"@,
    }
}

impl ToolOutput {
    /// The text that is kept of what the tool gave.
    pub fn text(&self) -> (text: String)
        ensures
            text@ == output_text(self@),
    {
        match self {
            ToolOutput::Contents(text) => text.clone(),
            ToolOutput::Wrote(size) => {
                let mut text = "wrote ".to_owned();
                text.append(decimal_text(*size as u64).as_str());
                text.append(" bytes");
                text
            },
            ToolOutput::Entries(names) => join_text(names, "\n"),
            ToolOutput::Tests(passed) => if *passed {
                "tests passed".to_owned()
            } else {
                "tests failed".to_owned()
            },
            ToolOutput::Checked => "checked".to_owned(),
        }
    }
}

/// What comes next in the use of a tool: a request to the host, or its outcome.
#[derive(Debug)]
pub enum ToolProgress {
    Ask(FileRequest),
    Done(Result<ToolOutput, SandboxError>),
}

/// The mathematical form of what comes next.
pub enum ToolProgressView {
    Ask(FileRequestView),
    Done(Result<ToolOutputView, SandboxErrorView>),
}

impl View for ToolProgress {
    type V = ToolProgressView;

    open spec fn view(&self) -> ToolProgressView {
        match self {
            ToolProgress::Ask(request) => ToolProgressView::Ask(request@),
            ToolProgress::Done(outcome) => ToolProgressView::Done(res_view(*outcome)),
        }
    }
}

/// One use of a tool. A trial goes through every check and changes nothing.
#[derive(Debug)]
pub struct ToolCall {
    pub action: ToolAction,
    pub trial: bool,
    pub phase: CallPhase,
}

/// The mathematical form of one use of a tool.
pub struct ToolCallView {
    pub action: ToolActionView,
    pub trial: bool,
    pub phase: CallPhaseView,
}

impl View for ToolCall {
    type V = ToolCallView;

    open spec fn view(&self) -> ToolCallView {
        ToolCallView { action: self.action@, trial: self.trial, phase: self.phase@ }
    }
}

/// What is said of a tool that the policy does not allow.
pub open spec fn tool_denied(tool: Tool, attempted: Seq<char>) -> SandboxErrorView {
    denied("tool `"@ + tool_name(tool) + "` is not allowed"@, attempted)
}

/// What is said of a write that passes the limit.
pub open spec fn size_denied(size: nat, limit: nat, attempted: Seq<char>) -> SandboxErrorView {
    denied(
        "write of "@ + decimal(size) + " bytes exceeds the limit of "@ + decimal(limit) + " bytes"@,
        attempted,
    )
}

/// What is said of a path that leads out of the workspace.
pub open spec fn escape_denied(attempted: Seq<char>) -> SandboxErrorView {
    denied("path escapes workspace root"@, attempted)
}

/// Whether the policy lets a text be written, before its path is looked at.
pub open spec fn write_allowed(
    policy: PolicyView,
    path: Seq<char>,
    contents: Seq<char>,
) -> Result<(), SandboxErrorView> {
    if !policy.allow_write {
        Err(denied("writes are disabled by policy"@, path))
    } else {
        match policy.max_write_bytes {
            Some(limit) => if byte_size(contents) > limit {
                Err(size_denied(byte_size(contents), limit, path))
            } else {
                Ok(())
            },
            None => Ok(()),
        }
    }
}

/// The directory that a write goes to, as it has to be resolved, and the name
/// of the file in it.
pub open spec fn write_target(
    policy: PolicyView,
    path: Seq<char>,
) -> Result<(Seq<char>, Seq<char>), SandboxErrorView> {
    let parts = segments(policy.style, path);
    if !is_plain_relative(policy.style, path) {
        Err(path_denied(path))
    } else if parts.len() == 0 {
        if segments(policy.style, policy.root).len() == 0 {
            Err(
                denied(
                    "write target must name a file"@,
                    joined_path(policy.style, policy.root, path),
                ),
            )
        } else {
            Err(escape_denied(path))
        }
    } else if parts.len() == 1 {
        Ok((policy.root, parts[0]))
    } else {
        Ok(
            (
                joined_path(policy.style, policy.root, path_of(policy.style, parts.drop_last())),
                parts.last(),
            ),
        )
    }
}

/// A use that came to its end.
pub open spec fn call_done(
    call: ToolCallView,
    outcome: Result<ToolOutputView, SandboxErrorView>,
) -> (ToolCallView, ToolProgressView) {
    (ToolCallView { phase: CallPhaseView::Closed, ..call }, ToolProgressView::Done(outcome))
}

/// A use that asks the host something.
pub open spec fn call_asks(
    call: ToolCallView,
    phase: CallPhaseView,
    request: FileRequestView,
) -> (ToolCallView, ToolProgressView) {
    (ToolCallView { phase, ..call }, ToolProgressView::Ask(request))
}

/// How the use of a tool begins: the policy is asked first, then the path is
/// looked at, and only then the host.
pub open spec fn call_started(
    policy: PolicyView,
    action: ToolActionView,
    trial: bool,
) -> (ToolCallView, ToolProgressView) {
    let call = ToolCallView { action, trial, phase: CallPhaseView::Closed };
    let path = action_path(action);
    if !policy.tools.contains(action_tool(action)) {
        call_done(call, Err(tool_denied(action_tool(action), path)))
    } else {
        match action {
            ToolActionView::WriteFile { path, contents } => match write_allowed(
                policy,
                path,
                contents,
            ) {
                Err(error) => call_done(call, Err(error)),
                Ok(()) => match write_target(policy, path) {
                    Err(error) => call_done(call, Err(error)),
                    Ok((parent, name)) => call_asks(
                        call,
                        CallPhaseView::ResolvingParent(name),
                        FileRequestView::Canonicalize(parent),
                    ),
                },
            },
            ToolActionView::RunTests => if trial {
                call_done(call, Ok(ToolOutputView::Checked))
            } else {
                call_asks(
                    call,
                    CallPhaseView::Testing,
                    FileRequestView::RunTests(test_command(policy)),
                )
            },
            _ => if is_plain_relative(policy.style, path) {
                call_asks(
                    call,
                    CallPhaseView::Resolving,
                    FileRequestView::Canonicalize(joined_path(policy.style, policy.root, path)),
                )
            } else {
                call_done(call, Err(path_denied(path)))
            },
        }
    }
}

/// A path that the host resolved, if it lies in the workspace.
pub open spec fn resolved_inside(
    policy: PolicyView,
    resolved: Result<Seq<char>, Seq<char>>,
    attempted: Seq<char>,
) -> Result<Seq<char>, SandboxErrorView> {
    match resolved {
        Err(message) => Err(SandboxErrorView::Io(message)),
        Ok(path) => if is_inside(policy.style, path, policy.root) {
            Ok(path)
        } else {
            Err(escape_denied(attempted))
        },
    }
}

/// What is said of an answer to another question.
pub open spec fn reply_mismatch() -> SandboxErrorView {
    SandboxErrorView::Io("the host gave an answer of another kind"@)
}

/// How the use of a tool goes on after an answer of the host.
pub open spec fn call_resumed(
    policy: PolicyView,
    call: ToolCallView,
    reply: FileReplyView,
) -> (ToolCallView, ToolProgressView) {
    let path = action_path(call.action);
    match (call.phase, reply) {
        (CallPhaseView::Resolving, FileReplyView::Path(resolved)) => match resolved_inside(
            policy,
            resolved,
            path,
        ) {
            Err(error) => call_done(call, Err(error)),
            Ok(inside) => if call.trial {
                call_done(call, Ok(ToolOutputView::Checked))
            } else {
                match call.action {
                    ToolActionView::ReadFile(_) => call_asks(
                        call,
                        CallPhaseView::Reading,
                        FileRequestView::ReadText(inside),
                    ),
                    ToolActionView::ListDir(_) => call_asks(
                        call,
                        CallPhaseView::Listing,
                        FileRequestView::ReadDir(inside),
                    ),
                    _ => call_done(call, Err(reply_mismatch())),
                }
            },
        },
        (CallPhaseView::ResolvingParent(name), FileReplyView::Path(resolved)) => match resolved_inside(
            policy,
            resolved,
            path,
        ) {
            Err(error) => call_done(call, Err(error)),
            Ok(inside) => {
                let target = joined_path(policy.style, inside, name);
                call_asks(
                    call,
                    CallPhaseView::CheckingTarget(target),
                    FileRequestView::CheckLink(target),
                )
            },
        },
        (CallPhaseView::CheckingTarget(target), FileReplyView::Link(link)) => if link {
            call_done(call, Err(denied("write target is a symbolic link"@, path)))
        } else if call.trial {
            call_done(call, Ok(ToolOutputView::Checked))
        } else {
            match call.action {
                ToolActionView::WriteFile { contents, .. } => call_asks(
                    call,
                    CallPhaseView::Writing,
                    FileRequestView::WriteText { path: target, contents },
                ),
                _ => call_done(call, Err(reply_mismatch())),
            }
        },
        (CallPhaseView::Reading, FileReplyView::Text(text)) => call_done(
            call,
            match text {
                Ok(contents) => Ok(ToolOutputView::Contents(contents)),
                Err(message) => Err(SandboxErrorView::Io(message)),
            },
        ),
        (CallPhaseView::Listing, FileReplyView::Entries(entries)) => call_done(
            call,
            match entries {
                Ok(names) => Ok(ToolOutputView::Entries(sorted_texts(names))),
                Err(message) => Err(SandboxErrorView::Io(message)),
            },
        ),
        (CallPhaseView::Writing, FileReplyView::Written(done)) => call_done(
            call,
            match (done, call.action) {
                (Err(message), _) => Err(SandboxErrorView::Io(message)),
                (Ok(()), ToolActionView::WriteFile { contents, .. }) => Ok(
                    ToolOutputView::Wrote(byte_size(contents)),
                ),
                (Ok(()), _) => Err(reply_mismatch()),
            },
        ),
        (CallPhaseView::Testing, FileReplyView::Tests(outcome)) => call_done(
            call,
            match outcome {
                Ok(passed) => Ok(ToolOutputView::Tests(passed)),
                Err(message) => Err(SandboxErrorView::Io(message)),
            },
        ),
        _ => call_done(call, Err(reply_mismatch())),
    }
}

// The router

/// The only way to the tools: it holds every use against a policy.
#[derive(Debug)]
pub struct ToolRouter {
    policy: Policy,
}

impl View for ToolRouter {
    type V = PolicyView;

    closed spec fn view(&self) -> PolicyView {
        self.policy@
    }
}

fn finish_call(call: ToolCall, outcome: Result<ToolOutput, SandboxError>) -> (next: (
    ToolCall,
    ToolProgress,
))
    ensures
        (next.0@, next.1@) == call_done(call@, res_view(outcome)),
{
    (
        ToolCall { action: call.action, trial: call.trial, phase: CallPhase::Closed },
        ToolProgress::Done(outcome),
    )
}

fn ask(call: ToolCall, phase: CallPhase, request: FileRequest) -> (next: (ToolCall, ToolProgress))
    ensures
        (next.0@, next.1@) == call_asks(call@, phase@, request@),
{
    (ToolCall { action: call.action, trial: call.trial, phase }, ToolProgress::Ask(request))
}

fn mismatch() -> (error: SandboxError)
    ensures
        error@ == reply_mismatch(),
{
    SandboxError::Io("the host gave an answer of another kind".to_owned())
}

impl ToolAction {
    /// The tool that the action uses.
    pub fn tool(&self) -> (tool: Tool)
        ensures
            tool == action_tool(self@),
    {
        match self {
            ToolAction::ReadFile(_) => Tool::ReadFile,
            ToolAction::WriteFile { .. } => Tool::WriteFile,
            ToolAction::ListDir(_) => Tool::ListDir,
            ToolAction::RunTests => Tool::RunTests,
        }
    }

    /// The path that the action names.
    pub fn path(&self) -> (path: &str)
        ensures
            path@ == action_path(self@),
    {
        match self {
            ToolAction::ReadFile(path) => path.as_str(),
            ToolAction::WriteFile { path, .. } => path.as_str(),
            ToolAction::ListDir(path) => path.as_str(),
            ToolAction::RunTests => ".",
        }
    }
}

impl ToolRouter {
    /// A router that holds to a policy.
    pub fn new(policy: Policy) -> (router: ToolRouter)
        ensures
            router@ == policy@,
    {
        ToolRouter { policy }
    }

    /// How the host writes paths.
    pub fn style(&self) -> (style: PathStyle)
        ensures
            style == self@.style,
    {
        self.policy.style
    }

    /// Whether the policy allows a tool.
    pub fn require_tool(&self, tool: Tool, attempted: &str) -> (result: Result<(), SandboxError>)
        ensures
            unit_view(result) == if self@.tools.contains(tool) {
                Ok::<(), SandboxErrorView>(())
            } else {
                Err::<(), SandboxErrorView>(tool_denied(tool, attempted@))
            },
    {
        if self.policy.allows(tool) {
            Ok(())
        } else {
            let mut rule = "tool `".to_owned();
            rule.append(tool.name());
            rule.append("` is not allowed");
            Err(deny(rule.as_str(), attempted))
        }
    }

    /// Whether a resolved path lies in the workspace.
    pub fn ensure_inside_root(&self, resolved: &str, attempted: &str) -> (result: Result<
        (),
        SandboxError,
    >)
        ensures
            unit_view(result) == if is_inside(self@.style, resolved@, self@.root) {
                Ok::<(), SandboxErrorView>(())
            } else {
                Err::<(), SandboxErrorView>(escape_denied(attempted@))
            },
    {
        if path_is_inside(self.policy.style, resolved, self.policy.root.as_str()) {
            Ok(())
        } else {
            Err(deny("path escapes workspace root", attempted))
        }
    }

    /// A path that the host resolved, if it lies in the workspace.
    pub fn resolve_existing(&self, resolved: Result<String, String>, attempted: &str) -> (result:
        Result<String, SandboxError>)
        ensures
            res_view(result) == resolved_inside(self@, res_view(resolved), attempted@),
    {
        match resolved {
            Err(message) => Err(SandboxError::Io(message)),
            Ok(path) => match self.ensure_inside_root(path.as_str(), attempted) {
                Ok(()) => Ok(path),
                Err(error) => Err(error),
            },
        }
    }

    fn allow_write(&self, path: &str, contents: &str) -> (result: Result<(), SandboxError>)
        ensures
            unit_view(result) == write_allowed(self@, path@, contents@),
    {
        if !self.policy.allow_write {
            return Err(deny("writes are disabled by policy", path));
        }
        match self.policy.max_write_bytes {
            Some(limit) => if text_size(contents) > limit {
                let mut rule = "write of ".to_owned();
                rule.append(decimal_text(text_size(contents) as u64).as_str());
                rule.append(" bytes exceeds the limit of ");
                rule.append(decimal_text(limit as u64).as_str());
                rule.append(" bytes");
                Err(deny(rule.as_str(), path))
            } else {
                Ok(())
            },
            None => Ok(()),
        }
    }

    /// The directory that a write goes to, as it has to be resolved, and the
    /// name of the file in it.
    pub fn resolve_for_write(&self, relative_path: &str) -> (result: Result<
        (String, String),
        SandboxError,
    >)
        ensures
            match result {
                Ok(target) => write_target(self@, relative_path@) == Ok::<
                    (Seq<char>, Seq<char>),
                    SandboxErrorView,
                >((target.0@, target.1@)),
                Err(error) => write_target(self@, relative_path@) == Err::<
                    (Seq<char>, Seq<char>),
                    SandboxErrorView,
                >(error@),
            },
    {
        let style = self.policy.style;
        let root = self.policy.root.as_str();
        match validate_relative(style, relative_path) {
            Err(error) => return Err(error),
            Ok(()) => {},
        }
        let parts = path_segments(style, relative_path);
        let count = parts.len();
        if count == 0 {
            if path_segments(style, root).len() == 0 {
                let candidate = join_path(style, root, relative_path);
                return Err(deny("write target must name a file", candidate.as_str()));
            }
            return Err(deny("path escapes workspace root", relative_path));
        }
        let name = parts[count - 1].clone();
        if count == 1 {
            return Ok((root.to_owned(), name));
        }
        let front = path_text(style, &parts, count - 1);
        proof {
            assert(views(parts@).take(count - 1) =~= views(parts@).drop_last());
        }
        Ok((join_path(style, root, front.as_str()), name))
    }

    fn test_command(&self) -> (command: TestCommand)
        ensures
            command@ == test_command(self@),
    {
        let style = self.policy.style;
        let root = self.policy.root.as_str();
        let command = TestCommand {
            program: "cargo".to_owned(),
            arguments: vec!["test".to_owned(), "--offline".to_owned()],
            directory: root.to_owned(),
            target_directory: join_path(style, root, ".agentrt-target"),
            removed_variables: vec!["GEMINI_API_KEY".to_owned(), "OPENAI_API_KEY".to_owned()],
            timeout_ms: TEST_TIMEOUT_MS,
        };
        proof {
            assert(views(command.arguments@) =~= test_command(self@).arguments);
            assert(views(command.removed_variables@) =~= test_command(self@).removed_variables);
        }
        command
    }

    /// Begins the use of a tool.
    pub fn start(&self, action: ToolAction, trial: bool) -> (next: (ToolCall, ToolProgress))
        ensures
            (next.0@, next.1@) == call_started(self@, action@, trial),
    {
        let call = ToolCall { action, trial, phase: CallPhase::Closed };
        match self.require_tool(call.action.tool(), call.action.path()) {
            Err(error) => return finish_call(call, Err(error)),
            Ok(()) => {},
        }
        match &call.action {
            ToolAction::WriteFile { path, contents } => {
                match self.allow_write(path.as_str(), contents.as_str()) {
                    Err(error) => return finish_call(call, Err(error)),
                    Ok(()) => {},
                }
                match self.resolve_for_write(path.as_str()) {
                    Err(error) => finish_call(call, Err(error)),
                    Ok((parent, name)) => ask(
                        call,
                        CallPhase::ResolvingParent(name),
                        FileRequest::Canonicalize(parent),
                    ),
                }
            },
            ToolAction::RunTests => {
                if trial {
                    finish_call(call, Ok(ToolOutput::Checked))
                } else {
                    let command = self.test_command();
                    ask(call, CallPhase::Testing, FileRequest::RunTests(command))
                }
            },
            _ => {
                let path = call.action.path();
                match validate_relative(self.policy.style, path) {
                    Err(error) => finish_call(call, Err(error)),
                    Ok(()) => {
                        let candidate = join_path(
                            self.policy.style,
                            self.policy.root.as_str(),
                            path,
                        );
                        ask(call, CallPhase::Resolving, FileRequest::Canonicalize(candidate))
                    },
                }
            },
        }
    }

    fn resume_resolved(&self, call: ToolCall, inside: String) -> (next: (ToolCall, ToolProgress))
        requires
            call@.phase is Resolving,
            is_inside(self@.style, inside@, self@.root),
        ensures
            (next.0@, next.1@) == call_resumed(self@, call@, FileReplyView::Path(Ok(inside@))),
    {
        if call.trial {
            return finish_call(call, Ok(ToolOutput::Checked));
        }
        match &call.action {
            ToolAction::ReadFile(_) => ask(call, CallPhase::Reading, FileRequest::ReadText(inside)),
            ToolAction::ListDir(_) => ask(call, CallPhase::Listing, FileRequest::ReadDir(inside)),
            _ => finish_call(call, Err(mismatch())),
        }
    }

    fn resume_checked(&self, call: ToolCall, target: String, link: bool) -> (next: (
        ToolCall,
        ToolProgress,
    ))
        requires
            call@.phase == CallPhaseView::CheckingTarget(target@),
        ensures
            (next.0@, next.1@) == call_resumed(self@, call@, FileReplyView::Link(link)),
    {
        if link {
            let error = deny("write target is a symbolic link", call.action.path());
            return finish_call(call, Err(error));
        }
        if call.trial {
            return finish_call(call, Ok(ToolOutput::Checked));
        }
        match &call.action {
            ToolAction::WriteFile { contents, .. } => {
                let request = FileRequest::WriteText { path: target, contents: contents.clone() };
                ask(call, CallPhase::Writing, request)
            },
            _ => finish_call(call, Err(mismatch())),
        }
    }

    /// Goes on with the use of a tool after an answer of the host.
    pub fn resume(&self, call: ToolCall, reply: FileReply) -> (next: (ToolCall, ToolProgress))
        ensures
            (next.0@, next.1@) == call_resumed(self@, call@, reply@),
    {
        match (&call.phase, reply) {
            (CallPhase::Resolving, FileReply::Path(resolved)) => {
                match self.resolve_existing(resolved, call.action.path()) {
                    Err(error) => finish_call(call, Err(error)),
                    Ok(inside) => self.resume_resolved(call, inside),
                }
            },
            (CallPhase::ResolvingParent(name), FileReply::Path(resolved)) => {
                match self.resolve_existing(resolved, call.action.path()) {
                    Err(error) => finish_call(call, Err(error)),
                    Ok(inside) => {
                        let target = join_path(self.policy.style, inside.as_str(), name.as_str());
                        let request = FileRequest::CheckLink(target.clone());
                        ask(call, CallPhase::CheckingTarget(target), request)
                    },
                }
            },
            (CallPhase::CheckingTarget(target), FileReply::Link(link)) => {
                let target = target.clone();
                self.resume_checked(call, target, link)
            },
            (CallPhase::Reading, FileReply::Text(text)) => match text {
                Ok(contents) => finish_call(call, Ok(ToolOutput::Contents(contents))),
                Err(message) => finish_call(call, Err(SandboxError::Io(message))),
            },
            (CallPhase::Listing, FileReply::Entries(entries)) => match entries {
                Ok(names) => finish_call(call, Ok(ToolOutput::Entries(sort_text(&names)))),
                Err(message) => finish_call(call, Err(SandboxError::Io(message))),
            },
            (CallPhase::Writing, FileReply::Written(done)) => match done {
                Err(message) => finish_call(call, Err(SandboxError::Io(message))),
                Ok(()) => match &call.action {
                    ToolAction::WriteFile { contents, .. } => {
                        let size = text_size(contents.as_str());
                        finish_call(call, Ok(ToolOutput::Wrote(size)))
                    },
                    _ => finish_call(call, Err(mismatch())),
                },
            },
            (CallPhase::Testing, FileReply::Tests(outcome)) => match outcome {
                Ok(passed) => finish_call(call, Ok(ToolOutput::Tests(passed))),
                Err(message) => finish_call(call, Err(SandboxError::Io(message))),
            },
            _ => finish_call(call, Err(mismatch())),
        }
    }

    /// Begins to read a file.
    pub fn read_file(&self, relative_path: &str) -> (next: (ToolCall, ToolProgress))
        ensures
            (next.0@, next.1@) == call_started(
                self@,
                ToolActionView::ReadFile(relative_path@),
                false,
            ),
    {
        self.start(ToolAction::ReadFile(relative_path.to_owned()), false)
    }

    /// Begins to write a file.
    pub fn write_file(&self, relative_path: &str, contents: &str) -> (next: (
        ToolCall,
        ToolProgress,
    ))
        ensures
            (next.0@, next.1@) == call_started(
                self@,
                ToolActionView::WriteFile { path: relative_path@, contents: contents@ },
                false,
            ),
    {
        self.start(
            ToolAction::WriteFile {
                path: relative_path.to_owned(),
                contents: contents.to_owned(),
            },
            false,
        )
    }

    /// Begins to list a directory.
    pub fn list_dir(&self, relative_path: &str) -> (next: (ToolCall, ToolProgress))
        ensures
            (next.0@, next.1@) == call_started(self@, ToolActionView::ListDir(relative_path@), false),
    {
        self.start(ToolAction::ListDir(relative_path.to_owned()), false)
    }

    /// Begins to try whether a file could be read.
    pub fn validate_read(&self, relative_path: &str) -> (next: (ToolCall, ToolProgress))
        ensures
            (next.0@, next.1@) == call_started(self@, ToolActionView::ReadFile(relative_path@), true),
    {
        self.start(ToolAction::ReadFile(relative_path.to_owned()), true)
    }

    /// Begins to try whether a file could be written.
    pub fn validate_write(&self, relative_path: &str, contents: &str) -> (next: (
        ToolCall,
        ToolProgress,
    ))
        ensures
            (next.0@, next.1@) == call_started(
                self@,
                ToolActionView::WriteFile { path: relative_path@, contents: contents@ },
                true,
            ),
    {
        self.start(
            ToolAction::WriteFile {
                path: relative_path.to_owned(),
                contents: contents.to_owned(),
            },
            true,
        )
    }
}

} // verus!
