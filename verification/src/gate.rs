//! Gates: checks that turn facts about a workspace into passes and failures.

use crate::path::{is_inside, is_plain_relative};
use crate::sandbox::{
    call_resumed, call_started, sandbox_error_text, FileReply, FileReplyView, FileRequest,
    FileRequestView, Policy, PolicyView, SandboxError, SandboxErrorView, Tool, ToolActionView,
    ToolCall, ToolCallView, ToolOutput, ToolOutputView, ToolProgress, ToolProgressView, ToolRouter,
};
use crate::text::{contains_text, has_text, res_view, views};
use vstd::prelude::*;
use vstd::string::StringExecFns;

verus! {

/// What a gate found.
#[derive(Debug)]
pub struct GateResult {
    pub name: String,
    pub passed: bool,
    pub evidence: String,
}

/// The mathematical form of a gate's result.
pub struct GateResultView {
    pub name: Seq<char>,
    pub passed: bool,
    pub evidence: Seq<char>,
}

impl View for GateResult {
    type V = GateResultView;

    open spec fn view(&self) -> GateResultView {
        GateResultView { name: self.name@, passed: self.passed, evidence: self.evidence@ }
    }
}

/// A gate that passed.
pub open spec fn gate_passed(name: Seq<char>, evidence: Seq<char>) -> GateResultView {
    GateResultView { name, passed: true, evidence }
}

/// A gate that failed.
pub open spec fn gate_failed(name: Seq<char>, evidence: Seq<char>) -> GateResultView {
    GateResultView { name, passed: false, evidence }
}

/// The text of a gate's result.
pub open spec fn gate_text(result: GateResultView) -> Seq<char> {
    (if result.passed {
        "PASS"@
    } else {
        "FAIL"@
    }) + " "@ + result.name + ": "@ + result.evidence
}

impl GateResult {
    /// A gate that passed.
    pub fn pass(name: &str, evidence: &str) -> (result: GateResult)
        ensures
            result@ == gate_passed(name@, evidence@),
    {
        GateResult { name: name.to_owned(), passed: true, evidence: evidence.to_owned() }
    }

    /// A gate that failed.
    pub fn fail(name: &str, evidence: &str) -> (result: GateResult)
        ensures
            result@ == gate_failed(name@, evidence@),
    {
        GateResult { name: name.to_owned(), passed: false, evidence: evidence.to_owned() }
    }

    /// The text of the result.
    pub fn message(&self) -> (text: String)
        ensures
            text@ == gate_text(self@),
    {
        let mut text = if self.passed {
            "PASS".to_owned()
        } else {
            "FAIL".to_owned()
        };
        text.append(" ");
        text.append(self.name.as_str());
        text.append(": ");
        text.append(self.evidence.as_str());
        text
    }
}

/// Whether every gate passed.
pub open spec fn all_passed(results: Seq<GateResultView>) -> bool {
    forall|i: int| 0 <= i < results.len() ==> (#[trigger] results[i]).passed
}

/// Tells whether every gate passed.
pub fn evaluate_all(results: &Vec<GateResult>) -> (all: bool)
    ensures
        all == all_passed(views(results@)),
{
    let ghost found = views(results@);
    let mut i: usize = 0;
    while i < results.len()
        invariant
            found == views(results@),
            i <= results@.len(),
            forall|j: int| 0 <= j < i ==> (#[trigger] found[j]).passed,
        decreases results@.len() - i,
    {
        if !results[i].passed {
            assert(!found[i as int].passed);
            return false;
        }
        i = i + 1;
    }
    true
}

// Checking a workspace

/// What a gate asks of a path. Existence is first tried as a directory and
/// then as a file.
#[derive(Debug)]
pub enum GateQuestion {
    IsDirectory(String),
    IsFile(String),
    Contains { path: String, expected: String },
}

/// The mathematical form of a gate's question.
pub enum GateQuestionView {
    IsDirectory(Seq<char>),
    IsFile(Seq<char>),
    Contains { path: Seq<char>, expected: Seq<char> },
}

impl View for GateQuestion {
    type V = GateQuestionView;

    open spec fn view(&self) -> GateQuestionView {
        match self {
            GateQuestion::IsDirectory(path) => GateQuestionView::IsDirectory(path@),
            GateQuestion::IsFile(path) => GateQuestionView::IsFile(path@),
            GateQuestion::Contains { path, expected } => GateQuestionView::Contains {
                path: path@,
                expected: expected@,
            },
        }
    }
}

/// The name of a gate.
pub open spec fn gate_name(question: GateQuestionView) -> Seq<char> {
    match question {
        GateQuestionView::IsDirectory(path) => "file_exists:"@ + path,
        GateQuestionView::IsFile(path) => "file_exists:"@ + path,
        GateQuestionView::Contains { path, .. } => "file_contains:"@ + path,
    }
}

/// How a gate uses the tools.
pub open spec fn gate_action(question: GateQuestionView) -> ToolActionView {
    match question {
        GateQuestionView::IsDirectory(path) => ToolActionView::ListDir(path),
        GateQuestionView::IsFile(path) => ToolActionView::ReadFile(path),
        GateQuestionView::Contains { path, .. } => ToolActionView::ReadFile(path),
    }
}

/// A gate that waits for the host.
#[derive(Debug)]
pub struct GateCheck {
    pub router: ToolRouter,
    pub question: GateQuestion,
    pub call: ToolCall,
}

/// The mathematical form of a gate that waits for the host.
pub struct GateCheckView {
    pub policy: PolicyView,
    pub question: GateQuestionView,
    pub call: ToolCallView,
}

impl View for GateCheck {
    type V = GateCheckView;

    open spec fn view(&self) -> GateCheckView {
        GateCheckView { policy: self.router@, question: self.question@, call: self.call@ }
    }
}

/// What comes next in a gate: a request to the host, or its result.
#[derive(Debug)]
pub enum GateStep {
    Ask(GateCheck, FileRequest),
    Done(GateResult),
}

/// The mathematical form of what comes next in a gate.
pub enum GateStepView {
    Ask(GateCheckView, FileRequestView),
    Done(GateResultView),
}

impl View for GateStep {
    type V = GateStepView;

    open spec fn view(&self) -> GateStepView {
        match self {
            GateStep::Ask(check, request) => GateStepView::Ask(check@, request@),
            GateStep::Done(result) => GateStepView::Done(result@),
        }
    }
}

/// The result of a gate that looked for a text.
pub open spec fn contains_result(
    path: Seq<char>,
    expected: Seq<char>,
    outcome: Result<ToolOutputView, SandboxErrorView>,
) -> GateResultView {
    let name = "file_contains:"@ + path;
    match outcome {
        Ok(ToolOutputView::Contents(contents)) => if has_text(contents, expected) {
            gate_passed(name, "found expected text `"@ + expected + "`"@)
        } else {
            gate_failed(name, "expected text `"@ + expected + "` was absent"@)
        },
        Ok(_) => gate_failed(name, "expected text `"@ + expected + "` was absent"@),
        Err(error) => gate_failed(name, sandbox_error_text(error)),
    }
}

/// What follows from what a tool gave, except for a path that is no directory.
pub open spec fn gate_result(
    question: GateQuestionView,
    outcome: Result<ToolOutputView, SandboxErrorView>,
) -> GateResultView {
    match question {
        GateQuestionView::Contains { path, expected } => contains_result(path, expected, outcome),
        GateQuestionView::IsDirectory(_) => match outcome {
            Ok(_) => gate_passed(gate_name(question), "path exists and is a directory"@),
            Err(error) => gate_failed(gate_name(question), sandbox_error_text(error)),
        },
        GateQuestionView::IsFile(_) => match outcome {
            Ok(_) => gate_passed(gate_name(question), "path exists and is a file"@),
            Err(error) => gate_failed(gate_name(question), sandbox_error_text(error)),
        },
    }
}

/// What comes next in a gate that asks for no directory.
pub open spec fn gate_file_step(
    policy: PolicyView,
    question: GateQuestionView,
    next: (ToolCallView, ToolProgressView),
) -> GateStepView {
    match next.1 {
        ToolProgressView::Ask(request) => GateStepView::Ask(
            GateCheckView { policy, question, call: next.0 },
            request,
        ),
        ToolProgressView::Done(outcome) => GateStepView::Done(gate_result(question, outcome)),
    }
}

/// What comes next in a gate.
pub open spec fn gate_step(
    policy: PolicyView,
    question: GateQuestionView,
    next: (ToolCallView, ToolProgressView),
) -> GateStepView {
    match (question, next.1) {
        (GateQuestionView::IsDirectory(path), ToolProgressView::Done(Err(_))) => {
            let file = GateQuestionView::IsFile(path);
            gate_file_step(policy, file, call_started(policy, gate_action(file), false))
        },
        _ => gate_file_step(policy, question, next),
    }
}

/// How a gate begins. It fails if its workspace cannot be opened.
pub open spec fn gate_started(
    policy: Result<PolicyView, SandboxErrorView>,
    question: GateQuestionView,
) -> GateStepView {
    match policy {
        Err(error) => GateStepView::Done(gate_failed(gate_name(question), sandbox_error_text(error))),
        Ok(policy) => gate_step(
            policy,
            question,
            call_started(policy, gate_action(question), false),
        ),
    }
}

/// How a gate goes on after an answer of the host.
pub open spec fn gate_resumed(check: GateCheckView, reply: FileReplyView) -> GateStepView {
    gate_step(check.policy, check.question, call_resumed(check.policy, check.call, reply))
}

fn wrap_text(before: &str, text: &str, after: &str) -> (whole: String)
    ensures
        whole@ == before@ + text@ + after@,
{
    let mut whole = before.to_owned();
    whole.append(text);
    whole.append(after);
    whole
}

impl GateQuestion {
    /// The name of a gate with this question.
    pub fn name(&self) -> (name: String)
        ensures
            name@ == gate_name(self@),
    {
        match self {
            GateQuestion::IsDirectory(path) => {
                let mut name = "file_exists:".to_owned();
                name.append(path.as_str());
                name
            },
            GateQuestion::IsFile(path) => {
                let mut name = "file_exists:".to_owned();
                name.append(path.as_str());
                name
            },
            GateQuestion::Contains { path, .. } => {
                let mut name = "file_contains:".to_owned();
                name.append(path.as_str());
                name
            },
        }
    }

    fn begin(&self, router: &ToolRouter) -> (next: (ToolCall, ToolProgress))
        ensures
            (next.0@, next.1@) == call_started(router@, gate_action(self@), false),
    {
        match self {
            GateQuestion::IsDirectory(path) => router.list_dir(path.as_str()),
            GateQuestion::IsFile(path) => router.read_file(path.as_str()),
            GateQuestion::Contains { path, .. } => router.read_file(path.as_str()),
        }
    }

    /// What follows from what a tool gave, except for a path that is no
    /// directory.
    pub fn judge(&self, outcome: Result<ToolOutput, SandboxError>) -> (result: GateResult)
        ensures
            result@ == gate_result(self@, res_view(outcome)),
    {
        let name = self.name();
        match outcome {
            Err(error) => GateResult::fail(name.as_str(), error.message().as_str()),
            Ok(output) => match self {
                GateQuestion::IsDirectory(_) => GateResult::pass(
                    name.as_str(),
                    "path exists and is a directory",
                ),
                GateQuestion::IsFile(_) => GateResult::pass(
                    name.as_str(),
                    "path exists and is a file",
                ),
                GateQuestion::Contains { expected, .. } => {
                    let found = match &output {
                        ToolOutput::Contents(contents) => contains_text(
                            contents.as_str(),
                            expected.as_str(),
                        ),
                        _ => false,
                    };
                    if found {
                        let evidence = wrap_text("found expected text `", expected.as_str(), "`");
                        GateResult::pass(name.as_str(), evidence.as_str())
                    } else {
                        let evidence = wrap_text("expected text `", expected.as_str(), "` was absent");
                        GateResult::fail(name.as_str(), evidence.as_str())
                    }
                },
            },
        }
    }
}

fn step_file(router: ToolRouter, question: GateQuestion, next: (ToolCall, ToolProgress)) -> (step:
    GateStep)
    ensures
        step@ == gate_file_step(router@, question@, (next.0@, next.1@)),
{
    match next.1 {
        ToolProgress::Ask(request) => GateStep::Ask(
            GateCheck { router, question, call: next.0 },
            request,
        ),
        ToolProgress::Done(outcome) => GateStep::Done(question.judge(outcome)),
    }
}

fn step_gate(router: ToolRouter, question: GateQuestion, next: (ToolCall, ToolProgress)) -> (step:
    GateStep)
    ensures
        step@ == gate_step(router@, question@, (next.0@, next.1@)),
{
    let no_directory = match (&question, &next.1) {
        (GateQuestion::IsDirectory(_), ToolProgress::Done(Err(_))) => true,
        _ => false,
    };
    match question {
        GateQuestion::IsDirectory(path) => {
            if no_directory {
                let file = GateQuestion::IsFile(path);
                let next = file.begin(&router);
                step_file(router, file, next)
            } else {
                step_file(router, GateQuestion::IsDirectory(path), next)
            }
        },
        other => step_file(router, other, next),
    }
}

/// Begins a gate in a workspace.
pub fn start_gate(policy: Result<Policy, SandboxError>, question: GateQuestion) -> (step: GateStep)
    ensures
        step@ == gate_started(res_view(policy), question@),
{
    match policy {
        Err(error) => GateStep::Done(
            GateResult::fail(question.name().as_str(), error.message().as_str()),
        ),
        Ok(policy) => {
            let router = ToolRouter::new(policy);
            let next = question.begin(&router);
            step_gate(router, question, next)
        },
    }
}

/// Goes on with a gate after an answer of the host.
pub fn resume_gate(check: GateCheck, reply: FileReply) -> (step: GateStep)
    ensures
        step@ == gate_resumed(check@, reply@),
{
    let next = check.router.resume(check.call, reply);
    step_gate(check.router, check.question, next)
}

/// Begins a gate on the existence of a path.
pub fn file_exists(policy: Result<Policy, SandboxError>, relative_path: &str) -> (step: GateStep)
    ensures
        step@ == gate_started(res_view(policy), GateQuestionView::IsDirectory(relative_path@)),
{
    start_gate(policy, GateQuestion::IsDirectory(relative_path.to_owned()))
}

/// Begins a gate on a text in a file.
pub fn file_contains(
    policy: Result<Policy, SandboxError>,
    relative_path: &str,
    expected: &str,
) -> (step: GateStep)
    ensures
        step@ == gate_started(
            res_view(policy),
            GateQuestionView::Contains { path: relative_path@, expected: expected@ },
        ),
{
    start_gate(
        policy,
        GateQuestion::Contains { path: relative_path.to_owned(), expected: expected.to_owned() },
    )
}

// Laws

/// A gate after the host has given some answers; once it is done it stays so.
pub open spec fn gate_after(
    policy: Result<PolicyView, SandboxErrorView>,
    question: GateQuestionView,
    replies: Seq<FileReplyView>,
) -> GateStepView
    decreases replies.len(),
{
    if replies.len() == 0 {
        gate_started(policy, question)
    } else {
        match gate_after(policy, question, replies.drop_last()) {
            GateStepView::Ask(check, _) => gate_resumed(check, replies.last()),
            GateStepView::Done(result) => GateStepView::Done(result),
        }
    }
}

/// A gate that waits asks what it was begun with, and waits for the text only
/// while the tool reads it.
spec fn waits_for_text(step: GateStepView, path: Seq<char>, expected: Seq<char>) -> bool {
    match step {
        GateStepView::Ask(check, _) => {
            &&& check.question == (GateQuestionView::Contains { path, expected })
            &&& check.call.action == ToolActionView::ReadFile(path)
            &&& !check.call.trial
        },
        GateStepView::Done(_) => true,
    }
}

proof fn lemma_waits_for_text(
    policy: Result<PolicyView, SandboxErrorView>,
    path: Seq<char>,
    expected: Seq<char>,
    replies: Seq<FileReplyView>,
)
    ensures
        waits_for_text(
            gate_after(policy, GateQuestionView::Contains { path, expected }, replies),
            path,
            expected,
        ),
    decreases replies.len(),
{
    if replies.len() > 0 {
        lemma_waits_for_text(policy, path, expected, replies.drop_last());
    }
}

/// A gate for a text fails closed: it passes only if the host read a file that
/// contains the text. Everything else, an answer of the wrong kind, a denial or
/// an error of the host, fails it.
pub proof fn contains_gate_fails_closed(
    policy: Result<PolicyView, SandboxErrorView>,
    path: Seq<char>,
    expected: Seq<char>,
    replies: Seq<FileReplyView>,
)
    ensures
        gate_after(policy, GateQuestionView::Contains { path, expected }, replies) matches
            GateStepView::Done(result) ==> result.passed ==> exists|i: int|
            0 <= i < replies.len() && (#[trigger] replies[i] matches FileReplyView::Text(
                Ok(contents),
            ) && has_text(contents, expected)),
    decreases replies.len(),
{
    let question = GateQuestionView::Contains { path, expected };
    if replies.len() > 0 {
        let front = replies.drop_last();
        contains_gate_fails_closed(policy, path, expected, front);
        lemma_waits_for_text(policy, path, expected, front);
        match gate_after(policy, question, front) {
            GateStepView::Ask(check, _) => {
                match gate_after(policy, question, replies) {
                    GateStepView::Done(result) => {
                        if result.passed {
                            assert(replies[replies.len() - 1] == replies.last());
                        }
                    },
                    _ => {},
                }
            },
            GateStepView::Done(result) => {
                if result.passed {
                    let i = choose|i: int|
                        0 <= i < front.len() && (#[trigger] front[i] matches FileReplyView::Text(
                            Ok(contents),
                        ) && has_text(contents, expected));
                    assert(replies[i] == front[i]);
                }
            },
        }
    }
}

/// A gate for a text that may be read passes exactly if the file that the host
/// found in the workspace contains the text.
pub proof fn text_gates_pass_on_their_text(
    policy: PolicyView,
    path: Seq<char>,
    expected: Seq<char>,
    place: Seq<char>,
    contents: Seq<char>,
)
    requires
        policy.tools.contains(Tool::ReadFile),
        is_plain_relative(policy.style, path),
        is_inside(policy.style, place, policy.root),
    ensures
        ({
            let replies = seq![FileReplyView::Path(Ok(place)), FileReplyView::Text(Ok(contents))];
            gate_after(Ok(policy), GateQuestionView::Contains { path, expected }, replies) matches
                GateStepView::Done(result) && (result.passed <==> has_text(contents, expected))
        }),
{
    let replies = seq![FileReplyView::Path(Ok(place)), FileReplyView::Text(Ok(contents))];
    assert(replies.drop_last() =~= seq![FileReplyView::Path(Ok(place))]);
    assert(replies.drop_last().drop_last() =~= Seq::<FileReplyView>::empty());
    reveal_with_fuel(gate_after, 3);
}

/// A gate for existence passes if the host can list what it found in the
/// workspace, or else read it, and fails if it can do neither.
pub proof fn existence_gates_pass_on_what_is_there(
    policy: PolicyView,
    path: Seq<char>,
    place: Seq<char>,
    names: Seq<Seq<char>>,
    contents: Result<Seq<char>, Seq<char>>,
    message: Seq<char>,
)
    requires
        policy.tools.contains(Tool::ListDir),
        policy.tools.contains(Tool::ReadFile),
        is_plain_relative(policy.style, path),
        is_inside(policy.style, place, policy.root),
    ensures
        ({
            let question = GateQuestionView::IsDirectory(path);
            let found = FileReplyView::Path(Ok(place));
            let directory = seq![found, FileReplyView::Entries(Ok(names))];
            let file = seq![
                found,
                FileReplyView::Entries(Err(message)),
                found,
                FileReplyView::Text(contents),
            ];
            let nothing = seq![FileReplyView::Path(Err(message)), FileReplyView::Path(Err(message))];
            &&& gate_after(Ok(policy), question, directory) matches GateStepView::Done(result)
                && result.passed
            &&& gate_after(Ok(policy), question, file) matches GateStepView::Done(result) && (
            result.passed <==> contents is Ok)
            &&& gate_after(Ok(policy), question, nothing) matches GateStepView::Done(result)
                && !result.passed
        }),
{
    let found = FileReplyView::Path(Ok(place));
    let none = Seq::<FileReplyView>::empty();
    let directory = seq![found, FileReplyView::Entries(Ok(names))];
    assert(directory.drop_last() =~= seq![found]);
    assert(seq![found].drop_last() =~= none);
    let file = seq![
        found,
        FileReplyView::Entries(Err(message)),
        found,
        FileReplyView::Text(contents),
    ];
    assert(file.drop_last() =~= seq![found, FileReplyView::Entries(Err(message)), found]);
    assert(file.drop_last().drop_last() =~= seq![found, FileReplyView::Entries(Err(message))]);
    assert(file.drop_last().drop_last().drop_last() =~= seq![found]);
    let missing = FileReplyView::Path(Err(message));
    assert(seq![missing, missing].drop_last() =~= seq![missing]);
    assert(seq![missing].drop_last() =~= none);
    reveal_with_fuel(gate_after, 5);
}

/// A gate whose workspace cannot be opened fails at once. A gate tells its path,
/// and all gates pass only if each of them does.
pub proof fn gates_name_what_they_check(
    error: SandboxErrorView,
    question: GateQuestionView,
    results: Seq<GateResultView>,
    more: GateResultView,
)
    ensures
        gate_started(Err(error), question) matches GateStepView::Done(result) && !result.passed
            && result.name == gate_name(question),
        match question {
            GateQuestionView::Contains { path, .. } => gate_name(question) == "file_contains:"@
                + path,
            GateQuestionView::IsDirectory(path) => gate_name(question) == "file_exists:"@ + path,
            GateQuestionView::IsFile(path) => gate_name(question) == "file_exists:"@ + path,
        },
        all_passed(results.push(more)) <==> all_passed(results) && more.passed,
        all_passed(Seq::empty()),
        gate_text(more) == if more.passed {
            "PASS "@ + more.name + ": "@ + more.evidence
        } else {
            "FAIL "@ + more.name + ": "@ + more.evidence
        },
{
    let longer = results.push(more);
    if all_passed(longer) {
        assert forall|i: int| 0 <= i < results.len() implies (#[trigger] results[i]).passed by {
            assert(longer[i].passed);
        }
        assert(longer[results.len() as int].passed);
    }
    if all_passed(results) && more.passed {
        assert forall|i: int| 0 <= i < longer.len() implies (#[trigger] longer[i]).passed by {
            if i < results.len() {
                assert(results[i].passed);
            }
        }
    }
    reveal_strlit("PASS");
    reveal_strlit("FAIL");
    reveal_strlit(" ");
    reveal_strlit("PASS ");
    reveal_strlit("FAIL ");
    assert("PASS"@ + " "@ =~= "PASS "@);
    assert("FAIL"@ + " "@ =~= "FAIL "@);
}

/// What a gate tells: its name, and the reason why it passed or failed. What the
/// policy or the host refused is told as the refusal tells it.
pub proof fn gates_tell_their_reason(
    question: GateQuestionView,
    outcome: Result<ToolOutputView, SandboxErrorView>,
)
    ensures
        ({
            let result = gate_result(question, outcome);
            &&& result.name == gate_name(question)
            &&& outcome matches Err(error) ==> !result.passed && result.evidence
                == sandbox_error_text(error)
            &&& outcome is Ok ==> match question {
                GateQuestionView::IsDirectory(_) => result.passed && result.evidence
                    == "path exists and is a directory"@,
                GateQuestionView::IsFile(_) => result.passed && result.evidence
                    == "path exists and is a file"@,
                GateQuestionView::Contains { expected, .. } => {
                    &&& result.passed <==> outcome->Ok_0 is Contents && has_text(
                        outcome->Ok_0->Contents_0,
                        expected,
                    )
                    &&& result.evidence == if result.passed {
                        "found expected text `"@ + expected + "`"@
                    } else {
                        "expected text `"@ + expected + "` was absent"@
                    }
                },
            }
        }),
{
}

} // verus!
