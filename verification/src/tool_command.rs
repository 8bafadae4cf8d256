//! The command that uses one tool: its settings, the policy they make, and the
//! step that is kept of it.

use crate::cli::{with_usage, DEFAULT_STORE, TOOL_USAGE};
use crate::json::{json_parse, member, parse_json, Json, JsonView};
use crate::number::{bounded_number, parse_bounded, unsigned_number};
use crate::path::PathStyle;
use crate::run::{idempotency_key, key_for};
use crate::sandbox::{
    read_only_policy, tool_name, tool_of, workspace_policy, workspace_root, Policy, PolicyView,
    SandboxError, SandboxErrorView, Tool, ToolAction, ToolActionView,
};
use crate::store::{ToolStepSpec, ToolStepSpecView};
use crate::text::{opt_view, res_view, same_text, views};
use vstd::prelude::*;
use vstd::string::StringExecFns;

verus! {

/// The settings of the use of a tool.
#[derive(Debug)]
pub struct ToolSettings {
    pub workspace: Option<String>,
    pub path: Option<String>,
    pub contents: Option<String>,
    pub read_only: bool,
    pub denied: Option<Tool>,
    pub store: String,
    pub pause_ms: u64,
    pub max_write_bytes: Option<usize>,
    pub policy_file: Option<String>,
}

/// The mathematical form of the settings of the use of a tool.
pub struct ToolSettingsView {
    pub workspace: Option<Seq<char>>,
    pub path: Option<Seq<char>>,
    pub contents: Option<Seq<char>>,
    pub read_only: bool,
    pub denied: Option<Tool>,
    pub store: Seq<char>,
    pub pause_ms: nat,
    pub max_write_bytes: Option<nat>,
    pub policy_file: Option<Seq<char>>,
}

impl View for ToolSettings {
    type V = ToolSettingsView;

    open spec fn view(&self) -> ToolSettingsView {
        ToolSettingsView {
            workspace: opt_view(self.workspace),
            path: opt_view(self.path),
            contents: opt_view(self.contents),
            read_only: self.read_only,
            denied: self.denied,
            store: self.store@,
            pause_ms: self.pause_ms as nat,
            max_write_bytes: crate::exec::opt_count(self.max_write_bytes),
            policy_file: opt_view(self.policy_file),
        }
    }
}

/// The settings before any is given.
pub open spec fn default_tool_settings() -> ToolSettingsView {
    ToolSettingsView {
        workspace: None,
        path: None,
        contents: None,
        read_only: false,
        denied: None,
        store: DEFAULT_STORE@,
        pause_ms: 0,
        max_write_bytes: None,
        policy_file: None,
    }
}

/// The value that follows an option, whatever it looks like.
pub open spec fn value_after(arguments: Seq<Seq<char>>, index: nat) -> Result<
    Seq<char>,
    Seq<char>,
> {
    if index + 1 < arguments.len() {
        Ok(arguments[index as int + 1])
    } else {
        Err(arguments[index as int] + " requires a value"@)
    }
}

/// The settings with one more, whose value follows its name.
pub open spec fn with_setting(
    settings: ToolSettingsView,
    option: Seq<char>,
    value: Seq<char>,
) -> Result<ToolSettingsView, Seq<char>> {
    if option == "--workspace"@ {
        Ok(ToolSettingsView { workspace: Some(value), ..settings })
    } else if option == "--path"@ {
        Ok(ToolSettingsView { path: Some(value), ..settings })
    } else if option == "--contents"@ {
        Ok(ToolSettingsView { contents: Some(value), ..settings })
    } else if option == "--store"@ {
        Ok(ToolSettingsView { store: value, ..settings })
    } else if option == "--policy"@ {
        Ok(ToolSettingsView { policy_file: Some(value), ..settings })
    } else if option == "--pause-ms"@ {
        match bounded_number(value, u64::MAX as nat) {
            Some(number) => Ok(ToolSettingsView { pause_ms: number, ..settings }),
            None => Err("--pause-ms expects an integer"@),
        }
    } else if option == "--max-write-bytes"@ {
        match bounded_number(value, usize::MAX as nat) {
            Some(number) => if number > 0 {
                Ok(ToolSettingsView { max_write_bytes: Some(number), ..settings })
            } else {
                Err("--max-write-bytes expects a positive integer"@)
            },
            None => Err("--max-write-bytes expects a positive integer"@),
        }
    } else {
        match tool_of(value) {
            Some(tool) => Ok(ToolSettingsView { denied: Some(tool), ..settings }),
            None => Err(with_usage("unknown tool `"@ + value + "`"@, TOOL_USAGE@)),
        }
    }
}

/// Whether an option is followed by a value.
pub open spec fn takes_value(option: Seq<char>) -> bool {
    ||| option == "--workspace"@
    ||| option == "--path"@
    ||| option == "--contents"@
    ||| option == "--store"@
    ||| option == "--policy"@
    ||| option == "--pause-ms"@
    ||| option == "--max-write-bytes"@
    ||| option == "--deny-tool"@
}

/// The settings that arguments give, from one of them on.
pub open spec fn tool_settings_from(
    arguments: Seq<Seq<char>>,
    index: nat,
    settings: ToolSettingsView,
) -> Result<ToolSettingsView, Seq<char>>
    decreases arguments.len() - index,
{
    if index >= arguments.len() {
        Ok(settings)
    } else {
        let option = arguments[index as int];
        if takes_value(option) {
            match value_after(arguments, index) {
                Err(error) => Err(error),
                Ok(value) => match with_setting(settings, option, value) {
                    Err(error) => Err(error),
                    Ok(settings) => tool_settings_from(arguments, index + 2, settings),
                },
            }
        } else if option == "--read-only"@ {
            tool_settings_from(
                arguments,
                index + 1,
                ToolSettingsView { read_only: true, ..settings },
            )
        } else if option == "--help"@ || option == "-h"@ {
            Err(TOOL_USAGE@)
        } else {
            Err(with_usage("unknown option `"@ + option + "`"@, TOOL_USAGE@))
        }
    }
}

/// The tool that a command word stands for.
pub open spec fn command_tool(word: Seq<char>) -> Option<Tool> {
    if word == "read"@ {
        Some(Tool::ReadFile)
    } else if word == "write"@ {
        Some(Tool::WriteFile)
    } else if word == "list"@ {
        Some(Tool::ListDir)
    } else if word == "run-tests"@ {
        Some(Tool::RunTests)
    } else {
        None
    }
}

/// The use of a tool.
#[derive(Debug)]
pub struct ToolCommand {
    pub tool: Tool,
    pub workspace: String,
    pub settings: ToolSettings,
}

/// The mathematical form of the use of a tool.
pub struct ToolCommandView {
    pub tool: Tool,
    pub workspace: Seq<char>,
    pub settings: ToolSettingsView,
}

impl View for ToolCommand {
    type V = ToolCommandView;

    open spec fn view(&self) -> ToolCommandView {
        ToolCommandView {
            tool: self.tool,
            workspace: self.workspace@,
            settings: self.settings@,
        }
    }
}

/// The use of a tool that arguments ask for.
pub open spec fn tool_command_of(arguments: Seq<Seq<char>>) -> Result<ToolCommandView, Seq<char>> {
    if arguments.len() == 0 {
        Err(TOOL_USAGE@)
    } else {
        match command_tool(arguments[0]) {
            None => Err(with_usage("unknown tool command `"@ + arguments[0] + "`"@, TOOL_USAGE@)),
            Some(tool) => match tool_settings_from(arguments, 1, default_tool_settings()) {
                Err(error) => Err(error),
                Ok(settings) => match settings.workspace {
                    Some(workspace) => Ok(ToolCommandView { tool, workspace, settings }),
                    None => Err(with_usage("--workspace is required"@, TOOL_USAGE@)),
                },
            },
        }
    }
}

// Carrying it out

fn say(before: &str, name: &str, after: &str) -> (text: String)
    ensures
        text@ == before@ + name@ + after@,
{
    let mut text = before.to_owned();
    text.append(name);
    text.append(after);
    text
}

fn say_two(first: &str, second: &str) -> (text: String)
    ensures
        text@ == first@ + second@,
{
    let mut text = first.to_owned();
    text.append(second);
    text
}

fn say_with_usage(message: &str) -> (text: String)
    ensures
        text@ == with_usage(message@, TOOL_USAGE@),
{
    let mut text = message.to_owned();
    text.append("\n\n");
    text.append(TOOL_USAGE);
    text
}

fn option_takes_value(option: &str) -> (res: bool)
    ensures
        res == takes_value(option@),
{
    same_text(option, "--workspace") || same_text(option, "--path") || same_text(
        option,
        "--contents",
    ) || same_text(option, "--store") || same_text(option, "--policy") || same_text(
        option,
        "--pause-ms",
    ) || same_text(option, "--max-write-bytes") || same_text(option, "--deny-tool")
}

fn apply_setting(settings: ToolSettings, option: &str, value: &str) -> (result: Result<
    ToolSettings,
    String,
>)
    ensures
        res_view(result) == with_setting(settings@, option@, value@),
{
    let mut settings = settings;
    if same_text(option, "--workspace") {
        settings.workspace = Some(value.to_owned());
    } else if same_text(option, "--path") {
        settings.path = Some(value.to_owned());
    } else if same_text(option, "--contents") {
        settings.contents = Some(value.to_owned());
    } else if same_text(option, "--store") {
        settings.store = value.to_owned();
    } else if same_text(option, "--policy") {
        settings.policy_file = Some(value.to_owned());
    } else if same_text(option, "--pause-ms") {
        match parse_bounded(value, u64::MAX) {
            Some(number) => {
                settings.pause_ms = number;
            },
            None => return Err("--pause-ms expects an integer".to_owned()),
        }
    } else if same_text(option, "--max-write-bytes") {
        match parse_bounded(value, usize::MAX as u64) {
            Some(number) => {
                if number == 0 {
                    return Err("--max-write-bytes expects a positive integer".to_owned());
                }
                settings.max_write_bytes = Some(number as usize);
            },
            None => return Err("--max-write-bytes expects a positive integer".to_owned()),
        }
    } else {
        match Tool::parse(value) {
            Some(tool) => {
                settings.denied = Some(tool);
            },
            None => {
                let message = say("unknown tool `", value, "`");
                return Err(say_with_usage(message.as_str()));
            },
        }
    }
    Ok(settings)
}

fn read_tool_settings(arguments: &Vec<String>) -> (result: Result<ToolSettings, String>)
    requires
        arguments@.len() > 0,
    ensures
        res_view(result) == tool_settings_from(views(arguments@), 1, default_tool_settings()),
{
    let ghost all = views(arguments@);
    let ghost expected = tool_settings_from(all, 1, default_tool_settings());
    let mut settings = ToolSettings {
        workspace: None,
        path: None,
        contents: None,
        read_only: false,
        denied: None,
        store: DEFAULT_STORE.to_owned(),
        pause_ms: 0,
        max_write_bytes: None,
        policy_file: None,
    };
    let mut index: usize = 1;
    while index < arguments.len()
        invariant
            all == views(arguments@),
            index <= arguments.len(),
            tool_settings_from(all, index as nat, settings@) == expected,
            expected == tool_settings_from(views(arguments@), 1, default_tool_settings()),
        decreases arguments@.len() - index,
    {
        proof {
            assert(all[index as int] == arguments@[index as int]@);
        }
        let option = arguments[index].as_str();
        if option_takes_value(option) {
            if index + 1 >= arguments.len() {
                return Err(say_two(option, " requires a value"));
            }
            proof {
                assert(all[index + 1] == arguments@[index + 1]@);
            }
            match apply_setting(settings, option, arguments[index + 1].as_str()) {
                Err(error) => return Err(error),
                Ok(changed) => {
                    settings = changed;
                },
            }
            index = index + 2;
        } else if same_text(option, "--read-only") {
            settings.read_only = true;
            index = index + 1;
        } else if same_text(option, "--help") || same_text(option, "-h") {
            return Err(TOOL_USAGE.to_owned());
        } else {
            let message = say("unknown option `", option, "`");
            return Err(say_with_usage(message.as_str()));
        }
    }
    Ok(settings)
}

fn read_command_tool(word: &str) -> (tool: Option<Tool>)
    ensures
        tool == command_tool(word@),
{
    if same_text(word, "read") {
        Some(Tool::ReadFile)
    } else if same_text(word, "write") {
        Some(Tool::WriteFile)
    } else if same_text(word, "list") {
        Some(Tool::ListDir)
    } else if same_text(word, "run-tests") {
        Some(Tool::RunTests)
    } else {
        None
    }
}

/// Reads which use of a tool arguments ask for.
pub fn parse_tool_command(arguments: &Vec<String>) -> (result: Result<ToolCommand, String>)
    ensures
        res_view(result) == tool_command_of(views(arguments@)),
{
    if arguments.len() == 0 {
        return Err(TOOL_USAGE.to_owned());
    }
    proof {
        assert(views(arguments@)[0] == arguments@[0]@);
    }
    let tool = match read_command_tool(arguments[0].as_str()) {
        None => {
            let message = say("unknown tool command `", arguments[0].as_str(), "`");
            return Err(say_with_usage(message.as_str()));
        },
        Some(tool) => tool,
    };
    let settings = match read_tool_settings(arguments) {
        Err(error) => return Err(error),
        Ok(settings) => settings,
    };
    match &settings.workspace {
        Some(workspace) => {
            let workspace = workspace.clone();
            Ok(ToolCommand { tool, workspace, settings })
        },
        None => Err(say_with_usage("--workspace is required")),
    }
}

// Policy files

/// The smaller of two limits, where there are two.
pub open spec fn stricter_limit(one: Option<nat>, other: Option<nat>) -> Option<nat> {
    match (one, other) {
        (Some(a), Some(b)) => Some(
            if a < b {
                a
            } else {
                b
            },
        ),
        (Some(a), None) => Some(a),
        (None, limit) => limit,
    }
}

/// The tool that is denied by one of two, where they do not deny different ones.
pub open spec fn joint_denial(one: Option<Tool>, other: Option<Tool>) -> Result<
    Option<Tool>,
    Seq<char>,
> {
    match (one, other) {
        (Some(a), Some(b)) => if a == b {
            Ok(Some(a))
        } else {
            Err("policy file and command line deny different tools"@)
        },
        (Some(a), None) => Ok(Some(a)),
        (None, denied) => Ok(denied),
    }
}

/// What a policy file adds to the settings. What the command line restricts
/// stays restricted.
pub open spec fn with_policy(settings: ToolSettingsView, policy: JsonView) -> Result<
    ToolSettingsView,
    Seq<char>,
> {
    match (
        policy,
        read_only_member(member(policy, "read_only"@)),
        denied_member(member(policy, "denied_tool"@)),
        limit_member(member(policy, "max_write_bytes"@)),
    ) {
        (JsonView::Object(_), Ok(read_only), Ok(denied), Ok(limit)) => match joint_denial(
            settings.denied,
            denied,
        ) {
            Ok(denied) => Ok(
                ToolSettingsView {
                    read_only: settings.read_only || read_only,
                    denied,
                    max_write_bytes: stricter_limit(settings.max_write_bytes, limit),
                    ..settings
                },
            ),
            Err(error) => Err(error),
        },
        (JsonView::Object(_), Err(error), _, _) => Err(error),
        (JsonView::Object(_), _, Err(error), _) => Err(error),
        (JsonView::Object(_), _, _, Err(error)) => Err(error),
        _ => Err("policy file must hold an object"@),
    }
}

/// Whether a policy file allows only reading.
pub open spec fn read_only_member(value: Option<JsonView>) -> Result<bool, Seq<char>> {
    match value {
        None => Ok(false),
        Some(JsonView::Bool(read_only)) => Ok(read_only),
        Some(_) => Err("policy member `read_only` must be true or false"@),
    }
}

/// The tool that a policy file denies.
pub open spec fn denied_member(value: Option<JsonView>) -> Result<Option<Tool>, Seq<char>> {
    match value {
        None => Ok(None),
        Some(JsonView::Text(name)) => match tool_of(name) {
            Some(tool) => Ok(Some(tool)),
            None => Err("policy member `denied_tool` names no tool"@),
        },
        Some(_) => Err("policy member `denied_tool` names no tool"@),
    }
}

/// The limit that a policy file sets on writes.
pub open spec fn limit_member(value: Option<JsonView>) -> Result<Option<nat>, Seq<char>> {
    match value {
        None => Ok(None),
        Some(JsonView::Number(text)) => match bounded_number(text, usize::MAX as nat) {
            Some(number) => if number > 0 {
                Ok(Some(number))
            } else {
                Err("policy member `max_write_bytes` must be a positive integer"@)
            },
            None => Err("policy member `max_write_bytes` must be a positive integer"@),
        },
        Some(_) => Err("policy member `max_write_bytes` must be a positive integer"@),
    }
}

/// What a policy file adds to the settings, from what reading it gave.
pub open spec fn with_policy_text(
    settings: ToolSettingsView,
    parsed: Result<JsonView, Seq<char>>,
) -> Result<ToolSettingsView, Seq<char>> {
    match parsed {
        Err(message) => Err("policy file is not JSON: "@ + message),
        Ok(policy) => with_policy(settings, policy),
    }
}

fn read_limit(value: Option<&Json>) -> (result: Result<Option<usize>, String>)
    ensures
        match result {
            Ok(limit) => limit_member(opt_json(value)) == Ok::<Option<nat>, Seq<char>>(
                crate::exec::opt_count(limit),
            ),
            Err(error) => limit_member(opt_json(value)) == Err::<Option<nat>, Seq<char>>(error@),
        },
{
    match value {
        None => Ok(None),
        Some(Json::Number(text)) => match parse_bounded(text.as_str(), usize::MAX as u64) {
            Some(number) => if number > 0 {
                Ok(Some(number as usize))
            } else {
                Err("policy member `max_write_bytes` must be a positive integer".to_owned())
            },
            None => Err("policy member `max_write_bytes` must be a positive integer".to_owned()),
        },
        Some(_) => Err("policy member `max_write_bytes` must be a positive integer".to_owned()),
    }
}

spec fn opt_json(value: Option<&Json>) -> Option<JsonView> {
    match value {
        Some(json) => Some(json@),
        None => None,
    }
}

impl ToolSettings {
    /// Adds what a policy says.
    pub fn apply_policy(self, policy: &Json) -> (result: Result<ToolSettings, String>)
        ensures
            res_view(result) == with_policy(self@, policy@),
    {
        match policy {
            Json::Object(_) => {},
            _ => return Err("policy file must hold an object".to_owned()),
        }
        let read_only = match policy.get("read_only") {
            None => false,
            Some(Json::Bool(read_only)) => *read_only,
            Some(_) => return Err("policy member `read_only` must be true or false".to_owned()),
        };
        let denied = match policy.get("denied_tool") {
            None => None,
            Some(Json::Text(name)) => match Tool::parse(name.as_str()) {
                Some(tool) => Some(tool),
                None => return Err("policy member `denied_tool` names no tool".to_owned()),
            },
            Some(_) => return Err("policy member `denied_tool` names no tool".to_owned()),
        };
        let limit = match read_limit(policy.get("max_write_bytes")) {
            Err(error) => return Err(error),
            Ok(limit) => limit,
        };
        let mut settings = self;
        settings.read_only = settings.read_only || read_only;
        match (settings.denied, denied) {
            (Some(one), Some(other)) => if one != other {
                return Err("policy file and command line deny different tools".to_owned());
            },
            (None, _) => {
                settings.denied = denied;
            },
            (Some(_), None) => {},
        }
        match (settings.max_write_bytes, limit) {
            (Some(one), Some(other)) => if other < one {
                settings.max_write_bytes = limit;
            },
            (None, _) => {
                settings.max_write_bytes = limit;
            },
            (Some(_), None) => {},
        }
        Ok(settings)
    }

    /// Adds what the text of a policy file says.
    pub fn apply_policy_text(self, text: &str) -> (result: Result<ToolSettings, String>)
        ensures
            res_view(result) == with_policy_text(self@, json_parse(text@)),
    {
        match parse_json(text) {
            Err(message) => Err(say_two("policy file is not JSON: ", message.as_str())),
            Ok(policy) => self.apply_policy(&policy),
        }
    }
}

/// A policy file only restricts: with it nothing is allowed that the command
/// line or the file alone would not allow.
pub proof fn policy_files_only_restrict(settings: ToolSettingsView, policy: JsonView)
    requires
        with_policy(settings, policy) is Ok,
    ensures
        ({
            let joint = with_policy(settings, policy)->Ok_0;
            let read_only = read_only_member(member(policy, "read_only"@));
            let denied = denied_member(member(policy, "denied_tool"@));
            let limit = limit_member(member(policy, "max_write_bytes"@));
            &&& joint.read_only <==> settings.read_only || read_only == Ok::<bool, Seq<char>>(true)
            &&& settings.denied is Some ==> joint.denied == settings.denied
            &&& denied matches Ok(Some(tool)) ==> joint.denied == Some(tool)
            &&& settings.max_write_bytes matches Some(own) ==> joint.max_write_bytes is Some
                && joint.max_write_bytes->0 <= own
            &&& limit matches Ok(Some(own)) ==> joint.max_write_bytes is Some
                && joint.max_write_bytes->0 <= own
        }),
{
}

// The step that is kept

/// The policy that the settings make, from what the host found at the
/// workspace.
pub open spec fn command_policy(
    settings: ToolSettingsView,
    canonical: Result<Seq<char>, Seq<char>>,
    is_directory: bool,
    style: PathStyle,
) -> Result<PolicyView, SandboxErrorView> {
    match workspace_root(canonical, is_directory) {
        Err(error) => Err(error),
        Ok(root) => {
            let base = if settings.read_only {
                read_only_policy(root, style)
            } else {
                workspace_policy(root, style)
            };
            Ok(
                PolicyView {
                    tools: match settings.denied {
                        Some(tool) => base.tools.remove(tool),
                        None => base.tools,
                    },
                    max_write_bytes: settings.max_write_bytes,
                    ..base
                },
            )
        },
    }
}

/// The path that a command names; the workspace itself if it names none.
pub open spec fn command_path(command: ToolCommandView) -> Seq<char> {
    match command.settings.path {
        Some(path) => path,
        None => "."@,
    }
}

/// What a command wants its tool to do.
pub open spec fn command_action(command: ToolCommandView) -> Result<ToolActionView, Seq<char>> {
    let path = command_path(command);
    match command.tool {
        Tool::ReadFile => Ok(ToolActionView::ReadFile(path)),
        Tool::WriteFile => match command.settings.contents {
            Some(contents) => Ok(ToolActionView::WriteFile { path, contents }),
            None => Err("--contents is required for write"@),
        },
        Tool::ListDir => Ok(ToolActionView::ListDir(path)),
        Tool::RunTests => Ok(ToolActionView::RunTests),
    }
}

/// The step that is kept of a command.
pub open spec fn command_spec(
    command: ToolCommandView,
    run_id: Seq<char>,
    root: Seq<char>,
) -> ToolStepSpecView {
    ToolStepSpecView {
        idempotency_key: key_for(run_id, 0),
        workspace_root: root,
        tool_name: tool_name(command.tool),
        path: command_path(command),
        contents: if command.tool == Tool::WriteFile {
            command.settings.contents
        } else {
            None
        },
        read_only: command.settings.read_only,
        denied_tool: match command.settings.denied {
            Some(tool) => Some(tool_name(tool)),
            None => None,
        },
        max_write_bytes: command.settings.max_write_bytes,
    }
}

impl ToolCommand {
    /// The policy that the settings make.
    pub fn policy(&self, canonical: Result<String, String>, is_directory: bool, style: PathStyle) -> (result:
        Result<Policy, SandboxError>)
        ensures
            res_view(result) == command_policy(
                self@.settings,
                res_view(canonical),
                is_directory,
                style,
            ),
    {
        let opened = if self.settings.read_only {
            Policy::read_only(canonical, is_directory, style)
        } else {
            Policy::workspace(canonical, is_directory, style)
        };
        match opened {
            Err(error) => Err(error),
            Ok(policy) => {
                let limited = match self.settings.max_write_bytes {
                    Some(limit) => policy.with_max_write_bytes(limit),
                    None => policy,
                };
                Ok(
                    match self.settings.denied {
                        Some(tool) => limited.deny_tool(tool),
                        None => limited,
                    },
                )
            },
        }
    }

    fn path(&self) -> (path: String)
        ensures
            path@ == command_path(self@),
    {
        match &self.settings.path {
            Some(path) => path.clone(),
            None => ".".to_owned(),
        }
    }

    /// What the command wants its tool to do.
    pub fn action(&self) -> (result: Result<ToolAction, String>)
        ensures
            res_view(result) == command_action(self@),
    {
        match self.tool {
            Tool::ReadFile => Ok(ToolAction::ReadFile(self.path())),
            Tool::WriteFile => match &self.settings.contents {
                Some(contents) => Ok(
                    ToolAction::WriteFile { path: self.path(), contents: contents.clone() },
                ),
                None => Err("--contents is required for write".to_owned()),
            },
            Tool::ListDir => Ok(ToolAction::ListDir(self.path())),
            Tool::RunTests => Ok(ToolAction::RunTests),
        }
    }

    /// The step that is kept of the command.
    pub fn spec(&self, run_id: &str, root: &str) -> (spec: ToolStepSpec)
        ensures
            spec@ == command_spec(self@, run_id@, root@),
    {
        let contents = match self.tool {
            Tool::WriteFile => crate::store::copy_text(&self.settings.contents),
            _ => None,
        };
        let denied_tool = match self.settings.denied {
            Some(tool) => Some(tool.name().to_owned()),
            None => None,
        };
        ToolStepSpec {
            idempotency_key: idempotency_key(run_id, 0),
            workspace_root: root.to_owned(),
            tool_name: self.tool.name().to_owned(),
            path: self.path(),
            contents,
            read_only: self.settings.read_only,
            denied_tool,
            max_write_bytes: self.settings.max_write_bytes,
        }
    }

    /// Whether the output of the tool is shown: what was written is not.
    pub fn shows_output(&self, output: &str) -> (shown: bool)
        ensures
            shown == (output@.len() > 0 && self@.tool != Tool::WriteFile),
    {
        match self.tool {
            Tool::WriteFile => false,
            _ => !output.is_empty(),
        }
    }
}

// Laws

/// A step that is kept of a command does the same again in another process: it
/// has the same work to do, under the same policy.
pub proof fn kept_commands_do_the_same(
    command: ToolCommandView,
    run_id: Seq<char>,
    root: Seq<char>,
    canonical: Result<Seq<char>, Seq<char>>,
    is_directory: bool,
    style: PathStyle,
)
    requires
        command_action(command) is Ok,
    ensures
        ({
            let task = crate::session::task_of(command_spec(command, run_id, root));
            &&& task is Ok
            &&& task->Ok_0.work == crate::session::TaskWorkView::Use(command_action(command)->Ok_0)
            &&& task->Ok_0.root == root
            &&& crate::session::task_policy(task->Ok_0, canonical, is_directory, style)
                == command_policy(command.settings, canonical, is_directory, style)
        }),
{
    crate::sandbox::tool_name_reads_back(command.tool);
    if command.settings.denied is Some {
        crate::sandbox::tool_name_reads_back(command.settings.denied->0);
    }
    reveal_strlit("gate_contains");
    reveal_strlit("read_file");
    reveal_strlit("write_file");
    reveal_strlit("list_dir");
    reveal_strlit("run_tests");
    assert("gate_contains"@.len() == 13);
}

proof fn lemma_appended(
    arguments: Seq<Seq<char>>,
    more: Seq<Seq<char>>,
    index: nat,
    settings: ToolSettingsView,
)
    requires
        index <= arguments.len(),
        tool_settings_from(arguments, index, settings) is Ok,
    ensures
        tool_settings_from(arguments + more, index, settings) == tool_settings_from(
            arguments + more,
            arguments.len(),
            tool_settings_from(arguments, index, settings)->Ok_0,
        ),
    decreases arguments.len() - index,
{
    let whole = arguments + more;
    if index < arguments.len() {
        let option = arguments[index as int];
        assert(whole[index as int] == option);
        if takes_value(option) {
            assert(whole[index as int + 1] == arguments[index as int + 1]);
            let next = with_setting(settings, option, arguments[index as int + 1])->Ok_0;
            lemma_appended(arguments, more, index + 2, next);
        } else {
            lemma_appended(
                arguments,
                more,
                index + 1,
                ToolSettingsView { read_only: true, ..settings },
            );
        }
    }
}

proof fn lemma_option_words()
    ensures
        "--workspace"@ != "--path"@,
        "--workspace"@ != "--contents"@,
        "--workspace"@ != "--store"@,
        "--workspace"@ != "--policy"@,
        "--workspace"@ != "--pause-ms"@,
        "--workspace"@ != "--max-write-bytes"@,
        "--workspace"@ != "--deny-tool"@,
        "--path"@ != "--contents"@,
        "--path"@ != "--store"@,
        "--path"@ != "--policy"@,
        "--path"@ != "--pause-ms"@,
        "--path"@ != "--max-write-bytes"@,
        "--path"@ != "--deny-tool"@,
        "--contents"@ != "--store"@,
        "--contents"@ != "--policy"@,
        "--contents"@ != "--pause-ms"@,
        "--contents"@ != "--max-write-bytes"@,
        "--contents"@ != "--deny-tool"@,
        "--store"@ != "--policy"@,
        "--store"@ != "--pause-ms"@,
        "--store"@ != "--max-write-bytes"@,
        "--store"@ != "--deny-tool"@,
        "--policy"@ != "--pause-ms"@,
        "--policy"@ != "--max-write-bytes"@,
        "--policy"@ != "--deny-tool"@,
        "--pause-ms"@ != "--max-write-bytes"@,
        "--pause-ms"@ != "--deny-tool"@,
        "--max-write-bytes"@ != "--deny-tool"@,
        !takes_value("--read-only"@),
{
    reveal_strlit("--workspace");
    reveal_strlit("--path");
    reveal_strlit("--contents");
    reveal_strlit("--store");
    reveal_strlit("--policy");
    reveal_strlit("--pause-ms");
    reveal_strlit("--max-write-bytes");
    reveal_strlit("--deny-tool");
    reveal_strlit("--read-only");
    assert("--workspace"@[2] == 'w');
    assert("--path"@[2] == 'p' && "--path"@.len() == 6);
    assert("--contents"@[2] == 'c');
    assert("--store"@[2] == 's');
    assert("--policy"@[2] == 'p' && "--policy"@.len() == 8);
    assert("--pause-ms"@[2] == 'p' && "--pause-ms"@.len() == 10);
    assert("--max-write-bytes"@[2] == 'm');
    assert("--deny-tool"@[2] == 'd');
    assert("--read-only"@[2] == 'r');
}

proof fn lemma_one_more(
    arguments: Seq<Seq<char>>,
    option: Seq<char>,
    value: Seq<char>,
    settings: ToolSettingsView,
)
    requires
        arguments.len() > 0,
        tool_settings_from(arguments, 1, default_tool_settings()) == Ok::<
            ToolSettingsView,
            Seq<char>,
        >(settings),
        takes_value(option),
    ensures
        tool_settings_from(arguments + seq![option, value], 1, default_tool_settings())
            == with_setting(settings, option, value),
        tool_settings_from(arguments + seq![option], 1, default_tool_settings()) is Err,
{
    let pair = arguments + seq![option, value];
    lemma_appended(arguments, seq![option, value], 1, default_tool_settings());
    assert(pair[arguments.len() as int] == option);
    assert(pair[arguments.len() as int + 1] == value);
    if let Ok(next) = with_setting(settings, option, value) {
        assert(tool_settings_from(pair, arguments.len() + 2, next) == Ok::<
            ToolSettingsView,
            Seq<char>,
        >(next));
    }
    let alone = arguments + seq![option];
    lemma_appended(arguments, seq![option], 1, default_tool_settings());
    assert(alone[arguments.len() as int] == option);
}

/// What an option adds to a use of a tool, whatever was said before: it sets its
/// own field to its value, also where that was set already, and no other.
/// Numbers and tools that are none are refused.
pub proof fn tool_options_set_their_own_field(
    arguments: Seq<Seq<char>>,
    value: Seq<char>,
    settings: ToolSettingsView,
)
    requires
        arguments.len() > 0,
        tool_settings_from(arguments, 1, default_tool_settings()) == Ok::<
            ToolSettingsView,
            Seq<char>,
        >(settings),
    ensures
        ({
            let read = |option: Seq<char>|
                tool_settings_from(
                    arguments + seq![option, value],
                    1,
                    default_tool_settings(),
                );
            let number = unsigned_number(value);
            &&& read("--workspace"@) == Ok::<ToolSettingsView, Seq<char>>(
                ToolSettingsView { workspace: Some(value), ..settings },
            )
            &&& read("--path"@) == Ok::<ToolSettingsView, Seq<char>>(
                ToolSettingsView { path: Some(value), ..settings },
            )
            &&& read("--contents"@) == Ok::<ToolSettingsView, Seq<char>>(
                ToolSettingsView { contents: Some(value), ..settings },
            )
            &&& read("--store"@) == Ok::<ToolSettingsView, Seq<char>>(
                ToolSettingsView { store: value, ..settings },
            )
            &&& read("--policy"@) == Ok::<ToolSettingsView, Seq<char>>(
                ToolSettingsView { policy_file: Some(value), ..settings },
            )
            &&& if number is Some && number->0 <= u64::MAX {
                read("--pause-ms"@) == Ok::<ToolSettingsView, Seq<char>>(
                    ToolSettingsView { pause_ms: number->0, ..settings },
                )
            } else {
                read("--pause-ms"@) is Err
            }
            &&& if number is Some && 0 < number->0 <= usize::MAX {
                read("--max-write-bytes"@) == Ok::<ToolSettingsView, Seq<char>>(
                    ToolSettingsView { max_write_bytes: number, ..settings },
                )
            } else {
                read("--max-write-bytes"@) is Err
            }
            &&& if value == "read_file"@ {
                read("--deny-tool"@) == Ok::<ToolSettingsView, Seq<char>>(
                    ToolSettingsView { denied: Some(Tool::ReadFile), ..settings },
                )
            } else if value == "write_file"@ {
                read("--deny-tool"@) == Ok::<ToolSettingsView, Seq<char>>(
                    ToolSettingsView { denied: Some(Tool::WriteFile), ..settings },
                )
            } else if value == "list_dir"@ {
                read("--deny-tool"@) == Ok::<ToolSettingsView, Seq<char>>(
                    ToolSettingsView { denied: Some(Tool::ListDir), ..settings },
                )
            } else if value == "run_tests"@ {
                read("--deny-tool"@) == Ok::<ToolSettingsView, Seq<char>>(
                    ToolSettingsView { denied: Some(Tool::RunTests), ..settings },
                )
            } else {
                read("--deny-tool"@) is Err
            }
        }),
{
    lemma_option_words();
    lemma_one_more(arguments, "--workspace"@, value, settings);
    lemma_one_more(arguments, "--path"@, value, settings);
    lemma_one_more(arguments, "--contents"@, value, settings);
    lemma_one_more(arguments, "--store"@, value, settings);
    lemma_one_more(arguments, "--policy"@, value, settings);
    lemma_one_more(arguments, "--pause-ms"@, value, settings);
    lemma_one_more(arguments, "--max-write-bytes"@, value, settings);
    lemma_one_more(arguments, "--deny-tool"@, value, settings);
    reveal_strlit("read_file");
    reveal_strlit("write_file");
    reveal_strlit("list_dir");
    reveal_strlit("run_tests");
}

/// The word that allows only reading stands alone. An option without its value
/// and a word that is no option are refused.
pub proof fn other_tool_words_stand_alone(
    arguments: Seq<Seq<char>>,
    word: Seq<char>,
    settings: ToolSettingsView,
)
    requires
        arguments.len() > 0,
        tool_settings_from(arguments, 1, default_tool_settings()) == Ok::<
            ToolSettingsView,
            Seq<char>,
        >(settings),
    ensures
        ({
            let read = tool_settings_from(arguments + seq![word], 1, default_tool_settings());
            &&& read is Ok <==> word == "--read-only"@
            &&& read matches Ok(after) ==> after == (ToolSettingsView { read_only: true, ..settings })
        }),
{
    lemma_option_words();
    if takes_value(word) {
        lemma_one_more(arguments, word, word, settings);
    } else {
        let more = arguments + seq![word];
        lemma_appended(arguments, seq![word], 1, default_tool_settings());
        assert(more[arguments.len() as int] == word);
        let after = ToolSettingsView { read_only: true, ..settings };
        assert(tool_settings_from(more, arguments.len() + 1, after) == Ok::<
            ToolSettingsView,
            Seq<char>,
        >(after));
    }
}

/// Which use of a tool arguments ask for: the first word tells the tool, nothing
/// is set before it is told, and the workspace has to be.
pub proof fn tool_commands_keep_their_settings(arguments: Seq<Seq<char>>, word: Seq<char>)
    ensures
        ({
            let read = tool_settings_from(arguments, 1, default_tool_settings());
            &&& tool_command_of(arguments) is Ok <==> {
                &&& arguments.len() > 0
                &&& arguments[0] == "read"@ || arguments[0] == "write"@ || arguments[0] == "list"@
                    || arguments[0] == "run-tests"@
                &&& read is Ok
                &&& read->Ok_0.workspace is Some
            }
            &&& tool_command_of(arguments) matches Ok(command) ==> {
                &&& read == Ok::<ToolSettingsView, Seq<char>>(command.settings)
                &&& command.settings.workspace == Some(command.workspace)
                &&& command.tool == Tool::ReadFile <==> arguments[0] == "read"@
                &&& command.tool == Tool::WriteFile <==> arguments[0] == "write"@
                &&& command.tool == Tool::ListDir <==> arguments[0] == "list"@
                &&& command.tool == Tool::RunTests <==> arguments[0] == "run-tests"@
            }
        }),
        ({
            let start = tool_settings_from(seq![word], 1, default_tool_settings());
            &&& start matches Ok(settings)
            &&& settings.workspace is None
            &&& settings.path is None
            &&& settings.contents is None
            &&& !settings.read_only
            &&& settings.denied is None
            &&& settings.store == ".agentrt/state.db"@
            &&& settings.pause_ms == 0
            &&& settings.max_write_bytes is None
            &&& settings.policy_file is None
        }),
{
    reveal_strlit("read");
    reveal_strlit("write");
    reveal_strlit("list");
    reveal_strlit("run-tests");
    assert("read"@[0] == 'r' && "write"@[0] == 'w' && "list"@[0] == 'l' && "run-tests"@[0] == 'r');
    assert("read"@.len() != "run-tests"@.len());
}

/// What a command does with its tool: it uses the tool that it names on the path
/// that it is told, or on the workspace itself, and writes exactly what it is
/// told to.
pub proof fn tool_commands_do_what_they_are_told(command: ToolCommandView)
    ensures
        command_action(command) is Err <==> command.tool == Tool::WriteFile
            && command.settings.contents is None,
        command_action(command) matches Ok(action) ==> match action {
            ToolActionView::ReadFile(path) => command.tool == Tool::ReadFile && (
            command.settings.path == Some(path) || command.settings.path is None && path == "."@),
            ToolActionView::WriteFile { path, contents } => command.tool == Tool::WriteFile && (
            command.settings.path == Some(path) || command.settings.path is None && path == "."@)
                && command.settings.contents == Some(contents),
            ToolActionView::ListDir(path) => command.tool == Tool::ListDir && (
            command.settings.path == Some(path) || command.settings.path is None && path == "."@),
            ToolActionView::RunTests => command.tool == Tool::RunTests,
        },
{
}

/// What a command may do: it works in the workspace that the host found, with
/// every tool that it does not deny, and writes only if it is not told to read
/// only, up to the limit that it is told.
pub proof fn tool_commands_restrict_their_policy(
    settings: ToolSettingsView,
    canonical: Result<Seq<char>, Seq<char>>,
    is_directory: bool,
    style: PathStyle,
    tool: Tool,
)
    ensures
        command_policy(settings, canonical, is_directory, style) is Ok <==> canonical is Ok
            && is_directory,
        command_policy(settings, canonical, is_directory, style) matches Ok(policy) ==> {
            &&& canonical == Ok::<Seq<char>, Seq<char>>(policy.root)
            &&& policy.style == style
            &&& policy.tools.contains(tool) <==> settings.denied != Some(tool) && !(
            settings.read_only && tool == Tool::WriteFile)
            &&& policy.allow_write <==> !settings.read_only
            &&& policy.max_write_bytes == settings.max_write_bytes
        },
{
}

/// What is kept of a command: the tool under its name, its path, what is to be
/// written, and each restriction.
pub proof fn kept_commands_hold_their_settings(
    command: ToolCommandView,
    run_id: Seq<char>,
    root: Seq<char>,
)
    ensures
        ({
            let spec = command_spec(command, run_id, root);
            &&& spec.idempotency_key == run_id + ":0"@
            &&& spec.workspace_root == root
            &&& spec.tool_name == "read_file"@ <==> command.tool == Tool::ReadFile
            &&& spec.tool_name == "write_file"@ <==> command.tool == Tool::WriteFile
            &&& spec.tool_name == "list_dir"@ <==> command.tool == Tool::ListDir
            &&& spec.tool_name == "run_tests"@ <==> command.tool == Tool::RunTests
            &&& command.settings.path is Some ==> Some(spec.path) == command.settings.path
            &&& command.settings.path is None ==> spec.path == "."@
            &&& command.tool == Tool::WriteFile ==> spec.contents == command.settings.contents
            &&& command.tool != Tool::WriteFile ==> spec.contents is None
            &&& spec.read_only == command.settings.read_only
            &&& spec.max_write_bytes == command.settings.max_write_bytes
            &&& spec.denied_tool == Some("read_file"@) <==> command.settings.denied == Some(
                Tool::ReadFile,
            )
            &&& spec.denied_tool == Some("write_file"@) <==> command.settings.denied == Some(
                Tool::WriteFile,
            )
            &&& spec.denied_tool == Some("list_dir"@) <==> command.settings.denied == Some(
                Tool::ListDir,
            )
            &&& spec.denied_tool == Some("run_tests"@) <==> command.settings.denied == Some(
                Tool::RunTests,
            )
            &&& spec.denied_tool is None <==> command.settings.denied is None
        }),
{
    reveal_strlit("read_file");
    reveal_strlit("write_file");
    reveal_strlit("list_dir");
    reveal_strlit("run_tests");
    reveal_strlit(":0");
    assert("read_file"@[0] == 'r' && "read_file"@[1] == 'e');
    assert("write_file"@[0] == 'w' && "list_dir"@[0] == 'l');
    assert("run_tests"@[0] == 'r' && "run_tests"@[1] == 'u');
    assert(key_for(run_id, 0) =~= run_id + ":0"@);
}

/// What the members of a policy file restrict: reading only if it says so, the
/// tool that it names, and writes up to its limit, in each case together with
/// what the command line restricts; nothing else is changed.
pub proof fn policy_files_restrict_what_they_name(settings: ToolSettingsView, policy: JsonView)
    requires
        with_policy(settings, policy) is Ok,
    ensures
        ({
            let joint = with_policy(settings, policy)->Ok_0;
            let limit = member(policy, "max_write_bytes"@);
            &&& joint.read_only <==> settings.read_only || member(policy, "read_only"@) == Some(
                JsonView::Bool(true),
            )
            &&& forall|tool: Tool|
                joint.denied == Some(tool) <==> settings.denied == Some(tool) || member(
                    policy,
                    "denied_tool"@,
                ) == Some(JsonView::Text(#[trigger] tool_name(tool)))
            &&& match (settings.max_write_bytes, limit) {
                (None, None) => joint.max_write_bytes is None,
                (Some(own), None) => joint.max_write_bytes == Some(own),
                (None, Some(JsonView::Number(text))) => joint.max_write_bytes is Some
                    && joint.max_write_bytes == unsigned_number(text),
                (Some(own), Some(JsonView::Number(text))) => {
                    &&& unsigned_number(text) is Some
                    &&& joint.max_write_bytes == Some(
                        if own <= unsigned_number(text)->0 {
                            own
                        } else {
                            unsigned_number(text)->0
                        },
                    )
                },
                _ => false,
            }
            &&& joint.workspace == settings.workspace
            &&& joint.path == settings.path
            &&& joint.contents == settings.contents
            &&& joint.store == settings.store
            &&& joint.pause_ms == settings.pause_ms
            &&& joint.policy_file == settings.policy_file
        }),
{
    let joint = with_policy(settings, policy)->Ok_0;
    assert forall|tool: Tool|
        joint.denied == Some(tool) <==> settings.denied == Some(tool) || member(
            policy,
            "denied_tool"@,
        ) == Some(JsonView::Text(#[trigger] tool_name(tool))) by {
        crate::sandbox::tool_name_reads_back(tool);
        if let Some(JsonView::Text(name)) = member(policy, "denied_tool"@) {
            if let Some(own) = tool_of(name) {
                crate::sandbox::tool_name_reads_back(own);
            }
        }
    }
}

/// Which policy files are taken: objects whose members, where they are there, are
/// a truth value, the name of a tool, and a positive number, and that deny no
/// other tool than the command line does.
pub proof fn policy_files_are_taken_by_their_members(settings: ToolSettingsView, policy: JsonView)
    ensures
        with_policy(settings, policy) is Ok <==> {
            let read_only = member(policy, "read_only"@);
            let denied = member(policy, "denied_tool"@);
            let limit = member(policy, "max_write_bytes"@);
            &&& policy is Object
            &&& read_only is None || read_only->0 is Bool
            &&& denied is None || exists|tool: Tool|
                denied == Some(JsonView::Text(#[trigger] tool_name(tool))) && (
                settings.denied is None || settings.denied == Some(tool))
            &&& limit is None || (limit->0 matches JsonView::Number(text) && unsigned_number(
                text,
            ) is Some && 0 < unsigned_number(text)->0 <= usize::MAX)
        },
{
    let denied = member(policy, "denied_tool"@);
    if let Some(JsonView::Text(name)) = denied {
        if let Some(own) = tool_of(name) {
            crate::sandbox::tool_name_reads_back(own);
            lemma_named(name, own);
            assert(denied == Some(JsonView::Text(tool_name(own))));
            assert forall|tool: Tool| name == #[trigger] tool_name(tool) implies tool == own by {
                crate::sandbox::tool_name_reads_back(tool);
            }
        } else {
            assert forall|tool: Tool| name != #[trigger] tool_name(tool) by {
                crate::sandbox::tool_name_reads_back(tool);
            }
        }
    }
}

proof fn lemma_named(name: Seq<char>, tool: Tool)
    requires
        tool_of(name) == Some(tool),
    ensures
        name == tool_name(tool),
{
}

/// An option without a value is named, and any other has the word behind it.
pub proof fn options_need_the_word_behind_them(
    front: Seq<Seq<char>>,
    option: Seq<char>,
    value: Seq<char>,
    back: Seq<Seq<char>>,
)
    ensures
        value_after(front.push(option), front.len()) == Err::<Seq<char>, Seq<char>>(
            option + " requires a value"@,
        ),
        value_after(front.push(option).push(value) + back, front.len()) == Ok::<
            Seq<char>,
            Seq<char>,
        >(value),
{
}

/// Why a policy file is refused: it is no JSON, it is no object, or a member is
/// of another kind, which is named. The members are looked at in their order.
pub proof fn refused_policy_files_tell_why(
    settings: ToolSettingsView,
    policy: JsonView,
    message: Seq<char>,
)
    ensures
        with_policy_text(settings, Err(message)) == Err::<ToolSettingsView, Seq<char>>(
            "policy file is not JSON: "@ + message,
        ),
        with_policy_text(settings, Ok(policy)) == with_policy(settings, policy),
        policy !is Object ==> with_policy(settings, policy) == Err::<ToolSettingsView, Seq<char>>(
            "policy file must hold an object"@,
        ),
        policy is Object ==> {
            let read_only = member(policy, "read_only"@);
            let denied = member(policy, "denied_tool"@);
            let limit = member(policy, "max_write_bytes"@);
            let names_tool = denied is None || (denied->0 is Text && tool_of(denied->0->Text_0)
                is Some);
            if read_only is Some && read_only->0 !is Bool {
                with_policy(settings, policy) == Err::<ToolSettingsView, Seq<char>>(
                    "policy member `read_only` must be true or false"@,
                )
            } else if !names_tool {
                with_policy(settings, policy) == Err::<ToolSettingsView, Seq<char>>(
                    "policy member `denied_tool` names no tool"@,
                )
            } else {
                limit is Some && limit->0 !is Number ==> with_policy(settings, policy) == Err::<
                    ToolSettingsView,
                    Seq<char>,
                >("policy member `max_write_bytes` must be a positive integer"@)
            }
        },
{
}

} // verus!
