//! The command line: which command is meant, with which settings, and what is
//! printed.

use crate::gate::{file_contains, file_exists, gate_started, GateQuestionView, GateStep};
use crate::number::{bounded_number, parse_bounded, unsigned_number};
use crate::sandbox::{Policy, SandboxError, Tool};
use crate::text::{begins_with, opt_view, res_view, same_text, views};
use vstd::prelude::*;
use vstd::string::StringExecFns;

verus! {

/// The version of the program.
pub const VERSION: &'static str = "0.1.0";

// Usage

/// How the program is used.
pub const USAGE: &'static str = "Usage:\n  agentrt version\n  agentrt --version\n  agentrt --help";

/// How runs are executed and looked at.
pub const RUN_USAGE: &'static str = "Usage:\n  agentrt run [--store <path>] [--steps <count>] [--crash-after <count>]\n  agentrt resume --run-id <id> [--store <path>]\n  agentrt status --run-id <id> [--store <path>]\n  agentrt audit --run-id <id> [--store <path>] [--export <directory>]";

/// How tools are used.
pub const TOOL_USAGE: &'static str = "Usage:\n  agentrt tool read --workspace <path> --path <relative-path> [--store <path>]\n  agentrt tool write --workspace <path> --path <relative-path> --contents <text> [--store <path>]\n  agentrt tool list --workspace <path> [--path <relative-path>] [--store <path>]\n  agentrt tool run-tests --workspace <path> [--store <path>]\nOptions:\n  --read-only\n  --deny-tool <read_file|write_file|list_dir|run_tests>\n  --max-write-bytes <bytes>\n  --policy <file>\n  --pause-ms <milliseconds>";

/// How a model is asked.
pub const MODEL_USAGE: &'static str = "Usage:\n  agentrt model fake --store <path> --model <name> --prompt <text> --response <text>";

/// How gates are checked.
pub const GATE_USAGE: &'static str = "Usage:\n  agentrt gate exists --workspace <path> --path <relative-path>\n  agentrt gate contains --workspace <path> --path <relative-path> --text <expected>";

/// How files are repaired.
pub const AGENT_USAGE: &'static str = "Usage:\n  agentrt agent repo-fix --workspace <path> --path <relative-path> --find <text> --replace <text> [--store <path>] [--run-id <id>] [--pause-ms <milliseconds>]\n  agentrt agent repo-fix-model --workspace <path> --prompt <text> [--provider <fake|gemini>] [--model <name>] [--response-file <path>] [--store <path>] [--run-id <id>] [--pause-ms <milliseconds>]";

/// How the evaluations are run.
pub const EVAL_USAGE: &'static str = "Usage:\n  agentrt eval [--break]";

/// The model that plans repairs unless something else is said.
pub const DEFAULT_PLANNER: &'static str = "fake-agent-planner";

/// Where runs are kept unless something else is said.
pub const DEFAULT_STORE: &'static str = ".agentrt/state.db";

/// An error followed by how the command is used.
pub open spec fn with_usage(message: Seq<char>, usage: Seq<char>) -> Seq<char> {
    message + "\n\n"@ + usage
}

fn add_usage(message: &str, usage: &str) -> (text: String)
    ensures
        text@ == with_usage(message@, usage@),
{
    let mut text = message.to_owned();
    text.append("\n\n");
    text.append(usage);
    text
}

fn quoted_name(before: &str, name: &str) -> (text: String)
    ensures
        text@ == before@ + name@ + "`"@,
{
    let mut text = before.to_owned();
    text.append(name);
    text.append("`");
    text
}

fn with_suffix(text: &str, suffix: &str) -> (whole: String)
    ensures
        whole@ == text@ + suffix@,
{
    let mut whole = text.to_owned();
    whole.append(suffix);
    whole
}

// Commands

/// What the program is asked to do.
#[derive(Debug)]
pub enum Command {
    Help,
    Version,
    VersionArguments,
    Run,
    Resume,
    Status,
    Audit,
    Tool,
    Model,
    Gate,
    Agent,
    Eval,
    Unknown(String),
}

/// The mathematical form of what the program is asked to do.
pub enum CommandView {
    Help,
    Version,
    VersionArguments,
    Run,
    Resume,
    Status,
    Audit,
    Tool,
    Model,
    Gate,
    Agent,
    Eval,
    Unknown(Seq<char>),
}

impl View for Command {
    type V = CommandView;

    open spec fn view(&self) -> CommandView {
        match self {
            Command::Help => CommandView::Help,
            Command::Version => CommandView::Version,
            Command::VersionArguments => CommandView::VersionArguments,
            Command::Run => CommandView::Run,
            Command::Resume => CommandView::Resume,
            Command::Status => CommandView::Status,
            Command::Audit => CommandView::Audit,
            Command::Tool => CommandView::Tool,
            Command::Model => CommandView::Model,
            Command::Gate => CommandView::Gate,
            Command::Agent => CommandView::Agent,
            Command::Eval => CommandView::Eval,
            Command::Unknown(word) => CommandView::Unknown(word@),
        }
    }
}

/// What the arguments of the program ask for.
pub open spec fn command_of(arguments: Seq<Seq<char>>) -> CommandView {
    if arguments.len() == 0 {
        CommandView::Help
    } else {
        let word = arguments[0];
        if word == "help"@ || word == "--help"@ || word == "-h"@ {
            CommandView::Help
        } else if word == "version"@ || word == "--version"@ || word == "-V"@ {
            if arguments.len() > 1 {
                CommandView::VersionArguments
            } else {
                CommandView::Version
            }
        } else if word == "run"@ {
            CommandView::Run
        } else if word == "resume"@ {
            CommandView::Resume
        } else if word == "status"@ {
            CommandView::Status
        } else if word == "audit"@ {
            CommandView::Audit
        } else if word == "tool"@ {
            CommandView::Tool
        } else if word == "model"@ {
            CommandView::Model
        } else if word == "gate"@ {
            CommandView::Gate
        } else if word == "agent"@ {
            CommandView::Agent
        } else if word == "eval"@ {
            CommandView::Eval
        } else {
            CommandView::Unknown(word)
        }
    }
}

/// Tells what the arguments of the program ask for.
pub fn parse_command(arguments: &Vec<String>) -> (command: Command)
    ensures
        command@ == command_of(views(arguments@)),
{
    if arguments.len() == 0 {
        return Command::Help;
    }
    proof {
        assert(views(arguments@)[0] == arguments@[0]@);
    }
    let word = arguments[0].as_str();
    if same_text(word, "help") || same_text(word, "--help") || same_text(word, "-h") {
        Command::Help
    } else if same_text(word, "version") || same_text(word, "--version") || same_text(word, "-V") {
        if arguments.len() > 1 {
            Command::VersionArguments
        } else {
            Command::Version
        }
    } else if same_text(word, "run") {
        Command::Run
    } else if same_text(word, "resume") {
        Command::Resume
    } else if same_text(word, "status") {
        Command::Status
    } else if same_text(word, "audit") {
        Command::Audit
    } else if same_text(word, "tool") {
        Command::Tool
    } else if same_text(word, "model") {
        Command::Model
    } else if same_text(word, "gate") {
        Command::Gate
    } else if same_text(word, "agent") {
        Command::Agent
    } else if same_text(word, "eval") {
        Command::Eval
    } else {
        Command::Unknown(word.to_owned())
    }
}

// The settings of runs

/// The settings of the commands on runs.
#[derive(Debug)]
pub struct Options {
    pub store: String,
    pub run_id: Option<String>,
    pub steps: usize,
    pub crash_after: Option<usize>,
    pub export: Option<String>,
}

/// The mathematical form of the settings of the commands on runs.
pub struct OptionsView {
    pub store: Seq<char>,
    pub run_id: Option<Seq<char>>,
    pub steps: nat,
    pub crash_after: Option<nat>,
    pub export: Option<Seq<char>>,
}

impl View for Options {
    type V = OptionsView;

    open spec fn view(&self) -> OptionsView {
        OptionsView {
            store: self.store@,
            run_id: opt_view(self.run_id),
            steps: self.steps as nat,
            crash_after: crate::exec::opt_count(self.crash_after),
            export: opt_view(self.export),
        }
    }
}

/// The settings before any is given.
pub open spec fn default_options() -> OptionsView {
    OptionsView { store: DEFAULT_STORE@, run_id: None, steps: 4, crash_after: None, export: None }
}

/// The value that belongs to an option: it must be there and not begin with a
/// dash.
pub open spec fn value_at(
    arguments: Seq<Seq<char>>,
    index: nat,
    option: Seq<char>,
) -> Result<Seq<char>, Seq<char>> {
    if index < arguments.len() && !(arguments[index as int].len() > 0 && arguments[index as int][0]
        == '-') {
        Ok(arguments[index as int])
    } else {
        Err(option + " requires a value"@)
    }
}

/// The positive number that a value stands for.
pub open spec fn positive_number(value: Seq<char>, option: Seq<char>) -> Result<nat, Seq<char>> {
    match bounded_number(value, usize::MAX as nat) {
        Some(number) => if number == 0 {
            Err(option + " expects a positive integer"@)
        } else {
            Ok(number)
        },
        None => Err(option + " expects a positive integer"@),
    }
}

/// The positive number that belongs to an option.
pub open spec fn positive_at(
    arguments: Seq<Seq<char>>,
    index: nat,
    option: Seq<char>,
) -> Result<nat, Seq<char>> {
    match value_at(arguments, index, option) {
        Err(error) => Err(error),
        Ok(value) => positive_number(value, option),
    }
}

/// The settings that arguments give, from one of them on.
pub open spec fn options_from(
    arguments: Seq<Seq<char>>,
    index: nat,
    options: OptionsView,
    allow_run_options: bool,
    allow_export: bool,
) -> Result<OptionsView, Seq<char>>
    decreases arguments.len() - index,
{
    if index >= arguments.len() {
        if options.steps == 0 {
            Err("--steps must be greater than zero"@)
        } else {
            Ok(options)
        }
    } else {
        let argument = arguments[index as int];
        let value = value_at(arguments, index + 1, argument);
        let number = positive_at(arguments, index + 1, argument);
        if argument == "--store"@ {
            match value {
                Err(error) => Err(error),
                Ok(value) => options_from(
                    arguments,
                    index + 2,
                    OptionsView { store: value, ..options },
                    allow_run_options,
                    allow_export,
                ),
            }
        } else if argument == "--run-id"@ {
            match value {
                Err(error) => Err(error),
                Ok(value) => options_from(
                    arguments,
                    index + 2,
                    OptionsView { run_id: Some(value), ..options },
                    allow_run_options,
                    allow_export,
                ),
            }
        } else if argument == "--steps"@ && allow_run_options {
            match number {
                Err(error) => Err(error),
                Ok(number) => options_from(
                    arguments,
                    index + 2,
                    OptionsView { steps: number, ..options },
                    allow_run_options,
                    allow_export,
                ),
            }
        } else if argument == "--crash-after"@ && allow_run_options {
            match number {
                Err(error) => Err(error),
                Ok(number) => options_from(
                    arguments,
                    index + 2,
                    OptionsView { crash_after: Some(number), ..options },
                    allow_run_options,
                    allow_export,
                ),
            }
        } else if argument == "--export"@ && allow_export {
            match value {
                Err(error) => Err(error),
                Ok(value) => options_from(
                    arguments,
                    index + 2,
                    OptionsView { export: Some(value), ..options },
                    allow_run_options,
                    allow_export,
                ),
            }
        } else if argument == "--help"@ || argument == "-h"@ {
            Err(RUN_USAGE@)
        } else {
            Err(with_usage("unknown option `"@ + argument + "`"@, RUN_USAGE@))
        }
    }
}

/// The value that belongs to an option.
pub fn required_value<'a>(arguments: &'a Vec<String>, index: usize, option: &str) -> (result: Result<
    &'a str,
    String,
>)
    ensures
        match result {
            Ok(value) => value_at(views(arguments@), index as nat, option@) == Ok::<
                Seq<char>,
                Seq<char>,
            >(value@),
            Err(error) => value_at(views(arguments@), index as nat, option@) == Err::<
                Seq<char>,
                Seq<char>,
            >(error@),
        },
{
    if index < arguments.len() {
        proof {
            assert(views(arguments@)[index as int] == arguments@[index as int]@);
        }
        if !begins_with(arguments[index].as_str(), '-') {
            return Ok(arguments[index].as_str());
        }
    }
    Err(with_suffix(option, " requires a value"))
}

/// The positive number that a value stands for.
pub fn parse_positive(value: &str, option: &str) -> (result: Result<usize, String>)
    ensures
        match result {
            Ok(number) => positive_number(value@, option@) == Ok::<nat, Seq<char>>(number as nat),
            Err(error) => positive_number(value@, option@) == Err::<nat, Seq<char>>(error@),
        },
{
    match parse_bounded(value, usize::MAX as u64) {
        Some(number) => if number == 0 {
            Err(with_suffix(option, " expects a positive integer"))
        } else {
            Ok(number as usize)
        },
        None => Err(with_suffix(option, " expects a positive integer")),
    }
}

fn positive_value(arguments: &Vec<String>, index: usize, option: &str) -> (result: Result<
    usize,
    String,
>)
    ensures
        match result {
            Ok(number) => positive_at(views(arguments@), index as nat, option@) == Ok::<
                nat,
                Seq<char>,
            >(number as nat),
            Err(error) => positive_at(views(arguments@), index as nat, option@) == Err::<
                nat,
                Seq<char>,
            >(error@),
        },
{
    match required_value(arguments, index, option) {
        Err(error) => Err(error),
        Ok(value) => parse_positive(value, option),
    }
}

/// Reads the settings of a command on runs.
pub fn parse_options(arguments: &Vec<String>, allow_run_options: bool, allow_export: bool) -> (result:
    Result<Options, String>)
    ensures
        res_view(result) == options_from(
            views(arguments@),
            0,
            default_options(),
            allow_run_options,
            allow_export,
        ),
{
    let ghost all = views(arguments@);
    let ghost expected = options_from(
        all,
        0,
        default_options(),
        allow_run_options,
        allow_export,
    );
    let mut options = Options {
        store: DEFAULT_STORE.to_owned(),
        run_id: None,
        steps: 4,
        crash_after: None,
        export: None,
    };
    let mut index: usize = 0;
    while index < arguments.len()
        invariant
            all == views(arguments@),
            index <= arguments.len(),
            options_from(all, index as nat, options@, allow_run_options, allow_export) == expected,
            expected == options_from(
                views(arguments@),
                0,
                default_options(),
                allow_run_options,
                allow_export,
            ),
        decreases arguments@.len() - index,
    {
        proof {
            assert(all[index as int] == arguments@[index as int]@);
        }
        let argument = arguments[index].as_str();
        if same_text(argument, "--store") {
            match required_value(arguments, index + 1, argument) {
                Err(error) => return Err(error),
                Ok(value) => {
                    options.store = value.to_owned();
                },
            }
        } else if same_text(argument, "--run-id") {
            match required_value(arguments, index + 1, argument) {
                Err(error) => return Err(error),
                Ok(value) => {
                    options.run_id = Some(value.to_owned());
                },
            }
        } else if same_text(argument, "--steps") && allow_run_options {
            match positive_value(arguments, index + 1, argument) {
                Err(error) => return Err(error),
                Ok(number) => {
                    options.steps = number;
                },
            }
        } else if same_text(argument, "--crash-after") && allow_run_options {
            match positive_value(arguments, index + 1, argument) {
                Err(error) => return Err(error),
                Ok(number) => {
                    options.crash_after = Some(number);
                },
            }
        } else if same_text(argument, "--export") && allow_export {
            match required_value(arguments, index + 1, argument) {
                Err(error) => return Err(error),
                Ok(value) => {
                    options.export = Some(value.to_owned());
                },
            }
        } else if same_text(argument, "--help") || same_text(argument, "-h") {
            return Err(RUN_USAGE.to_owned());
        } else {
            let message = quoted_name("unknown option `", argument);
            return Err(add_usage(message.as_str(), RUN_USAGE));
        }
        index = index + 2;
    }
    if options.steps == 0 {
        return Err("--steps must be greater than zero".to_owned());
    }
    Ok(options)
}

/// The run that a command needs.
pub fn required_run_id(options: &Options, command: &str) -> (result: Result<String, String>)
    ensures
        res_view(result) == match options@.run_id {
            Some(run_id) => Ok::<Seq<char>, Seq<char>>(run_id),
            None => Err::<Seq<char>, Seq<char>>("--run-id is required for "@ + command@),
        },
{
    match &options.run_id {
        Some(run_id) => Ok(run_id.clone()),
        None => Err(with_suffix("--run-id is required for ", command)),
    }
}

// Named settings

/// One setting as it was given.
#[derive(Debug)]
pub struct Setting {
    pub name: String,
    pub value: String,
}

/// The mathematical form of a setting.
pub struct SettingView {
    pub name: Seq<char>,
    pub value: Seq<char>,
}

impl View for Setting {
    type V = SettingView;

    open spec fn view(&self) -> SettingView {
        SettingView { name: self.name@, value: self.value@ }
    }
}

/// The settings that arguments give, from one of them on: each known name is
/// followed by its value.
pub open spec fn settings_from(
    arguments: Seq<Seq<char>>,
    index: nat,
    known: Seq<Seq<char>>,
    usage: Seq<char>,
    settings: Seq<SettingView>,
) -> Result<Seq<SettingView>, Seq<char>>
    decreases arguments.len() - index,
{
    if index >= arguments.len() {
        Ok(settings)
    } else {
        let argument = arguments[index as int];
        if known.contains(argument) {
            if index + 1 < arguments.len() {
                settings_from(
                    arguments,
                    index + 2,
                    known,
                    usage,
                    settings.push(SettingView { name: argument, value: arguments[index as int + 1] }),
                )
            } else {
                Err(with_usage(argument + " requires a value"@, usage))
            }
        } else if argument == "--help"@ || argument == "-h"@ {
            Err(usage)
        } else {
            Err(with_usage("unknown option `"@ + argument + "`"@, usage))
        }
    }
}

/// The value that a setting was last given.
pub open spec fn setting(settings: Seq<SettingView>, name: Seq<char>) -> Option<Seq<char>>
    decreases settings.len(),
{
    if settings.len() == 0 {
        None
    } else if settings.last().name == name {
        Some(settings.last().value)
    } else {
        setting(settings.drop_last(), name)
    }
}

/// The value that a setting was last given, or another.
pub open spec fn setting_or(
    settings: Seq<SettingView>,
    name: Seq<char>,
    other: Seq<char>,
) -> Seq<char> {
    match setting(settings, name) {
        Some(value) => value,
        None => other,
    }
}

/// The value of a setting that must be given.
pub open spec fn needed(settings: Seq<SettingView>, name: Seq<char>, usage: Seq<char>) -> Result<
    Seq<char>,
    Seq<char>,
> {
    match setting(settings, name) {
        Some(value) => Ok(value),
        None => Err(with_usage(name + " is required"@, usage)),
    }
}

/// A number of milliseconds.
pub open spec fn milliseconds(value: Option<Seq<char>>) -> Result<nat, Seq<char>> {
    match value {
        None => Ok(0),
        Some(value) => match bounded_number(value, u64::MAX as nat) {
            Some(number) => Ok(number),
            None => Err("--pause-ms expects an integer"@),
        },
    }
}

fn is_known(known: &Vec<&str>, name: &str) -> (res: bool)
    ensures
        res == names_of(known@).contains(name@),
{
    let mut i: usize = 0;
    while i < known.len()
        invariant
            i <= known@.len(),
            forall|j: int| 0 <= j < i ==> names_of(known@)[j] != name@,
        decreases known@.len() - i,
    {
        if same_text(known[i], name) {
            assert(names_of(known@)[i as int] == name@);
            return true;
        }
        i = i + 1;
    }
    false
}

/// The names in a list of them.
pub open spec fn names_of(known: Seq<&str>) -> Seq<Seq<char>> {
    Seq::new(known.len(), |i: int| known[i]@)
}

fn read_settings(arguments: &Vec<String>, from: usize, known: &Vec<&str>, usage: &str) -> (result: Result<
    Vec<Setting>,
    String,
>)
    requires
        from <= arguments@.len(),
    ensures
        match result {
            Ok(settings) => settings_from(
                views(arguments@),
                from as nat,
                names_of(known@),
                usage@,
                Seq::empty(),
            ) == Ok::<Seq<SettingView>, Seq<char>>(views(settings@)),
            Err(error) => settings_from(
                views(arguments@),
                from as nat,
                names_of(known@),
                usage@,
                Seq::empty(),
            ) == Err::<Seq<SettingView>, Seq<char>>(error@),
        },
{
    let ghost all = views(arguments@);
    let ghost names = names_of(known@);
    let ghost expected = settings_from(all, from as nat, names, usage@, Seq::empty());
    let mut settings: Vec<Setting> = Vec::new();
    let mut index: usize = from;
    proof {
        assert(views(settings@) =~= Seq::<SettingView>::empty());
    }
    while index < arguments.len()
        invariant
            all == views(arguments@),
            names == names_of(known@),
            index <= arguments.len(),
            settings_from(all, index as nat, names, usage@, views(settings@)) == expected,
            expected == settings_from(
                views(arguments@),
                from as nat,
                names_of(known@),
                usage@,
                Seq::empty(),
            ),
        decreases arguments@.len() - index,
    {
        proof {
            assert(all[index as int] == arguments@[index as int]@);
        }
        let argument = arguments[index].as_str();
        if is_known(known, argument) {
            if index + 1 >= arguments.len() {
                let message = with_suffix(argument, " requires a value");
                return Err(add_usage(message.as_str(), usage));
            }
            proof {
                assert(all[index + 1] == arguments@[index + 1]@);
            }
            let ghost before = views(settings@);
            let given = Setting {
                name: argument.to_owned(),
                value: arguments[index + 1].clone(),
            };
            settings.push(given);
            proof {
                assert(views(settings@) =~= before.push(given@));
            }
        } else if same_text(argument, "--help") || same_text(argument, "-h") {
            return Err(usage.to_owned());
        } else {
            let message = quoted_name("unknown option `", argument);
            return Err(add_usage(message.as_str(), usage));
        }
        index = index + 2;
    }
    Ok(settings)
}

fn find_setting(settings: &Vec<Setting>, name: &str) -> (found: Option<String>)
    ensures
        opt_view(found) == setting(views(settings@), name@),
{
    let ghost all = views(settings@);
    let mut i: usize = settings.len();
    proof {
        assert(all.take(all.len() as int) =~= all);
    }
    while i > 0
        invariant
            all == views(settings@),
            i <= settings@.len(),
            setting(all, name@) == setting(all.take(i as int), name@),
        decreases i,
    {
        i = i - 1;
        proof {
            assert(all.take(i + 1).drop_last() =~= all.take(i as int));
            assert(all.take(i + 1).last() == settings@[i as int]@);
        }
        if same_text(settings[i].name.as_str(), name) {
            return Some(settings[i].value.clone());
        }
    }
    proof {
        assert(all.take(0) =~= Seq::<SettingView>::empty());
    }
    None
}

fn find_or(settings: &Vec<Setting>, name: &str, other: &str) -> (value: String)
    ensures
        value@ == setting_or(views(settings@), name@, other@),
{
    match find_setting(settings, name) {
        Some(value) => value,
        None => other.to_owned(),
    }
}

fn find_needed(settings: &Vec<Setting>, name: &str, usage: &str) -> (result: Result<String, String>)
    ensures
        res_view(result) == needed(views(settings@), name@, usage@),
{
    match find_setting(settings, name) {
        Some(value) => Ok(value),
        None => {
            let message = with_suffix(name, " is required");
            Err(add_usage(message.as_str(), usage))
        },
    }
}

fn read_milliseconds(value: &Option<String>) -> (result: Result<u64, String>)
    ensures
        match result {
            Ok(number) => milliseconds(opt_view(*value)) == Ok::<nat, Seq<char>>(number as nat),
            Err(error) => milliseconds(opt_view(*value)) == Err::<nat, Seq<char>>(error@),
        },
{
    match value {
        None => Ok(0),
        Some(value) => match parse_bounded(value.as_str(), u64::MAX) {
            Some(number) => Ok(number),
            None => Err("--pause-ms expects an integer".to_owned()),
        },
    }
}

fn first_is(arguments: &Vec<String>, word: &str) -> (res: bool)
    ensures
        res == (arguments@.len() > 0 && views(arguments@)[0] == word@),
{
    if arguments.len() == 0 {
        return false;
    }
    proof {
        assert(views(arguments@)[0] == arguments@[0]@);
    }
    same_text(arguments[0].as_str(), word)
}

// Asking a model

/// A request to a model that always gives the same response.
#[derive(Debug)]
pub struct ModelCommand {
    pub store: String,
    pub model: String,
    pub prompt: String,
    pub response: String,
}

/// The mathematical form of a request to a model.
pub struct ModelCommandView {
    pub store: Seq<char>,
    pub model: Seq<char>,
    pub prompt: Seq<char>,
    pub response: Seq<char>,
}

impl View for ModelCommand {
    type V = ModelCommandView;

    open spec fn view(&self) -> ModelCommandView {
        ModelCommandView {
            store: self.store@,
            model: self.model@,
            prompt: self.prompt@,
            response: self.response@,
        }
    }
}

/// The settings that a request to a model may have.
pub open spec fn model_settings() -> Seq<Seq<char>> {
    seq!["--store"@, "--model"@, "--prompt"@, "--response"@]
}

/// The request to a model that arguments ask for.
pub open spec fn model_command_of(arguments: Seq<Seq<char>>) -> Result<
    ModelCommandView,
    Seq<char>,
> {
    if arguments.len() == 0 || arguments[0] != "fake"@ {
        Err(MODEL_USAGE@)
    } else {
        match settings_from(arguments, 1, model_settings(), MODEL_USAGE@, Seq::empty()) {
            Err(error) => Err(error),
            Ok(settings) => match needed(settings, "--prompt"@, MODEL_USAGE@) {
                Err(error) => Err(error),
                Ok(prompt) => Ok(
                    ModelCommandView {
                        store: setting_or(settings, "--store"@, DEFAULT_STORE@),
                        model: setting_or(settings, "--model"@, "fake-model"@),
                        prompt,
                        response: setting_or(
                            settings,
                            "--response"@,
                            "deterministic fake response"@,
                        ),
                    },
                ),
            },
        }
    }
}

/// Reads what arguments ask of a model.
pub fn parse_model_command(arguments: &Vec<String>) -> (result: Result<ModelCommand, String>)
    ensures
        res_view(result) == model_command_of(views(arguments@)),
{
    if !first_is(arguments, "fake") {
        return Err(MODEL_USAGE.to_owned());
    }
    let known = vec!["--store", "--model", "--prompt", "--response"];
    proof {
        assert(names_of(known@) =~= model_settings());
    }
    let settings = match read_settings(arguments, 1, &known, MODEL_USAGE) {
        Err(error) => return Err(error),
        Ok(settings) => settings,
    };
    let prompt = match find_needed(&settings, "--prompt", MODEL_USAGE) {
        Err(error) => return Err(error),
        Ok(prompt) => prompt,
    };
    Ok(
        ModelCommand {
            store: find_or(&settings, "--store", DEFAULT_STORE),
            model: find_or(&settings, "--model", "fake-model"),
            prompt,
            response: find_or(&settings, "--response", "deterministic fake response"),
        },
    )
}

// Checking a gate

/// A gate that is to be checked. Without a text it is the one of existence.
#[derive(Debug)]
pub struct GateCommand {
    pub workspace: String,
    pub path: String,
    pub text: Option<String>,
}

/// The mathematical form of a gate that is to be checked.
pub struct GateCommandView {
    pub workspace: Seq<char>,
    pub path: Seq<char>,
    pub text: Option<Seq<char>>,
}

impl View for GateCommand {
    type V = GateCommandView;

    open spec fn view(&self) -> GateCommandView {
        GateCommandView {
            workspace: self.workspace@,
            path: self.path@,
            text: opt_view(self.text),
        }
    }
}

/// What a gate that is to be checked asks.
pub open spec fn gate_question(command: GateCommandView) -> GateQuestionView {
    match command.text {
        Some(expected) => GateQuestionView::Contains { path: command.path, expected },
        None => GateQuestionView::IsDirectory(command.path),
    }
}

impl GateCommand {
    /// Begins this check in a workspace.
    pub fn check(&self, policy: Result<Policy, SandboxError>) -> (step: GateStep)
        ensures
            step@ == gate_started(res_view(policy), gate_question(self@)),
    {
        match &self.text {
            Some(text) => file_contains(policy, self.path.as_str(), text.as_str()),
            None => file_exists(policy, self.path.as_str()),
        }
    }
}

/// The settings that a gate may have.
pub open spec fn gate_settings() -> Seq<Seq<char>> {
    seq!["--workspace"@, "--path"@, "--text"@]
}

/// A gate, from its settings.
pub open spec fn gate_of_settings(settings: Seq<SettingView>, contains: bool) -> Result<
    GateCommandView,
    Seq<char>,
> {
    match (
        needed(settings, "--workspace"@, GATE_USAGE@),
        needed(settings, "--path"@, GATE_USAGE@),
    ) {
        (Err(error), _) => Err(error),
        (_, Err(error)) => Err(error),
        (Ok(workspace), Ok(path)) => if contains {
            match needed(settings, "--text"@, GATE_USAGE@) {
                Err(error) => Err(error),
                Ok(text) => Ok(GateCommandView { workspace, path, text: Some(text) }),
            }
        } else {
            Ok(GateCommandView { workspace, path, text: None })
        },
    }
}

/// Which gate arguments ask for.
pub open spec fn gate_command_of(arguments: Seq<Seq<char>>) -> Result<GateCommandView, Seq<char>> {
    if arguments.len() == 0 {
        Err(GATE_USAGE@)
    } else if arguments[0] != "exists"@ && arguments[0] != "contains"@ {
        Err(with_usage("unknown gate `"@ + arguments[0] + "`"@, GATE_USAGE@))
    } else {
        match settings_from(arguments, 1, gate_settings(), GATE_USAGE@, Seq::empty()) {
            Err(error) => Err(error),
            Ok(settings) => gate_of_settings(settings, arguments[0] == "contains"@),
        }
    }
}

/// Reads which gate arguments ask for.
pub fn parse_gate_command(arguments: &Vec<String>) -> (result: Result<GateCommand, String>)
    ensures
        res_view(result) == gate_command_of(views(arguments@)),
{
    if arguments.len() == 0 {
        return Err(GATE_USAGE.to_owned());
    }
    let contains = first_is(arguments, "contains");
    if !contains && !first_is(arguments, "exists") {
        proof {
            assert(views(arguments@)[0] == arguments@[0]@);
        }
        let message = quoted_name("unknown gate `", arguments[0].as_str());
        return Err(add_usage(message.as_str(), GATE_USAGE));
    }
    proof {
        if contains {
            reveal_strlit("exists");
            reveal_strlit("contains");
            assert("exists"@.len() != "contains"@.len());
        }
    }
    let known = vec!["--workspace", "--path", "--text"];
    proof {
        assert(names_of(known@) =~= gate_settings());
    }
    let settings = match read_settings(arguments, 1, &known, GATE_USAGE) {
        Err(error) => return Err(error),
        Ok(settings) => settings,
    };
    let workspace = match find_needed(&settings, "--workspace", GATE_USAGE) {
        Err(error) => return Err(error),
        Ok(workspace) => workspace,
    };
    let path = match find_needed(&settings, "--path", GATE_USAGE) {
        Err(error) => return Err(error),
        Ok(path) => path,
    };
    if !contains {
        return Ok(GateCommand { workspace, path, text: None });
    }
    match find_needed(&settings, "--text", GATE_USAGE) {
        Err(error) => Err(error),
        Ok(text) => Ok(GateCommand { workspace, path, text: Some(text) }),
    }
}

// Repairing a file

/// A repair of one place.
#[derive(Debug)]
pub struct FixCommand {
    pub workspace: String,
    pub path: String,
    pub find: String,
    pub replace: String,
    pub store: String,
    pub run_id: Option<String>,
    pub pause_ms: u64,
}

/// The mathematical form of a repair of one place.
pub struct FixCommandView {
    pub workspace: Seq<char>,
    pub path: Seq<char>,
    pub find: Seq<char>,
    pub replace: Seq<char>,
    pub store: Seq<char>,
    pub run_id: Option<Seq<char>>,
    pub pause_ms: nat,
}

impl View for FixCommand {
    type V = FixCommandView;

    open spec fn view(&self) -> FixCommandView {
        FixCommandView {
            workspace: self.workspace@,
            path: self.path@,
            find: self.find@,
            replace: self.replace@,
            store: self.store@,
            run_id: opt_view(self.run_id),
            pause_ms: self.pause_ms as nat,
        }
    }
}

/// A repair by the plan of a model. The response may come from a file in place
/// of a service.
#[derive(Debug)]
pub struct PlanCommand {
    pub workspace: String,
    pub prompt: String,
    pub gemini: bool,
    pub model: Option<String>,
    pub response_file: Option<String>,
    pub store: String,
    pub run_id: Option<String>,
    pub pause_ms: u64,
}

/// The mathematical form of a repair by the plan of a model.
pub struct PlanCommandView {
    pub workspace: Seq<char>,
    pub prompt: Seq<char>,
    pub gemini: bool,
    pub model: Option<Seq<char>>,
    pub response_file: Option<Seq<char>>,
    pub store: Seq<char>,
    pub run_id: Option<Seq<char>>,
    pub pause_ms: nat,
}

impl View for PlanCommand {
    type V = PlanCommandView;

    open spec fn view(&self) -> PlanCommandView {
        PlanCommandView {
            workspace: self.workspace@,
            prompt: self.prompt@,
            gemini: self.gemini,
            model: opt_view(self.model),
            response_file: opt_view(self.response_file),
            store: self.store@,
            run_id: opt_view(self.run_id),
            pause_ms: self.pause_ms as nat,
        }
    }
}

/// The model that a repair asks: the one that was named, else the one that is
/// configured for the service, else a stand-in.
pub open spec fn plan_model(command: PlanCommandView, configured: Option<Seq<char>>) -> Seq<char> {
    match (command.model, configured) {
        (Some(model), _) => model,
        (None, Some(model)) => if command.gemini {
            model
        } else {
            DEFAULT_PLANNER@
        },
        (None, None) => if command.gemini {
            ""@
        } else {
            DEFAULT_PLANNER@
        },
    }
}

impl PlanCommand {
    /// The model that the repair asks.
    pub fn model_name(&self, configured: Option<String>) -> (name: String)
        ensures
            name@ == plan_model(self@, opt_view(configured)),
    {
        match &self.model {
            Some(model) => model.clone(),
            None => if !self.gemini {
                DEFAULT_PLANNER.to_owned()
            } else {
                match configured {
                    Some(model) => model,
                    None => "".to_owned(),
                }
            },
        }
    }
}

/// A repair that arguments ask for.
#[derive(Debug)]
pub enum AgentCommand {
    Fix(FixCommand),
    Plan(PlanCommand),
}

/// The mathematical form of a repair that arguments ask for.
pub enum AgentCommandView {
    Fix(FixCommandView),
    Plan(PlanCommandView),
}

impl View for AgentCommand {
    type V = AgentCommandView;

    open spec fn view(&self) -> AgentCommandView {
        match self {
            AgentCommand::Fix(command) => AgentCommandView::Fix(command@),
            AgentCommand::Plan(command) => AgentCommandView::Plan(command@),
        }
    }
}

/// The settings that a repair of one place may have.
pub open spec fn fix_settings() -> Seq<Seq<char>> {
    seq![
        "--workspace"@,
        "--path"@,
        "--find"@,
        "--replace"@,
        "--store"@,
        "--run-id"@,
        "--pause-ms"@,
    ]
}

/// The settings that a repair by the plan of a model may have.
pub open spec fn plan_settings() -> Seq<Seq<char>> {
    seq![
        "--workspace"@,
        "--prompt"@,
        "--provider"@,
        "--model"@,
        "--response-file"@,
        "--store"@,
        "--run-id"@,
        "--pause-ms"@,
    ]
}

/// A repair of one place, from its settings.
pub open spec fn fix_of_settings(settings: Seq<SettingView>) -> Result<FixCommandView, Seq<char>> {
    match (
        needed(settings, "--workspace"@, AGENT_USAGE@),
        needed(settings, "--path"@, AGENT_USAGE@),
        needed(settings, "--find"@, AGENT_USAGE@),
        needed(settings, "--replace"@, AGENT_USAGE@),
        milliseconds(setting(settings, "--pause-ms"@)),
    ) {
        (Err(error), _, _, _, _) => Err(error),
        (_, Err(error), _, _, _) => Err(error),
        (_, _, Err(error), _, _) => Err(error),
        (_, _, _, Err(error), _) => Err(error),
        (_, _, _, _, Err(error)) => Err(error),
        (Ok(workspace), Ok(path), Ok(find), Ok(replace), Ok(pause_ms)) => Ok(
            FixCommandView {
                workspace,
                path,
                find,
                replace,
                store: setting_or(settings, "--store"@, DEFAULT_STORE@),
                run_id: setting(settings, "--run-id"@),
                pause_ms,
            },
        ),
    }
}

/// Whether a provider is the service Gemini; any name but the two known ones is
/// an error.
pub open spec fn provider_of(name: Option<Seq<char>>) -> Result<bool, Seq<char>> {
    match name {
        None => Ok(false),
        Some(name) => if name == "fake"@ {
            Ok(false)
        } else if name == "gemini"@ {
            Ok(true)
        } else {
            Err(with_usage("unknown provider `"@ + name + "`"@, AGENT_USAGE@))
        },
    }
}

/// A repair by the plan of a model, from its settings. Without a service the
/// response must come from a file.
pub open spec fn plan_of_settings(settings: Seq<SettingView>) -> Result<
    PlanCommandView,
    Seq<char>,
> {
    match (
        needed(settings, "--workspace"@, AGENT_USAGE@),
        needed(settings, "--prompt"@, AGENT_USAGE@),
        provider_of(setting(settings, "--provider"@)),
        milliseconds(setting(settings, "--pause-ms"@)),
    ) {
        (Err(error), _, _, _) => Err(error),
        (_, Err(error), _, _) => Err(error),
        (_, _, Err(error), _) => Err(error),
        (_, _, _, Err(error)) => Err(error),
        (Ok(workspace), Ok(prompt), Ok(gemini), Ok(pause_ms)) => {
            if !gemini && setting(settings, "--response-file"@) is None {
                Err(with_usage("--response-file is required"@, AGENT_USAGE@))
            } else {
                Ok(
                    PlanCommandView {
                        workspace,
                        prompt,
                        gemini,
                        model: setting(settings, "--model"@),
                        response_file: setting(settings, "--response-file"@),
                        store: setting_or(settings, "--store"@, DEFAULT_STORE@),
                        run_id: setting(settings, "--run-id"@),
                        pause_ms,
                    },
                )
            }
        },
    }
}

/// The repair that arguments ask for.
pub open spec fn agent_command_of(arguments: Seq<Seq<char>>) -> Result<
    AgentCommandView,
    Seq<char>,
> {
    if arguments.len() == 0 {
        Err(AGENT_USAGE@)
    } else if arguments[0] == "repo-fix"@ {
        match settings_from(arguments, 1, fix_settings(), AGENT_USAGE@, Seq::empty()) {
            Err(error) => Err(error),
            Ok(settings) => match fix_of_settings(settings) {
                Err(error) => Err(error),
                Ok(command) => Ok(AgentCommandView::Fix(command)),
            },
        }
    } else if arguments[0] == "repo-fix-model"@ {
        match settings_from(arguments, 1, plan_settings(), AGENT_USAGE@, Seq::empty()) {
            Err(error) => Err(error),
            Ok(settings) => match plan_of_settings(settings) {
                Err(error) => Err(error),
                Ok(command) => Ok(AgentCommandView::Plan(command)),
            },
        }
    } else {
        Err(AGENT_USAGE@)
    }
}

fn read_fix(settings: &Vec<Setting>) -> (result: Result<FixCommand, String>)
    ensures
        res_view(result) == fix_of_settings(views(settings@)),
{
    let workspace = match find_needed(settings, "--workspace", AGENT_USAGE) {
        Err(error) => return Err(error),
        Ok(value) => value,
    };
    let path = match find_needed(settings, "--path", AGENT_USAGE) {
        Err(error) => return Err(error),
        Ok(value) => value,
    };
    let find = match find_needed(settings, "--find", AGENT_USAGE) {
        Err(error) => return Err(error),
        Ok(value) => value,
    };
    let replace = match find_needed(settings, "--replace", AGENT_USAGE) {
        Err(error) => return Err(error),
        Ok(value) => value,
    };
    let pause_ms = match read_milliseconds(&find_setting(settings, "--pause-ms")) {
        Err(error) => return Err(error),
        Ok(value) => value,
    };
    Ok(
        FixCommand {
            workspace,
            path,
            find,
            replace,
            store: find_or(settings, "--store", DEFAULT_STORE),
            run_id: find_setting(settings, "--run-id"),
            pause_ms,
        },
    )
}

fn read_provider(name: &Option<String>) -> (result: Result<bool, String>)
    ensures
        match result {
            Ok(gemini) => provider_of(opt_view(*name)) == Ok::<bool, Seq<char>>(gemini),
            Err(error) => provider_of(opt_view(*name)) == Err::<bool, Seq<char>>(error@),
        },
{
    match name {
        None => Ok(false),
        Some(name) => {
            if same_text(name.as_str(), "fake") {
                Ok(false)
            } else if same_text(name.as_str(), "gemini") {
                Ok(true)
            } else {
                let message = quoted_name("unknown provider `", name.as_str());
                Err(add_usage(message.as_str(), AGENT_USAGE))
            }
        },
    }
}

fn read_plan(settings: &Vec<Setting>) -> (result: Result<PlanCommand, String>)
    ensures
        res_view(result) == plan_of_settings(views(settings@)),
{
    let workspace = match find_needed(settings, "--workspace", AGENT_USAGE) {
        Err(error) => return Err(error),
        Ok(value) => value,
    };
    let prompt = match find_needed(settings, "--prompt", AGENT_USAGE) {
        Err(error) => return Err(error),
        Ok(value) => value,
    };
    let gemini = match read_provider(&find_setting(settings, "--provider")) {
        Err(error) => return Err(error),
        Ok(value) => value,
    };
    let pause_ms = match read_milliseconds(&find_setting(settings, "--pause-ms")) {
        Err(error) => return Err(error),
        Ok(value) => value,
    };
    let response_file = find_setting(settings, "--response-file");
    if !gemini && response_file.is_none() {
        return Err(add_usage("--response-file is required", AGENT_USAGE));
    }
    Ok(
        PlanCommand {
            workspace,
            prompt,
            gemini,
            model: find_setting(settings, "--model"),
            response_file,
            store: find_or(settings, "--store", DEFAULT_STORE),
            run_id: find_setting(settings, "--run-id"),
            pause_ms,
        },
    )
}

/// Reads which repair arguments ask for.
pub fn parse_agent_command(arguments: &Vec<String>) -> (result: Result<AgentCommand, String>)
    ensures
        res_view(result) == agent_command_of(views(arguments@)),
{
    if first_is(arguments, "repo-fix") {
        let known = vec![
            "--workspace",
            "--path",
            "--find",
            "--replace",
            "--store",
            "--run-id",
            "--pause-ms",
        ];
        proof {
            assert(names_of(known@) =~= fix_settings());
        }
        return match read_settings(arguments, 1, &known, AGENT_USAGE) {
            Err(error) => Err(error),
            Ok(settings) => match read_fix(&settings) {
                Err(error) => Err(error),
                Ok(command) => Ok(AgentCommand::Fix(command)),
            },
        };
    }
    if first_is(arguments, "repo-fix-model") {
        let known = vec![
            "--workspace",
            "--prompt",
            "--provider",
            "--model",
            "--response-file",
            "--store",
            "--run-id",
            "--pause-ms",
        ];
        proof {
            assert(names_of(known@) =~= plan_settings());
        }
        return match read_settings(arguments, 1, &known, AGENT_USAGE) {
            Err(error) => Err(error),
            Ok(settings) => match read_plan(&settings) {
                Err(error) => Err(error),
                Ok(command) => Ok(AgentCommand::Plan(command)),
            },
        };
    }
    Err(AGENT_USAGE.to_owned())
}

// Evaluations

/// Whether arguments ask for a broken suite.
pub open spec fn eval_command_of(arguments: Seq<Seq<char>>) -> Result<bool, Seq<char>>
    decreases arguments.len(),
{
    if arguments.len() == 0 {
        Ok(false)
    } else {
        match eval_command_of(arguments.drop_last()) {
            Err(error) => Err(error),
            Ok(broken) => {
                let argument = arguments.last();
                if argument == "--break"@ {
                    Ok(true)
                } else if argument == "--help"@ || argument == "-h"@ {
                    Err(EVAL_USAGE@)
                } else {
                    Err(with_usage("unknown option `"@ + argument + "`"@, EVAL_USAGE@))
                }
            },
        }
    }
}

proof fn lemma_eval_stops(arguments: Seq<Seq<char>>, upto: int)
    requires
        0 <= upto <= arguments.len(),
        eval_command_of(arguments.take(upto)) is Err,
    ensures
        eval_command_of(arguments) == eval_command_of(arguments.take(upto)),
    decreases arguments.len() - upto,
{
    if upto < arguments.len() {
        assert(arguments.take(upto + 1).drop_last() =~= arguments.take(upto));
        lemma_eval_stops(arguments, upto + 1);
    } else {
        assert(arguments.take(upto) =~= arguments);
    }
}

/// Reads whether arguments ask for a broken suite.
pub fn parse_eval_command(arguments: &Vec<String>) -> (result: Result<bool, String>)
    ensures
        match result {
            Ok(broken) => eval_command_of(views(arguments@)) == Ok::<bool, Seq<char>>(broken),
            Err(error) => eval_command_of(views(arguments@)) == Err::<bool, Seq<char>>(error@),
        },
{
    let ghost all = views(arguments@);
    let mut broken = false;
    let mut i: usize = 0;
    proof {
        assert(all.take(0) =~= Seq::<Seq<char>>::empty());
    }
    while i < arguments.len()
        invariant
            all == views(arguments@),
            i <= arguments@.len(),
            eval_command_of(all.take(i as int)) == Ok::<bool, Seq<char>>(broken),
        decreases arguments@.len() - i,
    {
        proof {
            assert(all.take(i + 1).drop_last() =~= all.take(i as int));
            assert(all.take(i + 1).last() == arguments@[i as int]@);
        }
        let argument = arguments[i].as_str();
        if same_text(argument, "--break") {
            broken = true;
        } else if same_text(argument, "--help") || same_text(argument, "-h") {
            proof {
                lemma_eval_stops(all, i + 1);
            }
            return Err(EVAL_USAGE.to_owned());
        } else {
            proof {
                lemma_eval_stops(all, i + 1);
            }
            let message = quoted_name("unknown option `", argument);
            return Err(add_usage(message.as_str(), EVAL_USAGE));
        }
        i = i + 1;
    }
    proof {
        assert(all.take(all.len() as int) =~= all);
    }
    Ok(broken)
}

// Laws

/// Whether a setting is given as the pair with a number among those from a place
/// on.
pub open spec fn gives(arguments: Seq<Seq<char>>, first: int, pair: int, name: Seq<char>) -> bool {
    &&& 0 <= pair
    &&& first + 2 * pair + 1 < arguments.len()
    &&& arguments[first + 2 * pair] == name
}

/// Whether a pair is the last one that gives a setting, and gives it a value.
pub open spec fn gives_last(
    arguments: Seq<Seq<char>>,
    first: int,
    pair: int,
    name: Seq<char>,
    value: Seq<char>,
) -> bool {
    &&& gives(arguments, first, pair, name)
    &&& arguments[first + 2 * pair + 1] == value
    &&& forall|later: int| pair < later ==> !gives(arguments, first, later, name)
}

/// Whether a value is the last one that a setting is given from a place on; none
/// if it is not given there.
pub open spec fn last_given(
    arguments: Seq<Seq<char>>,
    first: int,
    name: Seq<char>,
    value: Option<Seq<char>>,
) -> bool {
    match value {
        Some(value) => exists|pair: int| #[trigger] gives_last(arguments, first, pair, name, value),
        None => forall|pair: int| !gives(arguments, first, pair, name),
    }
}

/// Whether a value is the last one that a setting is given from a place on, or,
/// where it is not given there, another.
pub open spec fn given_or(
    arguments: Seq<Seq<char>>,
    first: int,
    name: Seq<char>,
    value: Option<Seq<char>>,
    other: Option<Seq<char>>,
) -> bool {
    ||| value is Some && last_given(arguments, first, name, value)
    ||| last_given(arguments, first, name, None) && value == other
}

/// Whether arguments are pairs of a name and a value from a place on, with no
/// names but some.
pub open spec fn paired(
    arguments: Seq<Seq<char>>,
    first: int,
    names: Seq<Seq<char>>,
) -> bool {
    &&& first <= arguments.len()
    &&& (arguments.len() - first) % 2 == 0
    &&& forall|pair: int|
        0 <= pair && first + 2 * pair < arguments.len() ==> names.contains(
            #[trigger] arguments[first + 2 * pair],
        )
}

proof fn lemma_given_step(
    arguments: Seq<Seq<char>>,
    first: int,
    name: Seq<char>,
    value: Option<Seq<char>>,
    other: Option<Seq<char>>,
)
    requires
        0 <= first,
        first + 1 < arguments.len(),
        given_or(
            arguments,
            first + 2,
            name,
            value,
            if arguments[first] == name {
                Some(arguments[first + 1])
            } else {
                other
            },
        ),
    ensures
        given_or(arguments, first, name, value, other),
{
    let next = first + 2;
    assert forall|pair: int| 0 <= pair implies #[trigger] gives(arguments, next, pair, name)
        == gives(arguments, first, pair + 1, name) by {
        assert(next + 2 * pair == first + 2 * (pair + 1));
    }
    if value is Some && last_given(arguments, next, name, value) {
        let pair = choose|pair: int| #[trigger] gives_last(arguments, next, pair, name, value->0);
        assert(gives(arguments, next, pair, name));
        assert(next + 2 * pair == first + 2 * (pair + 1));
        assert forall|later: int| pair + 1 < later implies !gives(
            arguments,
            first,
            later,
            name,
        ) by {
            assert(!gives(arguments, next, later - 1, name));
        }
        assert(gives_last(arguments, first, pair + 1, name, value->0));
    } else {
        assert(last_given(arguments, next, name, None));
        assert forall|later: int| 0 < later implies !gives(arguments, first, later, name) by {
            assert(!gives(arguments, next, later - 1, name));
        }
        if arguments[first] == name {
            assert(gives_last(arguments, first, 0, name, value->0));
        } else {
            assert forall|pair: int| !gives(arguments, first, pair, name) by {
                if pair == 0 {
                }
            }
        }
    }
}

proof fn lemma_paired_step(arguments: Seq<Seq<char>>, first: int, names: Seq<Seq<char>>)
    requires
        0 <= first,
        first + 1 < arguments.len(),
    ensures
        paired(arguments, first, names) <==> names.contains(arguments[first]) && paired(
            arguments,
            first + 2,
            names,
        ),
{
    if paired(arguments, first, names) {
        assert(names.contains(arguments[first + 2 * 0]));
        assert forall|pair: int| 0 <= pair && first + 2 + 2 * pair
            < arguments.len() implies names.contains(
            #[trigger] arguments[first + 2 + 2 * pair],
        ) by {
            assert(first + 2 + 2 * pair == first + 2 * (pair + 1));
            assert(names.contains(arguments[first + 2 * (pair + 1)]));
        }
    }
    if names.contains(arguments[first]) && paired(arguments, first + 2, names) {
        assert forall|pair: int| 0 <= pair && first + 2 * pair < arguments.len() implies names.contains(
            #[trigger] arguments[first + 2 * pair],
        ) by {
            if pair > 0 {
                assert(first + 2 * pair == first + 2 + 2 * (pair - 1));
                assert(names.contains(arguments[first + 2 + 2 * (pair - 1)]));
            }
        }
    }
}

proof fn lemma_settings(
    arguments: Seq<Seq<char>>,
    index: nat,
    known: Seq<Seq<char>>,
    usage: Seq<char>,
    settings: Seq<SettingView>,
    name: Seq<char>,
)
    requires
        index <= arguments.len(),
    ensures
        settings_from(arguments, index, known, usage, settings) is Ok <==> paired(
            arguments,
            index as int,
            known,
        ),
        settings_from(arguments, index, known, usage, settings) matches Ok(read) ==> given_or(
            arguments,
            index as int,
            name,
            setting(read, name),
            setting(settings, name),
        ),
    decreases arguments.len() - index,
{
    let first = index as int;
    if index >= arguments.len() {
        assert(last_given(arguments, first, name, None));
    } else if index + 1 >= arguments.len() {
    } else {
        lemma_paired_step(arguments, first, known);
        if known.contains(arguments[first]) {
            let pair = SettingView { name: arguments[first], value: arguments[first + 1] };
            let more = settings.push(pair);
            lemma_settings(arguments, index + 2, known, usage, more, name);
            assert(more.drop_last() =~= settings);
            assert(more.last() == pair);
            if let Ok(read) = settings_from(arguments, index, known, usage, settings) {
                lemma_given_step(
                    arguments,
                    first,
                    name,
                    setting(read, name),
                    setting(settings, name),
                );
            }
        }
    }
}

/// What a request to the fake model is understood as: each setting that is given
/// sets its own field to the last value that it is given, and only a field that
/// is not given has its default. The prompt has to be given.
pub proof fn model_commands_keep_their_settings(arguments: Seq<Seq<char>>)
    ensures
        model_command_of(arguments) is Ok <==> {
            &&& arguments.len() > 0
            &&& arguments[0] == "fake"@
            &&& paired(arguments, 1, seq!["--store"@, "--model"@, "--prompt"@, "--response"@])
            &&& !last_given(arguments, 1, "--prompt"@, None)
        },
        model_command_of(arguments) matches Ok(command) ==> {
            &&& last_given(arguments, 1, "--prompt"@, Some(command.prompt))
            &&& given_or(
                arguments,
                1,
                "--response"@,
                Some(command.response),
                Some("deterministic fake response"@),
            )
            &&& given_or(arguments, 1, "--model"@, Some(command.model), Some("fake-model"@))
            &&& given_or(arguments, 1, "--store"@, Some(command.store), Some(".agentrt/state.db"@))
        },
{
    if arguments.len() > 0 {
        let none = Seq::<SettingView>::empty();
        lemma_settings(arguments, 1, model_settings(), MODEL_USAGE@, none, "--prompt"@);
        lemma_settings(arguments, 1, model_settings(), MODEL_USAGE@, none, "--response"@);
        lemma_settings(arguments, 1, model_settings(), MODEL_USAGE@, none, "--model"@);
        lemma_settings(arguments, 1, model_settings(), MODEL_USAGE@, none, "--store"@);
        lemma_given_once(arguments, 1, "--prompt"@);
    }
}

proof fn lemma_given_once(arguments: Seq<Seq<char>>, first: int, name: Seq<char>)
    ensures
        forall|value: Seq<char>|
            #[trigger] last_given(arguments, first, name, Some(value)) ==> !last_given(
                arguments,
                first,
                name,
                None,
            ),
{
}

/// What a gate is understood as: the two kinds of gates, with the settings that
/// each of them has to be given, in any order.
pub proof fn gate_commands_keep_their_settings(arguments: Seq<Seq<char>>)
    ensures
        gate_command_of(arguments) is Ok <==> {
            &&& arguments.len() > 0
            &&& arguments[0] == "exists"@ || arguments[0] == "contains"@ && !last_given(
                arguments,
                1,
                "--text"@,
                None,
            )
            &&& paired(arguments, 1, seq!["--workspace"@, "--path"@, "--text"@])
            &&& !last_given(arguments, 1, "--workspace"@, None)
            &&& !last_given(arguments, 1, "--path"@, None)
        },
        gate_command_of(arguments) matches Ok(command) ==> {
            &&& last_given(arguments, 1, "--workspace"@, Some(command.workspace))
            &&& last_given(arguments, 1, "--path"@, Some(command.path))
            &&& arguments[0] == "contains"@ <==> command.text is Some
            &&& command.text is Some ==> last_given(arguments, 1, "--text"@, command.text)
        },
        forall|command: GateCommandView|
            match #[trigger] gate_question(command) {
                GateQuestionView::Contains { path, expected } => path == command.path
                    && command.text == Some(expected),
                GateQuestionView::IsDirectory(path) => path == command.path && command.text is None,
                GateQuestionView::IsFile(_) => false,
            },
{
    reveal_strlit("exists");
    reveal_strlit("contains");
    assert("exists"@.len() != "contains"@.len());
    if arguments.len() > 0 {
        let none = Seq::<SettingView>::empty();
        lemma_settings(arguments, 1, gate_settings(), GATE_USAGE@, none, "--workspace"@);
        lemma_settings(arguments, 1, gate_settings(), GATE_USAGE@, none, "--path"@);
        lemma_settings(arguments, 1, gate_settings(), GATE_USAGE@, none, "--text"@);
        lemma_given_once(arguments, 1, "--workspace"@);
        lemma_given_once(arguments, 1, "--path"@);
        lemma_given_once(arguments, 1, "--text"@);
    }
}

/// Whether a number of milliseconds is the last one given, or zero where none
/// is.
pub open spec fn pause_given(arguments: Seq<Seq<char>>, pause_ms: nat) -> bool {
    ||| pause_ms == 0 && last_given(arguments, 1, "--pause-ms"@, None)
    ||| exists|text: Seq<char>|
        #[trigger] last_given(arguments, 1, "--pause-ms"@, Some(text)) && unsigned_number(text)
            == Some(pause_ms) && pause_ms <= u64::MAX
}

proof fn lemma_pause(arguments: Seq<Seq<char>>, given: Option<Seq<char>>)
    requires
        given_or(arguments, 1, "--pause-ms"@, given, None),
    ensures
        milliseconds(given) matches Ok(pause_ms) ==> pause_given(arguments, pause_ms),
        milliseconds(given) is Err ==> forall|pause_ms: nat| !pause_given(arguments, pause_ms),
{
    lemma_given_once(arguments, 1, "--pause-ms"@);
    if let Some(text) = given {
        assert(last_given(arguments, 1, "--pause-ms"@, Some(text)));
        if milliseconds(given) is Err {
            assert forall|pause_ms: nat| !pause_given(arguments, pause_ms) by {
                if pause_given(arguments, pause_ms) {
                    let other = choose|other: Seq<char>|
                        #[trigger] last_given(arguments, 1, "--pause-ms"@, Some(other))
                            && unsigned_number(other) == Some(pause_ms) && pause_ms <= u64::MAX;
                    lemma_given_unique(arguments, 1, "--pause-ms"@, text, other);
                }
            }
        }
    }
}

proof fn lemma_given_unique(
    arguments: Seq<Seq<char>>,
    first: int,
    name: Seq<char>,
    one: Seq<char>,
    other: Seq<char>,
)
    requires
        last_given(arguments, first, name, Some(one)),
        last_given(arguments, first, name, Some(other)),
    ensures
        one == other,
{
    let a = choose|pair: int| #[trigger] gives_last(arguments, first, pair, name, one);
    let b = choose|pair: int| #[trigger] gives_last(arguments, first, pair, name, other);
    if a < b {
        assert(!gives(arguments, first, b, name));
    } else if b < a {
        assert(!gives(arguments, first, a, name));
    }
}

/// The names of the settings of a repair.
pub open spec fn fix_names() -> Seq<Seq<char>> {
    seq![
        "--workspace"@,
        "--path"@,
        "--find"@,
        "--replace"@,
        "--store"@,
        "--run-id"@,
        "--pause-ms"@,
    ]
}

/// What a repair of one place is understood as: it is told its workspace, path,
/// text and replacement, each setting sets its own field to the last value that
/// it is given, and only what is not given has its default.
pub proof fn fix_commands_keep_their_settings(arguments: Seq<Seq<char>>)
    requires
        arguments.len() > 0,
        arguments[0] == "repo-fix"@,
    ensures
        agent_command_of(arguments) is Ok <==> {
            &&& paired(arguments, 1, fix_names())
            &&& !last_given(arguments, 1, "--workspace"@, None)
            &&& !last_given(arguments, 1, "--path"@, None)
            &&& !last_given(arguments, 1, "--find"@, None)
            &&& !last_given(arguments, 1, "--replace"@, None)
            &&& exists|pause_ms: nat| #[trigger] pause_given(arguments, pause_ms)
        },
        agent_command_of(arguments) matches Ok(agent) ==> match agent {
            AgentCommandView::Fix(command) => {
                &&& last_given(arguments, 1, "--workspace"@, Some(command.workspace))
                &&& last_given(arguments, 1, "--path"@, Some(command.path))
                &&& last_given(arguments, 1, "--find"@, Some(command.find))
                &&& last_given(arguments, 1, "--replace"@, Some(command.replace))
                &&& last_given(arguments, 1, "--run-id"@, command.run_id)
                &&& given_or(
                    arguments,
                    1,
                    "--store"@,
                    Some(command.store),
                    Some(".agentrt/state.db"@),
                )
                &&& pause_given(arguments, command.pause_ms)
            },
            AgentCommandView::Plan(_) => false,
        },
{
    let none = Seq::<SettingView>::empty();
    assert(fix_names() =~= fix_settings());
    lemma_settings(arguments, 1, fix_settings(), AGENT_USAGE@, none, "--workspace"@);
    lemma_settings(arguments, 1, fix_settings(), AGENT_USAGE@, none, "--path"@);
    lemma_settings(arguments, 1, fix_settings(), AGENT_USAGE@, none, "--find"@);
    lemma_settings(arguments, 1, fix_settings(), AGENT_USAGE@, none, "--replace"@);
    lemma_settings(arguments, 1, fix_settings(), AGENT_USAGE@, none, "--store"@);
    lemma_settings(arguments, 1, fix_settings(), AGENT_USAGE@, none, "--run-id"@);
    lemma_settings(arguments, 1, fix_settings(), AGENT_USAGE@, none, "--pause-ms"@);
    lemma_given_once(arguments, 1, "--workspace"@);
    lemma_given_once(arguments, 1, "--path"@);
    lemma_given_once(arguments, 1, "--find"@);
    lemma_given_once(arguments, 1, "--replace"@);
    if let Ok(settings) = settings_from(arguments, 1, fix_settings(), AGENT_USAGE@, none) {
        let pause = setting(settings, "--pause-ms"@);
        lemma_pause(arguments, pause);
        if milliseconds(pause) is Ok {
            assert(pause_given(arguments, milliseconds(pause)->Ok_0));
        }
    }
}

/// The names of the settings of a planned repair.
pub open spec fn plan_names() -> Seq<Seq<char>> {
    seq![
        "--workspace"@,
        "--prompt"@,
        "--provider"@,
        "--model"@,
        "--response-file"@,
        "--store"@,
        "--run-id"@,
        "--pause-ms"@,
    ]
}

/// What a repair by a plan is understood as: it is told its workspace and
/// prompt, and asks Gemini only if that is the provider it is told. The fake
/// provider, which it has otherwise, needs the file of its response. Each setting
/// sets its own field to the last value that it is given.
pub proof fn plan_commands_keep_their_settings(arguments: Seq<Seq<char>>)
    requires
        arguments.len() > 0,
        arguments[0] == "repo-fix-model"@,
    ensures
        agent_command_of(arguments) is Ok <==> {
            &&& paired(arguments, 1, plan_names())
            &&& !last_given(arguments, 1, "--workspace"@, None)
            &&& !last_given(arguments, 1, "--prompt"@, None)
            &&& last_given(arguments, 1, "--provider"@, Some("gemini"@)) || (last_given(
                arguments,
                1,
                "--provider"@,
                None,
            ) || last_given(arguments, 1, "--provider"@, Some("fake"@))) && !last_given(
                arguments,
                1,
                "--response-file"@,
                None,
            )
            &&& exists|pause_ms: nat| #[trigger] pause_given(arguments, pause_ms)
        },
        agent_command_of(arguments) matches Ok(agent) ==> match agent {
            AgentCommandView::Plan(command) => {
                &&& last_given(arguments, 1, "--workspace"@, Some(command.workspace))
                &&& last_given(arguments, 1, "--prompt"@, Some(command.prompt))
                &&& command.gemini <==> last_given(arguments, 1, "--provider"@, Some("gemini"@))
                &&& last_given(arguments, 1, "--model"@, command.model)
                &&& last_given(arguments, 1, "--response-file"@, command.response_file)
                &&& last_given(arguments, 1, "--run-id"@, command.run_id)
                &&& given_or(
                    arguments,
                    1,
                    "--store"@,
                    Some(command.store),
                    Some(".agentrt/state.db"@),
                )
                &&& pause_given(arguments, command.pause_ms)
            },
            AgentCommandView::Fix(_) => false,
        },
{
    let none = Seq::<SettingView>::empty();
    assert(plan_names() =~= plan_settings());
    reveal_strlit("repo-fix");
    reveal_strlit("repo-fix-model");
    assert("repo-fix"@.len() != "repo-fix-model"@.len());
    reveal_strlit("fake");
    reveal_strlit("gemini");
    assert("fake"@.len() != "gemini"@.len());
    lemma_settings(arguments, 1, plan_settings(), AGENT_USAGE@, none, "--workspace"@);
    lemma_settings(arguments, 1, plan_settings(), AGENT_USAGE@, none, "--prompt"@);
    lemma_settings(arguments, 1, plan_settings(), AGENT_USAGE@, none, "--provider"@);
    lemma_settings(arguments, 1, plan_settings(), AGENT_USAGE@, none, "--model"@);
    lemma_settings(arguments, 1, plan_settings(), AGENT_USAGE@, none, "--response-file"@);
    lemma_settings(arguments, 1, plan_settings(), AGENT_USAGE@, none, "--store"@);
    lemma_settings(arguments, 1, plan_settings(), AGENT_USAGE@, none, "--run-id"@);
    lemma_settings(arguments, 1, plan_settings(), AGENT_USAGE@, none, "--pause-ms"@);
    lemma_given_once(arguments, 1, "--workspace"@);
    lemma_given_once(arguments, 1, "--prompt"@);
    lemma_given_once(arguments, 1, "--provider"@);
    lemma_given_once(arguments, 1, "--response-file"@);
    if let Ok(settings) = settings_from(arguments, 1, plan_settings(), AGENT_USAGE@, none) {
        let pause = setting(settings, "--pause-ms"@);
        lemma_pause(arguments, pause);
        if milliseconds(pause) is Ok {
            assert(pause_given(arguments, milliseconds(pause)->Ok_0));
        }
        if let Some(provider) = setting(settings, "--provider"@) {
            if last_given(arguments, 1, "--provider"@, Some("gemini"@)) {
                lemma_given_unique(arguments, 1, "--provider"@, provider, "gemini"@);
            }
            if last_given(arguments, 1, "--provider"@, Some("fake"@)) {
                lemma_given_unique(arguments, 1, "--provider"@, provider, "fake"@);
            }
        }
    }
}

/// Which model plans: the one that the command names, and otherwise the one that
/// is configured for Gemini, or the fake planner.
pub proof fn plans_ask_the_model_that_is_named(
    command: PlanCommandView,
    configured: Option<Seq<char>>,
    name: Seq<char>,
)
    ensures
        command.model == Some(name) ==> plan_model(command, configured) == name,
        command.model is None && command.gemini && configured == Some(name) ==> plan_model(
            command,
            configured,
        ) == name,
        command.model is None && !command.gemini ==> plan_model(command, configured)
            == "fake-agent-planner"@,
        command.model is None && command.gemini && configured is None ==> plan_model(
            command,
            configured,
        ) == ""@,
{
}

/// The command goes by the first word alone, except that a version takes no more
/// words. Without a word it is help, and a word that is no command is told.
pub proof fn commands_go_by_their_first_word(arguments: Seq<Seq<char>>)
    ensures
        arguments.len() == 0 ==> command_of(arguments) is Help,
        command_of(arguments) matches CommandView::Unknown(word) ==> arguments.len() > 0 && word
            == arguments[0],
        arguments.len() > 0 ==> {
            let word = arguments[0];
            let version = word == "version"@ || word == "--version"@ || word == "-V"@;
            &&& version ==> (command_of(arguments) is Version <==> arguments.len() == 1)
            &&& version ==> (command_of(arguments) is VersionArguments <==> arguments.len() > 1)
            &&& !version ==> command_of(arguments) == command_of(seq![word])
        },
        command_of(seq!["run"@]) is Run,
        command_of(seq!["resume"@]) is Resume,
        command_of(seq!["status"@]) is Status,
        command_of(seq!["audit"@]) is Audit,
        command_of(seq!["tool"@]) is Tool,
        command_of(seq!["model"@]) is Model,
        command_of(seq!["gate"@]) is Gate,
        command_of(seq!["agent"@]) is Agent,
        command_of(seq!["eval"@]) is Eval,
        command_of(seq!["help"@]) is Help,
        command_of(seq!["--help"@]) is Help,
        command_of(seq!["-h"@]) is Help,
{
    lemma_command_words();
}

proof fn lemma_command_words()
    ensures
        "version"@ != "help"@ && "version"@ != "--help"@ && "version"@ != "-h"@,
        "--version"@ != "help"@ && "--version"@ != "--help"@ && "--version"@ != "-h"@,
        "-V"@ != "help"@ && "-V"@ != "--help"@ && "-V"@ != "-h"@,
        command_of(seq!["run"@]) is Run,
        command_of(seq!["resume"@]) is Resume,
        command_of(seq!["status"@]) is Status,
        command_of(seq!["audit"@]) is Audit,
        command_of(seq!["tool"@]) is Tool,
        command_of(seq!["model"@]) is Model,
        command_of(seq!["gate"@]) is Gate,
        command_of(seq!["agent"@]) is Agent,
        command_of(seq!["eval"@]) is Eval,
{
    reveal_strlit("help");
    reveal_strlit("--help");
    reveal_strlit("-h");
    reveal_strlit("version");
    reveal_strlit("--version");
    reveal_strlit("-V");
    reveal_strlit("run");
    reveal_strlit("resume");
    reveal_strlit("status");
    reveal_strlit("audit");
    reveal_strlit("tool");
    reveal_strlit("model");
    reveal_strlit("gate");
    reveal_strlit("agent");
    reveal_strlit("eval");
    assert("help"@[0] == 'h' && "--help"@[0] == '-' && "-h"@[0] == '-');
    assert("--help"@[2] != "--version"@[2] && "-h"@[1] != "-V"@[1]);
    assert("--help"@.len() == 6 && "--version"@.len() == 9 && "-h"@.len() == 2 && "-V"@.len() == 2);
    assert("version"@[0] == 'v' && "--version"@[0] == '-' && "-V"@[0] == '-');
    assert("run"@[0] == 'r' && "run"@[1] == 'u' && "resume"@[0] == 'r' && "resume"@[1] == 'e');
    assert("status"@[0] == 's' && "tool"@[0] == 't' && "model"@[0] == 'm');
    assert("audit"@[0] == 'a' && "audit"@[1] == 'u' && "agent"@[0] == 'a' && "agent"@[1] == 'g');
    assert("gate"@[0] == 'g' && "eval"@[0] == 'e');
}

/// An evaluation is told nothing but to break, any number of times.
pub proof fn evaluations_are_told_only_to_break(arguments: Seq<Seq<char>>)
    ensures
        eval_command_of(arguments) is Ok <==> forall|i: int|
            0 <= i < arguments.len() ==> #[trigger] arguments[i] == "--break"@,
        eval_command_of(arguments) matches Ok(broken) ==> (broken <==> arguments.len() > 0),
    decreases arguments.len(),
{
    if arguments.len() > 0 {
        let front = arguments.drop_last();
        evaluations_are_told_only_to_break(front);
        if eval_command_of(arguments) is Ok {
            assert forall|i: int| 0 <= i < arguments.len() implies #[trigger] arguments[i]
                == "--break"@ by {
                if i < front.len() {
                    assert(front[i] == "--break"@);
                }
            }
        }
        if forall|i: int| 0 <= i < arguments.len() ==> #[trigger] arguments[i] == "--break"@ {
            assert forall|i: int| 0 <= i < front.len() implies #[trigger] front[i]
                == "--break"@ by {
                assert(arguments[i] == "--break"@);
            }
            assert(arguments[arguments.len() - 1] == "--break"@);
        }
    }
}

// Laws of the options of runs

/// Whether a value may follow an option: it does not begin with a dash.
pub open spec fn may_follow(value: Seq<char>) -> bool {
    value.len() == 0 || value[0] != '-'
}

/// Whether an option is one that may be given.
pub open spec fn is_option(name: Seq<char>, allow_run_options: bool, allow_export: bool) -> bool {
    ||| name == "--store"@
    ||| name == "--run-id"@
    ||| allow_run_options && (name == "--steps"@ || name == "--crash-after"@)
    ||| allow_export && name == "--export"@
}

/// Whether an option that takes a number has one that is positive.
pub open spec fn has_number(name: Seq<char>, value: Seq<char>) -> bool {
    name == "--steps"@ || name == "--crash-after"@ ==> unsigned_number(value) is Some && 0
        < unsigned_number(value)->0 <= usize::MAX
}

/// Whether arguments are pairs of an option and its value from a place on.
pub open spec fn options_paired(
    arguments: Seq<Seq<char>>,
    first: int,
    allow_run_options: bool,
    allow_export: bool,
) -> bool {
    &&& first <= arguments.len()
    &&& (arguments.len() - first) % 2 == 0
    &&& forall|pair: int|
        0 <= pair && first + 2 * pair + 1 < arguments.len() ==> {
            let name = #[trigger] arguments[first + 2 * pair];
            let value = arguments[first + 2 * pair + 1];
            is_option(name, allow_run_options, allow_export) && may_follow(value) && has_number(
                name,
                value,
            )
        }
}

/// The number that a text stands for, if there is a text.
pub open spec fn opt_number(text: Option<Seq<char>>, other: Option<nat>) -> Option<nat> {
    match text {
        Some(text) => unsigned_number(text),
        None => other,
    }
}

proof fn lemma_options_step(
    arguments: Seq<Seq<char>>,
    first: int,
    allow_run_options: bool,
    allow_export: bool,
)
    requires
        0 <= first,
        first + 1 < arguments.len(),
    ensures
        options_paired(arguments, first, allow_run_options, allow_export) <==> is_option(
            arguments[first],
            allow_run_options,
            allow_export,
        ) && may_follow(arguments[first + 1]) && has_number(arguments[first], arguments[first + 1])
            && options_paired(arguments, first + 2, allow_run_options, allow_export),
{
    if options_paired(arguments, first, allow_run_options, allow_export) {
        assert(arguments[first + 2 * 0] == arguments[first]);
        assert forall|pair: int| 0 <= pair && first + 2 + 2 * pair + 1 < arguments.len() implies {
            let name = #[trigger] arguments[first + 2 + 2 * pair];
            let value = arguments[first + 2 + 2 * pair + 1];
            is_option(name, allow_run_options, allow_export) && may_follow(value) && has_number(
                name,
                value,
            )
        } by {
            assert(first + 2 + 2 * pair == first + 2 * (pair + 1));
            assert(arguments[first + 2 * (pair + 1)] == arguments[first + 2 + 2 * pair]);
        }
    }
    if is_option(arguments[first], allow_run_options, allow_export) && may_follow(
        arguments[first + 1],
    ) && has_number(arguments[first], arguments[first + 1]) && options_paired(
        arguments,
        first + 2,
        allow_run_options,
        allow_export,
    ) {
        assert forall|pair: int| 0 <= pair && first + 2 * pair + 1 < arguments.len() implies {
            let name = #[trigger] arguments[first + 2 * pair];
            let value = arguments[first + 2 * pair + 1];
            is_option(name, allow_run_options, allow_export) && may_follow(value) && has_number(
                name,
                value,
            )
        } by {
            if pair > 0 {
                assert(first + 2 * pair == first + 2 + 2 * (pair - 1));
                assert(arguments[first + 2 + 2 * (pair - 1)] == arguments[first + 2 * pair]);
            }
        }
    }
}

proof fn lemma_option_names()
    ensures
        "--store"@ != "--run-id"@,
        "--store"@ != "--steps"@,
        "--store"@ != "--crash-after"@,
        "--store"@ != "--export"@,
        "--run-id"@ != "--steps"@,
        "--run-id"@ != "--crash-after"@,
        "--run-id"@ != "--export"@,
        "--steps"@ != "--crash-after"@,
        "--steps"@ != "--export"@,
        "--crash-after"@ != "--export"@,
{
    reveal_strlit("--store");
    reveal_strlit("--run-id");
    reveal_strlit("--steps");
    reveal_strlit("--crash-after");
    reveal_strlit("--export");
    assert("--store"@[2] == 's' && "--store"@[4] == 'o');
    assert("--steps"@[2] == 's' && "--steps"@[4] == 'e');
    assert("--run-id"@[2] == 'r');
    assert("--crash-after"@[2] == 'c');
    assert("--export"@[2] == 'e');
}

/// What the texts are that the options of numbers are last given.
#[verifier::rlimit(60)]
proof fn lemma_options(
    arguments: Seq<Seq<char>>,
    index: nat,
    options: OptionsView,
    allow_run_options: bool,
    allow_export: bool,
    steps: Option<Seq<char>>,
    crash: Option<Seq<char>>,
) -> (texts: (Option<Seq<char>>, Option<Seq<char>>))
    requires
        index <= arguments.len(),
        options.steps > 0,
        opt_number(steps, Some(4)) == Some(options.steps),
        opt_number(crash, None) == options.crash_after,
    ensures
        ({
            let result = options_from(
                arguments,
                index,
                options,
                allow_run_options,
                allow_export,
            );
            let first = index as int;
            &&& result is Ok <==> options_paired(
                arguments,
                first,
                allow_run_options,
                allow_export,
            )
            &&& result matches Ok(read) ==> {
                &&& given_or(arguments, first, "--store"@, Some(read.store), Some(options.store))
                &&& given_or(arguments, first, "--run-id"@, read.run_id, options.run_id)
                &&& given_or(arguments, first, "--export"@, read.export, options.export)
                &&& given_or(arguments, first, "--steps"@, texts.0, steps)
                &&& given_or(arguments, first, "--crash-after"@, texts.1, crash)
                &&& opt_number(texts.0, Some(4)) == Some(read.steps)
                &&& opt_number(texts.1, None) == read.crash_after
            }
        }),
    decreases arguments.len() - index,
{
    let first = index as int;
    lemma_option_names();
    if index >= arguments.len() {
        assert(last_given(arguments, first, "--store"@, None));
        assert(last_given(arguments, first, "--run-id"@, None));
        assert(last_given(arguments, first, "--export"@, None));
        assert(last_given(arguments, first, "--steps"@, None));
        assert(last_given(arguments, first, "--crash-after"@, None));
        (steps, crash)
    } else if index + 1 >= arguments.len() {
        (steps, crash)
    } else {
        let name = arguments[first];
        let value = arguments[first + 1];
        lemma_options_step(arguments, first, allow_run_options, allow_export);
        if is_option(name, allow_run_options, allow_export) && may_follow(value) && has_number(
            name,
            value,
        ) {
            let number = unsigned_number(value)->0;
            let next = if name == "--store"@ {
                OptionsView { store: value, ..options }
            } else if name == "--run-id"@ {
                OptionsView { run_id: Some(value), ..options }
            } else if name == "--steps"@ {
                OptionsView { steps: number, ..options }
            } else if name == "--crash-after"@ {
                OptionsView { crash_after: Some(number), ..options }
            } else {
                OptionsView { export: Some(value), ..options }
            };
            let next_steps = if name == "--steps"@ {
                Some(value)
            } else {
                steps
            };
            let next_crash = if name == "--crash-after"@ {
                Some(value)
            } else {
                crash
            };
            assert(options_from(arguments, index, options, allow_run_options, allow_export)
                == options_from(arguments, index + 2, next, allow_run_options, allow_export));
            let texts = lemma_options(
                arguments,
                index + 2,
                next,
                allow_run_options,
                allow_export,
                next_steps,
                next_crash,
            );
            let result = options_from(arguments, index, options, allow_run_options, allow_export);
            if let Ok(read) = result {
                lemma_given_step(
                    arguments,
                    first,
                    "--store"@,
                    Some(read.store),
                    Some(options.store),
                );
                lemma_given_step(arguments, first, "--run-id"@, read.run_id, options.run_id);
                lemma_given_step(arguments, first, "--export"@, read.export, options.export);
                lemma_given_step(arguments, first, "--steps"@, texts.0, steps);
                lemma_given_step(arguments, first, "--crash-after"@, texts.1, crash);
            }
            texts
        } else {
            (steps, crash)
        }
    }
}

/// Whether a number is the last one that an option is given, or, where it is not
/// given, another.
pub open spec fn number_given_or(
    arguments: Seq<Seq<char>>,
    name: Seq<char>,
    number: Option<nat>,
    other: Option<nat>,
) -> bool {
    ||| last_given(arguments, 0, name, None) && number == other
    ||| exists|text: Seq<char>|
        #[trigger] last_given(arguments, 0, name, Some(text)) && number is Some
            && unsigned_number(text) == number
}

/// What the options of a run are understood as: pairs of an option that may be
/// given here and a value that does not begin with a dash, with positive numbers
/// for the steps and the crash. Each sets its own field to the last value that it
/// is given, and only what is not given has its default.
pub proof fn options_keep_their_values(
    arguments: Seq<Seq<char>>,
    allow_run_options: bool,
    allow_export: bool,
)
    ensures
        ({
            let result = options_from(
                arguments,
                0,
                default_options(),
                allow_run_options,
                allow_export,
            );
            &&& result is Ok <==> options_paired(arguments, 0, allow_run_options, allow_export)
            &&& result matches Ok(read) ==> {
                &&& given_or(
                    arguments,
                    0,
                    "--store"@,
                    Some(read.store),
                    Some(".agentrt/state.db"@),
                )
                &&& last_given(arguments, 0, "--run-id"@, read.run_id)
                &&& last_given(arguments, 0, "--export"@, read.export)
                &&& number_given_or(arguments, "--steps"@, Some(read.steps), Some(4))
                &&& number_given_or(arguments, "--crash-after"@, read.crash_after, None)
            }
        }),
{
    let texts = lemma_options(
        arguments,
        0,
        default_options(),
        allow_run_options,
        allow_export,
        None,
        None,
    );
}

/// Why settings are refused: the first word in the place of a name that is not
/// known is named, one that asks for help gets the usage alone, and a name
/// without a value is named. A name with its value is passed over.
pub proof fn refused_settings_are_named(
    arguments: Seq<Seq<char>>,
    index: nat,
    known: Seq<Seq<char>>,
    usage: Seq<char>,
    settings: Seq<SettingView>,
)
    requires
        index < arguments.len(),
    ensures
        ({
            let word = arguments[index as int];
            let read = settings_from(arguments, index, known, usage, settings);
            if !known.contains(word) {
                if word == "--help"@ || word == "-h"@ {
                    read == Err::<Seq<SettingView>, Seq<char>>(usage)
                } else {
                    read == Err::<Seq<SettingView>, Seq<char>>(
                        "unknown option `"@ + word + "`"@ + "\n\n"@ + usage,
                    )
                }
            } else if index + 1 == arguments.len() {
                read == Err::<Seq<SettingView>, Seq<char>>(
                    word + " requires a value"@ + "\n\n"@ + usage,
                )
            } else {
                forall|others: Seq<SettingView>|
                    (#[trigger] settings_from(arguments, index + 2, known, usage, others)) is Err
                        ==> read == settings_from(arguments, index + 2, known, usage, others)
            }
        }),
{
    if known.contains(arguments[index as int]) && index + 1 < arguments.len() {
        assert forall|others: Seq<SettingView>|
            (#[trigger] settings_from(arguments, index + 2, known, usage, others))
                is Err implies settings_from(arguments, index, known, usage, settings)
            == settings_from(arguments, index + 2, known, usage, others) by {
            lemma_same_refusal(
                arguments,
                index + 2,
                known,
                usage,
                others,
                settings.push(
                    SettingView {
                        name: arguments[index as int],
                        value: arguments[index as int + 1],
                    },
                ),
            );
        }
    }
}

proof fn lemma_same_refusal(
    arguments: Seq<Seq<char>>,
    index: nat,
    known: Seq<Seq<char>>,
    usage: Seq<char>,
    settings: Seq<SettingView>,
    others: Seq<SettingView>,
)
    requires
        settings_from(arguments, index, known, usage, settings) is Err,
    ensures
        settings_from(arguments, index, known, usage, others) == settings_from(
            arguments,
            index,
            known,
            usage,
            settings,
        ),
    decreases arguments.len() - index,
{
    if index < arguments.len() && known.contains(arguments[index as int]) && index + 1
        < arguments.len() {
        let one = SettingView { name: arguments[index as int], value: arguments[index as int + 1] };
        lemma_same_refusal(
            arguments,
            index + 2,
            known,
            usage,
            settings.push(one),
            others.push(one),
        );
    }
}

/// Why a value of an option is refused: it is missing, or is another option, or
/// it is no positive number where one is due. The option is named.
pub proof fn refused_values_name_their_option(
    arguments: Seq<Seq<char>>,
    index: nat,
    option: Seq<char>,
)
    ensures
        value_at(arguments, index, option) matches Err(message) ==> message == option
            + " requires a value"@ && (index < arguments.len() ==> arguments[index as int].len() > 0
            && arguments[index as int][0] == '-'),
        positive_at(arguments, index, option) matches Err(message) ==> if value_at(
            arguments,
            index,
            option,
        ) is Err {
            message == option + " requires a value"@
        } else {
            message == option + " expects a positive integer"@
        },
{
}

/// A setting that must be given and is not is named, before the usage.
pub proof fn missing_settings_are_named(
    settings: Seq<SettingView>,
    name: Seq<char>,
    usage: Seq<char>,
)
    ensures
        needed(settings, name, usage) is Err <==> setting(settings, name) is None,
        needed(settings, name, usage) matches Err(message) ==> message == name + " is required"@
            + "\n\n"@ + usage,
        needed(settings, name, usage) matches Ok(value) ==> setting(settings, name) == Some(value),
{
}

} // verus!
