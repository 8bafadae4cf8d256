//! Plans that a model proposes: how they are read, and which are accepted.

use crate::json::{lemma_array_view, member, repeated, Json, JsonView};
use crate::number::{bounded_number, decimal, decimal_text, parse_bounded, unsigned_number};
use crate::path::{goes_up, is_plain_relative, path_goes_up, PathStyle};
use crate::plan_text::{plan_json, read_plan_text};
use crate::text::{begins_with, blank, has_char, is_blank, res_view, same_text, unit_view, views};
use vstd::prelude::*;
use vstd::string::StringExecFns;

verus! {

/// One action of a plan.
#[derive(Debug)]
pub enum PlanAction {
    Read { path: String },
    Write { path: String, contents: String },
    GateContains { path: String, expected: String },
}

/// The mathematical form of an action.
pub enum PlanActionView {
    Read { path: Seq<char> },
    Write { path: Seq<char>, contents: Seq<char> },
    GateContains { path: Seq<char>, expected: Seq<char> },
}

impl View for PlanAction {
    type V = PlanActionView;

    open spec fn view(&self) -> PlanActionView {
        match self {
            PlanAction::Read { path } => PlanActionView::Read { path: path@ },
            PlanAction::Write { path, contents } => PlanActionView::Write {
                path: path@,
                contents: contents@,
            },
            PlanAction::GateContains { path, expected } => PlanActionView::GateContains {
                path: path@,
                expected: expected@,
            },
        }
    }
}

/// A plan that a model proposes.
#[derive(Debug)]
pub struct AgentPlan {
    pub version: u32,
    pub summary: String,
    pub actions: Vec<PlanAction>,
}

/// The mathematical form of a plan.
pub struct AgentPlanView {
    pub version: nat,
    pub summary: Seq<char>,
    pub actions: Seq<PlanActionView>,
}

impl View for AgentPlan {
    type V = AgentPlanView;

    open spec fn view(&self) -> AgentPlanView {
        AgentPlanView {
            version: self.version as nat,
            summary: self.summary@,
            actions: views(self.actions@),
        }
    }
}

/// Why a plan was refused.
#[derive(Debug)]
pub enum PlanError {
    Decode(String),
    Invalid(String),
}

/// The mathematical form of a plan error.
pub enum PlanErrorView {
    Decode(Seq<char>),
    Invalid(Seq<char>),
}

impl View for PlanError {
    type V = PlanErrorView;

    open spec fn view(&self) -> PlanErrorView {
        match self {
            PlanError::Decode(message) => PlanErrorView::Decode(message@),
            PlanError::Invalid(message) => PlanErrorView::Invalid(message@),
        }
    }
}

/// The text of a plan error.
pub open spec fn plan_error_text(error: PlanErrorView) -> Seq<char> {
    match error {
        PlanErrorView::Decode(message) => "model plan JSON error: "@ + message,
        PlanErrorView::Invalid(message) => "invalid model plan: "@ + message,
    }
}

impl PlanError {
    /// The text of the error.
    pub fn message(&self) -> (text: String)
        ensures
            text@ == plan_error_text(self@),
    {
        match self {
            PlanError::Decode(message) => {
                let mut text = "model plan JSON error: ".to_owned();
                text.append(message.as_str());
                text
            },
            PlanError::Invalid(message) => {
                let mut text = "invalid model plan: ".to_owned();
                text.append(message.as_str());
                text
            },
        }
    }
}

// Reading

/// What is said of a field that is not there.
pub open spec fn missing_field(field: Seq<char>) -> Seq<char> {
    "missing field `"@ + field + "`"@
}

/// What is said of a field that is there twice.
pub open spec fn duplicate_field(field: Seq<char>) -> Seq<char> {
    "duplicate field `"@ + field + "`"@
}

/// A field that has to be a text.
pub open spec fn text_field(value: Option<JsonView>, field: Seq<char>) -> Result<
    Seq<char>,
    Seq<char>,
> {
    match value {
        None => Err(missing_field(field)),
        Some(JsonView::Text(text)) => Ok(text),
        Some(_) => Err("field `"@ + field + "` must be a string"@),
    }
}

/// The version of a plan.
pub open spec fn version_field(value: Option<JsonView>) -> Result<nat, Seq<char>> {
    match value {
        None => Err(missing_field("version"@)),
        Some(JsonView::Number(text)) => match bounded_number(text, u32::MAX as nat) {
            Some(version) => Ok(version),
            None => Err("field `version` must be a 32-bit number"@),
        },
        Some(_) => Err("field `version` must be a 32-bit number"@),
    }
}

/// An action of a kind, from its fields.
pub open spec fn action_of_kind(
    kind: Seq<char>,
    path: Option<JsonView>,
    contents: Option<JsonView>,
    expected: Option<JsonView>,
) -> Result<PlanActionView, Seq<char>> {
    if kind == "read"@ {
        match text_field(path, "path"@) {
            Err(message) => Err(message),
            Ok(path) => Ok(PlanActionView::Read { path }),
        }
    } else if kind == "write"@ {
        match (text_field(path, "path"@), text_field(contents, "contents"@)) {
            (Err(message), _) => Err(message),
            (_, Err(message)) => Err(message),
            (Ok(path), Ok(contents)) => Ok(PlanActionView::Write { path, contents }),
        }
    } else if kind == "gate_contains"@ {
        match (text_field(path, "path"@), text_field(expected, "expected"@)) {
            (Err(message), _) => Err(message),
            (_, Err(message)) => Err(message),
            (Ok(path), Ok(expected)) => Ok(PlanActionView::GateContains { path, expected }),
        }
    } else {
        Err(
            "unknown variant `"@ + kind
                + "`, expected one of `read`, `write`, `gate_contains`"@,
        )
    }
}

/// A field that an action of a kind has twice, if there is one. A member that
/// means nothing to the kind may be there any number of times.
pub open spec fn repeated_part(json: JsonView, kind: Seq<char>) -> Option<Seq<char>> {
    if repeated(json, "kind"@) {
        Some("kind"@)
    } else if repeated(json, "path"@) {
        Some("path"@)
    } else if kind == "write"@ && repeated(json, "contents"@) {
        Some("contents"@)
    } else if kind == "gate_contains"@ && repeated(json, "expected"@) {
        Some("expected"@)
    } else {
        None
    }
}

/// A field that a plan has twice, if there is one.
pub open spec fn repeated_field(json: JsonView) -> Option<Seq<char>> {
    if repeated(json, "version"@) {
        Some("version"@)
    } else if repeated(json, "summary"@) {
        Some("summary"@)
    } else if repeated(json, "actions"@) {
        Some("actions"@)
    } else {
        None
    }
}

/// How many fields an action of a kind has besides its kind.
pub open spec fn field_count(kind: Seq<char>) -> nat {
    if kind == "read"@ {
        1
    } else {
        2
    }
}

/// The element of an array at a position.
pub open spec fn element(items: Seq<JsonView>, position: int) -> Option<JsonView> {
    if 0 <= position < items.len() {
        Some(items[position])
    } else {
        None
    }
}

/// An action, from its JSON value: an object whose member `kind` tells what it
/// is, or an array of its kind and its fields.
pub open spec fn action_of(json: JsonView) -> Result<PlanActionView, Seq<char>> {
    match json {
        JsonView::Object(_) => match text_field(member(json, "kind"@), "kind"@) {
            Err(message) => Err(message),
            Ok(kind) => match repeated_part(json, kind) {
                Some(field) => Err(duplicate_field(field)),
                None => action_of_kind(
                    kind,
                    member(json, "path"@),
                    member(json, "contents"@),
                    member(json, "expected"@),
                ),
            },
        },
        JsonView::Array(items) => match text_field(element(items, 0), "kind"@) {
            Err(message) => Err(message),
            Ok(kind) => if items.len() > field_count(kind) + 1 {
                Err("an action has too many elements"@)
            } else {
                action_of_kind(kind, element(items, 1), element(items, 2), element(items, 2))
            },
        },
        _ => Err("an action must be an object or a list"@),
    }
}

/// The actions of a plan, from their JSON values; the first that is not an
/// action refuses them all.
pub open spec fn actions_of(items: Seq<JsonView>) -> Result<Seq<PlanActionView>, Seq<char>>
    decreases items.len(),
{
    if items.len() == 0 {
        Ok(Seq::empty())
    } else {
        match actions_of(items.drop_last()) {
            Err(message) => Err(message),
            Ok(actions) => match action_of(items.last()) {
                Err(message) => Err(message),
                Ok(action) => Ok(actions.push(action)),
            },
        }
    }
}

/// The actions of a plan, from the field that holds them.
pub open spec fn actions_field(value: Option<JsonView>) -> Result<
    Seq<PlanActionView>,
    Seq<char>,
> {
    match value {
        None => Err(missing_field("actions"@)),
        Some(JsonView::Array(items)) => actions_of(items),
        Some(_) => Err("field `actions` must be a list"@),
    }
}

/// A plan, from its fields.
pub open spec fn plan_of_fields(
    version: Option<JsonView>,
    summary: Option<JsonView>,
    actions: Option<JsonView>,
) -> Result<AgentPlanView, Seq<char>> {
    match (version_field(version), text_field(summary, "summary"@), actions_field(actions)) {
        (Err(message), _, _) => Err(message),
        (_, Err(message), _) => Err(message),
        (_, _, Err(message)) => Err(message),
        (Ok(version), Ok(summary), Ok(actions)) => Ok(AgentPlanView { version, summary, actions }),
    }
}

/// A plan, from its JSON value: an object with its fields, or an array of them.
/// What is said of a value that is no plan is worded here, without a place in the
/// text.
pub open spec fn plan_of(json: JsonView) -> Result<AgentPlanView, Seq<char>> {
    match json {
        JsonView::Object(_) => match repeated_field(json) {
            Some(field) => Err(duplicate_field(field)),
            None => plan_of_fields(
                member(json, "version"@),
                member(json, "summary"@),
                member(json, "actions"@),
            ),
        },
        JsonView::Array(items) => if items.len() > 3 {
            Err("a plan has too many elements"@)
        } else {
            plan_of_fields(element(items, 0), element(items, 1), element(items, 2))
        },
        _ => Err("a plan must be an object or a list"@),
    }
}

// Acceptance

/// Whether a path may stand in a plan.
pub open spec fn is_safe_path(path: Seq<char>, style: PathStyle) -> bool {
    &&& path.len() > 0
    &&& !path.contains('\0')
    &&& path[0] != '/'
    &&& path[0] != '\\'
    &&& !path.contains(':')
    &&& !goes_up(style, path)
}

/// The path of an action.
pub open spec fn plan_path(action: PlanActionView) -> Seq<char> {
    match action {
        PlanActionView::Read { path } => path,
        PlanActionView::Write { path, .. } => path,
        PlanActionView::GateContains { path, .. } => path,
    }
}

/// What is wrong with an action, if anything is.
pub open spec fn action_fault(action: PlanActionView, style: PathStyle) -> Option<Seq<char>> {
    if !is_safe_path(plan_path(action), style) {
        Some("path `"@ + plan_path(action) + "` must be a safe relative path"@)
    } else if action matches PlanActionView::GateContains { expected, .. } && expected.len() == 0 {
        Some("gate expected text is empty"@)
    } else {
        None
    }
}

/// What is wrong with the first action that has a fault.
pub open spec fn first_fault(actions: Seq<PlanActionView>, style: PathStyle) -> Option<Seq<char>>
    decreases actions.len(),
{
    if actions.len() == 0 {
        None
    } else {
        match first_fault(actions.drop_last(), style) {
            Some(fault) => Some(fault),
            None => action_fault(actions.last(), style),
        }
    }
}

/// What is wrong with a plan, if anything is.
pub open spec fn plan_fault(plan: AgentPlanView, style: PathStyle) -> Option<Seq<char>> {
    if plan.version != 1 {
        Some("unsupported version "@ + decimal(plan.version) + "; expected 1"@)
    } else if is_blank(plan.summary) {
        Some("summary is empty"@)
    } else if plan.actions.len() == 0 || plan.actions.len() > 16 {
        Some("actions must contain between 1 and 16 items"@)
    } else {
        first_fault(plan.actions, style)
    }
}

/// Whether a plan is accepted.
pub open spec fn plan_check(plan: AgentPlanView, style: PathStyle) -> Result<(), PlanErrorView> {
    match plan_fault(plan, style) {
        Some(fault) => Err(PlanErrorView::Invalid(fault)),
        None => Ok(()),
    }
}

/// A plan that was read and accepted, from its JSON value.
pub open spec fn accepted_plan(json: JsonView, style: PathStyle) -> Result<
    AgentPlanView,
    PlanErrorView,
> {
    match plan_of(json) {
        Err(message) => Err(PlanErrorView::Decode(message)),
        Ok(plan) => match plan_check(plan, style) {
            Err(error) => Err(error),
            Ok(()) => Ok(plan),
        },
    }
}

/// A plan that was read and accepted, from what reading its text gave.
pub open spec fn plan_from(parsed: Result<JsonView, Seq<char>>, style: PathStyle) -> Result<
    AgentPlanView,
    PlanErrorView,
> {
    match parsed {
        Err(message) => Err(PlanErrorView::Decode(message)),
        Ok(json) => accepted_plan(json, style),
    }
}

// Carrying it out

spec fn opt_json(value: Option<&Json>) -> Option<JsonView> {
    match value {
        Some(json) => Some(json@),
        None => None,
    }
}

fn say_missing(field: &str) -> (text: String)
    ensures
        text@ == missing_field(field@),
{
    let mut text = "missing field `".to_owned();
    text.append(field);
    text.append("`");
    text
}

fn say_duplicate(field: &str) -> (text: String)
    ensures
        text@ == duplicate_field(field@),
{
    let mut text = "duplicate field `".to_owned();
    text.append(field);
    text.append("`");
    text
}

fn find_repeated_part(json: &Json, kind: &str) -> (found: Option<&'static str>)
    ensures
        match found {
            Some(field) => repeated_part(json@, kind@) == Some(field@),
            None => repeated_part(json@, kind@) is None,
        },
{
    if json.repeats("kind") {
        Some("kind")
    } else if json.repeats("path") {
        Some("path")
    } else if same_text(kind, "write") && json.repeats("contents") {
        Some("contents")
    } else if same_text(kind, "gate_contains") && json.repeats("expected") {
        Some("expected")
    } else {
        None
    }
}

fn find_repeated_field(json: &Json) -> (found: Option<&'static str>)
    ensures
        match found {
            Some(field) => repeated_field(json@) == Some(field@),
            None => repeated_field(json@) is None,
        },
{
    if json.repeats("version") {
        Some("version")
    } else if json.repeats("summary") {
        Some("summary")
    } else if json.repeats("actions") {
        Some("actions")
    } else {
        None
    }
}

fn read_text_field(value: Option<&Json>, field: &str) -> (result: Result<String, String>)
    ensures
        res_view(result) == text_field(opt_json(value), field@),
{
    match value {
        None => Err(say_missing(field)),
        Some(Json::Text(text)) => Ok(text.clone()),
        Some(_) => {
            let mut text = "field `".to_owned();
            text.append(field);
            text.append("` must be a string");
            Err(text)
        },
    }
}

fn read_version(value: Option<&Json>) -> (result: Result<u32, String>)
    ensures
        match result {
            Ok(version) => version_field(opt_json(value)) == Ok::<nat, Seq<char>>(version as nat),
            Err(message) => version_field(opt_json(value)) == Err::<nat, Seq<char>>(message@),
        },
{
    match value {
        None => Err(say_missing("version")),
        Some(Json::Number(text)) => match parse_bounded(text.as_str(), u32::MAX as u64) {
            Some(version) => Ok(version as u32),
            None => Err("field `version` must be a 32-bit number".to_owned()),
        },
        Some(_) => Err("field `version` must be a 32-bit number".to_owned()),
    }
}

fn read_kind(
    kind: &str,
    path: Option<&Json>,
    contents: Option<&Json>,
    expected: Option<&Json>,
) -> (result: Result<PlanAction, String>)
    ensures
        res_view(result) == action_of_kind(
            kind@,
            opt_json(path),
            opt_json(contents),
            opt_json(expected),
        ),
{
    if same_text(kind, "read") {
        match read_text_field(path, "path") {
            Err(message) => Err(message),
            Ok(path) => Ok(PlanAction::Read { path }),
        }
    } else if same_text(kind, "write") {
        match read_text_field(path, "path") {
            Err(message) => Err(message),
            Ok(path) => match read_text_field(contents, "contents") {
                Err(message) => Err(message),
                Ok(contents) => Ok(PlanAction::Write { path, contents }),
            },
        }
    } else if same_text(kind, "gate_contains") {
        match read_text_field(path, "path") {
            Err(message) => Err(message),
            Ok(path) => match read_text_field(expected, "expected") {
                Err(message) => Err(message),
                Ok(expected) => Ok(PlanAction::GateContains { path, expected }),
            },
        }
    } else {
        let mut text = "unknown variant `".to_owned();
        text.append(kind);
        text.append("`, expected one of `read`, `write`, `gate_contains`");
        Err(text)
    }
}

fn element_at(json: &Json, position: usize) -> (found: Option<&Json>)
    requires
        json is Array,
    ensures
        opt_json(found) == element(json@->Array_0, position as int),
{
    proof {
        lemma_array_view(*json);
    }
    match json {
        Json::Array(items) => if position < items.len() {
            Some(&items[position])
        } else {
            None
        },
        _ => None,
    }
}

impl PlanAction {
    /// The action that a JSON value stands for.
    pub fn from_json(json: &Json) -> (result: Result<PlanAction, String>)
        ensures
            res_view(result) == action_of(json@),
    {
        match json {
            Json::Object(_) => {
                let kind = match read_text_field(json.get("kind"), "kind") {
                    Err(message) => return Err(message),
                    Ok(kind) => kind,
                };
                if let Some(field) = find_repeated_part(json, kind.as_str()) {
                    return Err(say_duplicate(field));
                }
                read_kind(
                    kind.as_str(),
                    json.get("path"),
                    json.get("contents"),
                    json.get("expected"),
                )
            },
            Json::Array(items) => {
                proof {
                    lemma_array_view(*json);
                }
                let kind = match read_text_field(element_at(json, 0), "kind") {
                    Err(message) => return Err(message),
                    Ok(kind) => kind,
                };
                let allowed: usize = if same_text(kind.as_str(), "read") {
                    2
                } else {
                    3
                };
                if items.len() > allowed {
                    return Err("an action has too many elements".to_owned());
                }
                read_kind(
                    kind.as_str(),
                    element_at(json, 1),
                    element_at(json, 2),
                    element_at(json, 2),
                )
            },
            _ => Err("an action must be an object or a list".to_owned()),
        }
    }

    /// The path of the action.
    pub fn path(&self) -> (path: &str)
        ensures
            path@ == plan_path(self@),
    {
        match self {
            PlanAction::Read { path } => path.as_str(),
            PlanAction::Write { path, .. } => path.as_str(),
            PlanAction::GateContains { path, .. } => path.as_str(),
        }
    }
}

proof fn lemma_actions_stop(items: Seq<JsonView>, upto: int)
    requires
        0 <= upto <= items.len(),
        actions_of(items.take(upto)) is Err,
    ensures
        actions_of(items) == actions_of(items.take(upto)),
    decreases items.len() - upto,
{
    if upto < items.len() {
        assert(items.take(upto + 1).drop_last() =~= items.take(upto));
        lemma_actions_stop(items, upto + 1);
    } else {
        assert(items.take(upto) =~= items);
    }
}

fn read_actions(value: Option<&Json>) -> (result: Result<Vec<PlanAction>, String>)
    ensures
        match result {
            Ok(actions) => actions_field(opt_json(value)) == Ok::<Seq<PlanActionView>, Seq<char>>(
                views(actions@),
            ),
            Err(message) => actions_field(opt_json(value)) == Err::<Seq<PlanActionView>, Seq<char>>(
                message@,
            ),
        },
{
    let json = match value {
        None => return Err(say_missing("actions")),
        Some(json) => json,
    };
    match json {
        Json::Array(items) => {
            let ghost all = json@->Array_0;
            let mut actions: Vec<PlanAction> = Vec::new();
            let mut i: usize = 0;
            proof {
                lemma_array_view(*json);
                assert(all.take(0) =~= Seq::<JsonView>::empty());
                assert(views(actions@) =~= Seq::<PlanActionView>::empty());
            }
            while i < items.len()
                invariant
                    *json == Json::Array(*items),
                    all == json@->Array_0,
                    i <= items@.len(),
                    opt_json(value) == Some(json@),
                    actions_of(all.take(i as int)) == Ok::<Seq<PlanActionView>, Seq<char>>(
                        views(actions@),
                    ),
                decreases items@.len() - i,
            {
                proof {
                    lemma_array_view(*json);
                    assert(all.take(i + 1).drop_last() =~= all.take(i as int));
                    assert(all.take(i + 1).last() == all[i as int]);
                }
                let ghost before = views(actions@);
                match PlanAction::from_json(&items[i]) {
                    Err(message) => {
                        proof {
                            lemma_actions_stop(all, i + 1);
                        }
                        return Err(message);
                    },
                    Ok(action) => {
                        actions.push(action);
                        proof {
                            assert(views(actions@) =~= before.push(action@));
                        }
                    },
                }
                i = i + 1;
            }
            proof {
                lemma_array_view(*json);
                assert(all.take(all.len() as int) =~= all);
            }
            Ok(actions)
        },
        _ => Err("field `actions` must be a list".to_owned()),
    }
}

fn read_fields(version: Option<&Json>, summary: Option<&Json>, actions: Option<&Json>) -> (result:
    Result<AgentPlan, String>)
    ensures
        res_view(result) == plan_of_fields(opt_json(version), opt_json(summary), opt_json(actions)),
{
    let version = match read_version(version) {
        Err(message) => return Err(message),
        Ok(version) => version,
    };
    let summary = match read_text_field(summary, "summary") {
        Err(message) => return Err(message),
        Ok(summary) => summary,
    };
    let actions = match read_actions(actions) {
        Err(message) => return Err(message),
        Ok(actions) => actions,
    };
    Ok(AgentPlan { version, summary, actions })
}

/// Whether a path may stand in a plan.
pub fn validate_relative_path(path: &str, style: PathStyle) -> (result: Result<(), PlanError>)
    ensures
        unit_view(result) == if is_safe_path(path@, style) {
            Ok::<(), PlanErrorView>(())
        } else {
            Err::<(), PlanErrorView>(
                PlanErrorView::Invalid(
                    "path `"@ + path@ + "` must be a safe relative path"@,
                ),
            )
        },
{
    let unsafe_path = path.is_empty() || has_char(path, '\0') || begins_with(path, '/')
        || begins_with(path, '\\') || has_char(path, ':') || path_goes_up(style, path);
    if unsafe_path {
        let mut text = "path `".to_owned();
        text.append(path);
        text.append("` must be a safe relative path");
        Err(PlanError::Invalid(text))
    } else {
        Ok(())
    }
}

proof fn lemma_fault_stays(actions: Seq<PlanActionView>, upto: int, style: PathStyle)
    requires
        0 <= upto <= actions.len(),
        first_fault(actions.take(upto), style) is Some,
    ensures
        first_fault(actions, style) == first_fault(actions.take(upto), style),
    decreases actions.len() - upto,
{
    if upto < actions.len() {
        assert(actions.take(upto + 1).drop_last() =~= actions.take(upto));
        lemma_fault_stays(actions, upto + 1, style);
    } else {
        assert(actions.take(upto) =~= actions);
    }
}

impl AgentPlan {
    /// The plan that a JSON value stands for, whether it is accepted or not.
    pub fn from_json(json: &Json) -> (result: Result<AgentPlan, String>)
        ensures
            res_view(result) == plan_of(json@),
    {
        match json {
            Json::Object(_) => match find_repeated_field(json) {
                Some(field) => Err(say_duplicate(field)),
                None => read_fields(
                    json.get("version"),
                    json.get("summary"),
                    json.get("actions"),
                ),
            },
            Json::Array(items) => {
                proof {
                    lemma_array_view(*json);
                }
                if items.len() > 3 {
                    return Err("a plan has too many elements".to_owned());
                }
                read_fields(element_at(json, 0), element_at(json, 1), element_at(json, 2))
            },
            _ => Err("a plan must be an object or a list".to_owned()),
        }
    }

    /// Whether the plan is accepted.
    pub fn validate(&self, style: PathStyle) -> (result: Result<(), PlanError>)
        ensures
            unit_view(result) == plan_check(self@, style),
    {
        if self.version != 1 {
            let mut text = "unsupported version ".to_owned();
            text.append(decimal_text(self.version as u64).as_str());
            text.append("; expected 1");
            return Err(PlanError::Invalid(text));
        }
        if blank(self.summary.as_str()) {
            return Err(PlanError::Invalid("summary is empty".to_owned()));
        }
        if self.actions.len() == 0 || self.actions.len() > 16 {
            return Err(
                PlanError::Invalid("actions must contain between 1 and 16 items".to_owned()),
            );
        }
        let ghost all = self@.actions;
        let mut i: usize = 0;
        proof {
            assert(all.take(0) =~= Seq::<PlanActionView>::empty());
        }
        while i < self.actions.len()
            invariant
                all == views(self.actions@),
                all == self@.actions,
                i <= self.actions@.len(),
                first_fault(all.take(i as int), style) is None,
                plan_fault(self@, style) == first_fault(all, style),
            decreases self.actions@.len() - i,
        {
            proof {
                assert(all.take(i + 1).drop_last() =~= all.take(i as int));
                assert(all.take(i + 1).last() == self.actions@[i as int]@);
            }
            match validate_relative_path(self.actions[i].path(), style) {
                Err(error) => {
                    proof {
                        lemma_fault_stays(all, i + 1, style);
                    }
                    return Err(error);
                },
                Ok(()) => {},
            }
            if let PlanAction::GateContains { expected, .. } = &self.actions[i] {
                if expected.as_str().is_empty() {
                    proof {
                        lemma_fault_stays(all, i + 1, style);
                    }
                    return Err(PlanError::Invalid("gate expected text is empty".to_owned()));
                }
            }
            i = i + 1;
        }
        proof {
            assert(all.take(all.len() as int) =~= all);
        }
        Ok(())
    }

    /// The plan that a JSON value stands for, if it is accepted.
    pub fn accept(json: &Json, style: PathStyle) -> (result: Result<AgentPlan, PlanError>)
        ensures
            res_view(result) == accepted_plan(json@, style),
    {
        match AgentPlan::from_json(json) {
            Err(message) => Err(PlanError::Decode(message)),
            Ok(plan) => match plan.validate(style) {
                Err(error) => Err(error),
                Ok(()) => Ok(plan),
            },
        }
    }

    /// Reads a plan from JSON and accepts or refuses it. A field that is there
    /// twice is refused, and a member that means nothing is skipped.
    pub fn parse(text: &str, style: PathStyle) -> (result: Result<AgentPlan, PlanError>)
        ensures
            res_view(result) == plan_from(plan_json(text@), style),
    {
        match read_plan_text(text) {
            Err(message) => Err(PlanError::Decode(message)),
            Ok(json) => AgentPlan::accept(&json, style),
        }
    }
}

// Laws

proof fn lemma_no_fault(actions: Seq<PlanActionView>, style: PathStyle, i: int)
    requires
        first_fault(actions, style) is None,
        0 <= i < actions.len(),
    ensures
        action_fault(actions[i], style) is None,
    decreases actions.len(),
{
    if i < actions.len() - 1 {
        lemma_no_fault(actions.drop_last(), style, i);
    }
}

/// Every action of an accepted plan names a path that the tools accept: it is
/// relative and never goes up.
pub proof fn accepted_plans_stay_in_the_workspace(plan: AgentPlanView, style: PathStyle, i: int)
    requires
        plan_check(plan, style) is Ok,
        0 <= i < plan.actions.len(),
    ensures
        is_plain_relative(style, plan_path(plan.actions[i])),
{
    lemma_no_fault(plan.actions, style, i);
    let path = plan_path(plan.actions[i]);
    assert(!path.contains(':'));
    if path.len() >= 2 {
        assert(path[1] != ':');
    }
}

/// An accepted plan has version one, a summary, and between one and sixteen
/// actions, none of which has a fault; and every such plan is accepted.
pub proof fn acceptance_is_exact(plan: AgentPlanView, style: PathStyle)
    ensures
        plan_check(plan, style) is Ok <==> {
            &&& plan.version == 1
            &&& !is_blank(plan.summary)
            &&& 1 <= plan.actions.len() <= 16
            &&& forall|i: int|
                0 <= i < plan.actions.len() ==> action_fault(#[trigger] plan.actions[i], style) is None
        },
{
    if plan.version == 1 && !is_blank(plan.summary) && 1 <= plan.actions.len() <= 16 {
        if first_fault(plan.actions, style) is None {
            assert forall|i: int| 0 <= i < plan.actions.len() implies action_fault(
                #[trigger] plan.actions[i],
                style,
            ) is None by {
                lemma_no_fault(plan.actions, style, i);
            }
        } else {
            lemma_has_fault(plan.actions, style);
        }
    }
}

proof fn lemma_has_fault(actions: Seq<PlanActionView>, style: PathStyle)
    requires
        first_fault(actions, style) is Some,
    ensures
        exists|i: int|
            0 <= i < actions.len() && action_fault(#[trigger] actions[i], style) is Some,
    decreases actions.len(),
{
    let front = actions.drop_last();
    if first_fault(front, style) is Some {
        lemma_has_fault(front, style);
        let i = choose|i: int|
            0 <= i < front.len() && action_fault(#[trigger] front[i], style) is Some;
        assert(actions[i] == front[i]);
    } else {
        assert(action_fault(actions[actions.len() - 1], style) is Some);
    }
}

/// An action may stand in a plan exactly if its path is safe: it is not empty,
/// does not begin with a slash or a backslash, holds neither a colon nor a null
/// character, and does not go up. A check needs a text to look for.
pub proof fn actions_are_safe_by_their_path(action: PlanActionView, style: PathStyle)
    ensures
        ({
            let path = plan_path(action);
            action_fault(action, style) is None <==> {
                &&& path.len() > 0
                &&& path[0] != '/' && path[0] != '\\'
                &&& forall|i: int|
                    0 <= i < path.len() ==> #[trigger] path[i] != ':' && path[i] != '\0'
                &&& !goes_up(style, path)
                &&& action matches PlanActionView::GateContains { expected, .. } ==> expected.len()
                    > 0
            }
        }),
        match action {
            PlanActionView::Read { path } => plan_path(action) == path,
            PlanActionView::Write { path, .. } => plan_path(action) == path,
            PlanActionView::GateContains { path, .. } => plan_path(action) == path,
        },
{
    let path = plan_path(action);
    if action_fault(action, style) is None {
        assert forall|i: int| 0 <= i < path.len() implies #[trigger] path[i] != ':' && path[i]
            != '\0' by {
            assert(path.contains(path[i]));
        }
    }
}

proof fn lemma_kinds()
    ensures
        "read"@ != "write"@,
        "read"@ != "gate_contains"@,
        "write"@ != "gate_contains"@,
{
    reveal_strlit("read");
    reveal_strlit("write");
    reveal_strlit("gate_contains");
    assert("read"@.len() == 4);
    assert("write"@.len() == 5);
}

/// What an action is read as, from an object: its kind tells which members it
/// has, each of which is a text and is there once. What else is there does not
/// matter.
pub proof fn actions_are_read_by_their_kind(
    json: JsonView,
    path: Seq<char>,
    contents: Seq<char>,
    expected: Seq<char>,
)
    requires
        json is Object,
    ensures
        action_of(json) == Ok::<PlanActionView, Seq<char>>(PlanActionView::Read { path }) <==> {
            &&& member(json, "kind"@) == Some(JsonView::Text("read"@))
            &&& member(json, "path"@) == Some(JsonView::Text(path))
            &&& !repeated(json, "kind"@) && !repeated(json, "path"@)
        },
        action_of(json) == Ok::<PlanActionView, Seq<char>>(
            PlanActionView::Write { path, contents },
        ) <==> {
            &&& member(json, "kind"@) == Some(JsonView::Text("write"@))
            &&& member(json, "path"@) == Some(JsonView::Text(path))
            &&& member(json, "contents"@) == Some(JsonView::Text(contents))
            &&& !repeated(json, "kind"@) && !repeated(json, "path"@) && !repeated(
                json,
                "contents"@,
            )
        },
        action_of(json) == Ok::<PlanActionView, Seq<char>>(
            PlanActionView::GateContains { path, expected },
        ) <==> {
            &&& member(json, "kind"@) == Some(JsonView::Text("gate_contains"@))
            &&& member(json, "path"@) == Some(JsonView::Text(path))
            &&& member(json, "expected"@) == Some(JsonView::Text(expected))
            &&& !repeated(json, "kind"@) && !repeated(json, "path"@) && !repeated(
                json,
                "expected"@,
            )
        },
{
    lemma_kinds();
}

/// What an action is read as, from a list: its kind and then its fields, and
/// nothing more.
pub proof fn actions_are_read_by_their_place(
    items: Seq<JsonView>,
    path: Seq<char>,
    contents: Seq<char>,
    expected: Seq<char>,
)
    ensures
        action_of(JsonView::Array(items)) == Ok::<PlanActionView, Seq<char>>(
            PlanActionView::Read { path },
        ) <==> items == seq![JsonView::Text("read"@), JsonView::Text(path)],
        action_of(JsonView::Array(items)) == Ok::<PlanActionView, Seq<char>>(
            PlanActionView::Write { path, contents },
        ) <==> items == seq![
            JsonView::Text("write"@),
            JsonView::Text(path),
            JsonView::Text(contents),
        ],
        action_of(JsonView::Array(items)) == Ok::<PlanActionView, Seq<char>>(
            PlanActionView::GateContains { path, expected },
        ) <==> items == seq![
            JsonView::Text("gate_contains"@),
            JsonView::Text(path),
            JsonView::Text(expected),
        ],
{
    lemma_kinds();
    let read = seq![JsonView::Text("read"@), JsonView::Text(path)];
    let write = seq![JsonView::Text("write"@), JsonView::Text(path), JsonView::Text(contents)];
    let gate = seq![
        JsonView::Text("gate_contains"@),
        JsonView::Text(path),
        JsonView::Text(expected),
    ];
    if action_of(JsonView::Array(items)) == Ok::<PlanActionView, Seq<char>>(
        PlanActionView::Read { path },
    ) {
        assert(items =~= read);
    }
    if action_of(JsonView::Array(items)) == Ok::<PlanActionView, Seq<char>>(
        PlanActionView::Write { path, contents },
    ) {
        assert(items =~= write);
    }
    if action_of(JsonView::Array(items)) == Ok::<PlanActionView, Seq<char>>(
        PlanActionView::GateContains { path, expected },
    ) {
        assert(items =~= gate);
    }
}

/// Whether actions are what values are read as, one for one.
pub open spec fn read_one_by_one(items: Seq<JsonView>, actions: Seq<PlanActionView>) -> bool {
    &&& items.len() == actions.len()
    &&& forall|i: int|
        0 <= i < items.len() ==> #[trigger] action_of(items[i]) == Ok::<
            PlanActionView,
            Seq<char>,
        >(actions[i])
}

proof fn lemma_one_by_one(items: Seq<JsonView>, actions: Seq<PlanActionView>)
    ensures
        actions_of(items) == Ok::<Seq<PlanActionView>, Seq<char>>(actions) <==> read_one_by_one(
            items,
            actions,
        ),
    decreases items.len(),
{
    if items.len() == 0 {
        if actions.len() == 0 {
            assert(actions =~= Seq::<PlanActionView>::empty());
        }
    } else {
        let front = items.drop_last();
        if actions_of(items) == Ok::<Seq<PlanActionView>, Seq<char>>(actions) {
            let before = actions_of(front)->Ok_0;
            lemma_one_by_one(front, before);
            assert forall|i: int| 0 <= i < items.len() implies #[trigger] action_of(items[i])
                == Ok::<PlanActionView, Seq<char>>(actions[i]) by {
                if i < front.len() {
                    assert(action_of(front[i]) == Ok::<PlanActionView, Seq<char>>(before[i]));
                }
            }
        }
        if read_one_by_one(items, actions) {
            let before = actions.drop_last();
            assert forall|i: int| 0 <= i < front.len() implies #[trigger] action_of(front[i])
                == Ok::<PlanActionView, Seq<char>>(before[i]) by {
                assert(action_of(items[i]) == Ok::<PlanActionView, Seq<char>>(actions[i]));
            }
            lemma_one_by_one(front, before);
            assert(action_of(items[items.len() - 1]) == Ok::<PlanActionView, Seq<char>>(
                actions[items.len() - 1],
            ));
            assert(before.push(actions.last()) =~= actions);
        }
    }
}

/// What a plan is read as, from an object: its members give its version, its
/// summary and its actions, each of them once, and every action in its order.
/// What else is there does not matter.
pub proof fn plans_are_read_member_by_member(json: JsonView, plan: AgentPlanView)
    requires
        json is Object,
    ensures
        plan_of(json) == Ok::<AgentPlanView, Seq<char>>(plan) <==> {
            &&& member(json, "version"@) matches Some(JsonView::Number(text)) && unsigned_number(
                text,
            ) == Some(plan.version) && plan.version <= u32::MAX
            &&& member(json, "summary"@) == Some(JsonView::Text(plan.summary))
            &&& member(json, "actions"@) matches Some(JsonView::Array(items)) && read_one_by_one(
                items,
                plan.actions,
            )
            &&& !repeated(json, "version"@) && !repeated(json, "summary"@) && !repeated(
                json,
                "actions"@,
            )
        },
{
    if let Some(JsonView::Array(items)) = member(json, "actions"@) {
        lemma_one_by_one(items, plan.actions);
    }
}

/// A plan is accepted exactly if it was read and nothing is wrong with it, and
/// then it is the plan that was read. What could not be read is told as such.
pub proof fn plans_are_accepted_as_they_are_read(
    parsed: Result<JsonView, Seq<char>>,
    style: PathStyle,
    plan: AgentPlanView,
)
    ensures
        plan_from(parsed, style) == Ok::<AgentPlanView, PlanErrorView>(plan) <==> parsed is Ok
            && plan_of(parsed->Ok_0) == Ok::<AgentPlanView, Seq<char>>(plan) && plan_check(
            plan,
            style,
        ) is Ok,
        plan_from(parsed, style) matches Err(PlanErrorView::Decode(_)) <==> parsed is Err
            || plan_of(parsed->Ok_0) is Err,
        parsed matches Err(message) ==> plan_from(parsed, style) == Err::<
            AgentPlanView,
            PlanErrorView,
        >(PlanErrorView::Decode(message)),
{
}

/// What a plan is read as, from a list: its version, its summary and its actions,
/// in this order and nothing more.
pub proof fn plans_are_read_by_their_place(items: Seq<JsonView>, plan: AgentPlanView)
    ensures
        plan_of(JsonView::Array(items)) == Ok::<AgentPlanView, Seq<char>>(plan) <==> {
            &&& items.len() == 3
            &&& items[0] matches JsonView::Number(text) && unsigned_number(text) == Some(
                plan.version,
            ) && plan.version <= u32::MAX
            &&& items[1] == JsonView::Text(plan.summary)
            &&& items[2] matches JsonView::Array(actions) && read_one_by_one(actions, plan.actions)
        },
{
    if items.len() == 3 {
        if let JsonView::Array(actions) = items[2] {
            lemma_one_by_one(actions, plan.actions);
        }
    }
}

/// Why a plan is refused: its version comes first, then its summary, then the
/// number of its actions, and then the first action that has a fault, with what
/// is wrong with it.
pub proof fn refused_plans_tell_their_first_fault(plan: AgentPlanView, style: PathStyle, i: int)
    ensures
        plan_check(plan, style) matches Err(error) ==> error matches PlanErrorView::Invalid(
            fault,
        ) && if plan.version != 1 {
            fault == "unsupported version "@ + decimal(plan.version) + "; expected 1"@
        } else if is_blank(plan.summary) {
            fault == "summary is empty"@
        } else if plan.actions.len() == 0 || plan.actions.len() > 16 {
            fault == "actions must contain between 1 and 16 items"@
        } else {
            0 <= i < plan.actions.len() && action_fault(plan.actions[i], style) is Some && (forall|
                j: int,
            |
                0 <= j < i ==> action_fault(#[trigger] plan.actions[j], style) is None)
                ==> action_fault(plan.actions[i], style) == Some(fault)
        },
        0 <= i < plan.actions.len() ==> (action_fault(plan.actions[i], style) matches Some(fault)
            ==> {
            ||| fault == "path `"@ + plan_path(plan.actions[i])
                + "` must be a safe relative path"@ && !is_safe_path(
                plan_path(plan.actions[i]),
                style,
            )
            ||| fault == "gate expected text is empty"@ && is_safe_path(
                plan_path(plan.actions[i]),
                style,
            ) && plan.actions[i] is GateContains
        }),
{
    if 0 <= i < plan.actions.len() && action_fault(plan.actions[i], style) is Some && (forall|
        j: int,
    |
        0 <= j < i ==> action_fault(#[trigger] plan.actions[j], style) is None) {
        lemma_first_fault(plan.actions, style, i);
    }
}

proof fn lemma_first_fault(actions: Seq<PlanActionView>, style: PathStyle, i: int)
    requires
        0 <= i < actions.len(),
        action_fault(actions[i], style) is Some,
        forall|j: int| 0 <= j < i ==> action_fault(#[trigger] actions[j], style) is None,
    ensures
        first_fault(actions, style) == action_fault(actions[i], style),
    decreases actions.len(),
{
    let front = actions.drop_last();
    if i < front.len() {
        lemma_first_fault(front, style, i);
    } else if first_fault(front, style) is Some {
        lemma_has_fault(front, style);
        let j = choose|j: int|
            0 <= j < front.len() && action_fault(#[trigger] front[j], style) is Some;
        assert(actions[j] == front[j]);
    }
}

/// What is said of the fields of a plan: a field that is not there is named, and
/// so is one of another kind. The version comes first, then the summary.
pub proof fn faults_name_their_field(
    value: JsonView,
    field: Seq<char>,
    version: Option<JsonView>,
    summary: Option<JsonView>,
    actions: Option<JsonView>,
)
    ensures
        text_field(None, field) == Err::<Seq<char>, Seq<char>>("missing field `"@ + field + "`"@),
        value !is Text ==> text_field(Some(value), field) == Err::<Seq<char>, Seq<char>>(
            "field `"@ + field + "` must be a string"@,
        ),
        version_field(version) matches Err(message) ==> {
            &&& plan_of_fields(version, summary, actions) == Err::<AgentPlanView, Seq<char>>(
                message,
            )
            &&& message == if version is None {
                "missing field `"@ + "version"@ + "`"@
            } else {
                "field `version` must be a 32-bit number"@
            }
        },
        version_field(version) is Ok && !(summary is Some && summary->0 is Text) ==> plan_of_fields(
            version,
            summary,
            actions,
        ) == Err::<AgentPlanView, Seq<char>>(
            if summary is None {
                "missing field `"@ + "summary"@ + "`"@
            } else {
                "field `"@ + "summary"@ + "` must be a string"@
            },
        ),
        version_field(version) is Ok && summary is Some && summary->0 is Text && !(actions is Some
            && actions->0 is Array) ==> plan_of_fields(version, summary, actions) == Err::<
            AgentPlanView,
            Seq<char>,
        >(
            if actions is None {
                "missing field `"@ + "actions"@ + "`"@
            } else {
                "field `actions` must be a list"@
            },
        ),
{
}

/// A plan that has a field twice is refused, and the field is named: the version
/// comes first, then the summary, then the actions.
pub proof fn fields_may_not_be_there_twice(entries: Seq<(Seq<char>, JsonView)>)
    ensures
        ({
            let json = JsonView::Object(entries);
            &&& repeated(json, "version"@) ==> plan_of(json) == Err::<AgentPlanView, Seq<char>>(
                "duplicate field `"@ + "version"@ + "`"@,
            )
            &&& !repeated(json, "version"@) && repeated(json, "summary"@) ==> plan_of(json)
                == Err::<AgentPlanView, Seq<char>>("duplicate field `"@ + "summary"@ + "`"@)
            &&& !repeated(json, "version"@) && !repeated(json, "summary"@) && repeated(
                json,
                "actions"@,
            ) ==> plan_of(json) == Err::<AgentPlanView, Seq<char>>(
                "duplicate field `"@ + "actions"@ + "`"@,
            )
        }),
{
}

/// An action that has a field of its kind twice is refused, and one of another
/// kind than the three is refused with its kind.
pub proof fn actions_have_their_fields_once(
    entries: Seq<(Seq<char>, JsonView)>,
    kind: Seq<char>,
)
    requires
        member(JsonView::Object(entries), "kind"@) == Some(JsonView::Text(kind)),
    ensures
        ({
            let json = JsonView::Object(entries);
            let again = repeated(json, "kind"@) || repeated(json, "path"@) || (kind == "write"@
                && repeated(json, "contents"@)) || (kind == "gate_contains"@ && repeated(
                json,
                "expected"@,
            ));
            &&& again ==> action_of(json) is Err
            &&& !again && kind != "read"@ && kind != "write"@ && kind != "gate_contains"@
                ==> action_of(json) == Err::<PlanActionView, Seq<char>>(
                "unknown variant `"@ + kind
                    + "`, expected one of `read`, `write`, `gate_contains`"@,
            )
        }),
{
}

} // verus!
