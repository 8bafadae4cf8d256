//! Plans of models, and what the services answer.

use agentrt::json::{json_to_text, parse_json, redact_value, Json};
use agentrt::model::{
    delay_after, judge_attempt, parse_gemini_response, parse_openai_response, redact_text,
    ExchangeStep, GeminiProvider, HttpReply, Message, ModelError, ModelRequest,
    OpenAiCompatibleProvider, Service,
};
use agentrt::path::PathStyle;
use agentrt::plan::{validate_relative_path, AgentPlan, PlanAction, PlanError};

fn parse(text: &str) -> Result<AgentPlan, PlanError> {
    AgentPlan::parse(text, PathStyle::Unix)
}

fn refusal(text: &str) -> String {
    parse(text).expect_err("plan is refused").message()
}

#[test]
fn structured_plan_parses_typed_actions() {
    let plan = parse(
        r#"{
            "version": 1,
            "summary": "repair the fixture",
            "actions": [
                {"kind": "read", "path": "fixture.txt"},
                {"kind": "write", "path": "fixture.txt", "contents": "fixed"},
                {"kind": "gate_contains", "path": "fixture.txt", "expected": "fixed"}
            ]
        }"#,
    )
    .expect("plan parses");
    assert_eq!(plan.version, 1);
    assert_eq!(plan.actions.len(), 3);
    assert!(matches!(plan.actions[0], PlanAction::Read { .. }));
    assert_eq!(plan.summary, "repair the fixture");
    assert!(matches!(&plan.actions[1], PlanAction::Write { path, contents } if path == "fixture.txt" && contents == "fixed"));
}

#[test]
fn structured_plan_rejects_unsafe_paths() {
    let result = parse(
        r#"{
            "version": 1,
            "summary": "escape",
            "actions": [{"kind": "read", "path": "../secret.txt"}]
        }"#,
    );
    assert!(matches!(result, Err(PlanError::Invalid(_))));
}

#[test]
fn plans_may_be_lists() {
    let plan = parse(r#"[1, "short", [["read", "a"], ["write", "a", "b"]]]"#).expect("plan parses");
    assert_eq!(plan.actions.len(), 2);
    assert!(parse(r#"[1, "short", [["read", "a", "b"]]]"#).is_err());
    assert!(parse(r#"[1, "short", [["read", "a"]], 4]"#).is_err());
    assert!(parse(r#"[1, "short"]"#).is_err());
}

#[test]
fn refused_plans_say_why() {
    assert_eq!(
        refusal(r#"{"version": 2, "summary": "s", "actions": []}"#),
        "invalid model plan: unsupported version 2; expected 1"
    );
    assert_eq!(
        refusal(r#"{"version": 1, "summary": " \t", "actions": []}"#),
        "invalid model plan: summary is empty"
    );
    assert_eq!(
        refusal(r#"{"version": 1, "summary": "s", "actions": []}"#),
        "invalid model plan: actions must contain between 1 and 16 items"
    );
    let many = vec![r#"{"kind": "read", "path": "a"}"#; 17].join(",");
    assert_eq!(
        refusal(&format!(r#"{{"version": 1, "summary": "s", "actions": [{many}]}}"#)),
        "invalid model plan: actions must contain between 1 and 16 items"
    );
    assert_eq!(
        refusal(r#"{"version": 1, "summary": "s", "actions": [{"kind": "gate_contains", "path": "a", "expected": ""}]}"#),
        "invalid model plan: gate expected text is empty"
    );
    assert_eq!(
        refusal(r#"{"version": 1, "summary": "s", "actions": [{"kind": "read", "path": "c:/a"}]}"#),
        "invalid model plan: path `c:/a` must be a safe relative path"
    );
    assert_eq!(
        refusal(r#"{"version": 1, "summary": "s"}"#),
        "model plan JSON error: missing field `actions`"
    );
    assert_eq!(
        refusal(r#"{"version": 1.0, "summary": "s", "actions": []}"#),
        "model plan JSON error: field `version` must be a 32-bit number"
    );
    assert_eq!(
        refusal(r#"{"version": 4294967296, "summary": "s", "actions": []}"#),
        "model plan JSON error: field `version` must be a 32-bit number"
    );
    assert_eq!(
        refusal(r#"{"version": 1, "summary": "s", "actions": [{"kind": "shell", "path": "a"}]}"#),
        "model plan JSON error: unknown variant `shell`, expected one of `read`, `write`, `gate_contains`"
    );
    assert_eq!(
        refusal("not-json"),
        "model plan JSON error: expected ident at line 1 column 2"
    );
}

#[test]
fn sixteen_actions_are_accepted_and_unknown_fields_ignored() {
    let many = vec![r#"{"kind": "read", "path": "a", "more": 1}"#; 16].join(",");
    let text = format!(r#"{{"version": 1, "summary": "s", "note": null, "actions": [{many}]}}"#);
    assert_eq!(parse(&text).expect("plan parses").actions.len(), 16);
}

#[test]
fn repeated_fields_are_refused() {
    assert_eq!(
        refusal(r#"{"version": 1, "version": 1, "summary": "s", "actions": [["read", "a"]]}"#),
        "model plan JSON error: duplicate field `version`"
    );
    assert_eq!(
        refusal(r#"{"version": 1, "summary": "s", "actions": [], "act\u0069ons": [["read", "a"]]}"#),
        "model plan JSON error: duplicate field `actions`"
    );
    let action = |members: &str| {
        parse(&format!(r#"{{"version": 1, "summary": "s", "actions": [{{{members}}}]}}"#))
    };
    let decoding = |members: &str| match action(members) {
        Err(error) => error.message(),
        Ok(plan) => panic!("unexpected plan {plan:?}"),
    };
    assert_eq!(
        decoding(r#""kind": "read", "kind": "read", "path": "a""#),
        "model plan JSON error: duplicate field `kind`"
    );
    assert_eq!(
        decoding(r#""kind": "read", "path": "a", "path": "a""#),
        "model plan JSON error: duplicate field `path`"
    );
    assert_eq!(
        decoding(r#""kind": "write", "path": "a", "contents": "x", "contents": "x""#),
        "model plan JSON error: duplicate field `contents`"
    );
    assert!(action(r#""kind": "read", "path": "a", "contents": "x", "contents": "x""#).is_ok());
    assert!(action(r#""kind": "read", "path": "a", "more": 1, "more": 2"#).is_ok());
}

#[test]
fn members_that_mean_nothing_are_skipped() {
    let deep = format!("{}{}", "[".repeat(200), "]".repeat(200));
    let plan = |member: &str| {
        parse(&format!(
            r#" {{ "note" : {member} , "version" : 1, "summary": "s", "note": 2, "actions": [["read", "a"]]}} "#
        ))
    };
    assert!(plan("1e999").is_ok());
    assert!(plan(&deep).is_ok());
    assert!(plan(r#""\ud800""#).is_ok());
    assert!(plan("").is_err());
    assert!(plan("nul").is_err());
    assert!(plan("1 2").is_err());
    assert!(plan("[1,]").is_err());
    let action = |member: &str| {
        parse(&format!(
            r#"{{"version": 1, "summary": "s", "actions": [{{"kind": "read", "path": "a", "more": {member}}}]}}"#
        ))
    };
    assert!(action("1e99").is_ok());
    assert!(action("1e999").is_err());
    assert!(action(&deep).is_err());
    let nested = |count: usize| format!("{}{}", "[".repeat(count), "]".repeat(count));
    assert!(action(&nested(124)).is_ok());
    assert!(action(&nested(125)).is_err());
}

#[test]
fn broken_plans_are_refused() {
    for text in [
        "",
        "{",
        "{}",
        "[]",
        "5",
        r#"{"version": 1, "summary": "s", "actions": [["read", "a"]],}"#,
        r#"{"version": 1, "summary": "s", "actions": [["read", "a"],]}"#,
        r#"{"version": 1, "summary": "s", "actions": [["read", "a"]]} x"#,
        r#"{"version" 1, "summary": "s", "actions": [["read", "a"]]}"#,
        r#"{version: 1, "summary": "s", "actions": [["read", "a"]]}"#,
        r#"{"version": 1, "summary": "s", "actions": "read"}"#,
        r#"{"version": 1, "summary": "s", "actions": ["read"]}"#,
        r#"{"version": 1, "summary": "\ud800", "actions": [["read", "a"]]}"#,
    ] {
        assert!(matches!(parse(text), Err(PlanError::Decode(_))), "{text}");
    }
}

#[test]
fn paths_of_plans_are_safe() {
    for path in ["a", "a/b.txt", "a//b", "./a", "a/...", "..a", "a\\..\\b"] {
        assert!(validate_relative_path(path, PathStyle::Unix).is_ok(), "{path}");
    }
    for path in ["", "/a", "\\a", "a:b", "..", "a/../b", "a\0b", "a/.."] {
        assert!(validate_relative_path(path, PathStyle::Unix).is_err(), "{path}");
    }
    assert!(validate_relative_path("a\\..\\b", PathStyle::Windows).is_err());
    assert!(validate_relative_path("a\\b", PathStyle::Windows).is_ok());
}

// JSON

#[test]
fn values_are_read_and_written() {
    let json = parse_json(r#"{"b": [1, 2.50, -3e2, "x\n"], "a": {"c": null, "d": true}}"#)
        .expect("value reads");
    assert_eq!(
        json_to_text(&json).expect("value writes"),
        r#"{"a":{"c":null,"d":true},"b":[1,2.5,-300.0,"x\n"]}"#
    );
    assert!(parse_json("{").is_err());
    assert!(json_to_text(&Json::Number("one".to_owned())).is_err());
    assert!(matches!(json.get("a"), Some(Json::Object(_))));
    assert!(json.get("z").is_none());
    assert!(matches!(json.get("b").and_then(|list| list.first()), Some(Json::Number(text)) if text == "1"));
}

#[test]
fn the_later_of_two_members_counts() {
    let json = parse_json(r#"{"a": 1, "a": 2}"#).expect("value reads");
    assert!(matches!(json.get("a"), Some(Json::Number(text)) if text == "2"));
}

#[test]
fn credentials_are_taken_out_of_values() {
    let json = parse_json(
        r#"{"API_Key": {"deep": 1}, "list": [{"my_token": "x", "kept": "y"}], "Authorization": "z", "secretive": []}"#,
    )
    .expect("value reads");
    assert_eq!(
        json_to_text(&redact_value(json)).expect("value writes"),
        r#"{"API_Key":"[REDACTED]","Authorization":"[REDACTED]","list":[{"kept":"y","my_token":"[REDACTED]"}],"secretive":"[REDACTED]"}"#
    );
}

#[test]
fn credentials_are_marked_in_texts() {
    assert_eq!(
        redact_text("Bearer x api_key=1 token=2 Bearer y"),
        "Bearer [REDACTED] x api_key=[REDACTED]1 token=[REDACTED]2 Bearer [REDACTED] y"
    );
    assert_eq!(redact_text("nothing here"), "nothing here");
}

// Services

fn request() -> ModelRequest {
    ModelRequest {
        model: "m".to_owned(),
        messages: vec![
            Message {
                role: "system".to_owned(),
                content: "be brief".to_owned(),
            },
            Message::user("hello"),
        ],
        temperature: "0.5".to_owned(),
    }
}

#[test]
fn responses_of_openai_are_read() {
    let response = parse_openai_response(
        r#"{"id": "abc", "choices": [{"message": {"content": "hi"}}, {}]}"#,
    )
    .expect("response reads");
    assert_eq!(response.text, "hi");
    assert_eq!(response.provider_request_id.as_deref(), Some("abc"));
    for body in [
        "{}",
        r#"{"choices": []}"#,
        r#"{"choices": {"0": 1}}"#,
        r#"{"choices": [{"message": {"content": 7}}]}"#,
    ] {
        assert_eq!(
            parse_openai_response(body).expect_err("no text").message(),
            "model response decode error: missing choices[0].message.content"
        );
    }
    assert!(matches!(parse_openai_response("?"), Err(ModelError::Decode(_))));
}

#[test]
fn responses_of_gemini_are_read() {
    let response = parse_gemini_response(
        r#"{"candidates": [{"content": {"parts": [{"text": "hi"}]}}], "responseId": 3}"#,
    )
    .expect("response reads");
    assert_eq!(response.text, "hi");
    assert_eq!(response.provider_request_id, None);
    assert_eq!(
        parse_gemini_response(r#"{"candidates": [{"content": {"parts": []}}]}"#)
            .expect_err("no text")
            .message(),
        "model response decode error: missing candidates[0].content.parts[0].text"
    );
}

#[test]
fn bodies_of_requests_are_exact() {
    assert_eq!(
        json_to_text(&GeminiProvider::body(&request())).expect("body writes"),
        r#"{"contents":[{"parts":[{"text":"system: be brief\nuser: hello"}],"role":"user"}],"generationConfig":{"maxOutputTokens":2048,"temperature":0.5}}"#
    );
    assert_eq!(
        json_to_text(&OpenAiCompatibleProvider::body(&request())).expect("body writes"),
        r#"{"messages":[{"content":"be brief","role":"system"},{"content":"hello","role":"user"}],"model":"m","temperature":0.5}"#
    );
}

#[test]
fn services_need_their_settings() {
    let gemini = GeminiProvider::new("key", "gemini-3.5-flash", 2).expect("settings are there");
    assert_eq!(
        gemini.endpoint(),
        "https://generativelanguage.googleapis.com/v1beta/models/gemini-3.5-flash:generateContent"
    );
    assert_eq!(gemini.api_key(), "key");
    assert_eq!(gemini.max_retries(), 2);
    assert_eq!(
        GeminiProvider::new(" \n", "m", 0).expect_err("no key").message(),
        "model configuration error: Gemini API key is empty"
    );
    assert_eq!(
        GeminiProvider::new("k", "", 0).expect_err("no model").message(),
        "model configuration error: Gemini model is empty"
    );
    let openai = OpenAiCompatibleProvider::new("https://host/v1", " ", 1).expect("settings");
    assert_eq!(openai.endpoint(), "https://host/v1");
    assert_eq!(openai.api_key(), " ");
    assert_eq!(openai.max_retries(), 1);
    assert_eq!(
        OpenAiCompatibleProvider::new("", "k", 0).expect_err("no endpoint").message(),
        "model configuration error: endpoint is empty"
    );
    assert_eq!(
        OpenAiCompatibleProvider::new("e", "", 0).expect_err("no key").message(),
        "model configuration error: API key is empty"
    );
}

fn answered(status: u16, body: &str) -> HttpReply {
    HttpReply::Answered {
        status,
        body: Ok(body.to_owned()),
    }
}

#[test]
fn attempts_are_judged() {
    let ok = r#"{"choices": [{"message": {"content": "hi"}}]}"#;
    match judge_attempt(Service::OpenAiCompatible, 0, 3, answered(200, ok)) {
        ExchangeStep::Done(Ok(response)) => assert_eq!(response.text, "hi"),
        other => panic!("unexpected step {other:?}"),
    }
    assert!(matches!(
        judge_attempt(Service::Gemini, 2, 3, answered(503, "busy")),
        ExchangeStep::RetryAfter(200)
    ));
    match judge_attempt(Service::Gemini, 3, 3, answered(503, "token=1")) {
        ExchangeStep::Done(Err(error)) => assert_eq!(
            error.message(),
            "model provider returned HTTP 503: token=[REDACTED]1"
        ),
        other => panic!("unexpected step {other:?}"),
    }
    assert!(matches!(
        judge_attempt(Service::Gemini, 0, 3, answered(404, "")),
        ExchangeStep::Done(Err(ModelError::Provider { status: 404, .. }))
    ));
    assert!(matches!(
        judge_attempt(Service::Gemini, 0, 1, HttpReply::Failed("down".to_owned())),
        ExchangeStep::RetryAfter(50)
    ));
    match judge_attempt(Service::Gemini, 1, 1, HttpReply::Failed("down".to_owned())) {
        ExchangeStep::Done(Err(error)) => assert_eq!(
            error.message(),
            "model HTTP error: Gemini request failed after retries"
        ),
        other => panic!("unexpected step {other:?}"),
    }
    match judge_attempt(Service::OpenAiCompatible, 1, 1, HttpReply::Failed("down".to_owned())) {
        ExchangeStep::Done(Err(error)) => assert_eq!(error.message(), "model HTTP error: down"),
        other => panic!("unexpected step {other:?}"),
    }
    let cut = HttpReply::Answered {
        status: 200,
        body: Err("cut off".to_owned()),
    };
    match judge_attempt(Service::OpenAiCompatible, 0, 5, cut) {
        ExchangeStep::Done(Err(error)) => assert_eq!(error.message(), "model HTTP error: cut off"),
        other => panic!("unexpected step {other:?}"),
    }
}

#[test]
fn delays_double() {
    assert_eq!(delay_after(0), 50);
    assert_eq!(delay_after(1), 100);
    assert_eq!(delay_after(10), 51_200);
    assert_eq!(delay_after(58), 50 * (1u64 << 58));
}
