//! Models: what they are asked, what they answer, and what is kept of both.

use crate::audit::{hash_text, text_hash};
use crate::history::one_more_event;
use crate::json::{
    first_element, has_key, json_parse, json_to_text, member, members_are_found_by_their_key,
    parse_json, redact_value, redacted, serialized, text_value, Json, JsonView,
};
use crate::number::{decimal, decimal_text};
use crate::store::{
    run_position, store_error_text, with_event, RunRecord, RunView, Store, StoreError,
    StoreErrorView,
};
use crate::text::{
    absent_texts_are_not_replaced, blank, has_text, is_blank, join_text, joined,
    joining_keeps_every_part, matches_at, opt_view, replace_text, replaced,
    replacement_goes_on_behind_a_match, res_view, unit_view, views,
};
use vstd::arithmetic::power2::{lemma_pow2_strictly_increases, lemma_pow2_unfold, pow2};
use vstd::prelude::*;
use vstd::string::StringExecFns;

verus! {

// Requests and responses

/// One message to a model.
#[derive(Debug)]
pub struct Message {
    pub role: String,
    pub content: String,
}

/// The mathematical form of a message.
pub struct MessageView {
    pub role: Seq<char>,
    pub content: Seq<char>,
}

impl View for Message {
    type V = MessageView;

    open spec fn view(&self) -> MessageView {
        MessageView { role: self.role@, content: self.content@ }
    }
}

impl Message {
    /// A message of the user.
    pub fn user(content: &str) -> (message: Message)
        ensures
            message@ == (MessageView { role: "user"@, content: content@ }),
    {
        Message { role: "user".to_owned(), content: content.to_owned() }
    }
}

/// What a model is asked. The temperature is the text of a JSON number.
#[derive(Debug)]
pub struct ModelRequest {
    pub model: String,
    pub messages: Vec<Message>,
    pub temperature: String,
}

/// The mathematical form of a request.
pub struct ModelRequestView {
    pub model: Seq<char>,
    pub messages: Seq<MessageView>,
    pub temperature: Seq<char>,
}

impl View for ModelRequest {
    type V = ModelRequestView;

    open spec fn view(&self) -> ModelRequestView {
        ModelRequestView {
            model: self.model@,
            messages: views(self.messages@),
            temperature: self.temperature@,
        }
    }
}

/// What a model answers.
#[derive(Debug)]
pub struct ModelResponse {
    pub text: String,
    pub provider_request_id: Option<String>,
}

/// The mathematical form of a response.
pub struct ModelResponseView {
    pub text: Seq<char>,
    pub provider_request_id: Option<Seq<char>>,
}

impl View for ModelResponse {
    type V = ModelResponseView;

    open spec fn view(&self) -> ModelResponseView {
        ModelResponseView {
            text: self.text@,
            provider_request_id: opt_view(self.provider_request_id),
        }
    }
}

/// Why a model gave no response.
#[derive(Debug)]
pub enum ModelError {
    Configuration(String),
    Http(String),
    Provider { status: u16, body: String },
    Decode(String),
    Audit(StoreError),
}

/// The mathematical form of a model error.
pub enum ModelErrorView {
    Configuration(Seq<char>),
    Http(Seq<char>),
    Provider { status: nat, body: Seq<char> },
    Decode(Seq<char>),
    Audit(StoreErrorView),
}

impl View for ModelError {
    type V = ModelErrorView;

    open spec fn view(&self) -> ModelErrorView {
        match self {
            ModelError::Configuration(message) => ModelErrorView::Configuration(message@),
            ModelError::Http(message) => ModelErrorView::Http(message@),
            ModelError::Provider { status, body } => ModelErrorView::Provider {
                status: *status as nat,
                body: body@,
            },
            ModelError::Decode(message) => ModelErrorView::Decode(message@),
            ModelError::Audit(error) => ModelErrorView::Audit(error@),
        }
    }
}

/// The text of a model error.
pub open spec fn model_error_text(error: ModelErrorView) -> Seq<char> {
    match error {
        ModelErrorView::Configuration(message) => "model configuration error: "@ + message,
        ModelErrorView::Http(message) => "model HTTP error: "@ + message,
        ModelErrorView::Provider { status, body } => "model provider returned HTTP "@ + decimal(
            status,
        ) + ": "@ + body,
        ModelErrorView::Decode(message) => "model response decode error: "@ + message,
        ModelErrorView::Audit(error) => "model audit error: "@ + store_error_text(error),
    }
}

fn prefixed(prefix: &str, message: &str) -> (text: String)
    ensures
        text@ == prefix@ + message@,
{
    let mut text = prefix.to_owned();
    text.append(message);
    text
}

impl ModelError {
    /// The text of the error.
    pub fn message(&self) -> (text: String)
        ensures
            text@ == model_error_text(self@),
    {
        match self {
            ModelError::Configuration(message) => prefixed(
                "model configuration error: ",
                message.as_str(),
            ),
            ModelError::Http(message) => prefixed("model HTTP error: ", message.as_str()),
            ModelError::Provider { status, body } => {
                let mut text = "model provider returned HTTP ".to_owned();
                text.append(decimal_text(*status as u64).as_str());
                text.append(": ");
                text.append(body.as_str());
                text
            },
            ModelError::Decode(message) => prefixed(
                "model response decode error: ",
                message.as_str(),
            ),
            ModelError::Audit(error) => prefixed("model audit error: ", error.message().as_str()),
        }
    }
}

// Redaction of texts

/// A text in which what follows marks the credentials that may stand in it.
pub open spec fn redacted_text(text: Seq<char>) -> Seq<char> {
    let bearer = replaced(text, "Bearer "@, "Bearer [REDACTED] "@, 0);
    let keys = replaced(bearer, "api_key="@, "api_key=[REDACTED]"@, 0);
    replaced(keys, "token="@, "token=[REDACTED]"@, 0)
}

/// Marks the credentials that may stand in a text.
pub fn redact_text(value: &str) -> (text: String)
    ensures
        text@ == redacted_text(value@),
{
    proof {
        reveal_strlit("Bearer ");
        reveal_strlit("api_key=");
        reveal_strlit("token=");
    }
    let bearer = replace_text(value, "Bearer ", "Bearer [REDACTED] ");
    let keys = replace_text(bearer.as_str(), "api_key=", "api_key=[REDACTED]");
    replace_text(keys.as_str(), "token=", "token=[REDACTED]")
}

proof fn lemma_replaced_without_match(
    text: Seq<char>,
    pattern: Seq<char>,
    with: Seq<char>,
    from: int,
)
    requires
        0 <= from <= text.len(),
        forall|at: int| !(#[trigger] matches_at(text, pattern, at)),
    ensures
        replaced(text, pattern, with, from) == text.skip(from),
    decreases text.len() - from,
{
    if pattern.len() == 0 || from + pattern.len() > text.len() {
    } else {
        lemma_replaced_without_match(text, pattern, with, from + 1);
        assert(seq![text[from]] + text.skip(from + 1) =~= text.skip(from));
    }
}

/// A text without any mark of a credential is left as it is.
pub proof fn redaction_keeps_clean_texts(text: Seq<char>)
    requires
        forall|at: int| !(#[trigger] matches_at(text, "Bearer "@, at)),
        forall|at: int| !(#[trigger] matches_at(text, "api_key="@, at)),
        forall|at: int| !(#[trigger] matches_at(text, "token="@, at)),
    ensures
        redacted_text(text) == text,
{
    assert(text.skip(0) =~= text);
    lemma_replaced_without_match(text, "Bearer "@, "Bearer [REDACTED] "@, 0);
    lemma_replaced_without_match(text, "api_key="@, "api_key=[REDACTED]"@, 0);
    lemma_replaced_without_match(text, "token="@, "token=[REDACTED]"@, 0);
}

// Requests as JSON

/// A message as JSON.
pub open spec fn message_json(message: MessageView) -> JsonView {
    JsonView::Object(
        seq![
            ("content"@, JsonView::Text(message.content)),
            ("role"@, JsonView::Text(message.role)),
        ],
    )
}

/// The messages of a request as JSON.
pub open spec fn messages_json(messages: Seq<MessageView>) -> Seq<JsonView> {
    Seq::new(messages.len(), |i: int| message_json(messages[i]))
}

/// A request as JSON.
pub open spec fn request_json(request: ModelRequestView) -> JsonView {
    JsonView::Object(
        seq![
            ("messages"@, JsonView::Array(messages_json(request.messages))),
            ("model"@, JsonView::Text(request.model)),
            ("temperature"@, JsonView::Number(request.temperature)),
        ],
    )
}

/// What is kept of a request: its text with every credential taken out.
pub open spec fn request_payload(request: ModelRequestView) -> Result<Seq<char>, Seq<char>> {
    serialized(redacted(request_json(request)))
}

fn message_to_json(message: &Message) -> (json: Json)
    ensures
        json@ == message_json(message@),
{
    let json = Json::Object(
        vec![
            ("content".to_owned(), Json::Text(message.content.clone())),
            ("role".to_owned(), Json::Text(message.role.clone())),
        ],
    );
    proof {
        crate::json::lemma_object_view(json);
        assert(json@->Object_0 =~= message_json(message@)->Object_0);
    }
    json
}

fn messages_to_json(messages: &Vec<Message>) -> (json: Json)
    ensures
        json@ == JsonView::Array(messages_json(views(messages@))),
{
    let mut items: Vec<Json> = Vec::new();
    let mut i: usize = 0;
    while i < messages.len()
        invariant
            i <= messages@.len(),
            items@.len() == i,
            forall|j: int|
                0 <= j < i ==> (#[trigger] items@[j])@ == message_json(messages@[j]@),
        decreases messages@.len() - i,
    {
        items.push(message_to_json(&messages[i]));
        i = i + 1;
    }
    let json = Json::Array(items);
    proof {
        crate::json::lemma_array_view(json);
        assert(json@->Array_0 =~= messages_json(views(messages@)));
    }
    json
}

impl ModelRequest {
    /// The request as JSON.
    pub fn to_json(&self) -> (json: Json)
        ensures
            json@ == request_json(self@),
    {
        let json = Json::Object(
            vec![
                ("messages".to_owned(), messages_to_json(&self.messages)),
                ("model".to_owned(), Json::Text(self.model.clone())),
                ("temperature".to_owned(), Json::Number(self.temperature.clone())),
            ],
        );
        proof {
            crate::json::lemma_object_view(json);
            assert(json@->Object_0 =~= request_json(self@)->Object_0);
        }
        json
    }

    /// What is kept of the request: its text with every credential taken out.
    pub fn payload(&self) -> (result: Result<String, String>)
        ensures
            res_view(result) == request_payload(self@),
    {
        json_to_text(&redact_value(self.to_json()))
    }
}

// Providers

/// Something that answers requests.
pub trait ModelProvider {
    fn complete(&self, request: &ModelRequest) -> Result<ModelResponse, ModelError>;
}

/// A provider that always gives the same response.
#[derive(Debug)]
pub struct FakeProvider {
    response: String,
}

impl View for FakeProvider {
    type V = Seq<char>;

    closed spec fn view(&self) -> Seq<char> {
        self.response@
    }
}

impl FakeProvider {
    /// A provider that always gives this response.
    pub fn new(response: &str) -> (provider: FakeProvider)
        ensures
            provider@ == response@,
    {
        FakeProvider { response: response.to_owned() }
    }
}

/// The response of a provider that always gives the same.
pub open spec fn fake_response(text: Seq<char>) -> ModelResponseView {
    ModelResponseView { text, provider_request_id: Some("fake-provider"@) }
}

impl ModelProvider for FakeProvider {
    fn complete(&self, request: &ModelRequest) -> (result: Result<ModelResponse, ModelError>)
        ensures
            res_view(result) == Ok::<ModelResponseView, ModelErrorView>(fake_response(self@)),
    {
        Ok(
            ModelResponse {
                text: self.response.clone(),
                provider_request_id: Some("fake-provider".to_owned()),
            },
        )
    }
}

// The audit of a completion

/// A run in which a model was asked.
pub open spec fn asked_run(run: RunView, step_index: nat, payload: Seq<char>) -> RunView {
    with_event(run, "llm.request"@, Some(step_index), "request="@ + payload)
}

/// What is kept of a response: who gave it, and the digest of its text.
pub open spec fn response_payload(response: ModelResponseView) -> Seq<char> {
    "request_id="@ + match response.provider_request_id {
        Some(id) => id,
        None => "unknown"@,
    } + " text_sha256="@ + text_hash(response.text)
}

/// A run in which a model answered or failed.
pub open spec fn answered_run(
    run: RunView,
    step_index: nat,
    outcome: Result<ModelResponseView, ModelErrorView>,
) -> RunView {
    match outcome {
        Ok(response) => with_event(
            run,
            "llm.response"@,
            Some(step_index),
            response_payload(response),
        ),
        Err(error) => with_event(
            run,
            "llm.error"@,
            Some(step_index),
            redacted_text(model_error_text(error)),
        ),
    }
}

/// Records that a model is asked.
pub fn begin_completion(record: &mut RunRecord, step_index: usize, request: &ModelRequest) -> (result:
    Result<(), ModelError>)
    ensures
        match request_payload(request@) {
            Ok(payload) => result is Ok && final(record)@ == asked_run(
                old(record)@,
                step_index as nat,
                payload,
            ),
            Err(message) => unit_view(result) == Err::<(), ModelErrorView>(
                ModelErrorView::Decode(message),
            ) && final(record)@ == old(record)@,
        },
{
    match request.payload() {
        Err(message) => Err(ModelError::Decode(message)),
        Ok(payload) => {
            let text = prefixed("request=", payload.as_str());
            record.record_event("llm.request", Some(step_index), text.as_str());
            Ok(())
        },
    }
}

/// Records what a model answered.
pub fn end_completion(
    record: &mut RunRecord,
    step_index: usize,
    outcome: &Result<ModelResponse, ModelError>,
)
    ensures
        final(record)@ == answered_run(old(record)@, step_index as nat, res_view(*outcome)),
{
    match outcome {
        Ok(response) => {
            let mut text = "request_id=".to_owned();
            match &response.provider_request_id {
                Some(id) => text.append(id.as_str()),
                None => text.append("unknown"),
            }
            text.append(" text_sha256=");
            text.append(hash_text(response.text.as_str()).as_str());
            record.record_event("llm.response", Some(step_index), text.as_str());
        },
        Err(error) => {
            let text = redact_text(error.message().as_str());
            record.record_event("llm.error", Some(step_index), text.as_str());
        },
    }
}

/// Asks a model and records both the request and what came of it. Nothing is
/// asked unless the request is recorded first; whatever the provider gives is
/// recorded and handed on.
pub fn complete_with_audit<P: ModelProvider>(
    store: &mut Store,
    run_id: &str,
    step_index: usize,
    provider: &P,
    request: &ModelRequest,
) -> (result: Result<ModelResponse, ModelError>)
    ensures
        match (request_payload(request@), run_position(old(store)@, run_id@)) {
            (Err(message), _) => {
                &&& res_view(result) == Err::<ModelResponseView, ModelErrorView>(
                    ModelErrorView::Decode(message),
                )
                &&& final(store)@ == old(store)@
            },
            (Ok(_), None) => {
                &&& res_view(result) == Err::<ModelResponseView, ModelErrorView>(
                    ModelErrorView::Audit(StoreErrorView::RunNotFound(run_id@)),
                )
                &&& final(store)@ == old(store)@
            },
            (Ok(payload), Some(position)) => {
                &&& call_ensures(P::complete, (provider, request), result)
                &&& final(store)@ == old(store)@.update(
                    position,
                    answered_run(
                        asked_run(old(store)@[position], step_index as nat, payload),
                        step_index as nat,
                        res_view(result),
                    ),
                )
            },
        },
{
    match request.payload() {
        Err(message) => return Err(ModelError::Decode(message)),
        Ok(_) => {},
    }
    let record = match store.record_mut(run_id) {
        Err(error) => return Err(ModelError::Audit(error)),
        Ok(record) => record,
    };
    match begin_completion(record, step_index, request) {
        Err(error) => return Err(error),
        Ok(()) => {},
    }
    let outcome = provider.complete(request);
    end_completion(record, step_index, &outcome);
    outcome
}

// Responses of the services

/// What is said of a response without its text.
pub open spec fn missing_text(path: Seq<char>) -> ModelErrorView {
    ModelErrorView::Decode("missing "@ + path)
}

/// A response, from its text and its id.
pub open spec fn response_of(
    text: Option<JsonView>,
    id: Option<JsonView>,
    path: Seq<char>,
) -> Result<ModelResponseView, ModelErrorView> {
    match and_text(text) {
        Some(text) => Ok(ModelResponseView { text, provider_request_id: and_text(id) }),
        None => Err(missing_text(path)),
    }
}

/// The member of a value that may not be there.
pub open spec fn and_member(value: Option<JsonView>, key: Seq<char>) -> Option<JsonView> {
    match value {
        Some(json) => member(json, key),
        None => None,
    }
}

/// The first element of a value that may not be there.
pub open spec fn and_first(value: Option<JsonView>) -> Option<JsonView> {
    match value {
        Some(json) => first_element(json),
        None => None,
    }
}

/// The text of a value that may not be there.
pub open spec fn and_text(value: Option<JsonView>) -> Option<Seq<char>> {
    match value {
        Some(json) => text_value(json),
        None => None,
    }
}

/// The response of an OpenAI-compatible service.
pub open spec fn openai_response(json: JsonView) -> Result<ModelResponseView, ModelErrorView> {
    let choice = and_first(member(json, "choices"@));
    response_of(
        and_member(and_member(choice, "message"@), "content"@),
        member(json, "id"@),
        "choices[0].message.content"@,
    )
}

/// The response of Gemini.
pub open spec fn gemini_response(json: JsonView) -> Result<ModelResponseView, ModelErrorView> {
    let candidate = and_first(member(json, "candidates"@));
    let part = and_first(and_member(and_member(candidate, "content"@), "parts"@));
    response_of(
        and_member(part, "text"@),
        member(json, "responseId"@),
        "candidates[0].content.parts[0].text"@,
    )
}

spec fn opt_json(value: Option<&Json>) -> Option<JsonView> {
    match value {
        Some(json) => Some(json@),
        None => None,
    }
}

fn get_member<'a>(value: Option<&'a Json>, key: &str) -> (found: Option<&'a Json>)
    ensures
        opt_json(found) == and_member(opt_json(value), key@),
{
    match value {
        Some(json) => json.get(key),
        None => None,
    }
}

fn get_first<'a>(value: Option<&'a Json>) -> (found: Option<&'a Json>)
    ensures
        opt_json(found) == and_first(opt_json(value)),
{
    match value {
        Some(json) => json.first(),
        None => None,
    }
}

fn get_text(value: Option<&Json>) -> (found: Option<String>)
    ensures
        opt_view(found) == and_text(opt_json(value)),
{
    match value {
        Some(json) => json.text(),
        None => None,
    }
}

fn make_response(text: Option<&Json>, id: Option<&Json>, path: &str) -> (result: Result<
    ModelResponse,
    ModelError,
>)
    ensures
        res_view(result) == response_of(opt_json(text), opt_json(id), path@),
{
    match get_text(text) {
        Some(text) => Ok(ModelResponse { text, provider_request_id: get_text(id) }),
        None => Err(ModelError::Decode(prefixed("missing ", path))),
    }
}

/// The response of an OpenAI-compatible service, from its JSON.
pub fn read_openai_response(json: &Json) -> (result: Result<ModelResponse, ModelError>)
    ensures
        res_view(result) == openai_response(json@),
{
    let choice = get_first(json.get("choices"));
    make_response(
        get_member(get_member(choice, "message"), "content"),
        json.get("id"),
        "choices[0].message.content",
    )
}

/// The response of Gemini, from its JSON.
pub fn read_gemini_response(json: &Json) -> (result: Result<ModelResponse, ModelError>)
    ensures
        res_view(result) == gemini_response(json@),
{
    let candidate = get_first(json.get("candidates"));
    let part = get_first(get_member(get_member(candidate, "content"), "parts"));
    make_response(
        get_member(part, "text"),
        json.get("responseId"),
        "candidates[0].content.parts[0].text",
    )
}

/// A service that speaks a language of its own.
#[derive(Clone, Copy, Debug, PartialEq, Eq, Structural)]
pub enum Service {
    OpenAiCompatible,
    Gemini,
}

/// The response of a service, from what reading its body gave.
pub open spec fn service_response(
    service: Service,
    parsed: Result<JsonView, Seq<char>>,
) -> Result<ModelResponseView, ModelErrorView> {
    match parsed {
        Err(message) => Err(ModelErrorView::Decode(message)),
        Ok(json) => match service {
            Service::OpenAiCompatible => openai_response(json),
            Service::Gemini => gemini_response(json),
        },
    }
}

/// Reads the body of a response of an OpenAI-compatible service.
pub fn parse_openai_response(body: &str) -> (result: Result<ModelResponse, ModelError>)
    ensures
        res_view(result) == service_response(Service::OpenAiCompatible, json_parse(body@)),
{
    match parse_json(body) {
        Err(message) => Err(ModelError::Decode(message)),
        Ok(json) => read_openai_response(&json),
    }
}

/// Reads the body of a response of Gemini.
pub fn parse_gemini_response(body: &str) -> (result: Result<ModelResponse, ModelError>)
    ensures
        res_view(result) == service_response(Service::Gemini, json_parse(body@)),
{
    match parse_json(body) {
        Err(message) => Err(ModelError::Decode(message)),
        Ok(json) => read_gemini_response(&json),
    }
}

// Exchanges with a service

/// What came of sending a request. The body may fail to arrive.
#[derive(Debug)]
pub enum HttpReply {
    Answered { status: u16, body: Result<String, String> },
    Failed(String),
}

/// The mathematical form of what came of sending a request.
pub enum HttpReplyView {
    Answered { status: nat, body: Result<Seq<char>, Seq<char>> },
    Failed(Seq<char>),
}

impl View for HttpReply {
    type V = HttpReplyView;

    open spec fn view(&self) -> HttpReplyView {
        match self {
            HttpReply::Answered { status, body } => HttpReplyView::Answered {
                status: *status as nat,
                body: res_view(*body),
            },
            HttpReply::Failed(message) => HttpReplyView::Failed(message@),
        }
    }
}

/// What follows from one attempt.
#[derive(Debug)]
pub enum ExchangeStep {
    RetryAfter(u64),
    Done(Result<ModelResponse, ModelError>),
}

/// The mathematical form of what follows from one attempt.
pub enum ExchangeStepView {
    RetryAfter(nat),
    Done(Result<ModelResponseView, ModelErrorView>),
}

impl View for ExchangeStep {
    type V = ExchangeStepView;

    open spec fn view(&self) -> ExchangeStepView {
        match self {
            ExchangeStep::RetryAfter(delay) => ExchangeStepView::RetryAfter(*delay as nat),
            ExchangeStep::Done(result) => ExchangeStepView::Done(res_view(*result)),
        }
    }
}

/// The time before an attempt is repeated, in milliseconds: it doubles with
/// each attempt.
pub open spec fn retry_delay(attempt: nat) -> nat {
    50 * pow2(attempt)
}

/// What is said when a request could not be sent.
pub open spec fn send_failure(service: Service, message: Seq<char>) -> Seq<char> {
    match service {
        Service::OpenAiCompatible => message,
        Service::Gemini => "Gemini request failed after retries"@,
    }
}

/// What follows from one attempt, when reading the body would give `parsed`.
/// Only a failure to send and an error of the server are worth another
/// attempt, and only while attempts are left.
pub open spec fn exchange_step(
    service: Service,
    attempt: nat,
    max_retries: nat,
    reply: HttpReplyView,
    parsed: Result<JsonView, Seq<char>>,
) -> ExchangeStepView {
    match reply {
        HttpReplyView::Failed(message) => if attempt == max_retries {
            ExchangeStepView::Done(Err(ModelErrorView::Http(send_failure(service, message))))
        } else {
            ExchangeStepView::RetryAfter(retry_delay(attempt))
        },
        HttpReplyView::Answered { status, body: Err(message) } => ExchangeStepView::Done(
            Err(ModelErrorView::Http(message)),
        ),
        HttpReplyView::Answered { status, body: Ok(body) } => if 200 <= status < 300 {
            ExchangeStepView::Done(service_response(service, parsed))
        } else if !(500 <= status < 600) || attempt == max_retries {
            ExchangeStepView::Done(
                Err(ModelErrorView::Provider { status, body: redacted_text(body) }),
            )
        } else {
            ExchangeStepView::RetryAfter(retry_delay(attempt))
        },
    }
}

/// The body of a reply, where there is one.
pub open spec fn reply_body(reply: HttpReplyView) -> Seq<char> {
    match reply {
        HttpReplyView::Answered { body: Ok(body), .. } => body,
        _ => Seq::empty(),
    }
}

/// The time before an attempt is repeated, in milliseconds.
pub fn delay_after(attempt: usize) -> (delay: u64)
    requires
        attempt <= 58,
    ensures
        delay == retry_delay(attempt as nat),
{
    let mut delay: u64 = 50;
    let mut i: usize = 0;
    proof {
        vstd::arithmetic::power2::lemma2_to64();
    }
    while i < attempt
        invariant
            i <= attempt <= 58,
            delay == 50 * pow2(i as nat),
        decreases attempt - i,
    {
        proof {
            lemma_pow2_unfold((i + 1) as nat);
            vstd::arithmetic::power2::lemma2_to64();
            vstd::arithmetic::power2::lemma2_to64_rest();
            if i + 1 < 58 {
                lemma_pow2_strictly_increases((i + 1) as nat, 58);
            }
            assert(pow2(58) == 0x400000000000000);
        }
        delay = delay * 2;
        i = i + 1;
    }
    delay
}

/// Decides what follows from one attempt to reach a service.
pub fn judge_attempt(service: Service, attempt: usize, max_retries: usize, reply: HttpReply) -> (step:
    ExchangeStep)
    requires
        attempt <= max_retries,
        attempt <= 58 || attempt == max_retries,
    ensures
        step@ == exchange_step(
            service,
            attempt as nat,
            max_retries as nat,
            reply@,
            json_parse(reply_body(reply@)),
        ),
{
    match reply {
        HttpReply::Failed(message) => {
            if attempt == max_retries {
                let said = match service {
                    Service::OpenAiCompatible => message,
                    Service::Gemini => "Gemini request failed after retries".to_owned(),
                };
                ExchangeStep::Done(Err(ModelError::Http(said)))
            } else {
                ExchangeStep::RetryAfter(delay_after(attempt))
            }
        },
        HttpReply::Answered { status, body } => match body {
            Err(message) => ExchangeStep::Done(Err(ModelError::Http(message))),
            Ok(body) => {
                if 200 <= status && status < 300 {
                    let response = match service {
                        Service::OpenAiCompatible => parse_openai_response(body.as_str()),
                        Service::Gemini => parse_gemini_response(body.as_str()),
                    };
                    ExchangeStep::Done(response)
                } else if !(500 <= status && status < 600) || attempt == max_retries {
                    let body = redact_text(body.as_str());
                    ExchangeStep::Done(Err(ModelError::Provider { status, body }))
                } else {
                    ExchangeStep::RetryAfter(delay_after(attempt))
                }
            },
        },
    }
}

/// What an exchange came to after some replies; nothing while it goes on.
pub open spec fn exchange_after(
    service: Service,
    max_retries: nat,
    replies: Seq<HttpReplyView>,
) -> Option<Result<ModelResponseView, ModelErrorView>>
    decreases replies.len(),
{
    if replies.len() == 0 {
        None
    } else {
        match exchange_after(service, max_retries, replies.drop_last()) {
            Some(result) => Some(result),
            None => match exchange_step(
                service,
                (replies.len() - 1) as nat,
                max_retries,
                replies.last(),
                json_parse(reply_body(replies.last())),
            ) {
                ExchangeStepView::RetryAfter(_) => None,
                ExchangeStepView::Done(result) => Some(result),
            },
        }
    }
}

/// An exchange makes at most one attempt more than the retries it may make.
pub proof fn exchanges_end(service: Service, max_retries: nat, replies: Seq<HttpReplyView>)
    requires
        replies.len() > max_retries,
    ensures
        exchange_after(service, max_retries, replies) is Some,
    decreases replies.len(),
{
    if replies.len() > max_retries + 1 {
        exchanges_end(service, max_retries, replies.drop_last());
    }
}

/// An attempt is repeated only if it could not be sent or the server failed.
pub proof fn only_passing_failures_are_retried(
    service: Service,
    attempt: nat,
    max_retries: nat,
    reply: HttpReplyView,
    parsed: Result<JsonView, Seq<char>>,
)
    ensures
        exchange_step(service, attempt, max_retries, reply, parsed) is RetryAfter ==> attempt
            != max_retries && match reply {
            HttpReplyView::Failed(_) => true,
            HttpReplyView::Answered { status, body } => body is Ok && 500 <= status < 600,
        },
{
}

/// Whether a failure may pass: the request could not be sent, or the server
/// answered that it failed.
pub open spec fn may_pass(reply: HttpReplyView) -> bool {
    match reply {
        HttpReplyView::Failed(_) => true,
        HttpReplyView::Answered { status, body } => 500 <= status <= 599 && body is Ok,
    }
}

/// An attempt is repeated exactly if attempts are left and its failure may pass.
/// The first is repeated after 50 milliseconds, and each after twice as long as
/// the one before.
pub proof fn passing_failures_are_retried(
    service: Service,
    attempt: nat,
    max_retries: nat,
    reply: HttpReplyView,
    parsed: Result<JsonView, Seq<char>>,
)
    requires
        attempt <= max_retries,
    ensures
        exchange_step(service, attempt, max_retries, reply, parsed) is RetryAfter <==> attempt
            < max_retries && may_pass(reply),
        exchange_step(service, attempt, max_retries, reply, parsed) matches
            ExchangeStepView::RetryAfter(delay) ==> {
            &&& attempt == 0 ==> delay == 50
            &&& exchange_step(service, attempt + 1, max_retries, reply, parsed) matches
                ExchangeStepView::RetryAfter(next) ==> next == 2 * delay
        },
{
    vstd::arithmetic::power2::lemma2_to64();
    vstd::arithmetic::power2::lemma_pow2_unfold(attempt + 1);
}

/// How an attempt ends that is not repeated: a success gives what is read of its
/// body, any other answer is told with its status and its body without
/// credentials, and what could not be sent or read is told as it is.
pub proof fn attempts_end_with_what_was_answered(
    service: Service,
    attempt: nat,
    max_retries: nat,
    reply: HttpReplyView,
    parsed: Result<JsonView, Seq<char>>,
)
    requires
        exchange_step(service, attempt, max_retries, reply, parsed) is Done,
    ensures
        ({
            let result = exchange_step(service, attempt, max_retries, reply, parsed)->Done_0;
            match reply {
                HttpReplyView::Answered { status, body: Ok(body) } => if 200 <= status <= 299 {
                    match parsed {
                        Ok(json) => match service {
                            Service::OpenAiCompatible => result == openai_response(json),
                            Service::Gemini => result == gemini_response(json),
                        },
                        Err(message) => result == Err::<ModelResponseView, ModelErrorView>(
                            ModelErrorView::Decode(message),
                        ),
                    }
                } else {
                    result == Err::<ModelResponseView, ModelErrorView>(
                        ModelErrorView::Provider { status, body: redacted_text(body) },
                    )
                },
                HttpReplyView::Answered { body: Err(message), .. } => result == Err::<
                    ModelResponseView,
                    ModelErrorView,
                >(ModelErrorView::Http(message)),
                HttpReplyView::Failed(message) => match service {
                    Service::OpenAiCompatible => result == Err::<ModelResponseView, ModelErrorView>(
                        ModelErrorView::Http(message),
                    ),
                    Service::Gemini => result matches Err(ModelErrorView::Http(_)),
                },
            }
        }),
        reply matches HttpReplyView::Answered { body: Ok(body), .. } ==> reply_body(reply) == body,
{
}

/// An exchange goes on through failures that may pass, as long as attempts are
/// left, and ends with the first reply that is none.
pub proof fn exchanges_end_with_the_first_answer(
    service: Service,
    max_retries: nat,
    replies: Seq<HttpReplyView>,
)
    requires
        0 < replies.len() <= max_retries + 1,
        forall|i: int| 0 <= i < replies.len() - 1 ==> may_pass(#[trigger] replies[i]),
    ensures
        exchange_after(service, max_retries, replies.drop_last()) is None,
        exchange_after(service, max_retries, replies) is Some <==> replies.len() == max_retries
            + 1 || !may_pass(replies.last()),
    decreases replies.len(),
{
    let front = replies.drop_last();
    if front.len() > 0 {
        assert forall|i: int| 0 <= i < front.len() - 1 implies may_pass(
            #[trigger] front[i],
        ) by {
            assert(front[i] == replies[i]);
        }
        assert(front.last() == replies[front.len() - 1]);
        exchanges_end_with_the_first_answer(service, max_retries, front);
    }
    passing_failures_are_retried(
        service,
        front.len(),
        max_retries,
        replies.last(),
        json_parse(reply_body(replies.last())),
    );
}

// The services

/// How Gemini is reached.
#[derive(Debug)]
pub struct GeminiProvider {
    api_key: String,
    model: String,
    max_retries: usize,
}

/// The mathematical form of how Gemini is reached.
pub struct GeminiView {
    pub api_key: Seq<char>,
    pub model: Seq<char>,
    pub max_retries: nat,
}

impl View for GeminiProvider {
    type V = GeminiView;

    closed spec fn view(&self) -> GeminiView {
        GeminiView {
            api_key: self.api_key@,
            model: self.model@,
            max_retries: self.max_retries as nat,
        }
    }
}

/// Whether Gemini can be reached with a key and a model.
pub open spec fn gemini_provider(api_key: Seq<char>, model: Seq<char>, max_retries: nat) -> Result<
    GeminiView,
    ModelErrorView,
> {
    if is_blank(api_key) {
        Err(ModelErrorView::Configuration("Gemini API key is empty"@))
    } else if is_blank(model) {
        Err(ModelErrorView::Configuration("Gemini model is empty"@))
    } else {
        Ok(GeminiView { api_key, model, max_retries })
    }
}

/// A message as a line of a prompt.
pub open spec fn message_line(message: MessageView) -> Seq<char> {
    message.role + ": "@ + message.content
}

/// The prompt that Gemini is given.
pub open spec fn gemini_prompt(messages: Seq<MessageView>) -> Seq<char> {
    joined(Seq::new(messages.len(), |i: int| message_line(messages[i])), "\n"@)
}

/// The body of a request to Gemini.
pub open spec fn gemini_body(request: ModelRequestView) -> JsonView {
    let part = JsonView::Object(
        seq![("text"@, JsonView::Text(gemini_prompt(request.messages)))],
    );
    let content = JsonView::Object(
        seq![
            ("role"@, JsonView::Text("user"@)),
            ("parts"@, JsonView::Array(seq![part])),
        ],
    );
    let config = JsonView::Object(
        seq![
            ("temperature"@, JsonView::Number(request.temperature)),
            ("maxOutputTokens"@, JsonView::Number("2048"@)),
        ],
    );
    JsonView::Object(
        seq![("contents"@, JsonView::Array(seq![content])), ("generationConfig"@, config)],
    )
}

fn prompt_of(messages: &Vec<Message>) -> (prompt: String)
    ensures
        prompt@ == gemini_prompt(views(messages@)),
{
    let mut lines: Vec<String> = Vec::new();
    let mut i: usize = 0;
    while i < messages.len()
        invariant
            i <= messages@.len(),
            lines@.len() == i,
            forall|j: int|
                0 <= j < i ==> (#[trigger] lines@[j])@ == message_line(messages@[j]@),
        decreases messages@.len() - i,
    {
        let mut line = messages[i].role.clone();
        line.append(": ");
        line.append(messages[i].content.as_str());
        lines.push(line);
        i = i + 1;
    }
    proof {
        let all = views(messages@);
        assert(views(lines@) =~= Seq::new(all.len(), |i: int| message_line(all[i])));
    }
    join_text(&lines, "\n")
}

fn one_member(key: &str, value: Json) -> (json: Json)
    ensures
        json@ == JsonView::Object(seq![(key@, value@)]),
{
    let ghost expected = seq![(key@, value@)];
    let json = Json::Object(vec![(key.to_owned(), value)]);
    proof {
        crate::json::lemma_object_view(json);
        assert(json@->Object_0 =~= expected);
    }
    json
}

fn two_members(first: &str, one: Json, second: &str, other: Json) -> (json: Json)
    ensures
        json@ == JsonView::Object(seq![(first@, one@), (second@, other@)]),
{
    let ghost expected = seq![(first@, one@), (second@, other@)];
    let json = Json::Object(vec![(first.to_owned(), one), (second.to_owned(), other)]);
    proof {
        crate::json::lemma_object_view(json);
        assert(json@->Object_0 =~= expected);
    }
    json
}

fn one_element(value: Json) -> (json: Json)
    ensures
        json@ == JsonView::Array(seq![value@]),
{
    let ghost expected = seq![value@];
    let json = Json::Array(vec![value]);
    proof {
        crate::json::lemma_array_view(json);
        assert(json@->Array_0 =~= expected);
    }
    json
}

impl GeminiProvider {
    /// How Gemini is reached with a key and a model.
    pub fn new(api_key: &str, model: &str, max_retries: usize) -> (result: Result<
        GeminiProvider,
        ModelError,
    >)
        ensures
            res_view(result) == gemini_provider(api_key@, model@, max_retries as nat),
    {
        if blank(api_key) {
            return Err(ModelError::Configuration("Gemini API key is empty".to_owned()));
        }
        if blank(model) {
            return Err(ModelError::Configuration("Gemini model is empty".to_owned()));
        }
        Ok(
            GeminiProvider {
                api_key: api_key.to_owned(),
                model: model.to_owned(),
                max_retries,
            },
        )
    }

    /// Where requests are sent.
    pub fn endpoint(&self) -> (endpoint: String)
        ensures
            endpoint@ == "https://generativelanguage.googleapis.com/v1beta/models/"@ + self@.model
                + ":generateContent"@,
    {
        let mut endpoint = "https://generativelanguage.googleapis.com/v1beta/models/".to_owned();
        endpoint.append(self.model.as_str());
        endpoint.append(":generateContent");
        endpoint
    }

    /// The key that goes with every request.
    pub fn api_key(&self) -> (key: &str)
        ensures
            key@ == self@.api_key,
    {
        self.api_key.as_str()
    }

    /// How often a request is repeated at most.
    pub fn max_retries(&self) -> (count: usize)
        ensures
            count == self@.max_retries,
    {
        self.max_retries
    }

    /// The body of a request.
    pub fn body(request: &ModelRequest) -> (json: Json)
        ensures
            json@ == gemini_body(request@),
    {
        let part = one_member("text", Json::Text(prompt_of(&request.messages)));
        let content = two_members(
            "role",
            Json::Text("user".to_owned()),
            "parts",
            one_element(part),
        );
        let config = two_members(
            "temperature",
            Json::Number(request.temperature.clone()),
            "maxOutputTokens",
            Json::Number("2048".to_owned()),
        );
        two_members("contents", one_element(content), "generationConfig", config)
    }
}

/// How an OpenAI-compatible service is reached.
#[derive(Debug)]
pub struct OpenAiCompatibleProvider {
    endpoint: String,
    api_key: String,
    max_retries: usize,
}

/// The mathematical form of how an OpenAI-compatible service is reached.
pub struct OpenAiView {
    pub endpoint: Seq<char>,
    pub api_key: Seq<char>,
    pub max_retries: nat,
}

impl View for OpenAiCompatibleProvider {
    type V = OpenAiView;

    closed spec fn view(&self) -> OpenAiView {
        OpenAiView {
            endpoint: self.endpoint@,
            api_key: self.api_key@,
            max_retries: self.max_retries as nat,
        }
    }
}

/// Whether an OpenAI-compatible service can be reached at an endpoint with a
/// key.
pub open spec fn openai_provider(
    endpoint: Seq<char>,
    api_key: Seq<char>,
    max_retries: nat,
) -> Result<OpenAiView, ModelErrorView> {
    if endpoint.len() == 0 {
        Err(ModelErrorView::Configuration("endpoint is empty"@))
    } else if api_key.len() == 0 {
        Err(ModelErrorView::Configuration("API key is empty"@))
    } else {
        Ok(OpenAiView { endpoint, api_key, max_retries })
    }
}

impl OpenAiCompatibleProvider {
    /// How an OpenAI-compatible service is reached at an endpoint with a key.
    pub fn new(endpoint: &str, api_key: &str, max_retries: usize) -> (result: Result<
        OpenAiCompatibleProvider,
        ModelError,
    >)
        ensures
            res_view(result) == openai_provider(endpoint@, api_key@, max_retries as nat),
    {
        if endpoint.is_empty() {
            return Err(ModelError::Configuration("endpoint is empty".to_owned()));
        }
        if api_key.is_empty() {
            return Err(ModelError::Configuration("API key is empty".to_owned()));
        }
        Ok(
            OpenAiCompatibleProvider {
                endpoint: endpoint.to_owned(),
                api_key: api_key.to_owned(),
                max_retries,
            },
        )
    }

    /// Where requests are sent.
    pub fn endpoint(&self) -> (endpoint: &str)
        ensures
            endpoint@ == self@.endpoint,
    {
        self.endpoint.as_str()
    }

    /// The key that goes with every request.
    pub fn api_key(&self) -> (key: &str)
        ensures
            key@ == self@.api_key,
    {
        self.api_key.as_str()
    }

    /// How often a request is repeated at most.
    pub fn max_retries(&self) -> (count: usize)
        ensures
            count == self@.max_retries,
    {
        self.max_retries
    }

    /// The body of a request.
    pub fn body(request: &ModelRequest) -> (json: Json)
        ensures
            json@ == request_json(request@),
    {
        request.to_json()
    }
}

// Laws of requests and responses

/// What is read of an answer of an OpenAI-compatible service: the content of the
/// message of the first choice, which has to be a text, and the identifier if
/// there is one.
pub proof fn openai_answers_are_the_first_choice(json: JsonView, response: ModelResponseView)
    ensures
        openai_response(json) == Ok::<ModelResponseView, ModelErrorView>(response) <==> {
            &&& member(json, "choices"@) matches Some(JsonView::Array(choices)) && choices.len() > 0
                && (member(choices[0], "message"@) matches Some(message) && member(
                message,
                "content"@,
            ) == Some(JsonView::Text(response.text)))
            &&& match member(json, "id"@) {
                Some(JsonView::Text(id)) => response.provider_request_id == Some(id),
                _ => response.provider_request_id is None,
            }
        },
        openai_response(json) matches Err(error) ==> error is Decode,
{
}

/// What is read of an answer of Gemini: the text of the first part of the
/// content of the first candidate, and the identifier if there is one.
pub proof fn gemini_answers_are_the_first_candidate(json: JsonView, response: ModelResponseView)
    ensures
        gemini_response(json) == Ok::<ModelResponseView, ModelErrorView>(response) <==> {
            &&& member(json, "candidates"@) matches Some(JsonView::Array(candidates))
                && candidates.len() > 0 && (member(candidates[0], "content"@) matches Some(
                content,
            ) && (member(content, "parts"@) matches Some(JsonView::Array(parts)) && parts.len() > 0
                && member(parts[0], "text"@) == Some(JsonView::Text(response.text))))
            &&& match member(json, "responseId"@) {
                Some(JsonView::Text(id)) => response.provider_request_id == Some(id),
                _ => response.provider_request_id is None,
            }
        },
        gemini_response(json) matches Err(error) ==> error is Decode,
{
}

proof fn lemma_pair(a: (Seq<char>, JsonView), b: (Seq<char>, JsonView))
    requires
        a.0 != b.0,
    ensures
        member(JsonView::Object(seq![a, b]), a.0) == Some(a.1),
        member(JsonView::Object(seq![a, b]), b.0) == Some(b.1),
{
    let entries = seq![a, b];
    members_are_found_by_their_key(entries, a.0, a.1);
    members_are_found_by_their_key(entries, b.0, b.1);
    assert(has_key(entries[0], a.0));
    assert(has_key(entries[1], b.0));
    assert(!has_key(entries[0], b.0));
}

proof fn lemma_triple(
    a: (Seq<char>, JsonView),
    b: (Seq<char>, JsonView),
    c: (Seq<char>, JsonView),
)
    requires
        a.0 != b.0,
        a.0 != c.0,
        b.0 != c.0,
    ensures
        member(JsonView::Object(seq![a, b, c]), a.0) == Some(a.1),
        member(JsonView::Object(seq![a, b, c]), b.0) == Some(b.1),
        member(JsonView::Object(seq![a, b, c]), c.0) == Some(c.1),
{
    let entries = seq![a, b, c];
    members_are_found_by_their_key(entries, a.0, a.1);
    members_are_found_by_their_key(entries, b.0, b.1);
    members_are_found_by_their_key(entries, c.0, c.1);
    assert(has_key(entries[0], a.0));
    assert(has_key(entries[1], b.0));
    assert(has_key(entries[2], c.0));
    assert(!has_key(entries[0], b.0));
    assert(!has_key(entries[0], c.0));
    assert(!has_key(entries[1], c.0));
}

proof fn lemma_member_names()
    ensures
        "content"@ != "role"@,
        "messages"@ != "model"@,
        "messages"@ != "temperature"@,
        "model"@ != "temperature"@,
        "role"@ != "parts"@,
        "temperature"@ != "maxOutputTokens"@,
        "contents"@ != "generationConfig"@,
{
    reveal_strlit("content");
    reveal_strlit("role");
    reveal_strlit("messages");
    reveal_strlit("model");
    reveal_strlit("temperature");
    reveal_strlit("parts");
    reveal_strlit("maxOutputTokens");
    reveal_strlit("contents");
    reveal_strlit("generationConfig");
    assert("content"@.len() == 7 && "role"@.len() == 4 && "messages"@.len() == 8);
    assert("model"@.len() == 5 && "temperature"@.len() == 11 && "parts"@.len() == 5);
    assert("maxOutputTokens"@.len() == 15 && "contents"@.len() == 8);
    assert("generationConfig"@.len() == 16);
}

/// A request as it is sent to an OpenAI-compatible service holds its model, its
/// temperature and each message in its order, with its role and its content.
pub proof fn requests_hold_every_message(request: ModelRequestView)
    ensures
        ({
            let json = request_json(request);
            &&& member(json, "model"@) == Some(JsonView::Text(request.model))
            &&& member(json, "temperature"@) == Some(JsonView::Number(request.temperature))
            &&& member(json, "messages"@) matches Some(JsonView::Array(messages)) && messages.len()
                == request.messages.len() && forall|i: int|
                0 <= i < messages.len() ==> {
                    &&& member(#[trigger] messages[i], "role"@) == Some(
                        JsonView::Text(request.messages[i].role),
                    )
                    &&& member(messages[i], "content"@) == Some(
                        JsonView::Text(request.messages[i].content),
                    )
                }
        }),
{
    lemma_member_names();
    lemma_triple(
        ("messages"@, JsonView::Array(messages_json(request.messages))),
        ("model"@, JsonView::Text(request.model)),
        ("temperature"@, JsonView::Number(request.temperature)),
    );
    let messages = messages_json(request.messages);
    assert forall|i: int| 0 <= i < messages.len() implies {
        &&& member(#[trigger] messages[i], "role"@) == Some(
            JsonView::Text(request.messages[i].role),
        )
        &&& member(messages[i], "content"@) == Some(JsonView::Text(request.messages[i].content))
    } by {
        lemma_pair(
            ("content"@, JsonView::Text(request.messages[i].content)),
            ("role"@, JsonView::Text(request.messages[i].role)),
        );
    }
}

/// What Gemini is prompted with: one message is its role and its content, and
/// more of them stand one after the other on lines of their own.
pub proof fn prompts_hold_every_message(front: Seq<MessageView>, back: Seq<MessageView>)
    ensures
        front.len() == 1 ==> gemini_prompt(front) == front[0].role + ": "@ + front[0].content,
        front.len() > 0 && back.len() > 0 ==> gemini_prompt(front + back) == gemini_prompt(front)
            + "\n"@ + gemini_prompt(back),
{
    let one = Seq::new(front.len(), |i: int| message_line(front[i]));
    let two = Seq::new(back.len(), |i: int| message_line(back[i]));
    let both = Seq::new((front + back).len(), |i: int| message_line((front + back)[i]));
    assert(both =~= one + two);
    joining_keeps_every_part(one, two, "\n"@);
}

/// A request as it is sent to Gemini holds the prompt as the one part of one
/// content of the user, the temperature and the limit of the answer.
pub proof fn gemini_requests_hold_the_prompt(request: ModelRequestView)
    ensures
        ({
            let json = gemini_body(request);
            &&& member(json, "contents"@) matches Some(JsonView::Array(contents)) && contents.len()
                == 1 && {
                &&& member(contents[0], "role"@) == Some(JsonView::Text("user"@))
                &&& member(contents[0], "parts"@) matches Some(JsonView::Array(parts))
                    && parts.len() == 1 && member(parts[0], "text"@) == Some(
                    JsonView::Text(gemini_prompt(request.messages)),
                )
            }
            &&& member(json, "generationConfig"@) matches Some(config) && {
                &&& member(config, "temperature"@) == Some(JsonView::Number(request.temperature))
                &&& member(config, "maxOutputTokens"@) == Some(JsonView::Number("2048"@))
            }
        }),
{
    lemma_member_names();
    let prompt = JsonView::Text(gemini_prompt(request.messages));
    let part = JsonView::Object(seq![("text"@, prompt)]);
    let content = JsonView::Object(
        seq![("role"@, JsonView::Text("user"@)), ("parts"@, JsonView::Array(seq![part]))],
    );
    let config = JsonView::Object(
        seq![
            ("temperature"@, JsonView::Number(request.temperature)),
            ("maxOutputTokens"@, JsonView::Number("2048"@)),
        ],
    );
    let entries = seq![("text"@, prompt)];
    members_are_found_by_their_key(entries, "text"@, prompt);
    assert(has_key(entries[0], "text"@));
    lemma_pair(("role"@, JsonView::Text("user"@)), ("parts"@, JsonView::Array(seq![part])));
    lemma_pair(
        ("temperature"@, JsonView::Number(request.temperature)),
        ("maxOutputTokens"@, JsonView::Number("2048"@)),
    );
    lemma_pair(
        ("contents"@, JsonView::Array(seq![content])),
        ("generationConfig"@, config),
    );
}

/// What is recorded of a request and of its answer: one event each, with what
/// was asked, or with the identifier and the digest of what was answered, or with
/// the error without credentials. Nothing else of the run changes.
pub proof fn requests_and_answers_are_recorded(
    run: RunView,
    index: nat,
    payload: Seq<char>,
    response: ModelResponseView,
    error: ModelErrorView,
)
    ensures
        ({
            let asked = asked_run(run, index, payload);
            &&& one_more_event(
                run.events,
                asked.events,
                "llm.request"@,
                Some(index),
                "request="@ + payload,
            )
            &&& asked == (RunView { events: asked.events, ..run })
        }),
        ({
            let answered = answered_run(run, index, Ok(response));
            &&& one_more_event(
                run.events,
                answered.events,
                "llm.response"@,
                Some(index),
                "request_id="@ + (if response.provider_request_id is Some {
                    response.provider_request_id->0
                } else {
                    "unknown"@
                }) + " text_sha256="@ + text_hash(response.text),
            )
            &&& answered == (RunView { events: answered.events, ..run })
        }),
        ({
            let failed = answered_run(run, index, Err(error));
            &&& one_more_event(
                run.events,
                failed.events,
                "llm.error"@,
                Some(index),
                redacted_text(model_error_text(error)),
            )
            &&& failed == (RunView { events: failed.events, ..run })
        }),
{
}

/// A provider can be reached exactly if what it needs is there, and it keeps what
/// it is given. The fake one answers with the text that it was given.
pub proof fn providers_keep_what_they_are_given(
    key: Seq<char>,
    name: Seq<char>,
    max_retries: nat,
)
    ensures
        gemini_provider(key, name, max_retries) is Ok <==> !is_blank(key) && !is_blank(name),
        gemini_provider(key, name, max_retries) matches Ok(provider) ==> provider.api_key == key
            && provider.model == name && provider.max_retries == max_retries,
        gemini_provider(key, name, max_retries) matches Err(error) ==> error
            == ModelErrorView::Configuration(
            if is_blank(key) {
                "Gemini API key is empty"@
            } else {
                "Gemini model is empty"@
            },
        ),
        openai_provider(name, key, max_retries) is Ok <==> key.len() > 0 && name.len() > 0,
        openai_provider(name, key, max_retries) matches Ok(provider) ==> provider.endpoint == name
            && provider.api_key == key && provider.max_retries == max_retries,
        openai_provider(name, key, max_retries) matches Err(error) ==> error
            == ModelErrorView::Configuration(
            if name.len() == 0 {
                "endpoint is empty"@
            } else {
                "API key is empty"@
            },
        ),
        fake_response(name).text == name,
        fake_response(name).provider_request_id == Some("fake-provider"@),
{
}

// Laws of redaction

proof fn lemma_without_character(text: Seq<char>, pattern: Seq<char>, character: char, i: int)
    requires
        !text.contains(character),
        0 <= i < pattern.len(),
        pattern[i] == character,
    ensures
        !has_text(text, pattern),
{
    if has_text(text, pattern) {
        let at = choose|at: int| matches_at(text, pattern, at);
        assert(text.subrange(at, at + pattern.len())[i] == character);
        assert(text[at + i] == character);
    }
}

proof fn lemma_replaced_without(
    text: Seq<char>,
    pattern: Seq<char>,
    with: Seq<char>,
    from: int,
    character: char,
)
    requires
        0 <= from <= text.len(),
        !text.contains(character),
        !with.contains(character),
    ensures
        !replaced(text, pattern, with, from).contains(character),
    decreases text.len() - from,
{
    let after = replaced(text, pattern, with, from);
    if pattern.len() == 0 || from + pattern.len() > text.len() {
        assert forall|i: int| 0 <= i < after.len() implies after[i] != character by {
            assert(after[i] == text[from + i]);
            assert(text.contains(text[from + i]));
        }
    } else if matches_at(text, pattern, from) {
        lemma_replaced_without(text, pattern, with, from + pattern.len(), character);
        let rest = replaced(text, pattern, with, from + pattern.len());
        assert forall|i: int| 0 <= i < after.len() implies after[i] != character by {
            if i < with.len() {
                assert(with.contains(with[i]));
            } else {
                assert(rest.contains(rest[i - with.len()]));
            }
        }
    } else {
        lemma_replaced_without(text, pattern, with, from + 1, character);
        let rest = replaced(text, pattern, with, from + 1);
        assert forall|i: int| 0 <= i < after.len() implies after[i] != character by {
            if i == 0 {
                assert(text.contains(text[from]));
            } else {
                assert(rest.contains(rest[i - 1]));
            }
        }
    }
}

/// In a text without an equals sign, what follows each `Bearer` is marked as
/// redacted.
pub proof fn bearers_are_marked(front: Seq<char>, back: Seq<char>)
    requires
        !front.contains('='),
        !back.contains('='),
        !has_text((front + "Bearer "@).drop_last(), "Bearer "@),
    ensures
        redacted_text(front + "Bearer "@ + back) == front + "Bearer [REDACTED] "@ + redacted_text(
            back,
        ),
{
    let find = "Bearer "@;
    let mark = "Bearer [REDACTED] "@;
    reveal_strlit("Bearer ");
    reveal_strlit("Bearer [REDACTED] ");
    let whole = front + find + back;
    replacement_goes_on_behind_a_match(front, find, back, mark);
    assert(!whole.contains('=')) by {
        assert forall|i: int| 0 <= i < whole.len() implies whole[i] != '=' by {
            if i < front.len() {
                assert(front.contains(front[i]));
            } else if i >= front.len() + find.len() {
                assert(back.contains(back[i - front.len() - find.len()]));
            }
        }
    }
    lemma_replaced_without(whole, find, mark, 0, '=');
    lemma_replaced_without(back, find, mark, 0, '=');
    lemma_marked_alone(replaced(whole, find, mark, 0));
    lemma_marked_alone(replaced(back, find, mark, 0));
}

proof fn lemma_marked_alone(text: Seq<char>)
    requires
        !text.contains('='),
    ensures
        replaced(
            replaced(text, "api_key="@, "api_key=[REDACTED]"@, 0),
            "token="@,
            "token=[REDACTED]"@,
            0,
        ) == text,
{
    reveal_strlit("api_key=");
    reveal_strlit("token=");
    lemma_without_character(text, "api_key="@, '=', 7);
    lemma_without_character(text, "token="@, '=', 5);
    absent_texts_are_not_replaced(text, "api_key="@, "api_key=[REDACTED]"@);
    absent_texts_are_not_replaced(text, "token="@, "token=[REDACTED]"@);
}

/// In a text without the letters `B` and `o`, which is thus without the other
/// marks, what follows each `api_key=` is marked as redacted.
pub proof fn keys_are_marked(front: Seq<char>, back: Seq<char>)
    requires
        !front.contains('B') && !front.contains('o'),
        !back.contains('B') && !back.contains('o'),
        !has_text((front + "api_key="@).drop_last(), "api_key="@),
    ensures
        redacted_text(front + "api_key="@ + back) == front + "api_key=[REDACTED]"@ + redacted_text(
            back,
        ),
{
    let find = "api_key="@;
    let mark = "api_key=[REDACTED]"@;
    reveal_strlit("api_key=");
    reveal_strlit("api_key=[REDACTED]");
    reveal_strlit("Bearer ");
    reveal_strlit("token=");
    let whole = front + find + back;
    assert forall|i: int| 0 <= i < whole.len() implies whole[i] != 'B' && whole[i] != 'o' by {
        if i < front.len() {
            assert(front.contains(front[i]));
        } else if i >= front.len() + find.len() {
            assert(back.contains(back[i - front.len() - find.len()]));
        }
    }
    lemma_without_character(whole, "Bearer "@, 'B', 0);
    lemma_without_character(back, "Bearer "@, 'B', 0);
    absent_texts_are_not_replaced(whole, "Bearer "@, "Bearer [REDACTED] "@);
    absent_texts_are_not_replaced(back, "Bearer "@, "Bearer [REDACTED] "@);
    replacement_goes_on_behind_a_match(front, find, back, mark);
    lemma_replaced_without(whole, find, mark, 0, 'o');
    lemma_replaced_without(back, find, mark, 0, 'o');
    lemma_without_character(replaced(whole, find, mark, 0), "token="@, 'o', 1);
    lemma_without_character(replaced(back, find, mark, 0), "token="@, 'o', 1);
    absent_texts_are_not_replaced(
        replaced(whole, find, mark, 0),
        "token="@,
        "token=[REDACTED]"@,
    );
    absent_texts_are_not_replaced(replaced(back, find, mark, 0), "token="@, "token=[REDACTED]"@);
}

/// In a text without the letters `B` and `p`, which is thus without the other
/// marks, what follows each `token=` is marked as redacted.
pub proof fn tokens_are_marked(front: Seq<char>, back: Seq<char>)
    requires
        !front.contains('B') && !front.contains('p'),
        !back.contains('B') && !back.contains('p'),
        !has_text((front + "token="@).drop_last(), "token="@),
    ensures
        redacted_text(front + "token="@ + back) == front + "token=[REDACTED]"@ + redacted_text(
            back,
        ),
{
    let find = "token="@;
    let mark = "token=[REDACTED]"@;
    reveal_strlit("token=");
    reveal_strlit("Bearer ");
    reveal_strlit("api_key=");
    let whole = front + find + back;
    assert forall|i: int| 0 <= i < whole.len() implies whole[i] != 'B' && whole[i] != 'p' by {
        if i < front.len() {
            assert(front.contains(front[i]));
        } else if i >= front.len() + find.len() {
            assert(back.contains(back[i - front.len() - find.len()]));
        }
    }
    lemma_without_character(whole, "Bearer "@, 'B', 0);
    lemma_without_character(back, "Bearer "@, 'B', 0);
    lemma_without_character(whole, "api_key="@, 'p', 1);
    lemma_without_character(back, "api_key="@, 'p', 1);
    absent_texts_are_not_replaced(whole, "Bearer "@, "Bearer [REDACTED] "@);
    absent_texts_are_not_replaced(back, "Bearer "@, "Bearer [REDACTED] "@);
    absent_texts_are_not_replaced(whole, "api_key="@, "api_key=[REDACTED]"@);
    absent_texts_are_not_replaced(back, "api_key="@, "api_key=[REDACTED]"@);
    replacement_goes_on_behind_a_match(front, find, back, mark);
}

} // verus!
