//! Exportable evidence of a run.

use crate::number::{
    decimal, decimal_text, hex, hex_digit, hex_pair, hex_text, hex_value, lemma_hex_length,
    push_hex_pair,
};
use crate::run::status_name;
use crate::store::{
    run_position, run_summary, EventRecord, EventView, RunView, Store, StoreError, StoreErrorView,
    StoredRun, StoredRunView,
};
use crate::text::{chars_of, control, is_control, joined, push_char, text_bytes, views};
use vstd::prelude::*;
use vstd::string::StringExecFns;

verus! {

// Hashes

/// The SHA-256 digest of a sequence of bytes, as `sha2::Sha256::digest` gives it.
pub uninterp spec fn sha256(bytes: Seq<u8>) -> Seq<u8>;

/// Calls `sha2::Sha256::digest`. Its result is a function of the bytes alone
/// and always thirty-two bytes long.
#[verifier::external_body]
fn digest(bytes: &[u8]) -> (hash: Vec<u8>)
    ensures
        hash@ == sha256(bytes@),
        hash@.len() == 32,
{
    <sha2::Sha256 as sha2::Digest>::digest(bytes).to_vec()
}

/// The digest of a sequence of bytes, in hexadecimal.
pub open spec fn sha256_text(bytes: Seq<u8>) -> Seq<char> {
    hex(sha256(bytes))
}

/// The digest of a sequence of bytes, in hexadecimal.
pub fn sha256_hex(bytes: &[u8]) -> (text: String)
    ensures
        text@ == sha256_text(bytes@),
        text@.len() == 64,
{
    let hash = digest(bytes);
    proof {
        lemma_hex_length(hash@);
    }
    hex_text(&hash)
}

/// The digest of a text.
pub open spec fn text_hash(text: Seq<char>) -> Seq<char> {
    sha256_text(text_bytes(text))
}

/// The digest of a text.
pub fn hash_text(text: &str) -> (hash: String)
    ensures
        hash@ == text_hash(text@),
        hash@.len() == 64,
{
    sha256_hex(text.as_bytes())
}

// Strings in JSON

/// How a character is written inside a JSON string.
pub open spec fn escape(character: char) -> Seq<char> {
    if character == '"' {
        seq!['\\', '"']
    } else if character == '\\' {
        seq!['\\', '\\']
    } else if character == '\n' {
        seq!['\\', 'n']
    } else if character == '\r' {
        seq!['\\', 'r']
    } else if character == '\t' {
        seq!['\\', 't']
    } else if is_control(character) {
        seq!['\\', 'u', '0', '0'] + hex_pair(character as u8)
    } else {
        seq![character]
    }
}

/// How a text is written inside a JSON string.
pub open spec fn escaped(text: Seq<char>) -> Seq<char>
    decreases text.len(),
{
    if text.len() == 0 {
        Seq::empty()
    } else {
        escape(text[0]) + escaped(text.skip(1))
    }
}

/// A text as a JSON string.
pub open spec fn quoted(text: Seq<char>) -> Seq<char> {
    seq!['"'] + escaped(text) + seq!['"']
}

fn push_escape(text: &mut String, character: char)
    ensures
        final(text)@ == old(text)@ + escape(character),
{
    let ghost before = text@;
    if character == '"' {
        push_char(text, '\\');
        push_char(text, '"');
    } else if character == '\\' {
        push_char(text, '\\');
        push_char(text, '\\');
    } else if character == '\n' {
        push_char(text, '\\');
        push_char(text, 'n');
    } else if character == '\r' {
        push_char(text, '\\');
        push_char(text, 'r');
    } else if character == '\t' {
        push_char(text, '\\');
        push_char(text, 't');
    } else if control(character) {
        push_char(text, '\\');
        push_char(text, 'u');
        push_char(text, '0');
        push_char(text, '0');
        let ghost head = text@;
        push_hex_pair(text, character as u8);
        proof {
            assert(head =~= before + seq!['\\', 'u', '0', '0']);
            assert(text@ =~= before + escape(character));
        }
        return ;
    } else {
        push_char(text, character);
    }
    proof {
        assert(text@ =~= before + escape(character));
    }
}

/// Writes a text as a JSON string.
pub fn json_string(value: &str) -> (text: String)
    ensures
        text@ == quoted(value@),
{
    let chars = chars_of(value);
    let mut text = String::new();
    push_char(&mut text, '"');
    let mut i: usize = 0;
    proof {
        assert(value@.skip(0) =~= value@);
        assert(text@ =~= seq!['"']);
    }
    while i < chars.len()
        invariant
            chars@ == value@,
            i <= chars@.len(),
            text@ + escaped(value@.skip(i as int)) == seq!['"'] + escaped(value@),
        decreases chars@.len() - i,
    {
        let ghost before = text@;
        push_escape(&mut text, chars[i]);
        proof {
            let rest = value@.skip(i as int);
            assert(rest[0] == chars@[i as int]);
            assert(rest.skip(1) =~= value@.skip(i + 1));
            assert(text@ + escaped(rest.skip(1)) =~= before + escaped(rest));
        }
        i = i + 1;
    }
    proof {
        assert(value@.skip(chars@.len() as int) =~= Seq::<char>::empty());
        assert(text@ + Seq::<char>::empty() =~= text@);
    }
    push_char(&mut text, '"');
    proof {
        assert(text@ =~= quoted(value@));
    }
    text
}

// The files of a bundle

/// The metadata of a run.
pub open spec fn run_json(run: StoredRunView) -> Seq<char> {
    "{\n  \"run_id\": "@ + quoted(run.run_id) + ",\n  \"status\": "@ + quoted(
        status_name(run.status),
    ) + ",\n  \"current_step\": "@ + decimal(run.current_step) + ",\n  \"total_steps\": "@
        + decimal(run.total_steps) + "\n}\n"@
}

/// The index of a step as a JSON value.
pub open spec fn index_json(index: Option<nat>) -> Seq<char> {
    match index {
        Some(index) => decimal(index),
        None => "null"@,
    }
}

/// One event as a line of JSON.
pub open spec fn event_line(event: EventView) -> Seq<char> {
    "{\"sequence\":"@ + decimal(event.sequence) + ",\"type\":"@ + quoted(event.event_type)
        + ",\"step_index\":"@ + index_json(event.step_index) + ",\"payload\":"@ + quoted(
        event.payload,
    ) + "}\n"@
}

/// The events of a run, one line for each, in order.
pub open spec fn events_jsonl(events: Seq<EventView>) -> Seq<char>
    decreases events.len(),
{
    if events.len() == 0 {
        Seq::empty()
    } else {
        events_jsonl(events.drop_last()) + event_line(events.last())
    }
}

/// The digests of the two other files.
pub open spec fn manifest(run_json: Seq<char>, events_jsonl: Seq<char>) -> Seq<char> {
    text_hash(run_json) + "  run.json\n"@ + text_hash(events_jsonl) + "  events.jsonl\n"@
}

/// One file of a bundle.
#[derive(Debug)]
pub struct BundleFile {
    pub name: String,
    pub contents: String,
}

/// The mathematical form of a file of a bundle.
pub struct BundleFileView {
    pub name: Seq<char>,
    pub contents: Seq<char>,
}

impl View for BundleFile {
    type V = BundleFileView;

    open spec fn view(&self) -> BundleFileView {
        BundleFileView { name: self.name@, contents: self.contents@ }
    }
}

/// The files of the bundle of a run, in the order in which they are written.
pub open spec fn bundle(run: RunView) -> Seq<BundleFileView> {
    let metadata = run_json(run_summary(run));
    let events = events_jsonl(run.events);
    seq![
        BundleFileView { name: "run.json"@, contents: metadata },
        BundleFileView { name: "events.jsonl"@, contents: events },
        BundleFileView { name: "MANIFEST"@, contents: manifest(metadata, events) },
    ]
}

fn write_run(run: &StoredRun) -> (text: String)
    ensures
        text@ == run_json(run@),
{
    let mut text = "{\n  \"run_id\": ".to_owned();
    text.append(json_string(run.run_id.as_str()).as_str());
    text.append(",\n  \"status\": ");
    text.append(json_string(run.status.as_str()).as_str());
    text.append(",\n  \"current_step\": ");
    text.append(decimal_text(run.current_step as u64).as_str());
    text.append(",\n  \"total_steps\": ");
    text.append(decimal_text(run.total_steps as u64).as_str());
    text.append("\n}\n");
    text
}

fn write_event(event: &EventRecord) -> (text: String)
    ensures
        text@ == event_line(event@),
{
    let mut text = "{\"sequence\":".to_owned();
    text.append(decimal_text(event.sequence as u64).as_str());
    text.append(",\"type\":");
    text.append(json_string(event.event_type.as_str()).as_str());
    text.append(",\"step_index\":");
    match event.step_index {
        Some(index) => text.append(decimal_text(index as u64).as_str()),
        None => text.append("null"),
    }
    text.append(",\"payload\":");
    text.append(json_string(event.payload.as_str()).as_str());
    text.append("}\n");
    text
}

fn write_events(events: &Vec<EventRecord>) -> (text: String)
    ensures
        text@ == events_jsonl(views(events@)),
{
    let ghost all = views(events@);
    let mut text = String::new();
    let mut i: usize = 0;
    proof {
        assert(all.take(0) =~= Seq::<EventView>::empty());
        assert(text@ =~= Seq::<char>::empty());
    }
    while i < events.len()
        invariant
            all == views(events@),
            i <= events@.len(),
            text@ == events_jsonl(all.take(i as int)),
        decreases events@.len() - i,
    {
        proof {
            assert(all.take(i + 1).drop_last() =~= all.take(i as int));
            assert(all.take(i + 1).last() == events@[i as int]@);
        }
        text.append(write_event(&events[i]).as_str());
        i = i + 1;
    }
    proof {
        assert(all.take(all.len() as int) =~= all);
    }
    text
}

// Export

/// Why a bundle was not exported.
#[derive(Debug)]
pub enum AuditError {
    Io(String),
    Store(StoreError),
    DestinationNotEmpty(String),
}

/// The mathematical form of an audit error.
pub enum AuditErrorView {
    Io(Seq<char>),
    Store(StoreErrorView),
    DestinationNotEmpty(Seq<char>),
}

impl View for AuditError {
    type V = AuditErrorView;

    open spec fn view(&self) -> AuditErrorView {
        match self {
            AuditError::Io(message) => AuditErrorView::Io(message@),
            AuditError::Store(error) => AuditErrorView::Store(error@),
            AuditError::DestinationNotEmpty(path) => AuditErrorView::DestinationNotEmpty(path@),
        }
    }
}

/// The text of an audit error.
pub open spec fn audit_error_text(error: AuditErrorView) -> Seq<char> {
    match error {
        AuditErrorView::Io(message) => "I/O error: "@ + message,
        AuditErrorView::Store(error) => crate::store::store_error_text(error),
        AuditErrorView::DestinationNotEmpty(path) => "audit destination is not empty: "@ + path,
    }
}

impl AuditError {
    /// The text of the error.
    pub fn message(&self) -> (text: String)
        ensures
            text@ == audit_error_text(self@),
    {
        match self {
            AuditError::Io(message) => {
                let mut text = "I/O error: ".to_owned();
                text.append(message.as_str());
                text
            },
            AuditError::Store(error) => error.message(),
            AuditError::DestinationNotEmpty(path) => {
                let mut text = "audit destination is not empty: ".to_owned();
                text.append(path.as_str());
                text
            },
        }
    }
}

/// What the host found where a bundle is to be written. `Directory` says
/// whether it holds anything.
#[derive(Debug)]
pub enum Destination {
    Absent,
    Directory(Result<bool, String>),
    Other,
}

/// What has to be done before a bundle is written.
#[derive(Clone, Copy, Debug, PartialEq, Eq, Structural)]
pub enum Preparation {
    Ready,
    CreateDirectory,
}

/// What has to be done before a bundle is written, if it may be written.
pub open spec fn preparation(path: Seq<char>, found: Destination) -> Result<
    Preparation,
    AuditErrorView,
> {
    match found {
        Destination::Absent => Ok(Preparation::CreateDirectory),
        Destination::Directory(Err(message)) => Err(AuditErrorView::Io(message@)),
        Destination::Directory(Ok(occupied)) => if occupied {
            Err(AuditErrorView::DestinationNotEmpty(path))
        } else {
            Ok(Preparation::Ready)
        },
        Destination::Other => Err(AuditErrorView::DestinationNotEmpty(path)),
    }
}

/// Decides whether a bundle may be written to a destination: only where there
/// is nothing yet, or an empty directory.
pub fn prepare_destination(destination: &str, found: Destination) -> (result: Result<
    Preparation,
    AuditError,
>)
    ensures
        match result {
            Ok(done) => preparation(destination@, found) == Ok::<Preparation, AuditErrorView>(done),
            Err(error) => preparation(destination@, found) == Err::<Preparation, AuditErrorView>(
                error@,
            ),
        },
{
    match found {
        Destination::Absent => Ok(Preparation::CreateDirectory),
        Destination::Directory(Err(message)) => Err(AuditError::Io(message)),
        Destination::Directory(Ok(occupied)) => {
            if occupied {
                Err(AuditError::DestinationNotEmpty(destination.to_owned()))
            } else {
                Ok(Preparation::Ready)
            }
        },
        Destination::Other => Err(AuditError::DestinationNotEmpty(destination.to_owned())),
    }
}

/// The files of the bundle of a run, in the order in which they are written.
pub fn export(store: &Store, run_id: &str) -> (result: Result<Vec<BundleFile>, AuditError>)
    ensures
        match run_position(store@, run_id@) {
            Some(position) => result is Ok && views(result->Ok_0@) == bundle(store@[position]),
            None => result is Err && result->Err_0@ == AuditErrorView::Store(
                StoreErrorView::RunNotFound(run_id@),
            ),
        },
{
    let record = match store.record(run_id) {
        Ok(record) => record,
        Err(error) => return Err(AuditError::Store(error)),
    };
    let metadata = write_run(&record.summary());
    let events = write_events(&record.events);
    let mut digests = hash_text(metadata.as_str());
    digests.append("  run.json\n");
    digests.append(hash_text(events.as_str()).as_str());
    digests.append("  events.jsonl\n");
    let ghost expected = bundle(record@);
    let files = vec![
        BundleFile { name: "run.json".to_owned(), contents: metadata },
        BundleFile { name: "events.jsonl".to_owned(), contents: events },
        BundleFile { name: "MANIFEST".to_owned(), contents: digests },
    ];
    proof {
        assert(views(files@) =~= expected);
    }
    Ok(files)
}

// Laws

/// A bundle can be checked against its manifest: it holds two files and then the
/// manifest, which has a line for each of the two, in their order, made of the
/// digest of what the file holds, two spaces and its name, and nothing else.
pub proof fn manifests_hold_the_digest_of_each_file(run: RunView)
    ensures
        ({
            let files = bundle(run);
            &&& files.len() == 3
            &&& files[0].name != files[1].name
            &&& files[2].contents == (sha256_text(text_bytes(files[0].contents)) + "  "@
                + files[0].name + "\n"@) + (sha256_text(text_bytes(files[1].contents)) + "  "@
                + files[1].name + "\n"@)
            &&& files[0].name == "run.json"@
            &&& files[1].name == "events.jsonl"@
            &&& files[2].name == "MANIFEST"@
        }),
{
    let files = bundle(run);
    reveal_strlit("  run.json\n");
    reveal_strlit("  events.jsonl\n");
    reveal_strlit("  ");
    reveal_strlit("\n");
    reveal_strlit("run.json");
    reveal_strlit("events.jsonl");
    assert("  run.json\n"@ =~= "  "@ + "run.json"@ + "\n"@);
    assert("  events.jsonl\n"@ =~= "  "@ + "events.jsonl"@ + "\n"@);
    assert("run.json"@.len() != "events.jsonl"@.len());
    let one = text_hash(files[0].contents);
    let two = text_hash(files[1].contents);
    assert(files[2].contents =~= (one + "  "@ + files[0].name + "\n"@) + (two + "  "@
        + files[1].name + "\n"@));
}

/// A bundle holds what is known of the run and all of its events, in this order.
pub proof fn bundles_hold_the_whole_run(run: RunView)
    ensures
        bundle(run)[0].contents == run_json(run_summary(run)),
        bundle(run)[1].contents == events_jsonl(run.events),
{
}

/// The events of a run are written one after the other, each on its own.
pub proof fn events_are_written_in_their_order(front: Seq<EventView>, back: Seq<EventView>)
    ensures
        events_jsonl(front + back) == events_jsonl(front) + events_jsonl(back),
        front.len() == 1 ==> events_jsonl(front) == event_line(front[0]),
    decreases back.len(),
{
    if front.len() == 1 {
        assert(front.drop_last() =~= Seq::<EventView>::empty());
        assert(events_jsonl(front.drop_last()) =~= Seq::<char>::empty());
        assert(Seq::<char>::empty() + event_line(front[0]) =~= event_line(front[0]));
    }
    if back.len() == 0 {
        assert(front + back =~= front);
        assert(events_jsonl(front) + events_jsonl(back) =~= events_jsonl(front));
    } else {
        events_are_written_in_their_order(front, back.drop_last());
        assert((front + back).drop_last() =~= front + back.drop_last());
        assert((front + back).last() == back.last());
        assert(events_jsonl(front + back) =~= events_jsonl(front) + events_jsonl(back));
    }
}

proof fn lemma_event_words()
    ensures
        "{\"sequence\":"@ == "{"@ + "\"sequence\":"@,
        ",\"type\":"@ == ","@ + "\"type\":"@,
        ",\"step_index\":"@ == ","@ + "\"step_index\":"@,
        ",\"payload\":"@ == ","@ + "\"payload\":"@,
{
    reveal_strlit("{");
    reveal_strlit(",");
    reveal_strlit("\"sequence\":");
    reveal_strlit("\"type\":");
    reveal_strlit("\"step_index\":");
    reveal_strlit("\"payload\":");
    reveal_strlit("{\"sequence\":");
    reveal_strlit(",\"type\":");
    reveal_strlit(",\"step_index\":");
    reveal_strlit(",\"payload\":");
    assert("{\"sequence\":"@ =~= "{"@ + "\"sequence\":"@);
    assert(",\"type\":"@ =~= ","@ + "\"type\":"@);
    assert(",\"step_index\":"@ =~= ","@ + "\"step_index\":"@);
    assert(",\"payload\":"@ =~= ","@ + "\"payload\":"@);
}

/// What is written of an event: an object on one line, with its number, its
/// kind, the index of its step or null, and its payload, in this order.
pub proof fn event_lines_hold_their_event(event: EventView)
    ensures
        event_line(event) == "{"@ + joined(
            seq![
                "\"sequence\":"@ + decimal(event.sequence),
                "\"type\":"@ + quoted(event.event_type),
                "\"step_index\":"@ + (if event.step_index is Some {
                    decimal(event.step_index->0)
                } else {
                    "null"@
                }),
                "\"payload\":"@ + quoted(event.payload),
            ],
            ","@,
        ) + "}\n"@,
{
    lemma_event_words();
    let index = if event.step_index is Some {
        decimal(event.step_index->0)
    } else {
        "null"@
    };
    assert(index_json(event.step_index) == index);
    lemma_bracketed(
        "{"@,
        ","@,
        ("\"sequence\":"@, decimal(event.sequence)),
        ("\"type\":"@, quoted(event.event_type)),
        ("\"step_index\":"@, index),
        ("\"payload\":"@, quoted(event.payload)),
    );
    let parts = seq![
        "\"sequence\":"@ + decimal(event.sequence),
        "\"type\":"@ + quoted(event.event_type),
        "\"step_index\":"@ + index,
        "\"payload\":"@ + quoted(event.payload),
    ];
    assert(event_line(event) == "{"@ + joined(parts, ","@) + "}\n"@);
}

proof fn lemma_run_words()
    ensures
        "{\n  \"run_id\": "@ == "{\n"@ + "  \"run_id\": "@,
        ",\n  \"status\": "@ == ",\n"@ + "  \"status\": "@,
        ",\n  \"current_step\": "@ == ",\n"@ + "  \"current_step\": "@,
        ",\n  \"total_steps\": "@ == ",\n"@ + "  \"total_steps\": "@,
{
    reveal_strlit("{\n");
    reveal_strlit(",\n");
    reveal_strlit("  \"run_id\": ");
    reveal_strlit("  \"status\": ");
    reveal_strlit("  \"current_step\": ");
    reveal_strlit("  \"total_steps\": ");
    reveal_strlit("{\n  \"run_id\": ");
    reveal_strlit(",\n  \"status\": ");
    reveal_strlit(",\n  \"current_step\": ");
    reveal_strlit(",\n  \"total_steps\": ");
    assert("{\n  \"run_id\": "@ =~= "{\n"@ + "  \"run_id\": "@);
    assert(",\n  \"status\": "@ =~= ",\n"@ + "  \"status\": "@);
    assert(",\n  \"current_step\": "@ =~= ",\n"@ + "  \"current_step\": "@);
    assert(",\n  \"total_steps\": "@ =~= ",\n"@ + "  \"total_steps\": "@);
}

proof fn lemma_next_part(
    before: Seq<char>,
    between: Seq<char>,
    name: Seq<char>,
    value: Seq<char>,
)
    ensures
        before + (between + name) + value == before + between + (name + value),
{
    assert(before + (between + name) + value =~= before + between + (name + value));
}

proof fn lemma_bracketed(
    open: Seq<char>,
    between: Seq<char>,
    first: (Seq<char>, Seq<char>),
    second: (Seq<char>, Seq<char>),
    third: (Seq<char>, Seq<char>),
    fourth: (Seq<char>, Seq<char>),
)
    ensures
        (open + first.0) + first.1 + (between + second.0) + second.1 + (between + third.0) + third.1
            + (between + fourth.0) + fourth.1 == open + joined(
            seq![
                first.0 + first.1,
                second.0 + second.1,
                third.0 + third.1,
                fourth.0 + fourth.1,
            ],
            between,
        ),
{
    let a = first.0 + first.1;
    let b = second.0 + second.1;
    let c = third.0 + third.1;
    let d = fourth.0 + fourth.1;
    let parts = seq![a, b, c, d];
    assert(parts.drop_last() =~= seq![a, b, c]);
    assert(parts.drop_last().drop_last() =~= seq![a, b]);
    assert(parts.drop_last().drop_last().drop_last() =~= seq![a]);
    reveal_with_fuel(joined, 4);
    let two = (open + first.0) + first.1;
    assert(two =~= open + a);
    lemma_next_part(two, between, second.0, second.1);
    let three = two + (between + second.0) + second.1;
    assert(open + a + between + b =~= open + (a + between + b));
    lemma_next_part(three, between, third.0, third.1);
    let four = three + (between + third.0) + third.1;
    let inner = a + between + b;
    assert(open + inner + between + c =~= open + (inner + between + c));
    lemma_next_part(four, between, fourth.0, fourth.1);
    let outer = inner + between + c;
    assert(open + outer + between + d =~= open + (outer + between + d));
}

/// What is written of a run: an object with a line for each of its identifier,
/// its state, how far it has come and how many steps it has, in this order.
pub proof fn run_files_hold_their_run(run: StoredRunView)
    ensures
        run_json(run) == "{\n"@ + joined(
            seq![
                "  \"run_id\": "@ + quoted(run.run_id),
                "  \"status\": "@ + quoted(status_name(run.status)),
                "  \"current_step\": "@ + decimal(run.current_step),
                "  \"total_steps\": "@ + decimal(run.total_steps),
            ],
            ",\n"@,
        ) + "\n}\n"@,
{
    lemma_run_words();
    lemma_bracketed(
        "{\n"@,
        ",\n"@,
        ("  \"run_id\": "@, quoted(run.run_id)),
        ("  \"status\": "@, quoted(status_name(run.status))),
        ("  \"current_step\": "@, decimal(run.current_step)),
        ("  \"total_steps\": "@, decimal(run.total_steps)),
    );
}

/// The character that the inner part of a JSON string begins with, and how many
/// characters it takes, by the rules of JSON.
pub open spec fn read_character(text: Seq<char>) -> Option<(char, int)> {
    if text.len() == 0 || text[0] == '"' {
        None
    } else if text[0] != '\\' {
        Some((text[0], 1))
    } else if text.len() < 2 {
        None
    } else if text[1] == '"' || text[1] == '\\' || text[1] == '/' {
        Some((text[1], 2))
    } else if text[1] == 'n' {
        Some(('\n', 2))
    } else if text[1] == 'r' {
        Some(('\r', 2))
    } else if text[1] == 't' {
        Some(('\t', 2))
    } else if text[1] == 'u' && text.len() >= 6 {
        match (
            hex_value(text[2]),
            hex_value(text[3]),
            hex_value(text[4]),
            hex_value(text[5]),
        ) {
            (Some(a), Some(b), Some(c), Some(d)) => Some(
                ((4096 * a + 256 * b + 16 * c + d) as char, 6),
            ),
            _ => None,
        }
    } else {
        None
    }
}

/// What the inner part of a JSON string stands for.
pub open spec fn unescaped(text: Seq<char>) -> Option<Seq<char>>
    decreases text.len(),
{
    if text.len() == 0 {
        Some(Seq::empty())
    } else {
        match read_character(text) {
            None => None,
            Some((character, count)) => if 0 < count <= text.len() {
                match unescaped(text.skip(count)) {
                    None => None,
                    Some(rest) => Some(seq![character] + rest),
                }
            } else {
                None
            },
        }
    }
}

proof fn lemma_escape_reads_back(character: char, rest: Seq<char>)
    ensures
        read_character(escape(character) + rest) == Some(
            (character, escape(character).len() as int),
        ),
        escape(character).len() > 0,
{
    let whole = escape(character) + rest;
    if is_control(character) && character != '\n' && character != '\r' && character != '\t' {
        let byte = character as u8;
        assert(byte as int == character as int);
        let high = byte as int / 16;
        let low = byte as int % 16;
        assert(0 <= high < 16 && 0 <= low < 16);
        assert(whole[2] == '0' && whole[3] == '0');
        assert(whole[4] == hex_digit(high));
        assert(whole[5] == hex_digit(low));
        assert(hex_value(hex_digit(high)) == Some(high));
        assert(hex_value(hex_digit(low)) == Some(low));
        assert(16 * high + low == byte);
    }
}

/// A text that is written as a JSON string is in quotes, and by the rules of JSON
/// what stands between them stands for the text.
pub proof fn json_strings_read_back(text: Seq<char>)
    ensures
        quoted(text).len() >= 2,
        quoted(text)[0] == '"',
        quoted(text).last() == '"',
        unescaped(quoted(text).subrange(1, quoted(text).len() - 1)) == Some(text),
{
    lemma_escaped_reads_back(text);
    assert(quoted(text).subrange(1, quoted(text).len() - 1) =~= escaped(text));
}

proof fn lemma_escaped_reads_back(text: Seq<char>)
    ensures
        unescaped(escaped(text)) == Some(text),
    decreases text.len(),
{
    if text.len() == 0 {
        assert(text =~= Seq::<char>::empty());
    } else {
        let rest = escaped(text.skip(1));
        lemma_escaped_reads_back(text.skip(1));
        lemma_escape_reads_back(text[0], rest);
        assert((escape(text[0]) + rest).skip(escape(text[0]).len() as int) =~= rest);
        assert(seq![text[0]] + text.skip(1) =~= text);
    }
}

/// A bundle is written only where nothing is: to a directory that is made for
/// it, or to one that is there and is empty.
pub proof fn bundles_go_to_empty_places(path: Seq<char>, found: Destination)
    ensures
        preparation(path, found) == Ok::<Preparation, AuditErrorView>(
            Preparation::CreateDirectory,
        ) <==> found is Absent,
        preparation(path, found) == Ok::<Preparation, AuditErrorView>(Preparation::Ready) <==> (
        found matches Destination::Directory(Ok(occupied)) && !occupied),
        found matches Destination::Directory(Ok(occupied)) && occupied ==> preparation(path, found)
            == Err::<Preparation, AuditErrorView>(AuditErrorView::DestinationNotEmpty(path)),
        found is Other ==> preparation(path, found) == Err::<Preparation, AuditErrorView>(
            AuditErrorView::DestinationNotEmpty(path),
        ),
{
}

} // verus!
