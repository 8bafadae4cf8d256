//! What is kept of a run: its steps, its recorded effects and its events.

use crate::number::{decimal, decimal_text};
use crate::run::{
    idempotency_key, key_for, RunStatus, StepDefinition, StepDefinitionView,
};
use crate::text::{opt_view, res_view, same_text, unit_view, views};
use vstd::prelude::*;
use vstd::string::StringExecFns;

verus! {

// Errors

/// Why the store refused an operation.
#[derive(Debug)]
pub enum StoreError {
    Io(String),
    Sql(String),
    InvalidStatus(String),
    RunNotFound(String),
}

/// The mathematical form of a store error.
pub enum StoreErrorView {
    Io(Seq<char>),
    Sql(Seq<char>),
    InvalidStatus(Seq<char>),
    RunNotFound(Seq<char>),
}

impl View for StoreError {
    type V = StoreErrorView;

    open spec fn view(&self) -> StoreErrorView {
        match self {
            StoreError::Io(message) => StoreErrorView::Io(message@),
            StoreError::Sql(message) => StoreErrorView::Sql(message@),
            StoreError::InvalidStatus(message) => StoreErrorView::InvalidStatus(message@),
            StoreError::RunNotFound(message) => StoreErrorView::RunNotFound(message@),
        }
    }
}

/// The text of a store error.
pub open spec fn store_error_text(error: StoreErrorView) -> Seq<char> {
    match error {
        StoreErrorView::Io(message) => "I/O error: "@ + message,
        StoreErrorView::Sql(message) => "database error: "@ + message,
        StoreErrorView::InvalidStatus(message) => message,
        StoreErrorView::RunNotFound(message) => "run `"@ + message + "` was not found"@,
    }
}

impl StoreError {
    /// The text of the error.
    pub fn message(&self) -> (text: String)
        ensures
            text@ == store_error_text(self@),
    {
        match self {
            StoreError::Io(message) => {
                let mut text = "I/O error: ".to_owned();
                text.append(message.as_str());
                text
            },
            StoreError::Sql(message) => {
                let mut text = "database error: ".to_owned();
                text.append(message.as_str());
                text
            },
            StoreError::InvalidStatus(message) => message.clone(),
            StoreError::RunNotFound(message) => {
                let mut text = "run `".to_owned();
                text.append(message.as_str());
                text.append("` was not found");
                text
            },
        }
    }
}

// Records

/// A run, as a caller sees it.
#[derive(Debug)]
pub struct StoredRun {
    pub run_id: String,
    pub status: RunStatus,
    pub current_step: usize,
    pub total_steps: usize,
}

/// The mathematical form of a stored run.
pub struct StoredRunView {
    pub run_id: Seq<char>,
    pub status: RunStatus,
    pub current_step: nat,
    pub total_steps: nat,
}

impl View for StoredRun {
    type V = StoredRunView;

    open spec fn view(&self) -> StoredRunView {
        StoredRunView {
            run_id: self.run_id@,
            status: self.status,
            current_step: self.current_step as nat,
            total_steps: self.total_steps as nat,
        }
    }
}

/// What a step that uses a tool needs to run again in another process.
#[derive(Debug)]
pub struct ToolStepSpec {
    pub idempotency_key: String,
    pub workspace_root: String,
    pub tool_name: String,
    pub path: String,
    pub contents: Option<String>,
    pub read_only: bool,
    pub denied_tool: Option<String>,
    pub max_write_bytes: Option<usize>,
}

/// The mathematical form of a tool step.
pub struct ToolStepSpecView {
    pub idempotency_key: Seq<char>,
    pub workspace_root: Seq<char>,
    pub tool_name: Seq<char>,
    pub path: Seq<char>,
    pub contents: Option<Seq<char>>,
    pub read_only: bool,
    pub denied_tool: Option<Seq<char>>,
    pub max_write_bytes: Option<nat>,
}

impl View for ToolStepSpec {
    type V = ToolStepSpecView;

    open spec fn view(&self) -> ToolStepSpecView {
        ToolStepSpecView {
            idempotency_key: self.idempotency_key@,
            workspace_root: self.workspace_root@,
            tool_name: self.tool_name@,
            path: self.path@,
            contents: opt_view(self.contents),
            read_only: self.read_only,
            denied_tool: opt_view(self.denied_tool),
            max_write_bytes: crate::exec::opt_count(self.max_write_bytes),
        }
    }
}

/// A step of a run, as it is stored.
#[derive(Debug)]
pub struct StoredStep {
    pub index: usize,
    pub id: String,
    pub completed: bool,
    pub output: Option<String>,
    pub spec: Option<ToolStepSpec>,
}

/// The mathematical form of a stored step.
pub struct StoredStepView {
    pub index: nat,
    pub id: Seq<char>,
    pub completed: bool,
    pub output: Option<Seq<char>>,
    pub spec: Option<ToolStepSpecView>,
}

impl View for StoredStep {
    type V = StoredStepView;

    open spec fn view(&self) -> StoredStepView {
        StoredStepView {
            index: self.index as nat,
            id: self.id@,
            completed: self.completed,
            output: opt_view(self.output),
            spec: opt_view(self.spec),
        }
    }
}

/// The recorded output of a tool, under the key of its step.
#[derive(Debug)]
pub struct ToolResult {
    pub idempotency_key: String,
    pub output: String,
}

/// The mathematical form of a recorded output.
pub struct ToolResultView {
    pub idempotency_key: Seq<char>,
    pub output: Seq<char>,
}

impl View for ToolResult {
    type V = ToolResultView;

    open spec fn view(&self) -> ToolResultView {
        ToolResultView { idempotency_key: self.idempotency_key@, output: self.output@ }
    }
}

/// One entry of the audit trail.
#[derive(Debug)]
pub struct EventRecord {
    pub sequence: usize,
    pub event_type: String,
    pub step_index: Option<usize>,
    pub payload: String,
}

/// The mathematical form of an event.
pub struct EventView {
    pub sequence: nat,
    pub event_type: Seq<char>,
    pub step_index: Option<nat>,
    pub payload: Seq<char>,
}

impl View for EventRecord {
    type V = EventView;

    open spec fn view(&self) -> EventView {
        EventView {
            sequence: self.sequence as nat,
            event_type: self.event_type@,
            step_index: opt_index(self.step_index),
            payload: self.payload@,
        }
    }
}

/// The mathematical form of an optional step index.
pub open spec fn opt_index(index: Option<usize>) -> Option<nat> {
    match index {
        Some(i) => Some(i as nat),
        None => None,
    }
}

/// Everything that is kept of one run.
#[derive(Debug)]
pub struct RunRecord {
    pub run_id: String,
    pub status: RunStatus,
    pub current_step: usize,
    pub steps: Vec<StoredStep>,
    pub results: Vec<ToolResult>,
    pub events: Vec<EventRecord>,
}

/// The mathematical form of a run.
pub struct RunView {
    pub run_id: Seq<char>,
    pub status: RunStatus,
    pub current_step: nat,
    pub steps: Seq<StoredStepView>,
    pub results: Seq<ToolResultView>,
    pub events: Seq<EventView>,
}

impl View for RunRecord {
    type V = RunView;

    open spec fn view(&self) -> RunView {
        RunView {
            run_id: self.run_id@,
            status: self.status,
            current_step: self.current_step as nat,
            steps: views(self.steps@),
            results: views(self.results@),
            events: views(self.events@),
        }
    }
}

// The rules of a run

/// A run with one more event at the end of its trail.
pub open spec fn with_event(
    run: RunView,
    event_type: Seq<char>,
    step_index: Option<nat>,
    payload: Seq<char>,
) -> RunView {
    RunView {
        events: run.events.push(
            EventView { sequence: run.events.len(), event_type, step_index, payload },
        ),
        ..run
    }
}

/// A step that is planned and not done.
pub open spec fn pending_step(definition: StepDefinitionView) -> StoredStepView {
    StoredStepView {
        index: definition.index,
        id: definition.id,
        completed: false,
        output: None,
        spec: None,
    }
}

/// Whether some step has an index.
pub open spec fn has_index(steps: Seq<StoredStepView>, index: nat) -> bool {
    exists|i: int| 0 <= i < steps.len() && (#[trigger] steps[i]).index == index
}

/// Whether some step has an identifier.
pub open spec fn has_id(steps: Seq<StoredStepView>, id: Seq<char>) -> bool {
    exists|i: int| 0 <= i < steps.len() && (#[trigger] steps[i]).id == id
}

/// The steps with one more, put behind the steps of lower index.
pub open spec fn insert_step(steps: Seq<StoredStepView>, step: StoredStepView) -> Seq<StoredStepView>
    decreases steps.len(),
{
    if steps.len() == 0 || steps.last().index < step.index {
        steps.push(step)
    } else {
        insert_step(steps.drop_last(), step).push(steps.last())
    }
}

/// The steps with the planned ones added, in the order of their indices; an
/// error where an identifier or an index occurs twice, the identifier first.
pub open spec fn add_steps(
    steps: Seq<StoredStepView>,
    definitions: Seq<StepDefinitionView>,
) -> Result<Seq<StoredStepView>, StoreErrorView>
    decreases definitions.len(),
{
    if definitions.len() == 0 {
        Ok(steps)
    } else {
        match add_steps(steps, definitions.drop_last()) {
            Err(error) => Err(error),
            Ok(before) => if has_id(before, definitions.last().id) {
                Err(
                    StoreErrorView::Sql("UNIQUE constraint failed: steps.run_id, steps.step_id"@),
                )
            } else if has_index(before, definitions.last().index) {
                Err(
                    StoreErrorView::Sql(
                        "UNIQUE constraint failed: steps.run_id, steps.step_index"@,
                    ),
                )
            } else {
                Ok(insert_step(before, pending_step(definitions.last())))
            },
        }
    }
}

/// The payload that tells how many steps were planned.
pub open spec fn steps_payload(count: nat) -> Seq<char> {
    "steps="@ + decimal(count)
}

/// A run before its first event.
pub open spec fn blank_run(run_id: Seq<char>, steps: Seq<StoredStepView>) -> RunView {
    RunView {
        run_id,
        status: RunStatus::Created,
        current_step: 0,
        steps,
        results: Seq::empty(),
        events: Seq::empty(),
    }
}

/// A run that was just created.
pub open spec fn created_run(
    run_id: Seq<char>,
    definitions: Seq<StepDefinitionView>,
) -> Result<RunView, StoreErrorView> {
    match add_steps(Seq::empty(), definitions) {
        Err(error) => Err(error),
        Ok(steps) => Ok(
            with_event(
                blank_run(run_id, steps),
                "run.created"@,
                None,
                steps_payload(definitions.len()),
            ),
        ),
    }
}

/// A run that was marked as running.
pub open spec fn started_run(run: RunView) -> RunView {
    with_event(RunView { status: RunStatus::Running, ..run }, "run.started"@, None, ""@)
}

/// A run that was marked as succeeded.
pub open spec fn finished_run(run: RunView) -> RunView {
    with_event(
        RunView { status: RunStatus::Succeeded, ..run },
        "run.finished"@,
        None,
        "status=succeeded"@,
    )
}

/// A run with planned steps added.
pub open spec fn expanded_run(
    run: RunView,
    definitions: Seq<StepDefinitionView>,
) -> Result<RunView, StoreErrorView> {
    match add_steps(run.steps, definitions) {
        Err(error) => Err(error),
        Ok(steps) => Ok(
            with_event(
                RunView { steps, ..run },
                "run.plan_expanded"@,
                None,
                steps_payload(definitions.len()),
            ),
        ),
    }
}

/// The position of the first step with an index.
pub open spec fn step_position(steps: Seq<StoredStepView>, index: nat) -> Option<int>
    decreases steps.len(),
{
    if steps.len() == 0 {
        None
    } else {
        match step_position(steps.drop_last(), index) {
            Some(position) => Some(position),
            None => if steps.last().index == index {
                Some(steps.len() - 1)
            } else {
                None
            },
        }
    }
}

/// The error for a step that is not there.
pub open spec fn missing_step(run_id: Seq<char>, index: nat) -> StoreErrorView {
    StoreErrorView::RunNotFound("step "@ + decimal(index) + " in run `"@ + run_id + "`"@)
}

/// The payload of a checkpoint.
pub open spec fn key_payload(key: Seq<char>) -> Seq<char> {
    "idempotency_key="@ + key
}

/// A run in which a pending step was done.
pub open spec fn with_output(run: RunView, position: int, output: Seq<char>) -> RunView {
    let step = run.steps[position];
    let done = StoredStepView { completed: true, output: Some(output), ..step };
    with_event(
        with_event(
            RunView { steps: run.steps.update(position, done), ..run },
            "step.completed"@,
            Some(step.index),
            ""@,
        ),
        "checkpoint.saved"@,
        Some(step.index),
        key_payload(key_for(run.run_id, step.index)),
    )
}

/// A run whose progress reaches past a step.
pub open spec fn past_step(run: RunView, index: nat) -> RunView {
    RunView {
        current_step: if run.current_step < index + 1 {
            index + 1
        } else {
            run.current_step
        },
        ..run
    }
}

/// A run in which the step with an index was completed. A step that was
/// completed before keeps its output, and its completion leaves no new event.
pub open spec fn completed_run(
    run: RunView,
    index: nat,
    output: Seq<char>,
) -> Result<RunView, StoreErrorView> {
    match step_position(run.steps, index) {
        None => Err(missing_step(run.run_id, index)),
        Some(position) => if run.steps[position].completed {
            Ok(past_step(run, index))
        } else {
            Ok(past_step(with_output(run, position, output), index))
        },
    }
}

/// A run in which the step with an index was given a tool to use.
pub open spec fn configured_run(
    run: RunView,
    index: nat,
    spec: ToolStepSpecView,
) -> Result<RunView, StoreErrorView> {
    match step_position(run.steps, index) {
        None => Err(missing_step(run.run_id, index)),
        Some(position) => Ok(
            RunView {
                steps: run.steps.update(
                    position,
                    StoredStepView { spec: Some(spec), ..run.steps[position] },
                ),
                ..run
            },
        ),
    }
}

/// The output that is recorded under a key, if there is one.
pub open spec fn result_for(results: Seq<ToolResultView>, key: Seq<char>) -> Option<Seq<char>>
    decreases results.len(),
{
    if results.len() == 0 {
        None
    } else {
        match result_for(results.drop_last(), key) {
            Some(output) => Some(output),
            None => if results.last().idempotency_key == key {
                Some(results.last().output)
            } else {
                None
            },
        }
    }
}

/// A run with an output recorded under a key.
pub open spec fn with_result(run: RunView, key: Seq<char>, output: Seq<char>) -> RunView {
    RunView {
        results: run.results.push(ToolResultView { idempotency_key: key, output }),
        ..run
    }
}

/// What a caller sees of a run.
pub open spec fn run_summary(run: RunView) -> StoredRunView {
    StoredRunView {
        run_id: run.run_id,
        status: run.status,
        current_step: run.current_step,
        total_steps: run.steps.len(),
    }
}

// Copies

/// A copy of an optional text.
pub(crate) fn copy_text(text: &Option<String>) -> (copy: Option<String>)
    ensures
        copy == *text,
{
    match text {
        Some(inner) => Some(inner.clone()),
        None => None,
    }
}

impl Clone for ToolStepSpec {
    fn clone(&self) -> (copy: ToolStepSpec)
        ensures
            copy == *self,
    {
        ToolStepSpec {
            idempotency_key: self.idempotency_key.clone(),
            workspace_root: self.workspace_root.clone(),
            tool_name: self.tool_name.clone(),
            path: self.path.clone(),
            contents: copy_text(&self.contents),
            read_only: self.read_only,
            denied_tool: copy_text(&self.denied_tool),
            max_write_bytes: self.max_write_bytes,
        }
    }
}

impl Clone for StoredStep {
    fn clone(&self) -> (copy: StoredStep)
        ensures
            copy == *self,
    {
        StoredStep {
            index: self.index,
            id: self.id.clone(),
            completed: self.completed,
            output: copy_text(&self.output),
            spec: match &self.spec {
                Some(spec) => Some(spec.clone()),
                None => None,
            },
        }
    }
}

impl Clone for EventRecord {
    fn clone(&self) -> (copy: EventRecord)
        ensures
            copy == *self,
    {
        EventRecord {
            sequence: self.sequence,
            event_type: self.event_type.clone(),
            step_index: self.step_index,
            payload: self.payload.clone(),
        }
    }
}

impl Clone for ToolResult {
    fn clone(&self) -> (copy: ToolResult)
        ensures
            copy == *self,
    {
        ToolResult { idempotency_key: self.idempotency_key.clone(), output: self.output.clone() }
    }
}

impl Clone for RunRecord {
    fn clone(&self) -> (copy: RunRecord)
        ensures
            copy@ == self@,
    {
        let mut results: Vec<ToolResult> = Vec::new();
        let mut i: usize = 0;
        while i < self.results.len()
            invariant
                i <= self.results@.len(),
                results@ == self.results@.take(i as int),
            decreases self.results@.len() - i,
        {
            results.push(self.results[i].clone());
            i = i + 1;
            proof {
                assert(self.results@.take(i as int) =~= self.results@.take(i - 1).push(
                    self.results@[i - 1],
                ));
            }
        }
        proof {
            assert(self.results@.take(self.results@.len() as int) =~= self.results@);
        }
        RunRecord {
            run_id: self.run_id.clone(),
            status: self.status,
            current_step: self.current_step,
            steps: copy_steps(&self.steps),
            results,
            events: copy_events(&self.events),
        }
    }
}

fn copy_events(events: &Vec<EventRecord>) -> (copy: Vec<EventRecord>)
    ensures
        copy@ == events@,
{
    let mut copy: Vec<EventRecord> = Vec::new();
    let mut i: usize = 0;
    while i < events.len()
        invariant
            i <= events@.len(),
            copy@ == events@.take(i as int),
        decreases events@.len() - i,
    {
        copy.push(events[i].clone());
        i = i + 1;
        proof {
            assert(events@.take(i as int) =~= events@.take(i - 1).push(events@[i - 1]));
        }
    }
    proof {
        assert(events@.take(events@.len() as int) =~= events@);
    }
    copy
}

fn copy_steps(steps: &Vec<StoredStep>) -> (copy: Vec<StoredStep>)
    ensures
        copy@ == steps@,
{
    let mut copy: Vec<StoredStep> = Vec::new();
    let mut i: usize = 0;
    while i < steps.len()
        invariant
            i <= steps@.len(),
            copy@ == steps@.take(i as int),
        decreases steps@.len() - i,
    {
        copy.push(steps[i].clone());
        i = i + 1;
        proof {
            assert(steps@.take(i as int) =~= steps@.take(i - 1).push(steps@[i - 1]));
        }
    }
    proof {
        assert(steps@.take(steps@.len() as int) =~= steps@);
    }
    copy
}

// Operations on one run

/// What is known of the position of a step.
pub proof fn lemma_step_position(steps: Seq<StoredStepView>, index: nat)
    ensures
        match step_position(steps, index) {
            Some(position) => 0 <= position < steps.len() && steps[position].index == index && forall|
                j: int,
            |
                0 <= j < position ==> (#[trigger] steps[j]).index != index,
            None => forall|j: int| 0 <= j < steps.len() ==> (#[trigger] steps[j]).index != index,
        },
    decreases steps.len(),
{
    if steps.len() > 0 {
        let front = steps.drop_last();
        lemma_step_position(front, index);
        assert forall|j: int| 0 <= j < front.len() implies #[trigger] steps[j] == front[j] by {}
    }
}

/// The position of the step with an index.
pub fn find_step(steps: &Vec<StoredStep>, index: usize) -> (found: Option<usize>)
    ensures
        match found {
            Some(position) => step_position(views(steps@), index as nat) == Some(position as int)
                && position < steps@.len(),
            None => step_position(views(steps@), index as nat) is None,
        },
{
    proof {
        lemma_step_position(views(steps@), index as nat);
    }
    let mut i: usize = 0;
    while i < steps.len()
        invariant
            i <= steps@.len(),
            forall|j: int| 0 <= j < i ==> (#[trigger] views(steps@)[j]).index != index,
        decreases steps@.len() - i,
    {
        if steps[i].index == index {
            proof {
                lemma_step_position(views(steps@), index as nat);
                assert(views(steps@)[i as int].index == index);
            }
            return Some(i);
        }
        i = i + 1;
    }
    None
}

fn no_such_step(run_id: &str, step_index: usize) -> (error: StoreError)
    ensures
        error@ == missing_step(run_id@, step_index as nat),
{
    let mut message = "step ".to_owned();
    message.append(decimal_text(step_index as u64).as_str());
    message.append(" in run `");
    message.append(run_id);
    message.append("`");
    StoreError::RunNotFound(message)
}

fn index_taken(steps: &Vec<StoredStep>, index: usize) -> (taken: bool)
    ensures
        taken == has_index(views(steps@), index as nat),
{
    proof {
        lemma_step_position(views(steps@), index as nat);
    }
    find_step(steps, index).is_some()
}

fn id_taken(steps: &Vec<StoredStep>, id: &str) -> (taken: bool)
    ensures
        taken == has_id(views(steps@), id@),
{
    let mut i: usize = 0;
    while i < steps.len()
        invariant
            i <= steps@.len(),
            forall|j: int| 0 <= j < i ==> (#[trigger] views(steps@)[j]).id != id@,
        decreases steps@.len() - i,
    {
        if same_text(steps[i].id.as_str(), id) {
            assert(views(steps@)[i as int].id == id@);
            return true;
        }
        i = i + 1;
    }
    false
}

fn put_step(steps: &mut Vec<StoredStep>, step: StoredStep)
    ensures
        views(final(steps)@) == insert_step(views(old(steps)@), step@),
{
    let ghost before = views(steps@);
    let mut at: usize = steps.len();
    proof {
        assert(before.take(at as int) =~= before);
        assert(insert_step(before, step@) =~= insert_step(before.take(at as int), step@)
            + before.skip(at as int));
    }
    while at > 0 && steps[at - 1].index >= step.index
        invariant
            at <= steps@.len(),
            before == views(steps@),
            insert_step(before, step@) == insert_step(before.take(at as int), step@) + before.skip(
                at as int,
            ),
        decreases at,
    {
        proof {
            let front = before.take(at as int);
            assert(front.last() == before[at - 1]);
            assert(front.drop_last() =~= before.take(at - 1));
            assert(insert_step(front, step@) + before.skip(at as int) =~= insert_step(
                before.take(at - 1),
                step@,
            ) + before.skip(at - 1));
        }
        at = at - 1;
    }
    let ghost inserted = step@;
    proof {
        let front = before.take(at as int);
        if at > 0 {
            assert(front.last() == before[at - 1]);
        }
        assert(insert_step(front, step@) == front.push(step@));
    }
    steps.insert(at, step);
    proof {
        assert(views(steps@) =~= before.take(at as int).push(inserted) + before.skip(at as int));
    }
}

fn plan_steps(steps: Vec<StoredStep>, definitions: &Vec<StepDefinition>) -> (result: Result<
    Vec<StoredStep>,
    StoreError,
>)
    ensures
        match result {
            Ok(planned) => add_steps(views(steps@), views(definitions@)) == Ok::<
                Seq<StoredStepView>,
                StoreErrorView,
            >(views(planned@)),
            Err(error) => add_steps(views(steps@), views(definitions@)) == Err::<
                Seq<StoredStepView>,
                StoreErrorView,
            >(error@),
        },
{
    let ghost original = views(steps@);
    let ghost all = views(definitions@);
    let mut planned = steps;
    let mut i: usize = 0;
    proof {
        assert(all.take(0) =~= Seq::<StepDefinitionView>::empty());
    }
    while i < definitions.len()
        invariant
            all == views(definitions@),
            original == views(steps@),
            i <= definitions@.len(),
            add_steps(original, all.take(i as int)) == Ok::<Seq<StoredStepView>, StoreErrorView>(
                views(planned@),
            ),
        decreases definitions@.len() - i,
    {
        let definition = &definitions[i];
        proof {
            assert(all.take(i + 1).drop_last() =~= all.take(i as int));
            assert(all.take(i + 1).last() == definition@);
        }
        if id_taken(&planned, definition.id.as_str()) {
            proof {
                lemma_add_steps_fails(original, all, i + 1);
            }
            return Err(
                StoreError::Sql("UNIQUE constraint failed: steps.run_id, steps.step_id".to_owned()),
            );
        }
        if index_taken(&planned, definition.index) {
            proof {
                lemma_add_steps_fails(original, all, i + 1);
            }
            return Err(
                StoreError::Sql(
                    "UNIQUE constraint failed: steps.run_id, steps.step_index".to_owned(),
                ),
            );
        }
        let step = StoredStep {
            index: definition.index,
            id: definition.id.clone(),
            completed: false,
            output: None,
            spec: None,
        };
        assert(step@ == pending_step(definition@));
        put_step(&mut planned, step);
        i = i + 1;
    }
    proof {
        assert(all.take(all.len() as int) =~= all);
    }
    Ok(planned)
}

proof fn lemma_add_steps_fails(
    steps: Seq<StoredStepView>,
    definitions: Seq<StepDefinitionView>,
    upto: int,
)
    requires
        0 <= upto <= definitions.len(),
        add_steps(steps, definitions.take(upto)) is Err,
    ensures
        add_steps(steps, definitions) == add_steps(steps, definitions.take(upto)),
    decreases definitions.len() - upto,
{
    if upto < definitions.len() {
        assert(definitions.take(upto + 1).drop_last() =~= definitions.take(upto));
        lemma_add_steps_fails(steps, definitions, upto + 1);
    } else {
        assert(definitions.take(upto) =~= definitions);
    }
}

fn step_count_payload(count: usize) -> (payload: String)
    ensures
        payload@ == steps_payload(count as nat),
{
    let mut payload = "steps=".to_owned();
    payload.append(decimal_text(count as u64).as_str());
    payload
}

/// The payload that names a key.
pub(crate) fn idempotency_payload(key: &str) -> (payload: String)
    ensures
        payload@ == key_payload(key@),
{
    let mut payload = "idempotency_key=".to_owned();
    payload.append(key);
    payload
}

impl RunRecord {
    /// A new run with its steps planned.
    pub fn create(run_id: &str, definitions: &Vec<StepDefinition>) -> (result: Result<
        RunRecord,
        StoreError,
    >)
        ensures
            res_view(result) == created_run(run_id@, views(definitions@)),
    {
        let none: Vec<StoredStep> = Vec::new();
        proof {
            assert(views(none@) =~= Seq::<StoredStepView>::empty());
        }
        match plan_steps(none, definitions) {
            Err(error) => Err(error),
            Ok(steps) => {
                let mut record = RunRecord {
                    run_id: run_id.to_owned(),
                    status: RunStatus::Created,
                    current_step: 0,
                    steps,
                    results: Vec::new(),
                    events: Vec::new(),
                };
                proof {
                    assert(record@.results =~= Seq::<ToolResultView>::empty());
                    assert(record@.events =~= Seq::<EventView>::empty());
                }
                let payload = step_count_payload(definitions.len());
                record.record_event("run.created", None, payload.as_str());
                Ok(record)
            },
        }
    }

    /// Adds an event to the end of the trail.
    pub fn record_event(&mut self, event_type: &str, step_index: Option<usize>, payload: &str)
        ensures
            final(self)@ == with_event(
                old(self)@,
                event_type@,
                opt_index(step_index),
                payload@,
            ),
    {
        let event = EventRecord {
            sequence: self.events.len(),
            event_type: event_type.to_owned(),
            step_index,
            payload: payload.to_owned(),
        };
        let ghost before = self.events@;
        let ghost added = event@;
        self.events.push(event);
        proof {
            assert(views(self.events@) =~= views(before).push(added));
        }
    }

    /// Marks the run as running.
    pub fn mark_running(&mut self)
        ensures
            final(self)@ == started_run(old(self)@),
    {
        self.status = RunStatus::Running;
        self.record_event("run.started", None, "");
    }

    /// Marks the run as succeeded.
    pub fn finish_run(&mut self)
        ensures
            final(self)@ == finished_run(old(self)@),
    {
        self.status = RunStatus::Succeeded;
        self.record_event("run.finished", None, "status=succeeded");
    }

    /// Adds planned steps to the run.
    pub fn append_steps(&mut self, definitions: &Vec<StepDefinition>) -> (result: Result<
        (),
        StoreError,
    >)
        ensures
            match expanded_run(old(self)@, views(definitions@)) {
                Ok(run) => result is Ok && final(self)@ == run,
                Err(error) => unit_view(result) == Err::<(), StoreErrorView>(error) && final(self)@
                    == old(self)@,
            },
    {
        match plan_steps(copy_steps(&self.steps), definitions) {
            Err(error) => Err(error),
            Ok(steps) => {
                self.steps = steps;
                let payload = step_count_payload(definitions.len());
                self.record_event("run.plan_expanded", None, payload.as_str());
                Ok(())
            },
        }
    }

    pub(crate) fn missing_step(&self, step_index: usize) -> (error: StoreError)
        ensures
            error@ == missing_step(self@.run_id, step_index as nat),
    {
        no_such_step(self.run_id.as_str(), step_index)
    }

    /// Completes a step. A step that was completed before stays as it is.
    pub fn complete_step(&mut self, step_index: usize, output: &str) -> (result: Result<
        (),
        StoreError,
    >)
        requires
            step_index < usize::MAX,
        ensures
            match completed_run(old(self)@, step_index as nat, output@) {
                Ok(run) => result is Ok && final(self)@ == run,
                Err(error) => unit_view(result) == Err::<(), StoreErrorView>(error) && final(self)@
                    == old(self)@,
            },
    {
        let position = match find_step(&self.steps, step_index) {
            None => {
                return Err(self.missing_step(step_index));
            },
            Some(position) => position,
        };
        proof {
            lemma_step_position(self@.steps, step_index as nat);
        }
        if !self.steps[position].completed {
            let ghost before = self@;
            let mut step = self.steps[position].clone();
            step.completed = true;
            step.output = Some(output.to_owned());
            let ghost done = step@;
            self.steps.set(position, step);
            proof {
                assert(self@.steps =~= before.steps.update(position as int, done));
            }
            self.record_event("step.completed", Some(step_index), "");
            let key = idempotency_key(self.run_id.as_str(), step_index);
            let payload = idempotency_payload(key.as_str());
            self.record_event("checkpoint.saved", Some(step_index), payload.as_str());
        }
        if self.current_step < step_index + 1 {
            self.current_step = step_index + 1;
        }
        Ok(())
    }

    /// Gives a step a tool to use.
    pub fn configure_tool_step(&mut self, step_index: usize, spec: &ToolStepSpec) -> (result: Result<
        (),
        StoreError,
    >)
        ensures
            match configured_run(old(self)@, step_index as nat, spec@) {
                Ok(run) => result is Ok && final(self)@ == run,
                Err(error) => unit_view(result) == Err::<(), StoreErrorView>(error) && final(self)@
                    == old(self)@,
            },
    {
        let position = match find_step(&self.steps, step_index) {
            None => {
                return Err(self.missing_step(step_index));
            },
            Some(position) => position,
        };
        let ghost before = self@;
        let mut step = self.steps[position].clone();
        step.spec = Some(spec.clone());
        let ghost done = step@;
        self.steps.set(position, step);
        proof {
            assert(self@.steps =~= before.steps.update(position as int, done));
        }
        Ok(())
    }

    /// The output that is recorded under a key.
    pub fn recorded_result(&self, key: &str) -> (found: Option<String>)
        ensures
            opt_view(found) == result_for(self@.results, key@),
    {
        let ghost all = self@.results;
        let mut i: usize = 0;
        proof {
            assert(all.take(0) =~= Seq::<ToolResultView>::empty());
        }
        while i < self.results.len()
            invariant
                all == self@.results,
                i <= self.results@.len(),
                result_for(all.take(i as int), key@) is None,
            decreases self.results@.len() - i,
        {
            proof {
                assert(all.take(i + 1).drop_last() =~= all.take(i as int));
                assert(all.take(i + 1).last() == all[i as int]);
            }
            if same_text(self.results[i].idempotency_key.as_str(), key) {
                proof {
                    lemma_result_stays(all, i + 1, key@);
                }
                return Some(self.results[i].output.clone());
            }
            i = i + 1;
        }
        proof {
            assert(all.take(all.len() as int) =~= all);
        }
        None
    }

    /// Records an output under a key.
    pub fn record_result(&mut self, key: &str, output: &str)
        ensures
            final(self)@ == with_result(old(self)@, key@, output@),
    {
        let result = ToolResult { idempotency_key: key.to_owned(), output: output.to_owned() };
        let ghost before = self.results@;
        let ghost added = result@;
        self.results.push(result);
        proof {
            assert(views(self.results@) =~= views(before).push(added));
        }
    }

    /// What a caller sees of the run.
    pub fn summary(&self) -> (run: StoredRun)
        ensures
            run@ == run_summary(self@),
    {
        StoredRun {
            run_id: self.run_id.clone(),
            status: self.status,
            current_step: self.current_step,
            total_steps: self.steps.len(),
        }
    }
}

/// A result that is recorded stays as more are recorded.
pub proof fn lemma_result_stays(results: Seq<ToolResultView>, upto: int, key: Seq<char>)
    requires
        0 <= upto <= results.len(),
        result_for(results.take(upto), key) is Some,
    ensures
        result_for(results, key) == result_for(results.take(upto), key),
    decreases results.len() - upto,
{
    if upto < results.len() {
        assert(results.take(upto + 1).drop_last() =~= results.take(upto));
        lemma_result_stays(results, upto + 1, key);
    } else {
        assert(results.take(upto) =~= results);
    }
}

// All runs

/// The position of the run with an identifier.
pub open spec fn run_position(runs: Seq<RunView>, run_id: Seq<char>) -> Option<int>
    decreases runs.len(),
{
    if runs.len() == 0 {
        None
    } else {
        match run_position(runs.drop_last(), run_id) {
            Some(position) => Some(position),
            None => if runs.last().run_id == run_id {
                Some(runs.len() - 1)
            } else {
                None
            },
        }
    }
}

/// The runs with one of them changed; an error where it is missing or cannot be
/// changed.
pub open spec fn on_run(
    runs: Seq<RunView>,
    run_id: Seq<char>,
    change: spec_fn(RunView) -> Result<RunView, StoreErrorView>,
) -> Result<Seq<RunView>, StoreErrorView> {
    match run_position(runs, run_id) {
        None => Err(StoreErrorView::RunNotFound(run_id)),
        Some(position) => match change(runs[position]) {
            Ok(run) => Ok(runs.update(position, run)),
            Err(error) => Err(error),
        },
    }
}

/// The runs with a step of one of them completed; an error where the run or
/// the step is missing, which names both.
pub open spec fn with_completion(
    runs: Seq<RunView>,
    run_id: Seq<char>,
    index: nat,
    output: Seq<char>,
) -> Result<Seq<RunView>, StoreErrorView> {
    if run_position(runs, run_id) is None {
        Err(missing_step(run_id, index))
    } else {
        on_run(runs, run_id, |run: RunView| completed_run(run, index, output))
    }
}

/// The runs with a new one; an error where its identifier is taken or its steps
/// cannot be planned.
pub open spec fn with_run(
    runs: Seq<RunView>,
    run_id: Seq<char>,
    definitions: Seq<StepDefinitionView>,
) -> Result<Seq<RunView>, StoreErrorView> {
    if run_position(runs, run_id) is Some {
        Err(StoreErrorView::Sql("UNIQUE constraint failed: runs.run_id"@))
    } else {
        match created_run(run_id, definitions) {
            Ok(run) => Ok(runs.push(run)),
            Err(error) => Err(error),
        }
    }
}

/// That an operation did what was expected: the expected change and success, or
/// the expected error and no change.
pub open spec fn applied(
    before: Seq<RunView>,
    after: Seq<RunView>,
    result: Result<(), StoreErrorView>,
    expected: Result<Seq<RunView>, StoreErrorView>,
) -> bool {
    match expected {
        Ok(runs) => result is Ok && after == runs,
        Err(error) => result == Err::<(), StoreErrorView>(error) && after == before,
    }
}

/// The runs that are kept.
#[derive(Debug)]
pub struct Store {
    pub runs: Vec<RunRecord>,
}

impl View for Store {
    type V = Seq<RunView>;

    open spec fn view(&self) -> Seq<RunView> {
        views(self.runs@)
    }
}

/// What is known of the position of a run.
pub proof fn lemma_run_position(runs: Seq<RunView>, run_id: Seq<char>)
    ensures
        match run_position(runs, run_id) {
            Some(position) => 0 <= position < runs.len() && runs[position].run_id == run_id
                && forall|j: int| 0 <= j < position ==> (#[trigger] runs[j]).run_id != run_id,
            None => forall|j: int| 0 <= j < runs.len() ==> (#[trigger] runs[j]).run_id != run_id,
        },
    decreases runs.len(),
{
    if runs.len() > 0 {
        let front = runs.drop_last();
        lemma_run_position(front, run_id);
        assert forall|j: int| 0 <= j < front.len() implies #[trigger] runs[j] == front[j] by {}
    }
}

impl Store {
    /// A store without runs.
    pub fn new() -> (store: Store)
        ensures
            store@ == Seq::<RunView>::empty(),
    {
        let store = Store { runs: Vec::new() };
        proof {
            assert(store@ =~= Seq::<RunView>::empty());
        }
        store
    }

    fn find_run(&self, run_id: &str) -> (found: Option<usize>)
        ensures
            match found {
                Some(position) => run_position(self@, run_id@) == Some(position as int) && position
                    < self.runs@.len(),
                None => run_position(self@, run_id@) is None,
            },
    {
        proof {
            lemma_run_position(self@, run_id@);
        }
        let mut i: usize = 0;
        while i < self.runs.len()
            invariant
                i <= self.runs@.len(),
                forall|j: int| 0 <= j < i ==> (#[trigger] self@[j]).run_id != run_id@,
            decreases self.runs@.len() - i,
        {
            if same_text(self.runs[i].run_id.as_str(), run_id) {
                proof {
                    lemma_run_position(self@, run_id@);
                    assert(self@[i as int].run_id == run_id@);
                }
                return Some(i);
            }
            i = i + 1;
        }
        None
    }

    /// Adds a run with its steps planned.
    pub fn create_run(&mut self, run_id: &str, steps: &Vec<StepDefinition>) -> (result: Result<
        (),
        StoreError,
    >)
        ensures
            applied(
                old(self)@,
                final(self)@,
                unit_view(result),
                with_run(old(self)@, run_id@, views(steps@)),
            ),
    {
        if self.find_run(run_id).is_some() {
            return Err(StoreError::Sql("UNIQUE constraint failed: runs.run_id".to_owned()));
        }
        match RunRecord::create(run_id, steps) {
            Err(error) => Err(error),
            Ok(record) => {
                let ghost before = self.runs@;
                let ghost added = record@;
                self.runs.push(record);
                proof {
                    assert(views(self.runs@) =~= views(before).push(added));
                }
                Ok(())
            },
        }
    }

    /// Marks a run as running.
    pub fn mark_running(&mut self, run_id: &str) -> (result: Result<(), StoreError>)
        ensures
            applied(
                old(self)@,
                final(self)@,
                unit_view(result),
                on_run(
                    old(self)@,
                    run_id@,
                    |run: RunView| Ok::<RunView, StoreErrorView>(started_run(run)),
                ),
            ),
    {
        match self.find_run(run_id) {
            None => Err(StoreError::RunNotFound(run_id.to_owned())),
            Some(position) => {
                let ghost before = self@;
                self.runs[position].mark_running();
                proof {
                    assert(self@ =~= before.update(
                        position as int,
                        started_run(before[position as int]),
                    ));
                }
                Ok(())
            },
        }
    }

    /// Completes a step of a run.
    pub fn complete_step(&mut self, run_id: &str, step_index: usize, output: &str) -> (result: Result<
        (),
        StoreError,
    >)
        requires
            step_index < usize::MAX,
        ensures
            applied(
                old(self)@,
                final(self)@,
                unit_view(result),
                with_completion(old(self)@, run_id@, step_index as nat, output@),
            ),
    {
        match self.find_run(run_id) {
            None => Err(no_such_step(run_id, step_index)),
            Some(position) => {
                let ghost before = self@;
                let result = self.runs[position].complete_step(step_index, output);
                proof {
                    let change = |run: RunView| completed_run(run, step_index as nat, output@);
                    let changed = change(before[position as int]);
                    assert(self@ =~= match changed {
                        Ok(run) => before.update(position as int, run),
                        Err(_) => before,
                    });
                }
                result
            },
        }
    }

    /// Marks a run as succeeded.
    pub fn finish_run(&mut self, run_id: &str) -> (result: Result<(), StoreError>)
        ensures
            applied(
                old(self)@,
                final(self)@,
                unit_view(result),
                on_run(
                    old(self)@,
                    run_id@,
                    |run: RunView| Ok::<RunView, StoreErrorView>(finished_run(run)),
                ),
            ),
    {
        match self.find_run(run_id) {
            None => Err(StoreError::RunNotFound(run_id.to_owned())),
            Some(position) => {
                let ghost before = self@;
                self.runs[position].finish_run();
                proof {
                    let change = |run: RunView| Ok::<RunView, StoreErrorView>(finished_run(run));
                    let changed = change(before[position as int]);
                    assert(self@ =~= match changed {
                        Ok(run) => before.update(position as int, run),
                        Err(_) => before,
                    });
                }
                Ok(())
            },
        }
    }

    /// Adds an event to the trail of a run.
    pub fn record_event(&mut self, run_id: &str, event_type: &str, step_index: Option<usize>, payload: &str) -> (result: Result<(), StoreError>)
        ensures
            applied(
                old(self)@,
                final(self)@,
                unit_view(result),
                on_run(
                    old(self)@,
                    run_id@,
                    |run: RunView| Ok::<RunView, StoreErrorView>(
                        with_event(run, event_type@, opt_index(step_index), payload@),
                    ),
                ),
            ),
    {
        match self.find_run(run_id) {
            None => Err(StoreError::RunNotFound(run_id.to_owned())),
            Some(position) => {
                let ghost before = self@;
                self.runs[position].record_event(event_type, step_index, payload);
                proof {
                    let change = |run: RunView| Ok::<RunView, StoreErrorView>(
                        with_event(run, event_type@, opt_index(step_index), payload@),
                    );
                    let changed = change(before[position as int]);
                    assert(self@ =~= match changed {
                        Ok(run) => before.update(position as int, run),
                        Err(_) => before,
                    });
                }
                Ok(())
            },
        }
    }

    /// Gives a step of a run a tool to use.
    pub fn configure_tool_step(&mut self, run_id: &str, step_index: usize, spec: &ToolStepSpec) -> (result: Result<(), StoreError>)
        ensures
            applied(
                old(self)@,
                final(self)@,
                unit_view(result),
                on_run(
                    old(self)@,
                    run_id@,
                    |run: RunView| configured_run(run, step_index as nat, spec@),
                ),
            ),
    {
        match self.find_run(run_id) {
            None => Err(StoreError::RunNotFound(run_id.to_owned())),
            Some(position) => {
                let ghost before = self@;
                let result = self.runs[position].configure_tool_step(step_index, spec);
                proof {
                    let change = |run: RunView| configured_run(run, step_index as nat, spec@);
                    let changed = change(before[position as int]);
                    assert(self@ =~= match changed {
                        Ok(run) => before.update(position as int, run),
                        Err(_) => before,
                    });
                }
                result
            },
        }
    }

    /// Adds planned steps to a run.
    pub fn append_steps(&mut self, run_id: &str, definitions: &Vec<StepDefinition>) -> (result: Result<(), StoreError>)
        ensures
            applied(
                old(self)@,
                final(self)@,
                unit_view(result),
                on_run(
                    old(self)@,
                    run_id@,
                    |run: RunView| expanded_run(run, views(definitions@)),
                ),
            ),
    {
        match self.find_run(run_id) {
            None => Err(StoreError::RunNotFound(run_id.to_owned())),
            Some(position) => {
                let ghost before = self@;
                let result = self.runs[position].append_steps(definitions);
                proof {
                    let change = |run: RunView| expanded_run(run, views(definitions@));
                    let changed = change(before[position as int]);
                    assert(self@ =~= match changed {
                        Ok(run) => before.update(position as int, run),
                        Err(_) => before,
                    });
                }
                result
            },
        }
    }

    /// What is kept of a run.
    pub fn record(&self, run_id: &str) -> (result: Result<&RunRecord, StoreError>)
        ensures
            match run_position(self@, run_id@) {
                Some(position) => result is Ok && result->Ok_0@ == self@[position],
                None => result is Err && result->Err_0@ == StoreErrorView::RunNotFound(run_id@),
            },
    {
        match self.find_run(run_id) {
            None => Err(StoreError::RunNotFound(run_id.to_owned())),
            Some(position) => Ok(&self.runs[position]),
        }
    }

    /// A run that is to be changed.
    pub fn record_mut(&mut self, run_id: &str) -> (result: Result<&mut RunRecord, StoreError>)
        ensures
            match run_position(old(self)@, run_id@) {
                Some(position) => {
                    &&& result is Ok
                    &&& result->Ok_0@ == old(self)@[position]
                    &&& final(self)@ =~= old(self)@.update(position, final(result->Ok_0)@)
                },
                None => {
                    &&& result is Err
                    &&& result->Err_0@ == StoreErrorView::RunNotFound(run_id@)
                    &&& final(self)@ == old(self)@
                },
            },
    {
        match self.find_run(run_id) {
            None => Err(StoreError::RunNotFound(run_id.to_owned())),
            Some(position) => {
                Ok(&mut self.runs[position])
            },
        }
    }

    /// What a caller sees of a run.
    pub fn load_run(&self, run_id: &str) -> (result: Result<StoredRun, StoreError>)
        ensures
            res_view(result) == match run_position(self@, run_id@) {
                Some(position) => Ok::<StoredRunView, StoreErrorView>(run_summary(self@[position])),
                None => Err::<StoredRunView, StoreErrorView>(StoreErrorView::RunNotFound(run_id@)),
            },
    {
        match self.record(run_id) {
            Ok(record) => Ok(record.summary()),
            Err(error) => Err(error),
        }
    }

    /// The steps of a run, in the order of their indices; none of a run that is
    /// not kept.
    pub fn load_steps(&self, run_id: &str) -> (steps: Vec<StoredStep>)
        ensures
            views(steps@) == match run_position(self@, run_id@) {
                Some(position) => self@[position].steps,
                None => Seq::empty(),
            },
    {
        match self.find_run(run_id) {
            None => {
                let steps: Vec<StoredStep> = Vec::new();
                proof {
                    assert(views(steps@) =~= Seq::<StoredStepView>::empty());
                }
                steps
            },
            Some(position) => copy_steps(&self.runs[position].steps),
        }
    }

    /// The events of a run, in the order in which they were recorded; none of a
    /// run that is not kept.
    pub fn load_events(&self, run_id: &str) -> (events: Vec<EventRecord>)
        ensures
            views(events@) == match run_position(self@, run_id@) {
                Some(position) => self@[position].events,
                None => Seq::empty(),
            },
    {
        match self.find_run(run_id) {
            None => {
                let events: Vec<EventRecord> = Vec::new();
                proof {
                    assert(views(events@) =~= Seq::<EventView>::empty());
                }
                events
            },
            Some(position) => copy_events(&self.runs[position].events),
        }
    }
}

/// The status that a stored word stands for.
pub fn load_status(word: &str) -> (result: Result<RunStatus, StoreError>)
    ensures
        match crate::run::status_of(word@) {
            Ok(status) => result is Ok && result->Ok_0 == status,
            Err(message) => result is Err && result->Err_0@ == StoreErrorView::InvalidStatus(message),
        },
{
    match RunStatus::try_from(word) {
        Ok(status) => Ok(status),
        Err(message) => Err(StoreError::InvalidStatus(message)),
    }
}

/// A time as it is stored.
pub fn timestamp(seconds: u64) -> (stored: i64)
    ensures
        stored == if seconds <= i64::MAX {
            seconds as int
        } else {
            seconds - 0x1_0000_0000_0000_0000
        },
{
    proof {
        assert(seconds > 0x7fff_ffff_ffff_ffff ==> (seconds as i64) == seconds
            - 0x1_0000_0000_0000_0000) by (bit_vector);
    }
    seconds as i64
}

} // verus!
